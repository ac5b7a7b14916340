//! Registries of publishers and subscribers held by a session server, indexed
//! by the connection they came over and by their data id.
use vstd::prelude::*;
use crate::model::{connect_id_text, Publisher, PublisherView, Subscriber, SubscriberView};
use crate::strings::{str_eq, strs};

verus! {

/// A registration kept by a registry: it has a registration id, a data id
/// and the text of the connection it came over.
pub trait Registration: View + Sized {
    spec fn regist_key(v: Self::V) -> Seq<char>;

    spec fn data_key(v: Self::V) -> Seq<char>;

    spec fn conn_key(v: Self::V) -> Seq<char>;

    fn regist_id_ref(&self) -> (r: &str)
        ensures
            r@ == Self::regist_key(self@),
    ;

    fn data_info_id_ref(&self) -> (r: &str)
        ensures
            r@ == Self::data_key(self@),
    ;

    fn connect_key(&self) -> (r: String)
        ensures
            r@ == Self::conn_key(self@),
    ;

    fn duplicate(&self) -> (r: Self)
        ensures
            r@ == self@,
    ;
}

impl Registration for Publisher {
    open spec fn regist_key(v: PublisherView) -> Seq<char> {
        v.regist_id
    }

    open spec fn data_key(v: PublisherView) -> Seq<char> {
        v.data_info_id
    }

    open spec fn conn_key(v: PublisherView) -> Seq<char> {
        connect_id_text(v.source_address)
    }

    fn regist_id_ref(&self) -> (r: &str) {
        self.regist_id.as_str()
    }

    fn data_info_id_ref(&self) -> (r: &str) {
        self.data_info_id.as_str()
    }

    fn connect_key(&self) -> (r: String) {
        self.source_address.to_string()
    }

    fn duplicate(&self) -> (r: Self) {
        self.copy()
    }
}

impl Registration for Subscriber {
    open spec fn regist_key(v: SubscriberView) -> Seq<char> {
        v.regist_id
    }

    open spec fn data_key(v: SubscriberView) -> Seq<char> {
        v.data_info_id
    }

    open spec fn conn_key(v: SubscriberView) -> Seq<char> {
        connect_id_text(v.source_address)
    }

    fn regist_id_ref(&self) -> (r: &str) {
        self.regist_id.as_str()
    }

    fn data_info_id_ref(&self) -> (r: &str) {
        self.data_info_id.as_str()
    }

    fn connect_key(&self) -> (r: String) {
        self.source_address.to_string()
    }

    fn duplicate(&self) -> (r: Self) {
        self.copy()
    }
}

/// The models of a list of registrations.
pub open spec fn views<E: View>(s: Seq<E>) -> Seq<E::V> {
    s.map_values(|x: E| x@)
}

/// Position of the entry under `key` in an index, or -1.
pub open spec fn entry_pos<V>(idx: Seq<(Seq<char>, Seq<V>)>, key: Seq<char>) -> int
    decreases idx.len(),
{
    if idx.len() == 0 {
        -1
    } else if idx.last().0 == key {
        idx.len() - 1
    } else {
        entry_pos(idx.drop_last(), key)
    }
}

/// The list under `key`, empty when there is none.
pub open spec fn entry_of<V>(idx: Seq<(Seq<char>, Seq<V>)>, key: Seq<char>) -> Seq<V> {
    if entry_pos(idx, key) >= 0 {
        idx[entry_pos(idx, key)].1
    } else {
        Seq::empty()
    }
}

/// The index with the list under `key` replaced: an empty list removes the
/// entry, a new key is appended.
pub open spec fn set_entry<V>(idx: Seq<(Seq<char>, Seq<V>)>, key: Seq<char>, list: Seq<V>) -> Seq<
    (Seq<char>, Seq<V>),
> {
    let p = entry_pos(idx, key);
    if p >= 0 {
        if list.len() == 0 {
            idx.remove(p)
        } else {
            idx.update(p, (key, list))
        }
    } else if list.len() == 0 {
        idx
    } else {
        idx.push((key, list))
    }
}

/// Every key has one entry and no list is empty.
pub open spec fn index_wf<V>(idx: Seq<(Seq<char>, Seq<V>)>) -> bool {
    &&& forall|i: int, j: int| 0 <= i < j < idx.len() ==> #[trigger] idx[i].0 != #[trigger] idx[j].0
    &&& forall|i: int| 0 <= i < idx.len() ==> #[trigger] idx[i].1.len() > 0
}

/// The keys of an index, in order.
pub open spec fn index_keys<V>(idx: Seq<(Seq<char>, Seq<V>)>) -> Seq<Seq<char>> {
    idx.map_values(|e: (Seq<char>, Seq<V>)| e.0)
}

/// Number of registrations over all lists of an index.
pub open spec fn total<V>(idx: Seq<(Seq<char>, Seq<V>)>) -> nat
    decreases idx.len(),
{
    if idx.len() == 0 {
        0
    } else {
        total(idx.drop_last()) + idx.last().1.len()
    }
}

/// First position of registration id `r` in a list, or -1.
pub open spec fn reg_pos<E: Registration>(list: Seq<E::V>, r: Seq<char>) -> int
    decreases list.len(),
{
    if list.len() == 0 {
        -1
    } else if E::regist_key(list[0]) == r {
        0
    } else {
        let p = reg_pos::<E>(list.drop_first(), r);
        if p < 0 {
            -1
        } else {
            p + 1
        }
    }
}

/// The list without registration id `r`, in order.
pub open spec fn without<E: Registration>(list: Seq<E::V>, r: Seq<char>) -> Seq<E::V>
    decreases list.len(),
{
    if list.len() == 0 {
        list
    } else if E::regist_key(list.last()) == r {
        without::<E>(list.drop_last(), r)
    } else {
        without::<E>(list.drop_last(), r).push(list.last())
    }
}

/// A connection's list after registering `v`: a registration with its id
/// is replaced in place, otherwise `v` is appended.
pub open spec fn keyed_insert<E: Registration>(list: Seq<E::V>, v: E::V) -> Seq<E::V> {
    let p = reg_pos::<E>(list, E::regist_key(v));
    if p >= 0 {
        list.update(p, v)
    } else {
        list.push(v)
    }
}

/// The connection index after registering `v`.
pub open spec fn conn_after_register<E: Registration>(
    conn: Seq<(Seq<char>, Seq<E::V>)>,
    v: E::V,
) -> Seq<(Seq<char>, Seq<E::V>)> {
    set_entry(conn, E::conn_key(v), keyed_insert::<E>(entry_of(conn, E::conn_key(v)), v))
}

/// The data index after registering `v`.
pub open spec fn data_after_register<E: Registration>(
    data: Seq<(Seq<char>, Seq<E::V>)>,
    v: E::V,
) -> Seq<(Seq<char>, Seq<E::V>)> {
    set_entry(data, E::data_key(v), without::<E>(entry_of(data, E::data_key(v)), E::regist_key(v)).push(v))
}

/// Whether registering `v` is new: its data id has no registration with
/// its id (else `v` replaces that one).
pub open spec fn is_new_registration<E: Registration>(data: Seq<(Seq<char>, Seq<E::V>)>, v: E::V) -> bool {
    reg_pos::<E>(entry_of(data, E::data_key(v)), E::regist_key(v)) < 0
}

/// The data index after taking out each of `removed` from the list of its
/// data id, in order.
pub open spec fn purge<E: Registration>(
    data: Seq<(Seq<char>, Seq<E::V>)>,
    removed: Seq<E::V>,
) -> Seq<(Seq<char>, Seq<E::V>)>
    decreases removed.len(),
{
    if removed.len() == 0 {
        data
    } else {
        let d = purge::<E>(data, removed.drop_last());
        let v = removed.last();
        set_entry(d, E::data_key(v), without::<E>(entry_of(d, E::data_key(v)), E::regist_key(v)))
    }
}

/// In an index with unique keys, the position of a key is where it stands,
/// or -1 when it is absent.
pub proof fn lemma_entry_pos<V>(idx: Seq<(Seq<char>, Seq<V>)>, key: Seq<char>)
    requires
        index_wf(idx),
    ensures
        entry_pos(idx, key) == -1 <==> (forall|k: int| 0 <= k < idx.len() ==> idx[k].0 != key),
        entry_pos(idx, key) >= 0 ==> entry_pos(idx, key) < idx.len() && idx[entry_pos(
            idx,
            key,
        )].0 == key,
        forall|k: int| 0 <= k < idx.len() && idx[k].0 == key ==> entry_pos(idx, key) == k,
    decreases idx.len(),
{
    if idx.len() > 0 {
        let d = idx.drop_last();
        assert forall|k: int| 0 <= k < d.len() implies d[k] == idx[k] by {}
        assert(index_wf(d));
        lemma_entry_pos(d, key);
    }
}

/// Replacing the list under `key` keeps the index well formed, gives back
/// the new list under `key` and leaves every other key's list as it was.
pub proof fn lemma_set_entry<V>(
    idx: Seq<(Seq<char>, Seq<V>)>,
    key: Seq<char>,
    list: Seq<V>,
    other: Seq<char>,
)
    requires
        index_wf(idx),
    ensures
        index_wf(set_entry(idx, key, list)),
        entry_of(set_entry(idx, key, list), key) == list,
        other != key ==> entry_of(set_entry(idx, key, list), other) == entry_of(idx, other),
{
    let s = set_entry(idx, key, list);
    let p = entry_pos(idx, key);
    lemma_entry_pos(idx, key);
    lemma_entry_pos(idx, other);
    if p >= 0 && list.len() == 0 {
        assert forall|i: int, j: int| 0 <= i < j < s.len() implies #[trigger] s[i].0 != #[trigger] s[j].0 by {
            let i2 = if i < p { i } else { i + 1 };
            let j2 = if j < p { j } else { j + 1 };
            assert(s[i] == idx[i2] && s[j] == idx[j2]);
        }
        assert forall|i: int| 0 <= i < s.len() implies #[trigger] s[i].1.len() > 0 by {
            let i2 = if i < p { i } else { i + 1 };
            assert(s[i] == idx[i2]);
        }
    }
    assert(index_wf(s));
    lemma_entry_pos(s, key);
    lemma_entry_pos(s, other);
    if list.len() == 0 {
        assert(list =~= Seq::<V>::empty());
        if p >= 0 {
            assert forall|k: int| 0 <= k < s.len() implies s[k].0 != key by {
                let k2 = if k < p { k } else { k + 1 };
                assert(s[k] == idx[k2]);
            }
        }
    } else if p >= 0 {
        assert(s[p].0 == key);
    } else {
        assert(s[idx.len() as int].0 == key);
    }
    if other != key {
        let q = entry_pos(idx, other);
        if q >= 0 {
            if p >= 0 && list.len() == 0 {
                let q2 = if q < p { q } else { q - 1 };
                assert(s[q2] == idx[q]);
            } else {
                assert(s[q] == idx[q]);
            }
        } else {
            if entry_pos(s, other) >= 0 {
                let k = entry_pos(s, other);
                if p >= 0 && list.len() == 0 {
                    let k2 = if k < p { k } else { k + 1 };
                    assert(s[k] == idx[k2]);
                } else {
                    assert(k < idx.len());
                    assert(s[k] == idx[k]);
                }
            }
        }
    }
}

proof fn lemma_total_update<V>(idx: Seq<(Seq<char>, Seq<V>)>, p: int, e: (Seq<char>, Seq<V>))
    requires
        0 <= p < idx.len(),
    ensures
        total(idx.update(p, e)) == total(idx) - idx[p].1.len() + e.1.len(),
        total(idx.remove(p)) == total(idx) - idx[p].1.len(),
    decreases idx.len(),
{
    if p < idx.len() - 1 {
        let d = idx.drop_last();
        lemma_total_update(d, p, e);
        assert(idx.update(p, e).drop_last() =~= d.update(p, e));
        assert(idx.remove(p).drop_last() =~= d.remove(p));
    } else {
        assert(idx.update(p, e).drop_last() =~= idx.drop_last());
        assert(idx.remove(p) =~= idx.drop_last());
    }
}

/// The total after replacing the list under `key`.
pub proof fn lemma_total_set_entry<V>(idx: Seq<(Seq<char>, Seq<V>)>, key: Seq<char>, list: Seq<V>)
    requires
        index_wf(idx),
    ensures
        total(set_entry(idx, key, list)) == total(idx) - entry_of(idx, key).len() + list.len(),
{
    lemma_entry_pos(idx, key);
    let p = entry_pos(idx, key);
    if p >= 0 {
        lemma_total_update(idx, p, (key, list));
    } else {
        assert(idx.push((key, list)).drop_last() =~= idx);
    }
}

proof fn lemma_reg_pos<E: Registration>(list: Seq<E::V>, r: Seq<char>)
    ensures
        reg_pos::<E>(list, r) == -1 <==> (forall|k: int| 0 <= k < list.len() ==> E::regist_key(list[k]) != r),
        reg_pos::<E>(list, r) >= 0 ==> reg_pos::<E>(list, r) < list.len() && E::regist_key(
            list[reg_pos::<E>(list, r)],
        ) == r && (forall|k: int| 0 <= k < reg_pos::<E>(list, r) ==> E::regist_key(list[k]) != r),
    decreases list.len(),
{
    if list.len() > 0 {
        let t = list.drop_first();
        lemma_reg_pos::<E>(t, r);
        assert forall|k: int| 0 <= k < t.len() implies t[k] == list[k + 1] by {}
        if reg_pos::<E>(list, r) == -1 {
            assert forall|k: int| 0 <= k < list.len() implies E::regist_key(list[k]) != r by {
                if k > 0 {
                    assert(t[k - 1] == list[k]);
                }
            }
        }
        if reg_pos::<E>(list, r) > 0 {
            assert forall|k: int| 0 <= k < reg_pos::<E>(list, r) implies E::regist_key(list[k]) != r by {
                if k > 0 {
                    assert(t[k - 1] == list[k]);
                }
            }
        }
    }
}

proof fn lemma_without_len<E: Registration>(list: Seq<E::V>, r: Seq<char>)
    ensures
        without::<E>(list, r).len() <= list.len(),
        (forall|k: int| 0 <= k < list.len() ==> E::regist_key(list[k]) != r) ==> without::<E>(list, r) == list,
        forall|k: int| 0 <= k < without::<E>(list, r).len() ==> E::regist_key(#[trigger] without::<E>(list, r)[k]) != r,
    decreases list.len(),
{
    if list.len() > 0 {
        lemma_without_len::<E>(list.drop_last(), r);
        if forall|k: int| 0 <= k < list.len() ==> E::regist_key(list[k]) != r {
            assert forall|k: int| 0 <= k < list.len() - 1 implies E::regist_key(list.drop_last()[k]) != r by {
                assert(list.drop_last()[k] == list[k]);
            }
            assert(E::regist_key(list[list.len() - 1]) != r);
            assert(without::<E>(list, r) =~= list);
        }
        let w = without::<E>(list.drop_last(), r);
        if E::regist_key(list.last()) != r {
            assert forall|k: int| 0 <= k < without::<E>(list, r).len() implies E::regist_key(
                #[trigger] without::<E>(list, r)[k],
            ) != r by {
                if k < w.len() {
                    assert(without::<E>(list, r)[k] == w[k]);
                }
            }
        }
    }
}

proof fn lemma_set_entry_twice<V>(idx: Seq<(Seq<char>, Seq<V>)>, key: Seq<char>, a: Seq<V>, b: Seq<V>)
    requires
        index_wf(idx),
        a.len() > 0,
    ensures
        set_entry(set_entry(idx, key, a), key, b) == set_entry(idx, key, b),
{
    lemma_entry_pos(idx, key);
    let s = set_entry(idx, key, a);
    lemma_set_entry(idx, key, a, key);
    lemma_entry_pos(s, key);
    let p = entry_pos(idx, key);
    if p >= 0 {
        assert(s[p].0 == key);
        if b.len() == 0 {
            assert(s.remove(p) =~= idx.remove(p));
        } else {
            assert(s.update(p, (key, b)) =~= idx.update(p, (key, b)));
        }
    } else {
        assert(s[idx.len() as int].0 == key);
        if b.len() == 0 {
            assert(s.remove(idx.len() as int) =~= idx);
        } else {
            assert(s.update(idx.len() as int, (key, b)) =~= idx.push((key, b)));
        }
    }
}

proof fn lemma_set_entry_same<V>(idx: Seq<(Seq<char>, Seq<V>)>, key: Seq<char>)
    requires
        index_wf(idx),
    ensures
        set_entry(idx, key, entry_of(idx, key)) == idx,
{
    lemma_entry_pos(idx, key);
    let p = entry_pos(idx, key);
    if p >= 0 {
        assert(idx.update(p, (key, idx[p].1)) =~= idx);
    }
}

proof fn lemma_first_after_push<E: Registration>(l: Seq<E::V>, v: E::V)
    requires
        reg_pos::<E>(l, E::regist_key(v)) < 0,
    ensures
        reg_pos::<E>(l.push(v), E::regist_key(v)) == l.len(),
        without::<E>(l, E::regist_key(v)) == l,
        without::<E>(l.push(v), E::regist_key(v)) == l,
{
    let r = E::regist_key(v);
    lemma_reg_pos::<E>(l, r);
    lemma_reg_pos::<E>(l.push(v), r);
    lemma_without_len::<E>(l, r);
    assert(l.push(v)[l.len() as int] == v);
    let q = reg_pos::<E>(l.push(v), r);
    if 0 <= q < l.len() {
        assert(l.push(v)[q] == l[q]);
    }
    assert(l.push(v).drop_last() =~= l);
}

/// What a lookup gives back after a registration: the data id's list holds
/// the registration as the one with its id (so registering that id again is
/// no longer new), and so does its connection's list.
/// The indexes stay well formed.
pub proof fn lemma_register_then_lookup<E: Registration>(
    conn: Seq<(Seq<char>, Seq<E::V>)>,
    data: Seq<(Seq<char>, Seq<E::V>)>,
    v: E::V,
)
    requires
        index_wf(conn),
        index_wf(data),
    ensures
        ({
            let conn2 = set_entry(conn, E::conn_key(v), keyed_insert::<E>(entry_of(conn, E::conn_key(v)), v));
            let data2 = set_entry(
                data,
                E::data_key(v),
                without::<E>(entry_of(data, E::data_key(v)), E::regist_key(v)).push(v),
            );
            let dl = entry_of(data2, E::data_key(v));
            let cl = entry_of(conn2, E::conn_key(v));
            &&& index_wf(conn2)
            &&& index_wf(data2)
            &&& reg_pos::<E>(dl, E::regist_key(v)) >= 0
            &&& dl[reg_pos::<E>(dl, E::regist_key(v))] == v
            &&& reg_pos::<E>(cl, E::regist_key(v)) >= 0
            &&& cl[reg_pos::<E>(cl, E::regist_key(v))] == v
        }),
{
    let r = E::regist_key(v);
    let c = entry_of(conn, E::conn_key(v));
    let ci = keyed_insert::<E>(c, v);
    let w = without::<E>(entry_of(data, E::data_key(v)), r);
    lemma_set_entry(conn, E::conn_key(v), ci, E::conn_key(v));
    lemma_set_entry(data, E::data_key(v), w.push(v), E::data_key(v));
    lemma_without_len::<E>(entry_of(data, E::data_key(v)), r);
    lemma_reg_pos::<E>(w, r);
    if reg_pos::<E>(w, r) >= 0 {
        assert(E::regist_key(w[reg_pos::<E>(w, r)]) != r);
    }
    lemma_first_after_push::<E>(w, v);
    lemma_reg_pos::<E>(c, r);
    lemma_reg_pos::<E>(ci, r);
    let p = reg_pos::<E>(c, r);
    if p >= 0 {
        assert(ci[p] == v);
        if reg_pos::<E>(ci, r) < p {
            assert(ci[reg_pos::<E>(ci, r)] == c[reg_pos::<E>(ci, r)]);
        }
    } else {
        lemma_first_after_push::<E>(c, v);
    }
}

/// Unregistering a registration whose id was new to both its connection and
/// its data id gives back the indexes from before it was registered.
pub proof fn lemma_unregister_undoes_register<E: Registration>(
    conn: Seq<(Seq<char>, Seq<E::V>)>,
    data: Seq<(Seq<char>, Seq<E::V>)>,
    v: E::V,
)
    requires
        index_wf(conn),
        index_wf(data),
        reg_pos::<E>(entry_of(conn, E::conn_key(v)), E::regist_key(v)) < 0,
        reg_pos::<E>(entry_of(data, E::data_key(v)), E::regist_key(v)) < 0,
    ensures
        ({
            let conn2 = set_entry(conn, E::conn_key(v), keyed_insert::<E>(entry_of(conn, E::conn_key(v)), v));
            let data2 = set_entry(
                data,
                E::data_key(v),
                without::<E>(entry_of(data, E::data_key(v)), E::regist_key(v)).push(v),
            );
            let l = entry_of(data2, E::data_key(v));
            let p = reg_pos::<E>(l, E::regist_key(v));
            &&& p >= 0
            &&& l[p] == v
            &&& set_entry(data2, E::data_key(v), l.remove(p)) == data
            &&& set_entry(
                conn2,
                E::conn_key(l[p]),
                without::<E>(entry_of(conn2, E::conn_key(l[p])), E::regist_key(v)),
            ) == conn
        }),
{
    let r = E::regist_key(v);
    let c = entry_of(conn, E::conn_key(v));
    let d = entry_of(data, E::data_key(v));
    lemma_first_after_push::<E>(c, v);
    lemma_first_after_push::<E>(d, v);
    assert(keyed_insert::<E>(c, v) == c.push(v));
    lemma_set_entry(conn, E::conn_key(v), c.push(v), E::conn_key(v));
    lemma_set_entry(data, E::data_key(v), d.push(v), E::data_key(v));
    assert(d.push(v).remove(d.len() as int) =~= d);
    lemma_set_entry_twice(data, E::data_key(v), d.push(v), d);
    lemma_set_entry_same(data, E::data_key(v));
    lemma_set_entry_twice(conn, E::conn_key(v), c.push(v), c);
    lemma_set_entry_same(conn, E::conn_key(v));
}

/// Registering an id that is new to its data id adds one to the count.
pub proof fn lemma_register_counts_one<E: Registration>(data: Seq<(Seq<char>, Seq<E::V>)>, v: E::V)
    requires
        index_wf(data),
        reg_pos::<E>(entry_of(data, E::data_key(v)), E::regist_key(v)) < 0,
    ensures
        total(set_entry(
            data,
            E::data_key(v),
            without::<E>(entry_of(data, E::data_key(v)), E::regist_key(v)).push(v),
        )) == total(data) + 1,
{
    let d = entry_of(data, E::data_key(v));
    lemma_first_after_push::<E>(d, v);
    lemma_total_set_entry(data, E::data_key(v), d.push(v));
}

/// After a connection's registrations are removed, a lookup by that
/// connection finds none.
pub proof fn lemma_removed_connection_is_empty<V>(conn: Seq<(Seq<char>, Seq<V>)>, c: Seq<char>)
    requires
        index_wf(conn),
    ensures
        entry_of(set_entry(conn, c, Seq::empty()), c).len() == 0,
        index_wf(set_entry(conn, c, Seq::empty())),
{
    lemma_set_entry(conn, c, Seq::<V>::empty(), c);
}

/// The index model of stored entries.
pub open spec fn index_view<E: View>(v: Seq<(String, Vec<E>)>) -> Seq<(Seq<char>, Seq<E::V>)> {
    v.map_values(|e: (String, Vec<E>)| (e.0@, views(e.1@)))
}

fn take_entry<E: Registration>(idx: &mut Vec<(String, Vec<E>)>, key: &str) -> (r: (Option<usize>, Vec<E>))
    requires
        index_wf(index_view(old(idx)@)),
    ensures
        match r.0 {
            Some(i) => {
                &&& i as int == entry_pos(index_view(old(idx)@), key@)
                &&& i < old(idx)@.len()
                &&& final(idx)@.len() == old(idx)@.len() - 1
                &&& index_view(final(idx)@) == index_view(old(idx)@).remove(i as int)
                &&& views(r.1@) == index_view(old(idx)@)[i as int].1
            },
            None => {
                &&& entry_pos(index_view(old(idx)@), key@) == -1
                &&& index_view(final(idx)@) == index_view(old(idx)@)
                &&& r.1@.len() == 0
            },
        },
{
    let ghost before = index_view(idx@);
    let ghost old_v = idx@;
    proof {
        lemma_entry_pos(before, key@);
    }
    let mut i: usize = 0;
    while i < idx.len()
        invariant
            i <= idx.len(),
            old_v == idx@,
            idx@ == old(idx)@,
            before == index_view(idx@),
            index_wf(before),
            forall|k: int| 0 <= k < i ==> idx@[k].0@ != key@,
        decreases idx.len() - i,
    {
        if str_eq(idx[i].0.as_str(), key) {
            assert(before[i as int].0 == key@);
            proof {
                lemma_entry_pos(before, key@);
            }
            let entry = idx.remove(i);
            assert(entry == old_v[i as int]);
            assert(before[i as int].1 == views(entry.1@));
            assert(index_view(idx@) =~= before.remove(i as int));
            let (_k, list) = entry;
            return (Some(i), list);
        }
        i = i + 1;
    }
    assert forall|k: int| 0 <= k < before.len() implies before[k].0 != key@ by {
        assert(before[k].0 == idx@[k].0@);
    }
    (None, Vec::new())
}

fn put_entry<E: Registration>(idx: &mut Vec<(String, Vec<E>)>, pos: Option<usize>, key: String, list: Vec<E>)
    requires
        pos matches Some(i) ==> i <= old(idx)@.len(),
    ensures
        index_view(final(idx)@) == (if list@.len() == 0 {
            index_view(old(idx)@)
        } else {
            match pos {
                Some(i) => index_view(old(idx)@).insert(i as int, (key@, views(list@))),
                None => index_view(old(idx)@).push((key@, views(list@))),
            }
        }),
{
    let ghost before = index_view(idx@);
    if list.len() > 0 {
        let ghost e = (key@, views(list@));
        match pos {
            Some(i) => {
                idx.insert(i, (key, list));
                assert(index_view(idx@) =~= before.insert(i as int, e));
            },
            None => {
                idx.push((key, list));
                assert(index_view(idx@) =~= before.push(e));
            },
        }
    }
}

fn position_of<E: Registration>(list: &Vec<E>, r: &str) -> (p: Option<usize>)
    ensures
        match p {
            Some(i) => i < list@.len() && i as int == reg_pos::<E>(views(list@), r@),
            None => reg_pos::<E>(views(list@), r@) == -1,
        },
{
    proof {
        lemma_reg_pos::<E>(views(list@), r@);
    }
    let mut i: usize = 0;
    while i < list.len()
        invariant
            i <= list.len(),
            forall|k: int| 0 <= k < i ==> E::regist_key(views(list@)[k]) != r@,
        decreases list.len() - i,
    {
        if str_eq(list[i].regist_id_ref(), r) {
            proof {
                let p = reg_pos::<E>(views(list@), r@);
                lemma_reg_pos::<E>(views(list@), r@);
                assert(views(list@)[i as int] == list@[i as int]@);
                assert(E::regist_key(views(list@)[i as int]) == r@);
                if p < i {
                    assert(E::regist_key(views(list@)[p]) != r@);
                }
            }
            return Some(i);
        }
        i = i + 1;
    }
    None
}

fn retain_without<E: Registration>(list: Vec<E>, r: &str) -> (out: Vec<E>)
    ensures
        views(out@) == without::<E>(views(list@), r@),
{
    let ghost all = views(list@);
    let mut rest = list;
    let mut out: Vec<E> = Vec::new();
    let total = rest.len();
    let ghost orig = rest@;
    let mut i: usize = 0;
    assert(all.take(0) =~= Seq::<E::V>::empty());
    assert(views(out@) =~= Seq::<E::V>::empty());
    assert(rest@ =~= orig.skip(0));
    while rest.len() > 0
        invariant
            i + rest@.len() == orig.len(),
            orig.len() == total,
            rest@ == orig.skip(i as int),
            all == views(orig),
            views(out@) == without::<E>(all.take(i as int), r@),
        decreases rest@.len(),
    {
        let x = rest.remove(0);
        assert(x == orig[i as int]);
        assert(all.take(i + 1).drop_last() =~= all.take(i as int));
        assert(all.take(i + 1).last() == x@);
        assert(rest@ =~= orig.skip(i + 1));
        if !str_eq(x.regist_id_ref(), r) {
            let ghost before = views(out@);
            out.push(x);
            assert(views(out@) =~= before.push(x@));
        }
        i = i + 1;
    }
    assert(all.take(i as int) =~= all);
    out
}

/// Replaces the list under `key` with the list without registration id `r`.
fn drop_from_entry<E: Registration>(idx: &mut Vec<(String, Vec<E>)>, key: String, r: &str)
    requires
        index_wf(index_view(old(idx)@)),
    ensures
        index_wf(index_view(final(idx)@)),
        index_view(final(idx)@) == set_entry(
            index_view(old(idx)@),
            key@,
            without::<E>(entry_of(index_view(old(idx)@), key@), r@),
        ),
{
    let ghost before = index_view(idx@);
    proof {
        lemma_entry_pos(before, key@);
    }
    let (pos, list) = take_entry(idx, key.as_str());
    let ghost l = views(list@);
    let kept = retain_without(list, r);
    let ghost nl = views(kept@);
    proof {
        if pos is None {
            assert(l =~= Seq::<E::V>::empty());
            assert(nl =~= Seq::<E::V>::empty());
        }
    }
    put_entry(idx, pos, key, kept);
    proof {
        lemma_set_entry(before, key@, nl, key@);
        if pos is Some {
            assert(index_view(idx@) =~= set_entry(before, key@, nl));
        }
    }
}

/// Replaces the list under `key` with the list without `v`'s registration
/// id, followed by `v`.
fn append_to_entry<E: Registration>(idx: &mut Vec<(String, Vec<E>)>, key: String, v: E) -> (was_absent: bool)
    requires
        index_wf(index_view(old(idx)@)),
    ensures
        index_wf(index_view(final(idx)@)),
        was_absent == (reg_pos::<E>(entry_of(index_view(old(idx)@), key@), E::regist_key(v@)) < 0),
        index_view(final(idx)@) == set_entry(
            index_view(old(idx)@),
            key@,
            without::<E>(entry_of(index_view(old(idx)@), key@), E::regist_key(v@)).push(v@),
        ),
{
    let ghost before = index_view(idx@);
    proof {
        lemma_entry_pos(before, key@);
    }
    let (pos, list) = take_entry(idx, key.as_str());
    let ghost l = views(list@);
    proof {
        if pos is None {
            assert(l =~= Seq::<E::V>::empty());
        }
    }
    let was_absent = position_of(&list, v.regist_id_ref()).is_none();
    let mut kept = retain_without(list, v.regist_id_ref());
    let ghost w = views(kept@);
    kept.push(v);
    assert(views(kept@) =~= w.push(v@));
    let ghost nl = views(kept@);
    put_entry(idx, pos, key, kept);
    proof {
        lemma_set_entry(before, key@, nl, key@);
        if pos is Some {
            assert(index_view(idx@) =~= set_entry(before, key@, nl));
        }
    }
    was_absent
}

/// Puts `v` in the list under `key`, replacing a registration with its id in
/// place or appending it. True when there was none.
fn insert_into_entry<E: Registration>(idx: &mut Vec<(String, Vec<E>)>, key: String, v: E) -> (is_new: bool)
    requires
        index_wf(index_view(old(idx)@)),
    ensures
        index_wf(index_view(final(idx)@)),
        is_new == (reg_pos::<E>(entry_of(index_view(old(idx)@), key@), E::regist_key(v@)) < 0),
        index_view(final(idx)@) == set_entry(
            index_view(old(idx)@),
            key@,
            keyed_insert::<E>(entry_of(index_view(old(idx)@), key@), v@),
        ),
{
    let ghost before = index_view(idx@);
    proof {
        lemma_entry_pos(before, key@);
    }
    let (pos, mut list) = take_entry(idx, key.as_str());
    let ghost l = views(list@);
    proof {
        if pos is None {
            assert(l =~= Seq::<E::V>::empty());
        }
    }
    let found = position_of(&list, v.regist_id_ref());
    let is_new = found.is_none();
    match found {
        Some(i) => {
            list.set(i, v);
            assert(views(list@) =~= l.update(i as int, v@));
        },
        None => {
            list.push(v);
            assert(views(list@) =~= l.push(v@));
        },
    }
    let ghost nl = views(list@);
    put_entry(idx, pos, key, list);
    proof {
        lemma_set_entry(before, key@, nl, key@);
        if pos is Some {
            assert(index_view(idx@) =~= set_entry(before, key@, nl));
        }
    }
    is_new
}

/// Takes the registration `r` out of the list under `key`, returning it.
fn remove_from_entry<E: Registration>(idx: &mut Vec<(String, Vec<E>)>, key: &str, r: &str) -> (out: Option<E>)
    requires
        index_wf(index_view(old(idx)@)),
    ensures
        index_wf(index_view(final(idx)@)),
        ({
            let l = entry_of(index_view(old(idx)@), key@);
            let p = reg_pos::<E>(l, r@);
            if p < 0 {
                out is None && index_view(final(idx)@) == index_view(old(idx)@)
            } else {
                out matches Some(x) && x@ == l[p] && index_view(final(idx)@) == set_entry(
                    index_view(old(idx)@),
                    key@,
                    l.remove(p),
                )
            }
        }),
{
    let ghost before = index_view(idx@);
    proof {
        lemma_entry_pos(before, key@);
    }
    let (pos, mut list) = take_entry(idx, key);
    let ghost l = views(list@);
    let found = position_of(&list, r);
    let k = key.to_string();
    match found {
        None => {
            put_entry(idx, pos, k, list);
            proof {
                if pos is Some {
                    assert(index_view(idx@) =~= before);
                }
            }
            None
        },
        Some(p) => {
            let x = list.remove(p);
            assert(views(list@) =~= l.remove(p as int));
            let ghost nl = views(list@);
            put_entry(idx, pos, k, list);
            proof {
                lemma_set_entry(before, key@, nl, key@);
                if pos is Some {
                    assert(index_view(idx@) =~= set_entry(before, key@, nl));
                }
            }
            Some(x)
        },
    }
}

/// A registry of registrations, indexed by connection (one registration per
/// registration id) and by data id (in registration order).
#[verifier::reject_recursive_types(E)]
pub struct Registry<E: Registration> {
    by_connection: Vec<(String, Vec<E>)>,
    by_data_info_id: Vec<(String, Vec<E>)>,
}

/// Registrations of publishers.
pub type PublisherRegistry = Registry<Publisher>;

/// Registrations of subscribers.
pub type SubscriberRegistry = Registry<Subscriber>;

impl<E: Registration> Registry<E> {
    #[verifier::type_invariant]
    spec fn indexes_wf(self) -> bool {
        &&& index_wf(index_view(self.by_connection@))
        &&& index_wf(index_view(self.by_data_info_id@))
    }

    /// The connection index: connection text to its registrations.
    pub closed spec fn conn_index(&self) -> Seq<(Seq<char>, Seq<E::V>)> {
        index_view(self.by_connection@)
    }

    /// The data index: data id to its registrations, in registration order.
    pub closed spec fn data_index(&self) -> Seq<(Seq<char>, Seq<E::V>)> {
        index_view(self.by_data_info_id@)
    }

    /// An empty registry.
    pub fn new() -> (r: Self)
        ensures
            r.conn_index().len() == 0,
            r.data_index().len() == 0,
            index_wf(r.conn_index()),
            index_wf(r.data_index()),
    {
        let r = Registry { by_connection: Vec::new(), by_data_info_id: Vec::new() };
        assert(r.conn_index() =~= Seq::<(Seq<char>, Seq<E::V>)>::empty());
        assert(r.data_index() =~= Seq::<(Seq<char>, Seq<E::V>)>::empty());
        r
    }

    /// Registers `v`. True when its data id had no registration with its
    /// registration id; false when `v` replaces such a registration. An
    /// earlier one with its id is replaced in both indexes.
    pub fn register(&mut self, v: E) -> (is_new: bool)
        ensures
            index_wf(final(self).conn_index()),
            index_wf(final(self).data_index()),
            is_new == is_new_registration::<E>(old(self).data_index(), v@),
            final(self).conn_index() == conn_after_register::<E>(old(self).conn_index(), v@),
            final(self).data_index() == data_after_register::<E>(old(self).data_index(), v@),
    {
        proof {
            use_type_invariant(&*self);
        }
        let mut conn: Vec<(String, Vec<E>)> = Vec::new();
        let mut data: Vec<(String, Vec<E>)> = Vec::new();
        std::mem::swap(&mut conn, &mut self.by_connection);
        std::mem::swap(&mut data, &mut self.by_data_info_id);
        let ck = v.connect_key();
        let dk = v.data_info_id_ref().to_string();
        let copy = v.duplicate();
        insert_into_entry(&mut conn, ck, copy);
        let is_new = append_to_entry(&mut data, dk, v);
        *self = Registry { by_connection: conn, by_data_info_id: data };
        is_new
    }

    /// Removes the registration `regist_id` under `data_info_id`, returning
    /// it; it also leaves its connection's list. `None`, and no change, when
    /// the data id has no such registration.
    pub fn unregister(&mut self, data_info_id: &str, regist_id: &str) -> (r: Option<E>)
        ensures
            index_wf(final(self).conn_index()),
            index_wf(final(self).data_index()),
            ({
                let l = entry_of(old(self).data_index(), data_info_id@);
                let p = reg_pos::<E>(l, regist_id@);
                if p < 0 {
                    r is None && final(self).data_index() == old(self).data_index()
                        && final(self).conn_index() == old(self).conn_index()
                } else {
                    r matches Some(x) && x@ == l[p] && final(self).data_index() == set_entry(
                        old(self).data_index(),
                        data_info_id@,
                        l.remove(p),
                    ) && final(self).conn_index() == set_entry(
                        old(self).conn_index(),
                        E::conn_key(l[p]),
                        without::<E>(entry_of(old(self).conn_index(), E::conn_key(l[p])), regist_id@),
                    )
                }
            }),
    {
        proof {
            use_type_invariant(&*self);
        }
        let mut conn: Vec<(String, Vec<E>)> = Vec::new();
        let mut data: Vec<(String, Vec<E>)> = Vec::new();
        std::mem::swap(&mut conn, &mut self.by_connection);
        std::mem::swap(&mut data, &mut self.by_data_info_id);
        let removed = remove_from_entry(&mut data, data_info_id, regist_id);
        match &removed {
            Some(x) => {
                let ck = x.connect_key();
                drop_from_entry(&mut conn, ck, regist_id);
            },
            None => {},
        }
        *self = Registry { by_connection: conn, by_data_info_id: data };
        removed
    }

    fn copy_list(list: &Vec<E>) -> (r: Vec<E>)
        ensures
            views(r@) == views(list@),
    {
        let mut out: Vec<E> = Vec::new();
        let mut i: usize = 0;
        while i < list.len()
            invariant
                i <= list.len(),
                views(out@) == views(list@).take(i as int),
            decreases list.len() - i,
        {
            let ghost before = views(out@);
            let c = list[i].duplicate();
            out.push(c);
            assert(views(out@) =~= before.push(list@[i as int]@));
            assert(views(out@) =~= views(list@).take(i + 1));
            i = i + 1;
        }
        assert(views(list@).take(list.len() as int) =~= views(list@));
        out
    }

    fn lookup(idx: &Vec<(String, Vec<E>)>, key: &str) -> (r: Vec<E>)
        requires
            index_wf(index_view(idx@)),
        ensures
            views(r@) == entry_of(index_view(idx@), key@),
    {
        let ghost iv = index_view(idx@);
        proof {
            lemma_entry_pos(iv, key@);
        }
        let mut i: usize = 0;
        while i < idx.len()
            invariant
                i <= idx.len(),
                iv == index_view(idx@),
                index_wf(iv),
                forall|k: int| 0 <= k < i ==> idx@[k].0@ != key@,
            decreases idx.len() - i,
        {
            if str_eq(idx[i].0.as_str(), key) {
                assert(iv[i as int].0 == key@);
                proof {
                    lemma_entry_pos(iv, key@);
                }
                return Self::copy_list(&idx[i].1);
            }
            i = i + 1;
        }
        assert forall|k: int| 0 <= k < iv.len() implies iv[k].0 != key@ by {
            assert(iv[k].0 == idx@[k].0@);
        }
        proof {
            lemma_entry_pos(iv, key@);
        }
        let r: Vec<E> = Vec::new();
        assert(views(r@) =~= Seq::<E::V>::empty());
        r
    }

    /// Copies of the registrations under `data_info_id`, in registration
    /// order; empty when there are none.
    pub fn get_by_data_info_id(&self, data_info_id: &str) -> (r: Vec<E>)
        ensures
            views(r@) == entry_of(self.data_index(), data_info_id@),
    {
        proof {
            use_type_invariant(self);
        }
        Self::lookup(&self.by_data_info_id, data_info_id)
    }

    /// Copies of the registrations made over connection `connect_id` (its
    /// text); empty when there are none.
    pub fn get_by_connect_id(&self, connect_id: &str) -> (r: Vec<E>)
        ensures
            views(r@) == entry_of(self.conn_index(), connect_id@),
    {
        proof {
            use_type_invariant(self);
        }
        Self::lookup(&self.by_connection, connect_id)
    }

    /// Removes every registration made over connection `connect_id`,
    /// returning them; each also leaves the list of its data id.
    pub fn remove_by_connect_id(&mut self, connect_id: &str) -> (removed: Vec<E>)
        ensures
            index_wf(final(self).conn_index()),
            index_wf(final(self).data_index()),
            views(removed@) == entry_of(old(self).conn_index(), connect_id@),
            final(self).conn_index() == set_entry(old(self).conn_index(), connect_id@, Seq::empty()),
            final(self).data_index() == purge::<E>(old(self).data_index(), views(removed@)),
    {
        proof {
            use_type_invariant(&*self);
        }
        let ghost conn0 = self.conn_index();
        let ghost data0 = self.data_index();
        let mut conn: Vec<(String, Vec<E>)> = Vec::new();
        let mut data: Vec<(String, Vec<E>)> = Vec::new();
        std::mem::swap(&mut conn, &mut self.by_connection);
        std::mem::swap(&mut data, &mut self.by_data_info_id);
        let (cpos, clist) = take_entry(&mut conn, connect_id);
        proof {
            lemma_entry_pos(conn0, connect_id@);
            lemma_set_entry(conn0, connect_id@, Seq::<E::V>::empty(), connect_id@);
            assert(index_view(conn@) =~= set_entry(conn0, connect_id@, Seq::<E::V>::empty()));
        }
        let ghost rv = views(clist@);
        let mut i: usize = 0;
        assert(rv.take(0) =~= Seq::<E::V>::empty());
        while i < clist.len()
            invariant
                i <= clist.len(),
                rv == views(clist@),
                index_wf(index_view(data@)),
                index_view(data@) == purge::<E>(data0, rv.take(i as int)),
            decreases clist.len() - i,
        {
            let dk = clist[i].data_info_id_ref().to_string();
            drop_from_entry(&mut data, dk, clist[i].regist_id_ref());
            assert(rv.take(i + 1).drop_last() =~= rv.take(i as int));
            assert(rv.take(i + 1).last() == clist@[i as int]@);
            i = i + 1;
        }
        assert(rv.take(clist.len() as int) =~= rv);
        *self = Registry { by_connection: conn, by_data_info_id: data };
        clist
    }

    /// Number of registrations, counted in the data index (at most
    /// `usize::MAX`).
    pub fn count(&self) -> (n: usize)
        ensures
            n == (if total(self.data_index()) <= usize::MAX {
                total(self.data_index())
            } else {
                usize::MAX as nat
            }),
    {
        let ghost iv = self.data_index();
        let mut n: usize = 0;
        let mut i: usize = 0;
        assert(iv.take(0) =~= Seq::<(Seq<char>, Seq<E::V>)>::empty());
        while i < self.by_data_info_id.len()
            invariant
                i <= self.by_data_info_id.len(),
                iv == self.data_index(),
                n == (if total(iv.take(i as int)) <= usize::MAX {
                    total(iv.take(i as int))
                } else {
                    usize::MAX as nat
                }),
            decreases self.by_data_info_id.len() - i,
        {
            assert(iv.take(i + 1).drop_last() =~= iv.take(i as int));
            assert(iv.take(i + 1).last().1.len() == self.by_data_info_id@[i as int].1@.len());
            n = n.saturating_add(self.by_data_info_id[i].1.len());
            i = i + 1;
        }
        assert(iv.take(i as int) =~= iv);
        n
    }

    /// Number of data ids with a registration.
    pub fn data_info_id_count(&self) -> (n: usize)
        ensures
            n == self.data_index().len(),
    {
        self.by_data_info_id.len()
    }

    /// The data ids with a registration, in the order they first got one.
    pub fn get_all_data_info_ids(&self) -> (r: Vec<String>)
        ensures
            strs(r@) == index_keys(self.data_index()),
    {
        let ghost iv = self.data_index();
        let mut out: Vec<String> = Vec::new();
        let mut i: usize = 0;
        while i < self.by_data_info_id.len()
            invariant
                i <= self.by_data_info_id.len(),
                iv == self.data_index(),
                strs(out@) == index_keys(iv).take(i as int),
            decreases self.by_data_info_id.len() - i,
        {
            let ghost before = strs(out@);
            out.push(self.by_data_info_id[i].0.clone());
            assert(strs(out@) =~= before.push(iv[i as int].0));
            assert(index_keys(iv).take(i + 1) =~= index_keys(iv).take(i as int).push(iv[i as int].0));
            i = i + 1;
        }
        assert(index_keys(iv).take(self.by_data_info_id.len() as int) =~= index_keys(iv));
        out
    }
}

impl<E: Registration> Default for Registry<E> {
    fn default() -> (r: Self)
        ensures
            r.conn_index().len() == 0,
            r.data_index().len() == 0,
    {
        Self::new()
    }
}

} // verus!
