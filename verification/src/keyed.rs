//! Lists of values under distinct string keys, kept in insertion order.
use vstd::prelude::*;
use crate::strings::str_eq;

verus! {

/// Position of `key` in a keyed list, or -1.
pub open spec fn kpos<V>(s: Seq<(Seq<char>, V)>, key: Seq<char>) -> int
    decreases s.len(),
{
    if s.len() == 0 {
        -1
    } else if s.last().0 == key {
        s.len() - 1
    } else {
        kpos(s.drop_last(), key)
    }
}

/// The value under `key`.
pub open spec fn kget<V>(s: Seq<(Seq<char>, V)>, key: Seq<char>) -> Option<V> {
    if kpos(s, key) >= 0 {
        Some(s[kpos(s, key)].1)
    } else {
        None
    }
}

/// The list with `v` under `key`: replaced in place, or appended.
pub open spec fn kput<V>(s: Seq<(Seq<char>, V)>, key: Seq<char>, v: V) -> Seq<(Seq<char>, V)> {
    if kpos(s, key) >= 0 {
        s.update(kpos(s, key), (key, v))
    } else {
        s.push((key, v))
    }
}

/// The list without `key`.
pub open spec fn kdel<V>(s: Seq<(Seq<char>, V)>, key: Seq<char>) -> Seq<(Seq<char>, V)> {
    if kpos(s, key) >= 0 {
        s.remove(kpos(s, key))
    } else {
        s
    }
}

/// No key occurs twice.
pub open spec fn kunique<V>(s: Seq<(Seq<char>, V)>) -> bool {
    forall|i: int, j: int| 0 <= i < j < s.len() ==> #[trigger] s[i].0 != #[trigger] s[j].0
}

/// In a list with unique keys, the position of a key is where it stands,
/// or -1 when it is absent.
pub proof fn lemma_kpos<V>(s: Seq<(Seq<char>, V)>, key: Seq<char>)
    requires
        kunique(s),
    ensures
        kpos(s, key) == -1 <==> (forall|k: int| 0 <= k < s.len() ==> s[k].0 != key),
        kpos(s, key) >= 0 ==> kpos(s, key) < s.len() && s[kpos(s, key)].0 == key,
        forall|k: int| 0 <= k < s.len() && s[k].0 == key ==> kpos(s, key) == k,
    decreases s.len(),
{
    if s.len() > 0 {
        assert forall|k: int| 0 <= k < s.len() - 1 implies s.drop_last()[k] == s[k] by {}
        lemma_kpos(s.drop_last(), key);
    }
}

/// Putting or deleting keeps keys distinct; a lookup after a put gives the
/// value put, after a delete nothing, and other keys keep their values.
pub proof fn lemma_kput_kdel<V>(s: Seq<(Seq<char>, V)>, key: Seq<char>, v: V, other: Seq<char>)
    requires
        kunique(s),
    ensures
        kunique(kput(s, key, v)),
        kunique(kdel(s, key)),
        kget(kput(s, key, v), key) == Some(v),
        kget(kdel(s, key), key) is None,
        other != key ==> kget(kput(s, key, v), other) == kget(s, other),
        other != key ==> kget(kdel(s, key), other) == kget(s, other),
{
    lemma_kpos(s, key);
    lemma_kpos(s, other);
    let p = kpos(s, key);
    let a = kput(s, key, v);
    let d = kdel(s, key);
    if p >= 0 {
        assert forall|i: int, j: int| 0 <= i < j < d.len() implies #[trigger] d[i].0 != #[trigger] d[j].0 by {
            let i2 = if i < p { i } else { i + 1 };
            let j2 = if j < p { j } else { j + 1 };
            assert(d[i] == s[i2] && d[j] == s[j2]);
        }
    }
    lemma_kpos(a, key);
    lemma_kpos(a, other);
    lemma_kpos(d, key);
    lemma_kpos(d, other);
    if p >= 0 {
        assert(a[p].0 == key);
        assert forall|k: int| 0 <= k < d.len() implies d[k].0 != key by {
            let k2 = if k < p { k } else { k + 1 };
            assert(d[k] == s[k2]);
        }
    } else {
        assert(a[s.len() as int].0 == key);
    }
    if other != key {
        let q = kpos(s, other);
        if q >= 0 {
            assert(a[q] == s[q]);
            if p >= 0 {
                let q2 = if q < p { q } else { q - 1 };
                assert(d[q2] == s[q]);
            } else {
                assert(d[q] == s[q]);
            }
        } else {
            if kpos(a, other) >= 0 {
                let k = kpos(a, other);
                assert(a[k].0 == other);
                if p < 0 {
                    assert(k < s.len());
                }
                assert(s[k].0 == other);
            }
            if kpos(d, other) >= 0 {
                let k = kpos(d, other);
                let k2 = if p >= 0 && k >= p { k + 1 } else { k };
                assert(d[k] == s[k2]);
            }
        }
    }
}

/// The position of `key` among the entries of `v`.
pub fn kfind<V: View>(v: &Vec<(String, V)>, key: &str) -> (r: Option<usize>)
    requires
        kunique(kviews(v@)),
    ensures
        match r {
            Some(i) => i < v@.len() && i as int == kpos(kviews(v@), key@),
            None => kpos(kviews(v@), key@) == -1,
        },
{
    let ghost s = kviews(v@);
    proof {
        lemma_kpos(s, key@);
    }
    let mut i: usize = 0;
    while i < v.len()
        invariant
            i <= v.len(),
            s == kviews(v@),
            kunique(s),
            forall|k: int| 0 <= k < i ==> v@[k].0@ != key@,
        decreases v.len() - i,
    {
        if str_eq(v[i].0.as_str(), key) {
            assert(s[i as int].0 == key@);
            proof {
                lemma_kpos(s, key@);
            }
            return Some(i);
        }
        i = i + 1;
    }
    assert forall|k: int| 0 <= k < s.len() implies s[k].0 != key@ by {
        assert(s[k].0 == v@[k].0@);
    }
    None
}

/// The keyed model of stored entries: keys by their text, values by their
/// views.
pub open spec fn kviews<V: View>(v: Seq<(String, V)>) -> Seq<(Seq<char>, V::V)> {
    v.map_values(|e: (String, V)| (e.0@, e.1@))
}

/// Puts `value` under `key`: replaced in place, or appended.
pub fn kinsert<V: View>(v: &mut Vec<(String, V)>, key: String, value: V)
    requires
        kunique(kviews(old(v)@)),
    ensures
        kunique(kviews(final(v)@)),
        kviews(final(v)@) == kput(kviews(old(v)@), key@, value@),
{
    let ghost before = kviews(v@);
    let ghost val = value@;
    proof {
        lemma_kput_kdel(before, key@, val, key@);
    }
    match kfind(v, key.as_str()) {
        Some(i) => {
            let ghost k = key@;
            v.set(i, (key, value));
            assert(kviews(v@) =~= before.update(i as int, (k, val)));
        },
        None => {
            let ghost k = key@;
            v.push((key, value));
            assert(kviews(v@) =~= before.push((k, val)));
        },
    }
}

/// Takes out the value under `key`.
pub fn kremove<V: View>(v: &mut Vec<(String, V)>, key: &str) -> (r: Option<V>)
    requires
        kunique(kviews(old(v)@)),
    ensures
        kunique(kviews(final(v)@)),
        kviews(final(v)@) == kdel(kviews(old(v)@), key@),
        match r {
            Some(x) => kget(kviews(old(v)@), key@) == Some(x@),
            None => kget(kviews(old(v)@), key@) is None,
        },
{
    let ghost before = kviews(v@);
    let ghost old_v = v@;
    proof {
        lemma_kput_kdel(before, key@, arbitrary(), key@);
    }
    match kfind(v, key) {
        Some(i) => {
            let e = v.remove(i);
            assert(e == old_v[i as int]);
            assert(kviews(v@) =~= before.remove(i as int));
            Some(e.1)
        },
        None => None,
    }
}

} // verus!
