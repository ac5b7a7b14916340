//! Strings as character sequences: equality, lexicographic order, sorting
//! and membership in string lists.
use vstd::prelude::*;
use vstd::relations::{sorted_by, total_ordering};
use vstd::seq_lib::{lemma_multiset_commutative, lemma_sorted_unique, to_multiset_build};

verus! {

/// The character sequences of a list of strings.
pub open spec fn strs(v: Seq<String>) -> Seq<Seq<char>> {
    v.map_values(|s: String| s@)
}

/// Lexicographic order on character sequences, comparing code points; for
/// UTF-8 strings this is the byte order that `String`'s `Ord` uses.
pub open spec fn char_seq_leq(a: Seq<char>, b: Seq<char>) -> bool
    decreases a.len(),
{
    if a.len() == 0 {
        true
    } else if b.len() == 0 {
        false
    } else if a[0] != b[0] {
        (a[0] as int) < (b[0] as int)
    } else {
        char_seq_leq(a.drop_first(), b.drop_first())
    }
}

/// The order `char_seq_leq` as a relation.
pub open spec fn string_order() -> spec_fn(Seq<char>, Seq<char>) -> bool {
    |a: Seq<char>, b: Seq<char>| char_seq_leq(a, b)
}

proof fn lemma_leq_reflexive(a: Seq<char>)
    ensures
        char_seq_leq(a, a),
    decreases a.len(),
{
    if a.len() > 0 {
        lemma_leq_reflexive(a.drop_first());
    }
}

proof fn lemma_leq_antisymmetric(a: Seq<char>, b: Seq<char>)
    requires
        char_seq_leq(a, b),
        char_seq_leq(b, a),
    ensures
        a == b,
    decreases a.len(),
{
    if a.len() > 0 && b.len() > 0 {
        if a[0] == b[0] {
            lemma_leq_antisymmetric(a.drop_first(), b.drop_first());
            assert(a =~= seq![a[0]] + a.drop_first());
            assert(b =~= seq![b[0]] + b.drop_first());
        } else {
            assert((a[0] as int) != (b[0] as int));
        }
    } else {
        assert(a =~= b);
    }
}

proof fn lemma_leq_transitive(a: Seq<char>, b: Seq<char>, c: Seq<char>)
    requires
        char_seq_leq(a, b),
        char_seq_leq(b, c),
    ensures
        char_seq_leq(a, c),
    decreases a.len(),
{
    if a.len() > 0 && b.len() > 0 && c.len() > 0 {
        if a[0] == b[0] && b[0] == c[0] {
            lemma_leq_transitive(a.drop_first(), b.drop_first(), c.drop_first());
        }
    }
}

proof fn lemma_leq_total(a: Seq<char>, b: Seq<char>)
    ensures
        char_seq_leq(a, b) || char_seq_leq(b, a),
    decreases a.len(),
{
    if a.len() > 0 && b.len() > 0 {
        if a[0] == b[0] {
            lemma_leq_total(a.drop_first(), b.drop_first());
        } else {
            assert((a[0] as int) != (b[0] as int));
        }
    }
}

/// `char_seq_leq` is a total order.
pub proof fn lemma_string_order_total()
    ensures
        total_ordering(string_order()),
{
    let r = string_order();
    assert forall|x: Seq<char>| #[trigger] r(x, x) by {
        lemma_leq_reflexive(x);
    }
    assert forall|x: Seq<char>, y: Seq<char>| #[trigger] r(x, y) && #[trigger] r(y, x) implies x
        == y by {
        lemma_leq_antisymmetric(x, y);
    }
    assert forall|x: Seq<char>, y: Seq<char>, z: Seq<char>|
        #[trigger] r(x, y) && #[trigger] r(y, z) implies r(x, z) by {
        lemma_leq_transitive(x, y, z);
    }
    assert forall|x: Seq<char>, y: Seq<char>| #[trigger] r(x, y) || #[trigger] r(y, x) by {
        lemma_leq_total(x, y);
    }
}

/// Whether two texts hold the same characters.
pub(crate) fn str_eq(a: &str, b: &str) -> (r: bool)
    ensures
        r == (a@ == b@),
{
    let x = a.to_owned();
    let y = b.to_owned();
    x == y
}

/// Whether `a` comes no later than `b` in lexicographic order.
pub fn str_leq(a: &str, b: &str) -> (r: bool)
    ensures
        r == char_seq_leq(a@, b@),
{
    let la = a.unicode_len();
    let lb = b.unicode_len();
    let mut i: usize = 0;
    assert(a@.skip(0) =~= a@);
    assert(b@.skip(0) =~= b@);
    while i < la && i < lb
        invariant
            la == a@.len(),
            lb == b@.len(),
            i <= la,
            i <= lb,
            char_seq_leq(a@, b@) == char_seq_leq(a@.skip(i as int), b@.skip(i as int)),
        decreases la - i,
    {
        let ca = a.get_char(i);
        let cb = b.get_char(i);
        assert(a@.skip(i as int)[0] == ca);
        assert(b@.skip(i as int)[0] == cb);
        if ca != cb {
            return (ca as u32) < (cb as u32);
        }
        assert(a@.skip(i as int).drop_first() =~= a@.skip(i + 1));
        assert(b@.skip(i as int).drop_first() =~= b@.skip(i + 1));
        i = i + 1;
    }
    i == la
}

/// Whether the list holds a string equal to `s`.
pub fn contains_str(v: &[String], s: &str) -> (r: bool)
    ensures
        r == strs(v@).contains(s@),
{
    let mut i: usize = 0;
    while i < v.len()
        invariant
            i <= v.len(),
            forall|k: int| 0 <= k < i ==> v@[k]@ != s@,
        decreases v.len() - i,
    {
        if str_eq(v[i].as_str(), s) {
            assert(strs(v@)[i as int] == s@);
            return true;
        }
        i = i + 1;
    }
    assert forall|k: int| 0 <= k < strs(v@).len() implies strs(v@)[k] != s@ by {
        assert(strs(v@)[k] == v@[k]@);
    }
    false
}

/// Pushing adds the element to the set of a sequence.
pub proof fn lemma_push_to_set<A>(s: Seq<A>, x: A)
    ensures
        s.push(x).to_set() == s.to_set().insert(x),
{
    assert forall|y| s.push(x).to_set().contains(y) <==> s.to_set().insert(x).contains(y) by {
        if s.push(x).contains(y) {
            let k = choose|k: int| 0 <= k < s.len() + 1 && s.push(x)[k] == y;
            if k < s.len() {
                assert(s[k] == y);
            }
        }
        if s.contains(y) {
            let k = choose|k: int| 0 <= k < s.len() && s[k] == y;
            assert(s.push(x)[k] == y);
        }
        assert(s.push(x)[s.len() as int] == x);
    }
    assert(s.push(x).to_set() =~= s.to_set().insert(x));
}

/// The set of a prefix grows by the next element.
pub proof fn lemma_take_to_set<A>(s: Seq<A>, k: int)
    requires
        0 <= k < s.len(),
    ensures
        s.take(k + 1).to_set() == s.take(k).to_set().insert(s[k]),
{
    assert(s.take(k + 1) =~= s.take(k).push(s[k]));
    lemma_push_to_set(s.take(k), s[k]);
}

/// Sequences with the same elements counted with multiplicity have the same
/// set, and one is free of duplicates when the other is.
pub proof fn lemma_same_multiset<A>(a: Seq<A>, b: Seq<A>)
    requires
        a.to_multiset() == b.to_multiset(),
    ensures
        a.to_set() == b.to_set(),
        a.no_duplicates() ==> b.no_duplicates(),
{
    broadcast use vstd::seq_lib::group_to_multiset_ensures;

    assert forall|x| a.to_set().contains(x) <==> b.to_set().contains(x) by {
        assert(a.contains(x) <==> a.to_multiset().count(x) > 0);
        assert(b.contains(x) <==> b.to_multiset().count(x) > 0);
    }
    assert(a.to_set() =~= b.to_set());
    if a.no_duplicates() {
        a.lemma_multiset_has_no_duplicates();
        b.lemma_multiset_has_no_duplicates_conv();
    }
}

/// The position of a string equal to `s` in the list.
pub fn find_str(v: &[String], s: &str) -> (r: Option<usize>)
    ensures
        r is None <==> !strs(v@).contains(s@),
        r matches Some(j) ==> j < v@.len() && v@[j as int]@ == s@,
{
    let mut i: usize = 0;
    while i < v.len()
        invariant
            i <= v.len(),
            forall|k: int| 0 <= k < i ==> v@[k]@ != s@,
        decreases v.len() - i,
    {
        if str_eq(v[i].as_str(), s) {
            assert(strs(v@)[i as int] == s@);
            return Some(i);
        }
        i = i + 1;
    }
    assert forall|k: int| 0 <= k < strs(v@).len() implies strs(v@)[k] != s@ by {
        assert(strs(v@)[k] == v@[k]@);
    }
    None
}

/// Whether two string lists hold the same set of strings.
pub fn same_string_set(a: &[String], b: &[String]) -> (r: bool)
    ensures
        r == (strs(a@).to_set() == strs(b@).to_set()),
{
    let ghost sa = strs(a@);
    let ghost sb = strs(b@);
    let mut a_in_b = true;
    let mut i: usize = 0;
    while i < a.len()
        invariant
            i <= a.len(),
            sa == strs(a@),
            sb == strs(b@),
            a_in_b == (forall|k: int| 0 <= k < i ==> sb.contains(#[trigger] sa[k])),
        decreases a.len() - i,
    {
        let c = contains_str(b, a[i].as_str());
        assert(sa[i as int] == a@[i as int]@);
        a_in_b = a_in_b && c;
        i = i + 1;
    }
    let mut b_in_a = true;
    let mut k: usize = 0;
    while k < b.len()
        invariant
            k <= b.len(),
            sa == strs(a@),
            sb == strs(b@),
            b_in_a == (forall|q: int| 0 <= q < k ==> sa.contains(#[trigger] sb[q])),
        decreases b.len() - k,
    {
        let c = contains_str(a, b[k].as_str());
        assert(sb[k as int] == b@[k as int]@);
        b_in_a = b_in_a && c;
        k = k + 1;
    }
    proof {
        if a_in_b && b_in_a {
            assert forall|x| sa.to_set().contains(x) <==> sb.to_set().contains(x) by {
                if sa.contains(x) {
                    let q = choose|q: int| 0 <= q < sa.len() && sa[q] == x;
                    assert(sb.contains(sa[q]));
                }
                if sb.contains(x) {
                    let q = choose|q: int| 0 <= q < sb.len() && sb[q] == x;
                    assert(sa.contains(sb[q]));
                }
            }
            assert(sa.to_set() =~= sb.to_set());
        } else if !a_in_b {
            let q = choose|q: int| 0 <= q < sa.len() && !sb.contains(#[trigger] sa[q]);
            assert(sa.to_set().contains(sa[q]));
            assert(!sb.to_set().contains(sa[q]));
        } else {
            let q = choose|q: int| 0 <= q < sb.len() && !sa.contains(#[trigger] sb[q]);
            assert(sb.to_set().contains(sb[q]));
            assert(!sa.to_set().contains(sb[q]));
        }
    }
    a_in_b && b_in_a
}

proof fn lemma_insert_to_multiset<A>(s: Seq<A>, j: int, x: A)
    requires
        0 <= j <= s.len(),
    ensures
        s.insert(j, x).to_multiset() =~= s.to_multiset().insert(x),
{
    let a = s.take(j);
    let b = s.skip(j);
    assert(s =~= a + b);
    assert(s.insert(j, x) =~= a.push(x) + b);
    lemma_multiset_commutative(a.push(x), b);
    lemma_multiset_commutative(a, b);
    to_multiset_build(a, x);
}

/// Sorts a list of strings in ascending lexicographic order.
pub fn sort_strings(v: &[String]) -> (r: Vec<String>)
    ensures
        strs(r@) == strs(v@).sort_by(string_order()),
{
    proof {
        lemma_string_order_total();
    }
    let ord = Ghost(string_order());
    let mut out: Vec<String> = Vec::new();
    let mut i: usize = 0;
    assert(strs(v@).take(0) =~= Seq::<Seq<char>>::empty());
    assert(strs(out@) =~= Seq::<Seq<char>>::empty());
    while i < v.len()
        invariant
            i <= v.len(),
            ord@ == string_order(),
            total_ordering(ord@),
            sorted_by(strs(out@), ord@),
            strs(out@).to_multiset() == strs(v@).take(i as int).to_multiset(),
        decreases v.len() - i,
    {
        let x = v[i].clone();
        let mut j: usize = 0;
        while j < out.len() && str_leq(out[j].as_str(), x.as_str())
            invariant
                j <= out.len(),
                x@ == v@[i as int]@,
                forall|k: int| 0 <= k < j ==> char_seq_leq(#[trigger] out@[k]@, x@),
            decreases out.len() - j,
        {
            j = j + 1;
        }
        let ghost before = strs(out@);
        out.insert(j, x);
        proof {
            assert(strs(out@) =~= before.insert(j as int, v@[i as int]@));
            lemma_insert_to_multiset(before, j as int, v@[i as int]@);
            assert(strs(v@).take(i + 1) =~= strs(v@).take(i as int).push(v@[i as int]@));
            to_multiset_build(strs(v@).take(i as int), v@[i as int]@);
            let ns = strs(out@);
            assert forall|p: int, q: int| 0 <= p < q < ns.len() implies #[trigger] ord@(
                ns[p],
                ns[q],
            ) by {
                if q < j {
                    assert(ns[p] == before[p] && ns[q] == before[q]);
                } else if q == j {
                    assert(ns[p] == before[p]);
                    assert(char_seq_leq(out@[p]@, x@));
                } else if p > j {
                    assert(ns[p] == before[p - 1] && ns[q] == before[q - 1]);
                } else if p == j {
                    // x precedes the element that ended the search, hence everything after it
                    assert(!char_seq_leq(before[j as int], ns[p]));
                    lemma_leq_total(before[j as int], ns[p]);
                    if q - 1 > j {
                        assert(ord@(before[j as int], before[q - 1]));
                        lemma_leq_transitive(ns[p], before[j as int], before[q - 1]);
                    }
                    assert(ns[q] == before[q - 1]);
                } else {
                    assert(ns[p] == before[p] && ns[q] == before[q - 1]);
                    assert(ord@(before[p], before[q - 1]));
                }
            }
        }
        i = i + 1;
    }
    proof {
        assert(strs(v@).take(v.len() as int) =~= strs(v@));
        strs(v@).lemma_sort_by_ensures(ord@);
        lemma_sorted_unique(strs(out@), strs(v@).sort_by(ord@), ord@);
    }
    out
}

} // verus!
