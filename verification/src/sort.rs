//! Ordering of directory entry names: `str`'s order (code point by code
//! point, a proper prefix first) and the sort that the listing applies.

use vstd::prelude::*;
use crate::paths::names_view;

verus! {

/// `a` comes before `b` in the order of `str`: at the first position where
/// they differ the smaller code point wins, and a proper prefix comes first.
pub open spec fn name_lt(a: Seq<char>, b: Seq<char>) -> bool
    decreases a.len(),
{
    if a.len() == 0 {
        b.len() > 0
    } else if b.len() == 0 {
        false
    } else if a[0] != b[0] {
        a[0] < b[0]
    } else {
        name_lt(a.drop_first(), b.drop_first())
    }
}

pub proof fn lemma_name_lt_irreflexive(a: Seq<char>)
    ensures
        !name_lt(a, a),
    decreases a.len(),
{
    if a.len() > 0 {
        lemma_name_lt_irreflexive(a.drop_first());
    }
}

pub proof fn lemma_name_lt_transitive(a: Seq<char>, b: Seq<char>, c: Seq<char>)
    requires
        name_lt(a, b),
        name_lt(b, c),
    ensures
        name_lt(a, c),
    decreases a.len(),
{
    if a.len() > 0 && a[0] == b[0] && b[0] == c[0] {
        lemma_name_lt_transitive(a.drop_first(), b.drop_first(), c.drop_first());
    }
}

pub proof fn lemma_name_lt_total(a: Seq<char>, b: Seq<char>)
    requires
        a != b,
    ensures
        name_lt(a, b) || name_lt(b, a),
    decreases a.len(),
{
    if a.len() > 0 && b.len() > 0 && a[0] == b[0] {
        if a.drop_first() == b.drop_first() {
            assert(a =~= seq![a[0]] + a.drop_first());
            assert(b =~= seq![b[0]] + b.drop_first());
        }
        lemma_name_lt_total(a.drop_first(), b.drop_first());
    }
    if a.len() == 0 && b.len() == 0 {
        assert(a =~= b);
    }
}

/// `x` placed into `s` before the first element that comes after it.
pub open spec fn insert_sorted(s: Seq<Seq<char>>, x: Seq<char>) -> Seq<Seq<char>>
    decreases s.len(),
{
    if s.len() == 0 {
        seq![x]
    } else if name_lt(x, s[0]) {
        seq![x] + s
    } else {
        seq![s[0]] + insert_sorted(s.drop_first(), x)
    }
}

/// The names of `s` in order (insertion sort, stable).
pub open spec fn sorted_names(s: Seq<Seq<char>>) -> Seq<Seq<char>>
    decreases s.len(),
{
    if s.len() == 0 {
        seq![]
    } else {
        insert_sorted(sorted_names(s.drop_last()), s.last())
    }
}

/// No name is followed by one that comes before it.
pub open spec fn is_sorted(s: Seq<Seq<char>>) -> bool {
    forall|i: int, j: int| 0 <= i < j < s.len() ==> !name_lt(#[trigger] s[j], #[trigger] s[i])
}

proof fn lemma_insert_sorted_multiset(s: Seq<Seq<char>>, x: Seq<char>)
    ensures
        insert_sorted(s, x).to_multiset() == s.to_multiset().insert(x),
    decreases s.len(),
{
    broadcast use vstd::seq_lib::group_to_multiset_ensures;
    broadcast use vstd::multiset::group_multiset_axioms;

    if s.len() == 0 {
        assert(seq![x] =~= s.insert(0, x));
    } else if name_lt(x, s[0]) {
        assert(seq![x] + s =~= s.insert(0, x));
    } else {
        let rest = s.drop_first();
        lemma_insert_sorted_multiset(rest, x);
        let t = insert_sorted(rest, x);
        assert(seq![s[0]] + t =~= t.insert(0, s[0]));
        assert(s =~= rest.insert(0, s[0]));
        assert(rest.to_multiset().insert(x).insert(s[0]) =~= rest.to_multiset().insert(s[0]).insert(x));
    }
}

proof fn lemma_insert_sorted_elements(s: Seq<Seq<char>>, x: Seq<char>)
    ensures
        insert_sorted(s, x).len() == s.len() + 1,
        forall|i: int| 0 <= i < insert_sorted(s, x).len() ==>
            #[trigger] insert_sorted(s, x)[i] == x || s.contains(insert_sorted(s, x)[i]),
    decreases s.len(),
{
    if s.len() > 0 && !name_lt(x, s[0]) {
        let rest = s.drop_first();
        lemma_insert_sorted_elements(rest, x);
        let r = insert_sorted(s, x);
        assert forall|i: int| 0 <= i < r.len() implies #[trigger] r[i] == x || s.contains(r[i]) by {
            if i == 0 {
                assert(s[0] == r[0]);
            } else {
                let t = insert_sorted(rest, x);
                assert(r[i] == t[i - 1]);
                if t[i - 1] != x {
                    let k = choose|k: int| 0 <= k < rest.len() && rest[k] == t[i - 1];
                    assert(s[k + 1] == rest[k]);
                }
            }
        }
    } else if s.len() > 0 {
        let r = insert_sorted(s, x);
        assert forall|i: int| 0 <= i < r.len() implies #[trigger] r[i] == x || s.contains(r[i]) by {
            if i > 0 {
                assert(r[i] == s[i - 1]);
            }
        }
    }
}

proof fn lemma_insert_sorted_sorted(s: Seq<Seq<char>>, x: Seq<char>)
    requires
        is_sorted(s),
    ensures
        is_sorted(insert_sorted(s, x)),
    decreases s.len(),
{
    if s.len() == 0 {
    } else if name_lt(x, s[0]) {
        let r = seq![x] + s;
        assert forall|i: int, j: int| 0 <= i < j < r.len() implies !name_lt(#[trigger] r[j], #[trigger] r[i]) by {
            if i == 0 {
                assert(r[j] == s[j - 1]);
                if j - 1 > 0 {
                    assert(!name_lt(s[j - 1], s[0]));
                }
                if name_lt(s[j - 1], x) {
                    lemma_name_lt_transitive(s[j - 1], x, s[0]);
                    lemma_name_lt_irreflexive(s[0]);
                }
            } else {
                assert(r[i] == s[i - 1]);
                assert(r[j] == s[j - 1]);
            }
        }
    } else {
        let rest = s.drop_first();
        assert(is_sorted(rest)) by {
            assert forall|i: int, j: int| 0 <= i < j < rest.len() implies !name_lt(#[trigger] rest[j], #[trigger] rest[i]) by {
                assert(rest[i] == s[i + 1]);
                assert(rest[j] == s[j + 1]);
            }
        }
        lemma_insert_sorted_sorted(rest, x);
        lemma_insert_sorted_elements(rest, x);
        let t = insert_sorted(rest, x);
        let r = seq![s[0]] + t;
        assert forall|i: int, j: int| 0 <= i < j < r.len() implies !name_lt(#[trigger] r[j], #[trigger] r[i]) by {
            if i == 0 {
                assert(r[j] == t[j - 1]);
                if t[j - 1] != x {
                    let k = choose|k: int| 0 <= k < rest.len() && rest[k] == t[j - 1];
                    assert(s[k + 1] == rest[k]);
                }
            } else {
                assert(r[i] == t[i - 1]);
                assert(r[j] == t[j - 1]);
            }
        }
    }
}

/// Sorting puts the names in order and keeps each of them as many times as
/// it occurs: the result is the ordered arrangement of the same names.
pub proof fn lemma_sorted_names_law(s: Seq<Seq<char>>)
    ensures
        is_sorted(sorted_names(s)),
        sorted_names(s).to_multiset() == s.to_multiset(),
        sorted_names(s).len() == s.len(),
    decreases s.len(),
{
    broadcast use vstd::seq_lib::group_to_multiset_ensures;

    if s.len() > 0 {
        lemma_sorted_names_law(s.drop_last());
        lemma_insert_sorted_sorted(sorted_names(s.drop_last()), s.last());
        lemma_insert_sorted_multiset(sorted_names(s.drop_last()), s.last());
        lemma_insert_sorted_elements(sorted_names(s.drop_last()), s.last());
        assert(s.drop_last().push(s.last()) =~= s);
    }
}

/// Whether `a` comes before `b`.
pub fn name_less(a: &Vec<char>, b: &Vec<char>) -> (r: bool)
    ensures
        r == name_lt(a@, b@),
{
    let mut i: usize = 0;
    assert(a@.skip(0) =~= a@);
    assert(b@.skip(0) =~= b@);
    while i < a.len() && i < b.len() && a[i] == b[i]
        invariant
            i <= a.len(),
            i <= b.len(),
            name_lt(a@, b@) == name_lt(a@.skip(i as int), b@.skip(i as int)),
        decreases a.len() - i,
    {
        assert(a@.skip(i as int).drop_first() =~= a@.skip(i + 1));
        assert(b@.skip(i as int).drop_first() =~= b@.skip(i + 1));
        i = i + 1;
    }
    if i == a.len() {
        i < b.len()
    } else if i == b.len() {
        false
    } else {
        a[i] < b[i]
    }
}

proof fn lemma_name_lt_asymmetric(a: Seq<char>, b: Seq<char>)
    requires
        name_lt(a, b),
    ensures
        !name_lt(b, a),
{
    if name_lt(b, a) {
        lemma_name_lt_transitive(a, b, a);
        lemma_name_lt_irreflexive(a);
    }
}

/// "Does not come after" is transitive.
proof fn lemma_name_le_transitive(a: Seq<char>, b: Seq<char>, c: Seq<char>)
    requires
        !name_lt(b, a),
        !name_lt(c, b),
    ensures
        !name_lt(c, a),
{
    if name_lt(c, a) {
        if a != b {
            lemma_name_lt_total(a, b);
            lemma_name_lt_transitive(c, a, b);
        }
    }
}

/// Two ordered arrangements of the same names are the same sequence.
pub proof fn lemma_sorted_unique(a: Seq<Seq<char>>, b: Seq<Seq<char>>)
    requires
        is_sorted(a),
        is_sorted(b),
        a.to_multiset() == b.to_multiset(),
    ensures
        a == b,
    decreases a.len(),
{
    broadcast use vstd::seq_lib::group_to_multiset_ensures;
    broadcast use vstd::multiset::group_multiset_axioms;

    assert(a.len() == a.to_multiset().len());
    assert(b.len() == b.to_multiset().len());
    if a.len() == 0 {
        assert(a =~= b);
    } else {
        let x = a[0];
        let y = b[0];
        assert(a.to_multiset().count(x) > 0);
        assert(b.contains(x));
        let j = choose|j: int| 0 <= j < b.len() && b[j] == x;
        if j > 0 {
            assert(!name_lt(b[j], b[0]));
        }
        assert(b.to_multiset().count(y) > 0);
        assert(a.contains(y));
        let i = choose|i: int| 0 <= i < a.len() && a[i] == y;
        if i > 0 {
            assert(!name_lt(a[i], a[0]));
        }
        if x != y {
            lemma_name_lt_total(x, y);
        }
        assert(x == y);
        assert(a.remove(0) =~= a.drop_first());
        assert(b.remove(0) =~= b.drop_first());
        let ta = a.drop_first();
        let tb = b.drop_first();
        assert(is_sorted(ta)) by {
            assert forall|p: int, q: int| 0 <= p < q < ta.len() implies !name_lt(#[trigger] ta[q], #[trigger] ta[p]) by {
                assert(ta[p] == a[p + 1]);
                assert(ta[q] == a[q + 1]);
            }
        }
        assert(is_sorted(tb)) by {
            assert forall|p: int, q: int| 0 <= p < q < tb.len() implies !name_lt(#[trigger] tb[q], #[trigger] tb[p]) by {
                assert(tb[p] == b[p + 1]);
                assert(tb[q] == b[q + 1]);
            }
        }
        lemma_sorted_unique(ta, tb);
        assert forall|k: int| 0 <= k < a.len() implies a[k] == b[k] by {
            if k > 0 {
                assert(a[k] == ta[k - 1]);
                assert(b[k] == tb[k - 1]);
            }
        }
        assert(a =~= b);
    }
}

/// Merges two ordered lists of names into one, taking from the first list
/// on ties.
fn merge(a: &Vec<Vec<char>>, b: &Vec<Vec<char>>) -> (r: Vec<Vec<char>>)
    requires
        is_sorted(names_view(a@)),
        is_sorted(names_view(b@)),
    ensures
        is_sorted(names_view(r@)),
        names_view(r@).to_multiset() == names_view(a@).to_multiset().add(names_view(b@).to_multiset()),
{
    broadcast use vstd::seq_lib::group_to_multiset_ensures;
    broadcast use vstd::multiset::group_multiset_axioms;

    let ghost sa = names_view(a@);
    let ghost sb = names_view(b@);
    let mut r: Vec<Vec<char>> = Vec::new();
    let mut i: usize = 0;
    let mut j: usize = 0;
    assert(sa.take(0) =~= Seq::<Seq<char>>::empty());
    assert(sb.take(0) =~= Seq::<Seq<char>>::empty());
    assert(names_view(r@) =~= Seq::<Seq<char>>::empty());
    while i < a.len() || j < b.len()
        invariant
            sa == names_view(a@),
            sb == names_view(b@),
            is_sorted(sa),
            is_sorted(sb),
            i <= a.len(),
            j <= b.len(),
            is_sorted(names_view(r@)),
            names_view(r@).to_multiset() == sa.take(i as int).to_multiset().add(sb.take(j as int).to_multiset()),
            forall|k: int| 0 <= k < r@.len() ==> (i < a.len() ==> !name_lt(sa[i as int], #[trigger] names_view(r@)[k])),
            forall|k: int| 0 <= k < r@.len() ==> (j < b.len() ==> !name_lt(sb[j as int], #[trigger] names_view(r@)[k])),
        decreases a.len() + b.len() - i - j,
    {
        let ghost old_r = names_view(r@);
        let take_first = if j == b.len() {
            true
        } else if i < a.len() {
            !name_less(&b[j], &a[i])
        } else {
            false
        };
        if take_first {
            let ghost x = sa[i as int];
            assert(x == a@[i as int]@);
            r.push(crate::paths::copy_chars(&a[i]));
            let ghost nr = names_view(r@);
            assert(nr =~= old_r.push(x));
            assert(sa.take(i + 1) =~= sa.take(i as int).push(x));
            proof {
                vstd::seq_lib::to_multiset_build(old_r, x);
                vstd::seq_lib::to_multiset_build(sa.take(i as int), x);
                let m1 = sa.take(i as int).to_multiset();
                let m2 = sb.take(j as int).to_multiset();
                assert(m1.insert(x).add(m2) =~= m1.add(m2).insert(x));
            }
            assert(nr.to_multiset() == sa.take(i + 1).to_multiset().add(sb.take(j as int).to_multiset()));
            assert forall|p: int, q: int| 0 <= p < q < nr.len() implies !name_lt(#[trigger] nr[q], #[trigger] nr[p]) by {
                if q == nr.len() - 1 {
                    assert(nr[p] == old_r[p]);
                } else {
                    assert(nr[p] == old_r[p] && nr[q] == old_r[q]);
                }
            }
            assert forall|k: int| 0 <= k < nr.len() && i + 1 < a.len() implies !name_lt(sa[i + 1], #[trigger] nr[k]) by {
                if i + 1 < a.len() {
                    assert(!name_lt(sa[i + 1], sa[i as int]));
                    if k < old_r.len() {
                        assert(nr[k] == old_r[k]);
                        lemma_name_le_transitive(old_r[k], x, sa[i + 1]);
                    }
                }
            }
            assert forall|k: int| 0 <= k < nr.len() && j < b.len() implies !name_lt(sb[j as int], #[trigger] nr[k]) by {
                if k < old_r.len() {
                    assert(nr[k] == old_r[k]);
                }
            }
            i = i + 1;
        } else {
            let ghost y = sb[j as int];
            assert(y == b@[j as int]@);
            proof {
                if i < a.len() {
                    lemma_name_lt_asymmetric(y, sa[i as int]);
                }
            }
            r.push(crate::paths::copy_chars(&b[j]));
            let ghost nr = names_view(r@);
            assert(nr =~= old_r.push(y));
            assert(sb.take(j + 1) =~= sb.take(j as int).push(y));
            proof {
                vstd::seq_lib::to_multiset_build(old_r, y);
                vstd::seq_lib::to_multiset_build(sb.take(j as int), y);
                let m1 = sa.take(i as int).to_multiset();
                let m2 = sb.take(j as int).to_multiset();
                assert(m1.add(m2.insert(y)) =~= m1.add(m2).insert(y));
            }
            assert(nr.to_multiset() == sa.take(i as int).to_multiset().add(sb.take(j + 1).to_multiset()));
            assert forall|p: int, q: int| 0 <= p < q < nr.len() implies !name_lt(#[trigger] nr[q], #[trigger] nr[p]) by {
                if q == nr.len() - 1 {
                    assert(nr[p] == old_r[p]);
                } else {
                    assert(nr[p] == old_r[p] && nr[q] == old_r[q]);
                }
            }
            assert forall|k: int| 0 <= k < nr.len() && j + 1 < b.len() implies !name_lt(sb[j + 1], #[trigger] nr[k]) by {
                if j + 1 < b.len() {
                    assert(!name_lt(sb[j + 1], sb[j as int]));
                    if k < old_r.len() {
                        assert(nr[k] == old_r[k]);
                        lemma_name_le_transitive(old_r[k], y, sb[j + 1]);
                    }
                }
            }
            assert forall|k: int| 0 <= k < nr.len() && i < a.len() implies !name_lt(sa[i as int], #[trigger] nr[k]) by {
                if k < old_r.len() {
                    assert(nr[k] == old_r[k]);
                }
            }
            j = j + 1;
        }
    }
    assert(sa.take(a.len() as int) =~= sa);
    assert(sb.take(b.len() as int) =~= sb);
    r
}

/// The names `v[lo..hi]` in order (merge sort).
fn merge_sort_range(v: &Vec<Vec<char>>, lo: usize, hi: usize) -> (r: Vec<Vec<char>>)
    requires
        lo <= hi <= v.len(),
    ensures
        is_sorted(names_view(r@)),
        names_view(r@).to_multiset() == names_view(v@).subrange(lo as int, hi as int).to_multiset(),
    decreases hi - lo,
{
    broadcast use vstd::seq_lib::group_to_multiset_ensures;

    let ghost s = names_view(v@);
    if hi - lo <= 1 {
        let mut r: Vec<Vec<char>> = Vec::new();
        if hi - lo == 1 {
            r.push(crate::paths::copy_chars(&v[lo]));
        }
        assert(names_view(r@) =~= s.subrange(lo as int, hi as int));
        r
    } else {
        let mid = lo + (hi - lo) / 2;
        let left = merge_sort_range(v, lo, mid);
        let right = merge_sort_range(v, mid, hi);
        let r = merge(&left, &right);
        assert(s.subrange(lo as int, hi as int) =~= s.subrange(lo as int, mid as int) + s.subrange(mid as int, hi as int));
        proof {
            vstd::seq_lib::lemma_multiset_commutative(s.subrange(lo as int, mid as int), s.subrange(mid as int, hi as int));
        }
        r
    }
}

/// The names of `names` in order.
pub fn sort_names(names: &Vec<Vec<char>>) -> (r: Vec<Vec<char>>)
    ensures
        names_view(r@) == sorted_names(names_view(names@)),
{
    let r = merge_sort_range(names, 0, names.len());
    proof {
        let s = names_view(names@);
        assert(s.subrange(0, names.len() as int) =~= s);
        lemma_sorted_names_law(s);
        lemma_sorted_unique(names_view(r@), sorted_names(s));
    }
    r
}

} // verus!
