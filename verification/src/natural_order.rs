//! Natural ("alphanumeric") ordering of paths, and sorting by it.
use vstd::prelude::*;
use std::cmp::Ordering;
use crate::text::string_views;

verus! {

/// The natural order of two paths as `alphanumeric_sort::compare_path`
/// decides it: -1, 0 or 1.
pub uninterp spec fn path_order(a: Seq<char>, b: Seq<char>) -> i8;

/// `alphanumeric_sort::compare_path`, with `Less`, `Equal`, `Greater` as
/// -1, 0, 1. The result is the named [`path_order`] of the two paths, and
/// swapping the arguments negates it: the crate's comparison treats both
/// sides alike in every branch (end of input, digit runs, leading zeros,
/// the U+00FF rule).
#[verifier::external_body]
pub(crate) fn compare_paths(a: &str, b: &str) -> (r: i8)
    ensures
        r == path_order(a@, b@),
        -1 <= r <= 1,
        path_order(b@, a@) == -r,
{
    match alphanumeric_sort::compare_path(a, b) {
        Ordering::Less => -1,
        Ordering::Equal => 0,
        Ordering::Greater => 1,
    }
}

/// Adjacent paths are in natural order.
pub open spec fn naturally_sorted(s: Seq<Seq<char>>) -> bool {
    forall|i: int| 0 <= i < s.len() - 1 ==> path_order(#[trigger] s[i], s[i + 1]) <= 0
}

pub proof fn lemma_insert_multiset<A>(s: Seq<A>, p: int, x: A)
    requires
        0 <= p <= s.len(),
    ensures
        s.insert(p, x).to_multiset() == s.to_multiset().insert(x),
{
    broadcast use vstd::seq_lib::group_to_multiset_ensures;

    let a = s.take(p);
    let b = s.skip(p);
    assert(s =~= a + b);
    assert(s.insert(p, x) =~= a.push(x) + b);
    vstd::seq_lib::lemma_multiset_commutative(a, b);
    vstd::seq_lib::lemma_multiset_commutative(a.push(x), b);
    assert(a.push(x).to_multiset() =~= a.to_multiset().insert(x));
    assert(s.insert(p, x).to_multiset() =~= s.to_multiset().insert(x));
}

/// `s` with `x` inserted by `ord` from the end: after the last element
/// that does not follow `x` (`ord(e, x) <= 0`), past the elements after it
/// that do. In a sorted `s` this keeps elements that tie with `x` before it.
pub open spec fn insert_by<A>(s: Seq<A>, x: A, ord: spec_fn(A, A) -> i8) -> Seq<A>
    decreases s.len(),
{
    if s.len() == 0 || ord(s.last(), x) <= 0 {
        s.push(x)
    } else {
        insert_by(s.drop_last(), x, ord).push(s.last())
    }
}

/// `v` sorted by `ord` by insertion, taking its elements in order: the
/// stable sort, elements that tie keeping their order.
pub open spec fn insertion_sort_by<A>(v: Seq<A>, ord: spec_fn(A, A) -> i8) -> Seq<A>
    decreases v.len(),
{
    if v.len() == 0 {
        v
    } else {
        insert_by(insertion_sort_by(v.drop_last(), ord), v.last(), ord)
    }
}

/// Inserting where the elements from `p` on follow `x` and the one before
/// `p` does not is inserting by order.
pub proof fn lemma_insert_by_at<A>(s: Seq<A>, p: int, x: A, ord: spec_fn(A, A) -> i8)
    requires
        0 <= p <= s.len(),
        forall|j: int| p <= j < s.len() ==> ord(#[trigger] s[j], x) > 0,
        p > 0 ==> ord(s[p - 1], x) <= 0,
    ensures
        insert_by(s, x, ord) == s.insert(p, x),
    decreases s.len() - p,
{
    if p == s.len() {
        assert(s.insert(p, x) =~= s.push(x));
    } else {
        let d = s.drop_last();
        assert(ord(s[s.len() - 1], x) > 0);
        assert forall|j: int| p <= j < d.len() implies ord(#[trigger] d[j], x) > 0 by {
            assert(d[j] == s[j]);
        }
        if p > 0 {
            assert(d[p - 1] == s[p - 1]);
        }
        lemma_insert_by_at(d, p, x, ord);
        assert(d.insert(p, x).push(s.last()) =~= s.insert(p, x));
    }
}

/// `s` is sorted by `ord`: no element follows a later one.
pub open spec fn sorted_by<A>(s: Seq<A>, ord: spec_fn(A, A) -> i8) -> bool {
    forall|i: int, j: int| 0 <= i < j < s.len() ==> ord(#[trigger] s[i], #[trigger] s[j]) <= 0
}

/// `ord` is a strict total order on the distinct elements of `d`:
/// swapping two of them negates it, it ties none of them, and it is
/// transitive among them.
pub open spec fn order_laws<A>(ord: spec_fn(A, A) -> i8, d: Seq<A>) -> bool {
    &&& forall|a: A, b: A|
        #[trigger] d.contains(a) && #[trigger] d.contains(b) && a != b ==> ord(a, b) == -ord(b, a)
            && ord(a, b) != 0
    &&& forall|a: A, b: A, c: A|
        d.contains(a) && d.contains(b) && d.contains(c) && a != b && b != c && a != c
            && #[trigger] ord(a, b) <= 0 && #[trigger] ord(b, c) <= 0 ==> ord(a, c) <= 0
}

pub proof fn lemma_insert_by_multiset<A>(s: Seq<A>, x: A, ord: spec_fn(A, A) -> i8)
    ensures
        insert_by(s, x, ord).to_multiset() == s.to_multiset().insert(x),
    decreases s.len(),
{
    broadcast use vstd::seq_lib::group_to_multiset_ensures;

    if s.len() > 0 && ord(s.last(), x) > 0 {
        let d = s.drop_last();
        lemma_insert_by_multiset(d, x, ord);
        assert(d.push(s.last()) =~= s);
        assert(d.to_multiset().insert(s.last()) == s.to_multiset());
        assert(insert_by(d, x, ord).push(s.last()).to_multiset() =~= s.to_multiset().insert(x));
    }
}

pub proof fn lemma_insertion_sort_multiset<A>(v: Seq<A>, ord: spec_fn(A, A) -> i8)
    ensures
        insertion_sort_by(v, ord).to_multiset() == v.to_multiset(),
    decreases v.len(),
{
    broadcast use vstd::seq_lib::group_to_multiset_ensures;

    if v.len() > 0 {
        let d = v.drop_last();
        lemma_insertion_sort_multiset(d, ord);
        lemma_insert_by_multiset(insertion_sort_by(d, ord), v.last(), ord);
        assert(d.push(v.last()) =~= v);
    }
}

/// Elements of one sequence are elements of another with the same
/// multiset of elements.
pub proof fn lemma_contains_same<A>(s: Seq<A>, t: Seq<A>, e: A)
    requires
        s.to_multiset() == t.to_multiset(),
        s.contains(e),
    ensures
        t.contains(e),
{
    broadcast use vstd::seq_lib::group_to_multiset_ensures;

    assert(s.to_multiset().count(e) > 0);
}

/// A sequence with the elements of one without duplicates has none.
pub proof fn lemma_no_duplicates_same<A>(s: Seq<A>, t: Seq<A>)
    requires
        s.no_duplicates(),
        s.to_multiset() == t.to_multiset(),
    ensures
        t.no_duplicates(),
{
    s.lemma_multiset_has_no_duplicates();
    t.lemma_multiset_has_no_duplicates_conv();
}

pub proof fn lemma_insert_by_sorted<A>(s: Seq<A>, x: A, ord: spec_fn(A, A) -> i8, d: Seq<A>)
    requires
        sorted_by(s, ord),
        order_laws(ord, d),
        forall|i: int| 0 <= i < s.len() ==> d.contains(#[trigger] s[i]),
        d.contains(x),
        s.no_duplicates(),
        !s.contains(x),
    ensures
        sorted_by(insert_by(s, x, ord), ord),
    decreases s.len(),
{
    broadcast use vstd::seq_lib::group_to_multiset_ensures;

    if s.len() == 0 || ord(s.last(), x) <= 0 {
        let r = s.push(x);
        assert forall|i: int, j: int| 0 <= i < j < r.len() implies ord(#[trigger] r[i], #[trigger] r[j]) <= 0 by {
            if j == s.len() {
                assert(r[i] == s[i]);
                assert(s[i] != x) by {
                    assert(s.contains(s[i]));
                }
                if i < s.len() - 1 {
                    assert(ord(s[i], s[s.len() - 1]) <= 0);
                    assert(d.contains(s[i]) && d.contains(s[s.len() - 1]));
                    assert(s[i] != s[s.len() - 1]);
                    assert(s[s.len() - 1] != x) by {
                        assert(s.contains(s[s.len() - 1]));
                    }
                }
            } else {
                assert(r[i] == s[i] && r[j] == s[j]);
            }
        }
    } else {
        let e = s.drop_last();
        let last = s.last();
        assert(d.contains(last)) by {
            assert(s[s.len() - 1] == last);
        }
        assert(last != x) by {
            assert(s.contains(s[s.len() - 1]));
        }
        assert(ord(x, last) < 0) by {
            assert(ord(last, x) == -ord(x, last));
        }
        assert(sorted_by(e, ord)) by {
            assert forall|i: int, j: int| 0 <= i < j < e.len() implies ord(#[trigger] e[i], #[trigger] e[j]) <= 0 by {
                assert(e[i] == s[i] && e[j] == s[j]);
            }
        }
        assert forall|i: int| 0 <= i < e.len() implies d.contains(#[trigger] e[i]) by {
            assert(e[i] == s[i]);
        }
        assert(e.no_duplicates()) by {
            assert forall|i: int, j: int| 0 <= i < e.len() && 0 <= j < e.len() && i != j implies e[i] != e[j] by {
                assert(e[i] == s[i] && e[j] == s[j]);
            }
        }
        assert(!e.contains(x)) by {
            if e.contains(x) {
                let k = choose|k: int| 0 <= k < e.len() && e[k] == x;
                assert(s[k] == x);
            }
        }
        lemma_insert_by_sorted(e, x, ord, d);
        let m = insert_by(e, x, ord);
        lemma_insert_by_multiset(e, x, ord);
        let r = m.push(last);
        assert forall|i: int, j: int| 0 <= i < j < r.len() implies ord(#[trigger] r[i], #[trigger] r[j]) <= 0 by {
            if j == m.len() {
                let y = m[i];
                assert(m.contains(y));
                assert(m.to_multiset().count(y) > 0);
                if y != x {
                    assert(e.to_multiset().count(y) > 0);
                    assert(e.contains(y));
                    let k = choose|k: int| 0 <= k < e.len() && e[k] == y;
                    assert(s[k] == y);
                    assert(ord(s[k], s[s.len() - 1]) <= 0);
                }
                assert(r[j] == last);
            } else {
                assert(r[i] == m[i] && r[j] == m[j]);
            }
        }
    }
}

pub proof fn lemma_insertion_sort_sorted<A>(v: Seq<A>, ord: spec_fn(A, A) -> i8)
    requires
        order_laws(ord, v),
        v.no_duplicates(),
    ensures
        sorted_by(insertion_sort_by(v, ord), ord),
    decreases v.len(),
{
    broadcast use vstd::seq_lib::group_to_multiset_ensures;

    if v.len() > 0 {
        let d = v.drop_last();
        assert(order_laws(ord, d)) by {
            assert forall|a: A| d.contains(a) implies v.contains(a) by {
                let k = choose|k: int| 0 <= k < d.len() && d[k] == a;
                assert(v[k] == a);
            }
        }
        assert(d.no_duplicates()) by {
            assert forall|i: int, j: int| 0 <= i < d.len() && 0 <= j < d.len() && i != j implies d[i] != d[j] by {
                assert(d[i] == v[i] && d[j] == v[j]);
            }
        }
        lemma_insertion_sort_sorted(d, ord);
        let s = insertion_sort_by(d, ord);
        lemma_insertion_sort_multiset(d, ord);
        lemma_no_duplicates_same(d, s);
        assert forall|i: int| 0 <= i < s.len() implies v.contains(#[trigger] s[i]) by {
            assert(s.contains(s[i]));
            lemma_contains_same(s, d, s[i]);
            let k = choose|k: int| 0 <= k < d.len() && d[k] == s[i];
            assert(v[k] == s[i]);
        }
        assert(v.contains(v.last())) by {
            assert(v[v.len() - 1] == v.last());
        }
        assert(!s.contains(v.last())) by {
            if s.contains(v.last()) {
                lemma_contains_same(s, d, v.last());
                let k = choose|k: int| 0 <= k < d.len() && d[k] == v.last();
                assert(v[k] == v[v.len() - 1]);
            }
        }
        lemma_insert_by_sorted(s, v.last(), ord, v);
    }
}

/// Two sequences sorted by a total order, with the same elements, are the
/// same sequence.
pub proof fn lemma_sorted_unique<A>(s: Seq<A>, t: Seq<A>, ord: spec_fn(A, A) -> i8, d: Seq<A>)
    requires
        sorted_by(s, ord),
        sorted_by(t, ord),
        s.to_multiset() == t.to_multiset(),
        order_laws(ord, d),
        forall|i: int| 0 <= i < s.len() ==> d.contains(#[trigger] s[i]),
    ensures
        s == t,
    decreases s.len(),
{
    broadcast use vstd::seq_lib::group_to_multiset_ensures;

    assert(s.len() == s.to_multiset().len());
    assert(t.len() == t.to_multiset().len());
    if s.len() > 0 {
        let a = s.last();
        let b = t.last();
        assert(s.contains(a)) by {
            assert(s[s.len() - 1] == a);
        }
        assert(t.contains(b)) by {
            assert(t[t.len() - 1] == b);
        }
        lemma_contains_same(t, s, b);
        lemma_contains_same(s, t, a);
        let k = choose|k: int| 0 <= k < s.len() && s[k] == b;
        let m = choose|m: int| 0 <= m < t.len() && t[m] == a;
        assert(d.contains(a) && d.contains(b)) by {
            assert(d.contains(s[s.len() - 1]));
            assert(d.contains(s[k]));
        }
        if a != b {
            assert(k < s.len() - 1);
            assert(m < t.len() - 1);
            assert(ord(s[k], s[s.len() - 1]) <= 0);
            assert(ord(t[m], t[t.len() - 1]) <= 0);
            assert(ord(a, b) == -ord(b, a));
            assert(false);
        }
        let s2 = s.drop_last();
        let t2 = t.drop_last();
        assert(s2.push(a) =~= s);
        assert(t2.push(b) =~= t);
        assert(s2.to_multiset() =~= t2.to_multiset()) by {
            assert(s2.to_multiset().insert(a) == t2.to_multiset().insert(a));
            assert(s2.to_multiset() =~= s2.to_multiset().insert(a).remove(a));
            assert(t2.to_multiset() =~= t2.to_multiset().insert(a).remove(a));
        }
        assert forall|i: int, j: int| 0 <= i < j < s2.len() implies ord(#[trigger] s2[i], #[trigger] s2[j]) <= 0 by {
            assert(s2[i] == s[i] && s2[j] == s[j]);
        }
        assert forall|i: int, j: int| 0 <= i < j < t2.len() implies ord(#[trigger] t2[i], #[trigger] t2[j]) <= 0 by {
            assert(t2[i] == t[i] && t2[j] == t[j]);
        }
        assert forall|i: int| 0 <= i < s2.len() implies d.contains(#[trigger] s2[i]) by {
            assert(s2[i] == s[i]);
        }
        lemma_sorted_unique(s2, t2, ord, d);
    } else {
        assert(s =~= t);
    }
}

/// Sorting by insertion with a strict total order gives the same sequence
/// for any arrangement of the same distinct elements.
pub proof fn lemma_insertion_sort_independent<A>(a: Seq<A>, b: Seq<A>, ord: spec_fn(A, A) -> i8)
    requires
        a.to_multiset() == b.to_multiset(),
        order_laws(ord, a),
        a.no_duplicates(),
    ensures
        insertion_sort_by(a, ord) == insertion_sort_by(b, ord),
{
    broadcast use vstd::seq_lib::group_to_multiset_ensures;

    assert(order_laws(ord, b)) by {
        assert forall|e: A| b.contains(e) implies a.contains(e) by {
            lemma_contains_same(b, a, e);
        }
    }
    lemma_no_duplicates_same(a, b);
    lemma_insertion_sort_sorted(a, ord);
    lemma_insertion_sort_sorted(b, ord);
    lemma_insertion_sort_multiset(a, ord);
    lemma_insertion_sort_multiset(b, ord);
    let sa = insertion_sort_by(a, ord);
    let sb = insertion_sort_by(b, ord);
    assert forall|i: int| 0 <= i < sa.len() implies a.contains(#[trigger] sa[i]) by {
        assert(sa.contains(sa[i]));
        lemma_contains_same(sa, a, sa[i]);
    }
    lemma_sorted_unique(sa, sb, ord, a);
}

/// The natural order as a comparison.
pub open spec fn by_path_order() -> spec_fn(Seq<char>, Seq<char>) -> i8 {
    |a: Seq<char>, b: Seq<char>| path_order(a, b)
}

/// Paths sorted into natural order, stably.
pub open spec fn natural_sort(v: Seq<Seq<char>>) -> Seq<Seq<char>> {
    insertion_sort_by(v, by_path_order())
}

/// The paths in natural order, found by insertion: each path goes after
/// the paths before it that do not follow it. Paths already in natural
/// order are left as they are.
pub fn sort_paths(v: Vec<String>) -> (r: Vec<String>)
    ensures
        string_views(r@).to_multiset() == string_views(v@).to_multiset(),
        naturally_sorted(string_views(r@)),
        naturally_sorted(string_views(v@)) ==> string_views(r@) == string_views(v@),
        string_views(r@) == natural_sort(string_views(v@)),
{
    broadcast use vstd::seq_lib::group_to_multiset_ensures;

    let mut r: Vec<String> = Vec::new();
    let mut i: usize = 0;
    let n = v.len();
    while i < n
        invariant
            n == v.len(),
            i <= n,
            string_views(r@).to_multiset() == string_views(v@).take(i as int).to_multiset(),
            naturally_sorted(string_views(r@)),
            naturally_sorted(string_views(v@)) ==> string_views(r@) == string_views(v@).take(i as int),
            string_views(r@) == natural_sort(string_views(v@).take(i as int)),
        decreases n - i,
    {
        let x = v[i].clone();
        let mut p = r.len();
        let ghost in_order = naturally_sorted(string_views(v@)) && string_views(r@) == string_views(
            v@,
        ).take(i as int);
        proof {
            if in_order && i > 0 {
                assert(string_views(v@)[i - 1] == string_views(r@)[i - 1]);
                assert(path_order(string_views(v@)[i - 1], string_views(v@)[i - 1 + 1]) <= 0);
                assert(x@ == string_views(v@)[i as int]);
            }
        }
        while p > 0 && compare_paths(r[p - 1].as_str(), x.as_str()) > 0
            invariant
                p <= r.len(),
                in_order ==> p == r.len(),
                in_order && r.len() > 0 ==> path_order(r@[r.len() - 1]@, x@) <= 0,
                forall|j: int|
                    p <= j < r.len() ==> path_order(#[trigger] r@[j]@, x@) == 1 && path_order(
                        x@,
                        r@[j]@,
                    ) == -1,
            decreases p,
        {
            p = p - 1;
        }
        let ghost before = string_views(r@);
        let ghost xv = x@;
        proof {
            if p > 0 {
                assert(path_order(r@[p - 1]@, x@) <= 0);
            }
        }
        r.insert(p, x);
        assert(string_views(r@) =~= before.insert(p as int, xv));
        proof {
            if in_order {
                assert(string_views(r@) =~= string_views(v@).take(i + 1));
            }
            let t = string_views(v@).take(i + 1);
            assert(t.drop_last() =~= string_views(v@).take(i as int));
            assert(t.last() == xv);
            assert forall|j: int| p <= j < before.len() implies (by_path_order())(#[trigger] before[j], xv) > 0 by {
                assert(before[j] == r@[j + 1]@);
            }
            if p > 0 {
                assert((by_path_order())(before[p - 1], xv) <= 0);
            }
            lemma_insert_by_at(before, p as int, xv, by_path_order());
        }
        proof {
            lemma_insert_multiset(before, p as int, xv);
            assert(xv == string_views(v@)[i as int]);
            assert(string_views(v@).take(i + 1) =~= string_views(v@).take(i as int).push(xv));
            string_views(v@).take(i as int).to_multiset_ensures();
            assert(string_views(v@).take(i as int).push(xv).to_multiset() =~= string_views(
                v@,
            ).take(i as int).to_multiset().insert(xv));
            let s = string_views(r@);
            assert forall|j: int| 0 <= j < s.len() - 1 implies path_order(#[trigger] s[j], s[j + 1])
                <= 0 by {
                if j < p - 1 {
                    assert(s[j] == before[j] && s[j + 1] == before[j + 1]);
                } else if j == p - 1 {
                } else if j == p {
                    assert(s[j] == xv && s[j + 1] == before[p as int]);
                    assert(path_order(xv, before[p as int]) == -1);
                } else {
                    assert(s[j] == before[j - 1] && s[j + 1] == before[j]);
                }
            }
        }
        i = i + 1;
    }
    assert(string_views(v@).take(n as int) =~= string_views(v@));
    r
}

} // verus!
