//! Stable insertion sort, specified once over an arbitrary "less or equal"
//! relation and proved sorted, a permutation of its input, and the identity
//! on input that is already sorted.

use vstd::prelude::*;

verus! {

/// `le` is total and transitive, i.e. a total preorder.
pub open spec fn total_preorder<T>(le: spec_fn(T, T) -> bool) -> bool {
    &&& forall|a: T, b: T| #[trigger] le(a, b) || le(b, a)
    &&& forall|a: T, b: T, c: T| #[trigger] le(a, b) && #[trigger] le(b, c) ==> le(a, c)
}

/// Every element is `le` every later element.
pub open spec fn sorted_by<T>(s: Seq<T>, le: spec_fn(T, T) -> bool) -> bool {
    forall|i: int, j: int| 0 <= i < j < s.len() ==> le(#[trigger] s[i], #[trigger] s[j])
}

/// Inserts `x` into `s` after every trailing element that is not `le x`:
/// scanning from the back, `x` goes right after the last element `le x`.
pub open spec fn insert_by<T>(s: Seq<T>, x: T, le: spec_fn(T, T) -> bool) -> Seq<T>
    decreases s.len(),
{
    if s.len() == 0 {
        seq![x]
    } else if le(s.last(), x) {
        s.push(x)
    } else {
        insert_by(s.drop_last(), x, le).push(s.last())
    }
}

/// The stable sort of `s` by `le`.
pub open spec fn sort_by<T>(s: Seq<T>, le: spec_fn(T, T) -> bool) -> Seq<T>
    decreases s.len(),
{
    if s.len() == 0 {
        seq![]
    } else {
        insert_by(sort_by(s.drop_last(), le), s.last(), le)
    }
}

/// The position at which `insert_by` places `x`.
pub open spec fn insert_pos<T>(s: Seq<T>, x: T, le: spec_fn(T, T) -> bool) -> int
    decreases s.len(),
{
    if s.len() == 0 {
        0
    } else if le(s.last(), x) {
        s.len() as int
    } else {
        insert_pos(s.drop_last(), x, le)
    }
}

pub proof fn lemma_insert_pos<T>(s: Seq<T>, x: T, le: spec_fn(T, T) -> bool)
    ensures
        0 <= insert_pos(s, x, le) <= s.len(),
        insert_by(s, x, le) == s.take(insert_pos(s, x, le)).push(x) + s.skip(insert_pos(s, x, le)),
        forall|k: int| insert_pos(s, x, le) <= k < s.len() ==> !le(#[trigger] s[k], x),
        insert_pos(s, x, le) > 0 ==> le(s[insert_pos(s, x, le) - 1], x),
    decreases s.len(),
{
    if s.len() == 0 {
        assert(insert_by(s, x, le) =~= s.take(0).push(x) + s.skip(0));
    } else if le(s.last(), x) {
        assert(insert_by(s, x, le) =~= s.take(s.len() as int).push(x) + s.skip(s.len() as int));
    } else {
        let t = s.drop_last();
        lemma_insert_pos(t, x, le);
        let p = insert_pos(t, x, le);
        assert(insert_by(s, x, le) =~= s.take(p).push(x) + s.skip(p));
        assert forall|k: int| p <= k < s.len() implies !le(#[trigger] s[k], x) by {
            if k < s.len() - 1 {
                assert(s[k] == t[k]);
            }
        }
        if p > 0 {
            assert(s[p - 1] == t[p - 1]);
        }
    }
}

/// Any position with only non-`le x` elements after it and an `le x`
/// element (or the start) just before it is the insertion position.
pub proof fn lemma_insert_pos_unique<T>(s: Seq<T>, x: T, le: spec_fn(T, T) -> bool, p: int)
    requires
        0 <= p <= s.len(),
        forall|k: int| p <= k < s.len() ==> !le(#[trigger] s[k], x),
        p > 0 ==> le(s[p - 1], x),
    ensures
        insert_pos(s, x, le) == p,
    decreases s.len(),
{
    if s.len() > 0 && p < s.len() {
        let t = s.drop_last();
        assert(!le(s[s.len() - 1], x));
        assert forall|k: int| p <= k < t.len() implies !le(#[trigger] t[k], x) by {
            assert(t[k] == s[k]);
        }
        if p > 0 {
            assert(t[p - 1] == s[p - 1]);
        }
        lemma_insert_pos_unique(t, x, le, p);
    }
}

pub proof fn lemma_insert_sorted<T>(s: Seq<T>, x: T, le: spec_fn(T, T) -> bool)
    requires
        total_preorder(le),
        sorted_by(s, le),
    ensures
        sorted_by(insert_by(s, x, le), le),
        insert_by(s, x, le).len() == s.len() + 1,
{
    lemma_insert_pos(s, x, le);
    let p = insert_pos(s, x, le);
    let r = insert_by(s, x, le);
    assert(r.len() == s.len() + 1);
    assert forall|i: int, j: int| 0 <= i < j < r.len() implies le(#[trigger] r[i], #[trigger] r[j]) by {
        if j < p {
            assert(r[i] == s[i] && r[j] == s[j]);
        } else if j == p {
            assert(r[j] == x);
            assert(r[i] == s[i]);
            assert(le(s[i], s[p - 1]) || i == p - 1);
            if i < p - 1 {
                assert(le(s[i], s[p - 1]));
            }
        } else if i > p {
            assert(r[i] == s[i - 1] && r[j] == s[j - 1]);
        } else if i == p {
            assert(r[i] == x);
            assert(r[j] == s[j - 1]);
            assert(!le(s[j - 1], x));
            assert(le(s[j - 1], x) || le(x, s[j - 1]));
        } else {
            assert(r[i] == s[i] && r[j] == s[j - 1]);
            assert(i < j - 1);
        }
    }
}

pub proof fn lemma_sort_sorted<T>(s: Seq<T>, le: spec_fn(T, T) -> bool)
    requires
        total_preorder(le),
    ensures
        sorted_by(sort_by(s, le), le),
        sort_by(s, le).len() == s.len(),
    decreases s.len(),
{
    if s.len() > 0 {
        lemma_sort_sorted(s.drop_last(), le);
        lemma_insert_sorted(sort_by(s.drop_last(), le), s.last(), le);
    }
}

pub proof fn lemma_insert_multiset<T>(s: Seq<T>, x: T, le: spec_fn(T, T) -> bool)
    ensures
        insert_by(s, x, le).to_multiset() == s.to_multiset().insert(x),
    decreases s.len(),
{
    broadcast use vstd::seq_lib::group_to_multiset_ensures;
    if s.len() == 0 {
        assert(insert_by(s, x, le) =~= s.push(x));
    } else if le(s.last(), x) {
    } else {
        let t = s.drop_last();
        lemma_insert_multiset(t, x, le);
        assert(s =~= t.push(s.last()));
    }
}

pub proof fn lemma_sort_multiset<T>(s: Seq<T>, le: spec_fn(T, T) -> bool)
    ensures
        sort_by(s, le).to_multiset() == s.to_multiset(),
    decreases s.len(),
{
    broadcast use vstd::seq_lib::group_to_multiset_ensures;
    if s.len() > 0 {
        let t = s.drop_last();
        lemma_sort_multiset(t, le);
        lemma_insert_multiset(sort_by(t, le), s.last(), le);
        assert(s =~= t.push(s.last()));
    }
}

pub proof fn lemma_sort_of_sorted<T>(s: Seq<T>, le: spec_fn(T, T) -> bool)
    requires
        sorted_by(s, le),
    ensures
        sort_by(s, le) == s,
    decreases s.len(),
{
    if s.len() > 0 {
        let t = s.drop_last();
        assert(sorted_by(t, le)) by {
            assert forall|i: int, j: int| 0 <= i < j < t.len() implies le(#[trigger] t[i], #[trigger] t[j]) by {
                assert(t[i] == s[i] && t[j] == s[j]);
            }
        }
        lemma_sort_of_sorted(t, le);
        if t.len() > 0 {
            assert(le(s[t.len() - 1], s[s.len() - 1]));
        }
        assert(s =~= t.push(s.last()));
    }
}

} // verus!

verus! {

/// Sorts `v` stably by the relation `le` computes, which must agree with
/// `spec_le`.
pub fn sort_vec_by<T, F: Fn(&T, &T) -> bool>(v: Vec<T>, le: F, Ghost(spec_le): Ghost<spec_fn(T, T) -> bool>) -> (r: Vec<T>)
    requires
        forall|a: &T, b: &T| #[trigger] le.requires((a, b)),
        forall|a: &T, b: &T, x: bool| le.ensures((a, b), x) ==> x == spec_le(*a, *b),
    ensures
        r@ == sort_by(v@, spec_le),
{
    let mut out: Vec<T> = Vec::new();
    let mut rest = v;
    let ghost orig = rest@;
    let ghost n = rest@.len();
    assert(n == rest.len());
    assert(orig.skip(0) =~= orig);
    let mut i: usize = 0;
    while rest.len() > 0
        invariant
            orig.len() == n,
            n <= usize::MAX,
            rest@.len() + i == n,
            rest@ == orig.skip(i as int),
            out@ == sort_by(orig.take(i as int), spec_le),
            forall|a: &T, b: &T| #[trigger] le.requires((a, b)),
            forall|a: &T, b: &T, x: bool| le.ensures((a, b), x) ==> x == spec_le(*a, *b),
        decreases rest.len(),
    {
        let x = rest.remove(0);
        assert(x == orig[i as int]);
        assert(rest@ =~= orig.skip(i + 1));
        let mut p = out.len();
        loop
            invariant
                p <= out@.len(),
                forall|a: &T, b: &T| #[trigger] le.requires((a, b)),
                forall|a: &T, b: &T, y: bool| le.ensures((a, b), y) ==> y == spec_le(*a, *b),
                forall|k: int| p <= k < out@.len() ==> !spec_le(#[trigger] out@[k], x),
            ensures
                p <= out@.len(),
                forall|k: int| p <= k < out@.len() ==> !spec_le(#[trigger] out@[k], x),
                p > 0 ==> spec_le(out@[p - 1], x),
            decreases p,
        {
            if p == 0 {
                break;
            }
            let ok = le(&out[p - 1], &x);
            if ok {
                break;
            }
            p = p - 1;
        }
        proof {
            lemma_insert_pos_unique(out@, x, spec_le, p as int);
            lemma_insert_pos(out@, x, spec_le);
            assert(orig.take(i + 1).drop_last() =~= orig.take(i as int));
        }
        let ghost before = out@;
        out.insert(p, x);
        assert(out@ =~= before.take(p as int).push(x) + before.skip(p as int));
        i = i + 1;
    }
    assert(orig.take(n as int) =~= orig);
    out
}

} // verus!

verus! {

/// Sorting commutes with a map when the order is read through the map.
pub proof fn lemma_sort_map<T, U>(s: Seq<T>, f: spec_fn(T) -> U, le_t: spec_fn(T, T) -> bool, le_u: spec_fn(U, U) -> bool)
    requires
        forall|a: T, b: T| #[trigger] le_t(a, b) == le_u(f(a), f(b)),
    ensures
        sort_by(s, le_t).map_values(f) == sort_by(s.map_values(f), le_u),
    decreases s.len(),
{
    if s.len() > 0 {
        let t = s.drop_last();
        lemma_sort_map(t, f, le_t, le_u);
        assert(s.map_values(f).drop_last() =~= t.map_values(f));
        lemma_insert_map(sort_by(t, le_t), s.last(), f, le_t, le_u);
    }
}

pub proof fn lemma_insert_map<T, U>(s: Seq<T>, x: T, f: spec_fn(T) -> U, le_t: spec_fn(T, T) -> bool, le_u: spec_fn(U, U) -> bool)
    requires
        forall|a: T, b: T| #[trigger] le_t(a, b) == le_u(f(a), f(b)),
    ensures
        insert_by(s, x, le_t).map_values(f) == insert_by(s.map_values(f), f(x), le_u),
    decreases s.len(),
{
    if s.len() == 0 {
        assert(insert_by(s, x, le_t).map_values(f) =~= seq![f(x)]);
    } else {
        let t = s.drop_last();
        assert(s.map_values(f).drop_last() =~= t.map_values(f));
        assert(le_t(s.last(), x) == le_u(f(s.last()), f(x)));
        if le_t(s.last(), x) {
            assert(insert_by(s, x, le_t).map_values(f) =~= s.map_values(f).push(f(x)));
        } else {
            lemma_insert_map(t, x, f, le_t, le_u);
            assert(insert_by(s, x, le_t).map_values(f) =~= insert_by(t, x, le_t).map_values(f).push(f(s.last())));
        }
    }
}

} // verus!

verus! {

/// `x` and `y` are equivalent under `le`: each is `le` the other.
pub open spec fn tied<T>(le: spec_fn(T, T) -> bool, x: T, y: T) -> bool {
    le(x, y) && le(y, x)
}

/// The elements of `s` tied with `c`, in order.
pub open spec fn ties_of<T>(s: Seq<T>, c: T, le: spec_fn(T, T) -> bool) -> Seq<T>
    decreases s.len(),
{
    if s.len() == 0 {
        seq![]
    } else {
        let r = ties_of(s.drop_last(), c, le);
        if tied(le, s.last(), c) {
            r.push(s.last())
        } else {
            r
        }
    }
}

/// Inserting `x` keeps the elements tied with `c` in order, with `x` last
/// among them when it is tied with `c`.
proof fn lemma_insert_ties<T>(s: Seq<T>, x: T, c: T, le: spec_fn(T, T) -> bool)
    requires
        total_preorder(le),
    ensures
        ties_of(insert_by(s, x, le), c, le) == if tied(le, x, c) {
            ties_of(s, c, le).push(x)
        } else {
            ties_of(s, c, le)
        },
    decreases s.len(),
{
    let e = Seq::<T>::empty();
    if s.len() == 0 {
        assert(insert_by(s, x, le) == seq![x]);
        assert(seq![x].drop_last() =~= e);
        assert(s =~= e);
        assert(ties_of(e, c, le) == e);
        assert(ties_of(seq![x], c, le) == if tied(le, x, c) { e.push(x) } else { e });
    } else if le(s.last(), x) {
        assert(insert_by(s, x, le) == s.push(x));
        assert(s.push(x).drop_last() =~= s);
        assert(s.push(x).last() == x);
    } else {
        let t = s.drop_last();
        lemma_insert_ties(t, x, c, le);
        let r = insert_by(t, x, le);
        let l = s.last();
        assert(insert_by(s, x, le) == r.push(l));
        assert(r.push(l).drop_last() =~= r);
        assert(r.push(l).last() == l);
        assert(ties_of(r.push(l), c, le) == if tied(le, l, c) { ties_of(r, c, le).push(l) } else { ties_of(r, c, le) });
        assert(ties_of(s, c, le) == if tied(le, l, c) { ties_of(t, c, le).push(l) } else { ties_of(t, c, le) });
        if tied(le, x, c) && tied(le, l, c) {
            assert(le(l, c) && le(c, x));
            assert(le(l, x));
        }
    }
}

/// Stability: sorting keeps the elements tied with `c` in their input order.
pub proof fn lemma_sort_ties<T>(s: Seq<T>, c: T, le: spec_fn(T, T) -> bool)
    requires
        total_preorder(le),
    ensures
        ties_of(sort_by(s, le), c, le) == ties_of(s, c, le),
    decreases s.len(),
{
    if s.len() > 0 {
        let t = s.drop_last();
        lemma_sort_ties(t, c, le);
        lemma_insert_ties(sort_by(t, le), s.last(), c, le);
    }
}

/// Two sorted sequences with the same elements, whose tied elements come in
/// the same order, are equal.
proof fn lemma_sorted_ties_eq<T>(r1: Seq<T>, r2: Seq<T>, le: spec_fn(T, T) -> bool)
    requires
        total_preorder(le),
        sorted_by(r1, le),
        sorted_by(r2, le),
        r1.to_multiset() == r2.to_multiset(),
        forall|c: T| #[trigger] ties_of(r1, c, le) == ties_of(r2, c, le),
    ensures
        r1 == r2,
    decreases r1.len(),
{
    broadcast use vstd::multiset::group_multiset_axioms;
    r1.to_multiset_ensures();
    r2.to_multiset_ensures();
    assert(r1.len() == r2.len());
    if r1.len() > 0 {
        let x = r1.last();
        let y = r2.last();
        let n = r1.len() - 1;
        assert(r1 =~= r1.drop_last().push(x));
        assert(r2 =~= r2.drop_last().push(y));
        assert(le(x, x) || le(x, x));
        assert(le(y, y) || le(y, y));
        assert(r1.contains(x)) by {
            assert(r1[n] == x);
        }
        assert(r2.to_multiset().count(x) > 0);
        assert(r2.contains(x));
        let j = choose|j: int| 0 <= j < r2.len() && r2[j] == x;
        if j < n {
            assert(le(r2[j], r2[n]));
        }
        assert(r2.contains(y)) by {
            assert(r2[n] == y);
        }
        assert(r1.to_multiset().count(y) > 0);
        assert(r1.contains(y));
        let k = choose|k: int| 0 <= k < r1.len() && r1[k] == y;
        if k < n {
            assert(le(r1[k], r1[n]));
        }
        assert(tied(le, x, y));
        assert(ties_of(r1, x, le).last() == x);
        assert(ties_of(r2, x, le).last() == y);
        assert(ties_of(r1, x, le) == ties_of(r2, x, le));
        assert(x == y);
        let t1 = r1.drop_last();
        let t2 = r2.drop_last();
        t1.to_multiset_ensures();
        t2.to_multiset_ensures();
        assert(t1.to_multiset() =~= t2.to_multiset()) by {
            assert(r1.to_multiset() == t1.to_multiset().insert(x));
            assert(r2.to_multiset() == t2.to_multiset().insert(x));
            assert forall|a: T| t1.to_multiset().count(a) == t2.to_multiset().count(a) by {
                assert(r1.to_multiset().count(a) == r2.to_multiset().count(a));
                assert(t1.to_multiset().insert(x).count(a) == t1.to_multiset().count(a) + if a == x { 1nat } else { 0nat });
                assert(t2.to_multiset().insert(x).count(a) == t2.to_multiset().count(a) + if a == x { 1nat } else { 0nat });
            }
        }
        assert forall|c: T| #[trigger] ties_of(t1, c, le) == ties_of(t2, c, le) by {
            assert(ties_of(r1, c, le) == ties_of(r2, c, le));
            if tied(le, x, c) {
                assert(ties_of(t1, c, le) =~= ties_of(r1, c, le).drop_last());
                assert(ties_of(t2, c, le) =~= ties_of(r2, c, le).drop_last());
            }
        }
        assert(sorted_by(t1, le)) by {
            assert forall|a: int, b: int| 0 <= a < b < t1.len() implies le(#[trigger] t1[a], #[trigger] t1[b]) by {
                assert(t1[a] == r1[a] && t1[b] == r1[b]);
            }
        }
        assert(sorted_by(t2, le)) by {
            assert forall|a: int, b: int| 0 <= a < b < t2.len() implies le(#[trigger] t2[a], #[trigger] t2[b]) by {
                assert(t2[a] == r2[a] && t2[b] == r2[b]);
            }
        }
        lemma_sorted_ties_eq(t1, t2, le);
    }
}

/// The stable sort depends only on the elements and on the order of tied
/// elements: inputs with the same elements whose tied elements come in the
/// same order sort to the same sequence.
pub proof fn lemma_sort_determined_by_ties<T>(s: Seq<T>, t: Seq<T>, le: spec_fn(T, T) -> bool)
    requires
        total_preorder(le),
        s.to_multiset() == t.to_multiset(),
        forall|c: T| #[trigger] ties_of(s, c, le) == ties_of(t, c, le),
    ensures
        sort_by(s, le) == sort_by(t, le),
{
    lemma_sort_sorted(s, le);
    lemma_sort_sorted(t, le);
    lemma_sort_multiset(s, le);
    lemma_sort_multiset(t, le);
    assert forall|c: T| #[trigger] ties_of(sort_by(s, le), c, le) == ties_of(sort_by(t, le), c, le) by {
        lemma_sort_ties(s, c, le);
        lemma_sort_ties(t, c, le);
        assert(ties_of(s, c, le) == ties_of(t, c, le));
    }
    lemma_sorted_ties_eq(sort_by(s, le), sort_by(t, le), le);
}

/// No element of `u` is tied with `c`.
proof fn lemma_ties_none<T>(u: Seq<T>, c: T, le: spec_fn(T, T) -> bool)
    requires
        forall|i: int| 0 <= i < u.len() ==> !tied(le, #[trigger] u[i], c),
    ensures
        ties_of(u, c, le) == Seq::<T>::empty(),
    decreases u.len(),
{
    if u.len() > 0 {
        let t = u.drop_last();
        assert forall|i: int| 0 <= i < t.len() implies !tied(le, #[trigger] t[i], c) by {
            assert(t[i] == u[i]);
        }
        lemma_ties_none(t, c, le);
        assert(!tied(le, u[u.len() - 1], c));
    }
}

/// When every element of `u` tied with `c` is `e`, the elements tied with
/// `c` are the copies of `e`.
proof fn lemma_ties_uniform<T>(u: Seq<T>, c: T, e: T, le: spec_fn(T, T) -> bool)
    requires
        tied(le, e, c),
        forall|i: int| 0 <= i < u.len() && tied(le, #[trigger] u[i], c) ==> u[i] == e,
    ensures
        ties_of(u, c, le) =~= Seq::new(u.to_multiset().count(e), |i: int| e),
    decreases u.len(),
{
    broadcast use vstd::multiset::group_multiset_axioms;
    if u.len() == 0 {
        u.to_multiset_ensures();
        assert(u.to_multiset() =~= vstd::multiset::Multiset::<T>::empty());
    } else {
        let t = u.drop_last();
        assert forall|i: int| 0 <= i < t.len() && tied(le, #[trigger] t[i], c) implies t[i] == e by {
            assert(t[i] == u[i]);
        }
        lemma_ties_uniform(t, c, e, le);
        t.to_multiset_ensures();
        assert(u =~= t.push(u.last()));
        assert(u.to_multiset() == t.to_multiset().insert(u.last()));
        assert(u.last() == u[u.len() - 1]);
    }
}

/// When tied elements of `s` are always equal, a rearrangement `t` of `s`
/// has the same tied elements in the same order.
pub proof fn lemma_ties_unique_keys<T>(s: Seq<T>, t: Seq<T>, le: spec_fn(T, T) -> bool)
    requires
        total_preorder(le),
        s.to_multiset() == t.to_multiset(),
        forall|i: int, j: int| 0 <= i < s.len() && 0 <= j < s.len() && tied(le, #[trigger] s[i], #[trigger] s[j]) ==> s[i] == s[j],
    ensures
        forall|c: T| #[trigger] ties_of(s, c, le) == ties_of(t, c, le),
{
    broadcast use vstd::multiset::group_multiset_axioms;
    s.to_multiset_ensures();
    t.to_multiset_ensures();
    assert forall|c: T| #[trigger] ties_of(s, c, le) == ties_of(t, c, le) by {
        if exists|i: int| 0 <= i < s.len() && tied(le, #[trigger] s[i], c) {
            let i = choose|i: int| 0 <= i < s.len() && tied(le, #[trigger] s[i], c);
            let e = s[i];
            assert forall|j: int| 0 <= j < s.len() && tied(le, #[trigger] s[j], c) implies s[j] == e by {
                assert(tied(le, s[j], s[i]));
            }
            assert forall|j: int| 0 <= j < t.len() && tied(le, #[trigger] t[j], c) implies t[j] == e by {
                assert(t.contains(t[j]));
                assert(s.to_multiset().count(t[j]) > 0);
                assert(s.contains(t[j]));
                let k = choose|k: int| 0 <= k < s.len() && s[k] == t[j];
                assert(tied(le, s[k], s[i]));
            }
            lemma_ties_uniform(s, c, e, le);
            lemma_ties_uniform(t, c, e, le);
        } else {
            assert forall|j: int| 0 <= j < t.len() implies !tied(le, #[trigger] t[j], c) by {
                assert(t.contains(t[j]));
                assert(s.to_multiset().count(t[j]) > 0);
                assert(s.contains(t[j]));
                let k = choose|k: int| 0 <= k < s.len() && s[k] == t[j];
                assert(!tied(le, s[k], c));
            }
            lemma_ties_none(s, c, le);
            lemma_ties_none(t, c, le);
        }
    }
}

/// When tied elements of `s` are always equal, the stable sort depends only
/// on the elements of `s`, not on their order.
pub proof fn lemma_sort_unique_keys<T>(s: Seq<T>, t: Seq<T>, le: spec_fn(T, T) -> bool)
    requires
        total_preorder(le),
        s.to_multiset() == t.to_multiset(),
        forall|i: int, j: int| 0 <= i < s.len() && 0 <= j < s.len() && tied(le, #[trigger] s[i], #[trigger] s[j]) ==> s[i] == s[j],
    ensures
        sort_by(s, le) == sort_by(t, le),
{
    lemma_ties_unique_keys(s, t, le);
    lemma_sort_determined_by_ties(s, t, le);
}

/// The elements of a concatenation tied with `c` are those of each part.
pub proof fn lemma_ties_concat<T>(a: Seq<T>, b: Seq<T>, c: T, le: spec_fn(T, T) -> bool)
    ensures
        ties_of(a + b, c, le) == ties_of(a, c, le) + ties_of(b, c, le),
    decreases b.len(),
{
    if b.len() == 0 {
        assert(a + b =~= a);
        assert(ties_of(a, c, le) + ties_of(b, c, le) =~= ties_of(a, c, le));
    } else {
        lemma_ties_concat(a, b.drop_last(), c, le);
        assert((a + b).drop_last() =~= a + b.drop_last());
        assert((a + b).last() == b.last());
        if tied(le, b.last(), c) {
            assert(ties_of(a, c, le) + ties_of(b, c, le) =~= (ties_of(a, c, le) + ties_of(b.drop_last(), c, le)).push(b.last()));
        } else {
            assert(ties_of(b, c, le) == ties_of(b.drop_last(), c, le));
        }
    }
}

} // verus!
