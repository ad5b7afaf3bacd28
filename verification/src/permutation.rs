//! Facts about sequences built element by element, and about what stays the
//! same when their input is rearranged.

use vstd::prelude::*;

verus! {

/// The sequences `g(x)` for the elements `x` of `s`, concatenated in order.
pub open spec fn flat_map<T, U>(s: Seq<T>, g: spec_fn(T) -> Seq<U>) -> Seq<U>
    decreases s.len(),
{
    if s.len() == 0 {
        seq![]
    } else {
        flat_map(s.drop_last(), g) + g(s.last())
    }
}

/// Removing element `j` of `t` removes its part from the result.
proof fn lemma_flat_map_remove<T, U>(t: Seq<T>, g: spec_fn(T) -> Seq<U>, j: int)
    requires
        0 <= j < t.len(),
    ensures
        flat_map(t, g).to_multiset() == flat_map(t.remove(j), g).to_multiset().add(g(t[j]).to_multiset()),
    decreases t.len(),
{
    broadcast use vstd::multiset::group_multiset_axioms;
    let u = t.drop_last();
    vstd::seq_lib::lemma_multiset_commutative(flat_map(u, g), g(t.last()));
    if j == t.len() - 1 {
        assert(t.remove(j) =~= u);
    } else {
        lemma_flat_map_remove(u, g, j);
        assert(t.remove(j) =~= u.remove(j).push(t.last()));
        assert(t.remove(j).drop_last() =~= u.remove(j));
        vstd::seq_lib::lemma_multiset_commutative(flat_map(u.remove(j), g), g(t.last()));
        assert(u[j] == t[j]);
        assert(flat_map(t, g).to_multiset() =~= flat_map(t.remove(j), g).to_multiset().add(g(t[j]).to_multiset()));
    }
}

/// Rearranging the input rearranges the result: inputs with the same
/// elements give results with the same elements.
pub proof fn lemma_flat_map_permutation<T, U>(s: Seq<T>, t: Seq<T>, g: spec_fn(T) -> Seq<U>)
    requires
        s.to_multiset() == t.to_multiset(),
    ensures
        flat_map(s, g).to_multiset() == flat_map(t, g).to_multiset(),
    decreases s.len(),
{
    broadcast use vstd::multiset::group_multiset_axioms;
    s.to_multiset_ensures();
    t.to_multiset_ensures();
    if s.len() == 0 {
        assert(t.len() == 0);
        assert(t =~= s);
    } else {
        let x = s.last();
        let u = s.drop_last();
        assert(s =~= u.push(x));
        assert(s.to_multiset().count(x) > 0) by {
            assert(s.contains(x)) by {
                assert(s[s.len() - 1] == x);
            }
        }
        assert(t.contains(x));
        let j = choose|j: int| 0 <= j < t.len() && t[j] == x;
        u.to_multiset_ensures();
        assert(t.remove(j).to_multiset() == t.to_multiset().remove(x));
        assert(u.to_multiset() =~= t.remove(j).to_multiset()) by {
            assert(s.to_multiset() == u.to_multiset().insert(x));
        }
        lemma_flat_map_permutation(u, t.remove(j), g);
        lemma_flat_map_remove(t, g, j);
        vstd::seq_lib::lemma_multiset_commutative(flat_map(u, g), g(x));
    }
}

/// Every element of the result comes from some element of the input.
pub proof fn lemma_flat_map_contains<T, U>(s: Seq<T>, g: spec_fn(T) -> Seq<U>, e: U)
    requires
        flat_map(s, g).contains(e),
    ensures
        exists|i: int| 0 <= i < s.len() && #[trigger] g(s[i]).contains(e),
    decreases s.len(),
{
    let u = s.drop_last();
    let k = choose|k: int| 0 <= k < flat_map(s, g).len() && flat_map(s, g)[k] == e;
    if k < flat_map(u, g).len() {
        assert(flat_map(u, g)[k] == e);
        lemma_flat_map_contains(u, g, e);
        let i = choose|i: int| 0 <= i < u.len() && #[trigger] g(u[i]).contains(e);
        assert(u[i] == s[i]);
    } else {
        let m = k - flat_map(u, g).len();
        assert(g(s.last())[m] == e);
        assert(g(s[s.len() - 1]).contains(e));
    }
}

/// The result has no repeated element when no part has one and no two
/// parts share one.
pub proof fn lemma_flat_map_no_duplicates<T, U>(s: Seq<T>, g: spec_fn(T) -> Seq<U>)
    requires
        forall|i: int| 0 <= i < s.len() ==> (#[trigger] g(s[i])).no_duplicates(),
        forall|i: int, j: int| 0 <= i < j < s.len() ==> (#[trigger] g(s[i])).disjoint(#[trigger] g(s[j])),
    ensures
        flat_map(s, g).no_duplicates(),
    decreases s.len(),
{
    if s.len() > 0 {
        let u = s.drop_last();
        assert forall|i: int| 0 <= i < u.len() implies (#[trigger] g(u[i])).no_duplicates() by {
            assert(u[i] == s[i]);
        }
        assert forall|i: int, j: int| 0 <= i < j < u.len() implies (#[trigger] g(u[i])).disjoint(#[trigger] g(u[j])) by {
            assert(u[i] == s[i] && u[j] == s[j]);
        }
        lemma_flat_map_no_duplicates(u, g);
        let a = flat_map(u, g);
        let b = g(s.last());
        assert(b == g(s[s.len() - 1]));
        assert forall|p: int, q: int| 0 <= p < a.len() && 0 <= q < b.len() implies a[p] != b[q] by {
            assert(a.contains(a[p]));
            lemma_flat_map_contains(u, g, a[p]);
            let i = choose|i: int| 0 <= i < u.len() && #[trigger] g(u[i]).contains(a[p]);
            assert(u[i] == s[i]);
            let r = choose|r: int| 0 <= r < g(u[i]).len() && #[trigger] g(u[i])[r] == a[p];
            assert(g(s[i]).disjoint(g(s[s.len() - 1])));
        }
        let c = a + b;
        assert forall|p: int, q: int| 0 <= p < c.len() && 0 <= q < c.len() && p != q implies c[p] != c[q] by {
            if p < a.len() && q < a.len() {
            } else if p >= a.len() && q >= a.len() {
                assert(c[p] == b[p - a.len()] && c[q] == b[q - a.len()]);
            } else if p < a.len() {
                assert(c[q] == b[q - a.len()]);
            } else {
                assert(c[p] == b[p - a.len()]);
            }
        }
    }
}

/// Mapping the result is mapping each part.
pub proof fn lemma_flat_map_map<T, U, V>(s: Seq<T>, g: spec_fn(T) -> Seq<U>, h: spec_fn(U) -> V)
    ensures
        flat_map(s, g).map_values(h) == flat_map(s, |x: T| g(x).map_values(h)),
    decreases s.len(),
{
    if s.len() > 0 {
        lemma_flat_map_map(s.drop_last(), g, h);
        assert(flat_map(s, g).map_values(h) =~= flat_map(s.drop_last(), g).map_values(h) + g(s.last()).map_values(h));
    }
}

/// Sequences with the same elements contain the same values.
pub proof fn lemma_permutation_contains<T>(s: Seq<T>, t: Seq<T>, x: T)
    requires
        s.to_multiset() == t.to_multiset(),
    ensures
        s.contains(x) == t.contains(x),
{
    s.to_multiset_ensures();
    t.to_multiset_ensures();
    assert(s.to_multiset().count(x) == t.to_multiset().count(x));
    assert(s.contains(x) <==> s.to_multiset().count(x) > 0);
    assert(t.contains(x) <==> t.to_multiset().count(x) > 0);
}

/// Sequences without repeated elements that contain the same values have
/// the same elements.
pub proof fn lemma_same_values_no_duplicates<T>(s: Seq<T>, t: Seq<T>)
    requires
        s.no_duplicates(),
        t.no_duplicates(),
        forall|x: T| s.contains(x) == t.contains(x),
    ensures
        s.to_multiset() == t.to_multiset(),
{
    broadcast use vstd::multiset::group_multiset_axioms;
    s.to_multiset_ensures();
    t.to_multiset_ensures();
    s.lemma_multiset_has_no_duplicates();
    t.lemma_multiset_has_no_duplicates();
    assert forall|x: T| s.to_multiset().count(x) == t.to_multiset().count(x) by {
        if s.contains(x) {
            assert(s.to_multiset().contains(x));
            assert(t.to_multiset().contains(x));
        }
    }
    assert(s.to_multiset() =~= t.to_multiset());
}

/// An element of a concatenation is an element of one of its parts.
pub proof fn lemma_concat_contains<T>(a: Seq<T>, b: Seq<T>, x: T)
    ensures
        (a + b).contains(x) <==> a.contains(x) || b.contains(x),
{
    if (a + b).contains(x) {
        let k = choose|k: int| 0 <= k < (a + b).len() && (a + b)[k] == x;
        if k < a.len() {
            assert(a[k] == x);
        } else {
            assert(b[k - a.len()] == x);
        }
    }
    if a.contains(x) {
        let k = choose|k: int| 0 <= k < a.len() && a[k] == x;
        assert((a + b)[k] == x);
    }
    if b.contains(x) {
        let k = choose|k: int| 0 <= k < b.len() && b[k] == x;
        assert((a + b)[a.len() + k] == x);
    }
}

} // verus!
