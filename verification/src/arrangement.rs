//! Facts about sequences that hold the same elements in different orders.
use vstd::prelude::*;

verus! {

/// Every element of one arrangement stands somewhere in every other.
pub proof fn lemma_member_of_every_arrangement<A>(a: Seq<A>, b: Seq<A>, i: int) -> (j: int)
    requires
        a.to_multiset() == b.to_multiset(),
        0 <= i < a.len(),
    ensures
        0 <= j < b.len(),
        b[j] == a[i],
{
    broadcast use vstd::seq_lib::group_to_multiset_ensures;

    assert(a.contains(a[i]));
    assert(a.to_multiset().count(a[i]) > 0);
    assert(b.to_multiset().count(a[i]) > 0);
    assert(b.contains(a[i]));
    choose|j: int| 0 <= j < b.len() && b[j] == a[i]
}

/// An element that stands twice in one arrangement stands twice in every
/// other.
pub proof fn lemma_twice_in_every_arrangement<A>(a: Seq<A>, b: Seq<A>, j: int, k: int) -> (at: (
    int,
    int,
))
    requires
        a.to_multiset() == b.to_multiset(),
        0 <= j < k < b.len(),
        b[j] == b[k],
    ensures
        0 <= at.0 < at.1 < a.len(),
        a[at.0] == b[j],
        a[at.1] == b[j],
{
    broadcast use vstd::seq_lib::group_to_multiset_ensures;
    broadcast use vstd::multiset::group_multiset_axioms;

    let x = b[j];
    let b_rest = b.remove(k);
    assert(b_rest[j] == x);
    assert(b_rest.contains(x));
    assert(b_rest.to_multiset().count(x) > 0);
    assert(b.to_multiset().count(x) >= 2);
    assert(a.to_multiset().count(x) >= 2);
    assert(a.contains(x));
    let p = choose|p: int| 0 <= p < a.len() && a[p] == x;
    let a_rest = a.remove(p);
    assert(a_rest.to_multiset().count(x) > 0);
    assert(a_rest.contains(x));
    let r = choose|r: int| 0 <= r < a_rest.len() && a_rest[r] == x;
    if r < p {
        assert(a[r] == x);
        (r, p)
    } else {
        assert(a[r + 1] == x);
        (p, r + 1)
    }
}

/// Two arrangements of the same elements have the same length.
pub proof fn lemma_arrangements_have_one_length<A>(a: Seq<A>, b: Seq<A>)
    requires
        a.to_multiset() == b.to_multiset(),
    ensures
        a.len() == b.len(),
{
    a.to_multiset_ensures();
    b.to_multiset_ensures();
}

} // verus!
