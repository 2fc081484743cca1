//! Selection of the elastic modes from the spectrum of a free-free bar.
//!
//! The eigenvalues of the bar are squared angular frequencies. A bar that is
//! not held anywhere has two rigid-body modes whose eigenvalues are zero up to
//! rounding; they are told apart from the elastic modes by a threshold.
use crate::binary64::Binary64;
use vstd::multiset::Multiset;
use vstd::prelude::*;
use vstd::relations::sorted_by;
use vstd::seq_lib::group_to_multiset_ensures;
use vstd::seq_lib::lemma_sorted_unique;

verus! {

/// An eigenvalue belongs to an elastic mode when it is a number above one
/// (rad²/s²); everything else counts as a rigid-body mode or as noise.
pub open spec fn is_elastic(eigenvalue: Binary64) -> bool {
    eigenvalue.gt(Binary64::one())
}

/// The order in which eigenvalues are listed.
pub open spec fn ascending_order() -> spec_fn(Binary64, Binary64) -> bool {
    |a: Binary64, b: Binary64| a.total_le(b)
}

/// The predicate of [`is_elastic`] as a function value.
pub open spec fn elastic() -> spec_fn(Binary64) -> bool {
    |v: Binary64| is_elastic(v)
}

/// The eigenvalues of the elastic modes in ascending order, cut off after
/// `num_modes` of them.
pub open spec fn elastic_modes(eigenvalues: Seq<Binary64>, num_modes: nat) -> Seq<Binary64> {
    let kept = eigenvalues.sort_by(ascending_order()).filter(elastic());
    if num_modes < kept.len() {
        kept.take(num_modes as int)
    } else {
        kept
    }
}

/// The number of modes that a spectrum yields when `num_modes` are asked for:
/// that many, or as many as it has eigenvalues of elastic modes if those are
/// fewer.
pub open spec fn elastic_count(eigenvalues: Seq<Binary64>, num_modes: nat) -> nat {
    let available = eigenvalues.filter(elastic()).len();
    if num_modes < available {
        num_modes
    } else {
        available
    }
}

/// Sorts eigenvalues ascending.
pub fn sort_ascending(values: &[Binary64]) -> (sorted: Vec<Binary64>)
    ensures
        sorted@ == values@.sort_by(ascending_order()),
        sorted@.len() == values@.len(),
        sorted_by(sorted@, ascending_order()),
        sorted@.to_multiset() == values@.to_multiset(),
{
    let mut out: Vec<Binary64> = Vec::new();
    let mut i: usize = 0;
    assert(out@ =~= values@.take(0));
    while i < values.len()
        invariant
            i <= values.len(),
            out@.len() == i,
            sorted_by(out@, ascending_order()),
            out@.to_multiset() == values@.take(i as int).to_multiset(),
        decreases values.len() - i,
    {
        let x: Binary64 = values[i];
        let mut pos: usize = out.len();
        while pos > 0 && !out[pos - 1].total_le(x)
            invariant
                pos <= out.len(),
                forall|k: int| pos <= k < out@.len() ==> x.total_le(#[trigger] out@[k]),
            decreases pos,
        {
            pos = pos - 1;
        }
        proof {
            let before = out@;
            let after = before.insert(pos as int, x);
            assert forall|a: int, b: int| 0 <= a < b < after.len() implies (ascending_order())(
                after[a],
                after[b],
            ) by {
                if b < pos {
                    assert((ascending_order())(before[a], before[b]));
                } else if b == pos {
                    assert((ascending_order())(before[a], before[pos - 1]));
                } else if a < pos {
                    assert((ascending_order())(before[a], before[b - 1]));
                } else if a == pos {
                } else {
                    assert((ascending_order())(before[a - 1], before[b - 1]));
                }
            }
            broadcast use group_to_multiset_ensures;

            assert(values@.take(i + 1) =~= values@.take(i as int).push(x));
        }
        out.insert(pos, x);
        i = i + 1;
    }
    proof {
        assert(values@.take(i as int) =~= values@);
        lemma_ascending_unique(values@, out@);
    }
    out
}

/// Picks the eigenvalues of the first `num_modes` elastic modes out of a
/// spectrum given in any order.
///
/// Fewer are returned when the spectrum holds fewer elastic modes.
pub fn select_elastic_modes(eigenvalues: &[Binary64], num_modes: usize) -> (modes: Vec<Binary64>)
    ensures
        modes@ == elastic_modes(eigenvalues@, num_modes as nat),
        modes@.len() == elastic_count(eigenvalues@, num_modes as nat),
        modes@.len() <= eigenvalues@.len(),
        forall|i: int| 0 <= i < modes@.len() ==> is_elastic(#[trigger] modes@[i]),
        forall|i: int, j: int| 0 <= i <= j < modes@.len() ==> modes@[i].le(modes@[j]),
{
    let sorted = sort_ascending(eigenvalues);
    let mut modes: Vec<Binary64> = Vec::new();
    let mut k: usize = 0;
    while k < sorted.len() && modes.len() < num_modes
        invariant
            k <= sorted.len(),
            modes@ == sorted@.take(k as int).filter(elastic()),
            modes@.len() <= num_modes,
        decreases sorted.len() - k,
    {
        let v: Binary64 = sorted[k];
        proof {
            broadcast use Seq::lemma_filter_push;

            assert(sorted@.take(k + 1) =~= sorted@.take(k as int).push(v));
        }
        if v.gt(Binary64::one()) {
            modes.push(v);
        }
        k = k + 1;
    }
    proof {
        let head = sorted@.take(k as int);
        let tail = sorted@.skip(k as int);
        let kept = sorted@.filter(elastic());
        assert(sorted@ =~= head + tail);
        Seq::filter_distributes_over_add(head, tail, elastic());
        assert(kept == modes@ + tail.filter(elastic()));
        if k == sorted.len() {
            assert(tail =~= Seq::empty());
            reveal(Seq::filter);
            assert(tail.filter(elastic()) =~= Seq::empty());
            assert(kept =~= modes@);
        } else {
            assert(modes@ =~= kept.take(num_modes as int));
        }
        lemma_elastic_modes_ascending(eigenvalues@, num_modes as nat);
        lemma_elastic_modes_bounded(eigenvalues@, num_modes as nat);
        lemma_elastic_modes_len(eigenvalues@, num_modes as nat);
    }
    modes
}

/// Every selected eigenvalue lies above the rigid-body threshold, and the
/// selection is listed in ascending order.
pub proof fn lemma_elastic_modes_ascending(eigenvalues: Seq<Binary64>, num_modes: nat)
    ensures
        forall|i: int|
            0 <= i < elastic_modes(eigenvalues, num_modes).len() ==> is_elastic(
                #[trigger] elastic_modes(eigenvalues, num_modes)[i],
            ),
        forall|i: int, j: int|
            0 <= i <= j < elastic_modes(eigenvalues, num_modes).len() ==> elastic_modes(
                eigenvalues,
                num_modes,
            )[i].le(elastic_modes(eigenvalues, num_modes)[j]),
{
    let sorted = eigenvalues.sort_by(ascending_order());
    let kept = sorted.filter(elastic());
    let modes = elastic_modes(eigenvalues, num_modes);
    eigenvalues.lemma_sort_by_ensures(ascending_order());
    lemma_filter_sorted(sorted, elastic(), ascending_order());
    assert forall|i: int| 0 <= i < modes.len() implies is_elastic(#[trigger] modes[i]) by {
        assert(modes[i] == kept[i]);
        assert((elastic())(kept[i]));
    }
    assert forall|i: int, j: int| 0 <= i <= j < modes.len() implies modes[i].le(modes[j]) by {
        assert(modes[i] == kept[i] && modes[j] == kept[j]);
        assert(is_elastic(modes[i]) && is_elastic(modes[j]));
        if i < j {
            assert((ascending_order())(kept[i], kept[j]));
        }
    }
}

/// No more modes are selected than were asked for, nor than the spectrum has
/// eigenvalues.
pub proof fn lemma_elastic_modes_bounded(eigenvalues: Seq<Binary64>, num_modes: nat)
    ensures
        elastic_modes(eigenvalues, num_modes).len() <= num_modes,
        elastic_modes(eigenvalues, num_modes).len() <= eigenvalues.len(),
{
    let sorted = eigenvalues.sort_by(ascending_order());
    eigenvalues.lemma_sort_by_ensures(ascending_order());
    sorted.lemma_filter_len(elastic());
    sorted.to_multiset_ensures();
    eigenvalues.to_multiset_ensures();
}

/// Filtering a sorted sequence leaves a sorted sequence, made of elements of
/// the sequence that satisfy the predicate.
proof fn lemma_filter_sorted<A>(s: Seq<A>, pred: spec_fn(A) -> bool, leq: spec_fn(A, A) -> bool)
    requires
        sorted_by(s, leq),
    ensures
        sorted_by(s.filter(pred), leq),
        forall|i: int|
            0 <= i < s.filter(pred).len() ==> s.contains(#[trigger] s.filter(pred)[i]) && pred(
                s.filter(pred)[i],
            ),
    decreases s.len(),
{
    reveal(Seq::filter);
    if s.len() > 0 {
        let front = s.drop_last();
        lemma_filter_sorted(front, pred, leq);
        let kept = front.filter(pred);
        assert forall|i: int| 0 <= i < kept.len() implies s.contains(#[trigger] kept[i]) && leq(
            kept[i],
            s.last(),
        ) by {
            let j = choose|j: int| 0 <= j < front.len() && front[j] == kept[i];
            assert(s[j] == kept[i]);
        }
        if pred(s.last()) {
            assert(s[s.len() - 1] == s.last());
        }
    }
}

/// Filtering commutes with forgetting the order of a sequence.
proof fn lemma_filter_to_multiset<A>(s: Seq<A>, pred: spec_fn(A) -> bool)
    ensures
        s.filter(pred).to_multiset() == s.to_multiset().filter(pred),
    decreases s.len(),
{
    broadcast use group_to_multiset_ensures;
    broadcast use vstd::multiset::group_multiset_axioms;

    reveal(Seq::filter);
    if s.len() == 0 {
        assert(s.to_multiset() =~= Multiset::<A>::empty());
        assert(s.filter(pred).to_multiset() =~= s.to_multiset().filter(pred));
    } else {
        let front = s.drop_last();
        lemma_filter_to_multiset(front, pred);
        assert(s =~= front.push(s.last()));
        assert(s.to_multiset() =~= front.to_multiset().insert(s.last()));
        assert(s.filter(pred).to_multiset() =~= s.to_multiset().filter(pred));
    }
}

/// There is one way only to list given eigenvalues in ascending order.
pub proof fn lemma_ascending_unique(values: Seq<Binary64>, sorted: Seq<Binary64>)
    requires
        sorted_by(sorted, ascending_order()),
        sorted.to_multiset() == values.to_multiset(),
    ensures
        values.sort_by(ascending_order()) == sorted,
{
    crate::binary64::lemma_total_le_is_total_order();
    values.lemma_sort_by_ensures(ascending_order());
    lemma_sorted_unique(sorted, values.sort_by(ascending_order()), ascending_order());
}

/// The selection does not depend on the order in which the eigenvalues are
/// given.
pub proof fn lemma_selection_ignores_order(a: Seq<Binary64>, b: Seq<Binary64>, num_modes: nat)
    requires
        a.to_multiset() == b.to_multiset(),
    ensures
        elastic_modes(a, num_modes) == elastic_modes(b, num_modes),
{
    a.lemma_sort_by_ensures(ascending_order());
    lemma_ascending_unique(b, a.sort_by(ascending_order()));
}

/// As many modes are selected as were asked for, or all the elastic modes of
/// the spectrum if those are fewer.
pub proof fn lemma_elastic_modes_len(eigenvalues: Seq<Binary64>, num_modes: nat)
    ensures
        elastic_modes(eigenvalues, num_modes).len() == elastic_count(eigenvalues, num_modes),
{
    let sorted = eigenvalues.sort_by(ascending_order());
    eigenvalues.lemma_sort_by_ensures(ascending_order());
    lemma_filter_to_multiset(sorted, elastic());
    lemma_filter_to_multiset(eigenvalues, elastic());
    sorted.filter(elastic()).to_multiset_ensures();
    eigenvalues.filter(elastic()).to_multiset_ensures();
}

} // verus!
