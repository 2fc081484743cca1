//! How a candidate bar is scored.
//!
//! A candidate is scored by the weighted mean of the squared relative errors
//! of its frequencies against the targets; a candidate that cannot be scored
//! gets positive infinity, so that a minimiser discards it.
use crate::binary64::Binary64;
use crate::fault::Fault;
use crate::modes::elastic_modes;
use vstd::prelude::*;

verus! {

/// The weight of a mode in the score: the fundamental counts `f1_priority`
/// times, every other mode once.
pub open spec fn weight_of(mode: nat, f1_priority: Binary64) -> Binary64 {
    if mode == 0 {
        f1_priority
    } else {
        Binary64::one()
    }
}

/// How a candidate is scored.
#[derive(Clone, Copy, Debug, PartialEq, Eq, Structural)]
pub enum Scoring {
    /// It gets the penalty, positive infinity.
    Penalty,
    /// It gets a hundred times the weighted mean of its squared relative
    /// frequency errors.
    WeightedError,
}

/// What a batch does about a candidate whose evaluation ended in a fault.
#[derive(Clone, Copy, Debug, PartialEq, Eq, Structural)]
pub enum Reaction {
    /// The candidate gets the penalty and the batch goes on.
    Penalise,
    /// The batch is given up.
    Abort,
}

/// A candidate is scored by its errors if it has as many modes as there are
/// targets and the weights sum to a positive number; else it gets the
/// penalty.
pub open spec fn scoring_of(found: nat, requested: nat, total_weight: Binary64) -> Scoring {
    if found >= requested && total_weight.is_positive() {
        Scoring::WeightedError
    } else {
        Scoring::Penalty
    }
}

/// A candidate with an invalid geometry is a bad candidate and is penalised;
/// a failed factorisation is never turned into a score.
pub open spec fn reaction_to(fault: Fault) -> Reaction {
    match fault {
        Fault::InvalidGeometry { .. } => Reaction::Penalise,
        Fault::NumericalFailure => Reaction::Abort,
    }
}

/// The weights of the first `num_modes` modes.
pub fn mode_weights(num_modes: usize, f1_priority: Binary64) -> (weights: Vec<Binary64>)
    ensures
        weights@.len() == num_modes,
        forall|m: int| 0 <= m < num_modes ==> weights@[m] == weight_of(m as nat, f1_priority),
{
    let mut weights: Vec<Binary64> = Vec::new();
    let mut m: usize = 0;
    while m < num_modes
        invariant
            m <= num_modes,
            weights@.len() == m,
            forall|j: int| 0 <= j < m ==> weights@[j] == weight_of(j as nat, f1_priority),
        decreases num_modes - m,
    {
        if m == 0 {
            weights.push(f1_priority);
        } else {
            weights.push(Binary64::one());
        }
        m = m + 1;
    }
    weights
}

/// Decides how a candidate with `found` modes is scored against `requested`
/// targets whose weights sum to `total_weight`.
pub fn scoring(found: usize, requested: usize, total_weight: Binary64) -> (s: Scoring)
    ensures
        s == scoring_of(found as nat, requested as nat, total_weight),
{
    if found >= requested && total_weight.is_positive() {
        Scoring::WeightedError
    } else {
        Scoring::Penalty
    }
}

/// The score of a candidate that cannot be scored by its errors.
pub fn penalty() -> (p: Binary64)
    ensures
        p == Binary64::infinity(),
{
    Binary64::infinity()
}

/// Decides what a batch does about a fault in the evaluation of one
/// candidate.
pub fn reaction(fault: Fault) -> (r: Reaction)
    ensures
        r == reaction_to(fault),
{
    match fault {
        Fault::InvalidGeometry { .. } => Reaction::Penalise,
        Fault::NumericalFailure => Reaction::Abort,
    }
}

/// A candidate asked for more modes than its discretisation has unknowns is
/// penalised, whatever its spectrum.
pub proof fn lemma_unresolved_is_penalised(
    eigenvalues: Seq<Binary64>,
    requested: nat,
    total_weight: Binary64,
)
    requires
        requested > eigenvalues.len(),
    ensures
        scoring_of(elastic_modes(eigenvalues, requested).len(), requested, total_weight)
            == Scoring::Penalty,
{
    crate::modes::lemma_elastic_modes_bounded(eigenvalues, requested);
}

} // verus!
