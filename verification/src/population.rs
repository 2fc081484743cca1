//! Bookkeeping of a population of candidate bars.
//!
//! The genes of a population are stored back to back, individual after
//! individual. The individuals are evaluated independently of each other, in
//! any order and possibly at the same time; each evaluation reports the
//! position of its individual with the fitness, and the reports are put in
//! the order of the population whatever order they come in.
use crate::arrangement::lemma_arrangements_have_one_length;
use crate::arrangement::lemma_member_of_every_arrangement;
use crate::arrangement::lemma_twice_in_every_arrangement;
use crate::binary64::Binary64;
use vstd::prelude::*;
use vstd::set_lib::lemma_int_range;
use vstd::set_lib::lemma_subset_equality;
use vstd::set_lib::set_int_range;
use vstd::slice::slice_subrange;

verus! {

/// The genes of one individual of a population stored back to back.
pub open spec fn genes_of(
    all_genes: Seq<Binary64>,
    genes_per_individual: nat,
    individual: nat,
) -> Seq<Binary64> {
    all_genes.subrange(
        (individual * genes_per_individual) as int,
        ((individual + 1) * genes_per_individual) as int,
    )
}

/// What the evaluation of one individual reports: the position of the
/// individual in the population, and its fitness.
#[derive(Clone, Copy, Debug, PartialEq, Eq, Structural)]
pub struct Report {
    pub individual: usize,
    pub fitness: Binary64,
}

/// There is one report of every individual of the population and no other.
pub open spec fn is_complete(reports: Seq<Report>, population_size: nat) -> bool {
    &&& reports.len() == population_size
    &&& forall|k: int|
        0 <= k < reports.len() ==> (#[trigger] reports[k]).individual < population_size
    &&& forall|k: int, l: int|
        0 <= k < l < reports.len() ==> (#[trigger] reports[k]).individual != (
        #[trigger] reports[l]).individual
}

/// Report `k` is one of the individual at `position`.
pub open spec fn reports_on(reports: Seq<Report>, position: int, k: int) -> bool {
    0 <= k < reports.len() && reports[k].individual == position
}

/// The fitness reported of the individual at `position`.
pub open spec fn fitness_of(reports: Seq<Report>, position: int) -> Binary64 {
    reports[choose|k: int| reports_on(reports, position, k)].fitness
}

/// The fitness of every individual, in the order of the population.
pub open spec fn scores_of(reports: Seq<Report>) -> Seq<Binary64> {
    Seq::new(reports.len(), |position: int| fitness_of(reports, position))
}

/// Whether `total_genes` genes hold a population of `population_size`
/// individuals of `genes_per_individual` genes each.
pub fn population_fits(
    total_genes: usize,
    population_size: usize,
    genes_per_individual: usize,
) -> (fits: bool)
    ensures
        fits == (population_size * genes_per_individual <= total_genes),
{
    match population_size.checked_mul(genes_per_individual) {
        Some(needed) => needed <= total_genes,
        None => false,
    }
}

/// The genes of one individual of the population.
pub fn individual_genes<'a>(
    all_genes: &'a [Binary64],
    genes_per_individual: usize,
    individual: usize,
) -> (genes: &'a [Binary64])
    requires
        (individual + 1) * genes_per_individual <= all_genes@.len(),
    ensures
        genes@ == genes_of(all_genes@, genes_per_individual as nat, individual as nat),
        genes@.len() == genes_per_individual,
        forall|k: int|
            0 <= k < genes_per_individual ==> genes@[k] == all_genes@[individual
                * genes_per_individual + k],
{
    let total: usize = all_genes.len();
    proof {
        assert(individual * genes_per_individual + genes_per_individual == (individual + 1)
            * genes_per_individual) by (nonlinear_arith);
        assert(0 <= individual * genes_per_individual) by (nonlinear_arith);
        assert(individual * genes_per_individual + genes_per_individual <= total);
    }
    let start: usize = individual * genes_per_individual;
    slice_subrange(all_genes, start, start + genes_per_individual)
}

/// Puts the reported fitnesses in the order of the population.
///
/// Returns nothing unless there is one report of every individual and no
/// other.
pub fn collect_scores(reports: &[Report], population_size: usize) -> (scores: Option<
    Vec<Binary64>,
>)
    ensures
        scores is Some <==> is_complete(reports@, population_size as nat),
        scores matches Some(v) ==> v@ == scores_of(reports@),
        scores matches Some(v) ==> forall|k: int|
            0 <= k < reports@.len() ==> v@[(#[trigger] reports@[k]).individual as int]
                == reports@[k].fitness,
{
    if reports.len() != population_size {
        return None;
    }
    let mut scores: Vec<Binary64> = Vec::new();
    let mut filled: Vec<bool> = Vec::new();
    let mut i: usize = 0;
    while i < population_size
        invariant
            i <= population_size,
            scores@.len() == i,
            filled@.len() == i,
            forall|j: int| 0 <= j < i ==> !filled@[j],
        decreases population_size - i,
    {
        scores.push(Binary64::zero());
        filled.push(false);
        i = i + 1;
    }
    let mut k: usize = 0;
    while k < reports.len()
        invariant
            reports@.len() == population_size,
            scores@.len() == population_size,
            filled@.len() == population_size,
            k <= reports@.len(),
            forall|j: int| 0 <= j < k ==> (#[trigger] reports@[j]).individual < population_size,
            forall|j: int, l: int|
                0 <= j < l < k ==> (#[trigger] reports@[j]).individual != (
                #[trigger] reports@[l]).individual,
            forall|p: int|
                0 <= p < population_size ==> (#[trigger] filled@[p] <==> exists|j: int|
                    0 <= j < k && reports_on(reports@, p, j)),
            forall|j: int|
                0 <= j < k ==> scores@[(#[trigger] reports@[j]).individual as int]
                    == reports@[j].fitness,
        decreases reports.len() - k,
    {
        let report: Report = reports[k];
        if report.individual >= population_size {
            return None;
        }
        if filled[report.individual] {
            proof {
                let j = choose|j: int|
                    0 <= j < k && reports_on(reports@, report.individual as int, j);
                assert(reports@[j].individual == reports@[k as int].individual);
            }
            return None;
        }
        let ghost before = filled@;
        proof {
            assert forall|j: int| 0 <= j < k implies (#[trigger] reports@[j]).individual
                != report.individual by {
                if reports@[j].individual == report.individual {
                    assert(reports_on(reports@, report.individual as int, j));
                }
            }
        }
        scores.set(report.individual, report.fitness);
        filled.set(report.individual, true);
        proof {
            assert(reports_on(reports@, report.individual as int, k as int));
            assert forall|p: int| 0 <= p < population_size implies (#[trigger] filled@[p]
                <==> exists|j: int| 0 <= j < k + 1 && reports_on(reports@, p, j)) by {
                if p != report.individual {
                    if before[p] {
                        let j = choose|j: int| 0 <= j < k && reports_on(reports@, p, j);
                        assert(0 <= j < k + 1 && reports_on(reports@, p, j));
                    }
                }
            }
        }
        k = k + 1;
    }
    proof {
        assert(is_complete(reports@, population_size as nat));
        assert forall|p: int| 0 <= p < population_size implies scores@[p] == fitness_of(
            reports@,
            p,
        ) by {
            lemma_every_individual_is_reported(reports@, population_size as nat, p);
            let j = choose|j: int| reports_on(reports@, p, j);
            lemma_report_decides(reports@, population_size as nat, j);
        }
        assert(scores@ =~= scores_of(reports@));
    }
    Some(scores)
}

/// Gene `k` of an individual is the gene at position
/// `individual * genes_per_individual + k` of the population, and that
/// position belongs to no other individual and to no other of its genes.
pub proof fn lemma_individuals_keep_their_genes(
    all_genes: Seq<Binary64>,
    genes_per_individual: nat,
    individual: nat,
    k: nat,
)
    requires
        (individual + 1) * genes_per_individual <= all_genes.len(),
        k < genes_per_individual,
    ensures
        genes_of(all_genes, genes_per_individual, individual).len() == genes_per_individual,
        genes_of(all_genes, genes_per_individual, individual)[k as int] == all_genes[(individual
            * genes_per_individual + k) as int],
        (individual * genes_per_individual + k) / genes_per_individual == individual,
        (individual * genes_per_individual + k) % genes_per_individual == k,
{
    assert(individual * genes_per_individual + genes_per_individual == (individual + 1)
        * genes_per_individual) by (nonlinear_arith);
    assert(0 <= individual * genes_per_individual) by (nonlinear_arith);
    vstd::arithmetic::div_mod::lemma_fundamental_div_mod_converse(
        (individual * genes_per_individual + k) as int,
        genes_per_individual as int,
        individual as int,
        k as int,
    );
}

/// In a population that fits its genes, every individual has all of its
/// genes.
pub proof fn lemma_population_members_fit(
    total_genes: nat,
    population_size: nat,
    genes_per_individual: nat,
    individual: nat,
)
    requires
        population_size * genes_per_individual <= total_genes,
        individual < population_size,
    ensures
        (individual + 1) * genes_per_individual <= total_genes,
{
    assert((individual + 1) * genes_per_individual <= population_size * genes_per_individual)
        by (nonlinear_arith)
        requires
            individual + 1 <= population_size,
    ;
}

/// A population of one is its only individual: all the genes are its genes,
/// and its fitness is the only score.
pub proof fn lemma_population_of_one(all_genes: Seq<Binary64>, fitness: Binary64)
    ensures
        genes_of(all_genes, all_genes.len(), 0) == all_genes,
        is_complete(seq![Report { individual: 0, fitness }], 1),
        scores_of(seq![Report { individual: 0, fitness }]) == seq![fitness],
{
    let n = all_genes.len();
    assert(0 * n == 0 && (0 + 1) * n == n) by (nonlinear_arith);
    assert(genes_of(all_genes, n, 0) =~= all_genes);
    let reports = seq![Report { individual: 0, fitness }];
    assert(reports[0] == Report { individual: 0, fitness });
    assert(is_complete(reports, 1));
    lemma_report_decides(reports, 1, 0);
    assert(scores_of(reports) =~= seq![fitness]);
}

/// The set of the individuals that the first `k` reports are of.
spec fn reported_among(reports: Seq<Report>, k: int) -> Set<int> {
    Set::new(|p: int| exists|j: int| 0 <= j < k && reports_on(reports, p, j))
}

/// The first `k` of a complete set of reports are of `k` individuals.
proof fn lemma_reported_among(reports: Seq<Report>, population_size: nat, k: int)
    requires
        is_complete(reports, population_size),
        0 <= k <= reports.len(),
    ensures
        reported_among(reports, k).finite(),
        reported_among(reports, k).len() == k,
        reported_among(reports, k).subset_of(set_int_range(0, population_size as int)),
    decreases k,
{
    if k == 0 {
        assert(reported_among(reports, 0) =~= Set::<int>::empty());
    } else {
        lemma_reported_among(reports, population_size, k - 1);
        let earlier = reported_among(reports, k - 1);
        let added = reports[k - 1].individual as int;
        assert(reports_on(reports, added, k - 1));
        assert(!earlier.contains(added)) by {
            if earlier.contains(added) {
                let j = choose|j: int| 0 <= j < k - 1 && reports_on(reports, added, j);
                assert(reports[j].individual != reports[k - 1].individual);
            }
        }
        assert(reported_among(reports, k) =~= earlier.insert(added)) by {
            assert forall|p: int| reported_among(reports, k).contains(p) implies earlier.insert(
                added,
            ).contains(p) by {
                let j = choose|j: int| 0 <= j < k && reports_on(reports, p, j);
                if j < k - 1 {
                    assert(earlier.contains(p));
                }
            }
            assert forall|p: int| earlier.insert(added).contains(p) implies reported_among(
                reports,
                k,
            ).contains(p) by {
                if p != added {
                    let j = choose|j: int| 0 <= j < k - 1 && reports_on(reports, p, j);
                    assert(0 <= j < k && reports_on(reports, p, j));
                }
            }
        }
    }
}

/// A complete set of reports has a report of every individual of the
/// population.
pub proof fn lemma_every_individual_is_reported(
    reports: Seq<Report>,
    population_size: nat,
    position: int,
)
    requires
        is_complete(reports, population_size),
        0 <= position < population_size,
    ensures
        exists|k: int| reports_on(reports, position, k),
{
    let n = population_size as int;
    lemma_reported_among(reports, population_size, n);
    lemma_int_range(0, n);
    lemma_subset_equality(reported_among(reports, n), set_int_range(0, n));
    assert(set_int_range(0, n).contains(position));
    assert(reported_among(reports, n).contains(position));
    let j = choose|j: int| 0 <= j < n && reports_on(reports, position, j);
    assert(reports_on(reports, position, j));
}

/// In a complete set of reports, the fitness of an individual is the one
/// that its report states.
pub proof fn lemma_report_decides(reports: Seq<Report>, population_size: nat, k: int)
    requires
        is_complete(reports, population_size),
        0 <= k < reports.len(),
    ensures
        fitness_of(reports, reports[k].individual as int) == reports[k].fitness,
        scores_of(reports)[reports[k].individual as int] == reports[k].fitness,
{
    let position = reports[k].individual as int;
    assert(reports_on(reports, position, k));
    let chosen = choose|j: int| reports_on(reports, position, j);
    if chosen < k {
        assert(reports[chosen].individual != reports[k].individual);
    } else if k < chosen {
        assert(reports[k].individual != reports[chosen].individual);
    }
}

/// The order in which the reports come in makes no difference to the scores:
/// every arrangement of a complete set of reports is complete and gives the
/// same scores.
pub proof fn lemma_arrival_order_is_immaterial(
    a: Seq<Report>,
    b: Seq<Report>,
    population_size: nat,
)
    requires
        is_complete(a, population_size),
        a.to_multiset() == b.to_multiset(),
    ensures
        is_complete(b, population_size),
        scores_of(a) == scores_of(b),
{
    lemma_arrangements_have_one_length(a, b);
    assert forall|k: int| 0 <= k < b.len() implies (#[trigger] b[k]).individual
        < population_size by {
        let ka = lemma_member_of_every_arrangement(b, a, k);
        assert(a[ka].individual < population_size);
    }
    assert forall|k: int, l: int| 0 <= k < l < b.len() implies (#[trigger] b[k]).individual != (
    #[trigger] b[l]).individual by {
        if b[k].individual == b[l].individual {
            let ka = lemma_member_of_every_arrangement(b, a, k);
            let la = lemma_member_of_every_arrangement(b, a, l);
            if ka < la {
                assert(a[ka].individual != a[la].individual);
            } else if la < ka {
                assert(a[la].individual != a[ka].individual);
            } else {
                let (u, v) = lemma_twice_in_every_arrangement(a, b, k, l);
                assert(a[u].individual != a[v].individual);
            }
        }
    }
    assert forall|position: int| 0 <= position < population_size implies fitness_of(a, position)
        == fitness_of(b, position) by {
        lemma_every_individual_is_reported(a, population_size, position);
        let k = choose|k: int| reports_on(a, position, k);
        let kb = lemma_member_of_every_arrangement(a, b, k);
        lemma_report_decides(a, population_size, k);
        lemma_report_decides(b, population_size, kb);
    }
    assert(scores_of(a) =~= scores_of(b));
}

} // verus!
