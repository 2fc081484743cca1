//! Decoding of undercuts into the height profile of a bar.
//!
//! A cut removes material symmetrically about the middle of the bar: within
//! `extent` of the centre the bar is left `height` thick. Cuts are nested, and
//! at any point the innermost cut that reaches it decides the height.
use crate::arrangement::lemma_member_of_every_arrangement;
use crate::arrangement::lemma_twice_in_every_arrangement;
use crate::binary64::Binary64;
use crate::fault::Fault;
use vstd::prelude::*;

verus! {

/// One undercut: the half-width of the region it spans about the centre of
/// the bar, and the height it leaves there.
#[derive(Clone, Copy, Debug, PartialEq, Eq, Structural)]
pub struct Cut {
    pub extent: Binary64,
    pub height: Binary64,
}

impl Cut {
    /// The cut has a positive extent that reaches a point at `distance` from
    /// the centre.
    pub open spec fn spec_covers(self, distance: Binary64) -> bool {
        self.extent.is_positive() && distance.le(self.extent)
    }

    /// Whether the cut reaches a point at `distance` from the centre.
    #[verifier::when_used_as_spec(spec_covers)]
    pub fn covers(self, distance: Binary64) -> (r: bool)
        ensures
            r == self.spec_covers(distance),
    {
        self.extent.is_positive() && distance.le(self.extent)
    }
}

/// The cuts that a flat gene sequence `[extent, height, extent, height, ..]`
/// encodes. A trailing gene without a partner encodes nothing.
pub open spec fn cuts_of(genes: Seq<Binary64>) -> Seq<Cut> {
    Seq::new(
        (genes.len() / 2) as nat,
        |i: int| Cut { extent: genes[2 * i], height: genes[2 * i + 1] },
    )
}

/// Cut `i` is applied before cut `j`: wider cuts come first, and of two cuts
/// of the same extent the one that was given first.
pub open spec fn applied_before(cuts: Seq<Cut>, i: int, j: int) -> bool {
    cuts[i].extent.rank() > cuts[j].extent.rank() || (cuts[i].extent.rank() == cuts[j].extent.rank()
        && i < j)
}

/// `order` lists every index of `cuts` once, in the order of application.
pub open spec fn is_application_order(cuts: Seq<Cut>, order: Seq<usize>) -> bool {
    &&& order.len() == cuts.len()
    &&& forall|k: int| 0 <= k < order.len() ==> #[trigger] order[k] < cuts.len()
    &&& forall|i: usize| i < cuts.len() ==> #[trigger] order.contains(i)
    &&& forall|k: int, l: int|
        0 <= k < l < order.len() ==> applied_before(
            cuts,
            #[trigger] order[k] as int,
            #[trigger] order[l] as int,
        )
}

/// Cut `i` is the innermost cut that reaches `distance`: no cut that reaches
/// it has a smaller extent, and of those with the same extent `i` was given
/// last.
pub open spec fn is_innermost(cuts: Seq<Cut>, distance: Binary64, i: int) -> bool {
    &&& 0 <= i < cuts.len()
    &&& cuts[i].covers(distance)
    &&& forall|j: int|
        0 <= j < cuts.len() && (#[trigger] cuts[j]).covers(distance) ==> applied_before(cuts, j, i)
            || j == i
}

/// The height of the bar at `distance` from its centre: that of the innermost
/// cut reaching there, or the uncut height `h0` where none does.
pub open spec fn height_at(cuts: Seq<Cut>, distance: Binary64, h0: Binary64) -> Binary64 {
    if exists|i: int| is_innermost(cuts, distance, i) {
        cuts[choose|i: int| is_innermost(cuts, distance, i)].height
    } else {
        h0
    }
}

/// The heights at a sequence of points, each given by its offset from the
/// centre of the bar, negative to one side and positive to the other.
pub open spec fn heights_at(cuts: Seq<Cut>, offsets: Seq<Binary64>, h0: Binary64) -> Seq<
    Binary64,
> {
    Seq::new(offsets.len(), |e: int| height_at(cuts, offsets[e].abs(), h0))
}

/// No cut that reaches `distance` has a smaller extent than cut `i`.
pub open spec fn is_least_extent(cuts: Seq<Cut>, distance: Binary64, i: int) -> bool {
    forall|j: int|
        0 <= j < cuts.len() && (#[trigger] cuts[j]).covers(distance) ==> cuts[i].extent.le(
            cuts[j].extent,
        )
}

/// No two cuts have the same extent.
pub open spec fn distinct_extents(cuts: Seq<Cut>) -> bool {
    forall|i: int, j: int|
        0 <= i < j < cuts.len() ==> (#[trigger] cuts[i]).extent.rank() != (
        #[trigger] cuts[j]).extent.rank()
}

/// Every value is a number above zero.
pub open spec fn all_positive(values: Seq<Binary64>) -> bool {
    forall|i: int| 0 <= i < values.len() ==> (#[trigger] values[i]).is_positive()
}

/// Pairs a flat gene sequence into cuts.
pub fn pair_genes(genes: &[Binary64]) -> (cuts: Vec<Cut>)
    ensures
        cuts@ == cuts_of(genes@),
{
    let count: usize = genes.len() / 2;
    let mut cuts: Vec<Cut> = Vec::new();
    let mut i: usize = 0;
    while i < count
        invariant
            count == genes@.len() / 2,
            genes@.len() <= usize::MAX,
            i <= count,
            cuts@.len() == i,
            forall|k: int| 0 <= k < i ==> cuts@[k] == cuts_of(genes@)[k],
        decreases count - i,
    {
        cuts.push(Cut { extent: genes[2 * i], height: genes[2 * i + 1] });
        i = i + 1;
    }
    assert(cuts@ =~= cuts_of(genes@));
    cuts
}

/// The order in which the cuts are applied: by descending extent, cuts of
/// equal extent in the order given.
pub fn application_order(cuts: &[Cut]) -> (order: Vec<usize>)
    ensures
        is_application_order(cuts@, order@),
{
    let mut order: Vec<usize> = Vec::new();
    let mut i: usize = 0;
    while i < cuts.len()
        invariant
            i <= cuts.len(),
            order@.len() == i,
            forall|k: int| 0 <= k < order@.len() ==> #[trigger] order@[k] < i,
            forall|j: usize| j < i ==> #[trigger] order@.contains(j),
            forall|k: int, l: int|
                0 <= k < l < order@.len() ==> applied_before(
                    cuts@,
                    #[trigger] order@[k] as int,
                    #[trigger] order@[l] as int,
                ),
        decreases cuts.len() - i,
    {
        let key: i64 = cuts[i].extent.key();
        let mut pos: usize = order.len();
        while pos > 0 && cuts[order[pos - 1]].extent.key() < key
            invariant
                pos <= order@.len(),
                i < cuts.len(),
                key == cuts@[i as int].extent.rank(),
                forall|k: int| 0 <= k < order@.len() ==> #[trigger] order@[k] < i,
                forall|k: int|
                    pos <= k < order@.len() ==> cuts@[#[trigger] order@[k] as int].extent.rank()
                        < key,
            decreases pos,
        {
            pos = pos - 1;
        }
        proof {
            let before = order@;
            let after = before.insert(pos as int, i);
            assert forall|k: int, l: int| 0 <= k < l < after.len() implies applied_before(
                cuts@,
                #[trigger] after[k] as int,
                #[trigger] after[l] as int,
            ) by {
                if l < pos {
                    assert(applied_before(cuts@, before[k] as int, before[l] as int));
                } else if l == pos {
                    if k < pos - 1 {
                        assert(applied_before(cuts@, before[k] as int, before[pos - 1] as int));
                    }
                    assert(before[k] < i);
                } else if k < pos {
                    assert(applied_before(cuts@, before[k] as int, before[l - 1] as int));
                } else if k == pos {
                    assert(cuts@[before[l - 1] as int].extent.rank() < key);
                } else {
                    assert(applied_before(cuts@, before[k - 1] as int, before[l - 1] as int));
                }
            }
            assert forall|j: usize| j < i + 1 implies #[trigger] after.contains(j) by {
                if j == i {
                    assert(after[pos as int] == j);
                } else {
                    assert(before.contains(j));
                    let k = choose|k: int| 0 <= k < before.len() && before[k] == j;
                    if k < pos {
                        assert(after[k] == j);
                    } else {
                        assert(after[k + 1] == j);
                    }
                }
            }
            assert forall|k: int| 0 <= k < after.len() implies #[trigger] after[k] < i + 1 by {
                if k < pos {
                    assert(after[k] == before[k]);
                } else if k > pos {
                    assert(after[k] == before[k - 1]);
                }
            }
        }
        order.insert(pos, i);
        i = i + 1;
    }
    order
}

/// The height at `distance` from the centre, found by applying the cuts in
/// the given order: every cut that reaches the point overrides the height
/// left by those before it.
pub fn height_along(
    cuts: &[Cut],
    order: &[usize],
    distance: Binary64,
    h0: Binary64,
) -> (height: Binary64)
    requires
        is_application_order(cuts@, order@),
    ensures
        height == height_at(cuts@, distance, h0),
{
    let mut height: Binary64 = h0;
    let ghost mut hit: int = -1;
    let mut k: usize = 0;
    while k < order.len()
        invariant
            is_application_order(cuts@, order@),
            k <= order@.len(),
            -1 <= hit < k,
            hit == -1 ==> height == h0,
            hit >= 0 ==> cuts@[order@[hit] as int].covers(distance) && height
                == cuts@[order@[hit] as int].height,
            forall|m: int| hit < m < k ==> !cuts@[#[trigger] order@[m] as int].covers(distance),
        decreases order.len() - k,
    {
        let cut: Cut = cuts[order[k]];
        if cut.covers(distance) {
            height = cut.height;
            proof {
                hit = k as int;
            }
        }
        k = k + 1;
    }
    proof {
        if hit == -1 {
            assert forall|j: int| 0 <= j < cuts@.len() implies !(#[trigger] cuts@[j]).covers(
                distance,
            ) by {
                assert(order@.contains(j as usize));
                let m = choose|m: int| 0 <= m < order@.len() && order@[m] == j as usize;
                assert(!cuts@[order@[m] as int].covers(distance));
            }
            lemma_uncovered_keeps_h0(cuts@, distance, h0);
        } else {
            let i = order@[hit] as int;
            assert forall|j: int| 0 <= j < cuts@.len() && (#[trigger] cuts@[j]).covers(
                distance,
            ) implies applied_before(cuts@, j, i) || j == i by {
                assert(order@.contains(j as usize));
                let m = choose|m: int| 0 <= m < order@.len() && order@[m] == j as usize;
                if m > hit {
                    assert(!cuts@[order@[m] as int].covers(distance));
                } else if m < hit {
                    assert(applied_before(cuts@, order@[m] as int, order@[hit] as int));
                }
            }
            assert(order@[hit] < cuts@.len());
            lemma_innermost_decides(cuts@, distance, h0, i);
        }
    }
    height
}

/// Decodes a gene sequence into the heights of the elements of a bar, each
/// element given by the offset of its middle from the centre of the bar.
pub fn decode_heights(genes: &[Binary64], offsets: &[Binary64], h0: Binary64) -> (heights: Vec<
    Binary64,
>)
    ensures
        heights@ == heights_at(cuts_of(genes@), offsets@, h0),
{
    let cuts = pair_genes(genes);
    let order = application_order(&cuts);
    let mut heights: Vec<Binary64> = Vec::new();
    let mut e: usize = 0;
    while e < offsets.len()
        invariant
            is_application_order(cuts@, order@),
            cuts@ == cuts_of(genes@),
            e <= offsets@.len(),
            heights@.len() == e,
            forall|k: int|
                0 <= k < e ==> heights@[k] == height_at(
                    cuts_of(genes@),
                    (#[trigger] offsets@[k]).abs(),
                    h0,
                ),
        decreases offsets.len() - e,
    {
        heights.push(height_along(&cuts, &order, offsets[e].abs(), h0));
        e = e + 1;
    }
    assert(heights@ =~= heights_at(cuts_of(genes@), offsets@, h0));
    heights
}

/// Checks that every element has a height above zero, and reports the first
/// one that has not.
pub fn check_heights(heights: &[Binary64]) -> (checked: Result<(), Fault>)
    ensures
        (match checked {
            Ok(_) => all_positive(heights@),
            Err(Fault::InvalidGeometry { element }) => {
                &&& element < heights@.len()
                &&& !heights@[element as int].is_positive()
                &&& all_positive(heights@.take(element as int))
            },
            Err(Fault::NumericalFailure) => false,
        }),
{
    let mut e: usize = 0;
    while e < heights.len()
        invariant
            e <= heights@.len(),
            all_positive(heights@.take(e as int)),
        decreases heights.len() - e,
    {
        if !heights[e].is_positive() {
            return Err(Fault::InvalidGeometry { element: e });
        }
        assert(heights@.take(e + 1) =~= heights@.take(e as int).push(heights@[e as int]));
        e = e + 1;
    }
    assert(heights@.take(e as int) =~= heights@);
    Ok(())
}

/// At most one cut is the innermost one, and it decides the height.
pub proof fn lemma_innermost_decides(cuts: Seq<Cut>, distance: Binary64, h0: Binary64, i: int)
    requires
        is_innermost(cuts, distance, i),
    ensures
        height_at(cuts, distance, h0) == cuts[i].height,
        forall|j: int| is_innermost(cuts, distance, j) ==> j == i,
{
    assert forall|j: int| is_innermost(cuts, distance, j) implies j == i by {
        assert(cuts[j].covers(distance));
        assert(cuts[i].covers(distance));
    }
}

/// Where no cut reaches, the bar keeps its uncut height.
pub proof fn lemma_uncovered_keeps_h0(cuts: Seq<Cut>, distance: Binary64, h0: Binary64)
    requires
        forall|j: int| 0 <= j < cuts.len() ==> !(#[trigger] cuts[j]).covers(distance),
    ensures
        height_at(cuts, distance, h0) == h0,
{
}

/// Among the cuts that reach a point there is an innermost one.
pub proof fn lemma_covered_has_innermost(cuts: Seq<Cut>, distance: Binary64)
    requires
        exists|j: int| 0 <= j < cuts.len() && (#[trigger] cuts[j]).covers(distance),
    ensures
        exists|i: int| is_innermost(cuts, distance, i),
    decreases cuts.len(),
{
    let last = cuts.len() - 1;
    let front = cuts.drop_last();
    if exists|j: int| 0 <= j < front.len() && (#[trigger] front[j]).covers(distance) {
        lemma_covered_has_innermost(front, distance);
        let i = choose|i: int| is_innermost(front, distance, i);
        if cuts[last].covers(distance) && cuts[last].extent.rank() <= cuts[i].extent.rank() {
            assert forall|j: int|
                0 <= j < cuts.len() && (#[trigger] cuts[j]).covers(distance) implies applied_before(
                cuts,
                j,
                last,
            ) || j == last by {
                if j < last {
                    assert(front[j].covers(distance));
                    assert(applied_before(front, j, i) || j == i);
                }
            }
            assert(is_innermost(cuts, distance, last));
        } else {
            assert forall|j: int|
                0 <= j < cuts.len() && (#[trigger] cuts[j]).covers(distance) implies applied_before(
                cuts,
                j,
                i,
            ) || j == i by {
                if j < last {
                    assert(front[j].covers(distance));
                    assert(applied_before(front, j, i) || j == i);
                }
            }
            assert(is_innermost(cuts, distance, i));
        }
    } else {
        assert forall|j: int|
            0 <= j < cuts.len() && (#[trigger] cuts[j]).covers(distance) implies j == last by {
            if j < last {
                assert(front[j].covers(distance));
            }
        }
        assert(is_innermost(cuts, distance, last));
    }
}

/// The height at a point is the uncut height exactly where no cut reaches;
/// elsewhere it is the height of a cut that reaches the point and that no
/// other such cut lies within.
pub proof fn lemma_height_is_of_a_covering_cut(cuts: Seq<Cut>, distance: Binary64, h0: Binary64)
    ensures
        (forall|j: int| 0 <= j < cuts.len() ==> !(#[trigger] cuts[j]).covers(distance))
            ==> height_at(cuts, distance, h0) == h0,
        (exists|j: int| 0 <= j < cuts.len() && (#[trigger] cuts[j]).covers(distance)) ==> (exists|
            i: int,
        |
            0 <= i < cuts.len() && (#[trigger] cuts[i]).covers(distance) && height_at(
                cuts,
                distance,
                h0,
            ) == cuts[i].height && is_least_extent(cuts, distance, i)),
{
    if exists|j: int| 0 <= j < cuts.len() && (#[trigger] cuts[j]).covers(distance) {
        lemma_covered_has_innermost(cuts, distance);
        let i = choose|i: int| is_innermost(cuts, distance, i);
        lemma_innermost_decides(cuts, distance, h0, i);
        assert(cuts[i].covers(distance));
        assert forall|j: int|
            0 <= j < cuts.len() && (#[trigger] cuts[j]).covers(distance) implies cuts[i].extent.le(
            cuts[j].extent,
        ) by {
            assert(applied_before(cuts, j, i) || j == i);
        }
        assert(is_least_extent(cuts, distance, i));
    }
}

/// Cuts of distinct extents have distinct extents however they are arranged.
proof fn lemma_distinct_in_every_arrangement(a: Seq<Cut>, b: Seq<Cut>)
    requires
        a.to_multiset() == b.to_multiset(),
        distinct_extents(a),
    ensures
        distinct_extents(b),
{
    assert forall|p: int, q: int| 0 <= p < q < b.len() implies (#[trigger] b[p]).extent.rank() != (
    #[trigger] b[q]).extent.rank() by {
        if b[p].extent.rank() == b[q].extent.rank() {
            let pa = lemma_member_of_every_arrangement(b, a, p);
            let qa = lemma_member_of_every_arrangement(b, a, q);
            if pa != qa {
                if pa < qa {
                    assert(a[pa].extent.rank() != a[qa].extent.rank());
                } else {
                    assert(a[qa].extent.rank() != a[pa].extent.rank());
                }
            } else {
                let (u, v) = lemma_twice_in_every_arrangement(a, b, p, q);
                assert(a[u].extent.rank() != a[v].extent.rank());
            }
        }
    }
}

/// The innermost cut of one arrangement of cuts of distinct extents is the
/// innermost cut of every other.
proof fn lemma_innermost_in_every_arrangement(
    a: Seq<Cut>,
    b: Seq<Cut>,
    distance: Binary64,
    i: int,
) -> (j: int)
    requires
        a.to_multiset() == b.to_multiset(),
        distinct_extents(a),
        is_innermost(a, distance, i),
    ensures
        is_innermost(b, distance, j),
        b[j] == a[i],
{
    let j = lemma_member_of_every_arrangement(a, b, i);
    lemma_distinct_in_every_arrangement(a, b);
    assert forall|k: int|
        0 <= k < b.len() && (#[trigger] b[k]).covers(distance) implies applied_before(b, k, j) || k
        == j by {
        let ka = lemma_member_of_every_arrangement(b, a, k);
        assert(a[ka].covers(distance));
        assert(applied_before(a, ka, i) || ka == i);
        if ka == i {
            if k < j {
                assert(b[k].extent.rank() != b[j].extent.rank());
            } else if j < k {
                assert(b[j].extent.rank() != b[k].extent.rank());
            }
        } else if ka < i {
            assert(a[ka].extent.rank() != a[i].extent.rank());
        } else {
            assert(a[i].extent.rank() != a[ka].extent.rank());
        }
    }
    j
}

/// Where no two cuts have the same extent, the order in which the cuts are
/// given makes no difference to the height at any point.
pub proof fn lemma_order_of_cuts_is_immaterial(
    a: Seq<Cut>,
    b: Seq<Cut>,
    distance: Binary64,
    h0: Binary64,
)
    requires
        a.to_multiset() == b.to_multiset(),
        distinct_extents(a),
    ensures
        height_at(a, distance, h0) == height_at(b, distance, h0),
{
    if exists|i: int| is_innermost(a, distance, i) {
        let i = choose|i: int| is_innermost(a, distance, i);
        let j = lemma_innermost_in_every_arrangement(a, b, distance, i);
        lemma_innermost_decides(a, distance, h0, i);
        lemma_innermost_decides(b, distance, h0, j);
    } else if exists|j: int| is_innermost(b, distance, j) {
        let j = choose|j: int| is_innermost(b, distance, j);
        lemma_distinct_in_every_arrangement(a, b);
        let i = lemma_innermost_in_every_arrangement(b, a, distance, j);
    }
}

/// A bar without cuts has its uncut height everywhere.
pub proof fn lemma_no_cuts_uniform(offsets: Seq<Binary64>, h0: Binary64)
    ensures
        cuts_of(Seq::<Binary64>::empty()) == Seq::<Cut>::empty(),
        heights_at(cuts_of(Seq::<Binary64>::empty()), offsets, h0) == Seq::new(
            offsets.len(),
            |e: int| h0,
        ),
{
    assert(cuts_of(Seq::<Binary64>::empty()) =~= Seq::<Cut>::empty());
    assert forall|e: int| 0 <= e < offsets.len() implies height_at(
        Seq::<Cut>::empty(),
        (#[trigger] offsets[e]).abs(),
        h0,
    ) == h0 by {
        lemma_uncovered_keeps_h0(Seq::<Cut>::empty(), offsets[e].abs(), h0);
    }
    assert(heights_at(Seq::<Cut>::empty(), offsets, h0) =~= Seq::new(offsets.len(), |e: int| h0));
}

/// The profile is symmetric about the centre of the bar: two points at the
/// same distance from it, on either side, have the same height.
pub proof fn lemma_profile_is_symmetric(
    cuts: Seq<Cut>,
    offsets: Seq<Binary64>,
    h0: Binary64,
    left: int,
    right: int,
)
    requires
        0 <= left < offsets.len(),
        0 <= right < offsets.len(),
        offsets[left].magnitude() == offsets[right].magnitude(),
    ensures
        heights_at(cuts, offsets, h0)[left] == heights_at(cuts, offsets, h0)[right],
{
}

/// Two nested cuts divide the bar into three zones: within the inner extent
/// the inner cut decides, between the two extents the outer cut, and beyond
/// the outer extent the bar is uncut. The order in which the two are given
/// makes no difference.
pub proof fn lemma_two_nested_cuts(outer: Cut, inner: Cut, distance: Binary64, h0: Binary64)
    requires
        inner.extent.is_positive(),
        inner.extent.lt(outer.extent),
    ensures
        height_at(seq![outer, inner], distance, h0) == height_at(
            seq![inner, outer],
            distance,
            h0,
        ),
        distance.le(inner.extent) ==> height_at(seq![outer, inner], distance, h0)
            == inner.height,
        !distance.le(inner.extent) && distance.le(outer.extent) ==> height_at(
            seq![outer, inner],
            distance,
            h0,
        ) == outer.height,
        !distance.le(outer.extent) ==> height_at(seq![outer, inner], distance, h0) == h0,
{
    let a = seq![outer, inner];
    let b = seq![inner, outer];
    assert(a[0] == outer && a[1] == inner && b[0] == inner && b[1] == outer);
    if distance.le(inner.extent) {
        lemma_innermost_decides(a, distance, h0, 1);
        lemma_innermost_decides(b, distance, h0, 0);
    } else if distance.le(outer.extent) {
        lemma_innermost_decides(a, distance, h0, 0);
        lemma_innermost_decides(b, distance, h0, 1);
    } else {
        lemma_uncovered_keeps_h0(a, distance, h0);
        lemma_uncovered_keeps_h0(b, distance, h0);
    }
}

} // verus!
