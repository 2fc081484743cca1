//! Layout of the unknowns of a bar discretised into beam elements.
//!
//! A bar of `n` elements has `n + 1` nodes. Every node carries a transverse
//! displacement and a rotation, numbered node by node, so that the unknowns
//! are `[w0, θ0, w1, θ1, .., wn, θn]`. An element couples the four unknowns of
//! its two end nodes; neighbouring elements meet in the two unknowns of the
//! node between them.
use crate::binary64::Binary64;
use vstd::prelude::*;

verus! {

/// Unknowns per node: one displacement and one rotation.
pub const DOFS_PER_NODE: usize = 2;

/// Unknowns that one element couples.
pub const DOFS_PER_ELEMENT: usize = 4;

/// The number of unknowns of a bar of `num_elements` elements.
pub open spec fn dof_count(num_elements: nat) -> nat {
    DOFS_PER_NODE as nat * (num_elements + 1)
}

/// The global number of the `local`-th unknown (`0..4`, in the order
/// `[w1, θ1, w2, θ2]`) of element `element`.
pub open spec fn global_dof(element: nat, local: nat) -> nat {
    DOFS_PER_NODE as nat * element + local
}

/// The quantities that the matrices of an element are built from are all
/// numbers above zero: its length, Young's modulus, second moment of area,
/// shear modulus and cross-sectional area.
pub open spec fn spec_admissible(
    length: Binary64,
    young: Binary64,
    inertia: Binary64,
    shear: Binary64,
    area: Binary64,
) -> bool {
    &&& length.is_positive()
    &&& young.is_positive()
    &&& inertia.is_positive()
    &&& shear.is_positive()
    &&& area.is_positive()
}

/// Whether the matrices of an element can be built from these quantities.
#[verifier::when_used_as_spec(spec_admissible)]
pub fn admissible(
    length: Binary64,
    young: Binary64,
    inertia: Binary64,
    shear: Binary64,
    area: Binary64,
) -> (r: bool)
    ensures
        r == spec_admissible(length, young, inertia, shear, area),
{
    length.is_positive() && young.is_positive() && inertia.is_positive() && shear.is_positive()
        && area.is_positive()
}

/// A discretisation whose unknowns can be numbered by `usize`.
#[derive(Clone, Copy, Debug)]
pub struct Mesh {
    num_elements: usize,
}

impl Mesh {
    #[verifier::type_invariant]
    spec fn numbered(self) -> bool {
        dof_count(self.num_elements as nat) <= usize::MAX
    }

    /// The number of elements.
    pub closed spec fn elements(self) -> nat {
        self.num_elements as nat
    }

    /// A mesh of `num_elements` elements, unless its unknowns cannot be
    /// numbered.
    pub fn new(num_elements: usize) -> (mesh: Option<Mesh>)
        ensures
            mesh is Some <==> dof_count(num_elements as nat) <= usize::MAX,
            mesh matches Some(m) ==> m.elements() == num_elements,
    {
        if num_elements <= (usize::MAX - 2) / 2 {
            Some(Mesh { num_elements })
        } else {
            None
        }
    }

    /// The number of elements.
    pub fn num_elements(&self) -> (n: usize)
        ensures
            n == self.elements(),
    {
        self.num_elements
    }

    /// The number of unknowns, which is the order of the global matrices.
    pub fn num_dofs(&self) -> (n: usize)
        ensures
            n == dof_count(self.elements()),
    {
        proof {
            use_type_invariant(self);
        }
        DOFS_PER_NODE * (self.num_elements + 1)
    }

    /// The global numbers of the four unknowns of element `element`, in the
    /// order `[w1, θ1, w2, θ2]`.
    pub fn element_dofs(&self, element: usize) -> (dofs: [usize; 4])
        requires
            element < self.elements(),
        ensures
            forall|local: int|
                0 <= local < DOFS_PER_ELEMENT ==> #[trigger] dofs[local] == global_dof(
                    element as nat,
                    local as nat,
                ),
            forall|local: int|
                0 <= local < DOFS_PER_ELEMENT ==> #[trigger] dofs[local] < dof_count(
                    self.elements(),
                ),
    {
        proof {
            use_type_invariant(self);
        }
        let first: usize = DOFS_PER_NODE * element;
        let second: usize = DOFS_PER_NODE * (element + 1);
        [first, first + 1, second, second + 1]
    }
}

/// Every unknown of an element of the bar is one of the bar's unknowns.
pub proof fn lemma_element_dofs_in_range(num_elements: nat, element: nat, local: nat)
    requires
        element < num_elements,
        local < DOFS_PER_ELEMENT,
    ensures
        global_dof(element, local) < dof_count(num_elements),
{
}

/// Neighbouring elements meet in the displacement and the rotation of the
/// node between them, where their contributions add up.
pub proof fn lemma_neighbours_share_node(element: nat)
    ensures
        global_dof(element, 2) == global_dof(element + 1, 0),
        global_dof(element, 3) == global_dof(element + 1, 1),
{
}

/// Two elements have an unknown in common only if they are the same or
/// neighbours.
pub proof fn lemma_distant_elements_disjoint(a: nat, la: nat, b: nat, lb: nat)
    requires
        la < DOFS_PER_ELEMENT,
        lb < DOFS_PER_ELEMENT,
        global_dof(a, la) == global_dof(b, lb),
    ensures
        a == b || a == b + 1 || b == a + 1,
        a == b ==> la == lb,
{
}

/// Every unknown of a bar with at least one element belongs to an element.
pub proof fn lemma_every_dof_in_an_element(num_elements: nat, dof: nat)
    requires
        num_elements >= 1,
        dof < dof_count(num_elements),
    ensures
        exists|element: nat, local: nat|
            element < num_elements && local < DOFS_PER_ELEMENT && #[trigger] global_dof(
                element,
                local,
            ) == dof,
{
    if dof < 2 * num_elements {
        assert(global_dof(dof / 2, dof % 2) == dof);
    } else {
        let last = (num_elements - 1) as nat;
        let local = (dof - 2 * last) as nat;
        assert(global_dof(last, local) == dof);
    }
}

/// The entries that one element touches lie within three places of the
/// diagonal of the global matrices.
pub proof fn lemma_band(element: nat, row: nat, col: nat)
    requires
        row < DOFS_PER_ELEMENT,
        col < DOFS_PER_ELEMENT,
    ensures
        global_dof(element, row) - global_dof(element, col) <= 3,
        global_dof(element, col) - global_dof(element, row) <= 3,
{
}

} // verus!
