use wasm_physics::binary64::Binary64;
use wasm_physics::mesh::{admissible, Mesh, DOFS_PER_ELEMENT, DOFS_PER_NODE};

fn b(x: f64) -> Binary64 {
    Binary64 { bits: x.to_bits() }
}

#[test]
fn a_bar_of_n_elements_has_two_unknowns_per_node() {
    assert_eq!(Mesh::new(100).unwrap().num_dofs(), 202);
    assert_eq!(Mesh::new(1).unwrap().num_dofs(), 4);
    assert_eq!(Mesh::new(0).unwrap().num_dofs(), 2);
    assert_eq!(Mesh::new(100).unwrap().num_elements(), 100);
    assert_eq!(DOFS_PER_NODE, 2);
    assert_eq!(DOFS_PER_ELEMENT, 4);
}

#[test]
fn a_mesh_too_large_to_number_is_refused() {
    assert!(Mesh::new(usize::MAX).is_none());
    assert!(Mesh::new(usize::MAX / 2).is_none());
    let largest = usize::MAX / 2 - 1;
    assert_eq!(Mesh::new(largest).unwrap().num_dofs(), usize::MAX - 1);
}

#[test]
fn an_element_couples_the_unknowns_of_its_two_nodes() {
    let mesh = Mesh::new(100).unwrap();
    assert_eq!(mesh.element_dofs(0), [0, 1, 2, 3]);
    assert_eq!(mesh.element_dofs(1), [2, 3, 4, 5]);
    assert_eq!(mesh.element_dofs(57), [114, 115, 116, 117]);
    assert_eq!(mesh.element_dofs(99), [198, 199, 200, 201]);
}

#[test]
fn neighbours_share_a_node_and_every_unknown_is_reached() {
    let mesh = Mesh::new(12).unwrap();
    let mut owners = vec![0usize; mesh.num_dofs()];
    for e in 0..mesh.num_elements() {
        let dofs = mesh.element_dofs(e);
        for d in dofs {
            owners[d] += 1;
        }
        if e + 1 < mesh.num_elements() {
            let next = mesh.element_dofs(e + 1);
            assert_eq!(dofs[2], next[0]);
            assert_eq!(dofs[3], next[1]);
        }
    }
    let n = owners.len();
    assert_eq!(&owners[..2], &[1, 1]);
    assert_eq!(&owners[n - 2..], &[1, 1]);
    assert!(owners[2..n - 2].iter().all(|c| *c == 2));
}

#[test]
fn an_element_needs_positive_quantities() {
    let ok = [0.0052, 12.0e9, 6.5e-8, 4.4e9, 0.00125];
    assert!(admissible(b(ok[0]), b(ok[1]), b(ok[2]), b(ok[3]), b(ok[4])));
    for bad in [0.0, -1.0, f64::NAN, -0.0, f64::NEG_INFINITY] {
        for at in 0..5 {
            let mut q = ok;
            q[at] = bad;
            assert!(!admissible(b(q[0]), b(q[1]), b(q[2]), b(q[3]), b(q[4])), "{bad} at {at}");
        }
    }
}
