use wasm_physics::binary64::Binary64;
use wasm_physics::fault::Fault;
use wasm_physics::profile::{
    application_order, check_heights, decode_heights, height_along, pair_genes, Cut,
};

fn b(x: f64) -> Binary64 {
    Binary64 { bits: x.to_bits() }
}

fn bs(xs: &[f64]) -> Vec<Binary64> {
    xs.iter().map(|x| b(*x)).collect()
}

fn numbers(xs: &[Binary64]) -> Vec<f64> {
    xs.iter().map(|x| f64::from_bits(x.bits)).collect()
}

fn cut(extent: f64, height: f64) -> Cut {
    Cut { extent: b(extent), height: b(height) }
}

fn offsets(bar_length: f64, num_elements: usize) -> Vec<f64> {
    let le = bar_length / num_elements as f64;
    let center = bar_length / 2.0;
    (0..num_elements).map(|e| (e as f64 + 0.5) * le - center).collect()
}

fn decode(genes: &[f64], offsets: &[f64], h0: f64) -> Vec<f64> {
    numbers(&decode_heights(&bs(genes), &bs(offsets), b(h0)))
}

#[test]
fn genes_are_paired_in_order() {
    let cuts = pair_genes(&bs(&[0.1, 0.02, 0.05, 0.015]));
    assert_eq!(cuts, vec![cut(0.1, 0.02), cut(0.05, 0.015)]);
}

#[test]
fn a_trailing_gene_is_dropped() {
    let cuts = pair_genes(&bs(&[0.1, 0.02, 0.05]));
    assert_eq!(cuts, vec![cut(0.1, 0.02)]);
    assert!(pair_genes(&bs(&[0.3])).is_empty());
    assert!(pair_genes(&[]).is_empty());
}

#[test]
fn wider_cuts_are_applied_first() {
    let cuts = vec![cut(0.05, 1.0), cut(0.2, 2.0), cut(0.1, 3.0), cut(0.15, 4.0)];
    assert_eq!(application_order(&cuts), vec![1, 3, 2, 0]);
}

#[test]
fn cuts_of_equal_extent_keep_their_order() {
    let cuts = vec![cut(0.1, 1.0), cut(0.2, 2.0), cut(0.1, 3.0), cut(0.2, 4.0), cut(0.1, 5.0)];
    assert_eq!(application_order(&cuts), vec![1, 3, 0, 2, 4]);
}

#[test]
fn application_order_of_no_cuts_is_empty() {
    assert!(application_order(&[]).is_empty());
}

#[test]
fn application_order_matches_a_stable_sort() {
    let extents = [0.3, -1.0, 0.0, 0.3, 7.5, -0.0, 0.05, 7.5, 0.3, 1.0e-9, f64::INFINITY];
    let cuts: Vec<Cut> = extents.iter().map(|x| cut(*x, 1.0)).collect();
    let mut expected: Vec<usize> = (0..extents.len()).collect();
    expected.sort_by(|i, j| extents[*j].partial_cmp(&extents[*i]).unwrap());
    assert_eq!(application_order(&cuts), expected);
}

#[test]
fn two_overlapping_cuts_make_three_zones() {
    let h0 = 0.025;
    let h1 = 0.02;
    let h2 = 0.012;
    let x = offsets(0.52, 100);
    let d: Vec<f64> = x.iter().map(|x| x.abs()).collect();
    for genes in [[0.1, h1, 0.05, h2], [0.05, h2, 0.1, h1]] {
        let heights = decode(&genes, &x, h0);
        assert_eq!(heights.len(), 100);
        assert_eq!(heights, decode(&genes, &d, h0));
        let mut seen = [0usize; 3];
        for e in 0..100 {
            if d[e] <= 0.05 {
                assert_eq!(heights[e], h2, "element {e}");
                seen[0] += 1;
            } else if d[e] <= 0.1 {
                assert_eq!(heights[e], h1, "element {e}");
                seen[1] += 1;
            } else {
                assert_eq!(heights[e], h0, "element {e}");
                seen[2] += 1;
            }
        }
        assert!(seen[0] > 0 && seen[1] > 0 && seen[2] > 0);
    }
}

#[test]
fn the_boundary_of_a_cut_belongs_to_it() {
    let heights = decode(&[0.1, 2.0, 0.05, 3.0], &[0.05, 0.1, 0.10000000000000002, 0.0], 1.0);
    assert_eq!(heights, vec![3.0, 2.0, 1.0, 3.0]);
}

#[test]
fn no_genes_give_the_uncut_bar() {
    let x = offsets(0.35, 40);
    let heights = decode(&[], &x, 0.01);
    assert_eq!(heights, vec![0.01; 40]);
}

#[test]
fn no_elements_give_no_heights() {
    assert!(decode(&[0.1, 0.02], &[], 0.01).is_empty());
}

#[test]
fn cuts_without_positive_extent_are_ignored() {
    let genes = [0.0, 5.0, -0.0, 6.0, -0.3, 7.0, f64::NAN, 8.0, f64::NEG_INFINITY, 9.0];
    let heights = decode(&genes, &[0.0, 0.1, 0.3], 1.0);
    assert_eq!(heights, vec![1.0, 1.0, 1.0]);
}

#[test]
fn an_unbounded_cut_reaches_everywhere() {
    let genes = [f64::INFINITY, 0.5, 0.1, 0.25];
    let heights = decode(&genes, &[0.0, 0.1, 0.2, 1.0e300, f64::INFINITY], 1.0);
    assert_eq!(heights, vec![0.25, 0.25, 0.5, 0.5, 0.5]);
}

#[test]
fn a_distance_that_is_no_number_is_reached_by_no_cut() {
    let heights = decode(&[0.1, 0.5], &[f64::NAN], 1.0);
    assert_eq!(heights, vec![1.0]);
}

#[test]
fn of_cuts_of_equal_extent_the_last_decides() {
    let heights = decode(&[0.1, 2.0, 0.1, 3.0, 0.2, 4.0, 0.1, 5.0], &[0.05, 0.15, 0.25], 1.0);
    assert_eq!(heights, vec![5.0, 4.0, 1.0]);
}

#[test]
fn the_order_of_nested_cuts_does_not_matter() {
    let x = offsets(1.0, 64);
    let a = decode(&[0.4, 0.9, 0.3, 0.8, 0.2, 0.7, 0.1, 0.6], &x, 1.0);
    let c = decode(&[0.1, 0.6, 0.3, 0.8, 0.4, 0.9, 0.2, 0.7], &x, 1.0);
    assert_eq!(a, c);
    assert_eq!(a[32], 0.6);
    assert_eq!(a[0], 1.0);
}

#[test]
fn the_profile_is_symmetric_about_the_centre() {
    let x = offsets(0.52, 101);
    let heights = decode(&[0.2, 0.02, 0.11, 0.017, 0.04, 0.012], &x, 0.025);
    for e in 0..101 {
        assert_eq!(heights[e], heights[100 - e], "element {e}");
    }
    assert_eq!(heights[50], 0.012);
    assert_eq!(heights[0], 0.025);
    let mirrored = decode(&[0.1, 2.0], &[-0.1, 0.1, -0.05, 0.05, -0.2, 0.2, -0.0, 0.0], 1.0);
    assert_eq!(mirrored, vec![2.0, 2.0, 2.0, 2.0, 1.0, 1.0, 2.0, 2.0]);
}

#[test]
fn height_along_applies_the_cuts_in_order() {
    let cuts = vec![cut(0.05, 3.0), cut(0.1, 2.0)];
    let order = application_order(&cuts);
    assert_eq!(height_along(&cuts, &order, b(0.01), b(1.0)), b(3.0));
    assert_eq!(height_along(&cuts, &order, b(0.07), b(1.0)), b(2.0));
    assert_eq!(height_along(&cuts, &order, b(0.2), b(1.0)), b(1.0));
}

#[test]
fn covering_needs_a_positive_extent_and_a_distance_within() {
    assert!(cut(0.1, 1.0).covers(b(0.1)));
    assert!(cut(0.1, 1.0).covers(b(0.0)));
    assert!(cut(0.1, 1.0).covers(b(-0.3)));
    assert!(!cut(0.1, 1.0).covers(b(0.11)));
    assert!(!cut(0.0, 1.0).covers(b(0.0)));
    assert!(!cut(-0.1, 1.0).covers(b(-0.2)));
    assert!(!cut(f64::NAN, 1.0).covers(b(0.0)));
}

#[test]
fn positive_heights_pass() {
    assert_eq!(check_heights(&bs(&[0.025, 0.01, 5.0e-324, f64::INFINITY])), Ok(()));
    assert_eq!(check_heights(&[]), Ok(()));
}

#[test]
fn the_first_height_that_is_not_positive_is_reported() {
    assert_eq!(
        check_heights(&bs(&[0.025, 0.0, -1.0])),
        Err(Fault::InvalidGeometry { element: 1 })
    );
    assert_eq!(
        check_heights(&bs(&[0.025, 0.01, -0.01])),
        Err(Fault::InvalidGeometry { element: 2 })
    );
    assert_eq!(check_heights(&bs(&[f64::NAN])), Err(Fault::InvalidGeometry { element: 0 }));
    assert_eq!(check_heights(&bs(&[1.0, -0.0])), Err(Fault::InvalidGeometry { element: 1 }));
}

#[test]
fn a_cut_to_a_height_that_is_not_positive_is_caught() {
    let heights = decode_heights(&bs(&[0.1, -0.005]), &bs(&[0.3, 0.05, 0.3]), b(0.025));
    assert_eq!(check_heights(&heights), Err(Fault::InvalidGeometry { element: 1 }));
}
