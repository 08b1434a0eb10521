use msdf_core::resolve_distance;
use msdf_core::SignedDistance;
use msdf_core::TrueDistanceSelector;
use msdf_core::PseudoDistanceSelector;
use msdf_core::Vector2;

#[test]
fn order_compares_magnitudes_first() {
    let a = SignedDistance::new(-3, 0);
    let b = SignedDistance::new(5, 0);
    assert!(a < b);
    assert!(!(b < a));
    let c = SignedDistance::new(-5, 0);
    // equal magnitudes, equal dot: neither is smaller
    assert!(!(b < c) && !(c < b));
}

#[test]
fn order_breaks_ties_by_dot() {
    let a = SignedDistance::new(4, 1);
    let b = SignedDistance::new(-4, 7);
    assert!(a < b);
    assert!(!(b < a));
}

#[test]
fn order_is_transitive() {
    let a = SignedDistance::new(1, 0);
    let b = SignedDistance::new(2, 0);
    let c = SignedDistance::new(-3, 0);
    assert!(a < b && b < c);
    assert!(a < c);
}

#[test]
fn true_selector_keeps_the_nearest() {
    let mut sel = TrueDistanceSelector::new(Vector2::new(0, 0));
    assert_eq!(sel.distance(), None);
    sel.add_distance(SignedDistance::new(-9, 0));
    sel.add_distance(SignedDistance::new(4, 0));
    sel.add_distance(SignedDistance::new(7, 0));
    assert_eq!(sel.distance(), Some(SignedDistance::new(4, 0)));
    sel.reset(Vector2::new(1, 1));
    assert_eq!(sel.distance(), None);
}

#[test]
fn true_selector_merge_keeps_the_smaller_winner() {
    let mut left = TrueDistanceSelector::new(Vector2::new(0, 0));
    left.add_distance(SignedDistance::new(10, 0));
    let mut right = TrueDistanceSelector::new(Vector2::new(0, 0));
    right.add_distance(SignedDistance::new(-2, 0));
    left.merge(&right);
    assert_eq!(left.distance(), Some(SignedDistance::new(-2, 0)));
}

#[test]
fn pseudo_selector_tracks_extrema_and_winner() {
    let mut sel = PseudoDistanceSelector::new(Vector2::new(0, 0));
    sel.add_edge_true_distance(0, SignedDistance::new(-6, 0), 11);
    sel.add_edge_true_distance(1, SignedDistance::new(-4, 0), 22);
    sel.add_edge_true_distance(2, SignedDistance::new(9, 0), 33);
    sel.add_edge_pseudo_distance(-5);
    sel.add_edge_pseudo_distance(-3);
    sel.add_edge_pseudo_distance(8);
    assert_eq!(sel.true_distance(), Some(SignedDistance::new(-4, 0)));
    assert_eq!(sel.near_edge(), Some((1, 22)));
    // the winner is negative, so the negative extremum is reported
    assert_eq!(sel.base_distance(), Some(-3));
}

#[test]
fn pseudo_selector_merge_combines_both_sides() {
    let mut left = PseudoDistanceSelector::new(Vector2::new(0, 0));
    left.add_edge_true_distance(0, SignedDistance::new(5, 0), 1);
    left.add_edge_pseudo_distance(6);
    let mut right = PseudoDistanceSelector::new(Vector2::new(0, 0));
    right.add_edge_true_distance(7, SignedDistance::new(3, 0), 2);
    right.add_edge_pseudo_distance(4);
    left.merge(&right);
    assert_eq!(left.true_distance(), Some(SignedDistance::new(3, 0)));
    assert_eq!(left.near_edge(), Some((7, 2)));
    assert_eq!(left.base_distance(), Some(4));
}

#[test]
fn resolve_prefers_the_smaller_magnitude() {
    assert_eq!(resolve_distance(-5, 3), 3);
    assert_eq!(resolve_distance(-5, -7), -5);
    assert_eq!(resolve_distance(2, -2), 2);
}

/// Fed identical edges whose pseudo-distances equal their true
/// distances (a convex outline with no sharp corners), the pseudo
/// selector resolves to exactly the true selector's winner.
#[test]
fn selectors_agree_without_corners() {
    let distances = [
        SignedDistance::new(-9, 0),
        SignedDistance::new(4, 0),
        SignedDistance::new(6, 0),
    ];
    let mut true_sel = TrueDistanceSelector::new(Vector2::new(0, 0));
    let mut pseudo_sel = PseudoDistanceSelector::new(Vector2::new(0, 0));
    for (i, d) in distances.iter().enumerate() {
        true_sel.add_distance(*d);
        pseudo_sel.add_edge_true_distance(i, *d, 0);
        pseudo_sel.add_edge_pseudo_distance(d.distance);
    }
    let winner = true_sel.distance().unwrap();
    assert_eq!(pseudo_sel.true_distance(), Some(winner));
    assert_eq!(pseudo_sel.base_distance(), Some(winner.distance));
}
