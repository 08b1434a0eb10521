use msdf_core::orientation_votes;
use msdf_core::Contour;
use msdf_core::EdgeColor;
use msdf_core::EdgeHolder;
use msdf_core::EdgeSegment;
use msdf_core::OrientIntersection;
use msdf_core::Shape;
use msdf_core::Vector2;

fn square_contour() -> Contour {
    // Counter-clockwise unit square on integer-encoded corners.
    let p00 = Vector2::new(0, 0);
    let p10 = Vector2::new(10, 0);
    let p11 = Vector2::new(10, 10);
    let p01 = Vector2::new(0, 10);
    let mut c = Contour::new();
    c.add_edge(EdgeHolder::new(EdgeSegment::linear(EdgeColor::White, p00, p10)));
    c.add_edge(EdgeHolder::new(EdgeSegment::linear(EdgeColor::White, p10, p11)));
    c.add_edge(EdgeHolder::new(EdgeSegment::linear(EdgeColor::White, p11, p01)));
    c.add_edge(EdgeHolder::new(EdgeSegment::linear(EdgeColor::White, p01, p00)));
    c
}

#[test]
fn reverse_is_an_involution() {
    let mut c = Contour::new();
    c.add_edge(EdgeHolder::new(EdgeSegment::linear(
        EdgeColor::Red,
        Vector2::new(0, 0),
        Vector2::new(4, 0),
    )));
    c.add_edge(EdgeHolder::new(EdgeSegment::quadratic(
        EdgeColor::Green,
        Vector2::new(4, 0),
        Vector2::new(5, 3),
        Vector2::new(4, 6),
    )));
    c.add_edge(EdgeHolder::new(EdgeSegment::cubic(
        EdgeColor::Blue,
        Vector2::new(4, 6),
        Vector2::new(2, 7),
        Vector2::new(1, 5),
        Vector2::new(0, 0),
    )));
    let before: Vec<EdgeHolder> = c.edges.clone();
    c.reverse();
    assert_ne!(c.edges, before);
    c.reverse();
    assert_eq!(c.edges, before);
}

#[test]
fn reverse_flips_order_and_endpoints() {
    let mut c = Contour::new();
    c.add_edge(EdgeHolder::new(EdgeSegment::linear(
        EdgeColor::Red,
        Vector2::new(0, 0),
        Vector2::new(1, 0),
    )));
    c.add_edge(EdgeHolder::new(EdgeSegment::linear(
        EdgeColor::Green,
        Vector2::new(1, 0),
        Vector2::new(1, 1),
    )));
    c.reverse();
    // last edge first, endpoints swapped
    let first = c.edges[0].segment.unwrap();
    assert_eq!(first.color, EdgeColor::Green);
    assert_eq!(first.start_point(), Vector2::new(1, 1));
    assert_eq!(first.end_point(), Vector2::new(1, 0));
    let second = c.edges[1].segment.unwrap();
    assert_eq!(second.color, EdgeColor::Red);
    assert_eq!(second.start_point(), Vector2::new(1, 0));
    assert_eq!(second.end_point(), Vector2::new(0, 0));
}

#[test]
fn validate_accepts_closed_loops() {
    let mut shape = Shape::new();
    shape.add_contour(square_contour());
    assert!(shape.validate());
    assert_eq!(shape.edge_count(), 4);
}

#[test]
fn validate_rejects_open_loops_and_unset_edges() {
    let mut shape = Shape::new();
    let mut c = Contour::new();
    c.add_edge(EdgeHolder::new(EdgeSegment::linear(
        EdgeColor::White,
        Vector2::new(0, 0),
        Vector2::new(1, 0),
    )));
    c.add_edge(EdgeHolder::new(EdgeSegment::linear(
        EdgeColor::White,
        Vector2::new(2, 0),
        Vector2::new(0, 0),
    )));
    shape.add_contour(c);
    assert!(!shape.validate());

    let mut shape2 = Shape::new();
    let mut c2 = Contour::new();
    c2.add_empty_edge();
    shape2.add_contour(c2);
    assert!(!shape2.validate());

    let empty_shape = Shape::new();
    assert!(empty_shape.validate());
}

#[test]
fn holder_swap_exchanges_contents() {
    let mut a = EdgeHolder::new(EdgeSegment::linear(
        EdgeColor::Red,
        Vector2::new(0, 0),
        Vector2::new(1, 0),
    ));
    let mut b = EdgeHolder::unset();
    a.swap(&mut b);
    assert!(a.segment().is_none());
    assert!(b.segment().is_some());
}

#[test]
fn votes_keep_consensus_and_flag_opposed_contours() {
    // Contour 0 winds with the consensus; contour 1, beside it, winds
    // the opposite way.
    let crossings = vec![
        OrientIntersection { x: 0, direction: 1, contour_index: 0 },
        OrientIntersection { x: 40, direction: -1, contour_index: 0 },
        OrientIntersection { x: 50, direction: -1, contour_index: 1 },
        OrientIntersection { x: 90, direction: 1, contour_index: 1 },
    ];
    let votes = orientation_votes(&crossings, 2);
    assert_eq!(votes.len(), 2);
    assert!(votes[0] > 0);
    assert!(votes[1] < 0);
}

#[test]
fn coincident_crossings_cast_no_vote() {
    let crossings = vec![
        OrientIntersection { x: 5, direction: 1, contour_index: 0 },
        OrientIntersection { x: 5, direction: -1, contour_index: 0 },
    ];
    let votes = orientation_votes(&crossings, 1);
    assert_eq!(votes, vec![0]);
}

#[test]
fn apply_orientations_reverses_negative_votes() {
    let mut shape = Shape::new();
    shape.add_contour(square_contour());
    shape.add_contour(square_contour());
    let before = shape.contours[0].edges.clone();
    let votes = vec![3i64, -1i64];
    shape.apply_orientations(&votes);
    assert_eq!(shape.contours[0].edges, before);
    assert_ne!(shape.contours[1].edges, before);
    // reversing the flagged contour again restores it
    shape.contours[1].reverse();
    assert_eq!(shape.contours[1].edges, before);
}
