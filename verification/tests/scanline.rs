use msdf_core::overlap;
use msdf_core::FillRule;
use msdf_core::Intersection;
use msdf_core::Scanline;

/// Maps a finite, non-negative-zero f64 to the crate's order-preserving
/// integer encoding: the sign is kept and the magnitude bits order as
/// the magnitude.
fn key(f: f64) -> i64 {
    assert!(f.is_finite());
    let f = if f == 0.0 { 0.0 } else { f };
    let mag = (f.abs().to_bits() & 0x7FFF_FFFF_FFFF_FFFF) as i64;
    if f < 0.0 {
        -mag
    } else {
        mag
    }
}

#[test]
fn encoding_preserves_order_and_sign() {
    let samples = [-3.5, -1.0, -0.25, 0.0, 0.125, 1.0, 2.5, 1000.0];
    for i in 0..samples.len() {
        for j in 0..samples.len() {
            assert_eq!(samples[i] < samples[j], key(samples[i]) < key(samples[j]));
            assert_eq!(samples[i] == samples[j], key(samples[i]) == key(samples[j]));
        }
    }
    assert_eq!(key(0.0), 0);
    assert!(key(-1.5) < 0 && key(1.5) > 0);
}

/// A counter-clockwise unit square crossed by a horizontal line through
/// its middle: the left edge passes upward at x = 0, the right edge
/// downward at x = 1.
fn unit_square_row() -> Scanline {
    let mut line = Scanline::new();
    line.add_intersection(Intersection::new(key(1.0), -1));
    line.add_intersection(Intersection::new(key(0.0), 1));
    line.preprocess();
    line
}

#[test]
fn filled_inside_ccw_square_nonzero() {
    let mut line = unit_square_row();
    assert!(line.filled(key(0.5), FillRule::NonZero));
    assert!(!line.filled(key(-0.5), FillRule::NonZero));
    assert!(!line.filled(key(1.5), FillRule::NonZero));
}

#[test]
fn filled_is_consistent_on_the_boundary() {
    let mut line = unit_square_row();
    let first = line.filled(key(1.0), FillRule::NonZero);
    let again = line.filled(key(1.0), FillRule::NonZero);
    assert_eq!(first, again);
    let third = line.filled(key(1.0), FillRule::NonZero);
    assert_eq!(first, third);
}

#[test]
fn winding_sums_and_counts() {
    let mut line = unit_square_row();
    assert_eq!(line.sum_intersections(key(0.5)), 1);
    assert_eq!(line.sum_intersections(key(2.0)), 0);
    assert_eq!(line.sum_intersections(key(-1.0)), 0);
    assert_eq!(line.count_intersections(key(0.5)), 1);
    assert_eq!(line.count_intersections(key(2.0)), 2);
    assert_eq!(line.count_intersections(key(-1.0)), 0);
    assert_eq!(line.move_to(key(0.5)), Some(0));
    assert_eq!(line.move_to(key(-1.0)), None);
    assert_eq!(line.move_to(key(2.0)), Some(1));
}

#[test]
fn nested_windings() {
    // Two nested counter-clockwise squares: winding 2 between the inner
    // edges, 1 in the ring, 0 outside.
    let mut line = Scanline::new();
    line.add_intersection(Intersection::new(key(0.0), 1));
    line.add_intersection(Intersection::new(key(4.0), -1));
    line.add_intersection(Intersection::new(key(1.0), 1));
    line.add_intersection(Intersection::new(key(3.0), -1));
    line.preprocess();
    assert_eq!(line.sum_intersections(key(2.0)), 2);
    assert_eq!(line.sum_intersections(key(0.5)), 1);
    assert_eq!(line.sum_intersections(key(3.5)), 1);
    assert_eq!(line.sum_intersections(key(5.0)), 0);
    assert!(line.filled(key(2.0), FillRule::Positive));
    assert!(!line.filled(key(2.0), FillRule::Odd));
    assert!(line.filled(key(0.5), FillRule::Odd));
}

#[test]
fn clear_empties_the_row() {
    let mut line = unit_square_row();
    line.clear();
    line.preprocess();
    assert!(!line.filled(key(0.5), FillRule::NonZero));
    assert_eq!(line.count_intersections(key(10.0)), 0);
}

#[test]
fn overlap_reports_agreement_stretches() {
    // a fills [0, 4), b fills [2, 6).
    let mut a = Scanline::new();
    a.add_intersection(Intersection::new(key(0.0), 1));
    a.add_intersection(Intersection::new(key(4.0), -1));
    a.preprocess();
    let mut b = Scanline::new();
    b.add_intersection(Intersection::new(key(2.0), 1));
    b.add_intersection(Intersection::new(key(6.0), -1));
    b.preprocess();
    let spans = overlap(&a, &b, key(0.0), key(6.0), FillRule::NonZero);
    assert_eq!(spans.len(), 3);
    assert_eq!(spans[0].x_from, key(0.0));
    assert_eq!(spans[0].x_to, key(2.0));
    assert!(!spans[0].agree);
    assert_eq!(spans[1].x_from, key(2.0));
    assert_eq!(spans[1].x_to, key(4.0));
    assert!(spans[1].agree);
    assert_eq!(spans[2].x_from, key(4.0));
    assert_eq!(spans[2].x_to, key(6.0));
    assert!(!spans[2].agree);
}

#[test]
fn overlap_of_identical_rows_agrees_everywhere() {
    let mut a = unit_square_row();
    let mut b = unit_square_row();
    let spans = overlap(&a, &b, key(-1.0), key(2.0), FillRule::NonZero);
    assert!(spans.iter().all(|s| s.agree));
    assert_eq!(spans.first().unwrap().x_from, key(-1.0));
    assert_eq!(spans.last().unwrap().x_to, key(2.0));
    // the rows are untouched by overlap
    assert!(a.filled(key(0.5), FillRule::NonZero));
    assert!(b.filled(key(0.5), FillRule::NonZero));
}

#[test]
fn preprocess_handles_unsorted_input_and_ties() {
    let mut line = Scanline::new();
    line.add_intersection(Intersection::new(key(3.0), -1));
    line.add_intersection(Intersection::new(key(1.0), 1));
    line.add_intersection(Intersection::new(key(1.0), 1));
    line.add_intersection(Intersection::new(key(3.0), -1));
    line.preprocess();
    assert_eq!(line.sum_intersections(key(2.0)), 2);
    assert_eq!(line.sum_intersections(key(1.0)), 2);
    assert_eq!(line.sum_intersections(key(3.0)), 0);
    assert_eq!(line.sum_intersections(key(0.5)), 0);
    assert_eq!(line.count_intersections(key(2.0)), 2);
    assert_eq!(line.count_intersections(key(5.0)), 4);
}

#[test]
fn overlap_of_an_empty_range_has_no_spans() {
    let a = unit_square_row();
    let b = unit_square_row();
    let spans = overlap(&a, &b, key(0.5), key(0.5), FillRule::NonZero);
    assert!(spans.is_empty());
}
