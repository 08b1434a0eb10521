use msdf_core::cubic_crossings;
use msdf_core::quadratic_crossings;
use msdf_core::CrossingCandidate;

fn cand(x: i64, in_range: bool, derivative_sign: i32) -> CrossingCandidate {
    CrossingCandidate { x, in_range, derivative_sign }
}

#[test]
fn rising_quadratic_crosses_once_upward() {
    let ys = vec![0, 50, 100];
    let roots = vec![cand(7, true, 1)];
    let out = quadratic_crossings(&ys, 0, 20, 40, &roots, false);
    assert_eq!(out.len(), 1);
    assert_eq!(out[0].x, 7);
    assert_eq!(out[0].direction, 1);
}

#[test]
fn start_exactly_on_line_counts_once() {
    // The curve starts on the line and rises away: the start itself is
    // the crossing; the root the solver also finds at the start must
    // not be double-counted.
    let ys = vec![40, 50, 100];
    let roots = vec![cand(5, true, 1)];
    let out = quadratic_crossings(&ys, 5, 20, 40, &roots, false);
    assert_eq!(out.len(), 1);
    assert_eq!(out[0].x, 5);
    assert_eq!(out[0].direction, 1);
}

#[test]
fn tangent_touch_at_apex_is_no_crossing() {
    // The line grazes the curve's apex: one double root with zero
    // vertical motion; the parity check retracts it.
    let ys = vec![0, 100, 0];
    let roots = vec![cand(10, true, 0)];
    let out = quadratic_crossings(&ys, 0, 20, 50, &roots, false);
    assert_eq!(out.len(), 0);
}

#[test]
fn end_exactly_on_line_defers_to_the_falling_end() {
    let ys = vec![100, 50, 40];
    let roots = vec![cand(9, true, -1)];
    let out = quadratic_crossings(&ys, 0, 20, 40, &roots, false);
    assert_eq!(out.len(), 1);
    assert_eq!(out[0].x, 20);
    assert_eq!(out[0].direction, -1);
}

#[test]
fn parity_correction_restores_a_missed_crossing() {
    // The line lies strictly between the endpoints but the root finder
    // returned nothing: the consistency check emits the crossing from
    // the nearer endpoint.
    let ys = vec![0, 50, 100];
    let roots = vec![];
    let out = quadratic_crossings(&ys, 3, 20, 40, &roots, false);
    assert_eq!(out.len(), 1);
    assert_eq!(out[0].x, 3);
    assert_eq!(out[0].direction, 1);
    let out2 = quadratic_crossings(&ys, 3, 20, 40, &roots, true);
    assert_eq!(out2.len(), 1);
    assert_eq!(out2[0].x, 20);
}

#[test]
fn cubic_keeps_up_to_three_alternating_crossings() {
    // An s-shaped cubic crossing the line three times.
    let ys = vec![0, 200, -100, 100];
    let roots = vec![cand(1, true, 1), cand(2, true, -1), cand(3, true, 1)];
    let out = cubic_crossings(&ys, 0, 9, 50, &roots, false);
    assert_eq!(out.len(), 3);
    assert_eq!((out[0].x, out[0].direction), (1, 1));
    assert_eq!((out[1].x, out[1].direction), (2, -1));
    assert_eq!((out[2].x, out[2].direction), (3, 1));
}

#[test]
fn out_of_range_roots_are_ignored() {
    let ys = vec![0, 10, 20, 100];
    let roots = vec![cand(50, false, 1), cand(4, true, 1), cand(60, false, -1)];
    let out = cubic_crossings(&ys, 0, 9, 50, &roots, false);
    assert_eq!(out.len(), 1);
    assert_eq!((out[0].x, out[0].direction), (4, 1));
}
