use msdf_core::clamp_0_b;
use msdf_core::clamp_a_b;
use msdf_core::interpret_fill_rule;
use msdf_core::max;
use msdf_core::median;
use msdf_core::min;
use msdf_core::non_zero_sign;
use msdf_core::sign;
use msdf_core::FillRule;

#[test]
fn min_max_pick_the_right_value() {
    assert_eq!(min(3, 7), 3);
    assert_eq!(min(7, 3), 3);
    assert_eq!(min(-2, -2), -2);
    assert_eq!(max(3, 7), 7);
    assert_eq!(max(7, 3), 7);
    assert_eq!(max(-2, -2), -2);
}

#[test]
fn median_is_the_middle_value() {
    assert_eq!(median(1, 2, 3), 2);
    assert_eq!(median(3, 1, 2), 2);
    assert_eq!(median(2, 3, 1), 2);
    assert_eq!(median(5, 5, 1), 5);
    assert_eq!(median(-4, 9, 0), 0);
}

#[test]
fn clamps() {
    assert_eq!(clamp_a_b(5, 0, 10), 5);
    assert_eq!(clamp_a_b(-5, 0, 10), 0);
    assert_eq!(clamp_a_b(15, 0, 10), 10);
    assert_eq!(clamp_0_b(-1, 8), 0);
    assert_eq!(clamp_0_b(9, 8), 8);
    assert_eq!(clamp_0_b(4, 8), 4);
}

#[test]
fn signs() {
    assert_eq!(sign(42), 1);
    assert_eq!(sign(-42), -1);
    assert_eq!(sign(0), 0);
    assert_eq!(non_zero_sign(42), 1);
    assert_eq!(non_zero_sign(0), 1);
    assert_eq!(non_zero_sign(-42), -1);
}

#[test]
fn fill_rules_read_winding_totals() {
    assert!(interpret_fill_rule(1, FillRule::NonZero));
    assert!(interpret_fill_rule(-2, FillRule::NonZero));
    assert!(!interpret_fill_rule(0, FillRule::NonZero));
    assert!(interpret_fill_rule(1, FillRule::Odd));
    assert!(interpret_fill_rule(-3, FillRule::Odd));
    assert!(!interpret_fill_rule(2, FillRule::Odd));
    assert!(!interpret_fill_rule(0, FillRule::Odd));
    assert!(interpret_fill_rule(2, FillRule::Positive));
    assert!(!interpret_fill_rule(-2, FillRule::Positive));
    assert!(!interpret_fill_rule(0, FillRule::Positive));
    assert!(interpret_fill_rule(-1, FillRule::Negative));
    assert!(!interpret_fill_rule(1, FillRule::Negative));
    assert!(!interpret_fill_rule(0, FillRule::Negative));
}
