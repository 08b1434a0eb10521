//! Discrete core of a signed-distance-field generator.
//!
//! Vector outlines are sequences of line / quadratic / cubic Bézier edges.
//! Turning them into distance fields takes two kinds of work: scalar
//! geometry (point evaluation, root finding, perpendicular distances) and
//! the discrete decisions built on top of it (which crossing wins, what the
//! winding number says, which edge owns a corner, how a contour is oriented
//! and reversed).  This crate verifies the second kind.
//!
//! Scalar values enter the crate in an order-preserving integer encoding:
//! a scalar is represented by an `i64` whose sign equals the scalar's sign,
//! whose absolute value is ordered as the scalar's magnitude, and where zero
//! is encoded as `0`.  Every contract here relies only on the order, the
//! sign and the magnitude order of the encoded values, so it holds for any
//! such encoding; the caller performs the scalar arithmetic and the
//! encoding.

mod arithmetics;
mod contour;
mod crossings;
mod edge_holder;
mod edge_segment;
mod edge_selector_pseudo_distance;
mod edge_selector_true_distance;
mod orient;
mod scanline;
mod shape;
mod signed_distance;
mod vector2;

pub use arithmetics::clamp_0_b;
pub use arithmetics::clamp_a_b;
pub use arithmetics::is_median;
pub use arithmetics::max;
pub use arithmetics::median;
pub use arithmetics::min;
pub use arithmetics::non_zero_sign;
pub use arithmetics::sign;

pub use vector2::Vector2;

pub use signed_distance::lemma_sd_order_asymmetric;
pub use signed_distance::lemma_sd_order_incomparable_transitive;
pub use signed_distance::lemma_sd_order_irreflexive;
pub use signed_distance::lemma_sd_order_ties_use_dot;
pub use signed_distance::lemma_sd_order_transitive;
pub use signed_distance::sd_cmp;
pub use signed_distance::sd_lt;
pub use signed_distance::SignedDistance;

pub use edge_segment::lemma_segment_reverse_involution;
pub use edge_segment::segment_end;
pub use edge_segment::segment_reversed;
pub use edge_segment::segment_start;
pub use edge_segment::CubicSegment;
pub use edge_segment::EdgeColor;
pub use edge_segment::EdgeSegment;
pub use edge_segment::LinearSegment;
pub use edge_segment::QuadraticSegment;
pub use edge_segment::Segment;

pub use edge_holder::holder_reversed;
pub use edge_holder::EdgeHolder;

pub use contour::contour_reversed;
pub use contour::lemma_contour_reverse_involution;
pub use contour::Contour;

pub use shape::contour_closed;
pub use shape::holder_end;
pub use shape::holder_start;
pub use shape::prev_edge_index;
pub use shape::shape_valid;
pub use shape::total_edges;
pub use shape::Shape;

pub use crossings::crossings_spec;
pub use crossings::cubic_crossings;
pub use crossings::falls_to_end;
pub use crossings::quadratic_crossings;
pub use crossings::rises_from_start;
pub use crossings::run_candidates;
pub use crossings::candidate_step;
pub use crossings::end_tie;
pub use crossings::final_fix;
pub use crossings::start_state;
pub use crossings::CrossingCandidate;

pub use scanline::count_at;
pub use scanline::fill_rule_spec;
pub use scanline::filled_at;
pub use scanline::interpret_fill_rule;
pub use scanline::lemma_filled_repeatable;
pub use scanline::overlap;
pub use scanline::sorted_by_x;
pub use scanline::spans_agree;
pub use scanline::spans_tile;
pub use scanline::value_present;
pub use scanline::winding_at;
pub use scanline::x_present;
pub use scanline::AgreementSpan;
pub use scanline::FillRule;
pub use scanline::Intersection;
pub use scanline::Scanline;

pub use orient::coincident_zeroed;
pub use orient::contour_vote;
pub use orient::occ;
pub use orient::orientation_votes;
pub use orient::same_crossings;
pub use orient::sorted_ori;
pub use orient::vote_value;
pub use orient::OrientIntersection;

pub use edge_selector_true_distance::lemma_sd_min_append;
pub use edge_selector_true_distance::lemma_sd_min_is_best;
pub use edge_selector_true_distance::sd_min_of;
pub use edge_selector_true_distance::sd_min_step;
pub use edge_selector_true_distance::TrueDistanceSelector;

pub use edge_selector_pseudo_distance::distance_values;
pub use edge_selector_pseudo_distance::lemma_pseudo_matches_true;
pub use edge_selector_pseudo_distance::pseudo_neg_merge;
pub use edge_selector_pseudo_distance::pseudo_neg_of;
pub use edge_selector_pseudo_distance::pseudo_neg_step;
pub use edge_selector_pseudo_distance::pseudo_pos_merge;
pub use edge_selector_pseudo_distance::pseudo_pos_of;
pub use edge_selector_pseudo_distance::pseudo_pos_step;
pub use edge_selector_pseudo_distance::resolve_distance;
pub use edge_selector_pseudo_distance::PseudoDistanceSelector;
