//! Curve segments: the three edge shapes and their structural operations.

use vstd::prelude::*;

verus! {

use crate::vector2::Vector2;

/// Channel tag routing an edge to the colour channels of a
/// multi-channel field; the geometry never interprets it.
#[derive(Clone, Copy, PartialEq, Eq, Structural, Debug)]
pub enum EdgeColor {
    Black,
    Red,
    Green,
    Yellow,
    Blue,
    Magenta,
    Cyan,
    White,
}

/// A straight edge between two points.
#[derive(Clone, Copy, PartialEq, Eq, Structural, Debug)]
pub struct LinearSegment(pub Vector2, pub Vector2);

/// A quadratic Bézier edge: two endpoints around one control point.
#[derive(Clone, Copy, PartialEq, Eq, Structural, Debug)]
pub struct QuadraticSegment(pub Vector2, pub Vector2, pub Vector2);

/// A cubic Bézier edge: two endpoints around two control points.
#[derive(Clone, Copy, PartialEq, Eq, Structural, Debug)]
pub struct CubicSegment(pub Vector2, pub Vector2, pub Vector2, pub Vector2);

/// The closed set of curve shapes an edge can take.
#[derive(Clone, Copy, PartialEq, Eq, Structural, Debug)]
pub enum Segment {
    Linear(LinearSegment),
    Quadratic(QuadraticSegment),
    Cubic(CubicSegment),
}

/// One edge of a contour: a curve segment with its channel tag.
#[derive(Clone, Copy, PartialEq, Eq, Structural, Debug)]
pub struct EdgeSegment {
    pub color: EdgeColor,
    pub segment: Segment,
}

/// Where the curve starts: its point at parameter 0.
pub open spec fn segment_start(s: Segment) -> Vector2 {
    match s {
        Segment::Linear(l) => l.0,
        Segment::Quadratic(q) => q.0,
        Segment::Cubic(c) => c.0,
    }
}

/// Where the curve ends: its point at parameter 1.
pub open spec fn segment_end(s: Segment) -> Vector2 {
    match s {
        Segment::Linear(l) => l.1,
        Segment::Quadratic(q) => q.2,
        Segment::Cubic(c) => c.3,
    }
}

/// The same curve traversed the opposite way: endpoints swapped, and
/// for the cubic also the two control points.
pub open spec fn segment_reversed(s: Segment) -> Segment {
    match s {
        Segment::Linear(l) => Segment::Linear(LinearSegment(l.1, l.0)),
        Segment::Quadratic(q) => Segment::Quadratic(QuadraticSegment(q.2, q.1, q.0)),
        Segment::Cubic(c) => Segment::Cubic(CubicSegment(c.3, c.2, c.1, c.0)),
    }
}

/// Reversing is an involution on segments.
pub proof fn lemma_segment_reverse_involution(s: Segment)
    ensures
        segment_reversed(segment_reversed(s)) == s,
{
}

impl EdgeSegment {
    /// A straight edge.
    pub fn linear(color: EdgeColor, p0: Vector2, p1: Vector2) -> (r: Self)
        ensures
            r.color == color,
            r.segment == Segment::Linear(LinearSegment(p0, p1)),
    {
        Self { color, segment: Segment::Linear(LinearSegment(p0, p1)) }
    }

    /// A quadratic edge.  A control point coincident with an endpoint
    /// makes a degenerate zero-curvature curve; the scalar layer collapses
    /// such a control point to the chord midpoint before building the
    /// edge.
    pub fn quadratic(color: EdgeColor, p0: Vector2, p1: Vector2, p2: Vector2) -> (r: Self)
        ensures
            r.color == color,
            r.segment == Segment::Quadratic(QuadraticSegment(p0, p1, p2)),
    {
        Self { color, segment: Segment::Quadratic(QuadraticSegment(p0, p1, p2)) }
    }

    /// A cubic edge.  A fully degenerate control polygon (both interior
    /// points on the endpoints) is collapsed by the scalar layer to the
    /// chord's thirds before building the edge.
    pub fn cubic(color: EdgeColor, p0: Vector2, p1: Vector2, p2: Vector2, p3: Vector2) -> (r: Self)
        ensures
            r.color == color,
            r.segment == Segment::Cubic(CubicSegment(p0, p1, p2, p3)),
    {
        Self { color, segment: Segment::Cubic(CubicSegment(p0, p1, p2, p3)) }
    }

    /// The first control point: the curve's point at parameter 0.
    pub fn start_point(&self) -> (r: Vector2)
        ensures
            r == segment_start(self.segment),
    {
        match &self.segment {
            Segment::Linear(l) => l.0,
            Segment::Quadratic(q) => q.0,
            Segment::Cubic(c) => c.0,
        }
    }

    /// The last control point: the curve's point at parameter 1.
    pub fn end_point(&self) -> (r: Vector2)
        ensures
            r == segment_end(self.segment),
    {
        match &self.segment {
            Segment::Linear(l) => l.1,
            Segment::Quadratic(q) => q.2,
            Segment::Cubic(c) => c.3,
        }
    }

    /// Turns the edge around in place, so the contour can be traversed
    /// the opposite way.
    pub fn reverse(&mut self)
        ensures
            final(self).color == old(self).color,
            final(self).segment == segment_reversed(old(self).segment),
    {
        let reversed = match &self.segment {
            Segment::Linear(l) => Segment::Linear(LinearSegment(l.1, l.0)),
            Segment::Quadratic(q) => Segment::Quadratic(QuadraticSegment(q.2, q.1, q.0)),
            Segment::Cubic(c) => Segment::Cubic(CubicSegment(c.3, c.2, c.1, c.0)),
        };
        self.segment = reversed;
    }
}

} // verus!
