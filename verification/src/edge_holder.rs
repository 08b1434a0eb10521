//! Single-owner box around one optional edge.

use vstd::prelude::*;

verus! {

use crate::edge_segment::segment_reversed;
use crate::edge_segment::EdgeSegment;

/// Exclusive owner of one optional edge: a contour slot that may still
/// be unset, and whose contents can be replaced or swapped in place.
#[derive(Clone, Copy, PartialEq, Eq, Structural, Debug)]
pub struct EdgeHolder {
    pub segment: Option<EdgeSegment>,
}

/// The held edge traversed the opposite way; an unset slot stays unset.
pub open spec fn holder_reversed(h: EdgeHolder) -> EdgeHolder {
    match h.segment {
        Option::None => h,
        Option::Some(e) => EdgeHolder {
            segment: Option::Some(
                EdgeSegment { color: e.color, segment: segment_reversed(e.segment) },
            ),
        },
    }
}

impl EdgeHolder {
    /// A holder around a set edge.
    pub fn new(segment: EdgeSegment) -> (r: Self)
        ensures
            r.segment == Option::Some(segment),
    {
        Self { segment: Option::Some(segment) }
    }

    /// An unset holder.
    pub fn unset() -> (r: Self)
        ensures
            r.segment == Option::<EdgeSegment>::None,
    {
        Self { segment: Option::None }
    }

    /// A borrow of the held edge, if any.
    pub fn segment(&self) -> (r: Option<&EdgeSegment>)
        ensures
            match r {
                Option::Some(e) => self.segment == Option::Some(*e),
                Option::None => self.segment is None,
            },
    {
        self.segment.as_ref()
    }

    /// Replaces the held edge.
    pub fn set_segment(&mut self, segment: EdgeSegment)
        ensures
            final(self).segment == Option::Some(segment),
    {
        self.segment = Option::Some(segment);
    }

    /// Exchanges the contents of two holders.
    pub fn swap(&mut self, other: &mut EdgeHolder)
        ensures
            final(self).segment == old(other).segment,
            final(other).segment == old(self).segment,
    {
        core::mem::swap(&mut self.segment, &mut other.segment);
    }

    /// Turns the held edge around in place.
    pub fn reverse(&mut self)
        ensures
            *final(self) == holder_reversed(*old(self)),
    {
        match &mut self.segment {
            Option::Some(e) => e.reverse(),
            Option::None => {},
        }
    }
}

impl Default for EdgeHolder {
    /// The default holder is unset.
    fn default() -> (r: Self)
        ensures
            r.segment == Option::<EdgeSegment>::None,
    {
        Self { segment: Option::None }
    }
}

} // verus!
