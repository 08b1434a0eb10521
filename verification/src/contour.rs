//! One closed loop of edges.

use vstd::prelude::*;

verus! {

use crate::edge_holder::holder_reversed;
use crate::edge_holder::EdgeHolder;
use vstd::pervasive::VecAdditionalExecFns;

/// The edge order reversed and every edge turned around: the same loop
/// traversed the opposite way.
pub open spec fn contour_reversed(s: Seq<EdgeHolder>) -> Seq<EdgeHolder> {
    Seq::new(s.len(), |i: int| holder_reversed(s[s.len() - 1 - i]))
}

/// Reversing a contour twice restores it: the edge order and every
/// edge's control points come back.
pub proof fn lemma_contour_reverse_involution(s: Seq<EdgeHolder>)
    ensures
        contour_reversed(contour_reversed(s)) == s,
{
    assert forall|i: int| 0 <= i < s.len() implies contour_reversed(contour_reversed(s))[i]
        == s[i] by {
        assert(contour_reversed(s)[s.len() - 1 - i] == holder_reversed(s[i]));
    }
    assert(contour_reversed(contour_reversed(s)) =~= s);
}

/// An ordered, owned sequence of edges forming one closed loop.
pub struct Contour {
    pub edges: Vec<EdgeHolder>,
}

impl Contour {
    /// A contour with no edges yet.
    pub fn new() -> (r: Self)
        ensures
            r.edges@ == Seq::<EdgeHolder>::empty(),
    {
        Contour { edges: Vec::new() }
    }

    /// Whether the contour has no edges.
    pub fn empty(&self) -> (r: bool)
        ensures
            r == (self.edges@.len() == 0),
    {
        self.edges.is_empty()
    }

    /// Drops every edge.
    pub fn clear(&mut self)
        ensures
            final(self).edges@ == Seq::<EdgeHolder>::empty(),
    {
        self.edges.clear();
    }

    /// Appends one edge to the loop.
    pub fn add_edge(&mut self, edge: EdgeHolder)
        ensures
            final(self).edges@ == old(self).edges@.push(edge),
    {
        self.edges.push(edge);
    }

    /// Appends an unset edge slot, to be filled in place.
    pub fn add_empty_edge(&mut self)
        ensures
            final(self).edges@ == old(self).edges@.push(EdgeHolder { segment: Option::None }),
    {
        self.edges.push(EdgeHolder::unset());
    }

    /// Reverses the contour in place: the edge order flips and every
    /// edge is turned around, so the same loop is traversed the opposite
    /// way.
    pub fn reverse(&mut self)
        ensures
            final(self).edges@ == contour_reversed(old(self).edges@),
    {
        let ghost orig = self.edges@;
        let len = self.edges.len();
        let mut i: usize = len / 2;
        while i > 0
            invariant
                len == self.edges.len(),
                len == orig.len(),
                i <= len / 2,
                forall|a: int| 0 <= a < i ==> self.edges@[a] == orig[a],
                forall|a: int| len - i <= a < len ==> self.edges@[a] == orig[a],
                forall|a: int| i <= a < len - i ==> self.edges@[a] == orig[len - 1 - a],
            decreases i,
        {
            let a = self.edges[i - 1];
            let b = self.edges[len - i];
            self.edges.set(i - 1, b);
            self.edges.set(len - i, a);
            i -= 1;
        }
        let ghost mid = self.edges@;
        let mut k: usize = 0;
        while k < len
            invariant
                len == self.edges.len(),
                len == mid.len(),
                k <= len,
                forall|a: int| 0 <= a < k ==> self.edges@[a] == holder_reversed(mid[a]),
                forall|a: int| k <= a < len ==> self.edges@[a] == mid[a],
            decreases len - k,
        {
            let mut e = self.edges[k];
            e.reverse();
            self.edges.set(k, e);
            k += 1;
        }
        proof {
            assert forall|a: int| 0 <= a < len implies self.edges@[a] == holder_reversed(
                orig[len - 1 - a],
            ) by {
                assert(self.edges@[a] == holder_reversed(mid[a]));
            }
            assert(self.edges@ =~= contour_reversed(orig));
        }
    }
}

} // verus!
