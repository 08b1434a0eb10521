//! An ordered collection of contours.

use vstd::prelude::*;

verus! {

use crate::contour::contour_reversed;
use crate::contour::Contour;
use crate::edge_holder::EdgeHolder;
use crate::edge_segment::segment_end;
use crate::edge_segment::segment_start;
use crate::vector2::Vector2;

/// The index of the edge before `i` on a closed loop of `len` edges.
pub open spec fn prev_edge_index(i: int, len: int) -> int {
    if i == 0 {
        len - 1
    } else {
        i - 1
    }
}

/// Where a held edge starts; an unset slot has no start and is never
/// asked for one under `contour_closed`.
pub open spec fn holder_start(h: EdgeHolder) -> Vector2 {
    match h.segment {
        Option::Some(e) => segment_start(e.segment),
        Option::None => Vector2 { x: 0, y: 0 },
    }
}

/// Where a held edge ends.
pub open spec fn holder_end(h: EdgeHolder) -> Vector2 {
    match h.segment {
        Option::Some(e) => segment_end(e.segment),
        Option::None => Vector2 { x: 0, y: 0 },
    }
}

/// A non-empty contour is closed: every slot holds an edge, and each
/// edge starts where its predecessor (cyclically) ends.
pub open spec fn contour_closed(edges: Seq<EdgeHolder>) -> bool {
    edges.len() == 0 || forall|i: int|
        0 <= i < edges.len() ==> (#[trigger] edges[i]).segment is Some && holder_start(edges[i])
            == holder_end(edges[prev_edge_index(i, edges.len() as int)])
}

/// Every contour of the shape forms a closed loop of set edges.
pub open spec fn shape_valid(contours: Seq<Contour>) -> bool {
    forall|c: int| 0 <= c < contours.len() ==> contour_closed((#[trigger] contours[c]).edges@)
}

/// The number of edges over all contours.
pub open spec fn total_edges(contours: Seq<Contour>) -> int
    decreases contours.len(),
{
    if contours.len() == 0 {
        0
    } else {
        total_edges(contours.drop_last()) + contours.last().edges@.len()
    }
}

proof fn lemma_total_edges_prefix(s: Seq<Contour>, k: int)
    requires
        0 <= k <= s.len(),
    ensures
        0 <= total_edges(s.subrange(0, k)) <= total_edges(s),
    decreases s.len() - k,
{
    lemma_total_edges_nonneg(s.subrange(0, k));
    if k == s.len() {
        assert(s.subrange(0, k) =~= s);
    } else {
        assert(s.subrange(0, k + 1).drop_last() =~= s.subrange(0, k));
        lemma_total_edges_prefix(s, k + 1);
    }
}

proof fn lemma_total_edges_nonneg(s: Seq<Contour>)
    ensures
        total_edges(s) >= 0,
    decreases s.len(),
{
    if s.len() > 0 {
        lemma_total_edges_nonneg(s.drop_last());
    }
}

fn contour_at_mut(v: &mut Vec<Contour>, i: usize) -> (r: &mut Contour)
    requires
        i < old(v)@.len(),
    ensures
        *r == old(v)@[i as int],
        final(v)@ == old(v)@.update(i as int, *final(r)),
{
    &mut v[i]
}

/// An owned collection of contours, plus the flag telling callers that
/// the y axis of the source coordinates points downward.
pub struct Shape {
    pub contours: Vec<Contour>,
    pub inverse_y_axis: bool,
}

impl Shape {
    /// A shape with no contours.
    pub fn new() -> (r: Self)
        ensures
            r.contours@ == Seq::<Contour>::empty(),
            r.inverse_y_axis == false,
    {
        Shape { contours: Vec::new(), inverse_y_axis: false }
    }

    /// Appends one contour.
    pub fn add_contour(&mut self, contour: Contour)
        ensures
            final(self).contours@ == old(self).contours@.push(contour),
            final(self).inverse_y_axis == old(self).inverse_y_axis,
    {
        self.contours.push(contour);
    }

    /// Appends an empty contour, to be built up in place.
    pub fn add_empty_contour(&mut self)
        ensures
            final(self).contours@.len() == old(self).contours@.len() + 1,
            final(self).contours@ == old(self).contours@.push(
                final(self).contours@[old(self).contours@.len() as int],
            ),
            final(self).contours@.last().edges@ == Seq::<EdgeHolder>::empty(),
            final(self).inverse_y_axis == old(self).inverse_y_axis,
    {
        self.contours.push(Contour::new());
    }

    /// Whether every non-empty contour is a closed loop of set edges:
    /// each edge starts exactly where the previous one ends, around to
    /// the first.  Nothing is repaired; a malformed shape is only
    /// reported.
    pub fn validate(&self) -> (r: bool)
        ensures
            r == shape_valid(self.contours@),
    {
        let ncon = self.contours.len();
        let mut c: usize = 0;
        while c < ncon
            invariant
                c <= ncon,
                ncon == self.contours.len(),
                forall|k: int| 0 <= k < c ==> contour_closed((#[trigger] self.contours@[k]).edges@),
            decreases ncon - c,
        {
            let ct = &self.contours[c];
            let m = ct.edges.len();
            let mut i: usize = 0;
            while i < m
                invariant
                    i <= m,
                    m == ct.edges.len(),
                    c < ncon,
                    ncon == self.contours.len(),
                    *ct == self.contours@[c as int],
                    forall|j: int|
                        0 <= j < i ==> (#[trigger] ct.edges@[j]).segment is Some && holder_start(
                            ct.edges@[j],
                        ) == holder_end(ct.edges@[prev_edge_index(j, m as int)]),
                decreases m - i,
            {
                let h = ct.edges[i];
                let p = ct.edges[if i == 0 {
                    m - 1
                } else {
                    i - 1
                }];
                let start = match h.segment {
                    Option::Some(e) => e.start_point(),
                    Option::None => {
                        proof {
                            assert(!contour_closed(ct.edges@));
                            assert(!shape_valid(self.contours@));
                        }
                        return false;
                    },
                };
                let corner = match p.segment {
                    Option::Some(e) => e.end_point(),
                    Option::None => {
                        proof {
                            assert(!contour_closed(ct.edges@));
                            assert(!shape_valid(self.contours@));
                        }
                        return false;
                    },
                };
                if !(start.x == corner.x && start.y == corner.y) {
                    proof {
                        assert(holder_start(ct.edges@[i as int]) != holder_end(
                            ct.edges@[prev_edge_index(i as int, m as int)],
                        ));
                        assert(!contour_closed(ct.edges@));
                        assert(!shape_valid(self.contours@));
                    }
                    return false;
                }
                i += 1;
            }
            c += 1;
        }
        true
    }

    /// The number of edges over all contours.
    pub fn edge_count(&self) -> (r: usize)
        requires
            total_edges(self.contours@) <= usize::MAX,
        ensures
            r as int == total_edges(self.contours@),
    {
        let ncon = self.contours.len();
        let mut sum: usize = 0;
        let mut c: usize = 0;
        while c < ncon
            invariant
                c <= ncon,
                ncon == self.contours.len(),
                total_edges(self.contours@) <= usize::MAX,
                sum as int == total_edges(self.contours@.subrange(0, c as int)),
            decreases ncon - c,
        {
            let m = self.contours[c].edges.len();
            proof {
                assert(self.contours@.subrange(0, c as int + 1).drop_last() =~= self.contours@
                    .subrange(0, c as int));
                assert(self.contours@.subrange(0, c as int + 1).last() == self.contours@[c as int]);
                lemma_total_edges_prefix(self.contours@, c as int + 1);
            }
            sum = sum + m;
            c += 1;
        }
        proof {
            assert(self.contours@.subrange(0, ncon as int) =~= self.contours@);
        }
        sum
    }

    /// Reverses every contour whose orientation vote came out negative,
    /// so that all contours wind consistently; the rest stay as they
    /// are.
    pub fn apply_orientations(&mut self, orientations: &Vec<i64>)
        requires
            orientations@.len() == old(self).contours@.len(),
        ensures
            final(self).contours@.len() == old(self).contours@.len(),
            final(self).inverse_y_axis == old(self).inverse_y_axis,
            forall|k: int|
                0 <= k < old(self).contours@.len() ==> (#[trigger] final(self).contours@[k]).edges@
                    == if orientations@[k] < 0 {
                    contour_reversed(old(self).contours@[k].edges@)
                } else {
                    old(self).contours@[k].edges@
                },
    {
        let n = self.contours.len();
        let mut i: usize = 0;
        while i < n
            invariant
                i <= n,
                n == self.contours.len(),
                n == orientations@.len(),
                self.inverse_y_axis == old(self).inverse_y_axis,
                forall|k: int|
                    0 <= k < i ==> (#[trigger] self.contours@[k]).edges@ == if orientations@[k]
                        < 0 {
                        contour_reversed(old(self).contours@[k].edges@)
                    } else {
                        old(self).contours@[k].edges@
                    },
                forall|k: int| i <= k < n ==> self.contours@[k] == old(self).contours@[k],
            decreases n - i,
        {
            if orientations[i] < 0 {
                let ct = contour_at_mut(&mut self.contours, i);
                ct.reverse();
            }
            i += 1;
        }
    }
}

} // verus!
