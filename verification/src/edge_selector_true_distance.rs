//! The per-query-point accumulator for plain signed distance.

use vstd::prelude::*;

verus! {

use crate::signed_distance::sd_lt;
use crate::signed_distance::SignedDistance;
use crate::vector2::Vector2;

/// The smaller of `m` and one more distance, by the signed-distance
/// order; `None` stands for "nothing seen yet".
pub open spec fn sd_min_step(m: Option<SignedDistance>, d: SignedDistance) -> Option<
    SignedDistance,
> {
    match m {
        Option::None => Option::Some(d),
        Option::Some(m0) => if sd_lt(d, m0) {
            Option::Some(d)
        } else {
            Option::Some(m0)
        },
    }
}

/// The minimum of a sequence of signed distances, by the
/// signed-distance order; ties keep the earlier value.
pub open spec fn sd_min_of(s: Seq<SignedDistance>) -> Option<SignedDistance>
    decreases s.len(),
{
    if s.len() == 0 {
        Option::None
    } else {
        sd_min_step(sd_min_of(s.drop_last()), s.last())
    }
}

/// What the minimum means: it is one of the fed distances and no fed
/// distance is strictly nearer.  This is why feeding a selector every
/// edge of a shape retains the globally nearest one.
pub proof fn lemma_sd_min_is_best(s: Seq<SignedDistance>)
    ensures
        match sd_min_of(s) {
            Option::None => s.len() == 0,
            Option::Some(m) => (exists|i: int| 0 <= i < s.len() && s[i] == m) && (forall|i: int|
                0 <= i < s.len() ==> !sd_lt(#[trigger] s[i], m)),
        },
    decreases s.len(),
{
    if s.len() > 0 {
        lemma_sd_min_is_best(s.drop_last());
        match sd_min_of(s) {
            Option::None => {},
            Option::Some(m) => {
                if s.last() == m {
                    assert(s[s.len() - 1] == m);
                } else {
                    let i = choose|i: int| 0 <= i < s.drop_last().len() && s.drop_last()[i] == m;
                    assert(s[i] == m);
                }
                assert forall|i: int| 0 <= i < s.len() implies !sd_lt(#[trigger] s[i], m) by {
                    if i < s.len() - 1 {
                        assert(s.drop_last()[i] == s[i]);
                    }
                }
            },
        }
    }
}

/// Appending to one scan and then taking the minimum is the same as
/// taking the two minimums and keeping the smaller: the ground for
/// merging selectors that scanned disjoint edge subsets.
pub proof fn lemma_sd_min_append(a: Seq<SignedDistance>, b: Seq<SignedDistance>)
    ensures
        sd_min_of(a + b) == match sd_min_of(b) {
            Option::None => sd_min_of(a),
            Option::Some(mb) => sd_min_step(sd_min_of(a), mb),
        },
    decreases b.len(),
{
    if b.len() == 0 {
        assert(a + b =~= a);
    } else {
        lemma_sd_min_append(a, b.drop_last());
        assert((a + b).drop_last() =~= a + b.drop_last());
        assert((a + b).last() == b.last());
    }
}

/// Scans the edges of a shape for one query point and keeps the best
/// (nearest by the signed-distance order) true distance seen.
pub struct TrueDistanceSelector {
    p: Vector2,
    min_distance: Option<SignedDistance>,
    seen: Ghost<Seq<SignedDistance>>,
}

impl TrueDistanceSelector {
    /// The query point this selector was reset to.
    pub closed spec fn query_point(self) -> Vector2 {
        self.p
    }

    /// Every distance fed since the last reset, in order.
    pub closed spec fn distances(self) -> Seq<SignedDistance> {
        self.seen@
    }

    /// The kept value is the minimum of the fed distances.
    pub closed spec fn wf(self) -> bool {
        self.min_distance == sd_min_of(self.seen@)
    }

    /// A fresh selector, centred on query point `p`.
    pub fn new(p: Vector2) -> (r: Self)
        ensures
            r.wf(),
            r.query_point() == p,
            r.distances() == Seq::<SignedDistance>::empty(),
    {
        TrueDistanceSelector { p, min_distance: Option::None, seen: Ghost(Seq::empty()) }
    }

    /// Re-centres the selector on a new query point, dropping all fed
    /// distances.
    pub fn reset(&mut self, p: Vector2)
        ensures
            final(self).wf(),
            final(self).query_point() == p,
            final(self).distances() == Seq::<SignedDistance>::empty(),
    {
        self.p = p;
        self.min_distance = Option::None;
        self.seen = Ghost(Seq::empty());
    }

    /// Considers one edge's signed distance to the query point and keeps
    /// it when it beats the current best.
    pub fn add_distance(&mut self, distance: SignedDistance)
        requires
            old(self).wf(),
        ensures
            final(self).wf(),
            final(self).query_point() == old(self).query_point(),
            final(self).distances() == old(self).distances().push(distance),
    {
        proof {
            assert(self.seen@.push(distance).drop_last() =~= self.seen@);
        }
        let keep = match &self.min_distance {
            Option::None => true,
            Option::Some(m) => distance < *m,
        };
        if keep {
            self.min_distance = Option::Some(distance);
        }
        self.seen = Ghost(self.seen@.push(distance));
    }

    /// The best distance seen since the last reset, `None` when no edge
    /// was fed.
    pub fn distance(&self) -> (r: Option<SignedDistance>)
        requires
            self.wf(),
        ensures
            r == sd_min_of(self.distances()),
    {
        self.min_distance
    }

    /// Combines this selector with one that scanned a disjoint edge
    /// subset for the same query point, as if this one had scanned both
    /// subsets in order.
    pub fn merge(&mut self, other: &Self)
        requires
            old(self).wf(),
            other.wf(),
        ensures
            final(self).wf(),
            final(self).query_point() == old(self).query_point(),
            final(self).distances() == old(self).distances() + other.distances(),
    {
        proof {
            lemma_sd_min_append(self.seen@, other.seen@);
        }
        let keep = match (&self.min_distance, &other.min_distance) {
            (_, Option::None) => false,
            (Option::None, Option::Some(_)) => true,
            (Option::Some(m), Option::Some(o)) => *o < *m,
        };
        if keep {
            self.min_distance = other.min_distance;
        }
        self.seen = Ghost(self.seen@ + other.seen@);
    }
}

} // verus!
