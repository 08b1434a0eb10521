//! The per-query-point accumulator for multi-channel pseudo-distance.

use vstd::prelude::*;

verus! {

use crate::edge_selector_true_distance::sd_min_of;
use crate::edge_selector_true_distance::sd_min_step;
use crate::edge_selector_true_distance::lemma_sd_min_append;
use crate::edge_selector_true_distance::lemma_sd_min_is_best;
use crate::signed_distance::sd_lt;
use crate::signed_distance::SignedDistance;
use crate::vector2::Vector2;
use vstd::math::abs;

/// Folds one pseudo-distance into the best (nearest to zero) negative
/// value seen; `None` stands for "none seen yet".
pub open spec fn pseudo_neg_step(m: Option<i64>, d: i64) -> Option<i64> {
    if d <= 0 {
        match m {
            Option::None => Option::Some(d),
            Option::Some(v) => if d > v {
                Option::Some(d)
            } else {
                m
            },
        }
    } else {
        m
    }
}

/// Folds one pseudo-distance into the best (nearest to zero) positive
/// value seen.
pub open spec fn pseudo_pos_step(m: Option<i64>, d: i64) -> Option<i64> {
    if d >= 0 {
        match m {
            Option::None => Option::Some(d),
            Option::Some(v) => if d < v {
                Option::Some(d)
            } else {
                m
            },
        }
    } else {
        m
    }
}

/// The best negative pseudo-distance of a sequence.
pub open spec fn pseudo_neg_of(s: Seq<i64>) -> Option<i64>
    decreases s.len(),
{
    if s.len() == 0 {
        Option::None
    } else {
        pseudo_neg_step(pseudo_neg_of(s.drop_last()), s.last())
    }
}

/// The best positive pseudo-distance of a sequence.
pub open spec fn pseudo_pos_of(s: Seq<i64>) -> Option<i64>
    decreases s.len(),
{
    if s.len() == 0 {
        Option::None
    } else {
        pseudo_pos_step(pseudo_pos_of(s.drop_last()), s.last())
    }
}

/// Combines the negative bests of two disjoint scans.
pub open spec fn pseudo_neg_merge(a: Option<i64>, b: Option<i64>) -> Option<i64> {
    match b {
        Option::None => a,
        Option::Some(y) => match a {
            Option::None => b,
            Option::Some(x) => if y > x {
                b
            } else {
                a
            },
        },
    }
}

/// Combines the positive bests of two disjoint scans.
pub open spec fn pseudo_pos_merge(a: Option<i64>, b: Option<i64>) -> Option<i64> {
    match b {
        Option::None => a,
        Option::Some(y) => match a {
            Option::None => b,
            Option::Some(x) => if y < x {
                b
            } else {
                a
            },
        },
    }
}

proof fn lemma_pseudo_append(a: Seq<i64>, b: Seq<i64>)
    ensures
        pseudo_neg_of(a + b) == pseudo_neg_merge(pseudo_neg_of(a), pseudo_neg_of(b)),
        pseudo_pos_of(a + b) == pseudo_pos_merge(pseudo_pos_of(a), pseudo_pos_of(b)),
    decreases b.len(),
{
    if b.len() == 0 {
        assert(a + b =~= a);
    } else {
        lemma_pseudo_append(a, b.drop_last());
        assert((a + b).drop_last() =~= a + b.drop_last());
        assert((a + b).last() == b.last());
    }
}

proof fn lemma_pseudo_neg_char(s: Seq<i64>)
    ensures
        match pseudo_neg_of(s) {
            Option::None => forall|i: int| 0 <= i < s.len() ==> #[trigger] s[i] > 0,
            Option::Some(v) => v <= 0 && (exists|i: int| 0 <= i < s.len() && s[i] == v) && (
            forall|i: int| 0 <= i < s.len() && #[trigger] s[i] <= 0 ==> s[i] <= v),
        },
    decreases s.len(),
{
    if s.len() > 0 {
        lemma_pseudo_neg_char(s.drop_last());
        match pseudo_neg_of(s) {
            Option::None => {
                assert forall|i: int| 0 <= i < s.len() implies #[trigger] s[i] > 0 by {
                    if i < s.len() - 1 {
                        assert(s.drop_last()[i] == s[i]);
                    }
                }
            },
            Option::Some(v) => {
                if s.last() == v {
                    assert(s[s.len() - 1] == v);
                } else {
                    assert(pseudo_neg_of(s.drop_last()) == Option::Some(v));
                    let i = choose|i: int| 0 <= i < s.drop_last().len() && s.drop_last()[i] == v;
                    assert(s[i] == v);
                }
                assert forall|i: int| 0 <= i < s.len() && #[trigger] s[i] <= 0 implies s[i]
                    <= v by {
                    if i < s.len() - 1 {
                        assert(s.drop_last()[i] == s[i]);
                    }
                }
            },
        }
    }
}

proof fn lemma_pseudo_pos_char(s: Seq<i64>)
    ensures
        match pseudo_pos_of(s) {
            Option::None => forall|i: int| 0 <= i < s.len() ==> #[trigger] s[i] < 0,
            Option::Some(v) => v >= 0 && (exists|i: int| 0 <= i < s.len() && s[i] == v) && (
            forall|i: int| 0 <= i < s.len() && #[trigger] s[i] >= 0 ==> s[i] >= v),
        },
    decreases s.len(),
{
    if s.len() > 0 {
        lemma_pseudo_pos_char(s.drop_last());
        match pseudo_pos_of(s) {
            Option::None => {
                assert forall|i: int| 0 <= i < s.len() implies #[trigger] s[i] < 0 by {
                    if i < s.len() - 1 {
                        assert(s.drop_last()[i] == s[i]);
                    }
                }
            },
            Option::Some(v) => {
                if s.last() == v {
                    assert(s[s.len() - 1] == v);
                } else {
                    assert(pseudo_pos_of(s.drop_last()) == Option::Some(v));
                    let i = choose|i: int| 0 <= i < s.drop_last().len() && s.drop_last()[i] == v;
                    assert(s[i] == v);
                }
                assert forall|i: int| 0 <= i < s.len() && #[trigger] s[i] >= 0 implies s[i]
                    >= v by {
                    if i < s.len() - 1 {
                        assert(s.drop_last()[i] == s[i]);
                    }
                }
            },
        }
    }
}

/// The plain distance of each fed signed distance.
pub open spec fn distance_values(s: Seq<SignedDistance>) -> Seq<i64> {
    Seq::new(s.len(), |i: int| s[i].distance)
}

/// Away from corners the two selector kinds agree: when every edge's
/// pseudo-distance equals its true distance (as holds where the winning
/// parameter lies inside the curve's domain), the pseudo extremum on the
/// side of the true winner is exactly the true winner's distance.
pub proof fn lemma_pseudo_matches_true(s: Seq<SignedDistance>)
    ensures
        match sd_min_of(s) {
            Option::None => s.len() == 0,
            Option::Some(m) => if m.distance < 0 {
                pseudo_neg_of(distance_values(s)) == Option::Some(m.distance)
            } else {
                pseudo_pos_of(distance_values(s)) == Option::Some(m.distance)
            },
        },
{
    lemma_sd_min_is_best(s);
    let ds = distance_values(s);
    lemma_pseudo_neg_char(ds);
    lemma_pseudo_pos_char(ds);
    match sd_min_of(s) {
        Option::None => {},
        Option::Some(m) => {
            let w = choose|i: int| 0 <= i < s.len() && s[i] == m;
            assert(ds[w] == m.distance);
            if m.distance < 0 {
                match pseudo_neg_of(ds) {
                    Option::None => {
                        assert(ds[w] > 0);
                        assert(false);
                    },
                    Option::Some(v) => {
                        assert(v >= m.distance);
                        let j = choose|j: int| 0 <= j < ds.len() && ds[j] == v;
                        assert(!sd_lt(s[j], m));
                        assert(abs(s[j].distance as int) >= abs(m.distance as int));
                        assert(v <= m.distance);
                    },
                }
            } else {
                match pseudo_pos_of(ds) {
                    Option::None => {
                        assert(ds[w] < 0);
                        assert(false);
                    },
                    Option::Some(v) => {
                        assert(v <= m.distance);
                        let j = choose|j: int| 0 <= j < ds.len() && ds[j] == v;
                        assert(!sd_lt(s[j], m));
                        assert(abs(s[j].distance as int) >= abs(m.distance as int));
                        assert(v >= m.distance);
                    },
                }
            }
        },
    }
}

/// Picks the scalar nearer to zero: the pseudo-distance extended past
/// the winning edge's endpoint replaces the plain extremum only when its
/// magnitude is smaller.
pub fn resolve_distance(min_distance: i64, pseudo: i64) -> (r: i64)
    ensures
        r == if abs(pseudo as int) < abs(min_distance as int) {
            pseudo
        } else {
            min_distance
        },
{
    let p_mag: i128 = if pseudo < 0 {
        -(pseudo as i128)
    } else {
        pseudo as i128
    };
    let m_mag: i128 = if min_distance < 0 {
        -(min_distance as i128)
    } else {
        min_distance as i128
    };
    if p_mag < m_mag {
        pseudo
    } else {
        min_distance
    }
}

/// Scans the edges of a shape for one query point, keeping the best true
/// distance together with the edge and curve parameter that produced it,
/// and the pseudo-distance extrema on either side: the state behind one
/// colour channel of a multi-channel field.
pub struct PseudoDistanceSelector {
    p: Vector2,
    min_true_distance: Option<SignedDistance>,
    near_edge: Option<(usize, i64)>,
    min_negative_pseudo: Option<i64>,
    min_positive_pseudo: Option<i64>,
    seen_true: Ghost<Seq<SignedDistance>>,
    seen_pseudo: Ghost<Seq<i64>>,
}

impl PseudoDistanceSelector {
    /// The query point this selector was reset to.
    pub closed spec fn query_point(self) -> Vector2 {
        self.p
    }

    /// Every true distance fed since the last reset, in order.
    pub closed spec fn true_distances(self) -> Seq<SignedDistance> {
        self.seen_true@
    }

    /// Every pseudo-distance fed since the last reset, in order.
    pub closed spec fn pseudo_distances(self) -> Seq<i64> {
        self.seen_pseudo@
    }

    /// The edge index and curve parameter that produced the best true
    /// distance.
    pub closed spec fn near(self) -> Option<(usize, i64)> {
        self.near_edge
    }

    /// The kept values are the minimum and extrema of what was fed.
    pub closed spec fn wf(self) -> bool {
        &&& self.min_true_distance == sd_min_of(self.seen_true@)
        &&& self.min_negative_pseudo == pseudo_neg_of(self.seen_pseudo@)
        &&& self.min_positive_pseudo == pseudo_pos_of(self.seen_pseudo@)
    }

    /// A fresh selector, centred on query point `p`.
    pub fn new(p: Vector2) -> (r: Self)
        ensures
            r.wf(),
            r.query_point() == p,
            r.true_distances() == Seq::<SignedDistance>::empty(),
            r.pseudo_distances() == Seq::<i64>::empty(),
            r.near() == Option::<(usize, i64)>::None,
    {
        PseudoDistanceSelector {
            p,
            min_true_distance: Option::None,
            near_edge: Option::None,
            min_negative_pseudo: Option::None,
            min_positive_pseudo: Option::None,
            seen_true: Ghost(Seq::empty()),
            seen_pseudo: Ghost(Seq::empty()),
        }
    }

    /// Re-centres the selector on a new query point, dropping all state.
    pub fn reset(&mut self, p: Vector2)
        ensures
            final(self).wf(),
            final(self).query_point() == p,
            final(self).true_distances() == Seq::<SignedDistance>::empty(),
            final(self).pseudo_distances() == Seq::<i64>::empty(),
            final(self).near() == Option::<(usize, i64)>::None,
    {
        self.p = p;
        self.min_true_distance = Option::None;
        self.near_edge = Option::None;
        self.min_negative_pseudo = Option::None;
        self.min_positive_pseudo = Option::None;
        self.seen_true = Ghost(Seq::empty());
        self.seen_pseudo = Ghost(Seq::empty());
    }

    /// Considers one edge's true distance; when it beats the current
    /// best, the edge and its winning curve parameter are remembered for
    /// the final pseudo-distance conversion.
    pub fn add_edge_true_distance(&mut self, edge_index: usize, distance: SignedDistance, param: i64)
        requires
            old(self).wf(),
        ensures
            final(self).wf(),
            final(self).query_point() == old(self).query_point(),
            final(self).true_distances() == old(self).true_distances().push(distance),
            final(self).pseudo_distances() == old(self).pseudo_distances(),
            final(self).near() == if sd_min_step(sd_min_of(old(self).true_distances()), distance)
                == sd_min_of(old(self).true_distances()) && old(self).true_distances().len() > 0 {
                old(self).near()
            } else {
                Option::Some((edge_index, param))
            },
    {
        proof {
            assert(self.seen_true@.push(distance).drop_last() =~= self.seen_true@);
        }
        let keep = match &self.min_true_distance {
            Option::None => true,
            Option::Some(m) => distance < *m,
        };
        if keep {
            self.min_true_distance = Option::Some(distance);
            self.near_edge = Option::Some((edge_index, param));
        }
        self.seen_true = Ghost(self.seen_true@.push(distance));
    }

    /// Considers one pseudo-distance produced by an endpoint's extension
    /// cone.
    pub fn add_edge_pseudo_distance(&mut self, distance: i64)
        requires
            old(self).wf(),
        ensures
            final(self).wf(),
            final(self).query_point() == old(self).query_point(),
            final(self).true_distances() == old(self).true_distances(),
            final(self).pseudo_distances() == old(self).pseudo_distances().push(distance),
            final(self).near() == old(self).near(),
    {
        proof {
            assert(self.seen_pseudo@.push(distance).drop_last() =~= self.seen_pseudo@);
        }
        if distance <= 0 {
            let take = match &self.min_negative_pseudo {
                Option::None => true,
                Option::Some(v) => distance > *v,
            };
            if take {
                self.min_negative_pseudo = Option::Some(distance);
            }
        }
        if distance >= 0 {
            let take = match &self.min_positive_pseudo {
                Option::None => true,
                Option::Some(v) => distance < *v,
            };
            if take {
                self.min_positive_pseudo = Option::Some(distance);
            }
        }
        self.seen_pseudo = Ghost(self.seen_pseudo@.push(distance));
    }

    /// Combines this selector with one that scanned a disjoint edge
    /// subset for the same query point.
    pub fn merge(&mut self, other: &Self)
        requires
            old(self).wf(),
            other.wf(),
        ensures
            final(self).wf(),
            final(self).query_point() == old(self).query_point(),
            final(self).true_distances() == old(self).true_distances() + other.true_distances(),
            final(self).pseudo_distances() == old(self).pseudo_distances()
                + other.pseudo_distances(),
            final(self).near() == if sd_min_of(old(self).true_distances() + other.true_distances())
                == sd_min_of(old(self).true_distances()) && !(sd_min_of(
                old(self).true_distances(),
            ) is None && sd_min_of(other.true_distances()) is Some) {
                old(self).near()
            } else {
                other.near()
            },
    {
        proof {
            lemma_sd_min_append(self.seen_true@, other.seen_true@);
            lemma_pseudo_append(self.seen_pseudo@, other.seen_pseudo@);
        }
        let take_true = match (&self.min_true_distance, &other.min_true_distance) {
            (_, Option::None) => false,
            (Option::None, Option::Some(_)) => true,
            (Option::Some(m), Option::Some(o)) => *o < *m,
        };
        if take_true {
            self.min_true_distance = other.min_true_distance;
            self.near_edge = other.near_edge;
        }
        let take_neg = match (&self.min_negative_pseudo, &other.min_negative_pseudo) {
            (_, Option::None) => false,
            (Option::None, Option::Some(_)) => true,
            (Option::Some(x), Option::Some(y)) => *y > *x,
        };
        if take_neg {
            self.min_negative_pseudo = other.min_negative_pseudo;
        }
        let take_pos = match (&self.min_positive_pseudo, &other.min_positive_pseudo) {
            (_, Option::None) => false,
            (Option::None, Option::Some(_)) => true,
            (Option::Some(x), Option::Some(y)) => *y < *x,
        };
        if take_pos {
            self.min_positive_pseudo = other.min_positive_pseudo;
        }
        self.seen_true = Ghost(self.seen_true@ + other.seen_true@);
        self.seen_pseudo = Ghost(self.seen_pseudo@ + other.seen_pseudo@);
    }

    /// The best true distance seen, with the edge that produced it.
    pub fn true_distance(&self) -> (r: Option<SignedDistance>)
        requires
            self.wf(),
        ensures
            r == sd_min_of(self.true_distances()),
    {
        self.min_true_distance
    }

    /// The edge index and curve parameter behind the best true distance.
    pub fn near_edge(&self) -> (r: Option<(usize, i64)>)
        ensures
            r == self.near(),
    {
        self.near_edge
    }

    /// The pseudo-distance extremum on the side (inside or outside) that
    /// the best true distance lies on: the channel's value before the
    /// winning edge's own pseudo-distance conversion is folded in with
    /// `resolve_distance`.
    pub fn base_distance(&self) -> (r: Option<i64>)
        requires
            self.wf(),
        ensures
            r == match sd_min_of(self.true_distances()) {
                Option::None => Option::<i64>::None,
                Option::Some(m) => if m.distance < 0 {
                    pseudo_neg_of(self.pseudo_distances())
                } else {
                    pseudo_pos_of(self.pseudo_distances())
                },
            },
    {
        match &self.min_true_distance {
            Option::None => Option::None,
            Option::Some(m) => if m.distance < 0 {
                self.min_negative_pseudo
            } else {
                self.min_positive_pseudo
            },
        }
    }
}

} // verus!
