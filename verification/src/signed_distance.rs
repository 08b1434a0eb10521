//! Signed perpendicular distance paired with a tie-breaking cosine.

use vstd::prelude::*;

verus! {

use core::cmp::Ordering;
use vstd::math::abs;
use vstd::std_specs::cmp::PartialOrdSpec;

/// The signed distance from a query point to one edge, in the encoded
/// scalar form.  `distance` is the signed perpendicular (or chord)
/// distance; `dot` is the absolute cosine between the edge tangent at the
/// nearest endpoint and the query direction, used only to break ties when
/// two edges pass at the same distance.  Smaller magnitude is nearer;
/// equal magnitudes are ordered by `dot` ascending.
#[derive(Clone, Copy, PartialEq, Eq, Structural, Debug)]
pub struct SignedDistance {
    pub distance: i64,
    pub dot: i64,
}

impl SignedDistance {
    pub fn new(distance: i64, dot: i64) -> (r: Self)
        ensures
            r.distance == distance,
            r.dot == dot,
    {
        Self { distance, dot }
    }
}

/// How two signed distances compare: by distance magnitude ascending,
/// ties by the `dot` cosine ascending.
pub open spec fn sd_cmp(a: SignedDistance, b: SignedDistance) -> Option<Ordering> {
    Some(
        if abs(a.distance as int) < abs(b.distance as int) {
            Ordering::Less
        } else if abs(a.distance as int) > abs(b.distance as int) {
            Ordering::Greater
        } else if a.dot < b.dot {
            Ordering::Less
        } else if a.dot > b.dot {
            Ordering::Greater
        } else {
            Ordering::Equal
        },
    )
}

impl PartialOrd for SignedDistance {
    fn partial_cmp(&self, other: &Self) -> (r: Option<Ordering>) {
        let a_mag: i128 = if self.distance < 0 {
            -(self.distance as i128)
        } else {
            self.distance as i128
        };
        let b_mag: i128 = if other.distance < 0 {
            -(other.distance as i128)
        } else {
            other.distance as i128
        };
        proof {
            assert(a_mag as int == abs(self.distance as int));
            assert(b_mag as int == abs(other.distance as int));
        }
        let r = if a_mag < b_mag {
            Some(Ordering::Less)
        } else if a_mag > b_mag {
            Some(Ordering::Greater)
        } else if self.dot < other.dot {
            Some(Ordering::Less)
        } else if self.dot > other.dot {
            Some(Ordering::Greater)
        } else {
            Some(Ordering::Equal)
        };
        proof {
            assert(r == sd_cmp(*self, *other));
        }
        r
    }
}

impl vstd::std_specs::cmp::PartialOrdSpecImpl for SignedDistance {
    open spec fn obeys_partial_cmp_spec() -> bool {
        true
    }

    open spec fn partial_cmp_spec(&self, other: &Self) -> Option<Ordering> {
        sd_cmp(*self, *other)
    }
}

/// `a` is strictly nearer than `b`: smaller distance magnitude, or the
/// same magnitude with a smaller tie-breaking cosine.
pub open spec fn sd_lt(a: SignedDistance, b: SignedDistance) -> bool {
    sd_cmp(a, b) == Some(Ordering::Less)
}

/// The order never puts a value below itself.
pub proof fn lemma_sd_order_irreflexive(a: SignedDistance)
    ensures
        !sd_lt(a, a),
{
}

/// The order is transitive: nearer than and nearer than chain.
pub proof fn lemma_sd_order_transitive(a: SignedDistance, b: SignedDistance, c: SignedDistance)
    requires
        sd_lt(a, b),
        sd_lt(b, c),
    ensures
        sd_lt(a, c),
{
}

/// The order is asymmetric: two values are never each nearer than the
/// other.
pub proof fn lemma_sd_order_asymmetric(a: SignedDistance, b: SignedDistance)
    requires
        sd_lt(a, b),
    ensures
        !sd_lt(b, a),
{
}

/// Values that compare equal do so transitively, which together with
/// irreflexivity, asymmetry and transitivity makes the order a strict
/// weak order.
pub proof fn lemma_sd_order_incomparable_transitive(
    a: SignedDistance,
    b: SignedDistance,
    c: SignedDistance,
)
    requires
        !sd_lt(a, b),
        !sd_lt(b, a),
        !sd_lt(b, c),
        !sd_lt(c, b),
    ensures
        !sd_lt(a, c),
        !sd_lt(c, a),
{
}

/// When two values carry the same signed distance the comparison falls
/// through to the tie-breaking cosine.
pub proof fn lemma_sd_order_ties_use_dot(a: SignedDistance, b: SignedDistance)
    requires
        a.distance == b.distance,
    ensures
        sd_lt(a, b) <==> a.dot < b.dot,
{
}

} // verus!
