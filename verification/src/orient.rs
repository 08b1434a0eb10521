//! Deciding contour orientation from scanline crossings.

use vstd::prelude::*;

verus! {

use vstd::pervasive::VecAdditionalExecFns;

/// One crossing found while probing every contour with a single
/// horizontal line: its encoded x position, its direction, and the
/// contour it belongs to.
#[derive(Clone, Copy, PartialEq, Eq, Structural, Debug)]
pub struct OrientIntersection {
    pub x: i64,
    pub direction: i32,
    pub contour_index: usize,
}

/// Non-decreasing x positions.
pub open spec fn sorted_ori(s: Seq<OrientIntersection>) -> bool {
    forall|i: int, j: int| 0 <= i < j < s.len() ==> s[i].x <= s[j].x
}

/// How often `e` occurs in `s`.
pub open spec fn occ(s: Seq<OrientIntersection>, e: OrientIntersection) -> int
    decreases s.len(),
{
    if s.len() == 0 {
        0
    } else {
        occ(s.drop_last(), e) + if s.last() == e {
            1int
        } else {
            0int
        }
    }
}

/// `a` and `b` hold the same crossings, each the same number of times.
pub open spec fn same_crossings(a: Seq<OrientIntersection>, b: Seq<OrientIntersection>) -> bool {
    forall|e: OrientIntersection| #[trigger] occ(a, e) == occ(b, e)
}

/// Crossings that share their exact x position with a neighbour in the
/// sorted order are ambiguous; their directions are zeroed so they cast
/// no vote.
pub open spec fn coincident_zeroed(s: Seq<OrientIntersection>) -> Seq<OrientIntersection> {
    Seq::new(
        s.len(),
        |j: int|
            if (j > 0 && s[j - 1].x == s[j].x) || (j + 1 < s.len() && s[j + 1].x == s[j].x) {
                OrientIntersection { x: s[j].x, direction: 0, contour_index: s[j].contour_index }
            } else {
                s[j]
            },
    )
}

/// The vote one crossing casts: walking the sorted crossings left to
/// right, a crossing whose direction agrees with the parity of its rank
/// votes for the current orientation, one that disagrees votes against
/// it.
pub open spec fn vote_value(e: OrientIntersection, j: int) -> int {
    if e.direction > 0 {
        if j % 2 == 0 {
            1
        } else {
            -1
        }
    } else if e.direction < 0 {
        if j % 2 == 0 {
            -1
        } else {
            1
        }
    } else {
        0
    }
}

/// The votes contour `ci` has collected from the first `n` crossings.
pub open spec fn contour_vote(s: Seq<OrientIntersection>, ci: int, n: int) -> int
    decreases n,
{
    if n <= 0 {
        0
    } else {
        contour_vote(s, ci, n - 1) + if s[n - 1].contour_index == ci {
            vote_value(s[n - 1], n - 1)
        } else {
            0int
        }
    }
}

proof fn lemma_occ_update(s: Seq<OrientIntersection>, j: int, v: OrientIntersection, e: OrientIntersection)
    requires
        0 <= j < s.len(),
    ensures
        occ(s.update(j, v), e) == occ(s, e) - (if s[j] == e {
            1int
        } else {
            0int
        }) + (if v == e {
            1int
        } else {
            0int
        }),
    decreases s.len(),
{
    let t = s.update(j, v);
    if j == s.len() - 1 {
        assert(t.drop_last() =~= s.drop_last());
        assert(t.last() == v);
    } else {
        assert(t.drop_last() =~= s.drop_last().update(j, v));
        lemma_occ_update(s.drop_last(), j, v, e);
        assert(t.last() == s.last());
    }
}

/// Computes each contour's orientation vote from the crossings of one
/// probe line across the whole shape.  The crossings are sorted by x;
/// exactly coincident pairs are discarded as ambiguous; every remaining
/// crossing votes by its rank parity and direction.  A contour with a
/// negative total is wound opposite to the consensus and is to be
/// reversed.
pub fn orientation_votes(crossings: &Vec<OrientIntersection>, contour_count: usize) -> (r: Vec<
    i64,
>)
    requires
        crossings@.len() <= 0x7FFF_FFFF_FFFF_FFFF,
        forall|j: int|
            0 <= j < crossings@.len() ==> (#[trigger] crossings@[j]).contour_index < contour_count,
    ensures
        r@.len() == contour_count,
        exists|t: Seq<OrientIntersection>|
            (#[trigger] sorted_ori(t) && same_crossings(crossings@, t) && forall|ci: int|
                0 <= ci < contour_count ==> r@[ci] == contour_vote(
                    coincident_zeroed(t),
                    ci,
                    t.len() as int,
                )),
{
    let m = crossings.len();
    let mut v: Vec<OrientIntersection> = Vec::new();
    let mut j: usize = 0;
    while j < m
        invariant
            j <= m,
            m == crossings.len(),
            v@ == crossings@.subrange(0, j as int),
        decreases m - j,
    {
        v.push(crossings[j]);
        proof {
            assert(v@ =~= crossings@.subrange(0, j as int + 1));
        }
        j += 1;
    }
    proof {
        assert(v@ =~= crossings@);
    }
    // Insertion sort on x, by adjacent swaps.
    if m > 1 {
        let mut i: usize = 1;
        while i < m
            invariant
                1 <= i <= m,
                m == v.len(),
                m == crossings.len(),
                forall|a: int, b: int| 0 <= a < b < i ==> v@[a].x <= v@[b].x,
                forall|e: OrientIntersection| #[trigger] occ(v@, e) == occ(crossings@, e),
                forall|a: int|
                    0 <= a < m ==> (#[trigger] v@[a]).contour_index < contour_count,
            decreases m - i,
        {
            let mut k: usize = i;
            while k > 0 && v[k - 1].x > v[k].x
                invariant
                    0 <= k <= i < m,
                    m == v.len(),
                    m == crossings.len(),
                    forall|a: int, b: int| 0 <= a < b <= i && b != k ==> v@[a].x <= v@[b].x,
                    forall|e: OrientIntersection| #[trigger] occ(v@, e) == occ(crossings@, e),
                    forall|a: int|
                        0 <= a < m ==> (#[trigger] v@[a]).contour_index < contour_count,
                decreases k,
            {
                let a = v[k - 1];
                let b = v[k];
                let ghost before = v@;
                v.set(k - 1, b);
                v.set(k, a);
                proof {
                    let mid = before.update(k - 1, b);
                    assert(v@ == mid.update(k as int, a));
                    assert forall|e: OrientIntersection| #[trigger] occ(v@, e) == occ(
                        crossings@,
                        e,
                    ) by {
                        lemma_occ_update(before, k - 1, b, e);
                        lemma_occ_update(mid, k as int, a, e);
                    }
                    assert forall|c: int| 0 <= c < m implies (#[trigger] v@[c]).contour_index
                        < contour_count by {
                        assert(v@[c] == before[c] || v@[c] == a || v@[c] == b);
                    }
                }
                k -= 1;
            }
            proof {
                assert forall|a: int, b: int| 0 <= a < b <= i implies v@[a].x <= v@[b].x by {
                    if b == k {
                        assert(k > 0 ==> v@[k - 1].x <= v@[k as int].x);
                    }
                }
            }
            i += 1;
        }
    }
    let ghost t = v@;
    // Discard exactly coincident crossings: their directions become 0.
    let ghost z = coincident_zeroed(t);
    if m > 1 {
        let mut j2: usize = 1;
        while j2 < m
            invariant
                1 <= j2 <= m,
                m == v.len(),
                m == t.len(),
                z == coincident_zeroed(t),
                forall|a: int|
                    0 <= a < m ==> (#[trigger] v@[a]).x == t[a].x && v@[a].contour_index
                        == t[a].contour_index,
                forall|a: int| 0 <= a < j2 - 1 ==> v@[a] == z[a],
                v@[j2 - 1].direction == if j2 >= 2 && t[j2 - 2].x == t[j2 - 1].x {
                    0int
                } else {
                    t[j2 - 1].direction as int
                },
                forall|a: int| j2 <= a < m ==> v@[a] == t[a],
            decreases m - j2,
        {
            if v[j2].x == v[j2 - 1].x {
                let left = v[j2 - 1];
                let right = v[j2];
                v.set(
                    j2 - 1,
                    OrientIntersection { x: left.x, direction: 0, contour_index: left.contour_index },
                );
                v.set(
                    j2,
                    OrientIntersection {
                        x: right.x,
                        direction: 0,
                        contour_index: right.contour_index,
                    },
                );
            }
            j2 += 1;
        }
    }
    proof {
        assert forall|a: int| 0 <= a < m implies v@[a] == z[a] by {}
        assert(v@ =~= z);
    }
    proof {
        assert forall|a: int| 0 <= a < m implies (#[trigger] v@[a]).contour_index
            < contour_count by {
            assert(z[a].contour_index == t[a].contour_index);
        }
    }
    // Accumulate each contour's vote by rank parity.
    let mut result: Vec<i64> = Vec::new();
    let mut c: usize = 0;
    while c < contour_count
        invariant
            c <= contour_count,
            result@.len() == c,
            forall|ci: int| 0 <= ci < c ==> result@[ci] == 0,
        decreases contour_count - c,
    {
        result.push(0);
        c += 1;
    }
    let mut j3: usize = 0;
    while j3 < m
        invariant
            j3 <= m,
            m == v.len(),
            v@ == z,
            m == z.len(),
            m <= 0x7FFF_FFFF_FFFF_FFFF,
            result@.len() == contour_count,
            forall|a: int| 0 <= a < m ==> (#[trigger] v@[a]).contour_index < contour_count,
            forall|ci: int|
                0 <= ci < contour_count ==> #[trigger] result@[ci] == contour_vote(
                    z,
                    ci,
                    j3 as int,
                ) && -(j3 as int) <= result@[ci] <= j3 as int,
        decreases m - j3,
    {
        let e = v[j3];
        if e.direction != 0 {
            let vote: i64 = if e.direction > 0 {
                if j3 % 2 == 0 {
                    1
                } else {
                    -1
                }
            } else {
                if j3 % 2 == 0 {
                    -1
                } else {
                    1
                }
            };
            let cur = result[e.contour_index];
            result.set(e.contour_index, cur + vote);
        }
        j3 += 1;
    }
    proof {
        assert(sorted_ori(t));
        assert(same_crossings(crossings@, t));
        assert forall|ci: int| 0 <= ci < contour_count implies result@[ci] == contour_vote(
            coincident_zeroed(t),
            ci,
            t.len() as int,
        ) by {
            assert(result@[ci] == contour_vote(z, ci, m as int));
        }
    }
    result
}

} // verus!
