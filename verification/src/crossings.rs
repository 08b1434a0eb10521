//! The tie-break bookkeeping behind a curve's scanline crossings.
//!
//! Finding where a quadratic or cubic edge crosses a horizontal line
//! needs floating-point root finding, which the scalar layer does; but
//! whether each found crossing counts, and with which direction, is a
//! chain of discrete decisions on encoded values.  An edge whose
//! endpoint sits exactly on the line defers its direction to the local
//! monotonicity of its control polygon, directions must alternate, and
//! a final consistency check against the curve's last point corrects an
//! off-by-one when the accumulated parity disagrees.  That chain is
//! implemented and verified here, once for both curve degrees.

use vstd::prelude::*;

verus! {

use crate::scanline::Intersection;

/// One root of the curve's vertical polynomial, as the scalar layer
/// hands it over: the crossing's encoded x position, whether the curve
/// parameter lies in `[0, 1]`, and the sign of dy/dt there.
#[derive(Clone, Copy, PartialEq, Eq, Structural, Debug)]
pub struct CrossingCandidate {
    pub x: i64,
    pub in_range: bool,
    pub derivative_sign: i32,
}

/// The control polygon leaves its first point upward: the first control
/// y that differs from the start lies above it.
pub open spec fn rises_from_start(ys: Seq<i64>) -> bool {
    exists|k: int|
        1 <= k < ys.len() && #[trigger] ys[k] > ys[0] && (forall|j: int|
            1 <= j < k ==> #[trigger] ys[j] == ys[0])
}

/// The control polygon falls into its last point: the first control y
/// before the end that differs from it lies above it.
pub open spec fn falls_to_end(ys: Seq<i64>) -> bool {
    exists|k: int|
        1 <= k < ys.len() && #[trigger] ys[ys.len() - 1 - k] > ys[ys.len() - 1] && (forall|j: int|
            1 <= j < k ==> #[trigger] ys[ys.len() - 1 - j] == ys[ys.len() - 1])
}

/// The state before any candidate is seen: an edge starting exactly on
/// the line emits an upward crossing only when its control polygon
/// rises away; otherwise it defers, expecting the upward pass later.
pub open spec fn start_state(ys: Seq<i64>, x_start: i64, y: i64) -> (Seq<Intersection>, int, i64) {
    let next0: int = if y > ys[0] {
        1
    } else {
        -1
    };
    if ys[0] == y {
        if rises_from_start(ys) {
            (seq![Intersection { x: x_start, direction: 1i32 }], next0, x_start)
        } else {
            (Seq::empty(), 1, x_start)
        }
    } else {
        (Seq::empty(), next0, x_start)
    }
}

/// Folds one candidate root into the state: an in-range root fills the
/// slot, and is kept only when the curve's vertical motion there agrees
/// with the direction the alternation expects.
pub open spec fn candidate_step(
    st: (Seq<Intersection>, int, i64),
    c: CrossingCandidate,
) -> (Seq<Intersection>, int, i64) {
    if c.in_range {
        if st.1 * (c.derivative_sign as int) >= 0 {
            (st.0.push(Intersection { x: c.x, direction: st.1 as i32 }), -st.1, c.x)
        } else {
            (st.0, st.1, c.x)
        }
    } else {
        st
    }
}

/// Folds the candidates in order, stopping once `max` crossings are
/// kept.
pub open spec fn run_candidates(
    st: (Seq<Intersection>, int, i64),
    cands: Seq<CrossingCandidate>,
    max: int,
) -> (Seq<Intersection>, int, i64)
    decreases cands.len(),
{
    if cands.len() == 0 || st.0.len() >= max {
        st
    } else {
        run_candidates(candidate_step(st, cands[0]), cands.drop_first(), max)
    }
}

/// An edge ending exactly on the line first retracts a pending upward
/// crossing, then emits the downward one only when its control polygon
/// falls into the end.
pub open spec fn end_tie(
    st: (Seq<Intersection>, int, i64),
    ys: Seq<i64>,
    x_end: i64,
    y: i64,
    max: int,
) -> (Seq<Intersection>, int, i64) {
    if ys[ys.len() - 1] == y {
        let popped = if st.1 > 0 && st.0.len() > 0 {
            (st.0.drop_last(), -1int, if st.0.len() == 1 {
                st.0.last().x
            } else {
                st.2
            })
        } else {
            st
        };
        if falls_to_end(ys) && popped.0.len() < max {
            if popped.1 < 0 {
                (popped.0.push(Intersection { x: x_end, direction: -1i32 }), 1int, x_end)
            } else {
                (popped.0, popped.1, x_end)
            }
        } else {
            popped
        }
    } else {
        st
    }
}

/// The final consistency check: when the accumulated parity disagrees
/// with the direction implied by comparing `y` to the curve's last
/// point, either the superfluous last crossing is dropped, or the
/// missing one is emitted from the pending slot.
pub open spec fn final_fix(
    st: (Seq<Intersection>, int, i64),
    expected: int,
    x_end: i64,
    end_closer: bool,
) -> Seq<Intersection> {
    if st.1 != expected {
        if st.0.len() > 0 {
            st.0.drop_last()
        } else {
            let sx = if end_closer {
                x_end
            } else {
                st.2
            };
            st.0.push(Intersection { x: sx, direction: st.1 as i32 })
        }
    } else {
        st.0
    }
}

/// The whole bookkeeping chain for one edge.  The parity check expects
/// the accumulated direction to match where the line lies relative to
/// the curve's last point.
pub open spec fn crossings_spec(
    ys: Seq<i64>,
    x_start: i64,
    x_end: i64,
    y: i64,
    cands: Seq<CrossingCandidate>,
    end_closer: bool,
    max: int,
) -> Seq<Intersection> {
    let st1 = start_state(ys, x_start, y);
    let st2 = run_candidates(st1, cands, max);
    let st3 = end_tie(st2, ys, x_end, y, max);
    let expected: int = if y >= ys[ys.len() - 1] {
        1
    } else {
        -1
    };
    final_fix(st3, expected, x_end, end_closer)
}

proof fn lemma_run_candidates_len(st: (Seq<Intersection>, int, i64), cands: Seq<CrossingCandidate>, max: int)
    requires
        st.0.len() <= max,
    ensures
        run_candidates(st, cands, max).0.len() <= max,
    decreases cands.len(),
{
    if cands.len() == 0 || st.0.len() >= max {
    } else {
        lemma_run_candidates_len(candidate_step(st, cands[0]), cands.drop_first(), max);
    }
}

fn rises_exec(ys: &Vec<i64>) -> (r: bool)
    requires
        ys@.len() >= 1,
    ensures
        r == rises_from_start(ys@),
{
    let n = ys.len();
    let first = ys[0];
    let mut k: usize = 1;
    while k < n
        invariant
            1 <= k <= n,
            n == ys@.len(),
            first == ys@[0],
            forall|j: int| 1 <= j < k ==> #[trigger] ys@[j] == ys@[0],
        decreases n - k,
    {
        if ys[k] != first {
            if ys[k] > first {
                proof {
                    assert(rises_from_start(ys@));
                }
                return true;
            } else {
                proof {
                    assert forall|k2: int|
                        !(1 <= k2 < ys@.len() && #[trigger] ys@[k2] > ys@[0] && (forall|j: int|
                            1 <= j < k2 ==> #[trigger] ys@[j] == ys@[0])) by {
                        if 1 <= k2 < ys@.len() && ys@[k2] > ys@[0] {
                            if k2 <= k as int {
                                assert(ys@[k2] == ys@[0] || k2 == k as int);
                            } else {
                                assert(1 <= (k as int) && (k as int) < k2 && ys@[k as int]
                                    != ys@[0]);
                            }
                        }
                    }
                }
                return false;
            }
        }
        k += 1;
    }
    proof {
        assert forall|k2: int|
            !(1 <= k2 < ys@.len() && #[trigger] ys@[k2] > ys@[0] && (forall|j: int|
                1 <= j < k2 ==> #[trigger] ys@[j] == ys@[0])) by {
            if 1 <= k2 < ys@.len() {
                assert(ys@[k2] == ys@[0]);
            }
        }
    }
    false
}

fn falls_exec(ys: &Vec<i64>) -> (r: bool)
    requires
        ys@.len() >= 1,
    ensures
        r == falls_to_end(ys@),
{
    let n = ys.len();
    let last = ys[n - 1];
    let mut k: usize = 1;
    while k < n
        invariant
            1 <= k <= n,
            n == ys@.len(),
            last == ys@[n - 1],
            forall|j: int| 1 <= j < k ==> #[trigger] ys@[n - 1 - j] == ys@[n - 1],
        decreases n - k,
    {
        let v = ys[n - 1 - k];
        if v != last {
            if v > last {
                proof {
                    assert(ys@[ys@.len() - 1 - k as int] > ys@[ys@.len() - 1]);
                    assert(falls_to_end(ys@));
                }
                return true;
            } else {
                proof {
                    assert forall|k2: int|
                        !(1 <= k2 < ys@.len() && #[trigger] ys@[ys@.len() - 1 - k2] > ys@[ys@.len()
                            - 1] && (forall|j: int|
                            1 <= j < k2 ==> #[trigger] ys@[ys@.len() - 1 - j] == ys@[ys@.len()
                                - 1])) by {
                        if 1 <= k2 < ys@.len() && ys@[ys@.len() - 1 - k2] > ys@[ys@.len() - 1] {
                            if k2 <= k as int {
                                assert(ys@[ys@.len() - 1 - k2] == ys@[ys@.len() - 1] || k2
                                    == k as int);
                            } else {
                                assert(1 <= (k as int) && (k as int) < k2 && ys@[ys@.len() - 1
                                    - k as int] != ys@[ys@.len() - 1]);
                            }
                        }
                    }
                }
                return false;
            }
        }
        k += 1;
    }
    proof {
        assert forall|k2: int|
            !(1 <= k2 < ys@.len() && #[trigger] ys@[ys@.len() - 1 - k2] > ys@[ys@.len() - 1] && (
            forall|j: int| 1 <= j < k2 ==> #[trigger] ys@[ys@.len() - 1 - j] == ys@[ys@.len()
                - 1])) by {
            if 1 <= k2 < ys@.len() {
                assert(ys@[ys@.len() - 1 - k2] == ys@[ys@.len() - 1]);
            }
        }
    }
    false
}

fn crossings_exec(
    ys: &Vec<i64>,
    x_start: i64,
    x_end: i64,
    y: i64,
    candidates: &Vec<CrossingCandidate>,
    end_closer: bool,
    max_crossings: usize,
) -> (r: Vec<Intersection>)
    requires
        ys@.len() >= 2,
        1 <= max_crossings <= 3,
        forall|j: int|
            0 <= j < candidates@.len() ==> -1 <= (#[trigger] candidates@[j]).derivative_sign <= 1,
    ensures
        r@ == crossings_spec(
            ys@,
            x_start,
            x_end,
            y,
            candidates@,
            end_closer,
            max_crossings as int,
        ),
        r@.len() <= max_crossings,
{
    let ghost max = max_crossings as int;
    let mut out: Vec<Intersection> = Vec::new();
    let mut next_dy: i32 = if y > ys[0] {
        1
    } else {
        -1
    };
    let mut slot: i64 = x_start;
    if ys[0] == y {
        if rises_exec(ys) {
            out.push(Intersection { x: x_start, direction: 1 });
        } else {
            next_dy = 1;
        }
    }
    proof {
        assert((out@, next_dy as int, slot) == start_state(ys@, x_start, y));
    }
    let ghost st1 = start_state(ys@, x_start, y);
    let m = candidates.len();
    proof {
        assert(candidates@.subrange(0, m as int) =~= candidates@);
    }
    let mut i: usize = 0;
    while i < m && out.len() < max_crossings
        invariant
            i <= m,
            m == candidates@.len(),
            next_dy == 1 || next_dy == -1,
            out@.len() <= max,
            1 <= max <= 3,
            max == max_crossings as int,
            forall|j: int|
                0 <= j < candidates@.len() ==> -1 <= (#[trigger] candidates@[j]).derivative_sign
                    <= 1,
            run_candidates(st1, candidates@, max) == run_candidates(
                (out@, next_dy as int, slot),
                candidates@.subrange(i as int, m as int),
                max,
            ),
        decreases m - i,
    {
        let c = candidates[i];
        proof {
            assert(candidates@.subrange(i as int, m as int).drop_first() =~= candidates@.subrange(
                i as int + 1,
                m as int,
            ));
            assert(candidates@.subrange(i as int, m as int)[0] == candidates@[i as int]);
        }
        if c.in_range {
            slot = c.x;
            if next_dy * c.derivative_sign >= 0 {
                out.push(Intersection { x: c.x, direction: next_dy });
                next_dy = -next_dy;
            }
        }
        i += 1;
    }
    proof {
        if i < m {
            assert(out@.len() >= max);
        } else {
            assert(candidates@.subrange(i as int, m as int) =~= Seq::<
                CrossingCandidate,
            >::empty());
        }
        assert(run_candidates(st1, candidates@, max) == (out@, next_dy as int, slot));
    }
    let ghost st2 = run_candidates(st1, candidates@, max);
    let n = ys.len();
    if ys[n - 1] == y {
        if next_dy > 0 && out.len() > 0 {
            let popped = out.pop();
            match popped {
                Some(e) => {
                    if out.len() == 0 {
                        slot = e.x;
                    }
                },
                None => {},
            }
            next_dy = -1;
        }
        if falls_exec(ys) && out.len() < max_crossings {
            slot = x_end;
            if next_dy < 0 {
                out.push(Intersection { x: x_end, direction: -1 });
                next_dy = 1;
            }
        }
    }
    proof {
        assert((out@, next_dy as int, slot) == end_tie(st2, ys@, x_end, y, max));
    }
    let expected: i32 = if y >= ys[n - 1] {
        1
    } else {
        -1
    };
    if next_dy != expected {
        if out.len() > 0 {
            out.pop();
        } else {
            let sx = if end_closer {
                x_end
            } else {
                slot
            };
            out.push(Intersection { x: sx, direction: next_dy });
        }
    }
    proof {
        lemma_run_candidates_len(st1, candidates@, max);
    }
    out
}

/// The crossings of a quadratic edge with the line at `y`, decided from
/// its control y positions, the endpoint x positions, and the candidate
/// roots the scalar layer found (in ascending parameter order).  At
/// most two crossings are kept.
pub fn quadratic_crossings(
    ys: &Vec<i64>,
    x_start: i64,
    x_end: i64,
    y: i64,
    candidates: &Vec<CrossingCandidate>,
    end_closer: bool,
) -> (r: Vec<Intersection>)
    requires
        ys@.len() == 3,
        forall|j: int|
            0 <= j < candidates@.len() ==> -1 <= (#[trigger] candidates@[j]).derivative_sign <= 1,
    ensures
        r@ == crossings_spec(ys@, x_start, x_end, y, candidates@, end_closer, 2),
        r@.len() <= 2,
{
    crossings_exec(ys, x_start, x_end, y, candidates, end_closer, 2)
}

/// The crossings of a cubic edge with the line at `y`; at most three
/// crossings are kept.
pub fn cubic_crossings(
    ys: &Vec<i64>,
    x_start: i64,
    x_end: i64,
    y: i64,
    candidates: &Vec<CrossingCandidate>,
    end_closer: bool,
) -> (r: Vec<Intersection>)
    requires
        ys@.len() == 4,
        forall|j: int|
            0 <= j < candidates@.len() ==> -1 <= (#[trigger] candidates@[j]).derivative_sign <= 1,
    ensures
        r@ == crossings_spec(ys@, x_start, x_end, y, candidates@, end_closer, 3),
        r@.len() <= 3,
{
    crossings_exec(ys, x_start, x_end, y, candidates, end_closer, 3)
}

} // verus!
