//! Horizontal-line crossings with cumulative winding and fill rules.

use vstd::prelude::*;

verus! {

use vstd::pervasive::VecAdditionalExecFns;

/// How a winding number is read as inside/outside.
#[derive(Clone, Copy, PartialEq, Eq, Structural, Debug)]
pub enum FillRule {
    NonZero,
    Odd,
    Positive,
    Negative,
}

/// What a winding total means under each fill rule.
pub open spec fn fill_rule_spec(winding: int, fill_rule: FillRule) -> bool {
    match fill_rule {
        FillRule::NonZero => winding != 0,
        FillRule::Odd => winding % 2 != 0,
        FillRule::Positive => winding > 0,
        FillRule::Negative => winding < 0,
    }
}

/// Reads a winding total as inside/outside under `fill_rule`.
pub fn interpret_fill_rule(intersections: i32, fill_rule: FillRule) -> (r: bool)
    ensures
        r == fill_rule_spec(intersections as int, fill_rule),
{
    match fill_rule {
        FillRule::NonZero => intersections != 0,
        FillRule::Odd => intersections % 2 != 0,
        FillRule::Positive => intersections > 0,
        FillRule::Negative => intersections < 0,
    }
}

/// One crossing of an outline with a horizontal line: the crossing's
/// encoded x position and the direction (`+1` upward, `-1` downward) in
/// which the outline passes the line there.
#[derive(Clone, Copy, PartialEq, Eq, Structural, Debug)]
pub struct Intersection {
    pub x: i64,
    pub direction: i32,
}

impl Intersection {
    pub fn new(x: i64, direction: i32) -> (r: Self)
        ensures
            r.x == x,
            r.direction == direction,
    {
        Self { x, direction }
    }
}

/// What one crossing adds to the winding total left of `q`.
pub open spec fn winding_part(e: Intersection, q: int) -> int {
    if e.x <= q {
        e.direction as int
    } else {
        0
    }
}

/// What one crossing adds to the crossing count left of `q`.
pub open spec fn count_part(e: Intersection, q: int) -> int {
    if e.x <= q {
        1
    } else {
        0
    }
}

/// The winding total at `q`: the sum of the directions of all crossings
/// at or left of `q`.
pub open spec fn winding_at(s: Seq<Intersection>, q: int) -> int
    decreases s.len(),
{
    if s.len() == 0 {
        0
    } else {
        winding_at(s.drop_last(), q) + winding_part(s.last(), q)
    }
}

/// The number of crossings at or left of `q`.
pub open spec fn count_at(s: Seq<Intersection>, q: int) -> int
    decreases s.len(),
{
    if s.len() == 0 {
        0
    } else {
        count_at(s.drop_last(), q) + count_part(s.last(), q)
    }
}

/// The sum of the directions of the first `n` crossings.
pub open spec fn direction_prefix_sum(s: Seq<Intersection>, n: int) -> int
    decreases n,
{
    if n <= 0 {
        0
    } else {
        direction_prefix_sum(s, n - 1) + s[n - 1].direction as int
    }
}

/// Non-decreasing x positions.
pub open spec fn sorted_by_x(s: Seq<Intersection>) -> bool {
    forall|i: int, j: int| 0 <= i < j < s.len() ==> s[i].x <= s[j].x
}

/// Some crossing in `s` sits at x position `t`.
pub open spec fn x_present(s: Seq<Intersection>, t: i64) -> bool {
    exists|i: int| 0 <= i < s.len() && (#[trigger] s[i]).x == t
}

/// When entry `i` is the last one at its x position, its stored
/// direction is the winding total there and `i + 1` crossings lie at or
/// left of it.
pub open spec fn running_total_ok(v: Seq<Intersection>, raw: Seq<Intersection>, i: int) -> bool {
    (i + 1 == v.len() || v[i + 1].x > v[i].x) ==> v[i].direction as int == winding_at(
        raw,
        v[i].x as int,
    ) && count_at(raw, v[i].x as int) == i + 1
}

proof fn lemma_winding_update(s: Seq<Intersection>, j: int, e: Intersection, q: int)
    requires
        0 <= j < s.len(),
    ensures
        winding_at(s.update(j, e), q) == winding_at(s, q) - winding_part(s[j], q) + winding_part(
            e,
            q,
        ),
        count_at(s.update(j, e), q) == count_at(s, q) - count_part(s[j], q) + count_part(e, q),
    decreases s.len(),
{
    let t = s.update(j, e);
    if j == s.len() - 1 {
        assert(t.drop_last() =~= s.drop_last());
        assert(t.last() == e);
    } else {
        assert(t.drop_last() =~= s.drop_last().update(j, e));
        lemma_winding_update(s.drop_last(), j, e, q);
        assert(t.last() == s.last());
    }
}

proof fn lemma_winding_all_above(s: Seq<Intersection>, q: int)
    requires
        forall|j: int| 0 <= j < s.len() ==> s[j].x > q,
    ensures
        winding_at(s, q) == 0,
        count_at(s, q) == 0,
    decreases s.len(),
{
    if s.len() > 0 {
        lemma_winding_all_above(s.drop_last(), q);
    }
}

proof fn lemma_winding_gap(s: Seq<Intersection>, a: int, b: int)
    requires
        a <= b,
        forall|j: int| 0 <= j < s.len() ==> !(a < #[trigger] s[j].x <= b),
    ensures
        winding_at(s, b) == winding_at(s, a),
        count_at(s, b) == count_at(s, a),
    decreases s.len(),
{
    if s.len() > 0 {
        lemma_winding_gap(s.drop_last(), a, b);
    }
}

proof fn lemma_count_strict_at_element(s: Seq<Intersection>, j: int)
    requires
        0 <= j < s.len(),
    ensures
        count_at(s, s[j].x as int) >= count_at(s, s[j].x as int - 1) + 1,
    decreases s.len(),
{
    if j == s.len() - 1 {
        lemma_count_monotone(s.drop_last(), s[j].x as int - 1, s[j].x as int);
    } else {
        lemma_count_strict_at_element(s.drop_last(), j);
    }
}

proof fn lemma_count_monotone(s: Seq<Intersection>, p: int, q: int)
    requires
        p <= q,
    ensures
        count_at(s, p) <= count_at(s, q),
    decreases s.len(),
{
    if s.len() > 0 {
        lemma_count_monotone(s.drop_last(), p, q);
    }
}

proof fn lemma_count_gap_membership(s: Seq<Intersection>, t: int)
    requires
        count_at(s, t) > count_at(s, t - 1),
    ensures
        exists|j: int| 0 <= j < s.len() && s[j].x == t,
    decreases s.len(),
{
    if s.len() > 0 {
        let last = s.last();
        if last.x == t {
            assert(s[s.len() - 1].x == t);
        } else {
            assert(count_part(last, t) == count_part(last, t - 1));
            lemma_count_gap_membership(s.drop_last(), t);
            let j = choose|j: int| 0 <= j < s.drop_last().len() && s.drop_last()[j].x == t;
            assert(s[j].x == t);
        }
    }
}

proof fn lemma_prefix_sum_drop_last(s: Seq<Intersection>, n: int)
    requires
        0 <= n < s.len(),
    ensures
        direction_prefix_sum(s.drop_last(), n) == direction_prefix_sum(s, n),
    decreases n,
{
    if n > 0 {
        lemma_prefix_sum_drop_last(s, n - 1);
    }
}

proof fn lemma_prefix_is_winding(s: Seq<Intersection>, i: int)
    requires
        sorted_by_x(s),
        0 <= i < s.len(),
        i + 1 == s.len() || s[i + 1].x > s[i].x,
    ensures
        winding_at(s, s[i].x as int) == direction_prefix_sum(s, i + 1),
        count_at(s, s[i].x as int) == i + 1,
    decreases s.len(),
{
    if i + 1 == s.len() {
        lemma_prefix_below_total(s, s[i].x as int);
    } else {
        let d = s.drop_last();
        assert(s.last().x > s[i].x);
        lemma_prefix_is_winding(d, i);
        lemma_prefix_sum_drop_last(s, i + 1);
    }
}

proof fn lemma_count_nonneg(s: Seq<Intersection>, q: int)
    ensures
        count_at(s, q) >= 0,
    decreases s.len(),
{
    if s.len() > 0 {
        lemma_count_nonneg(s.drop_last(), q);
    }
}

proof fn lemma_count_zero_winding(s: Seq<Intersection>, q: int)
    requires
        count_at(s, q) == 0,
    ensures
        winding_at(s, q) == 0,
    decreases s.len(),
{
    if s.len() > 0 {
        lemma_count_nonneg(s.drop_last(), q);
        lemma_count_zero_winding(s.drop_last(), q);
    }
}

proof fn lemma_prefix_below_total(s: Seq<Intersection>, q: int)
    requires
        forall|j: int| 0 <= j < s.len() ==> s[j].x <= q,
    ensures
        winding_at(s, q) == direction_prefix_sum(s, s.len() as int),
        count_at(s, q) == s.len(),
    decreases s.len(),
{
    if s.len() > 0 {
        lemma_prefix_below_total(s.drop_last(), q);
        lemma_prefix_sum_drop_last(s, s.len() - 1);
    }
}

/// The crossings of an outline with one horizontal line, queried for the
/// winding total left of an x position.  Crossings are collected first;
/// `preprocess` then sorts them and replaces each direction with the
/// running winding total, so that a query is a single lookup from a
/// cached cursor.
pub struct Scanline {
    intersections: Vec<Intersection>,
    last_index: usize,
    raw: Ghost<Seq<Intersection>>,
}

impl Scanline {
    /// The crossings this scanline was given, in insertion order.
    pub closed spec fn crossings(self) -> Seq<Intersection> {
        self.raw@
    }

    /// The scanline is collecting crossings and may be preprocessed.
    pub closed spec fn building(self) -> bool {
        &&& self.intersections@ == self.raw@
        &&& self.raw@.len() <= 0x7FFF_FFFF
        &&& forall|j: int|
            0 <= j < self.raw@.len() ==> -1 <= (#[trigger] self.raw@[j]).direction <= 1
    }

    /// The stored crossings are sorted by x and carry running winding
    /// totals; queries are meaningful.
    pub closed spec fn processed(self) -> bool {
        let v = self.intersections@;
        let raw = self.raw@;
        &&& sorted_by_x(v)
        &&& v.len() == raw.len()
        &&& (v.len() == 0 || self.last_index < v.len())
        &&& forall|i: int| 0 <= i < v.len() ==> #[trigger] running_total_ok(v, raw, i)
        &&& forall|j: int| 0 <= j < raw.len() ==> x_present(v, (#[trigger] raw[j]).x)
    }

    /// The stored index `i` is the rightmost crossing at or left of `x`.
    pub closed spec fn located(self, i: int, x: int) -> bool {
        let v = self.intersections@;
        &&& 0 <= i < v.len()
        &&& v[i].x <= x
        &&& (i + 1 == v.len() || v[i + 1].x > x)
    }

    pub fn new() -> (r: Self)
        ensures
            r.building(),
            r.crossings() == Seq::<Intersection>::empty(),
    {
        Scanline { intersections: Vec::new(), last_index: 0, raw: Ghost(Seq::empty()) }
    }

    /// Drops every crossing; the scanline collects anew.
    pub fn clear(&mut self)
        ensures
            final(self).building(),
            final(self).crossings() == Seq::<Intersection>::empty(),
    {
        self.intersections.clear();
        self.raw = Ghost(Seq::empty());
    }

    /// Appends one crossing.  A direction is `-1`, `0` or `+1` — how the
    /// outline passes the horizontal line there — and the count is
    /// bounded so that winding totals fit the stored word.
    pub fn add_intersection(&mut self, intersection: Intersection)
        requires
            old(self).building(),
            -1 <= intersection.direction <= 1,
            old(self).crossings().len() < 0x7FFF_FFFF,
        ensures
            final(self).building(),
            final(self).crossings() == old(self).crossings().push(intersection),
    {
        self.intersections.push(intersection);
        self.raw = Ghost(self.raw@.push(intersection));
    }

    /// Sorts the crossings by x and replaces each direction with the
    /// winding total up to and including that crossing.  Afterwards every
    /// query answers from the collected crossings as a whole.
    pub fn preprocess(&mut self)
        requires
            old(self).building(),
        ensures
            final(self).processed(),
            final(self).crossings() == old(self).crossings(),
    {
        self.last_index = 0;
        let ghost raw = self.raw@;
        let n = self.intersections.len();
        if n > 0 {
            // Insertion sort on x, by adjacent swaps.
            let mut i: usize = 1;
            while i < n
                invariant
                    1 <= i <= n,
                    n == self.intersections.len(),
                    n == raw.len(),
                    n <= 0x7FFF_FFFF,
                    self.raw@ == raw,
                    self.last_index == 0,
                    forall|a: int, b: int|
                        0 <= a < b < i ==> self.intersections@[a].x <= self.intersections@[b].x,
                    forall|q: int| #[trigger] winding_at(self.intersections@, q) == winding_at(raw, q),
                    forall|q: int| #[trigger] count_at(self.intersections@, q) == count_at(raw, q),
                    forall|j: int|
                        0 <= j < n ==> -1 <= (#[trigger] self.intersections@[j]).direction <= 1,
                decreases n - i,
            {
                let mut j: usize = i;
                while j > 0 && self.intersections[j - 1].x > self.intersections[j].x
                    invariant
                        0 <= j <= i < n,
                        n == self.intersections.len(),
                        n == raw.len(),
                        n <= 0x7FFF_FFFF,
                        self.raw@ == raw,
                        self.last_index == 0,
                        forall|a: int, b: int|
                            0 <= a < b <= i && b != j ==> self.intersections@[a].x
                                <= self.intersections@[b].x,
                        forall|q: int| #[trigger] winding_at(self.intersections@, q) == winding_at(
                            raw,
                            q,
                        ),
                        forall|q: int| #[trigger] count_at(self.intersections@, q) == count_at(
                            raw,
                            q,
                        ),
                        forall|jj: int|
                            0 <= jj < n ==> -1 <= (#[trigger] self.intersections@[jj]).direction
                                <= 1,
                    decreases j,
                {
                    let a = self.intersections[j - 1];
                    let b = self.intersections[j];
                    let ghost before = self.intersections@;
                    self.intersections.set(j - 1, b);
                    self.intersections.set(j, a);
                    proof {
                        let mid = before.update(j - 1, b);
                        assert(self.intersections@ == mid.update(j as int, a));
                        assert forall|q: int| #[trigger] winding_at(self.intersections@, q)
                            == winding_at(raw, q) by {
                            lemma_winding_update(before, j - 1, b, q);
                            lemma_winding_update(mid, j as int, a, q);
                        }
                        assert forall|q: int| #[trigger] count_at(self.intersections@, q)
                            == count_at(raw, q) by {
                            lemma_winding_update(before, j - 1, b, q);
                            lemma_winding_update(mid, j as int, a, q);
                        }
                    }
                    j -= 1;
                }
                proof {
                    assert forall|a: int, b: int| 0 <= a < b <= i implies self.intersections@[a].x
                        <= self.intersections@[b].x by {
                        if b == j {
                            assert(j > 0 ==> self.intersections@[j - 1].x
                                <= self.intersections@[j as int].x);
                        }
                    }
                }
                i += 1;
            }
            // Replace directions by running winding totals.
            let ghost snap = self.intersections@;
            let mut total: i32 = 0;
            let mut k: usize = 0;
            while k < n
                invariant
                    k <= n,
                    n == self.intersections.len(),
                    n == raw.len(),
                    n == snap.len(),
                    n <= 0x7FFF_FFFF,
                    self.raw@ == raw,
                    self.last_index == 0,
                    total as int == direction_prefix_sum(snap, k as int),
                    -(k as int) <= total as int <= k as int,
                    forall|j: int| k <= j < n ==> self.intersections@[j] == snap[j],
                    forall|j: int|
                        0 <= j < k ==> (#[trigger] self.intersections@[j]).x == snap[j].x
                            && self.intersections@[j].direction as int == direction_prefix_sum(
                            snap,
                            j + 1,
                        ),
                    forall|j: int| 0 <= j < n ==> -1 <= (#[trigger] snap[j]).direction <= 1,
                decreases n - k,
            {
                let e = self.intersections[k];
                proof {
                    assert(self.intersections@[k as int] == snap[k as int]);
                    assert(-1 <= snap[k as int].direction <= 1);
                }
                total = total + e.direction;
                self.intersections.set(k, Intersection { x: e.x, direction: total });
                k += 1;
            }
            proof {
                let v = self.intersections@;
                assert(sorted_by_x(snap));
                assert forall|a: int, b: int| 0 <= a < b < v.len() implies v[a].x <= v[b].x by {
                    assert(snap[a].x <= snap[b].x);
                }
                assert forall|i2: int| 0 <= i2 < v.len() implies #[trigger] running_total_ok(
                    v,
                    raw,
                    i2,
                ) by {
                    if i2 + 1 == v.len() || v[i2 + 1].x > v[i2].x {
                        lemma_prefix_is_winding(snap, i2);
                        assert(winding_at(snap, snap[i2].x as int) == winding_at(
                            raw,
                            snap[i2].x as int,
                        ));
                        assert(count_at(snap, snap[i2].x as int) == count_at(
                            raw,
                            snap[i2].x as int,
                        ));
                    }
                }
                assert forall|j: int| 0 <= j < raw.len() implies x_present(
                    v,
                    (#[trigger] raw[j]).x,
                ) by {
                    lemma_count_strict_at_element(raw, j);
                    let t = raw[j].x as int;
                    assert(count_at(snap, t) > count_at(snap, t - 1));
                    lemma_count_gap_membership(snap, t);
                    let w = choose|w: int| 0 <= w < snap.len() && snap[w].x == t;
                    assert(0 <= w < v.len() && v[w].x == raw[j].x);
                }
            }
        }
    }

    proof fn lemma_cursor(&self, i: int, x: i64)
        requires
            self.processed(),
            self.located(i, x as int),
        ensures
            winding_at(self.crossings(), x as int) == self.intersections@[i].direction as int,
            count_at(self.crossings(), x as int) == i + 1,
    {
        let v = self.intersections@;
        let raw = self.raw@;
        assert(running_total_ok(v, raw, i));
        assert(v[i].direction as int == winding_at(raw, v[i].x as int) && count_at(
            raw,
            v[i].x as int,
        ) == i + 1);
        assert forall|j: int| 0 <= j < raw.len() implies !((v[i].x as int) < #[trigger] raw[j].x
            <= x as int) by {
            if (v[i].x as int) < raw[j].x <= x as int {
                assert(x_present(v, raw[j].x));
                let w = choose|w: int| 0 <= w < v.len() && (#[trigger] v[w]).x == raw[j].x;
                assert(w > i) by {
                    if w <= i {
                        assert(v[w].x <= v[i].x);
                    }
                }
                assert(v[i + 1].x <= v[w].x);
                assert(false);
            }
        }
        lemma_winding_gap(raw, v[i].x as int, x as int);
    }

    proof fn lemma_before_first(&self, x: i64)
        requires
            self.processed(),
            self.intersections@.len() == 0 || self.intersections@[0].x > x,
        ensures
            winding_at(self.crossings(), x as int) == 0,
            count_at(self.crossings(), x as int) == 0,
    {
        let v = self.intersections@;
        let raw = self.raw@;
        assert forall|j: int| 0 <= j < raw.len() implies (#[trigger] raw[j]).x > x by {
            assert(x_present(v, raw[j].x));
            let w = choose|w: int| 0 <= w < v.len() && (#[trigger] v[w]).x == raw[j].x;
            assert(v[0].x <= v[w].x);
        }
        lemma_winding_all_above(raw, x as int);
    }

    /// Moves the cached cursor to `x`, searching outward from the last
    /// query position.  Answers `Some(i)` when `i + 1` crossings lie at
    /// or left of `x`, `None` when none does.
    #[verifier::rlimit(60)]
    pub fn move_to(&mut self, x: i64) -> (r: Option<usize>)
        requires
            old(self).processed(),
        ensures
            final(self).processed(),
            final(self).crossings() == old(self).crossings(),
            match r {
                Some(i) => i + 1 == count_at(old(self).crossings(), x as int) && i < old(
                    self,
                ).crossings().len() && final(self).located(i as int, x as int),
                None => count_at(old(self).crossings(), x as int) == 0,
            },
    {
        let n = self.intersections.len();
        if n == 0 {
            return None;
        }
        let ghost orig = *self;
        let mut index = self.last_index;
        if x < self.intersections[index].x {
            loop
                invariant_except_break
                    *self == orig,
                    orig == *old(self),
                    orig.processed(),
                    n == self.intersections.len(),
                    0 < n,
                    index < n,
                    x < self.intersections@[index as int].x,
                ensures
                    *self == orig,
                    index < n,
                    n == self.intersections.len(),
                    x >= self.intersections@[index as int].x,
                    x < self.intersections@[index as int + 1].x,
                decreases index,
            {
                if index == 0 {
                    self.last_index = 0;
                    proof {
                        self.lemma_before_first(x);
                    }
                    return None;
                }
                index -= 1;
                if x >= self.intersections[index].x {
                    break;
                }
            }
        } else {
            while index + 1 < n && x >= self.intersections[index + 1].x
                invariant
                    *self == orig,
                    orig == *old(self),
                    orig.processed(),
                    n == self.intersections.len(),
                    0 < n,
                    index < n,
                    x >= self.intersections@[index as int].x,
                decreases n - index,
            {
                index += 1;
            }
        }
        self.last_index = index;
        proof {
            assert(self.located(index as int, x as int));
            self.lemma_cursor(index as int, x);
        }
        Some(index)
    }

    /// The number of crossings at or left of `x`.
    #[verifier::rlimit(60)]
    pub fn count_intersections(&mut self, x: i64) -> (r: usize)
        requires
            old(self).processed(),
        ensures
            final(self).processed(),
            final(self).crossings() == old(self).crossings(),
            r as int == count_at(old(self).crossings(), x as int),
    {
        match self.move_to(x) {
            Some(index) => {
                let m = self.intersections.len();
                proof {
                    assert(index < m);
                }
                index + 1
            },
            None => 0,
        }
    }

    /// The winding total at `x`: the directions of every crossing at or
    /// left of `x`, summed.
    pub fn sum_intersections(&mut self, x: i64) -> (r: i32)
        requires
            old(self).processed(),
        ensures
            final(self).processed(),
            final(self).crossings() == old(self).crossings(),
            r as int == winding_at(old(self).crossings(), x as int),
    {
        match self.move_to(x) {
            Some(index) => {
                proof {
                    self.lemma_cursor(index as int, x);
                }
                self.intersections[index].direction
            },
            None => {
                proof {
                    lemma_count_zero_winding(self.raw@, x as int);
                }
                0
            },
        }
    }

    /// Whether the point at `x` lies inside under `fill_rule`.  The
    /// answer is a function of the collected crossings and `x` alone, so
    /// repeated queries at one position always agree, also exactly on a
    /// boundary.
    pub fn filled(&mut self, x: i64, fill_rule: FillRule) -> (r: bool)
        requires
            old(self).processed(),
        ensures
            final(self).processed(),
            final(self).crossings() == old(self).crossings(),
            r == fill_rule_spec(winding_at(old(self).crossings(), x as int), fill_rule),
    {
        let w = self.sum_intersections(x);
        interpret_fill_rule(w, fill_rule)
    }

    /// The winding total at `x`, computed without touching the cached
    /// cursor, so that two scanlines can be read side by side.
    pub fn winding_lookup(&self, x: i64) -> (r: i32)
        requires
            self.processed(),
        ensures
            r as int == winding_at(self.crossings(), x as int),
    {
        let n = self.intersections.len();
        if n == 0 {
            proof {
                lemma_count_zero_winding(self.raw@, x as int);
            }
            return 0;
        }
        if x < self.intersections[0].x {
            proof {
                self.lemma_before_first(x);
            }
            return 0;
        }
        let mut index: usize = 0;
        while index + 1 < n && self.intersections[index + 1].x <= x
            invariant
                self.processed(),
                n == self.intersections.len(),
                0 < n,
                index < n,
                self.intersections@[index as int].x <= x,
            decreases n - index,
        {
            index += 1;
        }
        proof {
            assert(self.located(index as int, x as int));
            self.lemma_cursor(index as int, x);
        }
        self.intersections[index].direction
    }
}

/// One stretch of a row between two crossings: the half-open interval
/// `[x_from, x_to)` in encoded x, and whether two scanlines' fill states
/// agree throughout it.
#[derive(Clone, Copy, PartialEq, Eq, Structural, Debug)]
pub struct AgreementSpan {
    pub x_from: i64,
    pub x_to: i64,
    pub agree: bool,
}

/// Some entry of `s` holds the value `t`.
pub open spec fn value_present(s: Seq<i64>, t: i64) -> bool {
    exists|i: int| 0 <= i < s.len() && #[trigger] s[i] == t
}

/// Whether the point at `x` is filled on `s` under `fill_rule`.
pub open spec fn filled_at(s: Seq<Intersection>, x: int, fill_rule: FillRule) -> bool {
    fill_rule_spec(winding_at(s, x), fill_rule)
}

/// A fill query is a function of the collected crossings and the
/// position alone, so repeated queries at one x always answer alike,
/// also exactly on a boundary: any two results that meet `filled`'s
/// contract on the same crossings are equal.
pub proof fn lemma_filled_repeatable(
    s: Seq<Intersection>,
    x: int,
    fill_rule: FillRule,
    r1: bool,
    r2: bool,
)
    requires
        r1 == fill_rule_spec(winding_at(s, x), fill_rule),
        r2 == fill_rule_spec(winding_at(s, x), fill_rule),
    ensures
        r1 == r2,
{
}

/// The spans `r` tile `[x_from, x_to)` without gaps, in order.
pub open spec fn spans_tile(r: Seq<AgreementSpan>, x_from: i64, x_to: i64) -> bool {
    &&& (r.len() == 0 ==> x_from == x_to)
    &&& (r.len() > 0 ==> r[0].x_from == x_from && r[r.len() - 1].x_to == x_to)
    &&& forall|k: int| 0 <= k < r.len() - 1 ==> (#[trigger] r[k]).x_to == r[k + 1].x_from
    &&& forall|k: int| 0 <= k < r.len() ==> (#[trigger] r[k]).x_from < r[k].x_to
}

/// Each span's flag tells exactly whether the two scanlines' fill
/// states agree at every position inside it.
pub open spec fn spans_agree(
    r: Seq<AgreementSpan>,
    a: Seq<Intersection>,
    b: Seq<Intersection>,
    fill_rule: FillRule,
) -> bool {
    forall|k: int, x: int|
        #![trigger r[k], filled_at(a, x, fill_rule)]
        0 <= k < r.len() && r[k].x_from <= x < r[k].x_to ==> ((filled_at(a, x, fill_rule)
            == filled_at(b, x, fill_rule)) == r[k].agree)
}

/// Splits `[x_from, x_to)` at every crossing of either scanline and
/// reports, stretch by stretch, whether the two lines' fill states
/// agree there.  Summing the lengths of the agreeing stretches measures
/// how much of the row the two lines fill alike.
pub fn overlap(
    a: &Scanline,
    b: &Scanline,
    x_from: i64,
    x_to: i64,
    fill_rule: FillRule,
) -> (r: Vec<AgreementSpan>)
    requires
        a.processed(),
        b.processed(),
        x_from <= x_to,
    ensures
        spans_tile(r@, x_from, x_to),
        spans_agree(r@, a.crossings(), b.crossings(), fill_rule),
{
    let ghost araw = a.crossings();
    let ghost braw = b.crossings();
    // Collect every stored crossing position strictly inside the range.
    let mut bps: Vec<i64> = Vec::new();
    let na = a.intersections.len();
    let mut i: usize = 0;
    while i < na
        invariant
            i <= na,
            na == a.intersections.len(),
            forall|w: int| 0 <= w < bps@.len() ==> x_from < #[trigger] bps@[w] < x_to,
            forall|j: int|
                0 <= j < i && x_from < (#[trigger] a.intersections@[j]).x < x_to ==> value_present(
                    bps@,
                    a.intersections@[j].x,
                ),
        decreases na - i,
    {
        let xv = a.intersections[i].x;
        if x_from < xv && xv < x_to {
            let ghost ob = bps@;
            bps.push(xv);
            proof {
                assert forall|t: i64| value_present(ob, t) implies value_present(bps@, t) by {
                    let w = choose|w: int| 0 <= w < ob.len() && #[trigger] ob[w] == t;
                    assert(bps@[w] == t);
                }
                assert(bps@[bps@.len() - 1] == xv);
                assert(value_present(bps@, xv));
            }
        }
        i += 1;
    }
    let nb = b.intersections.len();
    let mut i2: usize = 0;
    while i2 < nb
        invariant
            i2 <= nb,
            nb == b.intersections.len(),
            na == a.intersections.len(),
            forall|w: int| 0 <= w < bps@.len() ==> x_from < #[trigger] bps@[w] < x_to,
            forall|j: int|
                0 <= j < na && x_from < (#[trigger] a.intersections@[j]).x < x_to ==> value_present(
                    bps@,
                    a.intersections@[j].x,
                ),
            forall|j: int|
                0 <= j < i2 && x_from < (#[trigger] b.intersections@[j]).x < x_to ==> value_present(
                    bps@,
                    b.intersections@[j].x,
                ),
        decreases nb - i2,
    {
        let xv = b.intersections[i2].x;
        if x_from < xv && xv < x_to {
            let ghost ob = bps@;
            bps.push(xv);
            proof {
                assert forall|t: i64| value_present(ob, t) implies value_present(bps@, t) by {
                    let w = choose|w: int| 0 <= w < ob.len() && #[trigger] ob[w] == t;
                    assert(bps@[w] == t);
                }
                assert(bps@[bps@.len() - 1] == xv);
                assert(value_present(bps@, xv));
            }
        }
        i2 += 1;
    }
    // Sort the split positions.
    let m = bps.len();
    if m > 1 {
        let mut si: usize = 1;
        while si < m
            invariant
                1 <= si <= m,
                m == bps.len(),
                na == a.intersections.len(),
                nb == b.intersections.len(),
                forall|p: int, q: int| 0 <= p < q < si ==> bps@[p] <= bps@[q],
                forall|w: int| 0 <= w < m ==> x_from < #[trigger] bps@[w] < x_to,
                forall|j: int|
                    0 <= j < na && x_from < (#[trigger] a.intersections@[j]).x
                        < x_to ==> value_present(bps@, a.intersections@[j].x),
                forall|j: int|
                    0 <= j < nb && x_from < (#[trigger] b.intersections@[j]).x
                        < x_to ==> value_present(bps@, b.intersections@[j].x),
            decreases m - si,
        {
            let mut k: usize = si;
            while k > 0 && bps[k - 1] > bps[k]
                invariant
                    0 <= k <= si < m,
                    m == bps.len(),
                    na == a.intersections.len(),
                    nb == b.intersections.len(),
                    forall|p: int, q: int| 0 <= p < q <= si && q != k ==> bps@[p] <= bps@[q],
                    forall|w: int| 0 <= w < m ==> x_from < #[trigger] bps@[w] < x_to,
                    forall|j: int|
                        0 <= j < na && x_from < (#[trigger] a.intersections@[j]).x
                            < x_to ==> value_present(bps@, a.intersections@[j].x),
                    forall|j: int|
                        0 <= j < nb && x_from < (#[trigger] b.intersections@[j]).x
                            < x_to ==> value_present(bps@, b.intersections@[j].x),
                decreases k,
            {
                let va = bps[k - 1];
                let vb = bps[k];
                let ghost before = bps@;
                bps.set(k - 1, vb);
                bps.set(k, va);
                proof {
                    assert forall|t: i64| value_present(before, t) implies value_present(
                        bps@,
                        t,
                    ) by {
                        let w = choose|w: int| 0 <= w < before.len() && #[trigger] before[w] == t;
                        if w == k - 1 {
                            assert(bps@[k as int] == t);
                        } else if w == k {
                            assert(bps@[k - 1] == t);
                        } else {
                            assert(bps@[w] == t);
                        }
                    }
                }
                k -= 1;
            }
            proof {
                assert forall|p: int, q: int| 0 <= p < q <= si implies bps@[p] <= bps@[q] by {
                    if q == k {
                        assert(k > 0 ==> bps@[k - 1] <= bps@[k as int]);
                    }
                }
            }
            si += 1;
        }
    }
    // Walk the splits left to right, emitting one span per stretch.
    let mut r: Vec<AgreementSpan> = Vec::new();
    let mut start = x_from;
    let mut idx: usize = 0;
    while idx < m
        invariant
            idx <= m,
            m == bps.len(),
            a.processed(),
            b.processed(),
            araw == a.crossings(),
            braw == b.crossings(),
            x_from <= start <= x_to,
            start < x_to || x_from == x_to,
            forall|p: int, q: int| 0 <= p < q < m ==> bps@[p] <= bps@[q],
            forall|w: int| 0 <= w < m ==> x_from < #[trigger] bps@[w] < x_to,
            forall|j: int|
                0 <= j < a.intersections@.len() && x_from < (#[trigger] a.intersections@[j]).x
                    < x_to ==> value_present(bps@, a.intersections@[j].x),
            forall|j: int|
                0 <= j < b.intersections@.len() && x_from < (#[trigger] b.intersections@[j]).x
                    < x_to ==> value_present(bps@, b.intersections@[j].x),
            forall|w: int| 0 <= w < idx ==> #[trigger] bps@[w] <= start,
            spans_tile(r@, x_from, start),
            spans_agree(r@, araw, braw, fill_rule),
        decreases m - idx,
    {
        let bp = bps[idx];
        if bp > start {
            let wa = a.winding_lookup(start);
            let wb = b.winding_lookup(start);
            let ag = interpret_fill_rule(wa, fill_rule) == interpret_fill_rule(wb, fill_rule);
            let span = AgreementSpan { x_from: start, x_to: bp, agree: ag };
            proof {
                lemma_span_constant(a, x_from, x_to, bps@, idx as int, start, bp as int);
                lemma_span_constant(b, x_from, x_to, bps@, idx as int, start, bp as int);
            }
            r.push(span);
            proof {
                assert forall|k: int, x: int|
                    #![trigger r@[k], filled_at(araw, x, fill_rule)]
                    0 <= k < r@.len() && r@[k].x_from <= x < r@[k].x_to implies ((filled_at(
                    araw,
                    x,
                    fill_rule,
                ) == filled_at(braw, x, fill_rule)) == r@[k].agree) by {
                    if k < r@.len() - 1 {
                        assert(r@[k] == r@.drop_last()[k]);
                    } else {
                        assert(winding_at(araw, x) == winding_at(araw, start as int));
                        assert(winding_at(braw, x) == winding_at(braw, start as int));
                    }
                }
            }
            start = bp;
        }
        idx += 1;
    }
    if start < x_to {
        let wa = a.winding_lookup(start);
        let wb = b.winding_lookup(start);
        let ag = interpret_fill_rule(wa, fill_rule) == interpret_fill_rule(wb, fill_rule);
        let span = AgreementSpan { x_from: start, x_to: x_to, agree: ag };
        proof {
            lemma_span_constant(a, x_from, x_to, bps@, bps@.len() as int, start, x_to as int);
            lemma_span_constant(b, x_from, x_to, bps@, bps@.len() as int, start, x_to as int);
        }
        r.push(span);
        proof {
            assert forall|k: int, x: int|
                #![trigger r@[k], filled_at(araw, x, fill_rule)]
                0 <= k < r@.len() && r@[k].x_from <= x < r@[k].x_to implies ((filled_at(
                araw,
                x,
                fill_rule,
            ) == filled_at(braw, x, fill_rule)) == r@[k].agree) by {
                if k < r@.len() - 1 {
                    assert(r@[k] == r@.drop_last()[k]);
                } else {
                    assert(winding_at(araw, x) == winding_at(araw, start as int));
                    assert(winding_at(braw, x) == winding_at(braw, start as int));
                }
            }
        }
    }
    r
}

/// Between two neighbouring split positions no crossing of `s` occurs,
/// so the winding total is constant on the stretch.
proof fn lemma_span_constant(
    s: &Scanline,
    x_from: i64,
    x_to: i64,
    bps: Seq<i64>,
    idx: int,
    start: i64,
    stop: int,
)
    requires
        s.processed(),
        x_from <= start,
        start < stop <= x_to,
        0 <= idx <= bps.len(),
        forall|p: int, q: int| 0 <= p < q < bps.len() ==> bps[p] <= bps[q],
        forall|w: int| 0 <= w < bps.len() ==> x_from < #[trigger] bps[w] < x_to,
        forall|j: int|
            0 <= j < s.intersections@.len() && x_from < (#[trigger] s.intersections@[j]).x
                < x_to ==> value_present(bps, s.intersections@[j].x),
        forall|w: int| 0 <= w < idx ==> #[trigger] bps[w] <= start,
        idx < bps.len() ==> bps[idx] >= stop,
        idx == bps.len() ==> stop <= x_to,
    ensures
        forall|x: int|
            start <= x < stop ==> #[trigger] winding_at(s.crossings(), x) == winding_at(
                s.crossings(),
                start as int,
            ),
{
    let raw = s.raw@;
    let v = s.intersections@;
    assert forall|x: int| start <= x < stop implies #[trigger] winding_at(s.crossings(), x)
        == winding_at(s.crossings(), start as int) by {
        assert forall|j: int| 0 <= j < raw.len() implies !((start as int) < #[trigger] raw[j].x
            <= x) by {
            if (start as int) < raw[j].x <= x {
                assert(x_present(v, raw[j].x));
                let w = choose|w: int| 0 <= w < v.len() && (#[trigger] v[w]).x == raw[j].x;
                assert(x_from < v[w].x < x_to);
                assert(value_present(bps, v[w].x));
                let u = choose|u: int| 0 <= u < bps.len() && #[trigger] bps[u] == v[w].x;
                assert(bps[u] > start);
                assert(u >= idx);
                assert(idx < bps.len());
                assert(bps[u] >= bps[idx]);
                assert(bps[u] >= stop);
                assert(false);
            }
        }
        lemma_winding_gap(raw, start as int, x);
    }
}

} // verus!
