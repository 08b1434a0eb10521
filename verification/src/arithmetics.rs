//! General numeric helpers over encoded scalars.

use vstd::prelude::*;

verus! {

/// The smaller of two encoded scalars.
pub fn min(a: i64, b: i64) -> (r: i64)
    ensures
        r == if a < b { a } else { b },
{
    if a < b {
        a
    } else if b < a {
        b
    } else {
        a
    }
}

/// The larger of two encoded scalars.
pub fn max(a: i64, b: i64) -> (r: i64)
    ensures
        r == if a > b { a } else { b },
{
    if a > b {
        a
    } else if b > a {
        b
    } else {
        a
    }
}

/// Holds when `r` is one of `a`, `b`, `c` and the remaining two values
/// surround it.
pub open spec fn is_median(r: i64, a: i64, b: i64, c: i64) -> bool {
    ||| (r == a && (b <= r <= c || c <= r <= b))
    ||| (r == b && (a <= r <= c || c <= r <= a))
    ||| (r == c && (a <= r <= b || b <= r <= a))
}

/// The middle one of three encoded scalars.
pub fn median(a: i64, b: i64, c: i64) -> (r: i64)
    ensures
        is_median(r, a, b, c),
{
    max(min(a, b), min(max(a, b), c))
}

/// `n` clamped to `[0, b]`.
pub fn clamp_0_b(n: i64, b: i64) -> (r: i64)
    ensures
        r == if n < 0 { 0 } else if n > b { b } else { n },
{
    if n < 0 {
        0
    } else if n > b {
        b
    } else {
        n
    }
}

/// `n` clamped to `[a, b]`.
pub fn clamp_a_b(n: i64, a: i64, b: i64) -> (r: i64)
    ensures
        r == if n < a { a } else if n > b { b } else { n },
{
    if n < a {
        a
    } else if n > b {
        b
    } else {
        n
    }
}

/// The sign of an encoded scalar: `1`, `-1` or `0`.
pub fn sign(n: i64) -> (r: i64)
    ensures
        r == if n > 0 { 1i64 } else if n < 0 { -1i64 } else { 0i64 },
{
    if n > 0 {
        1
    } else if n < 0 {
        -1
    } else {
        0
    }
}

/// The sign of an encoded scalar with zero counted as positive.
pub fn non_zero_sign(n: i64) -> (r: i64)
    ensures
        r == if n >= 0 { 1i64 } else { -1i64 },
{
    if n >= 0 {
        1
    } else {
        -1
    }
}

} // verus!
