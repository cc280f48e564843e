//! Ordering of similarity scores held as IEEE-754 binary32 bit patterns.
//!
//! The engine never does arithmetic on scalars: it stores and moves them as
//! their 32-bit patterns and only needs to know how two scores compare. The
//! comparison here is the numeric one: the two zeros are equal, and a NaN is
//! incomparable with everything, itself included.

use vstd::prelude::*;
use crate::types::Metric;

verus! {

/// The bit that carries the sign of a binary32 value.
pub const SIGN_BIT: u32 = 0x8000_0000u32;

/// The bit pattern of positive infinity: every larger magnitude is a NaN.
pub const INFINITY_BITS: u32 = 0x7f80_0000u32;

/// The bit pattern without its sign bit.
pub open spec fn magnitude(bits: u32) -> int {
    if bits >= SIGN_BIT {
        bits - SIGN_BIT
    } else {
        bits as int
    }
}

/// Whether the bit pattern is a NaN: all exponent bits set, fraction non-zero.
pub open spec fn is_nan(bits: u32) -> bool {
    magnitude(bits) > INFINITY_BITS
}

/// An integer that orders the non-NaN bit patterns as their values are
/// ordered. Both zeros map to 0.
pub open spec fn score_key(bits: u32) -> int {
    if bits >= SIGN_BIT {
        -magnitude(bits)
    } else {
        magnitude(bits)
    }
}

/// Whether score `a` ranks strictly before score `b` under `metric`: larger
/// first for cosine and dot product, smaller first for Euclidean distance.
/// A NaN on either side makes the two rank as equals.
pub open spec fn precedes(metric: Metric, a: u32, b: u32) -> bool {
    &&& !is_nan(a)
    &&& !is_nan(b)
    &&& if metric.spec_higher_is_better() {
        score_key(a) > score_key(b)
    } else {
        score_key(a) < score_key(b)
    }
}

/// Whether none of the scores is a NaN.
pub open spec fn all_comparable(scores: Seq<u32>) -> bool {
    forall|i: int| 0 <= i < scores.len() ==> !is_nan(#[trigger] scores[i])
}

/// Tells whether a bit pattern is a NaN.
pub fn score_is_nan(bits: u32) -> (r: bool)
    ensures
        r == is_nan(bits),
{
    let mag: u32 = if bits >= SIGN_BIT { bits - SIGN_BIT } else { bits };
    mag > INFINITY_BITS
}

/// Computes the ordering key of a bit pattern.
pub fn score_order_key(bits: u32) -> (r: i64)
    ensures
        r == score_key(bits),
{
    if bits >= SIGN_BIT {
        let mag: u32 = bits - SIGN_BIT;
        0i64 - (mag as i64)
    } else {
        bits as i64
    }
}

/// Decides whether score `a` ranks strictly before score `b` under `metric`.
pub fn score_precedes(metric: Metric, a: u32, b: u32) -> (r: bool)
    ensures
        r == precedes(metric, a, b),
{
    if score_is_nan(a) || score_is_nan(b) {
        false
    } else {
        let ka: i64 = score_order_key(a);
        let kb: i64 = score_order_key(b);
        if metric.higher_is_better() {
            ka > kb
        } else {
            ka < kb
        }
    }
}

} // verus!
