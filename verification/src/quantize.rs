//! Deterministic quantization of stored binarization thresholds.
//!
//! A model file stores thresholds as normalized values in `[0, 1]`; on
//! load each becomes the integer `clamp(ceil(255 * stored), 0, 256)`.
//! Ceiling is the right rounding because an 8-bit intensity satisfies
//! `intensity >= stored * 255` exactly when it satisfies
//! `intensity >= ceil(stored * 255)`. The clamp at 0 discards negative
//! stored values; the clamp at 256 marks a threshold no intensity can
//! reach. The stored value arrives here as an exact fraction
//! `num / den`, so the result is bit-exact whatever type the loader read.

use vstd::prelude::*;
use vstd::arithmetic::div_mod::{lemma_div_is_ordered, lemma_div_multiples_vanish_fancy};

verus! {

/// The quantized threshold value that no 8-bit intensity ever satisfies.
///
/// It is unreachable from stored values in `[0, 1]` (see
/// [`lemma_sentinel_unreachable`]) but kept defensively for out-of-range
/// model data.
pub const THRESHOLD_NEVER: u16 = 256;

/// `clamp(ceil(255 * num / den), 0, 256)` for a stored value `num / den`.
pub open spec fn spec_quantize(num: int, den: int) -> int
    recommends
        den > 0,
{
    if num <= 0 {
        0
    } else {
        let c = (255 * num + den - 1) / den;
        if c > 256 {
            256
        } else {
            c
        }
    }
}

/// Quantizes the stored threshold `num / den` to an integer threshold in
/// `[0, 256]`.
pub fn quantize_threshold(num: i64, den: u64) -> (r: u16)
    requires
        den >= 1,
    ensures
        r as int == spec_quantize(num as int, den as int),
        r <= 256,
{
    if num <= 0 {
        0
    } else {
        let n128: u128 = num as u128;
        let d128: u128 = den as u128;
        let c: u128 = (255 * n128 + d128 - 1) / d128;
        if c > 256 {
            256
        } else {
            c as u16
        }
    }
}

/// Stored values in `[0, 1]` never quantize to the 256 sentinel: the
/// largest reachable threshold is 255.
pub proof fn lemma_sentinel_unreachable(num: int, den: int)
    requires
        0 < den,
        num <= den,
    ensures
        spec_quantize(num, den) <= 255,
{
    if num > 0 {
        let a = 255 * num + den - 1;
        assert(a <= 256 * den - 1) by (nonlinear_arith)
            requires
                num <= den,
                den > 0,
                a == 255 * num + den - 1,
        ;
        lemma_div_is_ordered(a, 256 * den - 1, den);
        assert((256 * den - 1) / den == 255) by {
            assert(256 * den - 1 == den * 255 + (den - 1)) by (nonlinear_arith)
                requires
                    den > 0,
            ;
            lemma_div_multiples_vanish_fancy(255, den - 1, den);
        };
    }
}

} // verus!
