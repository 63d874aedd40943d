//! Small arithmetic utilities shared by the circuit gadgets: executable
//! powers of two, integer division, truncation, and the decomposition of a
//! word into fixed-width windows.

use vstd::prelude::*;
use vstd::arithmetic::power2::{
    lemma2_to64, lemma_pow2_adds, lemma_pow2_pos, lemma_pow2_strictly_increases, pow2,
};
use vstd::arithmetic::div_mod::{
    lemma_div_denominator, lemma_fundamental_div_mod_converse_div,
    lemma_fundamental_div_mod_converse_mod,
};

verus! {

/// `2^exp` as an executable `u64`.
pub fn pow2_u64(exp: usize) -> (r: u64)
    requires
        exp < 64,
    ensures
        r as nat == pow2(exp as nat),
{
    proof {
        lemma2_to64();
    }
    let mut r: u64 = 1;
    let mut i: usize = 0;
    while i < exp
        invariant
            i <= exp < 64,
            r as nat == pow2(i as nat),
        decreases exp - i,
    {
        proof {
            lemma_pow2_strictly_increases((i + 1) as nat, 64);
            lemma2_to64();
            assert(pow2((i + 1) as nat) == 2 * pow2(i as nat)) by {
                lemma_pow2_adds(1, i as nat);
            };
        }
        r = r * 2;
        i = i + 1;
    }
    r
}

/// The quotient of `x` by `divisor`, rounded towards zero.
///
/// The prover uses this to derive quotient witnesses for the modular-hash
/// gadget's division relation.
pub fn integer_division(x: u64, divisor: u64) -> (r: u64)
    requires
        divisor > 0,
    ensures
        r as int == x as int / divisor as int,
{
    x / divisor
}

/// Truncates a witness value to its 32 low bits.
pub fn to_u32(field_element: u64) -> (r: u32)
    ensures
        r as int == field_element as int % 0x1_0000_0000,
{
    (field_element % 0x1_0000_0000) as u32
}

/// Multiplies two sizes, reporting overflow instead of wrapping.
pub fn checked_mul_usize(a: usize, b: usize) -> (r: Option<usize>)
    ensures
        r is Some <==> a * b <= usize::MAX,
        r matches Some(v) ==> v == a * b,
{
    if b == 0 {
        Some(0)
    } else if a <= usize::MAX / b {
        proof {
            assert(a * b <= usize::MAX) by (nonlinear_arith)
                requires
                    b >= 1,
                    a <= usize::MAX as int / b as int,
            ;
        }
        Some(a * b)
    } else {
        proof {
            assert(a * b > usize::MAX) by (nonlinear_arith)
                requires
                    b >= 1,
                    a > usize::MAX as int / b as int,
            ;
        }
        None
    }
}

/// Splitting a flat index `q * d + r` with `r < d` recovers `q` and `r` by
/// division and remainder.
pub proof fn lemma_flat_index_decode(q: int, r: int, d: int)
    requires
        0 <= r < d,
        0 <= q,
    ensures
        (q * d + r) / d == q,
        (q * d + r) % d == r,
{
    lemma_fundamental_div_mod_converse_div(q * d + r, d, q, r);
    lemma_fundamental_div_mod_converse_mod(q * d + r, d, q, r);
}

/// Window `k` of `word`: bits `[k*window_num_bits, (k+1)*window_num_bits)`
/// of its little-endian base-2 representation, read as one integer.
pub open spec fn nth_window(word: int, k: int, window_num_bits: nat) -> int {
    (word / pow2((k as nat) * window_num_bits) as int) % pow2(window_num_bits) as int
}

/// Splits `word` into `num_windows` consecutive windows of
/// `window_num_bits` bits each, least-significant window first.
pub fn decompose_word(word: u64, num_windows: usize, window_num_bits: usize) -> (r: Vec<u64>)
    requires
        1 <= window_num_bits < 64,
    ensures
        r@.len() == num_windows,
        forall|k: int|
            0 <= k < num_windows ==> #[trigger] (r@[k] as int) == nth_window(
                word as int,
                k,
                window_num_bits as nat,
            ),
{
    let m = pow2_u64(window_num_bits);
    proof {
        lemma_pow2_pos(window_num_bits as nat);
        lemma2_to64();
        assert((0 as nat) * (window_num_bits as nat) == 0);
        assert(word as int / pow2(0) as int == word as int);
    }
    let mut r: Vec<u64> = Vec::new();
    let mut w: u64 = word;
    let mut i: usize = 0;
    while i < num_windows
        invariant
            i <= num_windows,
            r@.len() == i,
            1 <= window_num_bits < 64,
            m as nat == pow2(window_num_bits as nat),
            m >= 1,
            w as int == word as int / pow2((i as nat) * (window_num_bits as nat)) as int,
            forall|k: int|
                0 <= k < i ==> #[trigger] (r@[k] as int) == nth_window(
                    word as int,
                    k,
                    window_num_bits as nat,
                ),
        decreases num_windows - i,
    {
        r.push(w % m);
        proof {
            let wb = window_num_bits as nat;
            lemma_pow2_pos((i as nat) * wb);
            lemma_pow2_pos(wb);
            lemma_pow2_adds((i as nat) * wb, wb);
            lemma_div_denominator(word as int, pow2((i as nat) * wb) as int, pow2(wb) as int);
            assert(((i + 1) as nat) * wb == (i as nat) * wb + wb) by (nonlinear_arith);
        }
        w = w / m;
        i = i + 1;
    }
    r
}

} // verus!
