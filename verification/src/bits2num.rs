//! Bit-composition gadget: turns an ordered sequence of boolean witnesses
//! into one field witness by the radix-2 running-sum chain
//! `value_{i+1} = value_i * 2 + bit_i`, one gate per step.
//!
//! Big-endian composition accumulates the bits left to right; little-endian
//! composition reverses them first and delegates. The inverse direction,
//! decomposing a value into its low bits, is also provided, together with
//! proofs that the two directions are inverses.

use vstd::prelude::*;
use vstd::arithmetic::power2::{
    lemma2_to64, lemma2_to64_rest, lemma_pow2_adds, lemma_pow2_pos, lemma_pow2_strictly_increases,
    pow2,
};
use vstd::arithmetic::div_mod::{
    lemma_div_denominator, lemma_div_multiples_vanish_fancy, lemma_mod_multiples_vanish,
    lemma_small_mod,
};

use crate::params::{Bits2NumConfig, ConfigurationError};
use crate::WITNESS_BIT_CAPACITY;

verus! {

/// Value of a bit sequence read big-endian: the first bit is the most
/// significant.
pub open spec fn be_value(s: Seq<bool>) -> nat
    decreases s.len(),
{
    if s.len() == 0 {
        0
    } else {
        2 * be_value(s.drop_last()) + (if s.last() {
            1nat
        } else {
            0nat
        })
    }
}

/// Value of a bit sequence read little-endian: the first bit is the least
/// significant.
pub open spec fn le_value(s: Seq<bool>) -> nat
    decreases s.len(),
{
    if s.len() == 0 {
        0
    } else {
        (if s[0] {
            1nat
        } else {
            0nat
        }) + 2 * le_value(s.skip(1))
    }
}

/// Bit `i` of the little-endian base-2 representation of `v`.
pub open spec fn bit_at(v: nat, i: nat) -> bool {
    (v / pow2(i)) % 2 == 1
}

/// The `n` low bits of `v`, least significant first.
pub open spec fn decompose_bits(v: nat, n: nat) -> Seq<bool> {
    Seq::new(n, |i: int| bit_at(v, i as nat))
}

/// A big-endian composition is bounded by two to the number of bits.
pub proof fn lemma_be_value_bound(s: Seq<bool>)
    ensures
        be_value(s) < pow2(s.len()),
    decreases s.len(),
{
    if s.len() == 0 {
        lemma2_to64();
    } else {
        lemma_be_value_bound(s.drop_last());
        lemma_pow2_adds(1, (s.len() - 1) as nat);
        lemma2_to64();
    }
}

/// Composing the reversed sequence big-endian gives the little-endian value.
pub proof fn lemma_be_value_reverse(s: Seq<bool>)
    ensures
        be_value(s.reverse()) == le_value(s),
    decreases s.len(),
{
    if s.len() == 0 {
        assert(s.reverse() =~= Seq::<bool>::empty());
    } else {
        let t = s.skip(1);
        lemma_be_value_reverse(t);
        assert(s.reverse().drop_last() =~= t.reverse());
        assert(s.reverse().last() == s[0]);
    }
}

/// The big-endian value of a sequence equals the little-endian value of its
/// reversal.
pub proof fn lemma_compose_be_is_reverse_le(s: Seq<bool>)
    ensures
        be_value(s) == le_value(s.reverse()),
{
    lemma_be_value_reverse(s.reverse());
    assert(s.reverse().reverse() =~= s);
}

/// A little-endian composition is bounded by two to the number of bits.
pub proof fn lemma_le_value_bound(s: Seq<bool>)
    ensures
        le_value(s) < pow2(s.len()),
{
    lemma_compose_be_is_reverse_le(s.reverse());
    assert(s.reverse().reverse() =~= s);
    lemma_be_value_bound(s.reverse());
}

/// Bit `i` of a little-endian composition is the `i`-th input bit.
pub proof fn lemma_le_value_bit_at(s: Seq<bool>, i: nat)
    requires
        i < s.len(),
    ensures
        bit_at(le_value(s), i) == s[i as int],
    decreases i,
{
    let v = le_value(s) as int;
    let b0: int = if s[0] {
        1
    } else {
        0
    };
    let rest = le_value(s.skip(1)) as int;
    if i == 0 {
        lemma2_to64();
        vstd::arithmetic::div_mod::lemma_div_basics(v);
        assert(v / pow2(0) as int == v);
        assert((2 * rest + b0) % 2 == b0 % 2) by {
            lemma_mod_multiples_vanish(rest, b0, 2);
        };
        lemma_small_mod(b0 as nat, 2);
    } else {
        lemma_le_value_bit_at(s.skip(1), (i - 1) as nat);
        assert(v / 2 == rest) by {
            lemma_div_multiples_vanish_fancy(rest, b0, 2);
        };
        lemma_pow2_adds(1, (i - 1) as nat);
        lemma2_to64();
        lemma_pow2_pos((i - 1) as nat);
        lemma_div_denominator(v, 2, pow2((i - 1) as nat) as int);
        assert(v / pow2(i) as int == rest / pow2((i - 1) as nat) as int);
    }
}

/// Round trip: decomposing a little-endian composition returns the bits.
pub proof fn lemma_decompose_compose(s: Seq<bool>)
    ensures
        decompose_bits(le_value(s), s.len()) == s,
{
    assert forall|i: int| 0 <= i < s.len() implies decompose_bits(le_value(s), s.len())[i] == s[i]
        by {
        lemma_le_value_bit_at(s, i as nat);
    };
    assert(decompose_bits(le_value(s), s.len()) =~= s);
}

/// Soundness of the running-sum translation: a sequence of cell values
/// obeying the composition gate on every row, from an initial zero, must
/// end in the big-endian value of the bits.
pub proof fn lemma_compose_chain_sound(bits: Seq<bool>, values: Seq<int>)
    requires
        values.len() == bits.len() + 1,
        values[0] == 0,
        forall|i: int|
            0 <= i < bits.len() ==> values[i + 1] == 2 * values[i] + (if bits[i] {
                1int
            } else {
                0int
            }),
    ensures
        values.last() == be_value(bits),
    decreases bits.len(),
{
    if bits.len() > 0 {
        assert forall|i: int| 0 <= i < bits.drop_last().len() implies values.drop_last()[i + 1]
            == 2 * values.drop_last()[i] + (if bits.drop_last()[i] {
            1int
        } else {
            0int
        }) by {
            assert(values[i + 1] == 2 * values[i] + (if bits[i] {
                1int
            } else {
                0int
            }));
        };
        lemma_compose_chain_sound(bits.drop_last(), values.drop_last());
        assert(values.last() == 2 * values[bits.len() - 1] + (if bits[bits.len() - 1] {
            1int
        } else {
            0int
        }));
    }
}

/// Composes `bits` big-endian into one witness value by the running-sum
/// chain `value_{i+1} = value_i * 2 + bit_i`.
///
/// Rejected as a configuration error when the number of bits differs from
/// the configured width, or the width exceeds the witness capacity.
pub fn convert_be(bits: &Vec<bool>, config: &Bits2NumConfig) -> (r: Result<
    u64,
    ConfigurationError,
>)
    ensures
        r is Ok <==> (bits@.len() == config.num_bit_size && config.num_bit_size
            <= WITNESS_BIT_CAPACITY),
        r matches Ok(v) ==> v as nat == be_value(bits@),
        bits@.len() != config.num_bit_size ==> r == Err::<u64, _>(
            ConfigurationError::WrongBitCount,
        ),
        bits@.len() == config.num_bit_size && config.num_bit_size > WITNESS_BIT_CAPACITY ==> r
            == Err::<u64, _>(ConfigurationError::BitWidthExceedsCapacity),
{
    let n = bits.len();
    if n != config.num_bit_size {
        return Err(ConfigurationError::WrongBitCount);
    }
    if n > WITNESS_BIT_CAPACITY as usize {
        return Err(ConfigurationError::BitWidthExceedsCapacity);
    }
    let mut acc: u64 = 0;
    let mut i: usize = 0;
    while i < n
        invariant
            i <= n == bits@.len() <= 64,
            acc as nat == be_value(bits@.take(i as int)),
        decreases n - i,
    {
        proof {
            lemma_be_value_bound(bits@.take(i as int));
            if (i as nat) < 63 {
                lemma_pow2_strictly_increases(i as nat, 63);
            }
            lemma2_to64_rest();
            assert(bits@.take(i + 1).drop_last() =~= bits@.take(i as int));
            assert(bits@.take(i + 1).last() == bits@[i as int]);
        }
        let b: u64 = if bits[i] {
            1
        } else {
            0
        };
        acc = acc * 2 + b;
        i = i + 1;
    }
    proof {
        assert(bits@.take(n as int) =~= bits@);
    }
    Ok(acc)
}

/// Composes `bits` little-endian: reverses them and delegates to the
/// big-endian chain.
pub fn convert_le(bits: &Vec<bool>, config: &Bits2NumConfig) -> (r: Result<
    u64,
    ConfigurationError,
>)
    ensures
        r is Ok <==> (bits@.len() == config.num_bit_size && config.num_bit_size
            <= WITNESS_BIT_CAPACITY),
        r matches Ok(v) ==> v as nat == le_value(bits@),
        bits@.len() != config.num_bit_size ==> r == Err::<u64, _>(
            ConfigurationError::WrongBitCount,
        ),
        bits@.len() == config.num_bit_size && config.num_bit_size > WITNESS_BIT_CAPACITY ==> r
            == Err::<u64, _>(ConfigurationError::BitWidthExceedsCapacity),
{
    let n = bits.len();
    let mut rev: Vec<bool> = Vec::new();
    let mut i: usize = 0;
    while i < n
        invariant
            i <= n == bits@.len(),
            rev@.len() == i,
            forall|j: int| 0 <= j < i ==> rev@[j] == bits@[n - 1 - j],
        decreases n - i,
    {
        rev.push(bits[n - 1 - i]);
        i = i + 1;
    }
    proof {
        assert(rev@ =~= bits@.reverse());
        lemma_be_value_reverse(bits@);
    }
    convert_be(&rev, config)
}

/// Decomposes a value into its `num_bits` low bits, least significant
/// first: the inverse of little-endian composition.
pub fn decompose_le(word: u64, num_bits: usize) -> (r: Vec<bool>)
    ensures
        r@ == decompose_bits(word as nat, num_bits as nat),
{
    let mut r: Vec<bool> = Vec::new();
    let mut w: u64 = word;
    let mut i: usize = 0;
    proof {
        lemma2_to64();
        assert(word as int / pow2(0) as int == word as int);
    }
    while i < num_bits
        invariant
            i <= num_bits,
            r@.len() == i,
            w as nat == word as nat / pow2(i as nat),
            forall|j: int| 0 <= j < i ==> r@[j] == bit_at(word as nat, j as nat),
        decreases num_bits - i,
    {
        r.push(w % 2 == 1);
        proof {
            lemma_pow2_adds(i as nat, 1);
            lemma2_to64();
            lemma_pow2_pos(i as nat);
            lemma_div_denominator(word as int, pow2(i as nat) as int, 2);
        }
        w = w / 2;
        i = i + 1;
    }
    proof {
        assert(r@ =~= decompose_bits(word as nat, num_bits as nat));
    }
    r
}

} // verus!
