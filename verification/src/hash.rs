//! Modular-hash gadget: maps a field witness `x` to the `l`-bit value
//! `((x^3 mod p) mod 2^l)`, the WNN's deterministic pseudo-hash.
//!
//! Off-circuit the prover computes the hash directly; in-circuit it is
//! pinned down by witnessing both divisions: a quotient witness for the
//! cubic relation `x^3 = q * p + r`, a range check `r < p`, a second
//! quotient for `r = q' * 2^l + y`, and a range check `y < 2^l`. The
//! soundness lemma below shows those constraints admit only the true hash
//! value. When `p <= 2^l` the second reduction changes nothing.

use vstd::prelude::*;
use vstd::arithmetic::power2::{
    lemma2_to64, lemma_pow2_adds, lemma_pow2_pos, lemma_pow2_strictly_increases, pow2,
};
use vstd::arithmetic::div_mod::{
    lemma_fundamental_div_mod, lemma_fundamental_div_mod_converse_mod, lemma_div_nonincreasing,
    lemma_mod_division_less_than_divisor, lemma_small_mod,
};
use vstd::arithmetic::mul::lemma_mul_is_commutative;

use crate::params::HashFunctionConfig;

verus! {

/// The hash value: `((x^3 mod p) mod 2^l)`.
pub open spec fn spec_hash(x: nat, p: nat, l: nat) -> nat
    recommends
        p >= 1,
{
    ((x * x * x) % p) % pow2(l)
}

/// The witnesses one hash evaluation assigns: the cube's quotient and
/// remainder modulo `p`, and the remainder's quotient and `l`-bit
/// remainder, which is the hash output.
#[derive(Debug, Clone, Copy)]
pub struct HashWitness {
    /// Quotient witness of the cubic relation, `x^3 / p`.
    pub quotient: u128,
    /// `x^3 mod p`, range-checked below `p`.
    pub mod_p: u64,
    /// Quotient witness of the second reduction, `(x^3 mod p) / 2^l`.
    pub quotient_l: u64,
    /// The hash output, range-checked below `2^l`.
    pub hash: u64,
}

impl HashWitness {
    /// The gadget's constraints over the input `x`: the two euclidean
    /// relations and the two range checks.
    pub open spec fn constraints(self, x: u64, config: HashFunctionConfig) -> bool {
        &&& x as int * x as int * x as int == self.quotient as int * config.p as int
            + self.mod_p as int
        &&& (self.mod_p as int) < config.p as int
        &&& self.mod_p as int == self.quotient_l as int * pow2(config.l as nat) as int
            + self.hash as int
        &&& (self.hash as nat) < pow2(config.l as nat)
    }
}

/// The cube of a value below `2^n`, `n <= 42`, stays below `2^126` and so
/// fits the prover's 128-bit intermediate arithmetic.
proof fn lemma_cube_bound(x: nat, n: nat)
    requires
        x < pow2(n),
        n <= 42,
    ensures
        x * x < 0x100000000000000000000000000000000,
        x * x * x < 0x100000000000000000000000000000000,
        x * x * x < pow2(126),
{
    lemma_pow2_adds(n, n);
    lemma_pow2_adds(n + n, n);
    assert(x * x < pow2(n) * pow2(n)) by (nonlinear_arith)
        requires
            x < pow2(n),
            pow2(n) >= 1,
    {
        lemma_pow2_pos(n);
    }
    assert(x * x * x < pow2(n + n) * pow2(n)) by (nonlinear_arith)
        requires
            x * x < pow2(n + n),
            x < pow2(n),
            pow2(n) >= 1,
            pow2(n + n) >= 1,
    {
        lemma_pow2_pos(n);
        lemma_pow2_pos(n + n);
    }
    if n + n < 84 {
        lemma_pow2_strictly_increases(n + n, 84);
    }
    if n + n + n < 126 {
        lemma_pow2_strictly_increases(n + n + n, 126);
    }
    lemma_pow2_strictly_increases(84, 126);
    assert(pow2(126) < 0x100000000000000000000000000000000) by {
        lemma_pow2_adds(64, 64);
        lemma2_to64();
        lemma_pow2_strictly_increases(126, 128);
    };
}

/// Evaluates the hash off-circuit, returning every witness the in-circuit
/// constraints need: quotients, the intermediate remainder, and the hash.
pub fn hash(x: u64, config: &HashFunctionConfig) -> (r: HashWitness)
    requires
        config.wf(),
        (x as nat) < pow2(config.n_bits as nat),
    ensures
        r.constraints(x, *config),
        r.hash as nat == spec_hash(x as nat, config.p as nat, config.l as nat),
{
    proof {
        lemma_cube_bound(x as nat, config.n_bits as nat);
    }
    let x128: u128 = x as u128;
    let cube: u128 = x128 * x128 * x128;
    let p128: u128 = config.p as u128;
    let quotient: u128 = cube / p128;
    let mod_p128: u128 = cube % p128;
    let m: u64 = crate::utils::pow2_u64(config.l);
    proof {
        lemma_fundamental_div_mod(cube as int, p128 as int);
        lemma_mod_division_less_than_divisor(cube as int, p128 as int);
        lemma_pow2_pos(config.l as nat);
        lemma_fundamental_div_mod(mod_p128 as int, m as int);
        lemma_div_nonincreasing(mod_p128 as int, m as int);
        lemma_mod_division_less_than_divisor(mod_p128 as int, m as int);
    }
    // The remainder modulo p fits u64 because p does.
    let mod_p: u64 = mod_p128 as u64;
    let quotient_l: u64 = (mod_p128 / (m as u128)) as u64;
    let y: u64 = (mod_p128 % (m as u128)) as u64;
    proof {
        lemma_mul_is_commutative(p128 as int, quotient as int);
        lemma_mul_is_commutative(m as int, quotient_l as int);
    }
    HashWitness { quotient, mod_p, quotient_l, hash: y }
}

/// The hash always lies in `[0, 2^l)`.
pub proof fn lemma_hash_output_in_range(x: nat, p: nat, l: nat)
    requires
        p >= 1,
    ensures
        spec_hash(x, p, l) < pow2(l),
{
    lemma_pow2_pos(l);
    lemma_mod_division_less_than_divisor(((x * x * x) % p) as int, pow2(l) as int);
}

/// The hash is deterministic: it depends on nothing but its input and the
/// model parameters, so two evaluations on the same input agree.
pub proof fn lemma_hash_deterministic(x: nat, p: nat, l: nat, y1: nat, y2: nat)
    requires
        y1 == spec_hash(x, p, l),
        y2 == spec_hash(x, p, l),
    ensures
        y1 == y2,
{
}

/// Soundness of the constraint translation: any witness assignment that
/// satisfies the hash gadget's constraints carries the true hash value.
pub proof fn lemma_hash_constraints_sound(x: u64, config: HashFunctionConfig, w: HashWitness)
    requires
        config.p >= 1,
        w.constraints(x, config),
        w.quotient >= 0,
    ensures
        w.hash as nat == spec_hash(x as nat, config.p as nat, config.l as nat),
{
    let cube = x as int * x as int * x as int;
    let l = config.l as nat;
    lemma_pow2_pos(l);
    lemma_fundamental_div_mod_converse_mod(
        cube,
        config.p as int,
        w.quotient as int,
        w.mod_p as int,
    );
    assert(w.mod_p as int == cube % (config.p as int));
    lemma_fundamental_div_mod_converse_mod(
        w.mod_p as int,
        pow2(l) as int,
        w.quotient_l as int,
        w.hash as int,
    );
}

/// When the parameters meet the documented side condition `p <= 2^l`, the
/// second reduction is the identity and the hash is exactly `x^3 mod p`.
pub proof fn lemma_hash_single_reduction(x: nat, p: nat, l: nat)
    requires
        1 <= p <= pow2(l),
    ensures
        spec_hash(x, p, l) == (x * x * x) % p,
{
    lemma_mod_division_less_than_divisor((x * x * x) as int, p as int);
    lemma_small_mod(((x * x * x) % p) as nat, pow2(l));
}

} // verus!
