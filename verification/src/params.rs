//! Model parameters for the WNN circuit, the per-gadget configuration
//! records derived from them, and the configuration errors that reject
//! malformed parameters eagerly, before any synthesis is attempted.

use vstd::prelude::*;

verus! {

/// An invalid configuration, detected at construction time.
///
/// These are fatal and never retried; witness-dependent violations, by
/// contrast, surface only as circuit unsatisfiability.
#[derive(Clone, Copy, Debug, PartialEq, Eq, Structural)]
pub enum ConfigurationError {
    /// A bit sequence is longer than one witness value can carry.
    BitWidthExceedsCapacity,
    /// A gadget received a different number of bits than it was configured for.
    WrongBitCount,
    /// The hash-function parameters are out of range.
    InvalidHashConfig,
    /// The bloom-filter parameters are out of range or inconsistent.
    InvalidBloomConfig,
    /// A tensor's dimensions do not match the configured shape.
    ShapeMismatch,
    /// A binarization threshold lies outside `[0, 256]`.
    ThresholdOutOfRange,
    /// The input permutation is not a bijection on the binarized bits.
    MalformedPermutation,
}

/// Configuration of the bit-composition gadget: how many bits are joined
/// into a single witness value.
#[derive(Clone, Copy, Debug, PartialEq, Eq, Structural)]
pub struct Bits2NumConfig {
    pub num_bit_size: usize,
}

/// Parameters of the modular hash: modulus `p`, output bit length `l`,
/// and the width in bits `n_bits` of each hash input.
#[derive(Clone, Copy, Debug, PartialEq, Eq, Structural)]
pub struct HashFunctionConfig {
    pub p: u64,
    pub l: usize,
    pub n_bits: usize,
}

impl HashFunctionConfig {
    /// The parameter ranges under which the hash gadget is defined: a
    /// positive modulus, an output width that fits a witness value, and an
    /// input width whose cube fits the prover's intermediate arithmetic.
    pub open spec fn wf(self) -> bool {
        &&& 1 <= self.p
        &&& 1 <= self.l <= 63
        &&& 1 <= self.n_bits <= 42
    }

    /// Decides [`HashFunctionConfig::wf`] executably.
    pub fn check(&self) -> (r: bool)
        ensures
            r == self.wf(),
    {
        1 <= self.p && 1 <= self.l && self.l <= 63 && 1 <= self.n_bits && self.n_bits <= 42
    }
}

/// Parameters of the bloom-filter lookup: how many hash indices are drawn
/// from one hash output, and how many bits each index takes.
#[derive(Clone, Copy, Debug, PartialEq, Eq, Structural)]
pub struct BloomFilterConfig {
    pub n_hashes: usize,
    pub bits_per_hash: usize,
}

impl BloomFilterConfig {
    pub open spec fn wf(self) -> bool {
        &&& 1 <= self.n_hashes
        &&& 1 <= self.bits_per_hash < 64
    }

    /// Decides [`BloomFilterConfig::wf`] executably.
    pub fn check(&self) -> (r: bool)
        ensures
            r == self.wf(),
    {
        1 <= self.n_hashes && 1 <= self.bits_per_hash && self.bits_per_hash < 64
    }
}

/// The model parameters that fix one WNN circuit instance.
#[derive(Clone, Copy, Debug, PartialEq, Eq, Structural)]
pub struct WnnCircuitParams {
    /// Modulus of the modular hash.
    pub p: u64,
    /// Bit length of the hash output.
    pub l: usize,
    /// Number of bloom-filter indices drawn from one hash output.
    pub n_hashes: usize,
    /// Bits per bloom-filter index.
    pub bits_per_hash: usize,
    /// Bits joined into one hash input.
    pub bits_per_filter: usize,
}

impl WnnCircuitParams {
    /// All parameter ranges the pipeline relies on, including that the
    /// `n_hashes` indices of `bits_per_hash` bits each fit into the `l`-bit
    /// hash output.
    pub open spec fn wf(self) -> bool {
        &&& self.hash_function_config().wf()
        &&& self.bloom_filter_config().wf()
        &&& self.n_hashes * self.bits_per_hash <= self.l
    }

    /// The hash gadget's slice of these parameters.
    pub open spec fn hash_function_config(self) -> HashFunctionConfig {
        HashFunctionConfig { p: self.p, l: self.l, n_bits: self.bits_per_filter }
    }

    /// The bloom-filter gadget's slice of these parameters.
    pub open spec fn bloom_filter_config(self) -> BloomFilterConfig {
        BloomFilterConfig { n_hashes: self.n_hashes, bits_per_hash: self.bits_per_hash }
    }

    /// Decides [`WnnCircuitParams::wf`] executably.
    pub fn check(&self) -> (r: bool)
        ensures
            r == self.wf(),
    {
        let hash_ok = 1 <= self.p && 1 <= self.l && self.l <= 63 && 1 <= self.bits_per_filter
            && self.bits_per_filter <= 42;
        let bloom_ok = 1 <= self.n_hashes && 1 <= self.bits_per_hash && self.bits_per_hash < 64;
        if hash_ok && bloom_ok {
            // n_hashes * bits_per_hash <= l, phrased by division so that the
            // product cannot overflow.
            let fits = self.n_hashes <= self.l / self.bits_per_hash;
            proof {
                assert(fits == (self.n_hashes * self.bits_per_hash <= self.l))
                    by (nonlinear_arith)
                    requires
                        1 <= self.bits_per_hash,
                        self.l <= 63,
                        fits == (self.n_hashes as int <= self.l as int / self.bits_per_hash as int),
                ;
            }
            fits
        } else {
            false
        }
    }
}

} // verus!
