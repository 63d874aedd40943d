//! Bloom-filter membership gadget: a static boolean table installed once
//! at load time, probed in-circuit through a lookup argument — never by a
//! linear scan.
//!
//! The trained model's response tensor is flattened to one row per
//! (class, filter-input) pair. A full response for one hash output splits
//! the output into `n_hashes` windows of `bits_per_hash` bits and requires
//! every probed entry of the row to be set.

use vstd::prelude::*;
use vstd::arithmetic::power2::{lemma_pow2_pos, pow2};
use vstd::arithmetic::div_mod::lemma_mod_division_less_than_divisor;

use crate::params::{BloomFilterConfig, ConfigurationError};
use crate::utils::{decompose_word, nth_window};

verus! {

/// The response of one table row to one hash output: every one of the
/// `n_hashes` probed entries is set.
pub open spec fn spec_bloom_response(
    row: Seq<bool>,
    hash_value: int,
    config: BloomFilterConfig,
) -> bool {
    forall|k: int|
        0 <= k < config.n_hashes ==> row[nth_window(
            hash_value,
            k,
            config.bits_per_hash as nat,
        )]
}

/// The static membership table, flattened to (classes * inputs) rows of
/// `n_entries` boolean entries each.
#[derive(Debug, Clone)]
pub struct BloomFilter {
    bits: Vec<Vec<bool>>,
    n_entries: usize,
}

impl BloomFilter {
    /// The table contents, row by row.
    pub closed spec fn rows(self) -> Seq<Seq<bool>> {
        self.bits@.map_values(|r: Vec<bool>| r@)
    }

    pub open spec fn num_rows(self) -> nat {
        self.rows().len()
    }

    pub closed spec fn num_entries(self) -> nat {
        self.n_entries as nat
    }

    /// Every row has exactly `n_entries` entries.
    pub open spec fn wf(self) -> bool {
        forall|i: int|
            0 <= i < self.rows().len() ==> (#[trigger] self.rows()[i]).len() == self.num_entries()
    }

    /// Installs the flattened response tensor as the lookup table. This
    /// happens exactly once, before any lookup; a ragged tensor is
    /// rejected as a configuration error.
    pub fn load(rows: Vec<Vec<bool>>, n_entries: usize) -> (r: Result<
        BloomFilter,
        ConfigurationError,
    >)
        ensures
            r is Ok <==> (forall|i: int|
                0 <= i < rows@.len() ==> (#[trigger] rows@[i])@.len() == n_entries),
            r matches Ok(f) ==> {
                &&& f.wf()
                &&& f.num_rows() == rows@.len()
                &&& f.num_entries() == n_entries
                &&& f.rows() == rows@.map_values(|r: Vec<bool>| r@)
            },
            r is Err ==> r == Err::<BloomFilter, _>(ConfigurationError::ShapeMismatch),
    {
        let n = rows.len();
        let mut i: usize = 0;
        while i < n
            invariant
                i <= n == rows@.len(),
                forall|j: int| 0 <= j < i ==> (#[trigger] rows@[j])@.len() == n_entries,
            decreases n - i,
        {
            if rows[i].len() != n_entries {
                return Err(ConfigurationError::ShapeMismatch);
            }
            i = i + 1;
        }
        Ok(BloomFilter { bits: rows, n_entries })
    }

    /// The number of rows, executably.
    pub fn row_count(&self) -> (r: usize)
        ensures
            r as int == self.num_rows(),
    {
        self.bits.len()
    }

    /// Single-entry membership lookup, the lookup-argument primitive: the
    /// entry of `row_index` at column `hash_value`.
    ///
    /// A hash value outside `[0, n_entries)` admits no witness in the
    /// lookup table, which makes the circuit unsatisfiable; that outcome
    /// is `None` here, never a panic.
    pub fn lookup(&self, hash_value: u64, row_index: usize) -> (r: Option<bool>)
        requires
            self.wf(),
        ensures
            (row_index < self.num_rows() && (hash_value as nat) < self.num_entries()) ==> r
                == Some(self.rows()[row_index as int][hash_value as int]),
            !(row_index < self.num_rows() && (hash_value as nat) < self.num_entries()) ==> r
                is None,
    {
        if row_index < self.bits.len() && hash_value < self.n_entries as u64 {
            proof {
                assert(self.rows()[row_index as int].len() == self.num_entries());
                assert(self.rows()[row_index as int] == self.bits@[row_index as int]@);
            }
            Some(self.bits[row_index][hash_value as usize])
        } else {
            None
        }
    }

    /// Full bloom response for one hash output: the conjunction of the
    /// single-entry lookups at the output's `n_hashes` windows.
    pub fn bloom_lookup(&self, config: &BloomFilterConfig, hash_value: u64, row_index: usize) -> (r:
        bool)
        requires
            self.wf(),
            config.wf(),
            self.num_entries() == pow2(config.bits_per_hash as nat),
            row_index < self.num_rows(),
        ensures
            r == spec_bloom_response(self.rows()[row_index as int], hash_value as int, *config),
    {
        let windows = decompose_word(hash_value, config.n_hashes, config.bits_per_hash);
        let mut resp = true;
        let mut k: usize = 0;
        let n = config.n_hashes;
        while k < n
            invariant
                k <= n == config.n_hashes,
                self.wf(),
                config.wf(),
                self.num_entries() == pow2(config.bits_per_hash as nat),
                row_index < self.num_rows(),
                windows@.len() == n,
                forall|j: int|
                    0 <= j < n ==> #[trigger] (windows@[j] as int) == nth_window(
                        hash_value as int,
                        j,
                        config.bits_per_hash as nat,
                    ),
                resp == (forall|j: int|
                    0 <= j < k ==> self.rows()[row_index as int][nth_window(
                        hash_value as int,
                        j,
                        config.bits_per_hash as nat,
                    )]),
            decreases n - k,
        {
            proof {
                lemma_pow2_pos(config.bits_per_hash as nat);
                lemma_pow2_pos((k as nat) * (config.bits_per_hash as nat));
                lemma_mod_division_less_than_divisor(
                    hash_value as int / pow2((k as nat) * (config.bits_per_hash as nat)) as int,
                    pow2(config.bits_per_hash as nat) as int,
                );
                vstd::arithmetic::div_mod::lemma_div_pos_is_pos(
                    hash_value as int,
                    pow2((k as nat) * (config.bits_per_hash as nat)) as int,
                );
            }
            let w = windows[k];
            match self.lookup(w, row_index) {
                Some(b) => {
                    resp = resp && b;
                },
                None => {
                    proof {
                        assert(false);
                    }
                },
            }
            k = k + 1;
        }
        resp
    }
}

} // verus!
