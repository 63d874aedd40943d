//! Core of a zero-knowledge weightless-neural-network (WNN) prediction
//! circuit.
//!
//! A WNN stores its learned knowledge as per-class boolean response tables
//! ("bloom filters") indexed by hashed, binarized, permuted image features.
//! Proving a prediction in zero knowledge means translating the inference
//! pipeline (per-pixel binarization, bit permutation, grouping, modular
//! hashing, table lookup, summation) into the witness values and polynomial
//! constraints of an arithmetic circuit.
//!
//! This crate holds the verified core of that translation: for each gadget it
//! computes the witness values the prover assigns and proves that they meet
//! the gadget's constraint relations and its functional specification. The
//! proving backend itself (gate compilation, polynomial arithmetic, proof
//! serialization) is an external collaborator and stays outside this crate.

pub mod bits2num;
pub mod bloom_filter;
pub mod greater_than;
pub mod hash;
pub mod io;
pub mod params;
pub mod quantize;
pub mod range_check;
pub mod response_accumulator;
pub mod utils;
pub mod wnn;

use vstd::prelude::*;

verus! {

/// The largest number of bits a single composed witness value may hold.
///
/// Every witness value this core computes is a bounded integer (bits,
/// 8-bit intensities, hash inputs and outputs), so `u64` carries them all;
/// a bit sequence longer than this cannot be composed into one value.
pub const WITNESS_BIT_CAPACITY: u64 = 64;

} // verus!
