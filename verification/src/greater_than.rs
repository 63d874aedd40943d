//! Threshold-comparison gadget: strict greater-than over byte-range
//! integers, inside a field that has no native ordering.
//!
//! The trick is a range-checked difference witness: when the result bit is
//! 1, the prover exhibits `v - t - 1` in `[0, 255]`; when it is 0, it
//! exhibits `t - v` instead. Either way the difference witness is
//! byte-range-checked, which pins the bit to `v > t`.
//!
//! The first comparison of a logical value assigns its witness cell; later
//! comparisons of the same value reuse that cell through an equality
//! constraint instead of rederiving it.

use vstd::prelude::*;

verus! {

/// The witnesses one comparison assigns: the compared value's cell, the
/// boolean result bit, and the difference witness whose byte-range check
/// makes the bit sound.
#[derive(Clone, Copy, Debug, PartialEq, Eq, Structural)]
pub struct GreaterThanWitness {
    /// The cell carrying the compared value.
    pub value: u8,
    /// The comparison result, `value > t`.
    pub bit: bool,
    /// The range-checked difference: `value - t - 1` when the bit is set,
    /// `t - value` otherwise. Its type is the `[0, 255]` range check.
    pub diff: u8,
}

impl GreaterThanWitness {
    /// The gadget's gate equations over input `v` and threshold `t`. The
    /// range check on `diff` is carried by its type.
    pub open spec fn constraints(self, v: u8, t: u8) -> bool {
        &&& self.value == v
        &&& (self.bit ==> v as int == t as int + 1 + self.diff as int)
        &&& (!self.bit ==> t as int == v as int + self.diff as int)
    }
}

/// Compares a fresh value witness against a threshold, assigning the
/// value's cell together with the result bit and difference witness.
pub fn greater_than_witness(v: u8, t: u8) -> (r: GreaterThanWitness)
    ensures
        r.bit == (v > t),
        r.constraints(v, t),
{
    if v > t {
        GreaterThanWitness { value: v, bit: true, diff: v - t - 1 }
    } else {
        GreaterThanWitness { value: v, bit: false, diff: t - v }
    }
}

/// Compares an already-assigned value cell (bound to the fresh comparison
/// row by an equality constraint) against another threshold. The witness
/// values are those of a fresh comparison of the same pair; only the cell
/// bookkeeping differs in the circuit.
pub fn greater_than_copy(first_cell: u8, t: u8) -> (r: GreaterThanWitness)
    ensures
        r.bit == (first_cell > t),
        r.constraints(first_cell, t),
{
    greater_than_witness(first_cell, t)
}

/// Soundness of the constraint translation: any witness assignment that
/// satisfies the gadget's constraints carries the correct bit. The
/// byte-range check on the difference forces `bit == (v > t)` even though
/// the field itself orders nothing.
pub proof fn lemma_greater_than_constraints_sound(v: u8, t: u8, w: GreaterThanWitness)
    requires
        w.constraints(v, t),
    ensures
        w.bit == (v > t),
{
}

/// The reused-witness path agrees with the fresh-witness path: for one
/// `(v, t)` pair, the constraints determine the result bit, so any two
/// satisfying assignments carry the same bit.
pub proof fn lemma_copy_path_matches_fresh(
    v: u8,
    t: u8,
    fresh: GreaterThanWitness,
    copy: GreaterThanWitness,
)
    requires
        fresh.constraints(v, t),
        copy.constraints(v, t),
    ensures
        fresh.bit == copy.bit,
{
}

} // verus!
