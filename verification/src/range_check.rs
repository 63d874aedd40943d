//! Range-check gadget: membership of a witness in `[0, range)`, enforced
//! through a precomputed lookup table of the valid values.
//!
//! The comparator and the hasher both lean on it: the comparator
//! range-checks its difference witness into a byte, the hasher its output
//! into `[0, 2^l)`. The check fails closed: a witness outside the table
//! leaves the circuit unsatisfiable, it never raises a local error.

use vstd::prelude::*;

verus! {

/// Membership in `[0, range)`.
pub open spec fn spec_in_range(value: int, range: int) -> bool {
    0 <= value < range
}

/// The lookup table of the valid values: `0, 1, ..., range - 1`.
pub open spec fn spec_range_table(range: nat) -> Seq<int> {
    Seq::new(range, |i: int| i)
}

/// The table characterizes the range: a value appears in the table
/// exactly when it lies in `[0, range)`.
pub proof fn lemma_range_table_membership(value: int, range: nat)
    ensures
        spec_range_table(range).contains(value) <==> spec_in_range(value, range as int),
{
    if spec_in_range(value, range as int) {
        assert(spec_range_table(range)[value] == value);
    }
}

/// Configuration of one range check: the table's size.
#[derive(Clone, Copy, Debug, PartialEq, Eq, Structural)]
pub struct RangeCheckConfig {
    pub range: u64,
}

/// Probes the lookup table for a witness value: whether the constraint
/// system stays satisfiable with this witness assigned.
pub fn assert_in_range(witness: u64, config: &RangeCheckConfig) -> (r: bool)
    ensures
        r == spec_in_range(witness as int, config.range as int),
{
    witness < config.range
}

} // verus!
