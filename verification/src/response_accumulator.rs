//! Response-accumulation gadget: sums the boolean membership responses of
//! one class into its score — a running-sum gate chain of the same shape
//! as the bit composer, but without the radix-2 multiplier.

use vstd::prelude::*;

verus! {

/// The number of set bits in a boolean sequence.
pub open spec fn count_true(s: Seq<bool>) -> nat
    decreases s.len(),
{
    if s.len() == 0 {
        0
    } else {
        count_true(s.drop_last()) + (if s.last() {
            1nat
        } else {
            0nat
        })
    }
}

/// A popcount never exceeds the number of bits.
pub proof fn lemma_count_true_le_len(s: Seq<bool>)
    ensures
        count_true(s) <= s.len(),
    decreases s.len(),
{
    if s.len() > 0 {
        lemma_count_true_le_len(s.drop_last());
    }
}

/// An all-true sequence counts to its length.
pub proof fn lemma_count_true_all_true(s: Seq<bool>)
    requires
        forall|i: int| 0 <= i < s.len() ==> s[i],
    ensures
        count_true(s) == s.len(),
    decreases s.len(),
{
    if s.len() > 0 {
        lemma_count_true_all_true(s.drop_last());
    }
}

/// Soundness of the running-sum translation: a sequence of cell values
/// obeying the accumulation gate on every row, from an initial zero, must
/// end in the number of set responses.
pub proof fn lemma_accumulate_chain_sound(responses: Seq<bool>, values: Seq<int>)
    requires
        values.len() == responses.len() + 1,
        values[0] == 0,
        forall|i: int|
            0 <= i < responses.len() ==> values[i + 1] == values[i] + (if responses[i] {
                1int
            } else {
                0int
            }),
    ensures
        values.last() == count_true(responses),
    decreases responses.len(),
{
    if responses.len() > 0 {
        assert forall|i: int|
            0 <= i < responses.drop_last().len() implies values.drop_last()[i + 1]
            == values.drop_last()[i] + (if responses.drop_last()[i] {
            1int
        } else {
            0int
        }) by {
            assert(values[i + 1] == values[i] + (if responses[i] {
                1int
            } else {
                0int
            }));
        };
        lemma_accumulate_chain_sound(responses.drop_last(), values.drop_last());
        assert(values.last() == values[responses.len() - 1] + (if responses[responses.len() - 1] {
            1int
        } else {
            0int
        }));
    }
}

/// Accumulates one class's ordered membership responses into its score:
/// the number of responses that are set, built as the running-sum chain
/// `sum_{i+1} = sum_i + response_i`.
pub fn accumulate_responses(responses: &Vec<bool>) -> (r: u64)
    ensures
        r as nat == count_true(responses@),
{
    let n = responses.len();
    let mut acc: u64 = 0;
    let mut i: usize = 0;
    while i < n
        invariant
            i <= n == responses@.len(),
            acc as nat == count_true(responses@.take(i as int)),
        decreases n - i,
    {
        proof {
            lemma_count_true_le_len(responses@.take(i as int));
            assert(responses@.take(i + 1).drop_last() =~= responses@.take(i as int));
            assert(responses@.take(i + 1).last() == responses@[i as int]);
        }
        if responses[i] {
            acc = acc + 1;
        }
        i = i + 1;
    }
    proof {
        assert(responses@.take(n as int) =~= responses@);
    }
    acc
}

} // verus!
