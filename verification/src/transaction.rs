//! The amounts and output positions of a transaction that spends transparent
//! inputs to one recipient and returns the change.

use vstd::prelude::*;

verus! {

/// The fee that every transaction pays.
pub const DEFAULT_FEE: u64 = 1000;

/// Sum of the input amounts.
pub open spec fn sum_amounts(s: Seq<u64>) -> nat
    decreases s.len(),
{
    if s.len() == 0 {
        0
    } else {
        sum_amounts(s.drop_last()) + s.last() as nat
    }
}

/// Where the outputs of a transaction stand and what they carry.
#[derive(Clone, Copy, Debug, PartialEq, Eq, Structural)]
pub struct OutputPlan {
    /// Sum of the input amounts.
    pub total: u64,
    /// Index of the recipient's output.
    pub output_index: u64,
    /// Amount sent to the recipient.
    pub output_amount: u64,
    /// Index of the change output.
    pub change_index: u64,
    /// Amount returned as change: total less amount and fee.
    pub change_amount: u64,
    /// Whether a change output is added: the total less the fee exceeds the amount.
    pub has_change_output: bool,
}

/// The sum of the input amounts, or `None` when it overflows a `u64`.
pub fn checked_total(amounts: &[u64]) -> (r: Option<u64>)
    ensures
        r == (if sum_amounts(amounts@) <= u64::MAX {
            Some(sum_amounts(amounts@) as u64)
        } else {
            None::<u64>
        }),
{
    let mut total: u64 = 0;
    let mut i: usize = 0;
    while i < amounts.len()
        invariant
            i <= amounts@.len(),
            total == sum_amounts(amounts@.take(i as int)),
        decreases amounts@.len() - i,
    {
        assert(amounts@.take(i as int + 1).drop_last() =~= amounts@.take(i as int));
        if total > u64::MAX - amounts[i] {
            proof {
                lemma_sum_prefix_le(amounts@, i as int + 1);
            }
            return None;
        }
        total = total + amounts[i];
        i = i + 1;
    }
    assert(amounts@.take(amounts@.len() as int) =~= amounts@);
    Some(total)
}

/// A prefix sums to no more than the whole.
proof fn lemma_sum_prefix_le(s: Seq<u64>, i: int)
    requires
        0 <= i <= s.len(),
    ensures
        sum_amounts(s.take(i)) <= sum_amounts(s),
    decreases s.len() - i,
{
    if i < s.len() {
        lemma_sum_prefix_le(s, i + 1);
        assert(s.take(i + 1).drop_last() =~= s.take(i));
    } else {
        assert(s.take(i) =~= s);
    }
}

/// Plans the outputs of a transaction that sends `amount` to a recipient and
/// the change back: the recipient's output comes first; when the recipient is
/// transparent the change output stands at index 1, else at 0.
pub fn plan_outputs(input_amounts: &[u64], amount: u64, recipient_is_transparent: bool) -> (p: OutputPlan)
    requires
        sum_amounts(input_amounts@) <= u64::MAX,
        sum_amounts(input_amounts@) >= amount + DEFAULT_FEE,
    ensures
        p.total == sum_amounts(input_amounts@),
        p.output_index == 0,
        p.output_amount == amount,
        p.change_index == (if recipient_is_transparent { 1u64 } else { 0u64 }),
        p.has_change_output == (sum_amounts(input_amounts@) - DEFAULT_FEE > amount),
        p.change_amount == sum_amounts(input_amounts@) - amount - DEFAULT_FEE,
{
    let total = match checked_total(input_amounts) {
        Some(t) => t,
        None => {
            assert(false);
            0
        },
    };
    let change_index: u64 = if recipient_is_transparent { 1 } else { 0 };
    OutputPlan {
        total,
        output_index: 0,
        output_amount: amount,
        change_index,
        change_amount: total - amount - DEFAULT_FEE,
        has_change_output: total - DEFAULT_FEE > amount,
    }
}

} // verus!
