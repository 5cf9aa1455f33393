//! The blocks of a milestone's past cone, which are stored in batches, and
//! the treasury transactions among them.

use vstd::prelude::*;

use crate::types::{LedgerInclusionState, MilestoneIndex};

verus! {

/// How many blocks or outputs are written to the database at once.
pub const INSERT_BATCH_SIZE: usize = 1000;

/// What the synchronization reads of a treasury transaction payload.
#[derive(Clone, Copy, Debug, PartialEq, Eq)]
pub struct TreasuryTransactionSummary {
    /// The milestone whose treasury output the transaction spends.
    pub input_milestone_id: [u8; 32],
    /// The tokens of the new treasury output.
    pub output_amount: u64,
}

/// What the synchronization reads of a block of a milestone's cone.
#[derive(Clone, Copy, Debug, PartialEq, Eq)]
pub struct ConeBlock {
    /// Whether the transaction of the block took effect.
    pub inclusion_state: LedgerInclusionState,
    /// The milestone that referenced the block.
    pub referenced_by_milestone_index: MilestoneIndex,
    /// The payload of the block, where it is a treasury transaction.
    pub treasury_transaction: Option<TreasuryTransactionSummary>,
}

/// A treasury transaction as it is stored: the milestone that referenced
/// it, the milestone whose treasury it spends, and the new treasury amount.
pub type TreasuryPayload = (MilestoneIndex, [u8; 32], u64);

/// The treasury transaction that a block contributes, if any: only blocks
/// whose transaction took effect count.
pub open spec fn treasury_payload_of(block: ConeBlock) -> Option<TreasuryPayload> {
    match block.treasury_transaction {
        Some(t) => if block.inclusion_state == LedgerInclusionState::Included {
            Some((block.referenced_by_milestone_index, t.input_milestone_id, t.output_amount))
        } else {
            None
        },
        None => None,
    }
}

/// The treasury transactions of a batch of blocks, in order.
pub open spec fn treasury_payloads_spec(blocks: Seq<ConeBlock>) -> Seq<TreasuryPayload>
    decreases blocks.len(),
{
    if blocks.len() == 0 {
        seq![]
    } else {
        let rest = treasury_payloads_spec(blocks.drop_last());
        match treasury_payload_of(blocks.last()) {
            Some(p) => rest.push(p),
            None => rest,
        }
    }
}

/// The treasury transactions of a batch of blocks, in order.
pub fn treasury_payloads(blocks: &Vec<ConeBlock>) -> (r: Vec<TreasuryPayload>)
    ensures
        r@ == treasury_payloads_spec(blocks@),
{
    let mut r: Vec<TreasuryPayload> = Vec::new();
    let mut i: usize = 0;
    while i < blocks.len()
        invariant
            i <= blocks@.len(),
            r@ == treasury_payloads_spec(blocks@.take(i as int)),
        decreases blocks@.len() - i,
    {
        let block = &blocks[i];
        proof {
            assert(blocks@.take(i + 1).drop_last() =~= blocks@.take(i as int));
        }
        if let Some(t) = block.treasury_transaction {
            if block.inclusion_state == LedgerInclusionState::Included {
                r.push((block.referenced_by_milestone_index, t.input_milestone_id, t.output_amount));
            }
        }
        i = i + 1;
    }
    proof {
        assert(blocks@.take(i as int) =~= blocks@);
    }
    r
}

} // verus!
