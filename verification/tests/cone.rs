use chronicle::cone::{treasury_payloads, ConeBlock, TreasuryTransactionSummary, INSERT_BATCH_SIZE};
use chronicle::types::{LedgerInclusionState, MilestoneIndex};

fn block(state: LedgerInclusionState, index: u32, treasury: Option<u64>) -> ConeBlock {
    ConeBlock {
        inclusion_state: state,
        referenced_by_milestone_index: MilestoneIndex(index),
        treasury_transaction: treasury.map(|amount| TreasuryTransactionSummary {
            input_milestone_id: [index as u8; 32],
            output_amount: amount,
        }),
    }
}

#[test]
fn only_included_treasury_transactions_are_kept() {
    let blocks = vec![
        block(LedgerInclusionState::Included, 1, Some(100)),
        block(LedgerInclusionState::Included, 2, None),
        block(LedgerInclusionState::Conflicting, 3, Some(300)),
        block(LedgerInclusionState::NoTransaction, 4, Some(400)),
        block(LedgerInclusionState::Included, 5, Some(500)),
    ];
    assert_eq!(
        treasury_payloads(&blocks),
        vec![(MilestoneIndex(1), [1u8; 32], 100), (MilestoneIndex(5), [5u8; 32], 500)]
    );
}

#[test]
fn empty_batch() {
    assert!(treasury_payloads(&Vec::new()).is_empty());
    assert_eq!(INSERT_BATCH_SIZE, 1000);
}
