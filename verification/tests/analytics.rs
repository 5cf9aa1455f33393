use chronicle::analytics::{
    Analytics, BlockSummary, OutputAnalytics, OutputSummary, StorageDepositAnalytics,
};
use chronicle::types::{
    Address, AddressKind, LedgerInclusionState, OutputType, PayloadType, ProtocolParameters, RentStructure,
};

fn address(b: u8) -> Address {
    Address { kind: AddressKind::Ed25519, bytes: [b; 32] }
}

fn output(kind: OutputType, amount: u64, addr: Option<u8>, spent: bool) -> OutputSummary {
    OutputSummary {
        kind,
        amount,
        address: addr.map(address),
        is_spent: spent,
        num_key_bytes: 10,
        num_data_bytes: 100,
        storage_deposit_return: None,
    }
}

#[test]
fn default_analytics_have_four_kinds() {
    let a = Analytics::default();
    for kind in [OutputType::Basic, OutputType::Alias, OutputType::Nft, OutputType::Foundry] {
        assert_eq!(a.outputs.get(kind), Some(OutputAnalytics { count: 0, total_value: 0 }));
        assert_eq!(a.unspent_outputs.get(kind), Some(OutputAnalytics { count: 0, total_value: 0 }));
    }
    assert_eq!(a.outputs.get(OutputType::Treasury), None);
    assert_eq!(a.milestone_activity.count, 0);
}

#[test]
fn outputs_are_counted() {
    let mut p = Analytics::default().processor();
    p.process_outputs(&vec![
        output(OutputType::Basic, 100, Some(1), false),
        output(OutputType::Basic, 50, Some(2), true),
        output(OutputType::Nft, 7, Some(1), false),
        output(OutputType::Treasury, 1000, None, false),
    ]);
    let a = p.finish();
    assert_eq!(a.outputs.get(OutputType::Basic), Some(OutputAnalytics { count: 2, total_value: 150 }));
    assert_eq!(a.outputs.get(OutputType::Nft), Some(OutputAnalytics { count: 1, total_value: 7 }));
    assert_eq!(a.outputs.get(OutputType::Treasury), Some(OutputAnalytics { count: 1, total_value: 1000 }));
    // The spent basic output is taken off the unspent ones.
    assert_eq!(a.unspent_outputs.get(OutputType::Basic), Some(OutputAnalytics { count: 0, total_value: 50 }));
    assert_eq!(a.unspent_outputs.get(OutputType::Nft), Some(OutputAnalytics { count: 1, total_value: 7 }));
    assert_eq!(a.addresses.total_active_addresses, 2);
    assert_eq!(a.addresses.receiving_addresses, 1);
    assert_eq!(a.addresses.sending_addresses, 1);
    assert_eq!(a.storage_deposits.output_count, 2);
    assert_eq!(a.storage_deposits.total_key_bytes, 20);
    assert_eq!(a.storage_deposits.total_data_bytes, 200);
}

#[test]
fn spent_before_created_nets_out() {
    let created = output(OutputType::Alias, 30, Some(3), false);
    let spent = output(OutputType::Alias, 30, Some(3), true);
    let mut first = Analytics::default().processor();
    first.process_outputs(&vec![spent, created]);
    let mut second = Analytics::default().processor();
    second.process_outputs(&vec![created]);
    second.process_outputs(&vec![spent]);
    let (a, b) = (first.finish(), second.finish());
    assert_eq!(a, b);
    assert_eq!(a.unspent_outputs.get(OutputType::Alias), Some(OutputAnalytics { count: 0, total_value: 0 }));
    assert_eq!(a.storage_deposits.output_count, 0);
    assert_eq!(a.addresses.total_active_addresses, 1);
}

#[test]
fn storage_deposit_returns_of_basic_and_nft() {
    let mut basic = output(OutputType::Basic, 10, None, false);
    basic.storage_deposit_return = Some(4);
    let mut nft = output(OutputType::Nft, 10, None, false);
    nft.storage_deposit_return = Some(5);
    let mut alias = output(OutputType::Alias, 10, None, false);
    alias.storage_deposit_return = Some(6);
    let mut p = Analytics::default().processor();
    p.process_outputs(&vec![basic, nft, alias]);
    let a = p.finish();
    assert_eq!(a.storage_deposits.storage_deposit_return_count, 2);
    assert_eq!(a.storage_deposits.storage_deposit_return_total_value, 9);
}

#[test]
fn blocks_are_counted() {
    let mut p = Analytics::default().processor();
    p.process_blocks(&vec![
        BlockSummary { payload: Some(PayloadType::Transaction), inclusion_state: LedgerInclusionState::Included },
        BlockSummary { payload: Some(PayloadType::Transaction), inclusion_state: LedgerInclusionState::Conflicting },
        BlockSummary { payload: Some(PayloadType::Milestone), inclusion_state: LedgerInclusionState::NoTransaction },
        BlockSummary { payload: None, inclusion_state: LedgerInclusionState::NoTransaction },
        BlockSummary { payload: Some(PayloadType::TaggedData), inclusion_state: LedgerInclusionState::NoTransaction },
        BlockSummary {
            payload: Some(PayloadType::TreasuryTransaction),
            inclusion_state: LedgerInclusionState::NoTransaction,
        },
    ]);
    let m = p.finish().milestone_activity;
    assert_eq!(m.count, 6);
    assert_eq!(m.transaction_count, 2);
    assert_eq!(m.milestone_count, 1);
    assert_eq!(m.tagged_data_count, 1);
    assert_eq!(m.treasury_transaction_count, 1);
    assert_eq!(m.no_payload_count, 1);
    assert_eq!(m.confirmed_count, 1);
    assert_eq!(m.conflicting_count, 1);
    assert_eq!(m.no_transaction_count, 4);
}

#[test]
fn byte_cost_counts_data_bytes_twice() {
    let deposits = StorageDepositAnalytics {
        output_count: 1,
        storage_deposit_return_count: 0,
        storage_deposit_return_total_value: 0,
        total_key_bytes: 1000,
        total_data_bytes: 100,
    };
    let params = ProtocolParameters {
        version: 2,
        min_pow_score: 1500,
        below_max_depth: 15,
        rent_structure: RentStructure { v_byte_cost: 500, v_byte_factor_key: 10, v_byte_factor_data: 1 },
        token_supply: 1_000_000,
    };
    assert_eq!(deposits.total_byte_cost(&params), 500 * (100 + 100));
}
