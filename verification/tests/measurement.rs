use chronicle::measurement::{
    AddressAnalyticsResult, DailyActiveAddressAnalyticsResult, InfluxPoint, LedgerOutputAnalyticsResult,
    LedgerSizeAnalyticsResult, Measurement, PerMilestone, TimeInterval, UnclaimedTokenAnalyticsResult,
    UnlockConditionAnalyticsResult,
};
use chronicle::types::{MilestoneIndex, MilestoneIndexTimestamp, MilestoneTimestamp};

fn at(index: u32, timestamp: u32) -> MilestoneIndexTimestamp {
    MilestoneIndexTimestamp {
        milestone_index: MilestoneIndex(index),
        milestone_timestamp: MilestoneTimestamp(timestamp),
    }
}

#[test]
fn address_point() {
    let p = InfluxPoint::from_measurement(&Measurement::AddressActivity(PerMilestone {
        at: at(12, 1_660_000_000),
        inner: AddressAnalyticsResult { address_with_balance_count: 42 },
    }));
    assert_eq!(p.measurement, "stardust_addresses");
    assert_eq!(p.timestamp, MilestoneTimestamp(1_660_000_000));
    assert_eq!(p.fields, vec![("milestone_index", 12), ("address_with_balance_count", 42)]);
}

#[test]
fn ledger_outputs_point() {
    let inner = LedgerOutputAnalyticsResult {
        basic_count: 1,
        basic_value: 2,
        alias_count: 3,
        alias_value: 4,
        foundry_count: 5,
        foundry_value: 6,
        nft_count: 7,
        nft_value: 8,
        treasury_count: 9,
        treasury_value: 10,
    };
    let p = InfluxPoint::from_measurement(&Measurement::LedgerOutputs(PerMilestone { at: at(3, 30), inner }));
    assert_eq!(p.measurement, "stardust_ledger_outputs");
    assert_eq!(p.fields.len(), 11);
    assert_eq!(p.fields[0], ("milestone_index", 3));
    assert_eq!(p.fields[10], ("treasury_value", 10));
}

#[test]
fn daily_point_is_stamped_with_the_last_second() {
    let p = InfluxPoint::from_measurement(&Measurement::DailyActiveAddresses(TimeInterval {
        from: MilestoneTimestamp(86_400),
        to_exclusive: MilestoneTimestamp(172_800),
        inner: DailyActiveAddressAnalyticsResult { count: 5 },
    }));
    assert_eq!(p.measurement, "stardust_daily_active_addresses");
    assert_eq!(p.timestamp, MilestoneTimestamp(172_799));
    assert_eq!(p.fields, vec![("count", 5)]);
}

#[test]
fn daily_point_ending_at_the_epoch_wraps() {
    let p = InfluxPoint::from_measurement(&Measurement::DailyActiveAddresses(TimeInterval {
        from: MilestoneTimestamp(0),
        to_exclusive: MilestoneTimestamp(0),
        inner: DailyActiveAddressAnalyticsResult { count: 0 },
    }));
    assert_eq!(p.timestamp, MilestoneTimestamp(u32::MAX));
}

#[test]
fn ledger_outputs_move_on_by_one_ledger() {
    let mut prev = LedgerOutputAnalyticsResult { basic_count: 10, basic_value: 1000, nft_count: 2, nft_value: 20, ..Default::default() };
    let created = LedgerOutputAnalyticsResult { basic_count: 3, basic_value: 300, alias_count: 1, alias_value: 5, ..Default::default() };
    let consumed = LedgerOutputAnalyticsResult { basic_count: 2, basic_value: 250, nft_count: 2, nft_value: 20, ..Default::default() };
    prev.apply_changes(&created, &consumed);
    assert_eq!(
        prev,
        LedgerOutputAnalyticsResult { basic_count: 11, basic_value: 1050, alias_count: 1, alias_value: 5, ..Default::default() }
    );
    // Applying the changes the other way round takes them back.
    prev.apply_changes(&consumed, &created);
    assert_eq!(prev, LedgerOutputAnalyticsResult { basic_count: 10, basic_value: 1000, nft_count: 2, nft_value: 20, ..Default::default() });
}

#[test]
fn ledger_size_and_unlock_conditions_move_on() {
    let mut size = LedgerSizeAnalyticsResult { total_key_bytes: 100, total_data_bytes: 200, total_storage_deposit_value: 7 };
    size.apply_changes(
        &LedgerSizeAnalyticsResult { total_key_bytes: 10, total_data_bytes: 20, total_storage_deposit_value: 3 },
        &LedgerSizeAnalyticsResult { total_key_bytes: 5, total_data_bytes: 220, total_storage_deposit_value: 10 },
    );
    assert_eq!(
        size,
        LedgerSizeAnalyticsResult { total_key_bytes: 105, total_data_bytes: 0, total_storage_deposit_value: 0 }
    );

    let mut uc = UnlockConditionAnalyticsResult { timelock_count: 4, timelock_value: 40, ..Default::default() };
    uc.apply_changes(
        &UnlockConditionAnalyticsResult { expiration_count: 1, expiration_value: 9, ..Default::default() },
        &UnlockConditionAnalyticsResult { timelock_count: 1, timelock_value: 10, ..Default::default() },
    );
    assert_eq!(
        uc,
        UnlockConditionAnalyticsResult {
            timelock_count: 3,
            timelock_value: 30,
            expiration_count: 1,
            expiration_value: 9,
            ..Default::default()
        }
    );

    let mut unclaimed = UnclaimedTokenAnalyticsResult { unclaimed_count: 5, unclaimed_value: 500 };
    unclaimed.remove_claimed(&UnclaimedTokenAnalyticsResult { unclaimed_count: 2, unclaimed_value: 120 });
    assert_eq!(unclaimed, UnclaimedTokenAnalyticsResult { unclaimed_count: 3, unclaimed_value: 380 });
}
