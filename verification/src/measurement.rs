//! The analytics results that are measured per milestone or per time
//! interval, and the time-series points they are written as.

use vstd::prelude::*;

use crate::types::{MilestoneIndexTimestamp, MilestoneTimestamp, ProtocolParameters};

verus! {

/// The number of addresses that hold tokens.
#[derive(Clone, Copy, Debug, Default, PartialEq, Eq, Structural)]
pub struct AddressAnalyticsResult {
    pub address_with_balance_count: u64,
}

/// The number of addresses that were active in a milestone.
#[derive(Clone, Copy, Debug, Default, PartialEq, Eq, Structural)]
pub struct AddressActivityAnalyticsResult {
    pub total_count: u64,
    pub receiving_count: u64,
    pub sending_count: u64,
}

/// The tokens booked and transferred in a milestone.
#[derive(Clone, Copy, Debug, Default, PartialEq, Eq, Structural)]
pub struct BaseTokenActivityAnalyticsResult {
    pub booked_value: u64,
    pub transferred_value: u64,
}

/// The blocks of a milestone by payload kind.
#[derive(Clone, Copy, Debug, Default, PartialEq, Eq, Structural)]
pub struct PayloadActivityAnalyticsResult {
    pub transaction_count: u32,
    pub treasury_transaction_count: u32,
    pub milestone_count: u32,
    pub tagged_data_count: u32,
    pub no_payload_count: u32,
}

/// The blocks of a milestone by what became of their transaction.
#[derive(Clone, Copy, Debug, Default, PartialEq, Eq, Structural)]
pub struct TransactionActivityAnalyticsResult {
    pub confirmed_count: u32,
    pub conflicting_count: u32,
    pub no_transaction_count: u32,
}

/// The blocks of a milestone.
#[derive(Clone, Copy, Debug, Default, PartialEq, Eq, Structural)]
pub struct BlockActivityAnalyticsResult {
    pub payload: PayloadActivityAnalyticsResult,
    pub transaction: TransactionActivityAnalyticsResult,
}

/// The number of addresses active in a day.
#[derive(Clone, Copy, Debug, Default, PartialEq, Eq, Structural)]
pub struct DailyActiveAddressAnalyticsResult {
    pub count: u64,
}

/// The unspent outputs of each kind, and the tokens they hold.
#[derive(Clone, Copy, Debug, Default, PartialEq, Eq, Structural)]
pub struct LedgerOutputAnalyticsResult {
    pub basic_count: u64,
    pub basic_value: u64,
    pub alias_count: u64,
    pub alias_value: u64,
    pub foundry_count: u64,
    pub foundry_value: u64,
    pub nft_count: u64,
    pub nft_value: u64,
    pub treasury_count: u64,
    pub treasury_value: u64,
}

/// The bytes of the ledger and the storage deposit they hold.
#[derive(Clone, Copy, Debug, Default, PartialEq, Eq, Structural)]
pub struct LedgerSizeAnalyticsResult {
    pub total_key_bytes: u64,
    pub total_data_bytes: u64,
    pub total_storage_deposit_value: u64,
}

/// The bytes of the payloads of a milestone.
#[derive(Clone, Copy, Debug, Default, PartialEq, Eq, Structural)]
pub struct MilestoneSizeAnalyticsResult {
    pub total_milestone_payload_bytes: u64,
    pub total_tagged_data_payload_bytes: u64,
    pub total_transaction_payload_bytes: u64,
    pub total_treasury_transaction_payload_bytes: u64,
    pub total_milestone_bytes: u64,
}

/// What became of the alias outputs in a milestone.
#[derive(Clone, Copy, Debug, Default, PartialEq, Eq, Structural)]
pub struct AliasActivityAnalyticsResult {
    pub created_count: u64,
    pub governor_changed_count: u64,
    pub state_changed_count: u64,
    pub destroyed_count: u64,
}

/// What became of the nft outputs in a milestone.
#[derive(Clone, Copy, Debug, Default, PartialEq, Eq, Structural)]
pub struct NftActivityAnalyticsResult {
    pub created_count: u64,
    pub transferred_count: u64,
    pub destroyed_count: u64,
}

/// What became of the alias and nft outputs in a milestone.
#[derive(Clone, Copy, Debug, Default, PartialEq, Eq, Structural)]
pub struct OutputActivityAnalyticsResult {
    pub alias: AliasActivityAnalyticsResult,
    pub nft: NftActivityAnalyticsResult,
}

/// The tokens of the genesis that are not claimed yet.
#[derive(Clone, Copy, Debug, Default, PartialEq, Eq, Structural)]
pub struct UnclaimedTokenAnalyticsResult {
    pub unclaimed_count: u64,
    pub unclaimed_value: u64,
}

/// The unlock conditions of the unspent outputs, and the tokens they hold.
#[derive(Clone, Copy, Debug, Default, PartialEq, Eq, Structural)]
pub struct UnlockConditionAnalyticsResult {
    pub timelock_count: u64,
    pub timelock_value: u64,
    pub expiration_count: u64,
    pub expiration_value: u64,
    pub storage_deposit_return_count: u64,
    pub storage_deposit_return_value: u64,
    pub storage_deposit_return_inner_value: u64,
}

/// How long the synchronization of a milestone took.
#[derive(Clone, Copy, Debug, Default, PartialEq, Eq, Structural)]
pub struct SyncAnalytics {
    pub sync_time: u64,
}

/// Analytics of the next ledger can be had from those of the previous one:
/// no counter passes `u64::MAX` when the created outputs are added, and none
/// drops below zero when the consumed ones are taken off.
pub open spec fn changes_fit(old: Seq<int>, created: Seq<int>, consumed: Seq<int>) -> bool {
    &&& old.len() == created.len()
    &&& old.len() == consumed.len()
    &&& forall|i: int|
        0 <= i < old.len() ==> 0 <= #[trigger] old[i] && 0 <= created[i] && 0 <= consumed[i] && old[i]
            + created[i] <= u64::MAX && consumed[i] <= old[i] + created[i]
}

/// Each counter with the created outputs added and the consumed ones taken off.
pub open spec fn applied(old: Seq<int>, created: Seq<int>, consumed: Seq<int>) -> Seq<int> {
    Seq::new(old.len(), |i: int| old[i] + created[i] - consumed[i])
}

/// Taking the changes of a ledger back, by applying them with created and
/// consumed outputs swapped, gives back the analytics before the changes.
pub proof fn lemma_changes_undone(old: Seq<int>, created: Seq<int>, consumed: Seq<int>)
    requires
        changes_fit(old, created, consumed),
    ensures
        changes_fit(applied(old, created, consumed), consumed, created),
        applied(applied(old, created, consumed), consumed, created) == old,
{
    let next = applied(old, created, consumed);
    assert forall|i: int| 0 <= i < next.len() implies 0 <= #[trigger] next[i] && 0 <= consumed[i] && 0
        <= created[i] && next[i] + consumed[i] <= u64::MAX && created[i] <= next[i] + consumed[i] by {
        assert(0 <= old[i]);
    }
    assert(applied(next, consumed, created) =~= old);
}

impl LedgerOutputAnalyticsResult {
    /// The counters, in the order of the fields.
    pub open spec fn fields(self) -> Seq<int> {
        seq![
            self.basic_count as int,
            self.basic_value as int,
            self.alias_count as int,
            self.alias_value as int,
            self.foundry_count as int,
            self.foundry_value as int,
            self.nft_count as int,
            self.nft_value as int,
            self.treasury_count as int,
            self.treasury_value as int,
        ]
    }

    /// Moves the analytics of the unspent outputs on by one ledger: the
    /// outputs that it created are added, and those it consumed taken off.
    pub fn apply_changes(&mut self, created: &Self, consumed: &Self)
        requires
            changes_fit(old(self).fields(), created.fields(), consumed.fields()),
        ensures
            final(self).fields() == applied(old(self).fields(), created.fields(), consumed.fields()),
    {
        proof {
            let (o, c, k) = (self.fields(), created.fields(), consumed.fields());
            assert(0 <= o[0] && 0 <= o[1] && 0 <= o[2] && 0 <= o[3] && 0 <= o[4]);
            assert(0 <= o[5] && 0 <= o[6] && 0 <= o[7] && 0 <= o[8] && 0 <= o[9]);
        }
        let ghost before = *self;
        self.basic_count = self.basic_count + created.basic_count - consumed.basic_count;
        self.basic_value = self.basic_value + created.basic_value - consumed.basic_value;
        self.alias_count = self.alias_count + created.alias_count - consumed.alias_count;
        self.alias_value = self.alias_value + created.alias_value - consumed.alias_value;
        self.foundry_count = self.foundry_count + created.foundry_count - consumed.foundry_count;
        self.foundry_value = self.foundry_value + created.foundry_value - consumed.foundry_value;
        self.nft_count = self.nft_count + created.nft_count - consumed.nft_count;
        self.nft_value = self.nft_value + created.nft_value - consumed.nft_value;
        self.treasury_count = self.treasury_count + created.treasury_count - consumed.treasury_count;
        self.treasury_value = self.treasury_value + created.treasury_value - consumed.treasury_value;
        proof {
            assert(self.fields() =~= applied(before.fields(), created.fields(), consumed.fields()));
        }
    }
}

impl LedgerSizeAnalyticsResult {
    /// The counters, in the order of the fields.
    pub open spec fn fields(self) -> Seq<int> {
        seq![self.total_key_bytes as int, self.total_data_bytes as int, self.total_storage_deposit_value as int]
    }

    /// Moves the ledger size on by one ledger: the bytes and deposits of the
    /// outputs it created are added, and those of the outputs it consumed
    /// taken off.
    pub fn apply_changes(&mut self, created: &Self, consumed: &Self)
        requires
            changes_fit(old(self).fields(), created.fields(), consumed.fields()),
        ensures
            final(self).fields() == applied(old(self).fields(), created.fields(), consumed.fields()),
    {
        proof {
            let o = self.fields();
            assert(0 <= o[0] && 0 <= o[1] && 0 <= o[2]);
        }
        let ghost before = *self;
        self.total_key_bytes = self.total_key_bytes + created.total_key_bytes - consumed.total_key_bytes;
        self.total_data_bytes = self.total_data_bytes + created.total_data_bytes - consumed.total_data_bytes;
        self.total_storage_deposit_value = self.total_storage_deposit_value + created.total_storage_deposit_value
            - consumed.total_storage_deposit_value;
        proof {
            assert(self.fields() =~= applied(before.fields(), created.fields(), consumed.fields()));
        }
    }
}

impl UnlockConditionAnalyticsResult {
    /// The counters, in the order of the fields.
    pub open spec fn fields(self) -> Seq<int> {
        seq![
            self.timelock_count as int,
            self.timelock_value as int,
            self.expiration_count as int,
            self.expiration_value as int,
            self.storage_deposit_return_count as int,
            self.storage_deposit_return_value as int,
            self.storage_deposit_return_inner_value as int,
        ]
    }

    /// Moves the unlock condition analytics on by one ledger: the unlock
    /// conditions of the outputs it created are added, and those of the
    /// outputs it consumed taken off.
    pub fn apply_changes(&mut self, created: &Self, consumed: &Self)
        requires
            changes_fit(old(self).fields(), created.fields(), consumed.fields()),
        ensures
            final(self).fields() == applied(old(self).fields(), created.fields(), consumed.fields()),
    {
        proof {
            let o = self.fields();
            assert(0 <= o[0] && 0 <= o[1] && 0 <= o[2] && 0 <= o[3] && 0 <= o[4] && 0 <= o[5] && 0 <= o[6]);
        }
        let ghost before = *self;
        self.timelock_count = self.timelock_count + created.timelock_count - consumed.timelock_count;
        self.timelock_value = self.timelock_value + created.timelock_value - consumed.timelock_value;
        self.expiration_count = self.expiration_count + created.expiration_count - consumed.expiration_count;
        self.expiration_value = self.expiration_value + created.expiration_value - consumed.expiration_value;
        self.storage_deposit_return_count = self.storage_deposit_return_count + created.storage_deposit_return_count
            - consumed.storage_deposit_return_count;
        self.storage_deposit_return_value = self.storage_deposit_return_value + created.storage_deposit_return_value
            - consumed.storage_deposit_return_value;
        self.storage_deposit_return_inner_value = self.storage_deposit_return_inner_value
            + created.storage_deposit_return_inner_value - consumed.storage_deposit_return_inner_value;
        proof {
            assert(self.fields() =~= applied(before.fields(), created.fields(), consumed.fields()));
        }
    }
}

impl UnclaimedTokenAnalyticsResult {
    /// Takes the tokens claimed in one ledger off the unclaimed ones.
    pub fn remove_claimed(&mut self, claimed: &Self)
        requires
            claimed.unclaimed_count <= old(self).unclaimed_count,
            claimed.unclaimed_value <= old(self).unclaimed_value,
        ensures
            final(self).unclaimed_count == old(self).unclaimed_count - claimed.unclaimed_count,
            final(self).unclaimed_value == old(self).unclaimed_value - claimed.unclaimed_value,
    {
        self.unclaimed_count = self.unclaimed_count - claimed.unclaimed_count;
        self.unclaimed_value = self.unclaimed_value - claimed.unclaimed_value;
    }
}

/// A measurement taken at a milestone.
#[derive(Clone, Copy, Debug, PartialEq, Eq)]
pub struct PerMilestone<M> {
    pub at: MilestoneIndexTimestamp,
    pub inner: M,
}

/// A measurement taken over a time interval, in seconds since the Unix epoch.
#[derive(Clone, Copy, Debug, PartialEq, Eq)]
pub struct TimeInterval<M> {
    pub from: MilestoneTimestamp,
    pub to_exclusive: MilestoneTimestamp,
    pub inner: M,
}

/// A measurement of one of the analytics.
#[derive(Clone, Copy, Debug, PartialEq, Eq)]
pub enum Measurement {
    AddressActivity(PerMilestone<AddressAnalyticsResult>),
    BaseTokenActivity(PerMilestone<BaseTokenActivityAnalyticsResult>),
    BlockActivity(PerMilestone<BlockActivityAnalyticsResult>),
    DailyActiveAddresses(TimeInterval<DailyActiveAddressAnalyticsResult>),
    LedgerOutputs(PerMilestone<LedgerOutputAnalyticsResult>),
    LedgerSize(PerMilestone<LedgerSizeAnalyticsResult>),
    OutputActivity(PerMilestone<OutputActivityAnalyticsResult>),
    ProtocolParameters(PerMilestone<ProtocolParameters>),
    UnclaimedTokens(PerMilestone<UnclaimedTokenAnalyticsResult>),
    UnlockConditions(PerMilestone<UnlockConditionAnalyticsResult>),
}

/// A point of a time series: a measurement name, the second it was taken,
/// and its named values.
#[derive(Clone, Debug, PartialEq, Eq)]
pub struct InfluxPoint {
    pub measurement: &'static str,
    pub timestamp: MilestoneTimestamp,
    pub fields: Vec<(&'static str, u64)>,
}

/// The named values of a point as mathematical values.
pub open spec fn named(fields: Seq<(&'static str, u64)>) -> Seq<(Seq<char>, u64)> {
    fields.map_values(|f: (&'static str, u64)| (f.0@, f.1))
}

/// A point as mathematical values.
pub open spec fn point_view(p: InfluxPoint) -> (Seq<char>, u32, Seq<(Seq<char>, u64)>) {
    (p.measurement@, p.timestamp.0, named(p.fields@))
}

/// The point of a measurement taken at milestone `at`: its time, and the
/// milestone index as its first value.
pub open spec fn at_milestone(
    name: Seq<char>,
    at: MilestoneIndexTimestamp,
    fields: Seq<(Seq<char>, u64)>,
) -> (Seq<char>, u32, Seq<(Seq<char>, u64)>) {
    (name, at.milestone_timestamp.0, seq![("milestone_index"@, at.milestone_index.0 as u64)] + fields)
}

/// The point that a measurement is written as.
pub open spec fn measurement_point(m: Measurement) -> (Seq<char>, u32, Seq<(Seq<char>, u64)>) {
    match m {
        Measurement::AddressActivity(m) => at_milestone(
            "stardust_addresses"@,
            m.at,
            seq![("address_with_balance_count"@, m.inner.address_with_balance_count)],
        ),
        Measurement::BaseTokenActivity(m) => at_milestone(
            "stardust_base_token_activity"@,
            m.at,
            seq![("booked_value"@, m.inner.booked_value), ("transferred_value"@, m.inner.transferred_value)],
        ),
        Measurement::BlockActivity(m) => at_milestone(
            "stardust_block_activity"@,
            m.at,
            seq![
                ("transaction_count"@, m.inner.payload.transaction_count as u64),
                ("treasury_transaction_count"@, m.inner.payload.treasury_transaction_count as u64),
                ("milestone_count"@, m.inner.payload.milestone_count as u64),
                ("tagged_data_count"@, m.inner.payload.tagged_data_count as u64),
                ("no_payload_count"@, m.inner.payload.no_payload_count as u64),
                ("confirmed_count"@, m.inner.transaction.confirmed_count as u64),
                ("conflicting_count"@, m.inner.transaction.conflicting_count as u64),
                ("no_transaction_count"@, m.inner.transaction.no_transaction_count as u64),
            ],
        ),
        Measurement::DailyActiveAddresses(t) => (
            "stardust_daily_active_addresses"@,
            last_second(t.to_exclusive.0),
            seq![("count"@, t.inner.count)],
        ),
        Measurement::LedgerOutputs(m) => at_milestone(
            "stardust_ledger_outputs"@,
            m.at,
            seq![
                ("basic_count"@, m.inner.basic_count),
                ("basic_value"@, m.inner.basic_value),
                ("alias_count"@, m.inner.alias_count),
                ("alias_value"@, m.inner.alias_value),
                ("foundry_count"@, m.inner.foundry_count),
                ("foundry_value"@, m.inner.foundry_value),
                ("nft_count"@, m.inner.nft_count),
                ("nft_value"@, m.inner.nft_value),
                ("treasury_count"@, m.inner.treasury_count),
                ("treasury_value"@, m.inner.treasury_value),
            ],
        ),
        Measurement::LedgerSize(m) => at_milestone(
            "stardust_ledger_size"@,
            m.at,
            seq![
                ("total_storage_deposit_value"@, m.inner.total_storage_deposit_value),
                ("total_key_bytes"@, m.inner.total_key_bytes),
                ("total_data_bytes"@, m.inner.total_data_bytes),
            ],
        ),
        Measurement::OutputActivity(m) => at_milestone(
            "stardust_output_activity"@,
            m.at,
            seq![
                ("alias_created_count"@, m.inner.alias.created_count),
                ("alias_state_changed_count"@, m.inner.alias.state_changed_count),
                ("alias_governor_changed_count"@, m.inner.alias.governor_changed_count),
                ("alias_destroyed_count"@, m.inner.alias.destroyed_count),
                ("nft_created_count"@, m.inner.nft.created_count),
                ("nft_transferred_count"@, m.inner.nft.transferred_count),
                ("nft_destroyed_count"@, m.inner.nft.destroyed_count),
            ],
        ),
        Measurement::ProtocolParameters(m) => at_milestone(
            "stardust_protocol_params"@,
            m.at,
            seq![
                ("token_supply"@, m.inner.token_supply),
                ("min_pow_score"@, m.inner.min_pow_score as u64),
                ("below_max_depth"@, m.inner.below_max_depth as u64),
                ("v_byte_cost"@, m.inner.rent_structure.v_byte_cost as u64),
                ("v_byte_factor_key"@, m.inner.rent_structure.v_byte_factor_key as u64),
                ("v_byte_factor_data"@, m.inner.rent_structure.v_byte_factor_data as u64),
            ],
        ),
        Measurement::UnclaimedTokens(m) => at_milestone(
            "stardust_unclaimed_rewards"@,
            m.at,
            seq![("unclaimed_count"@, m.inner.unclaimed_count), ("unclaimed_value"@, m.inner.unclaimed_value)],
        ),
        Measurement::UnlockConditions(m) => at_milestone(
            "stardust_unlock_conditions"@,
            m.at,
            seq![
                ("expiration_count"@, m.inner.expiration_count),
                ("expiration_value"@, m.inner.expiration_value),
                ("timelock_count"@, m.inner.timelock_count),
                ("timelock_value"@, m.inner.timelock_value),
                ("storage_deposit_return_count"@, m.inner.storage_deposit_return_count),
                ("storage_deposit_return_value"@, m.inner.storage_deposit_return_value),
            ],
        ),
    }
}

/// The point of a address activity measurement is stamped with the time of its
/// milestone and carries the milestone index and, under each field name, the
/// result value of that name.
pub proof fn lemma_address_activity_point(m: PerMilestone<AddressAnalyticsResult>)
    ensures
        measurement_point(Measurement::AddressActivity(m)).1 == m.at.milestone_timestamp.0,
        measurement_point(Measurement::AddressActivity(m)).2.len() == 2,
        measurement_point(Measurement::AddressActivity(m)).2.contains(("milestone_index"@, m.at.milestone_index.0 as u64)),
        measurement_point(Measurement::AddressActivity(m)).2.contains(("address_with_balance_count"@, m.inner.address_with_balance_count)),
{
    let f = measurement_point(Measurement::AddressActivity(m)).2;
    assert(f[0] == ("milestone_index"@, m.at.milestone_index.0 as u64));
    assert(f[1] == ("address_with_balance_count"@, m.inner.address_with_balance_count));
}

/// The point of a base token activity measurement is stamped with the time of its
/// milestone and carries the milestone index and, under each field name, the
/// result value of that name.
pub proof fn lemma_base_token_activity_point(m: PerMilestone<BaseTokenActivityAnalyticsResult>)
    ensures
        measurement_point(Measurement::BaseTokenActivity(m)).1 == m.at.milestone_timestamp.0,
        measurement_point(Measurement::BaseTokenActivity(m)).2.len() == 3,
        measurement_point(Measurement::BaseTokenActivity(m)).2.contains(("milestone_index"@, m.at.milestone_index.0 as u64)),
        measurement_point(Measurement::BaseTokenActivity(m)).2.contains(("booked_value"@, m.inner.booked_value)),
        measurement_point(Measurement::BaseTokenActivity(m)).2.contains(("transferred_value"@, m.inner.transferred_value)),
{
    let f = measurement_point(Measurement::BaseTokenActivity(m)).2;
    assert(f[0] == ("milestone_index"@, m.at.milestone_index.0 as u64));
    assert(f[1] == ("booked_value"@, m.inner.booked_value));
    assert(f[2] == ("transferred_value"@, m.inner.transferred_value));
}

/// The point of a block activity measurement is stamped with the time of its
/// milestone and carries the milestone index and, under each field name, the
/// result value of that name.
pub proof fn lemma_block_activity_point(m: PerMilestone<BlockActivityAnalyticsResult>)
    ensures
        measurement_point(Measurement::BlockActivity(m)).1 == m.at.milestone_timestamp.0,
        measurement_point(Measurement::BlockActivity(m)).2.len() == 9,
        measurement_point(Measurement::BlockActivity(m)).2.contains(("milestone_index"@, m.at.milestone_index.0 as u64)),
        measurement_point(Measurement::BlockActivity(m)).2.contains(("transaction_count"@, m.inner.payload.transaction_count as u64)),
        measurement_point(Measurement::BlockActivity(m)).2.contains(("treasury_transaction_count"@, m.inner.payload.treasury_transaction_count as u64)),
        measurement_point(Measurement::BlockActivity(m)).2.contains(("milestone_count"@, m.inner.payload.milestone_count as u64)),
        measurement_point(Measurement::BlockActivity(m)).2.contains(("tagged_data_count"@, m.inner.payload.tagged_data_count as u64)),
        measurement_point(Measurement::BlockActivity(m)).2.contains(("no_payload_count"@, m.inner.payload.no_payload_count as u64)),
        measurement_point(Measurement::BlockActivity(m)).2.contains(("confirmed_count"@, m.inner.transaction.confirmed_count as u64)),
        measurement_point(Measurement::BlockActivity(m)).2.contains(("conflicting_count"@, m.inner.transaction.conflicting_count as u64)),
        measurement_point(Measurement::BlockActivity(m)).2.contains(("no_transaction_count"@, m.inner.transaction.no_transaction_count as u64)),
{
    let f = measurement_point(Measurement::BlockActivity(m)).2;
    assert(f[0] == ("milestone_index"@, m.at.milestone_index.0 as u64));
    assert(f[1] == ("transaction_count"@, m.inner.payload.transaction_count as u64));
    assert(f[2] == ("treasury_transaction_count"@, m.inner.payload.treasury_transaction_count as u64));
    assert(f[3] == ("milestone_count"@, m.inner.payload.milestone_count as u64));
    assert(f[4] == ("tagged_data_count"@, m.inner.payload.tagged_data_count as u64));
    assert(f[5] == ("no_payload_count"@, m.inner.payload.no_payload_count as u64));
    assert(f[6] == ("confirmed_count"@, m.inner.transaction.confirmed_count as u64));
    assert(f[7] == ("conflicting_count"@, m.inner.transaction.conflicting_count as u64));
    assert(f[8] == ("no_transaction_count"@, m.inner.transaction.no_transaction_count as u64));
}

/// The point of a ledger outputs measurement is stamped with the time of its
/// milestone and carries the milestone index and, under each field name, the
/// result value of that name.
pub proof fn lemma_ledger_outputs_point(m: PerMilestone<LedgerOutputAnalyticsResult>)
    ensures
        measurement_point(Measurement::LedgerOutputs(m)).1 == m.at.milestone_timestamp.0,
        measurement_point(Measurement::LedgerOutputs(m)).2.len() == 11,
        measurement_point(Measurement::LedgerOutputs(m)).2.contains(("milestone_index"@, m.at.milestone_index.0 as u64)),
        measurement_point(Measurement::LedgerOutputs(m)).2.contains(("basic_count"@, m.inner.basic_count)),
        measurement_point(Measurement::LedgerOutputs(m)).2.contains(("basic_value"@, m.inner.basic_value)),
        measurement_point(Measurement::LedgerOutputs(m)).2.contains(("alias_count"@, m.inner.alias_count)),
        measurement_point(Measurement::LedgerOutputs(m)).2.contains(("alias_value"@, m.inner.alias_value)),
        measurement_point(Measurement::LedgerOutputs(m)).2.contains(("foundry_count"@, m.inner.foundry_count)),
        measurement_point(Measurement::LedgerOutputs(m)).2.contains(("foundry_value"@, m.inner.foundry_value)),
        measurement_point(Measurement::LedgerOutputs(m)).2.contains(("nft_count"@, m.inner.nft_count)),
        measurement_point(Measurement::LedgerOutputs(m)).2.contains(("nft_value"@, m.inner.nft_value)),
        measurement_point(Measurement::LedgerOutputs(m)).2.contains(("treasury_count"@, m.inner.treasury_count)),
        measurement_point(Measurement::LedgerOutputs(m)).2.contains(("treasury_value"@, m.inner.treasury_value)),
{
    let f = measurement_point(Measurement::LedgerOutputs(m)).2;
    assert(f[0] == ("milestone_index"@, m.at.milestone_index.0 as u64));
    assert(f[1] == ("basic_count"@, m.inner.basic_count));
    assert(f[2] == ("basic_value"@, m.inner.basic_value));
    assert(f[3] == ("alias_count"@, m.inner.alias_count));
    assert(f[4] == ("alias_value"@, m.inner.alias_value));
    assert(f[5] == ("foundry_count"@, m.inner.foundry_count));
    assert(f[6] == ("foundry_value"@, m.inner.foundry_value));
    assert(f[7] == ("nft_count"@, m.inner.nft_count));
    assert(f[8] == ("nft_value"@, m.inner.nft_value));
    assert(f[9] == ("treasury_count"@, m.inner.treasury_count));
    assert(f[10] == ("treasury_value"@, m.inner.treasury_value));
}

/// The point of a ledger size measurement is stamped with the time of its
/// milestone and carries the milestone index and, under each field name, the
/// result value of that name.
pub proof fn lemma_ledger_size_point(m: PerMilestone<LedgerSizeAnalyticsResult>)
    ensures
        measurement_point(Measurement::LedgerSize(m)).1 == m.at.milestone_timestamp.0,
        measurement_point(Measurement::LedgerSize(m)).2.len() == 4,
        measurement_point(Measurement::LedgerSize(m)).2.contains(("milestone_index"@, m.at.milestone_index.0 as u64)),
        measurement_point(Measurement::LedgerSize(m)).2.contains(("total_storage_deposit_value"@, m.inner.total_storage_deposit_value)),
        measurement_point(Measurement::LedgerSize(m)).2.contains(("total_key_bytes"@, m.inner.total_key_bytes)),
        measurement_point(Measurement::LedgerSize(m)).2.contains(("total_data_bytes"@, m.inner.total_data_bytes)),
{
    let f = measurement_point(Measurement::LedgerSize(m)).2;
    assert(f[0] == ("milestone_index"@, m.at.milestone_index.0 as u64));
    assert(f[1] == ("total_storage_deposit_value"@, m.inner.total_storage_deposit_value));
    assert(f[2] == ("total_key_bytes"@, m.inner.total_key_bytes));
    assert(f[3] == ("total_data_bytes"@, m.inner.total_data_bytes));
}

/// The point of a output activity measurement is stamped with the time of its
/// milestone and carries the milestone index and, under each field name, the
/// result value of that name.
pub proof fn lemma_output_activity_point(m: PerMilestone<OutputActivityAnalyticsResult>)
    ensures
        measurement_point(Measurement::OutputActivity(m)).1 == m.at.milestone_timestamp.0,
        measurement_point(Measurement::OutputActivity(m)).2.len() == 8,
        measurement_point(Measurement::OutputActivity(m)).2.contains(("milestone_index"@, m.at.milestone_index.0 as u64)),
        measurement_point(Measurement::OutputActivity(m)).2.contains(("alias_created_count"@, m.inner.alias.created_count)),
        measurement_point(Measurement::OutputActivity(m)).2.contains(("alias_state_changed_count"@, m.inner.alias.state_changed_count)),
        measurement_point(Measurement::OutputActivity(m)).2.contains(("alias_governor_changed_count"@, m.inner.alias.governor_changed_count)),
        measurement_point(Measurement::OutputActivity(m)).2.contains(("alias_destroyed_count"@, m.inner.alias.destroyed_count)),
        measurement_point(Measurement::OutputActivity(m)).2.contains(("nft_created_count"@, m.inner.nft.created_count)),
        measurement_point(Measurement::OutputActivity(m)).2.contains(("nft_transferred_count"@, m.inner.nft.transferred_count)),
        measurement_point(Measurement::OutputActivity(m)).2.contains(("nft_destroyed_count"@, m.inner.nft.destroyed_count)),
{
    let f = measurement_point(Measurement::OutputActivity(m)).2;
    assert(f[0] == ("milestone_index"@, m.at.milestone_index.0 as u64));
    assert(f[1] == ("alias_created_count"@, m.inner.alias.created_count));
    assert(f[2] == ("alias_state_changed_count"@, m.inner.alias.state_changed_count));
    assert(f[3] == ("alias_governor_changed_count"@, m.inner.alias.governor_changed_count));
    assert(f[4] == ("alias_destroyed_count"@, m.inner.alias.destroyed_count));
    assert(f[5] == ("nft_created_count"@, m.inner.nft.created_count));
    assert(f[6] == ("nft_transferred_count"@, m.inner.nft.transferred_count));
    assert(f[7] == ("nft_destroyed_count"@, m.inner.nft.destroyed_count));
}

/// The point of a protocol parameters measurement is stamped with the time of its
/// milestone and carries the milestone index and, under each field name, the
/// result value of that name.
pub proof fn lemma_protocol_parameters_point(m: PerMilestone<ProtocolParameters>)
    ensures
        measurement_point(Measurement::ProtocolParameters(m)).1 == m.at.milestone_timestamp.0,
        measurement_point(Measurement::ProtocolParameters(m)).2.len() == 7,
        measurement_point(Measurement::ProtocolParameters(m)).2.contains(("milestone_index"@, m.at.milestone_index.0 as u64)),
        measurement_point(Measurement::ProtocolParameters(m)).2.contains(("token_supply"@, m.inner.token_supply)),
        measurement_point(Measurement::ProtocolParameters(m)).2.contains(("min_pow_score"@, m.inner.min_pow_score as u64)),
        measurement_point(Measurement::ProtocolParameters(m)).2.contains(("below_max_depth"@, m.inner.below_max_depth as u64)),
        measurement_point(Measurement::ProtocolParameters(m)).2.contains(("v_byte_cost"@, m.inner.rent_structure.v_byte_cost as u64)),
        measurement_point(Measurement::ProtocolParameters(m)).2.contains(("v_byte_factor_key"@, m.inner.rent_structure.v_byte_factor_key as u64)),
        measurement_point(Measurement::ProtocolParameters(m)).2.contains(("v_byte_factor_data"@, m.inner.rent_structure.v_byte_factor_data as u64)),
{
    let f = measurement_point(Measurement::ProtocolParameters(m)).2;
    assert(f[0] == ("milestone_index"@, m.at.milestone_index.0 as u64));
    assert(f[1] == ("token_supply"@, m.inner.token_supply));
    assert(f[2] == ("min_pow_score"@, m.inner.min_pow_score as u64));
    assert(f[3] == ("below_max_depth"@, m.inner.below_max_depth as u64));
    assert(f[4] == ("v_byte_cost"@, m.inner.rent_structure.v_byte_cost as u64));
    assert(f[5] == ("v_byte_factor_key"@, m.inner.rent_structure.v_byte_factor_key as u64));
    assert(f[6] == ("v_byte_factor_data"@, m.inner.rent_structure.v_byte_factor_data as u64));
}

/// The point of a unclaimed tokens measurement is stamped with the time of its
/// milestone and carries the milestone index and, under each field name, the
/// result value of that name.
pub proof fn lemma_unclaimed_tokens_point(m: PerMilestone<UnclaimedTokenAnalyticsResult>)
    ensures
        measurement_point(Measurement::UnclaimedTokens(m)).1 == m.at.milestone_timestamp.0,
        measurement_point(Measurement::UnclaimedTokens(m)).2.len() == 3,
        measurement_point(Measurement::UnclaimedTokens(m)).2.contains(("milestone_index"@, m.at.milestone_index.0 as u64)),
        measurement_point(Measurement::UnclaimedTokens(m)).2.contains(("unclaimed_count"@, m.inner.unclaimed_count)),
        measurement_point(Measurement::UnclaimedTokens(m)).2.contains(("unclaimed_value"@, m.inner.unclaimed_value)),
{
    let f = measurement_point(Measurement::UnclaimedTokens(m)).2;
    assert(f[0] == ("milestone_index"@, m.at.milestone_index.0 as u64));
    assert(f[1] == ("unclaimed_count"@, m.inner.unclaimed_count));
    assert(f[2] == ("unclaimed_value"@, m.inner.unclaimed_value));
}

/// The point of a unlock conditions measurement is stamped with the time of its
/// milestone and carries the milestone index and, under each field name, the
/// result value of that name.
pub proof fn lemma_unlock_conditions_point(m: PerMilestone<UnlockConditionAnalyticsResult>)
    ensures
        measurement_point(Measurement::UnlockConditions(m)).1 == m.at.milestone_timestamp.0,
        measurement_point(Measurement::UnlockConditions(m)).2.len() == 7,
        measurement_point(Measurement::UnlockConditions(m)).2.contains(("milestone_index"@, m.at.milestone_index.0 as u64)),
        measurement_point(Measurement::UnlockConditions(m)).2.contains(("expiration_count"@, m.inner.expiration_count)),
        measurement_point(Measurement::UnlockConditions(m)).2.contains(("expiration_value"@, m.inner.expiration_value)),
        measurement_point(Measurement::UnlockConditions(m)).2.contains(("timelock_count"@, m.inner.timelock_count)),
        measurement_point(Measurement::UnlockConditions(m)).2.contains(("timelock_value"@, m.inner.timelock_value)),
        measurement_point(Measurement::UnlockConditions(m)).2.contains(("storage_deposit_return_count"@, m.inner.storage_deposit_return_count)),
        measurement_point(Measurement::UnlockConditions(m)).2.contains(("storage_deposit_return_value"@, m.inner.storage_deposit_return_value)),
{
    let f = measurement_point(Measurement::UnlockConditions(m)).2;
    assert(f[0] == ("milestone_index"@, m.at.milestone_index.0 as u64));
    assert(f[1] == ("expiration_count"@, m.inner.expiration_count));
    assert(f[2] == ("expiration_value"@, m.inner.expiration_value));
    assert(f[3] == ("timelock_count"@, m.inner.timelock_count));
    assert(f[4] == ("timelock_value"@, m.inner.timelock_value));
    assert(f[5] == ("storage_deposit_return_count"@, m.inner.storage_deposit_return_count));
    assert(f[6] == ("storage_deposit_return_value"@, m.inner.storage_deposit_return_value));
}

/// The point of a daily active address count is stamped with the last
/// second of its interval and carries the count.
pub proof fn lemma_daily_active_addresses_point(t: TimeInterval<DailyActiveAddressAnalyticsResult>)
    ensures
        measurement_point(Measurement::DailyActiveAddresses(t)).1 == last_second(t.to_exclusive.0),
        measurement_point(Measurement::DailyActiveAddresses(t)).2 == seq![("count"@, t.inner.count)],
{
}

/// The last second before an exclusive end: the second before it, wrapping
/// round to the largest time for an interval that ends at the epoch.
pub open spec fn last_second(to_exclusive: u32) -> u32 {
    if to_exclusive == 0 {
        u32::MAX
    } else {
        (to_exclusive - 1) as u32
    }
}

/// Starts the point of a measurement taken at milestone `at`.
fn milestone_point(name: &'static str, at: MilestoneIndexTimestamp) -> (r: InfluxPoint)
    ensures
        point_view(r) == at_milestone(name@, at, seq![]),
{
    let mut fields: Vec<(&'static str, u64)> = Vec::new();
    fields.push(("milestone_index", at.milestone_index.0 as u64));
    let r = InfluxPoint { measurement: name, timestamp: at.milestone_timestamp, fields };
    proof {
        assert(named(r.fields@) =~= seq![("milestone_index"@, at.milestone_index.0 as u64)] + seq![]);
    }
    r
}

/// Appends a named value to a point.
fn add_field(p: &mut InfluxPoint, name: &'static str, value: u64)
    ensures
        point_view(*final(p)) == (point_view(*old(p)).0, point_view(*old(p)).1, point_view(*old(p)).2.push(
            (name@, value),
        )),
{
    let ghost before = p.fields@;
    p.fields.push((name, value));
    proof {
        assert(named(p.fields@) =~= named(before).push((name@, value)));
    }
}

impl InfluxPoint {
    /// The point that a measurement is written as.
    pub fn from_measurement(m: &Measurement) -> (r: InfluxPoint)
        ensures
            point_view(r) == measurement_point(*m),
    {
        match m {
            Measurement::AddressActivity(m) => {
                let mut p = milestone_point("stardust_addresses", m.at);
                add_field(&mut p, "address_with_balance_count", m.inner.address_with_balance_count);
                proof {
                    assert(point_view(p).2 =~= measurement_point(Measurement::AddressActivity(*m)).2);
                }
                p
            },
            Measurement::BaseTokenActivity(m) => {
                let mut p = milestone_point("stardust_base_token_activity", m.at);
                add_field(&mut p, "booked_value", m.inner.booked_value);
                add_field(&mut p, "transferred_value", m.inner.transferred_value);
                proof {
                    assert(point_view(p).2 =~= measurement_point(Measurement::BaseTokenActivity(*m)).2);
                }
                p
            },
            Measurement::BlockActivity(m) => {
                let mut p = milestone_point("stardust_block_activity", m.at);
                add_field(&mut p, "transaction_count", m.inner.payload.transaction_count as u64);
                add_field(&mut p, "treasury_transaction_count", m.inner.payload.treasury_transaction_count as u64);
                add_field(&mut p, "milestone_count", m.inner.payload.milestone_count as u64);
                add_field(&mut p, "tagged_data_count", m.inner.payload.tagged_data_count as u64);
                add_field(&mut p, "no_payload_count", m.inner.payload.no_payload_count as u64);
                add_field(&mut p, "confirmed_count", m.inner.transaction.confirmed_count as u64);
                add_field(&mut p, "conflicting_count", m.inner.transaction.conflicting_count as u64);
                add_field(&mut p, "no_transaction_count", m.inner.transaction.no_transaction_count as u64);
                proof {
                    assert(point_view(p).2 =~= measurement_point(Measurement::BlockActivity(*m)).2);
                }
                p
            },
            Measurement::DailyActiveAddresses(t) => {
                // The interval's last second: its end is exclusive.
                let timestamp = MilestoneTimestamp(t.to_exclusive.0.wrapping_sub(1));
                let mut p = InfluxPoint {
                    measurement: "stardust_daily_active_addresses",
                    timestamp,
                    fields: Vec::new(),
                };
                proof {
                    assert(named(p.fields@) =~= seq![]);
                }
                add_field(&mut p, "count", t.inner.count);
                proof {
                    assert(point_view(p).2 =~= measurement_point(Measurement::DailyActiveAddresses(*t)).2);
                }
                p
            },
            Measurement::LedgerOutputs(m) => {
                let mut p = milestone_point("stardust_ledger_outputs", m.at);
                add_field(&mut p, "basic_count", m.inner.basic_count);
                add_field(&mut p, "basic_value", m.inner.basic_value);
                add_field(&mut p, "alias_count", m.inner.alias_count);
                add_field(&mut p, "alias_value", m.inner.alias_value);
                add_field(&mut p, "foundry_count", m.inner.foundry_count);
                add_field(&mut p, "foundry_value", m.inner.foundry_value);
                add_field(&mut p, "nft_count", m.inner.nft_count);
                add_field(&mut p, "nft_value", m.inner.nft_value);
                add_field(&mut p, "treasury_count", m.inner.treasury_count);
                add_field(&mut p, "treasury_value", m.inner.treasury_value);
                proof {
                    assert(point_view(p).2 =~= measurement_point(Measurement::LedgerOutputs(*m)).2);
                }
                p
            },
            Measurement::LedgerSize(m) => {
                let mut p = milestone_point("stardust_ledger_size", m.at);
                add_field(&mut p, "total_storage_deposit_value", m.inner.total_storage_deposit_value);
                add_field(&mut p, "total_key_bytes", m.inner.total_key_bytes);
                add_field(&mut p, "total_data_bytes", m.inner.total_data_bytes);
                proof {
                    assert(point_view(p).2 =~= measurement_point(Measurement::LedgerSize(*m)).2);
                }
                p
            },
            Measurement::OutputActivity(m) => {
                let mut p = milestone_point("stardust_output_activity", m.at);
                add_field(&mut p, "alias_created_count", m.inner.alias.created_count);
                add_field(&mut p, "alias_state_changed_count", m.inner.alias.state_changed_count);
                add_field(&mut p, "alias_governor_changed_count", m.inner.alias.governor_changed_count);
                add_field(&mut p, "alias_destroyed_count", m.inner.alias.destroyed_count);
                add_field(&mut p, "nft_created_count", m.inner.nft.created_count);
                add_field(&mut p, "nft_transferred_count", m.inner.nft.transferred_count);
                add_field(&mut p, "nft_destroyed_count", m.inner.nft.destroyed_count);
                proof {
                    assert(point_view(p).2 =~= measurement_point(Measurement::OutputActivity(*m)).2);
                }
                p
            },
            Measurement::ProtocolParameters(m) => {
                let mut p = milestone_point("stardust_protocol_params", m.at);
                add_field(&mut p, "token_supply", m.inner.token_supply);
                add_field(&mut p, "min_pow_score", m.inner.min_pow_score as u64);
                add_field(&mut p, "below_max_depth", m.inner.below_max_depth as u64);
                add_field(&mut p, "v_byte_cost", m.inner.rent_structure.v_byte_cost as u64);
                add_field(&mut p, "v_byte_factor_key", m.inner.rent_structure.v_byte_factor_key as u64);
                add_field(&mut p, "v_byte_factor_data", m.inner.rent_structure.v_byte_factor_data as u64);
                proof {
                    assert(point_view(p).2 =~= measurement_point(Measurement::ProtocolParameters(*m)).2);
                }
                p
            },
            Measurement::UnclaimedTokens(m) => {
                let mut p = milestone_point("stardust_unclaimed_rewards", m.at);
                add_field(&mut p, "unclaimed_count", m.inner.unclaimed_count);
                add_field(&mut p, "unclaimed_value", m.inner.unclaimed_value);
                proof {
                    assert(point_view(p).2 =~= measurement_point(Measurement::UnclaimedTokens(*m)).2);
                }
                p
            },
            Measurement::UnlockConditions(m) => {
                let mut p = milestone_point("stardust_unlock_conditions", m.at);
                add_field(&mut p, "expiration_count", m.inner.expiration_count);
                add_field(&mut p, "expiration_value", m.inner.expiration_value);
                add_field(&mut p, "timelock_count", m.inner.timelock_count);
                add_field(&mut p, "timelock_value", m.inner.timelock_value);
                add_field(&mut p, "storage_deposit_return_count", m.inner.storage_deposit_return_count);
                add_field(&mut p, "storage_deposit_return_value", m.inner.storage_deposit_return_value);
                proof {
                    assert(point_view(p).2 =~= measurement_point(Measurement::UnlockConditions(*m)).2);
                }
                p
            },
        }
    }
}

} // verus!
