//! Analytics of a milestone: what its blocks carry and what its ledger
//! updates do to the outputs, the addresses and the storage deposits.

use vstd::prelude::*;
use vstd::seq_lib::*;

use crate::types::{Address, AddressKind, LedgerInclusionState, OutputType, PayloadType, ProtocolParameters};

verus! {

/// The largest amount an output can carry, as a number.
pub open spec fn max_amount() -> int {
    18446744073709551615
}

/// Analytics about the addresses of the outputs processed.
#[derive(Clone, Copy, Debug, PartialEq, Eq, Structural)]
pub struct AddressAnalytics {
    /// The number of addresses used in the time period.
    pub total_active_addresses: u64,
    /// The number of addresses that received tokens in the time period.
    pub receiving_addresses: u64,
    /// The number of addresses that sent tokens in the time period.
    pub sending_addresses: u64,
}

impl Default for AddressAnalytics {
    fn default() -> (r: Self)
        ensures
            r == (AddressAnalytics { total_active_addresses: 0, receiving_addresses: 0, sending_addresses: 0 }),
    {
        AddressAnalytics { total_active_addresses: 0, receiving_addresses: 0, sending_addresses: 0 }
    }
}

/// The number of outputs of a kind, and the tokens they hold.
#[derive(Clone, Copy, Debug, PartialEq, Eq, Structural)]
pub struct OutputAnalytics {
    /// The number of outputs.
    pub count: u64,
    /// The tokens they hold together.
    pub total_value: i128,
}

/// The analytics of no output.
pub open spec fn zero_output_analytics() -> OutputAnalytics {
    OutputAnalytics { count: 0, total_value: 0 }
}

impl Default for OutputAnalytics {
    fn default() -> (r: Self)
        ensures
            r == zero_output_analytics(),
    {
        OutputAnalytics { count: 0, total_value: 0 }
    }
}

/// The output analytics of each kind of output that has an entry.
#[derive(Clone, Copy, Debug, PartialEq, Eq)]
pub struct OutputAnalyticsMap {
    treasury: Option<OutputAnalytics>,
    basic: Option<OutputAnalytics>,
    alias: Option<OutputAnalytics>,
    foundry: Option<OutputAnalytics>,
    nft: Option<OutputAnalytics>,
}

impl OutputAnalyticsMap {
    /// The entry of `kind`, if it has one.
    pub closed spec fn at(self, kind: OutputType) -> Option<OutputAnalytics> {
        match kind {
            OutputType::Treasury => self.treasury,
            OutputType::Basic => self.basic,
            OutputType::Alias => self.alias,
            OutputType::Foundry => self.foundry,
            OutputType::Nft => self.nft,
        }
    }

    /// The map with the entry of `kind` set to `entry`.
    pub closed spec fn with(self, kind: OutputType, entry: Option<OutputAnalytics>) -> Self {
        match kind {
            OutputType::Treasury => OutputAnalyticsMap { treasury: entry, ..self },
            OutputType::Basic => OutputAnalyticsMap { basic: entry, ..self },
            OutputType::Alias => OutputAnalyticsMap { alias: entry, ..self },
            OutputType::Foundry => OutputAnalyticsMap { foundry: entry, ..self },
            OutputType::Nft => OutputAnalyticsMap { nft: entry, ..self },
        }
    }

    /// What `with` does to each entry.
    pub proof fn lemma_with(self, kind: OutputType, entry: Option<OutputAnalytics>)
        ensures
            forall|k: OutputType| #[trigger] self.with(kind, entry).at(k) == if k == kind {
                entry
            } else {
                self.at(k)
            },
    {
    }

    /// Two maps with the same entries are equal.
    pub proof fn lemma_ext(self, other: Self)
        requires
            forall|k: OutputType| self.at(k) == other.at(k),
        ensures
            self == other,
    {
        assert(self.at(OutputType::Treasury) == other.at(OutputType::Treasury));
        assert(self.at(OutputType::Basic) == other.at(OutputType::Basic));
        assert(self.at(OutputType::Alias) == other.at(OutputType::Alias));
        assert(self.at(OutputType::Foundry) == other.at(OutputType::Foundry));
        assert(self.at(OutputType::Nft) == other.at(OutputType::Nft));
    }

    /// A map without entries.
    pub fn new() -> (r: Self)
        ensures
            forall|k: OutputType| #[trigger] r.at(k) is None,
    {
        OutputAnalyticsMap { treasury: None, basic: None, alias: None, foundry: None, nft: None }
    }

    /// The entry of `kind`, if it has one.
    pub fn get(&self, kind: OutputType) -> (r: Option<OutputAnalytics>)
        ensures
            r == self.at(kind),
    {
        match kind {
            OutputType::Treasury => self.treasury,
            OutputType::Basic => self.basic,
            OutputType::Alias => self.alias,
            OutputType::Foundry => self.foundry,
            OutputType::Nft => self.nft,
        }
    }

    /// Sets the entry of `kind`.
    pub fn set(&mut self, kind: OutputType, entry: Option<OutputAnalytics>)
        ensures
            *final(self) == old(self).with(kind, entry),
    {
        match kind {
            OutputType::Treasury => self.treasury = entry,
            OutputType::Basic => self.basic = entry,
            OutputType::Alias => self.alias = entry,
            OutputType::Foundry => self.foundry = entry,
            OutputType::Nft => self.nft = entry,
        }
    }

    /// The entries, in the order treasury, basic, alias, foundry, nft.
    pub closed spec fn entries_spec(self) -> Seq<(OutputType, OutputAnalytics)> {
        let entry = |k: OutputType, e: Option<OutputAnalytics>| match e {
            Some(v) => seq![(k, v)],
            None => Seq::<(OutputType, OutputAnalytics)>::empty(),
        };
        entry(OutputType::Treasury, self.treasury) + entry(OutputType::Basic, self.basic) + entry(
            OutputType::Alias,
            self.alias,
        ) + entry(OutputType::Foundry, self.foundry) + entry(OutputType::Nft, self.nft)
    }

    /// The entries, in the order treasury, basic, alias, foundry, nft.
    pub fn entries(&self) -> (r: Vec<(OutputType, OutputAnalytics)>)
        ensures
            r@ == self.entries_spec(),
            forall|i: int| 0 <= i < r@.len() ==> self.at((#[trigger] r@[i]).0) == Some(r@[i].1),
            forall|k: OutputType| #[trigger] self.at(k) is Some ==> exists|i: int| 0 <= i < r@.len() && r@[i].0 == k,
            forall|i: int, j: int| 0 <= i < j < r@.len() ==> (#[trigger] r@[i]).0 != (#[trigger] r@[j]).0,
    {
        let mut r: Vec<(OutputType, OutputAnalytics)> = Vec::new();
        if let Some(e) = self.treasury {
            r.push((OutputType::Treasury, e));
        }
        let ghost n0 = r@.len();
        if let Some(e) = self.basic {
            r.push((OutputType::Basic, e));
        }
        let ghost n1 = r@.len();
        if let Some(e) = self.alias {
            r.push((OutputType::Alias, e));
        }
        let ghost n2 = r@.len();
        if let Some(e) = self.foundry {
            r.push((OutputType::Foundry, e));
        }
        let ghost n3 = r@.len();
        if let Some(e) = self.nft {
            r.push((OutputType::Nft, e));
        }
        proof {
            assert(self.treasury is Some ==> r@[0].0 == OutputType::Treasury);
            assert(self.basic is Some ==> r@[n0 as int].0 == OutputType::Basic);
            assert(self.alias is Some ==> r@[n1 as int].0 == OutputType::Alias);
            assert(self.foundry is Some ==> r@[n2 as int].0 == OutputType::Foundry);
            assert(self.nft is Some ==> r@[n3 as int].0 == OutputType::Nft);
            assert(r@ =~= self.entries_spec());
        }
        r
    }
}

/// Analytics about the storage deposits of the outputs processed.
#[derive(Clone, Copy, Debug, PartialEq, Eq, Structural)]
pub struct StorageDepositAnalytics {
    /// The number of outputs.
    pub output_count: u64,
    /// The number of storage deposit return unlock conditions.
    pub storage_deposit_return_count: u64,
    /// The tokens that storage deposit return unlock conditions return.
    pub storage_deposit_return_total_value: i128,
    /// The key bytes of the outputs.
    pub total_key_bytes: i128,
    /// The data bytes of the outputs.
    pub total_data_bytes: i128,
}

/// The storage deposit analytics of no output.
pub open spec fn zero_storage_deposits() -> StorageDepositAnalytics {
    StorageDepositAnalytics {
        output_count: 0,
        storage_deposit_return_count: 0,
        storage_deposit_return_total_value: 0,
        total_key_bytes: 0,
        total_data_bytes: 0,
    }
}

impl Default for StorageDepositAnalytics {
    fn default() -> (r: Self)
        ensures
            r == zero_storage_deposits(),
    {
        StorageDepositAnalytics {
            output_count: 0,
            storage_deposit_return_count: 0,
            storage_deposit_return_total_value: 0,
            total_key_bytes: 0,
            total_data_bytes: 0,
        }
    }
}

/// The byte cost of the data bytes, counted twice, under a rent structure.
pub open spec fn byte_cost(total_data_bytes: int, v_byte_cost: int, v_byte_factor_data: int) -> int {
    v_byte_cost * (total_data_bytes * v_byte_factor_data + total_data_bytes * v_byte_factor_data)
}

impl StorageDepositAnalytics {
    /// The byte cost of the outputs under the rent structure of
    /// `protocol_params`: the virtual byte cost times twice the weighted data
    /// bytes (the key bytes do not enter).
    pub fn total_byte_cost(&self, protocol_params: &ProtocolParameters) -> (r: i128)
        requires
            i128::MIN <= byte_cost(
                self.total_data_bytes as int,
                protocol_params.rent_structure.v_byte_cost as int,
                protocol_params.rent_structure.v_byte_factor_data as int,
            ) <= i128::MAX,
            -0x1_0000_0000_0000_0000_0000_0000_0000 <= self.total_data_bytes
                <= 0x1_0000_0000_0000_0000_0000_0000_0000,
        ensures
            r == byte_cost(
                self.total_data_bytes as int,
                protocol_params.rent_structure.v_byte_cost as int,
                protocol_params.rent_structure.v_byte_factor_data as int,
            ),
    {
        let rent_structure = protocol_params.rent_structure;
        let cost = rent_structure.v_byte_cost as i128;
        let factor = rent_structure.v_byte_factor_data as i128;
        let d = self.total_data_bytes;
        proof {
            assert(-0x1_0000_0000_0000_0000_0000_0000_0000 * 255 <= d * factor
                <= 0x1_0000_0000_0000_0000_0000_0000_0000 * 255) by (nonlinear_arith)
                requires
                    -0x1_0000_0000_0000_0000_0000_0000_0000 <= d <= 0x1_0000_0000_0000_0000_0000_0000_0000,
                    0 <= factor <= 255,
            ;
        }
        let weighted = d * factor + d * factor;
        assert(weighted == d * factor + d * factor);
        cost * weighted
    }
}

/// Analytics about tokens that were claimed.
#[derive(Clone, Copy, Debug, PartialEq, Eq, Structural)]
pub struct ClaimedTokensAnalytics {
    /// The number of tokens claimed.
    pub count: i128,
}

impl Default for ClaimedTokensAnalytics {
    fn default() -> (r: Self)
        ensures
            r.count == 0,
    {
        ClaimedTokensAnalytics { count: 0 }
    }
}

/// Analytics about the blocks that a milestone references.
#[derive(Clone, Copy, Debug, PartialEq, Eq, Structural)]
pub struct MilestoneActivityAnalytics {
    /// The number of blocks referenced by a milestone.
    pub count: u32,
    /// The number of blocks referenced by a milestone that contain a payload.
    pub transaction_count: u32,
    /// The number of blocks containing a treasury transaction payload.
    pub treasury_transaction_count: u32,
    /// The number of blocks containing a milestone payload.
    pub milestone_count: u32,
    /// The number of blocks containing a tagged data payload.
    pub tagged_data_count: u32,
    /// The number of blocks referenced by a milestone that contain no payload.
    pub no_payload_count: u32,
    /// The number of blocks containing a confirmed transaction.
    pub confirmed_count: u32,
    /// The number of blocks containing a conflicting transaction.
    pub conflicting_count: u32,
    /// The number of blocks containing no transaction.
    pub no_transaction_count: u32,
}

/// The milestone activity of no block.
pub open spec fn zero_milestone_activity() -> MilestoneActivityAnalytics {
    MilestoneActivityAnalytics {
        count: 0,
        transaction_count: 0,
        treasury_transaction_count: 0,
        milestone_count: 0,
        tagged_data_count: 0,
        no_payload_count: 0,
        confirmed_count: 0,
        conflicting_count: 0,
        no_transaction_count: 0,
    }
}

impl Default for MilestoneActivityAnalytics {
    fn default() -> (r: Self)
        ensures
            r == zero_milestone_activity(),
    {
        MilestoneActivityAnalytics {
            count: 0,
            transaction_count: 0,
            treasury_transaction_count: 0,
            milestone_count: 0,
            tagged_data_count: 0,
            no_payload_count: 0,
            confirmed_count: 0,
            conflicting_count: 0,
            no_transaction_count: 0,
        }
    }
}

/// Holds analytics about stardust data.
#[derive(Clone, Copy, Debug, PartialEq, Eq)]
pub struct Analytics {
    pub addresses: AddressAnalytics,
    pub outputs: OutputAnalyticsMap,
    pub unspent_outputs: OutputAnalyticsMap,
    pub storage_deposits: StorageDepositAnalytics,
    pub claimed_tokens: ClaimedTokensAnalytics,
    pub milestone_activity: MilestoneActivityAnalytics,
}

/// The output kinds that the default analytics hold an empty entry for:
/// basic, alias, nft and foundry outputs.
pub open spec fn has_default_entry(kind: OutputType) -> bool {
    kind != OutputType::Treasury
}

impl Default for Analytics {
    fn default() -> (r: Self)
        ensures
            r.addresses == (AddressAnalytics { total_active_addresses: 0, receiving_addresses: 0, sending_addresses: 0 }),
            forall|k: OutputType| #[trigger] r.outputs.at(k) == if has_default_entry(k) {
                Some(zero_output_analytics())
            } else {
                None
            },
            forall|k: OutputType| #[trigger] r.unspent_outputs.at(k) == if has_default_entry(k) {
                Some(zero_output_analytics())
            } else {
                None
            },
            r.storage_deposits == zero_storage_deposits(),
            r.claimed_tokens.count == 0,
            r.milestone_activity == zero_milestone_activity(),
    {
        let mut outputs = OutputAnalyticsMap::new();
        let ghost m0 = outputs;
        outputs.set(OutputType::Basic, Some(OutputAnalytics::default()));
        outputs.set(OutputType::Alias, Some(OutputAnalytics::default()));
        outputs.set(OutputType::Nft, Some(OutputAnalytics::default()));
        outputs.set(OutputType::Foundry, Some(OutputAnalytics::default()));
        let unspent_outputs = outputs;
        proof {
            m0.lemma_with(OutputType::Basic, Some(zero_output_analytics()));
            let m1 = m0.with(OutputType::Basic, Some(zero_output_analytics()));
            m1.lemma_with(OutputType::Alias, Some(zero_output_analytics()));
            let m2 = m1.with(OutputType::Alias, Some(zero_output_analytics()));
            m2.lemma_with(OutputType::Nft, Some(zero_output_analytics()));
            let m3 = m2.with(OutputType::Nft, Some(zero_output_analytics()));
            m3.lemma_with(OutputType::Foundry, Some(zero_output_analytics()));
        }
        Analytics {
            addresses: AddressAnalytics::default(),
            outputs,
            unspent_outputs,
            storage_deposits: StorageDepositAnalytics::default(),
            claimed_tokens: ClaimedTokensAnalytics::default(),
            milestone_activity: MilestoneActivityAnalytics::default(),
        }
    }
}

/// What the analytics read of an output of a ledger update.
#[derive(Clone, Copy, Debug, PartialEq, Eq)]
pub struct OutputSummary {
    /// The kind of the output.
    pub kind: OutputType,
    /// The tokens the output holds.
    pub amount: u64,
    /// The address that owns the output, if one does.
    pub address: Option<Address>,
    /// Whether the output was spent.
    pub is_spent: bool,
    /// The key bytes of the output.
    pub num_key_bytes: u64,
    /// The data bytes of the output.
    pub num_data_bytes: u64,
    /// The tokens its storage deposit return unlock condition returns, if it has one.
    pub storage_deposit_return: Option<u64>,
}

/// What the analytics read of a block.
#[derive(Clone, Copy, Debug, PartialEq, Eq, Structural)]
pub struct BlockSummary {
    /// The kind of the payload the block carries, if any.
    pub payload: Option<PayloadType>,
    /// Whether the transaction of the block took effect.
    pub inclusion_state: LedgerInclusionState,
}

/// An address as mathematical values.
pub type AddressView = (AddressKind, Seq<u8>);

/// The addresses of a list as mathematical values.
pub open spec fn address_views(v: Seq<Address>) -> Seq<AddressView> {
    v.map_values(|a: Address| a@)
}

/// A processor for analytics which holds some state.
#[derive(Clone, Debug)]
pub struct AnalyticsProcessor {
    analytics: Analytics,
    addresses: Vec<Address>,
    sending_addresses: Vec<Address>,
    receiving_addresses: Vec<Address>,
    removed_outputs: OutputAnalyticsMap,
    removed_storage_deposits: StorageDepositAnalytics,
}

/// The state of an analytics processor as mathematical values.
pub struct ProcessorView {
    pub analytics: Analytics,
    pub addresses: Set<AddressView>,
    pub sending_addresses: Set<AddressView>,
    pub receiving_addresses: Set<AddressView>,
    pub removed_outputs: OutputAnalyticsMap,
    pub removed_storage_deposits: StorageDepositAnalytics,
}

/// The map with one more output of `kind` holding `amount` tokens.
pub open spec fn bump(m: OutputAnalyticsMap, kind: OutputType, amount: u64) -> OutputAnalyticsMap {
    let cur = match m.at(kind) {
        Some(e) => e,
        None => zero_output_analytics(),
    };
    m.with(
        kind,
        Some(OutputAnalytics { count: (cur.count + 1) as u64, total_value: (cur.total_value + amount) as i128 }),
    )
}

/// Whether the storage deposit return of an output is counted: it is for
/// basic and nft outputs that have one.
pub open spec fn counts_return(o: OutputSummary) -> bool {
    (o.kind == OutputType::Basic || o.kind == OutputType::Nft) && o.storage_deposit_return is Some
}

/// The storage deposit analytics with one more output.
pub open spec fn add_deposit(d: StorageDepositAnalytics, o: OutputSummary) -> StorageDepositAnalytics {
    StorageDepositAnalytics {
        output_count: (d.output_count + 1) as u64,
        storage_deposit_return_count: if counts_return(o) {
            (d.storage_deposit_return_count + 1) as u64
        } else {
            d.storage_deposit_return_count
        },
        storage_deposit_return_total_value: if counts_return(o) {
            (d.storage_deposit_return_total_value + o.storage_deposit_return.unwrap()) as i128
        } else {
            d.storage_deposit_return_total_value
        },
        total_key_bytes: (d.total_key_bytes + o.num_key_bytes) as i128,
        total_data_bytes: (d.total_data_bytes + o.num_data_bytes) as i128,
    }
}

/// The state after processing one output. A spent output is counted among
/// the outputs removed, to be taken off the unspent outputs at the end.
pub open spec fn process_output_spec(p: ProcessorView, o: OutputSummary) -> ProcessorView {
    let (addresses, sending, receiving) = match o.address {
        Some(a) => if o.is_spent {
            (p.addresses.insert(a@), p.sending_addresses.insert(a@), p.receiving_addresses)
        } else {
            (p.addresses.insert(a@), p.sending_addresses, p.receiving_addresses.insert(a@))
        },
        None => (p.addresses, p.sending_addresses, p.receiving_addresses),
    };
    let outputs = bump(p.analytics.outputs, o.kind, o.amount);
    if o.is_spent {
        ProcessorView {
            analytics: Analytics { outputs, ..p.analytics },
            addresses,
            sending_addresses: sending,
            receiving_addresses: receiving,
            removed_outputs: bump(p.removed_outputs, o.kind, o.amount),
            removed_storage_deposits: add_deposit(p.removed_storage_deposits, o),
        }
    } else {
        ProcessorView {
            analytics: Analytics {
                outputs,
                unspent_outputs: bump(p.analytics.unspent_outputs, o.kind, o.amount),
                storage_deposits: add_deposit(p.analytics.storage_deposits, o),
                ..p.analytics
            },
            addresses,
            sending_addresses: sending,
            receiving_addresses: receiving,
            ..p
        }
    }
}

/// The state after processing a list of outputs in order.
pub open spec fn process_outputs_spec(p: ProcessorView, outputs: Seq<OutputSummary>) -> ProcessorView
    decreases outputs.len(),
{
    if outputs.len() == 0 {
        p
    } else {
        process_output_spec(process_outputs_spec(p, outputs.drop_last()), outputs.last())
    }
}

/// The entry of `kind`, or an empty one where there is none.
pub open spec fn entry_or_zero(m: OutputAnalyticsMap, kind: OutputType) -> OutputAnalytics {
    match m.at(kind) {
        Some(e) => e,
        None => zero_output_analytics(),
    }
}

/// The outputs that pass the filter fit in map `m`: once they are counted,
/// no count passes `u64::MAX` and no total passes `i128::MAX`.
pub open spec fn map_fits(m: OutputAnalyticsMap, outputs: Seq<OutputSummary>, spent: Option<bool>) -> bool {
    forall|k: OutputType|
        #![trigger entry_or_zero(m, k)]
        entry_or_zero(m, k).count + kind_count(outputs, k, spent) <= u64::MAX && entry_or_zero(m, k).total_value
            + kind_value(outputs, k, spent) <= i128::MAX
}

/// The sum of `f` over the outputs that pass the filter.
pub open spec fn output_sum(outputs: Seq<OutputSummary>, spent: Option<bool>, f: spec_fn(OutputSummary) -> int) -> int
    decreases outputs.len(),
{
    if outputs.len() == 0 {
        0
    } else {
        output_sum(outputs.drop_last(), spent, f) + if passes(outputs.last(), spent) {
            f(outputs.last())
        } else {
            0int
        }
    }
}

/// One for each output.
pub open spec fn unit() -> spec_fn(OutputSummary) -> int {
    |o: OutputSummary| 1int
}

/// One for each output whose storage deposit return is counted.
pub open spec fn return_unit() -> spec_fn(OutputSummary) -> int {
    |o: OutputSummary| if counts_return(o) { 1int } else { 0int }
}

/// The tokens of each storage deposit return that is counted.
pub open spec fn returned() -> spec_fn(OutputSummary) -> int {
    |o: OutputSummary| if counts_return(o) { o.storage_deposit_return.unwrap() as int } else { 0int }
}

/// The key bytes of each output.
pub open spec fn key_bytes() -> spec_fn(OutputSummary) -> int {
    |o: OutputSummary| o.num_key_bytes as int
}

/// The data bytes of each output.
pub open spec fn data_bytes() -> spec_fn(OutputSummary) -> int {
    |o: OutputSummary| o.num_data_bytes as int
}

/// The outputs that pass the filter fit in storage deposit counters: once
/// they are added, no counter passes `u64::MAX` and no total `i128::MAX`.
pub open spec fn deposit_fits(d: StorageDepositAnalytics, outputs: Seq<OutputSummary>, spent: Option<bool>) -> bool {
    &&& d.output_count + output_sum(outputs, spent, unit()) <= u64::MAX
    &&& d.storage_deposit_return_count + output_sum(outputs, spent, return_unit()) <= u64::MAX
    &&& d.storage_deposit_return_total_value + output_sum(outputs, spent, returned()) <= i128::MAX
    &&& d.total_key_bytes + output_sum(outputs, spent, key_bytes()) <= i128::MAX
    &&& d.total_data_bytes + output_sum(outputs, spent, data_bytes()) <= i128::MAX
}

/// The outputs can be processed without a counter overflowing: every
/// counter that they raise stays within its type.
pub open spec fn outputs_fit(p: ProcessorView, outputs: Seq<OutputSummary>) -> bool {
    &&& map_fits(p.analytics.outputs, outputs, None)
    &&& map_fits(p.analytics.unspent_outputs, outputs, Some(false))
    &&& map_fits(p.removed_outputs, outputs, Some(true))
    &&& deposit_fits(p.analytics.storage_deposits, outputs, Some(false))
    &&& deposit_fits(p.removed_storage_deposits, outputs, Some(true))
}

/// One more output of its kind fits in map `m`.
pub open spec fn entry_fits(m: OutputAnalyticsMap, o: OutputSummary) -> bool {
    &&& entry_or_zero(m, o.kind).count + 1 <= u64::MAX
    &&& entry_or_zero(m, o.kind).total_value + o.amount <= i128::MAX
}

/// One more output fits in storage deposit counters.
pub open spec fn deposit_step_fits(d: StorageDepositAnalytics, o: OutputSummary) -> bool {
    &&& d.output_count + 1 <= u64::MAX
    &&& counts_return(o) ==> d.storage_deposit_return_count + 1 <= u64::MAX
        && d.storage_deposit_return_total_value + o.storage_deposit_return.unwrap() <= i128::MAX
    &&& d.total_key_bytes + o.num_key_bytes <= i128::MAX
    &&& d.total_data_bytes + o.num_data_bytes <= i128::MAX
}

/// One more output can be processed without a counter overflowing.
pub open spec fn output_fits(p: ProcessorView, o: OutputSummary) -> bool {
    &&& entry_fits(p.analytics.outputs, o)
    &&& if o.is_spent {
        entry_fits(p.removed_outputs, o) && deposit_step_fits(p.removed_storage_deposits, o)
    } else {
        entry_fits(p.analytics.unspent_outputs, o) && deposit_step_fits(p.analytics.storage_deposits, o)
    }
}

/// The milestone activity after one more block.
pub open spec fn process_block_spec(m: MilestoneActivityAnalytics, b: BlockSummary) -> MilestoneActivityAnalytics {
    let m = MilestoneActivityAnalytics { count: (m.count + 1) as u32, ..m };
    let m = match b.payload {
        Some(PayloadType::Transaction) => MilestoneActivityAnalytics {
            transaction_count: (m.transaction_count + 1) as u32,
            ..m
        },
        Some(PayloadType::Milestone) => MilestoneActivityAnalytics {
            milestone_count: (m.milestone_count + 1) as u32,
            ..m
        },
        Some(PayloadType::TreasuryTransaction) => MilestoneActivityAnalytics {
            treasury_transaction_count: (m.treasury_transaction_count + 1) as u32,
            ..m
        },
        Some(PayloadType::TaggedData) => MilestoneActivityAnalytics {
            tagged_data_count: (m.tagged_data_count + 1) as u32,
            ..m
        },
        None => MilestoneActivityAnalytics { no_payload_count: (m.no_payload_count + 1) as u32, ..m },
    };
    match b.inclusion_state {
        LedgerInclusionState::Conflicting => MilestoneActivityAnalytics {
            conflicting_count: (m.conflicting_count + 1) as u32,
            ..m
        },
        LedgerInclusionState::Included => MilestoneActivityAnalytics {
            confirmed_count: (m.confirmed_count + 1) as u32,
            ..m
        },
        LedgerInclusionState::NoTransaction => MilestoneActivityAnalytics {
            no_transaction_count: (m.no_transaction_count + 1) as u32,
            ..m
        },
    }
}

/// The milestone activity after a list of blocks in order.
pub open spec fn process_blocks_spec(m: MilestoneActivityAnalytics, blocks: Seq<BlockSummary>) -> MilestoneActivityAnalytics
    decreases blocks.len(),
{
    if blocks.len() == 0 {
        m
    } else {
        process_block_spec(process_blocks_spec(m, blocks.drop_last()), blocks.last())
    }
}

/// The number of blocks with payload `payload`.
pub open spec fn payload_count(blocks: Seq<BlockSummary>, payload: Option<PayloadType>) -> int
    decreases blocks.len(),
{
    if blocks.len() == 0 {
        0
    } else {
        payload_count(blocks.drop_last(), payload) + if blocks.last().payload == payload {
            1int
        } else {
            0int
        }
    }
}

/// The number of blocks in inclusion state `state`.
pub open spec fn state_count(blocks: Seq<BlockSummary>, state: LedgerInclusionState) -> int
    decreases blocks.len(),
{
    if blocks.len() == 0 {
        0
    } else {
        state_count(blocks.drop_last(), state) + if blocks.last().inclusion_state == state {
            1int
        } else {
            0int
        }
    }
}

/// The blocks fit in the milestone activity counters: no counter that the
/// blocks raise passes `u32::MAX`.
pub open spec fn blocks_fit(m: MilestoneActivityAnalytics, blocks: Seq<BlockSummary>) -> bool {
    &&& m.count + blocks.len() <= u32::MAX
    &&& m.transaction_count + payload_count(blocks, Some(PayloadType::Transaction)) <= u32::MAX
    &&& m.treasury_transaction_count + payload_count(blocks, Some(PayloadType::TreasuryTransaction))
        <= u32::MAX
    &&& m.milestone_count + payload_count(blocks, Some(PayloadType::Milestone)) <= u32::MAX
    &&& m.tagged_data_count + payload_count(blocks, Some(PayloadType::TaggedData)) <= u32::MAX
    &&& m.no_payload_count + payload_count(blocks, None) <= u32::MAX
    &&& m.confirmed_count + state_count(blocks, LedgerInclusionState::Included) <= u32::MAX
    &&& m.conflicting_count + state_count(blocks, LedgerInclusionState::Conflicting) <= u32::MAX
    &&& m.no_transaction_count + state_count(blocks, LedgerInclusionState::NoTransaction) <= u32::MAX
}

/// An entry minus another, by field.
pub open spec fn minus(a: OutputAnalytics, b: OutputAnalytics) -> OutputAnalytics {
    OutputAnalytics { count: (a.count - b.count) as u64, total_value: (a.total_value - b.total_value) as i128 }
}

/// The storage deposit analytics minus others, by field.
pub open spec fn deposit_minus(a: StorageDepositAnalytics, b: StorageDepositAnalytics) -> StorageDepositAnalytics {
    StorageDepositAnalytics {
        output_count: (a.output_count - b.output_count) as u64,
        storage_deposit_return_count: (a.storage_deposit_return_count - b.storage_deposit_return_count) as u64,
        storage_deposit_return_total_value: (a.storage_deposit_return_total_value
            - b.storage_deposit_return_total_value) as i128,
        total_key_bytes: (a.total_key_bytes - b.total_key_bytes) as i128,
        total_data_bytes: (a.total_data_bytes - b.total_data_bytes) as i128,
    }
}

/// Each removed entry can be taken off an unspent entry of its kind: one
/// exists, its count is no smaller, and its total stays within `i128`.
pub open spec fn removal_fits(unspent: OutputAnalyticsMap, removed: OutputAnalyticsMap) -> bool {
    forall|k: OutputType| #[trigger] removed.at(k) matches Some(r) ==> (unspent.at(k) matches Some(u)
        && r.count <= u.count && i128::MIN <= u.total_value - r.total_value <= i128::MAX)
}

/// The storage deposits removed can be taken off the others.
pub open spec fn deposit_removal_fits(a: StorageDepositAnalytics, b: StorageDepositAnalytics) -> bool {
    &&& b.output_count <= a.output_count
    &&& b.storage_deposit_return_count <= a.storage_deposit_return_count
    &&& i128::MIN <= a.storage_deposit_return_total_value - b.storage_deposit_return_total_value <= i128::MAX
    &&& i128::MIN <= a.total_key_bytes - b.total_key_bytes <= i128::MAX
    &&& i128::MIN <= a.total_data_bytes - b.total_data_bytes <= i128::MAX
}

/// The unspent outputs once the removed ones are taken off.
pub open spec fn unspent_after_removal(unspent: OutputAnalyticsMap, removed: OutputAnalyticsMap) -> OutputAnalyticsMap {
    let f = |k: OutputType| match (unspent.at(k), removed.at(k)) {
        (Some(u), Some(r)) => Some(minus(u, r)),
        (u, _) => u,
    };
    unspent.with(OutputType::Treasury, f(OutputType::Treasury)).with(OutputType::Basic, f(OutputType::Basic)).with(
        OutputType::Alias,
        f(OutputType::Alias),
    ).with(OutputType::Foundry, f(OutputType::Foundry)).with(OutputType::Nft, f(OutputType::Nft))
}

/// The analytics that finishing a processor in state `p` gives.
pub open spec fn finish_spec(p: ProcessorView) -> Analytics {
    Analytics {
        addresses: AddressAnalytics {
            total_active_addresses: p.addresses.len() as u64,
            receiving_addresses: p.receiving_addresses.len() as u64,
            sending_addresses: p.sending_addresses.len() as u64,
        },
        unspent_outputs: unspent_after_removal(p.analytics.unspent_outputs, p.removed_outputs),
        storage_deposits: deposit_minus(p.analytics.storage_deposits, p.removed_storage_deposits),
        ..p.analytics
    }
}

/// Whether the counts of a milestone's activity agree: every block has one
/// payload kind or none, and one inclusion state.
pub open spec fn activity_consistent(m: MilestoneActivityAnalytics) -> bool {
    &&& m.count == m.transaction_count + m.treasury_transaction_count + m.milestone_count + m.tagged_data_count
        + m.no_payload_count
    &&& m.count == m.confirmed_count + m.conflicting_count + m.no_transaction_count
}

impl Analytics {
    /// Get a processor to update the analytics with new data.
    pub fn processor(self) -> (r: AnalyticsProcessor)
        ensures
            r.wf(),
            r@.analytics == self,
            r@.addresses.is_empty(),
            r@.sending_addresses.is_empty(),
            r@.receiving_addresses.is_empty(),
            forall|k: OutputType| #[trigger] r@.removed_outputs.at(k) is None,
            r@.removed_storage_deposits == zero_storage_deposits(),
    {
        let r = AnalyticsProcessor {
            analytics: self,
            addresses: Vec::new(),
            sending_addresses: Vec::new(),
            receiving_addresses: Vec::new(),
            removed_outputs: OutputAnalyticsMap::new(),
            removed_storage_deposits: StorageDepositAnalytics::default(),
        };
        proof {
            assert(address_views(r.addresses@) =~= Seq::empty());
            assert(address_views(r.addresses@).to_set() =~= Set::empty());
            assert(address_views(r.sending_addresses@) =~= Seq::empty());
            assert(address_views(r.sending_addresses@).to_set() =~= Set::empty());
            assert(address_views(r.receiving_addresses@) =~= Seq::empty());
            assert(address_views(r.receiving_addresses@).to_set() =~= Set::empty());
        }
        r
    }
}

impl View for AnalyticsProcessor {
    type V = ProcessorView;

    closed spec fn view(&self) -> ProcessorView {
        ProcessorView {
            analytics: self.analytics,
            addresses: address_views(self.addresses@).to_set(),
            sending_addresses: address_views(self.sending_addresses@).to_set(),
            receiving_addresses: address_views(self.receiving_addresses@).to_set(),
            removed_outputs: self.removed_outputs,
            removed_storage_deposits: self.removed_storage_deposits,
        }
    }
}

/// Adds `a` to a list of addresses that holds none twice, unless it is there.
fn insert_address(v: &mut Vec<Address>, a: Address)
    requires
        address_views(old(v)@).no_duplicates(),
    ensures
        address_views(final(v)@).no_duplicates(),
        address_views(final(v)@).to_set() == address_views(old(v)@).to_set().insert(a@),
{
    let ghost views = address_views(v@);
    let mut i: usize = 0;
    while i < v.len()
        invariant
            i <= v@.len(),
            views == address_views(v@),
            views == address_views(old(v)@),
            views.no_duplicates(),
            forall|k: int| 0 <= k < i ==> v@[k]@ != a@,
        decreases v@.len() - i,
    {
        if v[i] == a {
            proof {
                assert(views[i as int] == a@);
                assert(views.to_set().contains(a@));
                assert(views.to_set().insert(a@) =~= views.to_set());
            }
            return;
        }
        i = i + 1;
    }
    v.push(a);
    proof {
        assert(address_views(v@) =~= views.push(a@));
        assert(!views.contains(a@)) by {
            if views.contains(a@) {
                let k = choose|k: int| 0 <= k < views.len() && views[k] == a@;
                assert(v@[k]@ == a@);
            }
        }
        views.lemma_push_to_set_commute(a@);
        assert forall|p: int, q: int| 0 <= p < q < views.push(a@).len() implies views.push(a@)[p]
            != views.push(a@)[q] by {
            if q == views.len() {
                assert(views.push(a@)[p] == views[p]);
            }
        }
    }
}

/// The number of addresses in a list that holds none twice, as a `u64`.
fn address_count(v: &Vec<Address>) -> (r: u64)
    requires
        address_views(v@).no_duplicates(),
    ensures
        r == address_views(v@).to_set().len(),
{
    proof {
        address_views(v@).unique_seq_to_set();
    }
    v.len() as u64
}

/// Adds one output of `kind` holding `amount` tokens to an entry of a map.
fn bump_entry(m: &mut OutputAnalyticsMap, kind: OutputType, amount: u64)
    requires
        entry_or_zero(*old(m), kind).count + 1 <= u64::MAX,
        entry_or_zero(*old(m), kind).total_value + amount <= i128::MAX,
    ensures
        *final(m) == bump(*old(m), kind, amount),
{
    let cur = match m.get(kind) {
        Some(e) => e,
        None => OutputAnalytics::default(),
    };
    proof {
    }
    let next = OutputAnalytics { count: cur.count + 1, total_value: cur.total_value + amount as i128 };
    m.set(kind, Some(next));
}

/// Adds one output to storage deposit analytics.
fn add_deposit_of(d: &mut StorageDepositAnalytics, o: &OutputSummary)
    requires
        deposit_step_fits(*old(d), *o),
    ensures
        *final(d) == add_deposit(*old(d), *o),
{
    d.output_count = d.output_count + 1;
    d.total_data_bytes = d.total_data_bytes + o.num_data_bytes as i128;
    d.total_key_bytes = d.total_key_bytes + o.num_key_bytes as i128;
    match o.kind {
        OutputType::Basic | OutputType::Nft => match o.storage_deposit_return {
            Some(amount) => {
                d.storage_deposit_return_count = d.storage_deposit_return_count + 1;
                d.storage_deposit_return_total_value = d.storage_deposit_return_total_value + amount as i128;
            },
            None => {},
        },
        _ => {},
    }
}

/// Whether an output passes a filter on being spent: `None` passes all.
pub open spec fn passes(o: OutputSummary, spent: Option<bool>) -> bool {
    match spent {
        Some(b) => o.is_spent == b,
        None => true,
    }
}

/// The number of outputs of kind `kind` that pass the filter.
pub open spec fn kind_count(outputs: Seq<OutputSummary>, kind: OutputType, spent: Option<bool>) -> int
    decreases outputs.len(),
{
    if outputs.len() == 0 {
        0
    } else {
        kind_count(outputs.drop_last(), kind, spent) + if outputs.last().kind == kind && passes(
            outputs.last(),
            spent,
        ) {
            1int
        } else {
            0int
        }
    }
}

/// The tokens of the outputs of kind `kind` that pass the filter.
pub open spec fn kind_value(outputs: Seq<OutputSummary>, kind: OutputType, spent: Option<bool>) -> int
    decreases outputs.len(),
{
    if outputs.len() == 0 {
        0
    } else {
        kind_value(outputs.drop_last(), kind, spent) + if outputs.last().kind == kind && passes(
            outputs.last(),
            spent,
        ) {
            outputs.last().amount as int
        } else {
            0int
        }
    }
}

/// The entry of `kind` once the outputs that pass the filter are counted
/// into `m`: unchanged when there are none of that kind, and otherwise the
/// entry (or an empty one) with their number and tokens added.
pub open spec fn entry_after(
    m: OutputAnalyticsMap,
    outputs: Seq<OutputSummary>,
    kind: OutputType,
    spent: Option<bool>,
) -> Option<OutputAnalytics> {
    if kind_count(outputs, kind, spent) == 0 {
        m.at(kind)
    } else {
        let cur = match m.at(kind) {
            Some(e) => e,
            None => zero_output_analytics(),
        };
        Some(
            OutputAnalytics {
                count: (cur.count + kind_count(outputs, kind, spent)) as u64,
                total_value: (cur.total_value + kind_value(outputs, kind, spent)) as i128,
            },
        )
    }
}

/// Each output that passes the filter counted into `m`, in order.
pub open spec fn bump_all(m: OutputAnalyticsMap, outputs: Seq<OutputSummary>, spent: Option<bool>) -> OutputAnalyticsMap
    decreases outputs.len(),
{
    if outputs.len() == 0 {
        m
    } else {
        let r = bump_all(m, outputs.drop_last(), spent);
        if passes(outputs.last(), spent) {
            bump(r, outputs.last().kind, outputs.last().amount)
        } else {
            r
        }
    }
}

proof fn lemma_kind_bounds(outputs: Seq<OutputSummary>, kind: OutputType, spent: Option<bool>)
    ensures
        0 <= kind_count(outputs, kind, spent) <= outputs.len(),
        0 <= kind_value(outputs, kind, spent) <= kind_count(outputs, kind, spent) * max_amount(),
    decreases outputs.len(),
{
    if outputs.len() > 0 {
        lemma_kind_bounds(outputs.drop_last(), kind, spent);
    }
}

/// Each output that passes the filter added to storage deposit analytics, in order.
pub open spec fn add_all(d: StorageDepositAnalytics, outputs: Seq<OutputSummary>, spent: Option<bool>) -> StorageDepositAnalytics
    decreases outputs.len(),
{
    if outputs.len() == 0 {
        d
    } else {
        let r = add_all(d, outputs.drop_last(), spent);
        if passes(outputs.last(), spent) {
            add_deposit(r, outputs.last())
        } else {
            r
        }
    }
}

/// The addresses of the outputs that pass the filter.
pub open spec fn address_set(outputs: Seq<OutputSummary>, spent: Option<bool>) -> Set<AddressView>
    decreases outputs.len(),
{
    if outputs.len() == 0 {
        Set::empty()
    } else {
        let r = address_set(outputs.drop_last(), spent);
        match outputs.last().address {
            Some(a) => if passes(outputs.last(), spent) {
                r.insert(a@)
            } else {
                r
            },
            None => r,
        }
    }
}

/// The state after processing outputs, written out part by part.
pub open spec fn processed(p: ProcessorView, outputs: Seq<OutputSummary>) -> ProcessorView {
    ProcessorView {
        analytics: Analytics {
            outputs: bump_all(p.analytics.outputs, outputs, None),
            unspent_outputs: bump_all(p.analytics.unspent_outputs, outputs, Some(false)),
            storage_deposits: add_all(p.analytics.storage_deposits, outputs, Some(false)),
            ..p.analytics
        },
        addresses: p.addresses + address_set(outputs, None),
        sending_addresses: p.sending_addresses + address_set(outputs, Some(true)),
        receiving_addresses: p.receiving_addresses + address_set(outputs, Some(false)),
        removed_outputs: bump_all(p.removed_outputs, outputs, Some(true)),
        removed_storage_deposits: add_all(p.removed_storage_deposits, outputs, Some(true)),
    }
}

proof fn lemma_processed(p: ProcessorView, outputs: Seq<OutputSummary>)
    ensures
        process_outputs_spec(p, outputs) == processed(p, outputs),
    decreases outputs.len(),
{
    if outputs.len() > 0 {
        lemma_processed(p, outputs.drop_last());
        let q = processed(p, outputs.drop_last());
        let r = processed(p, outputs);
        let o = outputs.last();
        assert(process_output_spec(q, o).addresses =~= r.addresses);
        assert(process_output_spec(q, o).sending_addresses =~= r.sending_addresses);
        assert(process_output_spec(q, o).receiving_addresses =~= r.receiving_addresses);
    } else {
        assert(p.addresses + Set::<AddressView>::empty() =~= p.addresses);
        assert(p.sending_addresses + Set::<AddressView>::empty() =~= p.sending_addresses);
        assert(p.receiving_addresses + Set::<AddressView>::empty() =~= p.receiving_addresses);
    }
}

proof fn lemma_sum_nonneg(outputs: Seq<OutputSummary>, spent: Option<bool>, f: spec_fn(OutputSummary) -> int)
    requires
        forall|o: OutputSummary| #[trigger] f(o) >= 0,
    ensures
        output_sum(outputs, spent, f) >= 0,
    decreases outputs.len(),
{
    if outputs.len() > 0 {
        lemma_sum_nonneg(outputs.drop_last(), spent, f);
        assert(f(outputs.last()) >= 0);
    }
}

proof fn lemma_sums_nonneg(outputs: Seq<OutputSummary>, spent: Option<bool>)
    ensures
        output_sum(outputs, spent, unit()) >= 0,
        output_sum(outputs, spent, return_unit()) >= 0,
        output_sum(outputs, spent, returned()) >= 0,
        output_sum(outputs, spent, key_bytes()) >= 0,
        output_sum(outputs, spent, data_bytes()) >= 0,
{
    let fs = seq![unit(), return_unit(), returned(), key_bytes(), data_bytes()];
    assert forall|j: int| 0 <= j < 5 implies output_sum(outputs, spent, #[trigger] fs[j]) >= 0 by {
        let f = fs[j];
        assert forall|o: OutputSummary| #[trigger] f(o) >= 0 by {}
        lemma_sum_nonneg(outputs, spent, f);
    }
    assert(fs[0] == unit() && fs[1] == return_unit() && fs[2] == returned() && fs[3] == key_bytes() && fs[4]
        == data_bytes());
}

/// Outputs that fit still fit without the last one.
proof fn lemma_fits_prefix(p: ProcessorView, outputs: Seq<OutputSummary>)
    requires
        outputs_fit(p, outputs),
        outputs.len() > 0,
    ensures
        outputs_fit(p, outputs.drop_last()),
{
    let rest = outputs.drop_last();
    let sels = seq![None, Some(false), Some(true)];
    assert forall|k: OutputType, sel: Option<bool>| #![trigger kind_count(rest, k, sel)]
        kind_count(rest, k, sel) <= kind_count(outputs, k, sel) && kind_value(rest, k, sel) <= kind_value(
            outputs,
            k,
            sel,
        ) by {}
    let ms = seq![p.analytics.outputs, p.analytics.unspent_outputs, p.removed_outputs];
    assert forall|j: int| 0 <= j < 3 implies map_fits(#[trigger] ms[j], rest, sels[j]) by {
        assert forall|k: OutputType| #![trigger entry_or_zero(ms[j], k)]
            entry_or_zero(ms[j], k).count + kind_count(rest, k, sels[j]) <= u64::MAX && entry_or_zero(ms[j], k).total_value
                + kind_value(rest, k, sels[j]) <= i128::MAX by {
            assert(kind_count(rest, k, sels[j]) <= kind_count(outputs, k, sels[j]));
        }
    }
    assert(map_fits(ms[0], rest, sels[0]) && map_fits(ms[1], rest, sels[1]) && map_fits(ms[2], rest, sels[2]));
    let o = outputs.last();
    assert(o.storage_deposit_return.unwrap() as int >= 0);
}

/// Outputs that fit fit up to any point too.
proof fn lemma_fits_take(p: ProcessorView, outputs: Seq<OutputSummary>, j: int)
    requires
        outputs_fit(p, outputs),
        0 <= j <= outputs.len(),
    ensures
        outputs_fit(p, outputs.take(j)),
    decreases outputs.len(),
{
    if j < outputs.len() {
        lemma_fits_prefix(p, outputs);
        assert(outputs.drop_last().take(j) =~= outputs.take(j));
        lemma_fits_take(p, outputs.drop_last(), j);
    } else {
        assert(outputs.take(j) =~= outputs);
    }
}

proof fn lemma_bump_all_entry(m: OutputAnalyticsMap, outputs: Seq<OutputSummary>, kind: OutputType, spent: Option<bool>)
    requires
        map_fits(m, outputs, spent),
    ensures
        bump_all(m, outputs, spent).at(kind) == entry_after(m, outputs, kind, spent),
        entry_or_zero(bump_all(m, outputs, spent), kind).count == entry_or_zero(m, kind).count + kind_count(
            outputs,
            kind,
            spent,
        ),
        entry_or_zero(bump_all(m, outputs, spent), kind).total_value == entry_or_zero(m, kind).total_value
            + kind_value(outputs, kind, spent),
    decreases outputs.len(),
{
    if outputs.len() > 0 {
        let rest = outputs.drop_last();
        let o = outputs.last();
        lemma_kind_bounds(rest, kind, spent);
        lemma_kind_bounds(rest, o.kind, spent);
        assert(map_fits(m, rest, spent)) by {
            assert forall|k: OutputType| #![trigger entry_or_zero(m, k)]
                entry_or_zero(m, k).count + kind_count(rest, k, spent) <= u64::MAX && entry_or_zero(m, k).total_value
                    + kind_value(rest, k, spent) <= i128::MAX by {
                assert(entry_or_zero(m, k).count + kind_count(outputs, k, spent) <= u64::MAX);
            }
        }
        lemma_bump_all_entry(m, rest, kind, spent);
        lemma_bump_all_entry(m, rest, o.kind, spent);
        let r = bump_all(m, rest, spent);
        assert(entry_or_zero(m, o.kind).count + kind_count(outputs, o.kind, spent) <= u64::MAX);
        if passes(o, spent) {
            let cur = entry_or_zero(r, o.kind);
            r.lemma_with(
                o.kind,
                Some(OutputAnalytics { count: (cur.count + 1) as u64, total_value: (cur.total_value + o.amount) as i128 }),
            );
        }
        assert(entry_or_zero(m, kind).count + kind_count(outputs, kind, spent) <= u64::MAX);
    }
}

proof fn lemma_add_all(d: StorageDepositAnalytics, outputs: Seq<OutputSummary>, spent: Option<bool>)
    requires
        deposit_fits(d, outputs, spent),
    ensures
        add_all(d, outputs, spent).output_count == d.output_count + output_sum(outputs, spent, unit()),
        add_all(d, outputs, spent).storage_deposit_return_count == d.storage_deposit_return_count + output_sum(
            outputs,
            spent,
            return_unit(),
        ),
        add_all(d, outputs, spent).storage_deposit_return_total_value == d.storage_deposit_return_total_value
            + output_sum(outputs, spent, returned()),
        add_all(d, outputs, spent).total_key_bytes == d.total_key_bytes + output_sum(outputs, spent, key_bytes()),
        add_all(d, outputs, spent).total_data_bytes == d.total_data_bytes + output_sum(outputs, spent, data_bytes()),
    decreases outputs.len(),
{
    if outputs.len() > 0 {
        let o = outputs.last();
        assert(o.storage_deposit_return.unwrap() as int >= 0);
        lemma_sums_nonneg(outputs.drop_last(), spent);
        lemma_add_all(d, outputs.drop_last(), spent);
    }
}

/// The processed state fits one more output where the outputs up to and
/// including it fit the state before.
proof fn lemma_step_fits(p: ProcessorView, outputs: Seq<OutputSummary>, i: int)
    requires
        outputs_fit(p, outputs.take(i + 1)),
        0 <= i < outputs.len(),
    ensures
        output_fits(process_outputs_spec(p, outputs.take(i)), outputs[i]),
{
    let s = outputs.take(i + 1);
    let t = outputs.take(i);
    let o = outputs[i];
    assert(s.drop_last() =~= t);
    assert(s.last() == o);
    lemma_fits_prefix(p, s);
    lemma_processed(p, t);
    lemma_bump_all_entry(p.analytics.outputs, t, o.kind, None);
    lemma_bump_all_entry(p.analytics.unspent_outputs, t, o.kind, Some(false));
    lemma_bump_all_entry(p.removed_outputs, t, o.kind, Some(true));
    lemma_add_all(p.analytics.storage_deposits, t, Some(false));
    lemma_add_all(p.removed_storage_deposits, t, Some(true));
    lemma_sums_nonneg(t, Some(false));
    lemma_sums_nonneg(t, Some(true));
    lemma_kind_bounds(t, o.kind, None);
    lemma_kind_bounds(t, o.kind, Some(false));
    lemma_kind_bounds(t, o.kind, Some(true));
    assert(entry_or_zero(p.analytics.outputs, o.kind).count + kind_count(s, o.kind, None) <= u64::MAX);
    assert(entry_or_zero(p.analytics.unspent_outputs, o.kind).count + kind_count(s, o.kind, Some(false))
        <= u64::MAX);
    assert(entry_or_zero(p.removed_outputs, o.kind).count + kind_count(s, o.kind, Some(true)) <= u64::MAX);
}

/// Sums over a batch made of two are the sums over each.
proof fn lemma_counts_add(a: Seq<OutputSummary>, b: Seq<OutputSummary>, k: OutputType, spent: Option<bool>)
    ensures
        kind_count(a + b, k, spent) == kind_count(a, k, spent) + kind_count(b, k, spent),
        kind_value(a + b, k, spent) == kind_value(a, k, spent) + kind_value(b, k, spent),
    decreases b.len(),
{
    if b.len() == 0 {
        assert(a + b =~= a);
    } else {
        assert((a + b).drop_last() =~= a + b.drop_last());
        lemma_counts_add(a, b.drop_last(), k, spent);
    }
}

proof fn lemma_sum_add(a: Seq<OutputSummary>, b: Seq<OutputSummary>, spent: Option<bool>, f: spec_fn(OutputSummary) -> int)
    ensures
        output_sum(a + b, spent, f) == output_sum(a, spent, f) + output_sum(b, spent, f),
    decreases b.len(),
{
    if b.len() == 0 {
        assert(a + b =~= a);
    } else {
        assert((a + b).drop_last() =~= a + b.drop_last());
        lemma_sum_add(a, b.drop_last(), spent, f);
    }
}

proof fn lemma_address_set_add(a: Seq<OutputSummary>, b: Seq<OutputSummary>, spent: Option<bool>)
    ensures
        address_set(a + b, spent) == address_set(a, spent) + address_set(b, spent),
    decreases b.len(),
{
    if b.len() == 0 {
        assert(a + b =~= a);
        assert(address_set(a, spent) + Set::<AddressView>::empty() =~= address_set(a, spent));
    } else {
        assert((a + b).drop_last() =~= a + b.drop_last());
        lemma_address_set_add(a, b.drop_last(), spent);
        assert(address_set(a + b, spent) =~= address_set(a, spent) + address_set(b, spent));
    }
}

/// Two batches in one order or the other raise every counter alike.
proof fn lemma_swap_same(p: ProcessorView, a: Seq<OutputSummary>, b: Seq<OutputSummary>)
    requires
        outputs_fit(p, a + b),
    ensures
        outputs_fit(p, b + a),
        processed(p, a + b) == processed(p, b + a),
{
    let fs = seq![unit(), return_unit(), returned(), key_bytes(), data_bytes()];
    assert forall|k: OutputType, sel: Option<bool>| #![trigger kind_count(a + b, k, sel)]
        kind_count(a + b, k, sel) == kind_count(b + a, k, sel) && kind_value(a + b, k, sel) == kind_value(
            b + a,
            k,
            sel,
        ) by {
        lemma_counts_add(a, b, k, sel);
        lemma_counts_add(b, a, k, sel);
    }
    assert forall|j: int, sel: Option<bool>| 0 <= j < 5 implies #[trigger] output_sum(a + b, sel, fs[j])
        == output_sum(b + a, sel, fs[j]) by {
        lemma_sum_add(a, b, sel, fs[j]);
        lemma_sum_add(b, a, sel, fs[j]);
    }
    assert(fs[0] == unit() && fs[1] == return_unit() && fs[2] == returned() && fs[3] == key_bytes() && fs[4]
        == data_bytes());
    let ms = seq![p.analytics.outputs, p.analytics.unspent_outputs, p.removed_outputs];
    let sels = seq![None, Some(false), Some(true)];
    assert(ms[0] == p.analytics.outputs && ms[1] == p.analytics.unspent_outputs && ms[2] == p.removed_outputs);
    assert(sels[0] == None::<bool> && sels[1] == Some(false) && sels[2] == Some(true));
    assert forall|j: int| 0 <= j < 3 implies map_fits(#[trigger] ms[j], b + a, sels[j]) && bump_all(
        ms[j],
        a + b,
        sels[j],
    ) == bump_all(ms[j], b + a, sels[j]) by {
        assert(map_fits(ms[j], a + b, sels[j]));
        assert forall|k: OutputType| #![trigger entry_or_zero(ms[j], k)]
            entry_or_zero(ms[j], k).count + kind_count(b + a, k, sels[j]) <= u64::MAX && entry_or_zero(ms[j], k).total_value
                + kind_value(b + a, k, sels[j]) <= i128::MAX by {
            assert(kind_count(a + b, k, sels[j]) == kind_count(b + a, k, sels[j]));
        }
        assert forall|k: OutputType| bump_all(ms[j], a + b, sels[j]).at(k) == bump_all(ms[j], b + a, sels[j]).at(
            k,
        ) by {
            lemma_bump_all_entry(ms[j], a + b, k, sels[j]);
            lemma_bump_all_entry(ms[j], b + a, k, sels[j]);
            assert(kind_count(a + b, k, sels[j]) == kind_count(b + a, k, sels[j]));
        }
        bump_all(ms[j], a + b, sels[j]).lemma_ext(bump_all(ms[j], b + a, sels[j]));
    }
    lemma_add_all(p.analytics.storage_deposits, a + b, Some(false));
    lemma_add_all(p.removed_storage_deposits, a + b, Some(true));
    lemma_add_all(p.analytics.storage_deposits, b + a, Some(false));
    lemma_add_all(p.removed_storage_deposits, b + a, Some(true));
    lemma_address_set_add(a, b, None);
    lemma_address_set_add(b, a, None);
    lemma_address_set_add(a, b, Some(true));
    lemma_address_set_add(b, a, Some(true));
    lemma_address_set_add(a, b, Some(false));
    lemma_address_set_add(b, a, Some(false));
    assert(address_set(a, None) + address_set(b, None) =~= address_set(b, None) + address_set(a, None));
    assert(address_set(a, Some(true)) + address_set(b, Some(true)) =~= address_set(b, Some(true)) + address_set(
        a,
        Some(true),
    ));
    assert(address_set(a, Some(false)) + address_set(b, Some(false)) =~= address_set(b, Some(false))
        + address_set(a, Some(false)));
}

/// Processing a batch of outputs adds, to the entry of each kind, the number
/// and the tokens of the outputs of that kind: to all outputs, to the unspent
/// ones for the outputs not spent, and to the removed ones for the spent
/// outputs. A kind without such outputs keeps its entry, or its lack of one.
pub proof fn lemma_process_outputs_per_kind(p: ProcessorView, outputs: Seq<OutputSummary>, kind: OutputType)
    requires
        outputs_fit(p, outputs),
    ensures
        process_outputs_spec(p, outputs).analytics.outputs.at(kind) == entry_after(
            p.analytics.outputs,
            outputs,
            kind,
            None,
        ),
        process_outputs_spec(p, outputs).analytics.unspent_outputs.at(kind) == entry_after(
            p.analytics.unspent_outputs,
            outputs,
            kind,
            Some(false),
        ),
        process_outputs_spec(p, outputs).removed_outputs.at(kind) == entry_after(
            p.removed_outputs,
            outputs,
            kind,
            Some(true),
        ),
{
    lemma_processed(p, outputs);
    lemma_bump_all_entry(p.analytics.outputs, outputs, kind, None);
    lemma_bump_all_entry(p.analytics.unspent_outputs, outputs, kind, Some(false));
    lemma_bump_all_entry(p.removed_outputs, outputs, kind, Some(true));
}

/// Finishing a processor that has removed nothing of a kind yet, after a
/// batch of outputs: the unspent entry of that kind is the stored one with
/// the number and the tokens of the batch's unspent outputs of the kind
/// added, and those of its spent outputs of the kind taken off.
pub proof fn lemma_finish_after_batch(p: ProcessorView, outputs: Seq<OutputSummary>, kind: OutputType)
    requires
        outputs_fit(p, outputs),
        p.removed_outputs.at(kind) is None,
        p.analytics.unspent_outputs.at(kind) is Some,
        kind_count(outputs, kind, Some(true)) <= p.analytics.unspent_outputs.at(kind).unwrap().count
            + kind_count(outputs, kind, Some(false)),
        i128::MIN <= p.analytics.unspent_outputs.at(kind).unwrap().total_value + kind_value(
            outputs,
            kind,
            Some(false),
        ) - kind_value(outputs, kind, Some(true)),
    ensures
        finish_spec(process_outputs_spec(p, outputs)).unspent_outputs.at(kind) matches Some(e) && e.count
            == p.analytics.unspent_outputs.at(kind).unwrap().count + kind_count(outputs, kind, Some(false))
            - kind_count(outputs, kind, Some(true)) && e.total_value
            == p.analytics.unspent_outputs.at(kind).unwrap().total_value + kind_value(outputs, kind, Some(false))
            - kind_value(outputs, kind, Some(true)),
{
    lemma_process_outputs_per_kind(p, outputs, kind);
    lemma_kind_bounds(outputs, kind, Some(false));
    lemma_kind_bounds(outputs, kind, Some(true));
    assert(entry_or_zero(p.analytics.unspent_outputs, kind).count + kind_count(outputs, kind, Some(false))
        <= u64::MAX);
    assert(entry_or_zero(p.removed_outputs, kind).count + kind_count(outputs, kind, Some(true)) <= u64::MAX);
    let q = process_outputs_spec(p, outputs);
    let u = q.analytics.unspent_outputs;
    let r = q.removed_outputs;
    assert(unspent_after_removal(u, r).at(kind) == match (u.at(kind), r.at(kind)) {
        (Some(a), Some(b)) => Some(minus(a, b)),
        (a, _) => a,
    });
}

/// The addresses of a batch are finitely many, no more than its outputs.
proof fn lemma_address_set_len(outputs: Seq<OutputSummary>, spent: Option<bool>)
    ensures
        address_set(outputs, spent).finite(),
        address_set(outputs, spent).len() <= outputs.len(),
    decreases outputs.len(),
{
    if outputs.len() > 0 {
        lemma_address_set_len(outputs.drop_last(), spent);
    }
}

/// A processor that has seen no address yet counts, once it has processed a
/// batch of outputs and is finished, as receiving addresses the distinct
/// addresses of the unspent outputs, as sending addresses those of the spent
/// outputs, and as active addresses those of all the outputs.
pub proof fn lemma_finish_address_counts(p: ProcessorView, outputs: Seq<OutputSummary>)
    requires
        p.addresses.is_empty(),
        p.sending_addresses.is_empty(),
        p.receiving_addresses.is_empty(),
        outputs.len() <= u64::MAX,
    ensures
        finish_spec(process_outputs_spec(p, outputs)).addresses.receiving_addresses == address_set(
            outputs,
            Some(false),
        ).len(),
        finish_spec(process_outputs_spec(p, outputs)).addresses.sending_addresses == address_set(
            outputs,
            Some(true),
        ).len(),
        finish_spec(process_outputs_spec(p, outputs)).addresses.total_active_addresses == address_set(
            outputs,
            None,
        ).len(),
{
    lemma_processed(p, outputs);
    lemma_address_set_len(outputs, None);
    lemma_address_set_len(outputs, Some(true));
    lemma_address_set_len(outputs, Some(false));
    assert(p.addresses + address_set(outputs, None) =~= address_set(outputs, None));
    assert(p.sending_addresses + address_set(outputs, Some(true)) =~= address_set(outputs, Some(true)));
    assert(p.receiving_addresses + address_set(outputs, Some(false)) =~= address_set(outputs, Some(false)));
}

/// Whether an output's address is `a`.
pub open spec fn owned_by(o: OutputSummary, a: AddressView) -> bool {
    o.address matches Some(x) && x@ == a
}

/// An output's address is among the receiving addresses of a batch exactly
/// when an unspent output of the batch has it, and among the sending
/// addresses exactly when a spent output has it.
pub proof fn lemma_address_set_members(outputs: Seq<OutputSummary>, spent: Option<bool>, a: AddressView)
    ensures
        address_set(outputs, spent).contains(a) <==> exists|i: int|
            0 <= i < outputs.len() && passes(#[trigger] outputs[i], spent) && owned_by(outputs[i], a),
    decreases outputs.len(),
{
    if outputs.len() > 0 {
        let rest = outputs.drop_last();
        lemma_address_set_members(rest, spent, a);
        if address_set(outputs, spent).contains(a) {
            if address_set(rest, spent).contains(a) {
                let i = choose|i: int|
                    0 <= i < rest.len() && passes(#[trigger] rest[i], spent) && owned_by(rest[i], a);
                assert(outputs[i] == rest[i]);
            } else {
                assert(outputs[outputs.len() - 1] == outputs.last());
            }
        }
        if exists|i: int|
            0 <= i < outputs.len() && passes(#[trigger] outputs[i], spent) && owned_by(outputs[i], a) {
            let i = choose|i: int|
                0 <= i < outputs.len() && passes(#[trigger] outputs[i], spent) && owned_by(outputs[i], a);
            if i < outputs.len() - 1 {
                assert(rest[i] == outputs[i]);
            }
        }
    }
}

/// Processing the outputs of `a` and then those of `b` leaves the state that
/// processing `a` followed by `b` in one batch leaves.
pub proof fn lemma_batches_compose(p: ProcessorView, a: Seq<OutputSummary>, b: Seq<OutputSummary>)
    ensures
        process_outputs_spec(process_outputs_spec(p, a), b) == process_outputs_spec(p, a + b),
    decreases b.len(),
{
    if b.len() == 0 {
        assert(a + b =~= a);
    } else {
        assert((a + b).drop_last() =~= a + b.drop_last());
        lemma_batches_compose(p, a, b.drop_last());
    }
}

/// Two batches of outputs leave the same state whichever is processed
/// first, as long as no counter overflows: spent outputs may come before or
/// after the unspent ones.
pub proof fn lemma_batches_commute(p: ProcessorView, a: Seq<OutputSummary>, b: Seq<OutputSummary>)
    requires
        outputs_fit(p, a + b),
    ensures
        process_outputs_spec(process_outputs_spec(p, a), b) == process_outputs_spec(process_outputs_spec(p, b), a),
{
    lemma_batches_compose(p, a, b);
    lemma_batches_compose(p, b, a);
    lemma_processed(p, a + b);
    lemma_processed(p, b + a);
    lemma_swap_same(p, a, b);
}

/// Processing blocks keeps the counts of a milestone's activity in
/// agreement: the blocks counted are those counted by payload kind, and
/// those counted by inclusion state.
pub proof fn lemma_activity_stays_consistent(m: MilestoneActivityAnalytics, blocks: Seq<BlockSummary>)
    requires
        activity_consistent(m),
        blocks_fit(m, blocks),
    ensures
        activity_consistent(process_blocks_spec(m, blocks)),
    decreases blocks.len(),
{
    if blocks.len() > 0 {
        lemma_blocks_fit_prefix(m, blocks);
        lemma_activity_stays_consistent(m, blocks.drop_last());
        lemma_activity_counts(m, blocks.drop_last());
    }
}

/// Fitting blocks fit without the last one too.
proof fn lemma_blocks_fit_prefix(m: MilestoneActivityAnalytics, blocks: Seq<BlockSummary>)
    requires
        blocks_fit(m, blocks),
        blocks.len() > 0,
    ensures
        blocks_fit(m, blocks.drop_last()),
{
}

/// Each counter of the milestone activity grows by the number of blocks
/// that raise it.
pub proof fn lemma_activity_counts(m: MilestoneActivityAnalytics, blocks: Seq<BlockSummary>)
    requires
        blocks_fit(m, blocks),
    ensures
        process_blocks_spec(m, blocks).count == m.count + blocks.len(),
        process_blocks_spec(m, blocks).transaction_count == m.transaction_count + payload_count(
            blocks,
            Some(PayloadType::Transaction),
        ),
        process_blocks_spec(m, blocks).treasury_transaction_count == m.treasury_transaction_count
            + payload_count(blocks, Some(PayloadType::TreasuryTransaction)),
        process_blocks_spec(m, blocks).milestone_count == m.milestone_count + payload_count(
            blocks,
            Some(PayloadType::Milestone),
        ),
        process_blocks_spec(m, blocks).tagged_data_count == m.tagged_data_count + payload_count(
            blocks,
            Some(PayloadType::TaggedData),
        ),
        process_blocks_spec(m, blocks).no_payload_count == m.no_payload_count + payload_count(blocks, None),
        process_blocks_spec(m, blocks).confirmed_count == m.confirmed_count + state_count(
            blocks,
            LedgerInclusionState::Included,
        ),
        process_blocks_spec(m, blocks).conflicting_count == m.conflicting_count + state_count(
            blocks,
            LedgerInclusionState::Conflicting,
        ),
        process_blocks_spec(m, blocks).no_transaction_count == m.no_transaction_count + state_count(
            blocks,
            LedgerInclusionState::NoTransaction,
        ),
    decreases blocks.len(),
{
    if blocks.len() > 0 {
        lemma_blocks_fit_prefix(m, blocks);
        lemma_activity_counts(m, blocks.drop_last());
    }
}

/// The blocks up to any point fit where all of them do.
proof fn lemma_blocks_fit_take(m: MilestoneActivityAnalytics, blocks: Seq<BlockSummary>, j: int)
    requires
        blocks_fit(m, blocks),
        0 <= j <= blocks.len(),
    ensures
        blocks_fit(m, blocks.take(j)),
    decreases blocks.len(),
{
    if j < blocks.len() {
        lemma_blocks_fit_prefix(m, blocks);
        assert(blocks.drop_last().take(j) =~= blocks.take(j));
        lemma_blocks_fit_take(m, blocks.drop_last(), j);
    } else {
        assert(blocks.take(j) =~= blocks);
    }
}

impl AnalyticsProcessor {
    /// The lists of addresses hold no address twice.
    pub closed spec fn wf(&self) -> bool {
        &&& address_views(self.addresses@).no_duplicates()
        &&& address_views(self.sending_addresses@).no_duplicates()
        &&& address_views(self.receiving_addresses@).no_duplicates()
    }

    /// Process one output.
    fn process_output(&mut self, output: &OutputSummary)
        requires
            old(self).wf(),
            output_fits(old(self)@, *output),
        ensures
            final(self).wf(),
            final(self)@ == process_output_spec(old(self)@, *output),
    {
        match output.address {
            Some(address) => {
                insert_address(&mut self.addresses, address);
                if output.is_spent {
                    insert_address(&mut self.sending_addresses, address);
                } else {
                    insert_address(&mut self.receiving_addresses, address);
                }
            },
            None => {},
        }
        bump_entry(&mut self.analytics.outputs, output.kind, output.amount);
        if output.is_spent {
            // To workaround spent outputs being processed first, we keep track of a separate set
            // of values which will be subtracted at the end.
            bump_entry(&mut self.removed_outputs, output.kind, output.amount);
            add_deposit_of(&mut self.removed_storage_deposits, output);
        } else {
            bump_entry(&mut self.analytics.unspent_outputs, output.kind, output.amount);
            add_deposit_of(&mut self.analytics.storage_deposits, output);
        }
    }

    /// Process a batch of outputs.
    pub fn process_outputs(&mut self, outputs: &Vec<OutputSummary>)
        requires
            old(self).wf(),
            outputs_fit(old(self)@, outputs@),
        ensures
            final(self).wf(),
            final(self)@ == process_outputs_spec(old(self)@, outputs@),
    {
        let ghost start = self@;
        let mut i: usize = 0;
        while i < outputs.len()
            invariant
                i <= outputs@.len(),
                self.wf(),
                self@ == process_outputs_spec(start, outputs@.take(i as int)),
                outputs_fit(start, outputs@),
            decreases outputs@.len() - i,
        {
            proof {
                lemma_fits_take(start, outputs@, i + 1);
                lemma_step_fits(start, outputs@, i as int);
                assert(outputs@.take(i + 1).drop_last() =~= outputs@.take(i as int));
            }
            self.process_output(&outputs[i]);
            i = i + 1;
        }
        proof {
            assert(outputs@.take(i as int) =~= outputs@);
        }
    }

    /// Process a batch of blocks.
    pub fn process_blocks(&mut self, blocks: &Vec<BlockSummary>)
        requires
            blocks_fit(old(self)@.analytics.milestone_activity, blocks@),
        ensures
            final(self).wf() == old(self).wf(),
            final(self)@ == (ProcessorView {
                analytics: Analytics {
                    milestone_activity: process_blocks_spec(old(self)@.analytics.milestone_activity, blocks@),
                    ..old(self)@.analytics
                },
                ..old(self)@
            }),
    {
        let ghost start = self.analytics.milestone_activity;
        let ghost before = *self;
        let mut i: usize = 0;
        while i < blocks.len()
            invariant
                i <= blocks@.len(),
                self.analytics.milestone_activity == process_blocks_spec(start, blocks@.take(i as int)),
                blocks_fit(start, blocks@),
                self.addresses == before.addresses,
                self.sending_addresses == before.sending_addresses,
                self.receiving_addresses == before.receiving_addresses,
                self.removed_outputs == before.removed_outputs,
                self.removed_storage_deposits == before.removed_storage_deposits,
                self.analytics == (Analytics { milestone_activity: self.analytics.milestone_activity, ..before.analytics }),
            decreases blocks@.len() - i,
        {
            proof {
                assert(blocks@.take(i + 1).drop_last() =~= blocks@.take(i as int));
                lemma_blocks_fit_take(start, blocks@, i + 1);
                lemma_blocks_fit_prefix(start, blocks@.take(i + 1));
                lemma_activity_counts(start, blocks@.take(i as int));
            }
            let block = &blocks[i];
            let m = &mut self.analytics.milestone_activity;
            m.count = m.count + 1;
            match block.payload {
                Some(PayloadType::Transaction) => m.transaction_count = m.transaction_count + 1,
                Some(PayloadType::Milestone) => m.milestone_count = m.milestone_count + 1,
                Some(PayloadType::TreasuryTransaction) => {
                    m.treasury_transaction_count = m.treasury_transaction_count + 1
                },
                Some(PayloadType::TaggedData) => m.tagged_data_count = m.tagged_data_count + 1,
                None => m.no_payload_count = m.no_payload_count + 1,
            }
            match block.inclusion_state {
                LedgerInclusionState::Conflicting => m.conflicting_count = m.conflicting_count + 1,
                LedgerInclusionState::Included => m.confirmed_count = m.confirmed_count + 1,
                LedgerInclusionState::NoTransaction => m.no_transaction_count = m.no_transaction_count + 1,
            }
            i = i + 1;
        }
        proof {
            assert(blocks@.take(i as int) =~= blocks@);
        }
    }

    /// Complete processing and return the analytics.
    pub fn finish(self) -> (r: Analytics)
        requires
            self.wf(),
            removal_fits(self@.analytics.unspent_outputs, self@.removed_outputs),
            deposit_removal_fits(self@.analytics.storage_deposits, self@.removed_storage_deposits),
        ensures
            r == finish_spec(self@),
    {
        let mut analytics = self.analytics;
        analytics.addresses.total_active_addresses = address_count(&self.addresses);
        analytics.addresses.receiving_addresses = address_count(&self.receiving_addresses);
        analytics.addresses.sending_addresses = address_count(&self.sending_addresses);
        let entries = self.removed_outputs.entries();
        let ghost unspent0 = analytics.unspent_outputs;
        let ghost removed = self.removed_outputs;
        let ghost a0 = analytics;
        let mut i: usize = 0;
        while i < entries.len()
            invariant
                i <= entries@.len(),
                removed == self.removed_outputs,
                removal_fits(unspent0, removed),
                unspent0 == a0.unspent_outputs,
                analytics == (Analytics { unspent_outputs: analytics.unspent_outputs, ..a0 }),
                forall|j: int| 0 <= j < entries@.len() ==> removed.at((#[trigger] entries@[j]).0) == Some(
                    entries@[j].1,
                ),
                forall|p: int, q: int| 0 <= p < q < entries@.len() ==> (#[trigger] entries@[p]).0
                    != (#[trigger] entries@[q]).0,
                forall|k: OutputType| #[trigger] removed.at(k) is Some ==> exists|j: int| 0 <= j < entries@.len() && entries@[j].0 == k,
                forall|k: OutputType| #[trigger] analytics.unspent_outputs.at(k) == if exists|j: int|
                    0 <= j < i && entries@[j].0 == k {
                    Some(minus(unspent0.at(k).unwrap(), removed.at(k).unwrap()))
                } else {
                    unspent0.at(k)
                },
            decreases entries@.len() - i,
        {
            let (key, val) = entries[i];
            proof {
                assert(removed.at(key) == Some(val));
                assert(forall|j: int| 0 <= j < i ==> entries@[j].0 != key);
            }
            let cur = analytics.unspent_outputs.get(key).unwrap();
            let next = OutputAnalytics { count: cur.count - val.count, total_value: cur.total_value - val.total_value };
            let ghost pre = analytics.unspent_outputs;
            analytics.unspent_outputs.set(key, Some(next));
            proof {
                pre.lemma_with(key, Some(next));
                let m = analytics.unspent_outputs;
                assert forall|k: OutputType| #[trigger] m.at(k) == if exists|j: int|
                    0 <= j < i + 1 && entries@[j].0 == k {
                    Some(minus(unspent0.at(k).unwrap(), removed.at(k).unwrap()))
                } else {
                    unspent0.at(k)
                } by {
                    if k == key {
                        assert(entries@[i as int].0 == k);
                    } else {
                        if exists|j: int| 0 <= j < i + 1 && entries@[j].0 == k {
                            let j = choose|j: int| 0 <= j < i + 1 && entries@[j].0 == k;
                            assert(j < i);
                        }
                    }
                }
            }
            i = i + 1;
        }
        let d = self.removed_storage_deposits;
        let s = &mut analytics.storage_deposits;
        s.output_count = s.output_count - d.output_count;
        s.storage_deposit_return_count = s.storage_deposit_return_count - d.storage_deposit_return_count;
        s.storage_deposit_return_total_value = s.storage_deposit_return_total_value
            - d.storage_deposit_return_total_value;
        s.total_data_bytes = s.total_data_bytes - d.total_data_bytes;
        s.total_key_bytes = s.total_key_bytes - d.total_key_bytes;
        proof {
            let target = unspent_after_removal(unspent0, removed);
            let f = |k: OutputType| match (unspent0.at(k), removed.at(k)) {
                (Some(u), Some(r)) => Some(minus(u, r)),
                (u, _) => u,
            };
            let m1 = unspent0.with(OutputType::Treasury, f(OutputType::Treasury));
            let m2 = m1.with(OutputType::Basic, f(OutputType::Basic));
            let m3 = m2.with(OutputType::Alias, f(OutputType::Alias));
            let m4 = m3.with(OutputType::Foundry, f(OutputType::Foundry));
            unspent0.lemma_with(OutputType::Treasury, f(OutputType::Treasury));
            m1.lemma_with(OutputType::Basic, f(OutputType::Basic));
            m2.lemma_with(OutputType::Alias, f(OutputType::Alias));
            m3.lemma_with(OutputType::Foundry, f(OutputType::Foundry));
            m4.lemma_with(OutputType::Nft, f(OutputType::Nft));
            assert forall|k: OutputType| target.at(k) == analytics.unspent_outputs.at(k) by {
                if removed.at(k) is Some {
                    let j = choose|j: int| 0 <= j < entries@.len() && entries@[j].0 == k;
                    assert(exists|j: int| 0 <= j < i && entries@[j].0 == k);
                } else {
                    if exists|j: int| 0 <= j < i && entries@[j].0 == k {
                        let j = choose|j: int| 0 <= j < i && entries@[j].0 == k;
                        assert(removed.at(entries@[j].0) == Some(entries@[j].1));
                    }
                }
            }
            target.lemma_ext(analytics.unspent_outputs);
        }
        analytics
    }
}

} // verus!
