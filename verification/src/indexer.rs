//! The indexer queries for outputs: which conditions an output of a kind
//! must meet, as a list of clauses that all must hold.

use vstd::prelude::*;

use crate::types::{Address, MilestoneTimestamp, OutputType};

verus! {

/// The 256-bit unsigned integer type, carried through as it is.
#[verifier::external_type_specification]
#[verifier::external_body]
pub struct ExU256(primitive_types::U256);

/// The kinds of unlock conditions that a query can ask about.
#[derive(Clone, Copy, Debug, PartialEq, Eq, Structural)]
pub enum UnlockConditionKind {
    Address,
    StorageDepositReturn,
    Timelock,
    Expiration,
    StateControllerAddress,
    GovernorAddress,
    ImmutableAliasAddress,
}

/// The kinds of features that a query can ask about.
#[derive(Clone, Copy, Debug, PartialEq, Eq, Structural)]
pub enum FeatureKind {
    Sender,
    Issuer,
}

/// One condition on an output. Where a clause names an unlock condition
/// or a feature, the output holds it in `output.unlock_conditions` or
/// `output.features` when it is matched as an element of that list, and in
/// a field of its own (such as `output.timelock_unlock_condition`) otherwise.
#[derive(Debug, PartialEq, Eq)]
pub enum QueryClause {
    /// The output is of this kind.
    Kind(OutputType),
    /// One of the unlock conditions is of this kind and has the addresses
    /// and the timestamp bounds that are given.
    UnlockConditionMatch {
        kind: UnlockConditionKind,
        address: Option<Address>,
        return_address: Option<Address>,
        before: Option<MilestoneTimestamp>,
        after: Option<MilestoneTimestamp>,
    },
    /// None of the unlock conditions is of this kind.
    NoUnlockCondition(UnlockConditionKind),
    /// One of the features is of this kind and names this address.
    FeatureAddress(FeatureKind, Address),
    /// One of the features is a tag with these bytes.
    Tag(String),
    /// The output holds no native tokens.
    NoNativeTokens,
    /// The output holds native tokens.
    HasNativeTokens,
    /// No native token of the output has an amount below this one.
    NativeTokensAtLeast(primitive_types::U256),
    /// No native token of the output has an amount above this one.
    NativeTokensAtMost(primitive_types::U256),
    /// The output was booked within these time bounds; at least one is given.
    BookedBetween { before: Option<MilestoneTimestamp>, after: Option<MilestoneTimestamp> },
    /// The unlock condition of this kind names this address.
    UnlockConditionAddress(UnlockConditionKind, Address),
    /// The output has an unlock condition of this kind, or has none.
    UnlockConditionExists(UnlockConditionKind, bool),
    /// The unlock condition of this kind returns to this address.
    UnlockConditionReturnAddress(UnlockConditionKind, Address),
    /// The unlock condition of this kind has a timestamp before this one.
    UnlockConditionBefore(UnlockConditionKind, MilestoneTimestamp),
    /// The unlock condition of this kind has a timestamp after this one.
    UnlockConditionAfter(UnlockConditionKind, MilestoneTimestamp),
    /// The output was booked before this time.
    BookedBefore(MilestoneTimestamp),
    /// The output was booked after this time.
    BookedAfter(MilestoneTimestamp),
}

/// The filter of an indexer query: the clauses that all must hold.
#[derive(Debug, PartialEq, Eq)]
pub struct OutputsFilter {
    pub clauses: Vec<QueryClause>,
}

/// A query for basic outputs.
#[derive(Debug, Default, PartialEq, Eq)]
pub struct BasicOutputsQuery {
    pub address: Option<Address>,
    pub has_native_tokens: Option<bool>,
    pub min_native_token_count: Option<primitive_types::U256>,
    pub max_native_token_count: Option<primitive_types::U256>,
    pub has_storage_return_condition: Option<bool>,
    pub storage_return_address: Option<Address>,
    pub has_timelock_condition: Option<bool>,
    pub timelocked_before: Option<MilestoneTimestamp>,
    pub timelocked_after: Option<MilestoneTimestamp>,
    pub has_expiration_condition: Option<bool>,
    pub expires_before: Option<MilestoneTimestamp>,
    pub expires_after: Option<MilestoneTimestamp>,
    pub expiration_return_address: Option<Address>,
    pub sender: Option<Address>,
    pub tag: Option<String>,
    pub created_before: Option<MilestoneTimestamp>,
    pub created_after: Option<MilestoneTimestamp>,
}

/// A query for alias outputs.
#[derive(Debug, Default, PartialEq, Eq)]
pub struct AliasOutputsQuery {
    pub state_controller: Option<Address>,
    pub governor: Option<Address>,
    pub issuer: Option<Address>,
    pub sender: Option<Address>,
    pub has_native_tokens: Option<bool>,
    pub min_native_token_count: Option<primitive_types::U256>,
    pub max_native_token_count: Option<primitive_types::U256>,
    pub created_before: Option<MilestoneTimestamp>,
    pub created_after: Option<MilestoneTimestamp>,
}

/// A query for foundry outputs.
#[derive(Debug, Default, PartialEq, Eq)]
pub struct FoundryOutputsQuery {
    pub alias_address: Option<Address>,
    pub has_native_tokens: Option<bool>,
    pub min_native_token_count: Option<primitive_types::U256>,
    pub max_native_token_count: Option<primitive_types::U256>,
    pub created_before: Option<MilestoneTimestamp>,
    pub created_after: Option<MilestoneTimestamp>,
}

/// A query for nft outputs.
#[derive(Debug, Default, PartialEq, Eq)]
pub struct NftOutputsQuery {
    pub address: Option<Address>,
    pub issuer: Option<Address>,
    pub sender: Option<Address>,
    pub has_native_tokens: Option<bool>,
    pub min_native_token_count: Option<primitive_types::U256>,
    pub max_native_token_count: Option<primitive_types::U256>,
    pub has_storage_return_condition: Option<bool>,
    pub storage_return_address: Option<Address>,
    pub has_timelock_condition: Option<bool>,
    pub timelocked_before: Option<MilestoneTimestamp>,
    pub timelocked_after: Option<MilestoneTimestamp>,
    pub has_expiration_condition: Option<bool>,
    pub expires_before: Option<MilestoneTimestamp>,
    pub expires_after: Option<MilestoneTimestamp>,
    pub expiration_return_address: Option<Address>,
    pub tag: Option<String>,
    pub created_before: Option<MilestoneTimestamp>,
    pub created_after: Option<MilestoneTimestamp>,
}

/// The clause that a present value makes, or none.
pub open spec fn clause_if<T>(v: Option<T>, f: spec_fn(T) -> QueryClause) -> Seq<QueryClause> {
    match v {
        Some(x) => seq![f(x)],
        None => seq![],
    }
}

/// The clauses on native tokens: none at all, or some, and bounds on
/// their amounts.
pub open spec fn native_tokens_clauses(
    has: Option<bool>,
    min: Option<primitive_types::U256>,
    max: Option<primitive_types::U256>,
) -> Seq<QueryClause> {
    if has == Some(false) {
        seq![QueryClause::NoNativeTokens]
    } else {
        (if has == Some(true) || min is Some || max is Some {
            seq![QueryClause::HasNativeTokens]
        } else {
            seq![]
        }) + clause_if(min, |a| QueryClause::NativeTokensAtLeast(a)) + clause_if(
            max,
            |a| QueryClause::NativeTokensAtMost(a),
        )
    }
}

/// The clause of a basic query on an unlock condition with optional
/// timestamp bounds and return address, matched as a list element.
pub open spec fn matched_condition_clauses(
    kind: UnlockConditionKind,
    has: Option<bool>,
    return_address: Option<Address>,
    before: Option<MilestoneTimestamp>,
    after: Option<MilestoneTimestamp>,
) -> Seq<QueryClause> {
    if has == Some(false) {
        seq![QueryClause::NoUnlockCondition(kind)]
    } else if has == Some(true) || return_address is Some || before is Some || after is Some {
        seq![QueryClause::UnlockConditionMatch { kind, address: None, return_address, before, after }]
    } else {
        seq![]
    }
}

/// The clauses of a basic query.
pub open spec fn basic_clauses(q: BasicOutputsQuery) -> Seq<QueryClause> {
    seq![QueryClause::Kind(OutputType::Basic)] + clause_if(
        q.address,
        |a|
            QueryClause::UnlockConditionMatch {
                kind: UnlockConditionKind::Address,
                address: Some(a),
                return_address: None,
                before: None,
                after: None,
            },
    ) + native_tokens_clauses(q.has_native_tokens, q.min_native_token_count, q.max_native_token_count)
        + matched_condition_clauses(
        UnlockConditionKind::StorageDepositReturn,
        q.has_storage_return_condition,
        q.storage_return_address,
        None,
        None,
    ) + matched_condition_clauses(
        UnlockConditionKind::Timelock,
        q.has_timelock_condition,
        None,
        q.timelocked_before,
        q.timelocked_after,
    ) + matched_condition_clauses(
        UnlockConditionKind::Expiration,
        q.has_expiration_condition,
        q.expiration_return_address,
        q.expires_before,
        q.expires_after,
    ) + clause_if(q.sender, |a| QueryClause::FeatureAddress(FeatureKind::Sender, a)) + clause_if(
        q.tag,
        |t| QueryClause::Tag(t),
    ) + (if q.created_before is Some || q.created_after is Some {
        seq![QueryClause::BookedBetween { before: q.created_before, after: q.created_after }]
    } else {
        seq![]
    })
}

/// The clauses on an unlock condition that has a field of its own: whether
/// it exists, its timestamp bounds and its return address.
pub open spec fn field_condition_clauses(
    kind: UnlockConditionKind,
    has: Option<bool>,
    before: Option<MilestoneTimestamp>,
    after: Option<MilestoneTimestamp>,
    return_address: Option<Address>,
) -> Seq<QueryClause> {
    clause_if(has, |b| QueryClause::UnlockConditionExists(kind, b)) + clause_if(
        before,
        |t| QueryClause::UnlockConditionBefore(kind, t),
    ) + clause_if(after, |t| QueryClause::UnlockConditionAfter(kind, t)) + clause_if(
        return_address,
        |a| QueryClause::UnlockConditionReturnAddress(kind, a),
    )
}

/// The clauses on the booking time, one per bound.
pub open spec fn created_clauses(
    before: Option<MilestoneTimestamp>,
    after: Option<MilestoneTimestamp>,
) -> Seq<QueryClause> {
    clause_if(before, |t| QueryClause::BookedBefore(t)) + clause_if(after, |t| QueryClause::BookedAfter(t))
}

/// The clauses of an alias query.
pub open spec fn alias_clauses(q: AliasOutputsQuery) -> Seq<QueryClause> {
    seq![QueryClause::Kind(OutputType::Alias)] + clause_if(
        q.state_controller,
        |a| QueryClause::UnlockConditionAddress(UnlockConditionKind::StateControllerAddress, a),
    ) + clause_if(q.governor, |a| QueryClause::UnlockConditionAddress(UnlockConditionKind::GovernorAddress, a))
        + clause_if(q.issuer, |a| QueryClause::FeatureAddress(FeatureKind::Issuer, a)) + clause_if(
        q.sender,
        |a| QueryClause::FeatureAddress(FeatureKind::Sender, a),
    ) + native_tokens_clauses(q.has_native_tokens, q.min_native_token_count, q.max_native_token_count)
        + created_clauses(q.created_before, q.created_after)
}

/// The clauses of a foundry query.
pub open spec fn foundry_clauses(q: FoundryOutputsQuery) -> Seq<QueryClause> {
    seq![QueryClause::Kind(OutputType::Foundry)] + clause_if(
        q.alias_address,
        |a| QueryClause::UnlockConditionAddress(UnlockConditionKind::ImmutableAliasAddress, a),
    ) + native_tokens_clauses(q.has_native_tokens, q.min_native_token_count, q.max_native_token_count)
        + created_clauses(q.created_before, q.created_after)
}

/// The clauses of an nft query.
pub open spec fn nft_clauses(q: NftOutputsQuery) -> Seq<QueryClause> {
    seq![QueryClause::Kind(OutputType::Nft)] + clause_if(
        q.address,
        |a| QueryClause::UnlockConditionAddress(UnlockConditionKind::Address, a),
    ) + clause_if(q.issuer, |a| QueryClause::FeatureAddress(FeatureKind::Issuer, a)) + clause_if(
        q.sender,
        |a| QueryClause::FeatureAddress(FeatureKind::Sender, a),
    ) + native_tokens_clauses(q.has_native_tokens, q.min_native_token_count, q.max_native_token_count)
        + field_condition_clauses(
        UnlockConditionKind::StorageDepositReturn,
        q.has_storage_return_condition,
        None,
        None,
        q.storage_return_address,
    ) + field_condition_clauses(
        UnlockConditionKind::Timelock,
        q.has_timelock_condition,
        q.timelocked_before,
        q.timelocked_after,
        None,
    ) + field_condition_clauses(
        UnlockConditionKind::Expiration,
        q.has_expiration_condition,
        q.expires_before,
        q.expires_after,
        q.expiration_return_address,
    ) + clause_if(q.tag, |t| QueryClause::Tag(t)) + created_clauses(q.created_before, q.created_after)
}

/// Appends `c` to the clauses.
fn push_clause(clauses: &mut Vec<QueryClause>, c: QueryClause)
    ensures
        final(clauses)@ == old(clauses)@ + seq![c],
{
    clauses.push(c);
    proof {
        assert(clauses@ =~= old(clauses)@ + seq![c]);
    }
}

/// Appends the clauses on native tokens.
fn append_native_tokens(
    clauses: &mut Vec<QueryClause>,
    has: Option<bool>,
    min: Option<primitive_types::U256>,
    max: Option<primitive_types::U256>,
)
    ensures
        final(clauses)@ == old(clauses)@ + native_tokens_clauses(has, min, max),
{
    let ghost start = clauses@;
    if let Some(false) = has {
        push_clause(clauses, QueryClause::NoNativeTokens);
    } else {
        if matches!(has, Some(true)) || min.is_some() || max.is_some() {
            push_clause(clauses, QueryClause::HasNativeTokens);
        }
        let ghost mid = clauses@;
        if let Some(a) = min {
            push_clause(clauses, QueryClause::NativeTokensAtLeast(a));
        }
        let ghost mid2 = clauses@;
        if let Some(a) = max {
            push_clause(clauses, QueryClause::NativeTokensAtMost(a));
        }
        proof {
            assert(mid2 == mid + clause_if(min, |a| QueryClause::NativeTokensAtLeast(a)));
            assert(clauses@ == mid2 + clause_if(max, |a| QueryClause::NativeTokensAtMost(a)));
            assert(clauses@ =~= start + native_tokens_clauses(has, min, max));
        }
    }
}

/// Appends the clause of a basic query on an unlock condition matched as a
/// list element.
fn append_matched_condition(
    clauses: &mut Vec<QueryClause>,
    kind: UnlockConditionKind,
    has: Option<bool>,
    return_address: Option<Address>,
    before: Option<MilestoneTimestamp>,
    after: Option<MilestoneTimestamp>,
)
    ensures
        final(clauses)@ == old(clauses)@ + matched_condition_clauses(kind, has, return_address, before, after),
{
    if matches!(has, Some(false)) {
        push_clause(clauses, QueryClause::NoUnlockCondition(kind));
    } else if matches!(has, Some(true)) || return_address.is_some() || before.is_some() || after.is_some() {
        push_clause(
            clauses,
            QueryClause::UnlockConditionMatch { kind, address: None, return_address, before, after },
        );
    } else {
        proof {
            assert(clauses@ =~= old(clauses)@ + matched_condition_clauses(
                kind,
                has,
                return_address,
                before,
                after,
            ));
        }
    }
}

/// Appends the clauses on an unlock condition that has a field of its own.
fn append_field_condition(
    clauses: &mut Vec<QueryClause>,
    kind: UnlockConditionKind,
    has: Option<bool>,
    before: Option<MilestoneTimestamp>,
    after: Option<MilestoneTimestamp>,
    return_address: Option<Address>,
)
    ensures
        final(clauses)@ == old(clauses)@ + field_condition_clauses(kind, has, before, after, return_address),
{
    let ghost s0 = clauses@;
    if let Some(b) = has {
        push_clause(clauses, QueryClause::UnlockConditionExists(kind, b));
    }
    let ghost s1 = clauses@;
    if let Some(t) = before {
        push_clause(clauses, QueryClause::UnlockConditionBefore(kind, t));
    }
    let ghost s2 = clauses@;
    if let Some(t) = after {
        push_clause(clauses, QueryClause::UnlockConditionAfter(kind, t));
    }
    let ghost s3 = clauses@;
    if let Some(a) = return_address {
        push_clause(clauses, QueryClause::UnlockConditionReturnAddress(kind, a));
    }
    proof {
        assert(s1 == s0 + clause_if(has, |b| QueryClause::UnlockConditionExists(kind, b)));
        assert(s2 == s1 + clause_if(before, |t| QueryClause::UnlockConditionBefore(kind, t)));
        assert(s3 == s2 + clause_if(after, |t| QueryClause::UnlockConditionAfter(kind, t)));
        assert(clauses@ == s3 + clause_if(
            return_address,
            |a| QueryClause::UnlockConditionReturnAddress(kind, a),
        ));
        assert(clauses@ =~= s0 + field_condition_clauses(kind, has, before, after, return_address));
    }
}

/// Appends the clauses on the booking time, one per bound.
fn append_created(
    clauses: &mut Vec<QueryClause>,
    before: Option<MilestoneTimestamp>,
    after: Option<MilestoneTimestamp>,
)
    ensures
        final(clauses)@ == old(clauses)@ + created_clauses(before, after),
{
    let ghost s0 = clauses@;
    if let Some(t) = before {
        push_clause(clauses, QueryClause::BookedBefore(t));
    }
    let ghost s1 = clauses@;
    if let Some(t) = after {
        push_clause(clauses, QueryClause::BookedAfter(t));
    }
    proof {
        assert(s1 == s0 + clause_if(before, |t| QueryClause::BookedBefore(t)));
        assert(clauses@ == s1 + clause_if(after, |t| QueryClause::BookedAfter(t)));
        assert(clauses@ =~= s0 + created_clauses(before, after));
    }
}

impl BasicOutputsQuery {
    /// The filter that selects the basic outputs this query asks for.
    pub fn into_filter(self) -> (r: OutputsFilter)
        ensures
            r.clauses@ == basic_clauses(self),
    {
        let ghost q = self;
        let mut clauses: Vec<QueryClause> = Vec::new();
        push_clause(&mut clauses, QueryClause::Kind(OutputType::Basic));
        let ghost s0 = clauses@;
        // Address
        if let Some(address) = self.address {
            push_clause(
                &mut clauses,
                QueryClause::UnlockConditionMatch {
                    kind: UnlockConditionKind::Address,
                    address: Some(address),
                    return_address: None,
                    before: None,
                    after: None,
                },
            );
        }
        let ghost s1 = clauses@;
        // Native tokens
        append_native_tokens(
            &mut clauses,
            self.has_native_tokens,
            self.min_native_token_count,
            self.max_native_token_count,
        );
        let ghost s2 = clauses@;
        // Storage return
        append_matched_condition(
            &mut clauses,
            UnlockConditionKind::StorageDepositReturn,
            self.has_storage_return_condition,
            self.storage_return_address,
            None,
            None,
        );
        let ghost s3 = clauses@;
        // Timelock
        append_matched_condition(
            &mut clauses,
            UnlockConditionKind::Timelock,
            self.has_timelock_condition,
            None,
            self.timelocked_before,
            self.timelocked_after,
        );
        let ghost s4 = clauses@;
        // Expiration
        append_matched_condition(
            &mut clauses,
            UnlockConditionKind::Expiration,
            self.has_expiration_condition,
            self.expiration_return_address,
            self.expires_before,
            self.expires_after,
        );
        let ghost s5 = clauses@;
        // Sender
        if let Some(sender) = self.sender {
            push_clause(&mut clauses, QueryClause::FeatureAddress(FeatureKind::Sender, sender));
        }
        let ghost s6 = clauses@;
        // Tag
        if let Some(tag) = self.tag {
            push_clause(&mut clauses, QueryClause::Tag(tag));
        }
        let ghost s7 = clauses@;
        // Created (booked)
        if self.created_before.is_some() || self.created_after.is_some() {
            push_clause(
                &mut clauses,
                QueryClause::BookedBetween { before: self.created_before, after: self.created_after },
            );
        }
        proof {
            assert(s1 == s0 + clause_if(
                q.address,
                |a|
                    QueryClause::UnlockConditionMatch {
                        kind: UnlockConditionKind::Address,
                        address: Some(a),
                        return_address: None,
                        before: None,
                        after: None,
                    },
            ));
            assert(s6 == s5 + clause_if(q.sender, |a| QueryClause::FeatureAddress(FeatureKind::Sender, a)));
            assert(s7 == s6 + clause_if(q.tag, |t| QueryClause::Tag(t)));
            assert(clauses@ =~= basic_clauses(q));
        }
        OutputsFilter { clauses }
    }
}

impl AliasOutputsQuery {
    /// The filter that selects the alias outputs this query asks for.
    pub fn into_filter(self) -> (r: OutputsFilter)
        ensures
            r.clauses@ == alias_clauses(self),
    {
        let ghost q = self;
        let mut clauses: Vec<QueryClause> = Vec::new();
        push_clause(&mut clauses, QueryClause::Kind(OutputType::Alias));
        let ghost s0 = clauses@;
        if let Some(a) = self.state_controller {
            push_clause(
                &mut clauses,
                QueryClause::UnlockConditionAddress(UnlockConditionKind::StateControllerAddress, a),
            );
        }
        let ghost s1 = clauses@;
        if let Some(a) = self.governor {
            push_clause(&mut clauses, QueryClause::UnlockConditionAddress(UnlockConditionKind::GovernorAddress, a));
        }
        let ghost s2 = clauses@;
        if let Some(a) = self.issuer {
            push_clause(&mut clauses, QueryClause::FeatureAddress(FeatureKind::Issuer, a));
        }
        let ghost s3 = clauses@;
        if let Some(a) = self.sender {
            push_clause(&mut clauses, QueryClause::FeatureAddress(FeatureKind::Sender, a));
        }
        let ghost s4 = clauses@;
        append_native_tokens(
            &mut clauses,
            self.has_native_tokens,
            self.min_native_token_count,
            self.max_native_token_count,
        );
        append_created(&mut clauses, self.created_before, self.created_after);
        proof {
            assert(s1 == s0 + clause_if(
                q.state_controller,
                |a| QueryClause::UnlockConditionAddress(UnlockConditionKind::StateControllerAddress, a),
            ));
            assert(s2 == s1 + clause_if(
                q.governor,
                |a| QueryClause::UnlockConditionAddress(UnlockConditionKind::GovernorAddress, a),
            ));
            assert(s3 == s2 + clause_if(q.issuer, |a| QueryClause::FeatureAddress(FeatureKind::Issuer, a)));
            assert(s4 == s3 + clause_if(q.sender, |a| QueryClause::FeatureAddress(FeatureKind::Sender, a)));
            assert(clauses@ =~= alias_clauses(q));
        }
        OutputsFilter { clauses }
    }
}

impl FoundryOutputsQuery {
    /// The filter that selects the foundry outputs this query asks for.
    pub fn into_filter(self) -> (r: OutputsFilter)
        ensures
            r.clauses@ == foundry_clauses(self),
    {
        let ghost q = self;
        let mut clauses: Vec<QueryClause> = Vec::new();
        push_clause(&mut clauses, QueryClause::Kind(OutputType::Foundry));
        let ghost s0 = clauses@;
        if let Some(a) = self.alias_address {
            push_clause(
                &mut clauses,
                QueryClause::UnlockConditionAddress(UnlockConditionKind::ImmutableAliasAddress, a),
            );
        }
        let ghost s1 = clauses@;
        append_native_tokens(
            &mut clauses,
            self.has_native_tokens,
            self.min_native_token_count,
            self.max_native_token_count,
        );
        append_created(&mut clauses, self.created_before, self.created_after);
        proof {
            assert(s1 == s0 + clause_if(
                q.alias_address,
                |a| QueryClause::UnlockConditionAddress(UnlockConditionKind::ImmutableAliasAddress, a),
            ));
            assert(clauses@ =~= foundry_clauses(q));
        }
        OutputsFilter { clauses }
    }
}

impl NftOutputsQuery {
    /// The filter that selects the nft outputs this query asks for.
    pub fn into_filter(self) -> (r: OutputsFilter)
        ensures
            r.clauses@ == nft_clauses(self),
    {
        let ghost q = self;
        let mut clauses: Vec<QueryClause> = Vec::new();
        push_clause(&mut clauses, QueryClause::Kind(OutputType::Nft));
        let ghost s0 = clauses@;
        if let Some(a) = self.address {
            push_clause(&mut clauses, QueryClause::UnlockConditionAddress(UnlockConditionKind::Address, a));
        }
        let ghost s1 = clauses@;
        if let Some(a) = self.issuer {
            push_clause(&mut clauses, QueryClause::FeatureAddress(FeatureKind::Issuer, a));
        }
        let ghost s2 = clauses@;
        if let Some(a) = self.sender {
            push_clause(&mut clauses, QueryClause::FeatureAddress(FeatureKind::Sender, a));
        }
        let ghost s3 = clauses@;
        append_native_tokens(
            &mut clauses,
            self.has_native_tokens,
            self.min_native_token_count,
            self.max_native_token_count,
        );
        append_field_condition(
            &mut clauses,
            UnlockConditionKind::StorageDepositReturn,
            self.has_storage_return_condition,
            None,
            None,
            self.storage_return_address,
        );
        append_field_condition(
            &mut clauses,
            UnlockConditionKind::Timelock,
            self.has_timelock_condition,
            self.timelocked_before,
            self.timelocked_after,
            None,
        );
        append_field_condition(
            &mut clauses,
            UnlockConditionKind::Expiration,
            self.has_expiration_condition,
            self.expires_before,
            self.expires_after,
            self.expiration_return_address,
        );
        let ghost s4 = clauses@;
        if let Some(tag) = self.tag {
            push_clause(&mut clauses, QueryClause::Tag(tag));
        }
        let ghost s5 = clauses@;
        append_created(&mut clauses, self.created_before, self.created_after);
        proof {
            assert(s1 == s0 + clause_if(
                q.address,
                |a| QueryClause::UnlockConditionAddress(UnlockConditionKind::Address, a),
            ));
            assert(s2 == s1 + clause_if(q.issuer, |a| QueryClause::FeatureAddress(FeatureKind::Issuer, a)));
            assert(s3 == s2 + clause_if(q.sender, |a| QueryClause::FeatureAddress(FeatureKind::Sender, a)));
            assert(s5 == s4 + clause_if(q.tag, |t| QueryClause::Tag(t)));
            assert(clauses@ =~= nft_clauses(q));
        }
        OutputsFilter { clauses }
    }
}


/// What a query's conditions on native tokens ask of its filter: no native
/// tokens when it asks for none; otherwise some native tokens whenever it
/// asks for them or bounds their amounts, and each bound that it gives.
pub open spec fn native_tokens_asked(
    clauses: Seq<QueryClause>,
    has: Option<bool>,
    min: Option<primitive_types::U256>,
    max: Option<primitive_types::U256>,
) -> bool {
    &&& has == Some(false) ==> clauses.contains(QueryClause::NoNativeTokens)
    &&& has != Some(false) && (has == Some(true) || min is Some || max is Some) ==> clauses.contains(
        QueryClause::HasNativeTokens,
    )
    &&& has != Some(false) && min is Some ==> clauses.contains(QueryClause::NativeTokensAtLeast(min.unwrap()))
    &&& has != Some(false) && max is Some ==> clauses.contains(QueryClause::NativeTokensAtMost(max.unwrap()))
}

proof fn lemma_native_tokens_asked(
    before: Seq<QueryClause>,
    after: Seq<QueryClause>,
    has: Option<bool>,
    min: Option<primitive_types::U256>,
    max: Option<primitive_types::U256>,
)
    ensures
        native_tokens_asked(before + native_tokens_clauses(has, min, max) + after, has, min, max),
{
    let n = native_tokens_clauses(has, min, max);
    let all = before + n + after;
    assert forall|i: int| 0 <= i < n.len() implies all.contains(#[trigger] n[i]) by {
        assert(all[before.len() + i] == n[i]);
    }
    if has == Some(false) {
        assert(n[0] == QueryClause::NoNativeTokens);
    } else {
        let h: Seq<QueryClause> = if has == Some(true) || min is Some || max is Some {
            seq![QueryClause::HasNativeTokens]
        } else {
            seq![]
        };
        let lo = clause_if(min, |a| QueryClause::NativeTokensAtLeast(a));
        if h.len() > 0 {
            assert(n[0] == QueryClause::HasNativeTokens);
        }
        if min is Some {
            assert(n[h.len() as int] == QueryClause::NativeTokensAtLeast(min.unwrap()));
        }
        if max is Some {
            assert(n[(h.len() + lo.len()) as int] == QueryClause::NativeTokensAtMost(max.unwrap()));
        }
    }
}

/// The filter of every query kind asks for native tokens as the query does.
pub proof fn lemma_queries_ask_native_tokens(
    b: BasicOutputsQuery,
    a: AliasOutputsQuery,
    f: FoundryOutputsQuery,
    n: NftOutputsQuery,
)
    ensures
        native_tokens_asked(basic_clauses(b), b.has_native_tokens, b.min_native_token_count, b.max_native_token_count),
        native_tokens_asked(alias_clauses(a), a.has_native_tokens, a.min_native_token_count, a.max_native_token_count),
        native_tokens_asked(
            foundry_clauses(f),
            f.has_native_tokens,
            f.min_native_token_count,
            f.max_native_token_count,
        ),
        native_tokens_asked(nft_clauses(n), n.has_native_tokens, n.min_native_token_count, n.max_native_token_count),
{
    let bn = native_tokens_clauses(b.has_native_tokens, b.min_native_token_count, b.max_native_token_count);
    let bpre = seq![QueryClause::Kind(OutputType::Basic)] + clause_if(
        b.address,
        |x|
            QueryClause::UnlockConditionMatch {
                kind: UnlockConditionKind::Address,
                address: Some(x),
                return_address: None,
                before: None,
                after: None,
            },
    );
    let bpost = basic_clauses(b).subrange((bpre.len() + bn.len()) as int, basic_clauses(b).len() as int);
    assert(basic_clauses(b) =~= bpre + bn + bpost);
    lemma_native_tokens_asked(bpre, bpost, b.has_native_tokens, b.min_native_token_count, b.max_native_token_count);

    let an = native_tokens_clauses(a.has_native_tokens, a.min_native_token_count, a.max_native_token_count);
    let apre = seq![QueryClause::Kind(OutputType::Alias)] + clause_if(
        a.state_controller,
        |x| QueryClause::UnlockConditionAddress(UnlockConditionKind::StateControllerAddress, x),
    ) + clause_if(a.governor, |x| QueryClause::UnlockConditionAddress(UnlockConditionKind::GovernorAddress, x))
        + clause_if(a.issuer, |x| QueryClause::FeatureAddress(FeatureKind::Issuer, x)) + clause_if(
        a.sender,
        |x| QueryClause::FeatureAddress(FeatureKind::Sender, x),
    );
    let apost = created_clauses(a.created_before, a.created_after);
    assert(alias_clauses(a) =~= apre + an + apost);
    lemma_native_tokens_asked(apre, apost, a.has_native_tokens, a.min_native_token_count, a.max_native_token_count);

    let fnat = native_tokens_clauses(f.has_native_tokens, f.min_native_token_count, f.max_native_token_count);
    let fpre = seq![QueryClause::Kind(OutputType::Foundry)] + clause_if(
        f.alias_address,
        |x| QueryClause::UnlockConditionAddress(UnlockConditionKind::ImmutableAliasAddress, x),
    );
    let fpost = created_clauses(f.created_before, f.created_after);
    assert(foundry_clauses(f) =~= fpre + fnat + fpost);
    lemma_native_tokens_asked(fpre, fpost, f.has_native_tokens, f.min_native_token_count, f.max_native_token_count);

    let nn = native_tokens_clauses(n.has_native_tokens, n.min_native_token_count, n.max_native_token_count);
    let npre = seq![QueryClause::Kind(OutputType::Nft)] + clause_if(
        n.address,
        |x| QueryClause::UnlockConditionAddress(UnlockConditionKind::Address, x),
    ) + clause_if(n.issuer, |x| QueryClause::FeatureAddress(FeatureKind::Issuer, x)) + clause_if(
        n.sender,
        |x| QueryClause::FeatureAddress(FeatureKind::Sender, x),
    );
    let npost = nft_clauses(n).subrange((npre.len() + nn.len()) as int, nft_clauses(n).len() as int);
    assert(nft_clauses(n) =~= npre + nn + npost);
    lemma_native_tokens_asked(npre, npost, n.has_native_tokens, n.min_native_token_count, n.max_native_token_count);
}

} // verus!
