use chronicle::indexer::{
    AliasOutputsQuery, BasicOutputsQuery, FeatureKind, FoundryOutputsQuery, NftOutputsQuery, QueryClause,
    UnlockConditionKind,
};
use chronicle::document::{clause_document, filter_document, BsonValue};
use chronicle::types::{Address, AddressKind, MilestoneTimestamp, OutputType};
use primitive_types::U256;

fn address() -> Address {
    Address { kind: AddressKind::Ed25519, bytes: [7; 32] }
}

fn ts(t: u32) -> MilestoneTimestamp {
    MilestoneTimestamp(t)
}

fn text(s: &str) -> BsonValue {
    BsonValue::String(s.to_string())
}

fn doc(entries: Vec<(&str, BsonValue)>) -> BsonValue {
    BsonValue::Document(entries.into_iter().map(|(k, v)| (k.to_string(), v)).collect())
}

fn and(clauses: Vec<BsonValue>) -> BsonValue {
    doc(vec![("$and", BsonValue::Array(clauses))])
}

fn addr(a: &Address) -> BsonValue {
    doc(vec![("kind", text("ed25519")), ("data", BsonValue::Binary(a.bytes.to_vec()))])
}

fn time(t: i64) -> BsonValue {
    BsonValue::Int64(t)
}

fn op(o: &str, v: BsonValue) -> BsonValue {
    doc(vec![(o, v)])
}

fn kind_is(name: &str) -> BsonValue {
    doc(vec![("output.kind", text(name))])
}

fn elem_match(list: &str, entries: Vec<(&str, BsonValue)>) -> BsonValue {
    doc(vec![(list, op("$elemMatch", doc(entries)))])
}

fn no_elem_match(list: &str, entries: Vec<(&str, BsonValue)>) -> BsonValue {
    doc(vec![(list, op("$not", op("$elemMatch", doc(entries))))])
}

fn tokens(o: &str) -> BsonValue {
    doc(vec![("output.native_tokens", op(o, BsonValue::Array(vec![])))])
}

fn amount_bound(o: &str, n: u64) -> BsonValue {
    no_elem_match("output.native_tokens", vec![("amount", op(o, BsonValue::Amount(U256::from(n))))])
}

fn tag_is(t: &str) -> BsonValue {
    elem_match("output.features", vec![("kind", text("tag")), ("data", BsonValue::Binary(t.as_bytes().to_vec()))])
}

fn booked(o: &str, t: i64) -> BsonValue {
    doc(vec![("metadata.booked.milestone_timestamp", op(o, time(t)))])
}

#[test]
fn test_basic_query_everything() {
    let address = address();
    let query = BasicOutputsQuery {
        address: Some(address),
        has_native_tokens: Some(true),
        min_native_token_count: Some(100.into()),
        max_native_token_count: Some(1000.into()),
        has_storage_return_condition: Some(true),
        storage_return_address: Some(address),
        has_timelock_condition: Some(true),
        timelocked_before: Some(ts(10000)),
        timelocked_after: Some(ts(1000)),
        has_expiration_condition: Some(true),
        expires_before: Some(ts(10000)),
        expires_after: Some(ts(1000)),
        expiration_return_address: Some(address),
        sender: Some(address),
        tag: Some("my_tag".to_string()),
        created_before: Some(ts(10000)),
        created_after: Some(ts(1000)),
    };
    let expected = vec![
        QueryClause::Kind(OutputType::Basic),
        QueryClause::UnlockConditionMatch {
            kind: UnlockConditionKind::Address,
            address: Some(address),
            return_address: None,
            before: None,
            after: None,
        },
        QueryClause::HasNativeTokens,
        QueryClause::NativeTokensAtLeast(U256::from(100)),
        QueryClause::NativeTokensAtMost(U256::from(1000)),
        QueryClause::UnlockConditionMatch {
            kind: UnlockConditionKind::StorageDepositReturn,
            address: None,
            return_address: Some(address),
            before: None,
            after: None,
        },
        QueryClause::UnlockConditionMatch {
            kind: UnlockConditionKind::Timelock,
            address: None,
            return_address: None,
            before: Some(ts(10000)),
            after: Some(ts(1000)),
        },
        QueryClause::UnlockConditionMatch {
            kind: UnlockConditionKind::Expiration,
            address: None,
            return_address: Some(address),
            before: Some(ts(10000)),
            after: Some(ts(1000)),
        },
        QueryClause::FeatureAddress(FeatureKind::Sender, address),
        QueryClause::Tag("my_tag".to_string()),
        QueryClause::BookedBetween { before: Some(ts(10000)), after: Some(ts(1000)) },
    ];
    let filter = query.into_filter();
    assert_eq!(filter_document(&filter), and(vec![
        kind_is("basic"),
        elem_match("output.unlock_conditions", vec![("kind", text("address")), ("address", addr(&address))]),
        tokens("$ne"),
        amount_bound("$lt", 100),
        amount_bound("$gt", 1000),
        elem_match(
            "output.unlock_conditions",
            vec![("kind", text("storage_deposit_return")), ("return_address", addr(&address))],
        ),
        elem_match(
            "output.unlock_conditions",
            vec![("kind", text("timelock")), ("timestamp", doc(vec![("$lt", time(10000)), ("$gt", time(1000))]))],
        ),
        elem_match(
            "output.unlock_conditions",
            vec![
                ("kind", text("expiration")),
                ("timestamp", doc(vec![("$lt", time(10000)), ("$gt", time(1000))])),
                ("return_address", addr(&address)),
            ],
        ),
        elem_match("output.features", vec![("kind", text("sender")), ("address", addr(&address))]),
        tag_is("my_tag"),
        doc(vec![("metadata.booked.milestone_timestamp", doc(vec![("$gt", time(1000)), ("$lt", time(10000))]))]),
    ]));
    assert_eq!(filter.clauses, expected);
}

#[test]
fn test_basic_query_all_false() {
    let address = address();
    let query = BasicOutputsQuery {
        address: Some(address),
        has_native_tokens: Some(false),
        min_native_token_count: Some(100.into()),
        max_native_token_count: Some(1000.into()),
        has_storage_return_condition: Some(false),
        storage_return_address: Some(address),
        has_timelock_condition: Some(false),
        timelocked_before: Some(ts(10000)),
        timelocked_after: Some(ts(1000)),
        has_expiration_condition: Some(false),
        expires_before: Some(ts(10000)),
        expires_after: Some(ts(1000)),
        expiration_return_address: Some(address),
        sender: None,
        tag: Some("my_tag".to_string()),
        created_before: Some(ts(10000)),
        created_after: Some(ts(1000)),
    };
    let expected = vec![
        QueryClause::Kind(OutputType::Basic),
        QueryClause::UnlockConditionMatch {
            kind: UnlockConditionKind::Address,
            address: Some(address),
            return_address: None,
            before: None,
            after: None,
        },
        QueryClause::NoNativeTokens,
        QueryClause::NoUnlockCondition(UnlockConditionKind::StorageDepositReturn),
        QueryClause::NoUnlockCondition(UnlockConditionKind::Timelock),
        QueryClause::NoUnlockCondition(UnlockConditionKind::Expiration),
        QueryClause::Tag("my_tag".to_string()),
        QueryClause::BookedBetween { before: Some(ts(10000)), after: Some(ts(1000)) },
    ];
    let filter = query.into_filter();
    assert_eq!(filter_document(&filter), and(vec![
        kind_is("basic"),
        elem_match("output.unlock_conditions", vec![("kind", text("address")), ("address", addr(&address))]),
        tokens("$eq"),
        no_elem_match("output.unlock_conditions", vec![("kind", text("storage_deposit_return"))]),
        no_elem_match("output.unlock_conditions", vec![("kind", text("timelock"))]),
        no_elem_match("output.unlock_conditions", vec![("kind", text("expiration"))]),
        tag_is("my_tag"),
        doc(vec![("metadata.booked.milestone_timestamp", doc(vec![("$gt", time(1000)), ("$lt", time(10000))]))]),
    ]));
    assert_eq!(filter.clauses, expected);
}

#[test]
fn test_basic_query_all_true() {
    let query = BasicOutputsQuery {
        has_native_tokens: Some(true),
        has_storage_return_condition: Some(true),
        has_timelock_condition: Some(true),
        has_expiration_condition: Some(true),
        ..Default::default()
    };
    let matched = |kind| QueryClause::UnlockConditionMatch {
        kind,
        address: None,
        return_address: None,
        before: None,
        after: None,
    };
    let expected = vec![
        QueryClause::Kind(OutputType::Basic),
        QueryClause::HasNativeTokens,
        matched(UnlockConditionKind::StorageDepositReturn),
        matched(UnlockConditionKind::Timelock),
        matched(UnlockConditionKind::Expiration),
    ];
    let filter = query.into_filter();
    assert_eq!(filter_document(&filter), and(vec![
        kind_is("basic"),
        tokens("$ne"),
        elem_match("output.unlock_conditions", vec![("kind", text("storage_deposit_return"))]),
        elem_match("output.unlock_conditions", vec![("kind", text("timelock"))]),
        elem_match("output.unlock_conditions", vec![("kind", text("expiration"))]),
    ]));
    assert_eq!(filter.clauses, expected);
}

#[test]
fn test_alias_query_everything() {
    let address = address();
    let query = AliasOutputsQuery {
        state_controller: Some(address),
        governor: Some(address),
        issuer: Some(address),
        sender: Some(address),
        has_native_tokens: Some(true),
        min_native_token_count: Some(100.into()),
        max_native_token_count: Some(1000.into()),
        created_before: Some(ts(10000)),
        created_after: Some(ts(1000)),
    };
    let expected = vec![
        QueryClause::Kind(OutputType::Alias),
        QueryClause::UnlockConditionAddress(UnlockConditionKind::StateControllerAddress, address),
        QueryClause::UnlockConditionAddress(UnlockConditionKind::GovernorAddress, address),
        QueryClause::FeatureAddress(FeatureKind::Issuer, address),
        QueryClause::FeatureAddress(FeatureKind::Sender, address),
        QueryClause::HasNativeTokens,
        QueryClause::NativeTokensAtLeast(U256::from(100)),
        QueryClause::NativeTokensAtMost(U256::from(1000)),
        QueryClause::BookedBefore(ts(10000)),
        QueryClause::BookedAfter(ts(1000)),
    ];
    let filter = query.into_filter();
    assert_eq!(filter_document(&filter), and(vec![
        kind_is("alias"),
        doc(vec![("output.state_controller_address_unlock_condition.address", addr(&address))]),
        doc(vec![("output.governor_address_unlock_condition.address", addr(&address))]),
        elem_match("output.features", vec![("kind", text("issuer")), ("address", addr(&address))]),
        elem_match("output.features", vec![("kind", text("sender")), ("address", addr(&address))]),
        tokens("$ne"),
        amount_bound("$lt", 100),
        amount_bound("$gt", 1000),
        booked("$lt", 10000),
        booked("$gt", 1000),
    ]));
    assert_eq!(filter.clauses, expected);
}

#[test]
fn test_alias_query_all_false() {
    let query = AliasOutputsQuery {
        has_native_tokens: Some(false),
        min_native_token_count: Some(100.into()),
        max_native_token_count: Some(1000.into()),
        created_before: Some(ts(10000)),
        ..Default::default()
    };
    let expected = vec![
        QueryClause::Kind(OutputType::Alias),
        QueryClause::NoNativeTokens,
        QueryClause::BookedBefore(ts(10000)),
    ];
    let filter = query.into_filter();
    assert_eq!(filter_document(&filter), and(vec![kind_is("alias"), tokens("$eq"), booked("$lt", 10000)]));
    assert_eq!(filter.clauses, expected);
}

#[test]
fn test_foundry_query_everything() {
    let address = address();
    let query = FoundryOutputsQuery {
        alias_address: Some(address),
        has_native_tokens: Some(true),
        min_native_token_count: Some(100.into()),
        max_native_token_count: Some(1000.into()),
        created_before: Some(ts(10000)),
        created_after: Some(ts(1000)),
    };
    let expected = vec![
        QueryClause::Kind(OutputType::Foundry),
        QueryClause::UnlockConditionAddress(UnlockConditionKind::ImmutableAliasAddress, address),
        QueryClause::HasNativeTokens,
        QueryClause::NativeTokensAtLeast(U256::from(100)),
        QueryClause::NativeTokensAtMost(U256::from(1000)),
        QueryClause::BookedBefore(ts(10000)),
        QueryClause::BookedAfter(ts(1000)),
    ];
    let filter = query.into_filter();
    assert_eq!(filter_document(&filter), and(vec![
        kind_is("foundry"),
        doc(vec![("output.immutable_alias_address_unlock_condition.address", addr(&address))]),
        tokens("$ne"),
        amount_bound("$lt", 100),
        amount_bound("$gt", 1000),
        booked("$lt", 10000),
        booked("$gt", 1000),
    ]));
    assert_eq!(filter.clauses, expected);
}

#[test]
fn test_foundry_query_all_false() {
    let query = FoundryOutputsQuery {
        alias_address: None,
        has_native_tokens: Some(false),
        min_native_token_count: Some(100.into()),
        max_native_token_count: Some(1000.into()),
        created_before: Some(ts(10000)),
        created_after: Some(ts(1000)),
    };
    let expected = vec![
        QueryClause::Kind(OutputType::Foundry),
        QueryClause::NoNativeTokens,
        QueryClause::BookedBefore(ts(10000)),
        QueryClause::BookedAfter(ts(1000)),
    ];
    let filter = query.into_filter();
    assert_eq!(filter_document(&filter), and(vec![kind_is("foundry"), tokens("$eq"), booked("$lt", 10000), booked("$gt", 1000)]));
    assert_eq!(filter.clauses, expected);
}

#[test]
fn test_foundry_query_all_true() {
    let query = FoundryOutputsQuery { has_native_tokens: Some(true), ..Default::default() };
    let expected = vec![QueryClause::Kind(OutputType::Foundry), QueryClause::HasNativeTokens];
    let filter = query.into_filter();
    assert_eq!(filter_document(&filter), and(vec![kind_is("foundry"), tokens("$ne")]));
    assert_eq!(filter.clauses, expected);
}

#[test]
fn test_nft_query_everything() {
    let address = address();
    let query = NftOutputsQuery {
        address: Some(address),
        issuer: Some(address),
        sender: Some(address),
        has_native_tokens: Some(true),
        min_native_token_count: Some(100.into()),
        max_native_token_count: Some(1000.into()),
        has_storage_return_condition: Some(true),
        storage_return_address: Some(address),
        has_timelock_condition: Some(true),
        timelocked_before: Some(ts(10000)),
        timelocked_after: Some(ts(1000)),
        has_expiration_condition: Some(true),
        expires_before: Some(ts(10000)),
        expires_after: Some(ts(1000)),
        expiration_return_address: Some(address),
        tag: Some("my_tag".to_string()),
        created_before: Some(ts(10000)),
        created_after: Some(ts(1000)),
    };
    let expected = vec![
        QueryClause::Kind(OutputType::Nft),
        QueryClause::UnlockConditionAddress(UnlockConditionKind::Address, address),
        QueryClause::FeatureAddress(FeatureKind::Issuer, address),
        QueryClause::FeatureAddress(FeatureKind::Sender, address),
        QueryClause::HasNativeTokens,
        QueryClause::NativeTokensAtLeast(U256::from(100)),
        QueryClause::NativeTokensAtMost(U256::from(1000)),
        QueryClause::UnlockConditionExists(UnlockConditionKind::StorageDepositReturn, true),
        QueryClause::UnlockConditionReturnAddress(UnlockConditionKind::StorageDepositReturn, address),
        QueryClause::UnlockConditionExists(UnlockConditionKind::Timelock, true),
        QueryClause::UnlockConditionBefore(UnlockConditionKind::Timelock, ts(10000)),
        QueryClause::UnlockConditionAfter(UnlockConditionKind::Timelock, ts(1000)),
        QueryClause::UnlockConditionExists(UnlockConditionKind::Expiration, true),
        QueryClause::UnlockConditionBefore(UnlockConditionKind::Expiration, ts(10000)),
        QueryClause::UnlockConditionAfter(UnlockConditionKind::Expiration, ts(1000)),
        QueryClause::UnlockConditionReturnAddress(UnlockConditionKind::Expiration, address),
        QueryClause::Tag("my_tag".to_string()),
        QueryClause::BookedBefore(ts(10000)),
        QueryClause::BookedAfter(ts(1000)),
    ];
    let filter = query.into_filter();
    assert_eq!(filter_document(&filter), and(vec![
        kind_is("nft"),
        doc(vec![("output.address_unlock_condition.address", addr(&address))]),
        elem_match("output.features", vec![("kind", text("issuer")), ("address", addr(&address))]),
        elem_match("output.features", vec![("kind", text("sender")), ("address", addr(&address))]),
        tokens("$ne"),
        amount_bound("$lt", 100),
        amount_bound("$gt", 1000),
        doc(vec![("output.storage_deposit_return_unlock_condition", op("$exists", BsonValue::Boolean(true)))]),
        doc(vec![("output.storage_deposit_return_unlock_condition.return_address", addr(&address))]),
        doc(vec![("output.timelock_unlock_condition", op("$exists", BsonValue::Boolean(true)))]),
        doc(vec![("output.timelock_unlock_condition.timestamp", op("$lt", time(10000)))]),
        doc(vec![("output.timelock_unlock_condition.timestamp", op("$gt", time(1000)))]),
        doc(vec![("output.expiration_unlock_condition", op("$exists", BsonValue::Boolean(true)))]),
        doc(vec![("output.expiration_unlock_condition.timestamp", op("$lt", time(10000)))]),
        doc(vec![("output.expiration_unlock_condition.timestamp", op("$gt", time(1000)))]),
        doc(vec![("output.expiration_unlock_condition.return_address", addr(&address))]),
        tag_is("my_tag"),
        booked("$lt", 10000),
        booked("$gt", 1000),
    ]));
    assert_eq!(filter.clauses, expected);
}

#[test]
fn test_nft_query_all_false() {
    let address = address();
    let query = NftOutputsQuery {
        address: Some(address),
        issuer: None,
        sender: None,
        has_native_tokens: Some(false),
        min_native_token_count: Some(100.into()),
        max_native_token_count: Some(1000.into()),
        has_storage_return_condition: Some(false),
        storage_return_address: Some(address),
        has_timelock_condition: Some(false),
        timelocked_before: Some(ts(10000)),
        timelocked_after: Some(ts(1000)),
        has_expiration_condition: Some(false),
        expires_before: Some(ts(10000)),
        expires_after: Some(ts(1000)),
        expiration_return_address: Some(address),
        tag: Some("my_tag".to_string()),
        created_before: Some(ts(10000)),
        created_after: Some(ts(1000)),
    };
    let expected = vec![
        QueryClause::Kind(OutputType::Nft),
        QueryClause::UnlockConditionAddress(UnlockConditionKind::Address, address),
        QueryClause::NoNativeTokens,
        QueryClause::UnlockConditionExists(UnlockConditionKind::StorageDepositReturn, false),
        QueryClause::UnlockConditionReturnAddress(UnlockConditionKind::StorageDepositReturn, address),
        QueryClause::UnlockConditionExists(UnlockConditionKind::Timelock, false),
        QueryClause::UnlockConditionBefore(UnlockConditionKind::Timelock, ts(10000)),
        QueryClause::UnlockConditionAfter(UnlockConditionKind::Timelock, ts(1000)),
        QueryClause::UnlockConditionExists(UnlockConditionKind::Expiration, false),
        QueryClause::UnlockConditionBefore(UnlockConditionKind::Expiration, ts(10000)),
        QueryClause::UnlockConditionAfter(UnlockConditionKind::Expiration, ts(1000)),
        QueryClause::UnlockConditionReturnAddress(UnlockConditionKind::Expiration, address),
        QueryClause::Tag("my_tag".to_string()),
        QueryClause::BookedBefore(ts(10000)),
        QueryClause::BookedAfter(ts(1000)),
    ];
    let filter = query.into_filter();
    assert_eq!(filter_document(&filter), and(vec![
        kind_is("nft"),
        doc(vec![("output.address_unlock_condition.address", addr(&address))]),
        tokens("$eq"),
        doc(vec![("output.storage_deposit_return_unlock_condition", op("$exists", BsonValue::Boolean(false)))]),
        doc(vec![("output.storage_deposit_return_unlock_condition.return_address", addr(&address))]),
        doc(vec![("output.timelock_unlock_condition", op("$exists", BsonValue::Boolean(false)))]),
        doc(vec![("output.timelock_unlock_condition.timestamp", op("$lt", time(10000)))]),
        doc(vec![("output.timelock_unlock_condition.timestamp", op("$gt", time(1000)))]),
        doc(vec![("output.expiration_unlock_condition", op("$exists", BsonValue::Boolean(false)))]),
        doc(vec![("output.expiration_unlock_condition.timestamp", op("$lt", time(10000)))]),
        doc(vec![("output.expiration_unlock_condition.timestamp", op("$gt", time(1000)))]),
        doc(vec![("output.expiration_unlock_condition.return_address", addr(&address))]),
        tag_is("my_tag"),
        booked("$lt", 10000),
        booked("$gt", 1000),
    ]));
    assert_eq!(filter.clauses, expected);
}

#[test]
fn test_nft_query_all_true() {
    let query = NftOutputsQuery {
        has_native_tokens: Some(true),
        has_storage_return_condition: Some(true),
        has_timelock_condition: Some(true),
        has_expiration_condition: Some(true),
        ..Default::default()
    };
    let expected = vec![
        QueryClause::Kind(OutputType::Nft),
        QueryClause::HasNativeTokens,
        QueryClause::UnlockConditionExists(UnlockConditionKind::StorageDepositReturn, true),
        QueryClause::UnlockConditionExists(UnlockConditionKind::Timelock, true),
        QueryClause::UnlockConditionExists(UnlockConditionKind::Expiration, true),
    ];
    let filter = query.into_filter();
    assert_eq!(filter_document(&filter), and(vec![
        kind_is("nft"),
        tokens("$ne"),
        doc(vec![("output.storage_deposit_return_unlock_condition", op("$exists", BsonValue::Boolean(true)))]),
        doc(vec![("output.timelock_unlock_condition", op("$exists", BsonValue::Boolean(true)))]),
        doc(vec![("output.expiration_unlock_condition", op("$exists", BsonValue::Boolean(true)))]),
    ]));
    assert_eq!(filter.clauses, expected);
}

#[test]
fn basic_query_without_conditions() {
    let expected = vec![QueryClause::Kind(OutputType::Basic)];
    assert_eq!(BasicOutputsQuery::default().into_filter().clauses, expected);
}

#[test]
fn basic_query_created_after_only() {
    let query = BasicOutputsQuery { created_after: Some(ts(5)), ..Default::default() };
    let expected = vec![
        QueryClause::Kind(OutputType::Basic),
        QueryClause::BookedBetween { before: None, after: Some(ts(5)) },
    ];
    assert_eq!(query.into_filter().clauses, expected);
}

#[test]
fn clause_documents_of_each_shape() {
    let address = address();
    let matched = QueryClause::UnlockConditionMatch {
        kind: UnlockConditionKind::Expiration,
        address: None,
        return_address: Some(address),
        before: None,
        after: Some(ts(7)),
    };
    assert_eq!(
        clause_document(&matched),
        elem_match(
            "output.unlock_conditions",
            vec![
                ("kind", text("expiration")),
                ("timestamp", op("$gt", time(7))),
                ("return_address", addr(&address)),
            ],
        )
    );
    assert_eq!(
        clause_document(&QueryClause::BookedBetween { before: Some(ts(9)), after: None }),
        doc(vec![("metadata.booked.milestone_timestamp", op("$lt", time(9)))])
    );
    assert_eq!(
        clause_document(&QueryClause::UnlockConditionAfter(UnlockConditionKind::GovernorAddress, ts(3))),
        doc(vec![("output.governor_address_unlock_condition.timestamp", op("$gt", time(3)))])
    );
    let alias = Address { kind: AddressKind::Alias, bytes: [1; 32] };
    assert_eq!(
        clause_document(&QueryClause::FeatureAddress(FeatureKind::Issuer, alias)),
        elem_match(
            "output.features",
            vec![
                ("kind", text("issuer")),
                ("address", doc(vec![("kind", text("alias")), ("data", BsonValue::Binary(vec![1; 32]))])),
            ],
        )
    );
}
