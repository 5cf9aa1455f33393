//! The documents that the database is queried with: each indexer clause as
//! a tree of values, with the keys, the nesting and the encodings that the
//! stored outputs are matched by.

use vstd::prelude::*;

use crate::collections::output_kind_name;
use crate::indexer::{FeatureKind, OutputsFilter, QueryClause, UnlockConditionKind};
use crate::types::{Address, AddressKind, MilestoneTimestamp};

verus! {

/// A value of a query document.
#[derive(Debug, PartialEq)]
pub enum BsonValue {
    /// A UTF-8 string.
    String(String),
    /// A signed 64-bit integer.
    Int64(i64),
    /// A boolean.
    Boolean(bool),
    /// Generic binary data.
    Binary(Vec<u8>),
    /// A token amount, stored as generic binary data: its 32 big-endian bytes.
    Amount(primitive_types::U256),
    /// A list of values.
    Array(Vec<BsonValue>),
    /// A document: keys with their values, in order.
    Document(Vec<(String, BsonValue)>),
}

/// The mathematical form of a query value.
pub enum BsonSpec {
    String(Seq<char>),
    Int64(i64),
    Boolean(bool),
    Binary(Seq<u8>),
    Amount(primitive_types::U256),
    Array(Seq<BsonSpec>),
    Document(Seq<(Seq<char>, BsonSpec)>),
}

/// What a query value stands for.
pub open spec fn bson_view(v: BsonValue) -> BsonSpec
    decreases v,
{
    match v {
        BsonValue::String(s) => BsonSpec::String(s@),
        BsonValue::Int64(i) => BsonSpec::Int64(i),
        BsonValue::Boolean(b) => BsonSpec::Boolean(b),
        BsonValue::Binary(b) => BsonSpec::Binary(b@),
        BsonValue::Amount(a) => BsonSpec::Amount(a),
        BsonValue::Array(vs) => BsonSpec::Array(
            Seq::new(
                vs@.len(),
                |i: int|
                    if 0 <= i < vs@.len() {
                        bson_view(vs@[i])
                    } else {
                        BsonSpec::Boolean(false)
                    },
            ),
        ),
        BsonValue::Document(es) => BsonSpec::Document(
            Seq::new(
                es@.len(),
                |i: int|
                    if 0 <= i < es@.len() {
                        (es@[i].0@, bson_view(es@[i].1))
                    } else {
                        (Seq::empty(), BsonSpec::Boolean(false))
                    },
            ),
        ),
    }
}

/// What the entries of a document stand for.
pub open spec fn entries_view(es: Seq<(String, BsonValue)>) -> Seq<(Seq<char>, BsonSpec)> {
    Seq::new(es.len(), |i: int| (es[i].0@, bson_view(es[i].1)))
}

/// What the items of a list stand for.
pub open spec fn items_view(vs: Seq<BsonValue>) -> Seq<BsonSpec> {
    Seq::new(vs.len(), |i: int| bson_view(vs[i]))
}

/// A document of one entry.
pub open spec fn doc1(k: Seq<char>, v: BsonSpec) -> BsonSpec {
    BsonSpec::Document(seq![(k, v)])
}

/// A document of two entries.
pub open spec fn doc2(k1: Seq<char>, v1: BsonSpec, k2: Seq<char>, v2: BsonSpec) -> BsonSpec {
    BsonSpec::Document(seq![(k1, v1), (k2, v2)])
}

fn document(es: Vec<(String, BsonValue)>) -> (r: BsonValue)
    ensures
        bson_view(r) == BsonSpec::Document(entries_view(es@)),
{
    let ghost s = es@;
    let r = BsonValue::Document(es);
    proof {
        let inner = match bson_view(r) {
            BsonSpec::Document(d) => d,
            _ => Seq::empty(),
        };
        assert(inner =~= entries_view(s));
    }
    r
}

fn array(vs: Vec<BsonValue>) -> (r: BsonValue)
    ensures
        bson_view(r) == BsonSpec::Array(items_view(vs@)),
{
    let ghost s = vs@;
    let r = BsonValue::Array(vs);
    proof {
        let inner = match bson_view(r) {
            BsonSpec::Array(d) => d,
            _ => Seq::empty(),
        };
        assert(inner =~= items_view(s));
    }
    r
}

fn empty_array() -> (r: BsonValue)
    ensures
        bson_view(r) == BsonSpec::Array(Seq::empty()),
{
    let vs: Vec<BsonValue> = Vec::new();
    assert(items_view(vs@) =~= Seq::empty());
    array(vs)
}

fn push_entry(es: &mut Vec<(String, BsonValue)>, key: String, value: BsonValue)
    ensures
        entries_view(final(es)@) == entries_view(old(es)@).push((key@, bson_view(value))),
{
    let ghost k = key@;
    let ghost v = bson_view(value);
    es.push((key, value));
    assert(entries_view(es@) =~= entries_view(old(es)@).push((k, v)));
}

fn text(s: &str) -> (r: String)
    ensures
        r@ == s@,
{
    <String as vstd::string::StringExecFns>::from_str(s)
}

fn single(key: String, value: BsonValue) -> (r: BsonValue)
    ensures
        bson_view(r) == doc1(key@, bson_view(value)),
{
    let mut es: Vec<(String, BsonValue)> = Vec::new();
    push_entry(&mut es, key, value);
    assert(entries_view(es@) =~= seq![(key@, bson_view(value))]);
    document(es)
}

fn pair(k1: String, v1: BsonValue, k2: String, v2: BsonValue) -> (r: BsonValue)
    ensures
        bson_view(r) == doc2(k1@, bson_view(v1), k2@, bson_view(v2)),
{
    let ghost e1 = (k1@, bson_view(v1));
    let ghost e2 = (k2@, bson_view(v2));
    let mut es: Vec<(String, BsonValue)> = Vec::new();
    push_entry(&mut es, k1, v1);
    push_entry(&mut es, k2, v2);
    assert(entries_view(es@) =~= seq![e1, e2]);
    document(es)
}

/// The name under which an address kind is stored.
pub open spec fn address_kind_name(kind: AddressKind) -> Seq<char> {
    match kind {
        AddressKind::Ed25519 => "ed25519"@,
        AddressKind::Alias => "alias"@,
        AddressKind::Nft => "nft"@,
    }
}

/// The name under which an unlock condition kind is stored.
pub open spec fn condition_name(kind: UnlockConditionKind) -> Seq<char> {
    match kind {
        UnlockConditionKind::Address => "address"@,
        UnlockConditionKind::StorageDepositReturn => "storage_deposit_return"@,
        UnlockConditionKind::Timelock => "timelock"@,
        UnlockConditionKind::Expiration => "expiration"@,
        UnlockConditionKind::StateControllerAddress => "state_controller_address"@,
        UnlockConditionKind::GovernorAddress => "governor_address"@,
        UnlockConditionKind::ImmutableAliasAddress => "immutable_alias_address"@,
    }
}

/// The name under which a feature kind is stored.
pub open spec fn feature_name(kind: FeatureKind) -> Seq<char> {
    match kind {
        FeatureKind::Sender => "sender"@,
        FeatureKind::Issuer => "issuer"@,
    }
}

/// The field of an output that holds its unlock condition of a kind.
pub open spec fn condition_field(kind: UnlockConditionKind) -> Seq<char> {
    "output."@ + condition_name(kind) + "_unlock_condition"@
}

/// An address as it is stored: its kind by name and its bytes.
pub open spec fn address_spec(a: Address) -> BsonSpec {
    doc2("kind"@, BsonSpec::String(address_kind_name(a@.0)), "data"@, BsonSpec::Binary(a@.1))
}

/// A milestone time as it is stored.
pub open spec fn timestamp_spec(t: MilestoneTimestamp) -> BsonSpec {
    BsonSpec::Int64(t.0 as i64)
}

/// The bounds on a time: below `before` and above `after`, each where given.
pub open spec fn bounds_spec(before: Option<MilestoneTimestamp>, after: Option<MilestoneTimestamp>) -> BsonSpec {
    BsonSpec::Document(
        match before {
            Some(t) => seq![("$lt"@, timestamp_spec(t))],
            None => Seq::empty(),
        } + match after {
            Some(t) => seq![("$gt"@, timestamp_spec(t))],
            None => Seq::empty(),
        },
    )
}

/// The bounds on the time at which an output was booked: above `after`,
/// then below `before`, each where given.
pub open spec fn booked_bounds_spec(before: Option<MilestoneTimestamp>, after: Option<MilestoneTimestamp>) -> BsonSpec {
    BsonSpec::Document(
        match after {
            Some(t) => seq![("$gt"@, timestamp_spec(t))],
            None => Seq::empty(),
        } + match before {
            Some(t) => seq![("$lt"@, timestamp_spec(t))],
            None => Seq::empty(),
        },
    )
}

fn address_kind_str(kind: AddressKind) -> (r: &'static str)
    ensures
        r@ == address_kind_name(kind),
{
    match kind {
        AddressKind::Ed25519 => "ed25519",
        AddressKind::Alias => "alias",
        AddressKind::Nft => "nft",
    }
}

fn condition_str(kind: UnlockConditionKind) -> (r: &'static str)
    ensures
        r@ == condition_name(kind),
{
    match kind {
        UnlockConditionKind::Address => "address",
        UnlockConditionKind::StorageDepositReturn => "storage_deposit_return",
        UnlockConditionKind::Timelock => "timelock",
        UnlockConditionKind::Expiration => "expiration",
        UnlockConditionKind::StateControllerAddress => "state_controller_address",
        UnlockConditionKind::GovernorAddress => "governor_address",
        UnlockConditionKind::ImmutableAliasAddress => "immutable_alias_address",
    }
}

fn feature_str(kind: FeatureKind) -> (r: &'static str)
    ensures
        r@ == feature_name(kind),
{
    match kind {
        FeatureKind::Sender => "sender",
        FeatureKind::Issuer => "issuer",
    }
}

fn condition_field_key(kind: UnlockConditionKind) -> (r: String)
    ensures
        r@ == condition_field(kind),
{
    let mut k = text("output.");
    k.append(condition_str(kind));
    k.append("_unlock_condition");
    k
}

fn condition_key(kind: UnlockConditionKind, suffix: &str) -> (r: String)
    ensures
        r@ == condition_field(kind) + suffix@,
{
    let mut k = condition_field_key(kind);
    k.append(suffix);
    k
}

/// The value under which an address is stored.
pub fn address_value(a: &Address) -> (r: BsonValue)
    ensures
        bson_view(r) == address_spec(*a),
{
    let bytes = vstd::slice::slice_to_vec(a.bytes.as_slice());
    pair(
        text("kind"),
        BsonValue::String(text(address_kind_str(a.kind))),
        text("data"),
        BsonValue::Binary(bytes),
    )
}

fn timestamp_value(t: MilestoneTimestamp) -> (r: BsonValue)
    ensures
        bson_view(r) == timestamp_spec(t),
{
    BsonValue::Int64(t.0 as i64)
}

fn bounds_value(before: Option<MilestoneTimestamp>, after: Option<MilestoneTimestamp>) -> (r: BsonValue)
    ensures
        bson_view(r) == bounds_spec(before, after),
{
    let mut es: Vec<(String, BsonValue)> = Vec::new();
    if let Some(t) = before {
        push_entry(&mut es, text("$lt"), timestamp_value(t));
    }
    if let Some(t) = after {
        push_entry(&mut es, text("$gt"), timestamp_value(t));
    }
    proof {
        let lt: Seq<(Seq<char>, BsonSpec)> = match before {
            Some(t) => seq![("$lt"@, timestamp_spec(t))],
            None => Seq::empty(),
        };
        let gt: Seq<(Seq<char>, BsonSpec)> = match after {
            Some(t) => seq![("$gt"@, timestamp_spec(t))],
            None => Seq::empty(),
        };
        assert(entries_view(es@) =~= lt + gt);
    }
    document(es)
}

fn booked_bounds_value(before: Option<MilestoneTimestamp>, after: Option<MilestoneTimestamp>) -> (r: BsonValue)
    ensures
        bson_view(r) == booked_bounds_spec(before, after),
{
    let mut es: Vec<(String, BsonValue)> = Vec::new();
    if let Some(t) = after {
        push_entry(&mut es, text("$gt"), timestamp_value(t));
    }
    if let Some(t) = before {
        push_entry(&mut es, text("$lt"), timestamp_value(t));
    }
    proof {
        let gt: Seq<(Seq<char>, BsonSpec)> = match after {
            Some(t) => seq![("$gt"@, timestamp_spec(t))],
            None => Seq::empty(),
        };
        let lt: Seq<(Seq<char>, BsonSpec)> = match before {
            Some(t) => seq![("$lt"@, timestamp_spec(t))],
            None => Seq::empty(),
        };
        assert(entries_view(es@) =~= gt + lt);
    }
    document(es)
}

/// The entries that an unlock condition matched in the list of an output
/// must have: its kind, then the address, the time bounds and the return
/// address, each where given.
pub open spec fn match_entries(
    kind: UnlockConditionKind,
    address: Option<Address>,
    return_address: Option<Address>,
    before: Option<MilestoneTimestamp>,
    after: Option<MilestoneTimestamp>,
) -> Seq<(Seq<char>, BsonSpec)> {
    seq![("kind"@, BsonSpec::String(condition_name(kind)))] + match address {
        Some(a) => seq![("address"@, address_spec(a))],
        None => Seq::empty(),
    } + if before is Some || after is Some {
        seq![("timestamp"@, bounds_spec(before, after))]
    } else {
        Seq::empty()
    } + match return_address {
        Some(a) => seq![("return_address"@, address_spec(a))],
        None => Seq::empty(),
    }
}

/// The document that a clause stands for.
pub open spec fn clause_spec(c: QueryClause) -> BsonSpec {
    match c {
        QueryClause::Kind(k) => doc1("output.kind"@, BsonSpec::String(output_kind_name(k))),
        QueryClause::UnlockConditionMatch { kind, address, return_address, before, after } => doc1(
            "output.unlock_conditions"@,
            doc1(
                "$elemMatch"@,
                BsonSpec::Document(match_entries(kind, address, return_address, before, after)),
            ),
        ),
        QueryClause::NoUnlockCondition(k) => doc1(
            "output.unlock_conditions"@,
            doc1("$not"@, doc1("$elemMatch"@, doc1("kind"@, BsonSpec::String(condition_name(k))))),
        ),
        QueryClause::FeatureAddress(k, a) => doc1(
            "output.features"@,
            doc1(
                "$elemMatch"@,
                doc2("kind"@, BsonSpec::String(feature_name(k)), "address"@, address_spec(a)),
            ),
        ),
        QueryClause::Tag(t) => doc1(
            "output.features"@,
            doc1(
                "$elemMatch"@,
                doc2(
                    "kind"@,
                    BsonSpec::String("tag"@),
                    "data"@,
                    BsonSpec::Binary(vstd::utf8::encode_utf8(t@)),
                ),
            ),
        ),
        QueryClause::NoNativeTokens => doc1(
            "output.native_tokens"@,
            doc1("$eq"@, BsonSpec::Array(Seq::empty())),
        ),
        QueryClause::HasNativeTokens => doc1(
            "output.native_tokens"@,
            doc1("$ne"@, BsonSpec::Array(Seq::empty())),
        ),
        QueryClause::NativeTokensAtLeast(a) => doc1(
            "output.native_tokens"@,
            doc1("$not"@, doc1("$elemMatch"@, doc1("amount"@, doc1("$lt"@, BsonSpec::Amount(a))))),
        ),
        QueryClause::NativeTokensAtMost(a) => doc1(
            "output.native_tokens"@,
            doc1("$not"@, doc1("$elemMatch"@, doc1("amount"@, doc1("$gt"@, BsonSpec::Amount(a))))),
        ),
        QueryClause::BookedBetween { before, after } => doc1(
            "metadata.booked.milestone_timestamp"@,
            booked_bounds_spec(before, after),
        ),
        QueryClause::UnlockConditionAddress(k, a) => doc1(
            condition_field(k) + ".address"@,
            address_spec(a),
        ),
        QueryClause::UnlockConditionExists(k, b) => doc1(
            condition_field(k),
            doc1("$exists"@, BsonSpec::Boolean(b)),
        ),
        QueryClause::UnlockConditionReturnAddress(k, a) => doc1(
            condition_field(k) + ".return_address"@,
            address_spec(a),
        ),
        QueryClause::UnlockConditionBefore(k, t) => doc1(
            condition_field(k) + ".timestamp"@,
            doc1("$lt"@, timestamp_spec(t)),
        ),
        QueryClause::UnlockConditionAfter(k, t) => doc1(
            condition_field(k) + ".timestamp"@,
            doc1("$gt"@, timestamp_spec(t)),
        ),
        QueryClause::BookedBefore(t) => doc1(
            "metadata.booked.milestone_timestamp"@,
            doc1("$lt"@, timestamp_spec(t)),
        ),
        QueryClause::BookedAfter(t) => doc1(
            "metadata.booked.milestone_timestamp"@,
            doc1("$gt"@, timestamp_spec(t)),
        ),
    }
}

/// The document that a filter stands for: all of its clauses must hold.
pub open spec fn filter_spec(f: OutputsFilter) -> BsonSpec {
    doc1("$and"@, BsonSpec::Array(Seq::new(f.clauses@.len(), |i: int| clause_spec(f.clauses@[i]))))
}

fn match_value(
    kind: UnlockConditionKind,
    address: Option<Address>,
    return_address: Option<Address>,
    before: Option<MilestoneTimestamp>,
    after: Option<MilestoneTimestamp>,
) -> (r: BsonValue)
    ensures
        bson_view(r) == BsonSpec::Document(match_entries(kind, address, return_address, before, after)),
{
    let mut es: Vec<(String, BsonValue)> = Vec::new();
    push_entry(&mut es, text("kind"), BsonValue::String(text(condition_str(kind))));
    let ghost e0 = entries_view(es@);
    if let Some(a) = address {
        push_entry(&mut es, text("address"), address_value(&a));
    }
    let ghost e1 = entries_view(es@);
    if before.is_some() || after.is_some() {
        push_entry(&mut es, text("timestamp"), bounds_value(before, after));
    }
    let ghost e2 = entries_view(es@);
    if let Some(a) = return_address {
        push_entry(&mut es, text("return_address"), address_value(&a));
    }
    proof {
        let s0: Seq<(Seq<char>, BsonSpec)> = seq![("kind"@, BsonSpec::String(condition_name(kind)))];
        let s1: Seq<(Seq<char>, BsonSpec)> = match address {
            Some(a) => seq![("address"@, address_spec(a))],
            None => Seq::empty(),
        };
        let s2: Seq<(Seq<char>, BsonSpec)> = if before is Some || after is Some {
            seq![("timestamp"@, bounds_spec(before, after))]
        } else {
            Seq::empty()
        };
        let s3: Seq<(Seq<char>, BsonSpec)> = match return_address {
            Some(a) => seq![("return_address"@, address_spec(a))],
            None => Seq::empty(),
        };
        assert(e0 =~= s0);
        assert(e1 =~= s0 + s1);
        assert(e2 =~= s0 + s1 + s2);
        assert(entries_view(es@) =~= s0 + s1 + s2 + s3);
    }
    document(es)
}

fn in_list(list_key: &str, op: &str, inner: BsonValue) -> (r: BsonValue)
    ensures
        bson_view(r) == doc1(list_key@, doc1(op@, bson_view(inner))),
{
    single(text(list_key), single(text(op), inner))
}

/// The document of one clause, as the database is asked with it.
pub fn clause_document(clause: &QueryClause) -> (r: BsonValue)
    ensures
        bson_view(r) == clause_spec(*clause),
{
    match clause {
        QueryClause::Kind(k) => single(text("output.kind"), BsonValue::String(text(k.kind_name()))),
        QueryClause::UnlockConditionMatch { kind, address, return_address, before, after } => in_list(
            "output.unlock_conditions",
            "$elemMatch",
            match_value(*kind, *address, *return_address, *before, *after),
        ),
        QueryClause::NoUnlockCondition(k) => in_list(
            "output.unlock_conditions",
            "$not",
            single(
                text("$elemMatch"),
                single(text("kind"), BsonValue::String(text(condition_str(*k)))),
            ),
        ),
        QueryClause::FeatureAddress(k, a) => in_list(
            "output.features",
            "$elemMatch",
            pair(text("kind"), BsonValue::String(text(feature_str(*k))), text("address"), address_value(a)),
        ),
        QueryClause::Tag(t) => {
            let bytes = t.as_str().as_bytes_vec();
            in_list(
                "output.features",
                "$elemMatch",
                pair(text("kind"), BsonValue::String(text("tag")), text("data"), BsonValue::Binary(bytes)),
            )
        },
        QueryClause::NoNativeTokens => in_list("output.native_tokens", "$eq", empty_array()),
        QueryClause::HasNativeTokens => in_list("output.native_tokens", "$ne", empty_array()),
        QueryClause::NativeTokensAtLeast(a) => in_list(
            "output.native_tokens",
            "$not",
            single(text("$elemMatch"), single(text("amount"), single(text("$lt"), BsonValue::Amount(*a)))),
        ),
        QueryClause::NativeTokensAtMost(a) => in_list(
            "output.native_tokens",
            "$not",
            single(text("$elemMatch"), single(text("amount"), single(text("$gt"), BsonValue::Amount(*a)))),
        ),
        QueryClause::BookedBetween { before, after } => single(
            text("metadata.booked.milestone_timestamp"),
            booked_bounds_value(*before, *after),
        ),
        QueryClause::UnlockConditionAddress(k, a) => single(condition_key(*k, ".address"), address_value(a)),
        QueryClause::UnlockConditionExists(k, b) => single(
            condition_field_key(*k),
            single(text("$exists"), BsonValue::Boolean(*b)),
        ),
        QueryClause::UnlockConditionReturnAddress(k, a) => single(
            condition_key(*k, ".return_address"),
            address_value(a),
        ),
        QueryClause::UnlockConditionBefore(k, t) => in_list(
            condition_key(*k, ".timestamp").as_str(),
            "$lt",
            timestamp_value(*t),
        ),
        QueryClause::UnlockConditionAfter(k, t) => in_list(
            condition_key(*k, ".timestamp").as_str(),
            "$gt",
            timestamp_value(*t),
        ),
        QueryClause::BookedBefore(t) => in_list("metadata.booked.milestone_timestamp", "$lt", timestamp_value(*t)),
        QueryClause::BookedAfter(t) => in_list("metadata.booked.milestone_timestamp", "$gt", timestamp_value(*t)),
    }
}

/// The document of a filter, as the database is asked with it: all of its
/// clauses must hold.
pub fn filter_document(filter: &OutputsFilter) -> (r: BsonValue)
    ensures
        bson_view(r) == filter_spec(*filter),
{
    let mut vs: Vec<BsonValue> = Vec::new();
    let mut i: usize = 0;
    while i < filter.clauses.len()
        invariant
            i <= filter.clauses@.len(),
            items_view(vs@) =~= Seq::new(i as nat, |j: int| clause_spec(filter.clauses@[j])),
        decreases filter.clauses@.len() - i,
    {
        let d = clause_document(&filter.clauses[i]);
        let ghost before = vs@;
        vs.push(d);
        assert(items_view(vs@) =~= items_view(before).push(bson_view(d)));
        i = i + 1;
    }
    single(text("$and"), array(vs))
}

} // verus!
