//! Names under which the kinds of outputs and payloads are stored, and the
//! order in which query results are sorted.

use std::str::FromStr;
use vstd::prelude::*;
use vstd::string::StringExecFns;

use crate::types::{OutputType, PayloadType};

verus! {

/// Helper to specify a kind for an output type.
pub trait OutputKind {
    /// Gets the output kind.
    fn kind() -> (r: Option<&'static str>)
        default_ensures
            r is None,
    {
        None
    }
}

/// Helper to specify a kind for a block payload type.
pub trait PayloadKind {
    /// Gets the payload kind.
    fn kind() -> (r: Option<&'static str>)
        default_ensures
            r is None,
    {
        None
    }
}

impl OutputKind for () {
}

impl PayloadKind for () {
}

/// The basic output type.
pub struct BasicOutput;

/// The alias output type.
pub struct AliasOutput;

/// The nft output type.
pub struct NftOutput;

/// The foundry output type.
pub struct FoundryOutput;

/// The transaction payload type.
pub struct TransactionPayload;

/// The milestone payload type.
pub struct MilestonePayload;

/// The tagged data payload type.
pub struct TaggedDataPayload;

/// The treasury transaction payload type.
pub struct TreasuryTransactionPayload;

/// The name under which an output kind is stored.
pub open spec fn output_kind_name(kind: OutputType) -> Seq<char> {
    match kind {
        OutputType::Treasury => "treasury"@,
        OutputType::Basic => "basic"@,
        OutputType::Alias => "alias"@,
        OutputType::Foundry => "foundry"@,
        OutputType::Nft => "nft"@,
    }
}

/// The name under which a payload kind is stored.
pub open spec fn payload_kind_name(kind: PayloadType) -> Seq<char> {
    match kind {
        PayloadType::Transaction => "transaction"@,
        PayloadType::Milestone => "milestone"@,
        PayloadType::TaggedData => "tagged_data"@,
        PayloadType::TreasuryTransaction => "treasury_transaction"@,
    }
}

impl OutputKind for BasicOutput {
    fn kind() -> (r: Option<&'static str>)
        ensures
            r matches Some(s) && s@ == output_kind_name(OutputType::Basic),
    {
        Some("basic")
    }
}

impl OutputKind for AliasOutput {
    fn kind() -> (r: Option<&'static str>)
        ensures
            r matches Some(s) && s@ == output_kind_name(OutputType::Alias),
    {
        Some("alias")
    }
}

impl OutputKind for NftOutput {
    fn kind() -> (r: Option<&'static str>)
        ensures
            r matches Some(s) && s@ == output_kind_name(OutputType::Nft),
    {
        Some("nft")
    }
}

impl OutputKind for FoundryOutput {
    fn kind() -> (r: Option<&'static str>)
        ensures
            r matches Some(s) && s@ == output_kind_name(OutputType::Foundry),
    {
        Some("foundry")
    }
}

impl PayloadKind for TransactionPayload {
    fn kind() -> (r: Option<&'static str>)
        ensures
            r matches Some(s) && s@ == payload_kind_name(PayloadType::Transaction),
    {
        Some("transaction")
    }
}

impl PayloadKind for MilestonePayload {
    fn kind() -> (r: Option<&'static str>)
        ensures
            r matches Some(s) && s@ == payload_kind_name(PayloadType::Milestone),
    {
        Some("milestone")
    }
}

impl PayloadKind for TaggedDataPayload {
    fn kind() -> (r: Option<&'static str>)
        ensures
            r matches Some(s) && s@ == payload_kind_name(PayloadType::TaggedData),
    {
        Some("tagged_data")
    }
}

impl PayloadKind for TreasuryTransactionPayload {
    fn kind() -> (r: Option<&'static str>)
        ensures
            r matches Some(s) && s@ == payload_kind_name(PayloadType::TreasuryTransaction),
    {
        Some("treasury_transaction")
    }
}

impl OutputType {
    /// The name under which outputs of this kind are stored.
    pub fn kind_name(self) -> (r: &'static str)
        ensures
            r@ == output_kind_name(self),
    {
        match self {
            OutputType::Treasury => "treasury",
            OutputType::Basic => "basic",
            OutputType::Alias => "alias",
            OutputType::Foundry => "foundry",
            OutputType::Nft => "nft",
        }
    }
}

/// The order in which query results are sorted.
#[derive(Copy, Clone, Debug, PartialEq, Eq, Structural)]
pub enum SortOrder {
    Newest,
    Oldest,
}

impl Default for SortOrder {
    fn default() -> (r: Self)
        ensures
            r == SortOrder::Newest,
    {
        SortOrder::Newest
    }
}

/// The message of a sort order descriptor that is neither `oldest` nor `newest`.
pub open spec fn sort_error_message(found: Seq<char>) -> Seq<char> {
    "Invalid sort order descriptor. Expected `oldest` or `newest`, found `"@ + found + "`"@
}

/// A sort order descriptor that is neither `oldest` nor `newest`.
#[derive(Clone, Debug, PartialEq, Eq)]
pub struct ParseSortError(String);

impl ParseSortError {
    /// The descriptor that was found.
    pub fn found(&self) -> (r: &String)
        ensures
            r@ == self.found_spec(),
    {
        &self.0
    }

    /// The descriptor that was found, as characters.
    pub closed spec fn found_spec(&self) -> Seq<char> {
        self.0@
    }

    /// The message that describes the error.
    pub fn message(&self) -> (r: String)
        ensures
            r@ == sort_error_message(self.found_spec()),
    {
        let mut m = <String as StringExecFns>::from_str(
            "Invalid sort order descriptor. Expected `oldest` or `newest`, found `",
        );
        m.append(self.0.as_str());
        m.append("`");
        m
    }
}

/// Whether two strings hold the same characters.
fn same_text(a: &str, b: &str) -> (r: bool)
    ensures
        r == (a@ == b@),
{
    let owned_a = a.to_string();
    let owned_b = b.to_string();
    proof {
        vstd::string::to_string_from_display_ensures_for_str(a, owned_a);
        vstd::string::to_string_from_display_ensures_for_str(b, owned_b);
    }
    owned_a == owned_b
}

impl SortOrder {
    /// Reads a sort order descriptor: `oldest` or `newest`.
    pub fn parse(s: &str) -> (r: Result<SortOrder, ParseSortError>)
        ensures
            s@ == "oldest"@ ==> r == Ok::<SortOrder, ParseSortError>(SortOrder::Oldest),
            s@ == "newest"@ ==> r == Ok::<SortOrder, ParseSortError>(SortOrder::Newest),
            s@ != "oldest"@ && s@ != "newest"@ ==> (r matches Err(e) && e.found_spec() == s@),
    {
        proof {
            reveal_strlit("oldest");
            reveal_strlit("newest");
            assert("oldest"@[0] != "newest"@[0]);
        }
        if same_text(s, "oldest") {
            Ok(SortOrder::Oldest)
        } else if same_text(s, "newest") {
            Ok(SortOrder::Newest)
        } else {
            let found = s.to_string();
            proof {
                vstd::string::to_string_from_display_ensures_for_str(s, found);
            }
            Err(ParseSortError(found))
        }
    }
}

impl FromStr for SortOrder {
    type Err = ParseSortError;

    fn from_str(s: &str) -> (r: Result<Self, Self::Err>)
        ensures
            s@ == "oldest"@ ==> r == Ok::<SortOrder, ParseSortError>(SortOrder::Oldest),
            s@ == "newest"@ ==> r == Ok::<SortOrder, ParseSortError>(SortOrder::Newest),
            s@ != "oldest"@ && s@ != "newest"@ ==> (r matches Err(e) && e.found_spec() == s@),
    {
        SortOrder::parse(s)
    }
}

} // verus!
