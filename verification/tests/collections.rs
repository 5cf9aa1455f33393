use std::str::FromStr;

use chronicle::collections::{
    AliasOutput, BasicOutput, FoundryOutput, MilestonePayload, NftOutput, OutputKind, PayloadKind, SortOrder,
    TaggedDataPayload, TransactionPayload, TreasuryTransactionPayload,
};
use chronicle::types::OutputType;

#[test]
fn output_kinds() {
    assert_eq!(<BasicOutput as OutputKind>::kind(), Some("basic"));
    assert_eq!(<AliasOutput as OutputKind>::kind(), Some("alias"));
    assert_eq!(<NftOutput as OutputKind>::kind(), Some("nft"));
    assert_eq!(<FoundryOutput as OutputKind>::kind(), Some("foundry"));
    assert_eq!(<() as OutputKind>::kind(), None);
    assert_eq!(OutputType::Treasury.kind_name(), "treasury");
    assert_eq!(OutputType::Basic.kind_name(), "basic");
}

#[test]
fn payload_kinds() {
    assert_eq!(<TransactionPayload as PayloadKind>::kind(), Some("transaction"));
    assert_eq!(<MilestonePayload as PayloadKind>::kind(), Some("milestone"));
    assert_eq!(<TaggedDataPayload as PayloadKind>::kind(), Some("tagged_data"));
    assert_eq!(<TreasuryTransactionPayload as PayloadKind>::kind(), Some("treasury_transaction"));
    assert_eq!(<() as PayloadKind>::kind(), None);
}

#[test]
fn sort_order() {
    assert_eq!(SortOrder::default(), SortOrder::Newest);
    assert_eq!(SortOrder::from_str("oldest"), Ok(SortOrder::Oldest));
    assert_eq!(SortOrder::from_str("newest"), Ok(SortOrder::Newest));
    let err = SortOrder::from_str("Newest").unwrap_err();
    assert_eq!(err.found(), "Newest");
    assert_eq!(
        err.message(),
        "Invalid sort order descriptor. Expected `oldest` or `newest`, found `Newest`"
    );
    assert!(SortOrder::from_str("").is_err());
}
