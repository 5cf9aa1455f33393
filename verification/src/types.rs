//! The ledger values that the stored documents and the analytics speak of.

use vstd::prelude::*;

verus! {

/// The index of a milestone.
#[derive(Clone, Copy, Debug, PartialEq, Eq, Hash, Structural)]
pub struct MilestoneIndex(pub u32);

/// The Unix time (in seconds) of a milestone.
#[derive(Clone, Copy, Debug, PartialEq, Eq, Hash, Structural)]
pub struct MilestoneTimestamp(pub u32);

/// A milestone index together with the time of that milestone.
#[derive(Clone, Copy, Debug, PartialEq, Eq, Hash, Structural)]
pub struct MilestoneIndexTimestamp {
    /// The milestone index.
    pub milestone_index: MilestoneIndex,
    /// The milestone time.
    pub milestone_timestamp: MilestoneTimestamp,
}

/// The kind of an address, and so of the 32 bytes that identify it.
#[derive(Clone, Copy, Debug, PartialEq, Eq, Hash, Structural)]
pub enum AddressKind {
    /// An Ed25519 public key hash.
    Ed25519,
    /// An alias id.
    Alias,
    /// An NFT id.
    Nft,
}

/// An address that can own outputs.
#[derive(Clone, Copy, Debug, Hash)]
pub struct Address {
    /// The kind of the address.
    pub kind: AddressKind,
    /// The 32 bytes that identify the address.
    pub bytes: [u8; 32],
}

impl View for Address {
    type V = (AddressKind, Seq<u8>);

    open spec fn view(&self) -> (AddressKind, Seq<u8>) {
        (self.kind, self.bytes@)
    }
}

impl PartialEq for Address {
    fn eq(&self, other: &Self) -> (r: bool) {
        if self.kind != other.kind {
            return false;
        }
        let mut i: usize = 0;
        while i < 32
            invariant
                i <= 32,
                self.bytes@.len() == 32,
                other.bytes@.len() == 32,
                forall|k: int| 0 <= k < i ==> self.bytes@[k] == other.bytes@[k],
            decreases 32 - i,
        {
            if self.bytes[i] != other.bytes[i] {
                return false;
            }
            i = i + 1;
        }
        proof {
            assert(self.bytes@ =~= other.bytes@);
        }
        true
    }
}

impl vstd::std_specs::cmp::PartialEqSpecImpl for Address {
    open spec fn obeys_eq_spec() -> bool {
        true
    }

    open spec fn eq_spec(&self, other: &Self) -> bool {
        self@ == other@
    }
}

impl Eq for Address {
}

/// Whether the transaction of a block took effect.
#[derive(Clone, Copy, Debug, PartialEq, Eq, Hash, Structural)]
pub enum LedgerInclusionState {
    /// A conflicting transaction.
    Conflicting,
    /// A confirmed transaction.
    Included,
    /// No transaction.
    NoTransaction,
}

/// The kind of payload that a block carries.
#[derive(Clone, Copy, Debug, PartialEq, Eq, Hash, Structural)]
pub enum PayloadType {
    /// A transaction payload.
    Transaction,
    /// A milestone payload.
    Milestone,
    /// A treasury transaction payload.
    TreasuryTransaction,
    /// A tagged data payload.
    TaggedData,
}

/// The kind of an output.
#[derive(Clone, Copy, Debug, PartialEq, Eq, Hash, Structural)]
pub enum OutputType {
    /// A treasury output.
    Treasury,
    /// A basic output.
    Basic,
    /// An alias output.
    Alias,
    /// A foundry output.
    Foundry,
    /// An NFT output.
    Nft,
}

/// The parameters by which the storage deposit of an output is computed.
#[derive(Clone, Copy, Debug, PartialEq, Eq, Hash, Structural)]
pub struct RentStructure {
    /// The cost of one virtual byte.
    pub v_byte_cost: u32,
    /// The weight of a key byte.
    pub v_byte_factor_key: u8,
    /// The weight of a data byte.
    pub v_byte_factor_data: u8,
}

/// The protocol parameters of a network, apart from its name and the
/// prefix of its addresses.
#[derive(Clone, Copy, Debug, PartialEq, Eq, Hash, Structural)]
pub struct ProtocolParameters {
    /// The version of the protocol.
    pub version: u8,
    /// The minimum proof-of-work score of a block.
    pub min_pow_score: u32,
    /// How far below the milestone a block may reference.
    pub below_max_depth: u8,
    /// The storage deposit parameters.
    pub rent_structure: RentStructure,
    /// The number of tokens in circulation.
    pub token_supply: u64,
}

} // verus!
