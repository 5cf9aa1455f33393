//! The address of a node's INX interface, which must be an `http` URL.

use vstd::prelude::*;

use crate::types::{MilestoneIndex, ProtocolParameters};

verus! {

/// The error of the URL parser, carried through as it is.
#[verifier::external_type_specification]
#[verifier::external_body]
pub struct ExParseError(url::ParseError);

/// What the URL parser makes of `input` read as an absolute URL: its
/// scheme, or the parser's error where it is not one.
pub uninterp spec fn url_scheme(input: Seq<char>) -> Result<Seq<char>, url::ParseError>;

/// `url::Url::parse` on `input`, of whose result only the scheme
/// (`Url::scheme`) is kept: the outcome is the named `url_scheme` of the
/// input, the scheme as characters or the parser's error.
#[verifier::external_body]
fn parse_url_scheme(input: &str) -> (r: Result<String, url::ParseError>)
    ensures
        match r {
            Ok(scheme) => url_scheme(input@) == Ok::<Seq<char>, url::ParseError>(scheme@),
            Err(e) => url_scheme(input@) == Err::<Seq<char>, url::ParseError>(e),
        },
{
    match url::Url::parse(input) {
        Ok(url) => Ok(url.scheme().to_string()),
        Err(e) => Err(e),
    }
}

/// Why an INX address is refused.
#[derive(Debug, PartialEq, Eq)]
pub enum InxAddressError {
    /// The address is no URL.
    Url(url::ParseError),
    /// The address is a URL whose scheme is not `http`.
    InvalidAddress(String),
}

/// Decides on an address from its scheme as the URL parser read it.
pub fn check_scheme(address: &String, scheme: Result<String, url::ParseError>) -> (r: Result<(), InxAddressError>)
    ensures
        match scheme {
            Ok(s) => if s@ == "http"@ {
                r is Ok
            } else {
                r matches Err(InxAddressError::InvalidAddress(a)) && a@ == address@
            },
            Err(e) => r == Err::<(), InxAddressError>(InxAddressError::Url(e)),
        },
{
    match scheme {
        Ok(s) => {
            let http = "http".to_string();
            proof {
                vstd::string::to_string_from_display_ensures_for_str("http", http);
            }
            if s == http {
                Ok(())
            } else {
                Err(InxAddressError::InvalidAddress(address.clone()))
            }
        },
        Err(e) => Err(InxAddressError::Url(e)),
    }
}

/// Checks that the address of an INX interface is an `http` URL, of the
/// form `http://<address>:<port>`.
pub fn check_address(address: &String) -> (r: Result<(), InxAddressError>)
    ensures
        match url_scheme(address@) {
            Ok(s) => if s == "http"@ {
                r is Ok
            } else {
                r matches Err(InxAddressError::InvalidAddress(a)) && a@ == address@
            },
            Err(e) => r == Err::<(), InxAddressError>(InxAddressError::Url(e)),
        },
{
    let scheme = parse_url_scheme(address.as_str());
    check_scheme(address, scheme)
}

/// Why the synchronization with a node stops.
#[derive(Debug, PartialEq, Eq)]
pub enum InxWorkerError {
    /// The address of the node's INX interface is not an `http` URL.
    InvalidAddress(String),
    /// A milestone came with another number of ledger updates than announced.
    InvalidLedgerUpdateCount { received: usize, expected: usize },
    /// The unspent outputs came with different ledger indices.
    InvalidUnspentOutputIndex { found: MilestoneIndex, expected: MilestoneIndex },
    /// A ledger update came outside of a milestone.
    InvalidMilestoneState,
    /// The node knows no milestone id for this index.
    MissingMilestoneInfo(MilestoneIndex),
    /// The node serves another network than the one in the database.
    NetworkChanged(String, String),
    /// The node has pruned milestones that the database is missing.
    SyncMilestoneGap { start: MilestoneIndex, end: MilestoneIndex },
    /// The node has confirmed fewer milestones than the database holds.
    SyncMilestoneIndexMismatch { node: MilestoneIndex, db: MilestoneIndex },
}

/// The milestone that synchronization can start at, given the newest
/// milestone in the database, or the error that prevents it.
pub open spec fn sync_start_spec(
    newest_in_db: Option<MilestoneIndex>,
    pruning_index: MilestoneIndex,
    confirmed_index: MilestoneIndex,
    sync_start: MilestoneIndex,
) -> Result<MilestoneIndex, InxWorkerError> {
    match newest_in_db {
        Some(latest) => if pruning_index.0 > latest.0 {
            Err(
                InxWorkerError::SyncMilestoneGap {
                    start: MilestoneIndex((latest.0 + 1) as u32),
                    end: pruning_index,
                },
            )
        } else if confirmed_index.0 < latest.0 {
            Err(InxWorkerError::SyncMilestoneIndexMismatch { node: confirmed_index, db: latest })
        } else {
            Ok(MilestoneIndex((latest.0 + 1) as u32))
        },
        None => if sync_start.0 >= pruning_index.0 + 1 {
            Ok(sync_start)
        } else {
            Ok(MilestoneIndex((pruning_index.0 + 1) as u32))
        },
    }
}

/// Decides where synchronization starts: after the newest milestone in the
/// database, which the node must still hold and must have confirmed; with an
/// empty database, at the configured milestone, but not before the first
/// milestone the node has not pruned.
pub fn sync_start_index(
    newest_in_db: Option<MilestoneIndex>,
    pruning_index: MilestoneIndex,
    confirmed_index: MilestoneIndex,
    sync_start: MilestoneIndex,
) -> (r: Result<MilestoneIndex, InxWorkerError>)
    requires
        newest_in_db matches Some(latest) ==> (pruning_index.0 <= latest.0 && confirmed_index.0 >= latest.0
            ==> latest.0 < u32::MAX),
        newest_in_db is None ==> pruning_index.0 < u32::MAX,
    ensures
        r == sync_start_spec(newest_in_db, pruning_index, confirmed_index, sync_start),
{
    match newest_in_db {
        Some(latest) => {
            if pruning_index.0 > latest.0 {
                Err(InxWorkerError::SyncMilestoneGap { start: MilestoneIndex(latest.0 + 1), end: pruning_index })
            } else if confirmed_index.0 < latest.0 {
                Err(InxWorkerError::SyncMilestoneIndexMismatch { node: confirmed_index, db: latest })
            } else {
                Ok(MilestoneIndex(latest.0 + 1))
            }
        },
        None => {
            let first_unpruned = pruning_index.0 + 1;
            if sync_start.0 >= first_unpruned {
                Ok(sync_start)
            } else {
                Ok(MilestoneIndex(first_unpruned))
            }
        },
    }
}

/// Checks that the node serves the network that the database was linked to.
pub fn check_network(db_network: String, node_network: String) -> (r: Result<(), InxWorkerError>)
    ensures
        db_network@ == node_network@ ==> r is Ok,
        db_network@ != node_network@ ==> r == Err::<(), InxWorkerError>(
            InxWorkerError::NetworkChanged(db_network, node_network),
        ),
{
    if db_network == node_network {
        Ok(())
    } else {
        Err(InxWorkerError::NetworkChanged(db_network, node_network))
    }
}

/// Checks the ledger index of one more unspent output against that of the
/// first: all unspent outputs must come at one ledger index.
pub fn check_unspent_output_index(starting_index: &mut Option<MilestoneIndex>, found: MilestoneIndex) -> (r: Result<
    (),
    InxWorkerError,
>)
    ensures
        match *old(starting_index) {
            Some(expected) => {
                &&& *final(starting_index) == Some(expected)
                &&& (expected == found ==> r is Ok)
                &&& (expected != found ==> r == Err::<(), InxWorkerError>(
                    InxWorkerError::InvalidUnspentOutputIndex { found, expected },
                ))
            },
            None => *final(starting_index) == Some(found) && r is Ok,
        },
{
    match *starting_index {
        Some(expected) => {
            if expected.0 != found.0 {
                Err(InxWorkerError::InvalidUnspentOutputIndex { found, expected })
            } else {
                Ok(())
            }
        },
        None => {
            *starting_index = Some(found);
            Ok(())
        },
    }
}

/// What becomes of the stored protocol parameters when syncing starts.
#[derive(Clone, Copy, Debug, PartialEq, Eq, Structural)]
pub enum ProtocolParametersStep {
    /// The stored parameters are the node's: nothing is written.
    Keep,
    /// The node's parameters differ: they are stored from the start index on.
    Update,
    /// Nothing is stored yet: the database is cleared and set up anew.
    Initialize,
}

/// The protocol parameters of a network together with its name and the
/// prefix of its addresses.
#[derive(Clone, Debug)]
pub struct NetworkParameters {
    pub network_name: String,
    pub bech32_hrp: String,
    pub parameters: ProtocolParameters,
}

/// Decides, from the newest stored protocol parameters and the node's,
/// whether the database is set up anew, the parameters are updated or kept,
/// or syncing stops because the node serves another network.
pub fn protocol_parameters_step(stored: Option<NetworkParameters>, node: NetworkParameters) -> (r: Result<
    ProtocolParametersStep,
    InxWorkerError,
>)
    ensures
        match stored {
            None => r == Ok::<ProtocolParametersStep, InxWorkerError>(ProtocolParametersStep::Initialize),
            Some(s) => if s.network_name@ != node.network_name@ {
                r == Err::<ProtocolParametersStep, InxWorkerError>(
                    InxWorkerError::NetworkChanged(s.network_name, node.network_name),
                )
            } else if s.bech32_hrp@ == node.bech32_hrp@ && s.parameters == node.parameters {
                r == Ok::<ProtocolParametersStep, InxWorkerError>(ProtocolParametersStep::Keep)
            } else {
                r == Ok::<ProtocolParametersStep, InxWorkerError>(ProtocolParametersStep::Update)
            },
        },
{
    match stored {
        None => Ok(ProtocolParametersStep::Initialize),
        Some(s) => {
            let same_prefix = s.bech32_hrp == node.bech32_hrp;
            match check_network(s.network_name, node.network_name) {
                Err(e) => Err(e),
                Ok(()) => {
                    if same_prefix && s.parameters == node.parameters {
                        Ok(ProtocolParametersStep::Keep)
                    } else {
                        Ok(ProtocolParametersStep::Update)
                    }
                },
            }
        },
    }
}

} // verus!
