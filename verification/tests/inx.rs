use chronicle::inx::{
    check_address, check_network, protocol_parameters_step, check_scheme, check_unspent_output_index, sync_start_index, InxAddressError,
    InxWorkerError, NetworkParameters, ProtocolParametersStep,
};
use chronicle::types::{ProtocolParameters, RentStructure};
use chronicle::types::MilestoneIndex;

#[test]
fn http_address_is_accepted() {
    assert_eq!(check_address(&"http://localhost:9029".to_string()), Ok(()));
}

#[test]
fn other_scheme_is_refused() {
    let address = "https://localhost:9029".to_string();
    assert_eq!(check_address(&address), Err(InxAddressError::InvalidAddress(address.clone())));
}

#[test]
fn no_url_is_refused() {
    assert_eq!(
        check_address(&"localhost".to_string()),
        Err(InxAddressError::Url(url::ParseError::RelativeUrlWithoutBase))
    );
}

#[test]
fn scheme_decides() {
    let address = "x".to_string();
    assert_eq!(check_scheme(&address, Ok("http".to_string())), Ok(()));
    assert_eq!(
        check_scheme(&address, Ok("ftp".to_string())),
        Err(InxAddressError::InvalidAddress("x".to_string()))
    );
    assert_eq!(
        check_scheme(&address, Err(url::ParseError::EmptyHost)),
        Err(InxAddressError::Url(url::ParseError::EmptyHost))
    );
}


#[test]
fn sync_starts_after_the_newest_milestone() {
    let m = MilestoneIndex;
    assert_eq!(sync_start_index(Some(m(100)), m(50), m(120), m(0)), Ok(m(101)));
    assert_eq!(sync_start_index(Some(m(100)), m(100), m(100), m(0)), Ok(m(101)));
}

#[test]
fn sync_refuses_a_pruned_gap() {
    let m = MilestoneIndex;
    assert_eq!(
        sync_start_index(Some(m(100)), m(150), m(200), m(0)),
        Err(InxWorkerError::SyncMilestoneGap { start: m(101), end: m(150) })
    );
}

#[test]
fn sync_refuses_a_node_behind_the_database() {
    let m = MilestoneIndex;
    assert_eq!(
        sync_start_index(Some(m(100)), m(10), m(90), m(0)),
        Err(InxWorkerError::SyncMilestoneIndexMismatch { node: m(90), db: m(100) })
    );
}

#[test]
fn sync_of_an_empty_database() {
    let m = MilestoneIndex;
    assert_eq!(sync_start_index(None, m(10), m(90), m(0)), Ok(m(11)));
    assert_eq!(sync_start_index(None, m(10), m(90), m(50)), Ok(m(50)));
    assert_eq!(sync_start_index(None, m(10), m(90), m(11)), Ok(m(11)));
}

#[test]
fn network_must_match() {
    assert_eq!(check_network("shimmer".to_string(), "shimmer".to_string()), Ok(()));
    assert_eq!(
        check_network("shimmer".to_string(), "testnet".to_string()),
        Err(InxWorkerError::NetworkChanged("shimmer".to_string(), "testnet".to_string()))
    );
}

#[test]
fn unspent_outputs_share_one_ledger_index() {
    let mut starting = None;
    assert_eq!(check_unspent_output_index(&mut starting, MilestoneIndex(7)), Ok(()));
    assert_eq!(starting, Some(MilestoneIndex(7)));
    assert_eq!(check_unspent_output_index(&mut starting, MilestoneIndex(7)), Ok(()));
    assert_eq!(
        check_unspent_output_index(&mut starting, MilestoneIndex(8)),
        Err(InxWorkerError::InvalidUnspentOutputIndex { found: MilestoneIndex(8), expected: MilestoneIndex(7) })
    );
    assert_eq!(starting, Some(MilestoneIndex(7)));
}

fn params(token_supply: u64) -> ProtocolParameters {
    ProtocolParameters {
        version: 2,
        min_pow_score: 1500,
        below_max_depth: 15,
        rent_structure: RentStructure { v_byte_cost: 100, v_byte_factor_key: 10, v_byte_factor_data: 1 },
        token_supply,
    }
}

fn network(name: &str, hrp: &str, token_supply: u64) -> NetworkParameters {
    NetworkParameters { network_name: name.to_string(), bech32_hrp: hrp.to_string(), parameters: params(token_supply) }
}

#[test]
fn protocol_parameters_steps() {
    assert_eq!(protocol_parameters_step(None, network("shimmer", "smr", 1)), Ok(ProtocolParametersStep::Initialize));
    assert_eq!(
        protocol_parameters_step(Some(network("shimmer", "smr", 1)), network("shimmer", "smr", 1)),
        Ok(ProtocolParametersStep::Keep)
    );
    assert_eq!(
        protocol_parameters_step(Some(network("shimmer", "smr", 1)), network("shimmer", "smr", 2)),
        Ok(ProtocolParametersStep::Update)
    );
    assert_eq!(
        protocol_parameters_step(Some(network("shimmer", "smr", 1)), network("shimmer", "rms", 1)),
        Ok(ProtocolParametersStep::Update)
    );
    let mut newer = network("shimmer", "smr", 1);
    newer.parameters.version = 3;
    assert_eq!(protocol_parameters_step(Some(network("shimmer", "smr", 1)), newer), Ok(ProtocolParametersStep::Update));
    assert_eq!(
        protocol_parameters_step(Some(network("shimmer", "smr", 1)), network("testnet", "smr", 1)),
        Err(InxWorkerError::NetworkChanged("shimmer".to_string(), "testnet".to_string()))
    );
}
