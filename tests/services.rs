use beacon_dao_scheduler::services::display::DialogueKind;
use beacon_dao_scheduler::services::fetch::{Method, Options as FetchOptions};
use beacon_dao_scheduler::services::ipfs::{Format, Options as IpfsOptions};
use beacon_dao_scheduler::services::web3::{hex_string, BlockSelector, Network, TransactionCall};
use beacon_dao_scheduler::error::Error;

#[test]
fn block_selector_params() {
    assert_eq!(BlockSelector::Latest.to_param(), "latest");
    assert_eq!(BlockSelector::Earliest.to_param(), "earliest");
    assert_eq!(BlockSelector::Pending.to_param(), "pending");
    assert_eq!(BlockSelector::BlockNumber(0).to_param(), "0");
    assert_eq!(BlockSelector::BlockNumber(255).to_param(), "ff");
    assert_eq!(BlockSelector::BlockNumber(0x1a2b3c).to_param(), "1a2b3c");
    assert_eq!(hex_string(16), "10");
}

#[test]
fn ipfs_query_strings() {
    assert_eq!(IpfsOptions { format: Some(Format::DagJson) }.query(), "?format=dag-json");
    assert_eq!(IpfsOptions { format: None }.query(), "");
}

#[test]
fn fetch_defaults() {
    let o = FetchOptions::new();
    assert_eq!(o.method, Method::GET);
    assert!(o.headers.is_empty());
    assert!(o.body.is_none());
}

#[test]
fn dialogue_kinds() {
    let kinds = [
        DialogueKind::Alert,
        DialogueKind::Affirm("ok".to_string()),
        DialogueKind::Choice("yes".to_string(), "no".to_string()),
    ];
    assert!(matches!(kinds[0], DialogueKind::Alert));
    assert!(matches!(&kinds[2], DialogueKind::Choice(a, b) if a == "yes" && b == "no"));
}

#[test]
fn network_and_call_records() {
    let n = Network {
        chain_id: 1,
        name: "Ethereum".to_string(),
        ticker: "ETH".to_string(),
        rpc_url: "https://eth-rpc.gateway.pokt.network".to_string(),
    };
    assert_eq!(n.chain_id, 1);
    let c = TransactionCall { from: None, to: [0; 20], gas: None, gasPrice: Some(3), value: None, data: None };
    assert_eq!(c.gasPrice, Some(3));
}

#[test]
fn error_descriptions() {
    assert_eq!(Error::NoFreeAddrs.describe(), "No addresses were available for allocation");
    assert_eq!(Error::InvalidAddressError.describe(), "No resource exists at the address");
}
