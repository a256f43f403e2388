use codetracer_flow_recorder::cli::{
    choose_helper_bin, choose_out_dir, recording_disabled_by, DEFAULT_HELPER_BIN, DEFAULT_OUT_DIR,
};
use codetracer_flow_recorder::replay::{
    normalise_tx_hash, replay_helper_args, replay_source_path, FlowAccessClient, ReplayConfig,
    TransactionScript, DEFAULT_ACCESS_NODE_URL,
};

#[test]
fn test_replay_config_new() {
    let config = ReplayConfig::new("0xABCDef1234567890", "access.testnet.nodes.onflow.org:9000");
    assert_eq!(config.tx_hash, "abcdef1234567890");
    assert_eq!(config.access_node_url, "access.testnet.nodes.onflow.org:9000");
    assert!(config.source_dir.is_none());
}

#[test]
fn test_replay_config_with_source_dir() {
    let config = ReplayConfig::new("abc123", DEFAULT_ACCESS_NODE_URL)
        .with_source_dir("/tmp/sources".to_string());
    assert_eq!(config.source_dir, Some("/tmp/sources".to_string()));
}

#[test]
fn test_normalise_tx_hash_strips_prefix() {
    assert_eq!(normalise_tx_hash("0xABCD"), "abcd");
    assert_eq!(normalise_tx_hash("ABCD"), "abcd");
    assert_eq!(normalise_tx_hash("0x0"), "0");
}

#[test]
fn test_flow_access_client_default() {
    let client = FlowAccessClient::default();
    assert_eq!(client.access_node_url, DEFAULT_ACCESS_NODE_URL);
}

#[test]
fn test_flow_access_client_custom_url() {
    let client = FlowAccessClient::new("localhost:3569");
    assert_eq!(client.access_node_url, "localhost:3569");
}

#[test]
fn test_transaction_script_empty_args() {
    let tx = TransactionScript {
        script: "transaction { execute {} }".to_string(),
        arguments: vec![],
        tx_hash: "deadbeef".to_string(),
    };
    assert!(tx.arguments.is_empty());
    assert_eq!(tx.tx_hash, "deadbeef");
}

#[test]
fn normalise_strips_one_lowercase_prefix_only() {
    assert_eq!(normalise_tx_hash("0X12AB"), "0x12ab");
    assert_eq!(normalise_tx_hash("0x0xAB"), "0xab");
    assert_eq!(normalise_tx_hash(""), "");
    assert_eq!(normalise_tx_hash("0x"), "");
    assert_eq!(normalise_tx_hash("ÄBC"), "Äbc");
}

#[test]
fn normalised_hash_has_no_ascii_uppercase() {
    for h in ["0xDEADBEEF", "AbCdEf", "0x0X1F", "ZZ"] {
        let n = normalise_tx_hash(h);
        assert!(!n.chars().any(|c| c.is_ascii_uppercase()), "{n}");
    }
}

#[test]
fn helper_args_without_source_dir() {
    let config = ReplayConfig::new("0xBEEF", "localhost:3569");
    assert_eq!(
        replay_helper_args(&config),
        vec!["replay", "--tx-hash", "beef", "--access-node", "localhost:3569"]
    );
}

#[test]
fn helper_args_with_source_dir() {
    let config = ReplayConfig::new("beef", DEFAULT_ACCESS_NODE_URL)
        .with_source_dir("/srv/cdc".to_string());
    assert_eq!(
        replay_helper_args(&config),
        vec![
            "replay",
            "--tx-hash",
            "beef",
            "--access-node",
            DEFAULT_ACCESS_NODE_URL,
            "--source-dir",
            "/srv/cdc",
        ]
    );
}

#[test]
fn replay_source_path_defaults_to_current_dir() {
    let config = ReplayConfig::new("0xAB12", DEFAULT_ACCESS_NODE_URL);
    assert_eq!(replay_source_path(&config), "./tx_ab12.cdc");
}

#[test]
fn replay_source_path_in_source_dir() {
    let config = ReplayConfig::new("ab12", DEFAULT_ACCESS_NODE_URL)
        .with_source_dir("/srv/cdc".to_string());
    assert_eq!(replay_source_path(&config), "/srv/cdc/tx_ab12.cdc");
}

#[test]
fn out_dir_flag_wins() {
    assert_eq!(
        choose_out_dir(Some("/a".to_string()), Some("/b".to_string())),
        "/a"
    );
}

#[test]
fn out_dir_from_environment() {
    assert_eq!(choose_out_dir(None, Some("/b".to_string())), "/b");
}

#[test]
fn out_dir_default_when_unset_or_empty() {
    assert_eq!(choose_out_dir(None, None), DEFAULT_OUT_DIR);
    assert_eq!(choose_out_dir(None, Some(String::new())), "./ct-traces/");
}

#[test]
fn disabled_values() {
    assert!(recording_disabled_by(Some("1".to_string())));
    assert!(recording_disabled_by(Some(" true ".to_string())));
    assert!(recording_disabled_by(Some("TrUe".to_string())));
    assert!(!recording_disabled_by(Some("0".to_string())));
    assert!(!recording_disabled_by(Some("yes".to_string())));
    assert!(!recording_disabled_by(Some("".to_string())));
    assert!(!recording_disabled_by(None));
}

#[test]
fn helper_binary_choice() {
    assert_eq!(
        choose_helper_bin(Some("/opt/h".to_string()), Some("/built/h".to_string())),
        "/opt/h"
    );
    assert_eq!(choose_helper_bin(None, Some("/built/h".to_string())), "/built/h");
    assert_eq!(choose_helper_bin(None, None), DEFAULT_HELPER_BIN);
    assert_eq!(choose_helper_bin(None, None), "cadence-trace-helper");
}
