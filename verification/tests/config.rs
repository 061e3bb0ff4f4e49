use std::collections::BTreeMap;

use op_batcher_collector::config::{
    create_config, default_history_size, default_listen_host, default_listen_port,
    default_rpc_url, default_web_workers, Config, ConfigError, EnvVars, NumberVar,
    DEFAULT_HISTORY_SIZE, DEFAULT_LISTEN_HOST, DEFAULT_LISTEN_PORT, DEFAULT_RPC_URL,
    DEFAULT_WEB_WORKERS,
};

fn from_pairs<const N: usize>(pairs: [(&str, &str); N]) -> Result<Config, ConfigError> {
    let vars: BTreeMap<String, String> = envy::from_iter(
        pairs
            .into_iter()
            .map(|(k, v)| (k.to_string(), v.to_string())),
    )
    .unwrap();
    create_config(EnvVars {
        batcher_rpc_url: vars.get("batcher_rpc_url").cloned(),
        history_size: vars.get("history_size").cloned(),
        collector_listen_host: vars.get("collector_listen_host").cloned(),
        collector_listen_port: vars.get("collector_listen_port").cloned(),
        collector_web_workers: vars.get("collector_web_workers").cloned(),
    })
}

#[test]
fn defaults_apply_when_env_is_empty() {
    let config = from_pairs([]).unwrap();
    assert_eq!(config.rpc_url, DEFAULT_RPC_URL);
    assert_eq!(config.history_size, DEFAULT_HISTORY_SIZE);
    assert_eq!(config.listen_host, DEFAULT_LISTEN_HOST);
    assert_eq!(config.listen_port, DEFAULT_LISTEN_PORT);
    assert_eq!(config.web_workers, DEFAULT_WEB_WORKERS);
}

#[test]
fn defaults_are_those_of_the_readme() {
    assert_eq!(default_rpc_url(), "http://host.docker.internal:8548");
    assert_eq!(default_history_size(), 5000);
    assert_eq!(default_listen_host(), "0.0.0.0");
    assert_eq!(default_listen_port(), 28881);
    assert_eq!(default_web_workers(), 4);
}

#[test]
fn parses_valid_overrides() {
    let config = from_pairs([("HISTORY_SIZE", "42"), ("COLLECTOR_LISTEN_PORT", "9000")]).unwrap();
    assert_eq!(config.history_size, 42);
    assert_eq!(config.listen_port, 9000);
}

#[test]
fn text_overrides_are_taken_as_they_are() {
    let config = from_pairs([
        ("BATCHER_RPC_URL", "http://rpc.example"),
        ("COLLECTOR_LISTEN_HOST", "127.0.0.1"),
        ("COLLECTOR_WEB_WORKERS", "+8"),
    ])
    .unwrap();
    assert_eq!(config.rpc_url, "http://rpc.example");
    assert_eq!(config.listen_host, "127.0.0.1");
    assert_eq!(config.web_workers, 8);
}

#[test]
fn rejects_non_integer() {
    assert!(from_pairs([("HISTORY_SIZE", "abc")]).is_err());
}

#[test]
fn rejects_zero_for_nonzero_field() {
    assert!(from_pairs([("HISTORY_SIZE", "0")]).is_err());
}

#[test]
fn rejects_port_overflow() {
    assert!(from_pairs([("COLLECTOR_LISTEN_PORT", "70000")]).is_err());
}

#[test]
fn errors_name_the_variable() {
    let error = from_pairs([("COLLECTOR_LISTEN_PORT", "70000")]).unwrap_err();
    assert_eq!(error.variable, NumberVar::CollectorListenPort);
    assert_eq!(
        error.message(),
        "COLLECTOR_LISTEN_PORT must be a positive integer up to 65535, not '70000'"
    );
    let error = from_pairs([("COLLECTOR_WEB_WORKERS", "0")]).unwrap_err();
    assert!(error.message().starts_with("COLLECTOR_WEB_WORKERS"));
    let error = from_pairs([("HISTORY_SIZE", " 5")]).unwrap_err();
    assert!(error.message().starts_with("HISTORY_SIZE"));
    assert_eq!(error.value, " 5");
}
