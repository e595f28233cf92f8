use contract_deployer::config::{is_valid_rpc_url, Config, ConfigError};

#[test]
fn config_needs_the_rpc_url() {
    assert!(matches!(Config::try_from_env(None, Some("key".to_string())), Err(ConfigError::MissingRpcUrl)));
    assert!(matches!(Config::try_from_env(None, None), Err(ConfigError::MissingRpcUrl)));
}

#[test]
fn config_needs_the_private_key() {
    assert!(matches!(
        Config::try_from_env(Some("http://localhost:8545".to_string()), None),
        Err(ConfigError::MissingDeployerPrivateKey)
    ));
    assert!(matches!(
        Config::try_from_env(Some("not a url".to_string()), None),
        Err(ConfigError::MissingDeployerPrivateKey)
    ));
}

#[test]
fn config_needs_a_valid_url() {
    assert!(matches!(
        Config::try_from_env(Some("not a url".to_string()), Some("key".to_string())),
        Err(ConfigError::InvalidRpcUrl)
    ));
}

#[test]
fn config_keeps_its_values() {
    let config = match Config::try_from_env(Some("http://localhost:8545".to_string()), Some("0xabc".to_string())) {
        Ok(config) => config,
        Err(_) => panic!("expected a configuration"),
    };
    assert_eq!(config.rpc_url().as_str(), "http://localhost:8545/");
    assert_eq!(config.deployer_private_key(), "0xabc");
}

#[test]
fn config_endpoint_is_the_parsed_url() {
    let make = || match Config::try_from_env(Some("https://example.org:8545/rpc".to_string()), Some("k".to_string())) {
        Ok(config) => config,
        Err(_) => panic!("expected a configuration"),
    };
    let first = make();
    let second = make();
    assert_eq!(first.rpc_url(), second.rpc_url());
    assert_eq!(first.rpc_url(), "https://example.org:8545/rpc".parse::<alloy::transports::http::reqwest::Url>().unwrap());
}

#[test]
fn rpc_url_validity() {
    assert!(is_valid_rpc_url("http://localhost:8545"));
    assert!(is_valid_rpc_url("https://example.org:8545/rpc"));
    assert!(!is_valid_rpc_url("not a url"));
    assert!(!is_valid_rpc_url(""));
}

#[test]
fn config_from_present_values() {
    let config = Config::from_env("http://127.0.0.1:8545".to_string(), "0x01".to_string());
    assert_eq!(config.rpc_url().as_str(), "http://127.0.0.1:8545/");
    assert_eq!(config.deployer_private_key(), "0x01");
}
