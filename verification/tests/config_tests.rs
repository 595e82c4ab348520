use chain_indexer::config::ChainConfig;
use chain_indexer::config::ConfigError;
use chain_indexer::config::ContractAddresses;
use chain_indexer::config::GlobalConfig;
use chain_indexer::config::IndexerConfig;
use chain_indexer::config::RpcProvider;
use chain_indexer::config::default_adaptive_polling;
use chain_indexer::config::default_batch_delay;
use chain_indexer::config::default_batch_size;
use chain_indexer::config::default_cooldown_on_error;
use chain_indexer::config::default_max_parallel;
use chain_indexer::config::default_max_requests_per_minute;
use chain_indexer::config::default_max_retries;
use chain_indexer::config::default_provider_priority;
use chain_indexer::config::default_provider_weight;
use chain_indexer::config::default_retry_base_delay;
use chain_indexer::config::default_retry_max_delay;

fn chain_config() -> ChainConfig {
    ChainConfig {
        name: "Test Chain".to_string(),
        chain_id: 123,
        enabled: true,
        rpc_providers: Vec::new(),
        rpc_url: Some("https://test.rpc".to_string()),
        contracts: ContractAddresses {
            identity_registry: "0x1111111111111111111111111111111111111111".to_string(),
            reputation_registry: "0x2222222222222222222222222222222222222222".to_string(),
            validation_registry: "0x3333333333333333333333333333333333333333".to_string(),
        },
        starting_block: "latest".to_string(),
        poll_interval_ms: 5000,
        batch_size: 2,
        adaptive_polling: true,
    }
}

#[test]
fn test_defaults() {
    assert_eq!(default_provider_weight(), 30);
    assert_eq!(default_provider_priority(), 1);
    assert_eq!(default_max_requests_per_minute(), 100);
    assert_eq!(default_cooldown_on_error(), 60000);
    assert_eq!(default_batch_size(), 1);
    assert!(default_adaptive_polling());
    assert_eq!(default_max_retries(), 5);
    assert_eq!(default_retry_base_delay(), 1000);
    assert_eq!(default_retry_max_delay(), 60000);
    assert_eq!(default_max_parallel(), 10);
    assert_eq!(default_batch_delay(), 50);

    let global = GlobalConfig::default();
    assert_eq!(global.max_indexer_retries, 5);
    assert_eq!(global.retry_base_delay_ms, 1000);
    assert_eq!(global.retry_max_delay_ms, 60000);
    assert!(global.adaptive_polling_enabled);
    assert_eq!(global.max_parallel_blocks, 10);
    assert_eq!(global.batch_processing_delay_ms, 50);
}

#[test]
fn test_get_providers_promotes_legacy_url() {
    let chain = chain_config();
    let providers = chain.get_providers();
    assert_eq!(providers.len(), 1);
    assert_eq!(providers[0].url, "https://test.rpc");
    assert_eq!(providers[0].weight, 30);
    assert_eq!(providers[0].priority, 1);
    assert_eq!(providers[0].max_requests_per_minute, 100);
    assert_eq!(providers[0].cooldown_on_error_ms, 60000);
}

#[test]
fn test_get_providers_prefers_explicit_list() {
    let mut chain = chain_config();
    chain.rpc_providers = vec![RpcProvider {
        url: "https://primary.rpc".to_string(),
        weight: 7,
        priority: 2,
        max_requests_per_minute: 50,
        cooldown_on_error_ms: 500,
    }];
    let providers = chain.get_providers();
    assert_eq!(providers.len(), 1);
    assert_eq!(providers[0].url, "https://primary.rpc");
    assert_eq!(providers[0].weight, 7);
}

#[test]
fn test_get_providers_empty_without_any() {
    let mut chain = chain_config();
    chain.rpc_url = None;
    assert!(chain.get_providers().is_empty());
}

#[test]
fn test_from_chain_config_resolves() {
    let cfg = IndexerConfig::from_chain_config(&chain_config()).unwrap();
    assert_eq!(cfg.name, "Test Chain");
    assert_eq!(cfg.chain_id, 123);
    assert_eq!(cfg.identity_registry, vec![0x11; 20]);
    assert_eq!(cfg.reputation_registry, vec![0x22; 20]);
    assert_eq!(cfg.validation_registry, vec![0x33; 20]);
    assert_eq!(cfg.starting_block, 0);
    assert_eq!(cfg.poll_interval_ms, 5000);
    assert_eq!(cfg.batch_size, 2);
    assert!(cfg.adaptive_polling);
    assert_eq!(cfg.rpc_providers.len(), 1);
}

#[test]
fn test_from_chain_config_numeric_start() {
    let mut chain = chain_config();
    chain.starting_block = "12345".to_string();
    let cfg = IndexerConfig::from_chain_config(&chain).unwrap();
    assert_eq!(cfg.starting_block, 12345);
}

#[test]
fn test_from_chain_config_rejects_bad_address() {
    let mut chain = chain_config();
    chain.contracts.identity_registry = "0x123".to_string();
    let err = IndexerConfig::from_chain_config(&chain).unwrap_err();
    assert_eq!(err, ConfigError::InvalidAddress);
}

#[test]
fn test_from_chain_config_rejects_bad_start() {
    let mut chain = chain_config();
    chain.starting_block = "soon".to_string();
    let err = IndexerConfig::from_chain_config(&chain).unwrap_err();
    assert_eq!(err, ConfigError::InvalidStartingBlock);
}

#[test]
fn test_from_chain_config_rejects_no_providers() {
    let mut chain = chain_config();
    chain.rpc_url = None;
    let err = IndexerConfig::from_chain_config(&chain).unwrap_err();
    assert_eq!(err, ConfigError::NoProviders);
}
