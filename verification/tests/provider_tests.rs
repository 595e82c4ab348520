use chain_indexer::config::RpcProvider;
use chain_indexer::provider::ProviderManager;

fn two_providers(weight: u32, max_rpm: u32, cooldown_ms: u64) -> Vec<RpcProvider> {
    vec![
        RpcProvider {
            url: "http://provider1.example".to_string(),
            weight,
            priority: 1,
            max_requests_per_minute: max_rpm,
            cooldown_on_error_ms: cooldown_ms,
        },
        RpcProvider {
            url: "http://provider2.example".to_string(),
            weight,
            priority: 2,
            max_requests_per_minute: max_rpm,
            cooldown_on_error_ms: cooldown_ms,
        },
    ]
}

#[test]
fn test_provider_rotation() {
    let providers = two_providers(2, 10, 1000);
    let mut manager = ProviderManager::new(providers, "test".to_string(), 0).unwrap();

    let url1 = manager.get_current_provider(0).unwrap();
    assert_eq!(url1, "http://provider1.example");

    manager.mark_success();
    manager.mark_success();

    let url2 = manager.get_current_provider(0).unwrap();
    assert_eq!(url2, "http://provider2.example");
}

#[test]
fn test_provider_failover() {
    let providers = two_providers(10, 10, 100);
    let mut manager = ProviderManager::new(providers, "test".to_string(), 0).unwrap();

    let url1 = manager.get_current_provider(0).unwrap();
    assert_eq!(url1, "http://provider1.example");

    manager.mark_error(0);
    let url2 = manager.get_current_provider(0).unwrap();
    assert_eq!(url2, "http://provider2.example");

    // After the cooldown window passes, both providers report available.
    let stats = manager.get_stats(150);
    assert_eq!(stats.available_providers, 2);
}

#[test]
fn test_rate_limiting() {
    let providers = vec![RpcProvider {
        url: "http://provider1.example".to_string(),
        weight: 100,
        priority: 1,
        max_requests_per_minute: 2,
        cooldown_on_error_ms: 1000,
    }];
    let mut manager = ProviderManager::new(providers, "test".to_string(), 0).unwrap();

    manager.mark_success();
    manager.mark_success();

    let result = manager.get_current_provider(0);
    assert!(result.is_err());
}

#[test]
fn test_rate_limit_window_rolls() {
    // The same pool serves again once the minute window has passed.
    let providers = vec![RpcProvider {
        url: "http://provider1.example".to_string(),
        weight: 100,
        priority: 1,
        max_requests_per_minute: 2,
        cooldown_on_error_ms: 1000,
    }];
    let mut manager = ProviderManager::new(providers, "test".to_string(), 0).unwrap();

    manager.mark_success();
    manager.mark_success();
    assert!(manager.get_current_provider(0).is_err());
    assert!(manager.get_current_provider(60_000).is_ok());
}

#[test]
fn test_cooldown_recovery() {
    // An errored provider is excluded during its cooldown and counted
    // available again after the cooldown elapses.
    let providers = two_providers(10, 10, 100);
    let mut manager = ProviderManager::new(providers, "test".to_string(), 0).unwrap();

    manager.get_current_provider(0).unwrap();
    manager.mark_error(0);

    let stats_during = manager.get_stats(50);
    assert_eq!(stats_during.available_providers, 1);
    assert_eq!(stats_during.cooldown_providers, 1);

    let stats_after = manager.get_stats(150);
    assert_eq!(stats_after.available_providers, 2);
    assert_eq!(stats_after.cooldown_providers, 0);
}

#[test]
fn test_priority_orders_pool() {
    // The pool is visited in ascending priority whatever the configured
    // order.
    let providers = vec![
        RpcProvider {
            url: "http://low-priority.example".to_string(),
            weight: 5,
            priority: 9,
            max_requests_per_minute: 10,
            cooldown_on_error_ms: 1000,
        },
        RpcProvider {
            url: "http://high-priority.example".to_string(),
            weight: 5,
            priority: 1,
            max_requests_per_minute: 10,
            cooldown_on_error_ms: 1000,
        },
    ];
    let mut manager = ProviderManager::new(providers, "test".to_string(), 0).unwrap();
    let url = manager.get_current_provider(0).unwrap();
    assert_eq!(url, "http://high-priority.example");
}

#[test]
fn test_empty_pool_refused() {
    let result = ProviderManager::new(Vec::new(), "test".to_string(), 0);
    assert!(result.is_err());
}
