use chain_indexer::models::Event;
use chain_indexer::models::EventData;
use chain_indexer::models::EventQuery;
use chain_indexer::models::EventType;
use chain_indexer::models::RegisteredData;
use chain_indexer::models::MetadataSetData;
use chain_indexer::models::UriUpdatedData;
use chain_indexer::models::NewFeedbackData;
use chain_indexer::models::FeedbackRevokedData;
use chain_indexer::models::ResponseAppendedData;
use chain_indexer::models::ValidationRequestData;
use chain_indexer::models::ValidationResponseData;
use chain_indexer::storage::Storage;
use chain_indexer::storage::cache_key;

fn create_test_event(
    chain_id: u64,
    agent_id: &str,
    block_number: u64,
    tx_hash: &str,
    log_index: u32,
) -> Event {
    Event {
        id: None,
        chain_id,
        block_number,
        block_timestamp: 1_700_000_000,
        transaction_hash: tx_hash.to_string(),
        log_index,
        contract_address: "0x1234".to_string(),
        event_type: EventType::Registered,
        event_data: EventData::Registered(RegisteredData {
            agent_id: agent_id.to_string(),
            token_uri: "https://example.com".to_string(),
            owner: "0x5678".to_string(),
        }),
        created_at: None,
    }
}

#[test]
fn test_cache_key_format() {
    let event = create_test_event(11155111, "1", 100, "0xabc", 0);
    let key = cache_key(event.chain_id, &event.transaction_hash, event.log_index);
    assert_eq!(key, "11155111:0xabc:0");
}

#[test]
fn test_cache_key_uniqueness() {
    let event1 = create_test_event(11155111, "1", 100, "0xabc", 0);
    let event2 = create_test_event(11155111, "1", 100, "0xabc", 1);
    let event3 = create_test_event(11155111, "1", 100, "0xdef", 0);

    let key1 = cache_key(event1.chain_id, &event1.transaction_hash, event1.log_index);
    let key2 = cache_key(event2.chain_id, &event2.transaction_hash, event2.log_index);
    let key3 = cache_key(event3.chain_id, &event3.transaction_hash, event3.log_index);

    assert_ne!(key1, key2);
    assert_ne!(key1, key3);
}

#[test]
fn test_cache_key_cross_chain_uniqueness() {
    let event_sepolia = create_test_event(11155111, "1", 100, "0xabc", 0);
    let event_base = create_test_event(84532, "1", 100, "0xabc", 0);

    let key_sepolia = cache_key(
        event_sepolia.chain_id,
        &event_sepolia.transaction_hash,
        event_sepolia.log_index,
    );
    let key_base = cache_key(
        event_base.chain_id,
        &event_base.transaction_hash,
        event_base.log_index,
    );

    assert_ne!(key_sepolia, key_base);
    assert_eq!(key_sepolia, "11155111:0xabc:0");
    assert_eq!(key_base, "84532:0xabc:0");
}

#[test]
fn test_event_with_chain_id() {
    let event_sepolia = create_test_event(11155111, "1", 100, "0xabc", 0);
    let event_mainnet = create_test_event(1, "1", 100, "0xabc", 0);

    assert_eq!(event_sepolia.chain_id, 11155111);
    assert_eq!(event_mainnet.chain_id, 1);
    assert_ne!(event_sepolia.chain_id, event_mainnet.chain_id);
}

#[test]
fn test_event_data_agent_id() {
    let event = create_test_event(11155111, "42", 100, "0xabc", 0);
    match &event.event_data {
        EventData::Registered(data) => {
            assert_eq!(data.agent_id, "42");
        }
        _ => panic!("Expected Registered event data"),
    }
}

#[test]
fn test_cache_lru_eviction() {
    // Cache bound two: the third insert evicts the oldest entry.
    let mut store = Storage::new(2);

    let event1 = create_test_event(11155111, "1", 100, "0xaaa", 0);
    let event2 = create_test_event(11155111, "2", 200, "0xbbb", 0);
    let event3 = create_test_event(11155111, "3", 300, "0xccc", 0);

    assert!(store.store_event(event1.clone(), 1000));
    assert!(store.store_event(event2.clone(), 2000));
    let (size, _) = store.cache_stats();
    assert_eq!(size, 2);

    assert!(store.store_event(event3.clone(), 3000));
    let (size, max) = store.cache_stats();
    assert_eq!(size, 2);
    assert_eq!(max, 2);

    // The first key was evicted from the cache: storing that event again
    // falls through to the rows, which still hold it, so no row is added.
    assert!(!store.store_event(event1, 4000));
    let q = EventQuery { blocks: None, limit: None, ..Default::default() };
    assert_eq!(store.count_events(&q, 1_700_000_000), 3);
}

#[test]
fn test_cache_stats_logic() {
    let mut store = Storage::new(100);
    let (size, max) = store.cache_stats();
    assert_eq!(size, 0);
    assert_eq!(max, 100);

    store.store_event(create_test_event(11155111, "1", 100, "0xabc", 0), 1000);
    store.store_event(create_test_event(11155111, "2", 200, "0xdef", 0), 2000);
    let (size, max) = store.cache_stats();
    assert_eq!(size, 2);
    assert_eq!(max, 100);
}

#[test]
fn test_category_stats_creation() {
    let stats = chain_indexer::models::CategoryStats {
        all: 100,
        agents: 20,
        capabilities: 0,
        metadata: 30,
        validation: 25,
        feedback: 25,
        payments: 0,
    };

    assert_eq!(stats.all, 100);
    assert_eq!(stats.agents, 20);
    assert_eq!(stats.capabilities, 0);
    assert_eq!(stats.metadata, 30);
    assert_eq!(stats.validation, 25);
    assert_eq!(stats.feedback, 25);
    assert_eq!(stats.payments, 0);

    assert_eq!(stats.agents + stats.metadata + stats.validation + stats.feedback, 100);
}

#[test]
fn test_chain_info_creation() {
    let chain_info = chain_indexer::models::ChainInfo {
        chain_id: 11155111,
        name: "Ethereum Sepolia".to_string(),
        rpc_url: "https://sepolia.example".to_string(),
        identity_registry: "0x1111111111111111111111111111111111111111".to_string(),
        reputation_registry: "0x2222222222222222222222222222222222222222".to_string(),
        validation_registry: "0x3333333333333333333333333333333333333333".to_string(),
        last_synced_block: Some(1000),
        status: Some("syncing".to_string()),
        error_message: None,
        total_events_indexed: Some(500),
        errors_last_hour: Some(0),
        last_sync_time: Some(1_700_000_000),
    };

    assert_eq!(chain_info.chain_id, 11155111);
    assert_eq!(chain_info.name, "Ethereum Sepolia");
    assert_eq!(chain_info.status, Some("syncing".to_string()));
    assert_eq!(chain_info.total_events_indexed, Some(500));
}

#[test]
fn test_chain_sync_state_creation() {
    let sync_state = chain_indexer::models::ChainSyncState {
        chain_id: 84532,
        last_synced_block: 5000,
        last_sync_time: 1_700_000_000,
        status: "active".to_string(),
        error_message: None,
        total_events_indexed: 1200,
        errors_last_hour: 0,
    };

    assert_eq!(sync_state.chain_id, 84532);
    assert_eq!(sync_state.last_synced_block, 5000);
    assert_eq!(sync_state.status, "active");
    assert_eq!(sync_state.total_events_indexed, 1200);
    assert_eq!(sync_state.errors_last_hour, 0);
}

#[test]
fn test_store_event_idempotent() {
    // Storing the same event twice leaves the row count and the chain's
    // total untouched.
    let mut store = Storage::new(100);
    store.update_last_synced_block_for_chain(11155111, 99, 1_700_000_000);

    let event = create_test_event(11155111, "1", 100, "0xabc", 0);
    assert!(store.store_event(event.clone(), 1000));
    let total_after_first = store
        .get_chain_sync_state(11155111)
        .unwrap()
        .total_events_indexed;
    assert_eq!(total_after_first, 1);

    assert!(!store.store_event(event, 2000));
    let q = EventQuery { blocks: None, limit: None, ..Default::default() };
    assert_eq!(store.count_events(&q, 1_700_000_000), 1);
    let total_after_second = store
        .get_chain_sync_state(11155111)
        .unwrap()
        .total_events_indexed;
    assert_eq!(total_after_second, 1);
}

#[test]
fn test_single_chain_ingestion() {
    // Two events of one agent in one block; the agent query finds both and
    // the cursor lands where it was set.
    let mut store = Storage::new(100);

    let registered = create_test_event(11155111, "1", 100, "0xaaa", 0);
    let mut metadata = create_test_event(11155111, "1", 100, "0xaaa", 1);
    metadata.event_type = EventType::MetadataSet;
    metadata.event_data = EventData::MetadataSet(MetadataSetData {
        agent_id: "1".to_string(),
        indexed_key: "0xkey".to_string(),
        key: "name".to_string(),
        value: "0x76616c".to_string(),
    });

    assert!(store.store_event(registered, 1000));
    assert!(store.store_event(metadata, 2000));

    let q = EventQuery {
        chain_id: Some("11155111".to_string()),
        agent_id: Some("1".to_string()),
        blocks: None,
        ..Default::default()
    };
    let events = store.get_recent_events(&q, 1_700_000_000).unwrap();
    assert_eq!(events.len(), 2);

    store.update_last_synced_block_for_chain(11155111, 100, 1_700_000_000);
    assert_eq!(store.get_last_synced_block_for_chain(11155111), 100);
}

#[test]
fn test_multi_chain_isolation() {
    // The same transaction hash and log index on two chains are two rows,
    // one per chain.
    let mut store = Storage::new(100);

    let tx = "0x00000000000000000000000000000000000000000000000000000000000000aa";
    assert!(store.store_event(create_test_event(11155111, "1", 100, tx, 0), 1000));
    assert!(store.store_event(create_test_event(84532, "1", 100, tx, 0), 2000));

    let q_sepolia = EventQuery {
        chain_id: Some("11155111".to_string()),
        blocks: None,
        ..Default::default()
    };
    let q_base = EventQuery {
        chain_id: Some("84532".to_string()),
        blocks: None,
        ..Default::default()
    };
    assert_eq!(store.count_events(&q_sepolia, 1_700_000_000), 1);
    assert_eq!(store.count_events(&q_base, 1_700_000_000), 1);

    let sep = store.get_recent_events(&q_sepolia, 1_700_000_000).unwrap();
    assert_eq!(sep.len(), 1);
    assert_eq!(sep[0].chain_id, 11155111);
}

#[test]
fn test_crash_recovery_block_minus_one() {
    // Synced through block 102; a restart resumes from 101, and replaying
    // block 101's events is a silent no-op.
    let mut store = Storage::new(100);

    let e101 = create_test_event(11155111, "1", 101, "0xaaa", 0);
    let e102 = create_test_event(11155111, "2", 102, "0xbbb", 0);
    assert!(store.store_event(e101.clone(), 1000));
    assert!(store.store_event(e102, 2000));
    store.update_last_synced_block_for_chain(11155111, 102, 1_700_000_000);

    // Restart: the boot cursor replays the last synced block.
    let last = store.get_last_synced_block_for_chain(11155111);
    assert_eq!(last, 102);
    let resume = chain_indexer::indexer::resume_block(last, 0);
    assert_eq!(resume, 101);

    // Replaying block 101 stores nothing new.
    assert!(!store.store_event(e101, 3000));
    let q = EventQuery { blocks: None, limit: None, ..Default::default() };
    assert_eq!(store.count_events(&q, 1_700_000_000), 2);
}

#[test]
fn test_all_event_types_storage_and_retrieval() {
    // One event of each variant goes in, and each comes back through its
    // event type filter with its payload intact.
    let mut store = Storage::new(100);
    let base = create_test_event(11155111, "7", 50, "0x111", 0);

    let payloads: Vec<(EventType, EventData)> = vec![
        (
            EventType::Registered,
            EventData::Registered(RegisteredData {
                agent_id: "7".to_string(),
                token_uri: "https://example.com/7".to_string(),
                owner: "0xaaaa".to_string(),
            }),
        ),
        (
            EventType::MetadataSet,
            EventData::MetadataSet(MetadataSetData {
                agent_id: "7".to_string(),
                indexed_key: "0xkey".to_string(),
                key: "name".to_string(),
                value: "0x01".to_string(),
            }),
        ),
        (
            EventType::UriUpdated,
            EventData::UriUpdated(UriUpdatedData {
                agent_id: "7".to_string(),
                new_uri: "https://example.com/new".to_string(),
                updated_by: "0xbbbb".to_string(),
            }),
        ),
        (
            EventType::NewFeedback,
            EventData::NewFeedback(NewFeedbackData {
                agent_id: "7".to_string(),
                client: "0xcccc".to_string(),
                score: 88,
                tag1: "0x01".to_string(),
                tag2: "0x02".to_string(),
                feedback_uri: "ipfs://feedback".to_string(),
                feedback_hash: "0x03".to_string(),
            }),
        ),
        (
            EventType::FeedbackRevoked,
            EventData::FeedbackRevoked(FeedbackRevokedData {
                agent_id: "7".to_string(),
                client: "0xcccc".to_string(),
                feedback_index: "4".to_string(),
            }),
        ),
        (
            EventType::ResponseAppended,
            EventData::ResponseAppended(ResponseAppendedData {
                agent_id: "7".to_string(),
                client: "0xcccc".to_string(),
                feedback_index: "4".to_string(),
                responder: "0xdddd".to_string(),
                response_uri: "ipfs://response".to_string(),
                response_hash: "0x05".to_string(),
            }),
        ),
        (
            EventType::ValidationRequest,
            EventData::ValidationRequest(ValidationRequestData {
                validator_address: "0xeeee".to_string(),
                agent_id: "7".to_string(),
                request_uri: "ipfs://request".to_string(),
                request_hash: "0x06".to_string(),
            }),
        ),
        (
            EventType::ValidationResponse,
            EventData::ValidationResponse(ValidationResponseData {
                validator_address: "0xeeee".to_string(),
                agent_id: "7".to_string(),
                request_hash: "0x06".to_string(),
                response: 1,
                response_uri: "ipfs://verdict".to_string(),
                response_hash: "0x07".to_string(),
                tag: "0x08".to_string(),
            }),
        ),
    ];

    for (i, (event_type, data)) in payloads.into_iter().enumerate() {
        let mut e = base.clone();
        e.log_index = i as u32;
        e.event_type = event_type;
        e.event_data = data;
        assert!(store.store_event(e, 1000 + i as u64));
    }

    let q_all = EventQuery { blocks: None, limit: None, ..Default::default() };
    assert_eq!(store.count_events(&q_all, 1_700_000_000), 8);

    let q = EventQuery {
        event_type: Some("NewFeedback".to_string()),
        blocks: None,
        ..Default::default()
    };
    let rows = store.get_recent_events(&q, 1_700_000_000).unwrap();
    assert_eq!(rows.len(), 1);
    match &rows[0].event_data {
        EventData::NewFeedback(d) => {
            assert_eq!(d.agent_id, "7");
            assert_eq!(d.score, 88);
            assert_eq!(d.feedback_uri, "ipfs://feedback");
        }
        _ => panic!("wrong payload variant"),
    }

    let q = EventQuery {
        event_type: Some("ValidationResponse".to_string()),
        blocks: None,
        ..Default::default()
    };
    let rows = store.get_recent_events(&q, 1_700_000_000).unwrap();
    assert_eq!(rows.len(), 1);
    match &rows[0].event_data {
        EventData::ValidationResponse(d) => {
            assert_eq!(d.response, 1);
            assert_eq!(d.response_uri, "ipfs://verdict");
        }
        _ => panic!("wrong payload variant"),
    }
}

#[test]
fn test_category_filter_rows() {
    // A category restricts rows to its expansion; an empty expansion
    // returns nothing.
    let mut store = Storage::new(100);
    let registered = create_test_event(11155111, "1", 100, "0xaaa", 0);
    let mut feedback = create_test_event(11155111, "1", 101, "0xbbb", 0);
    feedback.event_type = EventType::NewFeedback;
    feedback.event_data = EventData::NewFeedback(NewFeedbackData {
        agent_id: "1".to_string(),
        client: "0xcccc".to_string(),
        score: 5,
        tag1: "0x01".to_string(),
        tag2: "0x02".to_string(),
        feedback_uri: "ipfs://x".to_string(),
        feedback_hash: "0x03".to_string(),
    });
    store.store_event(registered, 1000);
    store.store_event(feedback, 2000);

    let q_agents = EventQuery {
        category: Some("agents".to_string()),
        blocks: None,
        ..Default::default()
    };
    let rows = store.get_recent_events(&q_agents, 1_700_000_000).unwrap();
    assert_eq!(rows.len(), 1);
    assert_eq!(rows[0].event_type, EventType::Registered);

    let q_payments = EventQuery {
        category: Some("payments".to_string()),
        blocks: None,
        ..Default::default()
    };
    let rows = store.get_recent_events(&q_payments, 1_700_000_000).unwrap();
    assert_eq!(rows.len(), 0);
    assert_eq!(store.count_events(&q_payments, 1_700_000_000), 0);
}

#[test]
fn test_query_ordering_and_pagination() {
    // Rows come newest block first, higher log index first within a
    // block, and the page cuts apply after ordering.
    let mut store = Storage::new(100);
    store.store_event(create_test_event(1, "1", 10, "0xa", 0), 1);
    store.store_event(create_test_event(1, "1", 12, "0xb", 0), 2);
    store.store_event(create_test_event(1, "1", 12, "0xb", 1), 3);
    store.store_event(create_test_event(1, "1", 11, "0xc", 0), 4);

    let q = EventQuery { blocks: None, limit: None, ..Default::default() };
    let rows = store.get_recent_events(&q, 1_700_000_000).unwrap();
    let blocks: Vec<(u64, u32)> = rows.iter().map(|e| (e.block_number, e.log_index)).collect();
    assert_eq!(blocks, vec![(12, 1), (12, 0), (11, 0), (10, 0)]);

    let q_page = EventQuery {
        blocks: None,
        offset: Some(1),
        limit: Some(2),
        ..Default::default()
    };
    let rows = store.get_recent_events(&q_page, 1_700_000_000).unwrap();
    let blocks: Vec<(u64, u32)> = rows.iter().map(|e| (e.block_number, e.log_index)).collect();
    assert_eq!(blocks, vec![(12, 0), (11, 0)]);

    let q_bad = EventQuery { blocks: None, limit: Some(-1), ..Default::default() };
    assert!(store.get_recent_events(&q_bad, 1_700_000_000).is_err());
    let q_bad2 = EventQuery { blocks: None, offset: Some(-3), ..Default::default() };
    assert!(store.get_recent_events(&q_bad2, 1_700_000_000).is_err());
}

#[test]
fn test_time_and_block_filters() {
    // `hours` keeps recent timestamps and takes precedence over `blocks`.
    let mut store = Storage::new(100);
    let mut old_event = create_test_event(1, "1", 10, "0xa", 0);
    old_event.block_timestamp = 1_700_000_000 - 10 * 3600;
    let mut new_event = create_test_event(1, "1", 200, "0xb", 0);
    new_event.block_timestamp = 1_700_000_000 - 60;
    store.store_event(old_event, 1);
    store.store_event(new_event, 2);

    let q_hours = EventQuery {
        hours: Some(1),
        blocks: Some(1_000_000),
        ..Default::default()
    };
    let rows = store.get_recent_events(&q_hours, 1_700_000_000).unwrap();
    assert_eq!(rows.len(), 1);
    assert_eq!(rows[0].block_number, 200);

    let q_blocks = EventQuery { blocks: Some(50), hours: None, ..Default::default() };
    let rows = store.get_recent_events(&q_blocks, 1_700_000_000).unwrap();
    assert_eq!(rows.len(), 1);
    assert_eq!(rows[0].block_number, 200);
}

#[test]
fn test_get_category_stats_counts() {
    let mut store = Storage::new(100);
    store.store_event(create_test_event(1, "1", 10, "0xa", 0), 1);
    let mut m = create_test_event(1, "1", 11, "0xb", 0);
    m.event_type = EventType::UriUpdated;
    m.event_data = EventData::UriUpdated(UriUpdatedData {
        agent_id: "1".to_string(),
        new_uri: "u".to_string(),
        updated_by: "0x1".to_string(),
    });
    store.store_event(m, 2);
    let mut v = create_test_event(2, "1", 12, "0xc", 0);
    v.event_type = EventType::ValidationRequest;
    v.event_data = EventData::ValidationRequest(ValidationRequestData {
        validator_address: "0x2".to_string(),
        agent_id: "1".to_string(),
        request_uri: "r".to_string(),
        request_hash: "0x3".to_string(),
    });
    store.store_event(v, 3);

    let stats = store.get_category_stats(None);
    assert_eq!(stats.all, 3);
    assert_eq!(stats.agents, 1);
    assert_eq!(stats.metadata, 1);
    assert_eq!(stats.validation, 1);
    assert_eq!(stats.feedback, 0);
    assert_eq!(stats.capabilities, 0);
    assert_eq!(stats.payments, 0);

    let stats_one = store.get_category_stats(Some(vec![1]));
    assert_eq!(stats_one.all, 2);
    assert_eq!(stats_one.validation, 0);
}

#[test]
fn test_chain_directory_and_status() {
    let mut store = Storage::new(100);
    store.add_chain(chain_indexer::storage::ChainRow {
        chain_id: 84532,
        name: "Base Sepolia".to_string(),
        rpc_url: "https://base.example".to_string(),
        identity_registry: "0x1".to_string(),
        reputation_registry: "0x2".to_string(),
        validation_registry: "0x3".to_string(),
        enabled: true,
    });
    store.add_chain(chain_indexer::storage::ChainRow {
        chain_id: 11155111,
        name: "Ethereum Sepolia".to_string(),
        rpc_url: "https://sepolia.example".to_string(),
        identity_registry: "0x1".to_string(),
        reputation_registry: "0x2".to_string(),
        validation_registry: "0x3".to_string(),
        enabled: true,
    });
    store.add_chain(chain_indexer::storage::ChainRow {
        chain_id: 59141,
        name: "Disabled".to_string(),
        rpc_url: "https://off.example".to_string(),
        identity_registry: "0x1".to_string(),
        reputation_registry: "0x2".to_string(),
        validation_registry: "0x3".to_string(),
        enabled: false,
    });

    store.update_last_synced_block_for_chain(84532, 1000, 1_700_000_000);
    store.update_chain_status(
        84532,
        chain_indexer::supervisor::ChainStatus::Syncing,
        None,
    );

    let chains = store.get_enabled_chains();
    assert_eq!(chains.len(), 2);
    assert_eq!(chains[0].chain_id, 84532);
    assert_eq!(chains[1].chain_id, 11155111);
    assert_eq!(chains[0].last_synced_block, Some(1000));
    assert_eq!(chains[0].status, Some("syncing".to_string()));
    assert_eq!(chains[1].last_synced_block, None);
}
