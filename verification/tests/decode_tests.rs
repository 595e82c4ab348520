use chain_indexer::config::IndexerConfig;
use chain_indexer::decode::RawLog;
use chain_indexer::decode::decode_registered;
use chain_indexer::decode::decode_feedback_revoked;
use chain_indexer::decode::selector;
use chain_indexer::indexer::decode_identity_event;
use chain_indexer::indexer::process_log;
use chain_indexer::models::EventData;
use chain_indexer::models::EventType;

fn word_u64(v: u64) -> Vec<u8> {
    let mut w = vec![0u8; 24];
    w.extend_from_slice(&v.to_be_bytes());
    w
}

fn addr_topic(byte: u8) -> Vec<u8> {
    let mut w = vec![0u8; 12];
    w.extend_from_slice(&[byte; 20]);
    w
}

fn string_data(text: &str) -> Vec<u8> {
    let mut data = word_u64(32);
    data.extend_from_slice(&word_u64(text.len() as u64));
    data.extend_from_slice(text.as_bytes());
    while data.len() % 32 != 0 {
        data.push(0);
    }
    data
}

fn registered_log() -> RawLog {
    RawLog {
        address: vec![0xaa; 20],
        topics: vec![selector(EventType::Registered), word_u64(1), addr_topic(0x11)],
        data: string_data("https://example.com"),
        transaction_hash: vec![0xab; 32],
        log_index: 0,
    }
}

#[test]
fn test_decode_registered_fields() {
    let log = registered_log();
    let decoded = decode_registered(&log.topics, &log.data).unwrap();
    assert_eq!(decoded.agent_id, "1");
    assert_eq!(decoded.token_uri, "https://example.com");
    assert_eq!(decoded.owner, "0x1111111111111111111111111111111111111111");
}

#[test]
fn test_decode_registered_rejects_wrong_selector() {
    let mut log = registered_log();
    log.topics[0] = selector(EventType::UriUpdated);
    assert!(decode_registered(&log.topics, &log.data).is_none());
}

#[test]
fn test_decode_registered_rejects_truncated_data() {
    let mut log = registered_log();
    log.data.truncate(40);
    assert!(decode_registered(&log.topics, &log.data).is_none());
}

#[test]
fn test_decode_registered_rejects_invalid_utf8() {
    let mut log = registered_log();
    // Corrupt a byte of the string payload into a lone continuation byte.
    let n = log.data.len();
    log.data[n - 20] = 0xff;
    assert!(decode_registered(&log.topics, &log.data).is_none());
}

#[test]
fn test_decode_feedback_revoked_large_index() {
    // A feedback index wider than 64 bits renders in full decimal.
    let mut index_word = vec![0u8; 23];
    index_word.push(1);
    index_word.extend_from_slice(&[0u8; 8]);
    assert_eq!(index_word.len(), 32);
    let topics = vec![
        selector(EventType::FeedbackRevoked),
        word_u64(7),
        addr_topic(0x22),
    ];
    let decoded = decode_feedback_revoked(&topics, &index_word).unwrap();
    assert_eq!(decoded.agent_id, "7");
    assert_eq!(decoded.client, "0x2222222222222222222222222222222222222222");
    assert_eq!(decoded.feedback_index, "18446744073709551616");
}

#[test]
fn test_decode_identity_event_builds_event() {
    let log = registered_log();
    let event = decode_identity_event(&log, 11155111, 100, 1_700_000_000).unwrap();
    assert_eq!(event.chain_id, 11155111);
    assert_eq!(event.block_number, 100);
    assert_eq!(event.block_timestamp, 1_700_000_000);
    assert_eq!(event.log_index, 0);
    assert_eq!(event.event_type, EventType::Registered);
    assert_eq!(
        event.transaction_hash,
        format!("0x{}", "ab".repeat(32))
    );
    assert_eq!(event.contract_address, format!("0x{}", "aa".repeat(20)));
    match &event.event_data {
        EventData::Registered(d) => assert_eq!(d.agent_id, "1"),
        _ => panic!("wrong payload variant"),
    }
}

fn test_config() -> IndexerConfig {
    IndexerConfig {
        name: "Test".to_string(),
        rpc_providers: Vec::new(),
        chain_id: 11155111,
        identity_registry: vec![0xaa; 20],
        reputation_registry: vec![0xbb; 20],
        validation_registry: vec![0xcc; 20],
        starting_block: 0,
        poll_interval_ms: 12000,
        batch_size: 1,
        adaptive_polling: true,
    }
}

#[test]
fn test_process_log_dispatches_by_address() {
    let cfg = test_config();
    let log = registered_log();
    let event = process_log(&log, &cfg, 100, 1_700_000_000).unwrap().unwrap();
    assert_eq!(event.event_type, EventType::Registered);
    assert_eq!(event.chain_id, 11155111);
}

#[test]
fn test_process_log_skips_unconfigured_address() {
    let cfg = test_config();
    let mut log = registered_log();
    log.address = vec![0x99; 20];
    let result = process_log(&log, &cfg, 100, 1_700_000_000).unwrap();
    assert!(result.is_none());
}

#[test]
fn test_process_log_unknown_event_errors() {
    // A registered-shaped log from the validation registry matches none of
    // that contract's signatures.
    let cfg = test_config();
    let mut log = registered_log();
    log.address = vec![0xcc; 20];
    assert!(process_log(&log, &cfg, 100, 1_700_000_000).is_err());
}
