use chain_indexer::models::EventQuery;
use chain_indexer::models::EventType;

#[test]
fn test_event_type_as_str() {
    assert_eq!(EventType::Registered.as_str(), "Registered");
    assert_eq!(EventType::MetadataSet.as_str(), "MetadataSet");
    assert_eq!(EventType::UriUpdated.as_str(), "UriUpdated");
    assert_eq!(EventType::NewFeedback.as_str(), "NewFeedback");
    assert_eq!(EventType::FeedbackRevoked.as_str(), "FeedbackRevoked");
    assert_eq!(EventType::ResponseAppended.as_str(), "ResponseAppended");
    assert_eq!(EventType::ValidationRequest.as_str(), "ValidationRequest");
    assert_eq!(EventType::ValidationResponse.as_str(), "ValidationResponse");
}

#[test]
fn test_event_query_default_values() {
    let query = EventQuery::default();
    assert_eq!(query.chain_id, None);
    assert_eq!(query.blocks, Some(100));
    assert_eq!(query.hours, None);
    assert_eq!(query.contract, None);
    assert_eq!(query.event_type, None);
    assert_eq!(query.agent_id, None);
    assert_eq!(query.offset, None);
    assert_eq!(query.limit, Some(1000));
}

#[test]
fn test_parse_chain_ids_single() {
    let query = EventQuery { chain_id: Some("11155111".to_string()), ..Default::default() };
    let chain_ids = query.parse_chain_ids();
    assert_eq!(chain_ids, Some(vec![11155111]));
}

#[test]
fn test_parse_chain_ids_multiple() {
    let query = EventQuery {
        chain_id: Some("11155111,84532,59141".to_string()),
        ..Default::default()
    };
    let chain_ids = query.parse_chain_ids();
    assert_eq!(chain_ids, Some(vec![11155111, 84532, 59141]));
}

#[test]
fn test_parse_chain_ids_with_spaces() {
    let query = EventQuery {
        chain_id: Some("11155111, 84532 , 59141".to_string()),
        ..Default::default()
    };
    let chain_ids = query.parse_chain_ids();
    assert_eq!(chain_ids, Some(vec![11155111, 84532, 59141]));
}

#[test]
fn test_parse_chain_ids_none() {
    let query = EventQuery { chain_id: None, ..Default::default() };
    let chain_ids = query.parse_chain_ids();
    assert_eq!(chain_ids, None);
}

#[test]
fn test_parse_chain_ids_invalid() {
    let query = EventQuery {
        chain_id: Some("11155111,invalid,84532".to_string()),
        ..Default::default()
    };
    let chain_ids = query.parse_chain_ids();
    assert_eq!(chain_ids, Some(vec![11155111, 84532]));
}

#[test]
fn test_category_mapping_agents() {
    let query = EventQuery { category: Some("agents".to_string()), ..Default::default() };
    let event_types = query.event_types_for_category();
    assert_eq!(event_types, Some(vec!["Registered"]));
}

#[test]
fn test_category_mapping_metadata() {
    let query = EventQuery { category: Some("metadata".to_string()), ..Default::default() };
    let event_types = query.event_types_for_category();
    assert_eq!(event_types, Some(vec!["MetadataSet", "UriUpdated"]));
}

#[test]
fn test_category_mapping_validation() {
    let query = EventQuery { category: Some("validation".to_string()), ..Default::default() };
    let event_types = query.event_types_for_category();
    assert_eq!(event_types, Some(vec!["ValidationRequest", "ValidationResponse"]));
}

#[test]
fn test_category_mapping_feedback() {
    let query = EventQuery { category: Some("feedback".to_string()), ..Default::default() };
    let event_types = query.event_types_for_category();
    assert_eq!(
        event_types,
        Some(vec!["NewFeedback", "FeedbackRevoked", "ResponseAppended"])
    );
}

#[test]
fn test_category_mapping_all() {
    let query = EventQuery { category: Some("all".to_string()), ..Default::default() };
    let event_types = query.event_types_for_category();
    assert_eq!(event_types, None);
}

#[test]
fn test_category_mapping_none() {
    let query = EventQuery { ..Default::default() };
    let event_types = query.event_types_for_category();
    assert_eq!(event_types, None);
}

#[test]
fn test_category_mapping_capabilities() {
    let query = EventQuery { category: Some("capabilities".to_string()), ..Default::default() };
    let event_types = query.event_types_for_category();
    assert_eq!(event_types, Some(vec![]));
}

#[test]
fn test_category_mapping_payments() {
    let query = EventQuery { category: Some("payments".to_string()), ..Default::default() };
    let event_types = query.event_types_for_category();
    assert_eq!(event_types, Some(vec![]));
}

#[test]
fn test_category_mapping_unknown() {
    let query = EventQuery {
        category: Some("unknown_category".to_string()),
        ..Default::default()
    };
    let event_types = query.event_types_for_category();
    assert_eq!(event_types, Some(vec![]));
}

#[test]
fn test_event_query_clone() {
    let query = EventQuery {
        blocks: Some(100),
        contract: Some("0x1234".to_string()),
        event_type: Some("Registered".to_string()),
        agent_id: Some("42".to_string()),
        offset: Some(10),
        limit: Some(50),
        ..Default::default()
    };
    let cloned = query.clone();
    assert_eq!(cloned.chain_id, None);
    assert_eq!(cloned.agent_id, Some("42".to_string()));
    assert_eq!(cloned.category, None);
    assert_eq!(cloned.offset, Some(10));
    assert_eq!(cloned.limit, Some(50));
}
