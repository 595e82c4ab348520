//! The event model: the eight registry event variants, the persisted event
//! record, and the query form the read API accepts.

use vstd::prelude::*;

verus! {

use crate::text::{chain_ids_of_chars, ascii_lower_chars};

/// The kind of registry event, one per event signature the three contracts
/// emit.
#[derive(Clone, Copy, Debug, PartialEq, Eq, Structural)]
pub enum EventType {
    Registered,
    MetadataSet,
    UriUpdated,
    NewFeedback,
    FeedbackRevoked,
    ResponseAppended,
    ValidationRequest,
    ValidationResponse,
}

/// The name under which an event type is persisted and queried.
pub open spec fn event_type_name(t: EventType) -> Seq<char> {
    match t {
        EventType::Registered => "Registered"@,
        EventType::MetadataSet => "MetadataSet"@,
        EventType::UriUpdated => "UriUpdated"@,
        EventType::NewFeedback => "NewFeedback"@,
        EventType::FeedbackRevoked => "FeedbackRevoked"@,
        EventType::ResponseAppended => "ResponseAppended"@,
        EventType::ValidationRequest => "ValidationRequest"@,
        EventType::ValidationResponse => "ValidationResponse"@,
    }
}

impl EventType {
    /// The persisted name of this event type.
    pub fn as_str(&self) -> (r: &'static str)
        ensures
            r@ == event_type_name(*self),
    {
        match self {
            EventType::Registered => "Registered",
            EventType::MetadataSet => "MetadataSet",
            EventType::UriUpdated => "UriUpdated",
            EventType::NewFeedback => "NewFeedback",
            EventType::FeedbackRevoked => "FeedbackRevoked",
            EventType::ResponseAppended => "ResponseAppended",
            EventType::ValidationRequest => "ValidationRequest",
            EventType::ValidationResponse => "ValidationResponse",
        }
    }
}

/// Payload of a `Registered` event.
#[derive(Debug)]
pub struct RegisteredData {
    pub agent_id: String,
    pub token_uri: String,
    pub owner: String,
}

/// Payload of a `MetadataSet` event.
#[derive(Debug)]
pub struct MetadataSetData {
    pub agent_id: String,
    pub indexed_key: String,
    pub key: String,
    pub value: String,
}

/// Payload of a `UriUpdated` event.
#[derive(Debug)]
pub struct UriUpdatedData {
    pub agent_id: String,
    pub new_uri: String,
    pub updated_by: String,
}

/// Payload of a `NewFeedback` event.
#[derive(Debug)]
pub struct NewFeedbackData {
    pub agent_id: String,
    pub client: String,
    pub score: u8,
    pub tag1: String,
    pub tag2: String,
    pub feedback_uri: String,
    pub feedback_hash: String,
}

/// Payload of a `FeedbackRevoked` event.
#[derive(Debug)]
pub struct FeedbackRevokedData {
    pub agent_id: String,
    pub client: String,
    pub feedback_index: String,
}

/// Payload of a `ResponseAppended` event.
#[derive(Debug)]
pub struct ResponseAppendedData {
    pub agent_id: String,
    pub client: String,
    pub feedback_index: String,
    pub responder: String,
    pub response_uri: String,
    pub response_hash: String,
}

/// Payload of a `ValidationRequest` event.
#[derive(Debug)]
pub struct ValidationRequestData {
    pub validator_address: String,
    pub agent_id: String,
    pub request_uri: String,
    pub request_hash: String,
}

/// Payload of a `ValidationResponse` event.
#[derive(Debug)]
pub struct ValidationResponseData {
    pub validator_address: String,
    pub agent_id: String,
    pub request_hash: String,
    pub response: u8,
    pub response_uri: String,
    pub response_hash: String,
    pub tag: String,
}

/// The tagged payload of an event; its variant must agree with the event's
/// `event_type`.
#[derive(Debug)]
pub enum EventData {
    Registered(RegisteredData),
    MetadataSet(MetadataSetData),
    UriUpdated(UriUpdatedData),
    NewFeedback(NewFeedbackData),
    FeedbackRevoked(FeedbackRevokedData),
    ResponseAppended(ResponseAppendedData),
    ValidationRequest(ValidationRequestData),
    ValidationResponse(ValidationResponseData),
}

/// The event type a payload variant belongs to.
pub open spec fn data_event_type(d: EventData) -> EventType {
    match d {
        EventData::Registered(_) => EventType::Registered,
        EventData::MetadataSet(_) => EventType::MetadataSet,
        EventData::UriUpdated(_) => EventType::UriUpdated,
        EventData::NewFeedback(_) => EventType::NewFeedback,
        EventData::FeedbackRevoked(_) => EventType::FeedbackRevoked,
        EventData::ResponseAppended(_) => EventType::ResponseAppended,
        EventData::ValidationRequest(_) => EventType::ValidationRequest,
        EventData::ValidationResponse(_) => EventType::ValidationResponse,
    }
}

/// The agent identifier a payload carries.
pub open spec fn data_agent_id(d: EventData) -> Seq<char> {
    match d {
        EventData::Registered(x) => x.agent_id@,
        EventData::MetadataSet(x) => x.agent_id@,
        EventData::UriUpdated(x) => x.agent_id@,
        EventData::NewFeedback(x) => x.agent_id@,
        EventData::FeedbackRevoked(x) => x.agent_id@,
        EventData::ResponseAppended(x) => x.agent_id@,
        EventData::ValidationRequest(x) => x.agent_id@,
        EventData::ValidationResponse(x) => x.agent_id@,
    }
}

/// One persisted registry event. Timestamps are Unix seconds.
#[derive(Debug)]
pub struct Event {
    pub id: Option<i64>,
    pub chain_id: u64,
    pub block_number: u64,
    pub block_timestamp: i64,
    pub transaction_hash: String,
    pub log_index: u32,
    pub contract_address: String,
    pub event_type: EventType,
    pub event_data: EventData,
    pub created_at: Option<i64>,
}

/// The unique key of an event: chain, transaction, and position in it.
pub open spec fn event_key(e: Event) -> (u64, Seq<char>, u32) {
    (e.chain_id, e.transaction_hash@, e.log_index)
}

/// A well-formed event: the payload variant agrees with the event type.
pub open spec fn wf_event(e: Event) -> bool {
    data_event_type(e.event_data) == e.event_type
}

/// Counts of stored events per category.
#[derive(Debug)]
pub struct CategoryStats {
    pub all: i64,
    pub agents: i64,
    pub capabilities: i64,
    pub metadata: i64,
    pub validation: i64,
    pub feedback: i64,
    pub payments: i64,
}

/// A configured chain joined with its sync state, as the read API reports it.
#[derive(Debug)]
pub struct ChainInfo {
    pub chain_id: u64,
    pub name: String,
    pub rpc_url: String,
    pub identity_registry: String,
    pub reputation_registry: String,
    pub validation_registry: String,
    pub last_synced_block: Option<u64>,
    pub status: Option<String>,
    pub error_message: Option<String>,
    pub total_events_indexed: Option<u64>,
    pub errors_last_hour: Option<u32>,
    pub last_sync_time: Option<i64>,
}

/// The persisted per-chain sync progress row.
#[derive(Debug)]
pub struct ChainSyncState {
    pub chain_id: u64,
    pub last_synced_block: u64,
    pub last_sync_time: i64,
    pub status: String,
    pub error_message: Option<String>,
    pub total_events_indexed: u64,
    pub errors_last_hour: u32,
}

/// Filter parameters of the read API.
#[derive(Debug)]
pub struct EventQuery {
    /// Comma-separated chain ids; absent means all chains.
    pub chain_id: Option<String>,
    /// Only blocks within this distance of the highest stored block.
    pub blocks: Option<u64>,
    /// Only events whose timestamp lies within this many hours of now;
    /// takes precedence over `blocks` when both are set.
    pub hours: Option<u64>,
    /// Contract address, compared ignoring ASCII case.
    pub contract: Option<String>,
    /// Exact event type name.
    pub event_type: Option<String>,
    /// Exact agent identifier inside the payload.
    pub agent_id: Option<String>,
    /// Coarse category name, expanded to a set of event types.
    pub category: Option<String>,
    /// Whether the response should carry category statistics.
    pub include_stats: bool,
    /// Pagination: rows to skip.
    pub offset: Option<i64>,
    /// Pagination: row limit.
    pub limit: Option<i64>,
}

impl Default for EventQuery {
    /// The default query: all chains, the last 100 blocks, at most 1000 rows.
    fn default() -> (r: Self)
        ensures
            r.chain_id is None,
            r.blocks == Some(100u64),
            r.hours is None,
            r.contract is None,
            r.event_type is None,
            r.agent_id is None,
            r.category is None,
            !r.include_stats,
            r.offset is None,
            r.limit == Some(1000i64),
    {
        EventQuery {
            chain_id: None,
            blocks: Some(100),
            hours: None,
            contract: None,
            event_type: None,
            agent_id: None,
            category: None,
            include_stats: false,
            offset: None,
            limit: Some(1000),
        }
    }
}

/// The category view of a query.
pub open spec fn query_category(q: EventQuery) -> Option<Seq<char>> {
    match q.category {
        Some(c) => Some(c@),
        None => None,
    }
}

/// The event type names a category expands to: `None` means no filter,
/// an empty set means no row can match.
pub open spec fn category_event_types(cat: Option<Seq<char>>) -> Option<Seq<Seq<char>>> {
    match cat {
        None => None,
        Some(c) => if c == "agents"@ {
            Some(seq!["Registered"@])
        } else if c == "metadata"@ {
            Some(seq!["MetadataSet"@, "UriUpdated"@])
        } else if c == "validation"@ {
            Some(seq!["ValidationRequest"@, "ValidationResponse"@])
        } else if c == "feedback"@ {
            Some(seq!["NewFeedback"@, "FeedbackRevoked"@, "ResponseAppended"@])
        } else if c == "all"@ {
            None
        } else {
            Some(Seq::<Seq<char>>::empty())
        },
    }
}

/// Compares the characters of two strings.
pub fn str_eq(a: &str, b: &str) -> (r: bool)
    ensures
        r == (a@ == b@),
{
    let ca = crate::text::str_chars(a);
    let cb = crate::text::str_chars(b);
    if ca.len() != cb.len() {
        return false;
    }
    let mut i: usize = 0;
    while i < ca.len()
        invariant
            0 <= i <= ca@.len(),
            ca@ == a@,
            cb@ == b@,
            ca@.len() == cb@.len(),
            forall|j: int| 0 <= j < i ==> a@[j] == b@[j],
        decreases ca@.len() - i,
    {
        if ca[i] != cb[i] {
            return false;
        }
        i += 1;
    }
    proof {
        assert(a@ =~= b@);
    }
    true
}

impl EventQuery {
    /// The chain ids the query names: absent when no `chain_id` filter was
    /// given, else the parsed comma-separated list.
    pub fn parse_chain_ids(&self) -> (r: Option<Vec<u64>>)
        ensures
            r is Some <==> self.chain_id is Some,
            r is Some ==> r->Some_0@ == chain_ids_of_chars(self.chain_id->Some_0@),
    {
        match &self.chain_id {
            Some(ids) => Some(crate::text::parse_chain_id_list(ids.as_str())),
            None => None,
        }
    }

    /// The event type names the query's category expands to; `None` means
    /// the category places no restriction.
    pub fn event_types_for_category(&self) -> (r: Option<Vec<&'static str>>)
        ensures
            r is Some <==> category_event_types(query_category(*self)) is Some,
            r is Some ==> r->Some_0@.map_values(|t: &'static str| t@) == category_event_types(
                query_category(*self),
            )->Some_0,
    {
        match &self.category {
            None => None,
            Some(c) => {
                let cs = c.as_str();
                if str_eq(cs, "agents") {
                    let r: Vec<&'static str> = vec!["Registered"];
                    proof {
                        assert(r@.map_values(|t: &'static str| t@) =~= seq!["Registered"@]);
                    }
                    Some(r)
                } else if str_eq(cs, "metadata") {
                    let r: Vec<&'static str> = vec!["MetadataSet", "UriUpdated"];
                    proof {
                        assert(r@.map_values(|t: &'static str| t@) =~= seq![
                            "MetadataSet"@,
                            "UriUpdated"@,
                        ]);
                    }
                    Some(r)
                } else if str_eq(cs, "validation") {
                    let r: Vec<&'static str> = vec!["ValidationRequest", "ValidationResponse"];
                    proof {
                        assert(r@.map_values(|t: &'static str| t@) =~= seq![
                            "ValidationRequest"@,
                            "ValidationResponse"@,
                        ]);
                    }
                    Some(r)
                } else if str_eq(cs, "feedback") {
                    let r: Vec<&'static str> = vec![
                        "NewFeedback",
                        "FeedbackRevoked",
                        "ResponseAppended",
                    ];
                    proof {
                        assert(r@.map_values(|t: &'static str| t@) =~= seq![
                            "NewFeedback"@,
                            "FeedbackRevoked"@,
                            "ResponseAppended"@,
                        ]);
                    }
                    Some(r)
                } else if str_eq(cs, "all") {
                    None
                } else {
                    let r: Vec<&'static str> = Vec::new();
                    proof {
                        assert(r@.map_values(|t: &'static str| t@) =~= Seq::<Seq<char>>::empty());
                    }
                    Some(r)
                }
            },
        }
    }
}


impl Clone for RegisteredData {
    /// An identical copy.
    fn clone(&self) -> (res: Self)
        ensures
            res == *self,
    {
        RegisteredData {
            agent_id: self.agent_id.clone(),
            token_uri: self.token_uri.clone(),
            owner: self.owner.clone(),
        }
    }
}

impl Clone for MetadataSetData {
    /// An identical copy.
    fn clone(&self) -> (res: Self)
        ensures
            res == *self,
    {
        MetadataSetData {
            agent_id: self.agent_id.clone(),
            indexed_key: self.indexed_key.clone(),
            key: self.key.clone(),
            value: self.value.clone(),
        }
    }
}

impl Clone for UriUpdatedData {
    /// An identical copy.
    fn clone(&self) -> (res: Self)
        ensures
            res == *self,
    {
        UriUpdatedData {
            agent_id: self.agent_id.clone(),
            new_uri: self.new_uri.clone(),
            updated_by: self.updated_by.clone(),
        }
    }
}

impl Clone for NewFeedbackData {
    /// An identical copy.
    fn clone(&self) -> (res: Self)
        ensures
            res == *self,
    {
        NewFeedbackData {
            agent_id: self.agent_id.clone(),
            client: self.client.clone(),
            score: self.score,
            tag1: self.tag1.clone(),
            tag2: self.tag2.clone(),
            feedback_uri: self.feedback_uri.clone(),
            feedback_hash: self.feedback_hash.clone(),
        }
    }
}

impl Clone for FeedbackRevokedData {
    /// An identical copy.
    fn clone(&self) -> (res: Self)
        ensures
            res == *self,
    {
        FeedbackRevokedData {
            agent_id: self.agent_id.clone(),
            client: self.client.clone(),
            feedback_index: self.feedback_index.clone(),
        }
    }
}

impl Clone for ResponseAppendedData {
    /// An identical copy.
    fn clone(&self) -> (res: Self)
        ensures
            res == *self,
    {
        ResponseAppendedData {
            agent_id: self.agent_id.clone(),
            client: self.client.clone(),
            feedback_index: self.feedback_index.clone(),
            responder: self.responder.clone(),
            response_uri: self.response_uri.clone(),
            response_hash: self.response_hash.clone(),
        }
    }
}

impl Clone for ValidationRequestData {
    /// An identical copy.
    fn clone(&self) -> (res: Self)
        ensures
            res == *self,
    {
        ValidationRequestData {
            validator_address: self.validator_address.clone(),
            agent_id: self.agent_id.clone(),
            request_uri: self.request_uri.clone(),
            request_hash: self.request_hash.clone(),
        }
    }
}

impl Clone for ValidationResponseData {
    /// An identical copy.
    fn clone(&self) -> (res: Self)
        ensures
            res == *self,
    {
        ValidationResponseData {
            validator_address: self.validator_address.clone(),
            agent_id: self.agent_id.clone(),
            request_hash: self.request_hash.clone(),
            response: self.response,
            response_uri: self.response_uri.clone(),
            response_hash: self.response_hash.clone(),
            tag: self.tag.clone(),
        }
    }
}

impl Clone for EventData {
    /// An identical copy.
    fn clone(&self) -> (res: Self)
        ensures
            res == *self,
    {
        match self {
            EventData::Registered(x) => EventData::Registered(x.clone()),
            EventData::MetadataSet(x) => EventData::MetadataSet(x.clone()),
            EventData::UriUpdated(x) => EventData::UriUpdated(x.clone()),
            EventData::NewFeedback(x) => EventData::NewFeedback(x.clone()),
            EventData::FeedbackRevoked(x) => EventData::FeedbackRevoked(x.clone()),
            EventData::ResponseAppended(x) => EventData::ResponseAppended(x.clone()),
            EventData::ValidationRequest(x) => EventData::ValidationRequest(x.clone()),
            EventData::ValidationResponse(x) => EventData::ValidationResponse(x.clone()),
        }
    }
}

impl Clone for Event {
    /// An identical copy.
    fn clone(&self) -> (res: Self)
        ensures
            res == *self,
    {
        Event {
            id: self.id,
            chain_id: self.chain_id,
            block_number: self.block_number,
            block_timestamp: self.block_timestamp,
            transaction_hash: self.transaction_hash.clone(),
            log_index: self.log_index,
            contract_address: self.contract_address.clone(),
            event_type: self.event_type.clone(),
            event_data: self.event_data.clone(),
            created_at: self.created_at,
        }
    }
}

impl Clone for ChainSyncState {
    /// An identical copy.
    fn clone(&self) -> (res: Self)
        ensures
            res == *self,
    {
        ChainSyncState {
            chain_id: self.chain_id,
            last_synced_block: self.last_synced_block,
            last_sync_time: self.last_sync_time,
            status: self.status.clone(),
            error_message: match &self.error_message {
                Some(m) => Some(m.clone()),
                None => None,
            },
            total_events_indexed: self.total_events_indexed,
            errors_last_hour: self.errors_last_hour,
        }
    }
}

impl Clone for EventQuery {
    /// An identical copy.
    fn clone(&self) -> (res: Self)
        ensures
            res == *self,
    {
        EventQuery {
            chain_id: match &self.chain_id {
                Some(s) => Some(s.clone()),
                None => None,
            },
            blocks: self.blocks,
            hours: self.hours,
            contract: match &self.contract {
                Some(s) => Some(s.clone()),
                None => None,
            },
            event_type: match &self.event_type {
                Some(s) => Some(s.clone()),
                None => None,
            },
            agent_id: match &self.agent_id {
                Some(s) => Some(s.clone()),
                None => None,
            },
            category: match &self.category {
                Some(s) => Some(s.clone()),
                None => None,
            },
            include_stats: self.include_stats,
            offset: self.offset,
            limit: self.limit,
        }
    }
}

} // verus!
