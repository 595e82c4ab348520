//! The indexer's decision core: which registry a log belongs to and what
//! event it carries, how far behind the head the cursor is, which blocks
//! the next iteration syncs, and at what pace. The surrounding task loop
//! performs the fetches and sleeps these decisions call for.

use vstd::prelude::*;

verus! {

use crate::decode::{
    RawLog,
    views,
    is_registered,
    is_metadata_set,
    is_uri_updated,
    is_new_feedback,
    is_feedback_revoked,
    is_response_appended,
    is_validation_request,
    is_validation_response,
    decode_registered,
    decode_metadata_set,
    decode_uri_updated,
    decode_new_feedback,
    decode_feedback_revoked,
    decode_response_appended,
    decode_validation_request,
    decode_validation_response,
    spec_string,
    spec_dyn,
    spec_word,
    spec_u8_word,
    spec_addr_word,
    addr_chars,
};
use crate::models::{Event, EventType, EventData, wf_event, data_agent_id};
use crate::text::{hex_0x_chars, hex_string_0x, dec_chars, be_val};

/// A log from a configured contract that matches none of its event
/// signatures.
#[derive(Clone, Copy, Debug, PartialEq, Eq, Structural)]
pub enum DecodeError {
    UnknownEvent,
}

/// The header fields every decoded event carries from its log.
pub open spec fn event_header_ok(
    e: Event,
    log: RawLog,
    chain_id: u64,
    block_number: u64,
    block_timestamp: i64,
) -> bool {
    &&& e.id is None
    &&& e.created_at is None
    &&& e.chain_id == chain_id
    &&& e.block_number == block_number
    &&& e.block_timestamp == block_timestamp
    &&& e.transaction_hash@ == hex_0x_chars(log.transaction_hash@)
    &&& e.log_index == log.log_index
    &&& e.contract_address@ == hex_0x_chars(log.address@)
    &&& wf_event(e)
}

/// Decodes a log of the identity registry, trying its three event
/// signatures in declared order.
pub fn decode_identity_event(
    log: &RawLog,
    chain_id: u64,
    block_number: u64,
    block_timestamp: i64,
) -> (r: Result<Event, DecodeError>)
    ensures
        ({
            let tv = views(log.topics@);
            let d = log.data@;
            &&& (r is Ok <==> is_registered(tv, d) || is_metadata_set(tv, d) || is_uri_updated(
                tv,
                d,
            ))
            &&& (r is Err ==> r->Err_0 == DecodeError::UnknownEvent)
            &&& (r is Ok ==> event_header_ok(r->Ok_0, *log, chain_id, block_number,
            block_timestamp))
            &&& (is_registered(tv, d) ==> r is Ok && r->Ok_0.event_type == EventType::Registered
                && r->Ok_0.event_data is Registered && {
                let p = r->Ok_0.event_data->Registered_0;
                &&& p.agent_id@ == dec_chars(be_val(tv[1]))
                &&& p.token_uri@ == spec_string(d, 0)->Some_0
                &&& p.owner@ == addr_chars(tv[2])
            })
            &&& (!is_registered(tv, d) && is_metadata_set(tv, d) ==> r is Ok
                && r->Ok_0.event_type == EventType::MetadataSet && r->Ok_0.event_data
                is MetadataSet && {
                let p = r->Ok_0.event_data->MetadataSet_0;
                &&& p.agent_id@ == dec_chars(be_val(tv[1]))
                &&& p.indexed_key@ == hex_0x_chars(tv[2])
                &&& p.key@ == spec_string(d, 0)->Some_0
                &&& p.value@ == hex_0x_chars(spec_dyn(d, 1)->Some_0)
            })
            &&& (!is_registered(tv, d) && !is_metadata_set(tv, d) && is_uri_updated(tv, d) ==> r
                is Ok && r->Ok_0.event_type == EventType::UriUpdated && r->Ok_0.event_data
                is UriUpdated && {
                let p = r->Ok_0.event_data->UriUpdated_0;
                &&& p.agent_id@ == dec_chars(be_val(tv[1]))
                &&& p.new_uri@ == spec_string(d, 0)->Some_0
                &&& p.updated_by@ == addr_chars(tv[2])
            })
        }),
{
    if let Some(p) = decode_registered(&log.topics, &log.data) {
        return Ok(
            Event {
                id: None,
                chain_id,
                block_number,
                block_timestamp,
                transaction_hash: hex_string_0x(&log.transaction_hash),
                log_index: log.log_index,
                contract_address: hex_string_0x(&log.address),
                event_type: EventType::Registered,
                event_data: EventData::Registered(p),
                created_at: None,
            },
        );
    }
    if let Some(p) = decode_metadata_set(&log.topics, &log.data) {
        return Ok(
            Event {
                id: None,
                chain_id,
                block_number,
                block_timestamp,
                transaction_hash: hex_string_0x(&log.transaction_hash),
                log_index: log.log_index,
                contract_address: hex_string_0x(&log.address),
                event_type: EventType::MetadataSet,
                event_data: EventData::MetadataSet(p),
                created_at: None,
            },
        );
    }
    if let Some(p) = decode_uri_updated(&log.topics, &log.data) {
        return Ok(
            Event {
                id: None,
                chain_id,
                block_number,
                block_timestamp,
                transaction_hash: hex_string_0x(&log.transaction_hash),
                log_index: log.log_index,
                contract_address: hex_string_0x(&log.address),
                event_type: EventType::UriUpdated,
                event_data: EventData::UriUpdated(p),
                created_at: None,
            },
        );
    }
    Err(DecodeError::UnknownEvent)
}

/// Decodes a log of the reputation registry, trying its three event
/// signatures in declared order.
pub fn decode_reputation_event(
    log: &RawLog,
    chain_id: u64,
    block_number: u64,
    block_timestamp: i64,
) -> (r: Result<Event, DecodeError>)
    ensures
        ({
            let tv = views(log.topics@);
            let d = log.data@;
            &&& (r is Ok <==> is_new_feedback(tv, d) || is_feedback_revoked(tv, d)
                || is_response_appended(tv, d))
            &&& (r is Err ==> r->Err_0 == DecodeError::UnknownEvent)
            &&& (r is Ok ==> event_header_ok(r->Ok_0, *log, chain_id, block_number,
            block_timestamp))
            &&& (is_new_feedback(tv, d) ==> r is Ok && r->Ok_0.event_type
                == EventType::NewFeedback && r->Ok_0.event_data is NewFeedback && {
                let p = r->Ok_0.event_data->NewFeedback_0;
                &&& p.agent_id@ == dec_chars(be_val(tv[1]))
                &&& p.client@ == addr_chars(tv[2])
                &&& p.score == spec_u8_word(d, 0)->Some_0
                &&& p.tag1@ == hex_0x_chars(tv[3])
                &&& p.tag2@ == hex_0x_chars(spec_word(d, 1)->Some_0)
                &&& p.feedback_uri@ == spec_string(d, 2)->Some_0
                &&& p.feedback_hash@ == hex_0x_chars(spec_word(d, 3)->Some_0)
            })
            &&& (!is_new_feedback(tv, d) && is_feedback_revoked(tv, d) ==> r is Ok
                && r->Ok_0.event_type == EventType::FeedbackRevoked && r->Ok_0.event_data
                is FeedbackRevoked && {
                let p = r->Ok_0.event_data->FeedbackRevoked_0;
                &&& p.agent_id@ == dec_chars(be_val(tv[1]))
                &&& p.client@ == addr_chars(tv[2])
                &&& p.feedback_index@ == dec_chars(be_val(spec_word(d, 0)->Some_0))
            })
            &&& (!is_new_feedback(tv, d) && !is_feedback_revoked(tv, d) && is_response_appended(
                tv,
                d,
            ) ==> r is Ok && r->Ok_0.event_type == EventType::ResponseAppended
                && r->Ok_0.event_data is ResponseAppended && {
                let p = r->Ok_0.event_data->ResponseAppended_0;
                &&& p.agent_id@ == dec_chars(be_val(tv[1]))
                &&& p.client@ == addr_chars(tv[2])
                &&& p.feedback_index@ == dec_chars(be_val(spec_word(d, 0)->Some_0))
                &&& p.responder@ == addr_chars(spec_addr_word(d, 1)->Some_0)
                &&& p.response_uri@ == spec_string(d, 2)->Some_0
                &&& p.response_hash@ == hex_0x_chars(spec_word(d, 3)->Some_0)
            })
        }),
{
    if let Some(p) = decode_new_feedback(&log.topics, &log.data) {
        return Ok(
            Event {
                id: None,
                chain_id,
                block_number,
                block_timestamp,
                transaction_hash: hex_string_0x(&log.transaction_hash),
                log_index: log.log_index,
                contract_address: hex_string_0x(&log.address),
                event_type: EventType::NewFeedback,
                event_data: EventData::NewFeedback(p),
                created_at: None,
            },
        );
    }
    if let Some(p) = decode_feedback_revoked(&log.topics, &log.data) {
        return Ok(
            Event {
                id: None,
                chain_id,
                block_number,
                block_timestamp,
                transaction_hash: hex_string_0x(&log.transaction_hash),
                log_index: log.log_index,
                contract_address: hex_string_0x(&log.address),
                event_type: EventType::FeedbackRevoked,
                event_data: EventData::FeedbackRevoked(p),
                created_at: None,
            },
        );
    }
    if let Some(p) = decode_response_appended(&log.topics, &log.data) {
        return Ok(
            Event {
                id: None,
                chain_id,
                block_number,
                block_timestamp,
                transaction_hash: hex_string_0x(&log.transaction_hash),
                log_index: log.log_index,
                contract_address: hex_string_0x(&log.address),
                event_type: EventType::ResponseAppended,
                event_data: EventData::ResponseAppended(p),
                created_at: None,
            },
        );
    }
    Err(DecodeError::UnknownEvent)
}

/// Decodes a log of the validation registry, trying its two event
/// signatures in declared order.
pub fn decode_validation_event(
    log: &RawLog,
    chain_id: u64,
    block_number: u64,
    block_timestamp: i64,
) -> (r: Result<Event, DecodeError>)
    ensures
        ({
            let tv = views(log.topics@);
            let d = log.data@;
            &&& (r is Ok <==> is_validation_request(tv, d) || is_validation_response(tv, d))
            &&& (r is Err ==> r->Err_0 == DecodeError::UnknownEvent)
            &&& (r is Ok ==> event_header_ok(r->Ok_0, *log, chain_id, block_number,
            block_timestamp))
            &&& (is_validation_request(tv, d) ==> r is Ok && r->Ok_0.event_type
                == EventType::ValidationRequest && r->Ok_0.event_data is ValidationRequest && {
                let p = r->Ok_0.event_data->ValidationRequest_0;
                &&& p.validator_address@ == addr_chars(tv[1])
                &&& p.agent_id@ == dec_chars(be_val(tv[2]))
                &&& p.request_uri@ == spec_string(d, 0)->Some_0
                &&& p.request_hash@ == hex_0x_chars(tv[3])
            })
            &&& (!is_validation_request(tv, d) && is_validation_response(tv, d) ==> r is Ok
                && r->Ok_0.event_type == EventType::ValidationResponse && r->Ok_0.event_data
                is ValidationResponse && {
                let p = r->Ok_0.event_data->ValidationResponse_0;
                &&& p.validator_address@ == addr_chars(tv[1])
                &&& p.agent_id@ == dec_chars(be_val(tv[2]))
                &&& p.request_hash@ == hex_0x_chars(tv[3])
                &&& p.response == spec_u8_word(d, 0)->Some_0
                &&& p.response_uri@ == spec_string(d, 1)->Some_0
                &&& p.response_hash@ == hex_0x_chars(spec_word(d, 2)->Some_0)
                &&& p.tag@ == hex_0x_chars(spec_word(d, 3)->Some_0)
            })
        }),
{
    if let Some(p) = decode_validation_request(&log.topics, &log.data) {
        return Ok(
            Event {
                id: None,
                chain_id,
                block_number,
                block_timestamp,
                transaction_hash: hex_string_0x(&log.transaction_hash),
                log_index: log.log_index,
                contract_address: hex_string_0x(&log.address),
                event_type: EventType::ValidationRequest,
                event_data: EventData::ValidationRequest(p),
                created_at: None,
            },
        );
    }
    if let Some(p) = decode_validation_response(&log.topics, &log.data) {
        return Ok(
            Event {
                id: None,
                chain_id,
                block_number,
                block_timestamp,
                transaction_hash: hex_string_0x(&log.transaction_hash),
                log_index: log.log_index,
                contract_address: hex_string_0x(&log.address),
                event_type: EventType::ValidationResponse,
                event_data: EventData::ValidationResponse(p),
                created_at: None,
            },
        );
    }
    Err(DecodeError::UnknownEvent)
}

/// Dispatches a log to the registry that emitted it and decodes it there.
/// A log from an unconfigured address carries no event; one from a
/// configured address that matches no signature is an error (logged and
/// skipped by the caller, without failing the block).
pub fn process_log(
    log: &RawLog,
    cfg: &crate::config::IndexerConfig,
    block_number: u64,
    block_timestamp: i64,
) -> (r: Result<Option<Event>, DecodeError>)
    ensures
        ({
            let tv = views(log.topics@);
            let d = log.data@;
            &&& (log.address@ != cfg.identity_registry@ && log.address@
                != cfg.reputation_registry@ && log.address@ != cfg.validation_registry@ ==> r
                == Ok::<Option<Event>, DecodeError>(None))
            &&& (log.address@ == cfg.identity_registry@ ==> (r is Ok <==> is_registered(tv, d)
                || is_metadata_set(tv, d) || is_uri_updated(tv, d)))
            &&& (log.address@ != cfg.identity_registry@ && log.address@
                == cfg.reputation_registry@ ==> (r is Ok <==> is_new_feedback(tv, d)
                || is_feedback_revoked(tv, d) || is_response_appended(tv, d)))
            &&& (log.address@ != cfg.identity_registry@ && log.address@
                != cfg.reputation_registry@ && log.address@ == cfg.validation_registry@ ==> (r
                is Ok <==> is_validation_request(tv, d) || is_validation_response(tv, d)))
            &&& ((log.address@ == cfg.identity_registry@ || log.address@
                == cfg.reputation_registry@ || log.address@ == cfg.validation_registry@) && r
                is Ok ==> r->Ok_0 is Some && event_header_ok(
                r->Ok_0->Some_0,
                *log,
                cfg.chain_id,
                block_number,
                block_timestamp,
            ))
            // the agent identifier the queries filter on comes from the
            // agent topic: the second for the two identity-keyed
            // registries, the third for the validation registry
            &&& ((log.address@ == cfg.identity_registry@ || log.address@
                != cfg.identity_registry@ && log.address@ == cfg.reputation_registry@) && r is Ok
                ==> data_agent_id(r->Ok_0->Some_0.event_data) == dec_chars(be_val(tv[1])))
            &&& (log.address@ != cfg.identity_registry@ && log.address@
                != cfg.reputation_registry@ && log.address@ == cfg.validation_registry@ && r is Ok
                ==> data_agent_id(r->Ok_0->Some_0.event_data) == dec_chars(be_val(tv[2])))
        }),
{
    if crate::text::bytes_eq(&log.address, &cfg.identity_registry) {
        match decode_identity_event(log, cfg.chain_id, block_number, block_timestamp) {
            Ok(e) => Ok(Some(e)),
            Err(e) => Err(e),
        }
    } else if crate::text::bytes_eq(&log.address, &cfg.reputation_registry) {
        match decode_reputation_event(log, cfg.chain_id, block_number, block_timestamp) {
            Ok(e) => Ok(Some(e)),
            Err(e) => Err(e),
        }
    } else if crate::text::bytes_eq(&log.address, &cfg.validation_registry) {
        match decode_validation_event(log, cfg.chain_id, block_number, block_timestamp) {
            Ok(e) => Ok(Some(e)),
            Err(e) => Err(e),
        }
    } else {
        Ok(None)
    }
}

/// What one iteration of the indexing loop does next.
#[derive(Clone, Copy, Debug, PartialEq, Eq, Structural)]
pub enum SyncPlan {
    /// Caught up: sleep one poll interval.
    Wait,
    /// Near real time: sync the cursor's block alone.
    Single { block: u64 },
    /// Behind: sync the inclusive range, paced between blocks while only
    /// moderately behind.
    Batch { from: u64, to: u64, paced: bool },
}

/// The plan of one iteration, from the cursor, the chain head, and the
/// configured batch size: caught up waits; up to ten blocks behind syncs
/// one block; up to one hundred behind syncs a paced batch; further behind
/// syncs up to one hundred blocks at full speed.
pub open spec fn spec_plan(current_block: u64, latest_block: u64, batch_size: u64) -> SyncPlan {
    let behind = latest_block as int - current_block as int;
    if behind <= 0 {
        SyncPlan::Wait
    } else if behind <= 10 {
        SyncPlan::Single { block: current_block }
    } else if behind <= 100 {
        SyncPlan::Batch {
            from: current_block,
            to: if current_block as int + batch_size as int <= latest_block as int {
                (current_block + batch_size) as u64
            } else {
                latest_block
            },
            paced: true,
        }
    } else {
        SyncPlan::Batch {
            from: current_block,
            to: if current_block as int + 100 <= latest_block as int {
                (current_block + 100) as u64
            } else {
                latest_block
            },
            paced: false,
        }
    }
}

/// The plan of one iteration of the indexing loop.
pub fn plan_iteration(current_block: u64, latest_block: u64, batch_size: u64) -> (r: SyncPlan)
    ensures
        r == spec_plan(current_block, latest_block, batch_size),
{
    if latest_block <= current_block {
        return SyncPlan::Wait;
    }
    let behind = latest_block - current_block;
    if behind <= 10 {
        SyncPlan::Single { block: current_block }
    } else if behind <= 100 {
        let to = if batch_size <= behind {
            current_block + batch_size
        } else {
            latest_block
        };
        SyncPlan::Batch { from: current_block, to, paced: true }
    } else {
        SyncPlan::Batch { from: current_block, to: current_block + 100, paced: false }
    }
}

/// The polling interval under adaptive polling, in milliseconds: the
/// configured interval when caught up, half of it when up to ten blocks
/// behind, a fifth when up to one hundred behind, and one hundred
/// milliseconds when further behind.
pub open spec fn spec_adaptive_interval(blocks_behind: u64, poll_interval_ms: u64) -> int {
    if blocks_behind == 0 {
        poll_interval_ms as int
    } else if blocks_behind <= 10 {
        poll_interval_ms as int / 2
    } else if blocks_behind <= 100 {
        poll_interval_ms as int / 5
    } else {
        100
    }
}

/// The polling interval under adaptive polling.
pub fn calculate_adaptive_interval(blocks_behind: u64, poll_interval_ms: u64) -> (r: u64)
    ensures
        r as int == spec_adaptive_interval(blocks_behind, poll_interval_ms),
{
    if blocks_behind == 0 {
        poll_interval_ms
    } else if blocks_behind <= 10 {
        poll_interval_ms / 2
    } else if blocks_behind <= 100 {
        poll_interval_ms / 5
    } else {
        100
    }
}

/// The boot cursor: a recorded cursor above one resumes one block earlier,
/// replaying the last synced block (idempotent storage makes the replay
/// safe); otherwise indexing starts at the configured block, whose zero
/// stands for the chain head.
pub open spec fn spec_resume_block(last_synced: u64, starting_block: u64) -> u64 {
    if last_synced > 1 {
        (last_synced - 1) as u64
    } else {
        starting_block
    }
}

/// The boot cursor after reading the chain's recorded progress.
pub fn resume_block(last_synced: u64, starting_block: u64) -> (r: u64)
    ensures
        r == spec_resume_block(last_synced, starting_block),
{
    if last_synced > 1 {
        last_synced - 1
    } else {
        starting_block
    }
}

/// The cursor after a plan succeeds: one past what was synced.
pub open spec fn spec_next_cursor(plan: SyncPlan, current_block: u64) -> int {
    match plan {
        SyncPlan::Wait => current_block as int,
        SyncPlan::Single { block } => block as int + 1,
        SyncPlan::Batch { from, to, paced } => to as int + 1,
    }
}

/// The cursor after a plan succeeds.
pub fn next_cursor(plan: &SyncPlan, current_block: u64) -> (r: u64)
    requires
        spec_next_cursor(*plan, current_block) <= u64::MAX,
    ensures
        r as int == spec_next_cursor(*plan, current_block),
{
    match plan {
        SyncPlan::Wait => current_block,
        SyncPlan::Single { block } => *block + 1,
        SyncPlan::Batch { from, to, paced } => *to + 1,
    }
}

/// The cursor after `n` single-block syncs starting at `k`.
pub open spec fn cursor_after_syncs(k: int, n: nat) -> int
    decreases n,
{
    if n == 0 {
        k
    } else {
        cursor_after_syncs(k, (n - 1) as nat) + 1
    }
}

/// Cursor monotonicity: each successful single-block sync advances the
/// recorded cursor by exactly one, so after `n` of them from `k` the
/// cursor reads `k + n`.
pub proof fn lemma_cursor_after_syncs(k: int, n: nat)
    ensures
        cursor_after_syncs(k, n) == k + n,
    decreases n,
{
    if n > 0 {
        lemma_cursor_after_syncs(k, (n - 1) as nat);
    }
}

} // verus!
