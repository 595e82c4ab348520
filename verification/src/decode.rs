//! The log decoder: raw logs of the three registry contracts are decoded
//! into the eight event variants. A log is plain bytes — the emitting
//! address, the indexed topics, and the ABI-encoded data section — and the
//! decoding is defined byte by byte: numbers render in decimal, addresses
//! and byte strings as `0x` plus lowercase hex, and text fields must be
//! valid UTF-8.

use vstd::prelude::*;

verus! {

use crate::text::{
    be_val,
    dec_chars,
    hex_0x_chars,
    be_to_dec_string,
    hex_string_0x,
    sub_bytes,
    be_val_u64,
    bytes_eq,
    utf8_to_string,
};
use vstd::utf8::{valid_utf8, decode_utf8};

/// A raw log as the transport hands it over: the emitting contract, the
/// indexed topics (32 bytes each), the data section, and the log's place.
#[derive(Debug)]
pub struct RawLog {
    /// The emitting contract, 20 bytes.
    pub address: Vec<u8>,
    /// The indexed topics; the first is the event's selector.
    pub topics: Vec<Vec<u8>>,
    /// The ABI-encoded data section.
    pub data: Vec<u8>,
    /// The enclosing transaction's hash, 32 bytes.
    pub transaction_hash: Vec<u8>,
    /// The log's position in its transaction.
    pub log_index: u32,
}

/// The event signature selector of an event type, as the contracts emit it
/// in the first topic.
pub open spec fn spec_selector(t: crate::models::EventType) -> Seq<u8> {
    match t {
        crate::models::EventType::Registered => seq![
            0xcau8, 0x52, 0xe6, 0x2c, 0x36, 0x7d, 0x81, 0xbb, 0x2e, 0x32, 0x8e, 0xb7, 0x95, 0xf7,
            0xc7, 0xba, 0x24, 0xaf, 0xb4, 0x78, 0x40, 0x8a, 0x26, 0xc0, 0xe2, 0x01, 0xd1, 0x55,
            0xc4, 0x49, 0xbc, 0x4a,
        ],
        crate::models::EventType::MetadataSet => seq![
            0x2cu8, 0x14, 0x9e, 0xd5, 0x48, 0xc6, 0xd2, 0x99, 0x3c, 0xd7, 0x3e, 0xfe, 0x18, 0x7d,
            0xf6, 0xec, 0xca, 0xbe, 0x45, 0x38, 0x09, 0x1b, 0x33, 0xad, 0xbd, 0x25, 0xfa, 0xfd,
            0xb8, 0xa1, 0x46, 0x8b,
        ],
        crate::models::EventType::UriUpdated => seq![
            0xb4u8, 0x1b, 0xee, 0xf7, 0x5d, 0x9f, 0x8d, 0x55, 0xb9, 0x85, 0x31, 0x9b, 0x45, 0x9e,
            0x96, 0xf8, 0x24, 0x53, 0x58, 0x0a, 0xf3, 0x81, 0x39, 0x1f, 0x1a, 0xd5, 0x31, 0xeb,
            0x8f, 0x8b, 0x5a, 0x3a,
        ],
        crate::models::EventType::NewFeedback => seq![
            0x54u8, 0xb3, 0x25, 0x4e, 0x4c, 0xc0, 0x19, 0x69, 0xe7, 0x03, 0x76, 0xd2, 0x03, 0x90,
            0xcc, 0x2f, 0x6a, 0xf9, 0x05, 0x39, 0xd9, 0xad, 0xaa, 0x78, 0xa5, 0x3e, 0xbc, 0xda,
            0x17, 0xf7, 0x81, 0x54,
        ],
        crate::models::EventType::FeedbackRevoked => seq![
            0xd5u8, 0xe8, 0x81, 0x26, 0x9f, 0x28, 0x38, 0x9f, 0xfd, 0xdb, 0x41, 0xed, 0xd8, 0xdc,
            0xac, 0xe2, 0x49, 0x47, 0x1d, 0x58, 0x66, 0x2b, 0xb4, 0xe0, 0x62, 0xe7, 0x4d, 0x2f,
            0x66, 0x27, 0x78, 0x75,
        ],
        crate::models::EventType::ResponseAppended => seq![
            0xbcu8, 0x21, 0x4e, 0x5e, 0xb2, 0x23, 0x21, 0x9f, 0xf2, 0x43, 0x12, 0xb1, 0x10, 0xe2,
            0x86, 0x44, 0xc6, 0x0e, 0xc7, 0x23, 0xf1, 0xad, 0xc2, 0x0c, 0x6a, 0x74, 0x75, 0x5e,
            0x2b, 0x78, 0x79, 0x10,
        ],
        crate::models::EventType::ValidationRequest => seq![
            0x53u8, 0x04, 0x36, 0xc3, 0x63, 0x4a, 0x98, 0xe1, 0xe6, 0x26, 0xb0, 0x89, 0x8b, 0xe2,
            0xf1, 0xe9, 0x98, 0x0c, 0xc1, 0xbd, 0x2a, 0x78, 0xc0, 0x7a, 0x0a, 0xba, 0x52, 0xd0,
            0xa4, 0x8a, 0x50, 0x59,
        ],
        crate::models::EventType::ValidationResponse => seq![
            0xf2u8, 0x24, 0xd3, 0xd5, 0xad, 0x74, 0x30, 0x1b, 0xe4, 0x8e, 0x4d, 0x51, 0xca, 0x5f,
            0x1b, 0x24, 0xc7, 0x94, 0x68, 0x75, 0x88, 0x73, 0x27, 0x58, 0x5b, 0xec, 0xc5, 0x91,
            0x65, 0x29, 0x7d, 0xcf,
        ],
    }
}

/// The event signature selector, as bytes.
pub fn selector(t: crate::models::EventType) -> (r: Vec<u8>)
    ensures
        r@ == spec_selector(t),
{
    let r: Vec<u8> = match t {
        crate::models::EventType::Registered => vec![
            0xca, 0x52, 0xe6, 0x2c, 0x36, 0x7d, 0x81, 0xbb, 0x2e, 0x32, 0x8e, 0xb7, 0x95, 0xf7,
            0xc7, 0xba, 0x24, 0xaf, 0xb4, 0x78, 0x40, 0x8a, 0x26, 0xc0, 0xe2, 0x01, 0xd1, 0x55,
            0xc4, 0x49, 0xbc, 0x4a,
        ],
        crate::models::EventType::MetadataSet => vec![
            0x2c, 0x14, 0x9e, 0xd5, 0x48, 0xc6, 0xd2, 0x99, 0x3c, 0xd7, 0x3e, 0xfe, 0x18, 0x7d,
            0xf6, 0xec, 0xca, 0xbe, 0x45, 0x38, 0x09, 0x1b, 0x33, 0xad, 0xbd, 0x25, 0xfa, 0xfd,
            0xb8, 0xa1, 0x46, 0x8b,
        ],
        crate::models::EventType::UriUpdated => vec![
            0xb4, 0x1b, 0xee, 0xf7, 0x5d, 0x9f, 0x8d, 0x55, 0xb9, 0x85, 0x31, 0x9b, 0x45, 0x9e,
            0x96, 0xf8, 0x24, 0x53, 0x58, 0x0a, 0xf3, 0x81, 0x39, 0x1f, 0x1a, 0xd5, 0x31, 0xeb,
            0x8f, 0x8b, 0x5a, 0x3a,
        ],
        crate::models::EventType::NewFeedback => vec![
            0x54, 0xb3, 0x25, 0x4e, 0x4c, 0xc0, 0x19, 0x69, 0xe7, 0x03, 0x76, 0xd2, 0x03, 0x90,
            0xcc, 0x2f, 0x6a, 0xf9, 0x05, 0x39, 0xd9, 0xad, 0xaa, 0x78, 0xa5, 0x3e, 0xbc, 0xda,
            0x17, 0xf7, 0x81, 0x54,
        ],
        crate::models::EventType::FeedbackRevoked => vec![
            0xd5, 0xe8, 0x81, 0x26, 0x9f, 0x28, 0x38, 0x9f, 0xfd, 0xdb, 0x41, 0xed, 0xd8, 0xdc,
            0xac, 0xe2, 0x49, 0x47, 0x1d, 0x58, 0x66, 0x2b, 0xb4, 0xe0, 0x62, 0xe7, 0x4d, 0x2f,
            0x66, 0x27, 0x78, 0x75,
        ],
        crate::models::EventType::ResponseAppended => vec![
            0xbc, 0x21, 0x4e, 0x5e, 0xb2, 0x23, 0x21, 0x9f, 0xf2, 0x43, 0x12, 0xb1, 0x10, 0xe2,
            0x86, 0x44, 0xc6, 0x0e, 0xc7, 0x23, 0xf1, 0xad, 0xc2, 0x0c, 0x6a, 0x74, 0x75, 0x5e,
            0x2b, 0x78, 0x79, 0x10,
        ],
        crate::models::EventType::ValidationRequest => vec![
            0x53, 0x04, 0x36, 0xc3, 0x63, 0x4a, 0x98, 0xe1, 0xe6, 0x26, 0xb0, 0x89, 0x8b, 0xe2,
            0xf1, 0xe9, 0x98, 0x0c, 0xc1, 0xbd, 0x2a, 0x78, 0xc0, 0x7a, 0x0a, 0xba, 0x52, 0xd0,
            0xa4, 0x8a, 0x50, 0x59,
        ],
        crate::models::EventType::ValidationResponse => vec![
            0xf2, 0x24, 0xd3, 0xd5, 0xad, 0x74, 0x30, 0x1b, 0xe4, 0x8e, 0x4d, 0x51, 0xca, 0x5f,
            0x1b, 0x24, 0xc7, 0x94, 0x68, 0x75, 0x88, 0x73, 0x27, 0x58, 0x5b, 0xec, 0xc5, 0x91,
            0x65, 0x29, 0x7d, 0xcf,
        ],
    };
    proof {
        assert(r@ =~= spec_selector(t));
    }
    r
}

/// Topics shaped for an event with `n` topics of this selector: the first
/// topic is the selector, the rest are words.
pub open spec fn topics_wf(topics: Seq<Seq<u8>>, n: int, t: crate::models::EventType) -> bool {
    &&& topics.len() == n
    &&& topics[0] == spec_selector(t)
    &&& forall|i: int| 1 <= i < n ==> (#[trigger] topics[i]).len() == 32
}

/// An address in a topic: a word whose first 12 bytes are zero.
pub open spec fn addr_word_ok(w: Seq<u8>) -> bool {
    &&& w.len() == 32
    &&& forall|i: int| 0 <= i < 12 ==> w[i] == 0
}

/// The address an address word holds, rendered `0x` plus lowercase hex.
pub open spec fn addr_chars(w: Seq<u8>) -> Seq<char> {
    hex_0x_chars(w.subrange(12, 32))
}

/// The word in head slot `slot` of a data section.
pub open spec fn spec_word(data: Seq<u8>, slot: int) -> Option<Seq<u8>> {
    if 0 <= slot && data.len() >= 32 * (slot + 1) {
        Some(data.subrange(32 * slot, 32 * slot + 32))
    } else {
        None
    }
}

/// The bytes of the dynamic field whose offset stands in head slot `slot`:
/// the offset word points at a length word followed by that many bytes,
/// all within the data section.
pub open spec fn spec_dyn(data: Seq<u8>, slot: int) -> Option<Seq<u8>> {
    match spec_word(data, slot) {
        None => None,
        Some(w) => {
            let off = be_val(w) as int;
            if off + 32 > data.len() {
                None
            } else {
                let l = be_val(data.subrange(off, off + 32)) as int;
                if off + 32 + l > data.len() {
                    None
                } else {
                    Some(data.subrange(off + 32, off + 32 + l))
                }
            }
        },
    }
}

/// The text of the dynamic string in head slot `slot`; it must decode as
/// UTF-8.
pub open spec fn spec_string(data: Seq<u8>, slot: int) -> Option<Seq<char>> {
    match spec_dyn(data, slot) {
        None => None,
        Some(b) => if valid_utf8(b) {
            Some(decode_utf8(b))
        } else {
            None
        },
    }
}

/// The one-byte number in head slot `slot`; the word's value must fit.
pub open spec fn spec_u8_word(data: Seq<u8>, slot: int) -> Option<u8> {
    match spec_word(data, slot) {
        None => None,
        Some(w) => if be_val(w) < 256 {
            Some(be_val(w) as u8)
        } else {
            None
        },
    }
}

/// The address in head slot `slot`; the word's first 12 bytes must be zero.
pub open spec fn spec_addr_word(data: Seq<u8>, slot: int) -> Option<Seq<u8>> {
    match spec_word(data, slot) {
        None => None,
        Some(w) => if addr_word_ok(w) {
            Some(w)
        } else {
            None
        },
    }
}

/// The word in head slot `slot` of a data section.
pub fn word(data: &Vec<u8>, slot: usize) -> (r: Option<Vec<u8>>)
    requires
        slot < 100,
    ensures
        r is Some <==> spec_word(data@, slot as int) is Some,
        r is Some ==> r->Some_0@ == spec_word(data@, slot as int)->Some_0,
{
    if data.len() >= 32 * (slot + 1) {
        Some(sub_bytes(data, 32 * slot, 32 * slot + 32))
    } else {
        None
    }
}

/// The bytes of the dynamic field whose offset stands in head slot `slot`.
pub fn dyn_bytes(data: &Vec<u8>, slot: usize) -> (r: Option<Vec<u8>>)
    requires
        slot < 100,
    ensures
        r is Some <==> spec_dyn(data@, slot as int) is Some,
        r is Some ==> r->Some_0@ == spec_dyn(data@, slot as int)->Some_0,
{
    let dlen = data.len();
    let w = match word(data, slot) {
        Some(w) => w,
        None => {
            return None;
        },
    };
    let off = match be_val_u64(&w) {
        Some(o) => o,
        None => {
            proof {
                assert(be_val(w@) > u64::MAX);
                assert(data@.len() == dlen as nat);
            }
            return None;
        },
    };
    if off as u128 + 32 > data.len() as u128 {
        return None;
    }
    let off_u: usize = off as usize;
    let lw = sub_bytes(data, off_u, off_u + 32);
    let l = match be_val_u64(&lw) {
        Some(l) => l,
        None => {
            proof {
                assert(be_val(lw@) > u64::MAX);
                assert(data@.len() == dlen as nat);
            }
            return None;
        },
    };
    if off as u128 + 32 + l as u128 > data.len() as u128 {
        return None;
    }
    let l_u: usize = l as usize;
    Some(sub_bytes(data, off_u + 32, off_u + 32 + l_u))
}

/// The text of the dynamic string in head slot `slot`.
pub fn string_field(data: &Vec<u8>, slot: usize) -> (r: Option<String>)
    requires
        slot < 100,
    ensures
        r is Some <==> spec_string(data@, slot as int) is Some,
        r is Some ==> r->Some_0@ == spec_string(data@, slot as int)->Some_0,
{
    match dyn_bytes(data, slot) {
        Some(b) => utf8_to_string(b),
        None => None,
    }
}

/// The one-byte number in head slot `slot`.
pub fn u8_field(data: &Vec<u8>, slot: usize) -> (r: Option<u8>)
    requires
        slot < 100,
    ensures
        r == spec_u8_word(data@, slot as int),
{
    match word(data, slot) {
        Some(w) => match be_val_u64(&w) {
            Some(v) => if v < 256 {
                Some(v as u8)
            } else {
                None
            },
            None => {
                proof {
                    assert(be_val(w@) > u64::MAX);
                }
                None
            },
        },
        None => None,
    }
}

/// Whether a word's first 12 bytes are zero.
pub fn addr_ok(w: &Vec<u8>) -> (r: bool)
    requires
        w@.len() == 32,
    ensures
        r == addr_word_ok(w@),
{
    let mut i: usize = 0;
    while i < 12
        invariant
            0 <= i <= 12,
            w@.len() == 32,
            forall|j: int| 0 <= j < i ==> w@[j] == 0,
        decreases 12 - i,
    {
        if w[i] != 0 {
            return false;
        }
        i += 1;
    }
    true
}

/// The address in head slot `slot`, rendered `0x` plus lowercase hex.
pub fn addr_field(data: &Vec<u8>, slot: usize) -> (r: Option<String>)
    requires
        slot < 100,
    ensures
        r is Some <==> spec_addr_word(data@, slot as int) is Some,
        r is Some ==> r->Some_0@ == addr_chars(spec_addr_word(data@, slot as int)->Some_0),
{
    match word(data, slot) {
        Some(w) => {
            if addr_ok(&w) {
                let tail = sub_bytes(&w, 12, 32);
                Some(hex_string_0x(&tail))
            } else {
                None
            }
        },
        None => None,
    }
}

/// The byte views of a list of topics.
pub open spec fn views(ts: Seq<Vec<u8>>) -> Seq<Seq<u8>> {
    ts.map_values(|t: Vec<u8>| t@)
}

/// A log decodes as `Registered`: selector topic, agent topic, owner
/// address topic, and a token URI string in the data.
pub open spec fn is_registered(tv: Seq<Seq<u8>>, data: Seq<u8>) -> bool {
    &&& topics_wf(tv, 3, crate::models::EventType::Registered)
    &&& addr_word_ok(tv[2])
    &&& spec_string(data, 0) is Some
}

/// A log decodes as `MetadataSet`: selector, agent topic, key-hash topic,
/// and a key string plus value bytes in the data.
pub open spec fn is_metadata_set(tv: Seq<Seq<u8>>, data: Seq<u8>) -> bool {
    &&& topics_wf(tv, 3, crate::models::EventType::MetadataSet)
    &&& spec_string(data, 0) is Some
    &&& spec_dyn(data, 1) is Some
}

/// A log decodes as `UriUpdated`: selector, agent topic, updater address
/// topic, and a URI string in the data.
pub open spec fn is_uri_updated(tv: Seq<Seq<u8>>, data: Seq<u8>) -> bool {
    &&& topics_wf(tv, 3, crate::models::EventType::UriUpdated)
    &&& addr_word_ok(tv[2])
    &&& spec_string(data, 0) is Some
}

/// A log decodes as `NewFeedback`: selector, agent, client address and tag
/// topics, and score, second tag, URI and hash in the data.
pub open spec fn is_new_feedback(tv: Seq<Seq<u8>>, data: Seq<u8>) -> bool {
    &&& topics_wf(tv, 4, crate::models::EventType::NewFeedback)
    &&& addr_word_ok(tv[2])
    &&& spec_u8_word(data, 0) is Some
    &&& spec_word(data, 1) is Some
    &&& spec_string(data, 2) is Some
    &&& spec_word(data, 3) is Some
}

/// A log decodes as `FeedbackRevoked`: selector, agent and client topics,
/// and the feedback index in the data.
pub open spec fn is_feedback_revoked(tv: Seq<Seq<u8>>, data: Seq<u8>) -> bool {
    &&& topics_wf(tv, 3, crate::models::EventType::FeedbackRevoked)
    &&& addr_word_ok(tv[2])
    &&& spec_word(data, 0) is Some
}

/// A log decodes as `ResponseAppended`: selector, agent and client topics,
/// and index, responder address, URI and hash in the data.
pub open spec fn is_response_appended(tv: Seq<Seq<u8>>, data: Seq<u8>) -> bool {
    &&& topics_wf(tv, 3, crate::models::EventType::ResponseAppended)
    &&& addr_word_ok(tv[2])
    &&& spec_word(data, 0) is Some
    &&& spec_addr_word(data, 1) is Some
    &&& spec_string(data, 2) is Some
    &&& spec_word(data, 3) is Some
}

/// A log decodes as `ValidationRequest`: selector, validator address,
/// agent and request-hash topics, and a request URI in the data.
pub open spec fn is_validation_request(tv: Seq<Seq<u8>>, data: Seq<u8>) -> bool {
    &&& topics_wf(tv, 4, crate::models::EventType::ValidationRequest)
    &&& addr_word_ok(tv[1])
    &&& spec_string(data, 0) is Some
}

/// A log decodes as `ValidationResponse`: selector, validator address,
/// agent and request-hash topics, and response, URI, hash and tag in the
/// data.
pub open spec fn is_validation_response(tv: Seq<Seq<u8>>, data: Seq<u8>) -> bool {
    &&& topics_wf(tv, 4, crate::models::EventType::ValidationResponse)
    &&& addr_word_ok(tv[1])
    &&& spec_u8_word(data, 0) is Some
    &&& spec_string(data, 1) is Some
    &&& spec_word(data, 2) is Some
    &&& spec_word(data, 3) is Some
}

/// Checks the topic list's shape for an event with `n` topics.
fn check_topics(topics: &Vec<Vec<u8>>, n: usize, t: crate::models::EventType) -> (r: bool)
    requires
        2 <= n <= 4,
    ensures
        r == topics_wf(views(topics@), n as int, t),
{
    let ghost tv = views(topics@);
    if topics.len() != n {
        return false;
    }
    let sel = selector(t);
    proof {
        assert(tv[0] == topics@[0]@);
    }
    if !bytes_eq(&topics[0], &sel) {
        return false;
    }
    let mut i: usize = 1;
    while i < n
        invariant
            1 <= i <= n,
            topics@.len() == n,
            tv == views(topics@),
            tv[0] == spec_selector(t),
            forall|j: int| 1 <= j < i ==> (#[trigger] tv[j]).len() == 32,
        decreases n - i,
    {
        proof {
            assert(tv[i as int] == topics@[i as int]@);
        }
        if topics[i].len() != 32 {
            return false;
        }
        i += 1;
    }
    true
}

/// The decimal rendering of the number in a topic.
fn topic_dec(t: &Vec<u8>) -> (r: String)
    ensures
        r@ == dec_chars(be_val(t@)),
{
    be_to_dec_string(t)
}

/// The address in a topic, rendered `0x` plus lowercase hex.
fn topic_addr(t: &Vec<u8>) -> (r: String)
    requires
        t@.len() == 32,
    ensures
        r@ == addr_chars(t@),
{
    let tail = sub_bytes(t, 12, 32);
    hex_string_0x(&tail)
}

/// A topic's word, rendered `0x` plus lowercase hex.
fn topic_hex(t: &Vec<u8>) -> (r: String)
    ensures
        r@ == hex_0x_chars(t@),
{
    hex_string_0x(t)
}

/// Decodes a `Registered` payload.
pub fn decode_registered(topics: &Vec<Vec<u8>>, data: &Vec<u8>) -> (r: Option<
    crate::models::RegisteredData,
>)
    ensures
        r is Some <==> is_registered(views(topics@), data@),
        r is Some ==> {
            let tv = views(topics@);
            let d = r->Some_0;
            &&& d.agent_id@ == dec_chars(be_val(tv[1]))
            &&& d.token_uri@ == spec_string(data@, 0)->Some_0
            &&& d.owner@ == addr_chars(tv[2])
        },
{
    let ghost tv = views(topics@);
    if !check_topics(topics, 3, crate::models::EventType::Registered) {
        return None;
    }
    proof {
        assert(tv[1] == topics@[1]@);
        assert(tv[2] == topics@[2]@);
    }
    if !addr_ok(&topics[2]) {
        return None;
    }
    let token_uri = match string_field(data, 0) {
        Some(s) => s,
        None => {
            return None;
        },
    };
    Some(
        crate::models::RegisteredData {
            agent_id: topic_dec(&topics[1]),
            token_uri,
            owner: topic_addr(&topics[2]),
        },
    )
}

/// Decodes a `MetadataSet` payload.
pub fn decode_metadata_set(topics: &Vec<Vec<u8>>, data: &Vec<u8>) -> (r: Option<
    crate::models::MetadataSetData,
>)
    ensures
        r is Some <==> is_metadata_set(views(topics@), data@),
        r is Some ==> {
            let tv = views(topics@);
            let d = r->Some_0;
            &&& d.agent_id@ == dec_chars(be_val(tv[1]))
            &&& d.indexed_key@ == hex_0x_chars(tv[2])
            &&& d.key@ == spec_string(data@, 0)->Some_0
            &&& d.value@ == hex_0x_chars(spec_dyn(data@, 1)->Some_0)
        },
{
    let ghost tv = views(topics@);
    if !check_topics(topics, 3, crate::models::EventType::MetadataSet) {
        return None;
    }
    proof {
        assert(tv[1] == topics@[1]@);
        assert(tv[2] == topics@[2]@);
    }
    let key = match string_field(data, 0) {
        Some(s) => s,
        None => {
            return None;
        },
    };
    let value_bytes = match dyn_bytes(data, 1) {
        Some(b) => b,
        None => {
            return None;
        },
    };
    Some(
        crate::models::MetadataSetData {
            agent_id: topic_dec(&topics[1]),
            indexed_key: topic_hex(&topics[2]),
            key,
            value: hex_string_0x(&value_bytes),
        },
    )
}

/// Decodes a `UriUpdated` payload.
pub fn decode_uri_updated(topics: &Vec<Vec<u8>>, data: &Vec<u8>) -> (r: Option<
    crate::models::UriUpdatedData,
>)
    ensures
        r is Some <==> is_uri_updated(views(topics@), data@),
        r is Some ==> {
            let tv = views(topics@);
            let d = r->Some_0;
            &&& d.agent_id@ == dec_chars(be_val(tv[1]))
            &&& d.new_uri@ == spec_string(data@, 0)->Some_0
            &&& d.updated_by@ == addr_chars(tv[2])
        },
{
    let ghost tv = views(topics@);
    if !check_topics(topics, 3, crate::models::EventType::UriUpdated) {
        return None;
    }
    proof {
        assert(tv[1] == topics@[1]@);
        assert(tv[2] == topics@[2]@);
    }
    if !addr_ok(&topics[2]) {
        return None;
    }
    let new_uri = match string_field(data, 0) {
        Some(s) => s,
        None => {
            return None;
        },
    };
    Some(
        crate::models::UriUpdatedData {
            agent_id: topic_dec(&topics[1]),
            new_uri,
            updated_by: topic_addr(&topics[2]),
        },
    )
}

/// Decodes a `NewFeedback` payload.
pub fn decode_new_feedback(topics: &Vec<Vec<u8>>, data: &Vec<u8>) -> (r: Option<
    crate::models::NewFeedbackData,
>)
    ensures
        r is Some <==> is_new_feedback(views(topics@), data@),
        r is Some ==> {
            let tv = views(topics@);
            let d = r->Some_0;
            &&& d.agent_id@ == dec_chars(be_val(tv[1]))
            &&& d.client@ == addr_chars(tv[2])
            &&& d.score == spec_u8_word(data@, 0)->Some_0
            &&& d.tag1@ == hex_0x_chars(tv[3])
            &&& d.tag2@ == hex_0x_chars(spec_word(data@, 1)->Some_0)
            &&& d.feedback_uri@ == spec_string(data@, 2)->Some_0
            &&& d.feedback_hash@ == hex_0x_chars(spec_word(data@, 3)->Some_0)
        },
{
    let ghost tv = views(topics@);
    if !check_topics(topics, 4, crate::models::EventType::NewFeedback) {
        return None;
    }
    proof {
        assert(tv[1] == topics@[1]@);
        assert(tv[2] == topics@[2]@);
        assert(tv[3] == topics@[3]@);
    }
    if !addr_ok(&topics[2]) {
        return None;
    }
    let score = match u8_field(data, 0) {
        Some(v) => v,
        None => {
            return None;
        },
    };
    let tag2_word = match word(data, 1) {
        Some(w) => w,
        None => {
            return None;
        },
    };
    let feedback_uri = match string_field(data, 2) {
        Some(s) => s,
        None => {
            return None;
        },
    };
    let hash_word = match word(data, 3) {
        Some(w) => w,
        None => {
            return None;
        },
    };
    Some(
        crate::models::NewFeedbackData {
            agent_id: topic_dec(&topics[1]),
            client: topic_addr(&topics[2]),
            score,
            tag1: topic_hex(&topics[3]),
            tag2: hex_string_0x(&tag2_word),
            feedback_uri,
            feedback_hash: hex_string_0x(&hash_word),
        },
    )
}

/// Decodes a `FeedbackRevoked` payload.
pub fn decode_feedback_revoked(topics: &Vec<Vec<u8>>, data: &Vec<u8>) -> (r: Option<
    crate::models::FeedbackRevokedData,
>)
    ensures
        r is Some <==> is_feedback_revoked(views(topics@), data@),
        r is Some ==> {
            let tv = views(topics@);
            let d = r->Some_0;
            &&& d.agent_id@ == dec_chars(be_val(tv[1]))
            &&& d.client@ == addr_chars(tv[2])
            &&& d.feedback_index@ == dec_chars(be_val(spec_word(data@, 0)->Some_0))
        },
{
    let ghost tv = views(topics@);
    if !check_topics(topics, 3, crate::models::EventType::FeedbackRevoked) {
        return None;
    }
    proof {
        assert(tv[1] == topics@[1]@);
        assert(tv[2] == topics@[2]@);
    }
    if !addr_ok(&topics[2]) {
        return None;
    }
    let idx_word = match word(data, 0) {
        Some(w) => w,
        None => {
            return None;
        },
    };
    Some(
        crate::models::FeedbackRevokedData {
            agent_id: topic_dec(&topics[1]),
            client: topic_addr(&topics[2]),
            feedback_index: be_to_dec_string(&idx_word),
        },
    )
}

/// Decodes a `ResponseAppended` payload.
pub fn decode_response_appended(topics: &Vec<Vec<u8>>, data: &Vec<u8>) -> (r: Option<
    crate::models::ResponseAppendedData,
>)
    ensures
        r is Some <==> is_response_appended(views(topics@), data@),
        r is Some ==> {
            let tv = views(topics@);
            let d = r->Some_0;
            &&& d.agent_id@ == dec_chars(be_val(tv[1]))
            &&& d.client@ == addr_chars(tv[2])
            &&& d.feedback_index@ == dec_chars(be_val(spec_word(data@, 0)->Some_0))
            &&& d.responder@ == addr_chars(spec_addr_word(data@, 1)->Some_0)
            &&& d.response_uri@ == spec_string(data@, 2)->Some_0
            &&& d.response_hash@ == hex_0x_chars(spec_word(data@, 3)->Some_0)
        },
{
    let ghost tv = views(topics@);
    if !check_topics(topics, 3, crate::models::EventType::ResponseAppended) {
        return None;
    }
    proof {
        assert(tv[1] == topics@[1]@);
        assert(tv[2] == topics@[2]@);
    }
    if !addr_ok(&topics[2]) {
        return None;
    }
    let idx_word = match word(data, 0) {
        Some(w) => w,
        None => {
            return None;
        },
    };
    let responder = match addr_field(data, 1) {
        Some(s) => s,
        None => {
            return None;
        },
    };
    let response_uri = match string_field(data, 2) {
        Some(s) => s,
        None => {
            return None;
        },
    };
    let hash_word = match word(data, 3) {
        Some(w) => w,
        None => {
            return None;
        },
    };
    Some(
        crate::models::ResponseAppendedData {
            agent_id: topic_dec(&topics[1]),
            client: topic_addr(&topics[2]),
            feedback_index: be_to_dec_string(&idx_word),
            responder,
            response_uri,
            response_hash: hex_string_0x(&hash_word),
        },
    )
}

/// Decodes a `ValidationRequest` payload.
pub fn decode_validation_request(topics: &Vec<Vec<u8>>, data: &Vec<u8>) -> (r: Option<
    crate::models::ValidationRequestData,
>)
    ensures
        r is Some <==> is_validation_request(views(topics@), data@),
        r is Some ==> {
            let tv = views(topics@);
            let d = r->Some_0;
            &&& d.validator_address@ == addr_chars(tv[1])
            &&& d.agent_id@ == dec_chars(be_val(tv[2]))
            &&& d.request_uri@ == spec_string(data@, 0)->Some_0
            &&& d.request_hash@ == hex_0x_chars(tv[3])
        },
{
    let ghost tv = views(topics@);
    if !check_topics(topics, 4, crate::models::EventType::ValidationRequest) {
        return None;
    }
    proof {
        assert(tv[1] == topics@[1]@);
        assert(tv[2] == topics@[2]@);
        assert(tv[3] == topics@[3]@);
    }
    if !addr_ok(&topics[1]) {
        return None;
    }
    let request_uri = match string_field(data, 0) {
        Some(s) => s,
        None => {
            return None;
        },
    };
    Some(
        crate::models::ValidationRequestData {
            validator_address: topic_addr(&topics[1]),
            agent_id: topic_dec(&topics[2]),
            request_uri,
            request_hash: topic_hex(&topics[3]),
        },
    )
}

/// Decodes a `ValidationResponse` payload.
pub fn decode_validation_response(topics: &Vec<Vec<u8>>, data: &Vec<u8>) -> (r: Option<
    crate::models::ValidationResponseData,
>)
    ensures
        r is Some <==> is_validation_response(views(topics@), data@),
        r is Some ==> {
            let tv = views(topics@);
            let d = r->Some_0;
            &&& d.validator_address@ == addr_chars(tv[1])
            &&& d.agent_id@ == dec_chars(be_val(tv[2]))
            &&& d.request_hash@ == hex_0x_chars(tv[3])
            &&& d.response == spec_u8_word(data@, 0)->Some_0
            &&& d.response_uri@ == spec_string(data@, 1)->Some_0
            &&& d.response_hash@ == hex_0x_chars(spec_word(data@, 2)->Some_0)
            &&& d.tag@ == hex_0x_chars(spec_word(data@, 3)->Some_0)
        },
{
    let ghost tv = views(topics@);
    if !check_topics(topics, 4, crate::models::EventType::ValidationResponse) {
        return None;
    }
    proof {
        assert(tv[1] == topics@[1]@);
        assert(tv[2] == topics@[2]@);
        assert(tv[3] == topics@[3]@);
    }
    if !addr_ok(&topics[1]) {
        return None;
    }
    let response = match u8_field(data, 0) {
        Some(v) => v,
        None => {
            return None;
        },
    };
    let response_uri = match string_field(data, 1) {
        Some(s) => s,
        None => {
            return None;
        },
    };
    let hash_word = match word(data, 2) {
        Some(w) => w,
        None => {
            return None;
        },
    };
    let tag_word = match word(data, 3) {
        Some(w) => w,
        None => {
            return None;
        },
    };
    Some(
        crate::models::ValidationResponseData {
            validator_address: topic_addr(&topics[1]),
            agent_id: topic_dec(&topics[2]),
            request_hash: topic_hex(&topics[3]),
            response,
            response_uri,
            response_hash: hex_string_0x(&hash_word),
            tag: topic_hex(&tag_word),
        },
    )
}

} // verus!
