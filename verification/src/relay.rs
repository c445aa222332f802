//! The relay's messages: how they are framed, and what each one calls for.

use vstd::prelude::*;
use vstd::slice::slice_subrange;
use vstd::string::*;

use crate::digest::{base64_decode, base64_decoded, base64_encode, base64_encoded};
use crate::json::{json_bytes, json_error, json_normal, json_parsed, put, Json, JsonV};
use crate::keyed::{StrMap, VecMap};
use crate::text::str_eq;
use crate::types::{DsperseSubmission, RwrSubmission};

verus! {

pub const MSG_AUTH_CHALLENGE: u8 = 0x01;

pub const MSG_AUTH_RESPONSE: u8 = 0x02;

pub const MSG_AUTH_SUCCESS: u8 = 0x03;

pub const MSG_SUBMIT: u8 = 0x10;

pub const MSG_SUBMIT_RESULT: u8 = 0x11;

pub const MSG_STATUS_REQ: u8 = 0x20;

pub const MSG_STATUS_RESULT: u8 = 0x21;

pub const MSG_PROOF_REQ: u8 = 0x30;

pub const MSG_PROOF_RESULT: u8 = 0x31;

pub const MSG_BATCH_DONE: u8 = 0x40;

pub const MSG_ERROR: u8 = 0xFE;

pub const FRAME_SUBMIT_RESULT: u8 = MSG_SUBMIT_RESULT;

pub const FRAME_PROOF_RESULT: u8 = MSG_PROOF_RESULT;

/// The code of a reply to a request that names what it asks for badly.
pub const INVALID_PARAMS: i64 = -32602;

/// The code of a reply while there is no room for the request.
pub const BUSY: i64 = 20;

/// The code of a reply that concerns a run nobody knows.
pub const NOT_FOUND: i64 = 11;

/// The code with which the relay closes a connection that a newer one replaces.
pub const CLOSE_SUPERSEDED: u16 = 4000;

/// A frame that is too short to be one.
#[derive(Clone, Copy, Debug, PartialEq, Eq, Structural)]
pub struct FrameTooShort;

/// Four bytes as a number, the highest byte first.
pub open spec fn be32(b: Seq<u8>) -> int {
    b[0] * 0x1000000 + b[1] * 0x10000 + b[2] * 0x100 + b[3]
}

/// A number as four bytes, the highest byte first.
pub open spec fn be32_bytes(n: u32) -> Seq<u8> {
    seq![
        (n / 0x1000000) as u8,
        (n / 0x10000 % 0x100) as u8,
        (n / 0x100 % 0x100) as u8,
        (n % 0x100) as u8,
    ]
}

/// A message: its type, the number of the request, and what it carries.
pub open spec fn frame(msg_type: u8, req_id: u32, payload: Seq<u8>) -> Seq<u8> {
    seq![msg_type] + be32_bytes(req_id) + payload
}

fn read_be32(b: &[u8], at: usize) -> (n: u32)
    requires
        at + 4 <= b@.len(),
    ensures
        n == be32(b@.subrange(at as int, at + 4)),
{
    proof {
        let s = b@.subrange(at as int, at + 4);
        assert(s[0] == b@[at as int] && s[1] == b@[at + 1] && s[2] == b@[at + 2] && s[3] == b@[at
            + 3]);
    }
    b[at] as u32 * 0x1000000 + b[at + 1] as u32 * 0x10000 + b[at + 2] as u32 * 0x100 + b[at + 3] as u32
}

/// Takes a message apart.
pub fn decode_frame(data: &[u8]) -> (r: Result<(u8, u32, &[u8]), FrameTooShort>)
    ensures
        match r {
            Ok((t, id, payload)) => {
                &&& data@.len() >= 5
                &&& t == data@[0]
                &&& id == be32(data@.subrange(1, 5))
                &&& payload@ == data@.skip(5)
            },
            Err(_) => data@.len() < 5,
        },
{
    if data.len() < 5 {
        return Err(FrameTooShort);
    }
    let payload = slice_subrange(data, 5, data.len());
    proof {
        assert(payload@ =~= data@.skip(5));
    }
    Ok((data[0], read_be32(data, 1), payload))
}

/// Puts a message together.
pub fn encode_frame(msg_type: u8, req_id: u32, payload: &[u8]) -> (r: Vec<u8>)
    ensures
        r@ == frame(msg_type, req_id, payload@),
{
    let mut buf: Vec<u8> = Vec::new();
    buf.push(msg_type);
    buf.push((req_id / 0x1000000) as u8);
    buf.push((req_id / 0x10000 % 0x100) as u8);
    buf.push((req_id / 0x100 % 0x100) as u8);
    buf.push((req_id % 0x100) as u8);
    let ghost head = buf@;
    buf.extend_from_slice(payload);
    proof {
        assert(head =~= seq![msg_type] + be32_bytes(req_id));
        assert(buf@ =~= head + payload@);
        assert(buf@ =~= frame(msg_type, req_id, payload@));
    }
    buf
}

/// What was put together is taken apart into the same pieces.
pub proof fn frame_reads_back(msg_type: u8, req_id: u32, payload: Seq<u8>)
    ensures
        frame(msg_type, req_id, payload).len() >= 5,
        frame(msg_type, req_id, payload)[0] == msg_type,
        be32(frame(msg_type, req_id, payload).subrange(1, 5)) == req_id,
        frame(msg_type, req_id, payload).skip(5) == payload,
{
    let f = frame(msg_type, req_id, payload);
    let b = be32_bytes(req_id);
    assert(f.subrange(1, 5) =~= b);
    assert(be32(b) == req_id) by {
        let n = req_id as int;
        assert(n / 0x1000000 < 0x100);
        assert((n / 0x10000) / 0x100 == n / 0x1000000);
        assert((n / 0x100) / 0x100 == n / 0x10000);
        assert(n / 0x10000 == (n / 0x1000000) * 0x100 + n / 0x10000 % 0x100);
        assert(n / 0x100 == (n / 0x10000) * 0x100 + n / 0x100 % 0x100);
        assert(n == (n / 0x100) * 0x100 + n % 0x100);
    }
    assert(f.skip(5) =~= payload);
}

/// What was taken apart is put together into the same bytes.
pub proof fn frame_writes_back(data: Seq<u8>)
    requires
        data.len() >= 5,
    ensures
        0 <= be32(data.subrange(1, 5)) <= u32::MAX,
        frame(data[0], be32(data.subrange(1, 5)) as u32, data.skip(5)) == data,
{
    let s = data.subrange(1, 5);
    let n = be32(s);
    assert(s[0] == data[1] && s[1] == data[2] && s[2] == data[3] && s[3] == data[4]);
    assert(0 <= n <= u32::MAX);
    assert(n / 0x1000000 == s[0]);
    assert(n / 0x10000 == s[0] * 0x100 + s[1]);
    assert(n / 0x100 == s[0] * 0x10000 + s[1] * 0x100 + s[2]);
    assert(n % 0x100 == s[3]);
    assert((n / 0x100) % 0x100 == s[2]);
    assert((n / 0x10000) % 0x100 == s[1]);
    assert(be32_bytes(n as u32) =~= s);
    assert(frame(data[0], n as u32, data.skip(5)) =~= data);
}

/// What is wrong with what a request for a run carries.
#[derive(Clone, Copy, Debug, PartialEq, Eq, Structural)]
pub enum SubmitPayloadError {
    TooShort,
    LengthOverflow,
    Truncated,
    BadMeta,
}

impl SubmitPayloadError {
    /// How the error is worded.
    pub open spec fn wording(self) -> Seq<char> {
        match self {
            SubmitPayloadError::TooShort => "submit payload too short"@,
            SubmitPayloadError::LengthOverflow => "submit payload meta length overflow"@,
            SubmitPayloadError::Truncated => "submit payload meta truncated"@,
            SubmitPayloadError::BadMeta => "parsing submit meta"@,
        }
    }

    /// How the error is worded.
    pub fn text(self) -> (r: &'static str)
        ensures
            r@ == self.wording(),
    {
        match self {
            SubmitPayloadError::TooShort => "submit payload too short",
            SubmitPayloadError::LengthOverflow => "submit payload meta length overflow",
            SubmitPayloadError::Truncated => "submit payload meta truncated",
            SubmitPayloadError::BadMeta => "parsing submit meta",
        }
    }
}

/// What a request for a run carries: the length of a JSON text, the text and,
/// behind it, a tensor.
pub open spec fn submit_payload(p: Seq<u8>) -> Result<(JsonV, Option<Seq<u8>>), SubmitPayloadError> {
    if p.len() < 4 {
        Err(SubmitPayloadError::TooShort)
    } else {
        let end = 4 + be32(p.subrange(0, 4));
        if end > usize::MAX {
            Err(SubmitPayloadError::LengthOverflow)
        } else if p.len() < end {
            Err(SubmitPayloadError::Truncated)
        } else {
            match json_parsed(p.subrange(4, end)) {
                None => Err(SubmitPayloadError::BadMeta),
                Some(meta) => Ok(
                    (
                        meta,
                        if p.len() > end {
                            Some(p.skip(end))
                        } else {
                            None
                        },
                    ),
                ),
            }
        }
    }
}

/// Takes apart what a request for a run carries.
pub fn decode_submit_payload(payload: &[u8]) -> (r: Result<
    (Json, Option<&[u8]>),
    SubmitPayloadError,
>)
    ensures
        match r {
            Ok((meta, tensor)) => submit_payload(payload@) == Ok::<
                (JsonV, Option<Seq<u8>>),
                SubmitPayloadError,
            >(
                (
                    meta@,
                    match tensor {
                        Some(t) => Some(t@),
                        None => None,
                    },
                ),
            ),
            Err(e) => submit_payload(payload@) == Err::<
                (JsonV, Option<Seq<u8>>),
                SubmitPayloadError,
            >(e),
        },
{
    if payload.len() < 4 {
        return Err(SubmitPayloadError::TooShort);
    }
    let meta_len: usize = read_be32(payload, 0) as usize;
    let meta_end: usize = match 4usize.checked_add(meta_len) {
        Some(e) => e,
        None => {
            return Err(SubmitPayloadError::LengthOverflow);
        },
    };
    if payload.len() < meta_end {
        return Err(SubmitPayloadError::Truncated);
    }
    let text = slice_subrange(payload, 4, meta_end);
    match Json::parse(text) {
        Err(_) => Err(SubmitPayloadError::BadMeta),
        Ok(meta) => {
            let tensor = if payload.len() > meta_end {
                let t = slice_subrange(payload, meta_end, payload.len());
                proof {
                    assert(t@ =~= payload@.skip(meta_end as int));
                }
                Some(t)
            } else {
                None
            };
            Ok((meta, tensor))
        },
    }
}

/// The circuit and the inputs that a request names; without inputs, an object of
/// no members.
pub open spec fn circuit_payload(meta: JsonV) -> Option<(Seq<char>, JsonV)> {
    match meta.member("circuit_id"@) {
        Some(v) => match v.text() {
            Some(id) => Some(
                (
                    id,
                    match meta.member("inputs"@) {
                        Some(i) => i,
                        None => JsonV::Object(Map::empty()),
                    },
                ),
            ),
            None => None,
        },
        None => None,
    }
}

/// The circuit and the inputs that a request names.
pub fn parse_circuit_payload(meta: &Json) -> (r: Option<(String, Json)>)
    ensures
        match r {
            Some((id, inputs)) => circuit_payload(meta@) == Some((id@, inputs@)),
            None => circuit_payload(meta@) is None,
        },
{
    match meta.get("circuit_id") {
        Some(v) => match v.as_str() {
            Some(id) => {
                let inputs = match meta.get("inputs") {
                    Some(i) => i.copy(),
                    None => {
                        let list: Vec<(String, Json)> = Vec::new();
                        proof {
                            crate::json::lemma_members_empty(list@);
                        }
                        Json::Object(list)
                    },
                };
                Some((id.to_owned(), inputs))
            },
            None => None,
        },
        None => None,
    }
}

/// A message that carries JSON.
pub open spec fn json_frame(msg_type: u8, req_id: u32, v: JsonV) -> Seq<u8> {
    frame(msg_type, req_id, json_bytes(json_normal(v)))
}

/// A message that carries JSON.
pub fn send_result(msg_type: u8, req_id: u32, result: &Json) -> (r: Vec<u8>)
    ensures
        r@ == json_frame(msg_type, req_id, result@),
{
    let payload = result.to_bytes();
    encode_frame(msg_type, req_id, payload.as_slice())
}

/// What a reply with an error carries.
pub open spec fn error_json(code: i64, message: Seq<char>) -> JsonV {
    JsonV::Object(
        Map::empty().insert("code"@, JsonV::Int(code as int)).insert("message"@, JsonV::Text(message)),
    )
}

/// A reply with an error.
pub open spec fn error_frame(req_id: u32, code: i64, message: Seq<char>) -> Seq<u8> {
    json_frame(MSG_ERROR, req_id, error_json(code, message))
}

/// A reply with an error.
pub fn send_error(req_id: u32, code: i64, message: &str) -> (r: Vec<u8>)
    ensures
        r@ == error_frame(req_id, code, message@),
{
    let mut list: Vec<(String, Json)> = Vec::new();
    proof {
        crate::json::lemma_members_empty(list@);
    }
    put(&mut list, "code", Json::Negative(code));
    put(&mut list, "message", Json::Text(message.to_owned()));
    send_result(MSG_ERROR, req_id, &Json::Object(list))
}

/// The message that tells the relay of an event, by the event's name.
pub fn send_notification(method: &str, params: &Json) -> (r: Option<Vec<u8>>)
    ensures
        match r {
            Some(f) => method@ == "subnet-2.batch_completed"@ && f@ == json_frame(
                MSG_BATCH_DONE,
                0,
                params@,
            ),
            None => method@ != "subnet-2.batch_completed"@,
        },
{
    if str_eq(method, "subnet-2.batch_completed") {
        Some(send_result(MSG_BATCH_DONE, 0, params))
    } else {
        None
    }
}

/// The number of a request that waits for an answer; zero stands for none.
pub open spec fn awaited(req_id: u32) -> Option<u32> {
    if req_id > 0 {
        Some(req_id)
    } else {
        None
    }
}

/// The results that customers may ask for: a result that is not there yet is
/// still being worked on.
pub struct PendingRequests {
    results: StrMap<Option<Json>>,
}

/// What an optional value means.
pub open spec fn result_view(r: Option<Json>) -> Option<JsonV> {
    match r {
        Some(j) => Some(j@),
        None => None,
    }
}

impl View for PendingRequests {
    type V = Map<Seq<char>, Option<JsonV>>;

    closed spec fn view(&self) -> Map<Seq<char>, Option<JsonV>> {
        self.results@.map_values(|r: Option<Json>| result_view(r))
    }
}

/// What a message calls for.
#[derive(Debug)]
pub enum RelayAction {
    /// A run is to be started.
    Submit(DsperseSubmission),
    /// A proof is to be made.
    Prove(RwrSubmission),
    /// A reply is to be sent.
    Reply(Vec<u8>),
    /// A reply is to be sent; once it is, the result can be forgotten.
    Deliver { reply: Vec<u8>, run_uid: String },
    /// Nothing is to be done.
    Ignore,
}

/// The reply while there is no room for a request.
pub open spec fn busy_frame(req_id: u32) -> Seq<u8> {
    error_frame(req_id, BUSY, "Server busy, try again later"@)
}

/// The reply while there is no room for a request.
pub fn busy_reply(req_id: u32) -> (r: Vec<u8>)
    ensures
        r@ == busy_frame(req_id),
{
    send_error(req_id, BUSY, "Server busy, try again later")
}

/// Whether a reply is the given one.
pub open spec fn replies(a: RelayAction, f: Seq<u8>) -> bool {
    a matches RelayAction::Reply(r) && r@ == f
}

/// What a request for a run calls for.
pub open spec fn submit_calls_for(req_id: u32, payload: Seq<u8>, permit: bool, a: RelayAction) -> bool {
    if !permit {
        replies(a, busy_frame(req_id))
    } else {
        match submit_payload(payload) {
            Err(e) => replies(
                a,
                error_frame(req_id, INVALID_PARAMS, "Invalid payload: "@ + e.wording()),
            ),
            Ok((meta, tensor)) => match circuit_payload(meta) {
                None => replies(a, error_frame(req_id, INVALID_PARAMS, "Missing circuit_id"@)),
                Some((id, inputs)) => {
                    &&& a matches RelayAction::Submit(s)
                    &&& s.circuit_id@ == id
                    &&& s.inputs@ == inputs
                    &&& s.request_id == awaited(req_id)
                    &&& match tensor {
                        Some(t) => s.tensor_data matches Some(d) && d@ == t,
                        None => s.tensor_data is None,
                    }
                },
            },
        }
    }
}

/// Decides what a request for a run calls for. `permit` says whether there is
/// room for another run.
pub fn handle_submit(req_id: u32, payload: &[u8], permit: bool) -> (a: RelayAction)
    ensures
        submit_calls_for(req_id, payload@, permit, a),
{
    if !permit {
        return RelayAction::Reply(busy_reply(req_id));
    }
    match decode_submit_payload(payload) {
        Err(e) => {
            let text = "Invalid payload: ".to_owned().concat(e.text());
            RelayAction::Reply(send_error(req_id, INVALID_PARAMS, text.as_str()))
        },
        Ok((meta, tensor)) => match parse_circuit_payload(&meta) {
            None => RelayAction::Reply(send_error(req_id, INVALID_PARAMS, "Missing circuit_id")),
            Some((circuit_id, inputs)) => {
                let tensor_data = match tensor {
                    Some(t) => Some(vstd::slice::slice_to_vec(t)),
                    None => None,
                };
                RelayAction::Submit(
                    DsperseSubmission {
                        circuit_id,
                        inputs,
                        tensor_data,
                        request_id: if req_id > 0 {
                            Some(req_id)
                        } else {
                            None
                        },
                    },
                )
            },
        },
    }
}

/// What a request for a proof calls for.
pub open spec fn proof_calls_for(req_id: u32, payload: Seq<u8>, a: RelayAction) -> bool {
    match json_parsed(payload) {
        None => replies(
            a,
            error_frame(req_id, INVALID_PARAMS, "Invalid proof payload: "@ + json_error(payload)),
        ),
        Some(meta) => match circuit_payload(meta) {
            None => replies(a, error_frame(req_id, INVALID_PARAMS, "Missing circuit_id"@)),
            Some((id, inputs)) => {
                &&& a matches RelayAction::Prove(s)
                &&& s.circuit_id@ == id
                &&& s.inputs@ == inputs
                &&& s.request_id == awaited(req_id)
                &&& s.retry_count == 0
            },
        },
    }
}

/// Decides what a request for a proof calls for.
pub fn handle_proof_req(req_id: u32, payload: &[u8]) -> (a: RelayAction)
    ensures
        proof_calls_for(req_id, payload@, a),
{
    match Json::parse(payload) {
        Err(e) => {
            let text = "Invalid proof payload: ".to_owned().concat(e.as_str());
            RelayAction::Reply(send_error(req_id, INVALID_PARAMS, text.as_str()))
        },
        Ok(meta) => match parse_circuit_payload(&meta) {
            None => RelayAction::Reply(send_error(req_id, INVALID_PARAMS, "Missing circuit_id")),
            Some((circuit_id, inputs)) => RelayAction::Prove(
                RwrSubmission {
                    circuit_id,
                    inputs,
                    request_id: if req_id > 0 {
                        Some(req_id)
                    } else {
                        None
                    },
                    retry_count: 0,
                },
            ),
        },
    }
}

/// What is told of a run that is still being worked on.
pub open spec fn processing_json(run_uid: Seq<char>) -> JsonV {
    JsonV::Object(
        Map::empty().insert("run_uid"@, JsonV::Text(run_uid)).insert(
            "status"@,
            JsonV::Text("processing"@),
        ),
    )
}

/// The run that a question is about.
pub open spec fn asked_run(meta: JsonV) -> Option<Seq<char>> {
    match meta.member("run_uid"@) {
        Some(v) => v.text(),
        None => None,
    }
}

/// What a question about a run calls for.
pub open spec fn status_calls_for(
    pending: Map<Seq<char>, Option<JsonV>>,
    req_id: u32,
    payload: Seq<u8>,
    a: RelayAction,
) -> bool {
    match json_parsed(payload) {
        None => replies(
            a,
            error_frame(req_id, INVALID_PARAMS, "Invalid status payload: "@ + json_error(payload)),
        ),
        Some(meta) => match asked_run(meta) {
            None => replies(a, error_frame(req_id, INVALID_PARAMS, "Missing run_uid"@)),
            Some(run) => if !pending.contains_key(run) {
                replies(a, error_frame(req_id, NOT_FOUND, "Run not found"@))
            } else {
                match pending[run] {
                    None => replies(
                        a,
                        json_frame(MSG_STATUS_RESULT, req_id, processing_json(run)),
                    ),
                    Some(result) => {
                        &&& a matches RelayAction::Deliver { reply, run_uid }
                        &&& reply@ == json_frame(MSG_STATUS_RESULT, req_id, result)
                        &&& run_uid@ == run
                    },
                }
            },
        },
    }
}

/// What a message calls for.
pub open spec fn message_calls_for(
    pending: Map<Seq<char>, Option<JsonV>>,
    msg_type: u8,
    req_id: u32,
    payload: Seq<u8>,
    permit: bool,
    a: RelayAction,
) -> bool {
    if msg_type == MSG_SUBMIT {
        submit_calls_for(req_id, payload, permit, a)
    } else if msg_type == MSG_PROOF_REQ {
        proof_calls_for(req_id, payload, a)
    } else if msg_type == MSG_STATUS_REQ {
        status_calls_for(pending, req_id, payload, a)
    } else {
        a is Ignore
    }
}

impl PendingRequests {
    /// Nothing has been asked for.
    pub fn new() -> (p: Self)
        ensures
            p@ == Map::<Seq<char>, Option<JsonV>>::empty(),
    {
        let p = PendingRequests { results: VecMap::new() };
        proof {
            assert(p@ =~= Map::empty());
        }
        p
    }

    /// Something is being worked on, and can be asked for from now on.
    pub fn register_pending(&mut self, hash: &str)
        ensures
            final(self)@ == old(self)@.insert(hash@, None),
    {
        self.results.insert(hash.to_owned(), None);
        proof {
            assert(self@ =~= old(self)@.insert(hash@, None));
        }
    }

    /// Something is no longer to be had.
    pub fn remove_pending(&mut self, hash: &str)
        ensures
            final(self)@ == old(self)@.remove(hash@),
    {
        self.results.remove(hash);
        proof {
            assert(self@ =~= old(self)@.remove(hash@));
        }
    }

    /// The result of something that was asked for is there. One that nobody
    /// asked for is dropped.
    pub fn set_request_result(&mut self, request_hash: &str, result: Json)
        ensures
            final(self)@ == (if old(self)@.contains_key(request_hash@) {
                old(self)@.insert(request_hash@, Some(result@))
            } else {
                old(self)@
            }),
    {
        if self.results.contains_key(request_hash) {
            self.results.insert(request_hash.to_owned(), Some(result));
            proof {
                assert(self@ =~= old(self)@.insert(request_hash@, Some(result@)));
            }
        }
    }

    /// Decides what a question about a run calls for.
    pub fn handle_status_req(&self, req_id: u32, payload: &[u8]) -> (a: RelayAction)
        ensures
            status_calls_for(self@, req_id, payload@, a),
    {
        match Json::parse(payload) {
            Err(e) => {
                let text = "Invalid status payload: ".to_owned().concat(e.as_str());
                RelayAction::Reply(send_error(req_id, INVALID_PARAMS, text.as_str()))
            },
            Ok(meta) => {
                let run: Option<&str> = match meta.get("run_uid") {
                    Some(v) => v.as_str(),
                    None => None,
                };
                match run {
                    None => RelayAction::Reply(send_error(req_id, INVALID_PARAMS, "Missing run_uid")),
                    Some(run_uid) => match self.results.get(run_uid) {
                        None => RelayAction::Reply(send_error(req_id, NOT_FOUND, "Run not found")),
                        Some(Some(result)) => RelayAction::Deliver {
                            reply: send_result(MSG_STATUS_RESULT, req_id, result),
                            run_uid: run_uid.to_owned(),
                        },
                        Some(None) => {
                            let mut list: Vec<(String, Json)> = Vec::new();
                            proof {
                                crate::json::lemma_members_empty(list@);
                            }
                            put(&mut list, "run_uid", Json::Text(run_uid.to_owned()));
                            put(&mut list, "status", Json::Text("processing".to_owned()));
                            RelayAction::Reply(
                                send_result(MSG_STATUS_RESULT, req_id, &Json::Object(list)),
                            )
                        },
                    },
                }
            },
        }
    }

    /// Decides what a message calls for.
    pub fn handle_binary_message(
        &self,
        msg_type: u8,
        req_id: u32,
        payload: &[u8],
        permit: bool,
    ) -> (a: RelayAction)
        ensures
            message_calls_for(self@, msg_type, req_id, payload@, permit, a),
    {
        if msg_type == MSG_SUBMIT {
            handle_submit(req_id, payload, permit)
        } else if msg_type == MSG_PROOF_REQ {
            handle_proof_req(req_id, payload)
        } else if msg_type == MSG_STATUS_REQ {
            self.handle_status_req(req_id, payload)
        } else {
            RelayAction::Ignore
        }
    }
}

/// How a connection ended.
#[derive(Clone, Copy, Debug, PartialEq, Eq, Structural)]
pub enum ConnectionEnd {
    /// A newer connection replaced it.
    Superseded,
    Closed,
    Failed,
}

/// What follows the end of a connection.
#[derive(Clone, Copy, Debug, PartialEq, Eq, Structural)]
pub enum Reconnect {
    Never,
    AtOnce,
    /// After so many seconds.
    After(u64),
}

/// What follows the end of a connection, and the wait before the next attempt
/// after that. A clean end starts the waits over; each failure doubles the wait
/// as far as the limit.
pub fn reconnect(end: ConnectionEnd, backoff: u64, base: u64, max: u64) -> (r: (Reconnect, u64))
    requires
        backoff * 2 <= u64::MAX,
    ensures
        match end {
            ConnectionEnd::Superseded => r.0 == Reconnect::Never && r.1 == backoff,
            ConnectionEnd::Closed => r.0 == Reconnect::AtOnce && r.1 == base,
            ConnectionEnd::Failed => r.0 == Reconnect::After(backoff) && r.1 == (if backoff * 2
                <= max {
                backoff * 2
            } else {
                max as int
            }),
        },
{
    match end {
        ConnectionEnd::Superseded => (Reconnect::Never, backoff),
        ConnectionEnd::Closed => (Reconnect::AtOnce, base),
        ConnectionEnd::Failed => {
            let twice: u64 = backoff * 2;
            (
                Reconnect::After(backoff),
                if twice <= max {
                    twice
                } else {
                    max
                },
            )
        },
    }
}

/// How a connection ended that was closed with a code.
pub fn closed_with(code: Option<u16>) -> (r: ConnectionEnd)
    ensures
        r == (if code == Some(CLOSE_SUPERSEDED) {
            ConnectionEnd::Superseded
        } else {
            ConnectionEnd::Closed
        }),
{
    match code {
        Some(c) => if c == CLOSE_SUPERSEDED {
            ConnectionEnd::Superseded
        } else {
            ConnectionEnd::Closed
        },
        None => ConnectionEnd::Closed,
    }
}

/// Why the relay is not trusted.
#[derive(Clone, Copy, Debug, PartialEq, Eq, Structural)]
pub enum AuthError {
    BadFrame,
    UnexpectedType(u8),
    BadJson,
    MissingChallenge,
    BadBase64,
}

/// The challenge that a message poses.
pub open spec fn challenge_in(data: Seq<u8>) -> Result<Seq<u8>, AuthError> {
    if data.len() < 5 {
        Err(AuthError::BadFrame)
    } else if data[0] != MSG_AUTH_CHALLENGE {
        Err(AuthError::UnexpectedType(data[0]))
    } else {
        match json_parsed(data.skip(5)) {
            None => Err(AuthError::BadJson),
            Some(msg) => match msg.member("challenge"@) {
                None => Err(AuthError::MissingChallenge),
                Some(v) => match v.text() {
                    None => Err(AuthError::MissingChallenge),
                    Some(t) => match base64_decoded(t) {
                        None => Err(AuthError::BadBase64),
                        Some(b) => Ok(b),
                    },
                },
            },
        }
    }
}

/// The challenge that a message poses.
pub fn auth_challenge(data: &[u8]) -> (r: Result<Vec<u8>, AuthError>)
    ensures
        match r {
            Ok(b) => challenge_in(data@) == Ok::<Seq<u8>, AuthError>(b@),
            Err(e) => challenge_in(data@) == Err::<Seq<u8>, AuthError>(e),
        },
{
    match decode_frame(data) {
        Err(_) => Err(AuthError::BadFrame),
        Ok((msg_type, _, payload)) => {
            if msg_type != MSG_AUTH_CHALLENGE {
                return Err(AuthError::UnexpectedType(msg_type));
            }
            match Json::parse(payload) {
                Err(_) => Err(AuthError::BadJson),
                Ok(msg) => match msg.get("challenge") {
                    None => Err(AuthError::MissingChallenge),
                    Some(v) => match v.as_str() {
                        None => Err(AuthError::MissingChallenge),
                        Some(t) => match base64_decode(t) {
                            None => Err(AuthError::BadBase64),
                            Some(b) => Ok(b),
                        },
                    },
                },
            }
        },
    }
}

/// The answer to a challenge: who answers, and the signature.
pub open spec fn auth_response_json(ss58: Seq<char>, signature: Seq<u8>) -> JsonV {
    JsonV::Object(
        Map::empty().insert("ss58"@, JsonV::Text(ss58)).insert(
            "signature"@,
            JsonV::Text(base64_encoded(signature)),
        ),
    )
}

/// The answer to a challenge.
pub fn auth_response(ss58: &str, signature: &[u8]) -> (r: Vec<u8>)
    ensures
        r@ == json_frame(MSG_AUTH_RESPONSE, 0, auth_response_json(ss58@, signature@)),
{
    let mut list: Vec<(String, Json)> = Vec::new();
    proof {
        crate::json::lemma_members_empty(list@);
    }
    put(&mut list, "ss58", Json::Text(ss58.to_owned()));
    put(&mut list, "signature", Json::Text(base64_encode(signature)));
    send_result(MSG_AUTH_RESPONSE, 0, &Json::Object(list))
}

/// Whether the relay accepted the answer.
pub fn auth_confirmed(data: &[u8]) -> (r: Result<(), AuthError>)
    ensures
        r == (if data@.len() < 5 {
            Err::<(), AuthError>(AuthError::BadFrame)
        } else if data@[0] != MSG_AUTH_SUCCESS {
            Err::<(), AuthError>(AuthError::UnexpectedType(data@[0]))
        } else {
            Ok::<(), AuthError>(())
        }),
{
    match decode_frame(data) {
        Err(_) => Err(AuthError::BadFrame),
        Ok((msg_type, _, _)) => if msg_type != MSG_AUTH_SUCCESS {
            Err(AuthError::UnexpectedType(msg_type))
        } else {
            Ok(())
        },
    }
}

/// Whether the relay has been silent for too long.
pub fn pong_overdue(now: u64, last_pong: u64, timeout: u64) -> (r: bool)
    ensures
        r == (crate::rsv::minus(now, last_pong) > timeout),
{
    now.saturating_sub(last_pong) > timeout
}

/// A request for a proof is never answered at once with anything but a refusal,
/// and is otherwise passed on under its number.
pub proof fn proof_requests_are_answered_or_passed_on(req_id: u32, payload: Seq<u8>, a: RelayAction)
    requires
        proof_calls_for(req_id, payload, a),
    ensures
        a is Prove || a is Reply,
        a matches RelayAction::Prove(s) ==> s.request_id == awaited(req_id),
{
}

} // verus!
