//! What is said to customers, miners and services, and how what they say is read.

use vstd::prelude::*;

use crate::capacity::CapEvent;
use crate::completion::DsperseSliceReport;
use crate::digest::{hex_bytes, hex_text, is_hex};
use crate::dsperse_events::{
    batch_json, emitted, run_event, stamped, three_digits, timestamp_text, Moment,
};
use crate::incremental_runner::SliceArtifact;
use crate::json::{json_bytes, json_error, json_normal, json_parsed, Json, JsonV};
use crate::meminfo::{figure, first_word};
use crate::miner_client::{height, plain, plain_items, plain_members, MsgKeyV, MsgV};
use crate::proof_uploader::{
    confirmed_json, is_upload_of, meta_json, places_in, uploadable, uploads_at, Upload,
};
use crate::relay::{
    asked_run, auth_response_json, awaited, be32, be32_bytes, busy_frame, challenge_in,
    circuit_payload, error_json, frame, json_frame, message_calls_for, processing_json,
    submit_payload, AuthError, RelayAction, SubmitPayloadError,
};
use crate::stats_reporter::{
    cap_event_json, response_json, scores_json, slice_json, snapshot_json, wait_before, ResponseLog,
};
use crate::tensor::{
    all_flattened, flattened, group_region, group_regions, region, shape_product, Tensor,
};
use crate::text::{
    after_prefix, decimal_text, digit_char, digits_value, is_space, last_position, occurs_at,
    split_on, text_less, trimmed, trimmed_end, trimmed_start, unsigned_up_to,
};
use crate::wire::{
    base128, continued, field_numbers, le32, unpacked, varint, words, TensorError, VarintError,
};

verus! {

proof fn lemma_names()
    ensures
        "backend_used"@ != "is_tiled"@,
        "backend_used"@ != "response_time_sec"@,
        "backend_used"@ != "success"@,
        "backend_used"@ != "tile_count"@,
        "backend_used"@ != "verification_time_sec"@,
        "backend_used"@ != "witness_time_sec"@,
        "cap_from"@ != "cap_to"@,
        "cap_from"@ != "elapsed_ms"@,
        "cap_from"@ != "success_rate"@,
        "cap_to"@ != "elapsed_ms"@,
        "cap_to"@ != "success_rate"@,
        "code"@ != "message"@,
        "direction"@ != "cap_from"@,
        "direction"@ != "cap_to"@,
        "direction"@ != "elapsed_ms"@,
        "direction"@ != "success_rate"@,
        "error"@ != "save"@,
        "event_type"@ != "events"@,
        "event_type"@ != "run_uid"@,
        "external_request_hash"@ != "error"@,
        "external_request_hash"@ != "request_type"@,
        "external_request_hash"@ != "save"@,
        "gcs_key"@ != "artifact_type"@,
        "gcs_key"@ != "size_bytes"@,
        "gcs_key"@ != "tile_idx"@,
        "is_tiled"@ != "success"@,
        "is_tiled"@ != "tile_count"@,
        "is_verified"@ != "error"@,
        "is_verified"@ != "external_request_hash"@,
        "is_verified"@ != "request_type"@,
        "is_verified"@ != "save"@,
        "miner_key"@ != "cap"@,
        "miner_key"@ != "cap_from"@,
        "miner_key"@ != "cap_to"@,
        "miner_key"@ != "direction"@,
        "miner_key"@ != "elapsed_ms"@,
        "miner_key"@ != "error"@,
        "miner_key"@ != "external_request_hash"@,
        "miner_key"@ != "is_verified"@,
        "miner_key"@ != "miner_uid"@,
        "miner_key"@ != "proof_model"@,
        "miner_key"@ != "proof_size"@,
        "miner_key"@ != "proof_system"@,
        "miner_key"@ != "request_type"@,
        "miner_key"@ != "response_duration"@,
        "miner_key"@ != "save"@,
        "miner_key"@ != "success_rate"@,
        "miner_uid"@ != "cap"@,
        "miner_uid"@ != "cap_from"@,
        "miner_uid"@ != "cap_to"@,
        "miner_uid"@ != "direction"@,
        "miner_uid"@ != "elapsed_ms"@,
        "miner_uid"@ != "error"@,
        "miner_uid"@ != "external_request_hash"@,
        "miner_uid"@ != "is_verified"@,
        "miner_uid"@ != "proof_model"@,
        "miner_uid"@ != "proof_size"@,
        "miner_uid"@ != "proof_system"@,
        "miner_uid"@ != "request_type"@,
        "miner_uid"@ != "response_duration"@,
        "miner_uid"@ != "save"@,
        "miner_uid"@ != "success_rate"@,
        "proof_model"@ != "error"@,
        "proof_model"@ != "external_request_hash"@,
        "proof_model"@ != "is_verified"@,
        "proof_model"@ != "proof_size"@,
        "proof_model"@ != "proof_system"@,
        "proof_model"@ != "request_type"@,
        "proof_model"@ != "response_duration"@,
        "proof_model"@ != "save"@,
        "proof_size"@ != "error"@,
        "proof_size"@ != "external_request_hash"@,
        "proof_size"@ != "is_verified"@,
        "proof_size"@ != "request_type"@,
        "proof_size"@ != "response_duration"@,
        "proof_size"@ != "save"@,
        "proof_system"@ != "artifact_type"@,
        "proof_system"@ != "backend_used"@,
        "proof_system"@ != "error"@,
        "proof_system"@ != "external_request_hash"@,
        "proof_system"@ != "gcs_key"@,
        "proof_system"@ != "is_tiled"@,
        "proof_system"@ != "is_verified"@,
        "proof_system"@ != "proof_size"@,
        "proof_system"@ != "request_type"@,
        "proof_system"@ != "response_duration"@,
        "proof_system"@ != "response_time_sec"@,
        "proof_system"@ != "save"@,
        "proof_system"@ != "size_bytes"@,
        "proof_system"@ != "success"@,
        "proof_system"@ != "tile_count"@,
        "proof_system"@ != "tile_idx"@,
        "proof_system"@ != "verification_time_sec"@,
        "proof_system"@ != "witness_time_sec"@,
        "request_type"@ != "error"@,
        "request_type"@ != "save"@,
        "response_duration"@ != "error"@,
        "response_duration"@ != "external_request_hash"@,
        "response_duration"@ != "is_verified"@,
        "response_duration"@ != "request_type"@,
        "response_duration"@ != "save"@,
        "response_time_sec"@ != "is_tiled"@,
        "response_time_sec"@ != "success"@,
        "response_time_sec"@ != "tile_count"@,
        "response_time_sec"@ != "verification_time_sec"@,
        "run_uid"@ != "events"@,
        "run_uid"@ != "status"@,
        "size_bytes"@ != "artifact_type"@,
        "size_bytes"@ != "tile_idx"@,
        "slice_num"@ != "artifact_type"@,
        "slice_num"@ != "backend_used"@,
        "slice_num"@ != "gcs_key"@,
        "slice_num"@ != "is_tiled"@,
        "slice_num"@ != "proof_system"@,
        "slice_num"@ != "response_time_sec"@,
        "slice_num"@ != "size_bytes"@,
        "slice_num"@ != "success"@,
        "slice_num"@ != "tile_count"@,
        "slice_num"@ != "tile_idx"@,
        "slice_num"@ != "verification_time_sec"@,
        "slice_num"@ != "witness_time_sec"@,
        "ss58"@ != "signature"@,
        "success_rate"@ != "elapsed_ms"@,
        "tile_count"@ != "success"@,
        "tile_idx"@ != "artifact_type"@,
        "timestamp"@ != "event_type"@,
        "timestamp"@ != "events"@,
        "timestamp"@ != "run_uid"@,
        "timestamp"@ != "validator_key"@,
        "validator_key"@ != "event_type"@,
        "validator_key"@ != "events"@,
        "validator_key"@ != "run_uid"@,
        "verification_time_sec"@ != "is_tiled"@,
        "verification_time_sec"@ != "success"@,
        "verification_time_sec"@ != "tile_count"@,
        "witness_time_sec"@ != "is_tiled"@,
        "witness_time_sec"@ != "response_time_sec"@,
        "witness_time_sec"@ != "success"@,
        "witness_time_sec"@ != "tile_count"@,
        "witness_time_sec"@ != "verification_time_sec"@,
{
    reveal_strlit("run_uid");
    reveal_strlit("status");
    reveal_strlit("code");
    reveal_strlit("message");
    reveal_strlit("ss58");
    reveal_strlit("signature");
    reveal_strlit("timestamp");
    reveal_strlit("validator_key");
    reveal_strlit("event_type");
    reveal_strlit("events");
    reveal_strlit("slice_num");
    reveal_strlit("proof_system");
    reveal_strlit("gcs_key");
    reveal_strlit("size_bytes");
    reveal_strlit("tile_idx");
    reveal_strlit("artifact_type");
    reveal_strlit("miner_key");
    reveal_strlit("miner_uid");
    reveal_strlit("proof_model");
    reveal_strlit("proof_size");
    reveal_strlit("response_duration");
    reveal_strlit("is_verified");
    reveal_strlit("external_request_hash");
    reveal_strlit("request_type");
    reveal_strlit("error");
    reveal_strlit("save");
    reveal_strlit("cap");
    reveal_strlit("direction");
    reveal_strlit("cap_from");
    reveal_strlit("cap_to");
    reveal_strlit("success_rate");
    reveal_strlit("elapsed_ms");
    reveal_strlit("backend_used");
    reveal_strlit("witness_time_sec");
    reveal_strlit("response_time_sec");
    reveal_strlit("verification_time_sec");
    reveal_strlit("is_tiled");
    reveal_strlit("tile_count");
    reveal_strlit("success");
    assert("run_uid"@.len() == 7);
    assert("status"@.len() == 6);
    assert("code"@.len() == 4);
    assert("message"@.len() == 7);
    assert("ss58"@.len() == 4);
    assert("signature"@.len() == 9);
    assert("timestamp"@.len() == 9);
    assert("validator_key"@.len() == 13);
    assert("event_type"@.len() == 10);
    assert("events"@.len() == 6);
    assert("slice_num"@.len() == 9);
    assert("proof_system"@.len() == 12 && "proof_system"@[0] == 'p');
    assert("gcs_key"@.len() == 7);
    assert("size_bytes"@.len() == 10);
    assert("tile_idx"@.len() == 8);
    assert("artifact_type"@.len() == 13);
    assert("miner_key"@.len() == 9 && "miner_key"@[0] == 'm' && "miner_key"@[6] == 'k');
    assert("miner_uid"@.len() == 9 && "miner_uid"@[0] == 'm' && "miner_uid"@[6] == 'u');
    assert("proof_model"@.len() == 11 && "proof_model"@[0] == 'p');
    assert("proof_size"@.len() == 10);
    assert("response_duration"@.len() == 17);
    assert("is_verified"@.len() == 11 && "is_verified"@[0] == 'i');
    assert("external_request_hash"@.len() == 21);
    assert("request_type"@.len() == 12 && "request_type"@[0] == 'r');
    assert("error"@.len() == 5);
    assert("save"@.len() == 4);
    assert("cap"@.len() == 3);
    assert("direction"@.len() == 9 && "direction"@[0] == 'd');
    assert("cap_from"@.len() == 8);
    assert("cap_to"@.len() == 6);
    assert("success_rate"@.len() == 12);
    assert("elapsed_ms"@.len() == 10);
    assert("backend_used"@.len() == 12 && "backend_used"@[0] == 'b');
    assert("witness_time_sec"@.len() == 16);
    assert("response_time_sec"@.len() == 17);
    assert("verification_time_sec"@.len() == 21);
    assert("is_tiled"@.len() == 8);
    assert("tile_count"@.len() == 10);
    assert("success"@.len() == 7);
}

/// The kinds of messages, and the numbers of errors, that customers and the validator
/// have agreed on.
pub proof fn message_kinds_stand()
    ensures
        crate::relay::MSG_AUTH_CHALLENGE == 0x01 && crate::relay::MSG_AUTH_RESPONSE == 0x02
            && crate::relay::MSG_AUTH_SUCCESS == 0x03,
        crate::relay::MSG_SUBMIT == 0x10 && crate::relay::MSG_SUBMIT_RESULT == 0x11,
        crate::relay::MSG_STATUS_REQ == 0x20 && crate::relay::MSG_STATUS_RESULT == 0x21,
        crate::relay::MSG_PROOF_REQ == 0x30 && crate::relay::MSG_PROOF_RESULT == 0x31,
        crate::relay::MSG_BATCH_DONE == 0x40 && crate::relay::MSG_ERROR == 0xFE,
        crate::relay::FRAME_SUBMIT_RESULT == 0x11 && crate::relay::FRAME_PROOF_RESULT == 0x31,
        crate::relay::INVALID_PARAMS == -32602 && crate::relay::BUSY == 20
            && crate::relay::NOT_FOUND == 11,
        crate::relay::CLOSE_SUPERSEDED == 4000,
{
}

/// How much is kept, how often things are done, and from where on outputs differ: a
/// tenth, as the bits of a number of eight bytes.
pub proof fn limits_stand()
    ensures
        crate::capacity::MAX_BUFFERED_CAP_EVENTS == 4096 && crate::capacity::RESTORED_CAP_MAX == 32,
        crate::consistency::OUTPUT_CONSISTENCY_THRESHOLD == 0x3fb9_9999_9999_999a,
        crate::consistency::UNBOUNDED == 0x7ff0_0000_0000_0000,
        crate::dsperse_events::MAX_BUFFERED_EVENTS == 10_000,
        crate::incremental_runner::MAX_EVICTED == 256,
        crate::json::MAX_NESTING == 127,
        crate::request_pipeline::MAX_HASHES == 32768,
        crate::rsv::FALLBACK_BLOCKS_PER_TEMPO == 360 && crate::rsv::STATE_VERSION == 2,
        crate::scoring::INFINITY_BITS == 0x7ff0_0000_0000_0000,
        crate::simulator::MAINTENANCE_EVERY_MS == 60_000,
        crate::staging::PLAN_BATCH == 16,
        crate::stats_reporter::STATS_FLUSH_INTERVAL_SECS == 60,
        crate::stats_reporter::HEALTH_FLUSH_OFFSET_SECS == 20,
        crate::stats_reporter::EVENTS_FLUSH_OFFSET_SECS == 40,
        crate::stats_reporter::CAPACITY_FLUSH_OFFSET_SECS == 50,
        crate::stats_reporter::PENDING_CAP_EVENTS_MAX == 4096 && crate::stats_reporter::MAX_RETRIES
            == 3,
        crate::units::UNIT_REFERENCE_REFRESH_RECORDS == 64 && crate::units::UNIT_TIMES_CAP == 256,
        crate::units::UNIT_REFERENCE_MIN_SAMPLES == 8 && crate::units::REL_SPEED_WINDOW == 64,
        crate::wire::MAX_VARINT == 10,
{
}

/// A message is its kind, the number of its request from the highest byte on, and
/// what it carries.
pub proof fn messages_carry_their_request(t: u8, id: u32, p: Seq<u8>, v: JsonV)
    ensures
        frame(t, id, p).len() == 5 + p.len(),
        frame(t, id, p)[0] == t,
        frame(t, id, p).skip(5) == p,
        ((frame(t, id, p)[1] * 256 + frame(t, id, p)[2]) * 256 + frame(t, id, p)[3]) * 256 + frame(
            t,
            id,
            p,
        )[4] == id,
        json_frame(t, id, v).skip(5) == json_bytes(json_normal(v)),
        json_frame(t, id, v)[0] == t,
        be32(seq![1u8, 2u8, 3u8, 4u8]) == 0x01020304,
{
    assert(frame(t, id, p).skip(5) =~= p);
    assert(json_frame(t, id, v).skip(5) =~= json_bytes(json_normal(v)));
    let b = be32_bytes(id);
    assert(frame(t, id, p)[1] == b[0] && frame(t, id, p)[2] == b[1] && frame(t, id, p)[3] == b[2]
        && frame(t, id, p)[4] == b[3]);
    assert(id == ((((id / 0x1000000) as u8) * 256 + ((id / 0x10000 % 0x100) as u8)) * 256 + ((id
        / 0x100 % 0x100) as u8)) * 256 + ((id % 0x100) as u8)) by (bit_vector);
}

/// What a customer sends for a run is the length of a text, the text, and behind it a
/// tensor if there is one.
pub proof fn submissions_are_taken_apart(n: u32, meta: Seq<u8>, tensor: Seq<u8>)
    requires
        meta.len() == n,
        meta.len() + 4 <= usize::MAX,
    ensures
        json_parsed(meta) matches Some(v) ==> submit_payload(be32_bytes(n) + meta + tensor) == Ok::<
            (JsonV, Option<Seq<u8>>),
            SubmitPayloadError,
        >(
            (
                v,
                if tensor.len() > 0 {
                    Some(tensor)
                } else {
                    None
                },
            ),
        ),
        json_parsed(meta) is None ==> submit_payload(be32_bytes(n) + meta + tensor) == Err::<
            (JsonV, Option<Seq<u8>>),
            SubmitPayloadError,
        >(SubmitPayloadError::BadMeta),
        meta.len() > 0 ==> submit_payload(be32_bytes(n) + meta.drop_last()) == Err::<
            (JsonV, Option<Seq<u8>>),
            SubmitPayloadError,
        >(SubmitPayloadError::Truncated),
{
    let b = be32_bytes(n);
    let p = b + meta + tensor;
    assert(p.subrange(0, 4) =~= b);
    assert(n == ((n / 0x1000000) as u8) * 0x1000000 + ((n / 0x10000 % 0x100) as u8) * 0x10000 + ((n
        / 0x100 % 0x100) as u8) * 0x100 + ((n % 0x100) as u8)) by (bit_vector);
    assert(be32(b) == n);
    assert(p.subrange(4, 4 + n) =~= meta);
    assert(p.skip(4 + n) =~= tensor);
    if meta.len() > 0 {
        let q = b + meta.drop_last();
        assert(q.subrange(0, 4) =~= b);
    }
}

/// A request names its circuit, and its inputs if it has any.
pub proof fn requests_name_their_circuit(meta: JsonV, id: Seq<char>)
    ensures
        meta.member("circuit_id"@) == Some(JsonV::Text(id)) ==> {
            &&& circuit_payload(meta) matches Some((c, i)) && c == id
            &&& meta.member("inputs"@) matches Some(i) ==> (circuit_payload(meta)->0).1 == i
            &&& meta.member("inputs"@) is None ==> (circuit_payload(meta)->0).1 == JsonV::Object(
                Map::empty(),
            )
        },
        meta.member("circuit_id"@) is None ==> circuit_payload(meta) is None,
        meta.member("run_uid"@) == Some(JsonV::Text(id)) ==> asked_run(meta) == Some(id),
        meta.member("run_uid"@) is None ==> asked_run(meta) is None,
        awaited(0) is None && awaited(7) == Some(7u32),
{
}

/// A customer's run is started with what the customer sent, under the number that it
/// waits for; without room it is told so, and a message that is none is refused.
pub proof fn submissions_are_passed_on(
    pending: Map<Seq<char>, Option<JsonV>>,
    id: u32,
    payload: Seq<u8>,
    permit: bool,
    a: RelayAction,
)
    requires
        message_calls_for(pending, 0x10, id, payload, permit, a),
        id > 0,
    ensures
        !permit ==> (a matches RelayAction::Reply(r) && r@ == busy_frame(id)),
        permit ==> (submit_payload(payload) matches Ok((meta, tensor)) ==> (
        meta.member("circuit_id"@) matches Some(JsonV::Text(c)) ==> {
            &&& a matches RelayAction::Submit(s)
            &&& s.circuit_id@ == c
            &&& s.request_id == Some(id)
            &&& meta.member("inputs"@) matches Some(i) ==> s.inputs@ == i
            &&& tensor matches Some(t) ==> (s.tensor_data matches Some(d) && d@ == t)
            &&& tensor is None ==> s.tensor_data is None
        })),
        submit_payload(payload) is Err ==> a is Reply,
{
}

/// What is wrong with a message is told in words.
pub proof fn faults_are_worded(
    pending: Map<Seq<char>, Option<JsonV>>,
    kind: u8,
    id: u32,
    payload: Seq<u8>,
    a: RelayAction,
)
    requires
        message_calls_for(pending, kind, id, payload, true, a),
    ensures
        SubmitPayloadError::TooShort.wording() == "submit payload too short"@,
        SubmitPayloadError::LengthOverflow.wording() == "submit payload meta length overflow"@,
        SubmitPayloadError::Truncated.wording() == "submit payload meta truncated"@,
        SubmitPayloadError::BadMeta.wording() == "parsing submit meta"@,
        kind == 0x10 ==> (submit_payload(payload) matches Err(e) ==> (a matches RelayAction::Reply(r)
            && r@ == json_frame(0xFE, id, error_json(-32602i64, "Invalid payload: "@ + e.wording())))),
        kind == 0x10 ==> (submit_payload(payload) matches Ok((meta, t)) ==> (meta.member(
            "circuit_id"@,
        ) is None ==> (a matches RelayAction::Reply(r) && r@ == json_frame(
            0xFE,
            id,
            error_json(-32602i64, "Missing circuit_id"@),
        )))),
        kind == 0x30 ==> (json_parsed(payload) matches Some(meta) ==> (meta.member("circuit_id"@)
            is None ==> (a matches RelayAction::Reply(r) && r@ == json_frame(
            0xFE,
            id,
            error_json(-32602i64, "Missing circuit_id"@),
        )))),
        kind == 0x20 && json_parsed(payload) is None ==> (a matches RelayAction::Reply(r) && r@
            == json_frame(
            0xFE,
            id,
            error_json(-32602i64, "Invalid status payload: "@ + json_error(payload)),
        )),
        kind == 0x20 ==> (json_parsed(payload) matches Some(meta) ==> (meta.member("run_uid"@) is None
            ==> (a matches RelayAction::Reply(r) && r@ == json_frame(
            0xFE,
            id,
            error_json(-32602i64, "Missing run_uid"@),
        )))),
{
}

/// A customer's request for a proof is passed on with its circuit and inputs and has
/// not been tried yet.
pub proof fn proof_requests_are_passed_on(
    pending: Map<Seq<char>, Option<JsonV>>,
    id: u32,
    payload: Seq<u8>,
    permit: bool,
    a: RelayAction,
)
    requires
        message_calls_for(pending, 0x30, id, payload, permit, a),
        id > 0,
    ensures
        json_parsed(payload) matches Some(meta) ==> (meta.member("circuit_id"@) matches Some(
            JsonV::Text(c),
        ) ==> {
            &&& a matches RelayAction::Prove(s)
            &&& s.circuit_id@ == c
            &&& s.request_id == Some(id)
            &&& s.retry_count == 0
            &&& meta.member("inputs"@) matches Some(i) ==> s.inputs@ == i
        }),
        json_parsed(payload) is None ==> (a matches RelayAction::Reply(r) && r@ == json_frame(
            0xFE,
            id,
            error_json(-32602i64, "Invalid proof payload: "@ + json_error(payload)),
        )),
{
}

/// Who asks for a run is sent its result once it is finished, told that it is being
/// worked on before, and told that there is no such run otherwise.
pub proof fn questions_about_runs_are_answered(
    pending: Map<Seq<char>, Option<JsonV>>,
    id: u32,
    payload: Seq<u8>,
    permit: bool,
    a: RelayAction,
    run: Seq<char>,
)
    requires
        message_calls_for(pending, 0x20, id, payload, permit, a),
        json_parsed(payload) matches Some(meta) && meta.member("run_uid"@) == Some(JsonV::Text(run)),
    ensures
        pending.contains_key(run) ==> (pending[run] matches Some(result) ==> (
        a matches RelayAction::Deliver { reply, run_uid } && run_uid@ == run && reply@ == json_frame(
            0x21,
            id,
            result,
        ))),
        pending.contains_key(run) && pending[run] is None ==> (a matches RelayAction::Reply(r) && r@
            == json_frame(0x21, id, processing_json(run))),
        !pending.contains_key(run) ==> (a matches RelayAction::Reply(r) && r@ == json_frame(
            0xFE,
            id,
            error_json(11, "Run not found"@),
        )),
        processing_json(run).member("status"@) == Some(JsonV::Text("processing"@)),
        processing_json(run).member("run_uid"@) == Some(JsonV::Text(run)),
{
    lemma_names();
}

/// Messages of other kinds are passed by, errors say their number and their words, and
/// a server without room says so.
pub proof fn other_messages_are_passed_by(
    pending: Map<Seq<char>, Option<JsonV>>,
    kind: u8,
    id: u32,
    payload: Seq<u8>,
    permit: bool,
    a: RelayAction,
    code: i64,
    text: Seq<char>,
)
    requires
        message_calls_for(pending, kind, id, payload, permit, a),
    ensures
        kind != 0x10 && kind != 0x20 && kind != 0x30 ==> a is Ignore,
        error_json(code, text).member("code"@) == Some(JsonV::Int(code as int)),
        error_json(code, text).member("message"@) == Some(JsonV::Text(text)),
        busy_frame(id) == json_frame(0xFE, id, error_json(20, "Server busy, try again later"@)),
{
    lemma_names();
}

/// A challenge is read out of a message that poses one, and the answer names who signs
/// and carries the signature.
pub proof fn challenges_are_read_and_answered(d: Seq<u8>, key: Seq<char>, sig: Seq<u8>)
    ensures
        d.len() < 5 ==> challenge_in(d) == Err::<Seq<u8>, AuthError>(AuthError::BadFrame),
        d.len() >= 5 && d[0] != 1 ==> challenge_in(d) == Err::<Seq<u8>, AuthError>(
            AuthError::UnexpectedType(d[0]),
        ),
        d.len() >= 5 && d[0] == 1 ==> (json_parsed(d.skip(5)) matches Some(m) ==> (
        m.member("challenge"@) matches Some(JsonV::Text(t)) ==> (crate::digest::base64_decoded(
            t,
        ) matches Some(b) ==> challenge_in(d) == Ok::<Seq<u8>, AuthError>(b)))),
        auth_response_json(key, sig).member("ss58"@) == Some(JsonV::Text(key)),
        auth_response_json(key, sig).member("signature"@) == Some(
            JsonV::Text(crate::digest::base64_encoded(sig)),
        ),
{
    lemma_names();
}

/// An event is kept with its time, unless it brings one, and with who tells it; the
/// oldest make room and the new one is last.
pub proof fn events_are_stamped_and_kept(
    events: Seq<JsonV>,
    e: Map<Seq<char>, JsonV>,
    at: Moment,
    key: Seq<char>,
    name: Seq<char>,
    kind: Seq<char>,
    run: Seq<char>,
)
    ensures
        ({
            let s = stamped(e, at.secs, at.millis, key);
            &&& s.contains_key("validator_key"@) && s["validator_key"@] == JsonV::Text(key)
            &&& !e.contains_key("timestamp"@) ==> s.contains_key("timestamp"@) && s["timestamp"@]
                == JsonV::Text(timestamp_text(at.secs, at.millis))
            &&& e.contains_key("timestamp"@) ==> s["timestamp"@] == e["timestamp"@]
            &&& e.contains_key(name) && name != "validator_key"@ ==> s.contains_key(name) && s[name]
                == e[name]
            &&& emitted(events, e, at, key).len() > 0
            &&& emitted(events, e, at, key).last() == JsonV::Object(s)
            &&& emitted(events, e, at, key).len() <= 10_000
            &&& events.len() < 10_000 ==> emitted(events, e, at, key) == events.push(
                JsonV::Object(s),
            )
        }),
        batch_json(key, events).member("events"@) == Some(JsonV::Array(events)),
        batch_json(key, events).member("validator_key"@) == Some(JsonV::Text(key)),
        run_event(kind, run)["event_type"@] == JsonV::Text(kind),
        run_event(kind, run)["run_uid"@] == JsonV::Text(run),
        timestamp_text(12, 7) == decimal_text(12) + "."@ + seq!['0', '0', '7'],
{
    lemma_names();
    assert(three_digits(7) =~= seq!['0', '0', '7']);
}

/// A place for a proof is asked for by its slice; a proof is uploaded where there is a
/// place for it and it can be read, to that place and byte for byte.
pub proof fn proofs_are_uploaded_to_their_place(
    u: Upload,
    i: int,
    a: SliceArtifact,
    place: JsonV,
    s: Seq<SliceArtifact>,
    places: Seq<JsonV>,
    n: nat,
)
    requires
        is_upload_of(u, i, a, place),
        uploadable(a, place),
    ensures
        u.index == i,
        place.member("upload_url"@) matches Some(JsonV::Text(t)) && u.upload_url@ == t,
        a.proof_hex matches Some(h) && is_hex(h@) && u.bytes@ == hex_bytes(h@),
        place.member("gcs_key"@) matches Some(JsonV::Text(k)) ==> u.gcs_key@ == k,
        a.proof_hex is None ==> !uploadable(a, place),
        place.member("upload_url"@) is None ==> !uploadable(a, place),
        uploads_at(s, places, 0).len() == 0,
        uploadable(s[n as int], places[n as int]) ==> uploads_at(s, places, n + 1) == uploads_at(
            s,
            places,
            n,
        ).push(n as int),
        !uploadable(s[n as int], places[n as int]) ==> uploads_at(s, places, n + 1) == uploads_at(
            s,
            places,
            n,
        ),
{
}

/// A proof can be uploaded exactly where a place is named for it and it reads as bytes.
pub proof fn proofs_with_a_place_are_uploaded(a: SliceArtifact, place: JsonV, url: Seq<char>, h: String)
    ensures
        place.member("upload_url"@) == Some(JsonV::Text(url)) && a.proof_hex == Some(h) && is_hex(h@)
            ==> uploadable(a, place),
        place.member("upload_url"@) is None || a.proof_hex is None ==> !uploadable(a, place),
        a.proof_hex == Some(h) && !is_hex(h@) ==> !uploadable(a, place),
{
}

/// What is said of a proof that was uploaded is what was uploaded: its slice, its
/// tile, its key and its size.
pub proof fn uploads_are_confirmed_as_made(a: SliceArtifact, system: Option<String>, u: Upload, answer: JsonV)
    ensures
        ({
            let c = confirmed_json(a, system, u);
            &&& c.member("slice_num"@) == Some(JsonV::Text(a.slice_num@))
            &&& c.member("gcs_key"@) == Some(JsonV::Text(u.gcs_key@))
            &&& c.member("size_bytes"@) == Some(JsonV::Int(u.bytes@.len() as int))
            &&& a.tile_idx matches Some(t) ==> c.member("tile_idx"@) == Some(JsonV::Int(t as int))
            &&& a.tile_idx is None ==> c.member("tile_idx"@) == Some(JsonV::Null)
            &&& system matches Some(n) ==> c.member("proof_system"@) == Some(JsonV::Text(n@))
            &&& c.member("artifact_type"@) == Some(JsonV::Text("proof"@))
        }),
        meta_json(a).member("slice_num"@) == Some(JsonV::Text(a.slice_num@)),
        meta_json(a).member("artifact_type"@) == Some(JsonV::Text("proof"@)),
        answer.member("urls"@) matches Some(JsonV::Array(s)) ==> places_in(answer) == s,
        answer.member("urls"@) is None ==> (answer.member("artifacts"@) matches Some(JsonV::Array(
            s,
        )) ==> places_in(answer) == s),
        answer.member("urls"@) is None && answer.member("artifacts"@) is None ==> places_in(
            answer,
        ).len() == 0,
{
    lemma_names();
}

/// An answer is reported with its miner, how long it took and whether it held.
pub proof fn answers_are_reported_as_they_were(r: ResponseLog)
    ensures
        ({
            let j = response_json(r);
            &&& j.member("miner_uid"@) == Some(JsonV::Int(r.miner_uid as int))
            &&& j.member("is_verified"@) == Some(JsonV::Bool(r.is_verified))
            &&& j.member("response_duration"@) == Some(r.response_duration@)
            &&& j.member("proof_size"@) == Some(r.proof_size@)
            &&& j.member("external_request_hash"@) == Some(r.external_request_hash@)
            &&& j.member("save"@) == Some(JsonV::Bool(r.save))
            &&& r.miner_key matches Some(k) ==> j.member("miner_key"@) == Some(JsonV::Text(k@))
            &&& r.proof_model matches Some(k) ==> j.member("proof_model"@) == Some(JsonV::Text(k@))
            &&& r.proof_model is None ==> j.member("proof_model"@) == Some(JsonV::Text("Unknown"@))
            &&& r.proof_system matches Some(k) ==> j.member("proof_system"@) == Some(
                JsonV::Text(k@),
            )
            &&& r.error matches Some(k) ==> j.member("error"@) == Some(JsonV::Text(k@))
            &&& r.error is None ==> j.member("error"@) == Some(JsonV::Null)
            &&& r.request_type matches Some(k) ==> j.member("request_type"@) == Some(
                JsonV::Text(k@),
            )
        }),
{
    lemma_names();
}

/// Capacities and their changes are reported with their miner and their figures.
pub proof fn capacities_are_reported_as_they_are(
    entries: Seq<(u16, usize)>,
    hotkeys: Map<u16, String>,
    i: int,
    e: CapEvent,
    rate: JsonV,
    now: u64,
    ticks: u64,
)
    requires
        0 <= i < entries.len(),
        ticks > 0,
        e.at <= now,
    ensures
        snapshot_json(entries, hotkeys).len() == entries.len(),
        ({
            let j = snapshot_json(entries, hotkeys)[i];
            &&& j.member("miner_uid"@) == Some(JsonV::Int(entries[i].0 as int))
            &&& j.member("cap"@) == Some(JsonV::Int(entries[i].1 as int))
            &&& hotkeys.contains_key(entries[i].0) ==> j.member("miner_key"@) == Some(
                JsonV::Text(hotkeys[entries[i].0]@),
            )
        }),
        ({
            let j = cap_event_json(e, rate, now, ticks);
            &&& j.member("miner_uid"@) == Some(JsonV::Int(e.uid as int))
            &&& j.member("miner_key"@) == Some(JsonV::Text(e.hotkey@))
            &&& j.member("cap_from"@) == Some(JsonV::Int(e.cap_from as int))
            &&& j.member("cap_to"@) == Some(JsonV::Int(e.cap_to as int))
            &&& j.member("success_rate"@) == Some(rate)
            &&& j.member("elapsed_ms"@) == Some(
                JsonV::Int((now - e.at) / ticks as int),
            )
            &&& j.member("direction"@) == Some(
                JsonV::Text(crate::capacity::direction_word(e.direction)),
            )
        }),
{
    lemma_names();
}

/// A piece of a run is reported with its slice, its system, its times and whether it
/// was proved.
pub proof fn pieces_are_reported_as_they_went(s: DsperseSliceReport, times: (Json, Json))
    ensures
        ({
            let j = slice_json(s, times);
            &&& j.member("slice_num"@) == Some(JsonV::Text(s.slice_num@))
            &&& j.member("proof_system"@) == Some(JsonV::Text(s.proof_system@))
            &&& j.member("backend_used"@) == Some(JsonV::Text(s.proof_system@))
            &&& j.member("witness_time_sec"@) == Some(JsonV::Decimal("0.0"@))
            &&& j.member("response_time_sec"@) == Some(times.0@)
            &&& j.member("verification_time_sec"@) == Some(times.1@)
            &&& j.member("is_tiled"@) == Some(JsonV::Bool(s.is_tiled))
            &&& j.member("success"@) == Some(JsonV::Bool(s.success))
            &&& s.tile_count matches Some(n) ==> j.member("tile_count"@) == Some(
                JsonV::Int(n as int),
            )
        }),
{
    lemma_names();
}

/// Scores are reported under the numbers of the miners, and waits grow from half a
/// second to eight.
pub proof fn scores_are_reported_by_number(s: Seq<(u16, Json)>, x: (u16, Json), n: int)
    ensures
        scores_json(Seq::empty()) == Map::<Seq<char>, JsonV>::empty(),
        scores_json(s.push(x)) == scores_json(s).insert(decimal_text(x.0 as nat), x.1@),
        wait_before(0) == 0 && wait_before(1) == 500 && wait_before(2) == 1000 && wait_before(3)
            == 2000,
        n >= 1 && wait_before(n) <= 4000 ==> wait_before(n + 1) == 2 * wait_before(n),
        n >= 1 ==> wait_before(n) <= 8000,
{
    assert(s.push(x).drop_last() =~= s);
    reveal_with_fuel(wait_before, 5);
}

/// A value from a miner is the plain value that it stands for, whatever it nests.
pub proof fn miners_values_are_plain(
    s: Seq<MsgV>,
    x: MsgV,
    m: Seq<(MsgKeyV, MsgV)>,
    k: Seq<char>,
    b: Seq<u8>,
    t: Seq<char>,
    n: int,
)
    ensures
        plain(MsgV::Nil) == JsonV::Null && plain(MsgV::Ext) == JsonV::Null,
        plain(MsgV::Bool(true)) == JsonV::Bool(true) && plain(MsgV::Bool(false)) == JsonV::Bool(
            false,
        ),
        plain(MsgV::Int(n)) == JsonV::Int(n),
        plain(MsgV::Text(Some(t))) == JsonV::Text(t) && plain(MsgV::Text(None)) == JsonV::Null,
        plain(MsgV::Decimal(Some(t))) == JsonV::Decimal(t) && plain(MsgV::Decimal(None))
            == JsonV::Null,
        plain(MsgV::Binary(b)) == JsonV::Text(hex_text(b)),
        plain_items(s.push(x)) == plain_items(s).push(plain(x)),
        plain_members(m.push((MsgKeyV::Text(k), x))) == plain_members(m).insert(k, plain(x)),
        plain_members(m.push((MsgKeyV::Raw(b), x))) == plain_members(m).insert(
            "__msgpack_str_hex:"@ + hex_text(b),
            plain(x),
        ),
        height(MsgV::Array(s.push(x))) > height(x),
        height(MsgV::Int(n)) == 0 && height(MsgV::Text(Some(t))) == 0,
        height(MsgV::Array(seq![MsgV::Nil])) == 1,
{
    reveal_with_fuel(plain, 2);
    reveal_with_fuel(plain_items, 2);
    reveal_with_fuel(plain_members, 2);
    reveal_with_fuel(height, 3);
    reveal_with_fuel(crate::miner_client::items_height, 3);
    assert(s.push(x).drop_last() =~= s);
    assert(m.push((MsgKeyV::Text(k), x)).drop_last() =~= m);
    assert(m.push((MsgKeyV::Raw(b), x)).drop_last() =~= m);
    assert(seq![MsgV::Nil].drop_last().len() == 0);
}

/// A number in few bytes is read digit by digit, the lowest first; one that does not
/// end, or is too long, is none.
pub proof fn short_numbers_are_read(a: u8, b: u8, rest: Seq<u8>)
    requires
        a < 128,
        b < 128,
    ensures
        varint(seq![a] + rest) == Ok::<(u64, nat), VarintError>((a as u64, 1)),
        varint(seq![(a + 128) as u8, b] + rest) == Ok::<(u64, nat), VarintError>(
            ((a + 128 * b) as u64, 2),
        ),
        varint(Seq::<u8>::empty()) == Err::<(u64, nat), VarintError>(VarintError::Unterminated),
        varint(seq![(a + 128) as u8]) == Err::<(u64, nat), VarintError>(VarintError::Unterminated),
{
    reveal_with_fuel(continued, 3);
    reveal_with_fuel(base128, 3);
    reveal_with_fuel(crate::wire::pow128, 3);
    let s = seq![a] + rest;
    assert(s.take(1) =~= seq![a]);
    assert(seq![a].drop_last() =~= Seq::<u8>::empty());
    let t = seq![(a + 128) as u8, b] + rest;
    assert(t[0] == (a + 128) as u8);
    assert(t.drop_first()[0] == b);
    assert(t.take(2) =~= seq![(a + 128) as u8, b]);
    assert(seq![(a + 128) as u8, b].drop_last() =~= seq![(a + 128) as u8]);
    assert(seq![(a + 128) as u8].drop_last() =~= Seq::<u8>::empty());
    assert(seq![(a + 128) as u8].drop_first().len() == 0);
    let c = (a + 128) as u8;
    assert(c % 128 == a && b % 128 == b);
    assert(crate::wire::pow128(0) == 1 && crate::wire::pow128(1) == 128);
    assert(base128(Seq::<u8>::empty()) == 0);
    assert(base128(seq![c]) == a) by {
        let p = crate::wire::pow128(0);
        assert((c % 128) as nat * p == a) by (nonlinear_arith)
            requires
                p == 1,
                c % 128 == a,
        ;
    }
    assert(base128(seq![c, b]) == a + 128 * b) by {
        assert(seq![c, b].last() == b);
        let p = crate::wire::pow128(1);
        assert((b % 128) as nat * p == 128 * b) by (nonlinear_arith)
            requires
                p == 128,
                b % 128 == b,
        ;
    }
    assert(continued(t) == 1);
}

/// Numbers of four bytes are read one after the other, the lowest byte first, and a
/// rest that is no number is left.
pub proof fn words_are_read_in_order(a: u8, b: u8, c: u8, d: u8, rest: Seq<u8>)
    ensures
        words(seq![a, b, c, d] + rest) == seq![le32(seq![a, b, c, d])] + words(rest),
        le32(seq![a, b, c, d]) == a + 256 * (b + 256 * (c + 256 * d)),
        rest.len() < 4 ==> words(rest).len() == 0,
{
    let s = seq![a, b, c, d] + rest;
    assert(s.skip(4) =~= rest);
    assert(le32(s) == le32(seq![a, b, c, d]));
}

/// A tensor is what its compressed bytes hold, and has as many numbers as its shape
/// asks for.
pub proof fn tensors_fill_their_shape(data: Seq<u8>, shape: Seq<usize>)
    ensures
        crate::wire::gunzipped(data) is None ==> unpacked(data, shape) == Err::<
            Seq<u32>,
            TensorError,
        >(TensorError::NotGzip),
        unpacked(data, shape) matches Ok(v) ==> v.len() == shape_product(shape) && (
        crate::wire::gunzipped(data) matches Some(raw) && field_numbers(raw, 0) == Ok::<
            Seq<u32>,
            TensorError,
        >(v)),
        crate::wire::gunzipped(data) matches Some(raw) ==> (field_numbers(raw, 0) matches Ok(v) ==> (
        v.len() == shape_product(shape) ==> unpacked(data, shape) == Ok::<Seq<u32>, TensorError>(
            v,
        ))),
        field_numbers(Seq::empty(), 0) == Ok::<Seq<u32>, TensorError>(Seq::empty()),
{
}

/// A shape asks for the product of its dimensions.
pub proof fn shapes_multiply_up(d: usize, s: Seq<usize>)
    ensures
        shape_product(Seq::empty()) == 1,
        shape_product(seq![d] + s) == d * shape_product(s),
        shape_product(seq![d]) == d,
{
    assert((seq![d] + s).drop_first() =~= s);
    reveal_with_fuel(shape_product, 2);
    assert(seq![d].drop_first() =~= Seq::<usize>::empty());
}

/// A group of an array in one dimension is its own stretch of it, and groups that do
/// not share the dimension evenly are none.
pub proof fn groups_take_their_stretch<T>(t: Tensor<T>, n: usize, g: u32)
    requires
        t.shape@.len() == 1,
        t.data@.len() == t.shape@[0],
        n > 0,
        g < n,
    ensures
        t.shape@[0] as int % n as int == 0 ==> (group_region(t, 0, n, g) matches Some(r) && r
            == t.data@.subrange(
            g * (t.shape@[0] as int / n as int),
            (g + 1) * (t.shape@[0] as int / n as int),
        )),
        t.shape@[0] as int % n as int != 0 ==> group_region(t, 0, n, g) is None,
        group_region(t, 0, 0, g) is None && group_region(t, 1, n, g) is None,
{
    let dim = t.shape@[0] as int;
    let e = dim / n as int;
    if dim % n as int == 0 {
        assert(t.shape@.take(0) =~= Seq::<usize>::empty());
        assert(t.shape@.skip(1) =~= Seq::<usize>::empty());
        assert(shape_product(Seq::empty()) == 1);
        assert(n * e == dim && e >= 0 && g * e + e <= dim && g * e >= 0 && g * e + e == (g + 1) * e)
            by (nonlinear_arith)
            requires
                dim % n as int == 0,
                e == dim / n as int,
                n > 0,
                0 <= g < n,
                dim >= 0,
        ;
        reveal_with_fuel(region, 2);
        let start = g * e;
        assert((0nat * dim as nat + start) as int * 1 == start);
        assert((0nat * dim as nat + start + e) as int * 1 == start + e);
        if e == 0 {
            assert(t.data@.subrange(start, start + e) =~= Seq::<T>::empty());
        } else {
            assert(Seq::<T>::empty() + t.data@.subrange(start, start + e) =~= t.data@.subrange(
                start,
                start + e,
            ));
        }
    }
}

/// The groups of several arrays follow one another, and where one array has none there
/// are none.
pub proof fn groups_of_arrays_follow_one_another<T>(
    a: Seq<Tensor<T>>,
    t: Tensor<T>,
    axis: usize,
    n: usize,
    g: u32,
)
    ensures
        group_regions(Seq::<Tensor<T>>::empty(), axis, n, g) == Some(Seq::<T>::empty()),
        group_regions(a, axis, n, g) matches Some(x) ==> (group_region(t, axis, n, g) matches Some(y)
            ==> group_regions(a.push(t), axis, n, g) == Some(x + y)),
        group_region(t, axis, n, g) is None ==> group_regions(a.push(t), axis, n, g) is None,
{
    assert(a.push(t).drop_last() =~= a);
}

/// Nested lists are read out value by value, in order.
pub proof fn lists_are_read_in_order(s: Seq<JsonV>, x: JsonV)
    ensures
        all_flattened(Seq::empty()).len() == 0,
        all_flattened(s.push(x)) == all_flattened(s) + flattened(x),
        !(x is Array) ==> flattened(x) == seq![x],
        flattened(JsonV::Array(s)) == all_flattened(s),
{
    reveal_with_fuel(all_flattened, 2);
    reveal_with_fuel(flattened, 2);
    assert(s.push(x).drop_last() =~= s);
}

/// The figure of the host's memory is the last that is given under its label.
pub proof fn figures_stand_under_their_label(lines: Seq<Seq<char>>, line: Seq<char>, label: Seq<char>)
    ensures
        figure(Seq::empty(), label) is None,
        !label.is_prefix_of(line) ==> figure(lines.push(line), label) == figure(lines, label),
        label.is_prefix_of(line) ==> figure(lines.push(line), label) == unsigned_up_to(
            first_word(line.skip(label.len() as int)),
            u64::MAX as nat,
        ),
{
    assert(lines.push(line).drop_last() =~= lines);
}

/// Texts are cut where the separator stands and nowhere else, and put together again
/// they are what they were.
pub proof fn texts_are_cut_at_separators(s: Seq<char>, c: char, x: char)
    ensures
        split_on(Seq::empty(), c) == seq![Seq::<char>::empty()],
        split_on(s.push(c), c) == split_on(s, c).push(Seq::empty()),
        x != c ==> split_on(s.push(x), c).len() == split_on(s, c).len() && split_on(
            s.push(x),
            c,
        ).last() == split_on(s, c).last().push(x),
        last_position(s.push(c), c) == Some(s.len() as int),
        x != c ==> last_position(s.push(x), c) == last_position(s, c),
        last_position(Seq::empty(), c) is None,
{
    assert(s.push(c).drop_last() =~= s);
    assert(s.push(x).drop_last() =~= s);
    crate::text::lemma_split_nonempty(s, c);
}

/// White space around a text goes, and nothing else does.
pub proof fn texts_are_trimmed(s: Seq<char>, x: char)
    ensures
        is_space(' ') && is_space('\n') && is_space('\t') && !is_space('a') && !is_space('0')
            && !is_space(':'),
        is_space(x) ==> trimmed_start(seq![x] + s) == trimmed_start(s),
        !is_space(x) ==> trimmed_start(seq![x] + s) == seq![x] + s,
        is_space(x) ==> trimmed_end(s.push(x)) == trimmed_end(s),
        !is_space(x) ==> trimmed_end(s.push(x)) == s.push(x),
        trimmed(s) == trimmed_end(trimmed_start(s)),
{
    assert((seq![x] + s).drop_first() =~= s);
    assert(s.push(x).drop_last() =~= s);
}

/// Digits are read from the highest on, and texts are ordered by their first
/// difference.
pub proof fn digits_are_read_from_the_highest(s: Seq<char>, d: nat, a: char, b: char, t: Seq<char>)
    requires
        d < 10,
    ensures
        digits_value(s.push(digit_char(d))) == 10 * digits_value(s) + d,
        digits_value(Seq::empty()) == 0,
        a < b ==> text_less(seq![a] + s, seq![b] + t) && !text_less(seq![b] + t, seq![a] + s),
        text_less(seq![a] + s, seq![a] + t) == text_less(s, t),
        !text_less(s, Seq::empty()),
        s.len() > 0 ==> text_less(Seq::empty(), s),
{
    assert(s.push(digit_char(d)).drop_last() =~= s);
    assert((seq![a] + s).drop_first() =~= s);
    assert((seq![b] + t).drop_first() =~= t);
    assert((seq![a] + t).drop_first() =~= t);
}

/// What follows a beginning is the rest of a text, and a part of a text is found where
/// it stands.
pub proof fn parts_of_texts_are_found(a: Seq<char>, p: Seq<char>, b: Seq<char>)
    ensures
        after_prefix(p + b, p) == Some(b),
        occurs_at(a + p + b, p, a.len() as int),
        after_prefix(b, p) is Some ==> p + after_prefix(b, p)->0 == b,
{
    assert((p + b).skip(p.len() as int) =~= b);
    assert(p.is_prefix_of(p + b)) by {
        assert((p + b).subrange(0, p.len() as int) =~= p);
    }
    assert((a + p + b).subrange(a.len() as int, (a.len() + p.len()) as int) =~= p);
    if after_prefix(b, p) is Some {
        assert(p == b.subrange(0, p.len() as int));
        assert(p + b.skip(p.len() as int) =~= b);
    }
}

} // verus!
