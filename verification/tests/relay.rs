use sn2_validator::json::Json;
use sn2_validator::relay::{
    auth_challenge, auth_confirmed, auth_response, busy_reply, closed_with, decode_frame,
    decode_submit_payload, encode_frame, handle_proof_req, handle_submit, parse_circuit_payload,
    pong_overdue, reconnect, send_error, send_notification, send_result, AuthError, ConnectionEnd,
    FrameTooShort, PendingRequests, Reconnect, RelayAction, SubmitPayloadError, BUSY,
    CLOSE_SUPERSEDED, INVALID_PARAMS, MSG_AUTH_CHALLENGE, MSG_AUTH_RESPONSE, MSG_AUTH_SUCCESS,
    MSG_BATCH_DONE, MSG_ERROR, MSG_PROOF_REQ, MSG_PROOF_RESULT, MSG_STATUS_REQ, MSG_STATUS_RESULT,
    MSG_SUBMIT, MSG_SUBMIT_RESULT, NOT_FOUND,
};

#[test]
fn frames_read_back() {
    let frame = encode_frame(MSG_SUBMIT, 0x01020304, b"xyz");
    assert_eq!(frame, vec![0x10, 1, 2, 3, 4, b'x', b'y', b'z']);
    assert_eq!(decode_frame(&frame), Ok((MSG_SUBMIT, 0x01020304, &b"xyz"[..])));
    assert_eq!(decode_frame(&frame[..4]), Err(FrameTooShort));
}

fn submit_payload(meta: &[u8], tensor: &[u8]) -> Vec<u8> {
    let mut p = (meta.len() as u32).to_be_bytes().to_vec();
    p.extend_from_slice(meta);
    p.extend_from_slice(tensor);
    p
}

#[test]
fn submissions_hold_a_description_and_a_tensor() {
    let p = submit_payload(b"{\"circuit_id\":\"c\"}", &[1, 2, 3]);
    let (meta, tensor) = decode_submit_payload(&p).unwrap();
    assert_eq!(meta.get("circuit_id").and_then(|v| v.as_str()), Some("c"));
    assert_eq!(tensor, Some(&[1u8, 2, 3][..]));
    let p = submit_payload(b"{}", &[]);
    assert_eq!(decode_submit_payload(&p).unwrap().1, None);
    assert!(matches!(decode_submit_payload(&[0, 0]), Err(SubmitPayloadError::TooShort)));
    let p = submit_payload(b"not json", &[]);
    assert!(matches!(decode_submit_payload(&p), Err(SubmitPayloadError::BadMeta)));
    let p = [0, 0, 0, 9, b'{', b'}'];
    assert!(matches!(decode_submit_payload(&p), Err(SubmitPayloadError::Truncated)));
}

fn parsed(text: &str) -> Json {
    Json::parse(text.as_bytes()).unwrap()
}

#[test]
fn circuits_are_named_in_the_description() {
    let meta = parsed("{\"circuit_id\":\"c\",\"inputs\":{\"a\":1}}");
    let (id, inputs) = parse_circuit_payload(&meta).unwrap();
    assert_eq!(id, "c");
    assert_eq!(inputs.get("a").and_then(|v| v.as_u64()), Some(1));
    assert!(parse_circuit_payload(&parsed("{}")).is_none());
}

fn reply_of(action: RelayAction) -> (u8, u32, Json) {
    match action {
        RelayAction::Reply(frame) => {
            let (kind, id, payload) = decode_frame(&frame).unwrap();
            (kind, id, Json::parse(payload).unwrap())
        }
        other => panic!("unexpected action {other:?}"),
    }
}

fn code_of(json: &Json) -> i64 {
    match json.get("code") {
        Some(Json::Unsigned(n)) => *n as i64,
        Some(Json::Negative(n)) => *n,
        other => panic!("unexpected code {other:?}"),
    }
}

#[test]
fn a_busy_validator_says_so() {
    let p = submit_payload(b"{\"circuit_id\":\"c\",\"inputs\":{}}", &[]);
    let (kind, id, json) = reply_of(handle_submit(5, &p, false));
    assert_eq!((kind, id), (MSG_ERROR, 5));
    assert_eq!(code_of(&json), BUSY);
    assert_eq!(decode_frame(&busy_reply(5)).unwrap().0, MSG_ERROR);
    match handle_submit(5, &p, true) {
        RelayAction::Submit(s) => {
            assert_eq!(s.circuit_id, "c");
            assert_eq!(s.request_id, Some(5));
        }
        other => panic!("unexpected action {other:?}"),
    }
    let (_, _, json) = reply_of(handle_submit(5, &[1], true));
    assert_eq!(code_of(&json), INVALID_PARAMS);
}

#[test]
fn proofs_are_asked_for() {
    let p = b"{\"circuit_id\":\"c\",\"inputs\":{}}";
    match handle_proof_req(9, p) {
        RelayAction::Prove(r) => {
            assert_eq!(r.circuit_id, "c");
            assert_eq!(r.request_id, Some(9));
            assert_eq!(r.retry_count, 0);
        }
        other => panic!("unexpected action {other:?}"),
    }
    let (kind, _, json) = reply_of(handle_proof_req(9, b"{}"));
    assert_eq!(kind, MSG_ERROR);
    assert_eq!(code_of(&json), INVALID_PARAMS);
}

#[test]
fn results_are_kept_until_they_are_delivered() {
    let mut pending = PendingRequests::new();
    let ask = b"{\"run_uid\":\"run\"}";
    let (kind, _, json) = reply_of(pending.handle_status_req(3, ask));
    assert_eq!(kind, MSG_ERROR);
    assert_eq!(code_of(&json), NOT_FOUND);

    pending.register_pending("run");
    let (kind, _, json) = reply_of(pending.handle_status_req(3, ask));
    assert_eq!(kind, MSG_STATUS_RESULT);
    assert_eq!(json.get("status").and_then(|v| v.as_str()), Some("processing"));

    pending.set_request_result("other", Json::Bool(true));
    pending.set_request_result("run", Json::Bool(true));
    match pending.handle_status_req(3, ask) {
        RelayAction::Deliver { reply, run_uid } => {
            assert_eq!(run_uid, "run");
            let (kind, id, payload) = decode_frame(&reply).unwrap();
            assert_eq!((kind, id), (MSG_STATUS_RESULT, 3));
            assert_eq!(payload, b"true");
        }
        other => panic!("unexpected action {other:?}"),
    }
    pending.remove_pending("run");
    assert_eq!(reply_of(pending.handle_status_req(3, ask)).0, MSG_ERROR);
}

#[test]
fn messages_are_told_apart_by_their_kind() {
    let pending = PendingRequests::new();
    let p = submit_payload(b"{\"circuit_id\":\"c\",\"inputs\":{}}", &[]);
    assert!(matches!(
        pending.handle_binary_message(MSG_SUBMIT, 1, &p, true),
        RelayAction::Submit(_)
    ));
    let q = b"{\"circuit_id\":\"c\",\"inputs\":{}}";
    assert!(matches!(
        pending.handle_binary_message(MSG_PROOF_REQ, 1, q, false),
        RelayAction::Prove(_)
    ));
    assert!(matches!(
        pending.handle_binary_message(MSG_STATUS_REQ, 1, b"{\"run_uid\":\"r\"}", false),
        RelayAction::Reply(_)
    ));
    assert!(matches!(
        pending.handle_binary_message(0x7f, 1, b"", true),
        RelayAction::Ignore
    ));
}

#[test]
fn replies_carry_their_request() {
    let frame = send_result(MSG_SUBMIT_RESULT, 8, &Json::Bool(false));
    assert_eq!(decode_frame(&frame).unwrap(), (MSG_SUBMIT_RESULT, 8, &b"false"[..]));
    let frame = send_error(8, -1, "no");
    let (kind, id, payload) = decode_frame(&frame).unwrap();
    assert_eq!((kind, id), (MSG_ERROR, 8));
    let json = Json::parse(payload).unwrap();
    assert_eq!(code_of(&json), -1);
    assert_eq!(json.get("message").and_then(|v| v.as_str()), Some("no"));
    assert_eq!(MSG_PROOF_RESULT, 0x31);
    let frame = send_notification("subnet-2.batch_completed", &Json::Null).unwrap();
    assert_eq!(decode_frame(&frame).unwrap().0, MSG_BATCH_DONE);
    assert!(send_notification("something.else", &Json::Null).is_none());
}

#[test]
fn connections_come_back_more_and_more_slowly() {
    assert_eq!(reconnect(ConnectionEnd::Superseded, 2, 1, 60).0, Reconnect::Never);
    assert_eq!(reconnect(ConnectionEnd::Closed, 2, 1, 60).0, Reconnect::AtOnce);
    let (step, next) = reconnect(ConnectionEnd::Failed, 2, 1, 60);
    assert_eq!(step, Reconnect::After(2));
    assert_eq!(next, 4);
    assert_eq!(reconnect(ConnectionEnd::Failed, 40, 1, 60).1, 60);
    assert_eq!(closed_with(Some(CLOSE_SUPERSEDED)), ConnectionEnd::Superseded);
    assert_eq!(closed_with(Some(1000)), ConnectionEnd::Closed);
    assert_eq!(closed_with(None), ConnectionEnd::Closed);
}

#[test]
fn a_challenge_is_answered_with_a_signature() {
    let frame = encode_frame(MSG_AUTH_CHALLENGE, 0, b"{\"challenge\":\"AQID\"}");
    assert_eq!(auth_challenge(&frame), Ok(vec![1, 2, 3]));
    let frame = encode_frame(MSG_SUBMIT, 0, b"{}");
    assert_eq!(auth_challenge(&frame), Err(AuthError::UnexpectedType(MSG_SUBMIT)));
    let frame = encode_frame(MSG_AUTH_CHALLENGE, 0, b"{}");
    assert_eq!(auth_challenge(&frame), Err(AuthError::MissingChallenge));
    let frame = encode_frame(MSG_AUTH_CHALLENGE, 0, b"nope");
    assert_eq!(auth_challenge(&frame), Err(AuthError::BadJson));
    let frame = encode_frame(MSG_AUTH_CHALLENGE, 0, b"{\"challenge\":\"?\"}");
    assert_eq!(auth_challenge(&frame), Err(AuthError::BadBase64));
    assert_eq!(auth_challenge(&[1]), Err(AuthError::BadFrame));

    let answer = auth_response("5F", &[1, 2, 3]);
    let (kind, _, payload) = decode_frame(&answer).unwrap();
    assert_eq!(kind, MSG_AUTH_RESPONSE);
    let text = String::from_utf8(payload.to_vec()).unwrap();
    assert!(text.contains("\"5F\"") && text.contains("AQID"), "{text}");

    assert_eq!(auth_confirmed(&encode_frame(MSG_AUTH_SUCCESS, 0, b"{}")), Ok(()));
    assert!(auth_confirmed(&encode_frame(MSG_ERROR, 0, b"{}")).is_err());
}

#[test]
fn silence_ends_a_connection() {
    assert!(!pong_overdue(100, 90, 10));
    assert!(pong_overdue(101, 90, 10));
}
