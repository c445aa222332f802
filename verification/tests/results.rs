use sn2_validator::results::{
    build_work_key, consistency_scope, is_disconnect_failure, ConsistencyScope,
};

#[test]
fn unreachable_miner_failures_are_disconnects() {
    for msg in [
        "QUIC query: connection error: Reconnection attempts exhausted for 1.2.3.4:8080 (5/5), awaiting registry refresh",
        "QUIC query: connection error: Reconnection to 1.2.3.4:8080 in backoff, next retry in 900ms",
        "QUIC query: connection error: Failed to open stream: connection lost",
        "QUIC query: handshake error: no authenticated route for hk1 at 1.2.3.4:8080",
    ] {
        assert!(is_disconnect_failure(msg), "must be a disconnect: {msg}");
    }
}

#[test]
fn reached_miner_failures_are_not_disconnects() {
    for msg in [
        "handler error: request processing failed",
        "QUIC query: transport error: query timed out",
        "verification failed",
        "QUIC query: connection error: QUIC endpoint not initialized",
        "handler error: QUIC query: connection error: Reconnection to 1.2.3.4:8080 in backoff",
    ] {
        assert!(!is_disconnect_failure(msg), "must not be a disconnect: {msg}");
    }
}

#[test]
fn kinds_of_work_have_names() {
    assert_eq!(build_work_key(Some("c"), Some("1")), "c:1");
    assert_eq!(build_work_key(Some("c"), None), "c");
    assert_eq!(build_work_key(None, None), "");
}

#[test]
fn outputs_are_compared_where_it_is_known_how() {
    assert_eq!(consistency_scope(true, true, None, false), ConsistencyScope::Whole);
    assert_eq!(consistency_scope(true, true, Some(2), true), ConsistencyScope::Unit(2));
    assert_eq!(consistency_scope(true, true, Some(2), false), ConsistencyScope::Skip);
    assert_eq!(consistency_scope(false, true, None, false), ConsistencyScope::Skip);
    assert_eq!(consistency_scope(true, false, None, false), ConsistencyScope::Skip);
}
