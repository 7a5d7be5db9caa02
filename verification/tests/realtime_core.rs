use inline_cli::dispatch::{
    call_step, dispatch_batch, dispatch_call, BatchOutcome, CallOutcome,
};
use inline_cli::protocol::ServerMessage;
use inline_cli::realtime::{
    error_code_label, format_rpc_error, Handshake, HandshakeState, IdGenerator, RealtimeClient,
    RealtimeError, EPOCH_SECONDS,
};

fn result_frame(id: u64, payload: &[u8]) -> ServerMessage {
    ServerMessage::RpcResult {
        req_msg_id: id,
        result: Some(payload.to_vec()),
    }
}

#[test]
fn ids_increase_within_and_across_seconds() {
    let mut generator = IdGenerator::new();
    let now = EPOCH_SECONDS + 1000;
    let a = generator.next_id_at(now);
    let b = generator.next_id_at(now);
    let c = generator.next_id_at(now);
    assert_eq!(b, a + 1);
    assert_eq!(c, b + 1);

    let d = generator.next_id_at(now + 1);
    assert!(d > c);
    // the sequence reset to zero in the new second
    assert_eq!(d & 0xFFFF_FFFF, 0);

    // a clock before the reference epoch saturates to second zero
    let mut early = IdGenerator::new();
    let e = early.next_id_at(EPOCH_SECONDS - 5);
    assert_eq!(e >> 32, 0);
}

#[test]
fn handshake_error_before_open_is_terminal() {
    let mut handshake = Handshake::new();
    assert_eq!(handshake.state, HandshakeState::Connecting);
    handshake.note_init_sent();
    assert_eq!(handshake.state, HandshakeState::Authenticating);

    // unrelated frames are discarded without affecting state
    handshake.on_frame(&ServerMessage::Unknown);
    handshake.on_frame(&result_frame(7, b"x"));
    assert_eq!(handshake.state, HandshakeState::Authenticating);

    handshake.on_frame(&ServerMessage::ConnectionError);
    assert_eq!(handshake.state, HandshakeState::Failed);

    // a later open can never resurrect the connection
    handshake.on_frame(&ServerMessage::ConnectionOpen);
    assert_eq!(handshake.state, HandshakeState::Failed);
    assert!(!handshake.is_open());
}

#[test]
fn handshake_open_allows_calls() {
    let mut client = RealtimeClient::new();
    let init = client.connection_init_message(b"token".to_vec(), b"1.0".to_vec(), EPOCH_SECONDS);
    // the greeting is built like any other message: seq 1, one id allocated
    assert_eq!(init.seq, 1);
    assert_eq!(client.seq, 1);
    client.handshake.on_frame(&ServerMessage::ConnectionOpen);
    assert!(client.handshake.is_open());

    // each call steps the sequence by one and allocates a fresh id
    let call = client.rpc_call_message(4, b"input".to_vec(), EPOCH_SECONDS);
    assert_eq!(call.seq, 2);
    assert_eq!(call.id, init.id + 1);
    let next = client.rpc_call_message(4, b"more".to_vec(), EPOCH_SECONDS);
    assert_eq!(next.seq, 3);
    assert_eq!(next.id, call.id + 1);
    let later = client.rpc_call_message(4, b"later".to_vec(), EPOCH_SECONDS + 1);
    assert!(later.id > next.id);
}

#[test]
fn stale_results_do_not_reach_the_caller() {
    // P-style scenario: call id 42; the server first emits a stale result
    // for id 7, then the real one.
    let frames = vec![
        result_frame(7, b"stale"),
        result_frame(42, b"real"),
    ];
    match dispatch_call(42, &frames) {
        CallOutcome::Done(Ok(payload)) => assert_eq!(payload, b"real".to_vec()),
        other => panic!("expected the id-42 payload, got {:?}", other),
    }
}

#[test]
fn unrelated_frames_keep_the_call_pending() {
    let frames = vec![
        ServerMessage::Unknown,
        ServerMessage::ConnectionOpen,
        result_frame(7, b"other"),
    ];
    assert!(matches!(dispatch_call(42, &frames), CallOutcome::Pending));
}

#[test]
fn missing_result_payload_is_a_contract_violation() {
    let frame = ServerMessage::RpcResult {
        req_msg_id: 42,
        result: None,
    };
    match call_step(42, &frame) {
        CallOutcome::Done(Err(RealtimeError::MissingResult)) => {}
        other => panic!("expected the missing-result error, got {:?}", other),
    }
}

#[test]
fn connection_error_fails_any_call() {
    match call_step(42, &ServerMessage::ConnectionError) {
        CallOutcome::Done(Err(RealtimeError::ConnectionError)) => {}
        other => panic!("expected a connection error, got {:?}", other),
    }
}

#[test]
fn rpc_error_carries_raw_fields_and_friendly_label() {
    let frame = ServerMessage::RpcError {
        req_msg_id: 42,
        code: 401,
        error_code: 2,
        message: b"token expired".to_vec(),
    };
    match call_step(42, &frame) {
        CallOutcome::Done(Err(RealtimeError::RpcError {
            code,
            error_code,
            message,
            friendly,
        })) => {
            assert_eq!(code, 401);
            assert_eq!(error_code, 2);
            assert_eq!(message, "token expired");
            assert_eq!(friendly, "Not authenticated: token expired (HTTP 401)");
        }
        other => panic!("expected an rpc error, got {:?}", other),
    }
}

#[test]
fn friendly_label_is_not_duplicated() {
    assert_eq!(format_rpc_error(2, "Not authenticated", 0), "Not authenticated");
    assert_eq!(
        format_rpc_error(2, "token expired", 0),
        "Not authenticated: token expired"
    );
    // case-insensitive comparison against the label
    assert_eq!(format_rpc_error(2, "NOT AUTHENTICATED", 0), "Not authenticated");
    assert_eq!(format_rpc_error(2, "", 503), "Not authenticated (HTTP 503)");
    assert_eq!(format_rpc_error(999, "odd", 0), "Unknown RPC error: odd");
    assert_eq!(error_code_label(1), "Bad request");
    assert_eq!(error_code_label(14), "Space owner required");
}

#[test]
fn batch_returns_results_in_submission_order() {
    // calls A, B, C answered in the order C, A, B
    let ids = vec![10u64, 20u64, 30u64];
    let frames = vec![
        result_frame(30, b"C"),
        result_frame(10, b"A"),
        result_frame(20, b"B"),
    ];
    match dispatch_batch(&ids, &frames) {
        BatchOutcome::Done(Ok(results)) => {
            assert_eq!(results, vec![b"A".to_vec(), b"B".to_vec(), b"C".to_vec()]);
        }
        other => panic!("expected the full batch, got {:?}", other),
    }
}

#[test]
fn batch_error_aborts_without_partial_successes() {
    let ids = vec![10u64, 20u64, 30u64];
    let frames = vec![
        result_frame(10, b"A"),
        ServerMessage::RpcError {
            req_msg_id: 20,
            code: 0,
            error_code: 3,
            message: b"slow down".to_vec(),
        },
        result_frame(30, b"C"),
    ];
    match dispatch_batch(&ids, &frames) {
        BatchOutcome::Done(Err(RealtimeError::RpcError {
            error_code, friendly, ..
        })) => {
            assert_eq!(error_code, 3);
            assert_eq!(friendly, "Rate limited: slow down");
        }
        other => panic!("expected the batch error, got {:?}", other),
    }
}

#[test]
fn batch_stays_pending_until_every_call_is_answered() {
    let ids = vec![10u64, 20u64];
    let frames = vec![result_frame(10, b"A"), result_frame(77, b"other")];
    assert!(matches!(dispatch_batch(&ids, &frames), BatchOutcome::Pending));
}

#[test]
fn batch_first_answer_per_id_wins() {
    let ids = vec![10u64];
    let frames = vec![result_frame(10, b"first"), result_frame(10, b"second")];
    match dispatch_batch(&ids, &frames) {
        BatchOutcome::Done(Ok(results)) => assert_eq!(results, vec![b"first".to_vec()]),
        other => panic!("expected the first answer, got {:?}", other),
    }
}
