use inline_cli::codec::{
    classify_frame, decode_server_message, decode_varint, encode_client_message,
    encode_server_message, encode_varint, zigzag_decode, zigzag_encode, FrameAction,
};
use inline_cli::protocol::{ClientBody, ClientMessage, ServerMessage, WsFrame};

#[test]
fn varints_round_trip() {
    for value in [0u64, 1, 127, 128, 300, 16384, u64::MAX] {
        let mut bytes = Vec::new();
        encode_varint(value, &mut bytes);
        let decoded = decode_varint(&bytes, 0).expect("canonical varint decodes");
        assert_eq!(decoded, (value, bytes.len()));
    }
}

#[test]
fn varint_encoding_is_little_endian_base_128() {
    let mut bytes = Vec::new();
    encode_varint(300, &mut bytes);
    assert_eq!(bytes, vec![0xAC, 0x02]);
}

#[test]
fn non_canonical_varints_are_rejected() {
    // a trailing zero continuation group is not the canonical form of 0
    assert!(decode_varint(&vec![0x80, 0x00], 0).is_none());
    // a dangling continuation bit is incomplete
    assert!(decode_varint(&vec![0x80], 0).is_none());
    assert!(decode_varint(&Vec::new(), 0).is_none());
}

#[test]
fn zigzag_round_trips_signed_codes() {
    for value in [0i32, 1, -1, 2, -2, i32::MAX, i32::MIN] {
        let folded = zigzag_encode(value);
        assert_eq!(zigzag_decode(folded), Some(value));
    }
    assert_eq!(zigzag_encode(0), 0);
    assert_eq!(zigzag_encode(-1), 1);
    assert_eq!(zigzag_encode(1), 2);
    assert!(zigzag_decode(u64::MAX).is_none());
}

#[test]
fn client_messages_encode_to_the_specified_bytes() {
    let message = ClientMessage {
        id: 5,
        seq: 1,
        body: ClientBody::RpcCall {
            method: 3,
            input: vec![0xAA, 0xBB],
        },
    };
    // id, seq, body tag, method, input length, input bytes
    assert_eq!(encode_client_message(&message), vec![5, 1, 2, 3, 2, 0xAA, 0xBB]);

    let init = ClientMessage {
        id: 1,
        seq: 1,
        body: ClientBody::ConnectionInit {
            token: b"t".to_vec(),
            client_version: b"1".to_vec(),
        },
    };
    assert_eq!(encode_client_message(&init), vec![1, 1, 1, 1, b't', 1, b'1']);
}

#[test]
fn server_messages_round_trip_through_the_codec() {
    let samples = vec![
        ServerMessage::ConnectionOpen,
        ServerMessage::ConnectionError,
        ServerMessage::RpcResult {
            req_msg_id: 42,
            result: Some(vec![1, 2, 3]),
        },
        ServerMessage::RpcResult {
            req_msg_id: 300,
            result: None,
        },
        ServerMessage::RpcError {
            req_msg_id: 7,
            code: -404,
            error_code: 2,
            message: b"nope".to_vec(),
        },
        ServerMessage::Unknown,
    ];
    for message in samples {
        let bytes = encode_server_message(&message);
        assert_eq!(decode_server_message(&bytes), Some(message));
    }
}

#[test]
fn malformed_envelopes_do_not_decode() {
    // trailing bytes after a complete body
    assert!(decode_server_message(&vec![1, 0]).is_none());
    // truncated result header
    assert!(decode_server_message(&vec![3, 42]).is_none());
    // truncated payload
    assert!(decode_server_message(&vec![3, 42, 1, 5, 0]).is_none());
    // empty payload
    assert!(decode_server_message(&Vec::new()).is_none());
}

#[test]
fn frames_are_classified_per_the_wire_contract() {
    let open = encode_server_message(&ServerMessage::ConnectionOpen);
    match classify_frame(&WsFrame::Binary(open)) {
        FrameAction::Deliver(ServerMessage::ConnectionOpen) => {}
        other => panic!("expected the open frame, got {:?}", other),
    }
    assert!(matches!(classify_frame(&WsFrame::Text), FrameAction::Skip));
    assert!(matches!(classify_frame(&WsFrame::Ping), FrameAction::Skip));
    assert!(matches!(classify_frame(&WsFrame::Pong), FrameAction::Skip));
    assert!(matches!(classify_frame(&WsFrame::Other), FrameAction::Skip));
    // a close is a transport failure; malformed bytes are a decode failure
    assert!(matches!(
        classify_frame(&WsFrame::Close),
        FrameAction::FailConnection
    ));
    assert!(matches!(
        classify_frame(&WsFrame::Binary(vec![3, 42])),
        FrameAction::FailDecode
    ));
    assert!(matches!(
        classify_frame(&WsFrame::Binary(Vec::new())),
        FrameAction::FailDecode
    ));
    // an unassigned one-byte tag is delivered as an unknown body, which
    // the dispatchers discard
    assert!(matches!(
        classify_frame(&WsFrame::Binary(vec![9])),
        FrameAction::Deliver(ServerMessage::Unknown)
    ));
}
