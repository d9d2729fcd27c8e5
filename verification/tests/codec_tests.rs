use sowback::codec::DecodeError;
use sowback::protocol::{decode_message, encode_message, Frame, Message};

fn round_trip(m: &Message) -> Message {
    let bytes = encode_message(m);
    let (back, consumed) = decode_message(&bytes, 0).expect("decodes");
    assert_eq!(consumed, bytes.len());
    // the decoded message encodes to the same bytes
    assert_eq!(encode_message(&back), bytes);
    back
}

#[test]
fn auth_round_trip() {
    let m = Message::Auth {
        enc_token: vec![1, 2, 3, 255],
        client_id: "client-1".to_string(),
        name: Some("box".to_string()),
    };
    match round_trip(&m) {
        Message::Auth { enc_token, client_id, name } => {
            assert_eq!(enc_token, vec![1, 2, 3, 255]);
            assert_eq!(client_id, "client-1");
            assert_eq!(name, Some("box".to_string()));
        }
        other => panic!("wrong variant: {:?}", other),
    }
}

#[test]
fn auth_response_round_trip() {
    let m = Message::AuthResponse {
        success: true,
        session_key: Some(vec![9u8; 32]),
        name: None,
        error: None,
    };
    match round_trip(&m) {
        Message::AuthResponse { success, session_key, name, error } => {
            assert!(success);
            assert_eq!(session_key, Some(vec![9u8; 32]));
            assert_eq!(name, None);
            assert_eq!(error, None);
        }
        other => panic!("wrong variant: {:?}", other),
    }
}

#[test]
fn proxy_config_round_trip() {
    let m = Message::ProxyConfig {
        local_ip: "127.0.0.1".to_string(),
        local_port: 19999,
        remote_port: 28000,
    };
    match round_trip(&m) {
        Message::ProxyConfig { local_ip, local_port, remote_port } => {
            assert_eq!(local_ip, "127.0.0.1");
            assert_eq!(local_port, 19999);
            assert_eq!(remote_port, 28000);
        }
        other => panic!("wrong variant: {:?}", other),
    }
}

#[test]
fn remaining_variants_round_trip() {
    let all = vec![
        Message::ProxyConfigResponse {
            success: false,
            proxy_id: None,
            error: Some("Port 28000 already in use by another client".to_string()),
        },
        Message::Heartbeat { timestamp: 1_700_000_000 },
        Message::HeartbeatResponse { timestamp: u64::MAX },
        Message::NewConnection {
            proxy_id: "p-1".to_string(),
            connection_id: "c-1".to_string(),
        },
        Message::ConnectionResponse {
            connection_id: "c-1".to_string(),
            success: true,
            error: None,
        },
        Message::Data { connection_id: "c-1".to_string(), data: vec![0u8; 4096] },
        Message::CloseConnection { connection_id: "c-1".to_string() },
        Message::Error { message: "boom".to_string() },
    ];
    for m in &all {
        round_trip(m);
    }
}

#[test]
fn unicode_strings_round_trip() {
    let m = Message::Error { message: "proxy déconnecté — 代理已断开".to_string() };
    match round_trip(&m) {
        Message::Error { message } => {
            assert_eq!(message, "proxy déconnecté — 代理已断开");
        }
        other => panic!("wrong variant: {:?}", other),
    }
}

#[test]
fn heartbeat_timestamp_is_little_endian() {
    let m = Message::Heartbeat { timestamp: 0x0102030405060708 };
    let bytes = encode_message(&m);
    assert_eq!(bytes[0], 4); // discriminant
    assert_eq!(bytes[1..9].to_vec(), vec![0x08, 0x07, 0x06, 0x05, 0x04, 0x03, 0x02, 0x01]);
}

#[test]
fn decode_rejects_bad_input() {
    assert!(matches!(decode_message(&[], 0), Err(DecodeError::Truncated)));
    assert!(matches!(decode_message(&[42], 0), Err(DecodeError::Malformed)));
    // bool byte out of range in an AuthResponse
    assert!(matches!(decode_message(&[1, 7], 0), Err(DecodeError::Malformed)));
    // string length prefix with no bytes after it
    assert!(matches!(decode_message(&[9, 5], 0), Err(DecodeError::Truncated)));
    // invalid UTF-8 inside a string field
    assert!(matches!(decode_message(&[9, 2, 0xff, 0xfe], 0), Err(DecodeError::Malformed)));
}

#[test]
fn frame_has_big_endian_length_prefix() {
    let frame = Frame::new(Message::CloseConnection { connection_id: "x".to_string() });
    let bytes = frame.serialize().unwrap();
    let payload_len = (bytes.len() - 4) as u32;
    assert_eq!(bytes[0..4].to_vec(), payload_len.to_be_bytes().to_vec());

    let (back, consumed) = Frame::deserialize(&bytes).unwrap();
    assert_eq!(consumed, bytes.len());
    assert_eq!(back.length, payload_len);
    match back.message {
        Message::CloseConnection { connection_id } => assert_eq!(connection_id, "x"),
        other => panic!("wrong variant: {:?}", other),
    }
}

#[test]
fn frame_deserialize_needs_whole_frame() {
    let frame = Frame::new(Message::Heartbeat { timestamp: 7 });
    let bytes = frame.serialize().unwrap();
    assert!(Frame::deserialize(&bytes[..3]).is_err());
    assert!(Frame::deserialize(&bytes[..bytes.len() - 1]).is_err());
}

#[test]
fn frame_new_keeps_message_and_zero_length() {
    let frame = Frame::new(Message::Heartbeat { timestamp: 3 });
    assert_eq!(frame.length, 0);
    match frame.message {
        Message::Heartbeat { timestamp } => assert_eq!(timestamp, 3),
        other => panic!("wrong variant: {:?}", other),
    }
}
