use chat_relay::codec::{decode, decode_payload, encode, header_length};
use chat_relay::model::{Message, MessageType, ProtocolError, UserInfo};

fn user(id: i32, name: &str, color: (u8, u8, u8)) -> UserInfo {
    UserInfo {
        id,
        username: name.to_string(),
        color,
    }
}

fn envelope(payload: MessageType) -> Message {
    Message {
        message: payload,
        user_info: user(7, "alice", (10, 20, 30)),
        datetime: 1_700_000_000_123,
    }
}

fn round_trip(payload: MessageType) {
    let original = envelope(payload);
    let frame = encode(&original).unwrap();
    let back = decode(frame.as_slice()).unwrap();
    assert_eq!(back, original);
}

#[test]
fn round_trip_text() {
    round_trip(MessageType::Text("hello, world".to_string()));
}

#[test]
fn round_trip_image() {
    round_trip(MessageType::Image(vec![0, 1, 2, 255, 254]));
}

#[test]
fn round_trip_file() {
    round_trip(MessageType::File("notes.txt".to_string(), vec![9, 8, 7]));
}

#[test]
fn round_trip_presence() {
    round_trip(MessageType::UserConnect());
    round_trip(MessageType::UserDisconnect());
}

#[test]
fn round_trip_identity_changes() {
    round_trip(MessageType::UserNameChange("Alice".to_string()));
    round_trip(MessageType::UserColorChange(1, 2, 3));
}

#[test]
fn round_trip_errors() {
    round_trip(MessageType::RecoverableError("try again".to_string()));
    round_trip(MessageType::UnrecoverableError("stop".to_string()));
}

#[test]
fn round_trip_auth() {
    round_trip(MessageType::LoginRequest(
        "alice".to_string(),
        "correct".to_string(),
    ));
    round_trip(MessageType::LoginResponse(None));
    round_trip(MessageType::LoginResponse(Some(user(3, "bob", (0, 0, 0)))));
    round_trip(MessageType::RegisterRequest(
        "carol".to_string(),
        "pw".to_string(),
        4,
        5,
        6,
    ));
    round_trip(MessageType::RegisterResponse(Some(user(
        4,
        "carol",
        (4, 5, 6),
    ))));
    round_trip(MessageType::RegisterResponse(None));
}

#[test]
fn round_trip_history() {
    round_trip(MessageType::OldMessagesRequest());
    round_trip(MessageType::OldMessagesResponse(vec![]));
    round_trip(MessageType::OldMessagesResponse(vec![
        ("first".to_string(), user(1, "a", (1, 1, 1))),
        ("second".to_string(), user(2, "b", (2, 2, 2))),
    ]));
}

#[test]
fn round_trip_non_ascii_text() {
    round_trip(MessageType::Text("přeložený text 🦀".to_string()));
}

#[test]
fn frame_opens_with_big_endian_length() {
    let original = envelope(MessageType::UserConnect());
    let frame = encode(&original).unwrap();
    let payload_len = frame.len() - 4;
    assert_eq!(frame[0], ((payload_len >> 24) & 0xff) as u8);
    assert_eq!(frame[1], ((payload_len >> 16) & 0xff) as u8);
    assert_eq!(frame[2], ((payload_len >> 8) & 0xff) as u8);
    assert_eq!(frame[3], (payload_len & 0xff) as u8);
    assert_eq!(header_length(&frame[..4]), Some(payload_len as u32));
    assert_eq!(header_length(&frame[..2]), None);
    let body = decode_payload(&frame[4..]).unwrap();
    assert_eq!(body, original);
}

#[test]
fn malformed_frames_are_rejected() {
    // too short for a header
    assert_eq!(decode(&[1, 2]), Err(ProtocolError::Malformed));
    // header names more bytes than follow
    assert_eq!(decode(&[0, 0, 0, 5, 1, 2]), Err(ProtocolError::Malformed));
    // header names fewer bytes than follow
    let mut frame = encode(&envelope(MessageType::UserConnect())).unwrap();
    frame.push(0);
    assert_eq!(decode(frame.as_slice()), Err(ProtocolError::Malformed));
    // unknown payload tag
    assert_eq!(
        decode(&[0, 0, 0, 1, 99]),
        Err(ProtocolError::Malformed)
    );
    // a text payload whose bytes are no UTF-8
    let mut bad = encode(&envelope(MessageType::Text("aaaa".to_string()))).unwrap();
    bad[9] = 0xff;
    assert_eq!(decode(bad.as_slice()), Err(ProtocolError::Malformed));
    // a truncated payload
    let good = encode(&envelope(MessageType::Text("hello".to_string()))).unwrap();
    let cut = &good[..good.len() - 3];
    assert_eq!(decode_payload(&cut[4..]), Err(ProtocolError::Malformed));
}
