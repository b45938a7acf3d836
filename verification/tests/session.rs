use chat_relay::dispatcher::is_direct_only;
use chat_relay::model::{Message, MessageType, ProtocolError, UserInfo};
use chat_relay::session::{
    archive_record, finish_history, finish_login, finish_register, process_message,
    shutdown_notice, ServerAction, UserRecord, HISTORY_LIMIT,
};

fn incoming(payload: MessageType) -> Message {
    Message::from_payload(payload, 42)
}

#[test]
fn username_change_broadcasts_old_name_under_new_author() {
    let mut user = UserInfo::anonymous();
    let action = process_message(
        &mut user,
        incoming(MessageType::UserNameChange("Alice".to_string())),
    )
    .unwrap();
    match action {
        ServerAction::Broadcast(out) => {
            assert_eq!(
                out.message,
                MessageType::UserNameChange("<anonymous user>".to_string())
            );
            assert_eq!(out.user_info.username, "Alice");
            assert_eq!(out.datetime, 42);
        }
        _ => panic!("a name change must be broadcast"),
    }
    assert_eq!(user.username, "Alice");
    assert_eq!(user.id, 0);
    assert_eq!(user.color, (255, 255, 255));
}

#[test]
fn color_change_broadcasts_old_color_under_new_one() {
    let mut user = UserInfo::anonymous();
    let action = process_message(&mut user, incoming(MessageType::UserColorChange(1, 2, 3)))
        .unwrap();
    match action {
        ServerAction::Broadcast(out) => {
            assert_eq!(out.message, MessageType::UserColorChange(255, 255, 255));
            assert_eq!(out.user_info.color, (1, 2, 3));
        }
        _ => panic!("a colour change must be broadcast"),
    }
    assert_eq!(user.color, (1, 2, 3));
}

#[test]
fn text_passes_through_with_session_author() {
    let mut user = UserInfo {
        id: 7,
        username: "alice".to_string(),
        color: (9, 9, 9),
    };
    let action = process_message(&mut user, incoming(MessageType::Text("hi".to_string())))
        .unwrap();
    match action {
        ServerAction::Broadcast(out) => {
            assert_eq!(out.message, MessageType::Text("hi".to_string()));
            // the author is the session's identity, never the client-supplied one
            assert_eq!(out.user_info.id, 7);
            assert_eq!(out.user_info.username, "alice");
        }
        _ => panic!("text must be broadcast"),
    }
}

#[test]
fn disconnect_says_farewell_then_terminates() {
    let mut user = UserInfo::anonymous();
    let action = process_message(&mut user, incoming(MessageType::UserDisconnect())).unwrap();
    match action {
        ServerAction::Disconnect(out) => {
            assert_eq!(out.message, MessageType::UserDisconnect());
        }
        _ => panic!("a disconnect must end the session"),
    }
}

#[test]
fn responses_inbound_violate_direction() {
    let mut user = UserInfo::anonymous();
    assert_eq!(
        process_message(&mut user, incoming(MessageType::LoginResponse(None))),
        Err(ProtocolError::Direction)
    );
    assert_eq!(
        process_message(&mut user, incoming(MessageType::RegisterResponse(None))),
        Err(ProtocolError::Direction)
    );
    assert_eq!(
        process_message(
            &mut user,
            incoming(MessageType::OldMessagesResponse(vec![]))
        ),
        Err(ProtocolError::Direction)
    );
}

#[test]
fn login_success_is_direct_and_updates_session() {
    let mut user = UserInfo::anonymous();
    let action = process_message(
        &mut user,
        incoming(MessageType::LoginRequest(
            "alice".to_string(),
            "correct".to_string(),
        )),
    )
    .unwrap();
    assert_eq!(
        action,
        ServerAction::NeedsLogin("alice".to_string(), "correct".to_string())
    );
    // the gateway answers with the stored record
    let reply = finish_login(
        &mut user,
        Some(UserRecord {
            id: 11,
            username: "alice".to_string(),
            color: Some((1, 2, 3)),
        }),
        42,
    );
    match &reply.message {
        MessageType::LoginResponse(Some(info)) => {
            assert_eq!(info.id, 11);
            assert_eq!(info.username, "alice");
            assert_eq!(info.color, (1, 2, 3));
        }
        _ => panic!("a successful login must answer with the user"),
    }
    // response kinds go to the requester alone
    assert!(is_direct_only(&reply.message));
    assert_eq!(user.id, 11);
}

#[test]
fn login_failure_is_direct_and_leaves_session() {
    let mut user = UserInfo::anonymous();
    let reply = finish_login(&mut user, None, 42);
    assert_eq!(reply.message, MessageType::LoginResponse(None));
    assert!(is_direct_only(&reply.message));
    assert_eq!(user, UserInfo::anonymous());
}

#[test]
fn register_updates_session_with_default_color() {
    let mut user = UserInfo::anonymous();
    let reply = finish_register(
        &mut user,
        UserRecord {
            id: 5,
            username: "carol".to_string(),
            color: None,
        },
        42,
    );
    match &reply.message {
        MessageType::RegisterResponse(Some(info)) => {
            assert_eq!(info.id, 5);
            // no stored colour resolves to white
            assert_eq!(info.color, (255, 255, 255));
        }
        _ => panic!("a registration must answer with the created user"),
    }
    assert_eq!(user.id, 5);
}

#[test]
fn history_reply_keeps_at_most_twenty_entries() {
    let user = UserInfo {
        id: 7,
        username: "alice".to_string(),
        color: (1, 1, 1),
    };
    let mut entries = Vec::new();
    for i in 0..25 {
        entries.push((format!("message {}", i), UserInfo::anonymous()));
    }
    let reply = finish_history(&user, Some(entries), 42);
    match &reply.message {
        MessageType::OldMessagesResponse(kept) => {
            assert_eq!(kept.len(), HISTORY_LIMIT);
            assert_eq!(kept[0].0, "message 0");
            assert_eq!(kept[19].0, "message 19");
        }
        _ => panic!("a history request must answer with entries"),
    }
    assert_eq!(reply.user_info.username, "alice");
    assert!(is_direct_only(&reply.message));
}

#[test]
fn history_failure_turns_into_recoverable_error() {
    let user = UserInfo::anonymous();
    let reply = finish_history(&user, None, 42);
    assert_eq!(
        reply.message,
        MessageType::RecoverableError("Could not fetch message history.".to_string())
    );
}

#[test]
fn archiver_stores_text_under_session_id() {
    let session = UserInfo {
        id: 7,
        username: "alice".to_string(),
        color: (1, 1, 1),
    };
    // the client-supplied author id is ignored; the session's id is stamped
    let msg = Message {
        message: MessageType::Text("remember me".to_string()),
        user_info: UserInfo {
            id: 999,
            username: "forged".to_string(),
            color: (0, 0, 0),
        },
        datetime: 42,
    };
    assert_eq!(
        archive_record(&msg, &session),
        Some((7, "remember me".to_string()))
    );
    let other = Message::from_payload(MessageType::UserConnect(), 42);
    assert_eq!(archive_record(&other, &session), None);
}

#[test]
fn shutdown_notice_carries_the_stop_message() {
    let notice = shutdown_notice(42);
    assert_eq!(
        notice.message,
        MessageType::UnrecoverableError("Server is stopped. Try connect later.".to_string())
    );
    assert_eq!(notice.datetime, 42);
}
