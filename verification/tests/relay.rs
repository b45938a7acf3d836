use chat_relay::dispatcher::{broadcast_targets, delivery_plan, is_direct_only, shutdown_notices};
use chat_relay::model::{MessageType, UserInfo};
use chat_relay::registry::Registry;
use chat_relay::text::{remove_new_line, to_lowercase, to_no_spaces, to_reverse, to_uppercase};

fn named(id: i32, name: &str) -> UserInfo {
    UserInfo {
        id,
        username: name.to_string(),
        color: (255, 255, 255),
    }
}

#[test]
fn registry_tracks_sessions() {
    let mut reg = Registry::new();
    assert!(reg.is_empty());
    reg.insert(1, UserInfo::anonymous());
    reg.insert(2, UserInfo::anonymous());
    assert_eq!(reg.len(), 2);
    assert!(reg.contains(1));
    assert!(!reg.contains(3));
    // a login rewrites the session's entry in place
    reg.insert(1, named(11, "alice"));
    assert_eq!(reg.len(), 2);
    assert_eq!(reg.get(1).unwrap().username, "alice");
    reg.remove(1);
    assert!(!reg.contains(1));
    assert_eq!(reg.len(), 1);
    // removing an absent identity changes nothing
    reg.remove(1);
    assert_eq!(reg.len(), 1);
}

#[test]
fn broadcast_reaches_everyone_but_the_author() {
    let mut reg = Registry::new();
    reg.insert(1, UserInfo::anonymous());
    reg.insert(2, UserInfo::anonymous());
    reg.insert(3, UserInfo::anonymous());
    let snapshot = reg.snapshot_ids();
    let targets = broadcast_targets(&snapshot, 2);
    assert_eq!(targets.len(), 2);
    assert!(targets.contains(&1));
    assert!(targets.contains(&3));
    assert!(!targets.contains(&2));
    // text fans out; responses never do
    assert!(!is_direct_only(&MessageType::Text("hi".to_string())));
    assert!(is_direct_only(&MessageType::LoginResponse(None)));
    assert!(is_direct_only(&MessageType::RegisterResponse(None)));
    assert!(is_direct_only(&MessageType::OldMessagesResponse(vec![])));
    // the dispatcher's whole plan: a response reaches its requester alone
    let plan = delivery_plan(&snapshot, 2, &MessageType::LoginResponse(None));
    assert_eq!(plan, vec![2]);
    let plan = delivery_plan(&snapshot, 2, &MessageType::Text("hi".to_string()));
    assert_eq!(plan.len(), 2);
    assert!(!plan.contains(&2));
}

#[test]
fn shutdown_notifies_every_session_and_empties_the_registry() {
    let mut reg = Registry::new();
    reg.insert(1, UserInfo::anonymous());
    reg.insert(2, named(11, "alice"));
    reg.insert(3, named(12, "bob"));
    let notices = shutdown_notices(&reg, 42);
    // exactly one farewell per active session
    assert_eq!(notices.len(), 3);
    let mut ids: Vec<u64> = notices.iter().map(|p| p.0).collect();
    ids.sort();
    assert_eq!(ids, vec![1, 2, 3]);
    for (_, msg) in &notices {
        assert_eq!(
            msg.message,
            MessageType::UnrecoverableError("Server is stopped. Try connect later.".to_string())
        );
    }
    reg.clear();
    assert!(reg.is_empty());
}

#[test]
fn line_endings_are_trimmed() {
    let mut s = "hello\r\n".to_string();
    remove_new_line(&mut s);
    assert_eq!(s, "hello");
    let mut s = "hello\n".to_string();
    remove_new_line(&mut s);
    assert_eq!(s, "hello");
    let mut s = "hello\n\r".to_string();
    remove_new_line(&mut s);
    assert_eq!(s, "hello\n");
    let mut s = "hello".to_string();
    remove_new_line(&mut s);
    assert_eq!(s, "hello");
    let mut s = String::new();
    remove_new_line(&mut s);
    assert_eq!(s, "");
}

#[test]
fn conversions_transform_their_input() {
    assert_eq!(to_lowercase("AhOj SvĚte"), "ahoj světe");
    assert_eq!(to_uppercase("AhOj SvĚte"), "AHOJ SVĚTE");
    assert_eq!(to_no_spaces("a b  c"), "abc");
    assert_eq!(to_reverse("abc"), "cba");
    assert_eq!(to_reverse(""), "");
    // reversal works on grapheme clusters: a combining mark stays on its base
    assert_eq!(to_reverse("a\u{0301}"), "a\u{0301}");
    assert_eq!(to_reverse("a\u{0301}bc"), "cba\u{0301}");
}
