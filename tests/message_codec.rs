use cicada_chat::{
    clock_text, create_msg, create_msg_at, create_sys_msg, deserialize, diff, serialize, ChatMessage,
    MalformedMessage, MessageType,
};

fn msg(user: &str, content: &str, ts: &str, kind: MessageType) -> ChatMessage {
    ChatMessage {
        username: user.to_string(),
        content: content.to_string(),
        timestamp: ts.to_string(),
        message_type: kind,
    }
}

fn is_clock(ts: &str) -> bool {
    let b = ts.as_bytes();
    b.len() == 8
        && b[2] == b':'
        && b[5] == b':'
        && [0usize, 1, 3, 4, 6, 7].iter().all(|&i| b[i].is_ascii_digit())
}

#[test]
fn diff_is_distance() {
    assert_eq!(diff(3, 5), 2);
    assert_eq!(diff(5, 3), 2);
    assert_eq!(diff(4, 4), 0);
    assert_eq!(diff(0, usize::MAX), usize::MAX);
}

#[test]
fn clock_text_pads_to_two_digits() {
    assert_eq!(clock_text(9, 5, 7), "09:05:07");
    assert_eq!(clock_text(23, 59, 59), "23:59:59");
    assert_eq!(clock_text(0, 0, 0), "00:00:00");
}

#[test]
fn system_messages_are_signed_by_the_server() {
    let m = create_msg_at("mallory".to_string(), "hi".to_string(), MessageType::SystemMessage, "10:00:00".to_string());
    assert_eq!(m.username, "System");
    assert_eq!(m.content, "hi");
    assert_eq!(m.timestamp, "10:00:00");
    let u = create_msg_at("alice".to_string(), "hi".to_string(), MessageType::UserMessage, "10:00:00".to_string());
    assert_eq!(u.username, "alice");
    assert_eq!(u.message_type, MessageType::UserMessage);
}

#[test]
fn created_messages_carry_a_clock_time() {
    let m = create_msg("bob".to_string(), "yo".to_string(), MessageType::UserMessage);
    assert_eq!(m.username, "bob");
    assert_eq!(m.content, "yo");
    assert!(is_clock(&m.timestamp), "{}", m.timestamp);
    let s = create_sys_msg("notice".to_string());
    assert_eq!(s.username, "System");
    assert_eq!(s.content, "notice");
    assert_eq!(s.message_type, MessageType::SystemMessage);
    assert!(is_clock(&s.timestamp));
}

#[test]
fn serialize_writes_the_json_object() {
    let m = msg("alice", "hello", "12:00:00", MessageType::UserMessage);
    assert_eq!(
        serialize(&m),
        r#"{"username":"alice","content":"hello","timestamp":"12:00:00","message_type":"UserMessage"}"#
    );
    let s = msg("System", "x", "01:02:03", MessageType::SystemMessage);
    assert_eq!(
        serialize(&s),
        r#"{"username":"System","content":"x","timestamp":"01:02:03","message_type":"SystemMessage"}"#
    );
}

#[test]
fn serialize_escapes_and_stays_on_one_line() {
    let m = msg("a\"b", "x\\y\nz\tw\r\u{1}\u{8}\u{c}\u{1f}", "t", MessageType::UserMessage);
    let s = serialize(&m);
    assert!(!s.contains('\n'));
    assert_eq!(
        s,
        r#"{"username":"a\"b","content":"x\\y\nz\tw\r\u0001\b\f\u001f","timestamp":"t","message_type":"UserMessage"}"#
    );
}

#[test]
fn round_trip_gives_the_same_message() {
    let cases = vec![
        msg("alice", "hello", "12:00:00", MessageType::UserMessage),
        msg("System", "User \"alice\" (1.2.3.4:5) has connected to the chatroom.", "23:59:59", MessageType::SystemMessage),
        msg("", "", "", MessageType::UserMessage),
        msg("h\u{e9}llo \u{2713}", "a\\\"\n\u{0}\u{7f}", "00:00:00", MessageType::UserMessage),
    ];
    for m in cases {
        let back = deserialize(&serialize(&m)).unwrap();
        assert_eq!(back.username, m.username);
        assert_eq!(back.content, m.content);
        assert_eq!(back.timestamp, m.timestamp);
        assert_eq!(back.message_type, m.message_type);
    }
}

#[test]
fn deserialize_rejects_other_texts() {
    let bad = [
        "",
        "{}",
        "hello",
        r#"{"username": "a","content":"b","timestamp":"c","message_type":"UserMessage"}"#,
        r#"{"username":"a","content":"b","timestamp":"c","message_type":"Other"}"#,
        r#"{"username":"a","content":"b","timestamp":"c","message_type":"UserMessage"}x"#,
        r#"{"username":"\u0041","content":"b","timestamp":"c","message_type":"UserMessage"}"#,
        r#"{"username":"a","content":"b","timestamp":"c","message_type":"UserMessage""#,
        "{\"username\":\"a\nb\",\"content\":\"b\",\"timestamp\":\"c\",\"message_type\":\"UserMessage\"}",
    ];
    for t in bad {
        assert_eq!(deserialize(t).err(), Some(MalformedMessage::Malformed), "{t}");
    }
}
