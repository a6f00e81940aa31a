use cicada_chat::{create_msg_at, ChatMessage, History, HistoryLoadError, MessageType, REPLAY_COUNT};

fn numbered(i: usize) -> ChatMessage {
    create_msg_at(format!("user{i}"), format!("message {i}"), MessageType::UserMessage, "08:00:00".to_string())
}

fn contents(v: &[ChatMessage]) -> Vec<String> {
    v.iter().map(|m| m.content.clone()).collect()
}

#[test]
fn recent_of_a_short_history_is_all_of_it() {
    let mut h = History::new();
    for i in 0..10 {
        h.append(numbered(i));
    }
    let r = h.recent(REPLAY_COUNT);
    assert_eq!(contents(&r), (0..10).map(|i| format!("message {i}")).collect::<Vec<_>>());
    assert!(History::new().recent(REPLAY_COUNT).is_empty());
}

#[test]
fn recent_of_a_long_history_is_the_last_twenty_five() {
    let mut h = History::new();
    for i in 0..30 {
        h.append(numbered(i));
    }
    let r = h.recent(REPLAY_COUNT);
    assert_eq!(r.len(), 25);
    assert_eq!(contents(&r), (5..30).map(|i| format!("message {i}")).collect::<Vec<_>>());
    let mut exact = History::new();
    for i in 0..25 {
        exact.append(numbered(i));
    }
    assert_eq!(exact.recent(REPLAY_COUNT).len(), 25);
}

#[test]
fn appends_keep_everything_once_in_order() {
    let mut h = History::new();
    h.append(numbered(0));
    h.append(numbered(1));
    h.extend(vec![numbered(2), numbered(3), numbered(4)]);
    h.append(numbered(5));
    assert_eq!(h.len(), 6);
    assert_eq!(contents(&h.recent(100)), (0..6).map(|i| format!("message {i}")).collect::<Vec<_>>());
}

#[test]
fn persisted_history_reads_back_the_same() {
    let mut h = History::new();
    for i in 0..4 {
        h.append(numbered(i));
    }
    h.append(create_msg_at(String::new(), "line\nbreak \"quoted\"".to_string(), MessageType::SystemMessage, "09:09:09".to_string()));
    let text = h.to_text();
    let back = History::from_text(&text).unwrap();
    assert_eq!(back.len(), h.len());
    let (a, b) = (h.recent(100), back.recent(100));
    for (x, y) in a.iter().zip(b.iter()) {
        assert_eq!(x.username, y.username);
        assert_eq!(x.content, y.content);
        assert_eq!(x.timestamp, y.timestamp);
        assert_eq!(x.message_type, y.message_type);
    }
}

#[test]
fn history_text_is_a_pretty_json_array() {
    let mut h = History::new();
    h.append(create_msg_at("alice".to_string(), "hi".to_string(), MessageType::UserMessage, "12:00:00".to_string()));
    h.append(create_msg_at(String::new(), "bye".to_string(), MessageType::SystemMessage, "12:00:01".to_string()));
    let expected = "[\n  {\n    \"username\": \"alice\",\n    \"content\": \"hi\",\n    \"timestamp\": \"12:00:00\",\n    \"message_type\": \"UserMessage\"\n  },\n  {\n    \"username\": \"System\",\n    \"content\": \"bye\",\n    \"timestamp\": \"12:00:01\",\n    \"message_type\": \"SystemMessage\"\n  }\n]";
    assert_eq!(h.to_text(), expected);
    let back = History::from_text(expected).unwrap();
    assert_eq!(back.len(), 2);
    assert_eq!(back.recent(1)[0].content, "bye");
}

#[test]
fn empty_history_text_is_an_empty_array() {
    assert_eq!(History::new().to_text(), "[]");
    assert_eq!(History::from_text("[]").unwrap().len(), 0);
    assert_eq!(History::from_text("").err(), Some(HistoryLoadError::Malformed));
}

#[test]
fn damaged_history_text_is_refused() {
    let mut h = History::new();
    h.append(numbered(1));
    let text = h.to_text();
    let cut = &text[..text.len() - 1];
    assert_eq!(History::from_text(cut).err(), Some(HistoryLoadError::Malformed));
    assert_eq!(History::from_text("[ ]").err(), Some(HistoryLoadError::Malformed));
    assert_eq!(History::from_text(&format!("{text}\n")).err(), Some(HistoryLoadError::Malformed));
}
