use cicada_chat::{create_msg_at, deserialize, Action, Event, History, MessageType, Phase, Session};

fn published(actions: &[Action]) -> Vec<String> {
    actions
        .iter()
        .filter_map(|a| if let Action::Publish(t) = a { Some(t.clone()) } else { None })
        .collect()
}

fn sends(actions: &[Action]) -> usize {
    actions.iter().filter(|a| matches!(a, Action::Send(_))).count()
}

#[test]
fn alice_joins_an_empty_room() {
    let mut h = History::new();
    let mut s = Session::new("127.0.0.1:5000".to_string());
    let acts = s.step(&mut h, Event::Line("alice\n".to_string()));
    assert_eq!(sends(&acts), 0);
    assert_eq!(acts.len(), 2);
    assert_eq!(acts[1], Action::Subscribe);
    let p = published(&acts);
    assert_eq!(p.len(), 1);
    let m = deserialize(&p[0]).unwrap();
    assert_eq!(m.username, "System");
    assert_eq!(m.message_type, MessageType::SystemMessage);
    assert_eq!(m.content, "User \"alice\" (127.0.0.1:5000) has connected to the chatroom.");
    assert_eq!(s.phase, Phase::Active);
    assert_eq!(s.username, "alice");
    assert_eq!(h.len(), 1);
}

#[test]
fn bob_says_hello_to_carol() {
    let mut h = History::new();
    let mut bob = Session::new("10.0.0.1:1".to_string());
    let mut carol = Session::new("10.0.0.2:2".to_string());
    bob.step(&mut h, Event::Line("bob\n".to_string()));
    carol.step(&mut h, Event::Line("  carol \r\n".to_string()));
    assert_eq!(carol.username, "carol");
    let before = h.len();
    let acts = bob.step(&mut h, Event::Line("hello\n".to_string()));
    assert_eq!(h.len(), before + 1);
    let p = published(&acts);
    assert_eq!(acts.len(), 1);
    let out = carol.step(&mut h, Event::Relay(p[0].clone()));
    assert_eq!(out, vec![Action::Send(p[0].clone())]);
    let m = deserialize(&p[0]).unwrap();
    assert_eq!(m.username, "bob");
    assert_eq!(m.content, "hello");
    assert_eq!(m.message_type, MessageType::UserMessage);
    assert_eq!(h.len(), before + 1);
}

#[test]
fn newcomer_gets_the_last_twenty_five() {
    let mut h = History::new();
    for i in 0..30 {
        h.append(create_msg_at("x".to_string(), format!("{i}"), MessageType::UserMessage, "00:00:01".to_string()));
    }
    let mut s = Session::new("a".to_string());
    let acts = s.step(&mut h, Event::Line("dave".to_string()));
    assert_eq!(sends(&acts), 25);
    assert_eq!(acts.len(), 27);
    if let Action::Send(t) = &acts[0] {
        assert_eq!(deserialize(t).unwrap().content, "5");
    } else {
        panic!("replay first");
    }
    if let Action::Send(t) = &acts[24] {
        assert_eq!(deserialize(t).unwrap().content, "29");
    } else {
        panic!("replay last");
    }
    assert_eq!(h.len(), 31);
}

#[test]
fn leaving_is_announced_once() {
    let mut h = History::new();
    let mut s = Session::new("1.1.1.1:9".to_string());
    s.step(&mut h, Event::Line("erin".to_string()));
    let acts = s.step(&mut h, Event::Closed);
    assert_eq!(acts.len(), 2);
    assert_eq!(acts[1], Action::Close);
    let m = deserialize(&published(&acts)[0]).unwrap();
    assert_eq!(m.content, "User \"erin\" (1.1.1.1:9) was disconnected from the chatroom.");
    assert_eq!(s.phase, Phase::Closing);
    assert_eq!(h.len(), 2);
    assert!(s.step(&mut h, Event::Line("late".to_string())).is_empty());
    assert!(s.step(&mut h, Event::Closed).is_empty());
    assert_eq!(h.len(), 2);
}

#[test]
fn failed_write_ends_the_session() {
    let mut h = History::new();
    let mut s = Session::new("x".to_string());
    s.step(&mut h, Event::Line("frank".to_string()));
    let acts = s.step(&mut h, Event::WriteFailed);
    assert_eq!(published(&acts).len(), 1);
    assert_eq!(acts.last(), Some(&Action::Close));
    assert_eq!(s.phase, Phase::Closing);
}

#[test]
fn close_before_naming_is_silent() {
    let mut h = History::new();
    let mut s = Session::new("x".to_string());
    assert!(s.step(&mut h, Event::Relay("early".to_string())).is_empty());
    let acts = s.step(&mut h, Event::Closed);
    assert_eq!(acts, vec![Action::Close]);
    assert_eq!(h.len(), 0);
}

#[test]
fn names_and_lines_lose_unicode_white_space() {
    let mut h = History::new();
    let mut s = Session::new("x".to_string());
    s.step(&mut h, Event::Line("\u{3000}gina\u{a0}\t\r\n".to_string()));
    assert_eq!(s.username, "gina");
    let acts = s.step(&mut h, Event::Line("  hi there \n".to_string()));
    let m = deserialize(&published(&acts)[0]).unwrap();
    assert_eq!(m.content, "hi there");
}
