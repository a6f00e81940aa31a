use cicada_chat::{create_msg_at, App, ChatMessage, MessageType};

fn m(i: usize) -> ChatMessage {
    create_msg_at("u".to_string(), format!("{i}"), MessageType::UserMessage, "00:00:00".to_string())
}

#[test]
fn view_follows_the_end_when_close_to_it() {
    let mut app = App::new();
    app.chat_height = 10;
    app.push_msg(m(0));
    app.push_msg(m(1));
    app.scroll = 3;
    app.push_msg(m(2));
    assert_eq!(app.scroll, 0);
    assert_eq!(app.messages.len(), 3);
    assert_eq!(app.messages[2].content, "2");
}

#[test]
fn view_stays_when_scrolled_far_or_log_is_full() {
    let mut app = App::new();
    app.chat_height = 10;
    for i in 0..5 {
        app.push_msg(m(i));
    }
    app.scroll = 1;
    app.push_msg(m(5));
    assert_eq!(app.scroll, 1);
    let mut full = App::new();
    full.chat_height = 2;
    full.push_msg(m(0));
    full.push_msg(m(1));
    full.scroll = 2;
    full.push_msg(m(2));
    assert_eq!(full.scroll, 2);
}
