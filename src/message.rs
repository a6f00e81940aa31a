use vstd::prelude::*;
use chrono::Timelike;
use crate::text::push_char;

verus! {

/// Who authored a message: a connected user, or the server itself.
#[derive(Debug, Clone, Copy, PartialEq, Eq, Structural)]
pub enum MessageType {
    UserMessage,
    SystemMessage,
}

/// One chat event as it is stored and sent.
#[derive(Debug, Clone)]
pub struct ChatMessage {
    pub username: String,
    pub content: String,
    pub timestamp: String,
    pub message_type: MessageType,
}

/// The value of a message: its fields as plain sequences of chars.
pub struct MessageView {
    pub username: Seq<char>,
    pub content: Seq<char>,
    pub timestamp: Seq<char>,
    pub message_type: MessageType,
}

impl View for ChatMessage {
    type V = MessageView;

    open spec fn view(&self) -> MessageView {
        MessageView {
            username: self.username@,
            content: self.content@,
            timestamp: self.timestamp@,
            message_type: self.message_type,
        }
    }
}

/// The name every server-authored message carries.
pub open spec fn system_name() -> Seq<char> {
    seq!['S', 'y', 's', 't', 'e', 'm']
}

/// A message is well formed when a system message is signed by the server.
pub open spec fn msg_wf(m: MessageView) -> bool {
    m.message_type == MessageType::SystemMessage ==> m.username == system_name()
}

/// The message `construct` yields for the given fields at time `ts`.
pub open spec fn built(user: Seq<char>, content: Seq<char>, kind: MessageType, ts: Seq<char>) -> MessageView {
    MessageView {
        username: if kind == MessageType::SystemMessage { system_name() } else { user },
        content,
        timestamp: ts,
        message_type: kind,
    }
}

pub open spec fn digit_char(d: nat) -> char {
    ((d % 10) + 48) as char
}

pub open spec fn two_digits(n: nat) -> Seq<char> {
    seq![digit_char(n / 10), digit_char(n % 10)]
}

/// `HH:MM:SS` for the given hour, minute and second.
pub open spec fn clock_seq(h: nat, m: nat, s: nat) -> Seq<char> {
    two_digits(h) + seq![':'] + two_digits(m) + seq![':'] + two_digits(s)
}

/// A wall-clock time of day at second resolution, as `HH:MM:SS`.
pub open spec fn is_clock_time(t: Seq<char>) -> bool {
    exists|h: nat, m: nat, s: nat| h < 24 && m < 60 && s < 60 && t == #[trigger] clock_seq(h, m, s)
}

/// Relies on `chrono::Local::now` and `chrono::Timelike`: the local time of
/// day, with the hour below 24 and the minute and second below 60.
#[verifier::external_body]
fn local_clock() -> (r: (u32, u32, u32))
    ensures
        r.0 < 24,
        r.1 < 60,
        r.2 < 60,
{
    let now = chrono::Local::now();
    (now.hour(), now.minute(), now.second())
}

fn push_two_digits(s: &mut String, n: u32)
    requires
        n < 100,
    ensures
        final(s)@ == old(s)@ + two_digits(n as nat),
{
    let hi = ((n / 10) as u8 + 48u8) as char;
    let lo = ((n % 10) as u8 + 48u8) as char;
    push_char(s, hi);
    push_char(s, lo);
    assert(final(s)@ =~= old(s)@ + two_digits(n as nat));
}

/// Formats a time of day as `HH:MM:SS`.
pub fn clock_text(h: u32, m: u32, s: u32) -> (r: String)
    requires
        h < 24,
        m < 60,
        s < 60,
    ensures
        r@ == clock_seq(h as nat, m as nat, s as nat),
        is_clock_time(r@),
{
    let mut r = String::new();
    push_two_digits(&mut r, h);
    push_char(&mut r, ':');
    push_two_digits(&mut r, m);
    push_char(&mut r, ':');
    push_two_digits(&mut r, s);
    assert(r@ =~= clock_seq(h as nat, m as nat, s as nat));
    r
}

/// Builds a message stamped with `timestamp`; a system message is signed by
/// the server whatever `username` says.
pub fn create_msg_at(username: String, content: String, message_type: MessageType, timestamp: String) -> (r: ChatMessage)
    ensures
        r@ == built(username@, content@, message_type, timestamp@),
        msg_wf(r@),
{
    let username = match message_type {
        MessageType::UserMessage => username,
        MessageType::SystemMessage => {
            let s = String::from_str("System");
            proof {
                reveal_strlit("System");
                assert(s@ =~= system_name());
            }
            s
        },
    };
    ChatMessage { username, content, timestamp, message_type }
}

/// Builds a message stamped with the current local time.
pub fn create_msg(username: String, content: String, message_type: MessageType) -> (r: ChatMessage)
    ensures
        r@ == built(username@, content@, message_type, r.timestamp@),
        is_clock_time(r.timestamp@),
        msg_wf(r@),
{
    let (h, m, s) = local_clock();
    let ts = clock_text(h, m, s);
    create_msg_at(username, content, message_type, ts)
}

/// Builds a server-authored message with the given text.
pub fn create_sys_msg(msg: String) -> (r: ChatMessage)
    ensures
        r@ == built(system_name(), msg@, MessageType::SystemMessage, r.timestamp@),
        is_clock_time(r.timestamp@),
        msg_wf(r@),
{
    create_msg(String::new(), msg, MessageType::SystemMessage)
}

impl ChatMessage {
    /// A copy of this message with the same fields.
    pub fn duplicate(&self) -> (r: ChatMessage)
        ensures
            r@ == self@,
    {
        ChatMessage {
            username: self.username.clone(),
            content: self.content.clone(),
            timestamp: self.timestamp.clone(),
            message_type: self.message_type,
        }
    }
}

/// The values of a list of messages.
pub open spec fn views(v: Seq<ChatMessage>) -> Seq<MessageView> {
    v.map_values(|m: ChatMessage| m@)
}

} // verus!
