use vstd::prelude::*;
use crate::message::{ChatMessage, MessageType, MessageView, built, create_msg, create_sys_msg, is_clock_time, system_name};
use crate::codec::{encode_msg, serialize};
use crate::history::{History, REPLAY_COUNT, recent_of};

verus! {

/// Whether `c` has the Unicode White_Space property.
pub open spec fn is_white_space(c: char) -> bool {
    let n = c as u32;
    (0x9 <= n <= 0xd) || n == 0x20 || n == 0x85 || n == 0xa0 || n == 0x1680 || (0x2000 <= n <= 0x200a)
        || n == 0x2028 || n == 0x2029 || n == 0x202f || n == 0x205f || n == 0x3000
}

/// `s` without its leading white space.
pub open spec fn trim_start_of(s: Seq<char>) -> Seq<char>
    decreases s.len(),
{
    if s.len() > 0 && is_white_space(s[0]) {
        trim_start_of(s.drop_first())
    } else {
        s
    }
}

/// `s` without its trailing white space.
pub open spec fn trim_end_of(s: Seq<char>) -> Seq<char>
    decreases s.len(),
{
    if s.len() > 0 && is_white_space(s.last()) {
        trim_end_of(s.drop_last())
    } else {
        s
    }
}

/// `s` without leading and trailing white space.
pub open spec fn trim_of(s: Seq<char>) -> Seq<char> {
    trim_end_of(trim_start_of(s))
}

/// Relies on `str::trim`: drops leading and trailing chars with the Unicode
/// White_Space property, as its documentation states.
#[verifier::external_body]
fn trimmed(s: &str) -> (r: String)
    ensures
        r@ == trim_of(s@),
{
    s.trim().to_string()
}

/// Where a connection stands.
#[derive(Debug, Clone, Copy, PartialEq, Eq, Structural)]
pub enum Phase {
    /// Waiting for the first line, which names the user.
    Handshake,
    /// Relaying in both directions.
    Active,
    /// Finished: nothing is read or written any more.
    Closing,
}

/// What happened on a connection.
#[derive(Debug, Clone, PartialEq, Eq)]
pub enum Event {
    /// A line was read from the peer.
    Line(String),
    /// The peer closed the connection (a read of zero bytes) or a read failed.
    Closed,
    /// The hub delivered a published text.
    Relay(String),
    /// Writing to the peer failed.
    WriteFailed,
}

/// What the connection's driver must do next, in order.
#[derive(Debug, Clone, PartialEq, Eq)]
pub enum Action {
    /// Write the text and a line break to the peer.
    Send(String),
    /// Hand the text to the hub for every subscriber.
    Publish(String),
    /// Start receiving from the hub from now on.
    Subscribe,
    /// Close the connection.
    Close,
}

pub enum ActionView {
    Send(Seq<char>),
    Publish(Seq<char>),
    Subscribe,
    Close,
}

impl View for Action {
    type V = ActionView;

    open spec fn view(&self) -> ActionView {
        match self {
            Action::Send(s) => ActionView::Send(s@),
            Action::Publish(s) => ActionView::Publish(s@),
            Action::Subscribe => ActionView::Subscribe,
            Action::Close => ActionView::Close,
        }
    }
}

pub open spec fn actions_view(v: Seq<Action>) -> Seq<ActionView> {
    v.map_values(|a: Action| a@)
}

/// Sends of the texts of `ms`, in order.
pub open spec fn replay_actions(ms: Seq<MessageView>) -> Seq<ActionView> {
    ms.map_values(|m: MessageView| ActionView::Send(encode_msg(m)))
}

/// `User "<name>" (<addr>) has connected to the chatroom.`
pub open spec fn joined_text(name: Seq<char>, addr: Seq<char>) -> Seq<char> {
    "User \""@ + name + "\" ("@ + addr + ") has connected to the chatroom."@
}

/// `User "<name>" (<addr>) was disconnected from the chatroom.`
pub open spec fn left_text(name: Seq<char>, addr: Seq<char>) -> Seq<char> {
    "User \""@ + name + "\" ("@ + addr + ") was disconnected from the chatroom."@
}

/// `m` is a server notice with the given text, stamped with a time of day.
pub open spec fn is_notice(m: MessageView, text: Seq<char>) -> bool {
    m == built(system_name(), text, MessageType::SystemMessage, m.timestamp) && is_clock_time(m.timestamp)
}

/// `m` is a message of `name` with the given text, stamped with a time of day.
pub open spec fn is_post(m: MessageView, name: Seq<char>, text: Seq<char>) -> bool {
    m == built(name, text, MessageType::UserMessage, m.timestamp) && is_clock_time(m.timestamp)
}

/// The server side of one connection.
pub struct Session {
    pub phase: Phase,
    /// Empty until the first line is read.
    pub username: String,
    pub addr: String,
}

fn notice_text(name: &String, addr: &String, tail: &str) -> (r: String)
    ensures
        r@ == "User \""@ + name@ + "\" ("@ + addr@ + tail@,
{
    let mut r = String::from_str("User \"");
    r.append(name.as_str());
    r.append("\" (");
    r.append(addr.as_str());
    r.append(tail);
    r
}

impl Session {
    /// A connection from `addr` that has not named its user yet.
    pub fn new(addr: String) -> (r: Session)
        ensures
            r.phase == Phase::Handshake,
            r.username@ == Seq::<char>::empty(),
            r.addr@ == addr@,
    {
        Session { phase: Phase::Handshake, username: String::new(), addr }
    }

    /// Names the user: replays the recent history to the peer, records and
    /// announces the arrival, then subscribes to the hub, so that the peer
    /// sees neither the backlog twice nor its own arrival.
    pub fn join(&mut self, hist: &mut History, name: String) -> (r: Vec<Action>)
        requires
            old(self).phase == Phase::Handshake,
        ensures
            final(self).phase == Phase::Active,
            final(self).username@ == name@,
            final(self).addr == old(self).addr,
            final(hist)@.len() == old(hist)@.len() + 1,
            final(hist)@.drop_last() == old(hist)@,
            is_notice(final(hist)@.last(), joined_text(name@, old(self).addr@)),
            actions_view(r@) == replay_actions(recent_of(old(hist)@, REPLAY_COUNT as int)) + seq![
                ActionView::Publish(encode_msg(final(hist)@.last())),
                ActionView::Subscribe,
            ],
    {
        let backlog = hist.recent(REPLAY_COUNT);
        let mut r: Vec<Action> = Vec::new();
        let mut i: usize = 0;
        while i < backlog.len()
            invariant
                i <= backlog.len(),
                actions_view(r@) == replay_actions(crate::message::views(backlog@).take(i as int)),
            decreases backlog.len() - i,
        {
            let ghost before = r@;
            r.push(Action::Send(serialize(&backlog[i])));
            assert(actions_view(r@) =~= actions_view(before).push(ActionView::Send(encode_msg(backlog@[i as int]@))));
            assert(replay_actions(crate::message::views(backlog@).take(i + 1)) =~= replay_actions(
                crate::message::views(backlog@).take(i as int),
            ).push(ActionView::Send(encode_msg(backlog@[i as int]@))));
            i = i + 1;
        }
        assert(crate::message::views(backlog@).take(i as int) =~= crate::message::views(backlog@));
        let text = notice_text(&name, &self.addr, ") has connected to the chatroom.");
        let notice = create_sys_msg(text);
        let line = serialize(&notice);
        hist.append(notice);
        let ghost before = r@;
        r.push(Action::Publish(line));
        r.push(Action::Subscribe);
        assert(actions_view(r@) =~= actions_view(before) + seq![
            ActionView::Publish(encode_msg(final(hist)@.last())),
            ActionView::Subscribe,
        ]);
        self.username = name;
        self.phase = Phase::Active;
        r
    }

    /// Records a line of the user and publishes it.
    pub fn post(&mut self, hist: &mut History, text: String) -> (r: Vec<Action>)
        requires
            old(self).phase == Phase::Active,
        ensures
            *final(self) == *old(self),
            final(hist)@.len() == old(hist)@.len() + 1,
            final(hist)@.drop_last() == old(hist)@,
            is_post(final(hist)@.last(), old(self).username@, text@),
            actions_view(r@) == seq![ActionView::Publish(encode_msg(final(hist)@.last()))],
    {
        let m = create_msg(self.username.clone(), text, MessageType::UserMessage);
        let line = serialize(&m);
        hist.append(m);
        let mut r: Vec<Action> = Vec::new();
        r.push(Action::Publish(line));
        assert(actions_view(r@) =~= seq![ActionView::Publish(encode_msg(final(hist)@.last()))]);
        r
    }

    /// Ends the connection: records and announces the departure of a named
    /// user, then closes.
    pub fn leave(&mut self, hist: &mut History) -> (r: Vec<Action>)
        requires
            old(self).phase == Phase::Active,
        ensures
            final(self).phase == Phase::Closing,
            final(self).username == old(self).username,
            final(self).addr == old(self).addr,
            final(hist)@.len() == old(hist)@.len() + 1,
            final(hist)@.drop_last() == old(hist)@,
            is_notice(final(hist)@.last(), left_text(old(self).username@, old(self).addr@)),
            actions_view(r@) == seq![ActionView::Publish(encode_msg(final(hist)@.last())), ActionView::Close],
    {
        let text = notice_text(&self.username, &self.addr, ") was disconnected from the chatroom.");
        let notice = create_sys_msg(text);
        let line = serialize(&notice);
        hist.append(notice);
        let mut r: Vec<Action> = Vec::new();
        r.push(Action::Publish(line));
        r.push(Action::Close);
        assert(actions_view(r@) =~= seq![ActionView::Publish(encode_msg(final(hist)@.last())), ActionView::Close]);
        self.phase = Phase::Closing;
        r
    }

    /// Decides what an event leads to. A line in the handshake names the
    /// user and later lines are posts, both without surrounding white
    /// space; texts from the hub go out to the peer; a closed connection or a
    /// failed write ends the session, announced to the others once a user
    /// was named. A closed session ignores everything.
    pub fn step(&mut self, hist: &mut History, ev: Event) -> (r: Vec<Action>)
        ensures
            old(self).phase == Phase::Closing ==> (*final(self) == *old(self) && final(hist)@ == old(hist)@
                && r@.len() == 0),
            old(self).phase == Phase::Handshake ==> match ev {
                Event::Line(l) => final(self).phase == Phase::Active && final(self).username@ == trim_of(l@)
                    && final(hist)@.drop_last() == old(hist)@ && final(hist)@.len() == old(hist)@.len() + 1
                    && is_notice(final(hist)@.last(), joined_text(trim_of(l@), old(self).addr@))
                    && actions_view(r@) == replay_actions(recent_of(old(hist)@, REPLAY_COUNT as int))
                    + seq![ActionView::Publish(encode_msg(final(hist)@.last())), ActionView::Subscribe],
                Event::Relay(_) => *final(self) == *old(self) && final(hist)@ == old(hist)@ && r@.len() == 0,
                _ => final(self).phase == Phase::Closing && final(hist)@ == old(hist)@
                    && actions_view(r@) == seq![ActionView::Close],
            },
            old(self).phase == Phase::Active ==> match ev {
                Event::Line(l) => *final(self) == *old(self) && final(hist)@.drop_last() == old(hist)@
                    && final(hist)@.len() == old(hist)@.len() + 1
                    && is_post(final(hist)@.last(), old(self).username@, trim_of(l@))
                    && actions_view(r@) == seq![ActionView::Publish(encode_msg(final(hist)@.last()))],
                Event::Relay(t) => *final(self) == *old(self) && final(hist)@ == old(hist)@
                    && actions_view(r@) == seq![ActionView::Send(t@)],
                _ => final(self).phase == Phase::Closing && final(hist)@.drop_last() == old(hist)@
                    && final(hist)@.len() == old(hist)@.len() + 1
                    && is_notice(final(hist)@.last(), left_text(old(self).username@, old(self).addr@))
                    && actions_view(r@) == seq![
                        ActionView::Publish(encode_msg(final(hist)@.last())),
                        ActionView::Close,
                    ],
            },
    {
        match self.phase {
            Phase::Closing => Vec::new(),
            Phase::Handshake => match ev {
                Event::Line(l) => {
                    let name = trimmed(l.as_str());
                    self.join(hist, name)
                },
                Event::Relay(_) => Vec::new(),
                _ => {
                    self.phase = Phase::Closing;
                    let mut r: Vec<Action> = Vec::new();
                    r.push(Action::Close);
                    assert(actions_view(r@) =~= seq![ActionView::Close]);
                    r
                },
            },
            Phase::Active => match ev {
                Event::Line(l) => {
                    let text = trimmed(l.as_str());
                    self.post(hist, text)
                },
                Event::Relay(t) => {
                    let mut r: Vec<Action> = Vec::new();
                    r.push(Action::Send(t));
                    assert(actions_view(r@) =~= seq![ActionView::Send(t@)]);
                    r
                },
                _ => self.leave(hist),
            },
        }
    }
}

} // verus!
