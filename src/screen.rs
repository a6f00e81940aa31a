use vstd::prelude::*;
use crate::message::{ChatMessage, views};
use crate::text::diff;

verus! {

/// What a client shows: the received messages, the line being typed, and
/// how far the log is scrolled.
pub struct App {
    pub messages: Vec<ChatMessage>,
    pub input: String,
    pub scroll: usize,
    /// Rows the log had at the last drawing.
    pub chat_height: usize,
}

impl App {
    /// Nothing received, nothing typed, not scrolled.
    pub fn new() -> (r: App)
        ensures
            r.messages@.len() == 0,
            r.input@.len() == 0,
            r.scroll == 0,
            r.chat_height == 0,
    {
        App { messages: Vec::new(), input: String::new(), scroll: 0, chat_height: 0 }
    }

    /// Adds a received message to the log; while the view sits within three
    /// rows of the log's end and the log still fits, the view follows it.
    pub fn push_msg(&mut self, msg: ChatMessage)
        ensures
            views(final(self).messages@) == views(old(self).messages@).push(msg@),
            final(self).input == old(self).input,
            final(self).chat_height == old(self).chat_height,
            final(self).scroll == (if (if old(self).messages@.len() > old(self).scroll {
                old(self).messages@.len() - old(self).scroll
            } else {
                old(self).scroll - old(self).messages@.len()
            }) < 3 && old(self).messages@.len() < old(self).chat_height {
                0
            } else {
                old(self).scroll as int
            }),
    {
        let length = self.messages.len();
        if diff(length, self.scroll) < 3 && length < self.chat_height {
            self.scroll = 0;
        }
        let ghost before = self.messages@;
        self.messages.push(msg);
        assert(views(self.messages@) =~= views(before).push(msg@));
    }
}

} // verus!
