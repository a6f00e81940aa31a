use vstd::prelude::*;
use crate::message::{ChatMessage, MessageView, views};
use crate::codec::{encode_in, holds_at, lemma_encode_prefix, write_message, decode_from};
use crate::text::chars_of;
use crate::codec::match_at;

verus! {

/// How many messages a newly joined client is shown.
pub const REPLAY_COUNT: usize = 25;

/// The ordered log of every message the server has seen, in arrival order.
pub struct History {
    messages: Vec<ChatMessage>,
}

/// The log after `ms` were appended one by one to `h`.
pub open spec fn after_appends(h: Seq<MessageView>, ms: Seq<MessageView>) -> Seq<MessageView>
    decreases ms.len(),
{
    if ms.len() == 0 {
        h
    } else {
        after_appends(h, ms.drop_last()).push(ms.last())
    }
}

/// The last `min(n, len)` messages of `h`, in order.
pub open spec fn recent_of(h: Seq<MessageView>, n: int) -> Seq<MessageView> {
    if n < h.len() {
        h.subrange(h.len() - n, h.len() as int)
    } else {
        h
    }
}

/// The elements after the first of a pretty-printed JSON array: each
/// object after a comma, a line break and two spaces.
pub open spec fn tail_items(g: Seq<MessageView>) -> Seq<char>
    decreases g.len(),
{
    if g.len() == 0 {
        Seq::empty()
    } else {
        tail_items(g.drop_last()) + (",\n  "@ + encode_in(true, g.last()))
    }
}

/// The persisted text of a log: a pretty-printed JSON array of its messages
/// with two spaces of indentation, `[]` when it is empty.
pub open spec fn history_text(h: Seq<MessageView>) -> Seq<char> {
    if h.len() == 0 {
        "[]"@
    } else {
        "[\n  "@ + encode_in(true, h[0]) + tail_items(h.drop_first()) + "\n]"@
    }
}

/// Whether `t` is the persisted text of some log.
pub open spec fn is_history_text(t: Seq<char>) -> bool {
    exists|h: Seq<MessageView>| history_text(h) == t
}

/// Error of a persisted log that cannot be read back.
#[derive(Debug, Clone, Copy, PartialEq, Eq, Structural)]
pub enum HistoryLoadError {
    Malformed,
}

impl View for History {
    type V = Seq<MessageView>;

    closed spec fn view(&self) -> Seq<MessageView> {
        views(self.messages@)
    }
}

impl History {
    /// An empty log.
    pub fn new() -> (r: History)
        ensures
            r@ == Seq::<MessageView>::empty(),
    {
        let r = History { messages: Vec::new() };
        assert(r@ =~= Seq::<MessageView>::empty());
        r
    }

    pub fn len(&self) -> (r: usize)
        ensures
            r == self@.len(),
    {
        self.messages.len()
    }

    /// Adds a message at the end; nothing before it moves.
    pub fn append(&mut self, m: ChatMessage)
        ensures
            final(self)@ == old(self)@.push(m@),
    {
        self.messages.push(m);
        assert(final(self)@ =~= old(self)@.push(m@));
    }

    /// Appends the messages of `ms` in their order.
    pub fn extend(&mut self, ms: Vec<ChatMessage>)
        ensures
            final(self)@ == after_appends(old(self)@, views(ms@)),
            final(self)@ == old(self)@ + views(ms@),
    {
        let ghost start = self@;
        let mut i: usize = 0;
        while i < ms.len()
            invariant
                i <= ms.len(),
                self@ == after_appends(start, views(ms@).take(i as int)),
            decreases ms.len() - i,
        {
            self.append(ms[i].duplicate());
            assert(views(ms@).take(i + 1).drop_last() =~= views(ms@).take(i as int));
            i = i + 1;
        }
        assert(views(ms@).take(i as int) =~= views(ms@));
        proof {
            lemma_after_appends(start, views(ms@));
        }
    }

    /// The last `min(n, len)` messages, oldest first.
    pub fn recent(&self, n: usize) -> (r: Vec<ChatMessage>)
        ensures
            views(r@) == recent_of(self@, n as int),
            self@.len() < n ==> views(r@) == self@,
            self@.len() >= n ==> r@.len() == n,
    {
        let len = self.messages.len();
        let start = if n < len { len - n } else { 0 };
        let mut r: Vec<ChatMessage> = Vec::new();
        let mut i: usize = start;
        while i < len
            invariant
                start <= i <= len == self.messages.len(),
                views(r@) == self@.subrange(start as int, i as int),
            decreases len - i,
        {
            let m = self.messages[i].duplicate();
            let ghost before = r@;
            r.push(m);
            assert(views(r@) =~= views(before).push(self@[i as int]));
            assert(views(r@) =~= self@.subrange(start as int, i + 1));
            i = i + 1;
        }
        assert(self@.subrange(0, len as int) =~= self@);
        r
    }

    /// The persisted text of the whole log.
    pub fn to_text(&self) -> (r: String)
        ensures
            r@ == history_text(self@),
    {
        let n = self.messages.len();
        if n == 0 {
            return String::from_str("[]");
        }
        let mut out = String::from_str("[\n  ");
        write_message(&mut out, &self.messages[0], true);
        let mut i: usize = 1;
        assert(self@.subrange(1, 1) =~= Seq::<MessageView>::empty());
        while i < n
            invariant
                1 <= i <= n == self.messages.len(),
                out@ == "[\n  "@ + encode_in(true, self@[0]) + tail_items(self@.subrange(1, i as int)),
            decreases n - i,
        {
            out.append(",\n  ");
            write_message(&mut out, &self.messages[i], true);
            assert(self@.subrange(1, i + 1).drop_last() =~= self@.subrange(1, i as int));
            i = i + 1;
        }
        assert(self@.subrange(1, n as int) =~= self@.drop_first());
        out.append("\n]");
        out
    }

    /// Reads a log back from its persisted text. Only the exact text that
    /// `to_text` writes is accepted.
    #[verifier::rlimit(40)]
    pub fn from_text(s: &str) -> (r: Result<History, HistoryLoadError>)
        ensures
            r is Ok <==> is_history_text(s@),
            r matches Ok(h) ==> history_text(h@) == s@,
    {
        let t = chars_of(s);
        let ghost valid = is_history_text(s@);
        let ghost target = if valid {
            choose|h: Seq<MessageView>| history_text(h) == s@
        } else {
            arbitrary()
        };
        proof {
            reveal_strlit("[]");
            reveal_strlit("[\n  ");
            reveal_strlit(",\n  ");
            reveal_strlit("\n]");
        }
        if t.len() == 2 {
            if match_at(&t, 0, "[]").is_some() {
                assert(t@ =~= "[]"@);
                let h = History::new();
                assert(history_text(h@) == s@);
                return Ok(h);
            }
        }
        let ghost first = if valid && target.len() > 0 { target[0] } else { arbitrary() };
        proof {
            if valid {
                if target.len() == 0 {
                    assert(t@.len() == 2);
                    assert(t@.subrange(0, 2) =~= t@);
                } else {
                    lemma_holds_mid(Seq::empty(), "[\n  "@, encode_in(true, first) + tail_items(target.drop_first()) + "\n]"@);
                    lemma_holds_mid("[\n  "@, encode_in(true, first), tail_items(target.drop_first()) + "\n]"@);
                    assert(t@.subrange(0, t@.len() as int) =~= t@);
                    assert(Seq::<char>::empty() + "[\n  "@ + (encode_in(true, first) + tail_items(target.drop_first()) + "\n]"@) =~= s@);
                    assert("[\n  "@ + encode_in(true, first) + (tail_items(target.drop_first()) + "\n]"@) =~= s@);
                }
            }
        }
        let p0 = match match_at(&t, 0, "[\n  ") {
            Some(x) => x,
            None => return Err(HistoryLoadError::Malformed),
        };
        let (m0, q0) = match decode_from(&t, p0, true, Ghost(first)) {
            Some(x) => x,
            None => return Err(HistoryLoadError::Malformed),
        };
        let mut acc = History::new();
        acc.append(m0);
        let mut p: usize = q0;
        proof {
            assert(t@.subrange(0, p as int) =~= t@.subrange(0, p0 as int) + t@.subrange(p0 as int, p as int));
            assert(acc@.drop_first() =~= Seq::<MessageView>::empty());
            if valid {
                assert(acc@ =~= target.take(1));
            }
        }
        loop
            invariant
                p <= t.len(),
                t@ == s@,
                acc@.len() >= 1,
                t@.subrange(0, p as int) == scan_head(acc@),
                valid == is_history_text(s@),
                valid ==> (history_text(target) == s@ && acc@.len() <= target.len() && acc@ == target.take(
                    acc@.len() as int,
                )),
            decreases t.len() - p,
        {
            let ghost k = acc@.len() as int;
            let ghost head = scan_head(acc@);
            let ghost expected = if valid && k < target.len() { target[k] } else { arbitrary() };
            proof {
                if valid {
                    lemma_scan(target, k);
                    assert(target.take(k) =~= acc@);
                    assert(head.len() == p);
                    assert((head + ",\n  "@).len() == p + ",\n  "@.len());
                    let rest = scan_rest(target, k);
                    if k < target.len() {
                        lemma_rest_front(target, k);
                        lemma_holds_mid(head, ",\n  "@, encode_in(true, expected) + scan_rest(target, k + 1));
                        assert(head + ",\n  "@ + (encode_in(true, expected) + scan_rest(target, k + 1)) =~= s@);
                        lemma_holds_mid(head + ",\n  "@, encode_in(true, expected), scan_rest(target, k + 1));
                        assert(head + ",\n  "@ + encode_in(true, expected) + scan_rest(target, k + 1) =~= s@);
                    } else {
                        lemma_rest_front(target, k);
                        lemma_holds_mid(head, "\n]"@, Seq::empty());
                        assert(head + "\n]"@ + Seq::<char>::empty() =~= s@);
                        reveal_strlit("\n]");
                        assert(head.len() == p);
                        assert(holds_at(t@, p as int, "\n]"@));
                        assert("\n]"@.len() == 2 && "\n]"@[0] == '\n');
                        assert(t@.subrange(p as int, p + 2)[0] == t@[p as int]);
                        assert(t@[p as int] == '\n');
                    }
                }
            }
            match match_at(&t, p, ",\n  ") {
                Some(p1) => {
                    assert(valid && k < target.len() ==> holds_at(t@, p1 as int, encode_in(true, expected)));
                    assert(valid ==> k < target.len()) by {
                        reveal_strlit(",\n  ");
                        if valid && k >= target.len() {
                            assert(",\n  "@[0] == ',');
                            assert(t@.subrange(p as int, p + 4)[0] == t@[p as int]);
                        }
                    }
                    let (m, q) = match decode_from(&t, p1, true, Ghost(expected)) {
                        Some(x) => x,
                        None => return Err(HistoryLoadError::Malformed),
                    };
                    let ghost before = acc@;
                    acc.append(m);
                    proof {
                        assert(acc@.drop_first().drop_last() =~= before.drop_first());
                        assert(acc@[0] == before[0]);
                        assert(t@.subrange(0, q as int) =~= t@.subrange(0, p as int) + (t@.subrange(p as int, p1 as int)
                            + t@.subrange(p1 as int, q as int)));
                        if valid {
                            assert(acc@ =~= target.take(k + 1));
                        }
                    }
                    p = q;
                },
                None => {
                    proof {
                        if valid {
                            assert(k == target.len()) by {
                                if k < target.len() {
                                    assert(holds_at(t@, p as int, ",\n  "@));
                                }
                            }
                            assert(acc@ =~= target);
                        }
                    }
                    match match_at(&t, p, "\n]") {
                        Some(q) => {
                            if q == t.len() {
                                assert(t@ =~= head + "\n]"@);
                                assert(t@ == history_text(acc@));
                                return Ok(acc);
                            }
                            return Err(HistoryLoadError::Malformed);
                        },
                        None => {
                            return Err(HistoryLoadError::Malformed);
                        },
                    }
                },
            }
        }
    }
}

/// Appending messages one by one keeps every earlier message in place and
/// adds each new one exactly once, in the order of the calls.
pub proof fn lemma_after_appends(h: Seq<MessageView>, ms: Seq<MessageView>)
    ensures
        after_appends(h, ms) == h + ms,
        after_appends(h, ms).len() == h.len() + ms.len(),
    decreases ms.len(),
{
    if ms.len() == 0 {
        assert(h + ms =~= h);
    } else {
        lemma_after_appends(h, ms.drop_last());
        assert(h + ms =~= (h + ms.drop_last()).push(ms.last()));
    }
}

/// The text of the first messages of a log, up to the last one read.
pub open spec fn scan_head(acc: Seq<MessageView>) -> Seq<char> {
    "[\n  "@ + encode_in(true, acc[0]) + tail_items(acc.drop_first())
}

/// What follows the first `k` messages in the text of `h`.
pub open spec fn scan_rest(h: Seq<MessageView>, k: int) -> Seq<char> {
    tail_items(h.drop_first().skip(k - 1)) + "\n]"@
}

proof fn lemma_scan(h: Seq<MessageView>, k: int)
    requires
        1 <= k <= h.len(),
    ensures
        history_text(h) == scan_head(h.take(k)) + scan_rest(h, k),
{
    let g = h.drop_first();
    assert(h.take(k).drop_first() =~= g.take(k - 1));
    assert(g =~= g.take(k - 1) + g.skip(k - 1));
    lemma_tail_append(g.take(k - 1), g.skip(k - 1));
    assert(history_text(h) =~= scan_head(h.take(k)) + scan_rest(h, k));
}

proof fn lemma_rest_front(h: Seq<MessageView>, k: int)
    requires
        1 <= k <= h.len(),
    ensures
        k < h.len() ==> scan_rest(h, k) == ",\n  "@ + (encode_in(true, h[k]) + scan_rest(h, k + 1)),
        k == h.len() ==> scan_rest(h, k) == "\n]"@,
{
    let g = h.drop_first();
    if k < h.len() {
        lemma_tail_front(g.skip(k - 1));
        assert(g.skip(k - 1).drop_first() =~= g.skip(k));
        assert(scan_rest(h, k) =~= ",\n  "@ + (encode_in(true, h[k]) + scan_rest(h, k + 1)));
    } else {
        assert(g.skip(k - 1) =~= Seq::<MessageView>::empty());
        assert(tail_items(g.skip(k - 1)) =~= Seq::<char>::empty());
        assert(scan_rest(h, k) =~= "\n]"@);
    }
}

proof fn lemma_holds_mid(x: Seq<char>, y: Seq<char>, z: Seq<char>)
    ensures
        holds_at(x + y + z, x.len() as int, y),
{
    assert((x + y + z).subrange(x.len() as int, (x.len() + y.len()) as int) =~= y);
}

proof fn lemma_tail_append(a: Seq<MessageView>, b: Seq<MessageView>)
    ensures
        tail_items(a + b) == tail_items(a) + tail_items(b),
    decreases b.len(),
{
    if b.len() == 0 {
        assert(a + b =~= a);
        assert(tail_items(a) + tail_items(b) =~= tail_items(a));
    } else {
        assert((a + b).drop_last() =~= a + b.drop_last());
        lemma_tail_append(a, b.drop_last());
        assert(tail_items(a + b) =~= tail_items(a) + tail_items(b));
    }
}

proof fn lemma_tail_front(g: Seq<MessageView>)
    requires
        g.len() > 0,
    ensures
        tail_items(g) == (",\n  "@ + encode_in(true, g[0])) + tail_items(g.drop_first()),
{
    assert(g =~= seq![g[0]] + g.drop_first());
    lemma_tail_append(seq![g[0]], g.drop_first());
    assert(seq![g[0]].drop_last() =~= Seq::<MessageView>::empty());
    assert(tail_items(Seq::<MessageView>::empty()) =~= Seq::<char>::empty());
    assert(tail_items(seq![g[0]]) =~= ",\n  "@ + encode_in(true, g[0]));
}

proof fn lemma_tail_unique(g1: Seq<MessageView>, g2: Seq<MessageView>)
    requires
        tail_items(g1) + "\n]"@ == tail_items(g2) + "\n]"@,
    ensures
        g1 == g2,
    decreases g1.len(),
{
    reveal_strlit(",\n  ");
    reveal_strlit("\n]");
    let c = "\n]"@;
    let n = ",\n  "@;
    if g1.len() == 0 && g2.len() == 0 {
        assert(g1 =~= g2);
    } else if g1.len() == 0 {
        lemma_tail_front(g2);
        assert(tail_items(g1) =~= Seq::<char>::empty());
        assert((tail_items(g1) + c)[0] == '\n');
        assert((tail_items(g2) + c)[0] == ',');
    } else if g2.len() == 0 {
        lemma_tail_front(g1);
        assert(tail_items(g2) =~= Seq::<char>::empty());
        assert((tail_items(g2) + c)[0] == '\n');
        assert((tail_items(g1) + c)[0] == ',');
    } else {
        lemma_tail_front(g1);
        lemma_tail_front(g2);
        let x = tail_items(g1.drop_first()) + c;
        let y = tail_items(g2.drop_first()) + c;
        assert(tail_items(g1) + c =~= n + (encode_in(true, g1[0]) + x));
        assert(tail_items(g2) + c =~= n + (encode_in(true, g2[0]) + y));
        assert((n + (encode_in(true, g1[0]) + x)).skip(n.len() as int) =~= encode_in(true, g1[0]) + x);
        assert((n + (encode_in(true, g2[0]) + y)).skip(n.len() as int) =~= encode_in(true, g2[0]) + y);
        lemma_encode_prefix(true, g1[0], g2[0], x, y);
        lemma_tail_unique(g1.drop_first(), g2.drop_first());
        assert(g1 =~= seq![g1[0]] + g1.drop_first());
        assert(g2 =~= seq![g2[0]] + g2.drop_first());
    }
}

/// A persisted log reads back as exactly that log: its text is one that
/// `from_text` accepts, and no other log has the same text.
pub proof fn lemma_history_round_trip(a: Seq<MessageView>, b: Seq<MessageView>)
    ensures
        is_history_text(history_text(a)),
        history_text(a) == history_text(b) ==> a == b,
{
    reveal_strlit("[]");
    reveal_strlit("[\n  ");
    let o = "[\n  "@;
    let c = "\n]"@;
    if history_text(a) == history_text(b) {
        if a.len() == 0 && b.len() == 0 {
            assert(a =~= b);
        } else if a.len() == 0 || b.len() == 0 {
            let h = if a.len() == 0 { b } else { a };
            assert(history_text(h) =~= o + (encode_in(true, h[0]) + tail_items(h.drop_first()) + c));
            assert(history_text(h)[1] == '\n');
            assert("[]"@[1] == ']');
        } else {
            let x = tail_items(a.drop_first()) + c;
            let y = tail_items(b.drop_first()) + c;
            assert(history_text(a) =~= o + (encode_in(true, a[0]) + x));
            assert(history_text(b) =~= o + (encode_in(true, b[0]) + y));
            assert((o + (encode_in(true, a[0]) + x)).skip(o.len() as int) =~= encode_in(true, a[0]) + x);
            assert((o + (encode_in(true, b[0]) + y)).skip(o.len() as int) =~= encode_in(true, b[0]) + y);
            lemma_encode_prefix(true, a[0], b[0], x, y);
            lemma_tail_unique(a.drop_first(), b.drop_first());
            assert(a =~= seq![a[0]] + a.drop_first());
            assert(b =~= seq![b[0]] + b.drop_first());
        }
    }
}

} // verus!
