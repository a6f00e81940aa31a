use vstd::prelude::*;
use crate::text::{push_char, chars_of, string_of};
use crate::message::{ChatMessage, MessageType, MessageView};

verus! {

/// Hex digit for a value below 16, lower case.
pub open spec fn hex_digit(n: u32) -> char {
    if n < 10 {
        ((n + 48) as u8) as char
    } else {
        ((n + 87) as u8) as char
    }
}

/// How one char is written inside a quoted string: quote, backslash and
/// control chars are escaped, everything else stands as it is.
pub open spec fn esc_char(c: char) -> Seq<char> {
    if c == '"' {
        seq!['\\', '"']
    } else if c == '\\' {
        seq!['\\', '\\']
    } else if c == '\n' {
        seq!['\\', 'n']
    } else if c == '\r' {
        seq!['\\', 'r']
    } else if c == '\t' {
        seq!['\\', 't']
    } else if c == '\x08' {
        seq!['\\', 'b']
    } else if c == '\x0c' {
        seq!['\\', 'f']
    } else if (c as u32) < 32 {
        seq!['\\', 'u', '0', '0', hex_digit((c as u32) / 16), hex_digit((c as u32) % 16)]
    } else {
        seq![c]
    }
}

/// The escaped form of a whole string.
pub open spec fn escape(s: Seq<char>) -> Seq<char>
    decreases s.len(),
{
    if s.len() == 0 {
        Seq::empty()
    } else {
        escape(s.drop_last()) + esc_char(s.last())
    }
}

/// The body of a quoted string followed by its closing quote.
pub open spec fn quoted(s: Seq<char>) -> Seq<char> {
    escape(s).push('"')
}

proof fn lemma_esc_char_shape(c: char)
    ensures
        esc_char(c).len() >= 1,
        esc_char(c)[0] != '"',
        !esc_char(c).contains('\n'),
{
    let e = esc_char(c);
    assert(e.len() >= 1);
    assert(forall|i: int| 0 <= i < e.len() ==> e[i] != '\n');
}

pub proof fn lemma_escape_append(a: Seq<char>, b: Seq<char>)
    ensures
        escape(a + b) == escape(a) + escape(b),
    decreases b.len(),
{
    if b.len() == 0 {
        assert(a + b =~= a);
        assert(escape(a) + escape(b) =~= escape(a));
    } else {
        assert((a + b).drop_last() =~= a + b.drop_last());
        lemma_escape_append(a, b.drop_last());
        assert(escape(a + b) =~= escape(a) + escape(b));
    }
}

proof fn lemma_escape_one(c: char)
    ensures
        escape(seq![c]) == esc_char(c),
{
    assert(seq![c].drop_last() =~= Seq::<char>::empty());
    assert(escape(Seq::<char>::empty()) =~= Seq::<char>::empty());
    assert(escape(seq![c]) =~= Seq::<char>::empty() + esc_char(c));
    assert(Seq::<char>::empty() + esc_char(c) =~= esc_char(c));
}

/// Splits the escaped form of `e` around its char at `k`.
proof fn lemma_escape_split(e: Seq<char>, k: int)
    requires
        0 <= k < e.len(),
    ensures
        escape(e) == escape(e.take(k)) + esc_char(e[k]) + escape(e.skip(k + 1)),
        escape(e.take(k + 1)) == escape(e.take(k)) + esc_char(e[k]),
{
    assert(e =~= e.take(k) + seq![e[k]] + e.skip(k + 1));
    lemma_escape_append(e.take(k) + seq![e[k]], e.skip(k + 1));
    lemma_escape_append(e.take(k), seq![e[k]]);
    lemma_escape_one(e[k]);
    assert(e.take(k + 1) =~= e.take(k) + seq![e[k]]);
}

/// An escaped string holds no line break.
pub proof fn lemma_escape_no_newline(s: Seq<char>)
    ensures
        !escape(s).contains('\n'),
    decreases s.len(),
{
    if s.len() > 0 {
        lemma_escape_no_newline(s.drop_last());
        lemma_esc_char_shape(s.last());
        let a = escape(s.drop_last());
        let b = esc_char(s.last());
        assert forall|i: int| 0 <= i < (a + b).len() implies (a + b)[i] != '\n' by {
            if i < a.len() {
                assert((a + b)[i] == a[i]);
            } else {
                assert((a + b)[i] == b[i - a.len()]);
            }
        }
    }
}

fn hex_char(n: u32) -> (r: char)
    requires
        n < 16,
    ensures
        r == hex_digit(n),
{
    if n < 10 {
        (n as u8 + 48u8) as char
    } else {
        (n as u8 + 87u8) as char
    }
}

fn push_esc_char(out: &mut String, c: char)
    ensures
        final(out)@ == old(out)@ + esc_char(c),
{
    if c == '"' {
        push_char(out, '\\');
        push_char(out, '"');
    } else if c == '\\' {
        push_char(out, '\\');
        push_char(out, '\\');
    } else if c == '\n' {
        push_char(out, '\\');
        push_char(out, 'n');
    } else if c == '\r' {
        push_char(out, '\\');
        push_char(out, 'r');
    } else if c == '\t' {
        push_char(out, '\\');
        push_char(out, 't');
    } else if c == '\x08' {
        push_char(out, '\\');
        push_char(out, 'b');
    } else if c == '\x0c' {
        push_char(out, '\\');
        push_char(out, 'f');
    } else if (c as u32) < 32 {
        push_char(out, '\\');
        push_char(out, 'u');
        push_char(out, '0');
        push_char(out, '0');
        push_char(out, hex_char((c as u32) / 16));
        push_char(out, hex_char((c as u32) % 16));
    } else {
        push_char(out, c);
    }
    assert(final(out)@ =~= old(out)@ + esc_char(c));
}

/// Appends the escaped form of `s` and a closing quote.
pub(crate) fn push_quoted(out: &mut String, s: &str)
    ensures
        final(out)@ == old(out)@ + quoted(s@),
{
    let v = crate::text::chars_of(s);
    let ghost start = out@;
    let mut i: usize = 0;
    while i < v.len()
        invariant
            i <= v.len(),
            v@ == s@,
            out@ == start + escape(v@.take(i as int)),
        decreases v.len() - i,
    {
        push_esc_char(out, v[i]);
        proof {
            lemma_escape_split(v@, i as int);
        }
        i = i + 1;
    }
    assert(v@.take(i as int) =~= v@);
    push_char(out, '"');
    assert(out@ =~= start + quoted(s@));
}

fn hex_value(ch: char) -> (r: Option<u32>)
    ensures
        r matches Some(n) ==> n < 16 && hex_digit(n) == ch,
        forall|n: u32| n < 16 && #[trigger] hex_digit(n) == ch ==> r == Some(n),
{
    if '0' <= ch && ch <= '9' {
        Some((ch as u32) - 48)
    } else if 'a' <= ch && ch <= 'f' {
        Some((ch as u32) - 87)
    } else {
        None
    }
}

/// Whether `t` holds `piece` from position `p` on.
pub open spec fn holds_at(t: Seq<char>, p: int, piece: Seq<char>) -> bool {
    0 <= p && p + piece.len() <= t.len() && t.subrange(p, p + piece.len()) == piece
}

/// Reads one escaped char at `i`; `expected` names the char that is there
/// when `t` holds its escaped form at `i`.
fn decode_at(t: &Vec<char>, i: usize, Ghost(expected): Ghost<char>) -> (r: Option<(char, usize)>)
    requires
        i < t.len(),
        t@[i as int] != '"',
    ensures
        r matches Some((c, k)) ==> k >= 1 && holds_at(t@, i as int, esc_char(c)) && k == esc_char(c).len(),
        holds_at(t@, i as int, esc_char(expected)) ==> r == Some((expected, esc_char(expected).len() as usize)),
{
    let c = t[i];
    let ghost e = esc_char(expected);
    proof {
        if holds_at(t@, i as int, e) {
            assert forall|j: int| 0 <= j < e.len() implies t@[i + j] == e[j] by {
                assert(t@.subrange(i as int, i + e.len())[j] == t@[i + j]);
            }
            assert(t@[i as int] == e[0]);
        }
    }
    let r = if c == '\\' {
        if i + 1 >= t.len() {
            None
        } else {
            let n = t[i + 1];
            if n == '"' {
                Some(('"', 2))
            } else if n == '\\' {
                Some(('\\', 2))
            } else if n == 'n' {
                Some(('\n', 2))
            } else if n == 'r' {
                Some(('\r', 2))
            } else if n == 't' {
                Some(('\t', 2))
            } else if n == 'b' {
                Some(('\x08', 2))
            } else if n == 'f' {
                Some(('\x0c', 2))
            } else if n == 'u' && t.len() - i > 5 && t[i + 2] == '0' && t[i + 3] == '0' {
                match (hex_value(t[i + 4]), hex_value(t[i + 5])) {
                    (Some(a), Some(b)) => {
                        let v = a * 16 + b;
                        if a >= 2 || v == 8 || v == 9 || v == 10 || v == 12 || v == 13 {
                            None
                        } else {
                            let ch = (v as u8) as char;
                            assert(ch as u32 == v);
                            assert(v / 16 == a && v % 16 == b);
                            Some((ch, 6))
                        }
                    },
                    _ => None,
                }
            } else {
                None
            }
        }
    } else if (c as u32) < 32 {
        None
    } else {
        Some((c, 1))
    };
    proof {
        if let Some((d, k)) = r {
            assert(t@.subrange(i as int, i + k) =~= esc_char(d));
        }
        if holds_at(t@, i as int, e) {
            let x = expected as u32;
            if expected == '"' || expected == '\\' || expected == '\n' || expected == '\r'
                || expected == '\t' || expected == '\x08' || expected == '\x0c' {
                assert(e.len() == 2);
                assert(t@[i + 1] == e[1]);
            } else if x < 32 {
                assert(e.len() == 6);
                assert(t@[i + 1] == e[1]);
                assert(t@[i + 2] == e[2]);
                assert(t@[i + 3] == e[3]);
                assert(t@[i + 4] == hex_digit(x / 16));
                assert(t@[i + 5] == hex_digit(x % 16));
                assert(x / 16 < 2);
                assert((x / 16) * 16 + x % 16 == x);
                assert(((x as u8) as char) == expected);
            } else {
                assert(e.len() == 1);
            }
        }
    }
    r
}

/// Whether `t` holds, from `p` on, the quoted form of `s`.
pub open spec fn quoted_at(t: Seq<char>, p: int, s: Seq<char>) -> bool {
    holds_at(t, p, quoted(s))
}

/// Reads the body of a quoted string whose opening quote precedes `start`;
/// returns its chars and the position after the closing quote.
fn read_string(t: &Vec<char>, start: usize, Ghost(expected): Ghost<Seq<char>>) -> (r: Option<(Vec<char>, usize)>)
    requires
        start <= t.len(),
    ensures
        r matches Some((d, q)) ==> quoted_at(t@, start as int, d@) && q == start + quoted(d@).len(),
        quoted_at(t@, start as int, expected) ==> (r matches Some((d, q)) && d@ == expected),
{
    let mut out: Vec<char> = Vec::new();
    let mut i: usize = start;
    loop
        invariant
            start <= i <= t.len(),
            t@.subrange(start as int, i as int) == escape(out@),
            quoted_at(t@, start as int, expected) ==> (out@.len() <= expected.len() && out@
                == expected.take(out@.len() as int) && i == start + escape(out@).len()),
        decreases t.len() - i,
    {
        let ghost k = out@.len() as int;
        proof {
            if quoted_at(t@, start as int, expected) {
                let q = quoted(expected);
                if k < expected.len() {
                    lemma_escape_split(expected, k);
                    lemma_esc_char_shape(expected[k]);
                    assert(expected.take(k) =~= out@);
                    assert(q[i - start] == esc_char(expected[k])[0]);
                } else {
                    assert(out@ =~= expected);
                    assert(q[i - start] == '"');
                }
                assert(i < t.len());
                assert(t@.subrange(start as int, start + q.len())[i - start] == t@[i as int]);
            }
        }
        if i >= t.len() {
            return None;
        }
        if t[i] == '"' {
            assert(t@.subrange(start as int, i + 1) =~= quoted(out@));
            return Some((out, i + 1));
        }
        let ghost ce = if k < expected.len() { expected[k] } else { ' ' };
        proof {
            if quoted_at(t@, start as int, expected) {
                lemma_escape_split(expected, k);
                let q = quoted(expected);
                let e = esc_char(ce);
                assert forall|j: int| 0 <= j < e.len() implies t@.subrange(i as int, i + e.len())[j] == e[j] by {
                    assert(q[i - start + j] == e[j]);
                    assert(t@.subrange(start as int, start + q.len())[i - start + j] == t@[i + j]);
                }
                assert(t@.subrange(i as int, i + e.len()) =~= e);
            }
        }
        match decode_at(t, i, Ghost(ce)) {
            None => {
                return None;
            },
            Some((c, n)) => {
                let ghost before = out@;
                out.push(c);
                proof {
                    assert(out@.drop_last() =~= before);
                    assert(t@.subrange(start as int, i + n) =~= t@.subrange(start as int, i as int)
                        + t@.subrange(i as int, i + n));
                    if quoted_at(t@, start as int, expected) {
                        lemma_escape_split(expected, k);
                        assert(out@ =~= expected.take(k + 1));
                    }
                }
                i = i + n;
            },
        }
    }
}

/// The name under which a kind of message is written.
pub open spec fn kind_name(k: MessageType) -> Seq<char> {
    match k {
        MessageType::UserMessage => "UserMessage"@,
        MessageType::SystemMessage => "SystemMessage"@,
    }
}

/// A key, with its opening quote, followed by a quoted value.
pub open spec fn field(key: Seq<char>, value: Seq<char>) -> Seq<char> {
    key + quoted(value)
}

/// The keys of a message object, each with what stands before it, and the
/// object's end: either all on one line, or laid out over several lines as
/// a pretty-printed JSON array element.
pub open spec fn key1(pretty: bool) -> Seq<char> {
    if pretty {
        "{\n    \"username\": \""@
    } else {
        "{\"username\":\""@
    }
}

fn key1_text(pretty: bool) -> (r: &'static str)
    ensures
        r@ == key1(pretty),
{
    if pretty {
        "{\n    \"username\": \""
    } else {
        "{\"username\":\""
    }
}

pub open spec fn key2(pretty: bool) -> Seq<char> {
    if pretty {
        ",\n    \"content\": \""@
    } else {
        ",\"content\":\""@
    }
}

fn key2_text(pretty: bool) -> (r: &'static str)
    ensures
        r@ == key2(pretty),
{
    if pretty {
        ",\n    \"content\": \""
    } else {
        ",\"content\":\""
    }
}

pub open spec fn key3(pretty: bool) -> Seq<char> {
    if pretty {
        ",\n    \"timestamp\": \""@
    } else {
        ",\"timestamp\":\""@
    }
}

fn key3_text(pretty: bool) -> (r: &'static str)
    ensures
        r@ == key3(pretty),
{
    if pretty {
        ",\n    \"timestamp\": \""
    } else {
        ",\"timestamp\":\""
    }
}

pub open spec fn key4(pretty: bool) -> Seq<char> {
    if pretty {
        ",\n    \"message_type\": \""@
    } else {
        ",\"message_type\":\""@
    }
}

fn key4_text(pretty: bool) -> (r: &'static str)
    ensures
        r@ == key4(pretty),
{
    if pretty {
        ",\n    \"message_type\": \""
    } else {
        ",\"message_type\":\""
    }
}

pub open spec fn key5(pretty: bool) -> Seq<char> {
    if pretty {
        "\n  }"@
    } else {
        "}"@
    }
}

fn key5_text(pretty: bool) -> (r: &'static str)
    ensures
        r@ == key5(pretty),
{
    if pretty {
        "\n  }"
    } else {
        "}"
    }
}

/// A message as a JSON object with its four fields in a fixed order.
#[verifier::opaque]
pub open spec fn encode_in(pretty: bool, m: MessageView) -> Seq<char> {
    field(key1(pretty), m.username) + field(key2(pretty), m.content) + field(key3(pretty), m.timestamp) + field(
        key4(pretty),
        kind_name(m.message_type),
    ) + key5(pretty)
}

/// The one-line text of a message: nothing between the tokens.
pub open spec fn encode_msg(m: MessageView) -> Seq<char> {
    encode_in(false, m)
}

/// Whether `t` is the text of some message.
pub open spec fn is_encoding(t: Seq<char>) -> bool {
    exists|m: MessageView| encode_msg(m) == t
}

/// Appends the object text of a message in the given layout.
pub(crate) fn write_message(out: &mut String, m: &ChatMessage, pretty: bool)
    ensures
        final(out)@ == old(out)@ + encode_in(pretty, m@),
{
    proof {
        reveal(encode_in);
    }
    let ghost start = out@;
    out.append(key1_text(pretty));
    push_quoted(out, m.username.as_str());
    out.append(key2_text(pretty));
    push_quoted(out, m.content.as_str());
    out.append(key3_text(pretty));
    push_quoted(out, m.timestamp.as_str());
    out.append(key4_text(pretty));
    match m.message_type {
        MessageType::UserMessage => push_quoted(out, "UserMessage"),
        MessageType::SystemMessage => push_quoted(out, "SystemMessage"),
    }
    out.append(key5_text(pretty));
    assert(out@ =~= start + encode_in(pretty, m@));
}

/// Writes a message as one line of text, without its line break.
pub fn serialize(m: &ChatMessage) -> (r: String)
    ensures
        r@ == encode_msg(m@),
        !r@.contains('\n'),
{
    proof {
        reveal(encode_in);
    }
    let mut out = String::new();
    write_message(&mut out, m, false);
    assert(out@ =~= encode_msg(m@));
    proof {
        lemma_encode_no_newline(m@);
    }
    out
}

proof fn lemma_concat_no_newline(a: Seq<char>, b: Seq<char>)
    requires
        !a.contains('\n'),
        !b.contains('\n'),
    ensures
        !(a + b).contains('\n'),
{
    assert forall|i: int| 0 <= i < (a + b).len() implies (a + b)[i] != '\n' by {
        if i < a.len() {
            assert((a + b)[i] == a[i]);
        } else {
            assert((a + b)[i] == b[i - a.len()]);
        }
    }
}

proof fn lemma_field_no_newline(key: Seq<char>, value: Seq<char>)
    requires
        !key.contains('\n'),
    ensures
        !field(key, value).contains('\n'),
{
    lemma_escape_no_newline(value);
    assert(!seq!['"'].contains('\n')) by {
        assert(seq!['"'][0] != '\n');
    }
    assert(quoted(value) =~= escape(value) + seq!['"']);
    lemma_concat_no_newline(escape(value), seq!['"']);
    lemma_concat_no_newline(key, quoted(value));
}

/// The text of a message holds no line break.
pub proof fn lemma_encode_no_newline(m: MessageView)
    ensures
        !encode_msg(m).contains('\n'),
{
    reveal(encode_in);
    let k1 = "{\"username\":\""@;
    let k2 = ",\"content\":\""@;
    let k3 = ",\"timestamp\":\""@;
    let k4 = ",\"message_type\":\""@;
    let k5 = "}"@;
    assert(!k1.contains('\n')) by {
        reveal_strlit("{\"username\":\"");
        assert(k1 =~= seq!['{', '"', 'u', 's', 'e', 'r', 'n', 'a', 'm', 'e', '"', ':', '"']);
    }
    assert(!k2.contains('\n')) by {
        reveal_strlit(",\"content\":\"");
        assert(k2 =~= seq![',', '"', 'c', 'o', 'n', 't', 'e', 'n', 't', '"', ':', '"']);
    }
    assert(!k3.contains('\n')) by {
        reveal_strlit(",\"timestamp\":\"");
        assert(k3 =~= seq![',', '"', 't', 'i', 'm', 'e', 's', 't', 'a', 'm', 'p', '"', ':', '"']);
    }
    assert(!k4.contains('\n')) by {
        reveal_strlit(",\"message_type\":\"");
        assert(k4 =~= seq![
            ',', '"', 'm', 'e', 's', 's', 'a', 'g', 'e', '_', 't', 'y', 'p', 'e', '"', ':', '"'
        ]);
    }
    assert(!k5.contains('\n')) by {
        reveal_strlit("}");
        assert(k5 =~= seq!['}']);
    }
    let f1 = field(k1, m.username);
    let f2 = field(k2, m.content);
    let f3 = field(k3, m.timestamp);
    let f4 = field(k4, kind_name(m.message_type));
    lemma_field_no_newline(k1, m.username);
    lemma_field_no_newline(k2, m.content);
    lemma_field_no_newline(k3, m.timestamp);
    lemma_field_no_newline(k4, kind_name(m.message_type));
    lemma_concat_no_newline(f1, f2);
    lemma_concat_no_newline(f1 + f2, f3);
    lemma_concat_no_newline(f1 + f2 + f3, f4);
    lemma_concat_no_newline(f1 + f2 + f3 + f4, k5);
}

proof fn lemma_holds_at_concat(t: Seq<char>, p: int, a: Seq<char>, b: Seq<char>)
    ensures
        holds_at(t, p, a + b) <==> (holds_at(t, p, a) && holds_at(t, p + a.len(), b)),
{
    if holds_at(t, p, a + b) {
        assert((a + b).subrange(0, a.len() as int) =~= a);
        assert((a + b).subrange(a.len() as int, (a + b).len() as int) =~= b);
        assert(t.subrange(p, p + a.len()) =~= (a + b).subrange(0, a.len() as int));
        assert(t.subrange(p + a.len(), p + a.len() + b.len()) =~= (a + b).subrange(
            a.len() as int,
            (a + b).len() as int,
        ));
    }
    if holds_at(t, p, a) && holds_at(t, p + a.len(), b) {
        assert(t.subrange(p, p + (a + b).len()) =~= t.subrange(p, p + a.len()) + t.subrange(
            p + a.len(),
            p + a.len() + b.len(),
        ));
        assert(t.subrange(p, p + (a + b).len()) == a + b);
    }
}

pub(crate) fn match_at(t: &Vec<char>, p: usize, lit: &str) -> (r: Option<usize>)
    requires
        p <= t.len(),
    ensures
        r is Some <==> holds_at(t@, p as int, lit@),
        r matches Some(q) ==> q == p + lit@.len(),
{
    let l = chars_of(lit);
    if t.len() - p < l.len() {
        return None;
    }
    let mut j: usize = 0;
    while j < l.len()
        invariant
            j <= l.len(),
            l@ == lit@,
            p + l.len() <= t.len(),
            forall|k: int| 0 <= k < j ==> t@[p + k] == l@[k],
        decreases l.len() - j,
    {
        if t[p + j] != l[j] {
            proof {
                if holds_at(t@, p as int, lit@) {
                    assert(t@.subrange(p as int, p + l.len())[j as int] == t@[p + j]);
                }
            }
            return None;
        }
        j = j + 1;
    }
    assert(t@.subrange(p as int, p + l.len()) =~= l@);
    Some(p + l.len())
}

/// Reads a key and the quoted value after it.
fn read_field(t: &Vec<char>, p: usize, key: &str, Ghost(expected): Ghost<Seq<char>>) -> (r: Option<(Vec<char>, usize)>)
    requires
        p <= t.len(),
    ensures
        r matches Some((d, q)) ==> holds_at(t@, p as int, field(key@, d@)) && q == p + field(key@, d@).len(),
        holds_at(t@, p as int, field(key@, expected)) ==> (r matches Some((d, q)) && d@ == expected),
{
    proof {
        lemma_holds_at_concat(t@, p as int, key@, quoted(expected));
    }
    match match_at(t, p, key) {
        None => None,
        Some(q) => {
            let r = read_string(t, q, Ghost(expected));
            proof {
                if let Some((d, _)) = &r {
                    lemma_holds_at_concat(t@, p as int, key@, quoted(d@));
                }
            }
            r
        },
    }
}

fn same_chars(a: &Vec<char>, b: &Vec<char>) -> (r: bool)
    ensures
        r == (a@ == b@),
{
    if a.len() != b.len() {
        return false;
    }
    let mut i: usize = 0;
    while i < a.len()
        invariant
            i <= a.len() == b.len(),
            forall|k: int| 0 <= k < i ==> a@[k] == b@[k],
        decreases a.len() - i,
    {
        if a[i] != b[i] {
            return false;
        }
        i = i + 1;
    }
    assert(a@ =~= b@);
    true
}

/// Reads the text of one message from position `p` on.
pub(crate) fn decode_from(t: &Vec<char>, p: usize, pretty: bool, Ghost(expected): Ghost<MessageView>) -> (r: Option<(ChatMessage, usize)>)
    requires
        p <= t.len(),
    ensures
        r matches Some((m, q)) ==> holds_at(t@, p as int, encode_in(pretty, m@)) && q == p + encode_in(pretty, m@).len()
            && q > p,
        holds_at(t@, p as int, encode_in(pretty, expected)) ==> (r matches Some((m, q)) && m@ == expected),
{
    proof {
        reveal(encode_in);
    }
    let ghost e = expected;
    let ghost k1 = key1(pretty);
    let ghost k2 = key2(pretty);
    let ghost k3 = key3(pretty);
    let ghost k4 = key4(pretty);
    let ghost k5 = key5(pretty);
    let ghost f1 = field(k1, e.username);
    let ghost f2 = field(k2, e.content);
    let ghost f3 = field(k3, e.timestamp);
    let ghost f4 = field(k4, kind_name(e.message_type));
    
    proof {
        lemma_holds_at_concat(t@, p as int, f1 + f2 + f3 + f4, k5);
        lemma_holds_at_concat(t@, p as int, f1 + f2 + f3, f4);
        lemma_holds_at_concat(t@, p as int, f1 + f2, f3);
        lemma_holds_at_concat(t@, p as int, f1, f2);
    }
    let (u, q1) = match read_field(t, p, key1_text(pretty), Ghost(e.username)) {
        Some(x) => x,
        None => return None,
    };
    let (c, q2) = match read_field(t, q1, key2_text(pretty), Ghost(e.content)) {
        Some(x) => x,
        None => return None,
    };
    let (ts, q3) = match read_field(t, q2, key3_text(pretty), Ghost(e.timestamp)) {
        Some(x) => x,
        None => return None,
    };
    let (k, q4) = match read_field(t, q3, key4_text(pretty), Ghost(kind_name(e.message_type))) {
        Some(x) => x,
        None => return None,
    };
    let q5 = match match_at(t, q4, key5_text(pretty)) {
        Some(x) => x,
        None => return None,
    };
    let user_name = chars_of("UserMessage");
    let system_name = chars_of("SystemMessage");
    proof {
        reveal_strlit("UserMessage");
        reveal_strlit("SystemMessage");
        assert("UserMessage"@.len() != "SystemMessage"@.len());
    }
    let kind = if same_chars(&k, &user_name) {
        MessageType::UserMessage
    } else if same_chars(&k, &system_name) {
        MessageType::SystemMessage
    } else {
        return None;
    };
    let m = ChatMessage {
        username: string_of(&u),
        content: string_of(&c),
        timestamp: string_of(&ts),
        message_type: kind,
    };
    proof {
        let g1 = field(k1, u@);
        let g2 = field(k2, c@);
        let g3 = field(k3, ts@);
        let g4 = field(k4, k@);
        lemma_holds_at_concat(t@, p as int, g1, g2);
        lemma_holds_at_concat(t@, p as int, g1 + g2, g3);
        lemma_holds_at_concat(t@, p as int, g1 + g2 + g3, g4);
        lemma_holds_at_concat(t@, p as int, g1 + g2 + g3 + g4, k5);
        assert(encode_in(pretty, m@) == g1 + g2 + g3 + g4 + k5);
    }
    Some((m, q5))
}

/// Error of a line that is not the text of a message.
#[derive(Debug, Clone, Copy, PartialEq, Eq, Structural)]
pub enum MalformedMessage {
    Malformed,
}

/// Reads a message back from its one-line text. Only the exact text that
/// `serialize` writes is accepted.
pub fn deserialize(s: &str) -> (r: Result<ChatMessage, MalformedMessage>)
    ensures
        r is Ok <==> is_encoding(s@),
        r matches Ok(m) ==> encode_msg(m@) == s@,
{
    let t = chars_of(s);
    let ghost target = if is_encoding(s@) {
        choose|m: MessageView| encode_msg(m) == s@
    } else {
        arbitrary()
    };
    proof {
        if is_encoding(s@) {
            assert(t@.subrange(0, encode_msg(target).len() as int) =~= t@);
        }
    }
    match decode_from(&t, 0, false, Ghost(target)) {
        Some((m, q)) => {
            if q == t.len() {
                assert(t@.subrange(0, q as int) =~= t@);
                assert(encode_msg(m@) == s@);
                assert(is_encoding(s@));
                Ok(m)
            } else {
                Err(MalformedMessage::Malformed)
            }
        },
        None => Err(MalformedMessage::Malformed),
    }
}

proof fn lemma_hex_digit_injective(a: u32, b: u32)
    requires
        a < 16,
        b < 16,
        hex_digit(a) == hex_digit(b),
    ensures
        a == b,
{
}

proof fn lemma_esc_char_prefix(c1: char, c2: char, x: Seq<char>, y: Seq<char>)
    requires
        esc_char(c1) + x == esc_char(c2) + y,
    ensures
        c1 == c2,
        x == y,
{
    let e1 = esc_char(c1);
    let e2 = esc_char(c2);
    let z = e1 + x;
    lemma_esc_char_shape(c1);
    lemma_esc_char_shape(c2);
    assert(z[0] == e1[0]);
    assert((e2 + y)[0] == e2[0]);
    if e1[0] == '\\' {
        assert(e1.len() >= 2 && e2.len() >= 2);
        assert(z[1] == e1[1]);
        assert((e2 + y)[1] == e2[1]);
        if e1[1] == 'u' {
            assert(e1.len() == 6 && e2.len() == 6);
            assert(z[4] == e1[4] && (e2 + y)[4] == e2[4]);
            assert(z[5] == e1[5] && (e2 + y)[5] == e2[5]);
            let n1 = c1 as u32;
            let n2 = c2 as u32;
            lemma_hex_digit_injective(n1 / 16, n2 / 16);
            lemma_hex_digit_injective(n1 % 16, n2 % 16);
            assert(n1 == n2);
        }
    }
    assert(c1 == c2);
    assert(x =~= z.skip(e1.len() as int));
    assert(y =~= (e2 + y).skip(e2.len() as int));
}

proof fn lemma_escape_front(d: Seq<char>)
    requires
        d.len() > 0,
    ensures
        escape(d) == esc_char(d[0]) + escape(d.drop_first()),
{
    assert(d =~= seq![d[0]] + d.drop_first());
    lemma_escape_append(seq![d[0]], d.drop_first());
    lemma_escape_one(d[0]);
}

/// Two quoted strings that start the same text are the same string.
proof fn lemma_quoted_unique(d1: Seq<char>, d2: Seq<char>, x: Seq<char>, y: Seq<char>)
    requires
        quoted(d1) + x == quoted(d2) + y,
    ensures
        d1 == d2,
        x == y,
    decreases d1.len(),
{
    let z = quoted(d1) + x;
    if d1.len() == 0 {
        assert(escape(d1) =~= Seq::<char>::empty());
        assert(z[0] == '"');
        if d2.len() > 0 {
            lemma_escape_front(d2);
            lemma_esc_char_shape(d2[0]);
            assert((quoted(d2) + y)[0] == esc_char(d2[0])[0]);
        }
        assert(escape(d2) =~= Seq::<char>::empty());
        assert(d1 =~= d2);
        assert(x =~= z.skip(1));
        assert(y =~= (quoted(d2) + y).skip(1));
    } else {
        lemma_escape_front(d1);
        lemma_esc_char_shape(d1[0]);
        if d2.len() == 0 {
            assert(escape(d2) =~= Seq::<char>::empty());
            assert(z[0] == esc_char(d1[0])[0]);
            assert((quoted(d2) + y)[0] == '"');
        } else {
            lemma_escape_front(d2);
            let r1 = quoted(d1.drop_first()) + x;
            let r2 = quoted(d2.drop_first()) + y;
            assert(z =~= esc_char(d1[0]) + r1);
            assert(quoted(d2) + y =~= esc_char(d2[0]) + r2);
            lemma_esc_char_prefix(d1[0], d2[0], r1, r2);
            lemma_quoted_unique(d1.drop_first(), d2.drop_first(), x, y);
            assert(d1 =~= seq![d1[0]] + d1.drop_first());
            assert(d2 =~= seq![d2[0]] + d2.drop_first());
        }
    }
}

proof fn lemma_field_unique(key: Seq<char>, v1: Seq<char>, v2: Seq<char>, x: Seq<char>, y: Seq<char>)
    requires
        field(key, v1) + x == field(key, v2) + y,
    ensures
        v1 == v2,
        x == y,
{
    let a = field(key, v1) + x;
    let b = field(key, v2) + y;
    assert(a.skip(key.len() as int) =~= quoted(v1) + x);
    assert(b.skip(key.len() as int) =~= quoted(v2) + y);
    lemma_quoted_unique(v1, v2, x, y);
}

proof fn lemma_assoc5(s1: Seq<char>, s2: Seq<char>, s3: Seq<char>, s4: Seq<char>, s5: Seq<char>, x: Seq<char>)
    ensures
        s1 + s2 + s3 + s4 + s5 + x == s1 + (s2 + (s3 + (s4 + (s5 + x)))),
{
    assert(s1 + s2 + s3 + s4 + s5 + x =~= s1 + (s2 + (s3 + (s4 + (s5 + x)))));
}

proof fn lemma_kind_name_injective(a: MessageType, b: MessageType)
    requires
        kind_name(a) == kind_name(b),
    ensures
        a == b,
{
    reveal_strlit("UserMessage");
    reveal_strlit("SystemMessage");
    assert("UserMessage"@.len() != "SystemMessage"@.len());
}

/// No message's text starts another message's text: the text of a message
/// ends where its encoding says, whatever follows it.
pub proof fn lemma_encode_prefix(pretty: bool, a: MessageView, b: MessageView, x: Seq<char>, y: Seq<char>)
    requires
        encode_in(pretty, a) + x == encode_in(pretty, b) + y,
    ensures
        a == b,
        x == y,
{
    reveal(encode_in);
    let k1 = key1(pretty);
    let k2 = key2(pretty);
    let k3 = key3(pretty);
    let k4 = key4(pretty);
    let k5 = key5(pretty);
    let ka = kind_name(a.message_type);
    let kb = kind_name(b.message_type);
    lemma_assoc5(field(k1, a.username), field(k2, a.content), field(k3, a.timestamp), field(k4, ka), k5, x);
    lemma_assoc5(field(k1, b.username), field(k2, b.content), field(k3, b.timestamp), field(k4, kb), k5, y);
    lemma_field_unique(
        k1,
        a.username,
        b.username,
        field(k2, a.content) + (field(k3, a.timestamp) + (field(k4, ka) + (k5 + x))),
        field(k2, b.content) + (field(k3, b.timestamp) + (field(k4, kb) + (k5 + y))),
    );
    lemma_field_unique(
        k2,
        a.content,
        b.content,
        field(k3, a.timestamp) + (field(k4, ka) + (k5 + x)),
        field(k3, b.timestamp) + (field(k4, kb) + (k5 + y)),
    );
    lemma_field_unique(k3, a.timestamp, b.timestamp, field(k4, ka) + (k5 + x), field(k4, kb) + (k5 + y));
    lemma_field_unique(k4, ka, kb, k5 + x, k5 + y);
    lemma_kind_name_injective(a.message_type, b.message_type);
    assert(x =~= (k5 + x).skip(k5.len() as int));
    assert(y =~= (k5 + y).skip(k5.len() as int));
}

/// Different messages have different texts.
pub proof fn lemma_encode_injective(a: MessageView, b: MessageView)
    requires
        encode_msg(a) == encode_msg(b),
    ensures
        a == b,
{
    reveal(encode_in);
    assert(encode_msg(a) + Seq::<char>::empty() =~= encode_msg(a));
    assert(encode_msg(b) + Seq::<char>::empty() =~= encode_msg(b));
    lemma_encode_prefix(false, a, b, Seq::empty(), Seq::empty());
}

/// Reading back the text of a message gives that message: the text is one
/// that `deserialize` accepts, and no other message has the same text.
pub proof fn lemma_round_trip(m: MessageView)
    ensures
        is_encoding(encode_msg(m)),
        forall|other: MessageView| encode_msg(other) == encode_msg(m) ==> other == m,
{
    assert forall|other: MessageView| encode_msg(other) == encode_msg(m) implies other == m by {
        lemma_encode_injective(other, m);
    }
}

} // verus!
