//! Wire codec for the tunnel frame protocol.
//!
//! Frames travel as UTF-8 text, one JSON object per frame. The wire
//! contract, in both directions, is the canonical text defined here: the
//! fields of each frame shape in their declared order, with no whitespace.
//! A frame in any other JSON serialization of the same value (reordered
//! fields, added whitespace, `u`-style escapes) is dropped as a parse
//! failure, like anything else that is not a frame: a tunnel client must
//! emit the canonical form. This module defines that text at the
//! specification level, executable encoders that produce exactly it, a
//! parser that accepts exactly it, and round-trip proofs.
//! Inside a JSON string the characters `"`, `\`, and the newline, carriage
//! return and tab controls are escaped with a backslash; every other
//! character stands for itself.

use vstd::prelude::*;
use vstd::string::*;

use crate::ext::push_char;
use crate::protocol::{ClientMessage, MessageView, ProxyRequest, RequestView};

verus! {

/// The decimal digit character for `d` (meaningful for `d < 10`).
pub open spec fn digit_char(d: nat) -> char {
    ((48 + d) as u8) as char
}

/// `c` is a decimal digit.
pub open spec fn is_digit(c: char) -> bool {
    '0' <= c && c <= '9'
}

/// The numeric value of a digit character.
pub open spec fn digit_val(c: char) -> nat {
    (c as nat - 48) as nat
}

/// The decimal digits of `n`, most significant first, no sign and no
/// leading zero (except for `n == 0` itself).
pub open spec fn dec_digits(n: nat) -> Seq<char>
    decreases n,
{
    if n < 10 {
        seq![digit_char(n)]
    } else {
        dec_digits(n / 10).push(digit_char(n % 10))
    }
}

/// How one character appears inside a JSON string.
pub open spec fn esc_char(c: char) -> Seq<char> {
    if c == '"' {
        seq!['\\', '"']
    } else if c == '\\' {
        seq!['\\', '\\']
    } else if c == '\n' {
        seq!['\\', 'n']
    } else if c == '\r' {
        seq!['\\', 'r']
    } else if c == '\t' {
        seq!['\\', 't']
    } else {
        seq![c]
    }
}

/// The body of a JSON string: every character escaped as needed.
pub open spec fn json_escape(s: Seq<char>) -> Seq<char>
    decreases s.len(),
{
    if s.len() == 0 {
        Seq::empty()
    } else {
        esc_char(s.first()) + json_escape(s.drop_first())
    }
}

/// A JSON string: the escaped text between double quotes.
pub open spec fn json_string(s: Seq<char>) -> Seq<char> {
    seq!['"'] + json_escape(s) + seq!['"']
}

/// One `"key":"value"` member.
pub open spec fn enc_pair(p: (Seq<char>, Seq<char>)) -> Seq<char> {
    json_string(p.0) + seq![':'] + json_string(p.1)
}

/// The members of a string-to-string object from index `i` on, separated by
/// commas.
pub open spec fn json_pairs_from(ps: Seq<(Seq<char>, Seq<char>)>, i: int) -> Seq<char>
    decreases ps.len() - i,
{
    if i < 0 || i >= ps.len() {
        Seq::empty()
    } else {
        enc_pair(ps[i]) + (if i + 1 < ps.len() {
            seq![',']
        } else {
            Seq::empty()
        }) + json_pairs_from(ps, i + 1)
    }
}

/// A string-to-string JSON object.
pub open spec fn json_object(ps: Seq<(Seq<char>, Seq<char>)>) -> Seq<char> {
    seq!['{'] + json_pairs_from(ps, 0) + seq!['}']
}

/// The canonical wire text of an inbound frame.
pub open spec fn enc_message(v: MessageView) -> Seq<char> {
    match v {
        MessageView::ResponseHeaders { request_id, status, headers } => "{\"event_type\":"@
            + json_string("response_headers"@) + ",\"request_id\":"@ + json_string(request_id)
            + ",\"status\":"@ + dec_digits(status as nat) + ",\"headers\":"@ + json_object(headers)
            + "}"@,
        MessageView::Chunk { request_id, data } => "{\"event_type\":"@ + json_string("chunk"@)
            + ",\"request_id\":"@ + json_string(request_id) + ",\"data\":"@ + json_string(data)
            + "}"@,
        MessageView::Error { request_id, status, message } => "{\"event_type\":"@ + json_string(
            "error"@,
        ) + ",\"request_id\":"@ + json_string(request_id) + ",\"status\":"@ + (match status {
            Some(n) => dec_digits(n as nat),
            None => "null"@,
        }) + ",\"message\":"@ + json_string(message) + "}"@,
        MessageView::StreamClose { request_id } => "{\"event_type\":"@ + json_string(
            "stream_close"@,
        ) + ",\"request_id\":"@ + json_string(request_id) + "}"@,
    }
}

/// The canonical wire text of an outbound request.
pub open spec fn enc_request(v: RequestView) -> Seq<char> {
    "{\"path\":"@ + json_string(v.path) + ",\"method\":"@ + json_string(v.method) + ",\"headers\":"@
        + json_object(v.headers) + ",\"query_params\":"@ + json_object(v.query_params)
        + ",\"body\":"@ + json_string(v.body) + ",\"request_id\":"@ + json_string(v.request_id)
        + "}"@
}

/// Appending one character to the input extends the escaped text by that
/// character's escape.
proof fn lemma_json_escape_push(t: Seq<char>, c: char)
    ensures
        json_escape(t.push(c)) == json_escape(t) + esc_char(c),
    decreases t.len(),
{
    let u = t.push(c);
    assert(u.len() == t.len() + 1);
    assert(json_escape(u) == esc_char(u.first()) + json_escape(u.drop_first()));
    if t.len() == 0 {
        assert(u.first() == c);
        assert(u.drop_first() =~= Seq::<char>::empty());
        assert(json_escape(Seq::<char>::empty()) == Seq::<char>::empty());
        assert(esc_char(c) + Seq::<char>::empty() =~= esc_char(c));
        assert(Seq::<char>::empty() + esc_char(c) =~= esc_char(c));
    } else {
        assert(u.first() == t.first());
        assert(u.drop_first() =~= t.drop_first().push(c));
        lemma_json_escape_push(t.drop_first(), c);
        assert(json_escape(t) == esc_char(t.first()) + json_escape(t.drop_first()));
        assert(esc_char(t.first()) + (json_escape(t.drop_first()) + esc_char(c)) =~= (esc_char(
            t.first(),
        ) + json_escape(t.drop_first())) + esc_char(c));
    }
}

/// Appends the escaped body of `s` to `out`.
fn escape_into(out: &mut String, s: &str)
    ensures
        final(out)@ == old(out)@ + json_escape(s@),
{
    let n = s.unicode_len();
    let mut i: usize = 0;
    proof {
        assert(s@.take(0) =~= Seq::<char>::empty());
        assert(out@ =~= out@ + json_escape(s@.take(0)));
    }
    while i < n
        invariant
            n == s@.len(),
            i <= n,
            out@ == old(out)@ + json_escape(s@.take(i as int)),
        decreases n - i,
    {
        let c = s.get_char(i);
        if c == '"' {
            out.append("\\\"");
        } else if c == '\\' {
            out.append("\\\\");
        } else if c == '\n' {
            out.append("\\n");
        } else if c == '\r' {
            out.append("\\r");
        } else if c == '\t' {
            out.append("\\t");
        } else {
            push_char(out, c);
        }
        proof {
            lemma_json_escape_push(s@.take(i as int), c);
            assert(s@.take(i + 1) =~= s@.take(i as int).push(c));
            reveal_strlit("\\\"");
            reveal_strlit("\\\\");
            reveal_strlit("\\n");
            reveal_strlit("\\r");
            reveal_strlit("\\t");
            assert(out@ =~= old(out)@ + json_escape(s@.take(i + 1)));
        }
        i += 1;
    }
    proof {
        assert(s@.take(n as int) =~= s@);
    }
}

/// Appends the JSON string form of `s` to `out`.
fn append_json_string(out: &mut String, s: &str)
    ensures
        final(out)@ == old(out)@ + json_string(s@),
{
    push_char(out, '"');
    escape_into(out, s);
    push_char(out, '"');
    proof {
        assert(out@ =~= old(out)@ + json_string(s@));
    }
}

/// Appends the decimal digits of `n` to `out`.
pub(crate) fn append_u64(out: &mut String, n: u64)
    ensures
        final(out)@ == old(out)@ + dec_digits(n as nat),
    decreases n,
{
    if n < 10 {
        push_char(out, (48u8 + (n as u8)) as char);
        proof {
            assert(out@ =~= old(out)@ + dec_digits(n as nat));
        }
    } else {
        append_u64(out, n / 10);
        push_char(out, (48u8 + ((n % 10) as u8)) as char);
        proof {
            assert(out@ =~= old(out)@ + dec_digits(n as nat));
        }
    }
}

/// Appends the string-to-string object form of `ps` to `out`.
fn append_object(out: &mut String, ps: &Vec<(String, String)>)
    ensures
        final(out)@ == old(out)@ + json_object(crate::protocol::pairs_view(ps@)),
{
    let ghost v = crate::protocol::pairs_view(ps@);
    push_char(out, '{');
    let mut i: usize = 0;
    while i < ps.len()
        invariant
            v == crate::protocol::pairs_view(ps@),
            v.len() == ps@.len(),
            i <= ps@.len(),
            out@ + json_pairs_from(v, i as int) == old(out)@ + seq!['{'] + json_pairs_from(v, 0),
        decreases ps@.len() - i,
    {
        append_json_string(out, ps[i].0.as_str());
        push_char(out, ':');
        append_json_string(out, ps[i].1.as_str());
        if i + 1 < ps.len() {
            push_char(out, ',');
        }
        proof {
            assert(v[i as int] == (ps@[i as int].0@, ps@[i as int].1@));
            assert(out@ + json_pairs_from(v, i + 1) =~= old(out)@ + seq!['{'] + json_pairs_from(
                v,
                0,
            ));
        }
        i += 1;
    }
    push_char(out, '}');
    proof {
        assert(json_pairs_from(v, ps@.len() as int) =~= Seq::<char>::empty());
        assert(out@ =~= old(out)@ + json_object(v));
    }
}

/// Serializes an inbound frame into its canonical wire text.
pub fn encode_client_message(m: &ClientMessage) -> (r: String)
    ensures
        r@ == enc_message(m@),
{
    let mut out = String::new();
    match m {
        ClientMessage::ResponseHeaders { request_id, status, headers } => {
            out.append("{\"event_type\":");
            append_json_string(&mut out, "response_headers");
            out.append(",\"request_id\":");
            append_json_string(&mut out, request_id.as_str());
            out.append(",\"status\":");
            append_u64(&mut out, *status as u64);
            out.append(",\"headers\":");
            append_object(&mut out, headers);
            out.append("}");
        },
        ClientMessage::Chunk { request_id, data } => {
            out.append("{\"event_type\":");
            append_json_string(&mut out, "chunk");
            out.append(",\"request_id\":");
            append_json_string(&mut out, request_id.as_str());
            out.append(",\"data\":");
            append_json_string(&mut out, data.as_str());
            out.append("}");
        },
        ClientMessage::Error { request_id, status, message } => {
            out.append("{\"event_type\":");
            append_json_string(&mut out, "error");
            out.append(",\"request_id\":");
            append_json_string(&mut out, request_id.as_str());
            out.append(",\"status\":");
            match status {
                Some(n) => append_u64(&mut out, *n as u64),
                None => out.append("null"),
            }
            out.append(",\"message\":");
            append_json_string(&mut out, message.as_str());
            out.append("}");
        },
        ClientMessage::StreamClose { request_id } => {
            out.append("{\"event_type\":");
            append_json_string(&mut out, "stream_close");
            out.append(",\"request_id\":");
            append_json_string(&mut out, request_id.as_str());
            out.append("}");
        },
    }
    proof {
        assert(out@ =~= enc_message(m@));
    }
    out
}

/// Serializes an outbound request into its canonical wire text.
pub fn encode_proxy_request(r: &ProxyRequest) -> (out: String)
    ensures
        out@ == enc_request(r@),
{
    let mut out = String::new();
    out.append("{\"path\":");
    append_json_string(&mut out, r.path.as_str());
    out.append(",\"method\":");
    append_json_string(&mut out, r.method.as_str());
    out.append(",\"headers\":");
    append_object(&mut out, &r.headers);
    out.append(",\"query_params\":");
    append_object(&mut out, &r.query_params);
    out.append(",\"body\":");
    append_json_string(&mut out, r.body.as_str());
    out.append(",\"request_id\":");
    append_json_string(&mut out, r.request_id.as_str());
    out.append("}");
    proof {
        assert(out@ =~= enc_request(r@));
    }
    out
}


/// A literal occurs at position `i`: the position after it, if so.
pub open spec fn sp_lit(s: Seq<char>, i: int, lit: Seq<char>) -> Option<int> {
    if 0 <= i && i + lit.len() <= s.len() && s.subrange(i, i + lit.len()) == lit {
        Some(i + lit.len())
    } else {
        None
    }
}

/// The character named by a backslash escape, if the escape is a known one.
pub open spec fn unesc_char(c: char) -> Option<char> {
    if c == '"' {
        Some('"')
    } else if c == '\\' {
        Some('\\')
    } else if c == 'n' {
        Some('\n')
    } else if c == 'r' {
        Some('\r')
    } else if c == 't' {
        Some('\t')
    } else {
        None
    }
}

/// Parses the rest of a JSON string after its opening quote: the decoded
/// text and the position after the closing quote.
pub open spec fn sp_string_body(s: Seq<char>, i: int) -> Option<(Seq<char>, int)>
    decreases s.len() - i,
{
    if i < 0 || i >= s.len() {
        None
    } else if s[i] == '"' {
        Some((Seq::empty(), i + 1))
    } else if s[i] == '\\' {
        if i + 1 < s.len() {
            match unesc_char(s[i + 1]) {
                Some(d) => match sp_string_body(s, i + 2) {
                    Some(r) => Some((seq![d] + r.0, r.1)),
                    None => None,
                },
                None => None,
            }
        } else {
            None
        }
    } else {
        match sp_string_body(s, i + 1) {
            Some(r) => Some((seq![s[i]] + r.0, r.1)),
            None => None,
        }
    }
}

/// Parses a JSON string at position `i`: the decoded text and the position
/// after the closing quote.
pub open spec fn sp_string(s: Seq<char>, i: int) -> Option<(Seq<char>, int)> {
    if 0 <= i && i < s.len() && s[i] == '"' {
        sp_string_body(s, i + 1)
    } else {
        None
    }
}

/// A successful string-body parse moves forward and stays inside the input.
pub proof fn lemma_sp_string_body_progress(s: Seq<char>, i: int)
    ensures
        sp_string_body(s, i) matches Some(r) ==> i < r.1 <= s.len(),
    decreases s.len() - i,
{
    if 0 <= i && i < s.len() {
        if s[i] == '"' {
        } else if s[i] == '\\' {
            if i + 1 < s.len() {
                lemma_sp_string_body_progress(s, i + 2);
            }
        } else {
            lemma_sp_string_body_progress(s, i + 1);
        }
    }
}

/// A successful string parse moves forward and stays inside the input.
pub proof fn lemma_sp_string_progress(s: Seq<char>, i: int)
    ensures
        sp_string(s, i) matches Some(r) ==> i + 2 <= r.1 <= s.len(),
{
    lemma_sp_string_body_progress(s, i + 1);
}

/// Parses decimal digits into a 16-bit value, `acc` being the value of the
/// digits already consumed; fails on overflow.
pub open spec fn sp_u16_rest(s: Seq<char>, i: int, acc: u16) -> Option<(u16, int)>
    decreases s.len() - i,
{
    if 0 <= i && i < s.len() && is_digit(s[i]) {
        if acc * 10 + digit_val(s[i]) <= 65535 {
            sp_u16_rest(s, i + 1, (acc * 10 + digit_val(s[i])) as u16)
        } else {
            None
        }
    } else {
        Some((acc, i))
    }
}

/// Parses a decimal number at position `i` as a 16-bit value; there must be
/// at least one digit.
pub open spec fn sp_u16(s: Seq<char>, i: int) -> Option<(u16, int)> {
    if 0 <= i && i < s.len() && is_digit(s[i]) {
        sp_u16_rest(s, i, 0)
    } else {
        None
    }
}

/// Parses the members of a string-to-string object, starting at the first
/// key's opening quote, up to and including the closing brace.
pub open spec fn sp_pairs(s: Seq<char>, i: int) -> Option<(Seq<(Seq<char>, Seq<char>)>, int)>
    decreases s.len() - i,
        via sp_pairs_decreases
{
    match sp_string(s, i) {
        Some(k) => {
            if k.1 < s.len() && s[k.1] == ':' {
                match sp_string(s, k.1 + 1) {
                    Some(v) => {
                        if v.1 < s.len() && s[v.1] == ',' {
                            match sp_pairs(s, v.1 + 1) {
                                Some(r) => Some((seq![(k.0, v.0)] + r.0, r.1)),
                                None => None,
                            }
                        } else if v.1 < s.len() && s[v.1] == '}' {
                            Some((seq![(k.0, v.0)], v.1 + 1))
                        } else {
                            None
                        }
                    },
                    None => None,
                }
            } else {
                None
            }
        },
        None => None,
    }
}

#[via_fn]
proof fn sp_pairs_decreases(s: Seq<char>, i: int) {
    lemma_sp_string_progress(s, i);
    match sp_string(s, i) {
        Some(k) => {
            lemma_sp_string_progress(s, k.1 + 1);
        },
        None => {},
    }
}

/// Parses a string-to-string object at position `i`.
pub open spec fn sp_object(s: Seq<char>, i: int) -> Option<(Seq<(Seq<char>, Seq<char>)>, int)> {
    if 0 <= i && i < s.len() && s[i] == '{' {
        if i + 1 < s.len() && s[i + 1] == '}' {
            Some((Seq::empty(), i + 2))
        } else {
            sp_pairs(s, i + 1)
        }
    } else {
        None
    }
}

/// Parses either the word `null` or a 16-bit number.
pub open spec fn sp_opt_u16(s: Seq<char>, i: int) -> Option<(Option<u16>, int)> {
    if sp_lit(s, i, "null"@) is Some {
        Some((None, i + 4))
    } else {
        match sp_u16(s, i) {
            Some(p) => Some((Some(p.0), p.1)),
            None => None,
        }
    }
}

/// The fields of a `response_headers` frame after its tag, and the frame
/// they denote.
pub open spec fn sp_msg_response_headers(s: Seq<char>, i: int) -> Option<MessageView> {
    match sp_lit(s, i, ",\"request_id\":"@) {
        Some(a) => match sp_string(s, a) {
            Some(id) => match sp_lit(s, id.1, ",\"status\":"@) {
                Some(b) => match sp_u16(s, b) {
                    Some(st) => match sp_lit(s, st.1, ",\"headers\":"@) {
                        Some(c0) => match sp_object(s, c0) {
                            Some(hs) => {
                                if hs.1 + 1 == s.len() && s[hs.1] == '}' {
                                    Some(
                                        MessageView::ResponseHeaders {
                                            request_id: id.0,
                                            status: st.0,
                                            headers: hs.0,
                                        },
                                    )
                                } else {
                                    None
                                }
                            },
                            None => None,
                        },
                        None => None,
                    },
                    None => None,
                },
                None => None,
            },
            None => None,
        },
        None => None,
    }
}

/// The fields of a `chunk` frame after its tag, and the frame they denote.
pub open spec fn sp_msg_chunk(s: Seq<char>, i: int) -> Option<MessageView> {
    match sp_lit(s, i, ",\"request_id\":"@) {
        Some(a) => match sp_string(s, a) {
            Some(id) => match sp_lit(s, id.1, ",\"data\":"@) {
                Some(b) => match sp_string(s, b) {
                    Some(d) => {
                        if d.1 + 1 == s.len() && s[d.1] == '}' {
                            Some(MessageView::Chunk { request_id: id.0, data: d.0 })
                        } else {
                            None
                        }
                    },
                    None => None,
                },
                None => None,
            },
            None => None,
        },
        None => None,
    }
}

/// The fields of an `error` frame after its tag, and the frame they denote.
pub open spec fn sp_msg_error(s: Seq<char>, i: int) -> Option<MessageView> {
    match sp_lit(s, i, ",\"request_id\":"@) {
        Some(a) => match sp_string(s, a) {
            Some(id) => match sp_lit(s, id.1, ",\"status\":"@) {
                Some(b) => match sp_opt_u16(s, b) {
                    Some(st) => match sp_lit(s, st.1, ",\"message\":"@) {
                        Some(c0) => match sp_string(s, c0) {
                            Some(msg) => {
                                if msg.1 + 1 == s.len() && s[msg.1] == '}' {
                                    Some(
                                        MessageView::Error {
                                            request_id: id.0,
                                            status: st.0,
                                            message: msg.0,
                                        },
                                    )
                                } else {
                                    None
                                }
                            },
                            None => None,
                        },
                        None => None,
                    },
                    None => None,
                },
                None => None,
            },
            None => None,
        },
        None => None,
    }
}

/// The fields of a `stream_close` frame after its tag, and the frame they
/// denote.
pub open spec fn sp_msg_stream_close(s: Seq<char>, i: int) -> Option<MessageView> {
    match sp_lit(s, i, ",\"request_id\":"@) {
        Some(a) => match sp_string(s, a) {
            Some(id) => {
                if id.1 + 1 == s.len() && s[id.1] == '}' {
                    Some(MessageView::StreamClose { request_id: id.0 })
                } else {
                    None
                }
            },
            None => None,
        },
        None => None,
    }
}

/// Parses one whole inbound frame; the entire input must be consumed.
pub open spec fn sp_client_message(s: Seq<char>) -> Option<MessageView> {
    match sp_lit(s, 0, "{\"event_type\":"@) {
        Some(i0) => match sp_string(s, i0) {
            Some(tag) => {
                if tag.0 == "response_headers"@ {
                    sp_msg_response_headers(s, tag.1)
                } else if tag.0 == "chunk"@ {
                    sp_msg_chunk(s, tag.1)
                } else if tag.0 == "error"@ {
                    sp_msg_error(s, tag.1)
                } else if tag.0 == "stream_close"@ {
                    sp_msg_stream_close(s, tag.1)
                } else {
                    None
                }
            },
            None => None,
        },
        None => None,
    }
}

/// Parses one whole outbound request; the entire input must be consumed.
pub open spec fn sp_proxy_request(s: Seq<char>) -> Option<RequestView> {
    match sp_lit(s, 0, "{\"path\":"@) {
        Some(i0) => match sp_string(s, i0) {
            Some(path) => match sp_lit(s, path.1, ",\"method\":"@) {
                Some(a) => match sp_string(s, a) {
                    Some(method) => match sp_lit(s, method.1, ",\"headers\":"@) {
                        Some(b) => match sp_object(s, b) {
                            Some(hs) => match sp_lit(s, hs.1, ",\"query_params\":"@) {
                                Some(c0) => match sp_object(s, c0) {
                                    Some(qs) => match sp_lit(s, qs.1, ",\"body\":"@) {
                                        Some(d) => match sp_string(s, d) {
                                            Some(body) => match sp_lit(
                                                s,
                                                body.1,
                                                ",\"request_id\":"@,
                                            ) {
                                                Some(e) => match sp_string(s, e) {
                                                    Some(id) => {
                                                        if id.1 + 1 == s.len() && s[id.1] == '}' {
                                                            Some(
                                                                RequestView {
                                                                    path: path.0,
                                                                    method: method.0,
                                                                    headers: hs.0,
                                                                    query_params: qs.0,
                                                                    body: body.0,
                                                                    request_id: id.0,
                                                                },
                                                            )
                                                        } else {
                                                            None
                                                        }
                                                    },
                                                    None => None,
                                                },
                                                None => None,
                                            },
                                            None => None,
                                        },
                                        None => None,
                                    },
                                    None => None,
                                },
                                None => None,
                            },
                            None => None,
                        },
                        None => None,
                    },
                    None => None,
                },
                None => None,
            },
            None => None,
        },
        None => None,
    }
}


/// Compares two text slices character by character.
pub(crate) fn str_eq(a: &str, b: &str) -> (r: bool)
    ensures
        r == (a@ == b@),
{
    let na = a.unicode_len();
    let nb = b.unicode_len();
    if na != nb {
        return false;
    }
    let mut k: usize = 0;
    while k < na
        invariant
            na == a@.len(),
            nb == b@.len(),
            na == nb,
            k <= na,
            forall|t: int| 0 <= t < k ==> a@[t] == b@[t],
        decreases na - k,
    {
        if a.get_char(k) != b.get_char(k) {
            return false;
        }
        k += 1;
    }
    proof {
        assert(a@ =~= b@);
    }
    true
}

/// Recognizes `lit` at position `i` of `s`.
fn match_lit(s: &str, i: usize, lit: &str) -> (r: Option<usize>)
    ensures
        match r {
            Some(j) => sp_lit(s@, i as int, lit@) == Some(j as int) && i <= j <= s@.len(),
            None => sp_lit(s@, i as int, lit@) is None,
        },
{
    let n = s.unicode_len();
    let m = lit.unicode_len();
    if i > n || m > n - i {
        return None;
    }
    let mut k: usize = 0;
    while k < m
        invariant
            n == s@.len(),
            m == lit@.len(),
            i + m <= n,
            k <= m,
            forall|t: int| 0 <= t < k ==> s@[i + t] == lit@[t],
        decreases m - k,
    {
        if s.get_char(i + k) != lit.get_char(k) {
            proof {
                assert(s@.subrange(i as int, i + m) [k as int] != lit@[k as int]);
            }
            return None;
        }
        k += 1;
    }
    proof {
        assert(s@.subrange(i as int, i + m) =~= lit@);
    }
    Some(i + m)
}

/// Parses a JSON string at position `i` of `s`, decoding its escapes.
fn parse_string(s: &str, i: usize) -> (r: Option<(String, usize)>)
    ensures
        match r {
            Some(p) => sp_string(s@, i as int) == Some((p.0@, p.1 as int)) && i < p.1 <= s@.len(),
            None => sp_string(s@, i as int) is None,
        },
{
    let n = s.unicode_len();
    if i >= n {
        return None;
    }
    if s.get_char(i) != '"' {
        return None;
    }
    let mut out = String::new();
    let mut j: usize = i + 1;
    while j < n
        invariant
            n == s@.len(),
            i < n,
            s@[i as int] == '"',
            i + 1 <= j <= n,
            (match sp_string_body(s@, j as int) {
                Some(r2) => sp_string_body(s@, i + 1) == Some((out@ + r2.0, r2.1)),
                None => sp_string_body(s@, i + 1) is None,
            }),
        decreases n - j,
    {
        let c = s.get_char(j);
        if c == '"' {
            proof {
                assert(sp_string_body(s@, j as int) == Some((Seq::<char>::empty(), j + 1)));
                assert(out@ + Seq::<char>::empty() =~= out@);
            }
            return Some((out, j + 1));
        } else if c == '\\' {
            if j + 1 >= n {
                return None;
            }
            let d = s.get_char(j + 1);
            let dec: char;
            if d == '"' {
                dec = '"';
            } else if d == '\\' {
                dec = '\\';
            } else if d == 'n' {
                dec = '\n';
            } else if d == 'r' {
                dec = '\r';
            } else if d == 't' {
                dec = '\t';
            } else {
                return None;
            }
            let ghost out_pre = out@;
            push_char(&mut out, dec);
            proof {
                match sp_string_body(s@, j + 2) {
                    Some(r2) => {
                        assert(sp_string_body(s@, j as int) == Some((seq![dec] + r2.0, r2.1)));
                        assert(out_pre + (seq![dec] + r2.0) =~= out@ + r2.0);
                    },
                    None => {},
                }
            }
            j += 2;
        } else {
            let ghost out_pre = out@;
            push_char(&mut out, c);
            proof {
                match sp_string_body(s@, j + 1) {
                    Some(r2) => {
                        assert(sp_string_body(s@, j as int) == Some((seq![c] + r2.0, r2.1)));
                        assert(out_pre + (seq![c] + r2.0) =~= out@ + r2.0);
                    },
                    None => {},
                }
            }
            j += 1;
        }
    }
    None
}

/// Parses decimal digits at position `i` into a 16-bit value, `acc` being
/// the value already read.
fn parse_u16_rest(s: &str, i: usize, acc: u16) -> (r: Option<(u16, usize)>)
    requires
        i <= s@.len(),
    ensures
        match r {
            Some(p) => sp_u16_rest(s@, i as int, acc) == Some((p.0, p.1 as int)) && i <= p.1
                <= s@.len(),
            None => sp_u16_rest(s@, i as int, acc) is None,
        },
    decreases s@.len() - i,
{
    let n = s.unicode_len();
    if i < n {
        let c = s.get_char(i);
        if c >= '0' && c <= '9' {
            let d: u32 = (c as u32) - 48;
            let v: u32 = (acc as u32) * 10 + d;
            if v <= 65535 {
                return parse_u16_rest(s, i + 1, v as u16);
            } else {
                return None;
            }
        }
    }
    Some((acc, i))
}

/// Parses a decimal number at position `i` as a 16-bit value.
fn parse_u16(s: &str, i: usize) -> (r: Option<(u16, usize)>)
    ensures
        match r {
            Some(p) => sp_u16(s@, i as int) == Some((p.0, p.1 as int)) && i <= p.1 <= s@.len(),
            None => sp_u16(s@, i as int) is None,
        },
{
    let n = s.unicode_len();
    if i >= n {
        return None;
    }
    let c = s.get_char(i);
    if !(c >= '0' && c <= '9') {
        return None;
    }
    parse_u16_rest(s, i, 0)
}

/// Parses either the word `null` or a 16-bit number at position `i`.
fn parse_opt_u16(s: &str, i: usize) -> (r: Option<(Option<u16>, usize)>)
    ensures
        match r {
            Some(p) => sp_opt_u16(s@, i as int) == Some((p.0, p.1 as int)) && i <= p.1 <= s@.len(),
            None => sp_opt_u16(s@, i as int) is None,
        },
{
    match match_lit(s, i, "null") {
        Some(j) => {
            proof {
                reveal_strlit("null");
            }
            Some((None, j))
        },
        None => {
            match parse_u16(s, i) {
                Some(p) => Some((Some(p.0), p.1)),
                None => None,
            }
        },
    }
}

/// Parses a string-to-string object at position `i` of `s`.
fn parse_object(s: &str, i: usize) -> (r: Option<(Vec<(String, String)>, usize)>)
    ensures
        match r {
            Some(p) => sp_object(s@, i as int) == Some(
                (crate::protocol::pairs_view(p.0@), p.1 as int),
            ) && i < p.1 <= s@.len(),
            None => sp_object(s@, i as int) is None,
        },
{
    let n = s.unicode_len();
    if i >= n {
        return None;
    }
    if s.get_char(i) != '{' {
        return None;
    }
    if i + 1 < n && s.get_char(i + 1) == '}' {
        let empty: Vec<(String, String)> = Vec::new();
        proof {
            assert(crate::protocol::pairs_view(empty@) =~= Seq::<(Seq<char>, Seq<char>)>::empty());
        }
        return Some((empty, i + 2));
    }
    let mut acc: Vec<(String, String)> = Vec::new();
    let mut k: usize = i + 1;
    proof {
        assert(crate::protocol::pairs_view(acc@) =~= Seq::<(Seq<char>, Seq<char>)>::empty());
    }
    while k < n
        invariant
            n == s@.len(),
            i + 1 <= k <= n,
            sp_object(s@, i as int) == sp_pairs(s@, i + 1),
            (match sp_pairs(s@, k as int) {
                Some(r2) => sp_pairs(s@, i + 1) == Some(
                    (crate::protocol::pairs_view(acc@) + r2.0, r2.1),
                ),
                None => sp_pairs(s@, i + 1) is None,
            }),
        decreases n - k,
    {
        let (key, j) = match parse_string(s, k) {
            Some(p) => p,
            None => {
                return None;
            },
        };
        if j >= n {
            return None;
        }
        if s.get_char(j) != ':' {
            return None;
        }
        let (val, m) = match parse_string(s, j + 1) {
            Some(p) => p,
            None => {
                return None;
            },
        };
        if m >= n {
            return None;
        }
        let c = s.get_char(m);
        let ghost acc_pre = crate::protocol::pairs_view(acc@);
        if c == ',' {
            acc.push((key, val));
            proof {
                assert(crate::protocol::pairs_view(acc@) =~= acc_pre + seq![
                    (key@, val@),
                ]);
                match sp_pairs(s@, m + 1) {
                    Some(r2) => {
                        assert(sp_pairs(s@, k as int) == Some((seq![(key@, val@)] + r2.0, r2.1)));
                        assert(acc_pre + (seq![(key@, val@)] + r2.0)
                            =~= crate::protocol::pairs_view(acc@) + r2.0);
                    },
                    None => {},
                }
            }
            k = m + 1;
        } else if c == '}' {
            acc.push((key, val));
            proof {
                assert(sp_pairs(s@, k as int) == Some((seq![(key@, val@)], m + 1)));
                assert(crate::protocol::pairs_view(acc@) =~= acc_pre + seq![(key@, val@)]);
                assert(acc_pre + seq![(key@, val@)] =~= crate::protocol::pairs_view(acc@));
            }
            return Some((acc, m + 1));
        } else {
            return None;
        }
    }
    None
}

/// Parses the fields of a `response_headers` frame after its tag.
fn parse_msg_response_headers(s: &str, i: usize) -> (r: Option<ClientMessage>)
    ensures
        match r {
            Some(m) => sp_msg_response_headers(s@, i as int) == Some(m@),
            None => sp_msg_response_headers(s@, i as int) is None,
        },
{
    let a = match match_lit(s, i, ",\"request_id\":") {
        Some(x) => x,
        None => {
            return None;
        },
    };
    let (request_id, b) = match parse_string(s, a) {
        Some(p) => p,
        None => {
            return None;
        },
    };
    let c0 = match match_lit(s, b, ",\"status\":") {
        Some(x) => x,
        None => {
            return None;
        },
    };
    let (status, d) = match parse_u16(s, c0) {
        Some(p) => p,
        None => {
            return None;
        },
    };
    let e = match match_lit(s, d, ",\"headers\":") {
        Some(x) => x,
        None => {
            return None;
        },
    };
    let (headers, f) = match parse_object(s, e) {
        Some(p) => p,
        None => {
            return None;
        },
    };
    let n = s.unicode_len();
    if f < n && f + 1 == n && s.get_char(f) == '}' {
        Some(ClientMessage::ResponseHeaders { request_id, status, headers })
    } else {
        None
    }
}

/// Parses the fields of a `chunk` frame after its tag.
fn parse_msg_chunk(s: &str, i: usize) -> (r: Option<ClientMessage>)
    ensures
        match r {
            Some(m) => sp_msg_chunk(s@, i as int) == Some(m@),
            None => sp_msg_chunk(s@, i as int) is None,
        },
{
    let a = match match_lit(s, i, ",\"request_id\":") {
        Some(x) => x,
        None => {
            return None;
        },
    };
    let (request_id, b) = match parse_string(s, a) {
        Some(p) => p,
        None => {
            return None;
        },
    };
    let c0 = match match_lit(s, b, ",\"data\":") {
        Some(x) => x,
        None => {
            return None;
        },
    };
    let (data, d) = match parse_string(s, c0) {
        Some(p) => p,
        None => {
            return None;
        },
    };
    let n = s.unicode_len();
    if d < n && d + 1 == n && s.get_char(d) == '}' {
        Some(ClientMessage::Chunk { request_id, data })
    } else {
        None
    }
}

/// Parses the fields of an `error` frame after its tag.
fn parse_msg_error(s: &str, i: usize) -> (r: Option<ClientMessage>)
    ensures
        match r {
            Some(m) => sp_msg_error(s@, i as int) == Some(m@),
            None => sp_msg_error(s@, i as int) is None,
        },
{
    let a = match match_lit(s, i, ",\"request_id\":") {
        Some(x) => x,
        None => {
            return None;
        },
    };
    let (request_id, b) = match parse_string(s, a) {
        Some(p) => p,
        None => {
            return None;
        },
    };
    let c0 = match match_lit(s, b, ",\"status\":") {
        Some(x) => x,
        None => {
            return None;
        },
    };
    let (status, d) = match parse_opt_u16(s, c0) {
        Some(p) => p,
        None => {
            return None;
        },
    };
    let e = match match_lit(s, d, ",\"message\":") {
        Some(x) => x,
        None => {
            return None;
        },
    };
    let (message, f) = match parse_string(s, e) {
        Some(p) => p,
        None => {
            return None;
        },
    };
    let n = s.unicode_len();
    if f < n && f + 1 == n && s.get_char(f) == '}' {
        Some(ClientMessage::Error { request_id, status, message })
    } else {
        None
    }
}

/// Parses the fields of a `stream_close` frame after its tag.
fn parse_msg_stream_close(s: &str, i: usize) -> (r: Option<ClientMessage>)
    ensures
        match r {
            Some(m) => sp_msg_stream_close(s@, i as int) == Some(m@),
            None => sp_msg_stream_close(s@, i as int) is None,
        },
{
    let a = match match_lit(s, i, ",\"request_id\":") {
        Some(x) => x,
        None => {
            return None;
        },
    };
    let (request_id, b) = match parse_string(s, a) {
        Some(p) => p,
        None => {
            return None;
        },
    };
    let n = s.unicode_len();
    if b < n && b + 1 == n && s.get_char(b) == '}' {
        Some(ClientMessage::StreamClose { request_id })
    } else {
        None
    }
}

/// Deserializes one inbound frame from its wire text. Exactly the canonical
/// frame texts are accepted.
pub fn parse_client_message(s: &str) -> (r: Option<ClientMessage>)
    ensures
        match r {
            Some(m) => sp_client_message(s@) == Some(m@),
            None => sp_client_message(s@) is None,
        },
{
    let i0 = match match_lit(s, 0, "{\"event_type\":") {
        Some(x) => x,
        None => {
            return None;
        },
    };
    let (tag, j) = match parse_string(s, i0) {
        Some(p) => p,
        None => {
            return None;
        },
    };
    if str_eq(tag.as_str(), "response_headers") {
        parse_msg_response_headers(s, j)
    } else if str_eq(tag.as_str(), "chunk") {
        parse_msg_chunk(s, j)
    } else if str_eq(tag.as_str(), "error") {
        parse_msg_error(s, j)
    } else if str_eq(tag.as_str(), "stream_close") {
        parse_msg_stream_close(s, j)
    } else {
        None
    }
}

/// Deserializes one outbound request from its wire text. Exactly the
/// canonical request text is accepted.
pub fn parse_proxy_request(s: &str) -> (r: Option<ProxyRequest>)
    ensures
        match r {
            Some(p) => sp_proxy_request(s@) == Some(p@),
            None => sp_proxy_request(s@) is None,
        },
{
    let i0 = match match_lit(s, 0, "{\"path\":") {
        Some(x) => x,
        None => {
            return None;
        },
    };
    let (path, a) = match parse_string(s, i0) {
        Some(p) => p,
        None => {
            return None;
        },
    };
    let b = match match_lit(s, a, ",\"method\":") {
        Some(x) => x,
        None => {
            return None;
        },
    };
    let (method, c0) = match parse_string(s, b) {
        Some(p) => p,
        None => {
            return None;
        },
    };
    let d = match match_lit(s, c0, ",\"headers\":") {
        Some(x) => x,
        None => {
            return None;
        },
    };
    let (headers, e) = match parse_object(s, d) {
        Some(p) => p,
        None => {
            return None;
        },
    };
    let f = match match_lit(s, e, ",\"query_params\":") {
        Some(x) => x,
        None => {
            return None;
        },
    };
    let (query_params, g) = match parse_object(s, f) {
        Some(p) => p,
        None => {
            return None;
        },
    };
    let h = match match_lit(s, g, ",\"body\":") {
        Some(x) => x,
        None => {
            return None;
        },
    };
    let (body, k) = match parse_string(s, h) {
        Some(p) => p,
        None => {
            return None;
        },
    };
    let l = match match_lit(s, k, ",\"request_id\":") {
        Some(x) => x,
        None => {
            return None;
        },
    };
    let (request_id, m) = match parse_string(s, l) {
        Some(p) => p,
        None => {
            return None;
        },
    };
    let n = s.unicode_len();
    if m < n && m + 1 == n && s.get_char(m) == '}' {
        Some(ProxyRequest { path, method, headers, query_params, body, request_id })
    } else {
        None
    }
}

/// A region that holds `a + b` holds `a` and then `b`.
proof fn lemma_split_region(s: Seq<char>, i: int, a: Seq<char>, b: Seq<char>)
    requires
        0 <= i,
        i + a.len() + b.len() <= s.len(),
        s.subrange(i, i + a.len() + b.len()) == a + b,
    ensures
        s.subrange(i, i + a.len()) == a,
        s.subrange(i + a.len(), i + a.len() + b.len()) == b,
{
    let whole = s.subrange(i, i + a.len() + b.len());
    assert(s.subrange(i, i + a.len()) =~= a) by {
        assert(forall|k: int|
            0 <= k < a.len() ==> #[trigger] s.subrange(i, i + a.len())[k] == whole[k]);
    }
    assert(s.subrange(i + a.len(), i + a.len() + b.len()) =~= b) by {
        assert(forall|k: int|
            0 <= k < b.len() ==> #[trigger] s.subrange(i + a.len(), i + a.len() + b.len())[k]
                == whole[a.len() + k]);
    }
}

/// Parsing a region that holds the escaped text and its closing quote gives
/// back exactly that text.
proof fn lemma_sp_string_body_at(s: Seq<char>, i: int, t: Seq<char>)
    requires
        0 <= i,
        i + json_escape(t).len() + 1 <= s.len(),
        s.subrange(i, i + json_escape(t).len() + 1) == json_escape(t) + seq!['"'],
    ensures
        sp_string_body(s, i) == Some((t, i + json_escape(t).len() + 1)),
    decreases t.len(),
{
    let esc = json_escape(t);
    let reg = esc + seq!['"'];
    assert(forall|k: int| 0 <= k < reg.len() ==> #[trigger] s[i + k] == reg[k]) by {
        assert(forall|k: int|
            0 <= k < reg.len() ==> #[trigger] s.subrange(i, i + esc.len() + 1)[k] == s[i + k]);
    }
    if t.len() == 0 {
        assert(esc.len() == 0);
        assert(s[i] == '"');
    } else {
        let f = t.first();
        let rest = t.drop_first();
        let esc_r = json_escape(rest);
        assert(esc == esc_char(f) + esc_r);
        assert(reg =~= esc_char(f) + (esc_r + seq!['"']));
        lemma_split_region(s, i, esc_char(f), esc_r + seq!['"']);
        let fl = esc_char(f).len() as int;
        lemma_sp_string_body_at(s, i + fl, rest);
        assert(reg[0] == esc_char(f)[0]);
        assert(s[i + 0] == reg[0]);
        if fl == 2 {
            assert(reg[1] == esc_char(f)[1]);
            assert(s[i + 1] == reg[1]);
        }
        if f == '"' || f == '\\' || f == '\n' || f == '\r' || f == '\t' {
            assert(fl == 2);
            assert(s[i] == '\\');
            assert(unesc_char(s[i + 1]) == Some(f));
            assert(sp_string_body(s, i) == Some((seq![f] + rest, i + esc.len() + 1)));
        } else {
            assert(fl == 1);
            assert(s[i] == f);
            assert(s[i] != '"' && s[i] != '\\');
            assert(sp_string_body(s, i) == Some((seq![f] + rest, i + esc.len() + 1)));
        }
        assert(seq![f] + rest =~= t);
    }
}

/// Parsing a region that holds a JSON string gives back its text.
proof fn lemma_sp_string_at(s: Seq<char>, i: int, t: Seq<char>)
    requires
        0 <= i,
        i + json_string(t).len() <= s.len(),
        s.subrange(i, i + json_string(t).len()) == json_string(t),
    ensures
        sp_string(s, i) == Some((t, i + json_string(t).len())),
{
    let esc = json_escape(t);
    assert(json_string(t) =~= seq!['"'] + (esc + seq!['"']));
    lemma_split_region(s, i, seq!['"'], esc + seq!['"']);
    assert(s.subrange(i, i + 1)[0] == s[i]);
    assert(s[i] == '"');
    lemma_sp_string_body_at(s, i + 1, t);
}

/// Ten to the `k`.
pub open spec fn pow10(k: nat) -> nat
    decreases k,
{
    if k == 0 {
        1
    } else {
        10 * pow10((k - 1) as nat)
    }
}

/// Every character of a decimal text is a digit, there is at least one, and
/// the digits of a 16-bit value are at most five.
proof fn lemma_dec_digits_shape(n: nat)
    ensures
        dec_digits(n).len() >= 1,
        forall|k: int| 0 <= k < dec_digits(n).len() ==> is_digit(#[trigger] dec_digits(n)[k]),
        forall|k: int|
            0 <= k < dec_digits(n).len() ==> digit_val(#[trigger] dec_digits(n)[k]) < 10,
    decreases n,
{
    if n < 10 {
        assert(is_digit(digit_char(n)) && digit_val(digit_char(n)) == n);
    } else {
        lemma_dec_digits_shape(n / 10);
        let d = dec_digits(n);
        assert(d == dec_digits(n / 10).push(digit_char(n % 10)));
        assert(is_digit(digit_char(n % 10)) && digit_val(digit_char(n % 10)) == n % 10);
        assert(forall|k: int|
            0 <= k < d.len() - 1 ==> #[trigger] d[k] == dec_digits(n / 10)[k]);
    }
}

/// Parsing over the digits of `n` multiplies the accumulator through and
/// adds `n`.
proof fn lemma_sp_u16_chain(s: Seq<char>, i: int, acc: u16, n: nat)
    requires
        0 <= i,
        i + dec_digits(n).len() <= s.len(),
        s.subrange(i, i + dec_digits(n).len()) == dec_digits(n),
        acc * pow10(dec_digits(n).len()) + n <= 65535,
    ensures
        sp_u16_rest(s, i, acc) == sp_u16_rest(
            s,
            i + dec_digits(n).len(),
            (acc * pow10(dec_digits(n).len()) + n) as u16,
        ),
    decreases n,
{
    let d = dec_digits(n);
    let l = d.len() as int;
    lemma_dec_digits_shape(n);
    assert(forall|k: int| 0 <= k < l ==> #[trigger] s[i + k] == d[k]) by {
        assert(forall|k: int| 0 <= k < l ==> #[trigger] s.subrange(i, i + l)[k] == s[i + k]);
    }
    if n < 10 {
        assert(l == 1);
        assert(s[i + 0] == digit_char(n));
        assert(is_digit(s[i]));
        assert(digit_val(s[i]) == n);
        assert(pow10(0) == 1);
        assert(pow10(1) == 10);
        assert(acc * 10 + n <= 65535);
        assert(sp_u16_rest(s, i, acc) == sp_u16_rest(s, i + 1, (acc * 10 + n) as u16));
    } else {
        let dp = dec_digits(n / 10);
        let lp = dp.len() as int;
        assert(d == dp.push(digit_char(n % 10)));
        assert(l == lp + 1);
        assert(s.subrange(i, i + lp) =~= dp) by {
            assert(forall|k: int|
                0 <= k < lp ==> #[trigger] s.subrange(i, i + lp)[k] == s[i + k]);
            assert(forall|k: int| 0 <= k < lp ==> #[trigger] d[k] == dp[k]);
        }
        assert(pow10(l as nat) == 10 * pow10(lp as nat));
        let mid = acc * pow10(lp as nat) + n / 10;
        assert(mid * 10 + n % 10 == acc * pow10(l as nat) + n) by (nonlinear_arith)
            requires
                pow10(l as nat) == 10 * pow10(lp as nat),
                mid == acc * pow10(lp as nat) + n / 10,
                n == 10 * (n / 10) + n % 10,
        ;
        assert(n % 10 <= 9);
        assert(mid * 10 <= mid * 10 + n % 10);
        assert(mid <= 6553);
        lemma_sp_u16_chain(s, i, acc, n / 10);
        assert(s[i + lp] == d[lp]);
        assert(d[lp] == digit_char(n % 10));
        assert(is_digit(s[i + lp]));
        assert(digit_val(s[i + lp]) == n % 10);
        assert((mid as u16) * 10 + digit_val(s[i + lp]) == acc * pow10(l as nat) + n);
        assert(sp_u16_rest(s, i + lp, mid as u16) == sp_u16_rest(
            s,
            i + l,
            (acc * pow10(l as nat) + n) as u16,
        ));
    }
}

/// Parsing a region that holds the digits of a 16-bit value, followed by a
/// non-digit or the end, gives back exactly that value.
proof fn lemma_sp_u16_at(s: Seq<char>, i: int, n: nat)
    requires
        n <= 65535,
        0 <= i,
        i + dec_digits(n).len() <= s.len(),
        s.subrange(i, i + dec_digits(n).len()) == dec_digits(n),
        i + dec_digits(n).len() == s.len() || !is_digit(s[i + dec_digits(n).len()]),
    ensures
        sp_u16(s, i) == Some((n as u16, i + dec_digits(n).len())),
{
    let d = dec_digits(n);
    let l = d.len() as int;
    lemma_dec_digits_shape(n);
    assert(forall|k: int| 0 <= k < l ==> #[trigger] s[i + k] == d[k]) by {
        assert(forall|k: int| 0 <= k < l ==> #[trigger] s.subrange(i, i + l)[k] == s[i + k]);
    }
    assert(s[i + 0] == d[0]);
    assert(is_digit(s[i]));
    assert(pow10(l as nat) >= 1) by {
        lemma_pow10_pos(l as nat);
    }
    assert(0 * pow10(l as nat) + n <= 65535) by (nonlinear_arith)
        requires
            n <= 65535,
    ;
    lemma_sp_u16_chain(s, i, 0, n);
    assert((0 * pow10(l as nat) + n) as u16 == n as u16);
    assert(sp_u16_rest(s, i + l, n as u16) == Some((n as u16, i + l)));
}

/// Ten to anything is positive.
proof fn lemma_pow10_pos(k: nat)
    ensures
        pow10(k) >= 1,
    decreases k,
{
    if k > 0 {
        lemma_pow10_pos((k - 1) as nat);
    }
}

/// Parsing members encoded from index `k` on, terminated by a closing
/// brace, gives back exactly the remaining pairs.
proof fn lemma_sp_pairs_at(s: Seq<char>, i: int, ps: Seq<(Seq<char>, Seq<char>)>, k: int)
    requires
        0 <= k < ps.len(),
        0 <= i,
        i + json_pairs_from(ps, k).len() + 1 <= s.len(),
        s.subrange(i, i + json_pairs_from(ps, k).len() + 1) == json_pairs_from(ps, k) + seq!['}'],
    ensures
        sp_pairs(s, i) == Some((ps.skip(k), i + json_pairs_from(ps, k).len() + 1)),
    decreases ps.len() - k,
{
    let jp = json_pairs_from(ps, k);
    let jk = json_string(ps[k].0);
    let jv = json_string(ps[k].1);
    let a = i + jk.len();
    let b = a + 1 + jv.len();
    if k + 1 < ps.len() {
        let rest = json_pairs_from(ps, k + 1);
        assert(jp == enc_pair(ps[k]) + seq![','] + rest);
        assert(jp + seq!['}'] =~= jk + (seq![':'] + (jv + (seq![','] + (rest + seq!['}'])))));
        lemma_split_region(s, i, jk, seq![':'] + (jv + (seq![','] + (rest + seq!['}']))));
        lemma_sp_string_at(s, i, ps[k].0);
        lemma_split_region(s, a, seq![':'], jv + (seq![','] + (rest + seq!['}'])));
        assert(s.subrange(a, a + 1)[0] == s[a]);
        assert(s[a] == ':');
        lemma_split_region(s, a + 1, jv, seq![','] + (rest + seq!['}']));
        lemma_sp_string_at(s, a + 1, ps[k].1);
        lemma_split_region(s, b, seq![','], rest + seq!['}']);
        assert(s.subrange(b, b + 1)[0] == s[b]);
        assert(s[b] == ',');
        lemma_sp_pairs_at(s, b + 1, ps, k + 1);
        assert(seq![ps[k]] + ps.skip(k + 1) =~= ps.skip(k));
        assert(b + 1 + rest.len() + 1 == i + jp.len() + 1);
    } else {
        assert(jp == enc_pair(ps[k]) + Seq::<char>::empty() + json_pairs_from(ps, k + 1));
        assert(json_pairs_from(ps, k + 1) =~= Seq::<char>::empty());
        assert(jp + seq!['}'] =~= jk + (seq![':'] + (jv + seq!['}'])));
        lemma_split_region(s, i, jk, seq![':'] + (jv + seq!['}']));
        lemma_sp_string_at(s, i, ps[k].0);
        lemma_split_region(s, a, seq![':'], jv + seq!['}']);
        assert(s.subrange(a, a + 1)[0] == s[a]);
        assert(s[a] == ':');
        lemma_split_region(s, a + 1, jv, seq!['}']);
        lemma_sp_string_at(s, a + 1, ps[k].1);
        assert(s.subrange(b, b + 1)[0] == s[b]);
        assert(s[b] == '}');
        assert(seq![ps[k]] =~= ps.skip(k));
        assert(b + 1 == i + jp.len() + 1);
    }
}

/// Parsing a region that holds an encoded object gives back its pairs.
proof fn lemma_sp_object_at(s: Seq<char>, i: int, ps: Seq<(Seq<char>, Seq<char>)>)
    requires
        0 <= i,
        i + json_object(ps).len() <= s.len(),
        s.subrange(i, i + json_object(ps).len()) == json_object(ps),
    ensures
        sp_object(s, i) == Some((ps, i + json_object(ps).len())),
{
    let jp = json_pairs_from(ps, 0);
    assert(json_object(ps) =~= seq!['{'] + (jp + seq!['}']));
    lemma_split_region(s, i, seq!['{'], jp + seq!['}']);
    assert(s.subrange(i, i + 1)[0] == s[i]);
    assert(s[i] == '{');
    assert(forall|t: int|
        0 <= t < jp.len() + 1 ==> #[trigger] s.subrange(i + 1, i + 1 + jp.len() + 1)[t] == s[i + 1
            + t]);
    assert(s.subrange(i + 1, i + 1 + jp.len() + 1) == jp + seq!['}']) by {
        assert((jp + seq!['}']).len() == jp.len() + 1);
    }
    assert(s[i + 1 + 0] == (jp + seq!['}'])[0]);
    if ps.len() == 0 {
        assert(jp =~= Seq::<char>::empty());
        assert((jp + seq!['}'])[0] == '}');
        assert(s[i + 1] == '}');
    } else {
        assert(jp == enc_pair(ps[0]) + (if 1 < ps.len() {
            seq![',']
        } else {
            Seq::<char>::empty()
        }) + json_pairs_from(ps, 1));
        assert(jp[0] == json_string(ps[0].0)[0]);
        assert(jp[0] == '"');
        assert((jp + seq!['}'])[0] == jp[0]);
        assert(s[i + 1] == jp[0]);
        assert(s[i + 1] != '}');
        lemma_sp_pairs_at(s, i + 1, ps, 0);
        assert(ps.skip(0) =~= ps);
    }
}

/// Facts about the fixed literals of the wire format, so that the larger
/// proofs need not look inside them.
proof fn lemma_literal_facts()
    ensures
        "}"@.len() == 1 && "}"@[0] == '}',
        ",\"message\":"@.len() >= 1 && ",\"message\":"@[0] == ',',
        ",\"headers\":"@.len() >= 1 && ",\"headers\":"@[0] == ',',
        "null"@.len() == 4 && "null"@[0] == 'n',
        "error"@ != "response_headers"@ && "error"@ != "chunk"@,
        "chunk"@ != "response_headers"@,
        "stream_close"@ != "response_headers"@ && "stream_close"@ != "chunk"@ && "stream_close"@
            != "error"@,
{
    reveal_strlit("}");
    reveal_strlit(",\"message\":");
    reveal_strlit(",\"headers\":");
    reveal_strlit("null");
    reveal_strlit("error");
    reveal_strlit("chunk");
    reveal_strlit("response_headers");
    reveal_strlit("stream_close");
    assert("error"@.len() == 5);
    assert("chunk"@.len() == 5);
    assert("response_headers"@.len() == 16);
    assert("stream_close"@.len() == 12);
    if "error"@ == "chunk"@ {
        assert("error"@[0] == "chunk"@[0]);
        assert(false);
    }
}

/// Parsing the canonical text of a `stream_close` frame gives the frame
/// back.
#[verifier::rlimit(100)]
proof fn lemma_rt_stream_close(request_id: Seq<char>)
    ensures
        sp_client_message(enc_message(MessageView::StreamClose { request_id })) == Some(
            MessageView::StreamClose { request_id },
        ),
{
    let v = MessageView::StreamClose { request_id };
    let s = enc_message(v);
    let lit0 = "{\"event_type\":"@;
    let tag = "stream_close"@;
    let lit1 = ",\"request_id\":"@;
    let lit4 = "}"@;
    let seg1 = json_string(tag);
    let seg2 = json_string(request_id);
    lemma_literal_facts();
    let r3 = seg2 + lit4;
    let r2 = lit1 + r3;
    let r1 = seg1 + r2;
    assert(s == lit0 + seg1 + lit1 + seg2 + lit4);
    vstd::seq_lib::lemma_concat_associative(lit0 + seg1 + lit1, seg2, lit4);
    vstd::seq_lib::lemma_concat_associative(lit0 + seg1, lit1, r3);
    vstd::seq_lib::lemma_concat_associative(lit0, seg1, r2);
    assert(s == lit0 + r1);
    assert(s.subrange(0, s.len() as int) =~= s);
    let p0 = lit0.len() as int;
    lemma_split_region(s, 0, lit0, r1);
    assert(sp_lit(s, 0, lit0) == Some(p0));
    lemma_split_region(s, p0, seg1, r2);
    lemma_sp_string_at(s, p0, tag);
    let p1 = p0 + seg1.len() as int;
    lemma_split_region(s, p1, lit1, r3);
    assert(sp_lit(s, p1, lit1) == Some(p1 + lit1.len()));
    let p2 = p1 + lit1.len() as int;
    lemma_split_region(s, p2, seg2, lit4);
    lemma_sp_string_at(s, p2, request_id);
    let p3 = p2 + seg2.len() as int;
    assert(s.subrange(p3, p3 + 1)[0] == s[p3]);
    assert(s[p3] == '}');
    assert(p3 + 1 == s.len());
    assert(sp_msg_stream_close(s, p1) == Some(v));

}

/// Parsing the canonical text of a `response_headers` frame gives the
/// frame back.
#[verifier::rlimit(100)]
proof fn lemma_rt_response_headers(
    request_id: Seq<char>,
    status: u16,
    headers: Seq<(Seq<char>, Seq<char>)>,
)
    ensures
        sp_client_message(enc_message(MessageView::ResponseHeaders { request_id, status, headers }))
            == Some(MessageView::ResponseHeaders { request_id, status, headers }),
{
    let v = MessageView::ResponseHeaders { request_id, status, headers };
    let s = enc_message(v);
    let lit0 = "{\"event_type\":"@;
    let tag = "response_headers"@;
    let lit1 = ",\"request_id\":"@;
    let lit2 = ",\"status\":"@;
    let lit3 = ",\"headers\":"@;
    let lit4 = "}"@;
    let seg1 = json_string(tag);
    let seg2 = json_string(request_id);
    let seg3 = dec_digits(status as nat);
    let seg4 = json_object(headers);
    lemma_literal_facts();

    let r7 = seg4 + lit4;
    let r6 = lit3 + r7;
    let r5 = seg3 + r6;
    let r4 = lit2 + r5;
    let r3 = seg2 + r4;
    let r2 = lit1 + r3;
    let r1 = seg1 + r2;
    assert(s == lit0 + seg1 + lit1 + seg2 + lit2 + seg3 + lit3 + seg4 + lit4);
    vstd::seq_lib::lemma_concat_associative(
        lit0 + seg1 + lit1 + seg2 + lit2 + seg3 + lit3,
        seg4,
        lit4,
    );
    vstd::seq_lib::lemma_concat_associative(lit0 + seg1 + lit1 + seg2 + lit2 + seg3, lit3, r7);
    vstd::seq_lib::lemma_concat_associative(lit0 + seg1 + lit1 + seg2 + lit2, seg3, r6);
    vstd::seq_lib::lemma_concat_associative(lit0 + seg1 + lit1 + seg2, lit2, r5);
    vstd::seq_lib::lemma_concat_associative(lit0 + seg1 + lit1, seg2, r4);
    vstd::seq_lib::lemma_concat_associative(lit0 + seg1, lit1, r3);
    vstd::seq_lib::lemma_concat_associative(lit0, seg1, r2);
    assert(s == lit0 + r1);
    assert(s.subrange(0, s.len() as int) =~= s);
    let p0 = lit0.len() as int;
    lemma_split_region(s, 0, lit0, r1);
    assert(sp_lit(s, 0, lit0) == Some(p0));
    lemma_split_region(s, p0, seg1, r2);
    lemma_sp_string_at(s, p0, tag);
    let p1 = p0 + seg1.len() as int;
    lemma_split_region(s, p1, lit1, r3);
    assert(sp_lit(s, p1, lit1) == Some(p1 + lit1.len()));
    let p2 = p1 + lit1.len() as int;
    lemma_split_region(s, p2, seg2, r4);
    lemma_sp_string_at(s, p2, request_id);
    let p3 = p2 + seg2.len() as int;
    lemma_split_region(s, p3, lit2, r5);
    assert(sp_lit(s, p3, lit2) == Some(p3 + lit2.len()));
    let p4 = p3 + lit2.len() as int;
    lemma_split_region(s, p4, seg3, r6);
    let p5 = p4 + seg3.len() as int;
    assert(s.subrange(p5, p5 + r6.len())[0] == s[p5]);
    assert(r6[0] == ',');
    assert(s[p5] == ',');
    assert(!is_digit(s[p5]));
    lemma_sp_u16_at(s, p4, status as nat);
    assert((status as nat) as u16 == status);
    lemma_split_region(s, p5, lit3, r7);
    assert(sp_lit(s, p5, lit3) == Some(p5 + lit3.len()));
    let p6 = p5 + lit3.len() as int;
    lemma_split_region(s, p6, seg4, lit4);
    lemma_sp_object_at(s, p6, headers);
    let p7 = p6 + seg4.len() as int;
    assert(s.subrange(p7, p7 + 1)[0] == s[p7]);
    assert(s[p7] == '}');
    assert(p7 + 1 == s.len());
    assert(sp_msg_response_headers(s, p1) == Some(v));
}

/// Parsing the canonical text of a `chunk` frame gives the frame back.
#[verifier::rlimit(100)]
proof fn lemma_rt_chunk(request_id: Seq<char>, data: Seq<char>)
    ensures
        sp_client_message(enc_message(MessageView::Chunk { request_id, data })) == Some(
            MessageView::Chunk { request_id, data },
        ),
{
    let v = MessageView::Chunk { request_id, data };
    let s = enc_message(v);
    let lit0 = "{\"event_type\":"@;
    let tag = "chunk"@;
    let lit1 = ",\"request_id\":"@;
    let litd = ",\"data\":"@;
    let lit4 = "}"@;
    let seg1 = json_string(tag);
    let seg2 = json_string(request_id);
    let seg3 = json_string(data);
    lemma_literal_facts();

    let r5 = seg3 + lit4;
    let r4 = litd + r5;
    let r3 = seg2 + r4;
    let r2 = lit1 + r3;
    let r1 = seg1 + r2;
    assert(s == lit0 + seg1 + lit1 + seg2 + litd + seg3 + lit4);
    vstd::seq_lib::lemma_concat_associative(lit0 + seg1 + lit1 + seg2 + litd, seg3, lit4);
    vstd::seq_lib::lemma_concat_associative(lit0 + seg1 + lit1 + seg2, litd, r5);
    vstd::seq_lib::lemma_concat_associative(lit0 + seg1 + lit1, seg2, r4);
    vstd::seq_lib::lemma_concat_associative(lit0 + seg1, lit1, r3);
    vstd::seq_lib::lemma_concat_associative(lit0, seg1, r2);
    assert(s == lit0 + r1);
    assert(s.subrange(0, s.len() as int) =~= s);
    let p0 = lit0.len() as int;
    lemma_split_region(s, 0, lit0, r1);
    assert(sp_lit(s, 0, lit0) == Some(p0));
    lemma_split_region(s, p0, seg1, r2);
    lemma_sp_string_at(s, p0, tag);
    let p1 = p0 + seg1.len() as int;
    lemma_split_region(s, p1, lit1, r3);
    assert(sp_lit(s, p1, lit1) == Some(p1 + lit1.len()));
    let p2 = p1 + lit1.len() as int;
    lemma_split_region(s, p2, seg2, r4);
    lemma_sp_string_at(s, p2, request_id);
    let p3 = p2 + seg2.len() as int;
    lemma_split_region(s, p3, litd, r5);
    assert(sp_lit(s, p3, litd) == Some(p3 + litd.len()));
    let p4 = p3 + litd.len() as int;
    lemma_split_region(s, p4, seg3, lit4);
    lemma_sp_string_at(s, p4, data);
    let p5 = p4 + seg3.len() as int;
    assert(s.subrange(p5, p5 + 1)[0] == s[p5]);
    assert(s[p5] == '}');
    assert(p5 + 1 == s.len());
    assert(sp_msg_chunk(s, p1) == Some(v));
}

/// Parsing the canonical text of an `error` frame that carries a status\n/// gives the frame back.
#[verifier::rlimit(100)]
#[verifier::spinoff_prover]
proof fn lemma_rt_error_some(request_id: Seq<char>, n: u16, message: Seq<char>)
    ensures
        sp_client_message(
            enc_message(MessageView::Error { request_id, status: Some(n), message }),
        ) == Some(MessageView::Error { request_id, status: Some(n), message }),
{
    let status = Some(n);
    let v = MessageView::Error { request_id, status, message };
    let s = enc_message(v);
    let lit0 = "{\"event_type\":"@;
    let tag = "error"@;
    let lit1 = ",\"request_id\":"@;
    let lit2 = ",\"status\":"@;
    let litm = ",\"message\":"@;
    let lit4 = "}"@;
    let seg1 = json_string(tag);
    let seg2 = json_string(request_id);
    let seg3 = match status {
        Some(n) => dec_digits(n as nat),
        None => "null"@,
    };
    let seg4 = json_string(message);
    lemma_literal_facts();



    let r7 = seg4 + lit4;
    let r6 = litm + r7;
    let r5 = seg3 + r6;
    let r4 = lit2 + r5;
    let r3 = seg2 + r4;
    let r2 = lit1 + r3;
    let r1 = seg1 + r2;
    assert(s == lit0 + seg1 + lit1 + seg2 + lit2 + seg3 + litm + seg4 + lit4);
    vstd::seq_lib::lemma_concat_associative(
        lit0 + seg1 + lit1 + seg2 + lit2 + seg3 + litm,
        seg4,
        lit4,
    );
    vstd::seq_lib::lemma_concat_associative(lit0 + seg1 + lit1 + seg2 + lit2 + seg3, litm, r7);
    vstd::seq_lib::lemma_concat_associative(lit0 + seg1 + lit1 + seg2 + lit2, seg3, r6);
    vstd::seq_lib::lemma_concat_associative(lit0 + seg1 + lit1 + seg2, lit2, r5);
    vstd::seq_lib::lemma_concat_associative(lit0 + seg1 + lit1, seg2, r4);
    vstd::seq_lib::lemma_concat_associative(lit0 + seg1, lit1, r3);
    vstd::seq_lib::lemma_concat_associative(lit0, seg1, r2);
    assert(s == lit0 + r1);
    assert(s.subrange(0, s.len() as int) =~= s);
    let p0 = lit0.len() as int;
    lemma_split_region(s, 0, lit0, r1);
    assert(sp_lit(s, 0, lit0) == Some(p0));
    lemma_split_region(s, p0, seg1, r2);
    lemma_sp_string_at(s, p0, tag);
    let p1 = p0 + seg1.len() as int;
    lemma_split_region(s, p1, lit1, r3);
    assert(sp_lit(s, p1, lit1) == Some(p1 + lit1.len()));
    let p2 = p1 + lit1.len() as int;
    lemma_split_region(s, p2, seg2, r4);
    lemma_sp_string_at(s, p2, request_id);
    let p3 = p2 + seg2.len() as int;
    lemma_split_region(s, p3, lit2, r5);
    assert(sp_lit(s, p3, lit2) == Some(p3 + lit2.len()));
    let p4 = p3 + lit2.len() as int;
    lemma_split_region(s, p4, seg3, r6);
    let p5 = p4 + seg3.len() as int;
    assert(s.subrange(p5, p5 + r6.len())[0] == s[p5]);
    assert(r6[0] == ',');
    assert(s[p5] == ',');
    assert(forall|t: int|
        0 <= t < seg3.len() ==> #[trigger] s.subrange(p4, p5)[t] == s[p4 + t]);
    lemma_dec_digits_shape(n as nat);
    assert(s[p4 + 0] == seg3[0]);
    assert(is_digit(s[p4]));
    assert(!is_digit(s[p5]));
    lemma_sp_u16_at(s, p4, n as nat);
    if p4 + 4 <= s.len() && s.subrange(p4, p4 + 4) == "null"@ {
        assert(s.subrange(p4, p4 + 4)[0] == s[p4]);
        assert(s[p4] == 'n');
        assert(false);
    }
    assert(sp_lit(s, p4, "null"@) is None);
    assert(sp_opt_u16(s, p4) == Some((Some(n), p5)));
    lemma_split_region(s, p5, litm, r7);
    assert(sp_lit(s, p5, litm) == Some(p5 + litm.len()));
    let p6 = p5 + litm.len() as int;
    lemma_split_region(s, p6, seg4, lit4);
    lemma_sp_string_at(s, p6, message);
    let p7 = p6 + seg4.len() as int;
    assert(s.subrange(p7, p7 + 1)[0] == s[p7]);
    assert(s[p7] == '}');
    assert(p7 + 1 == s.len());
    assert(sp_msg_error(s, p1) == Some(v));
}


/// Parsing the canonical text of an `error` frame without a status gives\n/// the frame back.
#[verifier::rlimit(100)]
#[verifier::spinoff_prover]
proof fn lemma_rt_error_none(request_id: Seq<char>, message: Seq<char>)
    ensures
        sp_client_message(
            enc_message(MessageView::Error { request_id, status: None, message }),
        ) == Some(MessageView::Error { request_id, status: None, message }),
{
    let status = None::<u16>;
    let v = MessageView::Error { request_id, status, message };
    let s = enc_message(v);
    let lit0 = "{\"event_type\":"@;
    let tag = "error"@;
    let lit1 = ",\"request_id\":"@;
    let lit2 = ",\"status\":"@;
    let litm = ",\"message\":"@;
    let lit4 = "}"@;
    let seg1 = json_string(tag);
    let seg2 = json_string(request_id);
    let seg3 = match status {
        Some(n) => dec_digits(n as nat),
        None => "null"@,
    };
    let seg4 = json_string(message);
    lemma_literal_facts();



    let r7 = seg4 + lit4;
    let r6 = litm + r7;
    let r5 = seg3 + r6;
    let r4 = lit2 + r5;
    let r3 = seg2 + r4;
    let r2 = lit1 + r3;
    let r1 = seg1 + r2;
    assert(s == lit0 + seg1 + lit1 + seg2 + lit2 + seg3 + litm + seg4 + lit4);
    vstd::seq_lib::lemma_concat_associative(
        lit0 + seg1 + lit1 + seg2 + lit2 + seg3 + litm,
        seg4,
        lit4,
    );
    vstd::seq_lib::lemma_concat_associative(lit0 + seg1 + lit1 + seg2 + lit2 + seg3, litm, r7);
    vstd::seq_lib::lemma_concat_associative(lit0 + seg1 + lit1 + seg2 + lit2, seg3, r6);
    vstd::seq_lib::lemma_concat_associative(lit0 + seg1 + lit1 + seg2, lit2, r5);
    vstd::seq_lib::lemma_concat_associative(lit0 + seg1 + lit1, seg2, r4);
    vstd::seq_lib::lemma_concat_associative(lit0 + seg1, lit1, r3);
    vstd::seq_lib::lemma_concat_associative(lit0, seg1, r2);
    assert(s == lit0 + r1);
    assert(s.subrange(0, s.len() as int) =~= s);
    let p0 = lit0.len() as int;
    lemma_split_region(s, 0, lit0, r1);
    assert(sp_lit(s, 0, lit0) == Some(p0));
    lemma_split_region(s, p0, seg1, r2);
    lemma_sp_string_at(s, p0, tag);
    let p1 = p0 + seg1.len() as int;
    lemma_split_region(s, p1, lit1, r3);
    assert(sp_lit(s, p1, lit1) == Some(p1 + lit1.len()));
    let p2 = p1 + lit1.len() as int;
    lemma_split_region(s, p2, seg2, r4);
    lemma_sp_string_at(s, p2, request_id);
    let p3 = p2 + seg2.len() as int;
    lemma_split_region(s, p3, lit2, r5);
    assert(sp_lit(s, p3, lit2) == Some(p3 + lit2.len()));
    let p4 = p3 + lit2.len() as int;
    lemma_split_region(s, p4, seg3, r6);
    let p5 = p4 + seg3.len() as int;
    assert(s.subrange(p5, p5 + r6.len())[0] == s[p5]);
    assert(r6[0] == ',');
    assert(s[p5] == ',');
    assert(s.subrange(p4, p4 + 4) == "null"@);
    assert(sp_lit(s, p4, "null"@) == Some(p4 + 4));
    assert(sp_opt_u16(s, p4) == Some((None::<u16>, p5)));
    lemma_split_region(s, p5, litm, r7);
    assert(sp_lit(s, p5, litm) == Some(p5 + litm.len()));
    let p6 = p5 + litm.len() as int;
    lemma_split_region(s, p6, seg4, lit4);
    lemma_sp_string_at(s, p6, message);
    let p7 = p6 + seg4.len() as int;
    assert(s.subrange(p7, p7 + 1)[0] == s[p7]);
    assert(s[p7] == '}');
    assert(p7 + 1 == s.len());
    assert(sp_msg_error(s, p1) == Some(v));
}

/// Round trip for inbound frames: parsing the canonical text of any frame
/// gives exactly that frame back.
pub proof fn lemma_client_message_round_trip(v: MessageView)
    ensures
        sp_client_message(enc_message(v)) == Some(v),
{
    match v {
        MessageView::ResponseHeaders { request_id, status, headers } => {
            lemma_rt_response_headers(request_id, status, headers);
        },
        MessageView::Chunk { request_id, data } => {
            lemma_rt_chunk(request_id, data);
        },
        MessageView::Error { request_id, status, message } => {
            match status {
                Some(n) => lemma_rt_error_some(request_id, n, message),
                None => lemma_rt_error_none(request_id, message),
            }
        },
        MessageView::StreamClose { request_id } => {
            lemma_rt_stream_close(request_id);
        },
    }
}

/// Round trip for outbound requests: parsing the canonical text of any
/// request gives exactly that request back, field for field.
#[verifier::rlimit(100)]
pub proof fn lemma_proxy_request_round_trip(v: RequestView)
    ensures
        sp_proxy_request(enc_request(v)) == Some(v),
{
    let s = enc_request(v);
    let lit0 = "{\"path\":"@;
    let litm = ",\"method\":"@;
    let lith = ",\"headers\":"@;
    let litq = ",\"query_params\":"@;
    let litb = ",\"body\":"@;
    let litr = ",\"request_id\":"@;
    let lit4 = "}"@;
    let seg1 = json_string(v.path);
    let seg2 = json_string(v.method);
    let seg3 = json_object(v.headers);
    let seg4 = json_object(v.query_params);
    let seg5 = json_string(v.body);
    let seg6 = json_string(v.request_id);
    lemma_literal_facts();
    let r11 = seg6 + lit4;
    let r10 = litr + r11;
    let r9 = seg5 + r10;
    let r8 = litb + r9;
    let r7 = seg4 + r8;
    let r6 = litq + r7;
    let r5 = seg3 + r6;
    let r4 = lith + r5;
    let r3 = seg2 + r4;
    let r2 = litm + r3;
    let r1 = seg1 + r2;
    assert(s == lit0 + seg1 + litm + seg2 + lith + seg3 + litq + seg4 + litb + seg5 + litr
        + seg6 + lit4);
    vstd::seq_lib::lemma_concat_associative(
        lit0 + seg1 + litm + seg2 + lith + seg3 + litq + seg4 + litb + seg5 + litr,
        seg6,
        lit4,
    );
    vstd::seq_lib::lemma_concat_associative(
        lit0 + seg1 + litm + seg2 + lith + seg3 + litq + seg4 + litb + seg5,
        litr,
        r11,
    );
    vstd::seq_lib::lemma_concat_associative(
        lit0 + seg1 + litm + seg2 + lith + seg3 + litq + seg4 + litb,
        seg5,
        r10,
    );
    vstd::seq_lib::lemma_concat_associative(
        lit0 + seg1 + litm + seg2 + lith + seg3 + litq + seg4,
        litb,
        r9,
    );
    vstd::seq_lib::lemma_concat_associative(
        lit0 + seg1 + litm + seg2 + lith + seg3 + litq,
        seg4,
        r8,
    );
    vstd::seq_lib::lemma_concat_associative(lit0 + seg1 + litm + seg2 + lith + seg3, litq, r7);
    vstd::seq_lib::lemma_concat_associative(lit0 + seg1 + litm + seg2 + lith, seg3, r6);
    vstd::seq_lib::lemma_concat_associative(lit0 + seg1 + litm + seg2, lith, r5);
    vstd::seq_lib::lemma_concat_associative(lit0 + seg1 + litm, seg2, r4);
    vstd::seq_lib::lemma_concat_associative(lit0 + seg1, litm, r3);
    vstd::seq_lib::lemma_concat_associative(lit0, seg1, r2);
    assert(s == lit0 + r1);
    assert(s.subrange(0, s.len() as int) =~= s);
    let p0 = lit0.len() as int;
    lemma_split_region(s, 0, lit0, r1);
    assert(sp_lit(s, 0, lit0) == Some(p0));
    lemma_split_region(s, p0, seg1, r2);
    lemma_sp_string_at(s, p0, v.path);
    let p1 = p0 + seg1.len() as int;
    lemma_split_region(s, p1, litm, r3);
    assert(sp_lit(s, p1, litm) == Some(p1 + litm.len()));
    let p2 = p1 + litm.len() as int;
    lemma_split_region(s, p2, seg2, r4);
    lemma_sp_string_at(s, p2, v.method);
    let p3 = p2 + seg2.len() as int;
    lemma_split_region(s, p3, lith, r5);
    assert(sp_lit(s, p3, lith) == Some(p3 + lith.len()));
    let p4 = p3 + lith.len() as int;
    lemma_split_region(s, p4, seg3, r6);
    lemma_sp_object_at(s, p4, v.headers);
    let p5 = p4 + seg3.len() as int;
    lemma_split_region(s, p5, litq, r7);
    assert(sp_lit(s, p5, litq) == Some(p5 + litq.len()));
    let p6 = p5 + litq.len() as int;
    lemma_split_region(s, p6, seg4, r8);
    lemma_sp_object_at(s, p6, v.query_params);
    let p7 = p6 + seg4.len() as int;
    lemma_split_region(s, p7, litb, r9);
    assert(sp_lit(s, p7, litb) == Some(p7 + litb.len()));
    let p8 = p7 + litb.len() as int;
    lemma_split_region(s, p8, seg5, r10);
    lemma_sp_string_at(s, p8, v.body);
    let p9 = p8 + seg5.len() as int;
    lemma_split_region(s, p9, litr, r11);
    assert(sp_lit(s, p9, litr) == Some(p9 + litr.len()));
    let p10 = p9 + litr.len() as int;
    lemma_split_region(s, p10, seg6, lit4);
    lemma_sp_string_at(s, p10, v.request_id);
    let p11 = p10 + seg6.len() as int;
    assert(s.subrange(p11, p11 + 1)[0] == s[p11]);
    assert(s[p11] == '}');
    assert(p11 + 1 == s.len());
    assert(sp_proxy_request(s) == Some(
        RequestView {
            path: v.path,
            method: v.method,
            headers: v.headers,
            query_params: v.query_params,
            body: v.body,
            request_id: v.request_id,
        },
    ));
}
} // verus!
