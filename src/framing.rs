//! Why framing works: the encoding of any message, followed by anything,
//! scans as one whole frame of exactly its length, and any proper prefix
//! of it scans as incomplete. So a stream of encoded messages, cut anywhere,
//! yields exactly the messages it holds in full, in order.

use vstd::prelude::*;
use crate::frame::{ScanState, step, is_done, scan_from, scan_spec, first_non_ws, is_opener, Scan};
use crate::json::{
    QUOTE, BACKSLASH, COLON, COMMA, LBRACE, RBRACE, LBRACKET, RBRACKET, hex_digit, escape_byte,
    escape_bytes, json_str, json_items, json_list, json_field, json_obj1, json_obj2, json_obj3,
};
use crate::proto::{Sndr, SndOp, sndr_json, sndop_json};

verus! {

/// The scanner state after `t`, from `st`.
pub open spec fn run(st: ScanState, t: Seq<u8>) -> ScanState
    decreases t.len(),
{
    if t.len() == 0 {
        st
    } else {
        run(step(st, t[0]), t.subrange(1, t.len() as int))
    }
}

/// No nonempty prefix of `t`, scanned from `st`, ends the value.
pub open spec fn stays_open(st: ScanState, t: Seq<u8>) -> bool
    decreases t.len(),
{
    t.len() == 0 || (!is_done(step(st, t[0])) && stays_open(
        step(st, t[0]),
        t.subrange(1, t.len() as int),
    ))
}

/// Inside a value at depth `d`, `t` leaves the depth as it was and ends
/// nothing.
pub open spec fn neutral_at(t: Seq<u8>, d: int) -> bool {
    stays_open((d, false, false), t) && run((d, false, false), t) == (d, false, false)
}

pub open spec fn neutral(t: Seq<u8>) -> bool {
    forall|d: int| d >= 1 ==> #[trigger] neutral_at(t, d)
}

/// Inside a string, `t` stays inside it and leaves no escape pending.
pub open spec fn in_string_at(t: Seq<u8>, d: int) -> bool {
    stays_open((d, true, false), t) && run((d, true, false), t) == (d, true, false)
}

pub open spec fn in_string(t: Seq<u8>) -> bool {
    forall|d: int| #[trigger] in_string_at(t, d)
}

proof fn lemma_run_concat(st: ScanState, a: Seq<u8>, b: Seq<u8>)
    ensures
        run(st, a + b) == run(run(st, a), b),
        stays_open(st, a + b) == (stays_open(st, a) && stays_open(run(st, a), b)),
    decreases a.len(),
{
    if a.len() == 0 {
        assert(a + b =~= b);
    } else {
        let s1 = step(st, a[0]);
        assert((a + b)[0] == a[0]);
        assert((a + b).subrange(1, (a + b).len() as int) =~= a.subrange(1, a.len() as int) + b);
        lemma_run_concat(s1, a.subrange(1, a.len() as int), b);
    }
}

proof fn lemma_single(st: ScanState, c: u8)
    ensures
        run(st, seq![c]) == step(st, c),
        stays_open(st, seq![c]) == !is_done(step(st, c)),
{
    reveal_with_fuel(run, 2);
    reveal_with_fuel(stays_open, 2);
    assert(seq![c].subrange(1, 1) =~= Seq::<u8>::empty());
}

proof fn lemma_neutral_concat(a: Seq<u8>, b: Seq<u8>)
    requires
        neutral(a),
        neutral(b),
    ensures
        neutral(a + b),
{
    assert forall|d: int| d >= 1 implies #[trigger] neutral_at(a + b, d) by {
        assert(neutral_at(a, d));
        assert(neutral_at(b, d));
        lemma_run_concat((d, false, false), a, b);
    }
}

proof fn lemma_in_string_concat(a: Seq<u8>, b: Seq<u8>)
    requires
        in_string(a),
        in_string(b),
    ensures
        in_string(a + b),
{
    assert forall|d: int| #[trigger] in_string_at(a + b, d) by {
        assert(in_string_at(a, d));
        assert(in_string_at(b, d));
        lemma_run_concat((d, true, false), a, b);
    }
}

proof fn lemma_punct_neutral(c: u8)
    requires
        c == COLON || c == COMMA,
    ensures
        neutral(seq![c]),
{
    assert forall|d: int| d >= 1 implies #[trigger] neutral_at(seq![c], d) by {
        lemma_single((d, false, false), c);
    }
}

/// Brackets around a neutral run are neutral.
proof fn lemma_bracket_neutral(o: u8, t: Seq<u8>, c: u8)
    requires
        (o == LBRACE && c == RBRACE) || (o == LBRACKET && c == RBRACKET),
        neutral(t),
    ensures
        neutral(seq![o] + t + seq![c]),
{
    assert forall|d: int| d >= 1 implies #[trigger] neutral_at(seq![o] + t + seq![c], d) by {
        lemma_single((d, false, false), o);
        assert(neutral_at(t, d + 1));
        lemma_run_concat((d, false, false), seq![o], t);
        lemma_single((d + 1, false, false), c);
        lemma_run_concat((d, false, false), seq![o] + t, seq![c]);
    }
}

/// Bytes that are neither a quote nor a backslash stay inside a string.
proof fn lemma_plain_in_string(t: Seq<u8>)
    requires
        forall|j: int| 0 <= j < t.len() ==> t[j] != QUOTE && t[j] != BACKSLASH,
    ensures
        in_string(t),
    decreases t.len(),
{
    if t.len() > 0 {
        let r = t.subrange(1, t.len() as int);
        assert forall|j: int| 0 <= j < r.len() implies r[j] != QUOTE && r[j] != BACKSLASH by {
            assert(r[j] == t[j + 1]);
        }
        lemma_plain_in_string(r);
        assert forall|d: int| #[trigger] in_string_at(t, d) by {
            assert(in_string_at(r, d));
        }
    }
}

proof fn lemma_escape_byte_in_string(b: u8)
    ensures
        in_string(escape_byte(b)),
{
    let e = escape_byte(b);
    if e.len() == 1 {
        lemma_plain_in_string(e);
    } else {
        let tail = e.subrange(2, e.len() as int);
        assert forall|j: int| 0 <= j < tail.len() implies tail[j] != QUOTE && tail[j]
            != BACKSLASH by {
            if b < 0x20 && b != 0x0a && b != 0x0d && b != 0x09 && b != 0x08 && b != 0x0c {
                if j == 2 {
                    assert(tail[j] == hex_digit(b / 16));
                } else if j == 3 {
                    assert(tail[j] == hex_digit(b % 16));
                }
            }
        }
        lemma_plain_in_string(tail);
        assert forall|d: int| #[trigger] in_string_at(e, d) by {
            assert(e =~= seq![e[0]] + seq![e[1]] + tail);
            lemma_single((d, true, false), e[0]);
            lemma_single((d, true, true), e[1]);
            lemma_run_concat((d, true, false), seq![e[0]], seq![e[1]]);
            assert(in_string_at(tail, d));
            lemma_run_concat((d, true, false), seq![e[0]] + seq![e[1]], tail);
        }
    }
}

proof fn lemma_escape_bytes_in_string(x: Seq<u8>)
    ensures
        in_string(escape_bytes(x)),
    decreases x.len(),
{
    if x.len() == 0 {
        assert forall|d: int| #[trigger] in_string_at(escape_bytes(x), d) by {}
    } else {
        lemma_escape_bytes_in_string(x.drop_last());
        lemma_escape_byte_in_string(x.last());
        lemma_in_string_concat(escape_bytes(x.drop_last()), escape_byte(x.last()));
    }
}

/// A string token, inside a value, is neutral.
proof fn lemma_str_neutral(s: Seq<char>)
    ensures
        neutral(json_str(s)),
{
    let x = escape_bytes(vstd::utf8::encode_utf8(s));
    lemma_escape_bytes_in_string(vstd::utf8::encode_utf8(s));
    assert forall|d: int| d >= 1 implies #[trigger] neutral_at(json_str(s), d) by {
        lemma_single((d, false, false), QUOTE);
        assert(in_string_at(x, d));
        lemma_run_concat((d, false, false), seq![QUOTE], x);
        lemma_single((d, true, false), QUOTE);
        lemma_run_concat((d, false, false), seq![QUOTE] + x, seq![QUOTE]);
    }
}

proof fn lemma_field_neutral(k: Seq<char>, v: Seq<u8>)
    requires
        neutral(v),
    ensures
        neutral(json_field(k, v)),
{
    lemma_str_neutral(k);
    lemma_punct_neutral(COLON);
    lemma_neutral_concat(json_str(k), seq![COLON]);
    lemma_neutral_concat(json_str(k) + seq![COLON], v);
}

proof fn lemma_obj1_neutral(k: Seq<char>, v: Seq<u8>)
    requires
        neutral(v),
    ensures
        neutral(json_obj1(k, v)),
{
    lemma_field_neutral(k, v);
    lemma_bracket_neutral(LBRACE, json_field(k, v), RBRACE);
}

proof fn lemma_obj2_neutral(k1: Seq<char>, v1: Seq<u8>, k2: Seq<char>, v2: Seq<u8>)
    requires
        neutral(v1),
        neutral(v2),
    ensures
        neutral(json_obj2(k1, v1, k2, v2)),
{
    lemma_field_neutral(k1, v1);
    lemma_field_neutral(k2, v2);
    lemma_punct_neutral(COMMA);
    let inner = json_field(k1, v1) + seq![COMMA] + json_field(k2, v2);
    lemma_neutral_concat(json_field(k1, v1), seq![COMMA]);
    lemma_neutral_concat(json_field(k1, v1) + seq![COMMA], json_field(k2, v2));
    lemma_bracket_neutral(LBRACE, inner, RBRACE);
    assert(json_obj2(k1, v1, k2, v2) =~= seq![LBRACE] + inner + seq![RBRACE]);
}

proof fn lemma_obj3_neutral(
    k1: Seq<char>,
    v1: Seq<u8>,
    k2: Seq<char>,
    v2: Seq<u8>,
    k3: Seq<char>,
    v3: Seq<u8>,
)
    requires
        neutral(v1),
        neutral(v2),
        neutral(v3),
    ensures
        neutral(json_obj3(k1, v1, k2, v2, k3, v3)),
{
    lemma_field_neutral(k1, v1);
    lemma_field_neutral(k2, v2);
    lemma_field_neutral(k3, v3);
    lemma_punct_neutral(COMMA);
    let a = json_field(k1, v1) + seq![COMMA];
    let b = a + json_field(k2, v2);
    let c = b + seq![COMMA];
    let inner = c + json_field(k3, v3);
    lemma_neutral_concat(json_field(k1, v1), seq![COMMA]);
    lemma_neutral_concat(a, json_field(k2, v2));
    lemma_neutral_concat(b, seq![COMMA]);
    lemma_neutral_concat(c, json_field(k3, v3));
    lemma_bracket_neutral(LBRACE, inner, RBRACE);
    assert(json_obj3(k1, v1, k2, v2, k3, v3) =~= seq![LBRACE] + inner + seq![RBRACE]);
}

proof fn lemma_items_neutral(ss: Seq<Seq<char>>)
    ensures
        neutral(json_items(ss)),
    decreases ss.len(),
{
    if ss.len() == 0 {
        assert forall|d: int| d >= 1 implies #[trigger] neutral_at(json_items(ss), d) by {}
    } else if ss.len() == 1 {
        lemma_str_neutral(ss[0]);
    } else {
        lemma_items_neutral(ss.drop_last());
        lemma_punct_neutral(COMMA);
        lemma_str_neutral(ss.last());
        lemma_neutral_concat(json_items(ss.drop_last()), seq![COMMA]);
        lemma_neutral_concat(json_items(ss.drop_last()) + seq![COMMA], json_str(ss.last()));
    }
}

proof fn lemma_list_neutral(ss: Seq<Seq<char>>)
    ensures
        neutral(json_list(ss)),
{
    lemma_items_neutral(ss);
    lemma_bracket_neutral(LBRACKET, json_items(ss), RBRACKET);
}

proof fn lemma_sndop_neutral(op: SndOp)
    ensures
        neutral(sndop_json(op)),
{
    match op {
        SndOp::Open => lemma_str_neutral("Open"@),
        SndOp::Close => lemma_str_neutral("Close"@),
        SndOp::Kick(s) => {
            lemma_str_neutral(s@);
            lemma_obj1_neutral("Kick"@, json_str(s@));
        },
        SndOp::Invite(s) => {
            lemma_str_neutral(s@);
            lemma_obj1_neutral("Invite"@, json_str(s@));
        },
        SndOp::Give(s) => {
            lemma_str_neutral(s@);
            lemma_obj1_neutral("Give"@, json_str(s@));
        },
    }
}

/// Every encoding is a string token or `{"tag":value}` with a neutral
/// value; this gives the part between the outer delimiters.
proof fn lemma_message_shape(m: Sndr)
    ensures
        (m is Ping && sndr_json(m) == json_str("Ping"@)) || (!(m is Ping) && exists|tag: Seq<char>, v: Seq<u8>|
            neutral(v) && #[trigger] json_obj1(tag, v) == sndr_json(m)),
{
    match m {
        Sndr::Text { who, lines } => {
            lemma_str_neutral(who@);
            lemma_list_neutral(crate::json::str_views(lines@));
            let v = json_obj2("who"@, json_str(who@), "lines"@, json_list(crate::json::str_views(lines@)));
            lemma_obj2_neutral("who"@, json_str(who@), "lines"@, json_list(crate::json::str_views(lines@)));
            assert(neutral(v) && json_obj1("Text"@, v) == sndr_json(m));
        },
        Sndr::Ping => {},
        Sndr::Priv { who, text } => {
            lemma_str_neutral(who@);
            lemma_str_neutral(text@);
            let v = json_obj2("who"@, json_str(who@), "text"@, json_str(text@));
            lemma_obj2_neutral("who"@, json_str(who@), "text"@, json_str(text@));
            assert(neutral(v) && json_obj1("Priv"@, v) == sndr_json(m));
        },
        Sndr::Query { what, arg } => {
            lemma_str_neutral(what@);
            lemma_str_neutral(arg@);
            let v = json_obj2("what"@, json_str(what@), "arg"@, json_str(arg@));
            lemma_obj2_neutral("what"@, json_str(what@), "arg"@, json_str(arg@));
            assert(neutral(v) && json_obj1("Query"@, v) == sndr_json(m));
        },
        Sndr::Op(op) => {
            lemma_sndop_neutral(op);
            assert(neutral(sndop_json(op)) && json_obj1("Op"@, sndop_json(op)) == sndr_json(m));
        },
        Sndr::Misc { what, data, alt } => {
            lemma_str_neutral(what@);
            lemma_list_neutral(crate::json::str_views(data@));
            lemma_str_neutral(alt@);
            let v = json_obj3(
                "what"@,
                json_str(what@),
                "data"@,
                json_list(crate::json::str_views(data@)),
                "alt"@,
                json_str(alt@),
            );
            lemma_obj3_neutral(
                "what"@,
                json_str(what@),
                "data"@,
                json_list(crate::json::str_views(data@)),
                "alt"@,
                json_str(alt@),
            );
            assert(neutral(v) && json_obj1("Misc"@, v) == sndr_json(m));
        },
        Sndr::Logout(s) => {
            lemma_str_neutral(s@);
            assert(neutral(json_str(s@)) && json_obj1("Logout"@, json_str(s@)) == sndr_json(m));
        },
        Sndr::Name(s) => {
            lemma_str_neutral(s@);
            assert(neutral(json_str(s@)) && json_obj1("Name"@, json_str(s@)) == sndr_json(m));
        },
        Sndr::Join(s) => {
            lemma_str_neutral(s@);
            assert(neutral(json_str(s@)) && json_obj1("Join"@, json_str(s@)) == sndr_json(m));
        },
        Sndr::Block(s) => {
            lemma_str_neutral(s@);
            assert(neutral(json_str(s@)) && json_obj1("Block"@, json_str(s@)) == sndr_json(m));
        },
        Sndr::Unblock(s) => {
            lemma_str_neutral(s@);
            assert(neutral(json_str(s@)) && json_obj1("Unblock"@, json_str(s@)) == sndr_json(m));
        },
        Sndr::Info(s) => {
            lemma_str_neutral(s@);
            assert(neutral(json_str(s@)) && json_obj1("Info"@, json_str(s@)) == sndr_json(m));
        },
        Sndr::Error(s) => {
            lemma_str_neutral(s@);
            assert(neutral(json_str(s@)) && json_obj1("Err"@, json_str(s@)) == sndr_json(m));
        },
    }
}

proof fn lemma_scan_skip(b: Seq<u8>, i: int, st: ScanState, t: Seq<u8>)
    requires
        0 <= i,
        i + t.len() <= b.len(),
        b.subrange(i, i + t.len()) == t,
        stays_open(st, t),
    ensures
        scan_from(b, i, st) == scan_from(b, i + t.len(), run(st, t)),
    decreases t.len(),
{
    if t.len() > 0 {
        let s1 = step(st, t[0]);
        assert(b[i] == t[0]);
        let r = t.subrange(1, t.len() as int);
        assert(b.subrange(i + 1, i + 1 + r.len()) =~= r);
        lemma_scan_skip(b, i + 1, s1, r);
    }
}

/// An encoding split as its body and its last byte: the body keeps the
/// value open from the start state, and the last byte closes it.
proof fn lemma_encoding_closes(m: Sndr)
    ensures
        sndr_json(m).len() >= 2,
        is_opener(sndr_json(m)[0]),
        ({
            let e = sndr_json(m);
            let body = e.drop_last();
            stays_open((0, false, false), body) && is_done(
                step(run((0, false, false), body), e.last()),
            )
        }),
{
    lemma_message_shape(m);
    let e = sndr_json(m);
    if m is Ping {
        let x = escape_bytes(vstd::utf8::encode_utf8("Ping"@));
        lemma_escape_bytes_in_string(vstd::utf8::encode_utf8("Ping"@));
        assert(in_string_at(x, 0));
        assert(e.drop_last() =~= seq![QUOTE] + x);
        lemma_single((0, false, false), QUOTE);
        lemma_run_concat((0, false, false), seq![QUOTE], x);
    } else {
        let (tag, v) = choose|tag: Seq<char>, v: Seq<u8>|
            neutral(v) && #[trigger] json_obj1(tag, v) == sndr_json(m);
        lemma_field_neutral(tag, v);
        let f = json_field(tag, v);
        assert(neutral_at(f, 1));
        assert(e.drop_last() =~= seq![LBRACE] + f);
        assert(e.last() == RBRACE);
        lemma_single((0, false, false), LBRACE);
        lemma_run_concat((0, false, false), seq![LBRACE], f);
    }
}

/// One encoded message followed by anything scans as a whole frame of
/// exactly its length; a proper prefix of it scans as incomplete.
pub proof fn lemma_message_frame(m: Sndr, rest: Seq<u8>)
    ensures
        scan_spec(sndr_json(m) + rest) == Scan::Complete(sndr_json(m).len() as usize),
        forall|k: int|
            0 <= k < sndr_json(m).len() ==> #[trigger] scan_spec(sndr_json(m).take(k))
                == Scan::Incomplete,
{
    lemma_encoding_closes(m);
    let e = sndr_json(m);
    let body = e.drop_last();
    let b = e + rest;
    assert(b[0] == e[0]);
    assert(first_non_ws(b, 0) == 0);
    assert(b.subrange(0, body.len() as int) =~= body);
    lemma_scan_skip(b, 0, (0, false, false), body);
    assert(b[body.len() as int] == e.last());
    assert forall|k: int| 0 <= k < e.len() implies #[trigger] scan_spec(e.take(k))
        == Scan::Incomplete by {
        let p = e.take(k);
        if k > 0 {
            assert(p[0] == e[0]);
            assert(first_non_ws(p, 0) == 0);
            assert(body =~= p + body.skip(k));
            lemma_run_concat((0, false, false), p, body.skip(k));
            assert(p.subrange(0, p.len() as int) =~= p);
            lemma_scan_skip(p, 0, (0, false, false), p);
        } else {
            assert(first_non_ws(p, 0) == p.len());
        }
    }
}

/// The concatenation of a run of byte strings.
pub open spec fn concat(es: Seq<Seq<u8>>) -> Seq<u8>
    decreases es.len(),
{
    if es.len() == 0 {
        Seq::empty()
    } else {
        es[0] + concat(es.skip(1))
    }
}

/// Frames taken off the front of a buffer until no whole one is left, and
/// what remains.
pub open spec fn drain_frames(b: Seq<u8>) -> (Seq<Seq<u8>>, Seq<u8>)
    decreases b.len(),
{
    match scan_spec(b) {
        Scan::Complete(e) => if 0 < e <= b.len() {
            let (fs, r) = drain_frames(b.skip(e as int));
            (seq![b.take(e as int)] + fs, r)
        } else {
            (Seq::empty(), b)
        },
        _ => (Seq::empty(), b),
    }
}

/// The encodings of a run of messages.
pub open spec fn encodings<'a>(ms: Seq<Sndr<'a>>) -> Seq<Seq<u8>> {
    ms.map_values(|m: Sndr<'a>| sndr_json(m))
}

/// One step of taking frames: a buffer that starts with an encoded
/// message gives that message first, then the frames of what follows.
proof fn lemma_drain_step(m: Sndr, rest: Seq<u8>)
    requires
        sndr_json(m).len() + rest.len() <= usize::MAX,
    ensures
        drain_frames(sndr_json(m) + rest) == (
            seq![sndr_json(m)] + drain_frames(rest).0,
            drain_frames(rest).1,
        ),
{
    let e = sndr_json(m);
    let b = e + rest;
    lemma_message_frame(m, rest);
    lemma_encoding_closes(m);
    assert(b.take(e.len() as int) =~= e);
    assert(b.skip(e.len() as int) =~= rest);
}

/// Bytes produced by sending messages one after another, cut anywhere:
/// whatever part `p` of the next message has arrived (possibly none),
/// taking frames off the buffer yields exactly the messages sent in full,
/// in order, and leaves `p`.
#[verifier::rlimit(100)]
pub proof fn lemma_stream_frames<'a>(ms: Seq<Sndr<'a>>, next: Sndr<'a>, k: int)
    requires
        0 <= k < sndr_json(next).len(),
        concat(encodings(ms)).len() + k <= usize::MAX,
    ensures
        drain_frames(concat(encodings(ms)) + sndr_json(next).take(k)) == (
            encodings(ms),
            sndr_json(next).take(k),
        ),
    decreases ms.len(),
{
    let p = sndr_json(next).take(k);
    if ms.len() == 0 {
        lemma_message_frame(next, Seq::empty());
        assert(concat(encodings(ms)) + p =~= p);
        assert(scan_spec(p) == Scan::Incomplete);
        assert(encodings(ms) =~= Seq::<Seq<u8>>::empty());
    } else {
        let es = encodings(ms);
        let e0 = sndr_json(ms[0]);
        let tail = ms.skip(1);
        let et = encodings(tail);
        assert(es.skip(1) =~= et);
        assert(es[0] == e0);
        assert(concat(es) == e0 + concat(et));
        assert(concat(et).len() + k <= usize::MAX);
        lemma_stream_frames(tail, next, k);
        let rest = concat(et) + p;
        assert(concat(es) + p =~= e0 + rest);
        lemma_drain_step(ms[0], rest);
        assert(es =~= seq![e0] + et);
    }
}

} // verus!
