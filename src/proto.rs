//! The wire protocol. `Sndr` is what a participant emits (it borrows its
//! text, so one message can be encoded once and fanned out), `Rcvr` is what a
//! participant decodes (it owns its text). Both have the same form on the
//! wire: serde's externally tagged encoding of each variant.

use vstd::prelude::*;
use crate::json::{
    json_str, json_list, json_obj1, json_obj2, json_obj3, str_views, push_json_str,
    push_json_list, push_key, LBRACE, RBRACE, COMMA,
};

verus! {

/// A room-operator subcommand, as sent.
#[derive(Clone, Copy, Debug)]
pub enum SndOp<'a> {
    Open,
    Close,
    Kick(&'a str),
    Invite(&'a str),
    Give(&'a str),
}

/// A message as sent.
#[derive(Clone, Copy, Debug)]
pub enum Sndr<'a> {
    Text { who: &'a str, lines: &'a [&'a str] },
    Ping,
    Priv { who: &'a str, text: &'a str },
    Logout(&'a str),
    Name(&'a str),
    Join(&'a str),
    Query { what: &'a str, arg: &'a str },
    Block(&'a str),
    Unblock(&'a str),
    Op(SndOp<'a>),
    Info(&'a str),
    Error(&'a str),
    Misc { what: &'a str, data: &'a [&'a str], alt: &'a str },
}

/// A room-operator subcommand, as received.
#[derive(Clone, Debug, PartialEq)]
pub enum RcvOp {
    Open,
    Close,
    Kick(String),
    Invite(String),
    Give(String),
}

/// A message as received.
#[derive(Clone, Debug, PartialEq)]
pub enum Rcvr {
    Text { who: String, lines: Vec<String> },
    Ping,
    Priv { who: String, text: String },
    Logout(String),
    Name(String),
    Join(String),
    Query { what: String, arg: String },
    Block(String),
    Unblock(String),
    Op(RcvOp),
    Info(String),
    Error(String),
    Misc { what: String, data: Vec<String>, alt: String },
}

/// The encoding of an operator subcommand.
pub open spec fn sndop_json(op: SndOp) -> Seq<u8> {
    match op {
        SndOp::Open => json_str("Open"@),
        SndOp::Close => json_str("Close"@),
        SndOp::Kick(s) => json_obj1("Kick"@, json_str(s@)),
        SndOp::Invite(s) => json_obj1("Invite"@, json_str(s@)),
        SndOp::Give(s) => json_obj1("Give"@, json_str(s@)),
    }
}

/// The encoding of a message: what goes on the wire for it.
pub open spec fn sndr_json(m: Sndr) -> Seq<u8> {
    match m {
        Sndr::Text { who, lines } => json_obj1(
            "Text"@,
            json_obj2("who"@, json_str(who@), "lines"@, json_list(str_views(lines@))),
        ),
        Sndr::Ping => json_str("Ping"@),
        Sndr::Priv { who, text } => json_obj1(
            "Priv"@,
            json_obj2("who"@, json_str(who@), "text"@, json_str(text@)),
        ),
        Sndr::Logout(s) => json_obj1("Logout"@, json_str(s@)),
        Sndr::Name(s) => json_obj1("Name"@, json_str(s@)),
        Sndr::Join(s) => json_obj1("Join"@, json_str(s@)),
        Sndr::Query { what, arg } => json_obj1(
            "Query"@,
            json_obj2("what"@, json_str(what@), "arg"@, json_str(arg@)),
        ),
        Sndr::Block(s) => json_obj1("Block"@, json_str(s@)),
        Sndr::Unblock(s) => json_obj1("Unblock"@, json_str(s@)),
        Sndr::Op(op) => json_obj1("Op"@, sndop_json(op)),
        Sndr::Info(s) => json_obj1("Info"@, json_str(s@)),
        Sndr::Error(s) => json_obj1("Err"@, json_str(s@)),
        Sndr::Misc { what, data, alt } => json_obj1(
            "Misc"@,
            json_obj3(
                "what"@,
                json_str(what@),
                "data"@,
                json_list(str_views(data@)),
                "alt"@,
                json_str(alt@),
            ),
        ),
    }
}

/// Appends `{"tag":"text"}`.
fn push_tagged_str(out: &mut Vec<u8>, tag: &str, s: &str)
    ensures
        final(out)@ == old(out)@ + json_obj1(tag@, json_str(s@)),
{
    out.push(LBRACE);
    push_key(out, tag);
    push_json_str(out, s);
    out.push(RBRACE);
    assert(final(out)@ =~= old(out)@ + json_obj1(tag@, json_str(s@)));
}

/// Appends `{"k1":"a","k2":"b"}`.
fn push_obj2_strs(out: &mut Vec<u8>, k1: &str, a: &str, k2: &str, b: &str)
    ensures
        final(out)@ == old(out)@ + json_obj2(k1@, json_str(a@), k2@, json_str(b@)),
{
    out.push(LBRACE);
    push_key(out, k1);
    push_json_str(out, a);
    out.push(COMMA);
    push_key(out, k2);
    push_json_str(out, b);
    out.push(RBRACE);
    assert(final(out)@ =~= old(out)@ + json_obj2(k1@, json_str(a@), k2@, json_str(b@)));
}

fn push_sndop(out: &mut Vec<u8>, op: SndOp)
    ensures
        final(out)@ == old(out)@ + sndop_json(op),
{
    match op {
        SndOp::Open => push_json_str(out, "Open"),
        SndOp::Close => push_json_str(out, "Close"),
        SndOp::Kick(s) => push_tagged_str(out, "Kick", s),
        SndOp::Invite(s) => push_tagged_str(out, "Invite", s),
        SndOp::Give(s) => push_tagged_str(out, "Give", s),
    }
}

/// Appends `{"tag":{"k1":"a","k2":"b"}}`.
fn push_tagged_obj2(out: &mut Vec<u8>, tag: &str, k1: &str, a: &str, k2: &str, b: &str)
    ensures
        final(out)@ == old(out)@ + json_obj1(tag@, json_obj2(k1@, json_str(a@), k2@, json_str(b@))),
{
    out.push(LBRACE);
    push_key(out, tag);
    push_obj2_strs(out, k1, a, k2, b);
    out.push(RBRACE);
    assert(final(out)@ =~= old(out)@ + json_obj1(
        tag@,
        json_obj2(k1@, json_str(a@), k2@, json_str(b@)),
    ));
}

fn push_text(out: &mut Vec<u8>, who: &str, lines: &[&str])
    ensures
        final(out)@ == old(out)@ + sndr_json(Sndr::Text { who, lines }),
{
    out.push(LBRACE);
    push_key(out, "Text");
    out.push(LBRACE);
    push_key(out, "who");
    push_json_str(out, who);
    out.push(COMMA);
    push_key(out, "lines");
    push_json_list(out, lines);
    out.push(RBRACE);
    out.push(RBRACE);
    assert(final(out)@ =~= old(out)@ + sndr_json(Sndr::Text { who, lines }));
}

fn push_misc(out: &mut Vec<u8>, what: &str, data: &[&str], alt: &str)
    ensures
        final(out)@ == old(out)@ + sndr_json(Sndr::Misc { what, data, alt }),
{
    out.push(LBRACE);
    push_key(out, "Misc");
    out.push(LBRACE);
    push_key(out, "what");
    push_json_str(out, what);
    out.push(COMMA);
    push_key(out, "data");
    push_json_list(out, data);
    out.push(COMMA);
    push_key(out, "alt");
    push_json_str(out, alt);
    out.push(RBRACE);
    out.push(RBRACE);
    assert(final(out)@ =~= old(out)@ + sndr_json(Sndr::Misc { what, data, alt }));
}

fn push_op(out: &mut Vec<u8>, op: SndOp)
    ensures
        final(out)@ == old(out)@ + sndr_json(Sndr::Op(op)),
{
    out.push(LBRACE);
    push_key(out, "Op");
    push_sndop(out, op);
    out.push(RBRACE);
    assert(final(out)@ =~= old(out)@ + sndr_json(Sndr::Op(op)));
}

/// Appends the encoding of `m`.
pub fn push_sndr(out: &mut Vec<u8>, m: &Sndr)
    ensures
        final(out)@ == old(out)@ + sndr_json(*m),
{
    match *m {
        Sndr::Text { who, lines } => push_text(out, who, lines),
        Sndr::Ping => push_json_str(out, "Ping"),
        Sndr::Priv { who, text } => push_tagged_obj2(out, "Priv", "who", who, "text", text),
        Sndr::Logout(s) => push_tagged_str(out, "Logout", s),
        Sndr::Name(s) => push_tagged_str(out, "Name", s),
        Sndr::Join(s) => push_tagged_str(out, "Join", s),
        Sndr::Query { what, arg } => push_tagged_obj2(out, "Query", "what", what, "arg", arg),
        Sndr::Block(s) => push_tagged_str(out, "Block", s),
        Sndr::Unblock(s) => push_tagged_str(out, "Unblock", s),
        Sndr::Op(op) => push_op(out, op),
        Sndr::Info(s) => push_tagged_str(out, "Info", s),
        Sndr::Error(s) => push_tagged_str(out, "Err", s),
        Sndr::Misc { what, data, alt } => push_misc(out, what, data, alt),
    }
}

impl<'a> Sndr<'a> {
    /// The encoded message.
    pub fn bytes(&self) -> (r: Vec<u8>)
        ensures
            r@ == sndr_json(*self),
    {
        let mut out: Vec<u8> = Vec::new();
        push_sndr(&mut out, self);
        assert(out@ =~= sndr_json(*self));
        out
    }
}

/// Whether a received message counts against the sender's byte quota.
pub open spec fn is_noisy(m: Rcvr) -> bool {
    m is Text || m is Priv || m is Name || m is Join
}

impl Rcvr {
    /// True for the "noisy" variants: `Text`, `Priv`, `Name` and `Join`.
    pub fn counts(&self) -> (r: bool)
        ensures
            r == is_noisy(*self),
    {
        match self {
            Rcvr::Text { .. } => true,
            Rcvr::Priv { .. } => true,
            Rcvr::Name(_) => true,
            Rcvr::Join(_) => true,
            _ => false,
        }
    }
}

/// The source or destination of an envelope.
#[derive(Clone, Copy, Debug, PartialEq, Eq, Structural)]
pub enum End {
    User(u64),
    Room(u64),
    Server,
    All,
}

/// An envelope: an encoded message with its source and destination.
#[derive(Clone, Debug)]
pub struct Env {
    source: End,
    dest: End,
    data: Vec<u8>,
}

impl View for Env {
    type V = (End, End, Seq<u8>);

    /// Source, destination and the encoded message.
    closed spec fn view(&self) -> (End, End, Seq<u8>) {
        (self.source, self.dest, self.data@)
    }
}

impl Env {
    /// Encodes `msg` into a new envelope.
    pub fn new(from: End, to: End, msg: &Sndr) -> (r: Env)
        ensures
            r@ == (from, to, sndr_json(*msg)),
    {
        Env { source: from, dest: to, data: msg.bytes() }
    }

    pub fn bytes(&self) -> (r: &[u8])
        ensures
            r@ == self@.2,
    {
        self.data.as_slice()
    }

    pub fn source(&self) -> (r: End)
        ensures
            r == self@.0,
    {
        self.source
    }

    pub fn dest(&self) -> (r: End)
        ensures
            r == self@.1,
    {
        self.dest
    }

    /// A copy of the envelope.
    pub fn duplicate(&self) -> (r: Env)
        ensures
            r@ == self@,
    {
        Env { source: self.source, dest: self.dest, data: crate::server::copy_bytes(self.data.as_slice()) }
    }

    pub fn into_bytes(self) -> (r: Vec<u8>)
        ensures
            r@ == self@.2,
    {
        self.data
    }
}

} // verus!
