//! The single-type form of the protocol: one `Msg` enum that owns its text,
//! used where a message is built once and sent once. Its encoding on the
//! wire is the same as that of `proto::Sndr`.

use vstd::prelude::*;
use crate::json::{json_obj1, json_obj2, json_obj3, json_str, json_list, string_views, str_views};
use crate::proto::{Sndr, SndOp, sndr_json};
use crate::handlers::str_refs;

verus! {

/// A room-operator subcommand.
#[derive(Clone, Debug, PartialEq)]
pub enum Op {
    /// Open the room to everyone.
    Open,
    /// Close the room to all but the invited.
    Close,
    /// Ban a user from the room, removing them if present.
    Kick(String),
    /// Let a user in even while the room is closed.
    Invite(String),
    /// Hand the operator role to a member.
    Give(String),
}

/// A message between client and server.
#[derive(Clone, Debug, PartialEq)]
pub enum Msg {
    Text { who: String, lines: Vec<String> },
    Ping,
    Priv { who: String, text: String },
    Logout(String),
    Name(String),
    Join(String),
    Query { what: String, arg: String },
    Block(String),
    Unblock(String),
    Op(Op),
    Info(String),
    Error(String),
    Misc { what: String, data: Vec<String>, alt: String },
}

pub open spec fn op_json(op: Op) -> Seq<u8> {
    match op {
        Op::Open => json_str("Open"@),
        Op::Close => json_str("Close"@),
        Op::Kick(s) => json_obj1("Kick"@, json_str(s@)),
        Op::Invite(s) => json_obj1("Invite"@, json_str(s@)),
        Op::Give(s) => json_obj1("Give"@, json_str(s@)),
    }
}

/// The encoding of a message.
pub open spec fn msg_json(m: Msg) -> Seq<u8> {
    match m {
        Msg::Text { who, lines } => json_obj1(
            "Text"@,
            json_obj2("who"@, json_str(who@), "lines"@, json_list(string_views(lines@))),
        ),
        Msg::Ping => json_str("Ping"@),
        Msg::Priv { who, text } => json_obj1(
            "Priv"@,
            json_obj2("who"@, json_str(who@), "text"@, json_str(text@)),
        ),
        Msg::Logout(s) => json_obj1("Logout"@, json_str(s@)),
        Msg::Name(s) => json_obj1("Name"@, json_str(s@)),
        Msg::Join(s) => json_obj1("Join"@, json_str(s@)),
        Msg::Query { what, arg } => json_obj1(
            "Query"@,
            json_obj2("what"@, json_str(what@), "arg"@, json_str(arg@)),
        ),
        Msg::Block(s) => json_obj1("Block"@, json_str(s@)),
        Msg::Unblock(s) => json_obj1("Unblock"@, json_str(s@)),
        Msg::Op(op) => json_obj1("Op"@, op_json(op)),
        Msg::Info(s) => json_obj1("Info"@, json_str(s@)),
        Msg::Error(s) => json_obj1("Err"@, json_str(s@)),
        Msg::Misc { what, data, alt } => json_obj1(
            "Misc"@,
            json_obj3(
                "what"@,
                json_str(what@),
                "data"@,
                json_list(string_views(data@)),
                "alt"@,
                json_str(alt@),
            ),
        ),
    }
}

fn op_bytes(op: &Op) -> (r: Vec<u8>)
    ensures
        r@ == json_obj1("Op"@, op_json(*op)),
{
    let s = match op {
        Op::Open => SndOp::Open,
        Op::Close => SndOp::Close,
        Op::Kick(n) => SndOp::Kick(n.as_str()),
        Op::Invite(n) => SndOp::Invite(n.as_str()),
        Op::Give(n) => SndOp::Give(n.as_str()),
    };
    Sndr::Op(s).bytes()
}

impl Msg {
    pub fn logout(msg: &str) -> (r: Msg)
        ensures
            r matches Msg::Logout(s) && s@ == msg@,
    {
        Msg::Logout(msg.to_owned())
    }

    pub fn info(msg: &str) -> (r: Msg)
        ensures
            r matches Msg::Info(s) && s@ == msg@,
    {
        Msg::Info(msg.to_owned())
    }

    pub fn err(msg: &str) -> (r: Msg)
        ensures
            r matches Msg::Error(s) && s@ == msg@,
    {
        Msg::Error(msg.to_owned())
    }

    /// The encoded message.
    pub fn bytes(&self) -> (r: Vec<u8>)
        ensures
            r@ == msg_json(*self),
    {
        match self {
            Msg::Text { who, lines } => {
                let refs = str_refs(lines);
                Sndr::Text { who: who.as_str(), lines: refs.as_slice() }.bytes()
            },
            Msg::Ping => Sndr::Ping.bytes(),
            Msg::Priv { who, text } => Sndr::Priv { who: who.as_str(), text: text.as_str() }.bytes(),
            Msg::Logout(s) => Sndr::Logout(s.as_str()).bytes(),
            Msg::Name(s) => Sndr::Name(s.as_str()).bytes(),
            Msg::Join(s) => Sndr::Join(s.as_str()).bytes(),
            Msg::Query { what, arg } => Sndr::Query { what: what.as_str(), arg: arg.as_str() }.bytes(),
            Msg::Block(s) => Sndr::Block(s.as_str()).bytes(),
            Msg::Unblock(s) => Sndr::Unblock(s.as_str()).bytes(),
            Msg::Op(op) => op_bytes(op),
            Msg::Info(s) => Sndr::Info(s.as_str()).bytes(),
            Msg::Error(s) => Sndr::Error(s.as_str()).bytes(),
            Msg::Misc { what, data, alt } => {
                let refs = str_refs(data);
                Sndr::Misc { what: what.as_str(), data: refs.as_slice(), alt: alt.as_str() }.bytes()
            },
        }
    }
}

/// The source or destination of an envelope.
#[derive(Clone, Copy, Debug, PartialEq, Eq, Structural)]
pub enum Endpoint {
    User(u64),
    Room(u64),
    Server,
    All,
}

/// An encoded message with its source and destination.
#[derive(Debug)]
pub struct Env {
    source: Endpoint,
    dest: Endpoint,
    data: Vec<u8>,
}

impl View for Env {
    type V = (Endpoint, Endpoint, Seq<u8>);

    closed spec fn view(&self) -> (Endpoint, Endpoint, Seq<u8>) {
        (self.source, self.dest, self.data@)
    }
}

impl Env {
    /// Encodes `msg` into a new envelope.
    pub fn new(from: Endpoint, to: Endpoint, msg: &Msg) -> (r: Env)
        ensures
            r@ == (from, to, msg_json(*msg)),
    {
        Env { source: from, dest: to, data: msg.bytes() }
    }

    pub fn bytes(&self) -> (r: &[u8])
        ensures
            r@ == self@.2,
    {
        self.data.as_slice()
    }

    pub fn into_bytes(self) -> (r: Vec<u8>)
        ensures
            r@ == self@.2,
    {
        self.data
    }
}

} // verus!
