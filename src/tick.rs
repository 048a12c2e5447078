//! One tick of the room processor, and the admission of new users.

use vstd::prelude::*;
use crate::config::ServerConfig;
use crate::handlers::{err_env, info_env, misc_env, pair};
use crate::names::{ascollapse, normalize, plain};
use crate::proto::{End, Env, Rcvr, RcvOp, Sndr, sndr_json};
use crate::server::{Server, routed_here};
use crate::room::{without_id, delivered, bytes_for};
use crate::text::{cat2, cat3, cat5, decimal, decimal_string, lemma_decimal_digits, lemma_decimal_injective};
use crate::user::User;

verus! {

/// What was read from one member for this tick: nothing, or a decoded
/// message and the number of bytes it took.
pub enum Intake {
    Nothing,
    Message(Rcvr, usize),
}

/// How one member's turn went.
#[derive(Clone, Copy, Debug, PartialEq, Eq, Structural)]
pub enum Turn {
    /// No such user (any more).
    Absent,
    /// Its connection had errors: it is to be logged out.
    Broken,
    /// Silent too long: it is to be logged out.
    Kick,
    /// Silent for a while: it was pinged.
    Ping,
    /// Nothing read, nothing due.
    Quiet,
    /// Its message came while it was over quota and was dropped.
    Dropped,
    /// Its message was handled.
    Handled,
}

/// The quota after draining `per_tick`, not below zero.
pub open spec fn drained(q: nat, per_tick: nat) -> nat {
    if per_tick > q {
        0
    } else {
        (q - per_tick) as nat
    }
}

/// The quota after a message of `n` bytes, noisy or not.
pub open spec fn counted(q: nat, noisy: bool, n: nat) -> nat {
    if !noisy {
        q
    } else if q + n > usize::MAX {
        usize::MAX as nat
    } else {
        q + n
    }
}

/// What a user that was over quota and came back under is told.
pub open spec fn relief_bytes(rel: bool) -> Seq<u8> {
    if rel {
        crate::handlers::err_json("You may send messages again."@)
    } else {
        Seq::empty()
    }
}

/// What an idle user is due, by how long ago it was last heard from.
#[derive(Clone, Copy, Debug, PartialEq, Eq, Structural)]
pub enum Idle {
    Fine,
    Ping,
    Kick,
}

/// Past the kick limit a user is logged out; past the ping limit it is
/// pinged. A clock that went backwards counts as no time.
pub open spec fn idle_spec(now: u64, last: u64, ping_ms: u64, kick_ms: u64) -> Idle {
    if now < last {
        Idle::Fine
    } else if now - last > kick_ms {
        Idle::Kick
    } else if now - last > ping_ms {
        Idle::Ping
    } else {
        Idle::Fine
    }
}

pub fn idle_check(now: u64, last: u64, ping_ms: u64, kick_ms: u64) -> (r: Idle)
    ensures
        r == idle_spec(now, last, ping_ms, kick_ms),
{
    if now < last {
        Idle::Fine
    } else if now - last > kick_ms {
        Idle::Kick
    } else if now - last > ping_ms {
        Idle::Ping
    } else {
        Idle::Fine
    }
}

/// Flow control at the start of a member's turn: whether it was over the
/// limit, its quota once `per_tick` is drained (not below zero), and
/// whether that brought it back under the limit.
pub fn quota_turn(quota: usize, limit: usize, per_tick: usize) -> (r: (bool, usize, bool))
    ensures
        r.0 == (quota > limit),
        r.1 == (if per_tick > quota {
            0
        } else {
            quota - per_tick
        }),
        r.2 == (r.0 && r.1 <= limit),
{
    let over = quota > limit;
    let left = if per_tick > quota {
        0
    } else {
        quota - per_tick
    };
    (over, left, over && left <= limit)
}

/// The generated name `user<n>`.
pub open spec fn user_candidate(n: nat) -> Seq<char> {
    "user"@ + decimal(n)
}

proof fn lemma_candidate(n: nat)
    ensures
        normalize(user_candidate(n)) == user_candidate(n),
        user_candidate(n).skip(4) == decimal(n),
{
    reveal_strlit("user");
    lemma_decimal_digits(n);
    let c = user_candidate(n);
    assert(c.skip(4) =~= decimal(n));
    assert forall|i: int| 0 <= i < c.len() implies ('a' <= #[trigger] c[i] && c[i] <= 'z') || ('0' <= c[i] && c[i] <= '9') by {
        if i >= 4 {
            assert(c[i] == decimal(n)[i - 4]);
        }
    }
    assert(plain(c));
}

proof fn lemma_candidates_distinct(a: nat, b: nat)
    requires
        user_candidate(a) == user_candidate(b),
    ensures
        a == b,
{
    lemma_candidate(a);
    lemma_candidate(b);
    lemma_decimal_injective(a, b);
}

/// More candidates than names: one of them is free.
proof fn lemma_free_candidate(keys: Set<Seq<char>>, lo: nat, n: nat)
    requires
        keys.finite(),
        n > keys.len(),
    ensures
        exists|i: nat| lo <= i < lo + n && !keys.contains(#[trigger] user_candidate(i)),
    decreases n,
{
    if forall|i: nat| lo <= i < lo + n ==> keys.contains(#[trigger] user_candidate(i)) {
        let m = (lo + n - 1) as nat;
        assert(keys.contains(user_candidate(m)));
        let k2 = keys.remove(user_candidate(m));
        assert(k2.len() == keys.len() - 1);
        if n >= 2 {
            lemma_free_candidate(k2, lo, (n - 1) as nat);
            let i = choose|i: nat| lo <= i < lo + (n - 1) && !k2.contains(#[trigger] user_candidate(i));
            if user_candidate(i) == user_candidate(m) {
                lemma_candidates_distinct(i, m);
            }
            assert(keys.contains(user_candidate(i)));
        }
    }
}

/// The first name `user<n>`, for `n` from `init_count` on, whose normalized
/// form nobody has. One is always found while `init_count` plus the number
/// of names stays below `u64::MAX`.
pub fn gen_name(init_count: u64, s: &Server) -> (r: Option<String>)
    requires
        s.wf(),
    ensures
        r matches Some(name) ==> exists|n: u64| {
            &&& n >= init_count
            &&& name@ == #[trigger] user_candidate(n as nat)
            &&& !s.users_by_name().contains_key(name@)
            &&& forall|j: nat| init_count <= j < n ==> s.users_by_name().contains_key(#[trigger] user_candidate(j))
        },
        init_count as int + s.users_by_name().dom().len() < u64::MAX ==> r is Some,
{
    let count = s.user_name_count();
    let mut n = init_count;
    loop
        invariant
            s.wf(),
            n >= init_count,
            s.users_by_name().dom().finite(),
            forall|j: nat| init_count <= j < n ==> s.users_by_name().contains_key(#[trigger] user_candidate(j)),
        decreases u64::MAX - n,
    {
        let d = decimal_string(n);
        let name = cat2("user", d.as_str());
        proof {
            lemma_candidate(n as nat);
        }
        let c = ascollapse(name.as_str());
        if s.user_id_named(c.as_str()).is_none() {
            return Some(name);
        }
        if n == u64::MAX {
            proof {
                let keys = s.users_by_name().dom();
                if init_count as int + keys.len() < u64::MAX {
                    lemma_free_candidate(keys, init_count as nat, (u64::MAX - init_count + 1) as nat);
                }
            }
            return None;
        }
        n = n + 1;
    }
}

/// The first message a new connection sends must be `Name`: the user takes
/// that name as it is. Anything else, or a failure to read one, gets the
/// user a `Logout` with the reason; the result says whether it passed.
pub fn initial_negotiation(u: &mut User, first: Result<Rcvr, String>) -> (r: bool)
    requires
        old(u).wf(),
    ensures
        final(u).wf(),
        r <==> first matches Ok(Rcvr::Name(_)),
        first matches Ok(Rcvr::Name(n)) ==> final(u).name() == n@,
        first matches Ok(m) && !(m is Name) ==> final(u).outgoing() == old(u).outgoing() + sndr_json(
            Sndr::Logout("Protocol error: Initial message should be of type \"Name\"."),
        ),
        first matches Err(e) ==> final(u).outgoing() == old(u).outgoing() + crate::json::json_obj1(
            "Logout"@,
            crate::json::json_str("Error reading initial \"Name\" message: "@ + e@),
        ),
{
    match first {
        Err(e) => {
            let t = cat2("Error reading initial \"Name\" message: ", e.as_str());
            u.logout(t.as_str());
            false
        },
        Ok(Rcvr::Name(new_name)) => {
            u.set_name(new_name.as_str());
            true
        },
        Ok(_) => {
            u.logout("Protocol error: Initial message should be of type \"Name\".");
            false
        },
    }
}

/// What handling a message does: the clauses of the handler for its kind.
pub open spec fn dispatch_post(a: Server, b: Server, rid: u64, uid: u64, msg: Rcvr, c: ServerConfig, r: Seq<
    (End, End, Seq<u8>),
>) -> bool {
    &&& msg is Text ==> r.len() == 1 && r[0].0 == End::User(uid) && r[0].1 == End::Room(rid)
        && b.users_by_id() == a.users_by_id() && b.rooms_by_id() == a.rooms_by_id()
    &&& (msg is Ping || msg is Info || msg is Error || msg is Misc) ==> r.len() == 0
        && b.users_by_id() == a.users_by_id() && b.rooms_by_id() == a.rooms_by_id()
    &&& msg is Logout ==> b.users_by_id() == a.users_by_id().remove(uid)
        && b.location() == a.location().remove(uid)
    &&& msg is Name ==> {
        let n = msg->Name_0;
        let ok = crate::handlers::name_allowed(a, uid, n@, c.max_user_name_length);
        &&& ok ==> b.users_by_id()[uid].name() == n@ && b.users_by_name() == a.users_by_name().remove(
            a.users_by_id()[uid].idstr(),
        ).insert(normalize(n@), uid)
        &&& !ok ==> b.users_by_id() == a.users_by_id() && b.users_by_name() == a.users_by_name()
    }
    &&& msg is Join ==> {
        let n = msg->Join_0;
        let t = a.rooms_by_name()[normalize(n@)];
        crate::handlers::room_name_ok(n@, c.max_room_name_length) && a.rooms_by_name().contains_key(
            normalize(n@),
        ) && crate::handlers::may_enter(a, uid, t) ==> crate::handlers::moved_post(a, b, uid, t, r)
    }
    &&& (msg is Op && rid != 0 && a.rooms_by_id()[rid].op() == uid) ==> match msg->Op_0 {
        RcvOp::Open => crate::handlers::open_close_post(a, b, rid, uid, false, r),
        RcvOp::Close => crate::handlers::open_close_post(a, b, rid, uid, true, r),
        RcvOp::Give(n) => crate::handlers::give_post(a, b, rid, uid, n@, r),
        RcvOp::Invite(n) => crate::handlers::invite_post(a, b, rid, uid, n@, r),
        RcvOp::Kick(n) => crate::handlers::kick_post(a, b, rid, uid, n@, r),
    }
    &&& (msg is Block && crate::handlers::other_user(a, uid, msg->Block_0@)) ==> b.users_by_id()[uid].blocks()
        == crate::user::with_blocked(a.users_by_id()[uid].blocks(), crate::handlers::target_of(a, msg->Block_0@))
    &&& (msg is Unblock && crate::handlers::other_user(a, uid, msg->Unblock_0@)) ==> b.users_by_id()[uid].blocks()
        == crate::user::without_blocked(a.users_by_id()[uid].blocks(), crate::handlers::target_of(a, msg->Unblock_0@))
}

/// The state just before a message that was not dropped is handled: the
/// quota drained and counted, the timer reset, the "may send again" notice
/// and, if this message put the user over the limit, the throttling notice.
pub open spec fn handled_pre(a: Server, m: Server, uid: u64, msg: Rcvr, n: usize, now: u64, c: ServerConfig) -> bool {
    let u = a.users_by_id()[uid];
    let q1 = drained(u.quota(), c.byte_tick as nat);
    let rel = u.quota() > c.byte_limit && q1 <= c.byte_limit;
    let q2 = counted(q1, crate::proto::is_noisy(msg), n as nat);
    &&& m.wf()
    &&& m.same_but_user(&a, uid)
    &&& m.users_by_id()[uid].quota() == q2
    &&& m.users_by_id()[uid].last_time() == now
    &&& m.users_by_id()[uid].name() == u.name()
    &&& m.users_by_id()[uid].outgoing() == u.outgoing() + relief_bytes(rel) + if q2 > c.byte_limit {
        crate::handlers::err_json(
            "You have exceeded your data quota and your messages will be ignored for a short time."@,
        )
    } else {
        Seq::empty()
    }
}

/// One member's turn, as `member_turn` takes it.
pub open spec fn turn_post(a: Server, b: Server, rid: u64, uid: u64, inp: Intake, now: u64, c: ServerConfig, t: Turn, es: Seq<
    (End, End, Seq<u8>),
>) -> bool {
    &&& t != Turn::Handled ==> es.len() == 0
    &&& !a.users_by_id().contains_key(uid) ==> t == Turn::Absent
            && b.users_by_id() == a.users_by_id()
    &&& a.users_by_id().contains_key(uid) && a.users_by_id()[uid].n_errors() > 0
            ==> t == Turn::Broken && b.users_by_id() == a.users_by_id()
    &&& a.users_by_id().contains_key(uid) && a.users_by_id()[uid].n_errors() == 0 ==> {
            let u = a.users_by_id()[uid];
            let over = u.quota() > c.byte_limit;
            let q1 = drained(u.quota(), c.byte_tick as nat);
            let rel = over && q1 <= c.byte_limit;
            &&& inp is Nothing ==> {
                let idle = idle_spec(now, u.last_time(), c.blackout_time_to_ping, c.blackout_time_to_kick);
                &&& t == (if idle == Idle::Kick {
                    Turn::Kick
                } else if idle == Idle::Ping {
                    Turn::Ping
                } else {
                    Turn::Quiet
                })
                &&& b.same_but_user(&a, uid)
                &&& b.users_by_id()[uid].quota() == q1
                &&& b.users_by_id()[uid].last_time() == u.last_time()
                &&& b.users_by_id()[uid].outgoing() == u.outgoing() + relief_bytes(rel) + (
                if idle == Idle::Ping {
                    sndr_json(Sndr::Ping)
                } else {
                    Seq::empty()
                })
            }
            &&& inp is Message && over ==> {
                &&& t == Turn::Dropped
                &&& b.same_but_user(&a, uid)
                &&& b.users_by_id()[uid].quota() == counted(q1, crate::proto::is_noisy(inp->Message_0), inp->Message_1 as nat)
                &&& b.users_by_id()[uid].last_time() == now
                &&& b.users_by_id()[uid].outgoing() == u.outgoing() + relief_bytes(rel)
            }
            &&& inp is Message && !over ==> t == Turn::Handled && exists|m: Server| #[trigger] handled_pre(
            a,
            m,
            uid,
            inp->Message_0,
            inp->Message_1,
            now,
            c,
        ) && dispatch_post(m, b, rid, uid, inp->Message_0, c, es)
        }
}

/// The ids of the turns that came out as `t`, in order.
pub open spec fn ids_with(ts: Seq<(u64, Turn)>, t: Turn) -> Seq<u64>
    decreases ts.len(),
{
    if ts.len() == 0 {
        Seq::empty()
    } else if ts.last().1 == t {
        ids_with(ts.drop_last(), t).push(ts.last().0)
    } else {
        ids_with(ts.drop_last(), t)
    }
}

/// Runs of envelopes one after another.
pub open spec fn flatten(es: Seq<Seq<(End, End, Seq<u8>)>>) -> Seq<(End, End, Seq<u8>)>
    decreases es.len(),
{
    if es.len() == 0 {
        Seq::empty()
    } else {
        flatten(es.drop_last()) + es.last()
    }
}

/// Why a user is logged out by the server: the pile of connection errors,
/// or silence.
pub open spec fn logout_reason(u: User, broken: bool) -> Seq<char> {
    if broken {
        "UserError: "@ + (decimal(u.n_errors() as u64 as nat) + " Underlying socket error(s):"@
            + crate::user::error_lines(u.errors()))
    } else {
        "Too long since the server received data from the client."@
    }
}

/// A user logged out by the server: out of every table, its last bytes
/// (ending with the `Logout`) kept among the departures, and the leave
/// notice for its room.
pub open spec fn force_logout_post(a: Server, b: Server, uid: u64, reason: Seq<char>, e: (End, End, Seq<u8>)) -> bool {
    let cur = a.location()[uid];
    let u = a.users_by_id()[uid];
    &&& b.users_by_id() == a.users_by_id().remove(uid)
    &&& b.users_by_name() == a.users_by_name().remove(u.idstr())
    &&& b.location() == a.location().remove(uid)
    &&& b.rooms_by_name() == a.rooms_by_name()
    &&& b.rooms_by_id().dom() == a.rooms_by_id().dom()
    &&& b.rooms_by_id()[cur].members() == without_id(a.rooms_by_id()[cur].members(), uid)
    &&& b.rooms_by_id()[cur].op() == a.rooms_by_id()[cur].op()
    &&& b.rooms_by_id()[cur].inbox() == a.rooms_by_id()[cur].inbox()
    &&& forall|k: u64| #[trigger] a.rooms_by_id().contains_key(k) && k != cur ==> b.rooms_by_id()[k] == a.rooms_by_id()[k]
    &&& b.departures().len() == a.departures().len() + 1
    &&& b.departures().drop_last() == a.departures()
    &&& b.departures().last().id() == uid
    &&& b.departures().last().outgoing() == u.outgoing() + crate::json::json_obj1(
        "Logout"@,
        crate::json::json_str(reason),
    )
    &&& e == (End::Server, End::Room(cur), crate::handlers::misc_json(
        "leave"@,
        seq![u.name(), "[ disconnected by server ]"@],
        u.name() + " has been disconnected from the server."@,
    ))
}

/// One step of the logouts: a user still there is logged out; one already
/// gone is passed over.
pub open spec fn logout_step(a: Server, b: Server, uid: u64, broken: bool, es: Seq<(End, End, Seq<u8>)>) -> bool {
    if a.users_by_id().contains_key(uid) {
        es.len() == 1 && force_logout_post(a, b, uid, logout_reason(a.users_by_id()[uid], broken), es[0])
    } else {
        b == a && es.len() == 0
    }
}

/// The logouts of `ids`, one after another, through the states `ss`.
pub open spec fn logout_chain(ss: Seq<Server>, ids: Seq<u64>, broken: bool, es: Seq<Seq<(End, End, Seq<u8>)>>) -> bool {
    &&& ss.len() == ids.len() + 1
    &&& es.len() == ids.len()
    &&& forall|j: int| 0 <= j < ids.len() ==> #[trigger] logout_step(ss[j], ss[j + 1], ids[j], broken, es[j])
}

/// The members' turns, one after another, through the states `ss`.
pub open spec fn turns_chain(
    ss: Seq<Server>,
    rid: u64,
    intake: Seq<(u64, Intake)>,
    now: u64,
    c: ServerConfig,
    turns: Seq<(u64, Turn)>,
    es: Seq<Seq<(End, End, Seq<u8>)>>,
) -> bool {
    &&& ss.len() == intake.len() + 1
    &&& turns.len() == intake.len()
    &&& es.len() == intake.len()
    &&& forall|j: int| 0 <= j < intake.len() ==> (#[trigger] turns[j]).0 == intake[j].0
        && turn_post(ss[j], ss[j + 1], rid, intake[j].0, intake[j].1, now, c, turns[j].1, es[j])
}

/// Operator promotion, as `promote_operator` does it.
pub open spec fn promote_post(a: Server, b: Server, rid: u64, pe: Seq<(End, End, Seq<u8>)>) -> bool {
    let room = a.rooms_by_id()[rid];
    let due = rid != 0 && !room.members().contains(room.op()) && room.members().len() > 0;
    &&& due ==> b.same_but_room(&a, rid) && b.rooms_by_id()[rid].op() == room.members()[0]
        && b.rooms_by_id()[rid].members() == room.members() && b.rooms_by_id()[rid].inbox() == room.inbox()
        && pe == seq![(End::Server, End::Room(rid), crate::handlers::info_json(
        a.users_by_id()[room.members()[0]].name() + " is now the Room operator."@,
    ))]
    &&& !due ==> b == a && pe.len() == 0
}

/// Delivery of room `rid`'s inbox and then of `p`, as `deliver_room` does it.
pub open spec fn deliver_post(a: Server, b: Server, rid: u64, p: Seq<(End, End, Seq<u8>)>) -> bool {
    &&& b.users_by_id().dom() == a.users_by_id().dom()
    &&& b.rooms_by_id().dom() == a.rooms_by_id().dom()
    &&& b.rooms_by_id()[rid].members() == a.rooms_by_id()[rid].members()
    &&& b.rooms_by_id()[rid].op() == a.rooms_by_id()[rid].op()
    &&& b.rooms_by_id()[rid].inbox().len() == 0
    &&& delivered(
        a.users_by_id(),
        b.users_by_id(),
        |u: User|
            bytes_for(u, a.rooms_by_id()[rid].members(), a.rooms_by_id()[rid].inbox())
                + bytes_for(u, a.rooms_by_id()[rid].members(), routed_here(p, rid)),
    )
}

/// The whole tick of room `rid`, through its phases: the members' turns
/// (states `ts`), the logouts of silent users (`ls`), then of users with
/// connection errors (`bs`), operator promotion (to `s3`), and delivery of
/// the inbox followed by every envelope produced, in the order produced.
pub open spec fn tick_trace(
    a: Server,
    b: Server,
    rid: u64,
    intake: Seq<(u64, Intake)>,
    now: u64,
    c: ServerConfig,
    turns: Seq<(u64, Turn)>,
    ts: Seq<Server>,
    te: Seq<Seq<(End, End, Seq<u8>)>>,
    ls: Seq<Server>,
    le: Seq<Seq<(End, End, Seq<u8>)>>,
    bs: Seq<Server>,
    be: Seq<Seq<(End, End, Seq<u8>)>>,
    s3: Server,
    pe: Seq<(End, End, Seq<u8>)>,
) -> bool {
    &&& turns_chain(ts, rid, intake, now, c, turns, te)
    &&& ts[0] == a
    &&& logout_chain(ls, ids_with(turns, Turn::Kick), false, le)
    &&& ls[0] == ts.last()
    &&& logout_chain(bs, ids_with(turns, Turn::Broken), true, be)
    &&& bs[0] == ls.last()
    &&& promote_post(bs.last(), s3, rid, pe)
    &&& deliver_post(s3, b, rid, flatten(te) + flatten(le) + flatten(be) + pe)
}

/// The tick of room `rid` took `a` to `b` through some run of states that
/// `tick_trace` describes.
pub open spec fn tick_done(
    a: Server,
    b: Server,
    rid: u64,
    intake: Seq<(u64, Intake)>,
    now: u64,
    c: ServerConfig,
    turns: Seq<(u64, Turn)>,
) -> bool {
    exists|
        ts: Seq<Server>,
        te: Seq<Seq<(End, End, Seq<u8>)>>,
        ls: Seq<Server>,
        le: Seq<Seq<(End, End, Seq<u8>)>>,
        bs: Seq<Server>,
        be: Seq<Seq<(End, End, Seq<u8>)>>,
        s3: Server,
        pe: Seq<(End, End, Seq<u8>)>,
    | #[trigger] tick_trace(a, b, rid, intake, now, c, turns, ts, te, ls, le, bs, be, s3, pe)
}

impl Server {
    /// Hands a message to the handler for its kind. Kinds a client has no
    /// business sending get no response.
    pub fn dispatch(&mut self, rid: u64, uid: u64, msg: Rcvr, cfg: &ServerConfig) -> (r: Vec<Env>)
        requires
            old(self).wf(),
            old(self).users_by_id().contains_key(uid),
            old(self).rooms_by_id().contains_key(rid),
        ensures
            final(self).wf(),
            final(self).users_by_id().dom().subset_of(old(self).users_by_id().dom()),
            old(self).rooms_by_id().dom().subset_of(final(self).rooms_by_id().dom()),
            dispatch_post(*old(self), *final(self), rid, uid, msg, *cfg, crate::handlers::envs_of(r@)),
    {
        match msg {
            Rcvr::Text { who: _, lines } => self.do_text(rid, uid, lines),
            Rcvr::Priv { who, text } => self.do_priv(rid, uid, who, text),
            Rcvr::Name(n) => self.do_name(rid, uid, n, cfg.max_user_name_length),
            Rcvr::Join(n) => self.do_join(rid, uid, n, cfg.max_room_name_length),
            Rcvr::Block(n) => self.do_block(rid, uid, n),
            Rcvr::Unblock(n) => self.do_unblock(rid, uid, n),
            Rcvr::Logout(s) => self.do_logout(rid, uid, s),
            Rcvr::Query { what, arg } => self.do_query(rid, uid, what, arg),
            Rcvr::Op(op) => self.do_op(rid, uid, op),
            _ => Vec::new(),
        }
    }

    /// One member's turn: its quota drains; a user that was over the limit
    /// and is now under it is told so. With nothing read, a user silent too
    /// long is marked for logout and one silent for a while is pinged. A
    /// message resets the idle timer and, if noisy, counts against the
    /// quota; it is dropped if the user was over the limit, and otherwise
    /// handled (with a warning first if this message put the user over).
    /// A user with connection errors is marked for logout.
    pub fn member_turn(&mut self, rid: u64, uid: u64, inp: Intake, now: u64, cfg: &ServerConfig) -> (r: (Turn, Vec<Env>))
        requires
            old(self).wf(),
            old(self).rooms_by_id().contains_key(rid),
        ensures
            final(self).wf(),
            final(self).users_by_id().dom().subset_of(old(self).users_by_id().dom()),
            old(self).rooms_by_id().dom().subset_of(final(self).rooms_by_id().dom()),
            turn_post(*old(self), *final(self), rid, uid, inp, now, *cfg, r.0, crate::handlers::envs_of(r.1@)),
    {
        let mut none: Vec<Env> = Vec::new();
        if !self.has_user(uid) {
            return (Turn::Absent, none);
        }
        if self.user_ref(uid).has_errors() {
            return (Turn::Broken, none);
        }
        let ghost a = *self;
        let (over_quota, _, relieved) = quota_turn(
            self.user_ref(uid).get_byte_quota(),
            cfg.byte_limit,
            cfg.byte_tick,
        );
        self.drain_quota(uid, cfg.byte_tick);
        if relieved {
            self.deliver_msg_to(uid, &Sndr::Error("You may send messages again."));
        }
        let ghost b = *self;
        proof {
            assert(b.users_by_id()[uid].outgoing() =~= a.users_by_id()[uid].outgoing() + relief_bytes(relieved));
        }
        match inp {
            Intake::Nothing => {
                let last = self.user_ref(uid).get_last_data_time();
                match idle_check(now, last, cfg.blackout_time_to_ping, cfg.blackout_time_to_kick) {
                    Idle::Kick => (Turn::Kick, none),
                    Idle::Ping => {
                        self.deliver_msg_to(uid, &Sndr::Ping);
                        (Turn::Ping, none)
                    },
                    Idle::Fine => {
                        assert(self.users_by_id()[uid].outgoing() =~= a.users_by_id()[uid].outgoing() + relief_bytes(relieved) + Seq::empty());
                        (Turn::Quiet, none)
                    },
                }
            },
            Intake::Message(msg, n) => {
                self.heard_from(uid, msg.counts(), n, now);
                if over_quota {
                    return (Turn::Dropped, none);
                }
                if self.user_ref(uid).get_byte_quota() > cfg.byte_limit {
                    self.deliver_msg_to(
                        uid,
                        &Sndr::Error(
                            "You have exceeded your data quota and your messages will be ignored for a short time.",
                        ),
                    );
                }
                let ghost m = *self;
                proof {
                    assert(handled_pre(a, m, uid, msg, n, now, *cfg));
                }
                let v = self.dispatch(rid, uid, msg, cfg);
                (Turn::Handled, v)
            },
        }
    }

    /// Logs a user out on the server's initiative, with `reason`, and
    /// returns the notice for its room.
    #[verifier::rlimit(100)]
    fn force_logout(&mut self, uid: u64, reason: &str) -> (r: Env)
        requires
            old(self).wf(),
            old(self).users_by_id().contains_key(uid),
        ensures
            final(self).wf(),
            final(self).users_by_id() == old(self).users_by_id().remove(uid),
            final(self).rooms_by_id().dom() == old(self).rooms_by_id().dom(),
            r@.1 == End::Room(old(self).location()[uid]),
            force_logout_post(*old(self), *final(self), uid, reason@, r@),
    {
        let ghost a = *self;
        let cur = self.room_of(uid);
        let mut u = self.remove_user(uid);
        let ghost b1 = *self;
        u.logout(reason);
        let ghost lu = u;
        let name = u.get_name().to_owned();
        self.push_departed(u);
        let data = pair(name.as_str(), "[ disconnected by server ]");
        let alt = cat2(name.as_str(), " has been disconnected from the server.");
        let e = misc_env(End::Room(cur), "leave", &data, alt.as_str());
        proof {
            let b = *self;
            assert(b.departures() == a.departures().push(lu));
            assert(b.departures().drop_last() =~= a.departures());
            assert(lu.outgoing() == a.users_by_id()[uid].outgoing() + crate::json::json_obj1(
                "Logout"@,
                crate::json::json_str(reason@),
            ));
            assert(name@ == a.users_by_id()[uid].name());
            assert(b.rooms_by_id() == b1.rooms_by_id());
        }
        e
    }

    /// One tick of room `rid`. `intake` holds, for each member at the start
    /// of the tick, what was read from it. In order: each member takes its
    /// turn (see `member_turn`); users silent too long, then users with
    /// connection errors, are logged out; a room whose operator left gets
    /// its first member as operator; then the inbox and the envelopes
    /// produced, in the order produced, are delivered. Each member's turn is
    /// reported in intake order; `None` if there is no such room.
    #[verifier::rlimit(100)]
    pub fn process_room(
        &mut self,
        rid: u64,
        now: u64,
        intake: Vec<(u64, Intake)>,
        cfg: &ServerConfig,
    ) -> (r: Option<Vec<(u64, Turn)>>)
        requires
            old(self).wf(),
        ensures
            final(self).wf(),
            r is Some == old(self).rooms_by_id().contains_key(rid),
            r is None ==> *final(self) == *old(self),
            r matches Some(turns) ==> tick_done(*old(self), *final(self), rid, intake@, now, *cfg, turns@),
            r is Some ==> final(self).rooms_by_id().contains_key(rid)
                && final(self).rooms_by_id()[rid].inbox().len() == 0,
            r is Some && rid != 0 && final(self).rooms_by_id()[rid].members().len() > 0
                ==> final(self).rooms_by_id()[rid].members().contains(final(self).rooms_by_id()[rid].op()),
    {
        if !self.has_room(rid) {
            return None;
        }
        let ghost start = *self;
        let mut envz: Vec<Env> = Vec::new();
        let mut logouts: Vec<u64> = Vec::new();
        let mut broken: Vec<u64> = Vec::new();
        let ghost orig = intake@;
        let mut queue = intake;
        let mut turns: Vec<(u64, Turn)> = Vec::new();
        let ghost mut ts: Seq<Server> = seq![*self];
        let ghost mut te: Seq<Seq<(End, End, Seq<u8>)>> = Seq::empty();
        while queue.len() > 0
            invariant
                self.wf(),
                self.rooms_by_id().contains_key(rid),
                turns@.len() + queue@.len() == orig.len(),
                queue@ == orig.skip(turns@.len() as int),
                ts.len() == turns@.len() + 1,
                ts[0] == start,
                ts.last() == *self,
                te.len() == turns@.len(),
                crate::handlers::envs_of(envz@) == flatten(te),
                logouts@ == ids_with(turns@, Turn::Kick),
                broken@ == ids_with(turns@, Turn::Broken),
                forall|j: int| 0 <= j < turns@.len() ==> (#[trigger] turns@[j]).0 == orig[j].0
                    && turn_post(ts[j], ts[j + 1], rid, orig[j].0, orig[j].1, now, *cfg, turns@[j].1, te[j]),
            decreases queue@.len(),
        {
            let ghost k = turns@.len() as int;
            let ghost pre = queue@;
            let ghost prev = *self;
            let ghost ez = crate::handlers::envs_of(envz@);
            let ghost tu = turns@;
            let (uid, inp) = queue.remove(0);
            proof {
                assert(pre[0] == orig[k]);
                assert(queue@ =~= orig.skip(k + 1));
            }
            let (t, mut v) = self.member_turn(rid, uid, inp, now, cfg);
            let ghost ve = crate::handlers::envs_of(v@);
            if t == Turn::Kick {
                logouts.push(uid);
            } else if t == Turn::Broken {
                broken.push(uid);
            }
            envz.append(&mut v);
            turns.push((uid, t));
            proof {
                let te0 = te;
                ts = ts.push(*self);
                te = te.push(ve);
                assert(crate::handlers::envs_of(envz@) =~= ez + ve);
                assert(te.drop_last() =~= te0);
                assert(flatten(te) == flatten(te0) + ve);
                assert(turns@.drop_last() =~= tu);
                assert forall|j: int| 0 <= j < turns@.len() implies (#[trigger] turns@[j]).0 == orig[j].0
                    && turn_post(ts[j], ts[j + 1], rid, orig[j].0, orig[j].1, now, *cfg, turns@[j].1, te[j]) by {
                    if j < k {
                        assert(turns@[j] == tu[j]);
                    }
                }
            }
        }
        let ghost s1 = *self;
        let ghost mut ls: Seq<Server> = seq![*self];
        let ghost mut le: Seq<Seq<(End, End, Seq<u8>)>> = Seq::empty();
        let mut i: usize = 0;
        while i < logouts.len()
            invariant
                self.wf(),
                self.rooms_by_id().contains_key(rid),
                i <= logouts@.len(),
                ls.len() == i + 1,
                ls[0] == s1,
                ls.last() == *self,
                le.len() == i,
                crate::handlers::envs_of(envz@) == flatten(te) + flatten(le),
                forall|j: int| 0 <= j < i ==> #[trigger] logout_step(ls[j], ls[j + 1], logouts@[j], false, le[j]),
            decreases logouts@.len() - i,
        {
            let uid = logouts[i];
            let ghost prev = *self;
            let ghost ez = crate::handlers::envs_of(envz@);
            let ghost step: Seq<(End, End, Seq<u8>)>;
            if self.has_user(uid) {
                let e = self.force_logout(uid, "Too long since the server received data from the client.");
                proof {
                    step = seq![e@];
                }
                envz.push(e);
                assert(crate::handlers::envs_of(envz@) =~= ez + step);
            } else {
                proof {
                    step = Seq::empty();
                }
                assert(ez + step =~= ez);
            }
            proof {
                ls = ls.push(*self);
                let x0 = le;
                le = le.push(step);
                assert(le.drop_last() =~= x0);
                assert(flatten(le) == flatten(x0) + step);
                assert(logout_step(prev, *self, uid, false, step));
                assert(crate::handlers::envs_of(envz@) =~= flatten(te) + flatten(le));
                assert forall|j: int| 0 <= j < i + 1 implies #[trigger] logout_step(ls[j], ls[j + 1], logouts@[j], false, le[j]) by {}
            }
            i = i + 1;
        }
        let ghost s2 = *self;
        let ghost mut bs: Seq<Server> = seq![*self];
        let ghost mut be: Seq<Seq<(End, End, Seq<u8>)>> = Seq::empty();
        let mut i: usize = 0;
        while i < broken.len()
            invariant
                self.wf(),
                self.rooms_by_id().contains_key(rid),
                i <= broken@.len(),
                bs.len() == i + 1,
                bs[0] == s2,
                bs.last() == *self,
                be.len() == i,
                crate::handlers::envs_of(envz@) == flatten(te) + flatten(le) + flatten(be),
                forall|j: int| 0 <= j < i ==> #[trigger] logout_step(bs[j], bs[j + 1], broken@[j], true, be[j]),
            decreases broken@.len() - i,
        {
            let uid = broken[i];
            let ghost prev = *self;
            let ghost ez = crate::handlers::envs_of(envz@);
            let ghost step: Seq<(End, End, Seq<u8>)>;
            if self.has_user(uid) {
                let d = self.user_ref(uid).get_errors().describe();
                let e = self.force_logout(uid, d.as_str());
                proof {
                    step = seq![e@];
                }
                envz.push(e);
                assert(crate::handlers::envs_of(envz@) =~= ez + step);
            } else {
                proof {
                    step = Seq::empty();
                }
                assert(ez + step =~= ez);
            }
            proof {
                bs = bs.push(*self);
                let x0 = be;
                be = be.push(step);
                assert(be.drop_last() =~= x0);
                assert(flatten(be) == flatten(x0) + step);
                assert(logout_step(prev, *self, uid, true, step));
                assert(crate::handlers::envs_of(envz@) =~= flatten(te) + flatten(le) + flatten(be));
                assert forall|j: int| 0 <= j < i + 1 implies #[trigger] logout_step(bs[j], bs[j + 1], broken@[j], true, be[j]) by {}
            }
            i = i + 1;
        }
        let ghost ez = crate::handlers::envs_of(envz@);
        let promoted = self.promote_operator(rid);
        let ghost pe: Seq<(End, End, Seq<u8>)> = if promoted is Some {
            seq![promoted->Some_0@]
        } else {
            Seq::empty()
        };
        match promoted {
            Some(e) => {
                envz.push(e);
                assert(crate::handlers::envs_of(envz@) =~= ez + pe);
            },
            None => {
                assert(ez + pe =~= ez);
            },
        }
        let ghost s3 = *self;
        let ghost p = crate::handlers::envs_of(envz@);
        self.deliver_room(rid, envz);
        proof {
            assert(deliver_post(s3, *self, rid, p));
            assert(start == *old(self));
            assert(orig == intake@);
            assert(tick_trace(*old(self), *self, rid, intake@, now, *cfg, turns@, ts, te, ls, le, bs, be, s3, pe));
            assert(tick_done(*old(self), *self, rid, intake@, now, *cfg, turns@));
        }
        Some(turns)
    }

    /// Outside the lobby, a room whose operator is no longer a member gets
    /// its first member as operator, and the room is told.
    pub fn promote_operator(&mut self, rid: u64) -> (r: Option<Env>)
        requires
            old(self).wf(),
            old(self).rooms_by_id().contains_key(rid),
        ensures
            final(self).wf(),
            ({
                let room = old(self).rooms_by_id()[rid];
                let due = rid != 0 && !room.members().contains(room.op()) && room.members().len() > 0;
                &&& due ==> final(self).same_but_room(old(self), rid)
                    && final(self).rooms_by_id()[rid].op() == room.members()[0]
                    && r is Some && r->Some_0@ == (End::Server, End::Room(rid), crate::handlers::info_json(
                    old(self).users_by_id()[room.members()[0]].name() + " is now the Room operator."@,
                ))
                &&& !due ==> final(self).rooms_by_id() == old(self).rooms_by_id() && r is None
                    && final(self).users_by_id() == old(self).users_by_id()
                    && final(self).location() == old(self).location()
            }),
            final(self).users_by_id() == old(self).users_by_id(),
            final(self).location() == old(self).location(),
            final(self).rooms_by_id().dom() == old(self).rooms_by_id().dom(),
            final(self).rooms_by_id()[rid].members() == old(self).rooms_by_id()[rid].members(),
            rid != 0 && final(self).rooms_by_id()[rid].members().len() > 0 ==> final(self).rooms_by_id()[rid].members().contains(final(self).rooms_by_id()[rid].op()),
            promote_post(*old(self), *final(self), rid, match r {
                Some(e) => seq![e@],
                None => Seq::empty(),
            }),
    {
        if rid == 0 {
            return None;
        }
        let op_id = self.room_ref(rid).get_op();
        if self.room_ref(rid).has_member(op_id) || self.room_ref(rid).get_users().len() == 0 {
            return None;
        }
        let first = self.room_ref(rid).get_users()[0];
        assert(self.rooms_by_id()[rid].members().contains(first));
        let name = self.user_ref(first).get_name().to_owned();
        self.room_set_op(rid, first);
        let t = cat2(name.as_str(), " is now the Room operator.");
        Some(info_env(End::Room(rid), t.as_str()))
    }

    /// Whether a newcomer's name must be replaced: its normalized form is
    /// empty, it is longer than allowed, or another user has that
    /// normalized name.
    pub open spec fn needs_new_name(&self, u: User, max_len: usize) -> bool {
        u.idstr().len() == 0 || crate::handlers::byte_len(u.name()) > max_len
            || self.users_by_name().contains_key(u.idstr())
    }

    /// Gives a newcomer a generated name if its own cannot be used, telling
    /// it why; false if no free name was found.
    fn settle_name(&self, u: &mut User, cfg: &ServerConfig) -> (r: bool)
        requires
            self.wf(),
            old(u).wf(),
        ensures
            final(u).wf(),
            final(u).id() == old(u).id(),
            final(u).quota() == old(u).quota(),
            final(u).last_time() == old(u).last_time(),
            final(u).n_errors() == old(u).n_errors(),
            !self.needs_new_name(*old(u), cfg.max_user_name_length) ==> r && *final(u) == *old(u),
            self.needs_new_name(*old(u), cfg.max_user_name_length) && r ==> exists|n: u64| {
                &&& n >= old(u).id()
                &&& final(u).name() == #[trigger] user_candidate(n as nat)
                &&& !self.users_by_name().contains_key(final(u).idstr())
            },
            self.needs_new_name(*old(u), cfg.max_user_name_length) && old(u).id() as int
                + self.users_by_name().dom().len() < u64::MAX ==> r,
            !self.users_by_name().contains_key(final(u).idstr()) || !r,
    {
        let err_msg = if u.get_idstr().unicode_len() == 0 {
            "Your name does not have enough whitespace characters.".to_owned()
        } else if u.get_name().len() > cfg.max_user_name_length {
            let d = decimal_string(cfg.max_user_name_length as u64);
            cat3("Your name cannot be longer than ", d.as_str(), " bytes.")
        } else {
            match self.user_id_named(u.get_idstr()) {
                Some(other) => {
                    let oname = self.user_ref(other).get_name().to_owned();
                    cat3("Name \"", oname.as_str(), "\" exists.")
                },
                None => {
                    return true;
                },
            }
        };
        let new_name = match gen_name(u.get_id(), self) {
            Some(n) => n,
            None => {
                return false;
            },
        };
        proof {
            let n = choose|n: u64| n >= old(u).id() && new_name@ == #[trigger] user_candidate(n as nat)
                && !self.users_by_name().contains_key(new_name@) && forall|j: nat|
                old(u).id() <= j < n ==> self.users_by_name().contains_key(#[trigger] user_candidate(j));
            lemma_candidate(n as nat);
        }
        u.deliver_msg(&Sndr::Error(err_msg.as_str()));
        let old_name = u.get_name().to_owned();
        let data = pair(old_name.as_str(), new_name.as_str());
        let refs = crate::handlers::str_refs(&data);
        let alt = cat3("You are now known as \"", new_name.as_str(), "\".");
        u.set_name(new_name.as_str());
        u.deliver_msg(&Sndr::Misc { what: "name", data: refs.as_slice(), alt: alt.as_str() });
        true
    }

    /// Takes in a user who passed the handshake: it is welcomed, renamed to a
    /// generated `user<n>` if its name is empty once normalized, too long, or
    /// taken, announced in the lobby and placed there. A user for whom no
    /// free name was found is turned away (kept among the departures).
    #[verifier::rlimit(60)]
    pub fn accept_user(&mut self, u: User, cfg: &ServerConfig) -> (r: bool)
        requires
            old(self).wf(),
            u.wf(),
            u.id() != 0,
            !old(self).users_by_id().contains_key(u.id()),
        ensures
            final(self).wf(),
            u.id() as int + old(self).users_by_name().dom().len() < u64::MAX ==> r,
            r ==> {
                let nu = final(self).users_by_id()[u.id()];
                &&& final(self).users_by_id().dom() == old(self).users_by_id().dom().insert(u.id())
                &&& final(self).location()[u.id()] == 0
                &&& final(self).rooms_by_id()[0].members() == old(self).rooms_by_id()[0].members().push(u.id())
                &&& !old(self).needs_new_name(u, cfg.max_user_name_length) ==> nu.name() == u.name()
                &&& old(self).needs_new_name(u, cfg.max_user_name_length) ==> exists|n: u64|
                    n >= u.id() && nu.name() == #[trigger] user_candidate(n as nat)
                &&& final(self).rooms_by_id()[0].inbox() == old(self).rooms_by_id()[0].inbox().push(
                    (End::Server, End::Room(0), crate::handlers::misc_json(
                        "join"@,
                        seq![nu.name(), cfg.lobby_name@],
                        nu.name() + " joins "@ + cfg.lobby_name@ + "."@,
                    )),
                )
            },
            !r ==> final(self).users_by_id() == old(self).users_by_id()
                && final(self).departures().len() == old(self).departures().len() + 1,
    {
        let mut u = u;
        u.deliver_msg(&Sndr::Info(cfg.welcome.as_str()));
        if !self.settle_name(&mut u, cfg) {
            u.logout("No name could be found for you.");
            self.push_departed(u);
            return false;
        }
        let name = u.get_name().to_owned();
        let data = pair(name.as_str(), cfg.lobby_name.as_str());
        let alt = crate::text::cat4(name.as_str(), " joins ", cfg.lobby_name.as_str(), ".");
        let env = misc_env(End::Room(0), "join", &data, alt.as_str());
        self.room_enqueue(0, env);
        self.add_user(u);
        true
    }

    /// Drops room `rid` if it is empty and not the lobby; true if it did.
    pub fn reap_room(&mut self, rid: u64) -> (r: bool)
        requires
            old(self).wf(),
        ensures
            final(self).wf(),
            r == (rid != 0 && old(self).rooms_by_id().contains_key(rid)
                && old(self).rooms_by_id()[rid].members().len() == 0),
            r ==> final(self).rooms_by_id() == old(self).rooms_by_id().remove(rid)
                && final(self).rooms_by_name() == old(self).rooms_by_name().remove(
                old(self).rooms_by_id()[rid].idstr(),
            ),
            !r ==> final(self).rooms_by_id() == old(self).rooms_by_id(),
            final(self).users_by_id() == old(self).users_by_id(),
    {
        if rid != 0 && self.has_room(rid) && self.room_ref(rid).get_users().len() == 0 {
            self.remove_room(rid);
            true
        } else {
            false
        }
    }

    /// The members of room `rid` (none for an unknown id).
    pub fn members_of(&self, rid: u64) -> (r: Vec<u64>)
        ensures
            self.rooms_by_id().contains_key(rid) ==> r@ == self.rooms_by_id()[rid].members(),
            !self.rooms_by_id().contains_key(rid) ==> r@.len() == 0,
    {
        if self.has_room(rid) {
            let s = self.room_ref(rid).get_users();
            let mut r: Vec<u64> = Vec::new();
            let mut i: usize = 0;
            while i < s.len()
                invariant
                    i <= s@.len(),
                    r@ == s@.take(i as int),
                decreases s@.len() - i,
            {
                r.push(s[i]);
                assert(s@.take(i + 1) =~= s@.take(i as int).push(s@[i as int]));
                i = i + 1;
            }
            assert(s@.take(i as int) =~= s@);
            r
        } else {
            Vec::new()
        }
    }
}

} // verus!
