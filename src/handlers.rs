//! What the server does with each kind of message a user sends. Each handler
//! works on the tables directly and returns the envelopes to deliver.

use vstd::prelude::*;
use vstd::string::StrSliceExecFns;
use crate::json::{json_obj1, json_str, json_obj2, json_obj3, json_list, str_views, string_views};
use crate::names::{ascollapse, normalize};
use crate::proto::{End, Env, Sndr, RcvOp, sndr_json};
use crate::server::{Server, with_prefix};
use crate::user::User;
use crate::room::{Room, without_id};
use crate::text::{cat2, cat3, cat4, cat5, str_eq};

verus! {

broadcast use vstd::string::group_string_axioms;

pub open spec fn info_json(t: Seq<char>) -> Seq<u8> {
    json_obj1("Info"@, json_str(t))
}

pub open spec fn err_json(t: Seq<char>) -> Seq<u8> {
    json_obj1("Err"@, json_str(t))
}

pub open spec fn misc_json(what: Seq<char>, data: Seq<Seq<char>>, alt: Seq<char>) -> Seq<u8> {
    json_obj1(
        "Misc"@,
        json_obj3("what"@, json_str(what), "data"@, json_list(data), "alt"@, json_str(alt)),
    )
}

/// The length of a text in UTF-8 bytes, as `str::len` gives it.
pub open spec fn byte_len(s: Seq<char>) -> usize {
    vstd::utf8::encode_utf8(s).len() as usize
}

/// A rename to `cand` is allowed: its normalized form is not empty, it
/// fits in `max_len` bytes, and no other user has that normalized name.
pub open spec fn name_allowed(s: Server, uid: u64, cand: Seq<char>, max_len: usize) -> bool {
    let n = normalize(cand);
    &&& n.len() > 0
    &&& byte_len(cand) <= max_len
    &&& (!s.users_by_name().contains_key(n) || s.users_by_name()[n] == uid)
}

/// A room name is usable: its normalized form is not empty and it fits in
/// `max_len` bytes.
pub open spec fn room_name_ok(name: Seq<char>, max_len: usize) -> bool {
    normalize(name).len() > 0 && byte_len(name) <= max_len
}

/// User `uid` may enter room `tgt`: it is elsewhere, not banned there, and
/// the room is open or the user invited.
pub open spec fn may_enter(s: Server, uid: u64, tgt: u64) -> bool {
    let room = s.rooms_by_id()[tgt];
    &&& s.location()[uid] != tgt
    &&& !room.bans().contains(uid)
    &&& (!room.is_closed() || room.invites().contains(uid))
}

/// The user names (or, with `rooms`, the room names) in the order they
/// were filed.
pub open spec fn name_order(s: Server, rooms: bool) -> Seq<Seq<char>> {
    if rooms {
        s.room_name_order()
    } else {
        s.user_name_order()
    }
}

/// A user's address as a query reports it.
pub open spec fn addr_or_unknown(u: User) -> Seq<char> {
    match u.address() {
        Some(a) => a,
        None => "???"@,
    }
}

/// The views of a run of envelopes.
pub open spec fn envs_of(v: Seq<Env>) -> Seq<(End, End, Seq<u8>)> {
    crate::room::env_views(v)
}

/// The user a name leads to, for the operator commands: its normalized form
/// is not empty, names a user, and that user is not the sender.
pub open spec fn other_user(s: Server, uid: u64, name: Seq<char>) -> bool {
    let n = normalize(name);
    n.len() > 0 && s.users_by_name().contains_key(n) && s.users_by_name()[n] != uid
}

/// The reply when a name does not lead to another user: it normalizes to
/// nothing, names nobody, or names the sender.
pub open spec fn unresolved_reply(s: Server, uid: u64, name: Seq<char>, empty_is_err: bool, self_reply: Seq<u8>) -> Seq<u8> {
    let n = normalize(name);
    if n.len() == 0 {
        if empty_is_err {
            err_json("That cannot be anyone's user name."@)
        } else {
            info_json("That cannot be anyone's user name."@)
        }
    } else if !s.users_by_name().contains_key(n) {
        info_json("No users matching the pattern \""@ + n + "\"."@)
    } else {
        self_reply
    }
}

pub open spec fn target_of(s: Server, name: Seq<char>) -> u64 {
    s.users_by_name()[normalize(name)]
}

/// What `Open` (with `close` false) or `Close` does.
pub open spec fn open_close_post(a: Server, b: Server, rid: u64, uid: u64, close: bool, r: Seq<
    (End, End, Seq<u8>),
>) -> bool {
    &&& b.same_but_room(&a, rid)
    &&& b.rooms_by_id()[rid].is_closed() == close
    &&& b.rooms_by_id()[rid].op() == a.rooms_by_id()[rid].op()
    &&& r.len() == 1
    &&& r[0].0 == End::Server
    &&& r[0].1 == (if a.rooms_by_id()[rid].is_closed() == close {
        End::User(uid)
    } else {
        End::Room(rid)
    })
    &&& r[0].2 == (if a.rooms_by_id()[rid].is_closed() == close {
        info_json(a.rooms_by_id()[rid].name() + if close {
            " is already closed."@
        } else {
            " is already open."@
        })
    } else {
        info_json(a.users_by_id()[uid].name() + (if close {
            " has closed "@
        } else {
            " has opened "@
        }) + a.rooms_by_id()[rid].name() + "."@)
    })
}

/// What `Give(name)` does.
pub open spec fn give_post(a: Server, b: Server, rid: u64, uid: u64, name: Seq<char>, r: Seq<
    (End, End, Seq<u8>),
>) -> bool {
    let t = target_of(a, name);
    let tn = a.users_by_id()[t].name();
    &&& b.same_but_room(&a, rid)
    &&& r.len() == 1
    &&& other_user(a, uid, name) && a.rooms_by_id()[rid].members().contains(t) ==> {
        &&& b.rooms_by_id()[rid].op() == t
        &&& r[0] == (End::Server, End::Room(rid), info_json(
            "The room operator is now "@ + tn + "."@,
        ))
    }
    &&& other_user(a, uid, name) && !a.rooms_by_id()[rid].members().contains(t) ==> {
        &&& b.rooms_by_id() == a.rooms_by_id()
        &&& r[0] == (End::Server, End::User(uid), info_json(
            tn + " must be in the room to transfer ownership."@,
        ))
    }
    &&& !other_user(a, uid, name) ==> b.rooms_by_id() == a.rooms_by_id() && r[0] == (End::Server, End::User(uid),
        unresolved_reply(a, uid, name, true, info_json("You are already the operator of this room."@)))
}

/// What `Invite(name)` does.
pub open spec fn invite_post(a: Server, b: Server, rid: u64, uid: u64, name: Seq<char>, r: Seq<
    (End, End, Seq<u8>),
>) -> bool {
    let t = target_of(a, name);
    &&& b.users_by_id().dom() == a.users_by_id().dom()
    &&& b.users_by_name() == a.users_by_name()
    &&& b.location() == a.location()
    &&& b.rooms_by_id().dom() == a.rooms_by_id().dom()
    &&& b.rooms_by_id()[rid].members() == a.rooms_by_id()[rid].members()
    &&& b.rooms_by_id()[rid].op() == a.rooms_by_id()[rid].op()
    &&& r.len() == 1
    &&& r[0].1 == End::User(uid)
    &&& !other_user(a, uid, name) ==> b.users_by_id() == a.users_by_id() && b.rooms_by_id() == a.rooms_by_id()
        && r[0] == (End::Server, End::User(uid), unresolved_reply(
        a,
        uid,
        name,
        false,
        info_json("You are already allowed in "@ + a.rooms_by_id()[rid].name() + "."@),
    ))
    &&& other_user(a, uid, name) ==> b.rooms_by_id()[rid].invites().contains(t)
        && !b.rooms_by_id()[rid].bans().contains(t)
    &&& other_user(a, uid, name) ==> {
        let tn = a.users_by_id()[t].name();
        let rn = a.rooms_by_id()[rid].name();
        let present = a.rooms_by_id()[rid].members().contains(t);
        &&& a.rooms_by_id()[rid].invites().contains(t) ==> r[0] == (End::Server, End::User(uid), info_json(
            tn + " has already been invited to "@ + rn + "."@,
        )) && b.users_by_id() == a.users_by_id()
        &&& !a.rooms_by_id()[rid].invites().contains(t) ==> {
            &&& r[0] == (End::Server, End::User(uid), info_json(if present {
                tn + " may now return to "@ + rn + " even when closed."@
            } else {
                "You invite "@ + tn + " to join "@ + rn + "."@
            }))
            &&& b.users_by_id()[t].outgoing() == a.users_by_id()[t].outgoing() + info_json(if present {
                "You have been invited to return to "@ + rn + " even if it closes."@
            } else {
                "You have been invited to join "@ + rn + "."@
            })
        }
    }
}

/// What `Kick(name)` does. A user who is present is told, moved to the
/// lobby (which is told) and banned; the room hears of it.
pub open spec fn kick_post(a: Server, b: Server, rid: u64, uid: u64, name: Seq<char>, r: Seq<
    (End, End, Seq<u8>),
>) -> bool {
    let t = target_of(a, name);
    let tn = a.users_by_id()[t].name();
    let rn = a.rooms_by_id()[rid].name();
    let ln = a.rooms_by_id()[0].name();
    let ok = other_user(a, uid, name) && !a.rooms_by_id()[rid].bans().contains(t);
    &&& b.users_by_id().dom() == a.users_by_id().dom()
    &&& b.users_by_name() == a.users_by_name()
    &&& b.rooms_by_id().dom() == a.rooms_by_id().dom()
    &&& b.rooms_by_name() == a.rooms_by_name()
    &&& r.len() == 1
    &&& ok ==> b.rooms_by_id()[rid].bans().contains(t) && !b.rooms_by_id()[rid].invites().contains(t)
    &&& ok && a.rooms_by_id()[rid].members().contains(t) ==> {
        &&& b.location() == a.location().insert(t, 0)
        &&& b.rooms_by_id()[rid].members() == without_id(a.rooms_by_id()[rid].members(), t)
        &&& b.rooms_by_id()[0].members() == a.rooms_by_id()[0].members().push(t)
        &&& forall|k: u64| #[trigger]
            a.rooms_by_id().contains_key(k) && k != rid && k != 0 ==> b.rooms_by_id()[k]
                == a.rooms_by_id()[k]
        &&& b.users_by_id()[t].outgoing() == a.users_by_id()[t].outgoing() + info_json(
            "You have been kicked from "@ + rn + "."@,
        )
        &&& b.rooms_by_id()[0].inbox() == a.rooms_by_id()[0].inbox().push(
            (End::Server, End::Room(0), misc_json("join"@, seq![tn, ln], tn + " joins "@ + ln + "."@)),
        )
        &&& r[0] == (End::Server, End::Room(rid), misc_json(
            "kick_other"@,
            seq![tn, rn],
            tn + " has been kicked from "@ + rn + "."@,
        ))
    }
    &&& ok && !a.rooms_by_id()[rid].members().contains(t) ==> r[0] == (End::Server, End::User(uid), info_json(
        "You have banned "@ + tn + " from "@ + rn + "."@,
    )) && b.location() == a.location()
    &&& other_user(a, uid, name) && a.rooms_by_id()[rid].bans().contains(t) ==> r[0] == (End::Server, End::User(uid), info_json(
        tn + " is already banned from "@ + rn + "."@,
    ))
    &&& !ok ==> b.rooms_by_id() == a.rooms_by_id() && b.location() == a.location() && r[0].1
        == End::User(uid)
    &&& !other_user(a, uid, name) ==> r[0] == (End::Server, End::User(uid), unresolved_reply(
        a,
        uid,
        name,
        false,
        info_json(
            "Bestowing the operator mantle on another and then leaving would be a more orderly transfer of power."@,
        ),
    ))
}

/// User `uid` moved from its room to room `tgt`: the lists, the target's
/// inbox and the envelope for the room it left.
pub open spec fn moved_post(a: Server, b: Server, uid: u64, tgt: u64, r: Seq<(End, End, Seq<u8>)>) -> bool {
    let cur = a.location()[uid];
    let un = a.users_by_id()[uid].name();
    let tn = a.rooms_by_id()[tgt].name();
    &&& b.location() == a.location().insert(uid, tgt)
    &&& b.rooms_by_id()[cur].members() == without_id(a.rooms_by_id()[cur].members(), uid)
    &&& b.rooms_by_id()[tgt].members() == a.rooms_by_id()[tgt].members().push(uid)
    &&& b.rooms_by_id()[tgt].inbox() == a.rooms_by_id()[tgt].inbox().push(
        (End::Server, End::Room(tgt), misc_json("join"@, seq![un, tn], un + " joins "@ + tn + "."@)),
    )
    &&& forall|k: u64| #[trigger]
        a.rooms_by_id().contains_key(k) && k != cur && k != tgt ==> b.rooms_by_id()[k]
            == a.rooms_by_id()[k]
    &&& r.len() == 1
    &&& r[0] == (End::Server, End::Room(cur), misc_json(
        "leave"@,
        seq![un, "[ moved to another room ]"@],
        un + " moved to another room."@,
    ))
}

/// Why user `uid` may not enter room `tgt`, as told to it.
pub open spec fn refusal_text(a: Server, uid: u64, tgt: u64) -> Seq<char> {
    let tn = a.rooms_by_id()[tgt].name();
    if a.location()[uid] == tgt {
        "You are already in \""@ + tn + "\"."@
    } else if a.rooms_by_id()[tgt].bans().contains(uid) {
        "You are banned from \""@ + tn + "\"."@
    } else {
        "\""@ + tn + "\" is closed."@
    }
}

/// The names of the members in `ms` other than `op`, in order.
pub open spec fn names_except(s: Server, ms: Seq<u64>, op: u64) -> Seq<Seq<char>>
    decreases ms.len(),
{
    if ms.len() == 0 {
        Seq::empty()
    } else if ms.last() == op {
        names_except(s, ms.drop_last(), op)
    } else {
        names_except(s, ms.drop_last(), op).push(s.users_by_id()[ms.last()].name())
    }
}

/// A room's roster: its operator's name first (outside the lobby), then the
/// other members' names in the order they came in.
pub open spec fn roster(s: Server, rid: u64) -> Seq<Seq<char>> {
    let room = s.rooms_by_id()[rid];
    let rest = names_except(s, room.members(), room.op());
    if room.op() == 0 {
        rest
    } else {
        seq![if s.users_by_id().contains_key(room.op()) {
            s.users_by_id()[room.op()].name()
        } else {
            "[ ??? ]"@
        }] + rest
    }
}

/// The roster's readable form: the room's name, the operator (outside the
/// lobby), then the other members separated by commas.
pub open spec fn roster_alt(s: Server, rid: u64) -> Seq<char> {
    let room = s.rooms_by_id()[rid];
    let rest = comma_joined(names_except(s, room.members(), room.op()));
    if room.op() == 0 {
        room.name() + " roster: "@ + rest
    } else {
        room.name() + " roster: "@ + (if s.users_by_id().contains_key(room.op()) {
            s.users_by_id()[room.op()].name()
        } else {
            "[ ??? ]"@
        }) + " (operator) "@ + rest
    }
}

/// An envelope from the server.
pub fn server_env(to: End, msg: &Sndr) -> (r: Env)
    ensures
        r@ == (End::Server, to, sndr_json(*msg)),
{
    Env::new(End::Server, to, msg)
}

/// An `Info` from the server.
pub fn info_env(to: End, text: &str) -> (r: Env)
    ensures
        r@ == (End::Server, to, info_json(text@)),
{
    Env::new(End::Server, to, &Sndr::Info(text))
}

/// An `Err` from the server.
pub fn err_env(to: End, text: &str) -> (r: Env)
    ensures
        r@ == (End::Server, to, err_json(text@)),
{
    Env::new(End::Server, to, &Sndr::Error(text))
}

/// Borrowed views of owned texts.
pub fn str_refs<'a>(v: &'a Vec<String>) -> (r: Vec<&'a str>)
    ensures
        str_views(r@) == string_views(v@),
{
    let mut r: Vec<&str> = Vec::new();
    let mut i: usize = 0;
    while i < v.len()
        invariant
            i <= v@.len(),
            str_views(r@) == string_views(v@.take(i as int)),
            r@.len() == i,
        decreases v@.len() - i,
    {
        let ghost before = r@;
        let s = v[i].as_str();
        r.push(s);
        assert(r@.len() == i + 1);
        assert(r@[i as int] == s);
        assert(s@ == v@[i as int]@);
        assert forall|j: int| 0 <= j < i + 1 implies str_views(r@)[j] == string_views(
            v@.take(i + 1),
        )[j] by {
            assert(str_views(r@)[j] == r@[j]@);
            if j < i {
                assert(r@[j] == before[j]);
                assert(str_views(before)[j] == string_views(v@.take(i as int))[j]);
            }
        }
        assert(str_views(r@) =~= string_views(v@.take(i + 1)));
        i = i + 1;
    }
    assert(v@.take(i as int) =~= v@);
    r
}

/// A `Misc` from the server.
pub fn misc_env(to: End, what: &str, data: &Vec<String>, alt: &str) -> (r: Env)
    ensures
        r@ == (End::Server, to, misc_json(what@, string_views(data@), alt@)),
{
    let refs = str_refs(data);
    Env::new(End::Server, to, &Sndr::Misc { what, data: refs.as_slice(), alt })
}

/// Two texts as a list.
pub fn pair(a: &str, b: &str) -> (r: Vec<String>)
    ensures
        string_views(r@) == seq![a@, b@],
{
    let mut r: Vec<String> = Vec::new();
    r.push(a.to_owned());
    r.push(b.to_owned());
    assert(string_views(r@) =~= seq![a@, b@]);
    r
}

/// Texts separated by `", "`.
pub open spec fn comma_joined(ss: Seq<Seq<char>>) -> Seq<char>
    decreases ss.len(),
{
    if ss.len() == 0 {
        Seq::empty()
    } else if ss.len() == 1 {
        ss[0]
    } else {
        comma_joined(ss.drop_last()) + ", "@ + ss.last()
    }
}

/// Appends `v`'s texts to `base`, separated by `", "`.
pub fn append_comma_delimited_list(base: &mut String, v: &Vec<String>)
    ensures
        final(base)@ == old(base)@ + comma_joined(string_views(v@)),
{
    let mut i: usize = 0;
    while i < v.len()
        invariant
            i <= v@.len(),
            base@ == old(base)@ + comma_joined(string_views(v@.take(i as int))),
        decreases v@.len() - i,
    {
        let ghost before = base@;
        if i > 0 {
            crate::text::push_str(base, ", ");
        }
        crate::text::push_str(base, v[i].as_str());
        proof {
            let a = string_views(v@.take(i + 1));
            assert(a.drop_last() =~= string_views(v@.take(i as int)));
            assert(a.last() == v@[i as int]@);
            if i == 0 {
                assert(a.len() == 1);
                assert(base@ =~= old(base)@ + comma_joined(a));
            } else {
                assert(base@ =~= old(base)@ + comma_joined(a));
            }
        }
        i = i + 1;
    }
    assert(v@.take(i as int) =~= v@);
}

impl Server {
    fn user_name(&self, uid: u64) -> (r: String)
        requires
            self.users_by_id().contains_key(uid),
        ensures
            r@ == self.users_by_id()[uid].name(),
    {
        self.user_ref(uid).get_name().to_owned()
    }

    fn room_name(&self, rid: u64) -> (r: String)
        requires
            self.rooms_by_id().contains_key(rid),
        ensures
            r@ == self.rooms_by_id()[rid].name(),
    {
        self.room_ref(rid).get_name().to_owned()
    }

    /// Chat text: one envelope from the user to the room, with the user's
    /// name filled in.
    pub fn do_text(&self, rid: u64, uid: u64, lines: Vec<String>) -> (r: Vec<Env>)
        requires
            self.wf(),
            self.users_by_id().contains_key(uid),
        ensures
            r@.len() == 1,
            r@[0]@ == (End::User(uid), End::Room(rid), json_obj1(
                "Text"@,
                json_obj2(
                    "who"@,
                    json_str(self.users_by_id()[uid].name()),
                    "lines"@,
                    json_list(string_views(lines@)),
                ),
            )),
    {
        let name = self.user_name(uid);
        let refs = str_refs(&lines);
        let env = Env::new(
            End::User(uid),
            End::Room(rid),
            &Sndr::Text { who: name.as_str(), lines: refs.as_slice() },
        );
        let mut v: Vec<Env> = Vec::new();
        v.push(env);
        v
    }

    /// A rename: refused when the normalized name is empty, the name is
    /// longer than `max_len` bytes, or another user has that normalized
    /// name; otherwise the room hears of it.
    #[verifier::rlimit(80)]
    pub fn do_name(&mut self, rid: u64, uid: u64, new_candidate: String, max_len: usize) -> (r: Vec<
        Env,
    >)
        requires
            old(self).wf(),
            old(self).users_by_id().contains_key(uid),
        ensures
            final(self).wf(),
            final(self).rooms_by_id() == old(self).rooms_by_id(),
            final(self).rooms_by_name() == old(self).rooms_by_name(),
            final(self).location() == old(self).location(),
            final(self).users_by_id().dom() == old(self).users_by_id().dom(),
            r@.len() == 1,
            name_allowed(*old(self), uid, new_candidate@, max_len) ==> final(self).users_by_id()[uid].name()
                == new_candidate@,
            name_allowed(*old(self), uid, new_candidate@, max_len) ==> final(self).users_by_name()
                == old(self).users_by_name().remove(old(self).users_by_id()[uid].idstr()).insert(
                normalize(new_candidate@),
                uid,
            ),
            name_allowed(*old(self), uid, new_candidate@, max_len) ==> r@[0]@ == (
                End::Server,
                End::Room(rid),
                misc_json(
                    "name"@,
                    seq![old(self).users_by_id()[uid].name(), new_candidate@],
                    old(self).users_by_id()[uid].name() + " is now known as "@ + new_candidate@
                        + "."@,
                ),
            ),
            !name_allowed(*old(self), uid, new_candidate@, max_len) ==> final(self).users_by_id()
                == old(self).users_by_id(),
            !name_allowed(*old(self), uid, new_candidate@, max_len) ==> final(self).users_by_name()
                == old(self).users_by_name(),
            !name_allowed(*old(self), uid, new_candidate@, max_len) ==> r@[0]@.0 == End::Server
                && r@[0]@.1 == End::User(uid),
            normalize(new_candidate@).len() == 0 ==> r@[0]@.2 == err_json(
                "Your name must have more whitespace characters."@,
            ),
            normalize(new_candidate@).len() > 0 && byte_len(new_candidate@) > max_len ==> r@[0]@.2
                == err_json(
                "Your name cannot be longer than "@ + crate::text::decimal(max_len as nat)
                    + " characters."@,
            ),
            ({
                let n = normalize(new_candidate@);
                let other = old(self).users_by_name()[n];
                n.len() > 0 && byte_len(new_candidate@) <= max_len && old(self).users_by_name().contains_key(n)
                    && other != uid ==> r@[0]@.2 == err_json(
                    "There is already a user named \""@ + old(self).users_by_id()[other].name() + "\"."@,
                )
            }),
    {
        let new_str = ascollapse(new_candidate.as_str());
        let mut v: Vec<Env> = Vec::new();
        if new_str.as_str().unicode_len() == 0 {
            v.push(err_env(End::User(uid), "Your name must have more whitespace characters."));
            return v;
        } else if new_candidate.as_str().len() > max_len {
            let d = crate::text::decimal_string(max_len as u64);
            let t = cat3("Your name cannot be longer than ", d.as_str(), " characters.");
            v.push(err_env(End::User(uid), t.as_str()));
            return v;
        }
        match self.user_id_named(new_str.as_str()) {
            Some(ouid) => {
                if ouid != uid {
                    let oname = self.user_name(ouid);
                    let t = cat3("There is already a user named \"", oname.as_str(), "\".");
                    v.push(err_env(End::User(uid), t.as_str()));
                    return v;
                }
            },
            None => {},
        }
        let old_name = self.user_name(uid);
        self.rename_user(uid, new_candidate.as_str());
        let data = pair(old_name.as_str(), new_candidate.as_str());
        let alt = cat3(old_name.as_str(), " is now known as ", new_candidate.as_str());
        let alt = cat2(alt.as_str(), ".");
        v.push(misc_env(End::Room(rid), "name", &data, alt.as_str()));
        v
    }

    /// Creates a room named `room_name` with `uid` as operator, under the
    /// lowest free id, tells the user, and moves the user into it.
    #[verifier::rlimit(100)]
    fn create_and_enter(&mut self, uid: u64, room_name: &String) -> (r: Vec<Env>)
        requires
            old(self).wf(),
            old(self).users_by_id().contains_key(uid),
            !old(self).rooms_by_name().contains_key(normalize(room_name@)),
        ensures
            final(self).wf(),
            final(self).users_by_id().dom() == old(self).users_by_id().dom(),
            final(self).users_by_name() == old(self).users_by_name(),
            old(self).rooms_by_id().dom().subset_of(final(self).rooms_by_id().dom()),
            r@.len() == 1,
            old(self).rooms_by_id().len() < u64::MAX ==> final(self).rooms_by_name().contains_key(
                normalize(room_name@),
            ),
            !final(self).rooms_by_name().contains_key(normalize(room_name@)) ==> final(self).rooms_by_id()
                == old(self).rooms_by_id() && final(self).location() == old(self).location()
                && final(self).users_by_id() == old(self).users_by_id(),
            final(self).rooms_by_name().contains_key(normalize(room_name@)) ==> {
                let tgt = final(self).rooms_by_name()[normalize(room_name@)];
                let cur = old(self).location()[uid];
                &&& !old(self).rooms_by_id().contains_key(tgt)
                &&& forall|m: u64| m < tgt ==> old(self).rooms_by_id().contains_key(m)
                &&& final(self).rooms_by_id()[tgt].op() == uid
                &&& final(self).rooms_by_id()[tgt].name() == room_name@
                &&& final(self).rooms_by_id()[tgt].members() == seq![uid]
                &&& final(self).location() == old(self).location().insert(uid, tgt)
                &&& final(self).rooms_by_id()[cur].members() == without_id(old(self).rooms_by_id()[cur].members(), uid)
                &&& forall|k: u64| #[trigger] old(self).rooms_by_id().contains_key(k) && k != cur
                    ==> final(self).rooms_by_id()[k] == old(self).rooms_by_id()[k]
                &&& final(self).users_by_id()[uid].outgoing() == old(self).users_by_id()[uid].outgoing()
                    + info_json("You create room \""@ + room_name@ + "\"."@)
                &&& final(self).rooms_by_id()[tgt].inbox() == seq![(End::Server, End::Room(tgt), misc_json(
                    "join"@,
                    seq![old(self).users_by_id()[uid].name(), room_name@],
                    old(self).users_by_id()[uid].name() + " joins "@ + room_name@ + "."@,
                ))]
                &&& r@[0]@ == (End::Server, End::Room(cur), misc_json(
                    "leave"@,
                    seq![old(self).users_by_id()[uid].name(), "[ moved to another room ]"@],
                    old(self).users_by_id()[uid].name() + " moved to another room."@,
                ))
            },
    {
        let mut v: Vec<Env> = Vec::new();
        let new_id = match self.first_free_id() {
            Some(n) => n,
            None => {
                v.push(err_env(End::User(uid), "No room can be created now."));
                return v;
            },
        };
        let ghost a = *self;
        let new_room = Room::new(new_id, room_name.clone(), uid);
        self.add_room(new_room);
        let t = cat3("You create room \"", room_name.as_str(), "\".");
        self.deliver_msg_to(uid, &Sndr::Info(t.as_str()));
        let ghost mid = *self;
        assert(a.rooms_by_id().contains_key(a.location()[uid]));
        assert(mid.rooms_by_id()[new_id].bans() =~= Seq::<u64>::empty());
        let r = self.move_in(uid, new_id);
        proof {
            let b = *self;
            let cur = a.location()[uid];
            assert(mid.rooms_by_id()[cur] == a.rooms_by_id()[cur]);
            assert(b.rooms_by_id()[new_id].members() =~= seq![uid]);
            assert(mid.rooms_by_id()[new_id].inbox() =~= Seq::<(End, End, Seq<u8>)>::empty());
            assert(mid.users_by_id()[uid].name() == a.users_by_id()[uid].name());
            assert(b.rooms_by_id()[new_id].inbox() =~= Seq::<(End, End, Seq<u8>)>::empty().push(
                (End::Server, End::Room(new_id), misc_json(
                    "join"@,
                    seq![a.users_by_id()[uid].name(), room_name@],
                    a.users_by_id()[uid].name() + " joins "@ + room_name@ + "."@,
                ))));
            assert forall|k: u64| #[trigger] a.rooms_by_id().contains_key(k) && k != cur implies b.rooms_by_id()[k]
                == a.rooms_by_id()[k] by {
                assert(k != new_id);
                assert(mid.rooms_by_id().contains_key(k));
                assert(mid.rooms_by_id()[k] == a.rooms_by_id()[k]);
                assert(mid.location()[uid] == cur);
            }
        }
        r
    }

    /// Moves user `uid` into room `tgt`, posts the join notice to that room
    /// and returns the leave notice for the room it left.
    #[verifier::rlimit(100)]
    fn move_in(&mut self, uid: u64, tgt: u64) -> (r: Vec<Env>)
        requires
            old(self).wf(),
            old(self).users_by_id().contains_key(uid),
            old(self).rooms_by_id().contains_key(tgt),
            old(self).location()[uid] != tgt,
            !old(self).rooms_by_id()[tgt].bans().contains(uid),
        ensures
            final(self).wf(),
            final(self).users_by_id() == old(self).users_by_id(),
            final(self).users_by_name() == old(self).users_by_name(),
            final(self).rooms_by_id().dom() == old(self).rooms_by_id().dom(),
            final(self).rooms_by_name() == old(self).rooms_by_name(),
            final(self).rooms_by_id()[tgt].op() == old(self).rooms_by_id()[tgt].op(),
            final(self).rooms_by_id()[tgt].name() == old(self).rooms_by_id()[tgt].name(),
            moved_post(*old(self), *final(self), uid, tgt, envs_of(r@)),
    {
        let cur = self.room_of(uid);
        let uname = self.user_name(uid);
        let tname = self.room_name(tgt);
        let mut v: Vec<Env> = Vec::new();
        self.move_member(uid, cur, tgt);
        let data = pair(uname.as_str(), tname.as_str());
        let alt = cat4(uname.as_str(), " joins ", tname.as_str(), ".");
        let join_env = misc_env(End::Room(tgt), "join", &data, alt.as_str());
        self.room_enqueue(tgt, join_env);
        let data = pair(uname.as_str(), "[ moved to another room ]");
        let alt = cat2(uname.as_str(), " moved to another room.");
        v.push(misc_env(End::Room(cur), "leave", &data, alt.as_str()));
        proof {
            let a = *old(self);
            let b = *self;
            assert(b.location() == a.location().insert(uid, tgt));
            assert(b.rooms_by_id()[cur].members() == without_id(a.rooms_by_id()[cur].members(), uid));
            assert(b.rooms_by_id()[tgt].members() == a.rooms_by_id()[tgt].members().push(uid));
            assert(envs_of(v@).len() == 1);
            assert(envs_of(v@)[0] == v@[0]@);
            let un = a.users_by_id()[uid].name();
            let tn = a.rooms_by_id()[tgt].name();
            assert(b.rooms_by_id()[tgt].inbox() == a.rooms_by_id()[tgt].inbox().push(
                (End::Server, End::Room(tgt), misc_json("join"@, seq![un, tn], un + " joins "@ + tn + "."@)),
            ));
            assert(v@[0]@ == (End::Server, End::Room(cur), misc_json(
                "leave"@,
                seq![un, "[ moved to another room ]"@],
                un + " moved to another room."@,
            )));
            assert forall|k: u64| #[trigger]
                a.rooms_by_id().contains_key(k) && k != cur && k != tgt implies b.rooms_by_id()[k]
                    == a.rooms_by_id()[k] by {}
            assert(cur == a.location()[uid]);
            assert(b.rooms_by_id()[a.location()[uid]].members() == without_id(a.rooms_by_id()[a.location()[uid]].members(), uid));
            assert(moved_post(a, b, uid, tgt, envs_of(v@)));
        }
        v
    }

    /// Moves the user into room `tgt` unless it is already there, is
    /// banned from it, or finds it closed without an invitation.
    #[verifier::rlimit(100)]
    fn enter_room(&mut self, uid: u64, tgt: u64) -> (r: Vec<Env>)
        requires
            old(self).wf(),
            old(self).users_by_id().contains_key(uid),
            old(self).rooms_by_id().contains_key(tgt),
        ensures
            final(self).wf(),
            final(self).users_by_id() == old(self).users_by_id(),
            final(self).users_by_name() == old(self).users_by_name(),
            final(self).rooms_by_id().dom() == old(self).rooms_by_id().dom(),
            final(self).rooms_by_name() == old(self).rooms_by_name(),
            final(self).rooms_by_id()[tgt].op() == old(self).rooms_by_id()[tgt].op(),
            final(self).rooms_by_id()[tgt].name() == old(self).rooms_by_id()[tgt].name(),
            r@.len() == 1,
            may_enter(*old(self), uid, tgt) ==> moved_post(*old(self), *final(self), uid, tgt, envs_of(r@)),
            !may_enter(*old(self), uid, tgt) ==> {
                &&& final(self).location() == old(self).location()
                &&& final(self).rooms_by_id() == old(self).rooms_by_id()
                &&& r@[0]@ == (End::Server, End::User(uid), info_json(refusal_text(*old(self), uid, tgt)))
            },
    {
        let cur = self.room_of(uid);
        let uname = self.user_name(uid);
        let tname = self.room_name(tgt);
        let mut v: Vec<Env> = Vec::new();
        if tgt == cur {
            let t = cat3("You are already in \"", tname.as_str(), "\".");
            v.push(info_env(End::User(uid), t.as_str()));
            return v;
        } else if self.room_ref(tgt).is_banned(&uid) {
            let t = cat3("You are banned from \"", tname.as_str(), "\".");
            v.push(info_env(End::User(uid), t.as_str()));
            return v;
        } else if self.room_ref(tgt).get_closed() && !self.room_ref(tgt).is_invited(&uid) {
            let t = cat3("\"", tname.as_str(), "\" is closed.");
            v.push(info_env(End::User(uid), t.as_str()));
            return v;
        }
        self.move_in(uid, tgt)
    }

    /// Moves the user to the room with that name, creating it (with the
    /// user as operator) if there is none. Refused for an empty or too long
    /// name, for the room the user is in, and for a room that bans the user
    /// or is closed to it.
    pub fn do_join(&mut self, rid: u64, uid: u64, room_name: String, max_len: usize) -> (r: Vec<
        Env,
    >)
        requires
            old(self).wf(),
            old(self).users_by_id().contains_key(uid),
        ensures
            final(self).wf(),
            final(self).users_by_id().dom() == old(self).users_by_id().dom(),
            final(self).users_by_name() == old(self).users_by_name(),
            r@.len() == 1,
            old(self).rooms_by_id().dom().subset_of(final(self).rooms_by_id().dom()),
            !room_name_ok(room_name@, max_len) ==> final(self).rooms_by_id() == old(self).rooms_by_id()
                && final(self).rooms_by_name() == old(self).rooms_by_name()
                && final(self).users_by_id() == old(self).users_by_id()
                && final(self).location() == old(self).location() && r@[0]@.0 == End::Server
                && r@[0]@.1 == End::User(uid),
            room_name_ok(room_name@, max_len) && old(self).rooms_by_name().contains_key(
                normalize(room_name@),
            ) ==> {
                let tgt = old(self).rooms_by_name()[normalize(room_name@)];
                &&& final(self).rooms_by_name() == old(self).rooms_by_name()
                &&& may_enter(*old(self), uid, tgt) ==> moved_post(*old(self), *final(self), uid, tgt, envs_of(r@))
                &&& !may_enter(*old(self), uid, tgt) ==> final(self).location() == old(self).location()
                    && final(self).users_by_id() == old(self).users_by_id()
                    && final(self).rooms_by_id() == old(self).rooms_by_id()
                    && r@[0]@ == (End::Server, End::User(uid), info_json(refusal_text(*old(self), uid, tgt)))
            },
            room_name_ok(room_name@, max_len) && !old(self).rooms_by_name().contains_key(
                normalize(room_name@),
            ) && old(self).rooms_by_id().len() < u64::MAX ==> final(self).rooms_by_name().contains_key(normalize(room_name@)),
            room_name_ok(room_name@, max_len) && !old(self).rooms_by_name().contains_key(
                normalize(room_name@),
            ) && final(self).rooms_by_name().contains_key(normalize(room_name@)) ==> {
                let tgt = final(self).rooms_by_name()[normalize(room_name@)];
                let cur = old(self).location()[uid];
                &&& !old(self).rooms_by_id().contains_key(tgt)
                &&& forall|m: u64| m < tgt ==> old(self).rooms_by_id().contains_key(m)
                &&& final(self).rooms_by_id()[tgt].op() == uid
                &&& final(self).rooms_by_id()[tgt].name() == room_name@
                &&& final(self).rooms_by_id()[tgt].members() == seq![uid]
                &&& final(self).location() == old(self).location().insert(uid, tgt)
                &&& final(self).rooms_by_id()[cur].members() == without_id(old(self).rooms_by_id()[cur].members(), uid)
                &&& forall|k: u64| #[trigger] old(self).rooms_by_id().contains_key(k) && k != cur
                    ==> final(self).rooms_by_id()[k] == old(self).rooms_by_id()[k]
                &&& final(self).users_by_id()[uid].outgoing() == old(self).users_by_id()[uid].outgoing()
                    + info_json("You create room \""@ + room_name@ + "\"."@)
                &&& final(self).rooms_by_id()[tgt].inbox() == seq![(End::Server, End::Room(tgt), misc_json(
                    "join"@,
                    seq![old(self).users_by_id()[uid].name(), room_name@],
                    old(self).users_by_id()[uid].name() + " joins "@ + room_name@ + "."@,
                ))]
                &&& r@[0]@ == (End::Server, End::Room(cur), misc_json(
                    "leave"@,
                    seq![old(self).users_by_id()[uid].name(), "[ moved to another room ]"@],
                    old(self).users_by_id()[uid].name() + " moved to another room."@,
                ))
            },
    {
        let collapsed = ascollapse(room_name.as_str());
        let mut v: Vec<Env> = Vec::new();
        if collapsed.as_str().unicode_len() == 0 {
            v.push(err_env(End::User(uid), "A room name must have more non-whitespace characters."));
            return v;
        } else if room_name.as_str().len() > max_len {
            let d = crate::text::decimal_string(max_len as u64);
            let t = cat3("Room names cannot be longer than ", d.as_str(), " characters.");
            v.push(err_env(End::User(uid), t.as_str()));
            return v;
        }
        match self.room_id_named(collapsed.as_str()) {
            Some(tgt) => self.enter_room(uid, tgt),
            None => self.create_and_enter(uid, &room_name),
        }
    }

    /// Resolves a user name for block, unblock and the operator commands:
    /// the id of the user whose normalized name it is.
    fn resolve(&self, name: &str) -> (r: Option<u64>)
        requires
            self.wf(),
        ensures
            r == (if self.users_by_name().contains_key(normalize(name@)) {
                Some(self.users_by_name()[normalize(name@)])
            } else {
                None::<u64>
            }),
            r matches Some(id) ==> self.users_by_id().contains_key(id),
    {
        let c = ascollapse(name);
        self.user_id_named(c.as_str())
    }

    /// Adds a user to the sender's block list. The sender is told the
    /// outcome directly.
    pub fn do_block(&mut self, rid: u64, uid: u64, user_name: String) -> (r: Vec<Env>)
        requires
            old(self).wf(),
            old(self).users_by_id().contains_key(uid),
        ensures
            final(self).wf(),
            final(self).users_by_id().dom() == old(self).users_by_id().dom(),
            final(self).users_by_name() == old(self).users_by_name(),
            final(self).rooms_by_id() == old(self).rooms_by_id(),
            final(self).location() == old(self).location(),
            ({
                let n = normalize(user_name@);
                if n.len() > 0 && old(self).users_by_name().contains_key(n) && old(self).users_by_name()[n] != uid {
                    final(self).users_by_id()[uid].blocks() == crate::user::with_blocked(
                        old(self).users_by_id()[uid].blocks(),
                        old(self).users_by_name()[n],
                    ) && r@.len() == 0
                } else {
                    final(self).users_by_id() == old(self).users_by_id() && r@.len() == 1
                        && r@[0]@.1 == End::User(uid)
                }
            }),
            other_user(*old(self), uid, user_name@) ==> {
                let t = target_of(*old(self), user_name@);
                let tn = old(self).users_by_id()[t].name();
                final(self).users_by_id()[uid].outgoing() == old(self).users_by_id()[uid].outgoing() + if !old(self).users_by_id()[uid].blocks().contains(t) {
                    info_json("You are now blocking "@ + tn + "."@)
                } else {
                    err_json("You are already blocking "@ + tn + "."@)
                }
            },
            !other_user(*old(self), uid, user_name@) ==> r@[0]@ == (End::Server, End::User(uid), unresolved_reply(
                *old(self),
                uid,
                user_name@,
                true,
                err_json("You shouldn't block yourself."@),
            )),
    {
        let collapsed = ascollapse(user_name.as_str());
        let mut v: Vec<Env> = Vec::new();
        if collapsed.as_str().unicode_len() == 0 {
            v.push(err_env(End::User(uid), "That cannot be anyone's user name."));
            return v;
        }
        let ouid = match self.user_id_named(collapsed.as_str()) {
            None => {
                let t = cat3("No users matching the pattern \"", collapsed.as_str(), "\".");
                v.push(info_env(End::User(uid), t.as_str()));
                return v;
            },
            Some(n) => n,
        };
        if ouid == uid {
            v.push(err_env(End::User(uid), "You shouldn't block yourself."));
            return v;
        }
        let blocked_name = self.user_name(ouid);
        if self.block_for(uid, ouid) {
            let t = cat3("You are now blocking ", blocked_name.as_str(), ".");
            self.deliver_msg_to(uid, &Sndr::Info(t.as_str()));
        } else {
            let t = cat3("You are already blocking ", blocked_name.as_str(), ".");
            self.deliver_msg_to(uid, &Sndr::Error(t.as_str()));
        }
        v
    }

    /// Takes a user off the sender's block list. The sender is told the
    /// outcome directly.
    pub fn do_unblock(&mut self, rid: u64, uid: u64, user_name: String) -> (r: Vec<Env>)
        requires
            old(self).wf(),
            old(self).users_by_id().contains_key(uid),
        ensures
            final(self).wf(),
            final(self).users_by_id().dom() == old(self).users_by_id().dom(),
            final(self).users_by_name() == old(self).users_by_name(),
            final(self).rooms_by_id() == old(self).rooms_by_id(),
            final(self).location() == old(self).location(),
            ({
                let n = normalize(user_name@);
                if n.len() > 0 && old(self).users_by_name().contains_key(n) && old(self).users_by_name()[n] != uid {
                    final(self).users_by_id()[uid].blocks() == crate::user::without_blocked(
                        old(self).users_by_id()[uid].blocks(),
                        old(self).users_by_name()[n],
                    ) && r@.len() == 0
                } else {
                    final(self).users_by_id() == old(self).users_by_id() && r@.len() == 1
                        && r@[0]@.1 == End::User(uid)
                }
            }),
            other_user(*old(self), uid, user_name@) ==> {
                let t = target_of(*old(self), user_name@);
                let tn = old(self).users_by_id()[t].name();
                final(self).users_by_id()[uid].outgoing() == old(self).users_by_id()[uid].outgoing() + if old(self).users_by_id()[uid].blocks().contains(t) {
                    info_json("You unblock "@ + tn + "."@)
                } else {
                    err_json("You were not blocking "@ + tn + "."@)
                }
            },
            !other_user(*old(self), uid, user_name@) ==> r@[0]@ == (End::Server, End::User(uid), unresolved_reply(
                *old(self),
                uid,
                user_name@,
                true,
                err_json("You couldn't block yourself; you can't unblock yourself."@),
            )),
    {
        let collapsed = ascollapse(user_name.as_str());
        let mut v: Vec<Env> = Vec::new();
        if collapsed.as_str().unicode_len() == 0 {
            v.push(err_env(End::User(uid), "That cannot be anyone's user name."));
            return v;
        }
        let ouid = match self.user_id_named(collapsed.as_str()) {
            None => {
                let t = cat3("No users matching the pattern \"", collapsed.as_str(), "\".");
                v.push(info_env(End::User(uid), t.as_str()));
                return v;
            },
            Some(n) => n,
        };
        if ouid == uid {
            v.push(
                err_env(End::User(uid), "You couldn't block yourself; you can't unblock yourself."),
            );
            return v;
        }
        let blocked_name = self.user_name(ouid);
        if self.unblock_for(uid, ouid) {
            let t = cat3("You unblock ", blocked_name.as_str(), ".");
            self.deliver_msg_to(uid, &Sndr::Info(t.as_str()));
        } else {
            let t = cat3("You were not blocking ", blocked_name.as_str(), ".");
            self.deliver_msg_to(uid, &Sndr::Error(t.as_str()));
        }
        v
    }

    /// The user leaves: out of its room and both user tables, a `Logout`
    /// queued for it, and the room told with the farewell.
    pub fn do_logout(&mut self, rid: u64, uid: u64, salutation: String) -> (r: Vec<Env>)
        requires
            old(self).wf(),
            old(self).users_by_id().contains_key(uid),
        ensures
            final(self).wf(),
            final(self).users_by_id() == old(self).users_by_id().remove(uid),
            final(self).users_by_name() == old(self).users_by_name().remove(
                old(self).users_by_id()[uid].idstr(),
            ),
            final(self).location() == old(self).location().remove(uid),
            final(self).rooms_by_id().dom() == old(self).rooms_by_id().dom(),
            final(self).departures().len() == old(self).departures().len() + 1,
            final(self).departures().last().id() == uid,
            final(self).departures().last().outgoing() == old(self).users_by_id()[uid].outgoing()
                + sndr_json(Sndr::Logout("You have logged out.")),
            r@.len() == 1,
            r@[0]@ == (End::Server, End::Room(old(self).location()[uid]), misc_json(
                "leave"@,
                seq![old(self).users_by_id()[uid].name(), salutation@],
                old(self).users_by_id()[uid].name() + " leaves: "@ + salutation@,
            )),
    {
        let cur = self.room_of(uid);
        let mut u = self.remove_user(uid);
        u.logout("You have logged out.");
        let name = u.get_name().to_owned();
        self.push_departed(u);
        let data = pair(name.as_str(), salutation.as_str());
        let alt = cat3(name.as_str(), " leaves: ", salutation.as_str());
        let mut v: Vec<Env> = Vec::new();
        v.push(misc_env(End::Room(cur), "leave", &data, alt.as_str()));
        v
    }

    /// The names of a room's members other than its operator, in order.
    fn member_names(&self, rid: u64) -> (r: Vec<String>)
        requires
            self.wf(),
            self.rooms_by_id().contains_key(rid),
        ensures
            string_views(r@) == names_except(*self, self.rooms_by_id()[rid].members(), self.rooms_by_id()[rid].op()),
    {
        let op_id = self.room_ref(rid).get_op();
        let members = self.room_ref(rid).get_users();
        let mut names: Vec<String> = Vec::new();
        let mut i: usize = 0;
        while i < members.len()
            invariant
                self.wf(),
                i <= members@.len(),
                members@ == self.rooms_by_id()[rid].members(),
                self.rooms_by_id().contains_key(rid),
                op_id == self.rooms_by_id()[rid].op(),
                string_views(names@) == names_except(*self, members@.take(i as int), op_id),
            decreases members@.len() - i,
        {
            let m = members[i];
            proof {
                assert(members@.take(i + 1).drop_last() =~= members@.take(i as int));
                assert(members@.take(i + 1).last() == m);
            }
            if m != op_id {
                assert(self.rooms_by_id()[rid].members().contains(m));
                let nm = self.user_name(m);
                let ghost before = names@;
                names.push(nm);
                assert(string_views(names@) =~= string_views(before).push(nm@));
            }
            i = i + 1;
        }
        assert(members@.take(i as int) =~= members@);
        names
    }

    /// The user's address, sent to it directly.
    fn query_addr(&mut self, uid: u64)
        requires
            old(self).wf(),
            old(self).users_by_id().contains_key(uid),
        ensures
            final(self).wf(),
            final(self).same_but_user(old(self), uid),
            final(self).users_by_id()[uid].same_but_outgoing(&old(self).users_by_id()[uid]),
            exists|alt: Seq<char>| final(self).users_by_id()[uid].outgoing() == old(self).users_by_id()[uid].outgoing()
                + misc_json("addr"@, seq![addr_or_unknown(old(self).users_by_id()[uid])], alt),
    {
        let (addr_str, alt_str) = match self.user_ref(uid).get_addr() {
            None => ("???".to_owned(), "Your public address cannot be determined.".to_owned()),
            Some(a) => {
                let t = cat3("Your public address is ", a.as_str(), ".");
                (a, t)
            },
        };
        let ghost shown = addr_str@;
        assert(shown == addr_or_unknown(old(self).users_by_id()[uid]));
        let mut data: Vec<String> = Vec::new();
        data.push(addr_str);
        assert(string_views(data@) =~= seq![shown]);
        let refs = str_refs(&data);
        let msg = Sndr::Misc { what: "addr", data: refs.as_slice(), alt: alt_str.as_str() };
        self.deliver_msg_to(uid, &msg);
        assert(sndr_json(msg) == misc_json("addr"@, seq![shown], alt_str@));
    }

    /// The room's roster: the operator first (outside the lobby), then the
    /// other members in the order they came in.
    fn query_roster(&self, rid: u64, uid: u64) -> (r: Env)
        requires
            self.wf(),
            self.rooms_by_id().contains_key(rid),
        ensures
            r@.0 == End::Server,
            r@.1 == End::User(uid),
            r@.2 == misc_json("roster"@, roster(*self, rid), roster_alt(*self, rid)),
    {
        let op_id = self.room_ref(rid).get_op();
        let rname = self.room_name(rid);
        let names = self.member_names(rid);
        let mut altstr: String;
        let mut data: Vec<String> = Vec::new();
        if op_id == 0 {
            altstr = cat2(rname.as_str(), " roster: ");
        } else {
            let op_name = if self.has_user(op_id) {
                self.user_name(op_id)
            } else {
                "[ ??? ]".to_owned()
            };
            altstr = cat4(rname.as_str(), " roster: ", op_name.as_str(), " (operator) ");
            data.push(op_name);
        }
        crate::handlers::append_comma_delimited_list(&mut altstr, &names);
        let ghost head = string_views(data@);
        let mut i: usize = 0;
        while i < names.len()
            invariant
                i <= names@.len(),
                string_views(data@) == head + string_views(names@).take(i as int),
            decreases names@.len() - i,
        {
            let ghost before = data@;
            let c = names[i].clone();
            assert(c@ == names@[i as int]@);
            data.push(c);
            assert(string_views(data@) =~= string_views(before).push(c@));
            assert(string_views(names@).take(i + 1) =~= string_views(names@).take(i as int).push(names@[i as int]@));
            assert(string_views(data@) =~= head + string_views(names@).take(i + 1));
            i = i + 1;
        }
        assert(string_views(names@).take(i as int) =~= string_views(names@));
        proof {
            if op_id == 0 {
                assert(head =~= Seq::<Seq<char>>::empty());
                assert(string_views(data@) =~= roster(*self, rid));
            } else {
                assert(string_views(data@) =~= roster(*self, rid));
            }
        }
        let r = misc_env(End::User(uid), "roster", &data, altstr.as_str());
        assert(altstr@ =~= roster_alt(*self, rid));
        assert(r@.2 == misc_json("roster"@, roster(*self, rid), altstr@));
        r
    }

    /// The users (or, with `rooms`, the rooms) whose normalized names start
    /// with the normalized pattern.
    fn query_names(&self, uid: u64, arg: &str, rooms: bool) -> (r: Env)
        requires
            self.wf(),
        ensures
            ({
                let p = normalize(arg@);
                let m = with_prefix(name_order(*self, rooms), p);
                &&& r@.0 == End::Server
                &&& r@.1 == End::User(uid)
                &&& m.len() == 0 && !rooms ==> r@.2 == info_json(
                    "No users matching the pattern \""@ + p + "\"."@,
                )
                &&& m.len() == 0 && rooms ==> r@.2 == info_json(
                    "No Rooms matching the pattern \""@ + p + "\"."@,
                )
                &&& m.len() > 0 && !rooms ==> r@.2 == misc_json("who"@, m, "Matching names: "@ + comma_joined(m))
                &&& m.len() > 0 && rooms ==> r@.2 == misc_json("rooms"@, m, "Matching Rooms: "@ + comma_joined(m))
            }),
    {
        let collapsed = ascollapse(arg);
        let matches = if rooms {
            self.room_names_with_prefix(collapsed.as_str())
        } else {
            self.user_names_with_prefix(collapsed.as_str())
        };
        let ghost m = with_prefix(name_order(*self, rooms), normalize(arg@));
        assert(string_views(matches@) =~= matches@.map_values(|s: String| s@));
        assert(string_views(matches@) == m);
        assert(m.len() == matches@.len());
        if matches.len() == 0 {
            let t = if rooms {
                cat3("No Rooms matching the pattern \"", collapsed.as_str(), "\".")
            } else {
                cat3("No users matching the pattern \"", collapsed.as_str(), "\".")
            };
            info_env(End::User(uid), t.as_str())
        } else {
            let mut altstr = if rooms {
                "Matching Rooms: ".to_owned()
            } else {
                "Matching names: ".to_owned()
            };
            crate::handlers::append_comma_delimited_list(&mut altstr, &matches);
            let what = if rooms {
                "rooms"
            } else {
                "who"
            };
            let r = misc_env(End::User(uid), what, &matches, altstr.as_str());
            assert(r@.2 == misc_json(what@, m, altstr@));
            assert(altstr@ == (if rooms { "Matching Rooms: "@ } else { "Matching names: "@ }) + comma_joined(m));
            r
        }
    }

    /// Answers a query: the user's address (sent to it directly), the
    /// room's roster, the users or rooms whose normalized names start with
    /// a pattern, or an error for anything else.
    pub fn do_query(&mut self, rid: u64, uid: u64, what: String, arg: String) -> (r: Vec<Env>)
        requires
            old(self).wf(),
            old(self).users_by_id().contains_key(uid),
            old(self).rooms_by_id().contains_key(rid),
        ensures
            final(self).wf(),
            final(self).same_but_user(old(self), uid),
            final(self).users_by_id()[uid].same_but_outgoing(&old(self).users_by_id()[uid]),
            what@ == "addr"@ ==> r@.len() == 0 && exists|alt: Seq<char>| final(self).users_by_id()[uid].outgoing()
                == old(self).users_by_id()[uid].outgoing() + misc_json(
                "addr"@,
                seq![addr_or_unknown(old(self).users_by_id()[uid])],
                alt,
            ),
            what@ != "addr"@ ==> r@.len() == 1 && r@[0]@.0 == End::Server && r@[0]@.1
                == End::User(uid) && final(self).users_by_id() == old(self).users_by_id(),
            what@ == "roster"@ ==> r@[0]@.2 == misc_json("roster"@, roster(*old(self), rid), roster_alt(*old(self), rid)),
            what@ == "who"@ ==> ({
                let p = normalize(arg@);
                let m = with_prefix(old(self).user_name_order(), p);
                &&& m.len() == 0 ==> r@[0]@.2 == info_json(
                    "No users matching the pattern \""@ + p + "\"."@,
                )
                &&& m.len() > 0 ==> r@[0]@.2 == misc_json("who"@, m, "Matching names: "@ + comma_joined(m))
            }),
            what@ == "rooms"@ ==> ({
                let p = normalize(arg@);
                let m = with_prefix(old(self).room_name_order(), p);
                &&& m.len() == 0 ==> r@[0]@.2 == info_json(
                    "No Rooms matching the pattern \""@ + p + "\"."@,
                )
                &&& m.len() > 0 ==> r@[0]@.2 == misc_json("rooms"@, m, "Matching Rooms: "@ + comma_joined(m))
            }),
            what@ != "addr"@ && what@ != "roster"@ && what@ != "who"@ && what@ != "rooms"@
                ==> r@[0]@.2 == err_json("Unknown \"Query\" type: \""@ + what@ + "\"."@),
    {
        proof {
            reveal_strlit("addr");
            reveal_strlit("roster");
            reveal_strlit("who");
            reveal_strlit("rooms");
            assert("addr"@.len() == 4);
            assert("who"@.len() == 3);
            assert("addr"@ != "who"@);
            assert("addr"@ != "rooms"@);
            assert("addr"@ != "roster"@);
            assert("roster"@ != "who"@);
            assert("roster"@[2] == 's');
            assert("rooms"@[2] == 'o');
            assert("roster"@ != "rooms"@);
            assert("who"@ != "rooms"@);
        }
        let mut v: Vec<Env> = Vec::new();
        if str_eq(what.as_str(), "addr") {
            self.query_addr(uid);
            return v;
        }
        let ghost before = *self;
        assert(before == *old(self));
        if str_eq(what.as_str(), "roster") {
            v.push(self.query_roster(rid, uid));
        } else if str_eq(what.as_str(), "who") {
            v.push(self.query_names(uid, arg.as_str(), false));
        } else if str_eq(what.as_str(), "rooms") {
            v.push(self.query_names(uid, arg.as_str(), true));
        } else {
            let t = cat3("Unknown \"Query\" type: \"", what.as_str(), "\".");
            v.push(err_env(End::User(uid), t.as_str()));
        }
        proof {
            assert(self.users_by_id() == before.users_by_id());
            assert(self.users_by_id().dom() == old(self).users_by_id().dom());
        }
        v
    }

    /// Opens or closes the room. Already so: the operator is told; else the
    /// room is.
    fn op_open_close(&mut self, rid: u64, uid: u64, close: bool) -> (r: Vec<Env>)
        requires
            old(self).wf(),
            old(self).users_by_id().contains_key(uid),
            old(self).rooms_by_id().contains_key(rid),
        ensures
            final(self).wf(),
            open_close_post(*old(self), *final(self), rid, uid, close, envs_of(r@)),
    {
        let rname = self.room_name(rid);
        let op_name = self.user_name(uid);
        let mut v: Vec<Env> = Vec::new();
        if self.room_ref(rid).get_closed() == close {
            let t = if close {
                cat2(rname.as_str(), " is already closed.")
            } else {
                cat2(rname.as_str(), " is already open.")
            };
            v.push(info_env(End::User(uid), t.as_str()));
            let ghost before = *self;
            proof {
                assert(self.same_but_room(&before, rid));
            }
            return v;
        }
        self.room_set_closed(rid, close);
        let t = if close {
            cat4(op_name.as_str(), " has closed ", rname.as_str(), ".")
        } else {
            cat4(op_name.as_str(), " has opened ", rname.as_str(), ".")
        };
        v.push(info_env(End::Room(rid), t.as_str()));
        v
    }

    /// Hands the operator role to a member of the room.
    fn op_give(&mut self, rid: u64, uid: u64, new_name: String) -> (r: Vec<Env>)
        requires
            old(self).wf(),
            old(self).users_by_id().contains_key(uid),
            old(self).rooms_by_id().contains_key(rid),
            rid != 0,
        ensures
            final(self).wf(),
            give_post(*old(self), *final(self), rid, uid, new_name@, envs_of(r@)),
    {
        let mut v: Vec<Env> = Vec::new();
        let ghost before = *self;
        let collapsed = ascollapse(new_name.as_str());
        if collapsed.as_str().unicode_len() == 0 {
            v.push(err_env(End::User(uid), "That cannot be anyone's user name."));
            assert(self.same_but_room(&before, rid));
            return v;
        }
        let ouid = match self.user_id_named(collapsed.as_str()) {
            None => {
                let t = cat3("No users matching the pattern \"", collapsed.as_str(), "\".");
                v.push(info_env(End::User(uid), t.as_str()));
                assert(self.same_but_room(&before, rid));
                return v;
            },
            Some(n) => n,
        };
        if ouid == uid {
            v.push(info_env(End::User(uid), "You are already the operator of this room."));
            assert(self.same_but_room(&before, rid));
            return v;
        }
        let ou_name = self.user_name(ouid);
        if !self.room_ref(rid).has_member(ouid) {
            let t = cat2(ou_name.as_str(), " must be in the room to transfer ownership.");
            v.push(info_env(End::User(uid), t.as_str()));
            assert(self.same_but_room(&before, rid));
            return v;
        }
        self.room_set_op(rid, ouid);
        let t = cat3("The room operator is now ", ou_name.as_str(), ".");
        v.push(info_env(End::Room(rid), t.as_str()));
        v
    }

    /// Puts a user on the room's invite list (and off its ban list). The
    /// invitee is told directly, the operator by the returned envelope.
    fn op_invite(&mut self, rid: u64, uid: u64, uname: String) -> (r: Vec<Env>)
        requires
            old(self).wf(),
            old(self).users_by_id().contains_key(uid),
            old(self).rooms_by_id().contains_key(rid),
        ensures
            final(self).wf(),
            invite_post(*old(self), *final(self), rid, uid, uname@, envs_of(r@)),
    {
        let mut v: Vec<Env> = Vec::new();
        let collapsed = ascollapse(uname.as_str());
        if collapsed.as_str().unicode_len() == 0 {
            v.push(info_env(End::User(uid), "That cannot be anyone's user name."));
            return v;
        }
        let ouid = match self.user_id_named(collapsed.as_str()) {
            None => {
                let t = cat3("No users matching the pattern \"", collapsed.as_str(), "\".");
                v.push(info_env(End::User(uid), t.as_str()));
                return v;
            },
            Some(n) => n,
        };
        let rname = self.room_name(rid);
        if ouid == uid {
            let t = cat3("You are already allowed in ", rname.as_str(), ".");
            v.push(info_env(End::User(uid), t.as_str()));
            return v;
        }
        let ou_name = self.user_name(ouid);
        if self.room_ref(rid).is_invited(&ouid) {
            let t = cat4(ou_name.as_str(), " has already been invited to ", rname.as_str(), ".");
            v.push(info_env(End::User(uid), t.as_str()));
            return v;
        }
        self.room_invite(rid, ouid);
        let (inviter_msg, invitee_msg) = if self.room_ref(rid).has_member(ouid) {
            (
                cat4(ou_name.as_str(), " may now return to ", rname.as_str(), " even when closed."),
                cat3("You have been invited to return to ", rname.as_str(), " even if it closes."),
            )
        } else {
            (
                cat5("You invite ", ou_name.as_str(), " to join ", rname.as_str(), "."),
                cat3("You have been invited to join ", rname.as_str(), "."),
            )
        };
        self.deliver_msg_to(ouid, &Sndr::Info(invitee_msg.as_str()));
        v.push(info_env(End::User(uid), inviter_msg.as_str()));
        v
    }

    /// Bans a user from the room; one who is there is sent to the lobby,
    /// and the room hears of it.
    #[verifier::rlimit(60)]
    pub fn op_kick(&mut self, rid: u64, uid: u64, uname: String) -> (r: Vec<Env>)
        requires
            old(self).wf(),
            old(self).users_by_id().contains_key(uid),
            old(self).rooms_by_id().contains_key(rid),
            rid != 0,
        ensures
            final(self).wf(),
            kick_post(*old(self), *final(self), rid, uid, uname@, envs_of(r@)),
    {
        let mut v: Vec<Env> = Vec::new();
        let collapsed = ascollapse(uname.as_str());
        if collapsed.as_str().unicode_len() == 0 {
            v.push(info_env(End::User(uid), "That cannot be anyone's user name."));
            return v;
        }
        let ouid = match self.user_id_named(collapsed.as_str()) {
            None => {
                let t = cat3("No users matching the pattern \"", collapsed.as_str(), "\".");
                v.push(info_env(End::User(uid), t.as_str()));
                return v;
            },
            Some(n) => n,
        };
        if ouid == uid {
            v.push(
                info_env(
                    End::User(uid),
                    "Bestowing the operator mantle on another and then leaving would be a more orderly transfer of power.",
                ),
            );
            return v;
        }
        let rname = self.room_name(rid);
        let ku_name = self.user_name(ouid);
        if self.room_ref(rid).is_banned(&ouid) {
            let t = cat4(ku_name.as_str(), " is already banned from ", rname.as_str(), ".");
            v.push(info_env(End::User(uid), t.as_str()));
            return v;
        }
        if !self.room_ref(rid).has_member(ouid) {
            self.room_ban(rid, ouid);
            let t = cat5("You have banned ", ku_name.as_str(), " from ", rname.as_str(), ".");
            v.push(info_env(End::User(uid), t.as_str()));
            return v;
        }
        let t = cat3("You have been kicked from ", rname.as_str(), ".");
        self.deliver_msg_to(ouid, &Sndr::Info(t.as_str()));
        assert(self.location()[ouid] == rid);
        self.move_member(ouid, rid, 0);
        assert(!self.rooms_by_id()[rid].members().contains(ouid));
        self.room_ban(rid, ouid);
        let lobby_name = self.room_name(0);
        let data = pair(ku_name.as_str(), lobby_name.as_str());
        let alt = cat4(ku_name.as_str(), " joins ", lobby_name.as_str(), ".");
        let to_lobby = misc_env(End::Room(0), "join", &data, alt.as_str());
        self.room_enqueue(0, to_lobby);
        let data = pair(ku_name.as_str(), rname.as_str());
        let alt = cat4(ku_name.as_str(), " has been kicked from ", rname.as_str(), ".");
        v.push(misc_env(End::Room(rid), "kick_other", &data, alt.as_str()));
        proof {
            assert(self.rooms_by_id()[0].members().contains(ouid));
        }
        v
    }

    /// A room-operator command; refused unless the sender is the operator
    /// of the room (the lobby has none).
    pub fn do_op(&mut self, rid: u64, uid: u64, op: RcvOp) -> (r: Vec<Env>)
        requires
            old(self).wf(),
            old(self).users_by_id().contains_key(uid),
            old(self).rooms_by_id().contains_key(rid),
        ensures
            final(self).wf(),
            final(self).users_by_id().dom() == old(self).users_by_id().dom(),
            final(self).users_by_name() == old(self).users_by_name(),
            final(self).rooms_by_id().dom() == old(self).rooms_by_id().dom(),
            r@.len() == 1,
            rid == 0 || old(self).rooms_by_id()[rid].op() != uid ==> {
                &&& final(self).users_by_id() == old(self).users_by_id()
                &&& final(self).rooms_by_id() == old(self).rooms_by_id()
                &&& final(self).rooms_by_name() == old(self).rooms_by_name()
                &&& final(self).location() == old(self).location()
                &&& r@[0]@ == (End::Server, End::User(uid), err_json(
                    "You are not the operator of this Room."@,
                ))
            },
            rid != 0 && old(self).rooms_by_id()[rid].op() == uid ==> match op {
                RcvOp::Open => open_close_post(*old(self), *final(self), rid, uid, false, envs_of(r@)),
                RcvOp::Close => open_close_post(*old(self), *final(self), rid, uid, true, envs_of(r@)),
                RcvOp::Give(n) => give_post(*old(self), *final(self), rid, uid, n@, envs_of(r@)),
                RcvOp::Invite(n) => invite_post(*old(self), *final(self), rid, uid, n@, envs_of(r@)),
                RcvOp::Kick(n) => kick_post(*old(self), *final(self), rid, uid, n@, envs_of(r@)),
            },
    {
        if rid == 0 || self.room_ref(rid).get_op() != uid {
            let mut v: Vec<Env> = Vec::new();
            v.push(err_env(End::User(uid), "You are not the operator of this Room."));
            return v;
        }
        match op {
            RcvOp::Open => self.op_open_close(rid, uid, false),
            RcvOp::Close => self.op_open_close(rid, uid, true),
            RcvOp::Give(n) => self.op_give(rid, uid, n),
            RcvOp::Invite(n) => self.op_invite(rid, uid, n),
            RcvOp::Kick(n) => self.op_kick(rid, uid, n),
        }
    }

    /// A private message: an echo to the sender and the message to its
    /// addressee, or an error when no user has that name.
    pub fn do_priv(&self, rid: u64, uid: u64, who: String, text: String) -> (r: Vec<Env>)
        requires
            self.wf(),
            self.users_by_id().contains_key(uid),
        ensures
            normalize(who@).len() == 0 ==> r@.len() == 1 && r@[0]@ == (
                End::Server,
                End::User(uid),
                err_json(
                    "The recipient name must have at least one non-whitespace character."@,
                ),
            ),
            normalize(who@).len() > 0 && !self.users_by_name().contains_key(normalize(who@))
                ==> r@.len() == 1 && r@[0]@ == (End::Server, End::User(uid), err_json(
                "There is no user whose name matches \""@ + normalize(who@) + "\"."@,
            )),
            normalize(who@).len() > 0 && self.users_by_name().contains_key(normalize(who@)) ==> {
                let tgt = self.users_by_name()[normalize(who@)];
                let tn = self.users_by_id()[tgt].name();
                &&& r@.len() == 2
                &&& r@[0]@ == (End::Server, End::User(uid), misc_json(
                    "priv_echo"@,
                    seq![tn, text@],
                    "$ You @ "@ + tn + ": "@ + text@,
                ))
                &&& r@[1]@ == (End::User(uid), End::User(tgt), json_obj1(
                    "Priv"@,
                    json_obj2(
                        "who"@,
                        json_str(self.users_by_id()[uid].name()),
                        "text"@,
                        json_str(text@),
                    ),
                ))
            },
    {
        let to_tok = ascollapse(who.as_str());
        let mut v: Vec<Env> = Vec::new();
        if to_tok.as_str().unicode_len() == 0 {
            v.push(err_env(
                End::User(uid),
                "The recipient name must have at least one non-whitespace character.",
            ));
            return v;
        }
        let tgt_uid = match self.user_id_named(to_tok.as_str()) {
            None => {
                let t = cat3("There is no user whose name matches \"", to_tok.as_str(), "\".");
                v.push(err_env(End::User(uid), t.as_str()));
                return v;
            },
            Some(n) => n,
        };
        let tgt_name = self.user_name(tgt_uid);
        let sender = self.user_name(uid);
        let data = pair(tgt_name.as_str(), text.as_str());
        let alt = cat4("$ You @ ", tgt_name.as_str(), ": ", text.as_str());
        v.push(misc_env(End::User(uid), "priv_echo", &data, alt.as_str()));
        v.push(
            Env::new(
                End::User(uid),
                End::User(tgt_uid),
                &Sndr::Priv { who: sender.as_str(), text: text.as_str() },
            ),
        );
        v
    }
}

} // verus!
