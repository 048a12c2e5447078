//! A room: a named chat channel with its members, operator, ban and invite
//! lists, and an inbox of envelopes posted to it by other rooms' handlers.

use vstd::prelude::*;
use std::collections::HashMap;
use crate::names::{ascollapse, normalize};
use crate::proto::{End, Env};
use crate::user::{User, delivers_to};

verus! {

broadcast use vstd::std_specs::hash::group_hash_axioms;

pub open spec fn env_views(es: Seq<Env>) -> Seq<(End, End, Seq<u8>)> {
    es.map_values(|e: Env| e@)
}

/// `s` without the entries equal to `x`, in the same order.
pub open spec fn without_id(s: Seq<u64>, x: u64) -> Seq<u64> {
    s.filter(|y: u64| y != x)
}

/// Whether user `uid` is among the recipients of an envelope sent by a room
/// with these members.
pub open spec fn addressed(members: Seq<u64>, e: (End, End, Seq<u8>), uid: u64) -> bool {
    match e.1 {
        End::User(t) => t == uid,
        _ => members.contains(uid),
    }
}

/// The bytes that user `u` takes from a run of envelopes.
pub open spec fn bytes_for(u: User, members: Seq<u64>, es: Seq<(End, End, Seq<u8>)>) -> Seq<u8>
    decreases es.len(),
{
    if es.len() == 0 {
        Seq::empty()
    } else {
        let e = es.last();
        bytes_for(u, members, es.drop_last()) + if addressed(members, e, u.id()) && delivers_to(
            u,
            e,
        ) {
            e.2
        } else {
            Seq::empty()
        }
    }
}

/// Every user keeps all but its outgoing bytes; each user filed under its
/// own id takes what `extra` says.
pub open spec fn delivered(
    before: Map<u64, User>,
    after: Map<u64, User>,
    extra: spec_fn(User) -> Seq<u8>,
) -> bool {
    &&& after.dom() == before.dom()
    &&& forall|k: u64| #[trigger]
        before.contains_key(k) ==> after[k].same_but_outgoing(&before[k]) && after[k].outgoing()
            == before[k].outgoing() + if before[k].id() == k {
            extra(before[k])
        } else {
            Seq::empty()
        }
}

pub struct Room {
    idn: u64,
    name: String,
    idstr: String,
    users: Vec<u64>,
    op: u64,
    closed: bool,
    bans: Vec<u64>,
    invites: Vec<u64>,
    inbox: Vec<Env>,
}

impl Room {
    pub closed spec fn id(&self) -> u64 {
        self.idn
    }

    pub closed spec fn name(&self) -> Seq<char> {
        self.name@
    }

    pub closed spec fn idstr(&self) -> Seq<char> {
        self.idstr@
    }

    /// Members in the order they came in.
    pub closed spec fn members(&self) -> Seq<u64> {
        self.users@
    }

    pub closed spec fn op(&self) -> u64 {
        self.op
    }

    pub closed spec fn is_closed(&self) -> bool {
        self.closed
    }

    pub closed spec fn bans(&self) -> Seq<u64> {
        self.bans@
    }

    pub closed spec fn invites(&self) -> Seq<u64> {
        self.invites@
    }

    pub closed spec fn inbox(&self) -> Seq<(End, End, Seq<u8>)> {
        env_views(self.inbox@)
    }

    /// No member twice; bans and invites are sets, and disjoint; the
    /// normalized name matches the name.
    pub open spec fn wf(&self) -> bool {
        &&& self.members().no_duplicates()
        &&& self.bans().no_duplicates()
        &&& self.invites().no_duplicates()
        &&& forall|u: u64| #[trigger] self.bans().contains(u) ==> !self.invites().contains(u)
        &&& forall|u: u64| #[trigger] self.members().contains(u) ==> !self.bans().contains(u)
        &&& self.idstr() == normalize(self.name())
    }

    /// Same identity, operator, flags and lists as `other`.
    pub open spec fn same_lists(&self, other: &Room) -> bool {
        &&& self.id() == other.id()
        &&& self.name() == other.name()
        &&& self.idstr() == other.idstr()
        &&& self.op() == other.op()
        &&& self.is_closed() == other.is_closed()
        &&& self.bans() == other.bans()
        &&& self.invites() == other.invites()
    }

    /// A new, open, empty room with `creator_id` as operator.
    pub fn new(id: u64, new_name: String, creator_id: u64) -> (r: Room)
        ensures
            r.wf(),
            r.id() == id,
            r.name() == new_name@,
            r.op() == creator_id,
            !r.is_closed(),
            r.members() == Seq::<u64>::empty(),
            r.bans() == Seq::<u64>::empty(),
            r.invites() == Seq::<u64>::empty(),
            r.inbox() == Seq::<(End, End, Seq<u8>)>::empty(),
    {
        let r = Room {
            idn: id,
            idstr: ascollapse(new_name.as_str()),
            name: new_name,
            users: Vec::new(),
            op: creator_id,
            closed: false,
            bans: Vec::new(),
            invites: Vec::new(),
            inbox: Vec::new(),
        };
        assert(r.inbox() =~= Seq::<(End, End, Seq<u8>)>::empty());
        r
    }

    pub fn get_id(&self) -> (r: u64)
        ensures
            r == self.id(),
    {
        self.idn
    }

    pub fn get_name(&self) -> (r: &str)
        ensures
            r@ == self.name(),
    {
        self.name.as_str()
    }

    pub fn get_idstr(&self) -> (r: &str)
        ensures
            r@ == self.idstr(),
    {
        self.idstr.as_str()
    }

    pub fn get_closed(&self) -> (r: bool)
        ensures
            r == self.is_closed(),
    {
        self.closed
    }

    pub fn set_closed(&mut self, closed: bool)
        ensures
            final(self).is_closed() == closed,
            final(self).id() == old(self).id(),
            final(self).name() == old(self).name(),
            final(self).idstr() == old(self).idstr(),
            final(self).op() == old(self).op(),
            final(self).members() == old(self).members(),
            final(self).bans() == old(self).bans(),
            final(self).invites() == old(self).invites(),
            final(self).inbox() == old(self).inbox(),
    {
        self.closed = closed;
    }

    /// Posts an envelope, to be delivered when this room is next processed.
    pub fn enqueue(&mut self, env: Env)
        ensures
            final(self).inbox() == old(self).inbox().push(env@),
            final(self).same_lists(old(self)),
            final(self).members() == old(self).members(),
    {
        self.inbox.push(env);
        assert(final(self).inbox() =~= old(self).inbox().push(env@));
    }

    /// Delivers one envelope: to its addressee if it is sent to a user,
    /// otherwise to every member.
    pub fn deliver(&self, env: &Env, uid_hash: &mut HashMap<u64, User>)
        requires
            self.members().no_duplicates(),
        ensures
            delivered(
                old(uid_hash)@,
                final(uid_hash)@,
                |u: User|
                    if addressed(self.members(), env@, u.id()) && delivers_to(u, env@) {
                        env@.2
                    } else {
                        Seq::empty()
                    },
            ),
    {
        match env.dest() {
            End::User(uid) => {
                deliver_one(env, uid, uid_hash);
                assert forall|k: u64| #[trigger] old(uid_hash)@.contains_key(k) implies (
                addressed(self.members(), env@, old(uid_hash)@[k].id()) && old(uid_hash)@[k].id()
                    == k) == (k == uid && old(uid_hash)@[k].id() == k) by {}
            },
            _ => {
                let mut i: usize = 0;
                while i < self.users.len()
                    invariant
                        i <= self.users@.len(),
                        self.users@.no_duplicates(),
                        env@.1 != End::User(0) || true,
                        !(env@.1 is User),
                        uid_hash@.dom() == old(uid_hash)@.dom(),
                        forall|k: u64| #[trigger]
                            old(uid_hash)@.contains_key(k) ==> uid_hash@[k].same_but_outgoing(
                                &old(uid_hash)@[k],
                            ) && uid_hash@[k].outgoing() == old(uid_hash)@[k].outgoing() + if old(
                                uid_hash,
                            )@[k].id() == k && self.users@.take(i as int).contains(k)
                                && delivers_to(old(uid_hash)@[k], env@) {
                                env@.2
                            } else {
                                Seq::empty()
                            },
                    decreases self.users@.len() - i,
                {
                    let uid = self.users[i];
                    let ghost mid = uid_hash@;
                    deliver_one(env, uid, uid_hash);
                    assert forall|k: u64| #[trigger]
                        old(uid_hash)@.contains_key(k) implies uid_hash@[k].same_but_outgoing(
                        &old(uid_hash)@[k],
                    ) && uid_hash@[k].outgoing() == old(uid_hash)@[k].outgoing() + if old(
                        uid_hash,
                    )@[k].id() == k && self.users@.take(i + 1).contains(k) && delivers_to(
                        old(uid_hash)@[k],
                        env@,
                    ) {
                        env@.2
                    } else {
                        Seq::empty()
                    } by {
                        assert(self.users@.take(i + 1) =~= self.users@.take(i as int).push(uid));
                        assert(mid.contains_key(k));
                        assert(mid[k].id() == old(uid_hash)@[k].id());
                        assert(mid[k].blocks() == old(uid_hash)@[k].blocks());
                        if k == uid {
                            assert(!self.users@.take(i as int).contains(uid)) by {
                                if self.users@.take(i as int).contains(uid) {
                                    let j = choose|j: int|
                                        0 <= j < i && self.users@.take(i as int)[j] == uid;
                                    assert(self.users@[j] == self.users@[i as int]);
                                }
                            }
                            assert(mid[k].outgoing() =~= old(uid_hash)@[k].outgoing());
                            assert(self.users@.take(i + 1)[i as int] == k);
                            assert(self.users@.take(i + 1).contains(k));
                            assert(uid_hash@[k].outgoing() == mid[k].outgoing() + if mid[k].id()
                                == k && delivers_to(mid[k], env@) {
                                env@.2
                            } else {
                                Seq::empty()
                            });
                        } else {
                            assert(self.users@.take(i + 1).contains(k) == self.users@.take(
                                i as int,
                            ).contains(k));
                            assert(uid_hash@[k].outgoing() =~= mid[k].outgoing());
                        }
                    }
                    i = i + 1;
                }
                assert(self.users@.take(i as int) =~= self.users@);
            },
        }
    }

    /// Delivers the inbox, in the order it was posted, and empties it.
    pub fn deliver_inbox(&mut self, uid_hash: &mut HashMap<u64, User>)
        requires
            old(self).members().no_duplicates(),
        ensures
            final(self).inbox() == Seq::<(End, End, Seq<u8>)>::empty(),
            final(self).same_lists(old(self)),
            final(self).members() == old(self).members(),
            delivered(
                old(uid_hash)@,
                final(uid_hash)@,
                |u: User| bytes_for(u, old(self).members(), old(self).inbox()),
            ),
    {
        let mut envs: Vec<Env> = Vec::new();
        std::mem::swap(&mut envs, &mut self.inbox);
        let ghost es = env_views(envs@);
        let mut i: usize = 0;
        while i < envs.len()
            invariant
                i <= envs@.len(),
                es == env_views(envs@),
                es == old(self).inbox(),
                self.users@.no_duplicates(),
                self.users@ == old(self).members(),
                self.inbox@ == Seq::<Env>::empty(),
                self.same_lists(old(self)),
                uid_hash@.dom() == old(uid_hash)@.dom(),
                forall|k: u64| #[trigger]
                    old(uid_hash)@.contains_key(k) ==> uid_hash@[k].same_but_outgoing(
                        &old(uid_hash)@[k],
                    ) && uid_hash@[k].outgoing() == old(uid_hash)@[k].outgoing() + if old(
                        uid_hash,
                    )@[k].id() == k {
                        bytes_for(old(uid_hash)@[k], self.users@, es.take(i as int))
                    } else {
                        Seq::empty()
                    },
            decreases envs@.len() - i,
        {
            let ghost mid = uid_hash@;
            self.deliver(&envs[i], uid_hash);
            proof {
                assert(es.take(i + 1).drop_last() =~= es.take(i as int));
                assert(es.take(i + 1).last() == envs@[i as int]@);
                assert forall|k: u64| #[trigger] old(uid_hash)@.contains_key(k) implies uid_hash@[
                k].same_but_outgoing(&old(uid_hash)@[k]) && uid_hash@[k].outgoing() == old(
                    uid_hash,
                )@[k].outgoing() + if old(uid_hash)@[k].id() == k {
                    bytes_for(old(uid_hash)@[k], self.users@, es.take(i + 1))
                } else {
                    Seq::empty()
                } by {
                    assert(mid.contains_key(k));
                    assert(old(uid_hash)@[k].blocks() == mid[k].blocks());
                    assert(delivers_to(old(uid_hash)@[k], envs@[i as int]@) == delivers_to(
                        mid[k],
                        envs@[i as int]@,
                    ));
                }
            }
            i = i + 1;
        }
        assert(es.take(i as int) =~= es);
        assert(self.inbox() =~= Seq::<(End, End, Seq<u8>)>::empty());
    }

    /// Adds a member at the end.
    pub fn join(&mut self, uid: u64)
        ensures
            final(self).members() == old(self).members().push(uid),
            old(self).wf() && !old(self).members().contains(uid) && !old(self).bans().contains(uid)
                ==> final(self).wf(),
            final(self).same_lists(old(self)),
            final(self).inbox() == old(self).inbox(),
    {
        self.users.push(uid);
        proof {
            if old(self).wf() && !old(self).members().contains(uid) && !old(self).bans().contains(
                uid,
            ) {
                assert forall|u: u64| #[trigger] self.members().contains(u) implies !self.bans().contains(u) by {
                    if u != uid {
                        let j = choose|j: int| 0 <= j < self.users@.len() && self.users@[j] == u;
                        assert(old(self).users@[j] == u);
                        assert(old(self).members().contains(u));
                    }
                    assert(self.bans() == old(self).bans());
                }
            }
        }
    }

    /// Removes `uid` from the members; the others keep their order.
    pub fn leave(&mut self, uid: u64)
        ensures
            final(self).members() == without_id(old(self).members(), uid),
            forall|x: u64| #[trigger]
                final(self).members().contains(x) <==> old(self).members().contains(x) && x
                    != uid,
            old(self).wf() ==> final(self).wf(),
            final(self).same_lists(old(self)),
            final(self).inbox() == old(self).inbox(),
    {
        self.users = without(&self.users, uid);
    }

    /// Bans `uid`: off the invite list, on the ban list.
    pub fn ban(&mut self, uid: u64)
        ensures
            final(self).invites() == without_id(old(self).invites(), uid),
            final(self).bans() == (if old(self).bans().contains(uid) {
                old(self).bans()
            } else {
                old(self).bans().push(uid)
            }),
            final(self).id() == old(self).id(),
            final(self).name() == old(self).name(),
            final(self).idstr() == old(self).idstr(),
            final(self).op() == old(self).op(),
            final(self).is_closed() == old(self).is_closed(),
            final(self).members() == old(self).members(),
            final(self).inbox() == old(self).inbox(),
            final(self).bans().contains(uid),
            !final(self).invites().contains(uid),
            old(self).wf() && !old(self).members().contains(uid) ==> final(self).wf(),
    {
        self.invites = without(&self.invites, uid);
        if !contains(&self.bans, uid) {
            self.bans.push(uid);
        }
        assert(self.bans@.contains(uid)) by {
            if !old(self).bans@.contains(uid) {
                assert(self.bans@.last() == uid);
            }
        }
        proof {
            if old(self).wf() {
                assert forall|u: u64| #[trigger] self.bans().contains(u) implies !self.invites().contains(u) by {
                    if u != uid {
                        if !old(self).bans@.contains(uid) {
                            let j = choose|j: int| 0 <= j < self.bans@.len() && self.bans@[j] == u;
                            assert(old(self).bans@[j] == u);
                        }
                        assert(old(self).bans().contains(u));
                        assert(!old(self).invites().contains(u));
                    }
                    assert(!self.invites@.contains(u));
                }
            }
        }
    }

    /// Invites `uid`: off the ban list, on the invite list.
    pub fn invite(&mut self, uid: u64)
        ensures
            final(self).bans() == without_id(old(self).bans(), uid),
            final(self).invites() == (if old(self).invites().contains(uid) {
                old(self).invites()
            } else {
                old(self).invites().push(uid)
            }),
            final(self).id() == old(self).id(),
            final(self).name() == old(self).name(),
            final(self).idstr() == old(self).idstr(),
            final(self).op() == old(self).op(),
            final(self).is_closed() == old(self).is_closed(),
            final(self).members() == old(self).members(),
            final(self).inbox() == old(self).inbox(),
            final(self).invites().contains(uid),
            !final(self).bans().contains(uid),
            old(self).wf() ==> final(self).wf(),
    {
        self.bans = without(&self.bans, uid);
        if !contains(&self.invites, uid) {
            self.invites.push(uid);
        }
        assert(self.invites@.contains(uid)) by {
            if !old(self).invites@.contains(uid) {
                assert(self.invites@.last() == uid);
            }
        }
        proof {
            if old(self).wf() {
                assert forall|u: u64| #[trigger] self.bans().contains(u) implies !self.invites().contains(u) by {
                    assert(u != uid);
                    assert(old(self).bans().contains(u));
                    assert(!old(self).invites().contains(u));
                    if self.invites().contains(u) && !old(self).invites@.contains(uid) {
                        let j = choose|j: int| 0 <= j < self.invites@.len() && self.invites@[j] == u;
                        assert(old(self).invites@[j] == u);
                    }
                }
            }
        }
    }

    pub fn set_op(&mut self, uid: u64)
        ensures
            final(self).op() == uid,
            final(self).id() == old(self).id(),
            final(self).name() == old(self).name(),
            final(self).idstr() == old(self).idstr(),
            final(self).is_closed() == old(self).is_closed(),
            final(self).bans() == old(self).bans(),
            final(self).invites() == old(self).invites(),
            final(self).members() == old(self).members(),
            final(self).inbox() == old(self).inbox(),
    {
        self.op = uid;
    }

    pub fn get_op(&self) -> (r: u64)
        ensures
            r == self.op(),
    {
        self.op
    }

    pub fn get_users(&self) -> (r: &[u64])
        ensures
            r@ == self.members(),
    {
        self.users.as_slice()
    }

    pub fn has_member(&self, uid: u64) -> (r: bool)
        ensures
            r == self.members().contains(uid),
    {
        contains(&self.users, uid)
    }

    pub fn is_banned(&self, uid: &u64) -> (r: bool)
        ensures
            r == self.bans().contains(*uid),
    {
        contains(&self.bans, *uid)
    }

    pub fn is_invited(&self, uid: &u64) -> (r: bool)
        ensures
            r == self.invites().contains(*uid),
    {
        contains(&self.invites, *uid)
    }
}

/// Delivers `env` to the user filed under `uid`, if there is one.
fn deliver_one(env: &Env, uid: u64, uid_hash: &mut HashMap<u64, User>)
    ensures
        final(uid_hash)@.dom() == old(uid_hash)@.dom(),
        forall|k: u64| #[trigger]
            old(uid_hash)@.contains_key(k) ==> final(uid_hash)@[k].same_but_outgoing(
                &old(uid_hash)@[k],
            ) && final(uid_hash)@[k].outgoing() == old(uid_hash)@[k].outgoing() + if k == uid
                && old(uid_hash)@[k].id() == k && delivers_to(old(uid_hash)@[k], env@) {
                env@.2
            } else {
                Seq::empty()
            },
{
    match uid_hash.remove(&uid) {
        Some(mut u) => {
            if u.get_id() == uid {
                u.deliver(env);
            }
            uid_hash.insert(uid, u);
            assert(uid_hash@.dom() =~= old(uid_hash)@.dom());
        },
        None => {},
    }
}

fn contains(v: &Vec<u64>, x: u64) -> (r: bool)
    ensures
        r == v@.contains(x),
{
    let mut i: usize = 0;
    while i < v.len()
        invariant
            i <= v@.len(),
            forall|j: int| 0 <= j < i ==> v@[j] != x,
        decreases v@.len() - i,
    {
        if v[i] == x {
            return true;
        }
        i = i + 1;
    }
    false
}

/// `v` without the entries equal to `x`, in the same order.
fn without(v: &Vec<u64>, x: u64) -> (r: Vec<u64>)
    ensures
        r@ == without_id(v@, x),
        forall|y: u64| #[trigger] r@.contains(y) <==> v@.contains(y) && y != x,
        v@.no_duplicates() ==> r@.no_duplicates(),
{
    let mut r: Vec<u64> = Vec::new();
    let mut i: usize = 0;
    while i < v.len()
        invariant
            i <= v@.len(),
            r@ == without_id(v@.take(i as int), x),
            forall|y: u64| #[trigger] r@.contains(y) <==> v@.take(i as int).contains(y) && y != x,
            v@.no_duplicates() ==> r@.no_duplicates(),
        decreases v@.len() - i,
    {
        proof {
            assert(v@.take(i + 1).drop_last() =~= v@.take(i as int));
            assert(v@.take(i + 1) =~= v@.take(i as int).push(v@[i as int]));
            reveal(Seq::filter);
        }
        let ghost before = r@;
        let ghost t = v@.take(i + 1);
        if v[i] != x {
            r.push(v[i]);
            proof {
                if v@.no_duplicates() {
                    assert(!v@.take(i as int).contains(v@[i as int])) by {
                        if v@.take(i as int).contains(v@[i as int]) {
                            let j = choose|j: int|
                                0 <= j < i && v@.take(i as int)[j] == v@[i as int];
                            assert(v@[j] == v@[i as int]);
                        }
                    }
                    assert(!before.contains(v@[i as int]));
                    assert forall|a: int, b: int|
                        0 <= a < b < r@.len() implies r@[a] != r@[b] by {
                        if b == r@.len() - 1 {
                            assert(before.contains(r@[a]));
                        } else {
                            assert(before[a] != before[b]);
                        }
                    }
                }
                assert forall|y: u64| #[trigger] r@.contains(y) <==> t.contains(y) && y != x by {
                    if r@.contains(y) {
                        let j = choose|j: int| 0 <= j < r@.len() && r@[j] == y;
                        if j < before.len() {
                            assert(before[j] == y);
                            assert(before.contains(y));
                            let k = choose|k: int| 0 <= k < i && v@.take(i as int)[k] == y;
                            assert(t[k] == y);
                        } else {
                            assert(t[i as int] == y);
                        }
                    }
                    if t.contains(y) && y != x {
                        let j = choose|j: int| 0 <= j < i + 1 && #[trigger] t[j] == y;
                        if j < i {
                            assert(v@.take(i as int)[j] == y);
                            assert(before.contains(y));
                            let k = choose|k: int| 0 <= k < before.len() && before[k] == y;
                            assert(r@[k] == y);
                        } else {
                            assert(r@[r@.len() - 1] == y);
                        }
                    }
                }
            }
        } else {
            proof {
                assert forall|y: u64| #[trigger] r@.contains(y) <==> t.contains(y) && y != x by {
                    if r@.contains(y) {
                        assert(v@.take(i as int).contains(y));
                        let k = choose|k: int| 0 <= k < i && v@.take(i as int)[k] == y;
                        assert(t[k] == y);
                    }
                    if t.contains(y) && y != x {
                        let j = choose|j: int| 0 <= j < i + 1 && #[trigger] t[j] == y;
                        if j < i {
                            assert(v@.take(i as int)[j] == y);
                        }
                    }
                }
            }
        }
        i = i + 1;
    }
    assert(v@.take(i as int) =~= v@);
    r
}

} // verus!
