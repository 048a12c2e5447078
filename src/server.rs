//! The server's state: users and rooms by id and by normalized name, and the
//! transitions that keep those four tables consistent.

use vstd::prelude::*;
use std::collections::HashMap;
use crate::names::{NameIndex, normalize};
use crate::proto::{End, Env, Sndr, sndr_json};
use crate::room::{Room, without_id, delivered, bytes_for, addressed, env_views};
use crate::user::delivers_to;
use crate::user::{User, with_blocked, without_blocked};

verus! {

broadcast use vstd::std_specs::hash::group_hash_axioms;

/// Users and rooms, by id and by normalized name.
pub struct Server {
    users: HashMap<u64, User>,
    unames: NameIndex,
    rooms: HashMap<u64, Room>,
    rnames: NameIndex,
    departed: Vec<User>,
    loc: HashMap<u64, u64>,
}

impl Server {
    pub closed spec fn users_by_id(&self) -> Map<u64, User> {
        self.users@
    }

    pub closed spec fn users_by_name(&self) -> Map<Seq<char>, u64> {
        self.unames@
    }

    pub closed spec fn rooms_by_id(&self) -> Map<u64, Room> {
        self.rooms@
    }

    pub closed spec fn rooms_by_name(&self) -> Map<Seq<char>, u64> {
        self.rnames@
    }

    /// The room each user is in.
    pub closed spec fn location(&self) -> Map<u64, u64> {
        self.loc@
    }

    /// Users that left and whose last bytes wait to be written.
    pub closed spec fn departures(&self) -> Seq<User> {
        self.departed@
    }

    pub closed spec fn indexes_wf(&self) -> bool {
        self.unames.wf() && self.rnames.wf()
    }

    /// Each user is filed under its normalized name, and each name leads to
    /// the user who has it.
    pub open spec fn users_named(&self) -> bool {
        &&& forall|uid: u64| #[trigger]
            self.users_by_id().contains_key(uid) ==> self.users_by_name().contains_key(
                self.users_by_id()[uid].idstr(),
            ) && self.users_by_name()[self.users_by_id()[uid].idstr()] == uid
        &&& forall|k: Seq<char>| #[trigger]
            self.users_by_name().contains_key(k) ==> self.users_by_id().contains_key(
                self.users_by_name()[k],
            ) && self.users_by_id()[self.users_by_name()[k]].idstr() == k
    }

    /// Each room is filed under its normalized name, and each name leads to
    /// the room that has it.
    pub open spec fn rooms_named(&self) -> bool {
        &&& forall|rid: u64| #[trigger]
            self.rooms_by_id().contains_key(rid) ==> self.rooms_by_name().contains_key(
                self.rooms_by_id()[rid].idstr(),
            ) && self.rooms_by_name()[self.rooms_by_id()[rid].idstr()] == rid
        &&& forall|k: Seq<char>| #[trigger]
            self.rooms_by_name().contains_key(k) ==> self.rooms_by_id().contains_key(
                self.rooms_by_name()[k],
            ) && self.rooms_by_id()[self.rooms_by_name()[k]].idstr() == k
    }

    /// Each user is a member of the room it is located in, and every member
    /// of a room is a user located there.
    pub open spec fn users_placed(&self) -> bool {
        &&& self.location().dom() == self.users_by_id().dom()
        &&& forall|uid: u64| #[trigger]
            self.users_by_id().contains_key(uid) ==> self.rooms_by_id().contains_key(
                self.location()[uid],
            ) && self.rooms_by_id()[self.location()[uid]].members().contains(uid)
        &&& forall|rid: u64, uid: u64|
            self.rooms_by_id().contains_key(rid) && #[trigger] self.rooms_by_id()[rid].members().contains(
                uid,
            ) ==> self.users_by_id().contains_key(uid) && self.location()[uid] == rid
    }

    /// The invariant that holds between operations.
    pub open spec fn wf(&self) -> bool {
        &&& self.indexes_wf()
        &&& self.rooms_by_id().contains_key(0)
        &&& self.rooms_by_id()[0].op() == 0
        &&& self.rooms_by_id()[0].bans().len() == 0
        &&& !self.users_by_id().contains_key(0)
        &&& forall|rid: u64| #[trigger]
            self.rooms_by_id().contains_key(rid) ==> self.rooms_by_id()[rid].id() == rid
                && self.rooms_by_id()[rid].wf()
        &&& forall|uid: u64| #[trigger]
            self.users_by_id().contains_key(uid) ==> self.users_by_id()[uid].id() == uid
                && self.users_by_id()[uid].wf()
        &&& self.users_named()
        &&& self.rooms_named()
        &&& self.users_placed()
    }

    /// User `uid` is a member of exactly one room.
    pub open spec fn in_exactly_one_room(&self, uid: u64) -> bool {
        &&& exists|rid: u64|
            self.rooms_by_id().contains_key(rid) && #[trigger] self.rooms_by_id()[rid].members().contains(
                uid,
            )
        &&& forall|r1: u64, r2: u64|
            self.rooms_by_id().contains_key(r1) && self.rooms_by_id().contains_key(r2)
                && #[trigger] self.rooms_by_id()[r1].members().contains(uid)
                && #[trigger] self.rooms_by_id()[r2].members().contains(uid) ==> r1 == r2
    }

    /// Every user is in exactly one room's member list.
    pub proof fn lemma_each_user_in_one_room(&self, uid: u64)
        requires
            self.wf(),
            self.users_by_id().contains_key(uid),
        ensures
            self.in_exactly_one_room(uid),
    {
        let rid = self.location()[uid];
        assert(self.rooms_by_id()[rid].members().contains(uid));
    }

    /// Every user is found under its normalized name.
    pub proof fn lemma_user_found_by_name(&self, uid: u64)
        requires
            self.wf(),
            self.users_by_id().contains_key(uid),
        ensures
            self.users_by_name()[self.users_by_id()[uid].idstr()] == uid,
    {
    }

    /// A member of a room is never on its ban list, so a kick of a present
    /// user always takes effect.
    pub proof fn lemma_member_not_banned(&self, rid: u64, uid: u64)
        requires
            self.wf(),
            self.rooms_by_id().contains_key(rid),
            self.rooms_by_id()[rid].members().contains(uid),
        ensures
            !self.rooms_by_id()[rid].bans().contains(uid),
    {
    }

    /// Every room is found under its normalized name.
    pub proof fn lemma_room_found_by_name(&self, rid: u64)
        requires
            self.wf(),
            self.rooms_by_id().contains_key(rid),
        ensures
            self.rooms_by_name()[self.rooms_by_id()[rid].idstr()] == rid,
    {
    }

    /// `self` is `other` with one user changed in ways that do not touch
    /// the tables' consistency.
    pub open spec fn same_but_user(&self, other: &Server, uid: u64) -> bool {
        &&& self.users_by_id().dom() == other.users_by_id().dom()
        &&& forall|k: u64| #[trigger]
            other.users_by_id().contains_key(k) && k != uid ==> self.users_by_id()[k]
                == other.users_by_id()[k]
        &&& other.users_by_id().contains_key(uid) ==> {
            &&& self.users_by_id()[uid].id() == other.users_by_id()[uid].id()
            &&& self.users_by_id()[uid].idstr() == other.users_by_id()[uid].idstr()
            &&& self.users_by_id()[uid].wf()
        }
        &&& self.users_by_name() == other.users_by_name()
        &&& self.rooms_by_id() == other.rooms_by_id()
        &&& self.rooms_by_name() == other.rooms_by_name()
        &&& self.location() == other.location()
        &&& self.departures() == other.departures()
        &&& self.indexes_wf() == other.indexes_wf()
    }

    proof fn lemma_same_but_user(&self, other: &Server, uid: u64)
        requires
            other.wf(),
            self.same_but_user(other, uid),
        ensures
            self.wf(),
    {
        assert forall|k: Seq<char>| #[trigger] self.users_by_name().contains_key(k) implies
            self.users_by_id().contains_key(self.users_by_name()[k])
            && self.users_by_id()[self.users_by_name()[k]].idstr() == k by {
            assert(other.users_by_name().contains_key(k));
        }
        assert forall|u: u64| #[trigger] self.users_by_id().contains_key(u) implies
            self.users_by_id()[u].id() == u && self.users_by_id()[u].wf() by {
            assert(other.users_by_id().contains_key(u));
        }
        assert forall|u: u64| #[trigger] self.users_by_id().contains_key(u) implies
            self.users_by_name().contains_key(self.users_by_id()[u].idstr())
            && self.users_by_name()[self.users_by_id()[u].idstr()] == u by {
            assert(other.users_by_id().contains_key(u));
        }
        assert forall|u: u64| #[trigger] self.users_by_id().contains_key(u) implies
            self.rooms_by_id().contains_key(self.location()[u])
            && self.rooms_by_id()[self.location()[u]].members().contains(u) by {
            assert(other.users_by_id().contains_key(u));
        }
    }

    /// `self` is `other` with one room changed in ways that do not touch the
    /// tables' consistency.
    pub open spec fn same_but_room(&self, other: &Server, rid: u64) -> bool {
        &&& self.rooms_by_id().dom() == other.rooms_by_id().dom()
        &&& forall|k: u64| #[trigger]
            other.rooms_by_id().contains_key(k) && k != rid ==> self.rooms_by_id()[k]
                == other.rooms_by_id()[k]
        &&& other.rooms_by_id().contains_key(rid) ==> {
            &&& self.rooms_by_id()[rid].id() == other.rooms_by_id()[rid].id()
            &&& self.rooms_by_id()[rid].idstr() == other.rooms_by_id()[rid].idstr()
            &&& self.rooms_by_id()[rid].members() == other.rooms_by_id()[rid].members()
            &&& self.rooms_by_id()[rid].wf()
            &&& rid == 0 ==> self.rooms_by_id()[rid].op() == 0
                && self.rooms_by_id()[rid].bans().len() == 0
        }
        &&& self.users_by_id() == other.users_by_id()
        &&& self.users_by_name() == other.users_by_name()
        &&& self.rooms_by_name() == other.rooms_by_name()
        &&& self.location() == other.location()
        &&& self.departures() == other.departures()
        &&& self.indexes_wf() == other.indexes_wf()
    }

    proof fn lemma_same_but_room(&self, other: &Server, rid: u64)
        requires
            other.wf(),
            self.same_but_room(other, rid),
        ensures
            self.wf(),
    {
        assert forall|k: Seq<char>| #[trigger] self.rooms_by_name().contains_key(k) implies
            self.rooms_by_id().contains_key(self.rooms_by_name()[k])
            && self.rooms_by_id()[self.rooms_by_name()[k]].idstr() == k by {
            assert(other.rooms_by_name().contains_key(k));
        }
        assert forall|r: u64| #[trigger] self.rooms_by_id().contains_key(r) implies
            self.rooms_by_id()[r].id() == r && self.rooms_by_id()[r].wf() by {
            assert(other.rooms_by_id().contains_key(r));
        }
        assert forall|r: u64| #[trigger] self.rooms_by_id().contains_key(r) implies
            self.rooms_by_name().contains_key(self.rooms_by_id()[r].idstr())
            && self.rooms_by_name()[self.rooms_by_id()[r].idstr()] == r by {
            assert(other.rooms_by_id().contains_key(r));
        }
        assert forall|u: u64| #[trigger] self.users_by_id().contains_key(u) implies
            self.rooms_by_id().contains_key(self.location()[u])
            && self.rooms_by_id()[self.location()[u]].members().contains(u) by {
            assert(other.users_by_id().contains_key(u));
        }
        assert forall|r: u64, u: u64|
            self.rooms_by_id().contains_key(r) && #[trigger] self.rooms_by_id()[r].members().contains(
                u,
            ) implies self.users_by_id().contains_key(u) && self.location()[u] == r by {
            assert(other.rooms_by_id()[r].members().contains(u));
        }
    }

    /// A server with only the lobby, room 0, which has no operator.
    pub fn new(lobby_name: String) -> (r: Server)
        ensures
            r.wf(),
            r.users_by_id() == Map::<u64, User>::empty(),
            r.rooms_by_id().dom() == set![0u64],
            r.rooms_by_id()[0].name() == lobby_name@,
            r.rooms_by_id()[0].members().len() == 0,
            r.departures().len() == 0,
    {
        let lobby = Room::new(0, lobby_name, 0);
        let mut rnames = NameIndex::new();
        rnames.insert(lobby.get_idstr().to_owned(), 0);
        let mut rooms: HashMap<u64, Room> = HashMap::new();
        rooms.insert(0, lobby);
        let r = Server {
            users: HashMap::new(),
            unames: NameIndex::new(),
            rooms,
            rnames,
            departed: Vec::new(),
            loc: HashMap::new(),
        };
        assert(r.rooms@.dom() =~= set![0u64]);
        assert(r.location().dom() =~= r.users_by_id().dom());
        r
    }

    /// Moves user `uid` from room `from`, where it is, to room `to`.
    pub(crate) fn move_member(&mut self, uid: u64, from: u64, to: u64)
        requires
            old(self).wf(),
            old(self).users_by_id().contains_key(uid),
            old(self).location()[uid] == from,
            old(self).rooms_by_id().contains_key(to),
            !old(self).rooms_by_id()[to].bans().contains(uid),
            from != to,
        ensures
            final(self).wf(),
            final(self).users_by_id() == old(self).users_by_id(),
            final(self).users_by_name() == old(self).users_by_name(),
            final(self).rooms_by_name() == old(self).rooms_by_name(),
            final(self).departures() == old(self).departures(),
            final(self).location() == old(self).location().insert(uid, to),
            final(self).rooms_by_id().dom() == old(self).rooms_by_id().dom(),
            forall|k: u64| #[trigger]
                old(self).rooms_by_id().contains_key(k) && k != from && k != to
                    ==> final(self).rooms_by_id()[k] == old(self).rooms_by_id()[k],
            final(self).rooms_by_id()[from].members() == without_id(old(self).rooms_by_id()[from].members(), uid),
            final(self).rooms_by_id()[from].same_lists(&old(self).rooms_by_id()[from]),
            final(self).rooms_by_id()[from].inbox() == old(self).rooms_by_id()[from].inbox(),
            final(self).rooms_by_id()[to].members() == old(self).rooms_by_id()[to].members().push(uid),
            final(self).rooms_by_id()[to].same_lists(&old(self).rooms_by_id()[to]),
            final(self).rooms_by_id()[to].inbox() == old(self).rooms_by_id()[to].inbox(),
    {
        let ghost before = *self;
        assert(!before.rooms@[to].members().contains(uid));
        let mut rf = self.rooms.remove(&from).unwrap();
        rf.leave(uid);
        self.rooms.insert(from, rf);
        let mut rt = self.rooms.remove(&to).unwrap();
        rt.join(uid);
        self.rooms.insert(to, rt);
        self.loc.insert(uid, to);
        proof {
            assert(self.rooms@.dom() =~= before.rooms@.dom());
            assert(self.location().dom() =~= self.users_by_id().dom());
            assert forall|r: u64| #[trigger] self.rooms_by_id().contains_key(r) implies
                self.rooms_by_name().contains_key(self.rooms_by_id()[r].idstr())
                && self.rooms_by_name()[self.rooms_by_id()[r].idstr()] == r by {
                assert(before.rooms_by_id().contains_key(r));
            }
            assert forall|k: Seq<char>| #[trigger] self.rooms_by_name().contains_key(k) implies
                self.rooms_by_id().contains_key(self.rooms_by_name()[k])
                && self.rooms_by_id()[self.rooms_by_name()[k]].idstr() == k by {
                assert(before.rooms_by_name().contains_key(k));
            }
            assert forall|r: u64| #[trigger] self.rooms_by_id().contains_key(r) implies
                self.rooms_by_id()[r].id() == r && self.rooms_by_id()[r].wf() by {
                assert(before.rooms_by_id().contains_key(r));
            }
            assert forall|u: u64| #[trigger] self.users_by_id().contains_key(u) implies
                self.rooms_by_id().contains_key(self.location()[u])
                && self.rooms_by_id()[self.location()[u]].members().contains(u) by {
                if u != uid {
                    assert(before.users_by_id().contains_key(u));
                    let l = before.location()[u];
                    assert(before.rooms_by_id()[l].members().contains(u));
                    if l == to {
                        let j = choose|j: int| 0 <= j < before.rooms_by_id()[to].members().len()
                            && before.rooms_by_id()[to].members()[j] == u;
                        assert(self.rooms_by_id()[to].members()[j] == u);
                    }
                } else {
                    assert(self.rooms_by_id()[to].members().last() == uid);
                }
            }
            assert forall|r: u64, u: u64|
                self.rooms_by_id().contains_key(r) && #[trigger] self.rooms_by_id()[r].members().contains(
                    u,
                ) implies self.users_by_id().contains_key(u) && self.location()[u] == r by {
                if r == to {
                    if u != uid {
                        let j = choose|j: int| 0 <= j < self.rooms_by_id()[to].members().len()
                            && self.rooms_by_id()[to].members()[j] == u;
                        assert(before.rooms_by_id()[to].members()[j] == u);
                        assert(before.rooms_by_id()[to].members().contains(u));
                    }
                } else if r == from {
                    assert(before.rooms_by_id()[from].members().contains(u));
                } else {
                    assert(before.rooms_by_id()[r].members().contains(u));
                }
            }
        }
    }

    /// Takes user `uid` out of its room and out of both user tables.
    pub(crate) fn remove_user(&mut self, uid: u64) -> (r: User)
        requires
            old(self).wf(),
            old(self).users_by_id().contains_key(uid),
        ensures
            final(self).wf(),
            r == old(self).users_by_id()[uid],
            final(self).users_by_id() == old(self).users_by_id().remove(uid),
            final(self).users_by_name() == old(self).users_by_name().remove(r.idstr()),
            final(self).rooms_by_name() == old(self).rooms_by_name(),
            final(self).departures() == old(self).departures(),
            final(self).location() == old(self).location().remove(uid),
            final(self).rooms_by_id().dom() == old(self).rooms_by_id().dom(),
            forall|k: u64| #[trigger]
                old(self).rooms_by_id().contains_key(k) && k != old(self).location()[uid]
                    ==> final(self).rooms_by_id()[k] == old(self).rooms_by_id()[k],
            final(self).rooms_by_id()[old(self).location()[uid]].members() == without_id(
                old(self).rooms_by_id()[old(self).location()[uid]].members(),
                uid,
            ),
            final(self).rooms_by_id()[old(self).location()[uid]].same_lists(
                &old(self).rooms_by_id()[old(self).location()[uid]],
            ),
            final(self).rooms_by_id()[old(self).location()[uid]].inbox() == old(
                self,
            ).rooms_by_id()[old(self).location()[uid]].inbox(),
    {
        let ghost before = *self;
        let from = *self.loc.get(&uid).unwrap();
        let u = self.users.remove(&uid).unwrap();
        self.unames.remove(u.get_idstr());
        let mut rf = self.rooms.remove(&from).unwrap();
        rf.leave(uid);
        self.rooms.insert(from, rf);
        self.loc.remove(&uid);
        proof {
            assert(self.rooms@.dom() =~= before.rooms@.dom());
            assert(self.location().dom() =~= self.users_by_id().dom());
            assert forall|r: u64| #[trigger] self.rooms_by_id().contains_key(r) implies
                self.rooms_by_name().contains_key(self.rooms_by_id()[r].idstr())
                && self.rooms_by_name()[self.rooms_by_id()[r].idstr()] == r by {
                assert(before.rooms_by_id().contains_key(r));
            }
            assert forall|k: Seq<char>| #[trigger] self.rooms_by_name().contains_key(k) implies
                self.rooms_by_id().contains_key(self.rooms_by_name()[k])
                && self.rooms_by_id()[self.rooms_by_name()[k]].idstr() == k by {
                assert(before.rooms_by_name().contains_key(k));
            }
            assert forall|r: u64| #[trigger] self.rooms_by_id().contains_key(r) implies
                self.rooms_by_id()[r].id() == r && self.rooms_by_id()[r].wf() by {
                assert(before.rooms_by_id().contains_key(r));
            }
            assert forall|v: u64| #[trigger] self.users_by_id().contains_key(v) implies
                self.users_by_name().contains_key(self.users_by_id()[v].idstr())
                && self.users_by_name()[self.users_by_id()[v].idstr()] == v by {
                assert(before.users_by_id().contains_key(v));
            }
            assert forall|k: Seq<char>| #[trigger] self.users_by_name().contains_key(k) implies
                self.users_by_id().contains_key(self.users_by_name()[k])
                && self.users_by_id()[self.users_by_name()[k]].idstr() == k by {
                assert(before.users_by_name().contains_key(k));
            }
            assert forall|v: u64| #[trigger] self.users_by_id().contains_key(v) implies
                self.users_by_id()[v].id() == v && self.users_by_id()[v].wf() by {
                assert(before.users_by_id().contains_key(v));
            }
            assert forall|v: u64| #[trigger] self.users_by_id().contains_key(v) implies
                self.rooms_by_id().contains_key(self.location()[v])
                && self.rooms_by_id()[self.location()[v]].members().contains(v) by {
                assert(before.users_by_id().contains_key(v));
                assert(before.rooms_by_id()[before.location()[v]].members().contains(v));
            }
            assert forall|r: u64, v: u64|
                self.rooms_by_id().contains_key(r) && #[trigger] self.rooms_by_id()[r].members().contains(
                    v,
                ) implies self.users_by_id().contains_key(v) && self.location()[v] == r by {
                assert(before.rooms_by_id()[r].members().contains(v));
            }
        }
        u
    }

    /// Puts a new user in the lobby and in both user tables.
    pub(crate) fn add_user(&mut self, u: User)
        requires
            old(self).wf(),
            u.wf(),
            u.id() != 0,
            !old(self).users_by_id().contains_key(u.id()),
            !old(self).users_by_name().contains_key(u.idstr()),
        ensures
            final(self).wf(),
            final(self).users_by_id() == old(self).users_by_id().insert(u.id(), u),
            final(self).users_by_name() == old(self).users_by_name().insert(u.idstr(), u.id()),
            final(self).rooms_by_name() == old(self).rooms_by_name(),
            final(self).departures() == old(self).departures(),
            final(self).location() == old(self).location().insert(u.id(), 0),
            final(self).rooms_by_id().dom() == old(self).rooms_by_id().dom(),
            forall|k: u64| #[trigger]
                old(self).rooms_by_id().contains_key(k) && k != 0 ==> final(self).rooms_by_id()[k]
                    == old(self).rooms_by_id()[k],
            final(self).rooms_by_id()[0].members() == old(self).rooms_by_id()[0].members().push(
                u.id(),
            ),
            final(self).rooms_by_id()[0].same_lists(&old(self).rooms_by_id()[0]),
            final(self).rooms_by_id()[0].inbox() == old(self).rooms_by_id()[0].inbox(),
    {
        let ghost before = *self;
        let uid = u.get_id();
        assert(!before.rooms@[0].members().contains(uid));
        let mut lobby = self.rooms.remove(&0).unwrap();
        lobby.join(uid);
        self.rooms.insert(0, lobby);
        self.unames.insert(u.get_idstr().to_owned(), uid);
        self.users.insert(uid, u);
        self.loc.insert(uid, 0);
        proof {
            assert(self.rooms@.dom() =~= before.rooms@.dom());
            assert(self.location().dom() =~= self.users_by_id().dom());
            assert forall|r: u64| #[trigger] self.rooms_by_id().contains_key(r) implies
                self.rooms_by_name().contains_key(self.rooms_by_id()[r].idstr())
                && self.rooms_by_name()[self.rooms_by_id()[r].idstr()] == r by {
                assert(before.rooms_by_id().contains_key(r));
            }
            assert forall|k: Seq<char>| #[trigger] self.rooms_by_name().contains_key(k) implies
                self.rooms_by_id().contains_key(self.rooms_by_name()[k])
                && self.rooms_by_id()[self.rooms_by_name()[k]].idstr() == k by {
                assert(before.rooms_by_name().contains_key(k));
            }
            assert forall|r: u64| #[trigger] self.rooms_by_id().contains_key(r) implies
                self.rooms_by_id()[r].id() == r && self.rooms_by_id()[r].wf() by {
                assert(before.rooms_by_id().contains_key(r));
            }
            assert forall|v: u64| #[trigger] self.users_by_id().contains_key(v) implies
                self.users_by_name().contains_key(self.users_by_id()[v].idstr())
                && self.users_by_name()[self.users_by_id()[v].idstr()] == v by {
                if v != uid {
                    assert(before.users_by_id().contains_key(v));
                }
            }
            assert forall|k: Seq<char>| #[trigger] self.users_by_name().contains_key(k) implies
                self.users_by_id().contains_key(self.users_by_name()[k])
                && self.users_by_id()[self.users_by_name()[k]].idstr() == k by {
                if k != u.idstr() {
                    assert(before.users_by_name().contains_key(k));
                }
            }
            assert forall|v: u64| #[trigger] self.users_by_id().contains_key(v) implies
                self.rooms_by_id().contains_key(self.location()[v])
                && self.rooms_by_id()[self.location()[v]].members().contains(v) by {
                if v != uid {
                    assert(before.users_by_id().contains_key(v));
                    let l = before.location()[v];
                    assert(before.rooms_by_id()[l].members().contains(v));
                    if l == 0 {
                        let j = choose|j: int| 0 <= j < before.rooms_by_id()[0].members().len()
                            && before.rooms_by_id()[0].members()[j] == v;
                        assert(self.rooms_by_id()[0].members()[j] == v);
                    }
                } else {
                    assert(self.rooms_by_id()[0].members().last() == uid);
                }
            }
            assert forall|r: u64, v: u64|
                self.rooms_by_id().contains_key(r) && #[trigger] self.rooms_by_id()[r].members().contains(
                    v,
                ) implies self.users_by_id().contains_key(v) && self.location()[v] == r by {
                if r == 0 {
                    if v != uid {
                        let j = choose|j: int| 0 <= j < self.rooms_by_id()[0].members().len()
                            && self.rooms_by_id()[0].members()[j] == v;
                        assert(before.rooms_by_id()[0].members()[j] == v);
                        assert(before.rooms_by_id()[0].members().contains(v));
                    }
                } else {
                    assert(before.rooms_by_id()[r].members().contains(v));
                }
            }
        }
    }

    /// Files a new, empty room under its id and its normalized name.
    pub(crate) fn add_room(&mut self, r: Room)
        requires
            old(self).wf(),
            r.wf(),
            r.members().len() == 0,
            !old(self).rooms_by_id().contains_key(r.id()),
            !old(self).rooms_by_name().contains_key(r.idstr()),
        ensures
            final(self).wf(),
            final(self).rooms_by_id() == old(self).rooms_by_id().insert(r.id(), r),
            final(self).rooms_by_name() == old(self).rooms_by_name().insert(r.idstr(), r.id()),
            final(self).users_by_id() == old(self).users_by_id(),
            final(self).users_by_name() == old(self).users_by_name(),
            final(self).location() == old(self).location(),
            final(self).departures() == old(self).departures(),
    {
        let ghost before = *self;
        let rid = r.get_id();
        self.rnames.insert(r.get_idstr().to_owned(), rid);
        self.rooms.insert(rid, r);
        proof {
            assert forall|q: u64| #[trigger] self.rooms_by_id().contains_key(q) implies
                self.rooms_by_name().contains_key(self.rooms_by_id()[q].idstr())
                && self.rooms_by_name()[self.rooms_by_id()[q].idstr()] == q by {
                if q != rid {
                    assert(before.rooms_by_id().contains_key(q));
                }
            }
            assert forall|k: Seq<char>| #[trigger] self.rooms_by_name().contains_key(k) implies
                self.rooms_by_id().contains_key(self.rooms_by_name()[k])
                && self.rooms_by_id()[self.rooms_by_name()[k]].idstr() == k by {
                if k != r.idstr() {
                    assert(before.rooms_by_name().contains_key(k));
                }
            }
            assert forall|q: u64| #[trigger] self.rooms_by_id().contains_key(q) implies
                self.rooms_by_id()[q].id() == q && self.rooms_by_id()[q].wf() by {
                if q != rid {
                    assert(before.rooms_by_id().contains_key(q));
                }
            }
            assert forall|v: u64| #[trigger] self.users_by_id().contains_key(v) implies
                self.rooms_by_id().contains_key(self.location()[v])
                && self.rooms_by_id()[self.location()[v]].members().contains(v) by {
                assert(before.users_by_id().contains_key(v));
            }
            assert forall|q: u64, v: u64|
                self.rooms_by_id().contains_key(q) && #[trigger] self.rooms_by_id()[q].members().contains(
                    v,
                ) implies self.users_by_id().contains_key(v) && self.location()[v] == q by {
                if q != rid {
                    assert(before.rooms_by_id()[q].members().contains(v));
                }
            }
            assert(self.users_by_id() == before.users_by_id());
            assert(self.users_by_name() == before.users_by_name());
            assert(self.users_named());
        }
    }

    /// Drops room `rid`, which is empty and not the lobby, from both room
    /// tables.
    pub(crate) fn remove_room(&mut self, rid: u64)
        requires
            old(self).wf(),
            rid != 0,
            old(self).rooms_by_id().contains_key(rid),
            old(self).rooms_by_id()[rid].members().len() == 0,
        ensures
            final(self).wf(),
            final(self).rooms_by_id() == old(self).rooms_by_id().remove(rid),
            final(self).rooms_by_name() == old(self).rooms_by_name().remove(
                old(self).rooms_by_id()[rid].idstr(),
            ),
            final(self).users_by_id() == old(self).users_by_id(),
            final(self).users_by_name() == old(self).users_by_name(),
            final(self).location() == old(self).location(),
            final(self).departures() == old(self).departures(),
    {
        let ghost before = *self;
        let r = self.rooms.remove(&rid).unwrap();
        self.rnames.remove(r.get_idstr());
        proof {
            assert forall|q: u64| #[trigger] self.rooms_by_id().contains_key(q) implies
                self.rooms_by_name().contains_key(self.rooms_by_id()[q].idstr())
                && self.rooms_by_name()[self.rooms_by_id()[q].idstr()] == q by {
                assert(before.rooms_by_id().contains_key(q));
            }
            assert forall|k: Seq<char>| #[trigger] self.rooms_by_name().contains_key(k) implies
                self.rooms_by_id().contains_key(self.rooms_by_name()[k])
                && self.rooms_by_id()[self.rooms_by_name()[k]].idstr() == k by {
                assert(before.rooms_by_name().contains_key(k));
            }
            assert forall|q: u64| #[trigger] self.rooms_by_id().contains_key(q) implies
                self.rooms_by_id()[q].id() == q && self.rooms_by_id()[q].wf() by {
                assert(before.rooms_by_id().contains_key(q));
            }
            assert forall|v: u64| #[trigger] self.users_by_id().contains_key(v) implies
                self.rooms_by_id().contains_key(self.location()[v])
                && self.rooms_by_id()[self.location()[v]].members().contains(v) by {
                assert(before.users_by_id().contains_key(v));
                let l = before.location()[v];
                assert(before.rooms_by_id()[l].members().contains(v));
            }
            assert forall|q: u64, v: u64|
                self.rooms_by_id().contains_key(q) && #[trigger] self.rooms_by_id()[q].members().contains(
                    v,
                ) implies self.users_by_id().contains_key(v) && self.location()[v] == q by {
                assert(before.rooms_by_id()[q].members().contains(v));
            }
            assert(self.users_by_id() == before.users_by_id());
            assert(self.users_by_name() == before.users_by_name());
            assert(self.users_named());
        }
    }

    /// Renames user `uid`; no other user may hold the new normalized name.
    pub(crate) fn rename_user(&mut self, uid: u64, new_name: &str)
        requires
            old(self).wf(),
            old(self).users_by_id().contains_key(uid),
            old(self).users_by_name().contains_key(normalize(new_name@)) ==> old(
                self,
            ).users_by_name()[normalize(new_name@)] == uid,
        ensures
            final(self).wf(),
            final(self).users_by_id().dom() == old(self).users_by_id().dom(),
            forall|k: u64| #[trigger]
                old(self).users_by_id().contains_key(k) && k != uid ==> final(self).users_by_id()[k]
                    == old(self).users_by_id()[k],
            final(self).users_by_id()[uid].name() == new_name@,
            final(self).users_by_id()[uid].idstr() == normalize(new_name@),
            final(self).users_by_id()[uid].same_but_name(&old(self).users_by_id()[uid]),
            final(self).users_by_name() == old(self).users_by_name().remove(
                old(self).users_by_id()[uid].idstr(),
            ).insert(normalize(new_name@), uid),
            final(self).rooms_by_id() == old(self).rooms_by_id(),
            final(self).rooms_by_name() == old(self).rooms_by_name(),
            final(self).location() == old(self).location(),
            final(self).departures() == old(self).departures(),
    {
        let ghost before = *self;
        let mut u = self.users.remove(&uid).unwrap();
        self.unames.remove(u.get_idstr());
        u.set_name(new_name);
        self.unames.insert(u.get_idstr().to_owned(), uid);
        self.users.insert(uid, u);
        proof {
            let old_k = before.users_by_id()[uid].idstr();
            let new_k = normalize(new_name@);
            assert(self.users@.dom() =~= before.users@.dom());
            assert forall|v: u64| #[trigger] self.users_by_id().contains_key(v) implies
                self.users_by_name().contains_key(self.users_by_id()[v].idstr())
                && self.users_by_name()[self.users_by_id()[v].idstr()] == v by {
                if v != uid {
                    assert(before.users_by_id().contains_key(v));
                    let kv = before.users_by_id()[v].idstr();
                    assert(before.users_by_name()[kv] == v);
                    if kv == new_k {
                        assert(before.users_by_name().contains_key(new_k));
                    }
                }
            }
            assert forall|k: Seq<char>| #[trigger] self.users_by_name().contains_key(k) implies
                self.users_by_id().contains_key(self.users_by_name()[k])
                && self.users_by_id()[self.users_by_name()[k]].idstr() == k by {
                if k != new_k {
                    assert(before.users_by_name().contains_key(k));
                    assert(k != old_k);
                    assert(before.users_by_name()[k] != uid);
                }
            }
            assert forall|v: u64| #[trigger] self.users_by_id().contains_key(v) implies
                self.users_by_id()[v].id() == v && self.users_by_id()[v].wf() by {
                assert(before.users_by_id().contains_key(v));
            }
            assert forall|v: u64| #[trigger] self.users_by_id().contains_key(v) implies
                self.rooms_by_id().contains_key(self.location()[v])
                && self.rooms_by_id()[self.location()[v]].members().contains(v) by {
                assert(before.users_by_id().contains_key(v));
            }
        }
    }

    /// The user filed under `uid`.
    pub fn user_ref(&self, uid: u64) -> (r: &User)
        requires
            self.users_by_id().contains_key(uid),
        ensures
            *r == self.users_by_id()[uid],
    {
        self.users.get(&uid).unwrap()
    }

    /// The room filed under `rid`.
    pub fn room_ref(&self, rid: u64) -> (r: &Room)
        requires
            self.rooms_by_id().contains_key(rid),
        ensures
            *r == self.rooms_by_id()[rid],
    {
        self.rooms.get(&rid).unwrap()
    }

    /// The id of the user whose normalized name is `k`.
    pub fn user_id_named(&self, k: &str) -> (r: Option<u64>)
        requires
            self.wf(),
        ensures
            r == (if self.users_by_name().contains_key(k@) {
                Some(self.users_by_name()[k@])
            } else {
                None::<u64>
            }),
            r matches Some(id) ==> self.users_by_id().contains_key(id),
    {
        self.unames.get(k)
    }

    /// The id of the room whose normalized name is `k`.
    pub fn room_id_named(&self, k: &str) -> (r: Option<u64>)
        requires
            self.wf(),
        ensures
            r == (if self.rooms_by_name().contains_key(k@) {
                Some(self.rooms_by_name()[k@])
            } else {
                None::<u64>
            }),
            r matches Some(id) ==> self.rooms_by_id().contains_key(id),
    {
        self.rnames.get(k)
    }

    /// The room user `uid` is in.
    pub fn room_of(&self, uid: u64) -> (r: u64)
        requires
            self.wf(),
            self.users_by_id().contains_key(uid),
        ensures
            r == self.location()[uid],
            self.rooms_by_id().contains_key(r),
            self.rooms_by_id()[r].members().contains(uid),
    {
        *self.loc.get(&uid).unwrap()
    }

    /// Keeps a user that left until its last bytes are written.
    pub(crate) fn push_departed(&mut self, u: User)
        requires
            old(self).wf(),
        ensures
            final(self).wf(),
            final(self).departures() == old(self).departures().push(u),
            final(self).users_by_id() == old(self).users_by_id(),
            final(self).users_by_name() == old(self).users_by_name(),
            final(self).rooms_by_id() == old(self).rooms_by_id(),
            final(self).rooms_by_name() == old(self).rooms_by_name(),
            final(self).location() == old(self).location(),
    {
        let ghost before = *self;
        self.departed.push(u);
        proof {
            self.lemma_same_tables(&before);
        }
    }

    /// Hands over the users that left, to write their last bytes and close
    /// their connections.
    pub fn take_departed(&mut self) -> (r: Vec<User>)
        requires
            old(self).wf(),
        ensures
            final(self).wf(),
            r@ == old(self).departures(),
            final(self).departures().len() == 0,
            final(self).users_by_id() == old(self).users_by_id(),
            final(self).users_by_name() == old(self).users_by_name(),
            final(self).rooms_by_id() == old(self).rooms_by_id(),
            final(self).rooms_by_name() == old(self).rooms_by_name(),
            final(self).location() == old(self).location(),
    {
        let ghost before = *self;
        let mut r: Vec<User> = Vec::new();
        std::mem::swap(&mut r, &mut self.departed);
        proof {
            self.lemma_same_tables(&before);
        }
        r
    }

    proof fn lemma_same_tables(&self, other: &Server)
        requires
            other.wf(),
            self.users_by_id() == other.users_by_id(),
            self.users_by_name() == other.users_by_name(),
            self.rooms_by_id() == other.rooms_by_id(),
            self.rooms_by_name() == other.rooms_by_name(),
            self.location() == other.location(),
            self.indexes_wf() == other.indexes_wf(),
        ensures
            self.wf(),
    {
    }

    /// The lowest room id that is not taken. There is always one while
    /// fewer than `u64::MAX` rooms exist.
    pub fn first_free_id(&self) -> (r: Option<u64>)
        ensures
            r matches Some(n) ==> !self.rooms_by_id().contains_key(n) && forall|m: u64|
                m < n ==> self.rooms_by_id().contains_key(m),
            self.rooms_by_id().len() < u64::MAX ==> r is Some,
    {
        let bound = self.rooms.len() as u64;
        let mut n: u64 = 0;
        while n <= bound
            invariant
                bound == self.rooms_by_id().len(),
                forall|m: u64| m < n ==> self.rooms_by_id().contains_key(m),
                n as int <= bound as int + 1,
            decreases bound + 1 - n,
        {
            if !self.rooms.contains_key(&n) {
                return Some(n);
            }
            if n == u64::MAX {
                return None;
            }
            n = n + 1;
        }
        proof {
            lemma_free_below(self.rooms_by_id().dom(), n as nat);
        }
        None
    }

    /// The normalized user names that start with `prefix`, in the order
    /// they were filed.
    pub fn user_names_with_prefix(&self, prefix: &str) -> (r: Vec<String>)
        requires
            self.wf(),
        ensures
            r@.map_values(|s: String| s@) == with_prefix(self.user_name_order(), prefix@),
    {
        self.unames.keys_with_prefix(prefix)
    }

    /// The normalized room names that start with `prefix`, in the order
    /// they were filed.
    pub fn room_names_with_prefix(&self, prefix: &str) -> (r: Vec<String>)
        requires
            self.wf(),
        ensures
            r@.map_values(|s: String| s@) == with_prefix(self.room_name_order(), prefix@),
    {
        self.rnames.keys_with_prefix(prefix)
    }

    /// The name orders list exactly the filed names.
    pub proof fn lemma_name_orders(&self)
        requires
            self.wf(),
        ensures
            forall|k: Seq<char>| self.users_by_name().contains_key(k) <==> #[trigger] self.user_name_order().contains(k),
            forall|k: Seq<char>| self.rooms_by_name().contains_key(k) <==> #[trigger] self.room_name_order().contains(k),
            self.user_name_order().no_duplicates(),
            self.room_name_order().no_duplicates(),
    {
        self.unames.lemma_key_order();
        self.rnames.lemma_key_order();
    }

    /// The order in which the user names were filed.
    pub closed spec fn user_name_order(&self) -> Seq<Seq<char>> {
        self.unames.key_order()
    }

    /// The order in which the room names were filed.
    pub closed spec fn room_name_order(&self) -> Seq<Seq<char>> {
        self.rnames.key_order()
    }

    pub fn has_user(&self, uid: u64) -> (r: bool)
        ensures
            r == self.users_by_id().contains_key(uid),
    {
        self.users.contains_key(&uid)
    }

    pub fn has_room(&self, rid: u64) -> (r: bool)
        ensures
            r == self.rooms_by_id().contains_key(rid),
    {
        self.rooms.contains_key(&rid)
    }

    /// The ids of all rooms, in the order their names were filed.
    pub fn room_ids(&self) -> (r: Vec<u64>)
        requires
            self.wf(),
        ensures
            r@.to_set() == self.rooms_by_id().dom(),
    {
        let r = self.rnames.ids();
        proof {
            assert forall|x: u64| #[trigger] r@.to_set().contains(x) <==> self.rooms_by_id().contains_key(x) by {
                if r@.to_set().contains(x) {
                    assert(r@.contains(x));
                    let k = choose|k: Seq<char>| #[trigger] self.rnames@.contains_key(k) && self.rnames@[k] == x;
                }
                if self.rooms_by_id().contains_key(x) {
                    let k = self.rooms_by_id()[x].idstr();
                    assert(self.rnames@.contains_key(k));
                    assert(r@.contains(x));
                }
            }
            assert(r@.to_set() =~= self.rooms_by_id().dom());
        }
        r
    }

    /// Delivers room `rid`'s inbox, then `envs` in order: an envelope for
    /// another room goes to that room's inbox, the rest to this room's
    /// members (or the one user addressed). The inbox is left empty.
    pub fn deliver_room(&mut self, rid: u64, envs: Vec<Env>)
        requires
            old(self).wf(),
            old(self).rooms_by_id().contains_key(rid),
        ensures
            final(self).wf(),
            final(self).users_by_id().dom() == old(self).users_by_id().dom(),
            final(self).users_by_name() == old(self).users_by_name(),
            final(self).rooms_by_id().dom() == old(self).rooms_by_id().dom(),
            final(self).rooms_by_name() == old(self).rooms_by_name(),
            final(self).location() == old(self).location(),
            final(self).rooms_by_id()[rid].members() == old(self).rooms_by_id()[rid].members(),
            final(self).rooms_by_id()[rid].op() == old(self).rooms_by_id()[rid].op(),
            final(self).rooms_by_id()[rid].inbox().len() == 0,
            delivered(
                old(self).users_by_id(),
                final(self).users_by_id(),
                |u: User|
                    bytes_for(u, old(self).rooms_by_id()[rid].members(), old(self).rooms_by_id()[rid].inbox())
                        + bytes_for(
                        u,
                        old(self).rooms_by_id()[rid].members(),
                        routed_here(env_views(envs@), rid),
                    ),
            ),
    {
        let ghost before = *self;
        let ghost members = before.rooms_by_id()[rid].members();
        let ghost inbox = before.rooms_by_id()[rid].inbox();
        let ghost orig = env_views(envs@);
        let mut r = self.rooms.remove(&rid).unwrap();
        r.deliver_inbox(&mut self.users);
        let mut fwd: Vec<(u64, Env)> = Vec::new();
        let mut envs = envs;
        while envs.len() > 0
            invariant
                before.rooms_by_id().contains_key(rid),
                r.inbox().len() == 0,
                r.members() == before.rooms_by_id()[rid].members(),
                r.same_lists(&before.rooms_by_id()[rid]),
                r.members().no_duplicates(),
                self.users@.dom() == before.users@.dom(),
                forall|k: u64| #[trigger]
                    before.users@.contains_key(k) ==> self.users@[k].same_but_outgoing(
                        &before.users@[k],
                    ),
                self.rooms@ == before.rooms@.remove(rid),
                self.unames == before.unames,
                self.rnames == before.rnames,
                self.loc == before.loc,
                self.departed == before.departed,
                members == before.rooms_by_id()[rid].members(),
                0 <= orig.len() - envs@.len() <= orig.len(),
                env_views(envs@) == orig.skip(orig.len() - envs@.len()),
                forall|k: u64| #[trigger]
                    before.users@.contains_key(k) ==> self.users@[k].outgoing() == before.users@[k].outgoing()
                        + if before.users@[k].id() == k {
                        bytes_for(before.users@[k], members, inbox) + bytes_for(
                            before.users@[k],
                            members,
                            routed_here(orig.take(orig.len() - envs@.len()), rid),
                        )
                    } else {
                        Seq::empty()
                    },
            decreases envs@.len(),
        {
            let ghost done = (orig.len() - envs@.len()) as int;
            let ghost prev = self.users@;
            let ghost pre = envs@;
            let e = envs.remove(0);
            proof {
                assert(e == pre[0]);
                assert(env_views(pre)[0] == pre[0]@);
                assert(env_views(pre)[0] == orig.skip(done)[0]);
                assert(env_views(envs@) =~= env_views(pre).skip(1));
                assert(orig[done] == e@);
                assert(orig.take(done + 1).drop_last() =~= orig.take(done));
                assert(orig.take(done + 1).last() == e@);
                assert(env_views(envs@) =~= orig.skip(done + 1));
            }
            match e.dest() {
                End::Room(x) => {
                    if x != rid {
                        fwd.push((x, e));
                    } else {
                        r.deliver(&e, &mut self.users);
                    }
                },
                _ => {
                    r.deliver(&e, &mut self.users);
                },
            }
            proof {
                assert forall|k: u64| #[trigger] before.users@.contains_key(k) implies self.users@[k].outgoing()
                    == before.users@[k].outgoing() + if before.users@[k].id() == k {
                    bytes_for(before.users@[k], members, inbox) + bytes_for(
                        before.users@[k],
                        members,
                        routed_here(orig.take(done + 1), rid),
                    )
                } else {
                    Seq::empty()
                } by {
                    assert(prev.contains_key(k));
                    assert(prev[k].blocks() == before.users@[k].blocks());
                    assert(prev[k].id() == before.users@[k].id());
                    let u = before.users@[k];
                    let x = if u.id() == k {
                        bytes_for(u, members, inbox) + bytes_for(u, members, routed_here(orig.take(done), rid))
                    } else {
                        Seq::empty()
                    };
                    assert(prev[k].outgoing() == u.outgoing() + x);
                    assert(delivers_to(prev[k], e@) == delivers_to(u, e@));
                    if u.id() == k {
                        if elsewhere(e@, rid) {
                            assert(routed_here(orig.take(done + 1), rid) == routed_here(orig.take(done), rid));
                            assert(self.users@[k].outgoing() =~= u.outgoing() + x);
                        } else {
                            assert(routed_here(orig.take(done + 1), rid) == routed_here(orig.take(done), rid).push(e@));
                            let y = if addressed(members, e@, k) && delivers_to(u, e@) { e@.2 } else { Seq::empty() };
                            assert(self.users@[k].outgoing() == prev[k].outgoing() + y);
                            assert(bytes_for(u, members, routed_here(orig.take(done), rid).push(e@))
                                == bytes_for(u, members, routed_here(orig.take(done), rid)) + y) by {
                                assert(routed_here(orig.take(done), rid).push(e@).drop_last() =~= routed_here(orig.take(done), rid));
                            }
                            assert(self.users@[k].outgoing() =~= u.outgoing() + (bytes_for(u, members, inbox) + bytes_for(
                                u, members, routed_here(orig.take(done + 1), rid))));
                        }
                    } else {
                        assert(self.users@[k].outgoing() =~= u.outgoing() + x);
                    }
                }
            }
        }
        proof {
            assert(r.wf());
            assert(orig.take(orig.len() as int) =~= orig);
        }
        self.rooms.insert(rid, r);
        proof {
            assert(self.rooms@.dom() =~= before.rooms@.dom());
            assert forall|v: u64| #[trigger] self.users_by_id().contains_key(v) implies
                self.users_by_id()[v].id() == v && self.users_by_id()[v].wf() by {
                assert(before.users_by_id().contains_key(v));
            }
            assert forall|v: u64| #[trigger] self.users_by_id().contains_key(v) implies
                self.users_by_name().contains_key(self.users_by_id()[v].idstr())
                && self.users_by_name()[self.users_by_id()[v].idstr()] == v by {
                assert(before.users_by_id().contains_key(v));
            }
            assert forall|k: Seq<char>| #[trigger] self.users_by_name().contains_key(k) implies
                self.users_by_id().contains_key(self.users_by_name()[k])
                && self.users_by_id()[self.users_by_name()[k]].idstr() == k by {
                assert(before.users_by_name().contains_key(k));
            }
            assert forall|q: u64| #[trigger] self.rooms_by_id().contains_key(q) implies
                self.rooms_by_name().contains_key(self.rooms_by_id()[q].idstr())
                && self.rooms_by_name()[self.rooms_by_id()[q].idstr()] == q by {
                assert(before.rooms_by_id().contains_key(q));
            }
            assert forall|k: Seq<char>| #[trigger] self.rooms_by_name().contains_key(k) implies
                self.rooms_by_id().contains_key(self.rooms_by_name()[k])
                && self.rooms_by_id()[self.rooms_by_name()[k]].idstr() == k by {
                assert(before.rooms_by_name().contains_key(k));
            }
            assert forall|q: u64| #[trigger] self.rooms_by_id().contains_key(q) implies
                self.rooms_by_id()[q].id() == q && self.rooms_by_id()[q].wf() by {
                assert(before.rooms_by_id().contains_key(q));
            }
            assert forall|v: u64| #[trigger] self.users_by_id().contains_key(v) implies
                self.rooms_by_id().contains_key(self.location()[v])
                && self.rooms_by_id()[self.location()[v]].members().contains(v) by {
                assert(before.users_by_id().contains_key(v));
            }
            assert forall|q: u64, v: u64|
                self.rooms_by_id().contains_key(q) && #[trigger] self.rooms_by_id()[q].members().contains(
                    v,
                ) implies self.users_by_id().contains_key(v) && self.location()[v] == q by {
                assert(before.rooms_by_id()[q].members().contains(v));
            }
        }
        let ghost delivered_users = self.users_by_id();
        proof {
            assert forall|k: u64| #[trigger] before.users_by_id().contains_key(k) implies delivered_users[k].same_but_outgoing(
                &before.users_by_id()[k]) && delivered_users[k].outgoing() == before.users_by_id()[k].outgoing() + if before.users_by_id()[k].id() == k {
                    bytes_for(before.users_by_id()[k], members, inbox) + bytes_for(before.users_by_id()[k], members, routed_here(orig, rid))
                } else {
                    Seq::empty()
                } by {}
        }
        let mut i: usize = 0;
        while i < fwd.len()
            invariant
                self.wf(),
                self.users_by_id() == delivered_users,
                i <= fwd@.len(),
                self.users_by_id().dom() == before.users_by_id().dom(),
                self.users_by_name() == before.users_by_name(),
                self.rooms_by_id().dom() == before.rooms_by_id().dom(),
                self.rooms_by_name() == before.rooms_by_name(),
                self.location() == before.location(),
                self.rooms_by_id().contains_key(rid),
                before.rooms_by_id().contains_key(rid),
                self.rooms_by_id()[rid].members() == before.rooms_by_id()[rid].members(),
                self.rooms_by_id()[rid].op() == before.rooms_by_id()[rid].op(),
                self.rooms_by_id()[rid].inbox().len() == 0,
            decreases fwd@.len() - i,
        {
            let x = fwd[i].0;
            if x != rid && self.rooms.contains_key(&x) {
                let e = fwd[i].1.duplicate();
                self.room_enqueue(x, e);
            }
            i = i + 1;
        }
    }

    /// An upper bound on the number of user names filed.
    pub fn user_name_count(&self) -> (r: usize)
        ensures
            self.users_by_name().dom().finite(),
            self.users_by_name().dom().len() <= r,
    {
        self.unames.len()
    }

    /// How many users there are.
    pub fn user_count(&self) -> (r: usize)
        ensures
            r == self.users_by_id().len(),
    {
        self.users.len()
    }

    /// Queues `msg` for user `uid`, if there is one.
    pub fn deliver_msg_to(&mut self, uid: u64, msg: &Sndr)
        requires
            old(self).wf(),
        ensures
            final(self).wf(),
            final(self).same_but_user(old(self), uid),
            old(self).users_by_id().contains_key(uid) ==> {
                &&& final(self).users_by_id()[uid].same_but_outgoing(&old(self).users_by_id()[uid])
                &&& final(self).users_by_id()[uid].outgoing() == old(self).users_by_id()[uid].outgoing()
                    + sndr_json(*msg)
            },
    {
        let ghost before = *self;
        match self.users.remove(&uid) {
            Some(mut u) => {
                u.deliver_msg(msg);
                self.users.insert(uid, u);
                proof {
                    assert(self.users@.dom() =~= before.users@.dom());
                    self.lemma_same_but_user(&before, uid);
                }
            },
            None => {
                assert(self.users@ =~= before.users@);
                proof {
                    self.lemma_same_but_user(&before, uid);
                }
            },
        }
    }

    /// Adds `target` to user `uid`'s block list; true if it was not there.
    pub(crate) fn block_for(&mut self, uid: u64, target: u64) -> (r: bool)
        requires
            old(self).wf(),
            old(self).users_by_id().contains_key(uid),
        ensures
            final(self).wf(),
            final(self).same_but_user(old(self), uid),
            final(self).users_by_id()[uid].same_but_blocks(&old(self).users_by_id()[uid]),
            final(self).users_by_id()[uid].blocks() == with_blocked(
                old(self).users_by_id()[uid].blocks(),
                target,
            ),
            r == !old(self).users_by_id()[uid].blocks().contains(target),
    {
        let ghost before = *self;
        let mut u = self.users.remove(&uid).unwrap();
        let r = u.block_id(target);
        self.users.insert(uid, u);
        proof {
            assert(self.users@.dom() =~= before.users@.dom());
            self.lemma_same_but_user(&before, uid);
        }
        r
    }

    /// Takes `target` off user `uid`'s block list; true if it was there.
    pub(crate) fn unblock_for(&mut self, uid: u64, target: u64) -> (r: bool)
        requires
            old(self).wf(),
            old(self).users_by_id().contains_key(uid),
        ensures
            final(self).wf(),
            final(self).same_but_user(old(self), uid),
            final(self).users_by_id()[uid].same_but_blocks(&old(self).users_by_id()[uid]),
            final(self).users_by_id()[uid].blocks() == without_blocked(
                old(self).users_by_id()[uid].blocks(),
                target,
            ),
            r == old(self).users_by_id()[uid].blocks().contains(target),
    {
        let ghost before = *self;
        let mut u = self.users.remove(&uid).unwrap();
        let r = u.unblock_id(target);
        self.users.insert(uid, u);
        proof {
            assert(self.users@.dom() =~= before.users@.dom());
            self.lemma_same_but_user(&before, uid);
        }
        r
    }

    /// Lowers user `uid`'s byte quota by `amount`, stopping at zero.
    pub(crate) fn drain_quota(&mut self, uid: u64, amount: usize)
        requires
            old(self).wf(),
            old(self).users_by_id().contains_key(uid),
        ensures
            final(self).wf(),
            final(self).same_but_user(old(self), uid),
            final(self).users_by_id()[uid].same_but_quota(&old(self).users_by_id()[uid]),
            final(self).users_by_id()[uid].quota() == (if amount > old(self).users_by_id()[uid].quota() {
                0
            } else {
                (old(self).users_by_id()[uid].quota() - amount) as nat
            }),
    {
        let ghost before = *self;
        let mut u = self.users.remove(&uid).unwrap();
        u.drain_byte_quota(amount);
        self.users.insert(uid, u);
        proof {
            assert(self.users@.dom() =~= before.users@.dom());
            self.lemma_same_but_user(&before, uid);
        }
    }

    /// Notes that a message of `n` bytes was decoded from user `uid` at `now`.
    pub(crate) fn heard_from(&mut self, uid: u64, noisy: bool, n: usize, now: u64)
        requires
            old(self).wf(),
            old(self).users_by_id().contains_key(uid),
        ensures
            final(self).wf(),
            final(self).same_but_user(old(self), uid),
            final(self).users_by_id()[uid].last_time() == now,
            final(self).users_by_id()[uid].outgoing() == old(self).users_by_id()[uid].outgoing(),
            final(self).users_by_id()[uid].name() == old(self).users_by_id()[uid].name(),
            final(self).users_by_id()[uid].n_errors() == old(self).users_by_id()[uid].n_errors(),
            noisy ==> final(self).users_by_id()[uid].quota() == (if old(self).users_by_id()[uid].quota()
                + n > usize::MAX {
                usize::MAX as nat
            } else {
                (old(self).users_by_id()[uid].quota() + n) as nat
            }),
            !noisy ==> final(self).users_by_id()[uid].quota() == old(self).users_by_id()[uid].quota(),
    {
        let ghost before = *self;
        let mut u = self.users.remove(&uid).unwrap();
        u.heard(noisy, n, now);
        self.users.insert(uid, u);
        proof {
            assert(self.users@.dom() =~= before.users@.dom());
            self.lemma_same_but_user(&before, uid);
        }
    }

    /// Appends bytes read from user `uid`'s connection.
    pub fn absorb(&mut self, uid: u64, data: &[u8])
        requires
            old(self).wf(),
        ensures
            final(self).wf(),
            final(self).same_but_user(old(self), uid),
            old(self).users_by_id().contains_key(uid) ==> final(self).users_by_id()[uid].received()
                == old(self).users_by_id()[uid].received() + data@,
    {
        let ghost before = *self;
        match self.users.remove(&uid) {
            Some(mut u) => {
                u.absorb(data);
                self.users.insert(uid, u);
                proof {
                    assert(self.users@.dom() =~= before.users@.dom());
                    self.lemma_same_but_user(&before, uid);
                }
            },
            None => {
                assert(self.users@ =~= before.users@);
                proof {
                    self.lemma_same_but_user(&before, uid);
                }
            },
        }
    }

    /// Records an error of user `uid`'s connection.
    pub fn add_error(&mut self, uid: u64, e: crate::frame::SockError)
        requires
            old(self).wf(),
        ensures
            final(self).wf(),
            final(self).same_but_user(old(self), uid),
            old(self).users_by_id().contains_key(uid) ==> final(self).users_by_id()[uid].n_errors()
                == old(self).users_by_id()[uid].n_errors() + 1,
    {
        let ghost before = *self;
        match self.users.remove(&uid) {
            Some(mut u) => {
                u.add_error(e);
                self.users.insert(uid, u);
                proof {
                    assert(self.users@.dom() =~= before.users@.dom());
                    self.lemma_same_but_user(&before, uid);
                }
            },
            None => {
                assert(self.users@ =~= before.users@);
                proof {
                    self.lemma_same_but_user(&before, uid);
                }
            },
        }
    }

    /// Takes the next whole frame that user `uid` sent, if one is there.
    pub fn take_frame(&mut self, uid: u64) -> (r: Option<Vec<u8>>)
        requires
            old(self).wf(),
        ensures
            final(self).wf(),
            final(self).same_but_user(old(self), uid),
            !old(self).users_by_id().contains_key(uid) ==> r is None,
            old(self).users_by_id().contains_key(uid) ==> match crate::frame::scan_spec(
                old(self).users_by_id()[uid].received(),
            ) {
                crate::frame::Scan::Complete(e) => r is Some && r->Some_0@ == old(
                    self,
                ).users_by_id()[uid].received().take(e as int),
                _ => r is None,
            },
    {
        let ghost before = *self;
        match self.users.remove(&uid) {
            Some(mut u) => {
                let f = u.take_frame();
                self.users.insert(uid, u);
                proof {
                    assert(self.users@.dom() =~= before.users@.dom());
                    self.lemma_same_but_user(&before, uid);
                }
                f
            },
            None => {
                assert(self.users@ =~= before.users@);
                proof {
                    self.lemma_same_but_user(&before, uid);
                }
                None
            },
        }
    }

    /// The bytes waiting to be written to user `uid` (none for an unknown id).
    pub fn pending(&self, uid: u64) -> (r: Vec<u8>)
        ensures
            self.users_by_id().contains_key(uid) ==> r@ == self.users_by_id()[uid].outgoing(),
            !self.users_by_id().contains_key(uid) ==> r@.len() == 0,
    {
        match self.users.get(&uid) {
            Some(u) => copy_bytes(u.pending()),
            None => Vec::new(),
        }
    }

    /// Drops the first `n` bytes waiting for user `uid`, which its
    /// connection took.
    pub fn sent(&mut self, uid: u64, n: usize)
        requires
            old(self).wf(),
        ensures
            final(self).wf(),
            final(self).same_but_user(old(self), uid),
            old(self).users_by_id().contains_key(uid) && n <= old(self).users_by_id()[uid].outgoing().len()
                ==> final(self).users_by_id()[uid].outgoing() == old(self).users_by_id()[uid].outgoing().skip(n as int),
    {
        let ghost before = *self;
        match self.users.remove(&uid) {
            Some(mut u) => {
                if n <= u.pending().len() {
                    u.sent(n);
                }
                self.users.insert(uid, u);
                proof {
                    assert(self.users@.dom() =~= before.users@.dom());
                    self.lemma_same_but_user(&before, uid);
                }
            },
            None => {
                assert(self.users@ =~= before.users@);
                proof {
                    self.lemma_same_but_user(&before, uid);
                }
            },
        }
    }

    /// Posts `env` to room `rid`'s inbox.
    pub(crate) fn room_enqueue(&mut self, rid: u64, env: Env)
        requires
            old(self).wf(),
            old(self).rooms_by_id().contains_key(rid),
        ensures
            final(self).wf(),
            final(self).same_but_room(old(self), rid),
            final(self).rooms_by_id()[rid].same_lists(&old(self).rooms_by_id()[rid]),
            final(self).rooms_by_id()[rid].inbox() == old(self).rooms_by_id()[rid].inbox().push(env@),
    {
        let ghost before = *self;
        let mut r = self.rooms.remove(&rid).unwrap();
        r.enqueue(env);
        self.rooms.insert(rid, r);
        proof {
            assert(self.rooms@.dom() =~= before.rooms@.dom());
            self.lemma_same_but_room(&before, rid);
        }
    }

    pub(crate) fn room_set_closed(&mut self, rid: u64, closed: bool)
        requires
            old(self).wf(),
            old(self).rooms_by_id().contains_key(rid),
        ensures
            final(self).wf(),
            final(self).same_but_room(old(self), rid),
            final(self).rooms_by_id()[rid].is_closed() == closed,
            final(self).rooms_by_id()[rid].op() == old(self).rooms_by_id()[rid].op(),
            final(self).rooms_by_id()[rid].name() == old(self).rooms_by_id()[rid].name(),
            final(self).rooms_by_id()[rid].bans() == old(self).rooms_by_id()[rid].bans(),
            final(self).rooms_by_id()[rid].invites() == old(self).rooms_by_id()[rid].invites(),
            final(self).rooms_by_id()[rid].inbox() == old(self).rooms_by_id()[rid].inbox(),
    {
        let ghost before = *self;
        let mut r = self.rooms.remove(&rid).unwrap();
        r.set_closed(closed);
        self.rooms.insert(rid, r);
        proof {
            assert(self.rooms@.dom() =~= before.rooms@.dom());
            self.lemma_same_but_room(&before, rid);
        }
    }

    pub(crate) fn room_set_op(&mut self, rid: u64, uid: u64)
        requires
            old(self).wf(),
            old(self).rooms_by_id().contains_key(rid),
            rid != 0,
        ensures
            final(self).wf(),
            final(self).same_but_room(old(self), rid),
            final(self).rooms_by_id()[rid].op() == uid,
            final(self).rooms_by_id()[rid].name() == old(self).rooms_by_id()[rid].name(),
            final(self).rooms_by_id()[rid].is_closed() == old(self).rooms_by_id()[rid].is_closed(),
            final(self).rooms_by_id()[rid].bans() == old(self).rooms_by_id()[rid].bans(),
            final(self).rooms_by_id()[rid].invites() == old(self).rooms_by_id()[rid].invites(),
            final(self).rooms_by_id()[rid].inbox() == old(self).rooms_by_id()[rid].inbox(),
    {
        let ghost before = *self;
        let mut r = self.rooms.remove(&rid).unwrap();
        r.set_op(uid);
        self.rooms.insert(rid, r);
        proof {
            assert(self.rooms@.dom() =~= before.rooms@.dom());
            self.lemma_same_but_room(&before, rid);
        }
    }

    pub(crate) fn room_ban(&mut self, rid: u64, uid: u64)
        requires
            old(self).wf(),
            old(self).rooms_by_id().contains_key(rid),
            rid != 0,
            !old(self).rooms_by_id()[rid].members().contains(uid),
        ensures
            final(self).wf(),
            final(self).same_but_room(old(self), rid),
            final(self).rooms_by_id()[rid].bans().contains(uid),
            !final(self).rooms_by_id()[rid].invites().contains(uid),
            final(self).rooms_by_id()[rid].op() == old(self).rooms_by_id()[rid].op(),
            final(self).rooms_by_id()[rid].name() == old(self).rooms_by_id()[rid].name(),
            final(self).rooms_by_id()[rid].is_closed() == old(self).rooms_by_id()[rid].is_closed(),
            final(self).rooms_by_id()[rid].inbox() == old(self).rooms_by_id()[rid].inbox(),
    {
        let ghost before = *self;
        let mut r = self.rooms.remove(&rid).unwrap();
        r.ban(uid);
        self.rooms.insert(rid, r);
        proof {
            assert(self.rooms@.dom() =~= before.rooms@.dom());
            self.lemma_same_but_room(&before, rid);
        }
    }

    pub(crate) fn room_invite(&mut self, rid: u64, uid: u64)
        requires
            old(self).wf(),
            old(self).rooms_by_id().contains_key(rid),
        ensures
            final(self).wf(),
            final(self).same_but_room(old(self), rid),
            final(self).rooms_by_id()[rid].invites().contains(uid),
            !final(self).rooms_by_id()[rid].bans().contains(uid),
            final(self).rooms_by_id()[rid].op() == old(self).rooms_by_id()[rid].op(),
            final(self).rooms_by_id()[rid].name() == old(self).rooms_by_id()[rid].name(),
            final(self).rooms_by_id()[rid].is_closed() == old(self).rooms_by_id()[rid].is_closed(),
            final(self).rooms_by_id()[rid].inbox() == old(self).rooms_by_id()[rid].inbox(),
    {
        let ghost before = *self;
        let mut r = self.rooms.remove(&rid).unwrap();
        r.invite(uid);
        self.rooms.insert(rid, r);
        proof {
            assert(self.rooms@.dom() =~= before.rooms@.dom());
            self.lemma_same_but_room(&before, rid);
        }
    }
}

/// The envelope is for another room.
pub open spec fn elsewhere(e: (End, End, Seq<u8>), rid: u64) -> bool {
    e.1 is Room && e.1->Room_0 != rid
}

/// The envelopes of a run that room `rid` delivers itself, in order; the
/// others go to their rooms' inboxes.
pub open spec fn routed_here(es: Seq<(End, End, Seq<u8>)>, rid: u64) -> Seq<(End, End, Seq<u8>)>
    decreases es.len(),
{
    if es.len() == 0 {
        Seq::empty()
    } else if elsewhere(es.last(), rid) {
        routed_here(es.drop_last(), rid)
    } else {
        routed_here(es.drop_last(), rid).push(es.last())
    }
}

/// Among the ids below `n`, more than a finite set holds, one is missing
/// from it.
pub proof fn lemma_free_below(s: Set<u64>, n: nat)
    requires
        s.finite(),
        n > s.len(),
        n <= u64::MAX as nat + 1,
    ensures
        exists|i: u64| i < n && !s.contains(i),
    decreases n,
{
    if forall|i: u64| i < n ==> s.contains(i) {
        let m = (n - 1) as u64;
        assert(s.contains(m));
        let s2 = s.remove(m);
        assert(s2.len() == s.len() - 1);
        if n >= 2 {
            lemma_free_below(s2, (n - 1) as nat);
            let i = choose|i: u64| i < n - 1 && !s2.contains(i);
            assert(s.contains(i));
        }
    }
}

/// The names in `order` that start with `p`, in that order.
pub open spec fn with_prefix(order: Seq<Seq<char>>, p: Seq<char>) -> Seq<Seq<char>> {
    order.filter(|k: Seq<char>| crate::text::is_prefix(p, k))
}

/// A copy of a byte slice.
pub fn copy_bytes(b: &[u8]) -> (r: Vec<u8>)
    ensures
        r@ == b@,
{
    let mut r: Vec<u8> = Vec::new();
    let mut i: usize = 0;
    while i < b.len()
        invariant
            i <= b@.len(),
            r@ == b@.take(i as int),
        decreases b@.len() - i,
    {
        r.push(b[i]);
        assert(b@.take(i + 1) =~= b@.take(i as int).push(b@[i as int]));
        i = i + 1;
    }
    assert(b@.take(i as int) =~= b@);
    r
}

} // verus!
