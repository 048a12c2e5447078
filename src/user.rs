//! A connected client as the server sees it: identity, byte quota, the time
//! of its last message, its block list, accumulated socket errors and the
//! buffers of its frame socket.

use vstd::prelude::*;
use crate::frame::{Sock, SockError, scan_spec, Scan};
use crate::names::{ascollapse, normalize};
use crate::proto::{End, Env, Sndr, sndr_json};
use crate::text::{cat2, decimal, decimal_string, push_str};

verus! {

/// Errors that piled up on a user's connection.
#[derive(Clone, Debug)]
pub struct UserError {
    msg: String,
}

impl View for UserError {
    type V = Seq<char>;

    closed spec fn view(&self) -> Seq<char> {
        self.msg@
    }
}

impl UserError {
    pub fn new(message: &str) -> (r: UserError)
        ensures
            r@ == message@,
    {
        UserError { msg: message.to_owned() }
    }

    pub fn from_socket(err: &SockError) -> (r: UserError)
        ensures
            r@ == "Underlying socket error: "@ + ("SockError: "@ + err@),
    {
        let d = err.describe();
        UserError { msg: cat2("Underlying socket error: ", d.as_str()) }
    }

    /// A count of the errors, then each on a line of its own.
    pub fn from_sockets(err_list: &Vec<SockError>) -> (r: UserError)
        ensures
            r@ == decimal(err_list@.len() as u64 as nat) + " Underlying socket error(s):"@
                + error_lines(sock_error_views(err_list@)),
    {
        let mut message = decimal_string(err_list.len() as u64);
        push_str(&mut message, " Underlying socket error(s):");
        let ghost head = message@;
        let mut i: usize = 0;
        while i < err_list.len()
            invariant
                i <= err_list@.len(),
                message@ == head + error_lines(sock_error_views(err_list@.take(i as int))),
            decreases err_list@.len() - i,
        {
            push_str(&mut message, "\n  * ");
            let d = err_list[i].describe();
            push_str(&mut message, d.as_str());
            proof {
                let a = sock_error_views(err_list@.take(i + 1));
                assert(a.drop_last() =~= sock_error_views(err_list@.take(i as int)));
                assert(a.last() == err_list@[i as int]@);
            }
            i = i + 1;
        }
        assert(err_list@.take(i as int) =~= err_list@);
        UserError { msg: message }
    }

    /// The message, prefixed as the error's display form is.
    pub fn describe(&self) -> (r: String)
        ensures
            r@ == "UserError: "@ + self@,
    {
        cat2("UserError: ", self.msg.as_str())
    }
}

pub open spec fn sock_error_views(es: Seq<SockError>) -> Seq<Seq<char>> {
    es.map_values(|e: SockError| e@)
}

/// Each error message on a line of its own, bulleted.
pub open spec fn error_lines(es: Seq<Seq<char>>) -> Seq<char>
    decreases es.len(),
{
    if es.len() == 0 {
        Seq::empty()
    } else {
        error_lines(es.drop_last()) + "\n  * "@ + ("SockError: "@ + es.last())
    }
}

/// Strictly increasing: sorted, no repeats.
pub open spec fn strictly_sorted(s: Seq<u64>) -> bool {
    forall|i: int, j: int| 0 <= i < j < s.len() ==> s[i] < s[j]
}

/// How many entries of a sorted list are below `x`.
pub open spec fn lower_bound(s: Seq<u64>, x: u64) -> int
    decreases s.len(),
{
    if s.len() == 0 {
        0
    } else if s.last() < x {
        s.len() as int
    } else {
        lower_bound(s.drop_last(), x)
    }
}

pub proof fn lemma_lower_bound(s: Seq<u64>, x: u64)
    requires
        strictly_sorted(s),
    ensures
        0 <= lower_bound(s, x) <= s.len(),
        forall|i: int| 0 <= i < lower_bound(s, x) ==> s[i] < x,
        forall|i: int| lower_bound(s, x) <= i < s.len() ==> s[i] >= x,
    decreases s.len(),
{
    if s.len() > 0 {
        let p = s.drop_last();
        if s.last() >= x {
            assert(strictly_sorted(p));
            lemma_lower_bound(p, x);
            assert forall|i: int| 0 <= i < lower_bound(s, x) implies s[i] < x by {
                assert(s[i] == p[i]);
            }
            assert forall|i: int| lower_bound(s, x) <= i < s.len() implies s[i] >= x by {
                if i < p.len() {
                    assert(s[i] == p[i]);
                }
            }
        } else {
            assert forall|i: int| 0 <= i < lower_bound(s, x) implies s[i] < x by {
                if i < s.len() - 1 {
                    assert(s[i] < s[s.len() - 1]);
                }
            }
        }
    }
}

/// The one index that splits a sorted list into entries below `x` and the rest.
pub proof fn lemma_lower_bound_unique(s: Seq<u64>, x: u64, p: int)
    requires
        strictly_sorted(s),
        0 <= p <= s.len(),
        forall|i: int| 0 <= i < p ==> s[i] < x,
        forall|i: int| p <= i < s.len() ==> s[i] >= x,
    ensures
        lower_bound(s, x) == p,
{
    lemma_lower_bound(s, x);
    let l = lower_bound(s, x);
    if l < p {
        assert(s[l] < x);
    } else if p < l {
        assert(s[p] < x);
    }
}

/// The user's state apart from its connection buffers.
pub struct User {
    sock: Sock,
    name: String,
    idn: u64,
    idstr: String,
    addr: Option<String>,
    quota_bytes: usize,
    last_data_time: u64,
    errs: Vec<SockError>,
    blocks: Vec<u64>,
}

impl User {
    pub closed spec fn id(&self) -> u64 {
        self.idn
    }

    pub closed spec fn name(&self) -> Seq<char> {
        self.name@
    }

    pub closed spec fn idstr(&self) -> Seq<char> {
        self.idstr@
    }

    pub closed spec fn quota(&self) -> nat {
        self.quota_bytes as nat
    }

    pub closed spec fn last_time(&self) -> u64 {
        self.last_data_time
    }

    pub closed spec fn blocks(&self) -> Seq<u64> {
        self.blocks@
    }

    pub closed spec fn n_errors(&self) -> nat {
        self.errs@.len()
    }

    /// The errors that piled up, oldest first.
    pub closed spec fn errors(&self) -> Seq<Seq<char>> {
        sock_error_views(self.errs@)
    }

    pub closed spec fn address(&self) -> Option<Seq<char>> {
        match self.addr {
            Some(a) => Some(a@),
            None => None,
        }
    }

    /// Bytes waiting to be written to the connection.
    pub closed spec fn outgoing(&self) -> Seq<u8> {
        self.sock.outgoing()
    }

    /// Bytes read from the connection and not yet taken as frames.
    pub closed spec fn received(&self) -> Seq<u8> {
        self.sock.received()
    }

    /// The normalized name matches the name; the block list is sorted.
    pub open spec fn wf(&self) -> bool {
        &&& self.idstr() == normalize(self.name())
        &&& strictly_sorted(self.blocks())
    }

    /// Everything but the name is as in `other`.
    pub open spec fn same_but_name(&self, other: &User) -> bool {
        &&& self.id() == other.id()
        &&& self.quota() == other.quota()
        &&& self.last_time() == other.last_time()
        &&& self.blocks() == other.blocks()
        &&& self.n_errors() == other.n_errors()
        &&& self.address() == other.address()
        &&& self.outgoing() == other.outgoing()
        &&& self.received() == other.received()
    }

    /// Everything but what waits to be written is as in `other`.
    pub open spec fn same_but_outgoing(&self, other: &User) -> bool {
        &&& self.id() == other.id()
        &&& self.name() == other.name()
        &&& self.idstr() == other.idstr()
        &&& self.quota() == other.quota()
        &&& self.last_time() == other.last_time()
        &&& self.blocks() == other.blocks()
        &&& self.n_errors() == other.n_errors()
        &&& self.address() == other.address()
        &&& self.received() == other.received()
    }

    /// A new user named `user<id>`, heard from at `now`.
    pub fn new(new_sock: Sock, new_idn: u64, now: u64) -> (r: User)
        ensures
            r.wf(),
            r.id() == new_idn,
            r.name() == "user"@ + decimal(new_idn as nat),
            r.quota() == 0,
            r.last_time() == now,
            r.blocks() == Seq::<u64>::empty(),
            r.n_errors() == 0,
            r.address() == None::<Seq<char>>,
            r.outgoing() == new_sock.outgoing(),
            r.received() == new_sock.received(),
    {
        let d = decimal_string(new_idn);
        let new_name = cat2("user", d.as_str());
        User {
            sock: new_sock,
            idn: new_idn,
            idstr: ascollapse(new_name.as_str()),
            name: new_name,
            addr: None,
            quota_bytes: 0,
            last_data_time: now,
            errs: Vec::new(),
            blocks: Vec::new(),
        }
    }

    pub fn get_name(&self) -> (r: &str)
        ensures
            r@ == self.name(),
    {
        self.name.as_str()
    }

    pub fn get_id(&self) -> (r: u64)
        ensures
            r == self.id(),
    {
        self.idn
    }

    pub fn get_idstr(&self) -> (r: &str)
        ensures
            r@ == self.idstr(),
    {
        self.idstr.as_str()
    }

    /// The peer address of the connection, where it is known.
    pub fn get_addr(&self) -> (r: Option<String>)
        ensures
            match r {
                Some(a) => self.address() == Some(a@),
                None => self.address() is None,
            },
    {
        match &self.addr {
            Some(a) => Some(a.clone()),
            None => None,
        }
    }

    pub fn set_addr(&mut self, a: String)
        ensures
            final(self).address() == Some(a@),
            final(self).id() == old(self).id(),
            final(self).name() == old(self).name(),
            final(self).idstr() == old(self).idstr(),
            final(self).quota() == old(self).quota(),
            final(self).last_time() == old(self).last_time(),
            final(self).blocks() == old(self).blocks(),
            final(self).n_errors() == old(self).n_errors(),
            final(self).outgoing() == old(self).outgoing(),
            final(self).received() == old(self).received(),
    {
        self.addr = Some(a);
    }

    /// Renames the user; the normalized name follows.
    pub fn set_name(&mut self, new_name: &str)
        requires
            old(self).wf(),
        ensures
            final(self).wf(),
            final(self).name() == new_name@,
            final(self).idstr() == normalize(new_name@),
            final(self).same_but_name(old(self)),
    {
        self.name = new_name.to_owned();
        self.idstr = ascollapse(new_name);
    }

    pub fn get_byte_quota(&self) -> (r: usize)
        ensures
            r == self.quota(),
    {
        self.quota_bytes
    }

    /// Lowers the byte quota by `amount`, stopping at zero.
    pub fn drain_byte_quota(&mut self, amount: usize)
        ensures
            final(self).quota() == (if amount > old(self).quota() {
                0
            } else {
                (old(self).quota() - amount) as nat
            }),
            final(self).same_but_quota(old(self)),
    {
        if amount > self.quota_bytes {
            self.quota_bytes = 0;
        } else {
            self.quota_bytes = self.quota_bytes - amount;
        }
    }

    /// Everything but the quota is as in `other`.
    pub open spec fn same_but_quota(&self, other: &User) -> bool {
        &&& self.id() == other.id()
        &&& self.name() == other.name()
        &&& self.idstr() == other.idstr()
        &&& self.last_time() == other.last_time()
        &&& self.blocks() == other.blocks()
        &&& self.n_errors() == other.n_errors()
        &&& self.address() == other.address()
        &&& self.outgoing() == other.outgoing()
        &&& self.received() == other.received()
    }

    pub fn get_last_data_time(&self) -> (r: u64)
        ensures
            r == self.last_time(),
    {
        self.last_data_time
    }

    pub fn has_errors(&self) -> (r: bool)
        ensures
            r == (self.n_errors() > 0),
    {
        self.errs.len() > 0
    }

    /// One error that sums up those that piled up.
    pub fn get_errors(&self) -> (r: UserError)
        ensures
            r@ == decimal(self.n_errors() as u64 as nat) + " Underlying socket error(s):"@
                + error_lines(self.errors()),
    {
        UserError::from_sockets(&self.errs)
    }

    /// Records an error of the connection.
    pub fn add_error(&mut self, e: SockError)
        ensures
            final(self).n_errors() == old(self).n_errors() + 1,
            final(self).id() == old(self).id(),
            final(self).name() == old(self).name(),
            final(self).idstr() == old(self).idstr(),
            final(self).quota() == old(self).quota(),
            final(self).last_time() == old(self).last_time(),
            final(self).blocks() == old(self).blocks(),
            final(self).address() == old(self).address(),
            final(self).outgoing() == old(self).outgoing(),
            final(self).received() == old(self).received(),
    {
        self.errs.push(e);
    }

    /// Adds `id` to the block list. True if it was not there before.
    pub fn block_id(&mut self, id: u64) -> (r: bool)
        requires
            old(self).wf(),
        ensures
            final(self).wf(),
            r == !old(self).blocks().contains(id),
            final(self).blocks() == with_blocked(old(self).blocks(), id),
            final(self).same_but_blocks(old(self)),
    {
        let ghost s = self.blocks@;
        let mut i: usize = 0;
        while i < self.blocks.len() && self.blocks[i] < id
            invariant
                i <= s.len(),
                s == self.blocks@,
                forall|j: int| 0 <= j < i ==> s[j] < id,
            decreases s.len() - i,
        {
            i = i + 1;
        }
        proof {
            assert forall|j: int| i <= j < s.len() implies s[j] >= id by {
                if j > i {
                    assert(s[i as int] < s[j]);
                }
            }
            lemma_lower_bound_unique(s, id, i as int);
        }
        if i < self.blocks.len() && self.blocks[i] == id {
            return false;
        }
        assert(!s.contains(id)) by {
            if s.contains(id) {
                let j = choose|j: int| 0 <= j < s.len() && s[j] == id;
                assert(j >= i);
            }
        }
        self.blocks.insert(i, id);
        assert forall|a: int, b: int|
            0 <= a < b < self.blocks@.len() implies self.blocks@[a] < self.blocks@[b] by {
            if b < i {
            } else if b == i {
            } else if a < i {
                assert(s[a] < id);
            } else if a == i {
            } else {
                assert(s[a - 1] < s[b - 1]);
            }
        }
        true
    }

    /// Everything but the block list is as in `other`.
    pub open spec fn same_but_blocks(&self, other: &User) -> bool {
        &&& self.id() == other.id()
        &&& self.name() == other.name()
        &&& self.idstr() == other.idstr()
        &&& self.quota() == other.quota()
        &&& self.last_time() == other.last_time()
        &&& self.n_errors() == other.n_errors()
        &&& self.address() == other.address()
        &&& self.outgoing() == other.outgoing()
        &&& self.received() == other.received()
    }

    /// Removes `id` from the block list. True if it was there.
    pub fn unblock_id(&mut self, id: u64) -> (r: bool)
        requires
            old(self).wf(),
        ensures
            final(self).wf(),
            r == old(self).blocks().contains(id),
            final(self).blocks() == without_blocked(old(self).blocks(), id),
            final(self).same_but_blocks(old(self)),
    {
        let ghost s = self.blocks@;
        let mut i: usize = 0;
        while i < self.blocks.len() && self.blocks[i] < id
            invariant
                i <= s.len(),
                s == self.blocks@,
                forall|j: int| 0 <= j < i ==> s[j] < id,
            decreases s.len() - i,
        {
            i = i + 1;
        }
        proof {
            assert forall|j: int| i <= j < s.len() implies s[j] >= id by {
                if j > i {
                    assert(s[i as int] < s[j]);
                }
            }
            lemma_lower_bound_unique(s, id, i as int);
        }
        if i < self.blocks.len() && self.blocks[i] == id {
            self.blocks.remove(i);
            assert forall|a: int, b: int|
                0 <= a < b < self.blocks@.len() implies self.blocks@[a] < self.blocks@[b] by {
                if a < i && b >= i {
                    assert(s[a] < s[b + 1]);
                } else if a >= i {
                    assert(s[a + 1] < s[b + 1]);
                } else {
                    assert(s[a] < s[b]);
                }
            }
            return true;
        }
        assert(!s.contains(id)) by {
            if s.contains(id) {
                let j = choose|j: int| 0 <= j < s.len() && s[j] == id;
                assert(j >= i);
            }
        }
        false
    }

    /// A copy of the block list.
    pub fn blocks_list(&self) -> (r: Vec<u64>)
        ensures
            r@ == self.blocks(),
    {
        self.blocks.clone()
    }

    /// Whether messages from `id` are dropped.
    pub fn is_blocking(&self, id: u64) -> (r: bool)
        ensures
            r == self.blocks().contains(id),
    {
        let mut i: usize = 0;
        while i < self.blocks.len()
            invariant
                i <= self.blocks@.len(),
                forall|j: int| 0 <= j < i ==> self.blocks@[j] != id,
            decreases self.blocks@.len() - i,
        {
            if self.blocks[i] == id {
                return true;
            }
            i = i + 1;
        }
        false
    }

    /// Queues the envelope's bytes, unless it comes from a user on the block
    /// list.
    pub fn deliver(&mut self, env: &Env)
        ensures
            final(self).same_but_outgoing(old(self)),
            final(self).outgoing() == (if delivers_to(*old(self), env@) {
                old(self).outgoing() + env@.2
            } else {
                old(self).outgoing()
            }),
    {
        let blocked = match env.source() {
            End::User(id) => self.is_blocking(id),
            _ => false,
        };
        if !blocked {
            self.sock.enqueue(env.bytes());
        }
    }

    /// Encodes `msg` and queues it, whoever it comes from.
    pub fn deliver_msg(&mut self, msg: &Sndr)
        ensures
            final(self).same_but_outgoing(old(self)),
            final(self).outgoing() == old(self).outgoing() + sndr_json(*msg),
    {
        let b = msg.bytes();
        self.sock.enqueue(b.as_slice());
    }

    /// Queues a `Logout` with `logout_message`; the connection is closed once
    /// it has been written.
    pub fn logout(&mut self, logout_message: &str)
        ensures
            final(self).same_but_outgoing(old(self)),
            final(self).outgoing() == old(self).outgoing() + sndr_json(
                Sndr::Logout(logout_message),
            ),
    {
        let msg = Sndr::Logout(logout_message);
        self.deliver_msg(&msg);
    }

    /// Appends bytes read from the connection.
    pub fn absorb(&mut self, data: &[u8])
        ensures
            final(self).received() == old(self).received() + data@,
            final(self).id() == old(self).id(),
            final(self).name() == old(self).name(),
            final(self).idstr() == old(self).idstr(),
            final(self).quota() == old(self).quota(),
            final(self).last_time() == old(self).last_time(),
            final(self).blocks() == old(self).blocks(),
            final(self).n_errors() == old(self).n_errors(),
            final(self).address() == old(self).address(),
            final(self).outgoing() == old(self).outgoing(),
    {
        self.sock.absorb(data);
    }

    /// Takes the next whole frame from what was read. A buffer that does not
    /// start a frame is recorded as an error.
    pub fn take_frame(&mut self) -> (r: Option<Vec<u8>>)
        ensures
            final(self).id() == old(self).id(),
            final(self).name() == old(self).name(),
            final(self).idstr() == old(self).idstr(),
            final(self).quota() == old(self).quota(),
            final(self).last_time() == old(self).last_time(),
            final(self).blocks() == old(self).blocks(),
            final(self).address() == old(self).address(),
            final(self).outgoing() == old(self).outgoing(),
            match scan_spec(old(self).received()) {
                Scan::Complete(e) => r is Some && r->Some_0@ == old(self).received().take(e as int)
                    && final(self).received() == old(self).received().skip(e as int)
                    && final(self).n_errors() == old(self).n_errors(),
                Scan::Incomplete => r is None && final(self).received() == old(self).received()
                    && final(self).n_errors() == old(self).n_errors(),
                Scan::Invalid => r is None && final(self).received() == old(self).received()
                    && final(self).n_errors() == old(self).n_errors() + 1,
            },
    {
        match self.sock.try_get() {
            Ok(f) => f,
            Err(e) => {
                self.errs.push(e);
                None
            },
        }
    }

    /// Notes a message decoded at `now` from `n` bytes: it resets the idle
    /// timer, and a noisy one adds its bytes to the quota.
    pub fn heard(&mut self, noisy: bool, n: usize, now: u64)
        ensures
            final(self).last_time() == now,
            final(self).quota() == (if noisy {
                if old(self).quota() + n > usize::MAX {
                    usize::MAX as nat
                } else {
                    (old(self).quota() + n) as nat
                }
            } else {
                old(self).quota()
            }),
            final(self).id() == old(self).id(),
            final(self).name() == old(self).name(),
            final(self).idstr() == old(self).idstr(),
            final(self).blocks() == old(self).blocks(),
            final(self).n_errors() == old(self).n_errors(),
            final(self).address() == old(self).address(),
            final(self).outgoing() == old(self).outgoing(),
            final(self).received() == old(self).received(),
    {
        self.last_data_time = now;
        if noisy {
            self.quota_bytes = self.quota_bytes.saturating_add(n);
        }
    }

    /// The bytes waiting to be written.
    pub fn pending(&self) -> (r: &[u8])
        ensures
            r@ == self.outgoing(),
    {
        self.sock.pending()
    }

    /// Drops the first `n` bytes waiting to be written, which the connection
    /// took; returns how many are left.
    pub fn sent(&mut self, n: usize) -> (r: usize)
        requires
            n <= old(self).outgoing().len(),
        ensures
            final(self).outgoing() == old(self).outgoing().skip(n as int),
            r == final(self).outgoing().len(),
            final(self).same_but_outgoing(old(self)),
    {
        self.sock.sent(n)
    }

    pub fn get_read_buffer_size(&self) -> usize {
        self.sock.get_read_buffer_size()
    }
}

/// A sorted block list with `id` added.
pub open spec fn with_blocked(s: Seq<u64>, id: u64) -> Seq<u64> {
    if s.contains(id) {
        s
    } else {
        s.insert(lower_bound(s, id), id)
    }
}

/// A sorted block list with `id` taken out.
pub open spec fn without_blocked(s: Seq<u64>, id: u64) -> Seq<u64> {
    if s.contains(id) {
        s.remove(lower_bound(s, id))
    } else {
        s
    }
}

/// Blocking a user who was not blocked and then unblocking them leaves the
/// block list as it was.
pub proof fn lemma_block_then_unblock(s: Seq<u64>, id: u64)
    requires
        strictly_sorted(s),
        !s.contains(id),
    ensures
        without_blocked(with_blocked(s, id), id) == s,
{
    lemma_lower_bound(s, id);
    let p = lower_bound(s, id);
    let t = s.insert(p, id);
    assert(t[p] == id);
    assert(t.contains(id));
    assert forall|a: int, b: int| 0 <= a < b < t.len() implies t[a] < t[b] by {
        if b < p {
        } else if b == p {
        } else if a < p {
            assert(s[a] < id);
            assert(s[b - 1] >= id);
            assert(s[b - 1] != id);
        } else if a == p {
            assert(s[b - 1] >= id);
            assert(s[b - 1] != id);
        } else {
            assert(s[a - 1] < s[b - 1]);
        }
    }
    assert forall|i: int| 0 <= i < p implies t[i] < id by {
        assert(t[i] == s[i]);
    }
    assert forall|i: int| p <= i < t.len() implies t[i] >= id by {
        if i > p {
            assert(t[i] == s[i - 1]);
        }
    }
    lemma_lower_bound_unique(t, id, p);
    assert(t.remove(p) =~= s);
}

/// Whether a user takes an envelope: not when it comes from a user it blocks.
pub open spec fn delivers_to(u: User, e: (End, End, Seq<u8>)) -> bool {
    match e.0 {
        End::User(id) => !u.blocks().contains(id),
        _ => true,
    }
}

} // verus!
