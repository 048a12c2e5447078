//! The frame socket's buffers. Bytes read from a connection are appended to
//! `current`; whole JSON values (objects, arrays or strings, concatenated
//! with no separator) are cut off its front one at a time. Bytes to send
//! wait in `send_buff` until the connection takes them.

use vstd::prelude::*;
use crate::json::{QUOTE, BACKSLASH, LBRACE, RBRACE, LBRACKET, RBRACKET};

verus! {

pub const DEFAULT_BUFFER_SIZE: usize = 1024;

/// Scanner state: nesting depth, inside a string, after a backslash.
pub type ScanState = (int, bool, bool);

pub open spec fn step(st: ScanState, c: u8) -> ScanState {
    let (d, s, e) = st;
    if s {
        if e {
            (d, true, false)
        } else if c == BACKSLASH {
            (d, true, true)
        } else if c == QUOTE {
            (d, false, false)
        } else {
            (d, true, false)
        }
    } else {
        if c == QUOTE {
            (d, true, false)
        } else if c == LBRACE || c == LBRACKET {
            (d + 1, false, false)
        } else if c == RBRACE || c == RBRACKET {
            (d - 1, false, false)
        } else {
            (d, false, false)
        }
    }
}

/// The value that was opened has been closed.
pub open spec fn is_done(st: ScanState) -> bool {
    st.0 <= 0 && !st.1
}

/// Where the value being scanned ends (the index after its last byte),
/// scanning `b` from `i` in state `st`; `None` when `b` ends first.
pub open spec fn scan_from(b: Seq<u8>, i: int, st: ScanState) -> Option<int>
    decreases b.len() - i,
{
    if i < 0 || i >= b.len() {
        None
    } else {
        let s2 = step(st, b[i]);
        if is_done(s2) {
            Some(i + 1)
        } else {
            scan_from(b, i + 1, s2)
        }
    }
}

pub open spec fn is_json_ws(c: u8) -> bool {
    c == 0x20 || c == 0x09 || c == 0x0a || c == 0x0d
}

pub open spec fn is_opener(c: u8) -> bool {
    c == LBRACE || c == LBRACKET || c == QUOTE
}

/// Index of the first byte that is not whitespace (`b.len()` if none).
pub open spec fn first_non_ws(b: Seq<u8>, i: int) -> int
    decreases b.len() - i,
{
    if i < 0 || i >= b.len() {
        b.len() as int
    } else if is_json_ws(b[i]) {
        first_non_ws(b, i + 1)
    } else {
        i
    }
}

/// What the front of a receive buffer holds.
#[derive(Clone, Copy, Debug, PartialEq, Eq, Structural)]
pub enum Scan {
    /// A whole value, which with the whitespace before it takes this many bytes.
    Complete(usize),
    /// Only whitespace, or the start of a value.
    Incomplete,
    /// Something that does not start a value of the protocol.
    Invalid,
}

/// The scan of a receive buffer.
pub open spec fn scan_spec(b: Seq<u8>) -> Scan {
    let s = first_non_ws(b, 0);
    if s >= b.len() {
        Scan::Incomplete
    } else if !is_opener(b[s]) {
        Scan::Invalid
    } else {
        match scan_from(b, s, (0, false, false)) {
            Some(e) => Scan::Complete(e as usize),
            None => Scan::Incomplete,
        }
    }
}

proof fn lemma_scan_bounds(b: Seq<u8>, i: int, st: ScanState)
    requires
        0 <= i,
    ensures
        match scan_from(b, i, st) {
            Some(e) => i < e <= b.len(),
            None => true,
        },
    decreases b.len() - i,
{
    if i < b.len() {
        let s2 = step(st, b[i]);
        if !is_done(s2) {
            lemma_scan_bounds(b, i + 1, s2);
        }
    }
}

proof fn lemma_first_non_ws(b: Seq<u8>, i: int)
    requires
        0 <= i <= b.len(),
    ensures
        i <= first_non_ws(b, i) <= b.len(),
        first_non_ws(b, i) < b.len() ==> !is_json_ws(b[first_non_ws(b, i)]),
    decreases b.len() - i,
{
    if i < b.len() && is_json_ws(b[i]) {
        lemma_first_non_ws(b, i + 1);
    }
}

/// Finds where the first JSON value in `b` ends.
pub fn scan(b: &[u8]) -> (r: Scan)
    ensures
        r == scan_spec(b@),
        r matches Scan::Complete(e) ==> 0 < e <= b@.len(),
{
    let n = b.len();
    let mut i: usize = 0;
    while i < n && (b[i] == 0x20 || b[i] == 0x09 || b[i] == 0x0a || b[i] == 0x0d)
        invariant
            n == b@.len(),
            i <= n,
            first_non_ws(b@, 0) == first_non_ws(b@, i as int),
        decreases n - i,
    {
        i = i + 1;
    }
    proof {
        lemma_first_non_ws(b@, i as int);
    }
    if i >= n {
        return Scan::Incomplete;
    }
    let c = b[i];
    if !(c == LBRACE || c == LBRACKET || c == QUOTE) {
        return Scan::Invalid;
    }
    assert(first_non_ws(b@, i as int) == i as int);
    let ghost start = i as int;
    let mut depth: usize = 0;
    let mut in_str: bool = false;
    let mut esc: bool = false;
    while i < n
        invariant
            n == b@.len(),
            start == first_non_ws(b@, 0),
            0 <= start < n,
            is_opener(b@[start]),
            start <= i <= n,
            depth <= i - start,
            scan_from(b@, start, (0, false, false)) == scan_from(
                b@,
                i as int,
                (depth as int, in_str, esc),
            ),
            i > start ==> !is_done((depth as int, in_str, esc)),
            in_str || !esc,
            i == start ==> depth == 0 && !in_str && !esc,
        decreases n - i,
    {
        let c = b[i];
        let ghost st = (depth as int, in_str, esc);
        if in_str {
            if esc {
                esc = false;
            } else if c == BACKSLASH {
                esc = true;
            } else if c == QUOTE {
                in_str = false;
            }
        } else {
            if c == QUOTE {
                in_str = true;
            } else if c == LBRACE || c == LBRACKET {
                assert(depth < n);
                depth = depth + 1;
            } else if c == RBRACE || c == RBRACKET {
                if depth <= 1 {
                    assert(is_done(step(st, c)));
                    assert(scan_from(b@, i as int, st) == Some((i + 1) as int));
                    proof {
                        lemma_scan_bounds(b@, start, (0, false, false));
                    }
                    return Scan::Complete(i + 1);
                }
                depth = depth - 1;
            }
        }
        assert((depth as int, in_str, esc) == step(st, c));
        if depth == 0 && !in_str {
            assert(scan_from(b@, i as int, st) == Some((i + 1) as int));
            proof {
                lemma_scan_bounds(b@, start, (0, false, false));
            }
            return Scan::Complete(i + 1);
        }
        i = i + 1;
    }
    Scan::Incomplete
}

/// A fatal error on a connection; it should be shut down.
#[derive(Debug)]
pub struct SockError {
    msg: String,
}

impl View for SockError {
    type V = Seq<char>;

    closed spec fn view(&self) -> Seq<char> {
        self.msg@
    }
}

impl SockError {
    pub fn new(message: &str) -> (r: SockError)
        ensures
            r@ == message@,
    {
        SockError { msg: message.to_owned() }
    }

    pub fn string(message: String) -> (r: SockError)
        ensures
            r@ == message@,
    {
        SockError { msg: message }
    }

    /// The message, prefixed as the error's display form is.
    pub fn describe(&self) -> (r: String)
        ensures
            r@ == "SockError: "@ + self@,
    {
        crate::text::cat2("SockError: ", self.msg.as_str())
    }
}

/// An error of a JSON connection, either fatal or one that a later try may
/// not meet again.
#[derive(Debug)]
pub struct JSockError {
    msg: String,
    is_fatal: bool,
}

impl View for JSockError {
    type V = (Seq<char>, bool);

    closed spec fn view(&self) -> (Seq<char>, bool) {
        (self.msg@, self.is_fatal)
    }
}

impl JSockError {
    pub fn new(msg: &str, is_fatal: bool) -> (r: JSockError)
        ensures
            r@ == (msg@, is_fatal),
    {
        JSockError { msg: msg.to_owned(), is_fatal }
    }

    pub fn string(msg: String, is_fatal: bool) -> (r: JSockError)
        ensures
            r@ == (msg@, is_fatal),
    {
        JSockError { msg, is_fatal }
    }

    pub fn fatal(&self) -> (r: bool)
        ensures
            r == self@.1,
    {
        self.is_fatal
    }
}

/// A copy of `b[from..to]`.
fn copy_range(b: &[u8], from: usize, to: usize) -> (r: Vec<u8>)
    requires
        from <= to <= b@.len(),
    ensures
        r@ == b@.subrange(from as int, to as int),
{
    let mut r: Vec<u8> = Vec::new();
    let mut i: usize = from;
    while i < to
        invariant
            from <= i <= to <= b@.len(),
            r@ == b@.subrange(from as int, i as int),
        decreases to - i,
    {
        r.push(b[i]);
        assert(b@.subrange(from as int, i + 1) =~= b@.subrange(from as int, i as int).push(
            b@[i as int],
        ));
        i = i + 1;
    }
    r
}

/// The buffers of a frame socket: what was read and not yet taken as a
/// frame, and what waits to be written.
pub struct Sock {
    read_size: usize,
    current: Vec<u8>,
    send_buff: Vec<u8>,
}

impl Sock {
    /// Bytes read and not yet taken as frames.
    pub closed spec fn received(&self) -> Seq<u8> {
        self.current@
    }

    /// Bytes waiting to be written.
    pub closed spec fn outgoing(&self) -> Seq<u8> {
        self.send_buff@
    }

    pub closed spec fn read_size_spec(&self) -> usize {
        self.read_size
    }

    pub fn new() -> (r: Sock)
        ensures
            r.received() == Seq::<u8>::empty(),
            r.outgoing() == Seq::<u8>::empty(),
            r.read_size_spec() == DEFAULT_BUFFER_SIZE,
    {
        Sock { read_size: DEFAULT_BUFFER_SIZE, current: Vec::new(), send_buff: Vec::new() }
    }

    /// How many bytes one read from the connection asks for.
    pub fn set_read_buffer_size(&mut self, new_size: usize)
        ensures
            final(self).read_size_spec() == new_size,
            final(self).received() == old(self).received(),
            final(self).outgoing() == old(self).outgoing(),
    {
        self.read_size = new_size;
    }

    pub fn get_read_buffer_size(&self) -> (r: usize)
        ensures
            r == self.read_size_spec(),
    {
        self.read_size
    }

    /// Appends bytes read from the connection.
    pub fn absorb(&mut self, data: &[u8])
        ensures
            final(self).received() == old(self).received() + data@,
            final(self).outgoing() == old(self).outgoing(),
            final(self).read_size_spec() == old(self).read_size_spec(),
    {
        let mut i: usize = 0;
        let ghost before = self.current@;
        while i < data.len()
            invariant
                i <= data@.len(),
                self.current@ == before + data@.take(i as int),
                self.send_buff == old(self).send_buff,
                self.read_size == old(self).read_size,
            decreases data@.len() - i,
        {
            self.current.push(data[i]);
            assert(data@.take(i + 1) =~= data@.take(i as int).push(data[i as int]));
            i = i + 1;
        }
        assert(data@.take(i as int) =~= data@);
    }

    /// Cuts the next whole value off the front of the receive buffer.
    /// `Ok(None)` when no whole value is there yet; an error when the buffer
    /// starts with something that is not a value of the protocol.
    pub fn try_get(&mut self) -> (r: Result<Option<Vec<u8>>, SockError>)
        ensures
            final(self).outgoing() == old(self).outgoing(),
            final(self).read_size_spec() == old(self).read_size_spec(),
            match scan_spec(old(self).received()) {
                Scan::Complete(e) => r == Ok::<Option<Vec<u8>>, SockError>(Some(r->Ok_0->Some_0))
                    && r->Ok_0->Some_0@ == old(self).received().take(e as int)
                    && final(self).received() == old(self).received().skip(e as int),
                Scan::Incomplete => r == Ok::<Option<Vec<u8>>, SockError>(None)
                    && final(self).received() == old(self).received(),
                Scan::Invalid => r is Err && final(self).received() == old(self).received(),
            },
    {
        match scan(self.current.as_slice()) {
            Scan::Complete(e) => {
                let frame = copy_range(self.current.as_slice(), 0, e);
                let rest = copy_range(self.current.as_slice(), e, self.current.len());
                assert(frame@ =~= old(self).current@.take(e as int));
                assert(rest@ =~= old(self).current@.skip(e as int));
                self.current = rest;
                Ok(Some(frame))
            },
            Scan::Incomplete => Ok(None),
            Scan::Invalid => Err(SockError::new(
                "Syntax error in data from underlying socket",
            )),
        }
    }

    /// Queues bytes to be written.
    pub fn enqueue(&mut self, data: &[u8])
        ensures
            final(self).outgoing() == old(self).outgoing() + data@,
            final(self).received() == old(self).received(),
            final(self).read_size_spec() == old(self).read_size_spec(),
    {
        let mut i: usize = 0;
        let ghost before = self.send_buff@;
        while i < data.len()
            invariant
                i <= data@.len(),
                self.send_buff@ == before + data@.take(i as int),
                self.current == old(self).current,
                self.read_size == old(self).read_size,
            decreases data@.len() - i,
        {
            self.send_buff.push(data[i]);
            assert(data@.take(i + 1) =~= data@.take(i as int).push(data[i as int]));
            i = i + 1;
        }
        assert(data@.take(i as int) =~= data@);
    }

    /// The bytes waiting to be written.
    pub fn pending(&self) -> (r: &[u8])
        ensures
            r@ == self.outgoing(),
    {
        self.send_buff.as_slice()
    }

    /// Drops the first `n` bytes of the send buffer, which the connection
    /// took; returns how many are left.
    pub fn sent(&mut self, n: usize) -> (r: usize)
        requires
            n <= old(self).outgoing().len(),
        ensures
            final(self).outgoing() == old(self).outgoing().skip(n as int),
            r == final(self).outgoing().len(),
            final(self).received() == old(self).received(),
            final(self).read_size_spec() == old(self).read_size_spec(),
    {
        if n == self.send_buff.len() {
            self.send_buff.clear();
            assert(self.send_buff@ =~= old(self).send_buff@.skip(n as int));
            0
        } else {
            let rest = copy_range(self.send_buff.as_slice(), n, self.send_buff.len());
            assert(rest@ =~= old(self).send_buff@.skip(n as int));
            self.send_buff = rest;
            self.send_buff.len()
        }
    }

    /// How many bytes wait to be written.
    pub fn send_buff_size(&self) -> (r: usize)
        ensures
            r == self.outgoing().len(),
    {
        self.send_buff.len()
    }

    /// How many bytes wait to be taken as frames.
    pub fn recv_buff_size(&self) -> (r: usize)
        ensures
            r == self.received().len(),
    {
        self.current.len()
    }
}

} // verus!
