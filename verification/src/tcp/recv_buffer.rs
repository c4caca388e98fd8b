//! The receive buffer: in-order reassembly of segments that arrive in any order.
use std::collections::BTreeMap;
use vstd::prelude::*;
use vstd::slice::slice_subrange;

use crate::tcp::ring::{accepted, Ring, RING_SIZE};
use crate::tcp::tcb::{ahead, ahead_ahead, distance, seq_ahead, seq_le, seq_lt};
use crate::wire::copy_bytes;

verus! {

pub const RECV_BUF_SIZE: usize = RING_SIZE;

/// The bytes that can be read, the sequence number `nxt` of the byte that is missing behind them,
/// and the segments that wait for it, by the sequence number of their first byte.
#[verifier::ext_equal]
pub ghost struct RecvView {
    pub nxt: u32,
    pub data: Seq<u8>,
    pub staged: Map<u32, Seq<u8>>,
}

impl RecvView {
    /// An empty buffer behind the peer's initial sequence number `irs`.
    pub open spec fn fresh(irs: u32) -> RecvView {
        RecvView { nxt: ahead(irs, 1), data: Seq::empty(), staged: Map::empty() }
    }

    /// After `bytes`, which start at `nxt`, were taken as far as they fit.
    pub open spec fn committed(self, bytes: Seq<u8>) -> RecvView {
        let n = accepted(self.data.len(), bytes.len());
        RecvView { nxt: ahead(self.nxt, n), data: self.data + bytes.take(n), ..self }
    }

    /// Whether a segment is staged under `key` whose turn has come.
    pub open spec fn due(self, key: u32) -> bool {
        self.staged.contains_key(key) && seq_le(key, self.nxt)
    }

    /// Whether `key` is the earliest in sequence order of the staged segments whose turn has come.
    pub open spec fn first_due(self, key: u32) -> bool {
        self.due(key) && forall|other: u32|
            #[trigger] self.due(other) ==> distance(other, self.nxt) <= distance(key, self.nxt)
    }

    /// After the segment staged under `key` was taken, without the bytes that came before.
    pub open spec fn unstaged(self, key: u32) -> RecvView {
        let bytes = self.staged[key];
        let past = distance(key, self.nxt);
        let rest = if past < bytes.len() {
            bytes.skip(past)
        } else {
            Seq::empty()
        };
        RecvView { staged: self.staged.remove(key), ..self }.committed(rest)
    }

    /// After all staged segments whose turn has come or comes thereby were taken, each time the
    /// earliest first.
    pub open spec fn drained(self) -> RecvView
        decreases self.staged.dom().len(),
        when self.staged.dom().finite()
    {
        if exists|key: u32| self.first_due(key) {
            let key = choose|key: u32| self.first_due(key);
            self.unstaged(key).drained()
        } else {
            self
        }
    }

    /// After a segment with `bytes` from `seq` on arrived. What was received before is cut off its
    /// front. If it continues the stream it is taken, and with it what waited for it. If it is
    /// ahead of the stream it is staged, unless a segment is staged under its number already.
    pub open spec fn inserted(self, seq: u32, bytes: Seq<u8>) -> RecvView {
        let past = if seq_lt(seq, self.nxt) {
            distance(seq, self.nxt)
        } else {
            0
        };
        if past >= bytes.len() {
            self
        } else if ahead(seq, past) == self.nxt {
            self.committed(bytes.skip(past)).drained()
        } else if self.staged.contains_key(seq) {
            self
        } else {
            RecvView { staged: self.staged.insert(seq, bytes), ..self }
        }
    }

    /// After `n` bytes were read.
    pub open spec fn consumed(self, n: nat) -> RecvView {
        RecvView { data: self.data.skip(n as int), ..self }
    }

    /// The window to advertise: the free space, as far as the field can say it.
    pub open spec fn window(self) -> u16 {
        let free = RECV_BUF_SIZE - self.data.len();
        if free < 65535 {
            free as u16
        } else {
            65535
        }
    }
}

pub struct RecvBuffer {
    ring: Ring,
    nxt: u32,
    ooo: BTreeMap<u32, Vec<u8>>,
}

impl View for RecvBuffer {
    type V = RecvView;

    closed spec fn view(&self) -> RecvView {
        RecvView {
            nxt: self.nxt,
            data: self.ring@,
            staged: self.ooo@.map_values(|bytes: Vec<u8>| bytes@),
        }
    }
}

/// At most one staged segment is the first whose turn has come.
proof fn first_due_is_unique(v: RecvView, a: u32, b: u32)
    requires
        v.first_due(a),
        v.first_due(b),
    ensures
        a == b,
{
    assert(v.due(a) && v.due(b));
}

impl RecvBuffer {
    /// A buffer stages finitely many segments.
    pub proof fn staged_is_finite(&self)
        ensures
            self@.staged.dom().finite(),
    {
        assert(self@.staged.dom() =~= self.ooo@.dom());
    }

    pub fn new(irs: u32) -> (r: Self)
        ensures
            r@ == RecvView::fresh(irs),
    {
        let r = RecvBuffer { ring: Ring::new(), nxt: seq_ahead(irs, 1), ooo: BTreeMap::new() };
        assert(r@.staged =~= Map::<u32, Seq<u8>>::empty());
        r
    }

    /// Takes a segment with `data` from `seq` on. What could be read before still can, and the first
    /// byte missing moves by as many bytes as can be read in addition.
    pub fn insert(&mut self, seq: u32, data: &[u8])
        ensures
            final(self)@ == old(self)@.inserted(seq, data@),
            final(self)@.staged.dom().finite(),
            final(self)@.data.len() <= RECV_BUF_SIZE,
            extends(old(self)@, final(self)@),
    {
        let available: usize = self.ring.len();
        assert(available <= RECV_BUF_SIZE);
        proof {
            self.staged_is_finite();
            insert_only_extends(self@, seq, data@);
        }
        let past: usize = if seq_lt(seq, self.nxt) {
            self.nxt.wrapping_sub(seq) as usize
        } else {
            0
        };
        if past >= data.len() {
            return;
        }
        if seq_ahead(seq, past) == self.nxt {
            let rest = slice_subrange(data, past, data.len());
            assert(rest@ =~= data@.skip(past as int));
            self.commit(rest);
            self.drain_ooo();
        } else if !self.ooo.contains_key(&seq) {
            self.ooo.insert(seq, copy_bytes(data));
            assert(self@.staged =~= old(self)@.staged.insert(seq, data@));
        }
    }

    fn commit(&mut self, data: &[u8])
        ensures
            final(self)@ == old(self)@.committed(data@),
            final(self).ooo == old(self).ooo,
    {
        let n: usize = self.ring.write(data);
        self.nxt = seq_ahead(self.nxt, n);
    }

    /// The number of the earliest staged segment whose turn has come.
    fn first_due(&self) -> (r: Option<u32>)
        ensures
            match r {
                Some(key) => self@.first_due(key),
                None => forall|key: u32| !self@.due(key),
            },
    {
        let mut best: Option<u32> = None;
        for key in it: self.ooo.keys()
            invariant
                it.seq().unref().to_set() == self.ooo@.dom(),
                best matches Some(b) ==> self@.due(b),
                forall|j: int|
                    0 <= j < it.index() && self@.due(*it.seq()[j]) ==> (best matches Some(b)
                        && distance(*it.seq()[j], self@.nxt) <= distance(b, self@.nxt)),
        {
            let ghost j = it.index() as int;
            proof {
                assert(it.seq().unref()[j] == *key);
                assert(it.seq().unref().to_set().contains(*key));
            }
            if seq_le(*key, self.nxt) {
                let better = match best {
                    Some(b) => self.nxt.wrapping_sub(b) <= self.nxt.wrapping_sub(*key),
                    None => true,
                };
                if better {
                    best = Some(*key);
                }
            }
        }
        best
    }

    fn drain_ooo(&mut self)
        ensures
            final(self)@ == old(self)@.drained(),
    {
        loop
            invariant
                self@.drained() == old(self)@.drained(),
            decreases self.ooo@.dom().len(),
        {
            proof {
                self.staged_is_finite();
            }
            match self.first_due() {
                None => {
                    return;
                },
                Some(key) => {
                    proof {
                        first_due_is_unique(
                            self@,
                            key,
                            choose|key: u32| self@.first_due(key),
                        );
                    }
                    self.unstage(key);
                },
            }
        }
    }

    /// Takes the segment staged under `key`, without the bytes that came before.
    fn unstage(&mut self, key: u32)
        requires
            old(self)@.first_due(key),
        ensures
            final(self)@ == old(self)@.unstaged(key),
            final(self).ooo@.dom() == old(self).ooo@.dom().remove(key),
    {
        let past: usize = self.nxt.wrapping_sub(key) as usize;
        if let Some(bytes) = self.ooo.remove(&key) {
            let from: usize = if past < bytes.len() { past } else { bytes.len() };
            let rest = slice_subrange(bytes.as_slice(), from, bytes.len());
            proof {
                assert(self@.staged =~= old(self)@.staged.remove(key));
                assert(past < bytes@.len() ==> rest@ =~= bytes@.skip(past as int));
                assert(past >= bytes@.len() ==> rest@ =~= Seq::<u8>::empty());
            }
            self.commit(rest);
        }
    }

    /// Moves the oldest bytes to the front of `buf`, as many as there are or `buf` takes, and says
    /// how many.
    pub fn read(&mut self, buf: &mut [u8]) -> (n: usize)
        ensures
            n == if old(self)@.data.len() < old(buf)@.len() {
                old(self)@.data.len()
            } else {
                old(buf)@.len()
            },
            final(self)@ == old(self)@.consumed(n as nat),
            final(buf)@ == old(self)@.data.take(n as int) + old(buf)@.skip(n as int),
    {
        let available: usize = self.ring.len();
        let n: usize = if available < buf.len() { available } else { buf.len() };
        let mut i: usize = 0;
        while i < n
            invariant
                i <= n,
                n <= self@.data.len(),
                n <= buf@.len(),
                buf@.len() == old(buf)@.len(),
                *self == *old(self),
                buf@ == self@.data.take(i as int) + old(buf)@.skip(i as int),
            decreases n - i,
        {
            buf[i] = self.ring.get(i);
            i = i + 1;
            assert(buf@ =~= self@.data.take(i as int) + old(buf)@.skip(i as int));
        }
        self.ring.discard(n);
        n
    }

    pub fn next_expected(&self) -> (r: u32)
        ensures
            r == self@.nxt,
    {
        self.nxt
    }

    pub fn window(&self) -> (r: u16)
        ensures
            r == self@.window(),
    {
        let free: usize = RECV_BUF_SIZE - self.ring.len();
        if free < 65535 {
            free as u16
        } else {
            65535
        }
    }

    pub fn available(&self) -> (r: usize)
        ensures
            r == self@.data.len(),
            r <= RECV_BUF_SIZE,
    {
        self.ring.len()
    }

    pub fn is_empty(&self) -> (r: bool)
        ensures
            r == (self@.data.len() == 0),
    {
        self.ring.len() == 0
    }
}

/// Whether all that can be read in `before` can be read in `after`, at the front, and the first byte
/// missing has moved by what can be read in addition.
pub open spec fn extends(before: RecvView, after: RecvView) -> bool {
    &&& before.data.len() <= after.data.len()
    &&& after.data.take(before.data.len() as int) == before.data
    &&& after.nxt == ahead(before.nxt, after.data.len() - before.data.len())
}

proof fn extends_twice(a: RecvView, b: RecvView, c: RecvView)
    requires
        extends(a, b),
        extends(b, c),
    ensures
        extends(a, c),
{
    ahead_ahead(a.nxt, b.data.len() - a.data.len(), c.data.len() - b.data.len());
    assert(c.data.take(a.data.len() as int) =~= c.data.take(b.data.len() as int).take(
        a.data.len() as int,
    ));
}

proof fn commit_extends(v: RecvView, bytes: Seq<u8>)
    requires
        v.data.len() <= RECV_BUF_SIZE,
    ensures
        extends(v, v.committed(bytes)),
        v.committed(bytes).data.len() <= RECV_BUF_SIZE,
{
    assert(v.committed(bytes).data.take(v.data.len() as int) =~= v.data);
}

proof fn drain_extends(v: RecvView)
    requires
        v.staged.dom().finite(),
        v.data.len() <= RECV_BUF_SIZE,
    ensures
        extends(v, v.drained()),
        v.drained().staged.dom().finite(),
        v.drained().data.len() <= RECV_BUF_SIZE,
    decreases v.staged.dom().len(),
{
    if exists|key: u32| v.first_due(key) {
        let key = choose|key: u32| v.first_due(key);
        assert(v.due(key));
        let bytes = v.staged[key];
        let past = distance(key, v.nxt);
        let rest = if past < bytes.len() {
            bytes.skip(past)
        } else {
            Seq::empty()
        };
        let without = RecvView { staged: v.staged.remove(key), ..v };
        commit_extends(without, rest);
        let next = v.unstaged(key);
        assert(next == without.committed(rest));
        assert(next.staged.dom() =~= v.staged.dom().remove(key));
        drain_extends(next);
        extends_twice(v, next, next.drained());
    } else {
        assert(v.data.take(v.data.len() as int) =~= v.data);
    }
}

/// Whatever arrives, what can be read stays readable and in place, the buffer does not overflow, and
/// the first byte missing moves by exactly what can be read in addition. A segment without bytes, or
/// with none that were not received before, changes nothing. One that holds the missing byte can be
/// read at once from that byte on, as far as the buffer has room.
pub proof fn insert_only_extends(v: RecvView, seq: u32, bytes: Seq<u8>)
    requires
        v.staged.dom().finite(),
        v.data.len() <= RECV_BUF_SIZE,
    ensures
        extends(v, v.inserted(seq, bytes)),
        v.inserted(seq, bytes).data.len() <= RECV_BUF_SIZE,
        v.inserted(seq, bytes).staged.dom().finite(),
        bytes.len() == 0 || seq_lt(seq, v.nxt) && distance(seq, v.nxt) >= bytes.len()
            ==> v.inserted(seq, bytes) == v,
        seq_le(seq, v.nxt) && distance(seq, v.nxt) < bytes.len() ==> extends(
            v.committed(bytes.skip(distance(seq, v.nxt))),
            v.inserted(seq, bytes),
        ),
{
    assert(v.data.take(v.data.len() as int) =~= v.data);
    let past = if seq_lt(seq, v.nxt) {
        distance(seq, v.nxt)
    } else {
        0
    };
    if past < bytes.len() && ahead(seq, past) == v.nxt {
        let taken = v.committed(bytes.skip(past));
        commit_extends(v, bytes.skip(past));
        drain_extends(taken);
        extends_twice(v, taken, taken.drained());
    }
}

/// Whether `bytes` are those of the peer's `stream` from index `at` on, and `seq` is the number of
/// the first of them: the byte at index `i` has the sequence number `i + 1` steps ahead of `irs`.
pub open spec fn carries(irs: u32, stream: Seq<u8>, at: int, seq: u32, bytes: Seq<u8>) -> bool {
    &&& 0 <= at
    &&& at + bytes.len() <= stream.len()
    &&& seq == ahead(irs, 1 + at)
    &&& bytes == stream.subrange(at, at + bytes.len())
}

/// Whether the buffer holds the bytes of the peer's `stream` from index `read` up to the first one
/// missing, and every staged segment is a part of the stream that starts after `lowest` and less
/// than half the circle ahead of the first byte missing.
pub open spec fn holds_stream(
    v: RecvView,
    irs: u32,
    stream: Seq<u8>,
    read: int,
    lowest: int,
) -> bool {
    let missing = read + v.data.len();
    &&& 0 <= read
    &&& v.data.len() <= RECV_BUF_SIZE
    &&& missing <= stream.len()
    &&& v.nxt == ahead(irs, 1 + missing)
    &&& v.data == stream.subrange(read, missing)
    &&& v.staged.dom().finite()
    &&& forall|key: u32| #[trigger]
        v.staged.contains_key(key) ==> exists|at: int|
            lowest < at < missing + 0x8000_0000 && #[trigger] carries(
                irs,
                stream,
                at,
                key,
                v.staged[key],
            )
}

/// What a receive buffer is for: of the peer's `stream`, the first `read` bytes have been read, the
/// bytes that can be read are those that follow, and what is staged lies beyond the first byte
/// missing.
pub open spec fn receives(v: RecvView, irs: u32, stream: Seq<u8>, read: int) -> bool {
    holds_stream(v, irs, stream, read, read + v.data.len())
}

/// Whether the byte at index `i` of the stream has arrived: it was or can be read, or it is part of
/// a staged segment.
pub open spec fn arrived(v: RecvView, irs: u32, stream: Seq<u8>, read: int, i: int) -> bool {
    ||| 0 <= i < read + v.data.len()
    ||| exists|key: u32, at: int|
        v.staged.contains_key(key) && #[trigger] carries(irs, stream, at, key, v.staged[key]) && at
            <= i < at + v.staged[key].len()
}

/// How the sequence numbers of two bytes of a stream lie when the bytes lie close together.
proof fn stream_distance(irs: u32, a: int, b: int)
    requires
        -0x8000_0000 < b - a < 0x8000_0000,
    ensures
        a <= b ==> distance(ahead(irs, 1 + a), ahead(irs, 1 + b)) == b - a,
        a > b ==> distance(ahead(irs, 1 + a), ahead(irs, 1 + b)) == 0x1_0000_0000 + b - a,
{
}

/// Two places in a stream with the same sequence number are the same or a whole circle apart.
proof fn same_place(irs: u32, a: int, b: int)
    requires
        ahead(irs, 1 + a) == ahead(irs, 1 + b),
    ensures
        a == b || a <= b - 0x1_0000_0000 || a >= b + 0x1_0000_0000,
{
}

/// Where a staged segment's turn has come, there is a first one.
proof fn first_due_exists(v: RecvView, among: Set<u32>)
    requires
        among.finite(),
        among.len() > 0,
        forall|key: u32| among.contains(key) ==> v.due(key),
    ensures
        exists|key: u32|
            among.contains(key) && v.due(key) && forall|other: u32| #[trigger]
                among.contains(other) ==> distance(other, v.nxt) <= distance(key, v.nxt),
    decreases among.len(),
{
    let some = among.choose();
    let rest = among.remove(some);
    if rest.len() == 0 {
        assert(rest =~= Set::empty());
        assert forall|other: u32| #[trigger] among.contains(other) implies distance(other, v.nxt)
            <= distance(some, v.nxt) by {
            assert(other == some || rest.contains(other));
        }
    } else {
        first_due_exists(v, rest);
        let best = choose|key: u32|
            rest.contains(key) && v.due(key) && forall|other: u32| #[trigger]
                rest.contains(other) ==> distance(other, v.nxt) <= distance(key, v.nxt);
        let key = if distance(some, v.nxt) <= distance(best, v.nxt) {
            best
        } else {
            some
        };
        assert(among.contains(key) && v.due(key));
        assert forall|other: u32| #[trigger] among.contains(other) implies distance(other, v.nxt)
            <= distance(key, v.nxt) by {
            assert(other == some || rest.contains(other));
        }
    }
}

proof fn due_has_a_first(v: RecvView)
    requires
        v.staged.dom().finite(),
        !exists|key: u32| v.first_due(key),
    ensures
        forall|key: u32| !v.due(key),
{
    if exists|key: u32| v.due(key) {
        let some = choose|key: u32| v.due(key);
        let among = v.staged.dom().filter(|key: u32| v.due(key));
        v.staged.dom().lemma_len_filter(|key: u32| v.due(key));
        assert(among.contains(some));
        if among.len() == 0 {
            assert(among =~= Set::empty());
        }
        first_due_exists(v, among);
        let key = choose|key: u32|
            among.contains(key) && v.due(key) && forall|other: u32| #[trigger]
                among.contains(other) ==> distance(other, v.nxt) <= distance(key, v.nxt);
        assert forall|other: u32| #[trigger] v.due(other) implies distance(other, v.nxt)
            <= distance(key, v.nxt) by {
            assert(among.contains(other));
        }
        assert(v.first_due(key));
    }
}

proof fn commit_continues(
    v: RecvView,
    irs: u32,
    stream: Seq<u8>,
    read: int,
    lowest: int,
    bytes: Seq<u8>,
)
    requires
        holds_stream(v, irs, stream, read, lowest),
        read + v.data.len() + bytes.len() <= stream.len(),
        bytes == stream.subrange(
            read + v.data.len(),
            read + v.data.len() + bytes.len(),
        ),
    ensures
        holds_stream(v.committed(bytes), irs, stream, read, lowest),
        v.committed(bytes).staged == v.staged,
        v.committed(bytes).data.len() == v.data.len() + accepted(v.data.len(), bytes.len()),
{
    let missing = read + v.data.len();
    let n = accepted(v.data.len(), bytes.len());
    let w = v.committed(bytes);
    ahead_ahead(irs, 1 + missing, n);
    assert(w.data =~= stream.subrange(read, missing + n));
    assert forall|key: u32| #[trigger] w.staged.contains_key(key) implies exists|at: int|
        lowest < at < missing + n + 0x8000_0000 && #[trigger] carries(
            irs,
            stream,
            at,
            key,
            w.staged[key],
        ) by {
        assert(v.staged.contains_key(key));
        let at = choose|at: int|
            lowest < at < missing + 0x8000_0000 && #[trigger] carries(
                irs,
                stream,
                at,
                key,
                v.staged[key],
            );
        assert(carries(irs, stream, at, key, w.staged[key]));
    }
}

/// Taking a staged segment whose turn has come continues the stream, and nothing that has arrived
/// is lost unless the buffer overflows.
proof fn unstage_continues(
    v: RecvView,
    irs: u32,
    stream: Seq<u8>,
    read: int,
    lowest: int,
    key: u32,
)
    requires
        holds_stream(v, irs, stream, read, lowest),
        read <= lowest,
        v.due(key),
    ensures
        holds_stream(v.unstaged(key), irs, stream, read, lowest),
        v.unstaged(key).data.len() >= v.data.len(),
        stream.len() <= read + RECV_BUF_SIZE ==> forall|i: int|
            arrived(v, irs, stream, read, i) ==> arrived(v.unstaged(key), irs, stream, read, i),
{
    let missing = read + v.data.len();
    let bytes = v.staged[key];
    let at = choose|at: int|
        lowest < at < missing + 0x8000_0000 && #[trigger] carries(
            irs,
            stream,
            at,
            key,
            v.staged[key],
        );
    stream_distance(irs, at, missing);
    let past = distance(key, v.nxt);
    assert(past == missing - at);
    let rest = if past < bytes.len() {
        bytes.skip(past)
    } else {
        Seq::empty()
    };
    let without = RecvView { staged: v.staged.remove(key), ..v };
    assert(holds_stream(without, irs, stream, read, lowest)) by {
        assert forall|other: u32| #[trigger] without.staged.contains_key(other) implies exists|
            at: int,
        |
            lowest < at < missing + 0x8000_0000 && #[trigger] carries(
                irs,
                stream,
                at,
                other,
                without.staged[other],
            ) by {
            assert(v.staged.contains_key(other));
            assert(without.staged[other] == v.staged[other]);
        }
    }
    assert(rest =~= stream.subrange(missing, missing + rest.len()));
    commit_continues(without, irs, stream, read, lowest, rest);
    let w = v.unstaged(key);
    if stream.len() <= read + RECV_BUF_SIZE {
        assert forall|i: int| arrived(v, irs, stream, read, i) implies arrived(
            w,
            irs,
            stream,
            read,
            i,
        ) by {
            if !(0 <= i < read + w.data.len()) {
                let (k, a) = choose|k: u32, a: int|
                    v.staged.contains_key(k) && #[trigger] carries(
                        irs,
                        stream,
                        a,
                        k,
                        v.staged[k],
                    ) && a <= i < a + v.staged[k].len();
                if k == key {
                    same_place(irs, a, at);
                    assert(accepted(v.data.len(), rest.len()) == rest.len());
                    assert(false);
                } else {
                    assert(w.staged.contains_key(k) && w.staged[k] == v.staged[k]);
                    assert(carries(irs, stream, a, k, w.staged[k]));
                }
            }
        }
    }
}

/// After draining, what is staged lies beyond the first byte missing.
proof fn drain_settles(v: RecvView, irs: u32, stream: Seq<u8>, read: int, lowest: int)
    requires
        holds_stream(v, irs, stream, read, lowest),
        read <= lowest,
    ensures
        receives(v.drained(), irs, stream, read),
        v.drained().data.len() >= v.data.len(),
        stream.len() <= read + RECV_BUF_SIZE ==> forall|i: int|
            arrived(v, irs, stream, read, i) ==> arrived(v.drained(), irs, stream, read, i),
    decreases v.staged.dom().len(),
{
    if exists|key: u32| v.first_due(key) {
        let key = choose|key: u32| v.first_due(key);
        assert(v.due(key));
        unstage_continues(v, irs, stream, read, lowest, key);
        assert(v.unstaged(key).staged == v.staged.remove(key));
        drain_settles(v.unstaged(key), irs, stream, read, lowest);
        if stream.len() <= read + RECV_BUF_SIZE {
            assert forall|i: int| arrived(v, irs, stream, read, i) implies arrived(
                v.drained(),
                irs,
                stream,
                read,
                i,
            ) by {
                assert(arrived(v.unstaged(key), irs, stream, read, i));
            }
        }
    } else {
        due_has_a_first(v);
        let missing = read + v.data.len();
        assert forall|key: u32| #[trigger] v.staged.contains_key(key) implies exists|at: int|
            missing < at < missing + 0x8000_0000 && #[trigger] carries(
                irs,
                stream,
                at,
                key,
                v.staged[key],
            ) by {
            let at = choose|at: int|
                lowest < at < missing + 0x8000_0000 && #[trigger] carries(
                    irs,
                    stream,
                    at,
                    key,
                    v.staged[key],
                );
            assert(!v.due(key));
            stream_distance(irs, at, missing);
        }
    }
}

/// A fresh buffer has received nothing of any stream.
pub proof fn fresh_receives_nothing(irs: u32, stream: Seq<u8>)
    ensures
        receives(RecvView::fresh(irs), irs, stream, 0),
{
    assert(stream.subrange(0, 0) =~= Seq::<u8>::empty());
}

/// A segment that holds the missing byte continues the stream.
#[verifier::spinoff_prover]
proof fn taking_keeps_the_stream(
    v: RecvView,
    irs: u32,
    stream: Seq<u8>,
    read: int,
    at: int,
    seq: u32,
    bytes: Seq<u8>,
)
    requires
        receives(v, irs, stream, read),
        carries(irs, stream, at, seq, bytes),
        at <= read + v.data.len() < at + bytes.len(),
    ensures
        ({
            let missing = read + v.data.len();
            let next = v.committed(bytes.skip(missing - at)).drained();
            &&& receives(next, irs, stream, read)
            &&& next.data.len() >= v.data.len()
            &&& read + next.data.len() >= if at + bytes.len() < read + RECV_BUF_SIZE {
                at + bytes.len()
            } else {
                read + RECV_BUF_SIZE
            }
        }),
{
    let missing = read + v.data.len();
    let rest = bytes.skip(missing - at);
    assert(rest =~= stream.subrange(missing, missing + rest.len()));
    commit_continues(v, irs, stream, read, missing, rest);
    drain_settles(v.committed(rest), irs, stream, read, missing);
}

/// A segment ahead of the missing byte waits for its turn.
#[verifier::spinoff_prover]
proof fn staging_keeps_the_stream(
    v: RecvView,
    irs: u32,
    stream: Seq<u8>,
    read: int,
    at: int,
    seq: u32,
    bytes: Seq<u8>,
)
    requires
        receives(v, irs, stream, read),
        carries(irs, stream, at, seq, bytes),
        0 < at - (read + v.data.len()) < 0x8000_0000,
    ensures
        receives(RecvView { staged: v.staged.insert(seq, bytes), ..v }, irs, stream, read),
{
    let missing = read + v.data.len();
    let w = RecvView { staged: v.staged.insert(seq, bytes), ..v };
    assert forall|key: u32| #[trigger] w.staged.contains_key(key) implies exists|a: int|
        missing < a < missing + 0x8000_0000 && #[trigger] carries(
            irs,
            stream,
            a,
            key,
            w.staged[key],
        ) by {
        if key == seq {
            assert(carries(irs, stream, at, key, w.staged[key]));
        } else {
            assert(v.staged.contains_key(key) && w.staged[key] == v.staged[key]);
        }
    }
}

/// How an arriving segment of the stream is cut: what was received before it is as long as the
/// stream says, and it continues the stream exactly where it holds the missing byte.
proof fn cut_of_segment(v: RecvView, irs: u32, missing: int, at: int, seq: u32)
    requires
        v.nxt == ahead(irs, 1 + missing),
        seq == ahead(irs, 1 + at),
        -0x8000_0000 < at - missing < 0x8000_0000,
    ensures
        ({
            let past = if seq_lt(seq, v.nxt) {
                distance(seq, v.nxt)
            } else {
                0
            };
            &&& at <= missing ==> past == missing - at && ahead(seq, past) == v.nxt
            &&& at > missing ==> past == 0 && ahead(seq, past) != v.nxt
        }),
{
    stream_distance(irs, at, missing);
    if at <= missing {
        ahead_ahead(irs, 1 + at, missing - at);
    }
}

/// Segments of the peer's stream may arrive in any order, again, or overlapping, and the sequence
/// numbers may wrap around: the buffer always holds the stream's bytes in order from the first
/// unread one up to the first one missing, and never gives back what it had. A segment that holds
/// the missing byte is taken at once, as far as the buffer has room. `at` is the segment's place
/// in the stream, less than half the circle before or ahead of the first byte missing.
#[verifier::spinoff_prover]
pub proof fn insert_keeps_the_stream(
    v: RecvView,
    irs: u32,
    stream: Seq<u8>,
    read: int,
    at: int,
    seq: u32,
    bytes: Seq<u8>,
)
    requires
        receives(v, irs, stream, read),
        carries(irs, stream, at, seq, bytes),
        -0x8000_0000 < at - (read + v.data.len()) < 0x8000_0000,
    ensures
        receives(v.inserted(seq, bytes), irs, stream, read),
        v.inserted(seq, bytes).data.len() >= v.data.len(),
        at <= read + v.data.len() < at + bytes.len() ==> read + v.inserted(seq, bytes).data.len()
            >= if at + bytes.len() < read + RECV_BUF_SIZE {
            at + bytes.len()
        } else {
            read + RECV_BUF_SIZE
        },
{
    let missing = read + v.data.len();
    cut_of_segment(v, irs, missing, at, seq);
    if at > missing {
        if bytes.len() > 0 && !v.staged.contains_key(seq) {
            staging_keeps_the_stream(v, irs, stream, read, at, seq, bytes);
        }
    } else if missing < at + bytes.len() {
        taking_keeps_the_stream(v, irs, stream, read, at, seq, bytes);
    }
}

/// Nothing that has arrived is lost, and every byte of a new segment has arrived with it, as long
/// as the unread rest of the stream fits into the buffer. The one segment this does not hold of is
/// one that is ahead of the stream while another is staged under the same number with fewer bytes:
/// the one that came first stays.
#[verifier::spinoff_prover]
pub proof fn nothing_that_arrived_is_lost(
    v: RecvView,
    irs: u32,
    stream: Seq<u8>,
    read: int,
    at: int,
    seq: u32,
    bytes: Seq<u8>,
    i: int,
)
    requires
        receives(v, irs, stream, read),
        carries(irs, stream, at, seq, bytes),
        -0x8000_0000 < at - (read + v.data.len()) < 0x8000_0000,
        stream.len() <= read + RECV_BUF_SIZE,
        v.staged.contains_key(seq) ==> bytes.len() <= v.staged[seq].len(),
    ensures
        arrived(v, irs, stream, read, i) || at <= i < at + bytes.len() ==> arrived(
            v.inserted(seq, bytes),
            irs,
            stream,
            read,
            i,
        ),
{
    let missing = read + v.data.len();
    let w = v.inserted(seq, bytes);
    insert_keeps_the_stream(v, irs, stream, read, at, seq, bytes);
    stream_distance(irs, at, missing);
    let past = if seq_lt(seq, v.nxt) {
        distance(seq, v.nxt)
    } else {
        0
    };
    if past >= bytes.len() {
    } else if ahead(seq, past) == v.nxt {
        assert(past == missing - at) by {
            ahead_ahead(irs, 1 + at, past);
        }
        let rest = bytes.skip(past);
        assert(rest =~= stream.subrange(missing, missing + rest.len()));
        commit_continues(v, irs, stream, read, missing, rest);
        let u = v.committed(rest);
        drain_settles(u, irs, stream, read, missing);
        if arrived(v, irs, stream, read, i) || at <= i < at + bytes.len() {
            if !(0 <= i < read + u.data.len()) {
                let (key, a) = choose|key: u32, a: int|
                    v.staged.contains_key(key) && #[trigger] carries(
                        irs,
                        stream,
                        a,
                        key,
                        v.staged[key],
                    ) && a <= i < a + v.staged[key].len();
                assert(u.staged.contains_key(key) && carries(
                    irs,
                    stream,
                    a,
                    key,
                    u.staged[key],
                ));
            }
            assert(arrived(u, irs, stream, read, i));
        }
    } else if v.staged.contains_key(seq) {
        if at <= i < at + bytes.len() {
            let a = choose|a: int|
                missing < a < missing + 0x8000_0000 && #[trigger] carries(
                    irs,
                    stream,
                    a,
                    seq,
                    v.staged[seq],
                );
            same_place(irs, a, at);
            assert(carries(irs, stream, at, seq, w.staged[seq]));
        }
    } else {
        if at <= i < at + bytes.len() {
            assert(w.staged.contains_key(seq) && carries(irs, stream, at, seq, w.staged[seq]));
        } else if arrived(v, irs, stream, read, i) && !(0 <= i < missing) {
            let (key, a) = choose|key: u32, a: int|
                v.staged.contains_key(key) && #[trigger] carries(
                    irs,
                    stream,
                    a,
                    key,
                    v.staged[key],
                ) && a <= i < a + v.staged[key].len();
            assert(w.staged.contains_key(key) && carries(irs, stream, a, key, w.staged[key]));
        }
    }
}

/// Once every byte of the stream has arrived, all of it can be read, in order.
pub proof fn complete_stream_is_readable(v: RecvView, irs: u32, stream: Seq<u8>, read: int)
    requires
        receives(v, irs, stream, read),
        stream.len() <= read + RECV_BUF_SIZE,
        forall|i: int| 0 <= i < stream.len() ==> arrived(v, irs, stream, read, i),
    ensures
        v.data == stream.skip(read),
{
    let missing = read + v.data.len();
    if missing < stream.len() {
        assert(arrived(v, irs, stream, read, missing));
        let (key, a) = choose|key: u32, a: int|
            v.staged.contains_key(key) && #[trigger] carries(irs, stream, a, key, v.staged[key])
                && a <= missing < a + v.staged[key].len();
        let b = choose|b: int|
            missing < b < missing + 0x8000_0000 && #[trigger] carries(
                irs,
                stream,
                b,
                key,
                v.staged[key],
            );
        same_place(irs, a, b);
    }
    assert(v.data =~= stream.skip(read));
}

/// Reading hands out the stream's next bytes in order, and leaves what follows them.
pub proof fn read_follows_the_stream(v: RecvView, irs: u32, stream: Seq<u8>, read: int, n: nat)
    requires
        receives(v, irs, stream, read),
        n <= v.data.len(),
    ensures
        v.data.take(n as int) == stream.subrange(read, read + n),
        receives(v.consumed(n), irs, stream, read + n),
{
    let missing = read + v.data.len();
    assert(v.data.take(n as int) =~= stream.subrange(read, read + n));
    assert(v.consumed(n).data =~= stream.subrange(read + n, missing));
}

/// A segment that was delivered before changes nothing when it arrives again.
pub proof fn duplicate_is_ignored(
    v: RecvView,
    irs: u32,
    stream: Seq<u8>,
    read: int,
    at: int,
    seq: u32,
    bytes: Seq<u8>,
)
    requires
        receives(v, irs, stream, read),
        carries(irs, stream, at, seq, bytes),
        -0x8000_0000 < at - (read + v.data.len()),
        at + bytes.len() <= read + v.data.len(),
    ensures
        v.inserted(seq, bytes) == v,
{
    stream_distance(irs, at, read + v.data.len());
}

} // verus!
