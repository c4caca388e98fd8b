//! The send buffer: bytes that were written and are not acknowledged yet.
use vstd::prelude::*;

use crate::tcp::ring::{accepted, Ring, RING_SIZE};
use crate::tcp::tcb::{ahead, ahead_ahead, ahead_distance, distance, seq_ahead};

verus! {

pub const SEND_BUF_SIZE: usize = RING_SIZE;

/// The buffered bytes, the first of which has the sequence number `una`, and the sequence number
/// `nxt` of the first byte to send next.
#[verifier::ext_equal]
pub ghost struct SendView {
    pub una: u32,
    pub nxt: u32,
    pub data: Seq<u8>,
}

impl SendView {
    /// An empty buffer behind the initial sequence number `iss`.
    pub open spec fn fresh(iss: u32) -> SendView {
        SendView { una: ahead(iss, 1), nxt: ahead(iss, 1), data: Seq::empty() }
    }

    /// After `bytes` were offered: as many as fit are appended.
    pub open spec fn written(self, bytes: Seq<u8>) -> SendView {
        SendView {
            data: self.data + bytes.take(accepted(self.data.len(), bytes.len())),
            ..self
        }
    }

    /// The next segment of at most `max_len` bytes, with its sequence number.
    pub open spec fn next_segment(self, max_len: nat) -> Option<(u32, Seq<u8>)> {
        let in_flight = distance(self.una, self.nxt);
        if in_flight >= self.data.len() || max_len == 0 {
            None
        } else {
            let left = self.data.len() - in_flight;
            let n = if left < max_len {
                left
            } else {
                max_len as int
            };
            Some((self.nxt, self.data.subrange(in_flight, in_flight + n)))
        }
    }

    /// After `n` more bytes were sent.
    pub open spec fn advanced(self, n: nat) -> SendView {
        SendView { nxt: ahead(self.nxt, n as int), ..self }
    }

    /// After the peer acknowledged everything before `ack`. A number that lies beyond what is
    /// buffered changes nothing.
    pub open spec fn acknowledged(self, ack: u32) -> SendView {
        let n = distance(self.una, ack);
        if n > self.data.len() {
            self
        } else {
            SendView { una: ack, data: self.data.skip(n), ..self }
        }
    }
}

pub struct SendBuffer {
    ring: Ring,
    una: u32,
    nxt: u32,
}

impl View for SendBuffer {
    type V = SendView;

    closed spec fn view(&self) -> SendView {
        SendView { una: self.una, nxt: self.nxt, data: self.ring@ }
    }
}

impl SendBuffer {
    pub fn new(iss: u32) -> (r: Self)
        ensures
            r@ == SendView::fresh(iss),
    {
        SendBuffer { ring: Ring::new(), una: seq_ahead(iss, 1), nxt: seq_ahead(iss, 1) }
    }

    /// Appends as much of `data` as fits, and says how many bytes that were.
    pub fn write(&mut self, data: &[u8]) -> (n: usize)
        ensures
            n == accepted(old(self)@.data.len(), data@.len()),
            n <= data@.len(),
            final(self)@ == old(self)@.written(data@),
            final(self)@.data.len() <= SEND_BUF_SIZE,
    {
        self.ring.write(data)
    }

    /// The next segment of at most `max_len` bytes that were not sent yet, with its sequence
    /// number.
    pub fn next_segment(&self, max_len: usize) -> (r: Option<(u32, Vec<u8>)>)
        ensures
            match r {
                Some((seq, data)) => self@.next_segment(max_len as nat) == Some((seq, data@)),
                None => self@.next_segment(max_len as nat) is None,
            },
    {
        let inflight: usize = self.nxt.wrapping_sub(self.una) as usize;
        let len: usize = self.ring.len();
        if inflight >= len || max_len == 0 {
            return None;
        }
        let available: usize = len - inflight;
        let n: usize = if available < max_len { available } else { max_len };
        Some((self.nxt, self.ring.copy_range(inflight, n)))
    }

    pub fn advance_nxt(&mut self, n: usize)
        ensures
            final(self)@ == old(self)@.advanced(n as nat),
    {
        self.nxt = seq_ahead(self.nxt, n);
    }

    pub fn acknowledge(&mut self, ack: u32)
        ensures
            final(self)@ == old(self)@.acknowledged(ack),
    {
        let newly_acked: usize = ack.wrapping_sub(self.una) as usize;
        if newly_acked > self.ring.len() {
            return;
        }
        self.ring.discard(newly_acked);
        self.una = ack;
    }

    pub fn una(&self) -> (r: u32)
        ensures
            r == self@.una,
    {
        self.una
    }

    pub fn nxt(&self) -> (r: u32)
        ensures
            r == self@.nxt,
    {
        self.nxt
    }

    pub fn buffered(&self) -> (r: usize)
        ensures
            r == self@.data.len(),
            r <= SEND_BUF_SIZE,
    {
        self.ring.len()
    }

    pub fn is_empty(&self) -> (r: bool)
        ensures
            r == (self@.data.len() == 0),
    {
        self.ring.len() == 0
    }
}

/// What a send buffer is for: of `stream`, the bytes written so far, the first `acked` have been
/// acknowledged, the first `sent` have been sent, and the buffer holds exactly those that are not
/// acknowledged. The byte at index `i` of the stream has the sequence number `i + 1` steps ahead of
/// `iss`.
pub open spec fn sends(v: SendView, iss: u32, stream: Seq<u8>, acked: int, sent: int) -> bool {
    &&& 0 <= acked <= sent <= stream.len()
    &&& stream.len() - acked <= SEND_BUF_SIZE
    &&& v.una == ahead(iss, 1 + acked)
    &&& v.nxt == ahead(iss, 1 + sent)
    &&& v.data == stream.skip(acked)
}

/// A fresh buffer has sent nothing of an empty stream.
pub proof fn fresh_sends_nothing(iss: u32)
    ensures
        sends(SendView::fresh(iss), iss, Seq::empty(), 0, 0),
{
    assert(Seq::<u8>::empty().skip(0) =~= Seq::<u8>::empty());
}

/// What is written goes to the end of the stream, as far as it fits; what was sent stays sent.
pub proof fn write_extends_the_stream(
    v: SendView,
    iss: u32,
    stream: Seq<u8>,
    acked: int,
    sent: int,
    bytes: Seq<u8>,
)
    requires
        sends(v, iss, stream, acked, sent),
    ensures
        sends(
            v.written(bytes),
            iss,
            stream + bytes.take(accepted(v.data.len(), bytes.len())),
            acked,
            sent,
        ),
{
    let new = bytes.take(accepted(v.data.len(), bytes.len()));
    assert((stream + new).skip(acked) =~= stream.skip(acked) + new);
}

/// A segment is the stream's next bytes in order, under the sequence number of the first of them.
/// There is one whenever anything is left to send, and after it was sent the segment that follows
/// continues behind it: no byte is left out, sent twice or changed.
pub proof fn segments_follow_the_stream(
    v: SendView,
    iss: u32,
    stream: Seq<u8>,
    acked: int,
    sent: int,
    max_len: nat,
)
    requires
        sends(v, iss, stream, acked, sent),
    ensures
        v.next_segment(max_len) is Some <==> max_len > 0 && sent < stream.len(),
        v.next_segment(max_len) matches Some((seq, bytes)) ==> {
            &&& 0 < bytes.len() <= max_len
            &&& seq == ahead(iss, 1 + sent)
            &&& sent + bytes.len() <= stream.len()
            &&& bytes == stream.subrange(sent, sent + bytes.len())
            &&& sends(v.advanced(bytes.len()), iss, stream, acked, sent + bytes.len())
        },
{
    ahead_ahead(iss, 1 + acked, sent - acked);
    ahead_distance(v.una, v.nxt, sent - acked);
    assert(distance(v.una, v.nxt) == sent - acked);
    if v.next_segment(max_len) is Some {
        let (seq, bytes) = v.next_segment(max_len)->0;
        ahead_ahead(iss, 1 + sent, bytes.len() as int);
        assert(bytes =~= stream.subrange(sent, sent + bytes.len()));
    }
}

/// An acknowledgment of `n` bytes in flight frees exactly those bytes, and what remains to be sent
/// is unchanged.
pub proof fn acknowledgment_frees_what_arrived(
    v: SendView,
    iss: u32,
    stream: Seq<u8>,
    acked: int,
    sent: int,
    n: int,
)
    requires
        sends(v, iss, stream, acked, sent),
        0 <= n <= sent - acked,
    ensures
        sends(v.acknowledged(ahead(iss, 1 + acked + n)), iss, stream, acked + n, sent),
{
    ahead_ahead(iss, 1 + acked, n);
    ahead_distance(v.una, v.nxt, n);
    assert(distance(v.una, ahead(iss, 1 + acked + n)) == n);
    assert(stream.skip(acked).skip(n) =~= stream.skip((acked + n) as int));
}

} // verus!
