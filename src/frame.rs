use vstd::prelude::*;

use bytes::{Bytes, BytesMut};
use tokio_util::codec::{Decoder, Encoder, LengthDelimitedCodec};

use crate::codec::pow256;

verus! {

/// The largest payload a frame may carry: the codec's default of 8 MiB.
pub const MAX_FRAME_LEN: usize = 8388608;

/// `x` written as `width` bytes, most significant first.
pub open spec fn be_bytes(x: nat, width: nat) -> Seq<u8>
    decreases width,
{
    if width == 0 {
        Seq::empty()
    } else {
        be_bytes(x / 256, (width - 1) as nat) + seq![(x % 256) as u8]
    }
}

/// The number that bytes spell, most significant first.
pub open spec fn be_value(s: Seq<u8>) -> nat
    decreases s.len(),
{
    if s.len() == 0 {
        0
    } else {
        be_value(s.drop_last()) * 256 + s.last() as nat
    }
}

/// A frame on the wire: the payload's length in 4 bytes, big endian, then the payload.
pub open spec fn frame_of(p: Seq<u8>) -> Seq<u8> {
    be_bytes(p.len(), 4) + p
}

/// The length that the head of `b` announces.
pub open spec fn announced_len(b: Seq<u8>) -> nat {
    be_value(b.subrange(0, 4))
}

/// The first whole frame of `b`, as its payload and the bytes after it; `None`
/// while the frame is incomplete, and when it announces too long a payload.
pub open spec fn first_frame(b: Seq<u8>) -> Option<(Seq<u8>, Seq<u8>)> {
    if b.len() < 4 || announced_len(b) > MAX_FRAME_LEN || b.len() < 4 + announced_len(b) {
        None
    } else {
        let n = announced_len(b) as int;
        Some((b.subrange(4, 4 + n), b.subrange(4 + n, b.len() as int)))
    }
}

/// The payloads of the first `k` frames of `b`, as far as they are whole.
pub open spec fn frames_in(b: Seq<u8>, k: nat) -> Seq<Seq<u8>>
    decreases k,
{
    if k == 0 {
        Seq::empty()
    } else {
        match first_frame(b) {
            Some((p, rest)) => seq![p] + frames_in(rest, (k - 1) as nat),
            None => Seq::empty(),
        }
    }
}

/// The frames of the payloads one after another.
pub open spec fn frames_concat(ps: Seq<Seq<u8>>) -> Seq<u8>
    decreases ps.len(),
{
    if ps.len() == 0 {
        Seq::empty()
    } else {
        frame_of(ps[0]) + frames_concat(ps.drop_first())
    }
}

/// What one decoding step found at the start of a buffer.
pub enum FrameStep {
    /// A whole frame: its payload, and how many bytes follow it.
    Frame { payload: Vec<u8>, rest: usize },
    /// Not enough bytes yet.
    Incomplete,
    /// The head announces more than `MAX_FRAME_LEN` bytes.
    TooLong,
}

/// Relies on the `Encoder<Bytes>` impl of a fresh `LengthDelimitedCodec::new()`:
/// a payload of at most 8 MiB is written after its length in 4 bytes, big endian;
/// a longer one is an error.
#[verifier::external_body]
fn length_delimited_encode(payload: &Vec<u8>) -> (r: Option<Vec<u8>>)
    ensures
        r is Some <==> payload@.len() <= MAX_FRAME_LEN,
        r is Some ==> r->0@ == frame_of(payload@),
{
    let mut dst = BytesMut::new();
    match LengthDelimitedCodec::new().encode(Bytes::copy_from_slice(payload), &mut dst) {
        Ok(()) => Some(dst.to_vec()),
        Err(_) => None,
    }
}

/// Relies on the `Decoder` impl of a fresh `LengthDelimitedCodec::new()`: it reads a
/// 4-byte big-endian length, fails when that exceeds 8 MiB, and otherwise returns the
/// payload once the buffer holds all of it, leaving the bytes after it in the buffer.
#[verifier::external_body]
fn length_delimited_decode(buf: &Vec<u8>) -> (r: FrameStep)
    ensures
        buf@.len() < 4 ==> r is Incomplete,
        buf@.len() >= 4 && announced_len(buf@) > MAX_FRAME_LEN ==> r is TooLong,
        buf@.len() >= 4 && announced_len(buf@) <= MAX_FRAME_LEN && buf@.len() < 4 + announced_len(buf@)
            ==> r is Incomplete,
        buf@.len() >= 4 && announced_len(buf@) <= MAX_FRAME_LEN && buf@.len() >= 4 + announced_len(buf@)
            ==> {
            &&& r is Frame
            &&& r->payload@ == buf@.subrange(4, 4 + announced_len(buf@) as int)
            &&& r->rest == buf@.len() - 4 - announced_len(buf@)
        },
{
    let mut src = BytesMut::from(&buf[..]);
    match LengthDelimitedCodec::new().decode(&mut src) {
        Ok(Some(frame)) => FrameStep::Frame { payload: frame.to_vec(), rest: src.len() },
        Ok(None) => FrameStep::Incomplete,
        Err(_) => FrameStep::TooLong,
    }
}

/// Frames a payload; `None` when it is longer than `MAX_FRAME_LEN`.
pub fn encode_frame(payload: &Vec<u8>) -> (r: Option<Vec<u8>>)
    ensures
        r is Some <==> payload@.len() <= MAX_FRAME_LEN,
        r is Some ==> r->0@ == frame_of(payload@),
{
    length_delimited_encode(payload)
}

proof fn lemma_be_round_trip(x: nat, w: nat)
    requires
        x < pow256(w),
    ensures
        be_bytes(x, w).len() == w,
        be_value(be_bytes(x, w)) == x,
    decreases w,
{
    if w > 0 {
        let q = x / 256;
        assert(q < pow256((w - 1) as nat)) by (nonlinear_arith)
            requires
                x < 256 * pow256((w - 1) as nat),
                q == x / 256,
        ;
        lemma_be_round_trip(q, (w - 1) as nat);
        let s = be_bytes(x, w);
        assert(s.drop_last() =~= be_bytes(q, (w - 1) as nat));
        assert(s.last() as nat == x % 256);
        assert(q * 256 + x % 256 == x) by (nonlinear_arith)
            requires
                q == x / 256,
        ;
    }
}

proof fn lemma_first_frame_of(p: Seq<u8>, tail: Seq<u8>)
    requires
        p.len() <= MAX_FRAME_LEN,
    ensures
        first_frame(frame_of(p) + tail) == Some((p, tail)),
{
    reveal_with_fuel(pow256, 5);
    lemma_be_round_trip(p.len(), 4);
    let b = frame_of(p) + tail;
    assert(b.subrange(0, 4) =~= be_bytes(p.len(), 4));
    assert(b.subrange(4, 4 + p.len() as int) =~= p);
    assert(b.subrange(4 + p.len() as int, b.len() as int) =~= tail);
}

/// Frames written one after another on a connection are read back, whatever
/// follows them, as the same payloads in the same order.
pub proof fn lemma_frames_in_order(ps: Seq<Seq<u8>>, tail: Seq<u8>)
    requires
        forall|i: int| 0 <= i < ps.len() ==> (#[trigger] ps[i]).len() <= MAX_FRAME_LEN,
    ensures
        frames_in(frames_concat(ps) + tail, ps.len()) == ps,
    decreases ps.len(),
{
    if ps.len() > 0 {
        let rest = ps.drop_first();
        assert forall|i: int| 0 <= i < rest.len() implies (#[trigger] rest[i]).len() <= MAX_FRAME_LEN by {
            assert(rest[i] == ps[i + 1]);
        }
        lemma_frames_in_order(rest, tail);
        assert(frames_concat(ps) + tail =~= frame_of(ps[0]) + (frames_concat(rest) + tail));
        lemma_first_frame_of(ps[0], frames_concat(rest) + tail);
        assert(frames_in(frames_concat(ps) + tail, ps.len()) =~= seq![ps[0]] + rest);
        assert(seq![ps[0]] + rest =~= ps);
    } else {
        assert(frames_in(frames_concat(ps) + tail, 0) =~= ps);
    }
}

/// Collects the bytes of one connection and cuts them into frames, in order.
pub struct FrameReader {
    buffer: Vec<u8>,
}

impl View for FrameReader {
    type V = Seq<u8>;

    /// The bytes received and not yet handed out as frames.
    closed spec fn view(&self) -> Seq<u8> {
        self.buffer@
    }
}

impl FrameReader {
    pub fn new() -> (r: FrameReader)
        ensures
            r@ == Seq::<u8>::empty(),
    {
        FrameReader { buffer: Vec::new() }
    }

    /// Appends bytes read from the connection.
    pub fn push(&mut self, bytes: &[u8])
        ensures
            final(self)@ == old(self)@ + bytes@,
    {
        let mut i: usize = 0;
        while i < bytes.len()
            invariant
                i <= bytes@.len(),
                self@ == old(self)@ + bytes@.subrange(0, i as int),
            decreases bytes@.len() - i,
        {
            self.buffer.push(bytes[i]);
            i = i + 1;
            assert(bytes@.subrange(0, i as int) =~= bytes@.subrange(0, i - 1) + seq![bytes@[i - 1]]);
        }
        assert(bytes@.subrange(0, i as int) =~= bytes@);
    }

    /// Takes the first whole frame out of the buffer. A buffer that announces too
    /// long a payload is left as it is: the connection is then of no further use.
    pub fn next_frame(&mut self) -> (r: FrameStep)
        ensures
            first_frame(old(self)@) matches Some((p, rest)) ==> {
                &&& r is Frame
                &&& r->payload@ == p
                &&& final(self)@ == rest
            },
            first_frame(old(self)@) is None ==> final(self)@ == old(self)@ && !(r is Frame),
            r is TooLong <==> (old(self)@.len() >= 4 && announced_len(old(self)@) > MAX_FRAME_LEN),
    {
        let step = length_delimited_decode(&self.buffer);
        match step {
            FrameStep::Frame { payload, rest } => {
                let at = self.buffer.len() - rest;
                let tail = self.buffer.split_off(at);
                self.buffer = tail;
                FrameStep::Frame { payload, rest }
            },
            other => other,
        }
    }
}

} // verus!
