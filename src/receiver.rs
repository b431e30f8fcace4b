use vstd::prelude::*;

use crate::codec::{DecodeError, decode_message, decodes, fits, lemma_round_trip, record_bytes};
use crate::frame::{
    FrameReader, FrameStep, MAX_FRAME_LEN, announced_len, first_frame, frame_of, frames_concat, frames_in,
    lemma_frames_in_order,
};
use crate::message::{MessageView, NetworkMessage, endpoints_wf};

verus! {

/// What an inbound worker does next.
pub enum Inbound {
    /// A whole frame came: its decoded message for the delivery sink, or why it
    /// could not be decoded (the frame is then dropped and reading goes on).
    Frame(Result<NetworkMessage, DecodeError>),
    /// Read more bytes from the connection.
    NeedMore,
    /// The peer announced a frame too long to accept: close the connection.
    Close,
}

/// An inbound worker: it reads the frames of one accepted connection, in order.
pub struct InboundWorker {
    reader: FrameReader,
}

impl View for InboundWorker {
    type V = Seq<u8>;

    /// The bytes received and not yet handed out as frames.
    closed spec fn view(&self) -> Seq<u8> {
        self.reader@
    }
}

impl InboundWorker {
    pub fn new() -> (r: InboundWorker)
        ensures
            r@ == Seq::<u8>::empty(),
    {
        InboundWorker { reader: FrameReader::new() }
    }

    /// Takes in bytes read from the connection.
    pub fn receive(&mut self, bytes: &[u8])
        ensures
            final(self)@ == old(self)@ + bytes@,
    {
        self.reader.push(bytes);
    }

    /// The next step: the first whole frame, decoded, or a wait for more bytes, or
    /// the end of the connection.
    pub fn next(&mut self) -> (r: Inbound)
        ensures
            first_frame(old(self)@) matches Some((p, rest)) ==> {
                &&& r is Frame
                &&& decodes(p, r->Frame_0)
                &&& final(self)@ == rest
            },
            first_frame(old(self)@) is None ==> final(self)@ == old(self)@,
            first_frame(old(self)@) is None ==> (r is Close <==> (old(self)@.len() >= 4
                && announced_len(old(self)@) > MAX_FRAME_LEN)),
            first_frame(old(self)@) is None ==> (r is Close || r is NeedMore),
    {
        match self.reader.next_frame() {
            FrameStep::Frame { payload, rest: _ } => Inbound::Frame(decode_message(&payload)),
            FrameStep::Incomplete => Inbound::NeedMore,
            FrameStep::TooLong => Inbound::Close,
        }
    }
}

/// The bytes on a connection after the messages were written one after another.
pub open spec fn wire_stream(ms: Seq<MessageView>) -> Seq<u8>
    decreases ms.len(),
{
    if ms.len() == 0 {
        Seq::empty()
    } else {
        frame_of(record_bytes(ms[0])) + wire_stream(ms.drop_first())
    }
}

proof fn lemma_wire_stream_frames(ms: Seq<MessageView>)
    ensures
        wire_stream(ms) == frames_concat(Seq::new(ms.len(), |j: int| record_bytes(ms[j]))),
    decreases ms.len(),
{
    let ps = Seq::new(ms.len(), |j: int| record_bytes(ms[j]));
    if ms.len() > 0 {
        lemma_wire_stream_frames(ms.drop_first());
        assert(ps.drop_first() =~= Seq::new(ms.drop_first().len(), |j: int| record_bytes(ms.drop_first()[j])));
    }
}

/// Messages written to one connection in order, with no failure between them, are
/// read back as frames in the same order, and each frame decodes to its message.
pub proof fn lemma_messages_in_order(ms: Seq<MessageView>, tail: Seq<u8>, i: int, r: Result<NetworkMessage, DecodeError>)
    requires
        forall|j: int| 0 <= j < ms.len() ==> (#[trigger] record_bytes(ms[j])).len() <= MAX_FRAME_LEN,
        forall|j: int| 0 <= j < ms.len() ==> endpoints_wf((#[trigger] ms[j]).addresses) && fits(ms[j]),
        0 <= i < ms.len(),
        decodes(frames_in(wire_stream(ms) + tail, ms.len())[i], r),
    ensures
        frames_in(wire_stream(ms) + tail, ms.len()).len() == ms.len(),
        r is Ok,
        r->Ok_0@ == ms[i],
{
    let ps = Seq::new(ms.len(), |j: int| record_bytes(ms[j]));
    lemma_wire_stream_frames(ms);
    assert forall|j: int| 0 <= j < ps.len() implies (#[trigger] ps[j]).len() <= MAX_FRAME_LEN by {
        assert(ps[j] == record_bytes(ms[j]));
    }
    lemma_frames_in_order(ps, tail);
    assert(endpoints_wf(ms[i].addresses) && fits(ms[i]));
    lemma_round_trip(ms[i], r);
}

} // verus!
