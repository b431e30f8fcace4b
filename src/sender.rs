use vstd::prelude::*;

use crate::codec::{encode_message, record_bytes};
use crate::frame::{MAX_FRAME_LEN, encode_frame, frame_of};
use crate::message::{Endpoint, MessageView, NetworkMessage, single};
use crate::receiver::wire_stream;

verus! {

/// The coordinator's record of a live outbound worker: where it sends, and the
/// handle of its queue.
pub struct PeerLink<H> {
    pub endpoint: Endpoint,
    pub handle: H,
}

/// What happened to one destination of an envelope since the last step.
pub enum SendEvent<H> {
    /// The destination is taken up.
    Start,
    /// The message was handed to the worker's queue.
    HandedOff,
    /// The worker's queue is closed: the worker has died.
    LinkClosed,
    /// A new worker connected; `queued` tells whether the message went into its queue.
    /// A queue that refused it belongs to a worker that already died: the copy then
    /// goes to yet another new worker, so it is never dropped here.
    Connected { handle: H, queued: bool },
    /// A new worker failed to connect, or died before it could say.
    ConnectFailed,
}

/// What the coordinator does next for one destination.
#[derive(Clone, Copy, PartialEq, Eq, Structural, Debug)]
pub enum SendAction {
    /// Put the message into the live worker's queue; a closed queue means the worker died.
    Handoff,
    /// Start a new worker for the destination and wait for its connect signal.
    Spawn,
    /// Hand the single-destination copy to the retransmitter.
    Retransmit,
    /// The copy is in a live worker's queue: nothing more for this destination.
    Done,
}

/// The coordinator's next action for `dest` after `event`.
pub open spec fn next_action<H>(links: Map<Endpoint, H>, dest: Endpoint, event: SendEvent<H>) -> SendAction {
    match event {
        SendEvent::Start => if links.contains_key(dest) {
            SendAction::Handoff
        } else {
            SendAction::Spawn
        },
        SendEvent::HandedOff => SendAction::Done,
        SendEvent::LinkClosed => SendAction::Spawn,
        SendEvent::Connected { queued, .. } => if queued {
            SendAction::Done
        } else {
            SendAction::Spawn
        },
        SendEvent::ConnectFailed => SendAction::Retransmit,
    }
}

/// The table after `event` for `dest`: a dead worker is dropped, a connected one
/// whose queue took the message is installed, replacing any earlier entry.
pub open spec fn next_links<H>(links: Map<Endpoint, H>, dest: Endpoint, event: SendEvent<H>) -> Map<Endpoint, H> {
    match event {
        SendEvent::LinkClosed => links.remove(dest),
        SendEvent::Connected { handle, queued } => if queued {
            links.insert(dest, handle)
        } else {
            links
        },
        _ => links,
    }
}

/// The transport coordinator: it owns the table from endpoint to live worker,
/// and decides, destination by destination, how each envelope goes out.
///
/// The table is a list of links with unique endpoints, viewed as a `Map`, rather
/// than a `HashMap`: vstd models a `HashMap` only for keys such as integers, and
/// asks an unproved assumption for a struct key like `Endpoint`, whose 145 bits
/// (a flag, a 128-bit address, a port) fit in no integer key either.
pub struct NetworkSender<H> {
    links: Vec<PeerLink<H>>,
    table: Ghost<Map<Endpoint, H>>,
}

impl<H> View for NetworkSender<H> {
    type V = Map<Endpoint, H>;

    closed spec fn view(&self) -> Map<Endpoint, H> {
        self.table@
    }
}

impl<H> NetworkSender<H> {
    /// The table lists each endpoint once, with the handle the map gives it.
    pub closed spec fn wf(&self) -> bool {
        &&& forall|i: int| 0 <= i < self.links@.len() ==> {
            &&& #[trigger] self.table@.contains_key(self.links@[i].endpoint)
            &&& self.table@[self.links@[i].endpoint] == self.links@[i].handle
        }
        &&& forall|e: Endpoint| #[trigger] self.table@.contains_key(e) ==>
            exists|i: int| 0 <= i < self.links@.len() && #[trigger] self.links@[i].endpoint == e
        &&& forall|i: int, j: int| 0 <= i < j < self.links@.len() ==>
            #[trigger] self.links@[i].endpoint != #[trigger] self.links@[j].endpoint
    }

    pub fn new() -> (r: NetworkSender<H>)
        ensures
            r.wf(),
            r@ == Map::<Endpoint, H>::empty(),
    {
        NetworkSender { links: Vec::new(), table: Ghost(Map::empty()) }
    }

    fn find(&self, dest: Endpoint) -> (r: Option<usize>)
        requires
            self.wf(),
        ensures
            r is None <==> !self@.contains_key(dest),
            r is Some ==> r->0 < self.links@.len() && self.links@[r->0 as int].endpoint == dest,
    {
        let mut i: usize = 0;
        while i < self.links.len()
            invariant
                self.wf(),
                i <= self.links@.len(),
                forall|j: int| 0 <= j < i ==> (#[trigger] self.links@[j]).endpoint != dest,
            decreases self.links@.len() - i,
        {
            if self.links[i].endpoint == dest {
                return Some(i);
            }
            i = i + 1;
        }
        None
    }

    /// The handle of the live worker for `dest`, if there is one.
    pub fn link(&self, dest: Endpoint) -> (r: Option<&H>)
        requires
            self.wf(),
        ensures
            r is Some <==> self@.contains_key(dest),
            r is Some ==> *r->0 == self@[dest],
    {
        match self.find(dest) {
            Some(i) => Some(&self.links[i].handle),
            None => None,
        }
    }

    fn install(&mut self, dest: Endpoint, handle: H)
        requires
            old(self).wf(),
        ensures
            final(self).wf(),
            final(self)@ == old(self)@.insert(dest, handle),
    {
        let ghost t = self.table@.insert(dest, handle);
        match self.find(dest) {
            Some(i) => {
                self.links.set(i, PeerLink { endpoint: dest, handle });
                self.table = Ghost(t);
                assert forall|a: int, b: int| 0 <= a < b < self.links@.len() implies
                    #[trigger] self.links@[a].endpoint != #[trigger] self.links@[b].endpoint by {
                    assert(old(self).links@[a].endpoint != old(self).links@[b].endpoint);
                }
                assert forall|e: Endpoint| #[trigger] self.table@.contains_key(e) implies
                    exists|k: int| 0 <= k < self.links@.len() && #[trigger] self.links@[k].endpoint == e by {
                    if e != dest {
                        let k = choose|k: int| 0 <= k < old(self).links@.len() && #[trigger] old(self).links@[k].endpoint == e;
                        assert(self.links@[k].endpoint == e);
                    } else {
                        assert(self.links@[i as int].endpoint == e);
                    }
                }
            },
            None => {
                self.links.push(PeerLink { endpoint: dest, handle });
                self.table = Ghost(t);
                let n = self.links.len() - 1;
                assert forall|k: int| 0 <= k < n implies (#[trigger] self.links@[k]).endpoint != dest by {
                    assert(old(self).table@.contains_key(old(self).links@[k].endpoint));
                }
                assert forall|a: int, b: int| 0 <= a < b < self.links@.len() implies
                    #[trigger] self.links@[a].endpoint != #[trigger] self.links@[b].endpoint by {
                    if b < n {
                        assert(old(self).links@[a].endpoint != old(self).links@[b].endpoint);
                    }
                }
                assert forall|e: Endpoint| #[trigger] self.table@.contains_key(e) implies
                    exists|k: int| 0 <= k < self.links@.len() && #[trigger] self.links@[k].endpoint == e by {
                    if e != dest {
                        let k = choose|k: int| 0 <= k < old(self).links@.len() && #[trigger] old(self).links@[k].endpoint == e;
                        assert(self.links@[k].endpoint == e);
                    } else {
                        assert(self.links@[n as int].endpoint == e);
                    }
                }
            },
        }
    }

    fn forget(&mut self, dest: Endpoint)
        requires
            old(self).wf(),
        ensures
            final(self).wf(),
            final(self)@ == old(self)@.remove(dest),
    {
        let ghost t = self.table@.remove(dest);
        match self.find(dest) {
            Some(i) => {
                let _gone = self.links.remove(i);
                self.table = Ghost(t);
                assert forall|e: Endpoint| #[trigger] self.table@.contains_key(e) implies
                    exists|k: int| 0 <= k < self.links@.len() && #[trigger] self.links@[k].endpoint == e by {
                    let k = choose|k: int| 0 <= k < old(self).links@.len() && #[trigger] old(self).links@[k].endpoint == e;
                    if k < i {
                        assert(self.links@[k].endpoint == e);
                    } else {
                        assert(k != i);
                        assert(self.links@[k - 1].endpoint == e);
                    }
                }
            },
            None => {
                self.table = Ghost(t);
                assert(self.table@ =~= old(self).table@);
            },
        }
    }

    /// One decision for one destination: given what happened, the table changes and
    /// the next action comes out. Only the coordinator reads or writes the table.
    pub fn step(&mut self, dest: Endpoint, event: SendEvent<H>) -> (r: SendAction)
        requires
            old(self).wf(),
        ensures
            final(self).wf(),
            r == next_action(old(self)@, dest, event),
            final(self)@ == next_links(old(self)@, dest, event),
    {
        match event {
            SendEvent::Start => if self.find(dest).is_some() {
                SendAction::Handoff
            } else {
                SendAction::Spawn
            },
            SendEvent::HandedOff => SendAction::Done,
            SendEvent::LinkClosed => {
                self.forget(dest);
                SendAction::Spawn
            },
            SendEvent::Connected { handle, queued } => {
                if queued {
                    self.install(dest, handle);
                    SendAction::Done
                } else {
                    SendAction::Spawn
                }
            },
            SendEvent::ConnectFailed => SendAction::Retransmit,
        }
    }
}

/// Whatever happened to the other destinations, taking up a destination always
/// starts a send: a handoff to a live worker or a new worker.
pub proof fn lemma_every_destination_attempted<H>(links: Map<Endpoint, H>, m: MessageView, i: int)
    requires
        0 <= i < m.addresses.len(),
    ensures
        next_action(links, m.addresses[i], SendEvent::<H>::Start) == SendAction::Handoff
            || next_action(links, m.addresses[i], SendEvent::<H>::Start) == SendAction::Spawn,
        next_links(links, m.addresses[i], SendEvent::<H>::Start) == links,
{
}

/// Each copy ends only in a live worker's queue or with the retransmitter: `Done`
/// comes only after the message went into a queue, and a copy that no queue took
/// is handed to a new worker or to the retransmitter.
pub proof fn lemma_copy_never_dropped<H>(links: Map<Endpoint, H>, dest: Endpoint, event: SendEvent<H>)
    ensures
        next_action(links, dest, event) == SendAction::Done ==> (event is HandedOff || (event is Connected
            && event->queued)),
        event is Connected && !event->queued ==> next_action(links, dest, event) == SendAction::Spawn
            && next_links(links, dest, event) == links,
{
}

/// Destinations are independent: whatever happens to one destination, the next
/// decision for any other destination is the same as before.
pub proof fn lemma_destinations_independent<H>(links: Map<Endpoint, H>, failed: Endpoint, other: Endpoint, event: SendEvent<H>)
    requires
        failed != other,
    ensures
        next_links(links, failed, event).contains_key(other) == links.contains_key(other),
        next_action(next_links(links, failed, event), other, SendEvent::<H>::Start)
            == next_action(links, other, SendEvent::<H>::Start),
{
}

/// The table after `k` envelopes for `dest` each went by a handoff.
pub open spec fn after_handoffs<H>(links: Map<Endpoint, H>, dest: Endpoint, k: nat) -> Map<Endpoint, H>
    decreases k,
{
    if k == 0 {
        links
    } else {
        let l = after_handoffs(links, dest, (k - 1) as nat);
        next_links(next_links(l, dest, SendEvent::<H>::Start), dest, SendEvent::<H>::HandedOff)
    }
}

/// While the worker for `dest` stays alive, every envelope for `dest`, however
/// many, goes by a handoff into that same worker's queue, in the order the
/// envelopes come: the table never changes and no new connect is made.
pub proof fn lemma_live_link_reused<H>(links: Map<Endpoint, H>, dest: Endpoint, k: nat)
    requires
        links.contains_key(dest),
    ensures
        after_handoffs(links, dest, k) == links,
        next_action(after_handoffs(links, dest, k), dest, SendEvent::<H>::Start) == SendAction::Handoff,
        next_action(after_handoffs(links, dest, k), dest, SendEvent::<H>::HandedOff) == SendAction::Done,
    decreases k,
{
    if k > 0 {
        lemma_live_link_reused(links, dest, (k - 1) as nat);
    }
}

/// A failed connect installs no link and goes to the retransmitter; when the copy
/// comes back, the destination gets a new worker again.
pub proof fn lemma_unreachable_retried<H>(links: Map<Endpoint, H>, dest: Endpoint)
    requires
        !links.contains_key(dest),
    ensures
        next_action(links, dest, SendEvent::<H>::ConnectFailed) == SendAction::Retransmit,
        next_links(links, dest, SendEvent::<H>::ConnectFailed) == links,
        next_action(next_links(links, dest, SendEvent::<H>::ConnectFailed), dest, SendEvent::<H>::Start)
            == SendAction::Spawn,
{
}

/// A dead worker is dropped from the table: the send that found it dead starts a
/// new worker, and so does every later send to that destination until one connects.
pub proof fn lemma_dead_link_respawned<H>(links: Map<Endpoint, H>, dest: Endpoint)
    ensures
        next_action(links, dest, SendEvent::<H>::LinkClosed) == SendAction::Spawn,
        !next_links(links, dest, SendEvent::<H>::LinkClosed).contains_key(dest),
        next_action(next_links(links, dest, SendEvent::<H>::LinkClosed), dest, SendEvent::<H>::Start)
            == SendAction::Spawn,
{
}

/// The life of an outbound worker.
#[derive(Clone, Copy, PartialEq, Eq, Structural, Debug)]
pub enum WorkerState {
    Connecting,
    Active,
    Terminated,
}

/// An outbound worker: one connection to one peer, tried once.
pub struct OutboundWorker {
    pub dest: Endpoint,
    pub state: WorkerState,
}

/// The bytes that carry `m` on a connection, if its encoding fits in a frame.
pub open spec fn wire_bytes(m: MessageView) -> Option<Seq<u8>> {
    if record_bytes(m).len() <= MAX_FRAME_LEN {
        Some(frame_of(record_bytes(m)))
    } else {
        None
    }
}

/// Encodes a message and frames it; `None` when the encoding is too long for a frame.
pub fn encode_for_wire(m: &NetworkMessage) -> (r: Option<Vec<u8>>)
    ensures
        r is Some <==> wire_bytes(m@) is Some,
        r is Some ==> r->0@ == wire_bytes(m@)->0,
{
    let record = encode_message(m);
    encode_frame(&record)
}

/// The bytes a live worker writes for the messages of its queue, taken in order.
pub open spec fn written(ms: Seq<MessageView>) -> Seq<u8>
    decreases ms.len(),
{
    if ms.len() == 0 {
        Seq::empty()
    } else {
        wire_bytes(ms[0])->0 + written(ms.drop_first())
    }
}

/// A worker that writes its queue's messages with no failure puts on the
/// connection exactly their frames, one after another in queue order: the stream
/// that the receiving side reads back in the same order.
pub proof fn lemma_worker_stream(ms: Seq<MessageView>)
    requires
        forall|j: int| 0 <= j < ms.len() ==> (#[trigger] record_bytes(ms[j])).len() <= MAX_FRAME_LEN,
    ensures
        written(ms) == wire_stream(ms),
    decreases ms.len(),
{
    if ms.len() > 0 {
        let rest = ms.drop_first();
        assert(record_bytes(ms[0]).len() <= MAX_FRAME_LEN);
        assert forall|j: int| 0 <= j < rest.len() implies (#[trigger] record_bytes(rest[j])).len() <= MAX_FRAME_LEN by {
            assert(rest[j] == ms[j + 1]);
        }
        lemma_worker_stream(rest);
    }
}

impl OutboundWorker {
    pub fn new(dest: Endpoint) -> (r: OutboundWorker)
        ensures
            r.dest == dest,
            r.state == WorkerState::Connecting,
    {
        OutboundWorker { dest, state: WorkerState::Connecting }
    }

    /// The one connect attempt ended; the returned value is the signal for the
    /// coordinator. A failed connect ends the worker: it never tries again.
    pub fn connected(&mut self, ok: bool) -> (r: bool)
        requires
            old(self).state == WorkerState::Connecting,
        ensures
            r == ok,
            final(self).dest == old(self).dest,
            final(self).state == (if ok { WorkerState::Active } else { WorkerState::Terminated }),
    {
        self.state = if ok { WorkerState::Active } else { WorkerState::Terminated };
        ok
    }

    /// The frame to write for the next message of the queue; `None` is a failed write.
    pub fn frame_for(&self, m: &NetworkMessage) -> (r: Option<Vec<u8>>)
        requires
            self.state == WorkerState::Active,
        ensures
            r is Some <==> wire_bytes(m@) is Some,
            r is Some ==> r->0@ == wire_bytes(m@)->0,
    {
        encode_for_wire(m)
    }

    /// A write failed: the worker ends, and the message goes to the retransmitter
    /// as its copy for this worker's destination alone.
    pub fn write_failed(&mut self, m: &NetworkMessage) -> (r: NetworkMessage)
        requires
            old(self).state == WorkerState::Active,
        ensures
            final(self).dest == old(self).dest,
            final(self).state == WorkerState::Terminated,
            r@ == single(m@, old(self).dest),
    {
        self.state = WorkerState::Terminated;
        m.single_to(self.dest)
    }
}

} // verus!
