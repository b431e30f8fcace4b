use vstd::prelude::*;

use crate::message::{Endpoint, MessageView, NetworkMessage, single};

verus! {

/// How long a failed send waits before it is submitted again, in milliseconds.
pub const RETRY_DELAY_MS: u64 = 30;

/// When a retry scheduled at `now` is released: `RETRY_DELAY_MS` later, or at the
/// end of the clock's range.
pub open spec fn release_time(now: u64) -> u64 {
    if now as int + RETRY_DELAY_MS as int <= u64::MAX as int {
        (now + RETRY_DELAY_MS) as u64
    } else {
        u64::MAX
    }
}

/// A single-destination message waiting for its release time.
pub struct PendingRetry {
    pub message: NetworkMessage,
    pub release_at: u64,
}

/// The pending retries whose release time has come, in the order they were scheduled.
pub open spec fn due(s: Seq<(MessageView, u64)>, now: u64) -> Seq<MessageView>
    decreases s.len(),
{
    if s.len() == 0 {
        Seq::empty()
    } else if s.last().1 <= now {
        due(s.drop_last(), now).push(s.last().0)
    } else {
        due(s.drop_last(), now)
    }
}

/// The pending retries that still wait, in the order they were scheduled.
pub open spec fn waiting(s: Seq<(MessageView, u64)>, now: u64) -> Seq<(MessageView, u64)>
    decreases s.len(),
{
    if s.len() == 0 {
        Seq::empty()
    } else if s.last().1 <= now {
        waiting(s.drop_last(), now)
    } else {
        waiting(s.drop_last(), now).push(s.last())
    }
}

/// Holds failed sends until their delay is over, then hands them back for a
/// fresh submission. Time is a count of milliseconds given by the caller.
pub struct NetworkRetransmitter {
    pending: Vec<PendingRetry>,
}

impl View for NetworkRetransmitter {
    type V = Seq<(MessageView, u64)>;

    /// Each pending retry's message and release time, in the order they were scheduled.
    closed spec fn view(&self) -> Seq<(MessageView, u64)> {
        Seq::new(self.pending@.len(), |i: int| (self.pending@[i].message@, self.pending@[i].release_at))
    }
}

impl NetworkRetransmitter {
    pub fn new() -> (r: NetworkRetransmitter)
        ensures
            r@ == Seq::<(MessageView, u64)>::empty(),
    {
        let r = NetworkRetransmitter { pending: Vec::new() };
        assert(r@ =~= Seq::<(MessageView, u64)>::empty());
        r
    }

    pub fn len(&self) -> (r: usize)
        ensures
            r == self@.len(),
    {
        self.pending.len()
    }

    /// A send of `m` to `dest` failed at `now`: its copy for `dest` alone waits
    /// `RETRY_DELAY_MS`. Nothing caps the number of pending retries.
    pub fn schedule(&mut self, m: &NetworkMessage, dest: Endpoint, now: u64)
        ensures
            final(self)@ == old(self)@.push((single(m@, dest), release_time(now))),
    {
        let release_at = if now <= u64::MAX - RETRY_DELAY_MS {
            now + RETRY_DELAY_MS
        } else {
            u64::MAX
        };
        self.pending.push(PendingRetry { message: m.single_to(dest), release_at });
        assert(self@ =~= old(self)@.push((single(m@, dest), release_time(now))));
    }

    /// The earliest release time among the pending retries.
    pub fn next_release(&self) -> (r: Option<u64>)
        ensures
            r is None <==> self@.len() == 0,
            r is Some ==> (exists|i: int| 0 <= i < self@.len() && #[trigger] self@[i].1 == r->0),
            r is Some ==> (forall|i: int| 0 <= i < self@.len() ==> r->0 <= #[trigger] self@[i].1),
    {
        let mut best: Option<u64> = None;
        let mut i: usize = 0;
        while i < self.pending.len()
            invariant
                i <= self@.len(),
                self@.len() == self.pending@.len(),
                best is None <==> i == 0,
                best is Some ==> (exists|j: int| 0 <= j < i && #[trigger] self@[j].1 == best->0),
                best is Some ==> (forall|j: int| 0 <= j < i ==> best->0 <= #[trigger] self@[j].1),
            decreases self.pending@.len() - i,
        {
            let t = self.pending[i].release_at;
            assert(self@[i as int].1 == t);
            match best {
                Some(b) if b <= t => {},
                _ => {
                    best = Some(t);
                },
            }
            i = i + 1;
        }
        best
    }

    /// Takes out the retries whose release time is at most `now`, in the order they
    /// were scheduled; the others stay, in their order.
    pub fn take_due(&mut self, now: u64) -> (r: Vec<NetworkMessage>)
        ensures
            r@.len() == due(old(self)@, now).len(),
            forall|i: int| 0 <= i < r@.len() ==> (#[trigger] r@[i])@ == due(old(self)@, now)[i],
            final(self)@ == waiting(old(self)@, now),
    {
        let ghost s = self@;
        let mut released: Vec<NetworkMessage> = Vec::new();
        let mut kept: Vec<PendingRetry> = Vec::new();
        let old_pending = &self.pending;
        let mut i: usize = 0;
        while i < old_pending.len()
            invariant
                i <= old_pending@.len(),
                s.len() == old_pending@.len(),
                forall|j: int| 0 <= j < s.len() ==> #[trigger] s[j] == (old_pending@[j].message@, old_pending@[j].release_at),
                released@.len() == due(s.take(i as int), now).len(),
                forall|j: int| 0 <= j < released@.len() ==> (#[trigger] released@[j])@ == due(s.take(i as int), now)[j],
                (NetworkRetransmitter { pending: kept })@ == waiting(s.take(i as int), now),
            decreases old_pending@.len() - i,
        {
            let ghost before = NetworkRetransmitter { pending: kept }@;
            assert(s.take(i + 1).drop_last() =~= s.take(i as int));
            assert(s.take(i + 1).last() == s[i as int]);
            let entry = &old_pending[i];
            if entry.release_at <= now {
                released.push(entry.message.duplicate());
            } else {
                kept.push(PendingRetry { message: entry.message.duplicate(), release_at: entry.release_at });
                assert((NetworkRetransmitter { pending: kept })@ =~= before.push(s[i as int]));
            }
            i = i + 1;
        }
        assert(s.take(s.len() as int) =~= s);
        self.pending = kept;
        released
    }
}

/// A retry scheduled at `t` is not released before `t + RETRY_DELAY_MS`: until then
/// the releases are those without it, and it waits, after the retries before it.
pub proof fn lemma_not_released_early(s: Seq<(MessageView, u64)>, m: MessageView, t: u64, now: u64)
    requires
        t as int + RETRY_DELAY_MS as int <= u64::MAX as int,
        (now as int) < t as int + RETRY_DELAY_MS as int,
    ensures
        due(s.push((m, release_time(t))), now) == due(s, now),
        waiting(s.push((m, release_time(t))), now) == waiting(s, now).push((m, release_time(t))),
{
    assert(s.push((m, release_time(t))).drop_last() =~= s);
}

/// Each failure, whatever is pending and however often the same copy failed before,
/// waits the same `RETRY_DELAY_MS` and no more: once that has passed, the copy is
/// among the releases, after those scheduled before it. There is no retry ceiling
/// and no backoff.
pub proof fn lemma_released_once_delay_passed(s: Seq<(MessageView, u64)>, m: MessageView, t: u64, now: u64)
    requires
        t as int + RETRY_DELAY_MS as int <= u64::MAX as int,
        now as int >= t as int + RETRY_DELAY_MS as int,
    ensures
        release_time(t) == t + RETRY_DELAY_MS,
        due(s.push((m, release_time(t))), now) == due(s, now).push(m),
        waiting(s.push((m, release_time(t))), now) == waiting(s, now),
{
    assert(s.push((m, release_time(t))).drop_last() =~= s);
}

/// A retry is released no earlier than `RETRY_DELAY_MS` after it was scheduled,
/// unless its release time reached the end of the clock's range.
pub proof fn lemma_release_not_early(scheduled: u64, now: u64)
    requires
        release_time(scheduled) <= now,
        release_time(scheduled) < u64::MAX,
    ensures
        now >= scheduled + RETRY_DELAY_MS,
{
}

/// Releasing loses no retry: each pending one is either released or still waits.
pub proof fn lemma_nothing_lost(s: Seq<(MessageView, u64)>, now: u64)
    ensures
        due(s, now).len() + waiting(s, now).len() == s.len(),
    decreases s.len(),
{
    if s.len() > 0 {
        lemma_nothing_lost(s.drop_last(), now);
    }
}

} // verus!
