//! Reader loop state machine: the decisions of the background worker that
//! owns the device handle. The worker alternates outside work (open,
//! bounded reads, sleeps) with these steps; each step says which events to
//! emit outward and whether the loop goes on.
//!
//! Lifecycle: `Opening -> Reading -> (Stopped | Failed)`. Every path from
//! `Reading` into a terminal phase emits exactly one `Disconnected` event;
//! a failure to open emits only the error, never a disconnect.

use vstd::prelude::*;

use crate::lines::LineBuffer;
use crate::lines::lines_of;
use crate::lines::rest_of;
use crate::lines::trimmed;
use crate::lines::trimmed_line;

verus! {

/// An event handed outward to the presentation layer.
pub enum SerialEvent {
    /// One trimmed, non-empty line of text (the `serial-data` payload).
    Data(Vec<u8>),
    /// A human-readable error description (the `serial-error` payload).
    Error(String),
    /// Worker termination marker (`serial-disconnected`, no payload).
    Disconnected,
}

/// `e` carries the line `l`.
pub open spec fn is_data(e: SerialEvent, l: Seq<u8>) -> bool {
    e matches SerialEvent::Data(v) && v@ == l
}

/// `e` carries the error text `m`.
pub open spec fn is_error(e: SerialEvent, m: Seq<char>) -> bool {
    e matches SerialEvent::Error(t) && t@ == m
}

/// Where the worker stands in its lifetime.
pub enum ReaderPhase {
    /// Trying to open the device.
    Opening,
    /// Device open; reading until cancelled or a fatal error.
    Reading,
    /// Terminal: the cancellation flag was observed false.
    Stopped,
    /// Terminal: the device could not be opened or a read failed fatally.
    Failed,
}

/// The worker's state: its phase, (for the real-device variant) the
/// reader-local buffer holding the unterminated remainder of the stream,
/// and a ghost record of whether it ended on the open-failure path.
pub struct ReaderMachine {
    pub phase: ReaderPhase,
    pub buf: LineBuffer,
    pub open_failed: Ghost<bool>,
}

/// How many disconnect markers a batch of events carries.
pub open spec fn disc_count(evs: Seq<SerialEvent>) -> int
    decreases evs.len(),
{
    if evs.len() == 0 {
        0
    } else {
        disc_count(evs.drop_last()) + if evs.last() is Disconnected {
            1int
        } else {
            0int
        }
    }
}

/// One worker step, seen at the lifecycle level: how the phase may move
/// and how many disconnect markers the step emits. Every method of
/// `ReaderMachine` ensures this relation between its old and new state.
pub open spec fn lifecycle_step(pre: ReaderMachine, post: ReaderMachine, disc: int) -> bool {
    ||| (pre.phase is Opening && !pre.open_failed@ && post.phase is Reading && !post.open_failed@
        && disc == 0)
    ||| (pre.phase is Opening && !pre.open_failed@ && post.phase is Failed && post.open_failed@
        && disc == 0)
    ||| (pre.phase is Reading && !pre.open_failed@ && post.phase is Reading && !post.open_failed@
        && disc == 0)
    ||| (pre.phase is Reading && !pre.open_failed@ && post.phase is Stopped && !post.open_failed@
        && disc == 1)
    ||| (pre.phase is Reading && !pre.open_failed@ && post.phase is Failed && !post.open_failed@
        && disc == 1)
}

impl ReaderMachine {
    /// The buffer never retains a complete line, and a worker that is
    /// still opening or reading has not failed to open.
    pub open spec fn wf(self) -> bool {
        &&& self.buf.wf()
        &&& (self.phase is Opening || self.phase is Reading) ==> !self.open_failed@
    }

    /// A worker about to open its device.
    pub fn new() -> (m: ReaderMachine)
        ensures
            m.phase is Opening,
            m.buf@ == Seq::<u8>::empty(),
            !m.open_failed@,
            m.wf(),
    {
        ReaderMachine {
            phase: ReaderPhase::Opening,
            buf: LineBuffer::new(),
            open_failed: Ghost(false),
        }
    }

    /// The device opened: start reading. Nothing is emitted.
    pub fn on_open_ok(&mut self)
        requires
            old(self).phase is Opening,
            old(self).wf(),
        ensures
            final(self).phase is Reading,
            final(self).buf@ == old(self).buf@,
            final(self).wf(),
            lifecycle_step(*old(self), *final(self), 0),
    {
        self.phase = ReaderPhase::Reading;
    }

    /// The device could not be opened: emit the error description and end.
    /// No disconnect event is ever emitted on this path.
    pub fn on_open_err(&mut self, msg: String) -> (evs: Vec<SerialEvent>)
        requires
            old(self).phase is Opening,
            old(self).wf(),
        ensures
            final(self).phase is Failed,
            final(self).open_failed@,
            final(self).wf(),
            evs@.len() == 1,
            is_error(evs@[0], msg@),
            lifecycle_step(*old(self), *final(self), disc_count(evs@)),
    {
        self.phase = ReaderPhase::Failed;
        self.open_failed = Ghost(true);
        let mut evs: Vec<SerialEvent> = Vec::new();
        evs.push(SerialEvent::Error(msg));
        assert(disc_count(evs@) == 0) by {
            assert(evs@.drop_last() =~= Seq::<SerialEvent>::empty());
            assert(disc_count(Seq::<SerialEvent>::empty()) == 0);
        };
        evs
    }

    /// One poll of the shared cancellation flag, made once per loop
    /// iteration. A cleared flag stops the worker within this very step
    /// and emits exactly one disconnect event; otherwise nothing changes.
    pub fn poll_flag(&mut self, running: bool) -> (evs: Vec<SerialEvent>)
        requires
            old(self).phase is Reading,
            old(self).wf(),
        ensures
            final(self).wf(),
            final(self).buf@ == old(self).buf@,
            running ==> final(self).phase is Reading && evs@.len() == 0,
            !running ==> final(self).phase is Stopped && evs@.len() == 1 && evs@[0]
                is Disconnected,
            lifecycle_step(*old(self), *final(self), disc_count(evs@)),
    {
        let mut evs: Vec<SerialEvent> = Vec::new();
        if !running {
            self.phase = ReaderPhase::Stopped;
            evs.push(SerialEvent::Disconnected);
            assert(disc_count(evs@) == 1) by {
                assert(evs@.drop_last() =~= Seq::<SerialEvent>::empty());
                assert(disc_count(Seq::<SerialEvent>::empty()) == 0);
            };
        }
        evs
    }

    /// A read produced nothing: a zero-byte read, or end-of-stream on a
    /// pseudo-terminal whose peer may reopen. Not an error — the worker
    /// keeps reading and emits nothing; the caller sleeps briefly and
    /// retries.
    pub fn on_idle(&mut self) -> (evs: Vec<SerialEvent>)
        requires
            old(self).phase is Reading,
            old(self).wf(),
        ensures
            final(self).phase is Reading,
            final(self).buf@ == old(self).buf@,
            final(self).wf(),
            evs@.len() == 0,
            lifecycle_step(*old(self), *final(self), disc_count(evs@)),
    {
        Vec::new()
    }

    /// Freshly read bytes (real-device variant): every line they complete
    /// is emitted as a data event, in stream order; the rest stays pending.
    pub fn on_chunk(&mut self, chunk: &[u8]) -> (evs: Vec<SerialEvent>)
        requires
            old(self).phase is Reading,
            old(self).wf(),
        ensures
            final(self).phase is Reading,
            final(self).wf(),
            final(self).buf@ == rest_of(old(self).buf@ + chunk@),
            evs@.len() == lines_of(old(self).buf@ + chunk@).len(),
            forall|j: int|
                0 <= j < evs@.len() ==> is_data(
                    evs@[j],
                    lines_of(old(self).buf@ + chunk@)[j],
                ),
            lifecycle_step(*old(self), *final(self), disc_count(evs@)),
    {
        let ghost all = lines_of(old(self).buf@ + chunk@);
        let mut lines = self.buf.push_chunk(chunk);
        let mut evs: Vec<SerialEvent> = Vec::new();
        while lines.len() > 0
            invariant
                all == lines_of(old(self).buf@ + chunk@),
                evs@.len() + lines@.len() == all.len(),
                lines.deep_view() =~= all.skip(evs@.len() as int),
                forall|j: int| 0 <= j < evs@.len() ==> is_data(evs@[j], all[j]),
                disc_count(evs@) == 0,
            decreases lines@.len(),
        {
            let ghost k = evs@.len() as int;
            let ghost dv_before = lines.deep_view();
            let ghost lv_before = lines@;
            let l = lines.remove(0);
            proof {
                assert(dv_before[0] == lv_before[0].deep_view());
                assert(dv_before[0] == all.skip(k)[0]);
                assert(all.skip(k)[0] == all[k]);
                assert(l@ == all[k]);
            }
            let ghost evs_before = evs@;
            evs.push(SerialEvent::Data(l));
            proof {
                assert(evs@.drop_last() =~= evs_before);
                assert(disc_count(evs@) == 0);
                let dv2 = lines.deep_view();
                assert forall|j: int| 0 <= j < dv2.len() implies dv2[j] == all[k + 1 + j] by {
                    assert(dv2[j] == lines@[j].deep_view());
                    assert(lines@[j] == lv_before[j + 1]);
                    assert(lv_before[j + 1].deep_view() == dv_before[j + 1]);
                    assert(dv_before[j + 1] == all.skip(k)[j + 1]);
                    assert(all.skip(k)[j + 1] == all[k + 1 + j]);
                }
                assert(dv2 =~= all.skip(k + 1));
            }
        }
        evs
    }

    /// One whole raw line (virtual-device variant): its trimmed text is
    /// emitted when non-empty, nothing otherwise.
    pub fn on_line(&mut self, raw: &[u8]) -> (evs: Vec<SerialEvent>)
        requires
            old(self).phase is Reading,
            old(self).wf(),
        ensures
            final(self).phase is Reading,
            final(self).buf@ == old(self).buf@,
            final(self).wf(),
            trimmed(raw@).len() > 0 ==> evs@.len() == 1 && is_data(evs@[0], trimmed(raw@)),
            trimmed(raw@).len() == 0 ==> evs@.len() == 0,
            lifecycle_step(*old(self), *final(self), disc_count(evs@)),
    {
        let line = trimmed_line(raw);
        let mut evs: Vec<SerialEvent> = Vec::new();
        if line.len() > 0 {
            evs.push(SerialEvent::Data(line));
            assert(disc_count(evs@) == 0) by {
                assert(evs@.drop_last() =~= Seq::<SerialEvent>::empty());
                assert(disc_count(Seq::<SerialEvent>::empty()) == 0);
            };
        }
        evs
    }

    /// A read failed. A timeout is transient and drives a retry with
    /// nothing emitted; any other error is fatal: emit the description,
    /// then the disconnect marker, and end.
    pub fn on_read_error(&mut self, msg: String, timed_out: bool) -> (evs: Vec<SerialEvent>)
        requires
            old(self).phase is Reading,
            old(self).wf(),
        ensures
            final(self).wf(),
            final(self).buf@ == old(self).buf@,
            timed_out ==> final(self).phase is Reading && evs@.len() == 0,
            !timed_out ==> final(self).phase is Failed && evs@.len() == 2 && is_error(
                evs@[0],
                msg@,
            ) && evs@[1] is Disconnected,
            lifecycle_step(*old(self), *final(self), disc_count(evs@)),
    {
        let mut evs: Vec<SerialEvent> = Vec::new();
        if !timed_out {
            self.phase = ReaderPhase::Failed;
            evs.push(SerialEvent::Error(msg));
            let ghost evs_one = evs@;
            evs.push(SerialEvent::Disconnected);
            assert(disc_count(evs@) == 1) by {
                assert(evs@.drop_last() =~= evs_one);
                assert(evs_one.drop_last() =~= Seq::<SerialEvent>::empty());
                assert(disc_count(Seq::<SerialEvent>::empty()) == 0);
                assert(disc_count(evs_one) == 0);
            };
        }
        evs
    }
}

/// Sum of the disconnect counts of a run's steps.
pub open spec fn disc_sum(discs: Seq<int>) -> int
    decreases discs.len(),
{
    if discs.len() == 0 {
        0
    } else {
        disc_sum(discs.drop_last()) + discs.last()
    }
}

/// Whether the worker's termination owes the presentation layer a
/// disconnect marker: it does once it left `Reading`, and never when it
/// failed to open.
pub open spec fn owes_disconnect(m: ReaderMachine) -> int {
    if m.phase is Stopped || (m.phase is Failed && !m.open_failed@) {
        1
    } else {
        0
    }
}

/// A worker history: consecutive states `ms[i] -> ms[i+1]`, the step
/// between them emitting `discs[i]` disconnect markers.
pub open spec fn lifecycle_run(ms: Seq<ReaderMachine>, discs: Seq<int>) -> bool {
    &&& ms.len() == discs.len() + 1
    &&& forall|i: int| 0 <= i < discs.len() ==> lifecycle_step(ms[i], ms[i + 1], discs[i])
}

/// Across a run, the disconnect markers emitted are exactly what the end
/// state owes beyond the start state.
proof fn lemma_run_disc_sum(ms: Seq<ReaderMachine>, discs: Seq<int>)
    requires
        lifecycle_run(ms, discs),
    ensures
        disc_sum(discs) == owes_disconnect(ms.last()) - owes_disconnect(ms[0]),
    decreases discs.len(),
{
    if discs.len() > 0 {
        let n = discs.len() as int;
        lemma_run_disc_sum(ms.drop_last(), discs.drop_last());
        assert(ms.drop_last()[0] == ms[0]);
        assert(ms.drop_last().last() == ms[n - 1]);
        assert(lifecycle_step(ms[n - 1], ms[n], discs[n - 1]));
    }
}

/// Exactly one disconnect marker per worker lifetime: over any run of
/// steps from a fresh worker, the total number of disconnect events is 1
/// when the worker ended by observing the cleared flag or by a fatal read
/// error, and 0 while it still opens or reads — and 0 forever when it
/// failed to open the device.
pub proof fn lemma_disconnected_exactly_once(ms: Seq<ReaderMachine>, discs: Seq<int>)
    requires
        lifecycle_run(ms, discs),
        ms[0].phase is Opening,
        !ms[0].open_failed@,
    ensures
        0 <= disc_sum(discs) <= 1,
        disc_sum(discs) == 1 <==> ms.last().phase is Stopped || (ms.last().phase is Failed
            && !ms.last().open_failed@),
{
    lemma_run_disc_sum(ms, discs);
}

} // verus!
