//! The dispatch loop's batching decisions: one cycle drains the inbound
//! channel into an accumulator and flushes when the flush interval has
//! elapsed and the batch is not exactly full, or when the channel is
//! momentarily empty with a full batch. A full batch keeps absorbing a burst
//! past the interval until the channel empties. Channel disconnection is
//! fatal. The loop that polls the channel and measures time runs outside;
//! every decision it takes is this verified step function.

use vstd::prelude::*;

verus! {

/// One pending transaction waiting to be batched.
#[derive(Clone, PartialEq, Eq, Debug)]
pub struct PendingEntry {
    pub signature: String,
    pub recent_slot: u64,
    pub payload: Vec<u8>,
}

/// What one non-blocking poll of the inbound channel yielded.
#[derive(Debug)]
pub enum PollEvent {
    /// An entry was immediately available.
    Item(PendingEntry),
    /// No entry was immediately available.
    Empty,
    /// The channel's senders are gone; the loop must stop with an error.
    Disconnected,
}

/// The decision taken after one poll.
#[derive(Clone, Copy, PartialEq, Eq, Structural, Debug)]
pub enum CycleStep {
    /// Keep accumulating within this cycle.
    Continue,
    /// Hand the accumulated batch to the forwarder and start a new cycle.
    Flush,
    /// The channel disconnected: surface an error, do not flush silently.
    Fatal,
}

/// The accumulator of one dispatch cycle.
pub struct DispatchCycle {
    pub batch: Vec<PendingEntry>,
    pub batch_size: usize,
}

impl DispatchCycle {
    pub open spec fn wf(&self) -> bool {
        self.batch_size >= 1
    }

    pub fn new(batch_size: usize) -> (r: Self)
        requires
            batch_size >= 1,
        ensures
            r.wf(),
            r.batch_size == batch_size,
            r.batch@.len() == 0,
    {
        DispatchCycle { batch: Vec::new(), batch_size }
    }

    /// One scheduling decision, given what the poll yielded and whether the
    /// flush interval has elapsed. The cycle ends — flushing whatever has
    /// accumulated, even nothing — once the interval is over and the batch
    /// is not exactly full; a full batch keeps draining until an empty poll.
    pub fn step(&mut self, event: PollEvent, interval_elapsed: bool) -> (r: CycleStep)
        requires
            old(self).wf(),
            old(self).batch@.len() < usize::MAX,
        ensures
            final(self).wf(),
            final(self).batch_size == old(self).batch_size,
            interval_elapsed && old(self).batch@.len() != old(self).batch_size ==> r
                == CycleStep::Flush && final(self).batch@ == old(self).batch@,
            !(interval_elapsed && old(self).batch@.len() != old(self).batch_size) ==> match event {
                PollEvent::Item(entry) => r == CycleStep::Continue && final(self).batch@ == old(
                    self,
                ).batch@.push(entry),
                PollEvent::Empty => final(self).batch@ == old(self).batch@ && r == if old(
                    self,
                ).batch@.len() == old(self).batch_size {
                    CycleStep::Flush
                } else {
                    CycleStep::Continue
                },
                PollEvent::Disconnected => r == CycleStep::Fatal && final(self).batch@ == old(
                    self,
                ).batch@,
            },
    {
        if interval_elapsed && self.batch.len() != self.batch_size {
            return CycleStep::Flush;
        }
        match event {
            PollEvent::Item(entry) => {
                self.batch.push(entry);
                CycleStep::Continue
            },
            PollEvent::Empty => {
                if self.batch.len() == self.batch_size {
                    CycleStep::Flush
                } else {
                    CycleStep::Continue
                }
            },
            PollEvent::Disconnected => CycleStep::Fatal,
        }
    }

    /// Takes the accumulated batch out, leaving an empty accumulator for the
    /// next cycle.
    pub fn take_batch(&mut self) -> (r: Vec<PendingEntry>)
        ensures
            final(self).batch_size == old(self).batch_size,
            final(self).batch@.len() == 0,
            r@ == old(self).batch@,
    {
        let mut taken: Vec<PendingEntry> = Vec::new();
        core::mem::swap(&mut taken, &mut self.batch);
        taken
    }
}

} // verus!
