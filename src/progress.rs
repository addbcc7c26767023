//! A single shared slot holding the latest progress value, in thousandths.
use vstd::prelude::*;
use std::sync::Arc;
use std::sync::atomic::{AtomicU32, Ordering};

verus! {

/// Progress of a finished run, in thousandths.
pub const FULL: u32 = 1000;
/// Progress once the source file is open.
pub const OPENED: u32 = 100;
/// Progress once the text is parsed and the dates are cast.
pub const PARSED: u32 = 900;

/// The values that one ingestion run writes, in order: every run reports that
/// the file is open; a successful one then reports parsing done and the end.
pub open spec fn milestones(success: bool) -> Seq<u32> {
    if success {
        seq![OPENED, PARSED, FULL]
    } else {
        seq![OPENED]
    }
}

/// Within one run the reported values never decrease and stay within
/// `FULL`; a successful run reports `FULL` last.
pub proof fn lemma_milestones_rise(success: bool)
    ensures
        forall|i: int, j: int|
            0 <= i <= j < milestones(success).len() ==> milestones(success)[i] <= milestones(
                success,
            )[j],
        forall|i: int| 0 <= i < milestones(success).len() ==> milestones(success)[i] <= FULL,
        success ==> milestones(success).last() == FULL,
{
}

/// A handle on a progress slot shared between the worker that writes it and
/// the poller that samples it. The latest write wins; nothing is queued.
pub struct ProgressChannel {
    slot: Arc<AtomicU32>,
    sent: Ghost<Seq<u32>>,
}

impl ProgressChannel {
    /// The values written through this handle, oldest first.
    pub closed spec fn written(&self) -> Seq<u32> {
        self.sent@
    }

    /// A fresh slot holding 0.
    pub fn new() -> (r: ProgressChannel)
        ensures
            r.written() == Seq::<u32>::empty(),
    {
        ProgressChannel { slot: Arc::new(AtomicU32::new(0)), sent: Ghost(Seq::empty()) }
    }

    /// Another handle on the same slot, with nothing written through it yet.
    pub fn share(&self) -> (r: ProgressChannel)
        ensures
            r.written() == Seq::<u32>::empty(),
    {
        ProgressChannel { slot: Arc::clone(&self.slot), sent: Ghost(Seq::empty()) }
    }

    /// Overwrites the slot with `v`.
    pub fn write(&mut self, v: u32)
        requires
            v <= FULL,
        ensures
            final(self).written() == old(self).written().push(v),
    {
        self.slot.store(v, Ordering::SeqCst);
        self.sent = Ghost(self.sent@.push(v));
    }

    /// The value in the slot, never above `FULL`.
    pub fn read(&self) -> (r: u32)
        ensures
            r <= FULL,
    {
        let v = self.slot.load(Ordering::SeqCst);
        if v > FULL {
            FULL
        } else {
            v
        }
    }
}

} // verus!
