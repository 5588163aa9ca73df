use vstd::prelude::*;

use crate::channel::chan_try_send;

verus! {

/// A deferred deallocation request: the block's address and its layout
/// (byte size and alignment).
#[derive(Debug, Clone, Copy, PartialEq, Eq, Structural)]
pub struct GarbageRecord {
    pub addr: usize,
    pub size: usize,
    pub align: usize,
}

/// What became of one deallocation request.
#[derive(Debug, Clone, Copy, PartialEq, Eq, Structural)]
pub enum DeallocOutcome {
    /// Not on the audio thread: the caller frees the block synchronously.
    Immediate(GarbageRecord),
    /// Queued for the reclamation worker to free off the audio thread.
    Deferred,
    /// The queue was full or its worker gone: the block is dropped, counted
    /// as leaked, because blocking the audio thread would be strictly worse.
    Leaked,
}

/// The leak counter after one more dropped record of `s` bytes.
pub open spec fn leak_add(c: u64, s: usize) -> u64 {
    if c + s > u64::MAX {
        u64::MAX
    } else {
        (c + s) as u64
    }
}

/// Per-thread allocator-guard state: once a thread declares itself the audio
/// thread it holds a channel to its reclamation worker, and its deallocations
/// are deferred instead of performed in place. Dropped records are tallied in
/// a leak counter, by byte size.
pub struct AllocatorGuard {
    disposal: Option<crossbeam_channel::Sender<GarbageRecord>>,
    leaked_bytes: u64,
}

impl AllocatorGuard {
    /// Whether this thread has been declared the audio thread.
    pub closed spec fn spec_is_audio_thread(&self) -> bool {
        self.disposal is Some
    }

    /// Total bytes leaked so far.
    pub closed spec fn leaked(&self) -> u64 {
        self.leaked_bytes
    }

    /// Guard state for an ordinary thread.
    pub fn new() -> (r: AllocatorGuard)
        ensures
            !r.spec_is_audio_thread(),
            r.leaked() == 0,
    {
        AllocatorGuard { disposal: None, leaked_bytes: 0 }
    }

    /// Whether this thread is the audio thread: it is iff it holds a channel
    /// to a reclamation worker.
    pub fn am_audio_thread(&self) -> (r: bool)
        ensures
            r == self.spec_is_audio_thread(),
    {
        self.disposal.is_some()
    }

    /// Declare this thread the audio thread, binding it to the given
    /// reclamation channel. Idempotent: a thread that already is one keeps
    /// its existing channel.
    pub fn become_audio_thread(&mut self, disposal: crossbeam_channel::Sender<GarbageRecord>)
        ensures
            final(self).spec_is_audio_thread(),
            final(self).leaked() == old(self).leaked(),
            old(self).spec_is_audio_thread() ==> *final(self) == *old(self),
    {
        if self.disposal.is_none() {
            self.disposal = Some(disposal);
        }
    }

    /// The leak counter's current value.
    pub fn leaked_bytes(&self) -> (r: u64)
        ensures
            r == self.leaked(),
    {
        self.leaked_bytes
    }

    /// Whether an allocation should be refused: in a checking build, the
    /// audio thread may not allocate at all, so accidental allocation on the
    /// hot path surfaces during testing.
    pub fn should_deny_alloc(&self, checking: bool) -> (r: bool)
        ensures
            r == (checking && self.spec_is_audio_thread()),
    {
        checking && self.disposal.is_some()
    }

    /// Handle one deallocation request. Off the audio thread the record is
    /// handed back for synchronous freeing. On the audio thread the record is
    /// enqueued without blocking; if the queue refuses it, the record is
    /// dropped and the leak counter grows by exactly its byte size (pinned at
    /// the counter's maximum if it would overflow).
    pub fn dealloc(&mut self, rec: GarbageRecord) -> (r: DeallocOutcome)
        ensures
            !old(self).spec_is_audio_thread() ==> r == DeallocOutcome::Immediate(rec)
                && *final(self) == *old(self),
            old(self).spec_is_audio_thread() ==> {
                &&& final(self).spec_is_audio_thread()
                &&& (r == DeallocOutcome::Deferred || r == DeallocOutcome::Leaked)
                &&& (r == DeallocOutcome::Deferred ==> final(self).leaked() == old(self).leaked())
                &&& (r == DeallocOutcome::Leaked ==> final(self).leaked() == leak_add(
                    old(self).leaked(),
                    rec.size,
                ))
            },
    {
        if self.disposal.is_none() {
            return DeallocOutcome::Immediate(rec);
        }
        let sent: Option<GarbageRecord> = match &self.disposal {
            Some(tx) => chan_try_send(tx, rec),
            None => Some(rec),
        };
        match sent {
            None => DeallocOutcome::Deferred,
            Some(back) => {
                let s64: u64 = back.size as u64;
                self.leaked_bytes = self.leaked_bytes.saturating_add(s64);
                DeallocOutcome::Leaked
            },
        }
    }
}

/// The leak counter after a sequence of audio-thread deallocation events,
/// each a byte size paired with whether the queue accepted the record.
pub open spec fn leaked_after(start: u64, events: Seq<(usize, bool)>) -> u64
    decreases events.len(),
{
    if events.len() == 0 {
        start
    } else {
        let prev = leaked_after(start, events.drop_last());
        if events.last().1 {
            prev
        } else {
            leak_add(prev, events.last().0)
        }
    }
}

/// The cumulative byte size of the records the queue refused.
pub open spec fn dropped_bytes(events: Seq<(usize, bool)>) -> int
    decreases events.len(),
{
    if events.len() == 0 {
        0
    } else {
        dropped_bytes(events.drop_last()) + if events.last().1 {
            0int
        } else {
            events.last().0 as int
        }
    }
}

proof fn lemma_dropped_bytes_nonneg(events: Seq<(usize, bool)>)
    ensures
        dropped_bytes(events) >= 0,
    decreases events.len(),
{
    if events.len() > 0 {
        lemma_dropped_bytes_nonneg(events.drop_last());
    }
}

/// Law: over any sequence of audio-thread deallocations — however many, and
/// however the queue answers each — the leak counter grows by exactly the
/// cumulative byte size of the records that could not be enqueued, as long as
/// that total does not exceed the counter's range.
pub proof fn lemma_leak_counter_exact(start: u64, events: Seq<(usize, bool)>)
    requires
        start + dropped_bytes(events) <= u64::MAX,
    ensures
        leaked_after(start, events) == start + dropped_bytes(events),
    decreases events.len(),
{
    if events.len() > 0 {
        lemma_dropped_bytes_nonneg(events.drop_last());
        lemma_leak_counter_exact(start, events.drop_last());
    }
}

} // verus!
