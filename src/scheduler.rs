//! The decisions of a compression job: the job's flags, what a worker does
//! when it polls them, the "fully paused" notice, and the job's counters.
use vstd::prelude::*;

use crate::paths::views;

verus! {

/// The flags of the job: whether one runs, is paused, is cancelled.
#[derive(Clone, Copy, Debug, PartialEq, Eq, Structural)]
pub struct CompressionFlags {
    pub is_compressing: bool,
    pub is_compression_paused: bool,
    pub is_compression_cancelled: bool,
}

impl CompressionFlags {
    /// No job.
    pub fn new() -> (r: CompressionFlags)
        ensures
            !r.is_compressing && !r.is_compression_paused && !r.is_compression_cancelled,
    {
        CompressionFlags { is_compressing: false, is_compression_paused: false, is_compression_cancelled: false }
    }

    /// Starts a job unless one runs: `false`, and nothing changes, when one
    /// does.
    pub fn start(&mut self) -> (r: bool)
        ensures
            r == !old(self).is_compressing,
            r ==> final(self).is_compressing && !final(self).is_compression_paused
                && !final(self).is_compression_cancelled,
            !r ==> *final(self) == *old(self),
    {
        if self.is_compressing {
            return false;
        }
        self.is_compressing = true;
        self.is_compression_paused = false;
        self.is_compression_cancelled = false;
        true
    }

    pub fn pause(&mut self)
        ensures
            final(self).is_compression_paused,
            final(self).is_compressing == old(self).is_compressing,
            final(self).is_compression_cancelled == old(self).is_compression_cancelled,
    {
        self.is_compression_paused = true;
    }

    pub fn resume(&mut self)
        ensures
            !final(self).is_compression_paused,
            final(self).is_compressing == old(self).is_compressing,
            final(self).is_compression_cancelled == old(self).is_compression_cancelled,
    {
        self.is_compression_paused = false;
    }

    /// Cancels the job; a paused job is released so that its workers see
    /// the cancellation.
    pub fn cancel(&mut self)
        ensures
            final(self).is_compression_cancelled,
            !final(self).is_compression_paused,
            final(self).is_compressing == old(self).is_compressing,
    {
        self.is_compression_cancelled = true;
        self.is_compression_paused = false;
    }

    /// Marks the job as over.
    pub fn finish(&mut self)
        ensures
            !final(self).is_compressing,
            final(self).is_compression_paused == old(self).is_compression_paused,
            final(self).is_compression_cancelled == old(self).is_compression_cancelled,
    {
        self.is_compressing = false;
    }
}

/// What a worker does after polling the flags before an item.
#[derive(Clone, Copy, Debug, PartialEq, Eq, Structural)]
pub enum PollAction {
    /// The job is cancelled: leave this item and dispatch no more.
    Abandon,
    /// The job is paused: wait an interval and poll again; announce that
    /// the job is fully paused when `notify_paused` is set.
    Wait { notify_paused: bool },
    /// Go on with the item.
    Proceed,
}

/// The ids of the items whose workers wait, at most `capacity` of them, and
/// whether the "fully paused" notice was given in this pause.
pub struct PauseTracker {
    pub waiting: Vec<String>,
    pub notified: bool,
    pub capacity: usize,
}

/// The waiting ids after `w` polls during a pause, and whether the notice
/// fires on this poll.
pub open spec fn pause_step(waiting: Seq<Seq<char>>, notified: bool, capacity: nat, w: Seq<char>) -> (
    Seq<Seq<char>>,
    bool,
) {
    let next = if !waiting.contains(w) && waiting.len() < capacity {
        waiting.push(w)
    } else {
        waiting
    };
    (next, !notified && next.len() >= capacity)
}

/// The number of notices over the polls `ws`, all made during one pause.
pub open spec fn notices(waiting: Seq<Seq<char>>, notified: bool, capacity: nat, ws: Seq<Seq<char>>) -> nat
    decreases ws.len(),
{
    if ws.len() == 0 {
        0
    } else {
        let (next, fire) = pause_step(waiting, notified, capacity, ws[0]);
        (if fire {
            1nat
        } else {
            0nat
        }) + notices(next, notified || fire, capacity, ws.drop_first())
    }
}

impl PauseTracker {
    /// No worker waits; the notice fires once `capacity` workers wait.
    pub fn new(capacity: usize) -> (r: PauseTracker)
        ensures
            r.waiting@.len() == 0,
            !r.notified,
            r.capacity == capacity,
    {
        PauseTracker { waiting: Vec::new(), notified: false, capacity }
    }

    fn is_waiting(&self, id: &String) -> (r: bool)
        ensures
            r == views(self.waiting@).contains(id@),
    {
        let mut i: usize = 0;
        while i < self.waiting.len()
            invariant
                i <= self.waiting@.len(),
                forall|j: int| 0 <= j < i ==> views(self.waiting@)[j] != id@,
            decreases self.waiting@.len() - i,
        {
            if self.waiting[i] == *id {
                assert(views(self.waiting@)[i as int] == id@);
                return true;
            }
            i = i + 1;
        }
        false
    }

    /// The poll of the worker of item `id`. Cancellation wins; a pause
    /// makes the worker wait and counts it, and the notice fires on the
    /// poll that brings the count to `capacity`, once until the pause ends;
    /// otherwise the pause is over, the count is cleared, and the worker
    /// goes on.
    pub fn poll(&mut self, flags: &CompressionFlags, id: &String) -> (r: PollAction)
        ensures
            flags.is_compression_cancelled ==> r == PollAction::Abandon && views(final(self).waiting@) == views(
                old(self).waiting@,
            ) && final(self).notified == old(self).notified,
            !flags.is_compression_cancelled && flags.is_compression_paused ==> ({
                let (next, fire) = pause_step(views(old(self).waiting@), old(self).notified, old(self).capacity as nat, id@);
                &&& r == PollAction::Wait { notify_paused: fire }
                &&& views(final(self).waiting@) == next
                &&& final(self).notified == (old(self).notified || fire)
            }),
            !flags.is_compression_cancelled && !flags.is_compression_paused ==> r == PollAction::Proceed
                && final(self).waiting@.len() == 0 && !final(self).notified,
            final(self).capacity == old(self).capacity,
    {
        if flags.is_compression_cancelled {
            return PollAction::Abandon;
        }
        if flags.is_compression_paused {
            if !self.is_waiting(id) && self.waiting.len() < self.capacity {
                let ghost before = views(self.waiting@);
                self.waiting.push(id.clone());
                assert(views(self.waiting@) =~= before.push(id@));
            }
            let fire = !self.notified && self.waiting.len() >= self.capacity;
            if fire {
                self.notified = true;
            }
            return PollAction::Wait { notify_paused: fire };
        }
        self.waiting.clear();
        self.notified = false;
        PollAction::Proceed
    }
}

/// Over any run of polls within one pause, the "fully paused" notice fires
/// at most once, and not at all when it already fired in this pause.
pub proof fn pause_notice_fires_once(waiting: Seq<Seq<char>>, notified: bool, capacity: nat, ws: Seq<Seq<char>>)
    ensures
        notices(waiting, notified, capacity, ws) <= 1,
        notified ==> notices(waiting, notified, capacity, ws) == 0,
    decreases ws.len(),
{
    if ws.len() > 0 {
        let (next, fire) = pause_step(waiting, notified, capacity, ws[0]);
        pause_notice_fires_once(next, notified || fire, capacity, ws.drop_first());
    }
}

proof fn lemma_notice_at_last_arrival(waiting: Seq<Seq<char>>, capacity: nat, ws: Seq<Seq<char>>)
    requires
        waiting.len() + ws.len() == capacity,
        ws.len() >= 1,
        forall|i: int, j: int| 0 <= i < j < ws.len() ==> ws[i] != ws[j],
        forall|i: int| 0 <= i < ws.len() ==> !waiting.contains(#[trigger] ws[i]),
    ensures
        notices(waiting, false, capacity, ws) == 1,
    decreases ws.len(),
{
    let (next, fire) = pause_step(waiting, false, capacity, ws[0]);
    assert(!waiting.contains(ws[0]));
    assert(next == waiting.push(ws[0]));
    if ws.len() == 1 {
        assert(fire);
        assert(notices(next, true, capacity, ws.drop_first()) == 0);
    } else {
        assert(!fire);
        let rest = ws.drop_first();
        assert forall|i: int| 0 <= i < rest.len() implies !next.contains(#[trigger] rest[i]) by {
            assert(rest[i] == ws[i + 1]);
            if next.contains(rest[i]) {
                let k = choose|k: int| 0 <= k < next.len() && next[k] == rest[i];
                if k < waiting.len() {
                    assert(waiting[k] == next[k]);
                    assert(waiting.contains(ws[i + 1]));
                }
            }
        }
        lemma_notice_at_last_arrival(next, capacity, rest);
    }
}

/// In a pause that starts with no worker waiting, the "fully paused" notice
/// fires exactly once as soon as `capacity` different workers have polled,
/// whatever polls follow.
pub proof fn pause_notice_fires_exactly_once(capacity: nat, ws: Seq<Seq<char>>)
    requires
        capacity >= 1,
        ws.len() >= capacity,
        forall|i: int, j: int| 0 <= i < j < capacity ==> ws[i] != ws[j],
    ensures
        notices(Seq::empty(), false, capacity, ws) == 1,
{
    lemma_notices_split(Seq::empty(), false, capacity, ws, capacity as int);
    let first = ws.take(capacity as int);
    lemma_notice_at_last_arrival(Seq::empty(), capacity, first);
    let (w, n) = pause_run(Seq::empty(), false, capacity, first);
    lemma_run_after_all_arrive(Seq::empty(), capacity, first);
    pause_notice_fires_once(w, n, capacity, ws.skip(capacity as int));
}

/// The waiting ids and the notice flag after the polls `ws`.
pub open spec fn pause_run(waiting: Seq<Seq<char>>, notified: bool, capacity: nat, ws: Seq<Seq<char>>) -> (
    Seq<Seq<char>>,
    bool,
)
    decreases ws.len(),
{
    if ws.len() == 0 {
        (waiting, notified)
    } else {
        let (next, fire) = pause_step(waiting, notified, capacity, ws[0]);
        pause_run(next, notified || fire, capacity, ws.drop_first())
    }
}

proof fn lemma_notices_split(waiting: Seq<Seq<char>>, notified: bool, capacity: nat, ws: Seq<Seq<char>>, k: int)
    requires
        0 <= k <= ws.len(),
    ensures
        notices(waiting, notified, capacity, ws) == notices(waiting, notified, capacity, ws.take(k)) + notices(
            pause_run(waiting, notified, capacity, ws.take(k)).0,
            pause_run(waiting, notified, capacity, ws.take(k)).1,
            capacity,
            ws.skip(k),
        ),
    decreases k,
{
    if k == 0 {
        assert(ws.skip(0) =~= ws);
        assert(ws.take(0) =~= Seq::<Seq<char>>::empty());
    } else {
        let (next, fire) = pause_step(waiting, notified, capacity, ws[0]);
        lemma_notices_split(next, notified || fire, capacity, ws.drop_first(), k - 1);
        assert(ws.take(k).drop_first() =~= ws.drop_first().take(k - 1));
        assert(ws.drop_first().skip(k - 1) =~= ws.skip(k));
        assert(ws.take(k)[0] == ws[0]);
    }
}

proof fn lemma_run_after_all_arrive(waiting: Seq<Seq<char>>, capacity: nat, ws: Seq<Seq<char>>)
    requires
        waiting.len() + ws.len() == capacity,
        ws.len() >= 1,
        forall|i: int, j: int| 0 <= i < j < ws.len() ==> ws[i] != ws[j],
        forall|i: int| 0 <= i < ws.len() ==> !waiting.contains(#[trigger] ws[i]),
    ensures
        pause_run(waiting, false, capacity, ws).1,
    decreases ws.len(),
{
    let (next, fire) = pause_step(waiting, false, capacity, ws[0]);
    assert(!waiting.contains(ws[0]));
    if ws.len() == 1 {
        assert(fire);
        assert(pause_run(next, true, capacity, ws.drop_first()) == (next, true));
        assert(pause_run(waiting, false, capacity, ws) == pause_run(next, true, capacity, ws.drop_first()));
    } else {
        assert(!fire);
        let rest = ws.drop_first();
        assert forall|i: int| 0 <= i < rest.len() implies !next.contains(#[trigger] rest[i]) by {
            assert(rest[i] == ws[i + 1]);
            if next.contains(rest[i]) {
                let k = choose|k: int| 0 <= k < next.len() && next[k] == rest[i];
                if k < waiting.len() {
                    assert(waiting[k] == next[k]);
                    assert(waiting.contains(ws[i + 1]));
                }
            }
        }
        lemma_run_after_all_arrive(next, capacity, rest);
        assert(pause_run(waiting, false, capacity, ws) == pause_run(next, false, capacity, rest));
    }
}

/// The outcome of one item.
#[derive(Clone, Copy, Debug, PartialEq, Eq, Structural)]
pub enum CompressionStatus {
    Success,
    Warning,
    Error,
}

/// What a job has done so far: of `total_images`, `dispatched` went past
/// their poll, and the three outcome counters count those that finished.
/// Byte counters saturate.
#[derive(Clone, Copy, Debug, PartialEq, Eq, Structural)]
pub struct JobProgress {
    pub total_images: usize,
    pub dispatched: usize,
    pub total_success: usize,
    pub total_skipped: usize,
    pub total_errors: usize,
    pub original_size: u64,
    pub compressed_size: u64,
}

/// The job's report once it is over.
#[derive(Clone, Copy, Debug, PartialEq, Eq, Structural)]
pub struct CompressionSummary {
    pub total_images: usize,
    pub total_success: usize,
    pub total_skipped: usize,
    pub total_errors: usize,
    pub original_size: u64,
    pub compressed_size: u64,
    pub total_time: u64,
}

/// The counts that the cancellation law speaks of: items in all,
/// dispatched, finished.
pub struct JobCounts {
    pub total: nat,
    pub dispatched: nat,
    pub finished: nat,
}

/// A worker either starts an item (when its poll lets it) or finishes one.
pub enum JobEvent {
    Start,
    Finish,
}

/// The counts after `e` when the job is cancelled (`cancelled`) or not.
pub open spec fn job_step(c: JobCounts, e: JobEvent, cancelled: bool) -> JobCounts {
    match e {
        JobEvent::Start => if !cancelled && c.dispatched < c.total {
            JobCounts { dispatched: c.dispatched + 1, ..c }
        } else {
            c
        },
        JobEvent::Finish => if c.finished < c.dispatched {
            JobCounts { finished: c.finished + 1, ..c }
        } else {
            c
        },
    }
}

/// The counts after the events `es`, all of them after cancellation.
pub open spec fn after_cancel(c: JobCounts, es: Seq<JobEvent>) -> JobCounts
    decreases es.len(),
{
    if es.len() == 0 {
        c
    } else {
        after_cancel(job_step(c, es[0], true), es.drop_first())
    }
}

impl JobProgress {
    pub open spec fn finished(&self) -> nat {
        (self.total_success + self.total_skipped + self.total_errors) as nat
    }

    pub open spec fn counts(&self) -> JobCounts {
        JobCounts { total: self.total_images as nat, dispatched: self.dispatched as nat, finished: self.finished() }
    }

    pub open spec fn wf(&self) -> bool {
        self.finished() <= self.dispatched <= self.total_images
    }

    /// A job over `total_images` items, none started.
    pub fn new(total_images: usize) -> (r: JobProgress)
        ensures
            r.wf(),
            r.total_images == total_images,
            r.dispatched == 0,
            r.finished() == 0,
            r.original_size == 0,
            r.compressed_size == 0,
    {
        JobProgress {
            total_images,
            dispatched: 0,
            total_success: 0,
            total_skipped: 0,
            total_errors: 0,
            original_size: 0,
            compressed_size: 0,
        }
    }

    /// Starts an item of `size` bytes unless the job is cancelled or every
    /// item has started; `true` when it started.
    pub fn start_item(&mut self, cancelled: bool, size: u64) -> (r: bool)
        requires
            old(self).wf(),
        ensures
            final(self).wf(),
            final(self).counts() == job_step(old(self).counts(), JobEvent::Start, cancelled),
            r == (!cancelled && old(self).dispatched < old(self).total_images),
            r ==> final(self).original_size == (if old(self).original_size + size > u64::MAX {
                u64::MAX as int
            } else {
                old(self).original_size + size
            }),
            !r ==> *final(self) == *old(self),
            final(self).compressed_size == old(self).compressed_size,
    {
        if cancelled || self.dispatched >= self.total_images {
            return false;
        }
        self.dispatched = self.dispatched + 1;
        self.original_size = self.original_size.saturating_add(size);
        true
    }

    /// Counts a started item as finished with `status`, its output being
    /// `compressed` bytes. Nothing changes when no started item is open.
    pub fn finish_item(&mut self, status: CompressionStatus, compressed: u64)
        requires
            old(self).wf(),
        ensures
            final(self).wf(),
            final(self).counts() == job_step(old(self).counts(), JobEvent::Finish, false),
            old(self).finished() < old(self).dispatched ==> match status {
                CompressionStatus::Success => final(self).total_success == old(self).total_success + 1
                    && final(self).total_skipped == old(self).total_skipped
                    && final(self).total_errors == old(self).total_errors,
                CompressionStatus::Warning => final(self).total_skipped == old(self).total_skipped + 1
                    && final(self).total_success == old(self).total_success
                    && final(self).total_errors == old(self).total_errors,
                CompressionStatus::Error => final(self).total_errors == old(self).total_errors + 1
                    && final(self).total_success == old(self).total_success
                    && final(self).total_skipped == old(self).total_skipped,
            },
            old(self).finished() < old(self).dispatched ==> final(self).compressed_size == (
            if old(self).compressed_size + compressed > u64::MAX {
                u64::MAX as int
            } else {
                old(self).compressed_size + compressed
            }),
            old(self).finished() >= old(self).dispatched ==> *final(self) == *old(self),
            final(self).original_size == old(self).original_size,
    {
        if self.total_success + self.total_skipped + self.total_errors >= self.dispatched {
            return;
        }
        match status {
            CompressionStatus::Success => self.total_success = self.total_success + 1,
            CompressionStatus::Warning => self.total_skipped = self.total_skipped + 1,
            CompressionStatus::Error => self.total_errors = self.total_errors + 1,
        }
        self.compressed_size = self.compressed_size.saturating_add(compressed);
    }

    /// The report, with the time the job took in milliseconds.
    pub fn summary(&self, total_time: u64) -> (r: CompressionSummary)
        ensures
            r.total_images == self.total_images,
            r.total_success == self.total_success,
            r.total_skipped == self.total_skipped,
            r.total_errors == self.total_errors,
            r.original_size == self.original_size,
            r.compressed_size == self.compressed_size,
            r.total_time == total_time,
    {
        CompressionSummary {
            total_images: self.total_images,
            total_success: self.total_success,
            total_skipped: self.total_skipped,
            total_errors: self.total_errors,
            original_size: self.original_size,
            compressed_size: self.compressed_size,
            total_time,
        }
    }
}

/// Once a job is cancelled no further item starts: whatever its workers
/// do afterwards, the total stays, the started items stay as they were,
/// and the finished ones never pass them. So a job cancelled while some of
/// its items had not started ends with fewer outcomes than items.
pub proof fn cancellation_stops_dispatch(c: JobCounts, es: Seq<JobEvent>)
    requires
        c.finished <= c.dispatched <= c.total,
    ensures
        after_cancel(c, es).total == c.total,
        after_cancel(c, es).dispatched == c.dispatched,
        after_cancel(c, es).finished <= c.dispatched,
        c.dispatched < c.total ==> after_cancel(c, es).finished < c.total,
    decreases es.len(),
{
    if es.len() > 0 {
        cancellation_stops_dispatch(job_step(c, es[0], true), es.drop_first());
    }
}

} // verus!
