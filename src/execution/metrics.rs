//! Run-scoped execution metrics: a plain counter state with exact transitions,
//! shared between worker threads behind a lock.
use crate::sync::lock_mutex;
use std::sync::{Mutex, MutexGuard};
use vstd::prelude::*;

verus! {

/// `a + b`, or `u64::MAX` when the sum does not fit.
pub open spec fn sat_add(a: u64, b: u64) -> u64 {
    if a + b > u64::MAX {
        u64::MAX
    } else {
        (a + b) as u64
    }
}

fn add_saturating(a: u64, b: u64) -> (r: u64)
    ensures
        r == sat_add(a, b),
{
    if a > u64::MAX - b {
        u64::MAX
    } else {
        a + b
    }
}

/// Immutable, point-in-time copy of the metrics of a run.
#[derive(Debug, Clone, Copy, PartialEq, Eq)]
pub struct ExecutionMetricsSnapshot {
    /// Number of runs begun so far.
    pub run_id: u64,
    /// Wall-clock nanoseconds of the run; present once the run has ended.
    pub elapsed_ns: Option<u64>,
    /// Rows visited by the run.
    pub rows_processed: u64,
    /// Chunks that began processing.
    pub chunks_started: u64,
    /// Chunks that finished processing.
    pub chunks_finished: u64,
    /// Total nanoseconds that chunks spent waiting for a throttle permit.
    pub throttle_wait_ns: u64,
    /// Highest number of chunks that were active at once.
    pub max_active_chunks: usize,
}

/// The counters of one run, as plain values.
#[derive(Debug, Clone, Copy, PartialEq, Eq, Structural)]
pub struct MetricsCounters {
    /// Number of runs begun so far.
    pub run_id: u64,
    /// Whether the current run has ended.
    pub ended: bool,
    /// Wall-clock nanoseconds of the current run, once it has ended.
    pub elapsed_ns: u64,
    /// Rows visited.
    pub rows_processed: u64,
    /// Chunks that began.
    pub chunks_started: u64,
    /// Chunks that finished.
    pub chunks_finished: u64,
    /// Total throttle wait in nanoseconds.
    pub throttle_wait_ns: u64,
    /// Chunks active right now.
    pub active_chunks: usize,
    /// Highest value `active_chunks` has had in this run.
    pub max_active_chunks: usize,
}

/// All counters zero, no run begun.
pub open spec fn initial_counters() -> MetricsCounters {
    MetricsCounters {
        run_id: 0,
        ended: false,
        elapsed_ns: 0,
        rows_processed: 0,
        chunks_started: 0,
        chunks_finished: 0,
        throttle_wait_ns: 0,
        active_chunks: 0,
        max_active_chunks: 0,
    }
}

/// A new run: the run number goes up by one and everything else is reset.
pub open spec fn counters_begun(c: MetricsCounters) -> MetricsCounters {
    MetricsCounters { run_id: sat_add(c.run_id, 1), ..initial_counters() }
}

/// One more row visited.
pub open spec fn counters_row(c: MetricsCounters) -> MetricsCounters {
    MetricsCounters { rows_processed: sat_add(c.rows_processed, 1), ..c }
}

/// One more chunk active; the high-water mark follows it.
pub open spec fn counters_chunk_started(c: MetricsCounters) -> MetricsCounters {
    let active = if c.active_chunks < usize::MAX {
        (c.active_chunks + 1) as usize
    } else {
        c.active_chunks
    };
    MetricsCounters {
        chunks_started: sat_add(c.chunks_started, 1),
        active_chunks: active,
        max_active_chunks: if active > c.max_active_chunks {
            active
        } else {
            c.max_active_chunks
        },
        ..c
    }
}

/// One chunk done: one more finished, one fewer active.
pub open spec fn counters_chunk_finished(c: MetricsCounters) -> MetricsCounters {
    MetricsCounters {
        chunks_finished: sat_add(c.chunks_finished, 1),
        active_chunks: if c.active_chunks > 0 {
            (c.active_chunks - 1) as usize
        } else {
            0
        },
        ..c
    }
}

/// A throttle wait of `ns` nanoseconds, added without overflow.
pub open spec fn counters_waited(c: MetricsCounters, ns: u64) -> MetricsCounters {
    MetricsCounters { throttle_wait_ns: sat_add(c.throttle_wait_ns, ns), ..c }
}

/// The run ended after `ns` nanoseconds.
pub open spec fn counters_ended(c: MetricsCounters, ns: u64) -> MetricsCounters {
    MetricsCounters { ended: true, elapsed_ns: ns, ..c }
}

/// What a snapshot of `c` reads.
pub open spec fn snapshot_of(c: MetricsCounters) -> ExecutionMetricsSnapshot {
    ExecutionMetricsSnapshot {
        run_id: c.run_id,
        elapsed_ns: if c.ended {
            Some(c.elapsed_ns)
        } else {
            None
        },
        rows_processed: c.rows_processed,
        chunks_started: c.chunks_started,
        chunks_finished: c.chunks_finished,
        throttle_wait_ns: c.throttle_wait_ns,
        max_active_chunks: c.max_active_chunks,
    }
}

impl MetricsCounters {
    /// All counters zero, no run begun.
    pub fn new() -> (r: MetricsCounters)
        ensures
            r == initial_counters(),
    {
        MetricsCounters {
            run_id: 0,
            ended: false,
            elapsed_ns: 0,
            rows_processed: 0,
            chunks_started: 0,
            chunks_finished: 0,
            throttle_wait_ns: 0,
            active_chunks: 0,
            max_active_chunks: 0,
        }
    }

    /// Starts a new run.
    pub fn begun(self) -> (r: MetricsCounters)
        ensures
            r == counters_begun(self),
    {
        let fresh = MetricsCounters::new();
        MetricsCounters { run_id: add_saturating(self.run_id, 1), ..fresh }
    }

    /// Counts one visited row.
    pub fn row_processed(self) -> (r: MetricsCounters)
        ensures
            r == counters_row(self),
    {
        MetricsCounters { rows_processed: add_saturating(self.rows_processed, 1), ..self }
    }

    /// Counts a chunk that begins, and raises the high-water mark if needed.
    pub fn chunk_started(self) -> (r: MetricsCounters)
        ensures
            r == counters_chunk_started(self),
    {
        let active = if self.active_chunks < usize::MAX {
            self.active_chunks + 1
        } else {
            self.active_chunks
        };
        let max = if active > self.max_active_chunks {
            active
        } else {
            self.max_active_chunks
        };
        MetricsCounters {
            chunks_started: add_saturating(self.chunks_started, 1),
            active_chunks: active,
            max_active_chunks: max,
            ..self
        }
    }

    /// Counts a chunk that is done.
    pub fn chunk_finished(self) -> (r: MetricsCounters)
        ensures
            r == counters_chunk_finished(self),
    {
        let active = if self.active_chunks > 0 {
            self.active_chunks - 1
        } else {
            0
        };
        MetricsCounters {
            chunks_finished: add_saturating(self.chunks_finished, 1),
            active_chunks: active,
            ..self
        }
    }

    /// Adds a throttle wait of `ns` nanoseconds.
    pub fn waited(self, ns: u64) -> (r: MetricsCounters)
        ensures
            r == counters_waited(self, ns),
    {
        MetricsCounters { throttle_wait_ns: add_saturating(self.throttle_wait_ns, ns), ..self }
    }

    /// Records the end of the run after `ns` nanoseconds.
    pub fn ended(self, ns: u64) -> (r: MetricsCounters)
        ensures
            r == counters_ended(self, ns),
    {
        MetricsCounters { ended: true, elapsed_ns: ns, ..self }
    }

    /// A snapshot of the counters.
    pub fn snapshot(&self) -> (r: ExecutionMetricsSnapshot)
        ensures
            r == snapshot_of(*self),
    {
        ExecutionMetricsSnapshot {
            run_id: self.run_id,
            elapsed_ns: if self.ended {
                Some(self.elapsed_ns)
            } else {
                None
            },
            rows_processed: self.rows_processed,
            chunks_started: self.chunks_started,
            chunks_finished: self.chunks_finished,
            throttle_wait_ns: self.throttle_wait_ns,
            max_active_chunks: self.max_active_chunks,
        }
    }
}

/// What the guard `g` gives access to.
pub uninterp spec fn counters_in(g: MutexGuard<'_, MetricsCounters>) -> MetricsCounters;

/// Relies on std's `Deref` for `MutexGuard`: reads the guarded counters.
#[verifier::external_body]
fn read_counters(g: &MutexGuard<'_, MetricsCounters>) -> (r: MetricsCounters)
    ensures
        r == counters_in(*g),
{
    **g
}

/// Relies on std's `DerefMut` for `MutexGuard`: replaces the guarded counters.
#[verifier::external_body]
fn write_counters(g: &mut MutexGuard<'_, MetricsCounters>, c: MetricsCounters)
    ensures
        counters_in(*final(g)) == c,
{
    **g = c;
}

/// Real-time metrics of the runs of an engine, safe to update and read from
/// any thread. Each update is one step of [`MetricsCounters`], taken under a lock.
pub struct ExecutionMetrics {
    counters: Mutex<MetricsCounters>,
}

impl ExecutionMetrics {
    /// Metrics with every counter at zero.
    pub fn new() -> ExecutionMetrics {
        ExecutionMetrics { counters: Mutex::new(MetricsCounters::new()) }
    }

    /// Resets the counters for a new run and increments the run number.
    pub fn begin_run(&self) {
        let mut g = lock_mutex(&self.counters);
        let c = read_counters(&g);
        write_counters(&mut g, c.begun());
    }

    /// Records the wall-clock nanoseconds of the run that just ended.
    pub fn end_run(&self, elapsed_ns: u64) {
        let mut g = lock_mutex(&self.counters);
        let c = read_counters(&g);
        write_counters(&mut g, c.ended(elapsed_ns));
    }

    /// Counts one visited row.
    pub fn on_row_processed(&self) {
        let mut g = lock_mutex(&self.counters);
        let c = read_counters(&g);
        write_counters(&mut g, c.row_processed());
    }

    /// Counts a chunk that begins and updates the high-water mark of active chunks.
    pub fn on_chunk_start(&self) {
        let mut g = lock_mutex(&self.counters);
        let c = read_counters(&g);
        write_counters(&mut g, c.chunk_started());
    }

    /// Counts a chunk that finished.
    pub fn on_chunk_end(&self) {
        let mut g = lock_mutex(&self.counters);
        let c = read_counters(&g);
        write_counters(&mut g, c.chunk_finished());
    }

    /// Adds a throttle wait of `wait_ns` nanoseconds, saturating.
    pub fn on_throttle_wait(&self, wait_ns: u64) {
        let mut g = lock_mutex(&self.counters);
        let c = read_counters(&g);
        write_counters(&mut g, c.waited(wait_ns));
    }

    /// A point-in-time copy of all counters.
    pub fn snapshot(&self) -> ExecutionMetricsSnapshot {
        let g = lock_mutex(&self.counters);
        let c = read_counters(&g);
        c.snapshot()
    }
}

/// One update of the metrics during a run.
#[derive(Debug, Clone, Copy, PartialEq, Eq, Structural)]
pub enum MetricStep {
    /// `on_row_processed`.
    Row,
    /// `on_chunk_start`.
    ChunkStart,
    /// `on_chunk_end`.
    ChunkEnd,
    /// `on_throttle_wait` with this many nanoseconds.
    Wait(u64),
}

/// The counters after one update.
pub open spec fn apply_step(c: MetricsCounters, s: MetricStep) -> MetricsCounters {
    match s {
        MetricStep::Row => counters_row(c),
        MetricStep::ChunkStart => counters_chunk_started(c),
        MetricStep::ChunkEnd => counters_chunk_finished(c),
        MetricStep::Wait(ns) => counters_waited(c, ns),
    }
}

/// The counters after a sequence of updates, in order.
pub open spec fn replay(c: MetricsCounters, steps: Seq<MetricStep>) -> MetricsCounters
    decreases steps.len(),
{
    if steps.len() == 0 {
        c
    } else {
        apply_step(replay(c, steps.drop_last()), steps.last())
    }
}

/// Number of steps equal to `s`.
pub open spec fn count_steps(steps: Seq<MetricStep>, s: MetricStep) -> nat
    decreases steps.len(),
{
    if steps.len() == 0 {
        0
    } else {
        count_steps(steps.drop_last(), s) + if steps.last() == s {
            1nat
        } else {
            0nat
        }
    }
}

/// Chunks begun and not yet finished after the steps.
pub open spec fn active_after(steps: Seq<MetricStep>) -> int {
    count_steps(steps, MetricStep::ChunkStart) - count_steps(steps, MetricStep::ChunkEnd)
}

/// Highest number of active chunks after any prefix of the steps.
pub open spec fn peak_active(steps: Seq<MetricStep>) -> int
    decreases steps.len(),
{
    if steps.len() == 0 {
        0
    } else {
        let before = peak_active(steps.drop_last());
        if active_after(steps) > before {
            active_after(steps)
        } else {
            before
        }
    }
}

/// No prefix of the steps finishes more chunks than it starts.
pub open spec fn ends_follow_starts(steps: Seq<MetricStep>) -> bool
    decreases steps.len(),
{
    steps.len() == 0 || (ends_follow_starts(steps.drop_last()) && active_after(steps) >= 0)
}

proof fn lemma_replay_counts(c0: MetricsCounters, steps: Seq<MetricStep>)
    requires
        ends_follow_starts(steps),
        steps.len() < usize::MAX,
        steps.len() < u64::MAX,
    ensures
        ({
            let c = replay(counters_begun(c0), steps);
            &&& c.run_id == sat_add(c0.run_id, 1)
            &&& !c.ended
            &&& c.rows_processed == count_steps(steps, MetricStep::Row)
            &&& c.chunks_started == count_steps(steps, MetricStep::ChunkStart)
            &&& c.chunks_finished == count_steps(steps, MetricStep::ChunkEnd)
            &&& c.active_chunks == active_after(steps)
            &&& c.max_active_chunks == peak_active(steps)
            &&& count_steps(steps, MetricStep::Row) <= steps.len()
            &&& count_steps(steps, MetricStep::ChunkStart) <= steps.len()
            &&& count_steps(steps, MetricStep::ChunkEnd) <= steps.len()
            &&& 0 <= peak_active(steps) <= count_steps(steps, MetricStep::ChunkStart)
            &&& count_steps(steps, MetricStep::ChunkStart) > 0 ==> peak_active(steps) >= 1
        }),
    decreases steps.len(),
{
    if steps.len() > 0 {
        lemma_replay_counts(c0, steps.drop_last());
    }
}

/// After a completed run whose chunks were throttled to at most `limit` active
/// at once, the metrics read: every visited row, every chunk started and
/// finished, a high-water mark of at most `limit` (exactly one when chunks ran
/// one at a time), and the elapsed time.
pub proof fn lemma_completed_run_metrics(
    c0: MetricsCounters,
    steps: Seq<MetricStep>,
    rows: nat,
    chunks: nat,
    limit: int,
    elapsed_ns: u64,
)
    requires
        ends_follow_starts(steps),
        steps.len() < usize::MAX,
        steps.len() < u64::MAX,
        count_steps(steps, MetricStep::Row) == rows,
        count_steps(steps, MetricStep::ChunkStart) == chunks,
        count_steps(steps, MetricStep::ChunkEnd) == chunks,
        peak_active(steps) <= limit,
    ensures
        ({
            let snap = snapshot_of(counters_ended(replay(counters_begun(c0), steps), elapsed_ns));
            &&& snap.rows_processed == rows
            &&& snap.chunks_started == chunks
            &&& snap.chunks_finished == chunks
            &&& snap.max_active_chunks <= limit
            &&& limit == 1 && chunks > 0 ==> snap.max_active_chunks == 1
            &&& snap.elapsed_ns == Some(elapsed_ns)
        }),
{
    lemma_replay_counts(c0, steps);
}

} // verus!
