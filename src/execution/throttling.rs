//! How the throttle bounds the chunks that run at once: a model of a run in
//! which every chunk takes a permit, starts, finishes and gives the permit
//! back, in any interleaving across chunks.
use crate::execution::metrics::{counters_chunk_finished, counters_chunk_started, MetricsCounters};
use crate::execution::semaphore::PermitPool;
use vstd::prelude::*;

verus! {

/// Where a chunk is in its life.
#[derive(Debug, Clone, Copy, PartialEq, Eq, Structural)]
pub enum ChunkPhase {
    /// Not yet holding a permit.
    Queued,
    /// Holding a permit, not started.
    Holding,
    /// Started and not finished.
    Running,
    /// Finished, still holding its permit.
    Finished,
    /// Permit given back.
    Released,
}

/// One step of one chunk.
#[derive(Debug, Clone, Copy, PartialEq, Eq, Structural)]
pub enum ChunkStep {
    /// The chunk takes a permit.
    Take(usize),
    /// The chunk starts (`on_chunk_start`).
    Start(usize),
    /// The chunk finishes (`on_chunk_end`).
    End(usize),
    /// The chunk gives its permit back.
    Give(usize),
}

/// The state of a run: the permit pool, each chunk's phase, and the metrics.
pub struct RunState {
    /// The throttle's permits.
    pub pool: PermitPool,
    /// Each chunk's phase.
    pub phases: Seq<ChunkPhase>,
    /// The run's metrics.
    pub counters: MetricsCounters,
}

/// Number of chunks in phase `p`.
pub open spec fn count_phase(phases: Seq<ChunkPhase>, p: ChunkPhase) -> nat
    decreases phases.len(),
{
    if phases.len() == 0 {
        0
    } else {
        count_phase(phases.drop_last(), p) + if phases.last() == p {
            1nat
        } else {
            0nat
        }
    }
}

/// Chunks holding a permit.
pub open spec fn permits_out(phases: Seq<ChunkPhase>) -> nat {
    count_phase(phases, ChunkPhase::Holding) + count_phase(phases, ChunkPhase::Running) + count_phase(
        phases,
        ChunkPhase::Finished,
    )
}

/// Chunk `c` moves from phase `from` to phase `to`.
pub open spec fn moves(s: RunState, c: usize, from: ChunkPhase, to: ChunkPhase) -> bool {
    c < s.phases.len() && s.phases[c as int] == from && to != from
}

/// The state after `step`, or `None` when the step cannot happen: a permit is
/// taken only when one is free, and each chunk takes, starts, finishes and
/// gives back in that order.
pub open spec fn after_step(s: RunState, step: ChunkStep) -> Option<RunState> {
    match step {
        ChunkStep::Take(c) => if moves(s, c, ChunkPhase::Queued, ChunkPhase::Holding) && s.pool.available > 0 {
            Some(
                RunState {
                    pool: PermitPool { available: (s.pool.available - 1) as usize, ..s.pool },
                    phases: s.phases.update(c as int, ChunkPhase::Holding),
                    counters: s.counters,
                },
            )
        } else {
            None
        },
        ChunkStep::Start(c) => if moves(s, c, ChunkPhase::Holding, ChunkPhase::Running) {
            Some(
                RunState {
                    pool: s.pool,
                    phases: s.phases.update(c as int, ChunkPhase::Running),
                    counters: counters_chunk_started(s.counters),
                },
            )
        } else {
            None
        },
        ChunkStep::End(c) => if moves(s, c, ChunkPhase::Running, ChunkPhase::Finished) {
            Some(
                RunState {
                    pool: s.pool,
                    phases: s.phases.update(c as int, ChunkPhase::Finished),
                    counters: counters_chunk_finished(s.counters),
                },
            )
        } else {
            None
        },
        ChunkStep::Give(c) => if moves(s, c, ChunkPhase::Finished, ChunkPhase::Released) {
            Some(
                RunState {
                    pool: PermitPool {
                        available: if s.pool.available < s.pool.capacity {
                            (s.pool.available + 1) as usize
                        } else {
                            s.pool.available
                        },
                        ..s.pool
                    },
                    phases: s.phases.update(c as int, ChunkPhase::Released),
                    counters: s.counters,
                },
            )
        } else {
            None
        },
    }
}

/// The state after all the steps, or `None` when one of them cannot happen.
pub open spec fn after_steps(s: RunState, steps: Seq<ChunkStep>) -> Option<RunState>
    decreases steps.len(),
{
    if steps.len() == 0 {
        Some(s)
    } else {
        match after_steps(s, steps.drop_last()) {
            Some(t) => after_step(t, steps.last()),
            None => None,
        }
    }
}

proof fn lemma_count_update(phases: Seq<ChunkPhase>, c: int, to: ChunkPhase, p: ChunkPhase)
    requires
        0 <= c < phases.len(),
    ensures
        count_phase(phases.update(c, to), p) + (if phases[c] == p {
            1int
        } else {
            0int
        }) == count_phase(phases, p) + (if to == p {
            1int
        } else {
            0int
        }),
    decreases phases.len(),
{
    let u = phases.update(c, to);
    if c == phases.len() - 1 {
        assert(u.drop_last() =~= phases.drop_last());
    } else {
        lemma_count_update(phases.drop_last(), c, to, p);
        assert(u.drop_last() =~= phases.drop_last().update(c, to));
    }
}

proof fn lemma_count_le_len(phases: Seq<ChunkPhase>, p: ChunkPhase)
    ensures
        count_phase(phases, p) <= phases.len(),
    decreases phases.len(),
{
    if phases.len() > 0 {
        lemma_count_le_len(phases.drop_last(), p);
    }
}

/// What holds in every state of a throttled run with `limit` permits.
pub open spec fn throttle_inv(s: RunState, limit: usize) -> bool {
    &&& s.pool.capacity == limit
    &&& s.pool.available <= limit
    &&& permits_out(s.phases) + s.pool.available == limit
    &&& s.counters.active_chunks == count_phase(s.phases, ChunkPhase::Running)
    &&& s.counters.max_active_chunks <= limit
}

proof fn lemma_step_keeps_inv(s: RunState, step: ChunkStep, limit: usize)
    requires
        throttle_inv(s, limit),
        after_step(s, step) is Some,
    ensures
        throttle_inv(after_step(s, step)->0, limit),
{
    let t = after_step(s, step)->0;
    let ph = s.phases;
    match step {
        ChunkStep::Take(c) => {
            lemma_count_update(ph, c as int, ChunkPhase::Holding, ChunkPhase::Holding);
            lemma_count_update(ph, c as int, ChunkPhase::Holding, ChunkPhase::Running);
            lemma_count_update(ph, c as int, ChunkPhase::Holding, ChunkPhase::Finished);
        },
        ChunkStep::Start(c) => {
            lemma_count_update(ph, c as int, ChunkPhase::Running, ChunkPhase::Holding);
            lemma_count_update(ph, c as int, ChunkPhase::Running, ChunkPhase::Running);
            lemma_count_update(ph, c as int, ChunkPhase::Running, ChunkPhase::Finished);
        },
        ChunkStep::End(c) => {
            lemma_count_update(ph, c as int, ChunkPhase::Finished, ChunkPhase::Holding);
            lemma_count_update(ph, c as int, ChunkPhase::Finished, ChunkPhase::Running);
            lemma_count_update(ph, c as int, ChunkPhase::Finished, ChunkPhase::Finished);
        },
        ChunkStep::Give(c) => {
            lemma_count_update(ph, c as int, ChunkPhase::Released, ChunkPhase::Holding);
            lemma_count_update(ph, c as int, ChunkPhase::Released, ChunkPhase::Running);
            lemma_count_update(ph, c as int, ChunkPhase::Released, ChunkPhase::Finished);
        },
    }
}

/// Every chunk queued and every permit free, with the given counters.
pub open spec fn run_start(limit: usize, chunks: nat, counters: MetricsCounters) -> RunState {
    RunState {
        pool: PermitPool { available: limit, capacity: limit },
        phases: Seq::new(chunks, |i: int| ChunkPhase::Queued),
        counters,
    }
}

proof fn lemma_all_queued(chunks: nat)
    ensures
        count_phase(Seq::new(chunks, |i: int| ChunkPhase::Queued), ChunkPhase::Holding) == 0,
        count_phase(Seq::new(chunks, |i: int| ChunkPhase::Queued), ChunkPhase::Running) == 0,
        count_phase(Seq::new(chunks, |i: int| ChunkPhase::Queued), ChunkPhase::Finished) == 0,
    decreases chunks,
{
    if chunks > 0 {
        let s = Seq::new(chunks, |i: int| ChunkPhase::Queued);
        assert(s.drop_last() =~= Seq::new((chunks - 1) as nat, |i: int| ChunkPhase::Queued));
        lemma_all_queued((chunks - 1) as nat);
    }
}

/// Whatever the interleaving of the chunks' steps, a run throttled to `limit`
/// permits never has more than `limit` chunks running: the recorded number of
/// active chunks is the number running, and its high-water mark stays at most
/// `limit`.
pub proof fn lemma_throttle_bounds_active_chunks(
    limit: usize,
    chunks: nat,
    counters: MetricsCounters,
    steps: Seq<ChunkStep>,
)
    requires
        counters.active_chunks == 0,
        counters.max_active_chunks == 0,
        after_steps(run_start(limit, chunks, counters), steps) is Some,
    ensures
        ({
            let s = after_steps(run_start(limit, chunks, counters), steps)->0;
            &&& s.counters.active_chunks == count_phase(s.phases, ChunkPhase::Running)
            &&& count_phase(s.phases, ChunkPhase::Running) <= limit
            &&& s.counters.max_active_chunks <= limit
        }),
    decreases steps.len(),
{
    if steps.len() == 0 {
        lemma_all_queued(chunks);
    } else {
        lemma_throttle_bounds_active_chunks(limit, chunks, counters, steps.drop_last());
        lemma_throttle_inv_holds(limit, chunks, counters, steps);
    }
}

proof fn lemma_throttle_inv_holds(limit: usize, chunks: nat, counters: MetricsCounters, steps: Seq<ChunkStep>)
    requires
        counters.active_chunks == 0,
        counters.max_active_chunks == 0,
        after_steps(run_start(limit, chunks, counters), steps) is Some,
    ensures
        throttle_inv(after_steps(run_start(limit, chunks, counters), steps)->0, limit),
    decreases steps.len(),
{
    if steps.len() == 0 {
        lemma_all_queued(chunks);
    } else {
        let prev = after_steps(run_start(limit, chunks, counters), steps.drop_last());
        assert(prev is Some);
        lemma_throttle_inv_holds(limit, chunks, counters, steps.drop_last());
        lemma_step_keeps_inv(prev->0, steps.last(), limit);
    }
}

} // verus!
