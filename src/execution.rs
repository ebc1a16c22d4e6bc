//! The parallel execution engine: runs filter and map over a table in chunks on
//! a fixed pool of worker threads, with at most a set number of chunks in
//! flight, and reassembles the output in row order.

pub mod metrics;
pub mod observer;
pub mod semaphore;
pub mod throttling;

use crate::chunking::chunk_ranges;
use crate::processing::{
    column_reduction, int_cells, is_first_named, is_mapped, is_pure_combiner, is_pure_mapper,
    is_pure_predicate, keeps, keeps_arity, kept_rows, lemma_kept_rows_step, lemma_rows_view_push,
    reduce, sums_fit, ReduceOp,
};
use crate::sync::nanos_since;
use crate::types::{clone_row, rows_view, DataSet, DataType, Value};
use rayon::iter::{IntoParallelIterator, ParallelIterator};
use rayon::{ThreadPool, ThreadPoolBuildError, ThreadPoolBuilder};
use std::ops::Range;
use std::sync::Arc;
use std::time::Instant;
use vstd::pervasive::VecAdditionalExecFns;
use vstd::prelude::*;

pub use metrics::{ExecutionMetrics, ExecutionMetricsSnapshot, MetricsCounters};
pub use observer::{ExecutionEvent, ExecutionObserver};
pub use semaphore::{Permit, Semaphore};

verus! {

#[verifier::external_type_specification]
#[verifier::external_body]
pub struct ExThreadPool(ThreadPool);

#[verifier::external_type_specification]
#[verifier::external_body]
pub struct ExThreadPoolBuildError(ThreadPoolBuildError);

/// Relies on rayon's `ThreadPoolBuilder`: a pool of `num_threads` threads, or of
/// rayon's default count when `num_threads` is zero; it fails only when the
/// threads cannot be started.
#[verifier::external_body]
fn build_pool(num_threads: usize) -> Result<ThreadPool, ThreadPoolBuildError> {
    ThreadPoolBuilder::new().num_threads(num_threads).build()
}

/// Relies on rayon's `ThreadPool::install` and its indexed parallel map: `f` runs
/// once per item on the pool's threads, and `collect` into a `Vec` keeps the
/// items' order whatever order the calls finish in.
#[verifier::external_body]
fn par_map_on_pool<T: Send, U: Send, F: Fn(T) -> U + Send + Sync>(
    pool: &ThreadPool,
    items: Vec<T>,
    f: F,
) -> (r: Vec<U>)
    requires
        forall|i: int| 0 <= i < items.len() ==> f.requires((#[trigger] items[i],)),
    ensures
        r.len() == items.len(),
        forall|i: int| 0 <= i < items.len() ==> f.ensures((#[trigger] items[i],), r[i]),
{
    pool.install(|| items.into_par_iter().map(f).collect())
}

/// Configuration of an [`ExecutionEngine`].
#[derive(Debug, Clone, Copy, PartialEq, Eq)]
pub struct ExecutionOptions {
    /// Worker threads; `None` leaves the count to rayon, which uses the
    /// available hardware parallelism unless configured otherwise.
    pub num_threads: Option<usize>,
    /// Rows per chunk.
    pub chunk_size: usize,
    /// Most chunks processed at the same time.
    pub max_in_flight_chunks: usize,
}

impl ExecutionOptions {
    /// Every size that is given is positive.
    pub open spec fn is_valid(self) -> bool {
        &&& self.chunk_size > 0
        &&& self.max_in_flight_chunks > 0
        &&& self.num_threads != Some(0usize)
    }
}

impl ExecutionOptions {
    /// Checks that every size is positive; the first zero size found, in the
    /// order chunk size, in-flight bound, thread count, is the error.
    pub fn validate(&self) -> (r: Result<(), ExecutionConfigError>)
        ensures
            r is Ok <==> self.is_valid(),
            self.chunk_size == 0 ==> r == Err::<(), _>(ExecutionConfigError::ZeroChunkSize),
            self.chunk_size > 0 && self.max_in_flight_chunks == 0 ==> r == Err::<(), _>(
                ExecutionConfigError::ZeroMaxInFlightChunks,
            ),
            self.chunk_size > 0 && self.max_in_flight_chunks > 0 && self.num_threads == Some(0usize) ==> r
                == Err::<(), _>(ExecutionConfigError::ZeroThreads),
    {
        if self.chunk_size == 0 {
            Err(ExecutionConfigError::ZeroChunkSize)
        } else if self.max_in_flight_chunks == 0 {
            Err(ExecutionConfigError::ZeroMaxInFlightChunks)
        } else {
            match self.num_threads {
                Some(n) => if n == 0 {
                    Err(ExecutionConfigError::ZeroThreads)
                } else {
                    Ok(())
                },
                None => Ok(()),
            }
        }
    }
}

/// The thread count handed to the pool builder: the one asked for, or zero,
/// which lets rayon choose, when none is.
pub fn requested_threads(opts: ExecutionOptions) -> (r: usize)
    ensures
        r == match opts.num_threads {
            Some(n) => n,
            None => 0,
        },
{
    match opts.num_threads {
        Some(n) => n,
        None => 0,
    }
}

/// Why an engine could not be built.
#[derive(Debug, Clone, Copy, PartialEq, Eq, Structural)]
pub enum ExecutionConfigError {
    /// `chunk_size` is zero.
    ZeroChunkSize,
    /// `max_in_flight_chunks` is zero.
    ZeroMaxInFlightChunks,
    /// `num_threads` is `Some(0)`.
    ZeroThreads,
    /// The worker threads could not be started.
    ThreadPoolUnavailable,
}

/// The value behind a reference.
spec fn pointee<T>(r: &T) -> T {
    *r
}

/// The rows of `rows[0..end]` that `f` keeps, seen as value sequences.
pub open spec fn kept_prefix<F: Fn(&Vec<Value>) -> bool>(rows: Seq<Vec<Value>>, f: F, end: int) -> Seq<Seq<Value>> {
    rows_view(kept_rows(rows.subrange(0, end), f))
}

/// The facts about chunk boundaries that gathering needs.
pub open spec fn chunks_tile(ranges: Seq<Range<usize>>, row_count: int) -> bool {
    &&& forall|j: int| 0 <= j < ranges.len() ==> #[trigger] ranges[j].start <= ranges[j].end <= row_count
    &&& forall|j: int| 0 < j < ranges.len() ==> #[trigger] ranges[j].start == ranges[j - 1].end
    &&& ranges.len() == 0 ==> row_count == 0
    &&& ranges.len() > 0 ==> ranges[0].start == 0 && ranges[ranges.len() - 1].end == row_count
}

proof fn lemma_rows_view_add(a: Seq<Vec<Value>>, b: Seq<Vec<Value>>)
    ensures
        rows_view(a + b) == rows_view(a) + rows_view(b),
{
    assert(rows_view(a + b) =~= rows_view(a) + rows_view(b));
}

/// Concatenates per-chunk filter outputs, in chunk order.
fn gather_kept<F: Fn(&Vec<Value>) -> bool>(
    rows: &Vec<Vec<Value>>,
    predicate: &F,
    ranges: Ghost<Seq<Range<usize>>>,
    per_chunk: Vec<Vec<Vec<Value>>>,
) -> (out: Vec<Vec<Value>>)
    requires
        chunks_tile(ranges@, rows@.len() as int),
        per_chunk@.len() == ranges@.len(),
        forall|j: int| 0 <= j < ranges@.len() ==> rows_view(#[trigger] per_chunk@[j]@) == rows_view(
            kept_rows(rows@.subrange(ranges@[j].start as int, ranges@[j].end as int), *predicate),
        ),
    ensures
        rows_view(out@) == rows_view(kept_rows(rows@, *predicate)),
{
    let mut chunks = per_chunk;
    let mut out: Vec<Vec<Value>> = Vec::new();
    let mut j: usize = 0;
    let ghost covered: int = 0;
    while j < chunks.len()
        invariant
            chunks_tile(ranges@, rows@.len() as int),
            chunks@.len() == ranges@.len(),
            j <= chunks@.len(),
            forall|k: int| j <= k < ranges@.len() ==> rows_view(#[trigger] chunks@[k]@) == rows_view(
                kept_rows(rows@.subrange(ranges@[k].start as int, ranges@[k].end as int), *predicate),
            ),
            covered == if j == 0 { 0 } else { ranges@[j - 1].end as int },
            0 <= covered <= rows@.len(),
            rows_view(out@) == kept_prefix(rows@, *predicate, covered),
        decreases chunks.len() - j,
    {
        let ghost r = ranges@[j as int];
        let ghost before = out@;
        let mut chunk: Vec<Vec<Value>> = Vec::new();
        chunks.set_and_swap(j, &mut chunk);
        proof {
            assert(r.start == covered);
            let whole = rows@.subrange(0, r.end as int);
            assert(rows@.subrange(0, covered) + rows@.subrange(covered, r.end as int) =~= whole);
            Seq::filter_distributes_over_add(
                rows@.subrange(0, covered),
                rows@.subrange(covered, r.end as int),
                |row: Vec<Value>| keeps(*predicate, row),
            );
            lemma_rows_view_add(before, chunk@);
            lemma_rows_view_add(
                kept_rows(rows@.subrange(0, covered), *predicate),
                kept_rows(rows@.subrange(covered, r.end as int), *predicate),
            );
        }
        out.append(&mut chunk);
        proof {
            assert forall|k: int| j + 1 <= k < ranges@.len() implies rows_view(#[trigger] chunks@[k]@)
                == rows_view(kept_rows(rows@.subrange(ranges@[k].start as int, ranges@[k].end as int), *predicate)) by {}
            covered = r.end as int;
        }
        j += 1;
    }
    proof {
        assert(rows@.subrange(0, rows@.len() as int) =~= rows@);
    }
    out
}

/// Concatenates per-chunk map outputs, in chunk order.
fn gather_mapped<F: Fn(&Vec<Value>) -> Vec<Value>>(
    rows: &Vec<Vec<Value>>,
    mapper: &F,
    ranges: Ghost<Seq<Range<usize>>>,
    per_chunk: Vec<Vec<Vec<Value>>>,
) -> (out: Vec<Vec<Value>>)
    requires
        chunks_tile(ranges@, rows@.len() as int),
        per_chunk@.len() == ranges@.len(),
        forall|j: int| 0 <= j < ranges@.len() ==> is_mapped(
            rows@.subrange(ranges@[j].start as int, ranges@[j].end as int),
            *mapper,
            #[trigger] per_chunk@[j]@,
        ),
    ensures
        is_mapped(rows@, *mapper, out@),
{
    let mut chunks = per_chunk;
    let mut out: Vec<Vec<Value>> = Vec::new();
    let mut j: usize = 0;
    while j < chunks.len()
        invariant
            chunks_tile(ranges@, rows@.len() as int),
            chunks@.len() == ranges@.len(),
            j <= chunks@.len(),
            forall|k: int| j <= k < ranges@.len() ==> is_mapped(
                rows@.subrange(ranges@[k].start as int, ranges@[k].end as int),
                *mapper,
                #[trigger] chunks@[k]@,
            ),
            out@.len() == if j == 0 { 0 } else { ranges@[j - 1].end as int },
            out@.len() <= rows@.len(),
            forall|k: int| 0 <= k < out@.len() ==> mapper.ensures((&rows@[k],), #[trigger] out@[k]),
        decreases chunks.len() - j,
    {
        let ghost r = ranges@[j as int];
        let ghost before = out@;
        let mut chunk: Vec<Vec<Value>> = Vec::new();
        chunks.set_and_swap(j, &mut chunk);
        let ghost part = rows@.subrange(r.start as int, r.end as int);
        let ghost taken = chunk@;
        proof {
            assert(r.start == before.len());
            assert(is_mapped(part, *mapper, taken));
        }
        out.append(&mut chunk);
        proof {
            assert forall|k: int| 0 <= k < out@.len() implies mapper.ensures((&rows@[k],), #[trigger] out@[k]) by {
                if k >= before.len() {
                    assert(part[k - before.len()] == rows@[k]);
                    assert(out@[k] == taken[k - before.len()]);
                } else {
                    assert(out@[k] == before[k]);
                }
            }
            assert forall|k: int| j + 1 <= k < ranges@.len() implies is_mapped(
                rows@.subrange(ranges@[k].start as int, ranges@[k].end as int),
                *mapper,
                #[trigger] chunks@[k]@,
            ) by {}
        }
        j += 1;
    }
    out
}

/// A configurable engine for chunked, throttled, parallel filter and map runs.
pub struct ExecutionEngine {
    pool: ThreadPool,
    opts: ExecutionOptions,
    observer: Option<Arc<dyn ExecutionObserver>>,
    metrics: Arc<ExecutionMetrics>,
}

impl ExecutionEngine {
    #[verifier::type_invariant]
    spec fn inv(self) -> bool {
        self.opts.is_valid()
    }

    /// The options the engine was built with.
    pub closed spec fn options(self) -> ExecutionOptions {
        self.opts
    }

    /// Whether an observer is attached.
    pub closed spec fn has_observer(self) -> bool {
        self.observer is Some
    }

    /// Builds an engine, with a worker pool of `num_threads` threads or, when
    /// that is `None`, of rayon's default size. Options with a zero size are a
    /// caller's configuration error: [`ExecutionOptions::validate`] reports
    /// them, and they are left out here. The worker threads may still fail to
    /// start, which only the thread pool decides.
    pub fn new(opts: ExecutionOptions) -> (r: Result<ExecutionEngine, ExecutionConfigError>)
        requires
            opts.is_valid(),
        ensures
            match r {
                Ok(e) => e.options() == opts && !e.has_observer(),
                Err(err) => err == ExecutionConfigError::ThreadPoolUnavailable,
            },
    {
        match build_pool(requested_threads(opts)) {
            Ok(pool) => Ok(
                ExecutionEngine {
                    pool,
                    opts,
                    observer: None,
                    metrics: Arc::new(ExecutionMetrics::new()),
                },
            ),
            Err(_) => Err(ExecutionConfigError::ThreadPoolUnavailable),
        }
    }

    /// The engine with `observer` attached in place of any earlier one.
    pub fn with_observer(self, observer: Arc<dyn ExecutionObserver>) -> (r: ExecutionEngine)
        ensures
            r.options() == self.options(),
            r.has_observer(),
    {
        proof {
            use_type_invariant(&self);
        }
        let attached = Some(observer);
        ExecutionEngine { observer: attached, ..self }
    }

    /// A shared handle to the engine's live metrics.
    pub fn metrics(&self) -> Arc<ExecutionMetrics> {
        Arc::clone(&self.metrics)
    }

    fn emit(&self, event: &ExecutionEvent) {
        match &self.observer {
            Some(obs) => obs.on_event(event),
            None => {},
        }
    }

    /// Resets the metrics and announces a run; returns its start time.
    fn start_run(&self) -> Instant {
        let start = Instant::now();
        self.metrics.begin_run();
        self.emit(&ExecutionEvent::RunStarted);
        start
    }

    /// Records the run's elapsed time and announces its end with the final metrics.
    fn finish_run(&self, start: &Instant) {
        let elapsed_ns = nanos_since(start);
        self.metrics.end_run(elapsed_ns);
        let snapshot = self.metrics.snapshot();
        self.emit(&ExecutionEvent::RunFinished { elapsed_ns, metrics: snapshot });
    }

    /// Takes a throttle permit for a chunk and announces the chunk. The permit
    /// goes back to the semaphore when it is dropped, also if the chunk's work
    /// unwinds.
    fn open_chunk<'s>(&self, sem: &'s Semaphore, range: &Range<usize>) -> Permit<'s>
        requires
            range.start <= range.end,
    {
        let (permit, waited_ns) = Permit::take(sem);
        if waited_ns > 0 {
            self.metrics.on_throttle_wait(waited_ns);
            self.emit(&ExecutionEvent::ThrottleWaited { duration_ns: waited_ns });
        }
        self.metrics.on_chunk_start();
        self.emit(&ExecutionEvent::ChunkStarted { start_row: range.start, row_count: range.end - range.start });
        permit
    }

    /// Announces the end of a chunk; the permit goes back as the call returns.
    fn close_chunk(&self, _permit: Permit<'_>, output_rows: usize) {
        self.emit(&ExecutionEvent::ChunkFinished { output_rows });
        self.metrics.on_chunk_end();
    }

    /// One filter chunk: the rows of `range` that `predicate` keeps.
    fn filter_chunk<F: Fn(&Vec<Value>) -> bool>(
        &self,
        rows: &Vec<Vec<Value>>,
        predicate: &F,
        sem: &Semaphore,
        range: Range<usize>,
    ) -> (out: Vec<Vec<Value>>)
        requires
            range.start <= range.end <= rows@.len(),
            is_pure_predicate(*predicate),
        ensures
            rows_view(out@) == rows_view(
                kept_rows(rows@.subrange(range.start as int, range.end as int), *predicate),
            ),
    {
        let permit = self.open_chunk(sem, &range);
        let ghost part = rows@.subrange(range.start as int, range.end as int);
        let mut out: Vec<Vec<Value>> = Vec::new();
        let mut i: usize = range.start;
        while i < range.end
            invariant
                range.start <= i <= range.end <= rows@.len(),
                part == rows@.subrange(range.start as int, range.end as int),
                is_pure_predicate(*predicate),
                rows_view(out@) == rows_view(kept_rows(part.subrange(0, i - range.start), *predicate)),
            decreases range.end - i,
        {
            self.metrics.on_row_processed();
            let keep = predicate(&rows[i]);
            proof {
                assert(part[i - range.start] == rows@[i as int]);
                lemma_kept_rows_step(part, *predicate, i - range.start);
                if keep {
                    assert(keeps(*predicate, rows@[i as int]));
                } else {
                    assert(!keeps(*predicate, rows@[i as int]));
                }
            }
            if keep {
                let copy = clone_row(&rows[i]);
                proof {
                    lemma_rows_view_push(out@, copy);
                    lemma_rows_view_push(kept_rows(part.subrange(0, i - range.start), *predicate), rows@[i as int]);
                }
                out.push(copy);
            }
            i += 1;
        }
        proof {
            assert(part.subrange(0, range.end - range.start) =~= part);
        }
        self.close_chunk(permit, out.len());
        out
    }

    /// One map chunk: `mapper` applied to each row of `range`.
    fn map_chunk<F: Fn(&Vec<Value>) -> Vec<Value>>(
        &self,
        rows: &Vec<Vec<Value>>,
        mapper: &F,
        sem: &Semaphore,
        range: Range<usize>,
    ) -> (out: Vec<Vec<Value>>)
        requires
            range.start <= range.end <= rows@.len(),
            is_pure_mapper(*mapper),
        ensures
            is_mapped(rows@.subrange(range.start as int, range.end as int), *mapper, out@),
    {
        let permit = self.open_chunk(sem, &range);
        let ghost part = rows@.subrange(range.start as int, range.end as int);
        let mut out: Vec<Vec<Value>> = Vec::new();
        let mut i: usize = range.start;
        while i < range.end
            invariant
                range.start <= i <= range.end <= rows@.len(),
                part == rows@.subrange(range.start as int, range.end as int),
                is_pure_mapper(*mapper),
                out@.len() == i - range.start,
                forall|k: int| 0 <= k < i - range.start ==> mapper.ensures((&part[k],), #[trigger] out@[k]),
            decreases range.end - i,
        {
            self.metrics.on_row_processed();
            let mapped = mapper(&rows[i]);
            proof {
                assert(part[i - range.start] == rows@[i as int]);
            }
            out.push(mapped);
            i += 1;
        }
        self.close_chunk(permit, out.len());
        out
    }

    /// Rows of `dataset` on which `predicate` answers `true`, in row order,
    /// computed chunk by chunk on the worker pool.
    pub fn filter_parallel<F: Fn(&Vec<Value>) -> bool + Send + Sync>(&self, dataset: &DataSet, predicate: F) -> (r: DataSet)
        requires
            is_pure_predicate(predicate),
        ensures
            r.schema.fields@ == dataset.schema.fields@,
            rows_view(r.rows@) == rows_view(kept_rows(dataset.rows@, predicate)),
    {
        proof {
            use_type_invariant(self);
        }
        let start = self.start_run();
        let sem = Semaphore::new(self.opts.max_in_flight_chunks);
        let ranges = chunk_ranges(dataset.rows.len(), self.opts.chunk_size);
        let ghost granges = ranges@;
        let rows = &dataset.rows;
        let pred = &predicate;
        let sem_ref = &sem;
        let work = |range: Range<usize>| -> (out: Vec<Vec<Value>>)
            requires
                range.start <= range.end <= rows@.len(),
                is_pure_predicate(pointee(pred)),
            ensures
                rows_view(out@) == rows_view(
                    kept_rows(rows@.subrange(range.start as int, range.end as int), pointee(pred)),
                ),
            { self.filter_chunk(rows, pred, sem_ref, range) };
        let per_chunk = par_map_on_pool(&self.pool, ranges, work);
        let kept = gather_kept(rows, pred, Ghost(granges), per_chunk);
        self.finish_run(&start);
        DataSet { schema: dataset.schema.clone(), rows: kept }
    }

    /// `mapper` applied to every row of `dataset`, in row order, computed chunk
    /// by chunk on the worker pool. Every row that `mapper` returns must have
    /// one value per schema field.
    pub fn map_parallel<F: Fn(&Vec<Value>) -> Vec<Value> + Send + Sync>(&self, dataset: &DataSet, mapper: F) -> (r: DataSet)
        requires
            is_pure_mapper(mapper),
            keeps_arity(mapper, dataset.rows@, dataset.schema.fields@.len()),
        ensures
            r.schema.fields@ == dataset.schema.fields@,
            is_mapped(dataset.rows@, mapper, r.rows@),
            forall|i: int| 0 <= i < r.rows@.len() ==> (#[trigger] r.rows@[i])@.len() == dataset.schema.fields@.len(),
    {
        proof {
            use_type_invariant(self);
        }
        let start = self.start_run();
        let sem = Semaphore::new(self.opts.max_in_flight_chunks);
        let ranges = chunk_ranges(dataset.rows.len(), self.opts.chunk_size);
        let ghost granges = ranges@;
        let rows = &dataset.rows;
        let map_fn = &mapper;
        let sem_ref = &sem;
        let work = |range: Range<usize>| -> (out: Vec<Vec<Value>>)
            requires
                range.start <= range.end <= rows@.len(),
                is_pure_mapper(pointee(map_fn)),
            ensures
                is_mapped(rows@.subrange(range.start as int, range.end as int), pointee(map_fn), out@),
            { self.map_chunk(rows, map_fn, sem_ref, range) };
        let per_chunk = par_map_on_pool(&self.pool, ranges, work);
        let mapped = gather_mapped(rows, map_fn, Ghost(granges), per_chunk);
        self.finish_run(&start);
        DataSet { schema: dataset.schema.clone(), rows: mapped }
    }

    /// [`reduce`] of `column` with `op`, bracketed by the run's events and
    /// metrics like every other run.
    pub fn reduce<C: Fn(ReduceOp, u64, u64) -> u64>(
        &self,
        dataset: &DataSet,
        column: &str,
        op: ReduceOp,
        float_combine: C,
    ) -> (r: Option<Value>)
        requires
            is_pure_combiner(float_combine),
            dataset.rows@.len() <= i64::MAX,
            forall|idx: int|
                #[trigger] is_first_named(dataset.schema.fields@, column@, idx) && op == ReduceOp::Sum
                    && dataset.schema.fields@[idx].data_type == DataType::Int64 ==> sums_fit(
                    int_cells(dataset.rows@, idx),
                ),
        ensures
            (forall|j: int| 0 <= j < dataset.schema.fields@.len() ==> dataset.schema.fields@[j].name@ != column@)
                ==> r is None,
            forall|idx: int| #[trigger]
                is_first_named(dataset.schema.fields@, column@, idx) ==> r == Some(
                    column_reduction(dataset.schema.fields@, dataset.rows@, idx, op, float_combine),
                ),
    {
        let start = self.start_run();
        self.emit(&ExecutionEvent::ReduceStarted { column: column.to_owned(), op });
        let out = reduce(dataset, column, op, float_combine);
        let result = match &out {
            Some(v) => Some(v.clone()),
            None => None,
        };
        self.emit(&ExecutionEvent::ReduceFinished { result });
        self.finish_run(&start);
        out
    }
}

} // verus!
