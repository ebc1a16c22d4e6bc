use std::sync::atomic::{AtomicUsize, Ordering};
use std::sync::{Arc, Mutex};
use std::time::{Duration, Instant};

use rust_data_processing::execution::metrics::MetricsCounters;
use rust_data_processing::execution::semaphore::{reported_wait, Permit, PermitPool, Semaphore};
use rust_data_processing::execution::{
    requested_threads, ExecutionConfigError, ExecutionEngine, ExecutionEvent, ExecutionMetrics,
    ExecutionObserver, ExecutionOptions,
};
use rust_data_processing::processing::ReduceOp;
use rust_data_processing::types::{DataSet, DataType, Field, Schema, Value};

fn dataset_of_n(n: usize) -> DataSet {
    let schema = Schema::new(vec![Field::new("id", DataType::Int64)]);
    let mut rows = Vec::with_capacity(n);
    for i in 0..n as i64 {
        rows.push(vec![Value::Int64(i)]);
    }
    DataSet::new(schema, rows)
}

fn engine(threads: usize, chunk_size: usize, max_in_flight_chunks: usize) -> ExecutionEngine {
    ExecutionEngine::new(ExecutionOptions {
        num_threads: Some(threads),
        chunk_size,
        max_in_flight_chunks,
    })
    .unwrap()
}

/// Busy-waits for `ms` milliseconds, to make a row slow.
fn spin_for(ms: u64) {
    let t = Instant::now();
    while t.elapsed() < Duration::from_millis(ms) {}
}

fn no_floats(_op: ReduceOp, a: u64, _b: u64) -> u64 {
    a
}

#[test]
fn map_parallel_runs_with_concurrency() {
    let ds = dataset_of_n(400);
    let engine = engine(4, 1, 4);

    let active = Arc::new(AtomicUsize::new(0));
    let max_active = Arc::new(AtomicUsize::new(0));

    let active2 = Arc::clone(&active);
    let max_active2 = Arc::clone(&max_active);

    let out = engine.map_parallel(&ds, move |row| {
        let now = active2.fetch_add(1, Ordering::SeqCst) + 1;
        // max = max(max, now)
        loop {
            let cur = max_active2.load(Ordering::SeqCst);
            if now <= cur {
                break;
            }
            if max_active2
                .compare_exchange(cur, now, Ordering::SeqCst, Ordering::SeqCst)
                .is_ok()
            {
                break;
            }
        }

        spin_for(2);
        let _ = active2.fetch_sub(1, Ordering::SeqCst);

        let v = match row[0] {
            Value::Int64(x) => x + 1,
            _ => 0,
        };
        vec![Value::Int64(v)]
    });

    assert_eq!(out.row_count(), ds.row_count());
    assert!(max_active.load(Ordering::SeqCst) > 1);
}

struct ConcurrencyObserver {
    active_chunks: AtomicUsize,
    max_active_chunks: AtomicUsize,
}

impl ConcurrencyObserver {
    fn new() -> Self {
        Self {
            active_chunks: AtomicUsize::new(0),
            max_active_chunks: AtomicUsize::new(0),
        }
    }
    fn max(&self) -> usize {
        self.max_active_chunks.load(Ordering::SeqCst)
    }
    fn bump_max(&self, now: usize) {
        loop {
            let cur = self.max_active_chunks.load(Ordering::SeqCst);
            if now <= cur {
                break;
            }
            if self
                .max_active_chunks
                .compare_exchange(cur, now, Ordering::SeqCst, Ordering::SeqCst)
                .is_ok()
            {
                break;
            }
        }
    }
}

impl ExecutionObserver for ConcurrencyObserver {
    fn on_event(&self, event: &ExecutionEvent) {
        match event {
            ExecutionEvent::ChunkStarted { .. } => {
                let now = self.active_chunks.fetch_add(1, Ordering::SeqCst) + 1;
                self.bump_max(now);
            }
            ExecutionEvent::ChunkFinished { .. } => {
                let _ = self.active_chunks.fetch_sub(1, Ordering::SeqCst);
            }
            _ => {}
        }
    }
}

#[test]
fn max_in_flight_chunks_throttles_chunk_concurrency() {
    let ds = dataset_of_n(100);
    let observer = Arc::new(ConcurrencyObserver::new());
    let obs_trait: Arc<dyn ExecutionObserver> = observer.clone();
    let engine = engine(4, 1, 1).with_observer(obs_trait);

    let out = engine.map_parallel(&ds, |_row| {
        // Make each chunk/row take long enough to overlap if not throttled.
        spin_for(1);
        vec![Value::Int64(1)]
    });

    assert_eq!(out.row_count(), ds.row_count());
    assert_eq!(observer.max(), 1);
}

#[test]
fn metrics_are_available_after_run() {
    let ds = dataset_of_n(60);
    let engine = engine(4, 1, 1);
    let metrics = engine.metrics();

    let out = engine.map_parallel(&ds, |_row| {
        spin_for(2);
        vec![Value::Int64(1)]
    });

    assert_eq!(out.row_count(), ds.row_count());

    let snap = metrics.snapshot();
    assert_eq!(snap.rows_processed, ds.row_count() as u64);
    assert_eq!(snap.chunks_started, ds.row_count() as u64);
    assert_eq!(snap.chunks_finished, ds.row_count() as u64);
    assert_eq!(snap.max_active_chunks, 1);
    assert!(snap.throttle_wait_ns > 0);
    assert!(snap.elapsed_ns.is_some());
}

#[test]
fn filter_parallel_keeps_even_values_in_order() {
    let ds = dataset_of_n(100);
    let engine = engine(4, 10, 2);
    let out = engine.filter_parallel(&ds, |row| matches!(row[0], Value::Int64(v) if v % 2 == 0));
    assert_eq!(out.row_count(), 50);
    let expected: Vec<Vec<Value>> = (0..50).map(|i| vec![Value::Int64(2 * i)]).collect();
    assert_eq!(out.rows, expected);
    assert_eq!(out.schema, ds.schema);
}

#[test]
fn serial_throttle_bounds_peak_and_elapsed() {
    let ds = dataset_of_n(10);
    let observer = Arc::new(ConcurrencyObserver::new());
    let obs_trait: Arc<dyn ExecutionObserver> = observer.clone();
    let engine = engine(8, 1, 1).with_observer(obs_trait);
    let metrics = engine.metrics();
    let t = Instant::now();
    let out = engine.map_parallel(&ds, |row| {
        spin_for(2);
        match row[0] {
            Value::Int64(v) => vec![Value::Int64(v + 1)],
            _ => vec![Value::Null],
        }
    });
    assert!(t.elapsed() >= Duration::from_millis(20));
    assert_eq!(observer.max(), 1);
    let expected: Vec<Vec<Value>> = (1..=10).map(|i| vec![Value::Int64(i)]).collect();
    assert_eq!(out.rows, expected);
    let snap = metrics.snapshot();
    assert_eq!(snap.max_active_chunks, 1);
    assert!(snap.elapsed_ns.unwrap() >= 20_000_000);
}

#[test]
fn map_parallel_matches_row_function_for_any_pool() {
    let ds = dataset_of_n(37);
    for threads in [1usize, 2, 5] {
        let engine = engine(threads, 4, 3);
        let out = engine.map_parallel(&ds, |row| match row[0] {
            Value::Int64(v) => vec![Value::Int64(v * v)],
            _ => vec![Value::Null],
        });
        for (i, row) in out.rows.iter().enumerate() {
            assert_eq!(row, &vec![Value::Int64((i * i) as i64)]);
        }
        assert_eq!(out.row_count(), 37);
    }
}

#[test]
fn repeated_parallel_runs_are_identical() {
    let ds = dataset_of_n(50);
    let engine = engine(3, 7, 2);
    let keep = |row: &Vec<Value>| matches!(row[0], Value::Int64(v) if v % 3 != 0);
    assert_eq!(engine.filter_parallel(&ds, keep), engine.filter_parallel(&ds, keep));
    let neg = |row: &Vec<Value>| match row[0] {
        Value::Int64(v) => vec![Value::Int64(-v)],
        _ => vec![Value::Null],
    };
    assert_eq!(engine.map_parallel(&ds, neg), engine.map_parallel(&ds, neg));
}

#[test]
fn parallel_runs_on_empty_table() {
    let ds = dataset_of_n(0);
    let engine = engine(2, 3, 1);
    let metrics = engine.metrics();
    let out = engine.filter_parallel(&ds, |_| true);
    assert_eq!(out.row_count(), 0);
    let snap = metrics.snapshot();
    assert_eq!(snap.chunks_started, 0);
    assert_eq!(snap.rows_processed, 0);
    assert!(snap.elapsed_ns.is_some());
}

#[test]
fn metrics_count_every_row_and_chunk_and_reset_per_run() {
    let ds = dataset_of_n(25);
    let engine = engine(4, 10, 2);
    let metrics = engine.metrics();
    let _ = engine.filter_parallel(&ds, |_| false);
    let first = metrics.snapshot();
    assert_eq!(first.run_id, 1);
    assert_eq!(first.rows_processed, 25);
    assert_eq!(first.chunks_started, 3);
    assert_eq!(first.chunks_finished, 3);
    assert!(first.max_active_chunks >= 1 && first.max_active_chunks <= 2);
    let _ = engine.filter_parallel(&dataset_of_n(4), |_| true);
    let second = metrics.snapshot();
    assert_eq!(second.run_id, 2);
    assert_eq!(second.rows_processed, 4);
    assert_eq!(second.chunks_started, 1);
}

struct Recorder {
    events: Mutex<Vec<ExecutionEvent>>,
}

impl ExecutionObserver for Recorder {
    fn on_event(&self, event: &ExecutionEvent) {
        self.events.lock().unwrap().push(event.clone());
    }
}

#[test]
fn reduce_run_emits_bracketed_events() {
    let ds = dataset_of_n(5);
    let recorder = Arc::new(Recorder { events: Mutex::new(Vec::new()) });
    let obs: Arc<dyn ExecutionObserver> = recorder.clone();
    let engine = engine(2, 2, 1).with_observer(obs);
    let out = engine.reduce(&ds, "id", ReduceOp::Sum, no_floats);
    assert_eq!(out, Some(Value::Int64(10)));
    let events = recorder.events.lock().unwrap();
    assert_eq!(events.len(), 4);
    assert!(matches!(events[0], ExecutionEvent::RunStarted));
    assert!(matches!(&events[1], ExecutionEvent::ReduceStarted { column, op: ReduceOp::Sum } if column == "id"));
    assert!(matches!(&events[2], ExecutionEvent::ReduceFinished { result: Some(Value::Int64(10)) }));
    assert!(matches!(&events[3], ExecutionEvent::RunFinished { metrics, .. } if metrics.elapsed_ns.is_some()));
    drop(events);
    assert_eq!(engine.reduce(&ds, "nope", ReduceOp::Count, no_floats), None);
}

#[test]
fn filter_run_emits_one_start_and_finish_per_chunk() {
    let ds = dataset_of_n(9);
    let recorder = Arc::new(Recorder { events: Mutex::new(Vec::new()) });
    let obs: Arc<dyn ExecutionObserver> = recorder.clone();
    let engine = engine(3, 4, 3).with_observer(obs);
    let _ = engine.filter_parallel(&ds, |row| matches!(row[0], Value::Int64(v) if v < 5));
    let events = recorder.events.lock().unwrap();
    assert!(matches!(events.first(), Some(ExecutionEvent::RunStarted)));
    assert!(matches!(events.last(), Some(ExecutionEvent::RunFinished { .. })));
    let mut starts: Vec<(usize, usize)> = events
        .iter()
        .filter_map(|e| match e {
            ExecutionEvent::ChunkStarted { start_row, row_count } => Some((*start_row, *row_count)),
            _ => None,
        })
        .collect();
    starts.sort();
    assert_eq!(starts, vec![(0, 4), (4, 4), (8, 1)]);
    let mut outputs: Vec<usize> = events
        .iter()
        .filter_map(|e| match e {
            ExecutionEvent::ChunkFinished { output_rows } => Some(*output_rows),
            _ => None,
        })
        .collect();
    outputs.sort();
    assert_eq!(outputs, vec![0, 1, 4]);
}

#[test]
fn engine_rejects_zero_sizes() {
    let opts = ExecutionOptions { num_threads: Some(2), chunk_size: 0, max_in_flight_chunks: 1 };
    assert_eq!(opts.validate(), Err(ExecutionConfigError::ZeroChunkSize));
    let opts = ExecutionOptions { num_threads: Some(0), chunk_size: 0, max_in_flight_chunks: 0 };
    assert_eq!(opts.validate(), Err(ExecutionConfigError::ZeroChunkSize));
    let opts = ExecutionOptions { num_threads: Some(2), chunk_size: 1, max_in_flight_chunks: 0 };
    assert_eq!(opts.validate(), Err(ExecutionConfigError::ZeroMaxInFlightChunks));
    let opts = ExecutionOptions { num_threads: Some(0), chunk_size: 1, max_in_flight_chunks: 1 };
    assert_eq!(opts.validate(), Err(ExecutionConfigError::ZeroThreads));
    let opts = ExecutionOptions { num_threads: None, chunk_size: 1, max_in_flight_chunks: 1 };
    assert_eq!(opts.validate(), Ok(()));
    assert!(ExecutionEngine::new(opts).is_ok());
}

#[test]
fn requested_threads_passes_the_count_through() {
    let opts = ExecutionOptions { num_threads: Some(3), chunk_size: 1, max_in_flight_chunks: 1 };
    assert_eq!(requested_threads(opts), 3);
    assert_eq!(requested_threads(ExecutionOptions { num_threads: None, ..opts }), 0);
}

#[test]
fn new_engine_metrics_start_at_zero() {
    let engine = engine(2, 4, 1);
    let snap = engine.metrics().snapshot();
    assert_eq!(snap.run_id, 0);
    assert_eq!(snap.elapsed_ns, None);
    assert_eq!(snap.rows_processed, 0);
    assert_eq!(snap.chunks_started, 0);
    assert_eq!(snap.chunks_finished, 0);
    assert_eq!(snap.throttle_wait_ns, 0);
    assert_eq!(snap.max_active_chunks, 0);
}

#[test]
fn metrics_updates_are_visible_in_snapshots() {
    let m = ExecutionMetrics::new();
    let s0 = m.snapshot();
    assert_eq!(s0.run_id, 0);
    assert_eq!(s0.elapsed_ns, None);
    m.begin_run();
    m.on_chunk_start();
    m.on_chunk_start();
    m.on_row_processed();
    m.on_chunk_end();
    m.on_chunk_start();
    m.on_throttle_wait(u64::MAX - 1);
    m.on_throttle_wait(5);
    let s = m.snapshot();
    assert_eq!(s.run_id, 1);
    assert_eq!(s.chunks_started, 3);
    assert_eq!(s.chunks_finished, 1);
    assert_eq!(s.rows_processed, 1);
    assert_eq!(s.max_active_chunks, 2);
    assert_eq!(s.throttle_wait_ns, u64::MAX);
    assert_eq!(s.elapsed_ns, None);
    m.end_run(42);
    assert_eq!(m.snapshot().elapsed_ns, Some(42));
    m.begin_run();
    let r = m.snapshot();
    assert_eq!(r.run_id, 2);
    assert_eq!(r.rows_processed, 0);
    assert_eq!(r.max_active_chunks, 0);
    assert_eq!(r.throttle_wait_ns, 0);
    assert_eq!(r.elapsed_ns, None);
}

#[test]
fn counters_transitions_are_exact() {
    let c = MetricsCounters::new().begun().chunk_started().chunk_finished().chunk_finished();
    assert_eq!(c.active_chunks, 0);
    assert_eq!(c.chunks_finished, 2);
    assert_eq!(c.max_active_chunks, 1);
    let s = c.ended(7).snapshot();
    assert_eq!(s.elapsed_ns, Some(7));
    assert_eq!(s.run_id, 1);
}

#[test]
fn permit_pool_never_exceeds_capacity() {
    let p = PermitPool::full(2);
    assert!(!p.is_exhausted());
    let p = p.taken().taken();
    assert!(p.is_exhausted());
    let p = p.returned().returned().returned();
    assert_eq!(p.available, 2);
    assert_eq!(p.capacity, 2);
}

#[test]
fn semaphore_hands_out_permits_and_takes_them_back() {
    let sem = Semaphore::new(2);
    assert_eq!(sem.acquire(), 0);
    assert_eq!(sem.acquire(), 0);
    sem.release();
    assert_eq!(sem.acquire(), 0);
    sem.release();
    sem.release();
    sem.release();
    assert_eq!(sem.acquire(), 0);
    assert_eq!(sem.acquire(), 0);
}

#[test]
fn dropped_permit_goes_back_to_the_semaphore() {
    let sem = Semaphore::new(1);
    {
        let (_permit, waited) = Permit::take(&sem);
        assert_eq!(waited, 0);
    }
    let (_again, waited) = Permit::take(&sem);
    assert_eq!(waited, 0);
}

#[test]
fn reported_wait_is_zero_without_blocking() {
    assert_eq!(reported_wait(false, 1234), 0);
    assert_eq!(reported_wait(true, 1234), 1234);
}
