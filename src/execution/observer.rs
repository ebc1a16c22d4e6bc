//! Lifecycle events of a run and the observer interface that receives them.
use crate::execution::metrics::ExecutionMetricsSnapshot;
use crate::processing::ReduceOp;
use crate::types::Value;
use vstd::prelude::*;

verus! {

/// An event in the life of a run. Durations are in nanoseconds.
#[derive(Debug, Clone)]
pub enum ExecutionEvent {
    /// A run began.
    RunStarted,
    /// A chunk waited this long for a throttle permit.
    ThrottleWaited { duration_ns: u64 },
    /// A chunk of `row_count` rows starting at `start_row` began.
    ChunkStarted { start_row: usize, row_count: usize },
    /// A chunk finished with `output_rows` rows of output.
    ChunkFinished { output_rows: usize },
    /// A reduction of `column` with `op` began.
    ReduceStarted { column: String, op: ReduceOp },
    /// A reduction finished with `result`.
    ReduceFinished { result: Option<Value> },
    /// A run finished after `elapsed_ns`, with the final metrics.
    RunFinished { elapsed_ns: u64, metrics: ExecutionMetricsSnapshot },
}

/// Receives the events of the engine's runs, one call per event, possibly
/// from several worker threads at once.
pub trait ExecutionObserver: Send + Sync {
    /// Called once for each event.
    fn on_event(&self, event: &ExecutionEvent);
}

} // verus!
