//! The timed bulk-insert benchmark behind the `DatabaseTest` command: a
//! fixed number of sequential single-row inserts, timed by wall clock. The
//! statements run outside the library; the count, the order of decisions
//! and the shape of the reply are fixed here, and no partial run ever
//! yields a response.

use vstd::prelude::*;
use crate::message::Response;

verus! {

/// How many single-row insert statements one benchmark run issues.
pub const BENCHMARK_INSERTS: u32 = 10000;

/// Why a benchmark run produced no response.
#[derive(Debug, PartialEq, Eq, Structural, Clone, Copy)]
pub enum DispatchError {
    /// A statement failed, so the run was aborted; the connection is
    /// dropped without a response and no partial count is reported.
    BenchmarkIncomplete,
}

/// Progress of one benchmark run.
#[derive(Debug, PartialEq, Eq, Structural, Clone, Copy)]
pub struct Benchmark {
    /// Insert statements that have completed successfully.
    pub completed: u32,
}

/// What the benchmark loop must do next.
#[derive(Debug, PartialEq, Eq, Structural, Clone, Copy)]
pub enum BenchmarkStep {
    /// Issue the next insert statement.
    Insert,
    /// Every insert succeeded: stop the clock and compose the reply.
    Finished,
}

impl Benchmark {
    /// A fresh run: nothing inserted yet.
    pub fn start() -> (b: Benchmark)
        ensures
            b.completed == 0,
    {
        Benchmark { completed: 0 }
    }

    /// Keep issuing inserts until every one of the fixed count succeeded.
    pub fn next_step(&self) -> (s: BenchmarkStep)
        ensures
            (s == BenchmarkStep::Insert) == (self.completed < BENCHMARK_INSERTS),
            (s == BenchmarkStep::Finished) == (self.completed >= BENCHMARK_INSERTS),
    {
        if self.completed < BENCHMARK_INSERTS {
            BenchmarkStep::Insert
        } else {
            BenchmarkStep::Finished
        }
    }

    /// Record that one insert statement succeeded.
    pub fn record_success(&mut self)
        requires
            old(self).completed < BENCHMARK_INSERTS,
        ensures
            final(self).completed == old(self).completed + 1,
    {
        self.completed = self.completed + 1;
    }

    /// The reply owed for this run: the elapsed milliseconds, and only when
    /// every insert succeeded — an aborted run yields an error, never a
    /// partial response.
    pub fn finish(&self, elapsed_ms: u64) -> (r: Result<Response, DispatchError>)
        ensures
            self.completed == BENCHMARK_INSERTS ==> r == Ok::<Response, DispatchError>(
                Response::DatabaseTestResponse(elapsed_ms),
            ),
            self.completed != BENCHMARK_INSERTS ==> r == Err::<Response, DispatchError>(
                DispatchError::BenchmarkIncomplete,
            ),
    {
        if self.completed == BENCHMARK_INSERTS {
            Ok(Response::DatabaseTestResponse(elapsed_ms))
        } else {
            Err(DispatchError::BenchmarkIncomplete)
        }
    }
}

} // verus!
