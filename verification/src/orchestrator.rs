//! Bookkeeping for the bounded-concurrency fetch pool.
//!
//! One task is created per pending segment; at most `max_concurrent` are
//! ever running at once. The driver asks to start a task only while a
//! slot is free, reports every finished task's outcome — success or
//! failure alike — and collects all outcomes only after every task has
//! finished. One task's failure neither stops other tasks nor discards
//! their results.

use crate::fetch::FetchResult;
use vstd::prelude::*;

verus! {

/// The scheduler state of one run: how many tasks exist, how many have
/// started, how many are running now, and every finished task's outcome.
pub struct Orchestrator {
    /// The concurrency bound: the size of the slot pool.
    pub max_concurrent: usize,
    /// One task per pending segment.
    pub n_tasks: usize,
    /// Tasks started so far (running or finished).
    pub started: usize,
    /// Tasks running right now.
    pub active: usize,
    /// The outcome of every finished task, in finish order.
    pub results: Vec<FetchResult>,
}

impl Orchestrator {
    pub open spec fn wf(self) -> bool {
        &&& 1 <= self.max_concurrent
        &&& self.active <= self.max_concurrent
        &&& self.active <= self.started <= self.n_tasks
        &&& self.results@.len() == self.started - self.active
    }

    pub fn new(max_concurrent: usize, n_tasks: usize) -> (o: Self)
        requires
            1 <= max_concurrent,
        ensures
            o.wf(),
            o.max_concurrent == max_concurrent,
            o.n_tasks == n_tasks,
            o.started == 0,
            o.active == 0,
            o.results@ == Seq::<FetchResult>::empty(),
    {
        Orchestrator { max_concurrent, n_tasks, started: 0, active: 0, results: Vec::new() }
    }

    /// Whether a task may start now: one is left and a slot is free.
    pub fn can_start(&self) -> (r: bool)
        ensures
            r == (self.started < self.n_tasks && self.active < self.max_concurrent),
    {
        self.started < self.n_tasks && self.active < self.max_concurrent
    }

    /// Takes a slot for the next task. Only allowed while a slot is free,
    /// so the number of running tasks never exceeds the bound.
    pub fn start_task(&mut self)
        requires
            old(self).wf(),
            old(self).started < old(self).n_tasks,
            old(self).active < old(self).max_concurrent,
        ensures
            final(self).wf(),
            final(self).max_concurrent == old(self).max_concurrent,
            final(self).n_tasks == old(self).n_tasks,
            final(self).started == old(self).started + 1,
            final(self).active == old(self).active + 1,
            final(self).results == old(self).results,
            final(self).active <= final(self).max_concurrent,
    {
        self.started = self.started + 1;
        self.active = self.active + 1;
    }

    /// Releases the finished task's slot and records its outcome,
    /// whichever way it went: the slot is freed on success and on failure
    /// alike, and a failure is kept alongside its siblings' successes.
    pub fn finish_task(&mut self, outcome: FetchResult)
        requires
            old(self).wf(),
            old(self).active >= 1,
        ensures
            final(self).wf(),
            final(self).max_concurrent == old(self).max_concurrent,
            final(self).n_tasks == old(self).n_tasks,
            final(self).started == old(self).started,
            final(self).active == old(self).active - 1,
            final(self).results@ == old(self).results@.push(outcome),
    {
        self.active = self.active - 1;
        self.results.push(outcome);
    }

    /// Whether every task has finished.
    pub fn all_done(&self) -> (r: bool)
        ensures
            r == (self.started == self.n_tasks && self.active == 0),
    {
        self.started == self.n_tasks && self.active == 0
    }

    /// Hands out every task's outcome, once all of them have finished:
    /// exactly one outcome per task.
    pub fn into_results(self) -> (r: Vec<FetchResult>)
        requires
            self.wf(),
            self.started == self.n_tasks,
            self.active == 0,
        ensures
            r == self.results,
            r@.len() == self.n_tasks,
    {
        self.results
    }
}

/// The concurrency bound: in every well-formed scheduler state, no more
/// tasks are running than the slot pool holds.
pub proof fn lemma_concurrency_bound(o: Orchestrator)
    requires
        o.wf(),
    ensures
        o.active <= o.max_concurrent,
{
}

} // verus!
