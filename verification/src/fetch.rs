//! The per-segment fetch policy, as a state machine.
//!
//! Block and transaction datasets walk every block number of the segment
//! and issue one point query per block; a failed query is retried at the
//! same block, indefinitely, and a block the endpoint still reports as
//! pending is skipped without a record. The logs dataset issues one range
//! query for the whole segment, which is not retried; its failure is the
//! segment's failure. The caller performs the queries and feeds each
//! outcome back in as an event.

use crate::datasets::{Data, DataModel, Datasets, LogRecord};
use crate::error::SerpicoError;
use vstd::prelude::*;

verus! {

/// The outcome of one segment's fetch.
pub type FetchResult = Result<Data, SerpicoError>;

/// How a dataset kind is fetched.
pub enum FetchPolicy {
    /// One block-with-transaction-hashes point query per block number.
    PointBlocks,
    /// One block-with-full-transactions point query per block number.
    PointTransactions,
    /// A single unfiltered range query for the whole segment.
    RangeLogs,
    /// Nothing to query; the segment yields an empty dataset.
    Nothing,
}

/// The fetch policy of each dataset kind.
pub fn fetch_policy(kind: Datasets) -> (p: FetchPolicy)
    ensures
        p == (match kind {
            Datasets::Blocks => FetchPolicy::PointBlocks,
            Datasets::Transactions => FetchPolicy::PointTransactions,
            Datasets::Logs => FetchPolicy::RangeLogs,
            Datasets::Empty => FetchPolicy::Nothing,
        }),
{
    match kind {
        Datasets::Blocks => FetchPolicy::PointBlocks,
        Datasets::Transactions => FetchPolicy::PointTransactions,
        Datasets::Logs => FetchPolicy::RangeLogs,
        Datasets::Empty => FetchPolicy::Nothing,
    }
}

/// What one point query at the walker's current block produced.
pub enum PointEvent<T> {
    /// A finalized block: its records, in source order.
    Confirmed(Vec<T>),
    /// A block not yet finalized: skipped silently, no record.
    Pending,
    /// A failed query: the same block is asked again.
    Failed,
}

/// The walk over one inclusive segment of block numbers.
pub struct SegmentFetch<T> {
    /// The inclusive segment being fetched.
    pub segment: (u64, u64),
    /// The block the next point query must ask for.
    pub next_block: u64,
    /// Whether every block of the segment has been dealt with.
    pub finished: bool,
    /// All records gathered so far, in block order of arrival.
    pub records: Vec<T>,
}

impl<T> SegmentFetch<T> {
    pub open spec fn wf(self) -> bool {
        self.segment.0 <= self.next_block <= self.segment.1 && (self.finished
            ==> self.next_block == self.segment.1)
    }

    /// How the walk position moves in one non-failing step: on to the next
    /// block, or to the finished state at the segment's last block.
    pub open spec fn stepped(pre: Self, post: Self) -> bool {
        post.segment == pre.segment && if pre.next_block < pre.segment.1 {
            post.next_block == pre.next_block + 1 && !post.finished
        } else {
            post.next_block == pre.next_block && post.finished
        }
    }

    /// Starts the walk at the segment's first block.
    pub fn new(segment: (u64, u64)) -> (s: Self)
        requires
            segment.0 <= segment.1,
        ensures
            s.wf(),
            s.segment == segment,
            s.next_block == segment.0,
            !s.finished,
            s.records@ == Seq::<T>::empty(),
    {
        SegmentFetch { segment, next_block: segment.0, finished: false, records: Vec::new() }
    }

    /// The block number the next point query must ask for.
    pub fn current_block(&self) -> (b: u64)
        ensures
            b == self.next_block,
    {
        self.next_block
    }

    pub fn is_finished(&self) -> (r: bool)
        ensures
            r == self.finished,
    {
        self.finished
    }

    /// Feeds in the outcome of one point query at the current block. A
    /// failure leaves the walk exactly where it was — the same block is
    /// retried, with no cap and no backoff. A pending block is stepped
    /// over without a record. A confirmed block appends its records and
    /// steps on.
    pub fn on_point_event(&mut self, ev: PointEvent<T>)
        requires
            old(self).wf(),
            !old(self).finished,
        ensures
            final(self).wf(),
            match ev {
                PointEvent::Failed => *final(self) == *old(self),
                PointEvent::Pending => Self::stepped(*old(self), *final(self))
                    && final(self).records@ == old(self).records@,
                PointEvent::Confirmed(v) => Self::stepped(*old(self), *final(self))
                    && final(self).records@ == old(self).records@ + v@,
            },
    {
        match ev {
            PointEvent::Failed => {},
            PointEvent::Pending => {
                self.step();
            },
            PointEvent::Confirmed(mut v) => {
                self.records.append(&mut v);
                self.step();
            },
        }
    }

    fn step(&mut self)
        requires
            old(self).wf(),
            !old(self).finished,
        ensures
            final(self).wf(),
            Self::stepped(*old(self), *final(self)),
            final(self).records == old(self).records,
    {
        if self.next_block < self.segment.1 {
            self.next_block = self.next_block + 1;
        } else {
            self.finished = true;
        }
    }
}

/// The logs policy's single range query, turned into the segment's
/// outcome: the records on success, `ClientErr` on failure — never a
/// retry, never partial data.
pub fn logs_fetch_result(outcome: Result<Vec<LogRecord>, String>) -> (r: FetchResult)
    ensures
        match outcome {
            Ok(logs) => r is Ok && r->Ok_0@ == DataModel::Logs(logs@),
            Err(m) => match r {
                Err(SerpicoError::ClientErr(m2)) => m2@ == m@,
                _ => false,
            },
        },
{
    match outcome {
        Ok(v) => Ok(Data::Logs(v)),
        Err(m) => Err(SerpicoError::ClientErr(m)),
    }
}

} // verus!
