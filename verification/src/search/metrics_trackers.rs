//! Accounting of root and leaf searches.
//!
//! A tracker follows a search until it ends, answered or not, and then tells what to record. Times
//! are nanoseconds of a monotonic clock.
use vstd::prelude::*;

verus! {

/// The step of a root search.
#[derive(Clone, Copy, Debug, PartialEq, Eq, Structural)]
pub enum RootSearchMetricsStep {
    Plan,
    Exec { num_targeted_splits: usize },
}

/// What to record about a root search: the status is the label of a counter, of a histogram of
/// durations, and of a histogram of targeted splits.
#[derive(Clone, Copy, Debug)]
pub struct RootSearchRecord {
    pub status: &'static str,
    pub num_targeted_splits: usize,
    pub elapsed_nanos: u64,
}

/// Tracks the plan or the execution of a root search.
pub struct RootSearchMetricsFuture<F> {
    pub inner: F,
    pub start: u64,
    pub step: RootSearchMetricsStep,
    pub is_success: Option<bool>,
}

/// The status to record for a root search, and the number of splits that it targeted.
///
/// Nothing is recorded for a plan that succeeded: it is a partial success, the actual one is
/// recorded for the execution.
pub open spec fn root_status(step: RootSearchMetricsStep, is_success: Option<bool>) -> Option<
    (Seq<char>, usize),
> {
    match (step, is_success) {
        (RootSearchMetricsStep::Plan, Some(true)) => None,
        (RootSearchMetricsStep::Plan, Some(false)) => Some(("plan-error"@, 0)),
        (RootSearchMetricsStep::Plan, None) => Some(("plan-cancelled"@, 0)),
        (RootSearchMetricsStep::Exec { num_targeted_splits }, Some(true)) => Some(
            ("success"@, num_targeted_splits),
        ),
        (RootSearchMetricsStep::Exec { num_targeted_splits }, Some(false)) => Some(
            ("error"@, num_targeted_splits),
        ),
        (RootSearchMetricsStep::Exec { num_targeted_splits }, None) => Some(
            ("cancelled"@, num_targeted_splits),
        ),
    }
}

/// The time from `start` to `now`.
pub open spec fn elapsed(start: u64, now: u64) -> int {
    if now >= start {
        now - start
    } else {
        0
    }
}

impl<F> RootSearchMetricsFuture<F> {
    /// Takes note that the search has been answered.
    pub fn on_ready(&mut self, is_ok: bool)
        ensures
            *final(self) == (RootSearchMetricsFuture { is_success: Some(is_ok), ..*old(self) }),
    {
        self.is_success = Some(is_ok);
    }

    /// Ends the search, answered or not, at time `now`. Returns what to record, if anything.
    pub fn finish(self, now: u64) -> (record: Option<RootSearchRecord>)
        ensures
            match root_status(self.step, self.is_success) {
                Some((status, num_targeted_splits)) => {
                    &&& record matches Some(record)
                    &&& record.status@ == status
                    &&& record.num_targeted_splits == num_targeted_splits
                    &&& record.elapsed_nanos == elapsed(self.start, now)
                },
                None => record is None,
            },
    {
        let (num_targeted_splits, status): (usize, &'static str) = match (
            self.step,
            self.is_success,
        ) {
            (RootSearchMetricsStep::Plan, Some(true)) => {
                return None;
            },
            (RootSearchMetricsStep::Plan, Some(false)) => (0, "plan-error"),
            (RootSearchMetricsStep::Plan, None) => (0, "plan-cancelled"),
            (RootSearchMetricsStep::Exec { num_targeted_splits }, Some(true)) => (
                num_targeted_splits,
                "success",
            ),
            (RootSearchMetricsStep::Exec { num_targeted_splits }, Some(false)) => (
                num_targeted_splits,
                "error",
            ),
            (RootSearchMetricsStep::Exec { num_targeted_splits }, None) => (
                num_targeted_splits,
                "cancelled",
            ),
        };
        let elapsed_nanos: u64 = now.saturating_sub(self.start);
        Some(RootSearchRecord { status, num_targeted_splits, elapsed_nanos })
    }
}

/// What to record about a leaf search: the status and the queue are the labels of a counter, of a
/// histogram of durations, and of a histogram of targeted splits.
#[derive(Clone, Copy, Debug)]
pub struct LeafSearchRecord {
    pub status: &'static str,
    pub queue: &'static str,
    pub targeted_splits: usize,
    pub elapsed_nanos: u64,
}

/// Tracks a leaf search.
pub struct LeafSearchMetricsFuture<F> {
    pub inner: F,
    pub start: u64,
    pub targeted_splits: usize,
    pub status: Option<&'static str>,
    pub is_broad_search: bool,
}

impl<F> LeafSearchMetricsFuture<F> {
    /// Takes note that the search has been answered: with the number of splits that failed, or with
    /// an error.
    pub fn on_ready<E>(&mut self, num_failed_splits: Result<usize, E>)
        ensures
            *final(self) == (LeafSearchMetricsFuture { status: final(self).status, ..*old(self) }),
            final(self).status matches Some(status) && status@ == match num_failed_splits {
                Ok(num_failed_splits) => if num_failed_splits > 0 {
                    "partial-success"@
                } else {
                    "success"@
                },
                Err(_) => "error"@,
            },
    {
        self.status = match num_failed_splits {
            Ok(num_failed_splits) => if num_failed_splits > 0 {
                Some("partial-success")
            } else {
                Some("success")
            },
            Err(_) => Some("error"),
        };
    }

    /// Ends the search, answered or not, at time `now`. Returns what to record.
    pub fn finish(self, now: u64) -> (record: LeafSearchRecord)
        ensures
            record.status@ == match self.status {
                Some(status) => status@,
                None => "cancelled"@,
            },
            record.queue@ == if self.is_broad_search {
                "secondary"@
            } else {
                "primary"@
            },
            record.targeted_splits == self.targeted_splits,
            record.elapsed_nanos == elapsed(self.start, now),
    {
        let queue = if self.is_broad_search {
            "secondary"
        } else {
            "primary"
        };
        let status = match self.status {
            Some(status) => status,
            None => "cancelled",
        };
        let elapsed_nanos: u64 = now.saturating_sub(self.start);
        LeafSearchRecord { status, queue, targeted_splits: self.targeted_splits, elapsed_nanos }
    }
}

/// A search is recorded once: nothing for a plan that succeeded, as its execution is recorded. What is
/// recorded tells how it ended, a plan apart from an execution, and how many splits an execution
/// targeted. The time recorded is the one that has passed.
pub proof fn law_search_is_recorded_once(
    is_success: Option<bool>,
    num_targeted_splits: usize,
    start: u64,
    now: u64,
)
    ensures
        ({
            let plan = root_status(RootSearchMetricsStep::Plan, is_success);
            let exec = root_status(RootSearchMetricsStep::Exec { num_targeted_splits }, is_success);
            let ending = if is_success == Some(true) {
                "success"@
            } else if is_success == Some(false) {
                "error"@
            } else {
                "cancelled"@
            };
            &&& exec == Some((ending, num_targeted_splits))
            &&& plan is None <==> is_success == Some(true)
            &&& is_success == Some(false) ==> plan == Some(("plan-error"@, 0usize))
            &&& is_success is None ==> plan == Some(("plan-cancelled"@, 0usize))
        }),
        start <= now ==> start + elapsed(start, now) == now,
        start > now ==> elapsed(start, now) == 0,
{
}

} // verus!
