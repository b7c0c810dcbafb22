//! Thread pools that run CPU-intensive tasks, and what is measured of the tasks.
use crate::text;
use vstd::prelude::*;

pub mod metrics;
pub mod scheduler;

verus! {

/// A scheduled task panicked.
#[derive(Clone, Copy, Debug, PartialEq, Eq, Structural)]
pub struct Panicked;

impl Panicked {
    /// The error as a text.
    pub fn message(&self) -> (message: &'static str)
        ensures
            message@ == "scheduled task panicked"@,
    {
        "scheduled task panicked"
    }
}

/// What the spawner of a task gets. The worker sends the result of the task, unless it panics: the
/// channel is then closed with nothing sent.
pub fn task_outcome<R>(received: Option<R>) -> (outcome: Result<R, Panicked>)
    ensures
        outcome == match received {
            Some(result) => Ok::<R, Panicked>(result),
            None => Err(Panicked),
        },
{
    match received {
        Some(result) => Ok(result),
        None => Err(Panicked),
    }
}

/// How a thread pool is built.
#[derive(Clone, Copy, Debug)]
pub struct ThreadPoolSettings {
    pub name: &'static str,
    /// The number of threads, if it is not left to the thread pool library.
    pub num_threads: Option<usize>,
}

impl ThreadPoolSettings {
    /// A pool with that name.
    pub fn new(name: &'static str, num_threads: Option<usize>) -> (settings: ThreadPoolSettings)
        ensures
            settings.name@ == name@,
            settings.num_threads == num_threads,
    {
        ThreadPoolSettings { name, num_threads }
    }

    /// Returns the name of a thread.
    pub fn thread_name(&self, thread_id: usize) -> (name: String)
        ensures
            name@ == "quickwit-"@ + self.name@ + "-"@ + text::decimal_digits(thread_id as nat),
    {
        let mut name = text::concat("quickwit-", self.name);
        name.append("-");
        let id_text = text::decimal(thread_id as u64);
        name.append(id_text.as_str());
        name
    }

    /// The pool for small tasks, on a machine with that many CPUs: it has a third of them, and at
    /// least two threads.
    pub fn small_tasks_for(num_cpus: usize) -> (settings: ThreadPoolSettings)
        ensures
            settings.name@ == "small_tasks"@,
            settings.num_threads == Some(
                if num_cpus >= 6 {
                    num_cpus / 3
                } else {
                    2
                },
            ),
    {
        let third: usize = num_cpus / 3;
        let num_threads: usize = if third < 2 {
            2
        } else {
            third
        };
        ThreadPoolSettings::new("small_tasks", Some(num_threads))
    }

    /// The pool for small tasks, on this machine.
    pub fn small_tasks() -> (settings: ThreadPoolSettings)
        ensures
            settings.name@ == "small_tasks"@,
            settings.num_threads is Some,
            settings.num_threads->0 >= 2,
    {
        ThreadPoolSettings::small_tasks_for(crate::runtimes::num_cpus())
    }
}

/// What the metrics of a task are labelled with.
#[derive(Clone, Copy, Debug)]
pub struct TaskLabels {
    pub pool_name: &'static str,
    pub caller: &'static str,
    pub cost_class: &'static str,
}

impl TaskLabels {
    /// The labels of a task of the pool for small tasks.
    pub fn small_task() -> (labels: TaskLabels)
        ensures
            labels.pool_name@ == "small_tasks"@,
            labels.caller@ == "unknown"@,
            labels.cost_class@ == "NA"@,
    {
        TaskLabels { pool_name: "small_tasks", caller: "unknown", cost_class: "NA" }
    }
}

/// A change to one of the metrics of a thread pool. Durations are in nanoseconds.
#[derive(Clone, Copy, Debug, PartialEq, Eq, Structural)]
pub enum TaskMetricUpdate {
    /// A task was queued.
    PendingIncremented,
    /// A task left the queue.
    PendingDecremented,
    /// A task had been in the queue for that long.
    QueueWaited(u64),
    /// A task started to run.
    OngoingIncremented,
    /// A task finished running.
    OngoingDecremented,
    /// A task had been running for that long.
    Ran(u64),
}

/// The time from `start` to `now`, in nanoseconds.
pub open spec fn elapsed(start: u64, now: u64) -> u64 {
    if now >= start {
        (now - start) as u64
    } else {
        0
    }
}

fn elapsed_between(start: u64, now: u64) -> (nanos: u64)
    ensures
        nanos == elapsed(start, now),
{
    if now >= start {
        now - start
    } else {
        0
    }
}

/// A task submitted to a thread pool, while it waits in the queue.
pub struct QueuedTask {
    pub labels: TaskLabels,
    pub queued_at: u64,
}

impl QueuedTask {
    /// Must be called when submitting the task, not once a worker picks it up, for the queue wait
    /// time to be measured correctly.
    pub fn new(labels: TaskLabels, now: u64) -> (queued: (QueuedTask, Vec<TaskMetricUpdate>))
        ensures
            queued.0 == (QueuedTask { labels, queued_at: now }),
            queued.1@ == seq![TaskMetricUpdate::PendingIncremented],
    {
        (QueuedTask { labels, queued_at: now }, vec![TaskMetricUpdate::PendingIncremented])
    }

    /// A worker picks the task up and runs it.
    pub fn start(self, now: u64) -> (started: (RunningTaskGuard, Vec<TaskMetricUpdate>))
        ensures
            started.0 == (RunningTaskGuard { labels: self.labels, started_at: now }),
            started.1@ == seq![
                TaskMetricUpdate::PendingDecremented,
                TaskMetricUpdate::QueueWaited(elapsed(self.queued_at, now)),
                TaskMetricUpdate::OngoingIncremented,
            ],
    {
        let waited: u64 = elapsed_between(self.queued_at, now);
        (
            RunningTaskGuard { labels: self.labels, started_at: now },
            vec![
                TaskMetricUpdate::PendingDecremented,
                TaskMetricUpdate::QueueWaited(waited),
                TaskMetricUpdate::OngoingIncremented,
            ],
        )
    }

    /// The task is cancelled before it runs. The time spent queued is recorded, but no run time.
    pub fn cancel(self, now: u64) -> (updates: Vec<TaskMetricUpdate>)
        ensures
            updates@ == seq![
                TaskMetricUpdate::PendingDecremented,
                TaskMetricUpdate::QueueWaited(elapsed(self.queued_at, now)),
            ],
    {
        let waited: u64 = elapsed_between(self.queued_at, now);
        vec![TaskMetricUpdate::PendingDecremented, TaskMetricUpdate::QueueWaited(waited)]
    }

    /// A worker picks the task up. It is not run if nobody is interested in its result any more.
    pub fn pick_up(self, receiver_closed: bool, now: u64) -> (picked: (
        Option<RunningTaskGuard>,
        Vec<TaskMetricUpdate>,
    ))
        ensures
            picked.0 == if receiver_closed {
                None
            } else {
                Some(RunningTaskGuard { labels: self.labels, started_at: now })
            },
            picked.1@ == if receiver_closed {
                seq![
                    TaskMetricUpdate::PendingDecremented,
                    TaskMetricUpdate::QueueWaited(elapsed(self.queued_at, now)),
                ]
            } else {
                seq![
                    TaskMetricUpdate::PendingDecremented,
                    TaskMetricUpdate::QueueWaited(elapsed(self.queued_at, now)),
                    TaskMetricUpdate::OngoingIncremented,
                ]
            },
    {
        if receiver_closed {
            (None, self.cancel(now))
        } else {
            let (running, updates) = self.start(now);
            (Some(running), updates)
        }
    }
}

/// A task that is running.
pub struct RunningTaskGuard {
    pub labels: TaskLabels,
    pub started_at: u64,
}

impl RunningTaskGuard {
    /// The task returned or panicked. The run time is recorded.
    pub fn finish(self, now: u64) -> (updates: Vec<TaskMetricUpdate>)
        ensures
            updates@ == seq![
                TaskMetricUpdate::OngoingDecremented,
                TaskMetricUpdate::Ran(elapsed(self.started_at, now)),
            ],
    {
        let ran: u64 = elapsed_between(self.started_at, now);
        vec![TaskMetricUpdate::OngoingDecremented, TaskMetricUpdate::Ran(ran)]
    }
}

/// By how much updates change the number of pending tasks.
pub open spec fn pending_change(updates: Seq<TaskMetricUpdate>) -> int
    decreases updates.len(),
{
    if updates.len() == 0 {
        0
    } else {
        pending_change(updates.drop_last()) + match updates.last() {
            TaskMetricUpdate::PendingIncremented => 1int,
            TaskMetricUpdate::PendingDecremented => -1int,
            _ => 0int,
        }
    }
}

/// By how much updates change the number of ongoing tasks.
pub open spec fn ongoing_change(updates: Seq<TaskMetricUpdate>) -> int
    decreases updates.len(),
{
    if updates.len() == 0 {
        0
    } else {
        ongoing_change(updates.drop_last()) + match updates.last() {
            TaskMetricUpdate::OngoingIncremented => 1int,
            TaskMetricUpdate::OngoingDecremented => -1int,
            _ => 0int,
        }
    }
}

/// The wait times that updates record, in order.
pub open spec fn recorded_waits(updates: Seq<TaskMetricUpdate>) -> Seq<TaskMetricUpdate> {
    updates.filter(|update: TaskMetricUpdate| update is QueueWaited)
}

/// The run times that updates record, in order.
pub open spec fn recorded_runs(updates: Seq<TaskMetricUpdate>) -> Seq<TaskMetricUpdate> {
    updates.filter(|update: TaskMetricUpdate| update is Ran)
}

/// A task that ran leaves no trace in the numbers of pending and ongoing tasks. One wait time and
/// one run time have been recorded.
pub proof fn law_completed_task_is_recorded_once(queued_at: u64, started_at: u64, finished_at: u64)
    ensures
        ({
            let updates = seq![TaskMetricUpdate::PendingIncremented] + seq![
                TaskMetricUpdate::PendingDecremented,
                TaskMetricUpdate::QueueWaited(elapsed(queued_at, started_at)),
                TaskMetricUpdate::OngoingIncremented,
            ] + seq![
                TaskMetricUpdate::OngoingDecremented,
                TaskMetricUpdate::Ran(elapsed(started_at, finished_at)),
            ];
            &&& pending_change(updates) == 0
            &&& ongoing_change(updates) == 0
            &&& recorded_waits(updates) == seq![
                TaskMetricUpdate::QueueWaited(elapsed(queued_at, started_at)),
            ]
            &&& recorded_runs(updates) == seq![
                TaskMetricUpdate::Ran(elapsed(started_at, finished_at)),
            ]
        }),
{
    let waited = TaskMetricUpdate::QueueWaited(elapsed(queued_at, started_at));
    let ran = TaskMetricUpdate::Ran(elapsed(started_at, finished_at));
    let empty = Seq::<TaskMetricUpdate>::empty();
    let one = empty.push(TaskMetricUpdate::PendingIncremented);
    let two = one.push(TaskMetricUpdate::PendingDecremented);
    let three = two.push(waited);
    let four = three.push(TaskMetricUpdate::OngoingIncremented);
    let five = four.push(TaskMetricUpdate::OngoingDecremented);
    let six = five.push(ran);
    lemma_changes_of_push(empty, TaskMetricUpdate::PendingIncremented);
    lemma_changes_of_push(one, TaskMetricUpdate::PendingDecremented);
    lemma_changes_of_push(two, waited);
    lemma_changes_of_push(three, TaskMetricUpdate::OngoingIncremented);
    lemma_changes_of_push(four, TaskMetricUpdate::OngoingDecremented);
    lemma_changes_of_push(five, ran);
    assert(seq![TaskMetricUpdate::PendingIncremented] + seq![
        TaskMetricUpdate::PendingDecremented,
        waited,
        TaskMetricUpdate::OngoingIncremented,
    ] + seq![TaskMetricUpdate::OngoingDecremented, ran] =~= six);
    reveal(Seq::filter);
    assert(recorded_waits(six) =~= seq![waited]);
    assert(recorded_runs(six) =~= seq![ran]);
}

/// A task that was cancelled before it ran leaves no trace in the numbers of pending and ongoing
/// tasks. One wait time has been recorded, and no run time.
pub proof fn law_cancelled_task_is_recorded_once(queued_at: u64, cancelled_at: u64)
    ensures
        ({
            let updates = seq![TaskMetricUpdate::PendingIncremented] + seq![
                TaskMetricUpdate::PendingDecremented,
                TaskMetricUpdate::QueueWaited(elapsed(queued_at, cancelled_at)),
            ];
            &&& pending_change(updates) == 0
            &&& ongoing_change(updates) == 0
            &&& recorded_waits(updates) == seq![
                TaskMetricUpdate::QueueWaited(elapsed(queued_at, cancelled_at)),
            ]
            &&& recorded_runs(updates) == Seq::<TaskMetricUpdate>::empty()
        }),
{
    let waited = TaskMetricUpdate::QueueWaited(elapsed(queued_at, cancelled_at));
    let empty = Seq::<TaskMetricUpdate>::empty();
    let one = empty.push(TaskMetricUpdate::PendingIncremented);
    let two = one.push(TaskMetricUpdate::PendingDecremented);
    let three = two.push(waited);
    lemma_changes_of_push(empty, TaskMetricUpdate::PendingIncremented);
    lemma_changes_of_push(one, TaskMetricUpdate::PendingDecremented);
    lemma_changes_of_push(two, waited);
    assert(seq![TaskMetricUpdate::PendingIncremented] + seq![
        TaskMetricUpdate::PendingDecremented,
        waited,
    ] =~= three);
    reveal(Seq::filter);
    assert(recorded_waits(three) =~= seq![waited]);
    assert(recorded_runs(three) =~= empty);
}

proof fn lemma_changes_of_push(updates: Seq<TaskMetricUpdate>, update: TaskMetricUpdate)
    ensures
        pending_change(updates.push(update)) == pending_change(updates) + match update {
            TaskMetricUpdate::PendingIncremented => 1int,
            TaskMetricUpdate::PendingDecremented => -1int,
            _ => 0int,
        },
        ongoing_change(updates.push(update)) == ongoing_change(updates) + match update {
            TaskMetricUpdate::OngoingIncremented => 1int,
            TaskMetricUpdate::OngoingDecremented => -1int,
            _ => 0int,
        },
        recorded_waits(updates.push(update)) == if update is QueueWaited {
            recorded_waits(updates).push(update)
        } else {
            recorded_waits(updates)
        },
        recorded_runs(updates.push(update)) == if update is Ran {
            recorded_runs(updates).push(update)
        } else {
            recorded_runs(updates)
        },
{
    reveal(Seq::filter);
    assert(updates.push(update).drop_last() =~= updates);
    assert(updates.push(update).last() == update);
}

/// The time that is recorded is the one that leads from the start to now, if the clock went forward.
pub proof fn law_recorded_time_has_passed(start: u64, now: u64)
    ensures
        start <= now ==> start + elapsed(start, now) == now,
        start > now ==> elapsed(start, now) == 0,
{
}

} // verus!
