//! Metrics of thread pools. Durations are in microseconds.
use crate::metrics::{exponential_buckets, MetricDescription, MetricKind};
use vstd::prelude::*;

verus! {

/// Metrics of the scheduler.
pub struct SchedulerMetrics {
    /// Number of queries currently registered with the scheduler.
    pub queries: MetricDescription,
    pub dispatch_latency_secs: MetricDescription,
    pub rayon_pickup_latency_secs: MetricDescription,
    pub actor_lag_secs: MetricDescription,
}

/// Whether this describes a metric of thread pools.
pub open spec fn is_pool_metric(
    description: MetricDescription,
    kind: MetricKind,
    name: Seq<char>,
    help: Seq<char>,
    label_names: Seq<Seq<char>>,
    buckets: Seq<u64>,
) -> bool {
    description.describes(kind, name, help, "thread_pool"@, Seq::empty(), label_names, buckets)
}

/// From 25us to ~52s. The low end matters: dispatch overhead and the shortest tasks (`finalize`
/// runs in tens of microseconds) both live well below 1ms.
pub fn latency_buckets() -> (buckets: Vec<u64>)
    ensures
        buckets@ == crate::metrics::exponential_bounds(25, 2, 22),
{
    proof {
        reveal_with_fuel(crate::metrics::power, 23);
    }
    exponential_buckets(25, 2, 22)
}

/// From 1ms to ~32.768s.
pub fn wait_and_run_time_buckets() -> (buckets: Vec<u64>)
    ensures
        buckets@ == crate::metrics::exponential_bounds(1_000, 2, 16),
{
    proof {
        reveal_with_fuel(crate::metrics::power, 17);
    }
    exponential_buckets(1_000, 2, 16)
}

fn pool_metric(
    kind: MetricKind,
    name: &'static str,
    help: &'static str,
    label_names: Vec<&'static str>,
    buckets: Vec<u64>,
) -> (description: MetricDescription)
    ensures
        is_pool_metric(
            description,
            kind,
            name@,
            help@,
            crate::metrics::label_texts(label_names@),
            buckets@,
        ),
{
    let const_labels: Vec<(&'static str, &'static str)> = Vec::new();
    proof {
        assert(crate::metrics::label_pairs(const_labels@) =~= Seq::empty());
    }
    MetricDescription::new(kind, name, help, "thread_pool", const_labels, label_names, buckets)
}

fn tier_label() -> (labels: Vec<&'static str>)
    ensures
        crate::metrics::label_texts(labels@) == seq!["tier"@],
{
    let labels: Vec<&'static str> = vec!["tier"];
    proof {
        assert(crate::metrics::label_texts(labels@) =~= seq!["tier"@]);
    }
    labels
}

fn no_label() -> (labels: Vec<&'static str>)
    ensures
        crate::metrics::label_texts(labels@) == Seq::<Seq<char>>::empty(),
{
    let labels: Vec<&'static str> = Vec::new();
    proof {
        assert(crate::metrics::label_texts(labels@) =~= Seq::empty());
    }
    labels
}

impl Default for SchedulerMetrics {
    fn default() -> (metrics: SchedulerMetrics)
        ensures
            is_pool_metric(
                metrics.queries,
                MetricKind::Gauge,
                "scheduler_queries"@,
                "number of queries currently registered with the CPU scheduler"@,
                Seq::empty(),
                Seq::empty(),
            ),
            is_pool_metric(
                metrics.dispatch_latency_secs,
                MetricKind::Histogram,
                "scheduler_dispatch_latency_secs"@,
                "amount of time between a task being submitted to the CPU scheduler and the scheduler actor handing it over to rayon"@,
                seq!["tier"@],
                crate::metrics::exponential_bounds(25, 2, 22),
            ),
            is_pool_metric(
                metrics.rayon_pickup_latency_secs,
                MetricKind::Histogram,
                "scheduler_rayon_pickup_latency_secs"@,
                "amount of time between the scheduler actor spawning a task on rayon and a rayon worker starting to run it"@,
                Seq::empty(),
                crate::metrics::exponential_bounds(25, 2, 22),
            ),
            is_pool_metric(
                metrics.actor_lag_secs,
                MetricKind::Histogram,
                "scheduler_actor_lag_secs"@,
                "amount of time between a task being submitted to the CPU scheduler and the scheduler actor receiving it. Subtract from dispatch_latency_secs on the same tier to get the time the task then spent queued"@,
                seq!["tier"@],
                crate::metrics::exponential_bounds(25, 2, 22),
            ),
    {
        SchedulerMetrics {
            queries: pool_metric(
                MetricKind::Gauge,
                "scheduler_queries",
                "number of queries currently registered with the CPU scheduler",
                no_label(),
                Vec::new(),
            ),
            dispatch_latency_secs: pool_metric(
                MetricKind::Histogram,
                "scheduler_dispatch_latency_secs",
                "amount of time between a task being submitted to the CPU scheduler and the scheduler actor handing it over to rayon",
                tier_label(),
                latency_buckets(),
            ),
            rayon_pickup_latency_secs: pool_metric(
                MetricKind::Histogram,
                "scheduler_rayon_pickup_latency_secs",
                "amount of time between the scheduler actor spawning a task on rayon and a rayon worker starting to run it",
                no_label(),
                latency_buckets(),
            ),
            actor_lag_secs: pool_metric(
                MetricKind::Histogram,
                "scheduler_actor_lag_secs",
                "amount of time between a task being submitted to the CPU scheduler and the scheduler actor receiving it. Subtract from dispatch_latency_secs on the same tier to get the time the task then spent queued",
                tier_label(),
                latency_buckets(),
            ),
        }
    }
}

/// Metrics of the tasks of a thread pool.
pub struct ThreadPoolMetrics {
    pub ongoing_tasks: MetricDescription,
    pub pending_tasks: MetricDescription,
    pub queue_wait_time_secs: MetricDescription,
    pub run_time_secs: MetricDescription,
}

fn task_labels() -> (labels: Vec<&'static str>)
    ensures
        crate::metrics::label_texts(labels@) == seq!["pool"@, "caller"@, "cost_class"@],
{
    let labels: Vec<&'static str> = vec!["pool", "caller", "cost_class"];
    proof {
        assert(crate::metrics::label_texts(labels@) =~= seq!["pool"@, "caller"@, "cost_class"@]);
    }
    labels
}

impl ThreadPoolMetrics {
    /// Whether these are the metrics of a thread pool, with those buckets for wait and run times.
    pub open spec fn have_buckets(self, wait_buckets: Seq<u64>, run_buckets: Seq<u64>) -> bool {
        &&& is_pool_metric(
            self.ongoing_tasks,
            MetricKind::Gauge,
            "ongoing_tasks"@,
            "number of tasks being currently processed by threads in the thread pool"@,
            seq!["pool"@, "caller"@, "cost_class"@],
            Seq::empty(),
        )
        &&& is_pool_metric(
            self.pending_tasks,
            MetricKind::Gauge,
            "pending_tasks"@,
            "number of tasks waiting in the queue before being processed by the thread pool"@,
            seq!["pool"@, "caller"@, "cost_class"@],
            Seq::empty(),
        )
        &&& is_pool_metric(
            self.queue_wait_time_secs,
            MetricKind::Histogram,
            "queue_wait_time_secs"@,
            "amount of time a task waited in the queue before being picked up by a thread in the thread pool"@,
            seq!["pool"@, "caller"@, "cost_class"@],
            wait_buckets,
        )
        &&& is_pool_metric(
            self.run_time_secs,
            MetricKind::Histogram,
            "run_time_secs"@,
            "amount of time spent actually running a task on a thread pool worker, once it has been picked up from the queue"@,
            seq!["pool"@, "caller"@, "cost_class"@],
            run_buckets,
        )
    }

    /// The metrics of a thread pool, with those buckets for wait and run times.
    pub fn with_buckets(
        wait_buckets: Vec<u64>,
        run_buckets: Vec<u64>,
    ) -> (metrics: ThreadPoolMetrics)
        ensures
            metrics.have_buckets(wait_buckets@, run_buckets@),
    {
        ThreadPoolMetrics {
            ongoing_tasks: pool_metric(
                MetricKind::Gauge,
                "ongoing_tasks",
                "number of tasks being currently processed by threads in the thread pool",
                task_labels(),
                Vec::new(),
            ),
            pending_tasks: pool_metric(
                MetricKind::Gauge,
                "pending_tasks",
                "number of tasks waiting in the queue before being processed by the thread pool",
                task_labels(),
                Vec::new(),
            ),
            queue_wait_time_secs: pool_metric(
                MetricKind::Histogram,
                "queue_wait_time_secs",
                "amount of time a task waited in the queue before being picked up by a thread in the thread pool",
                task_labels(),
                wait_buckets,
            ),
            run_time_secs: pool_metric(
                MetricKind::Histogram,
                "run_time_secs",
                "amount of time spent actually running a task on a thread pool worker, once it has been picked up from the queue",
                task_labels(),
                run_buckets,
            ),
        }
    }

    /// The metrics of a pool whose tasks do not run for less than a millisecond.
    pub fn coarse() -> (metrics: ThreadPoolMetrics)
        ensures
            metrics.have_buckets(
                crate::metrics::exponential_bounds(1_000, 2, 16),
                crate::metrics::exponential_bounds(1_000, 2, 16),
            ),
    {
        ThreadPoolMetrics::with_buckets(wait_and_run_time_buckets(), wait_and_run_time_buckets())
    }
}

impl Default for ThreadPoolMetrics {
    fn default() -> (metrics: ThreadPoolMetrics)
        ensures
            metrics.have_buckets(
                crate::metrics::exponential_bounds(25, 2, 22),
                crate::metrics::exponential_bounds(25, 2, 22),
            ),
    {
        ThreadPoolMetrics::with_buckets(latency_buckets(), latency_buckets())
    }
}

/// The tasks of a pool are counted while they wait and while they run, and both times are measured,
/// each with its own buckets. All of these are told apart by pool, caller and cost class.
pub proof fn law_pool_metrics(
    metrics: ThreadPoolMetrics,
    wait_buckets: Seq<u64>,
    run_buckets: Seq<u64>,
    i: int,
)
    requires
        metrics.have_buckets(wait_buckets, run_buckets),
        0 <= i < 4,
    ensures
        metrics.ongoing_tasks.name@ == "ongoing_tasks"@,
        metrics.pending_tasks.name@ == "pending_tasks"@,
        metrics.queue_wait_time_secs.name@ == "queue_wait_time_secs"@,
        metrics.run_time_secs.name@ == "run_time_secs"@,
        metrics.ongoing_tasks.kind == MetricKind::Gauge,
        metrics.pending_tasks.kind == MetricKind::Gauge,
        metrics.queue_wait_time_secs.kind == MetricKind::Histogram,
        metrics.run_time_secs.kind == MetricKind::Histogram,
        metrics.ongoing_tasks.buckets@.len() == 0,
        metrics.pending_tasks.buckets@.len() == 0,
        metrics.queue_wait_time_secs.buckets@ == wait_buckets,
        metrics.run_time_secs.buckets@ == run_buckets,
        ({
            let description = if i == 0 {
                metrics.ongoing_tasks
            } else if i == 1 {
                metrics.pending_tasks
            } else if i == 2 {
                metrics.queue_wait_time_secs
            } else {
                metrics.run_time_secs
            };
            &&& description.subsystem@ == "thread_pool"@
            &&& description.const_labels@.len() == 0
            &&& description.label_names@.len() == 3
            &&& description.label_names@[0]@ == "pool"@
            &&& description.label_names@[1]@ == "caller"@
            &&& description.label_names@[2]@ == "cost_class"@
        }),
{
    let labels = seq!["pool"@, "caller"@, "cost_class"@];
    let description = if i == 0 {
        metrics.ongoing_tasks
    } else if i == 1 {
        metrics.pending_tasks
    } else if i == 2 {
        metrics.queue_wait_time_secs
    } else {
        metrics.run_time_secs
    };
    crate::metrics::law_description_has_its_attributes(
        description,
        description.kind,
        description.name@,
        description.help@,
        "thread_pool"@,
        Seq::empty(),
        labels,
        description.buckets@,
    );
    assert(description.label_names@[0]@ == labels[0]);
    assert(description.label_names@[1]@ == labels[1]);
    assert(description.label_names@[2]@ == labels[2]);
}

} // verus!
