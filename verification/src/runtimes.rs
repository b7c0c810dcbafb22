//! The asynchronous runtimes that actors run on, and their metrics.
use crate::metrics::{IntCounter, IntGauge, MetricDescription, MetricKind};
use crate::text;
use vstd::prelude::*;

verus! {

/// Describes which runtime an actor should run on.
#[derive(Clone, Copy, Debug, PartialEq, Eq, Hash, Structural)]
pub enum RuntimeType {
    /// The blocking runtime runs blocking actors.
    ///
    /// This runtime is only used as a nice thread pool, and should not be used to run io
    /// operations. Tasks are allowed to block for an arbitrary amount of time.
    Blocking,
    /// The non-blocking runtime is closer to what one would expect from a regular runtime.
    ///
    /// Tasks are expected to yield within 500 micros.
    NonBlocking,
}

/// How many threads each runtime has.
#[derive(Clone, Copy, Debug)]
pub struct RuntimesConfig {
    /// Number of worker threads allocated to the non-blocking runtime.
    pub num_threads_non_blocking: usize,
    /// Number of worker threads allocated to the blocking runtime.
    pub num_threads_blocking: usize,
}

/// [`num_cpus::get`]: the number of CPUs available. The crate documents that it is at least one.
#[verifier::external_body]
pub(crate) fn num_cpus() -> (count: usize)
    ensures
        count >= 1,
{
    num_cpus::get()
}

/// The threads that go to non-blocking tasks.
///
/// Non-blocking tasks are supposed to be io intensive, and not to require many threads. Blocking
/// actors, on the other hand, are cpu intensive. Almost all of the threads go to them.
pub open spec fn non_blocking_threads(num_cpus: usize) -> int {
    if num_cpus <= 6 {
        1
    } else {
        2
    }
}

/// The threads that go to blocking tasks: all those that are not set aside for non-blocking tasks.
/// With up to three CPUs there are not enough of them to set one aside.
pub open spec fn blocking_threads(num_cpus: usize) -> int {
    if num_cpus <= 3 {
        num_cpus as int
    } else {
        num_cpus - non_blocking_threads(num_cpus)
    }
}

impl RuntimesConfig {
    /// Whether this is the configuration for `num_cpus` CPUs.
    pub open spec fn is_for(self, num_cpus: usize) -> bool {
        &&& self.num_threads_non_blocking == non_blocking_threads(num_cpus)
        &&& self.num_threads_blocking == blocking_threads(num_cpus)
    }

    /// One thread for each runtime.
    pub fn light_for_tests() -> (config: RuntimesConfig)
        ensures
            config == (RuntimesConfig { num_threads_non_blocking: 1, num_threads_blocking: 1 }),
    {
        RuntimesConfig { num_threads_blocking: 1, num_threads_non_blocking: 1 }
    }

    /// Shares `num_cpus` threads out.
    pub fn with_num_cpus(num_cpus: usize) -> (config: RuntimesConfig)
        ensures
            config.is_for(num_cpus),
    {
        if num_cpus <= 3 {
            // We do not have enough vCPUs to allocate a full thread to non-blocking.
            RuntimesConfig { num_threads_non_blocking: 1, num_threads_blocking: num_cpus }
        } else if num_cpus <= 6 {
            RuntimesConfig { num_threads_non_blocking: 1, num_threads_blocking: num_cpus - 1 }
        } else {
            RuntimesConfig { num_threads_non_blocking: 2, num_threads_blocking: num_cpus - 2 }
        }
    }
}

impl Default for RuntimesConfig {
    /// The configuration for the CPUs of this machine.
    fn default() -> (config: RuntimesConfig)
        ensures
            exists|num_cpus: usize| num_cpus >= 1 && config.is_for(num_cpus),
            config.num_threads_non_blocking <= config.num_threads_blocking,
            config.num_threads_non_blocking <= 2,
    {
        let num_cpus: usize = num_cpus();
        RuntimesConfig::with_num_cpus(num_cpus)
    }
}

/// How a runtime is built.
#[derive(Debug, PartialEq)]
pub struct RuntimeSettings {
    pub num_threads: usize,
    /// The value of the label `runtime_type` on the runtime's metrics.
    pub label: &'static str,
    /// What the names of its threads begin with.
    pub thread_name_prefix: &'static str,
    /// Whether a task woken by another one goes to the end of the queue, where any thread can
    /// take it.
    pub disable_lifo_slot: bool,
    /// Whether every poll of a task is timed.
    pub poll_time_histogram: bool,
}

impl RuntimeSettings {
    /// Whether this describes the runtime with the given attributes.
    pub open spec fn describes(
        self,
        num_threads: usize,
        label: Seq<char>,
        thread_name_prefix: Seq<char>,
        disable_lifo_slot: bool,
        poll_time_histogram: bool,
    ) -> bool {
        &&& self.num_threads == num_threads
        &&& self.label@ == label
        &&& self.thread_name_prefix@ == thread_name_prefix
        &&& self.disable_lifo_slot == disable_lifo_slot
        &&& self.poll_time_histogram == poll_time_histogram
    }

    /// Returns the name of the thread `id`.
    pub fn thread_name(&self, id: usize) -> (name: String)
        ensures
            name@ == self.thread_name_prefix@ + "-"@ + text::decimal_digits(id as nat),
    {
        let mut name = text::concat(self.thread_name_prefix, "-");
        let id_text = text::decimal(id as u64);
        name.append(id_text.as_str());
        name
    }
}

/// The settings of the two runtimes.
#[derive(Debug, PartialEq)]
pub struct Runtimes {
    pub blocking: RuntimeSettings,
    pub non_blocking: RuntimeSettings,
}

impl Runtimes {
    /// The settings of one runtime.
    pub open spec fn settings(self, runtime_type: RuntimeType) -> RuntimeSettings {
        match runtime_type {
            RuntimeType::Blocking => self.blocking,
            RuntimeType::NonBlocking => self.non_blocking,
        }
    }

    /// Whether these are the runtimes that a configuration calls for. Only the blocking runtime
    /// goes without a LIFO slot.
    pub open spec fn start_from(
        self,
        config: RuntimesConfig,
        disable_lifo_slot: bool,
        poll_time_histogram: bool,
    ) -> bool {
        &&& self.blocking.describes(
            config.num_threads_blocking,
            "blocking"@,
            "blocking"@,
            disable_lifo_slot,
            poll_time_histogram,
        )
        &&& self.non_blocking.describes(
            config.num_threads_non_blocking,
            "non_blocking"@,
            "non-blocking"@,
            false,
            poll_time_histogram,
        )
    }
}

/// Returns the settings of the runtimes that a configuration calls for.
pub fn start_runtimes(
    config: RuntimesConfig,
    disable_lifo_slot: bool,
    poll_time_histogram: bool,
) -> (runtimes: Runtimes)
    ensures
        runtimes.start_from(config, disable_lifo_slot, poll_time_histogram),
{
    Runtimes {
        blocking: RuntimeSettings {
            num_threads: config.num_threads_blocking,
            label: "blocking",
            thread_name_prefix: "blocking",
            disable_lifo_slot,
            poll_time_histogram,
        },
        non_blocking: RuntimeSettings {
            num_threads: config.num_threads_non_blocking,
            label: "non_blocking",
            thread_name_prefix: "non-blocking",
            disable_lifo_slot: false,
            poll_time_histogram,
        },
    }
}

/// The runtimes of the process, once there are any.
pub struct RuntimeRegistry {
    pub runtimes: Option<Runtimes>,
}

impl RuntimeRegistry {
    /// No runtime yet.
    pub fn new() -> (registry: RuntimeRegistry)
        ensures
            registry.runtimes is None,
    {
        RuntimeRegistry { runtimes: None }
    }

    /// Returns the settings of a runtime, if the runtimes have been initialized.
    pub fn get_runtime(&self, runtime_type: RuntimeType) -> (settings: Option<&RuntimeSettings>)
        ensures
            settings is Some <==> self.runtimes is Some,
            settings is Some ==> *settings->0 == self.runtimes->0.settings(runtime_type),
    {
        match &self.runtimes {
            None => None,
            Some(runtimes) => match runtime_type {
                RuntimeType::Blocking => Some(&runtimes.blocking),
                RuntimeType::NonBlocking => Some(&runtimes.non_blocking),
            },
        }
    }
}

/// Sets the runtimes of the process up. The first call decides: later ones change nothing. Returns
/// whether the runtimes were set up by this call.
pub fn initialize_runtimes(
    registry: &mut RuntimeRegistry,
    runtimes_config: RuntimesConfig,
    disable_lifo_slot: bool,
    poll_time_histogram: bool,
) -> (initialized: bool)
    ensures
        initialized == (old(registry).runtimes is None),
        final(registry).runtimes is Some,
        old(registry).runtimes is Some ==> *final(registry) == *old(registry),
        old(registry).runtimes is None ==> final(registry).runtimes->0.start_from(
            runtimes_config,
            disable_lifo_slot,
            poll_time_histogram,
        ),
{
    match &registry.runtimes {
        Some(_) => false,
        None => {
            registry.runtimes = Some(
                start_runtimes(runtimes_config, disable_lifo_slot, poll_time_histogram),
            );
            true
        },
    }
}

/// The bounds of the poll time histogram: each bucket has its end, but for the last one, which is
/// unbounded.
pub open spec fn bucket_bounds(bucket_ends: Seq<Seq<char>>) -> Seq<Seq<char>> {
    Seq::new(
        bucket_ends.len(),
        |i: int|
            if i + 1 == bucket_ends.len() {
                "+Inf"@
            } else {
                bucket_ends[i]
            },
    )
}

/// The contents of some texts.
pub open spec fn texts(strings: Seq<String>) -> Seq<Seq<char>> {
    strings.map_values(|string: String| string@)
}

/// Returns the upper bounds of the buckets of a poll time histogram, as values of the label `le`,
/// given the formatted end of each bucket. Empty when the histogram is disabled.
pub fn poll_time_bucket_bounds(enabled: bool, bucket_ends: Vec<String>) -> (bounds: Vec<String>)
    ensures
        texts(bounds@) == if enabled {
            bucket_bounds(texts(bucket_ends@))
        } else {
            Seq::empty()
        },
{
    let mut bounds: Vec<String> = Vec::new();
    if enabled {
        for i in 0..bucket_ends.len()
            invariant
                bounds@.len() == i,
                forall|k: int|
                    0 <= k < i ==> #[trigger] bounds@[k]@ == bucket_bounds(
                        texts(bucket_ends@),
                    )[k],
        {
            if i + 1 == bucket_ends.len() {
                bounds.push("+Inf".to_owned());
            } else {
                bounds.push(bucket_ends[i].clone());
            }
        }
    }
    proof {
        if enabled {
            assert(texts(bounds@) =~= bucket_bounds(texts(bucket_ends@)));
        } else {
            assert(texts(bounds@) =~= Seq::empty());
        }
    }
    bounds
}

/// What a runtime did since it was observed last.
pub struct RuntimeMetrics {
    /// Tasks in the queues of the workers.
    pub total_local_queue_depth: usize,
    /// How long workers were busy.
    pub total_busy_duration_micros: u128,
    /// How often a task was polled.
    pub total_polls_count: u64,
    /// How many polls fell into each bucket of the poll time histogram.
    pub poll_time_histogram: Vec<u64>,
    pub workers_count: usize,
}

/// The sum of the first `n` numbers.
pub open spec fn prefix_sum(numbers: Seq<u64>, n: int) -> int
    decreases n,
{
    if n <= 0 {
        0
    } else {
        prefix_sum(numbers, n - 1) + numbers[n - 1]
    }
}

/// Counts the polls that completed within an upper bound. The count wraps around.
#[derive(Debug)]
pub struct BucketCounter {
    pub le: String,
    pub value: u64,
}

/// The metrics of a runtime.
#[derive(Debug)]
pub struct PrometheusRuntimeMetrics {
    pub scheduled_tasks: IntGauge,
    pub worker_busy_duration_microsecs_total: IntCounter,
    /// The ratio itself is not kept here.
    pub worker_busy_ratio: MetricDescription,
    /// Absent when the poll time histogram is disabled.
    pub poll_duration_seconds_bucket: Option<MetricDescription>,
    /// Cumulative poll duration buckets, ordered by increasing `le`. Empty when the poll time
    /// histogram is disabled.
    pub poll_duration_seconds_buckets: Vec<BucketCounter>,
    pub worker_polls_total: IntCounter,
    pub worker_threads: IntGauge,
}

/// Whether this describes a metric of the runtime with that label.
pub open spec fn is_runtime_metric(
    description: MetricDescription,
    kind: MetricKind,
    name: Seq<char>,
    help: Seq<char>,
    label: Seq<char>,
) -> bool {
    description.describes(
        kind,
        name,
        help,
        "runtime"@,
        seq![("runtime_type"@, label)],
        Seq::empty(),
        Seq::empty(),
    )
}

fn runtime_metric(
    kind: MetricKind,
    name: &'static str,
    help: &'static str,
    label: &'static str,
) -> (description: MetricDescription)
    ensures
        is_runtime_metric(description, kind, name@, help@, label@),
{
    let const_labels: Vec<(&'static str, &'static str)> = vec![("runtime_type", label)];
    let label_names: Vec<&'static str> = Vec::new();
    proof {
        assert(crate::metrics::label_pairs(const_labels@) =~= seq![("runtime_type"@, label@)]);
        assert(crate::metrics::label_texts(label_names@) =~= Seq::empty());
    }
    MetricDescription::new(kind, name, help, "runtime", const_labels, label_names, Vec::new())
}

impl PrometheusRuntimeMetrics {
    /// How many buckets of an observation there are counters for.
    pub open spec fn num_counted(self, runtime_metrics: RuntimeMetrics) -> int {
        if self.poll_duration_seconds_buckets@.len() <= runtime_metrics.poll_time_histogram@.len() {
            self.poll_duration_seconds_buckets@.len() as int
        } else {
            runtime_metrics.poll_time_histogram@.len() as int
        }
    }

    /// The bounds of the poll duration buckets.
    pub open spec fn bucket_labels(self) -> Seq<Seq<char>> {
        self.poll_duration_seconds_buckets@.map_values(|bucket: BucketCounter| bucket.le@)
    }

    /// The metrics of the runtime with that label, all at zero.
    pub fn new(label: &'static str, poll_time_bucket_bounds: &[String]) -> (metrics: Self)
        ensures
            is_runtime_metric(
                metrics.scheduled_tasks.description,
                MetricKind::Gauge,
                "tokio_scheduled_tasks"@,
                "The total number of tasks currently scheduled in workers' local queues."@,
                label@,
            ),
            metrics.scheduled_tasks.value == 0,
            is_runtime_metric(
                metrics.worker_busy_duration_microsecs_total.description,
                MetricKind::Counter,
                "tokio_worker_busy_duration_microsecs_total"@,
                "The total amount of time worker threads were busy."@,
                label@,
            ),
            metrics.worker_busy_duration_microsecs_total.value == 0,
            is_runtime_metric(
                metrics.worker_busy_ratio,
                MetricKind::FloatGauge,
                "tokio_worker_busy_ratio"@,
                "The ratio of time worker threads were busy since the last time runtime metrics were collected."@,
                label@,
            ),
            poll_time_bucket_bounds@.len() == 0 ==> metrics.poll_duration_seconds_bucket is None,
            poll_time_bucket_bounds@.len() > 0 ==> metrics.poll_duration_seconds_bucket is Some
                && metrics.poll_duration_seconds_bucket->0.describes(
                MetricKind::Counter,
                "tokio_poll_duration_seconds_bucket"@,
                "Cumulative number of task polls that completed within the bucket's upper bound `le`, in seconds."@,
                "runtime"@,
                seq![("runtime_type"@, label@)],
                seq!["le"@],
                Seq::empty(),
            ),
            metrics.bucket_labels() == texts(poll_time_bucket_bounds@),
            forall|i: int|
                0 <= i < poll_time_bucket_bounds@.len() ==> (
                #[trigger] metrics.poll_duration_seconds_buckets@[i]).value == 0,
            is_runtime_metric(
                metrics.worker_polls_total.description,
                MetricKind::Counter,
                "tokio_worker_polls_total"@,
                "The total number of times worker threads polled a task. Divide `tokio_worker_busy_duration_microsecs_total` by this to obtain the average poll duration."@,
                label@,
            ),
            metrics.worker_polls_total.value == 0,
            is_runtime_metric(
                metrics.worker_threads.description,
                MetricKind::Gauge,
                "tokio_worker_threads"@,
                "The number of worker threads used by the runtime."@,
                label@,
            ),
            metrics.worker_threads.value == 0,
    {
        let mut buckets: Vec<BucketCounter> = Vec::new();
        let mut bucket_description: Option<MetricDescription> = None;
        if poll_time_bucket_bounds.len() > 0 {
            let const_labels: Vec<(&'static str, &'static str)> = vec![("runtime_type", label)];
            let label_names: Vec<&'static str> = vec!["le"];
            proof {
                assert(crate::metrics::label_pairs(const_labels@) =~= seq![
                    ("runtime_type"@, label@),
                ]);
                assert(crate::metrics::label_texts(label_names@) =~= seq!["le"@]);
            }
            bucket_description = Some(
                MetricDescription::new(
                    MetricKind::Counter,
                    "tokio_poll_duration_seconds_bucket",
                    "Cumulative number of task polls that completed within the bucket's upper bound `le`, in seconds.",
                    "runtime",
                    const_labels,
                    label_names,
                    Vec::new(),
                ),
            );
            for i in 0..poll_time_bucket_bounds.len()
                invariant
                    buckets@.len() == i,
                    forall|k: int|
                        0 <= k < i ==> (#[trigger] buckets@[k]).le@ == poll_time_bucket_bounds@[k]@
                            && buckets@[k].value == 0,
            {
                buckets.push(BucketCounter { le: poll_time_bucket_bounds[i].clone(), value: 0 });
            }
        }
        proof {
            assert(buckets@.map_values(|bucket: BucketCounter| bucket.le@) =~= texts(
                poll_time_bucket_bounds@,
            ));
        }
        PrometheusRuntimeMetrics {
            scheduled_tasks: IntGauge::new(
                runtime_metric(
                    MetricKind::Gauge,
                    "tokio_scheduled_tasks",
                    "The total number of tasks currently scheduled in workers' local queues.",
                    label,
                ),
            ),
            worker_busy_duration_microsecs_total: IntCounter::new(
                runtime_metric(
                    MetricKind::Counter,
                    "tokio_worker_busy_duration_microsecs_total",
                    "The total amount of time worker threads were busy.",
                    label,
                ),
            ),
            worker_busy_ratio: runtime_metric(
                MetricKind::FloatGauge,
                "tokio_worker_busy_ratio",
                "The ratio of time worker threads were busy since the last time runtime metrics were collected.",
                label,
            ),
            poll_duration_seconds_bucket: bucket_description,
            poll_duration_seconds_buckets: buckets,
            worker_polls_total: IntCounter::new(
                runtime_metric(
                    MetricKind::Counter,
                    "tokio_worker_polls_total",
                    "The total number of times worker threads polled a task. Divide `tokio_worker_busy_duration_microsecs_total` by this to obtain the average poll duration.",
                    label,
                ),
            ),
            worker_threads: IntGauge::new(
                runtime_metric(
                    MetricKind::Gauge,
                    "tokio_worker_threads",
                    "The number of worker threads used by the runtime.",
                    label,
                ),
            ),
        }
    }

    /// Takes an observation in.
    ///
    /// An observation holds the count of each bucket. The buckets here are cumulative, so each one
    /// takes the sum of all buckets up to it.
    pub fn update(&mut self, runtime_metrics: &RuntimeMetrics)
        requires
            prefix_sum(
                runtime_metrics.poll_time_histogram@,
                old(self).num_counted(*runtime_metrics),
            ) <= u64::MAX,
        ensures
            final(self).scheduled_tasks == (IntGauge {
                description: old(self).scheduled_tasks.description,
                value: runtime_metrics.total_local_queue_depth as i64,
            }),
            final(self).worker_busy_duration_microsecs_total == (IntCounter {
                description: old(self).worker_busy_duration_microsecs_total.description,
                value: old(self).worker_busy_duration_microsecs_total.value.wrapping_add(
                    runtime_metrics.total_busy_duration_micros as u64,
                ),
            }),
            final(self).worker_busy_ratio == old(self).worker_busy_ratio,
            final(self).poll_duration_seconds_bucket == old(self).poll_duration_seconds_bucket,
            final(self).poll_duration_seconds_buckets@.len() == old(
                self,
            ).poll_duration_seconds_buckets@.len(),
            forall|i: int|
                0 <= i < old(self).poll_duration_seconds_buckets@.len() ==> {
                    let before = old(self).poll_duration_seconds_buckets@[i];
                    let after = #[trigger] final(self).poll_duration_seconds_buckets@[i];
                    &&& after.le == before.le
                    &&& after.value == if i < runtime_metrics.poll_time_histogram@.len() {
                        before.value.wrapping_add(
                            prefix_sum(runtime_metrics.poll_time_histogram@, i + 1) as u64,
                        )
                    } else {
                        before.value
                    }
                },
            final(self).worker_polls_total == (IntCounter {
                description: old(self).worker_polls_total.description,
                value: old(self).worker_polls_total.value.wrapping_add(
                    runtime_metrics.total_polls_count,
                ),
            }),
            final(self).worker_threads == (IntGauge {
                description: old(self).worker_threads.description,
                value: runtime_metrics.workers_count as i64,
            }),
    {
        self.scheduled_tasks.set(runtime_metrics.total_local_queue_depth as i64);
        self.worker_busy_duration_microsecs_total.inc_by(
            runtime_metrics.total_busy_duration_micros as u64,
        );
        self.worker_polls_total.inc_by(runtime_metrics.total_polls_count);
        self.worker_threads.set(runtime_metrics.workers_count as i64);
        let ghost before = self.poll_duration_seconds_buckets@;
        let ghost num_counted = self.num_counted(*runtime_metrics);
        let mut buckets: Vec<BucketCounter> = Vec::new();
        std::mem::swap(&mut buckets, &mut self.poll_duration_seconds_buckets);
        let mut cumulative_count: u64 = 0;
        let mut i: usize = 0;
        while i < buckets.len() && i < runtime_metrics.poll_time_histogram.len()
            invariant
                buckets@.len() == before.len(),
                i <= before.len(),
                i <= runtime_metrics.poll_time_histogram@.len(),
                cumulative_count == prefix_sum(runtime_metrics.poll_time_histogram@, i as int),
                num_counted == if before.len() <= runtime_metrics.poll_time_histogram@.len() {
                    before.len() as int
                } else {
                    runtime_metrics.poll_time_histogram@.len() as int
                },
                prefix_sum(runtime_metrics.poll_time_histogram@, num_counted) <= u64::MAX,
                forall|k: int|
                    0 <= k < before.len() ==> {
                        &&& (#[trigger] buckets@[k]).le == before[k].le
                        &&& buckets@[k].value == if k < i {
                            before[k].value.wrapping_add(
                                prefix_sum(runtime_metrics.poll_time_histogram@, k + 1) as u64,
                            )
                        } else {
                            before[k].value
                        }
                    },
            decreases buckets.len() - i,
        {
            proof {
                lemma_prefix_sum_increases(
                    runtime_metrics.poll_time_histogram@,
                    i + 1,
                    num_counted,
                );
            }
            cumulative_count = cumulative_count + runtime_metrics.poll_time_histogram[i];
            let bucket = &mut buckets[i];
            bucket.value = bucket.value.wrapping_add(cumulative_count);
            i = i + 1;
        }
        self.poll_duration_seconds_buckets = buckets;
    }
}

proof fn lemma_prefix_sum_increases(numbers: Seq<u64>, a: int, b: int)
    requires
        a <= b,
    ensures
        prefix_sum(numbers, a) <= prefix_sum(numbers, b),
    decreases b - a,
{
    if a < b {
        lemma_prefix_sum_increases(numbers, a, b - 1);
    }
}

/// With at least one CPU, the blocking runtime gets at least as many threads as the non-blocking
/// one, which gets no more than two.
pub proof fn law_blocking_tasks_get_most_threads(num_cpus: usize)
    requires
        num_cpus >= 1,
    ensures
        non_blocking_threads(num_cpus) <= blocking_threads(num_cpus),
        1 <= non_blocking_threads(num_cpus) <= 2,
{
}

/// No more threads are shared out than there are CPUs, once there are at least four of them.
pub proof fn law_threads_do_not_exceed_cpus(num_cpus: usize)
    requires
        num_cpus >= 4,
    ensures
        non_blocking_threads(num_cpus) + blocking_threads(num_cpus) == num_cpus,
{
}

/// Up to three CPUs, all of them go to blocking tasks, and non-blocking ones share one more thread.
/// Up to six, one is set aside for non-blocking tasks, and beyond that two.
pub proof fn law_threads_are_shared_out(config: RuntimesConfig, num_cpus: usize)
    requires
        config.is_for(num_cpus),
    ensures
        num_cpus <= 3 ==> config.num_threads_blocking == num_cpus && config.num_threads_non_blocking
            == 1,
        4 <= num_cpus <= 6 ==> config.num_threads_blocking == num_cpus - 1
            && config.num_threads_non_blocking == 1,
        num_cpus >= 7 ==> config.num_threads_blocking == num_cpus - 2
            && config.num_threads_non_blocking == 2,
{
}

/// Each runtime gets its threads, a label and thread names of its own. The LIFO slot is left to the
/// non-blocking runtime in any case, and both measure poll times or none.
pub proof fn law_runtimes_follow_the_config(
    runtimes: Runtimes,
    config: RuntimesConfig,
    disable_lifo_slot: bool,
    poll_time_histogram: bool,
)
    requires
        runtimes.start_from(config, disable_lifo_slot, poll_time_histogram),
    ensures
        runtimes.settings(RuntimeType::Blocking) == runtimes.blocking,
        runtimes.settings(RuntimeType::NonBlocking) == runtimes.non_blocking,
        runtimes.blocking.num_threads == config.num_threads_blocking,
        runtimes.non_blocking.num_threads == config.num_threads_non_blocking,
        runtimes.blocking.label@ == "blocking"@,
        runtimes.non_blocking.label@ == "non_blocking"@,
        runtimes.blocking.thread_name_prefix@ == "blocking"@,
        runtimes.non_blocking.thread_name_prefix@ == "non-blocking"@,
        runtimes.blocking.disable_lifo_slot == disable_lifo_slot,
        !runtimes.non_blocking.disable_lifo_slot,
        runtimes.blocking.poll_time_histogram == poll_time_histogram,
        runtimes.non_blocking.poll_time_histogram == poll_time_histogram,
{
}

/// Each bucket but the last one is bounded by its end, and the last one is not bounded.
pub proof fn law_last_bucket_is_unbounded(bucket_ends: Seq<Seq<char>>, i: int)
    requires
        0 <= i < bucket_ends.len(),
    ensures
        bucket_bounds(bucket_ends).len() == bucket_ends.len(),
        bucket_bounds(bucket_ends).last() == "+Inf"@,
        i < bucket_ends.len() - 1 ==> bucket_bounds(bucket_ends)[i] == bucket_ends[i],
{
}

/// The sum of a prefix grows by each number, from zero on.
pub proof fn law_each_number_is_added(numbers: Seq<u64>, n: int)
    requires
        0 <= n < numbers.len(),
    ensures
        prefix_sum(numbers, n + 1) - prefix_sum(numbers, n) == numbers[n],
        prefix_sum(numbers, 0) == 0,
{
}

/// A metric of a runtime is told apart by the type of the runtime alone. As many buckets of an
/// observation are counted as there are both counters and counts.
pub proof fn law_runtime_metrics_are_labelled(
    description: MetricDescription,
    kind: MetricKind,
    name: Seq<char>,
    help: Seq<char>,
    label: Seq<char>,
    metrics: PrometheusRuntimeMetrics,
    observed: RuntimeMetrics,
    i: int,
)
    ensures
        is_runtime_metric(description, kind, name, help, label) ==> {
            &&& description.kind == kind
            &&& description.name@ == name
            &&& description.help@ == help
            &&& description.subsystem@ == "runtime"@
            &&& description.label_names@.len() == 0
            &&& description.buckets@.len() == 0
            &&& description.const_labels@.len() == 1
            &&& description.const_labels@[0].0@ == "runtime_type"@
            &&& description.const_labels@[0].1@ == label
        },
        metrics.num_counted(observed) <= metrics.poll_duration_seconds_buckets@.len(),
        metrics.num_counted(observed) <= observed.poll_time_histogram@.len(),
        metrics.num_counted(observed) == metrics.poll_duration_seconds_buckets@.len()
            || metrics.num_counted(observed) == observed.poll_time_histogram@.len(),
        metrics.bucket_labels().len() == metrics.poll_duration_seconds_buckets@.len(),
        0 <= i < metrics.poll_duration_seconds_buckets@.len() ==> metrics.bucket_labels()[i]
            == metrics.poll_duration_seconds_buckets@[i].le@,
{
    if is_runtime_metric(description, kind, name, help, label) {
        let labels = seq![("runtime_type"@, label)];
        crate::metrics::law_description_has_its_attributes(
            description,
            kind,
            name,
            help,
            "runtime"@,
            labels,
            Seq::empty(),
            Seq::empty(),
        );
        assert(description.const_labels@[0].0@ == labels[0].0);
        assert(description.const_labels@[0].1@ == labels[0].1);
    }
}

} // verus!
