//! Descriptions of metrics.
//!
//! The bounds of histograms are integers, in the unit that each description names.
use vstd::prelude::*;

verus! {

/// What a metric measures.
#[derive(Clone, Copy, Debug, PartialEq, Eq, Structural)]
pub enum MetricKind {
    /// A count that only grows.
    Counter,
    /// A value that goes up and down.
    Gauge,
    /// A ratio that goes up and down.
    FloatGauge,
    /// A distribution over buckets, whose bounds are in microseconds.
    Histogram,
}

/// How a metric is registered.
#[derive(Debug)]
pub struct MetricDescription {
    pub kind: MetricKind,
    pub name: &'static str,
    pub help: &'static str,
    pub subsystem: &'static str,
    /// Labels with a fixed value.
    pub const_labels: Vec<(&'static str, &'static str)>,
    /// Labels whose values come with each observation.
    pub label_names: Vec<&'static str>,
    /// Upper bounds of the buckets of a histogram.
    pub buckets: Vec<u64>,
}

/// The contents of some texts.
pub open spec fn label_texts(labels: Seq<&'static str>) -> Seq<Seq<char>> {
    labels.map_values(|label: &'static str| label@)
}

/// The contents of some pairs of texts.
pub open spec fn label_pairs(labels: Seq<(&'static str, &'static str)>) -> Seq<(Seq<char>, Seq<char>)> {
    labels.map_values(|label: (&'static str, &'static str)| (label.0@, label.1@))
}

impl MetricDescription {
    /// Whether this describes the metric with the given attributes.
    pub open spec fn describes(
        self,
        kind: MetricKind,
        name: Seq<char>,
        help: Seq<char>,
        subsystem: Seq<char>,
        const_labels: Seq<(Seq<char>, Seq<char>)>,
        label_names: Seq<Seq<char>>,
        buckets: Seq<u64>,
    ) -> bool {
        &&& self.kind == kind
        &&& self.name@ == name
        &&& self.help@ == help
        &&& self.subsystem@ == subsystem
        &&& label_pairs(self.const_labels@) == const_labels
        &&& label_texts(self.label_names@) == label_names
        &&& self.buckets@ == buckets
    }

    /// A metric with the given attributes.
    pub fn new(
        kind: MetricKind,
        name: &'static str,
        help: &'static str,
        subsystem: &'static str,
        const_labels: Vec<(&'static str, &'static str)>,
        label_names: Vec<&'static str>,
        buckets: Vec<u64>,
    ) -> (description: MetricDescription)
        ensures
            description.describes(
                kind,
                name@,
                help@,
                subsystem@,
                label_pairs(const_labels@),
                label_texts(label_names@),
                buckets@,
            ),
    {
        MetricDescription { kind, name, help, subsystem, const_labels, label_names, buckets }
    }

    /// A metric without labels.
    pub fn plain(
        kind: MetricKind,
        name: &'static str,
        help: &'static str,
        subsystem: &'static str,
        buckets: Vec<u64>,
    ) -> (description: MetricDescription)
        ensures
            description.describes(
                kind,
                name@,
                help@,
                subsystem@,
                Seq::empty(),
                Seq::empty(),
                buckets@,
            ),
    {
        let const_labels: Vec<(&'static str, &'static str)> = Vec::new();
        let label_names: Vec<&'static str> = Vec::new();
        proof {
            assert(label_pairs(const_labels@) =~= Seq::empty());
            assert(label_texts(label_names@) =~= Seq::empty());
        }
        MetricDescription::new(kind, name, help, subsystem, const_labels, label_names, buckets)
    }
}

/// `base` to the power of `exponent`.
pub open spec fn power(base: nat, exponent: nat) -> nat
    decreases exponent,
{
    if exponent == 0 {
        1
    } else {
        power(base, (exponent - 1) as nat) * base
    }
}

/// The bounds `start`, `start * factor`, `start * factor^2`, and so on.
pub open spec fn exponential_bounds(start: u64, factor: u64, count: nat) -> Seq<u64> {
    Seq::new(count, |i: int| (start * power(factor as nat, i as nat)) as u64)
}

/// Returns `count` bounds, each of which is the previous one times `factor`.
pub fn exponential_buckets(start: u64, factor: u64, count: usize) -> (buckets: Vec<u64>)
    requires
        factor >= 1,
        start * power(factor as nat, count as nat) <= u64::MAX,
    ensures
        buckets@ == exponential_bounds(start, factor, count as nat),
{
    let mut buckets: Vec<u64> = Vec::new();
    let mut bound: u64 = start;
    proof {
        assert(start * 1 == start);
    }
    for i in 0..count
        invariant
            factor >= 1,
            start * power(factor as nat, count as nat) <= u64::MAX,
            bound == start * power(factor as nat, i as nat),
            buckets@ == exponential_bounds(start, factor, i as nat),
    {
        buckets.push(bound);
        proof {
            lemma_power_increases(factor as nat, (i + 1) as nat, count as nat);
            let p = power(factor as nat, i as nat) as int;
            let q = power(factor as nat, (i + 1) as nat) as int;
            let r = power(factor as nat, count as nat) as int;
            assert(q == p * factor);
            assert(bound * factor == start * q && start * q <= start * r) by (nonlinear_arith)
                requires
                    bound == start * p,
                    q == p * factor,
                    q <= r,
                    start >= 0,
            ;
        }
        bound = bound * factor;
    }
    proof {
        assert(buckets@ =~= exponential_bounds(start, factor, count as nat));
    }
    buckets
}

proof fn lemma_power_increases(base: nat, a: nat, b: nat)
    requires
        base >= 1,
        a <= b,
    ensures
        power(base, a) <= power(base, b),
    decreases b,
{
    if a < b {
        lemma_power_increases(base, a, (b - 1) as nat);
        let p = power(base, (b - 1) as nat);
        assert(p <= p * base) by (nonlinear_arith)
            requires
                base >= 1,
        ;
    }
}

/// A count that only grows. It wraps around.
#[derive(Debug)]
pub struct IntCounter {
    pub description: MetricDescription,
    pub value: u64,
}

impl IntCounter {
    /// A counter at zero.
    pub fn new(description: MetricDescription) -> (counter: IntCounter)
        ensures
            counter == (IntCounter { description, value: 0 }),
    {
        IntCounter { description, value: 0 }
    }

    /// Adds `amount` to the count.
    pub fn inc_by(&mut self, amount: u64)
        ensures
            final(self).description == old(self).description,
            final(self).value == old(self).value.wrapping_add(amount),
    {
        self.value = self.value.wrapping_add(amount);
    }
}

/// A value that goes up and down.
#[derive(Debug)]
pub struct IntGauge {
    pub description: MetricDescription,
    pub value: i64,
}

impl IntGauge {
    /// A gauge at zero.
    pub fn new(description: MetricDescription) -> (gauge: IntGauge)
        ensures
            gauge == (IntGauge { description, value: 0 }),
    {
        IntGauge { description, value: 0 }
    }

    /// Replaces the value.
    pub fn set(&mut self, value: i64)
        ensures
            final(self).description == old(self).description,
            final(self).value == value,
    {
        self.value = value;
    }
}

/// Metrics of the command line interface.
pub struct CliMetrics {
    pub thread_unpark_duration_microseconds: MetricDescription,
    pub thread_unpark_cpu_time_microseconds_total: MetricDescription,
}

impl Default for CliMetrics {
    fn default() -> (metrics: CliMetrics)
        ensures
            metrics.thread_unpark_duration_microseconds.describes(
                MetricKind::Histogram,
                "thread_unpark_duration_microseconds"@,
                "Duration for which a thread of the main tokio runtime is unparked."@,
                "cli"@,
                Seq::empty(),
                Seq::empty(),
                exponential_bounds(5, 5, 5),
            ),
            metrics.thread_unpark_cpu_time_microseconds_total.describes(
                MetricKind::Counter,
                "thread_unpark_cpu_time_microseconds_total"@,
                "CPU time consumed by threads of the main tokio runtime while unparked. Compare with `thread_unpark_duration_microseconds_sum` (wall time over the same intervals): the gap is time spent runnable but descheduled (CPU starvation, CFS throttling) or blocked in the kernel."@,
                "cli"@,
                Seq::empty(),
                Seq::empty(),
                Seq::empty(),
            ),
    {
        proof {
            reveal_with_fuel(power, 6);
        }
        CliMetrics {
            thread_unpark_duration_microseconds: MetricDescription::plain(
                MetricKind::Histogram,
                "thread_unpark_duration_microseconds",
                "Duration for which a thread of the main tokio runtime is unparked.",
                "cli",
                exponential_buckets(5, 5, 5),
            ),
            thread_unpark_cpu_time_microseconds_total: MetricDescription::plain(
                MetricKind::Counter,
                "thread_unpark_cpu_time_microseconds_total",
                "CPU time consumed by threads of the main tokio runtime while unparked. Compare with `thread_unpark_duration_microseconds_sum` (wall time over the same intervals): the gap is time spent runnable but descheduled (CPU starvation, CFS throttling) or blocked in the kernel.",
                "cli",
                Vec::new(),
            ),
        }
    }
}

/// There are as many bounds as asked for. The first one is the start, and each other one the factor
/// times the one before.
pub proof fn law_bounds_grow_by_the_factor(start: u64, factor: u64, count: nat, i: int)
    requires
        factor >= 1,
        start * power(factor as nat, count) <= u64::MAX,
        0 <= i < count,
    ensures
        exponential_bounds(start, factor, count).len() == count,
        exponential_bounds(start, factor, count)[0] == start,
        i > 0 ==> exponential_bounds(start, factor, count)[i] == exponential_bounds(
            start,
            factor,
            count,
        )[i - 1] * factor,
{
    let bounds = exponential_bounds(start, factor, count);
    assert(power(factor as nat, 0) == 1);
    assert(start * 1 == start);
    lemma_power_increases(factor as nat, i as nat, count);
    let r = power(factor as nat, count) as int;
    let q = power(factor as nat, i as nat) as int;
    assert(start * q <= start * r) by (nonlinear_arith)
        requires
            q <= r,
            start >= 0,
    ;
    if i > 0 {
        let p = power(factor as nat, (i - 1) as nat) as int;
        assert(q == p * factor);
        assert(start * q == (start * p) * factor && start * p <= start * q) by (nonlinear_arith)
            requires
                q == p * factor,
                start >= 0,
                p >= 0,
                factor >= 1,
        ;
    }
}

/// A description has the attributes that it describes, each label among them.
pub proof fn law_description_has_its_attributes(
    description: MetricDescription,
    kind: MetricKind,
    name: Seq<char>,
    help: Seq<char>,
    subsystem: Seq<char>,
    const_labels: Seq<(Seq<char>, Seq<char>)>,
    label_names: Seq<Seq<char>>,
    buckets: Seq<u64>,
)
    requires
        description.describes(kind, name, help, subsystem, const_labels, label_names, buckets),
    ensures
        description.kind == kind,
        description.name@ == name,
        description.help@ == help,
        description.subsystem@ == subsystem,
        description.buckets@ == buckets,
        description.const_labels@.len() == const_labels.len(),
        forall|i: int|
            0 <= i < const_labels.len() ==> (#[trigger] description.const_labels@[i]).0@
                == const_labels[i].0 && description.const_labels@[i].1@ == const_labels[i].1,
        description.label_names@.len() == label_names.len(),
        forall|i: int|
            0 <= i < label_names.len() ==> (#[trigger] description.label_names@[i])@
                == label_names[i],
{
    assert forall|i: int| 0 <= i < const_labels.len() implies (
    #[trigger] description.const_labels@[i]).0@ == const_labels[i].0
        && description.const_labels@[i].1@ == const_labels[i].1 by {
        assert(label_pairs(description.const_labels@)[i] == const_labels[i]);
    }
    assert forall|i: int| 0 <= i < label_names.len() implies (
    #[trigger] description.label_names@[i])@ == label_names[i] by {
        assert(label_texts(description.label_names@)[i] == label_names[i]);
    }
}

} // verus!
