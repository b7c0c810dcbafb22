use quickwit::runtimes::{
    initialize_runtimes, poll_time_bucket_bounds, start_runtimes, PrometheusRuntimeMetrics,
    RuntimeMetrics, RuntimeRegistry, RuntimeType, RuntimesConfig,
};

#[test]
fn test_runtimes_config_default() {
    let runtime_default = RuntimesConfig::default();
    assert!(runtime_default.num_threads_non_blocking <= runtime_default.num_threads_blocking);
    assert!(runtime_default.num_threads_non_blocking <= 2);
}

#[test]
fn test_runtimes_with_given_num_cpus_10() {
    let runtime = RuntimesConfig::with_num_cpus(10);
    assert_eq!(runtime.num_threads_blocking, 8);
    assert_eq!(runtime.num_threads_non_blocking, 2);
}

#[test]
fn test_runtimes_with_given_num_cpus_3() {
    let runtime = RuntimesConfig::with_num_cpus(3);
    assert_eq!(runtime.num_threads_blocking, 3);
    assert_eq!(runtime.num_threads_non_blocking, 1);
}

#[test]
fn test_runtimes_at_the_boundaries() {
    for (num_cpus, non_blocking, blocking) in
        [(0, 1, 0), (1, 1, 1), (4, 1, 3), (6, 1, 5), (7, 2, 5), (64, 2, 62)]
    {
        let runtime = RuntimesConfig::with_num_cpus(num_cpus);
        assert_eq!(runtime.num_threads_non_blocking, non_blocking);
        assert_eq!(runtime.num_threads_blocking, blocking);
    }
}

#[test]
fn test_light_runtimes() {
    let runtime = RuntimesConfig::light_for_tests();
    assert_eq!(runtime.num_threads_blocking, 1);
    assert_eq!(runtime.num_threads_non_blocking, 1);
}

#[test]
fn test_only_the_blocking_runtime_goes_without_a_lifo_slot() {
    let runtimes = start_runtimes(RuntimesConfig::with_num_cpus(10), true, false);
    assert!(runtimes.blocking.disable_lifo_slot);
    assert!(!runtimes.non_blocking.disable_lifo_slot);
    assert_eq!(runtimes.blocking.num_threads, 8);
    assert_eq!(runtimes.non_blocking.num_threads, 2);
    assert_eq!(runtimes.blocking.label, "blocking");
    assert_eq!(runtimes.non_blocking.label, "non_blocking");
    assert_eq!(runtimes.blocking.thread_name(12), "blocking-12");
    assert_eq!(runtimes.non_blocking.thread_name(0), "non-blocking-0");
}

#[test]
fn test_first_initialization_wins() {
    let mut registry = RuntimeRegistry::new();
    assert!(registry.get_runtime(RuntimeType::Blocking).is_none());
    assert!(initialize_runtimes(&mut registry, RuntimesConfig::with_num_cpus(10), true, false));
    assert!(!initialize_runtimes(&mut registry, RuntimesConfig::with_num_cpus(4), true, false));
    assert_eq!(registry.get_runtime(RuntimeType::Blocking).unwrap().num_threads, 8);
    assert_eq!(registry.get_runtime(RuntimeType::NonBlocking).unwrap().num_threads, 2);
}

#[test]
fn test_last_bucket_is_unbounded() {
    let ends = vec!["0.000008".to_string(), "0.000016".to_string(), "18446744073.7".to_string()];
    assert_eq!(poll_time_bucket_bounds(true, ends.clone()), ["0.000008", "0.000016", "+Inf"]);
    assert!(poll_time_bucket_bounds(false, ends).is_empty());
    assert!(poll_time_bucket_bounds(true, Vec::new()).is_empty());
}

#[test]
fn test_poll_time_bucket_bounds() {
    // Buckets that double in size, from 8192ns on, as a logarithmic histogram has them. The last
    // one stretches to `u64::MAX` nanoseconds.
    let mut bucket_ends: Vec<String> =
        (13..34).map(|exponent| ((1u64 << exponent) as f64 / 1e9).to_string()).collect();
    bucket_ends.push((u64::MAX as f64 / 1e9).to_string());

    // The histogram is opt-in: a runtime built without it exposes no buckets.
    assert!(poll_time_bucket_bounds(false, bucket_ends.clone()).is_empty());

    let bucket_bounds = poll_time_bucket_bounds(true, bucket_ends);
    assert_eq!(bucket_bounds.last().unwrap(), "+Inf");
    // Bounds are seconds, strictly increasing, and bracket the configured range.
    let finite_bounds: Vec<f64> = bucket_bounds[..bucket_bounds.len() - 1]
        .iter()
        .map(|bucket_bound| bucket_bound.parse().unwrap())
        .collect();
    assert!(finite_bounds.windows(2).all(|bounds| bounds[0] < bounds[1]));
    assert!(*finite_bounds.first().unwrap() <= 10e-6);
    assert!(*finite_bounds.last().unwrap() >= 8.0);
}

#[test]
fn test_more_polls_than_buckets_are_left_out() {
    let mut metrics = PrometheusRuntimeMetrics::new("blocking", &["+Inf".to_string()]);
    metrics.update(&RuntimeMetrics {
        total_local_queue_depth: 0,
        total_busy_duration_micros: 0,
        total_polls_count: 0,
        poll_time_histogram: vec![5, u64::MAX],
        workers_count: 1,
    });
    assert_eq!(metrics.poll_duration_seconds_buckets[0].value, 5);
}

#[test]
fn test_runtime_metrics_are_cumulative() {
    let bounds = vec!["0.1".to_string(), "0.2".to_string(), "+Inf".to_string()];
    let mut metrics = PrometheusRuntimeMetrics::new("blocking", &bounds);
    assert_eq!(metrics.scheduled_tasks.description.name, "tokio_scheduled_tasks");
    assert_eq!(metrics.scheduled_tasks.description.const_labels, [("runtime_type", "blocking")]);
    assert_eq!(
        metrics.poll_duration_seconds_bucket.as_ref().unwrap().label_names,
        ["le"]
    );
    let observation = RuntimeMetrics {
        total_local_queue_depth: 7,
        total_busy_duration_micros: 1_500,
        total_polls_count: 6,
        poll_time_histogram: vec![1, 2, 3],
        workers_count: 4,
    };
    metrics.update(&observation);
    metrics.update(&observation);
    assert_eq!(metrics.scheduled_tasks.value, 7);
    assert_eq!(metrics.worker_busy_duration_microsecs_total.value, 3_000);
    assert_eq!(metrics.worker_polls_total.value, 12);
    assert_eq!(metrics.worker_threads.value, 4);
    let counts: Vec<(&str, u64)> = metrics
        .poll_duration_seconds_buckets
        .iter()
        .map(|bucket| (bucket.le.as_str(), bucket.value))
        .collect();
    assert_eq!(counts, [("0.1", 2), ("0.2", 6), ("+Inf", 12)]);
}

#[test]
fn test_runtime_metrics_without_a_histogram() {
    let mut metrics = PrometheusRuntimeMetrics::new("non_blocking", &[]);
    assert!(metrics.poll_duration_seconds_bucket.is_none());
    metrics.update(&RuntimeMetrics {
        total_local_queue_depth: 0,
        total_busy_duration_micros: 0,
        total_polls_count: 0,
        poll_time_histogram: vec![5],
        workers_count: 1,
    });
    assert!(metrics.poll_duration_seconds_buckets.is_empty());
}
