use quickwit::thread_pool::metrics::{
    latency_buckets, wait_and_run_time_buckets, SchedulerMetrics, ThreadPoolMetrics,
};
use quickwit::thread_pool::{
    task_outcome, Panicked, QueuedTask, TaskLabels, TaskMetricUpdate, ThreadPoolSettings,
};

#[test]
fn test_outcome_of_a_task() {
    assert_eq!(task_outcome(Some(1)), Ok(1));
    assert_eq!(task_outcome::<i32>(None), Err(Panicked));
    assert_eq!(Panicked.message(), "scheduled task panicked");
}

#[test]
fn test_thread_names() {
    let pool = ThreadPoolSettings::new("search", Some(4));
    assert_eq!(pool.thread_name(12), "quickwit-search-12");
    assert_eq!(pool.num_threads, Some(4));
}

#[test]
fn test_small_tasks_have_a_third_of_the_cpus() {
    for (num_cpus, num_threads) in [(1, 2), (5, 2), (6, 2), (9, 3), (32, 10)] {
        let pool = ThreadPoolSettings::small_tasks_for(num_cpus);
        assert_eq!(pool.name, "small_tasks");
        assert_eq!(pool.num_threads, Some(num_threads));
    }
    assert!(ThreadPoolSettings::small_tasks().num_threads.unwrap() >= 2);
}

#[test]
fn test_metrics_of_a_task_that_runs() {
    let labels = TaskLabels::small_task();
    assert_eq!(labels.caller, "unknown");
    assert_eq!(labels.cost_class, "NA");
    let (queued, updates) = QueuedTask::new(labels, 100);
    assert_eq!(updates, [TaskMetricUpdate::PendingIncremented]);
    let (running, updates) = queued.pick_up(false, 150);
    assert_eq!(
        updates,
        [
            TaskMetricUpdate::PendingDecremented,
            TaskMetricUpdate::QueueWaited(50),
            TaskMetricUpdate::OngoingIncremented,
        ]
    );
    assert_eq!(
        running.unwrap().finish(350),
        [TaskMetricUpdate::OngoingDecremented, TaskMetricUpdate::Ran(200)]
    );
}

#[test]
fn test_metrics_of_a_task_that_is_cancelled() {
    let (queued, _) = QueuedTask::new(TaskLabels::small_task(), 100);
    let (running, updates) = queued.pick_up(true, 130);
    assert!(running.is_none());
    assert_eq!(
        updates,
        [TaskMetricUpdate::PendingDecremented, TaskMetricUpdate::QueueWaited(30)]
    );
}

#[test]
fn test_buckets() {
    let buckets = latency_buckets();
    assert_eq!(buckets.len(), 22);
    assert_eq!(buckets[0], 25);
    assert_eq!(buckets[1], 50);
    assert_eq!(buckets[21], 52_428_800);
    let buckets = wait_and_run_time_buckets();
    assert_eq!(buckets.len(), 16);
    assert_eq!(buckets[0], 1_000);
    assert_eq!(buckets[15], 32_768_000);
}

#[test]
fn test_descriptions() {
    let metrics = SchedulerMetrics::default();
    assert_eq!(metrics.queries.name, "scheduler_queries");
    assert_eq!(metrics.dispatch_latency_secs.label_names, ["tier"]);
    assert_eq!(metrics.rayon_pickup_latency_secs.buckets, latency_buckets());
    assert_eq!(metrics.actor_lag_secs.subsystem, "thread_pool");
    let metrics = ThreadPoolMetrics::default();
    assert_eq!(metrics.ongoing_tasks.label_names, ["pool", "caller", "cost_class"]);
    assert_eq!(metrics.run_time_secs.buckets, latency_buckets());
    let metrics = ThreadPoolMetrics::coarse();
    assert_eq!(metrics.pending_tasks.name, "pending_tasks");
    assert_eq!(metrics.queue_wait_time_secs.buckets, wait_and_run_time_buckets());
}
