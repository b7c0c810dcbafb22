use quickwit::search::metrics_trackers::{
    LeafSearchMetricsFuture, RootSearchMetricsFuture, RootSearchMetricsStep,
};

fn root(step: RootSearchMetricsStep) -> RootSearchMetricsFuture<()> {
    RootSearchMetricsFuture { inner: (), start: 100, step, is_success: None }
}

fn leaf(is_broad_search: bool) -> LeafSearchMetricsFuture<()> {
    LeafSearchMetricsFuture {
        inner: (),
        start: 100,
        targeted_splits: 5,
        status: None,
        is_broad_search,
    }
}

#[test]
fn test_successful_plan_is_not_recorded() {
    let mut plan = root(RootSearchMetricsStep::Plan);
    plan.on_ready(true);
    assert!(plan.finish(150).is_none());
}

#[test]
fn test_root_search_statuses() {
    for (step, answer, status, num_targeted_splits) in [
        (RootSearchMetricsStep::Plan, Some(false), "plan-error", 0),
        (RootSearchMetricsStep::Plan, None, "plan-cancelled", 0),
        (RootSearchMetricsStep::Exec { num_targeted_splits: 3 }, Some(true), "success", 3),
        (RootSearchMetricsStep::Exec { num_targeted_splits: 3 }, Some(false), "error", 3),
        (RootSearchMetricsStep::Exec { num_targeted_splits: 3 }, None, "cancelled", 3),
    ] {
        let mut search = root(step);
        if let Some(is_ok) = answer {
            search.on_ready(is_ok);
        }
        let record = search.finish(150).unwrap();
        assert_eq!(record.status, status);
        assert_eq!(record.num_targeted_splits, num_targeted_splits);
        assert_eq!(record.elapsed_nanos, 50);
    }
}

#[test]
fn test_leaf_search_statuses() {
    for (answer, status) in [
        (Some(Ok(0)), "success"),
        (Some(Ok(2)), "partial-success"),
        (Some(Err(())), "error"),
        (None, "cancelled"),
    ] {
        let mut search = leaf(false);
        if let Some(num_failed_splits) = answer {
            search.on_ready(num_failed_splits);
        }
        let record = search.finish(150);
        assert_eq!(record.status, status);
        assert_eq!(record.queue, "primary");
        assert_eq!(record.targeted_splits, 5);
        assert_eq!(record.elapsed_nanos, 50);
    }
    assert_eq!(leaf(true).finish(0).queue, "secondary");
}
