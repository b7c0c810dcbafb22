use quickwit::thread_pool::scheduler::{
    completion_messages, ActorMessage, QueryId, QueryIdSource, Scheduler, SchedulerActor,
    SchedulerSplitGuard,
};

type Job = &'static str;

/// A scheduler whose tasks end when the test says so.
struct Pool {
    scheduler: Scheduler,
    actor: SchedulerActor<Job>,
    ids: QueryIdSource,
    now: u64,
    /// Tasks in the order in which they started.
    started: Vec<Job>,
}

impl Pool {
    fn new(num_threads: usize) -> Pool {
        Pool {
            scheduler: Scheduler::new("test"),
            actor: SchedulerActor::new(num_threads),
            ids: QueryIdSource::new(),
            now: 0,
            started: Vec::new(),
        }
    }

    fn send(&mut self, message: ActorMessage<Job>) {
        self.now += 1;
        self.actor.handle(message, self.now);
        self.started.extend(self.actor.fill_capacity());
    }

    fn register_query(&mut self, total_splits: usize) -> Vec<SchedulerSplitGuard> {
        let (message, guards) = self.scheduler.register_query(&mut self.ids, total_splits);
        if let Some(message) = message {
            self.send(message);
        }
        guards
    }

    fn enqueue_fair(&mut self, guard: &SchedulerSplitGuard, job: Job) {
        self.send(guard.enqueue_fair(job));
    }

    fn enqueue_fifo(&mut self, job: Job) {
        let message = self.scheduler.enqueue_fifo(job);
        self.send(message);
    }

    fn finish(&mut self, query_id: Option<QueryId>) {
        for message in completion_messages(query_id) {
            self.send(message);
        }
    }
}

#[test]
fn test_priority_runs_before_query_tasks() {
    let mut pool = Pool::new(1);
    let guards = pool.register_query(1);
    pool.enqueue_fair(&guards[0], "blocker");
    pool.enqueue_fair(&guards[0], "query");
    pool.enqueue_fifo("level0");
    assert_eq!(pool.started, ["blocker"]);
    pool.finish(Some(guards[0].query_id));
    pool.finish(None);
    assert_eq!(pool.started, ["blocker", "level0", "query"]);
}

#[test]
fn test_completion_is_the_same_whether_or_not_the_job_panics() {
    let mut pool = Pool::new(1);
    let guards = pool.register_query(1);
    pool.enqueue_fair(&guards[0], "boom");
    assert_eq!(pool.actor.query_running_count(guards[0].query_id), Some(1));
    pool.finish(Some(guards[0].query_id));
    assert_eq!(pool.actor.query_running_count(guards[0].query_id), Some(0));
    assert_eq!(pool.actor.running_count(), 0);
}

#[test]
fn test_smaller_remaining_runs_first() {
    let mut pool = Pool::new(1);
    let guards1 = pool.register_query(100);
    let guards2 = pool.register_query(2);
    pool.enqueue_fair(&guards1[0], "blocker");
    pool.enqueue_fair(&guards1[0], "query1");
    pool.enqueue_fair(&guards2[0], "query2");
    pool.finish(Some(guards1[0].query_id));
    pool.finish(Some(guards2[0].query_id));
    assert_eq!(pool.started, ["blocker", "query2", "query1"]);
}

#[test]
fn test_cap_ignores_queries_with_no_ready_work() {
    let mut pool = Pool::new(3);
    let _guards1 = pool.register_query(100);
    let _guards2 = pool.register_query(100);
    let guards3 = pool.register_query(100);
    for _ in 0..10 {
        pool.enqueue_fair(&guards3[0], "query3");
    }
    // 3 queries are registered, but only query 3 has any ready/running work, so it should get
    // the whole pool.
    assert_eq!(pool.actor.query_running_count(guards3[0].query_id), Some(3));
    assert_eq!(pool.started.len(), 3);
}

#[test]
fn test_per_query_cap_shares_the_pool() {
    let mut pool = Pool::new(4);
    let guards1 = pool.register_query(100);
    let guards2 = pool.register_query(100);
    for _ in 0..10 {
        pool.enqueue_fair(&guards1[0], "query1");
        pool.enqueue_fair(&guards2[0], "query2");
    }
    assert_eq!(pool.actor.query_running_count(guards1[0].query_id), Some(2));
    // Make sure that even if query 2 is running faster, its capacity is not taken over by
    // query 1.
    for _ in 0..8 {
        pool.finish(Some(guards2[0].query_id));
        assert_eq!(pool.actor.query_running_count(guards1[0].query_id), Some(2));
    }
}

#[test]
fn test_query_state_cleaned_up_once_remaining_reaches_zero() {
    let mut pool = Pool::new(2);
    let mut guards = pool.register_query(2);
    assert_eq!(pool.actor.num_queries(), 1);
    pool.send(guards.pop().unwrap().resolve());
    assert_eq!(pool.actor.num_queries(), 1);
    pool.send(guards.pop().unwrap().resolve());
    assert_eq!(pool.actor.num_queries(), 0);
}

#[test]
fn test_running_count_drains_back_to_zero_once_all_tasks_complete() {
    let mut pool = Pool::new(2);
    let guards = pool.register_query(3);
    for _ in 0..3 {
        pool.enqueue_fair(&guards[0], "task");
    }
    assert_eq!(pool.actor.running_count(), 2);
    for _ in 0..3 {
        pool.finish(Some(guards[0].query_id));
    }
    assert_eq!(pool.started.len(), 3);
    assert_eq!(pool.actor.running_count(), 0);
}

#[test]
fn test_more_waiting_for_permit_runs_last() {
    let mut pool = Pool::new(1);
    let guards1 = pool.register_query(10);
    let mut guards2 = pool.register_query(20);
    for guard in guards2.iter_mut().take(15) {
        let message = guard.mark_permit_obtained();
        assert!(message.is_some());
        pool.send(message.unwrap());
        // A permit is only obtained once.
        assert!(guard.mark_permit_obtained::<Job>().is_none());
    }
    pool.enqueue_fair(&guards1[0], "blocker");
    pool.enqueue_fair(&guards1[0], "query1");
    pool.enqueue_fair(&guards2[0], "query2");
    pool.finish(Some(guards1[0].query_id));
    pool.finish(Some(guards2[0].query_id));
    assert_eq!(pool.started, ["blocker", "query2", "query1"]);
}

#[test]
fn test_register_query_with_zero_splits_returns_no_guards() {
    let mut pool = Pool::new(1);
    let guards = pool.register_query(0);
    assert!(guards.is_empty());
    assert_eq!(pool.actor.num_queries(), 0);
}

#[test]
fn test_tasks_of_an_unknown_query_run_with_high_priority() {
    let mut pool = Pool::new(1);
    pool.enqueue_fifo("blocker");
    let guards = pool.register_query(1);
    pool.enqueue_fair(&guards[0], "registered");
    pool.send(ActorMessage::EnqueueFair(QueryId(1_000), "unknown"));
    pool.finish(None);
    pool.finish(None);
    assert_eq!(pool.started, ["blocker", "unknown", "registered"]);
}

#[test]
fn test_queues_are_first_in_first_out() {
    let mut pool = Pool::new(1);
    for job in ["a", "b", "c"] {
        pool.enqueue_fifo(job);
    }
    pool.finish(None);
    pool.finish(None);
    assert_eq!(pool.started, ["a", "b", "c"]);
}

#[test]
fn test_query_ids_are_fresh() {
    let mut ids = QueryIdSource::new();
    assert_eq!(ids.next(), QueryId(1));
    assert_eq!(ids.next(), QueryId(2));
}
