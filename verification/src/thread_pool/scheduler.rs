//! Priority scheduler that decides which task a pool of worker threads runs next.
//!
//! A worker pool has no notion of task priority: it runs tasks in whatever order they
//! land in its queues. The scheduler keeps its own queues, and hands over at most one
//! task per free worker.
//!
//! Two tiers exist:
//! - High priority: always runs first, in strict FIFO order. Meant for short and rare tasks
//!   such as merging or finalizing the results of a query.
//! - Per query: fair among queries, with a bias towards queries that are closer to completion.
//!
//! [`SchedulerActor`] is a state machine. Each message goes through [`SchedulerActor::handle`],
//! then [`SchedulerActor::fill_capacity`] returns the tasks to start. Both are specified on
//! [`SchedulerModel`], the mathematical content of the actor.
use std::collections::{HashMap, VecDeque};
use vstd::prelude::*;

verus! {

broadcast use vstd::std_specs::hash::group_hash_axioms;

/// Identifies a query whose tasks are shared fairly with those of other queries.
#[derive(Clone, Copy, Debug, PartialEq, Eq, Hash, Structural)]
pub struct QueryId(pub u64);

/// Allocates query ids, starting from 1.
pub struct QueryIdSource {
    next: u64,
}

impl QueryIdSource {
    /// The id that the next call of [`QueryIdSource::next`] returns.
    pub closed spec fn upcoming(&self) -> u64 {
        self.next
    }

    /// A source whose first id is 1.
    pub fn new() -> (source: QueryIdSource)
        ensures
            source.upcoming() == 1,
    {
        QueryIdSource { next: 1 }
    }

    /// Returns a fresh id. Ids repeat only after 2^64 calls.
    pub fn next(&mut self) -> (id: QueryId)
        ensures
            id.0 == old(self).upcoming(),
            final(self).upcoming() == (old(self).upcoming() + 1) % 0x1_0000_0000_0000_0000,
    {
        let id = QueryId(self.next);
        self.next = self.next.wrapping_add(1);
        id
    }
}

/// Messages accepted by the [`SchedulerActor`].
pub enum ActorMessage<J> {
    /// Queues a high priority task.
    EnqueueFifo(J),
    /// Queues a task of a registered query.
    EnqueueFair(QueryId, J),
    /// Declares a query and the number of splits it has to process.
    RegisterQuery { query_id: QueryId, total_splits: usize },
    /// A permit has been obtained for one split, which might change the priority of the query's
    /// tasks.
    PermitObtained(QueryId),
    /// The processing of a split has completed.
    SplitResolved { query_id: QueryId, waiting_for_permit: bool },
    /// A per-query task finished (or panicked).
    QueryTaskFinished(QueryId),
    /// Any task finished (or panicked), freeing up a worker.
    CapacityFreed,
}

/// Per-query scheduling state.
pub struct QueryState<J> {
    /// Tasks submitted for this query that have not been dispatched yet.
    ready: VecDeque<J>,
    /// Tasks of this query that are currently executing.
    running_count: usize,
    /// Number of splits still waiting on a search permit.
    waiting_for_permit: usize,
    /// Number of splits not resolved yet.
    remaining: usize,
    /// Registration time, in ticks of a monotonic clock.
    created_at: u64,
}

/// Mathematical content of a [`QueryState`].
#[verifier::ext_equal]
pub struct QueryModel<J> {
    pub ready: Seq<J>,
    pub running_count: nat,
    pub waiting_for_permit: nat,
    pub remaining: nat,
    pub created_at: u64,
}

impl<J> View for QueryState<J> {
    type V = QueryModel<J>;

    closed spec fn view(&self) -> QueryModel<J> {
        QueryModel {
            ready: self.ready@,
            running_count: self.running_count as nat,
            waiting_for_permit: self.waiting_for_permit as nat,
            remaining: self.remaining as nat,
            created_at: self.created_at,
        }
    }
}

/// Mathematical content of a [`SchedulerActor`].
#[verifier::ext_equal]
pub struct SchedulerModel<J> {
    /// Number of worker threads.
    pub num_threads: nat,
    /// High priority tasks, oldest first.
    pub high_priority_queue: Seq<J>,
    /// The registered queries.
    pub queries: Map<u64, QueryModel<J>>,
    /// Number of tasks handed over to the workers and not finished yet.
    pub running_count: nat,
}

/// `n - 1`, stopping at zero.
pub open spec fn decrement(n: nat) -> nat {
    if n == 0 {
        0
    } else {
        (n - 1) as nat
    }
}

/// `n / d` rounded up.
pub open spec fn ceil_div(n: nat, d: nat) -> nat
    recommends
        d > 0,
{
    if n % d == 0 {
        n / d
    } else {
        n / d + 1
    }
}

impl<J> SchedulerModel<J> {
    /// The model with the state of the query `id` replaced.
    pub open spec fn with_query(self, id: u64, query: QueryModel<J>) -> SchedulerModel<J> {
        SchedulerModel { queries: self.queries.insert(id, query), ..self }
    }

    /// The model after one message received at time `now`.
    pub open spec fn handle(self, message: ActorMessage<J>, now: u64) -> SchedulerModel<J> {
        match message {
            ActorMessage::EnqueueFifo(job) => SchedulerModel {
                high_priority_queue: self.high_priority_queue.push(job),
                ..self
            },
            ActorMessage::EnqueueFair(query_id, job) => if self.queries.contains_key(query_id.0) {
                let query = self.queries[query_id.0];
                self.with_query(
                    query_id.0,
                    QueryModel { ready: query.ready.push(job), ..query },
                )
            } else {
                SchedulerModel { high_priority_queue: self.high_priority_queue.push(job), ..self }
            },
            ActorMessage::RegisterQuery { query_id, total_splits } => self.with_query(
                query_id.0,
                QueryModel {
                    ready: Seq::empty(),
                    running_count: 0,
                    waiting_for_permit: total_splits as nat,
                    remaining: total_splits as nat,
                    created_at: now,
                },
            ),
            ActorMessage::PermitObtained(query_id) => if self.queries.contains_key(query_id.0) {
                let query = self.queries[query_id.0];
                self.with_query(
                    query_id.0,
                    QueryModel { waiting_for_permit: decrement(query.waiting_for_permit), ..query },
                )
            } else {
                self
            },
            ActorMessage::SplitResolved { query_id, waiting_for_permit } => if !self.queries.contains_key(
                query_id.0,
            ) {
                self
            } else if self.queries[query_id.0].remaining <= 1 {
                SchedulerModel { queries: self.queries.remove(query_id.0), ..self }
            } else {
                let query = self.queries[query_id.0];
                self.with_query(
                    query_id.0,
                    QueryModel {
                        waiting_for_permit: if waiting_for_permit {
                            decrement(query.waiting_for_permit)
                        } else {
                            query.waiting_for_permit
                        },
                        remaining: decrement(query.remaining),
                        ..query
                    },
                )
            },
            ActorMessage::QueryTaskFinished(query_id) => if self.queries.contains_key(query_id.0) {
                let query = self.queries[query_id.0];
                self.with_query(
                    query_id.0,
                    QueryModel { running_count: decrement(query.running_count), ..query },
                )
            } else {
                self
            },
            ActorMessage::CapacityFreed => SchedulerModel {
                running_count: decrement(self.running_count),
                ..self
            },
        }
    }

    /// The model after a series of messages, all received at time `now`.
    pub open spec fn handle_all(self, messages: Seq<ActorMessage<J>>, now: u64) -> SchedulerModel<J>
        decreases messages.len(),
    {
        if messages.len() == 0 {
            self
        } else {
            self.handle_all(messages.drop_last(), now).handle(messages.last(), now)
        }
    }

    /// The queries with queued tasks: those that compete for the workers.
    pub open spec fn competing_queries(self) -> Set<u64> {
        self.queries.dom().filter(|id: u64| self.queries[id].ready.len() > 0)
    }

    /// The number of tasks that a single query may have running: an equal share of the workers,
    /// rounded up, among the competing queries.
    pub open spec fn current_cap(self) -> nat {
        let competing = self.competing_queries().len();
        ceil_div(self.num_threads, if competing == 0 { 1 } else { competing })
    }

    /// Whether a task of the query `id` may start now.
    pub open spec fn is_eligible(self, id: u64) -> bool {
        &&& self.queries.contains_key(id)
        &&& self.queries[id].ready.len() > 0
        &&& self.queries[id].running_count < self.current_cap()
    }

    /// Whether the query `a` goes before the query `b`: fewer splits waiting on a permit, then
    /// fewer splits remaining, then the older one, then the smaller id.
    pub open spec fn goes_before(self, a: u64, b: u64) -> bool {
        let qa = self.queries[a];
        let qb = self.queries[b];
        ||| qa.waiting_for_permit < qb.waiting_for_permit
        ||| qa.waiting_for_permit == qb.waiting_for_permit && (qa.remaining < qb.remaining || (
        qa.remaining == qb.remaining && (qa.created_at < qb.created_at || (qa.created_at
            == qb.created_at && a < b))))
    }

    /// Whether `id` is the query that runs next: it is eligible, and goes before every other
    /// eligible query.
    pub open spec fn is_next_query(self, id: u64) -> bool {
        &&& self.is_eligible(id)
        &&& forall|other: u64| #[trigger]
            self.is_eligible(other) && other != id ==> self.goes_before(id, other)
    }

    /// The query that runs next, if there is one.
    pub open spec fn next_query(self) -> Option<u64> {
        if exists|id: u64| self.is_next_query(id) {
            Some(choose|id: u64| self.is_next_query(id))
        } else {
            None
        }
    }

    /// The task to start next, with the model once it has left its queue. High priority tasks
    /// come first.
    pub open spec fn pick_next(self) -> Option<(J, SchedulerModel<J>)> {
        if self.high_priority_queue.len() > 0 {
            Some(
                (
                    self.high_priority_queue[0],
                    SchedulerModel {
                        high_priority_queue: self.high_priority_queue.skip(1),
                        ..self
                    },
                ),
            )
        } else {
            match self.next_query() {
                None => None,
                Some(id) => {
                    let query = self.queries[id];
                    Some(
                        (
                            query.ready[0],
                            self.with_query(
                                id,
                                QueryModel {
                                    ready: query.ready.skip(1),
                                    running_count: query.running_count + 1,
                                    ..query
                                },
                            ),
                        ),
                    )
                },
            }
        }
    }

    /// The tasks that start now, in order, with the model once they have started: tasks are
    /// picked one at a time for as long as a worker is free.
    pub open spec fn fill_capacity(self) -> (SchedulerModel<J>, Seq<J>)
        decreases self.num_threads - self.running_count,
    {
        if self.running_count >= self.num_threads {
            (self, Seq::empty())
        } else {
            match self.pick_next() {
                None => (self, Seq::empty()),
                Some((job, picked)) => {
                    let started = SchedulerModel {
                        running_count: self.running_count + 1,
                        num_threads: self.num_threads,
                        high_priority_queue: picked.high_priority_queue,
                        queries: picked.queries,
                    };
                    let (filled, jobs) = started.fill_capacity();
                    (filled, seq![job] + jobs)
                },
            }
        }
    }
}

/// Owns all the scheduling state and the priority logic.
pub struct SchedulerActor<J> {
    num_threads: usize,
    /// Always-first, uncapped tasks.
    high_priority_queue: VecDeque<J>,
    /// Fairly scheduled tasks, by query id.
    queries: HashMap<u64, QueryState<J>>,
    /// Number of tasks currently handed over to the workers.
    running_count: usize,
}

impl<J> View for SchedulerActor<J> {
    type V = SchedulerModel<J>;

    closed spec fn view(&self) -> SchedulerModel<J> {
        SchedulerModel {
            num_threads: self.num_threads as nat,
            high_priority_queue: self.high_priority_queue@,
            queries: self.queries@.map_values(|query: QueryState<J>| query@),
            running_count: self.running_count as nat,
        }
    }
}

impl<J> SchedulerActor<J> {
    /// An actor in front of `num_threads` idle workers, without any task nor query.
    pub fn new(num_threads: usize) -> (actor: SchedulerActor<J>)
        ensures
            actor@ == (SchedulerModel {
                num_threads: num_threads as nat,
                high_priority_queue: Seq::<J>::empty(),
                queries: Map::<u64, QueryModel<J>>::empty(),
                running_count: 0,
            }),
    {
        let actor = SchedulerActor {
            num_threads,
            high_priority_queue: VecDeque::new(),
            queries: HashMap::new(),
            running_count: 0,
        };
        assert(actor@.queries =~= Map::empty());
        actor
    }

    /// Updates the state for one message received at time `now`.
    ///
    /// A task of a query that is not registered falls back to the high priority queue. A query
    /// whose last split is resolved is forgotten, together with its queued tasks.
    ///
    /// Returns the number of registered queries when the message registered or removed one.
    pub fn handle(&mut self, message: ActorMessage<J>, now: u64) -> (num_queries: Option<usize>)
        ensures
            final(self)@ == old(self)@.handle(message, now),
            match message {
                ActorMessage::RegisterQuery { query_id, total_splits } => {
                    num_queries matches Some(n) && n == final(self)@.queries.dom().len()
                },
                ActorMessage::SplitResolved { query_id, waiting_for_permit } => {
                    if old(self)@.queries.contains_key(query_id.0) && old(
                        self,
                    )@.queries[query_id.0].remaining <= 1 {
                        num_queries matches Some(n) && n == final(self)@.queries.dom().len()
                    } else {
                        num_queries is None
                    }
                },
                _ => num_queries is None,
            },
    {
        let ghost before = self@;
        let ghost target = before.handle(message, now);
        let mut num_queries: Option<usize> = None;
        match message {
            ActorMessage::EnqueueFifo(job) => {
                self.high_priority_queue.push_back(job);
            },
            ActorMessage::EnqueueFair(query_id, job) => {
                match self.queries.remove(&query_id.0) {
                    Some(query) => {
                        let mut query = query;
                        query.ready.push_back(job);
                        self.queries.insert(query_id.0, query);
                    },
                    None => {
                        self.high_priority_queue.push_back(job);
                    },
                }
            },
            ActorMessage::RegisterQuery { query_id, total_splits } => {
                self.queries.insert(
                    query_id.0,
                    QueryState {
                        ready: VecDeque::new(),
                        running_count: 0,
                        waiting_for_permit: total_splits,
                        remaining: total_splits,
                        created_at: now,
                    },
                );
                num_queries = Some(self.queries.len());
            },
            ActorMessage::PermitObtained(query_id) => {
                if let Some(query) = self.queries.remove(&query_id.0) {
                    let mut query = query;
                    query.waiting_for_permit = query.waiting_for_permit.saturating_sub(1);
                    self.queries.insert(query_id.0, query);
                }
            },
            ActorMessage::SplitResolved { query_id, waiting_for_permit } => {
                if let Some(query) = self.queries.remove(&query_id.0) {
                    let mut query = query;
                    if waiting_for_permit {
                        query.waiting_for_permit = query.waiting_for_permit.saturating_sub(1);
                    }
                    query.remaining = query.remaining.saturating_sub(1);
                    if query.remaining == 0 {
                        num_queries = Some(self.queries.len());
                    } else {
                        self.queries.insert(query_id.0, query);
                    }
                }
            },
            ActorMessage::QueryTaskFinished(query_id) => {
                if let Some(query) = self.queries.remove(&query_id.0) {
                    let mut query = query;
                    query.running_count = query.running_count.saturating_sub(1);
                    self.queries.insert(query_id.0, query);
                }
            },
            ActorMessage::CapacityFreed => {
                self.running_count = self.running_count.saturating_sub(1);
            },
        }
        proof {
            assert(self@.queries.dom() =~= self.queries@.dom());
            assert(self@.high_priority_queue =~= target.high_priority_queue);
            assert(self@.queries =~= target.queries);
        }
        num_queries
    }

    /// The ids of the registered queries, each once.
    fn query_ids(&self) -> (ids: Vec<u64>)
        ensures
            ids@.no_duplicates(),
            ids@.to_set() == self@.queries.dom(),
    {
        let mut ids: Vec<u64> = Vec::new();
        for id in iter: self.queries.keys()
            invariant
                ids@ == iter.seq().unref().take(iter.index() as int),
        {
            ids.push(*id);
        }
        proof {
            let keys = vstd::std_specs::iter::IteratorSpec::remaining(&self.queries.keys()).unref();
            assert(keys.take(keys.len() as int) =~= keys);
            assert(ids@ == keys);
            assert(self@.queries.dom() =~= self.queries@.dom());
        }
        ids
    }

    /// The maximum number of concurrently running tasks any single query may have right now,
    /// given how many queries are currently competing for the workers.
    fn current_cap(&self) -> (cap: usize)
        ensures
            cap == self@.current_cap(),
            cap <= self@.num_threads,
    {
        let ids = self.query_ids();
        let mut competing: usize = 0;
        let ghost ready = |id: u64| self@.queries[id].ready.len() > 0;
        proof {
            assert(ids@.take(0).to_set().filter(ready) =~= Set::empty());
        }
        for i in 0..ids.len()
            invariant
                ids@.no_duplicates(),
                ids@.to_set() == self@.queries.dom(),
                competing <= i,
                ready == (|id: u64| self@.queries[id].ready.len() > 0),
                competing == ids@.take(i as int).to_set().filter(ready).len(),
        {
            proof {
                lemma_filter_len_step(ids@, i as int, ready);
                assert(ids@.to_set().contains(ids@[i as int]));
            }
            if let Some(query) = self.queries.get(&ids[i]) {
                if query.ready.len() > 0 {
                    competing = competing + 1;
                }
            }
        }
        proof {
            assert(ids@.take(ids@.len() as int) =~= ids@);
            assert(self@.competing_queries() =~= ids@.to_set().filter(ready));
        }
        let divisor: usize = if competing == 0 {
            1
        } else {
            competing
        };
        proof {
            let n = self.num_threads as int;
            let d = divisor as int;
            assert(n / d <= n && (n % d != 0 ==> n / d < n)) by (nonlinear_arith)
                requires
                    n >= 0,
                    d >= 1,
            ;
        }
        let quotient: usize = self.num_threads / divisor;
        if self.num_threads % divisor == 0 {
            quotient
        } else {
            quotient + 1
        }
    }

    /// Pops the single highest-priority ready and eligible task, if any, updating the running
    /// count of its owning query.
    fn pick_next(&mut self) -> (picked: Option<J>)
        ensures
            match old(self)@.pick_next() {
                Some((job, model)) => picked == Some(job) && final(self)@ == model,
                None => picked is None && final(self)@ == old(self)@,
            },
            final(self)@.num_threads == old(self)@.num_threads,
            final(self)@.running_count == old(self)@.running_count,
    {
        let ghost before = self@;
        if let Some(job) = self.high_priority_queue.pop_front() {
            proof {
                assert(self@.high_priority_queue =~= before.high_priority_queue.skip(1));
                assert(self@ =~= (before.pick_next()->0).1);
            }
            return Some(job);
        }
        let cap: usize = self.current_cap();
        let ids = self.query_ids();
        let mut best: Option<u64> = None;
        for i in 0..ids.len()
            invariant
                ids@.to_set() == self@.queries.dom(),
                cap == self@.current_cap(),
                match best {
                    Some(id) => {
                        &&& self@.is_eligible(id)
                        &&& ids@.take(i as int).contains(id)
                        &&& forall|j: int|
                            0 <= j < i && self@.is_eligible(#[trigger] ids@[j]) && ids@[j] != id
                                ==> self@.goes_before(id, ids@[j])
                    },
                    None => forall|j: int|
                        0 <= j < i ==> !self@.is_eligible(#[trigger] ids@[j]),
                },
        {
            proof {
                assert(ids@.to_set().contains(ids@[i as int]));
                assert(ids@.take(i + 1)[i as int] == ids@[i as int]);
                if best is Some {
                    let k = choose|k: int| 0 <= k < i && ids@.take(i as int)[k] == best->0;
                    assert(ids@.take(i + 1)[k] == best->0);
                }
            }
            let id: u64 = ids[i];
            if let Some(query) = self.queries.get(&id) {
                if query.running_count < cap && query.ready.len() > 0 {
                    best = match best {
                        None => Some(id),
                        Some(best_id) => match self.queries.get(&best_id) {
                            None => Some(best_id),
                            Some(best_query) => {
                                if best_query.goes_before(best_id, query, id) {
                                    Some(best_id)
                                } else {
                                    Some(id)
                                }
                            },
                        },
                    };
                }
            }
        }
        proof {
            assert forall|other: u64| #[trigger]
                self@.is_eligible(other) implies ids@.contains(other) by {
                assert(ids@.to_set().contains(other));
            }
            match best {
                Some(id) => {
                    assert(self@.is_next_query(id));
                    lemma_next_query_unique(self@, id);
                },
                None => {
                    assert(self@.next_query() is None);
                },
            }
        }
        match best {
            None => None,
            Some(id) => match self.queries.remove(&id) {
                None => None,
                Some(query) => {
                    let mut query = query;
                    let job = query.ready.pop_front();
                    query.running_count = query.running_count + 1;
                    self.queries.insert(id, query);
                    proof {
                        assert(query@.ready =~= before.queries[id].ready.skip(1));
                        assert(self@.queries =~= (before.pick_next()->0).1.queries);
                    }
                    job
                },
            },
        }
    }

    /// Tops up the number of running tasks to the number of workers, and returns the tasks to
    /// start, highest priority first. To be called after every handled message, since any of them
    /// could have made more capacity or work available.
    pub fn fill_capacity(&mut self) -> (jobs: Vec<J>)
        ensures
            final(self)@ == old(self)@.fill_capacity().0,
            jobs@ == old(self)@.fill_capacity().1,
    {
        let mut jobs: Vec<J> = Vec::new();
        let ghost target = self@.fill_capacity();
        while self.running_count < self.num_threads
            invariant_except_break
                target.0 == self@.fill_capacity().0,
                target.1 == jobs@ + self@.fill_capacity().1,
            ensures
                target.0 == self@,
                target.1 == jobs@,
            decreases self.num_threads - self.running_count,
        {
            let ghost before = self@;
            match self.pick_next() {
                None => {
                    break ;
                },
                Some(job) => {
                    self.running_count = self.running_count + 1;
                    jobs.push(job);
                    proof {
                        let filled = self@.fill_capacity();
                        assert(before.fill_capacity().1 == seq![job] + filled.1);
                    }
                },
            }
        }
        jobs
    }

    /// Number of tasks currently handed over to the workers.
    pub fn running_count(&self) -> (count: usize)
        ensures
            count == self@.running_count,
    {
        self.running_count
    }

    /// Number of tasks of the query `query_id` that are currently running, or `None` when the
    /// query is not registered.
    pub fn query_running_count(&self, query_id: QueryId) -> (count: Option<usize>)
        ensures
            match count {
                Some(count) => self@.queries.contains_key(query_id.0)
                    && self@.queries[query_id.0].running_count == count,
                None => !self@.queries.contains_key(query_id.0),
            },
    {
        match self.queries.get(&query_id.0) {
            Some(query) => Some(query.running_count),
            None => None,
        }
    }

    /// Number of registered queries.
    pub fn num_queries(&self) -> (count: usize)
        ensures
            count == self@.queries.dom().len(),
    {
        assert(self@.queries.dom() =~= self.queries@.dom());
        self.queries.len()
    }
}

impl<J> QueryState<J> {
    /// Whether this query, with id `id`, goes before `other`, with id `other_id`.
    fn goes_before(&self, id: u64, other: &QueryState<J>, other_id: u64) -> (before: bool)
        ensures
            before == {
                ||| self@.waiting_for_permit < other@.waiting_for_permit
                ||| self@.waiting_for_permit == other@.waiting_for_permit && (self@.remaining
                    < other@.remaining || (self@.remaining == other@.remaining && (self@.created_at
                    < other@.created_at || (self@.created_at == other@.created_at && id
                    < other_id))))
            },
    {
        if self.waiting_for_permit != other.waiting_for_permit {
            self.waiting_for_permit < other.waiting_for_permit
        } else if self.remaining != other.remaining {
            self.remaining < other.remaining
        } else if self.created_at != other.created_at {
            self.created_at < other.created_at
        } else {
            id < other_id
        }
    }
}

/// Tracks one split of a registered query until it is resolved.
pub struct SchedulerSplitGuard {
    /// The query that the split belongs to.
    pub query_id: QueryId,
    /// Whether the split is still waiting on a search permit.
    pub waiting_for_permit: bool,
    /// Name of the pool that runs the tasks of the split.
    pub pool_name: &'static str,
}

impl SchedulerSplitGuard {
    /// Marks that this split has obtained a permit, and returns the message that tells the
    /// scheduler. The scheduler is told once: later calls return nothing.
    pub fn mark_permit_obtained<J>(&mut self) -> (message: Option<ActorMessage<J>>)
        ensures
            *final(self) == (SchedulerSplitGuard { waiting_for_permit: false, ..*old(self) }),
            message == if old(self).waiting_for_permit {
                Some(ActorMessage::<J>::PermitObtained(old(self).query_id))
            } else {
                None
            },
    {
        if !self.waiting_for_permit {
            return None;
        }
        self.waiting_for_permit = false;
        Some(ActorMessage::PermitObtained(self.query_id))
    }

    /// The message that queues a task of this split.
    pub fn enqueue_fair<J>(&self, job: J) -> (message: ActorMessage<J>)
        ensures
            message == ActorMessage::EnqueueFair(self.query_id, job),
    {
        ActorMessage::EnqueueFair(self.query_id, job)
    }

    /// Ends the split, through whatever path, and returns the message that tells the scheduler.
    pub fn resolve<J>(self) -> (message: ActorMessage<J>)
        ensures
            message == (ActorMessage::<J>::SplitResolved {
                query_id: self.query_id,
                waiting_for_permit: self.waiting_for_permit,
            }),
    {
        ActorMessage::SplitResolved {
            query_id: self.query_id,
            waiting_for_permit: self.waiting_for_permit,
        }
    }
}

/// Front of a [`SchedulerActor`]: turns requests into messages.
pub struct Scheduler {
    pool_name: &'static str,
}

impl Scheduler {
    /// Name of the pool that runs the tasks.
    pub closed spec fn pool(&self) -> &'static str {
        self.pool_name
    }

    /// A scheduler for the pool `pool_name`.
    pub fn new(pool_name: &'static str) -> (scheduler: Scheduler)
        ensures
            scheduler.pool() == pool_name,
    {
        Scheduler { pool_name }
    }

    /// Registers a new query with a fresh id. Returns the message for the scheduler actor, and one
    /// guard per split. A query without splits takes an id, but is not registered.
    pub fn register_query<J>(&self, ids: &mut QueryIdSource, total_splits: usize) -> (registration: (
        Option<ActorMessage<J>>,
        Vec<SchedulerSplitGuard>,
    ))
        ensures
            final(ids).upcoming() == (old(ids).upcoming() + 1) % 0x1_0000_0000_0000_0000,
            registration.0 == if total_splits == 0 {
                None
            } else {
                Some(
                    ActorMessage::<J>::RegisterQuery {
                        query_id: QueryId(old(ids).upcoming()),
                        total_splits,
                    },
                )
            },
            registration.1@ == Seq::new(
                total_splits as nat,
                |i: int|
                    SchedulerSplitGuard {
                        query_id: QueryId(old(ids).upcoming()),
                        waiting_for_permit: true,
                        pool_name: self.pool(),
                    },
            ),
    {
        let query_id = ids.next();
        let mut guards: Vec<SchedulerSplitGuard> = Vec::new();
        if total_splits == 0 {
            return (None, guards);
        }
        for i in 0..total_splits
            invariant
                guards@ == Seq::new(
                    i as nat,
                    |k: int|
                        SchedulerSplitGuard {
                            query_id,
                            waiting_for_permit: true,
                            pool_name: self.pool(),
                        },
                ),
        {
            guards.push(
                SchedulerSplitGuard {
                    query_id,
                    waiting_for_permit: true,
                    pool_name: self.pool_name,
                },
            );
        }
        (Some(ActorMessage::RegisterQuery { query_id, total_splits }), guards)
    }

    /// The message that queues a high priority task.
    pub fn enqueue_fifo<J>(&self, job: J) -> (message: ActorMessage<J>)
        ensures
            message == ActorMessage::EnqueueFifo(job),
    {
        ActorMessage::EnqueueFifo(job)
    }
}

/// The messages to send once a task has ended, whether it returned or panicked: the query it was
/// queued for, if any, gets its slot back, then a worker is free.
pub fn completion_messages<J>(query_id: Option<QueryId>) -> (messages: Vec<ActorMessage<J>>)
    ensures
        messages@ == match query_id {
            Some(query_id) => seq![
                ActorMessage::<J>::QueryTaskFinished(query_id),
                ActorMessage::<J>::CapacityFreed,
            ],
            None => seq![ActorMessage::<J>::CapacityFreed],
        },
{
    let mut messages: Vec<ActorMessage<J>> = Vec::new();
    if let Some(query_id) = query_id {
        messages.push(ActorMessage::QueryTaskFinished(query_id));
    }
    messages.push(ActorMessage::CapacityFreed);
    messages
}

/// How the number of distinct elements that satisfy `keep` grows along a sequence.
proof fn lemma_filter_len_step(s: Seq<u64>, i: int, keep: spec_fn(u64) -> bool)
    requires
        s.no_duplicates(),
        0 <= i < s.len(),
    ensures
        s.take(i + 1).to_set().filter(keep).len() == s.take(i).to_set().filter(keep).len() + if keep(
            s[i],
        ) {
            1nat
        } else {
            0nat
        },
{
    let before = s.take(i).to_set();
    let after = s.take(i + 1).to_set();
    assert(!before.contains(s[i])) by {
        if before.contains(s[i]) {
            let k = choose|k: int| 0 <= k < i && s.take(i)[k] == s[i];
            assert(s[k] == s[i]);
        }
    }
    assert(after =~= before.insert(s[i])) by {
        assert forall|x: u64| after.contains(x) implies before.insert(s[i]).contains(x) by {
            let longer = s.take(i + 1);
            let k = choose|k: int| 0 <= k < longer.len() && longer[k] == x;
            if k < i {
                assert(s.take(i)[k] == x);
            }
        }
        assert forall|x: u64| before.insert(s[i]).contains(x) implies after.contains(x) by {
            if x == s[i] {
                assert(s.take(i + 1)[i] == x);
            } else {
                let k = choose|k: int| 0 <= k < i && s.take(i)[k] == x;
                assert(s.take(i + 1)[k] == x);
            }
        }
    }
    if keep(s[i]) {
        assert(after.filter(keep) =~= before.filter(keep).insert(s[i]));
    } else {
        assert(after.filter(keep) =~= before.filter(keep));
    }
}

/// At most one query is the next one.
proof fn lemma_next_query_unique<J>(model: SchedulerModel<J>, id: u64)
    requires
        model.is_next_query(id),
    ensures
        model.next_query() == Some(id),
{
    let chosen = choose|other: u64| model.is_next_query(other);
    assert(model.is_next_query(chosen));
    if chosen != id {
        assert(model.is_eligible(chosen));
        assert(model.is_eligible(id));
        assert(model.goes_before(id, chosen));
        assert(model.goes_before(chosen, id));
    }
}

/// The number of guards whose split is waiting on a permit.
pub open spec fn num_waiting(guards: Seq<SchedulerSplitGuard>) -> nat
    decreases guards.len(),
{
    if guards.len() == 0 {
        0
    } else {
        num_waiting(guards.drop_last()) + if guards.last().waiting_for_permit {
            1nat
        } else {
            0nat
        }
    }
}

/// Whether the state of the query `id` agrees with `guards`, the guards of its unresolved splits:
/// it counts them, it counts those that wait on a permit, and without any the query is forgotten.
pub open spec fn in_sync<J>(
    model: SchedulerModel<J>,
    id: QueryId,
    guards: Seq<SchedulerSplitGuard>,
) -> bool {
    &&& forall|i: int| 0 <= i < guards.len() ==> (#[trigger] guards[i]).query_id == id
    &&& model.queries.contains_key(id.0) <==> guards.len() > 0
    &&& guards.len() > 0 ==> {
        &&& model.queries[id.0].remaining == guards.len()
        &&& model.queries[id.0].waiting_for_permit == num_waiting(guards)
    }
}

proof fn lemma_num_waiting_update(guards: Seq<SchedulerSplitGuard>, i: int, guard: SchedulerSplitGuard)
    requires
        0 <= i < guards.len(),
    ensures
        num_waiting(guards.update(i, guard)) + (if guards[i].waiting_for_permit {
            1nat
        } else {
            0nat
        }) == num_waiting(guards) + (if guard.waiting_for_permit {
            1nat
        } else {
            0nat
        }),
    decreases guards.len(),
{
    let updated = guards.update(i, guard);
    if i == guards.len() - 1 {
        assert(updated.drop_last() =~= guards.drop_last());
    } else {
        lemma_num_waiting_update(guards.drop_last(), i, guard);
        assert(updated.drop_last() =~= guards.drop_last().update(i, guard));
    }
}

proof fn lemma_num_waiting_remove(guards: Seq<SchedulerSplitGuard>, i: int)
    requires
        0 <= i < guards.len(),
    ensures
        num_waiting(guards) == num_waiting(guards.remove(i)) + (if guards[i].waiting_for_permit {
            1nat
        } else {
            0nat
        }),
    decreases guards.len(),
{
    let removed = guards.remove(i);
    if i == guards.len() - 1 {
        assert(removed =~= guards.drop_last());
    } else {
        lemma_num_waiting_remove(guards.drop_last(), i);
        assert(removed.drop_last() =~= guards.drop_last().remove(i));
    }
}

proof fn lemma_all_waiting(guards: Seq<SchedulerSplitGuard>)
    requires
        forall|i: int| 0 <= i < guards.len() ==> (#[trigger] guards[i]).waiting_for_permit,
    ensures
        num_waiting(guards) == guards.len(),
    decreases guards.len(),
{
    if guards.len() > 0 {
        lemma_all_waiting(guards.drop_last());
    }
}

/// Registering a query with at least one split leaves the scheduler in agreement with the guards
/// handed out, all of which wait on a permit.
pub proof fn law_registration_in_sync<J>(
    model: SchedulerModel<J>,
    id: QueryId,
    guards: Seq<SchedulerSplitGuard>,
    total_splits: usize,
    now: u64,
)
    requires
        total_splits > 0,
        guards.len() == total_splits,
        forall|i: int|
            0 <= i < guards.len() ==> (#[trigger] guards[i]).query_id == id
                && guards[i].waiting_for_permit,
    ensures
        in_sync(
            model.handle(ActorMessage::RegisterQuery { query_id: id, total_splits }, now),
            id,
            guards,
        ),
{
    lemma_all_waiting(guards);
}

/// Marking a permit as obtained on a guard that waits for one, and telling the scheduler, keeps
/// the scheduler in agreement with the guards.
pub proof fn law_permit_keeps_sync<J>(
    model: SchedulerModel<J>,
    id: QueryId,
    guards: Seq<SchedulerSplitGuard>,
    i: int,
    now: u64,
)
    requires
        in_sync(model, id, guards),
        0 <= i < guards.len(),
        guards[i].waiting_for_permit,
    ensures
        in_sync(
            model.handle(ActorMessage::PermitObtained(id), now),
            id,
            guards.update(i, SchedulerSplitGuard { waiting_for_permit: false, ..guards[i] }),
        ),
{
    let guard = SchedulerSplitGuard { waiting_for_permit: false, ..guards[i] };
    lemma_num_waiting_update(guards, i, guard);
    let updated = guards.update(i, guard);
    assert forall|k: int| 0 <= k < updated.len() implies (#[trigger] updated[k]).query_id == id by {
        assert(guards[k].query_id == id);
    }
}

/// Resolving a split, whether or not it still waits on a permit, keeps the scheduler in agreement
/// with the guards. In particular the query is forgotten exactly when its last split is resolved.
pub proof fn law_resolution_keeps_sync<J>(
    model: SchedulerModel<J>,
    id: QueryId,
    guards: Seq<SchedulerSplitGuard>,
    i: int,
    now: u64,
)
    requires
        in_sync(model, id, guards),
        0 <= i < guards.len(),
    ensures
        in_sync(
            model.handle(
                ActorMessage::SplitResolved {
                    query_id: id,
                    waiting_for_permit: guards[i].waiting_for_permit,
                },
                now,
            ),
            id,
            guards.remove(i),
        ),
{
    lemma_num_waiting_remove(guards, i);
    let removed = guards.remove(i);
    assert forall|k: int| 0 <= k < removed.len() implies (#[trigger] removed[k]).query_id == id by {
        if k < i {
            assert(guards[k].query_id == id);
        } else {
            assert(guards[k + 1].query_id == id);
        }
    }
}

/// Nothing else touches the split counters of a query: neither a message about another query or
/// about tasks, nor starting tasks.
pub proof fn law_other_events_keep_sync<J>(
    model: SchedulerModel<J>,
    id: QueryId,
    guards: Seq<SchedulerSplitGuard>,
    message: ActorMessage<J>,
    now: u64,
)
    requires
        in_sync(model, id, guards),
        match message {
            ActorMessage::RegisterQuery { query_id, total_splits } => query_id != id,
            ActorMessage::PermitObtained(query_id) => query_id != id,
            ActorMessage::SplitResolved { query_id, waiting_for_permit } => query_id != id,
            _ => true,
        },
    ensures
        in_sync(model.handle(message, now), id, guards),
        in_sync(model.fill_capacity().0, id, guards),
{
    lemma_fill(model);
}

/// A query with `total_splits` splits stays registered until that many splits are resolved, and
/// is then forgotten.
pub proof fn law_query_lifecycle<J>(
    model: SchedulerModel<J>,
    id: QueryId,
    total_splits: usize,
    resolutions: Seq<ActorMessage<J>>,
    now: u64,
)
    requires
        0 < total_splits,
        resolutions.len() <= total_splits,
        forall|i: int|
            0 <= i < resolutions.len() ==> (#[trigger] resolutions[i] matches ActorMessage::SplitResolved {
                query_id,
                waiting_for_permit,
            } && query_id == id),
    ensures
        ({
            let registered = model.handle(
                ActorMessage::RegisterQuery { query_id: id, total_splits },
                now,
            );
            let resolved = registered.handle_all(resolutions, now);
            if resolutions.len() < total_splits {
                resolved.queries.contains_key(id.0) && resolved.queries[id.0].remaining
                    == total_splits - resolutions.len()
            } else {
                !resolved.queries.contains_key(id.0)
            }
        }),
    decreases resolutions.len(),
{
    if resolutions.len() > 0 {
        let shorter = resolutions.drop_last();
        assert forall|i: int| 0 <= i < shorter.len() implies (#[trigger] shorter[i] matches ActorMessage::SplitResolved {
            query_id,
            waiting_for_permit,
        } && query_id == id) by {
            assert(resolutions[i] == shorter[i]);
        }
        law_query_lifecycle(model, id, total_splits, shorter, now);
        let last = resolutions[resolutions.len() - 1];
        assert(resolutions.last() == last);
    }
}

/// What filling the capacity does, besides the choice of tasks.
proof fn lemma_fill<J>(model: SchedulerModel<J>)
    ensures
        ({
            let (filled, jobs) = model.fill_capacity();
            &&& filled.num_threads == model.num_threads
            &&& filled.running_count == model.running_count + jobs.len()
            &&& model.running_count <= model.num_threads ==> filled.running_count
                <= model.num_threads
            &&& filled.running_count >= model.num_threads || filled.pick_next() is None
            &&& filled.queries.dom() == model.queries.dom()
            &&& filled.high_priority_queue.len() <= model.high_priority_queue.len()
            &&& filled.high_priority_queue == model.high_priority_queue.skip(
                model.high_priority_queue.len() - filled.high_priority_queue.len(),
            )
            &&& forall|id: u64| #[trigger]
                model.queries.contains_key(id) ==> {
                    let before = model.queries[id];
                    let after = filled.queries[id];
                    &&& after.waiting_for_permit == before.waiting_for_permit
                    &&& after.remaining == before.remaining
                    &&& after.created_at == before.created_at
                    &&& after.ready.len() <= before.ready.len()
                    &&& after.ready == before.ready.skip(before.ready.len() - after.ready.len())
                    &&& after.running_count - before.running_count == before.ready.len()
                        - after.ready.len()
                }
        }),
    decreases model.num_threads - model.running_count,
{
    let (filled, jobs) = model.fill_capacity();
    if model.running_count < model.num_threads && model.pick_next() is Some {
        let (job, picked) = model.pick_next()->0;
        let started = SchedulerModel {
            running_count: model.running_count + 1,
            num_threads: model.num_threads,
            high_priority_queue: picked.high_priority_queue,
            queries: picked.queries,
        };
        lemma_fill(started);
        let (last, rest) = started.fill_capacity();
        assert(filled == last);
        if model.high_priority_queue.len() == 0 {
            let id = model.next_query()->0;
            assert(model.is_next_query(id));
            assert(picked.queries.dom() =~= model.queries.dom());
        }
        let k = started.high_priority_queue.len() - filled.high_priority_queue.len();
        assert(filled.high_priority_queue =~= model.high_priority_queue.skip(
            model.high_priority_queue.len() - filled.high_priority_queue.len(),
        ));
        assert forall|id: u64| #[trigger] model.queries.contains_key(id) implies {
            let before = model.queries[id];
            let after = filled.queries[id];
            &&& after.waiting_for_permit == before.waiting_for_permit
            &&& after.remaining == before.remaining
            &&& after.created_at == before.created_at
            &&& after.ready.len() <= before.ready.len()
            &&& after.ready == before.ready.skip(before.ready.len() - after.ready.len())
            &&& after.running_count - before.running_count == before.ready.len() - after.ready.len()
        } by {
            assert(started.queries.contains_key(id));
            let before = model.queries[id];
            let after = filled.queries[id];
            assert(after.ready =~= before.ready.skip(before.ready.len() - after.ready.len()));
        }
    } else {
        assert(model.high_priority_queue =~= model.high_priority_queue.skip(0));
        assert forall|id: u64| #[trigger] model.queries.contains_key(id) implies model.queries[id].ready
            == model.queries[id].ready.skip(0) by {
            assert(model.queries[id].ready =~= model.queries[id].ready.skip(0));
        }
    }
}

/// The scheduler never has more tasks running than there are workers: neither messages nor
/// starting tasks break that bound.
pub proof fn law_running_bounded<J>(model: SchedulerModel<J>, message: ActorMessage<J>, now: u64)
    requires
        model.running_count <= model.num_threads,
    ensures
        model.handle(message, now).num_threads == model.num_threads,
        model.handle(message, now).running_count <= model.num_threads,
        model.fill_capacity().0.num_threads == model.num_threads,
        model.fill_capacity().0.running_count <= model.num_threads,
{
    lemma_fill(model);
}

/// No worker stays idle while a task may start: once the capacity is filled, either every worker
/// is busy, or no high priority task is queued and no query is eligible.
pub proof fn law_work_conserving<J>(model: SchedulerModel<J>)
    requires
        model.queries.dom().finite(),
    ensures
        ({
            let filled = model.fill_capacity().0;
            ||| filled.running_count >= filled.num_threads
            ||| filled.high_priority_queue.len() == 0 && forall|id: u64| !filled.is_eligible(id)
        }),
{
    lemma_fill(model);
    let filled = model.fill_capacity().0;
    if filled.running_count < filled.num_threads {
        assert forall|id: u64| !filled.is_eligible(id) by {
            if filled.is_eligible(id) {
                law_eligible_query_is_picked(filled, id);
            }
        }
    }
}

/// Tasks leave their queues from the front, and only queued tasks are started: the queues after
/// filling the capacity are suffixes of the queues before, the set of registered queries and their
/// split counters are untouched, and each query's running count grows by the number of its tasks
/// that left.
pub proof fn law_queues_are_fifo<J>(model: SchedulerModel<J>)
    ensures
        ({
            let (filled, jobs) = model.fill_capacity();
            &&& filled.high_priority_queue.len() <= model.high_priority_queue.len()
            &&& filled.high_priority_queue == model.high_priority_queue.skip(
                model.high_priority_queue.len() - filled.high_priority_queue.len(),
            )
            &&& filled.queries.dom() == model.queries.dom()
            &&& forall|id: u64| #[trigger]
                model.queries.contains_key(id) ==> {
                    let before = model.queries[id];
                    let after = filled.queries[id];
                    &&& after.waiting_for_permit == before.waiting_for_permit
                    &&& after.remaining == before.remaining
                    &&& after.created_at == before.created_at
                    &&& after.ready.len() <= before.ready.len()
                    &&& after.ready == before.ready.skip(before.ready.len() - after.ready.len())
                    &&& after.running_count - before.running_count == before.ready.len()
                        - after.ready.len()
                }
            &&& forall|j: int|
                0 <= j < jobs.len() ==> model.high_priority_queue.contains(#[trigger] jobs[j])
                    || exists|id: u64|
                    model.queries.contains_key(id) && #[trigger] model.queries[id].ready.contains(
                        jobs[j],
                    )
        }),
    decreases model.num_threads - model.running_count,
{
    lemma_fill(model);
    let (filled, jobs) = model.fill_capacity();
    if model.running_count < model.num_threads && model.pick_next() is Some {
        let (job, picked) = model.pick_next()->0;
        let started = SchedulerModel {
            running_count: model.running_count + 1,
            num_threads: model.num_threads,
            high_priority_queue: picked.high_priority_queue,
            queries: picked.queries,
        };
        law_queues_are_fifo(started);
        let rest = started.fill_capacity().1;
        assert(jobs == seq![job] + rest);
        assert forall|j: int| 0 <= j < jobs.len() implies model.high_priority_queue.contains(
            #[trigger] jobs[j],
        ) || exists|id: u64|
            model.queries.contains_key(id) && #[trigger] model.queries[id].ready.contains(
                jobs[j],
            ) by {
            if j == 0 {
                if model.high_priority_queue.len() > 0 {
                    assert(model.high_priority_queue[0] == job);
                } else {
                    let id = model.next_query()->0;
                    assert(model.is_next_query(id));
                    assert(model.queries[id].ready[0] == job);
                    assert(model.queries[id].ready.contains(job));
                }
            } else {
                assert(jobs[j] == rest[j - 1]);
                if started.high_priority_queue.contains(rest[j - 1]) {
                    let k = choose|k: int|
                        0 <= k < started.high_priority_queue.len()
                            && started.high_priority_queue[k] == rest[j - 1];
                    if model.high_priority_queue.len() > 0 {
                        assert(model.high_priority_queue[k + 1] == rest[j - 1]);
                    } else {
                        assert(model.high_priority_queue[k] == rest[j - 1]);
                    }
                } else {
                    let id = choose|id: u64|
                        started.queries.contains_key(id)
                            && #[trigger] started.queries[id].ready.contains(rest[j - 1]);
                    let k = choose|k: int|
                        0 <= k < started.queries[id].ready.len() && started.queries[id].ready[k]
                            == rest[j - 1];
                    if model.high_priority_queue.len() == 0 && id == model.next_query()->0 {
                        assert(model.is_next_query(id));
                        assert(model.queries[id].ready[k + 1] == rest[j - 1]);
                    } else {
                        assert(model.queries[id].ready[k] == rest[j - 1]);
                    }
                    if model.high_priority_queue.len() == 0 {
                        assert(model.is_next_query(model.next_query()->0));
                    }
                    assert(model.queries[id].ready.contains(jobs[j]));
                }
            }
        }
    }
}

/// High priority tasks always start first, in the order in which they were queued.
pub proof fn law_high_priority_first<J>(model: SchedulerModel<J>, k: int)
    requires
        0 <= k <= model.high_priority_queue.len(),
        k <= model.num_threads - model.running_count,
    ensures
        model.fill_capacity().1.len() >= k,
        model.fill_capacity().1.take(k) == model.high_priority_queue.take(k),
    decreases k,
{
    let jobs = model.fill_capacity().1;
    if k > 0 {
        let (job, picked) = model.pick_next()->0;
        let started = SchedulerModel {
            running_count: model.running_count + 1,
            num_threads: model.num_threads,
            high_priority_queue: picked.high_priority_queue,
            queries: picked.queries,
        };
        law_high_priority_first(started, k - 1);
        let rest = started.fill_capacity().1;
        assert(jobs == seq![job] + rest);
        assert forall|i: int| 0 <= i < k implies jobs.take(k)[i] == model.high_priority_queue.take(
            k,
        )[i] by {
            if i > 0 {
                assert(jobs[i] == rest.take(k - 1)[i - 1]);
                assert(started.high_priority_queue.take(k - 1)[i - 1]
                    == model.high_priority_queue[i]);
            }
        }
    }
    assert(jobs.take(k) =~= model.high_priority_queue.take(k));
}

/// As many messages that free a worker as tasks were started bring the running count back.
pub proof fn law_running_count_drains<J>(
    model: SchedulerModel<J>,
    messages: Seq<ActorMessage<J>>,
    now: u64,
)
    requires
        messages.len() <= model.fill_capacity().1.len(),
        forall|i: int| 0 <= i < messages.len() ==> #[trigger] messages[i] is CapacityFreed,
    ensures
        model.fill_capacity().0.handle_all(messages, now).running_count == model.running_count
            + model.fill_capacity().1.len() - messages.len(),
    decreases messages.len(),
{
    lemma_fill(model);
    if messages.len() > 0 {
        let shorter = messages.drop_last();
        assert forall|i: int| 0 <= i < shorter.len() implies #[trigger] shorter[i] is CapacityFreed by {
            assert(messages[i] == shorter[i]);
        }
        law_running_count_drains(model, shorter, now);
        assert(messages[messages.len() - 1] is CapacityFreed);
    }
}

/// A set of queries has a first one among the eligible ones.
proof fn lemma_first_eligible<J>(model: SchedulerModel<J>, ids: Set<u64>)
    requires
        ids.finite(),
        exists|id: u64| #[trigger] ids.contains(id) && model.is_eligible(id),
    ensures
        exists|id: u64| #[trigger]
            ids.contains(id) && model.is_eligible(id) && forall|other: u64| #[trigger]
                ids.contains(other) && model.is_eligible(other) && other != id
                    ==> model.goes_before(id, other),
    decreases ids.len(),
{
    let a = choose|id: u64| #[trigger] ids.contains(id) && model.is_eligible(id);
    let rest = ids.remove(a);
    if exists|id: u64| #[trigger] rest.contains(id) && model.is_eligible(id) {
        lemma_first_eligible(model, rest);
        let b = choose|id: u64| #[trigger]
            rest.contains(id) && model.is_eligible(id) && forall|other: u64| #[trigger]
                rest.contains(other) && model.is_eligible(other) && other != id
                    ==> model.goes_before(id, other);
        let first = if model.goes_before(a, b) {
            a
        } else {
            b
        };
        assert(ids.contains(first) && model.is_eligible(first));
        assert forall|other: u64| #[trigger]
            ids.contains(other) && model.is_eligible(other) && other
                != first implies model.goes_before(first, other) by {
            if other != a {
                assert(rest.contains(other));
            }
        }
    } else {
        assert(ids.contains(a));
        assert forall|other: u64| #[trigger]
            ids.contains(other) && model.is_eligible(other) && other
                != a implies model.goes_before(a, other) by {
            assert(rest.contains(other));
        }
    }
}

/// While a query is eligible, some task is picked.
pub proof fn law_eligible_query_is_picked<J>(model: SchedulerModel<J>, id: u64)
    requires
        model.queries.dom().finite(),
        model.is_eligible(id),
    ensures
        model.pick_next() is Some,
        model.next_query() is Some,
{
    let ids = model.queries.dom();
    assert(ids.contains(id));
    lemma_first_eligible(model, ids);
    let first = choose|first: u64| #[trigger]
        ids.contains(first) && model.is_eligible(first) && forall|other: u64| #[trigger]
            ids.contains(other) && model.is_eligible(other) && other != first
                ==> model.goes_before(first, other);
    assert(model.is_next_query(first));
}

/// Without high priority tasks, the picked task is the oldest one of a query under its cap, that
/// no other query under its cap precedes: fewer splits wait on a permit, or as many and fewer
/// splits remain, or as many and the query is older.
pub proof fn law_closest_to_completion_first<J>(model: SchedulerModel<J>, other: u64)
    requires
        model.high_priority_queue.len() == 0,
        model.pick_next() is Some,
        model.is_eligible(other),
    ensures
        model.next_query() is Some,
        ({
            let id = model.next_query()->0;
            let query = model.queries[id];
            let competitor = model.queries[other];
            &&& model.is_eligible(id)
            &&& (model.pick_next()->0).0 == query.ready[0]
            &&& query.waiting_for_permit <= competitor.waiting_for_permit
            &&& query.waiting_for_permit == competitor.waiting_for_permit ==> query.remaining
                <= competitor.remaining
            &&& query.waiting_for_permit == competitor.waiting_for_permit && query.remaining
                == competitor.remaining ==> query.created_at <= competitor.created_at
        }),
{
    let id = model.next_query()->0;
    assert(model.is_next_query(id));
}

/// Picking a query's task keeps its running count within the cap, and leaves the others alone.
pub proof fn law_cap_is_respected<J>(model: SchedulerModel<J>)
    requires
        model.high_priority_queue.len() == 0,
        model.pick_next() is Some,
    ensures
        ({
            let id = model.next_query()->0;
            let picked = (model.pick_next()->0).1;
            &&& model.queries.contains_key(id)
            &&& picked.queries[id].running_count == model.queries[id].running_count + 1
            &&& picked.queries[id].running_count <= model.current_cap()
            &&& picked.queries.remove(id) == model.queries.remove(id)
        }),
{
    let id = model.next_query()->0;
    assert(model.is_next_query(id));
    let picked = (model.pick_next()->0).1;
    assert(picked.queries.remove(id) =~= model.queries.remove(id));
}

/// The cap is an equal share of the workers: the competing queries can use all the workers
/// together, and could not with a lower cap. Queries without queued tasks do not count, so that a
/// query that competes alone may use the whole pool.
pub proof fn law_cap_shares_the_pool<J>(model: SchedulerModel<J>)
    ensures
        ({
            let competing = model.competing_queries().len();
            let cap = model.current_cap();
            &&& competing <= 1 ==> cap == model.num_threads
            &&& competing >= 1 ==> competing * cap >= model.num_threads
            &&& competing >= 1 && cap >= 1 ==> competing * (cap - 1) < model.num_threads
        }),
{
    let n = model.num_threads as int;
    let competing = model.competing_queries().len();
    let d: int = if competing == 0 {
        1
    } else {
        competing as int
    };
    let cap = model.current_cap() as int;
    assert(n / 1 == n && n % 1 == 0);
    assert(d * cap >= n && (cap >= 1 ==> d * (cap - 1) < n)) by (nonlinear_arith)
        requires
            n >= 0,
            d >= 1,
            cap == if n % d == 0 {
                n / d
            } else {
                n / d + 1
            },
    ;
}

/// Two ids handed out by the same source, less than 2^64 calls apart, differ.
pub proof fn law_query_ids_are_fresh(first: u64, calls: nat)
    requires
        0 < calls < 0x1_0000_0000_0000_0000,
    ensures
        (first + calls) % 0x1_0000_0000_0000_0000 != first,
{
}

/// No queued task is lost while its query stays registered, and none is added but by queuing it: a
/// message leaves the queue of every query as it is, unless it queues a task of that very query,
/// which goes to the end, or registers the query. The same goes for high priority tasks, to which
/// those of queries that are not registered are added.
pub proof fn law_no_queued_task_is_lost<J>(
    model: SchedulerModel<J>,
    message: ActorMessage<J>,
    now: u64,
    id: u64,
)
    ensures
        ({
            let after = model.handle(message, now);
            &&& model.queries.contains_key(id) && after.queries.contains_key(id) ==> match message {
                ActorMessage::EnqueueFair(query_id, job) if query_id.0 == id => {
                    after.queries[id].ready == model.queries[id].ready + seq![job]
                },
                ActorMessage::RegisterQuery { query_id, total_splits } if query_id.0 == id => {
                    after.queries[id].ready.len() == 0
                },
                _ => after.queries[id].ready == model.queries[id].ready,
            }
            &&& match message {
                ActorMessage::EnqueueFifo(job) => after.high_priority_queue
                    == model.high_priority_queue + seq![job],
                ActorMessage::EnqueueFair(query_id, job) if !model.queries.contains_key(
                    query_id.0,
                ) => after.high_priority_queue == model.high_priority_queue + seq![job],
                _ => after.high_priority_queue == model.high_priority_queue,
            }
        }),
{
}

/// Queries come and go by two messages only: a registration, and the resolution of a split when no
/// other split remains. A query is new from its registration on: no task queued or running, and all
/// its splits waiting on a permit.
pub proof fn law_queries_come_and_go<J>(
    model: SchedulerModel<J>,
    message: ActorMessage<J>,
    now: u64,
    id: u64,
)
    ensures
        ({
            let after = model.handle(message, now);
            match message {
                ActorMessage::RegisterQuery { query_id, total_splits } if query_id.0 == id => {
                    &&& after.queries.contains_key(id)
                    &&& after.queries[id].ready.len() == 0
                    &&& after.queries[id].running_count == 0
                    &&& after.queries[id].waiting_for_permit == total_splits
                    &&& after.queries[id].remaining == total_splits
                    &&& after.queries[id].created_at == now
                },
                ActorMessage::SplitResolved { query_id, waiting_for_permit } if query_id.0 == id => {
                    after.queries.contains_key(id) <==> model.queries.contains_key(id)
                        && model.queries[id].remaining >= 2
                },
                _ => after.queries.contains_key(id) <==> model.queries.contains_key(id),
            }
        }),
{
}

/// The counts of a query change only by the messages about them, and by one: a finished task of the
/// query is no longer running, a permit obtained is no longer waited for, and a resolved split no
/// longer remains, nor waits on a permit if it did. A query keeps its age. Only a freed worker
/// changes the number of running tasks, and nothing that of workers.
pub proof fn law_counts_change_by_their_messages<J>(
    model: SchedulerModel<J>,
    message: ActorMessage<J>,
    now: u64,
    id: u64,
)
    ensures
        ({
            let after = model.handle(message, now);
            &&& after.num_threads == model.num_threads
            &&& message is CapacityFreed && model.running_count > 0 ==> after.running_count
                == model.running_count - 1
            &&& !(message is CapacityFreed) || model.running_count == 0 ==> after.running_count
                == model.running_count
            &&& model.queries.contains_key(id) && after.queries.contains_key(id) && !(
            message matches ActorMessage::RegisterQuery { query_id, total_splits } && query_id.0
                == id) ==> {
                let query = model.queries[id];
                let updated = after.queries[id];
                let finished = message matches ActorMessage::QueryTaskFinished(query_id)
                    && query_id.0 == id;
                let permitted = message matches ActorMessage::PermitObtained(query_id) && query_id.0
                    == id;
                let resolved = message matches ActorMessage::SplitResolved {
                    query_id,
                    waiting_for_permit,
                } && query_id.0 == id;
                let resolved_waiting = message matches ActorMessage::SplitResolved {
                    query_id,
                    waiting_for_permit,
                } && query_id.0 == id && waiting_for_permit;
                &&& updated.created_at == query.created_at
                &&& finished && query.running_count > 0 ==> updated.running_count
                    == query.running_count - 1
                &&& !finished || query.running_count == 0 ==> updated.running_count
                    == query.running_count
                &&& (permitted || resolved_waiting) && query.waiting_for_permit > 0
                    ==> updated.waiting_for_permit == query.waiting_for_permit - 1
                &&& !(permitted || resolved_waiting) || query.waiting_for_permit == 0
                    ==> updated.waiting_for_permit == query.waiting_for_permit
                &&& resolved ==> updated.remaining == query.remaining - 1
                &&& !resolved ==> updated.remaining == query.remaining
            }
        }),
{
}

/// A query competes for the workers if it is registered and has a task queued, and a task of it may
/// start if it has fewer tasks running than its share: the number of workers divided among the
/// competing queries, rounded up.
pub proof fn law_who_may_start<J>(model: SchedulerModel<J>, id: u64)
    requires
        model.queries.dom().finite(),
    ensures
        model.competing_queries().contains(id) <==> model.queries.contains_key(id)
            && model.queries[id].ready.len() > 0,
        model.is_eligible(id) <==> model.queries.contains_key(id) && model.queries[id].ready.len()
            > 0 && model.queries[id].running_count * model.competing_queries().len()
            < model.num_threads,
{
    let n = model.num_threads as int;
    let running = model.queries[id].running_count as int;
    let competing = model.competing_queries();
    if model.queries.contains_key(id) && model.queries[id].ready.len() > 0 {
        assert(competing.contains(id));
        vstd::set_lib::lemma_len_subset(competing, model.queries.dom());
        assert(competing.len() > 0) by {
            if competing.len() == 0 {
                assert(competing =~= Set::empty());
            }
        }
        let d = competing.len() as int;
        let cap = model.current_cap() as int;
        assert(running < cap <==> running * d < n) by (nonlinear_arith)
            requires
                n >= 0,
                d >= 1,
                running >= 0,
                cap == if n % d == 0 {
                    n / d
                } else {
                    n / d + 1
                },
        ;
    }
}

/// A worker stays idle only if no high priority task is queued, and every query with a queued task
/// has its share of the workers already.
pub proof fn law_no_worker_idles<J>(model: SchedulerModel<J>, id: u64)
    requires
        model.queries.dom().finite(),
        model.fill_capacity().0.running_count < model.num_threads,
    ensures
        ({
            let filled = model.fill_capacity().0;
            &&& filled.high_priority_queue.len() == 0
            &&& filled.queries.contains_key(id) && filled.queries[id].ready.len() > 0
                ==> filled.queries[id].running_count * filled.competing_queries().len()
                >= filled.num_threads
        }),
{
    lemma_fill(model);
    law_work_conserving(model);
    law_queues_are_fifo(model);
    let filled = model.fill_capacity().0;
    law_who_may_start(filled, id);
}

/// The first task that starts is the oldest high priority task, or else the oldest one of a query
/// that may start one, such that no other query that may start one has fewer splits waiting on a
/// permit, or as many and fewer remaining, or as many and is older. It leaves its queue, and nothing
/// else changes but the counts of running tasks. The other tasks that start are those that would
/// start then.
pub proof fn law_tasks_start_one_by_one<J>(model: SchedulerModel<J>)
    requires
        model.running_count < model.num_threads,
        model.fill_capacity().1.len() > 0,
    ensures
        exists|started: SchedulerModel<J>, id: u64|
            {
                let jobs = model.fill_capacity().1;
                &&& #[trigger] started.fill_capacity() == (
                    model.fill_capacity().0,
                    jobs.skip(1),
                )
                &&& started.num_threads == model.num_threads
                &&& started.running_count == model.running_count + 1
                &&& if model.high_priority_queue.len() > 0 {
                    &&& model.high_priority_queue == seq![jobs[0]] + started.high_priority_queue
                    &&& #[trigger] started.queries.remove(id) == model.queries.remove(id)
                    &&& started.queries == model.queries
                } else {
                    &&& started.high_priority_queue == model.high_priority_queue
                    &&& started.queries.remove(id) == model.queries.remove(id)
                    &&& started.queries.dom() == model.queries.dom()
                    &&& model.is_eligible(id)
                    &&& model.queries[id].ready == seq![jobs[0]] + started.queries[id].ready
                    &&& started.queries[id].running_count == model.queries[id].running_count + 1
                    &&& started.queries[id].waiting_for_permit
                        == model.queries[id].waiting_for_permit
                    &&& started.queries[id].remaining == model.queries[id].remaining
                    &&& started.queries[id].created_at == model.queries[id].created_at
                    &&& forall|other: u64| #[trigger]
                        model.is_eligible(other) ==> {
                            let a = model.queries[id];
                            let b = model.queries[other];
                            &&& a.waiting_for_permit <= b.waiting_for_permit
                            &&& a.waiting_for_permit == b.waiting_for_permit ==> a.remaining
                                <= b.remaining
                            &&& a.waiting_for_permit == b.waiting_for_permit && a.remaining
                                == b.remaining ==> a.created_at <= b.created_at
                        }
                }
            },
{
    let (job, picked) = model.pick_next()->0;
    let started = SchedulerModel {
        running_count: model.running_count + 1,
        num_threads: model.num_threads,
        high_priority_queue: picked.high_priority_queue,
        queries: picked.queries,
    };
    let jobs = model.fill_capacity().1;
    let rest = started.fill_capacity().1;
    assert(jobs == seq![job] + rest);
    assert(jobs.skip(1) =~= rest);
    if model.high_priority_queue.len() > 0 {
        assert(model.high_priority_queue =~= seq![job] + started.high_priority_queue);
        assert(started.queries.remove(0) == model.queries.remove(0));
    } else {
        let id = model.next_query()->0;
        assert(model.is_next_query(id));
        assert(started.queries.remove(id) =~= model.queries.remove(id));
        assert(started.queries.dom() =~= model.queries.dom());
        assert(model.queries[id].ready =~= seq![job] + started.queries[id].ready);
    }
}

} // verus!
