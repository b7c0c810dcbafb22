//! Maintenance mode of the control plane.
//!
//! While maintenance mode is enabled, the indexing plan is frozen. The frozen plan and the
//! maintenance metadata are persisted together, so that they survive restarts: serialized in the
//! `postcard` format and, in the metastore, encoded in base64 under the key
//! [`KV_KEY_MAINTENANCE_STATE`].
use base64::Engine;
use vstd::prelude::*;

verus! {

/// Key in the metastore `kv` table for the combined maintenance state.
pub const KV_KEY_MAINTENANCE_STATE: &'static str = "maintenance_state";

/// Whether the characters from position `from` up to `to` are decimal digits.
pub open spec fn digits_between(s: Seq<char>, from: int, to: int) -> bool {
    forall|i: int| from <= i < to ==> '0' <= #[trigger] s[i] <= '9'
}

/// The number that the decimal digits from position `from` up to `to` write.
pub open spec fn number_between(s: Seq<char>, from: int, to: int) -> int
    decreases to - from,
{
    if from >= to {
        0
    } else {
        10 * number_between(s, from, to - 1) + (s[to - 1] as int - '0' as int)
    }
}

/// The number of days of a month of the Gregorian calendar.
pub open spec fn days_in_month(year: int, month: int) -> int {
    if month == 2 {
        if year % 4 == 0 && (year % 100 != 0 || year % 400 == 0) {
            29
        } else {
            28
        }
    } else if month == 4 || month == 6 || month == 9 || month == 11 {
        30
    } else {
        31
    }
}

/// Whether a text is a valid RFC 3339 datetime in UTC, such as `2024-06-15T14:30:00Z` or
/// `2024-06-15T14:30:00.25Z`: a date of the calendar, a time of the day, and up to nine digits of a
/// fraction of a second, the last of which is not zero.
pub open spec fn is_rfc3339_utc(s: Seq<char>) -> bool {
    let year = number_between(s, 0, 4);
    let month = number_between(s, 5, 7);
    &&& s.len() == 20 || 22 <= s.len() <= 30
    &&& digits_between(s, 0, 4)
    &&& s[4] == '-'
    &&& digits_between(s, 5, 7)
    &&& s[7] == '-'
    &&& digits_between(s, 8, 10)
    &&& s[10] == 'T'
    &&& digits_between(s, 11, 13)
    &&& s[13] == ':'
    &&& digits_between(s, 14, 16)
    &&& s[16] == ':'
    &&& digits_between(s, 17, 19)
    &&& s.len() > 20 ==> {
        &&& s[19] == '.'
        &&& digits_between(s, 20, s.len() - 1)
        &&& s[s.len() - 2] != '0'
    }
    &&& s.last() == 'Z'
    &&& 1 <= month <= 12
    &&& 1 <= number_between(s, 8, 10) <= days_in_month(year, month)
    &&& number_between(s, 11, 13) <= 23
    &&& number_between(s, 14, 16) <= 59
    &&& number_between(s, 17, 19) <= 59
}

/// [`time::OffsetDateTime::now_utc`], formatted by the well-known description for RFC 3339. Which
/// datetime it is depends on the clock; that it is a valid one is stated.
#[verifier::external_body]
fn now_rfc3339() -> (now: String)
    ensures
        is_rfc3339_utc(now@),
{
    time::OffsetDateTime::now_utc()
        .format(&time::format_description::well_known::Rfc3339)
        .expect("formatting OffsetDateTime as RFC 3339 should never fail")
}

/// Metadata persisted alongside the maintenance mode flag.
#[derive(Debug, PartialEq)]
pub struct MaintenanceModeMetadata {
    /// RFC 3339 formatted UTC datetime when maintenance mode was enabled.
    pub enabled_at: String,
}

impl Clone for MaintenanceModeMetadata {
    fn clone(&self) -> (copy: MaintenanceModeMetadata)
        ensures
            copy == *self,
    {
        MaintenanceModeMetadata { enabled_at: self.enabled_at.clone() }
    }
}

impl MaintenanceModeMetadata {
    /// Creates a new metadata instance with `enabled_at` set to the current UTC time.
    pub fn new_now() -> (metadata: MaintenanceModeMetadata)
        ensures
            is_rfc3339_utc(metadata.enabled_at@),
    {
        MaintenanceModeMetadata { enabled_at: now_rfc3339() }
    }
}

/// In-memory maintenance mode state for the control plane.
#[derive(Debug)]
pub struct MaintenanceState {
    /// If `Some`, maintenance mode is active with the given metadata.
    metadata: Option<MaintenanceModeMetadata>,
}

impl View for MaintenanceState {
    type V = Option<MaintenanceModeMetadata>;

    closed spec fn view(&self) -> Option<MaintenanceModeMetadata> {
        self.metadata
    }
}

impl Clone for MaintenanceState {
    fn clone(&self) -> (copy: MaintenanceState)
        ensures
            copy == *self,
    {
        match &self.metadata {
            Some(metadata) => MaintenanceState { metadata: Some(metadata.clone()) },
            None => MaintenanceState { metadata: None },
        }
    }
}

impl Default for MaintenanceState {
    /// Maintenance mode is not active.
    fn default() -> (state: MaintenanceState)
        ensures
            state@ is None,
    {
        MaintenanceState { metadata: None }
    }
}

impl MaintenanceState {
    /// Returns `true` if maintenance mode is currently active.
    pub fn is_active(&self) -> (active: bool)
        ensures
            active == self@ is Some,
    {
        self.metadata.is_some()
    }

    /// Returns the metadata if maintenance mode is active.
    pub fn metadata(&self) -> (metadata: Option<&MaintenanceModeMetadata>)
        ensures
            match metadata {
                Some(metadata) => self@ == Some(*metadata),
                None => self@ is None,
            },
    {
        self.metadata.as_ref()
    }

    /// Enables maintenance mode as of now. Returns the metadata that was set.
    pub fn enable(&mut self) -> (metadata: MaintenanceModeMetadata)
        ensures
            final(self)@ == Some(metadata),
            is_rfc3339_utc(metadata.enabled_at@),
    {
        self.enable_at(now_rfc3339())
    }

    /// Enables maintenance mode as of the given datetime. Returns the metadata that was set.
    pub fn enable_at(&mut self, enabled_at: String) -> (metadata: MaintenanceModeMetadata)
        ensures
            final(self)@ == Some(metadata),
            metadata.enabled_at == enabled_at,
    {
        let metadata = MaintenanceModeMetadata { enabled_at };
        self.metadata = Some(metadata.clone());
        metadata
    }

    /// Disables maintenance mode. Returns `true` if it was previously active.
    pub fn disable(&mut self) -> (was_active: bool)
        ensures
            final(self)@ is None,
            was_active == old(self)@ is Some,
    {
        let was_active = self.metadata.is_some();
        self.metadata = None;
        was_active
    }

    /// Loads maintenance state from persisted metadata.
    pub fn load_from_metadata(&mut self, metadata: MaintenanceModeMetadata)
        ensures
            final(self)@ == Some(metadata),
    {
        self.metadata = Some(metadata);
    }
}

/// The contents of some strings.
pub open spec fn texts(strings: Seq<String>) -> Seq<Seq<char>> {
    strings.map_values(|s: String| s@)
}

/// A task of an indexer.
#[derive(Debug, PartialEq)]
pub struct IndexingTask {
    pub index_uid: String,
    pub source_id: String,
    pub pipeline_uid: String,
    pub shard_ids: Vec<String>,
    pub params_fingerprint: u64,
}

/// Mathematical content of an [`IndexingTask`].
#[verifier::ext_equal]
pub struct TaskModel {
    pub index_uid: Seq<char>,
    pub source_id: Seq<char>,
    pub pipeline_uid: Seq<char>,
    pub shard_ids: Seq<Seq<char>>,
    pub params_fingerprint: u64,
}

impl View for IndexingTask {
    type V = TaskModel;

    open spec fn view(&self) -> TaskModel {
        TaskModel {
            index_uid: self.index_uid@,
            source_id: self.source_id@,
            pipeline_uid: self.pipeline_uid@,
            shard_ids: texts(self.shard_ids@),
            params_fingerprint: self.params_fingerprint,
        }
    }
}

/// The contents of some tasks.
pub open spec fn task_models(tasks: Seq<IndexingTask>) -> Seq<TaskModel> {
    tasks.map_values(|task: IndexingTask| task@)
}

/// Copies some strings.
fn copy_strings(strings: &Vec<String>) -> (copy: Vec<String>)
    ensures
        texts(copy@) == texts(strings@),
{
    let mut copy: Vec<String> = Vec::new();
    for i in 0..strings.len()
        invariant
            copy@.len() == i,
            forall|k: int| 0 <= k < i ==> (#[trigger] copy@[k])@ == strings@[k]@,
    {
        copy.push(strings[i].clone());
    }
    proof {
        assert(texts(copy@) =~= texts(strings@));
    }
    copy
}

impl Clone for IndexingTask {
    fn clone(&self) -> (copy: IndexingTask)
        ensures
            copy@ == self@,
    {
        IndexingTask {
            index_uid: self.index_uid.clone(),
            source_id: self.source_id.clone(),
            pipeline_uid: self.pipeline_uid.clone(),
            shard_ids: copy_strings(&self.shard_ids),
            params_fingerprint: self.params_fingerprint,
        }
    }
}

/// Copies some tasks.
fn copy_tasks(tasks: &Vec<IndexingTask>) -> (copy: Vec<IndexingTask>)
    ensures
        task_models(copy@) == task_models(tasks@),
{
    let mut copy: Vec<IndexingTask> = Vec::new();
    for i in 0..tasks.len()
        invariant
            copy@.len() == i,
            forall|k: int| 0 <= k < i ==> (#[trigger] copy@[k])@ == tasks@[k]@,
    {
        copy.push(tasks[i].clone());
    }
    proof {
        assert(task_models(copy@) =~= task_models(tasks@));
    }
    copy
}

/// Assigns tasks to indexers. Each indexer occurs once.
#[derive(Debug, PartialEq)]
pub struct PhysicalIndexingPlan {
    indexing_tasks_per_indexer_id: Vec<(String, Vec<IndexingTask>)>,
}

/// Mathematical content of an entry of a plan.
pub open spec fn entry_model(entry: (String, Vec<IndexingTask>)) -> (Seq<char>, Seq<TaskModel>) {
    (entry.0@, task_models(entry.1@))
}

/// The tasks of each indexer that a list of entries stands for: the last entry counts.
pub open spec fn plan_map(entries: Seq<(Seq<char>, Seq<TaskModel>)>) -> Map<
    Seq<char>,
    Seq<TaskModel>,
>
    decreases entries.len(),
{
    if entries.len() == 0 {
        Map::empty()
    } else {
        plan_map(entries.drop_last()).insert(entries.last().0, entries.last().1)
    }
}

/// Whether no indexer occurs twice.
pub open spec fn distinct_indexers(entries: Seq<(Seq<char>, Seq<TaskModel>)>) -> bool {
    forall|i: int, j: int|
        0 <= i < j < entries.len() ==> (#[trigger] entries[i]).0 != (#[trigger] entries[j]).0
}

impl PhysicalIndexingPlan {
    /// The entries of the plan.
    pub closed spec fn entries(self) -> Seq<(Seq<char>, Seq<TaskModel>)> {
        self.indexing_tasks_per_indexer_id@.map_values(
            |entry: (String, Vec<IndexingTask>)| entry_model(entry),
        )
    }

    /// No indexer occurs twice.
    pub open spec fn wf(self) -> bool {
        distinct_indexers(self.entries())
    }
}

impl Clone for PhysicalIndexingPlan {
    fn clone(&self) -> (copy: PhysicalIndexingPlan)
        ensures
            copy.entries() == self.entries(),
    {
        let mut entries: Vec<(String, Vec<IndexingTask>)> = Vec::new();
        for i in 0..self.indexing_tasks_per_indexer_id.len()
            invariant
                entries@.len() == i,
                forall|k: int|
                    0 <= k < i ==> entry_model(#[trigger] entries@[k]) == self.entries()[k],
        {
            let entry = &self.indexing_tasks_per_indexer_id[i];
            entries.push((entry.0.clone(), copy_tasks(&entry.1)));
        }
        let copy = PhysicalIndexingPlan { indexing_tasks_per_indexer_id: entries };
        proof {
            assert(copy.entries() =~= self.entries());
        }
        copy
    }
}

impl View for PhysicalIndexingPlan {
    type V = Map<Seq<char>, Seq<TaskModel>>;

    /// The tasks of each indexer.
    open spec fn view(&self) -> Map<Seq<char>, Seq<TaskModel>> {
        plan_map(self.entries())
    }
}

/// Which indexers a list of entries names, and with which tasks.
proof fn lemma_plan_map(entries: Seq<(Seq<char>, Seq<TaskModel>)>)
    requires
        distinct_indexers(entries),
    ensures
        forall|i: int|
            0 <= i < entries.len() ==> plan_map(entries).contains_key((#[trigger] entries[i]).0)
                && plan_map(entries)[entries[i].0] == entries[i].1,
        forall|id: Seq<char>| #[trigger]
            plan_map(entries).contains_key(id) ==> exists|i: int|
                0 <= i < entries.len() && (#[trigger] entries[i]).0 == id,
        plan_map(entries).dom().finite(),
        plan_map(entries).dom().len() == entries.len(),
    decreases entries.len(),
{
    if entries.len() > 0 {
        let front = entries.drop_last();
        lemma_plan_map(front);
        let last = entries.last();
        assert forall|i: int| 0 <= i < entries.len() implies plan_map(entries).contains_key(
            (#[trigger] entries[i]).0,
        ) && plan_map(entries)[entries[i].0] == entries[i].1 by {
            if i < front.len() {
                assert(front[i] == entries[i]);
                assert(entries[i].0 != entries[entries.len() - 1].0);
            }
        }
        assert forall|id: Seq<char>| #[trigger] plan_map(entries).contains_key(id) implies exists|
            i: int,
        |
            0 <= i < entries.len() && (#[trigger] entries[i]).0 == id by {
            if id == last.0 {
                assert(entries[entries.len() - 1].0 == id);
            } else {
                assert(plan_map(front).contains_key(id));
                let i = choose|i: int| 0 <= i < front.len() && (#[trigger] front[i]).0 == id;
                assert(entries[i].0 == id);
            }
        }
        if plan_map(front).contains_key(last.0) {
            let i = choose|i: int| 0 <= i < front.len() && (#[trigger] front[i]).0 == last.0;
            assert(entries[i].0 != entries[entries.len() - 1].0);
        }
        assert(plan_map(entries).dom() =~= plan_map(front).dom().insert(last.0));
    } else {
        assert(plan_map(entries).dom() =~= Set::empty());
    }
}

/// Replacing the tasks of an indexer.
proof fn lemma_plan_map_update(
    entries: Seq<(Seq<char>, Seq<TaskModel>)>,
    k: int,
    tasks: Seq<TaskModel>,
)
    requires
        distinct_indexers(entries),
        0 <= k < entries.len(),
    ensures
        distinct_indexers(entries.update(k, (entries[k].0, tasks))),
        plan_map(entries.update(k, (entries[k].0, tasks))) == plan_map(entries).insert(
            entries[k].0,
            tasks,
        ),
{
    let updated = entries.update(k, (entries[k].0, tasks));
    assert forall|i: int, j: int| 0 <= i < j < updated.len() implies (#[trigger] updated[i]).0 != (
    #[trigger] updated[j]).0 by {
        assert(entries[i].0 != entries[j].0);
    }
    lemma_plan_map(entries);
    lemma_plan_map(updated);
    let left = plan_map(updated);
    let right = plan_map(entries).insert(entries[k].0, tasks);
    assert forall|id: Seq<char>| left.contains_key(id) == right.contains_key(id) by {
        if left.contains_key(id) {
            let i = choose|i: int| 0 <= i < updated.len() && (#[trigger] updated[i]).0 == id;
            assert(entries[i].0 == id);
        }
        if plan_map(entries).contains_key(id) {
            let i = choose|i: int| 0 <= i < entries.len() && (#[trigger] entries[i]).0 == id;
            assert(updated[i].0 == id);
        }
        assert(updated[k].0 == entries[k].0);
    }
    assert forall|id: Seq<char>| left.contains_key(id) implies left[id] == right[id] by {
        let i = choose|i: int| 0 <= i < updated.len() && (#[trigger] updated[i]).0 == id;
        if i != k {
            assert(entries[i].0 == id);
            if i < k {
                assert(entries[i].0 != entries[k].0);
            } else {
                assert(entries[k].0 != entries[i].0);
            }
        }
    }
    assert(left =~= right);
}

impl PhysicalIndexingPlan {
    /// A plan without indexers.
    pub fn new() -> (plan: PhysicalIndexingPlan)
        ensures
            plan.wf(),
            plan@ == Map::<Seq<char>, Seq<TaskModel>>::empty(),
    {
        PhysicalIndexingPlan { indexing_tasks_per_indexer_id: Vec::new() }
    }

    /// The position of an indexer.
    fn position(&self, indexer_id: &str) -> (position: Option<usize>)
        ensures
            match position {
                Some(i) => i < self.entries().len() && self.entries()[i as int].0 == indexer_id@,
                None => forall|i: int|
                    0 <= i < self.entries().len() ==> (#[trigger] self.entries()[i]).0
                        != indexer_id@,
            },
    {
        let wanted = indexer_id.to_owned();
        for i in 0..self.indexing_tasks_per_indexer_id.len()
            invariant
                wanted@ == indexer_id@,
                forall|k: int| 0 <= k < i ==> (#[trigger] self.entries()[k]).0 != indexer_id@,
        {
            if self.indexing_tasks_per_indexer_id[i].0 == wanted {
                return Some(i);
            }
        }
        None
    }

    /// Sets the tasks of an indexer.
    pub fn set_tasks(&mut self, indexer_id: String, tasks: Vec<IndexingTask>)
        requires
            old(self).wf(),
        ensures
            final(self).wf(),
            final(self)@ == old(self)@.insert(indexer_id@, task_models(tasks@)),
            !old(self)@.contains_key(indexer_id@) ==> final(self).entries() == old(
                self,
            ).entries().push((indexer_id@, task_models(tasks@))),
    {
        let ghost before = self.entries();
        let ghost added = (indexer_id@, task_models(tasks@));
        proof {
            lemma_plan_map(before);
        }
        match self.position(indexer_id.as_str()) {
            Some(i) => {
                proof {
                    lemma_plan_map_update(before, i as int, task_models(tasks@));
                    assert(before[i as int].0 == indexer_id@);
                }
                self.indexing_tasks_per_indexer_id.set(i, (indexer_id, tasks));
                proof {
                    assert(self.entries() =~= before.update(i as int, added));
                }
            },
            None => {
                self.indexing_tasks_per_indexer_id.push((indexer_id, tasks));
                proof {
                    assert(self.entries() =~= before.push(added));
                    assert(self.entries().drop_last() =~= before);
                    let after = self.entries();
                    assert forall|i: int, j: int| 0 <= i < j < after.len() implies (
                    #[trigger] after[i]).0 != (#[trigger] after[j]).0 by {
                        assert(after[i] == before[i]);
                        if j < before.len() {
                            assert(after[j] == before[j]);
                        }
                    }
                }
            },
        }
    }

    /// A plan with the given indexers, none of which has tasks.
    pub fn with_indexer_ids(indexer_ids: &[String]) -> (plan: PhysicalIndexingPlan)
        ensures
            plan.wf(),
            forall|id: Seq<char>|
                plan@.contains_key(id) <==> exists|i: int|
                    0 <= i < indexer_ids@.len() && (#[trigger] indexer_ids@[i])@ == id,
            forall|id: Seq<char>| #[trigger]
                plan@.contains_key(id) ==> plan@[id] == Seq::<TaskModel>::empty(),
    {
        let mut plan = PhysicalIndexingPlan::new();
        for n in 0..indexer_ids.len()
            invariant
                plan.wf(),
                forall|id: Seq<char>|
                    plan@.contains_key(id) <==> exists|i: int|
                        0 <= i < n && (#[trigger] indexer_ids@[i])@ == id,
                forall|id: Seq<char>| #[trigger]
                    plan@.contains_key(id) ==> plan@[id] == Seq::<TaskModel>::empty(),
        {
            let ghost before = plan@;
            let tasks: Vec<IndexingTask> = Vec::new();
            proof {
                assert(task_models(tasks@) =~= Seq::<TaskModel>::empty());
            }
            plan.set_tasks(indexer_ids[n].clone(), tasks);
            proof {
                assert forall|id: Seq<char>| plan@.contains_key(id) implies exists|i: int|
                    0 <= i < n + 1 && (#[trigger] indexer_ids@[i])@ == id by {
                    if id == indexer_ids@[n as int]@ {
                    } else {
                        assert(before.contains_key(id));
                    }
                }
                assert forall|id: Seq<char>|
                    (exists|i: int| 0 <= i < n + 1 && (#[trigger] indexer_ids@[i])@
                        == id) implies plan@.contains_key(id) by {
                    let i = choose|i: int| 0 <= i < n + 1 && (#[trigger] indexer_ids@[i])@ == id;
                    if i < n {
                        assert(before.contains_key(id));
                    }
                }
            }
        }
        plan
    }

    /// Number of indexers.
    pub fn num_indexers(&self) -> (num_indexers: usize)
        requires
            self.wf(),
        ensures
            num_indexers == self@.dom().len(),
    {
        proof {
            lemma_plan_map(self.entries());
        }
        self.indexing_tasks_per_indexer_id.len()
    }

    /// The tasks of an indexer, if the plan has it.
    pub fn indexer(&self, indexer_id: &str) -> (tasks: Option<&Vec<IndexingTask>>)
        requires
            self.wf(),
        ensures
            match tasks {
                Some(tasks) => self@.contains_key(indexer_id@) && self@[indexer_id@] == task_models(
                    tasks@,
                ),
                None => !self@.contains_key(indexer_id@),
            },
    {
        proof {
            lemma_plan_map(self.entries());
        }
        match self.position(indexer_id) {
            Some(i) => Some(&self.indexing_tasks_per_indexer_id[i].1),
            None => None,
        }
    }
}

/// What is persisted: the maintenance metadata and the frozen plan.
#[derive(Debug, PartialEq)]
pub struct MaintenancePersistedState {
    pub metadata: MaintenanceModeMetadata,
    pub frozen_plan: PhysicalIndexingPlan,
}

impl Clone for MaintenancePersistedState {
    fn clone(&self) -> (copy: MaintenancePersistedState)
        ensures
            copy.metadata == self.metadata,
            copy.frozen_plan.entries() == self.frozen_plan.entries(),
    {
        MaintenancePersistedState {
            metadata: self.metadata.clone(),
            frozen_plan: self.frozen_plan.clone(),
        }
    }
}

/// Mathematical content of a [`MaintenancePersistedState`].
#[verifier::ext_equal]
pub struct PersistedModel {
    pub enabled_at: Seq<char>,
    pub frozen_plan: Map<Seq<char>, Seq<TaskModel>>,
}

impl View for MaintenancePersistedState {
    type V = PersistedModel;

    open spec fn view(&self) -> PersistedModel {
        PersistedModel { enabled_at: self.metadata.enabled_at@, frozen_plan: self.frozen_plan@ }
    }
}

/// A task on the wire: index, source, pipeline, shards, and fingerprint of the parameters.
pub type WireTask = (String, String, String, Vec<String>, u64);

/// The persisted state on the wire: the datetime, then the tasks of each indexer.
pub type WireState = (String, Vec<(String, Vec<WireTask>)>);

/// What a [`WireState`] holds.
pub type WireModel = (Seq<char>, Seq<(Seq<char>, Seq<TaskModel>)>);

/// What a [`WireTask`] holds.
pub open spec fn wire_task_model(task: WireTask) -> TaskModel {
    TaskModel {
        index_uid: task.0@,
        source_id: task.1@,
        pipeline_uid: task.2@,
        shard_ids: texts(task.3@),
        params_fingerprint: task.4,
    }
}

/// What an entry on the wire holds.
pub open spec fn wire_entry_model(entry: (String, Vec<WireTask>)) -> (Seq<char>, Seq<TaskModel>) {
    (entry.0@, entry.1@.map_values(|task: WireTask| wire_task_model(task)))
}

/// What a [`WireState`] holds.
pub open spec fn wire_model(state: WireState) -> WireModel {
    (state.0@, state.1@.map_values(|entry: (String, Vec<WireTask>)| wire_entry_model(entry)))
}

/// The error of the `postcard` crate.
#[verifier::external_type_specification]
#[verifier::external_body]
pub struct ExPostcardError(postcard::Error);

/// The bytes that a state is serialized to.
pub uninterp spec fn postcard_bytes(state: WireModel) -> Seq<u8>;

/// The state that some bytes are deserialized to, if they are valid.
pub uninterp spec fn postcard_state(bytes: Seq<u8>) -> Option<WireModel>;

/// [`postcard::to_allocvec`]: serializes a state. It succeeds, since nothing in the state has an
/// unknown length and the output grows as needed, and deserializing gives the state back.
#[verifier::external_body]
fn postcard_encode(state: &WireState) -> (result: Result<Vec<u8>, postcard::Error>)
    ensures
        result is Ok,
        result->Ok_0@ == postcard_bytes(wire_model(*state)),
        postcard_state(result->Ok_0@) == Some(wire_model(*state)),
{
    postcard::to_allocvec(state)
}

/// [`postcard::from_bytes`]: deserializes a state.
#[verifier::external_body]
fn postcard_decode(bytes: &[u8]) -> (result: Result<WireState, postcard::Error>)
    ensures
        match result {
            Ok(state) => postcard_state(bytes@) == Some(wire_model(state)),
            Err(_) => postcard_state(bytes@) is None,
        },
{
    postcard::from_bytes(bytes)
}

/// The error of the `base64` crate.
#[verifier::external_type_specification]
#[verifier::external_body]
pub struct ExBase64Error(base64::DecodeError);

/// The base64 encoding of some bytes.
pub uninterp spec fn base64_text(bytes: Seq<u8>) -> Seq<char>;

/// The bytes that a text encodes in base64, if it is valid.
pub uninterp spec fn base64_bytes(text: Seq<char>) -> Option<Seq<u8>>;

/// [`base64::engine::general_purpose::STANDARD`] encodes bytes. Decoding gives them back.
#[verifier::external_body]
fn base64_encode(bytes: &[u8]) -> (encoded: String)
    ensures
        encoded@ == base64_text(bytes@),
        base64_bytes(encoded@) == Some(bytes@),
{
    base64::engine::general_purpose::STANDARD.encode(bytes)
}

/// [`base64::engine::general_purpose::STANDARD`] decodes a text.
#[verifier::external_body]
fn base64_decode(encoded: &str) -> (result: Result<Vec<u8>, base64::DecodeError>)
    ensures
        match result {
            Ok(bytes) => base64_bytes(encoded@) == Some(bytes@),
            Err(_) => base64_bytes(encoded@) is None,
        },
{
    base64::engine::general_purpose::STANDARD.decode(encoded)
}

/// Why a maintenance state could not be saved or loaded.
#[derive(Clone, Copy, Debug, PartialEq, Eq, Structural)]
pub enum MaintenanceError {
    /// The state could not be serialized.
    Serialize,
    /// The text is not valid base64.
    InvalidBase64,
    /// The bytes are not a valid serialized state.
    Deserialize,
}

/// Puts tasks into their form on the wire.
fn tasks_to_wire(tasks: &Vec<IndexingTask>) -> (wire: Vec<WireTask>)
    ensures
        wire@.map_values(|task: WireTask| wire_task_model(task)) == task_models(tasks@),
{
    let mut wire: Vec<WireTask> = Vec::new();
    for i in 0..tasks.len()
        invariant
            wire@.len() == i,
            forall|k: int| 0 <= k < i ==> wire_task_model(#[trigger] wire@[k]) == tasks@[k]@,
    {
        let task = &tasks[i];
        wire.push(
            (
                task.index_uid.clone(),
                task.source_id.clone(),
                task.pipeline_uid.clone(),
                copy_strings(&task.shard_ids),
                task.params_fingerprint,
            ),
        );
    }
    proof {
        assert(wire@.map_values(|task: WireTask| wire_task_model(task)) =~= task_models(tasks@));
    }
    wire
}

/// Takes tasks from their form on the wire.
fn tasks_from_wire(wire: &Vec<WireTask>) -> (tasks: Vec<IndexingTask>)
    ensures
        task_models(tasks@) == wire@.map_values(|task: WireTask| wire_task_model(task)),
{
    let mut tasks: Vec<IndexingTask> = Vec::new();
    for i in 0..wire.len()
        invariant
            tasks@.len() == i,
            forall|k: int| 0 <= k < i ==> (#[trigger] tasks@[k])@ == wire_task_model(wire@[k]),
    {
        let task = &wire[i];
        tasks.push(
            IndexingTask {
                index_uid: task.0.clone(),
                source_id: task.1.clone(),
                pipeline_uid: task.2.clone(),
                shard_ids: copy_strings(&task.3),
                params_fingerprint: task.4,
            },
        );
    }
    proof {
        assert(task_models(tasks@) =~= wire@.map_values(|task: WireTask| wire_task_model(task)));
    }
    tasks
}

/// Puts a state into its form on the wire.
pub fn to_wire(metadata: &MaintenanceModeMetadata, frozen_plan: &PhysicalIndexingPlan) -> (wire:
    WireState)
    ensures
        wire_model(wire) == (metadata.enabled_at@, frozen_plan.entries()),
{
    let mut entries: Vec<(String, Vec<WireTask>)> = Vec::new();
    for i in 0..frozen_plan.indexing_tasks_per_indexer_id.len()
        invariant
            entries@.len() == i,
            forall|k: int|
                0 <= k < i ==> wire_entry_model(#[trigger] entries@[k]) == frozen_plan.entries()[k],
    {
        let entry = &frozen_plan.indexing_tasks_per_indexer_id[i];
        entries.push((entry.0.clone(), tasks_to_wire(&entry.1)));
    }
    proof {
        assert(entries@.map_values(|entry: (String, Vec<WireTask>)| wire_entry_model(entry))
            =~= frozen_plan.entries());
    }
    (metadata.enabled_at.clone(), entries)
}

/// Takes a state from its form on the wire. Where an indexer occurs several times, its last entry
/// counts.
pub fn from_wire(wire: &WireState) -> (state: MaintenancePersistedState)
    ensures
        state.frozen_plan.wf(),
        state@ == (PersistedModel {
            enabled_at: wire_model(*wire).0,
            frozen_plan: plan_map(wire_model(*wire).1),
        }),
{
    let ghost entries = wire_model(*wire).1;
    let mut frozen_plan = PhysicalIndexingPlan::new();
    proof {
        assert(entries.take(0) =~= Seq::empty());
    }
    for i in 0..wire.1.len()
        invariant
            entries == wire_model(*wire).1,
            frozen_plan.wf(),
            frozen_plan@ == plan_map(entries.take(i as int)),
    {
        let entry = &wire.1[i];
        frozen_plan.set_tasks(entry.0.clone(), tasks_from_wire(&entry.1));
        proof {
            assert(entries.take(i + 1).drop_last() =~= entries.take(i as int));
            assert(entries.take(i + 1).last() == wire_entry_model(*entry));
        }
    }
    proof {
        assert(entries.take(entries.len() as int) =~= entries);
    }
    MaintenancePersistedState {
        metadata: MaintenanceModeMetadata { enabled_at: wire.0.clone() },
        frozen_plan,
    }
}

/// The state that some bytes hold, if they are valid.
pub open spec fn decoded_state(bytes: Seq<u8>) -> Option<PersistedModel> {
    match postcard_state(bytes) {
        Some((enabled_at, entries)) => Some(
            PersistedModel { enabled_at, frozen_plan: plan_map(entries) },
        ),
        None => None,
    }
}

impl MaintenancePersistedState {
    /// Serializes the maintenance metadata and the frozen plan together.
    pub fn to_bytes(metadata: &MaintenanceModeMetadata, frozen_plan: &PhysicalIndexingPlan) -> (result:
        Result<Vec<u8>, MaintenanceError>)
        ensures
            result matches Ok(bytes) && bytes@ == postcard_bytes(
                (metadata.enabled_at@, frozen_plan.entries()),
            ) && decoded_state(bytes@) == Some(
                PersistedModel { enabled_at: metadata.enabled_at@, frozen_plan: frozen_plan@ },
            ),
    {
        match postcard_encode(&to_wire(metadata, frozen_plan)) {
            Ok(bytes) => Ok(bytes),
            Err(_) => Err(MaintenanceError::Serialize),
        }
    }

    /// Deserializes a state.
    pub fn from_bytes(bytes: &[u8]) -> (result: Result<MaintenancePersistedState, MaintenanceError>)
        ensures
            match result {
                Ok(state) => decoded_state(bytes@) == Some(state@) && state.frozen_plan.wf(),
                Err(error) => decoded_state(bytes@) is None && error
                    == MaintenanceError::Deserialize,
            },
    {
        match postcard_decode(bytes) {
            Ok(wire) => Ok(from_wire(&wire)),
            Err(_) => Err(MaintenanceError::Deserialize),
        }
    }
}

/// Persistence abstraction for maintenance mode state.
pub trait MaintenancePersistence: Sized {
    /// What is persisted.
    spec fn persisted(self) -> Option<PersistedModel>;

    /// What is persisted is valid.
    spec fn wf(self) -> bool;

    /// Loads the maintenance state from persistent storage. Returns `None` if no maintenance state
    /// is persisted.
    fn load(&self) -> (state: Option<MaintenancePersistedState>)
        requires
            self.wf(),
        ensures
            match state {
                Some(state) => self.persisted() == Some(state@),
                None => self.persisted() is None,
            },
    ;

    /// Persists the maintenance metadata and frozen plan together. A failure changes nothing.
    fn save(
        &mut self,
        metadata: &MaintenanceModeMetadata,
        frozen_plan: &PhysicalIndexingPlan,
    ) -> (result: Result<(), MaintenanceError>)
        requires
            old(self).wf(),
        ensures
            final(self).wf(),
            final(self).persisted() == if result is Ok {
                Some(PersistedModel { enabled_at: metadata.enabled_at@, frozen_plan: frozen_plan@ })
            } else {
                old(self).persisted()
            },
    ;

    /// Clears all persisted maintenance state. A failure changes nothing.
    fn clear(&mut self) -> (result: Result<(), MaintenanceError>)
        requires
            old(self).wf(),
        ensures
            final(self).wf(),
            final(self).persisted() == if result is Ok {
                None
            } else {
                old(self).persisted()
            },
    ;
}

/// A call of a persistence that went well.
pub enum PersistenceCall {
    Load,
    Save(PersistedModel),
    Clear,
}

impl PersistenceCall {
    /// What is persisted after the call, if `before` was.
    pub open spec fn outcome(self, before: Option<PersistedModel>) -> Option<PersistedModel> {
        match self {
            PersistenceCall::Load => before,
            PersistenceCall::Save(state) => Some(state),
            PersistenceCall::Clear => None,
        }
    }
}

/// Whether the call at position `i` saves a state, and none after it saves or clears.
pub open spec fn is_last_save(calls: Seq<PersistenceCall>, i: int) -> bool {
    &&& 0 <= i < calls.len()
    &&& calls[i] is Save
    &&& forall|k: int| i < k < calls.len() ==> #[trigger] calls[k] is Load
}

/// In-memory implementation of [`MaintenancePersistence`]. It stores the serialized bytes.
/// Callers that share it hold it behind a lock.
#[derive(Debug)]
pub struct InMemoryPersistence {
    state: Option<Vec<u8>>,
}

impl Default for InMemoryPersistence {
    /// Nothing is persisted.
    fn default() -> (persistence: InMemoryPersistence)
        ensures
            persistence.wf(),
            persistence.persisted() is None,
    {
        InMemoryPersistence { state: None }
    }
}

impl InMemoryPersistence {
    /// Nothing is persisted.
    pub fn new() -> (persistence: InMemoryPersistence)
        ensures
            persistence.wf(),
            persistence.persisted() is None,
    {
        InMemoryPersistence { state: None }
    }
}

impl MaintenancePersistence for InMemoryPersistence {
    closed spec fn persisted(self) -> Option<PersistedModel> {
        match self.state {
            Some(bytes) => decoded_state(bytes@),
            None => None,
        }
    }

    closed spec fn wf(self) -> bool {
        self.state is Some ==> decoded_state(self.state->0@) is Some
    }

    fn load(&self) -> (state: Option<MaintenancePersistedState>) {
        match &self.state {
            Some(bytes) => match MaintenancePersistedState::from_bytes(bytes.as_slice()) {
                Ok(state) => Some(state),
                Err(_) => None,
            },
            None => None,
        }
    }

    fn save(
        &mut self,
        metadata: &MaintenanceModeMetadata,
        frozen_plan: &PhysicalIndexingPlan,
    ) -> (result: Result<(), MaintenanceError>)
        ensures
            result is Ok,
    {
        match MaintenancePersistedState::to_bytes(metadata, frozen_plan) {
            Ok(bytes) => {
                self.state = Some(bytes);
                Ok(())
            },
            Err(error) => Err(error),
        }
    }

    fn clear(&mut self) -> (result: Result<(), MaintenanceError>)
        ensures
            result is Ok,
    {
        self.state = None;
        Ok(())
    }
}

/// After any calls, in whatever order and by whomever they were made, the state of the last save is
/// persisted if no clear came after it, and nothing is persisted otherwise. Loading changes nothing.
///
/// `persistences[i]` is the persistence before the call at position `i`, and `persistences[i + 1]`
/// the one after it.
pub proof fn law_last_save_is_persisted(
    persistences: Seq<InMemoryPersistence>,
    calls: Seq<PersistenceCall>,
)
    requires
        persistences.len() == calls.len() + 1,
        persistences[0].persisted() is None,
        forall|i: int|
            0 <= i < calls.len() ==> (#[trigger] persistences[i + 1]).persisted()
                == calls[i].outcome(persistences[i].persisted()),
    ensures
        forall|i: int| #[trigger]
            is_last_save(calls, i) ==> persistences.last().persisted() == Some(
                calls[i]->Save_0,
            ),
        (forall|i: int| !is_last_save(calls, i)) ==> persistences.last().persisted() is None,
    decreases calls.len(),
{
    if calls.len() > 0 {
        let last = calls.len() - 1;
        let earlier = calls.drop_last();
        assert(persistences[last + 1].persisted() == calls[last].outcome(
            persistences[last].persisted(),
        ));
        assert forall|i: int| 0 <= i < earlier.len() implies (
        #[trigger] persistences.drop_last()[i + 1]).persisted() == earlier[i].outcome(
            persistences.drop_last()[i].persisted(),
        ) by {
            assert(persistences.drop_last()[i + 1] == persistences[i + 1]);
        }
        law_last_save_is_persisted(persistences.drop_last(), earlier);
        assert forall|i: int| #[trigger] is_last_save(calls, i) && i < last implies is_last_save(
            earlier,
            i,
        ) by {
            assert(forall|k: int| i < k < earlier.len() ==> earlier[k] == calls[k]);
        }
        if calls[last] is Save {
            assert(is_last_save(calls, last));
        }
        assert forall|i: int| is_last_save(earlier, i) && calls[last] is Load implies #[trigger]
            is_last_save(calls, i) by {
            assert forall|k: int| i < k < calls.len() implies #[trigger] calls[k] is Load by {
                if k < last {
                    assert(earlier[k] is Load);
                }
            }
        }
        if forall|i: int| !is_last_save(calls, i) {
            assert forall|i: int| calls[last] is Load implies !#[trigger] is_last_save(
                earlier,
                i,
            ) by {
                if is_last_save(earlier, i) {
                    assert(is_last_save(calls, i));
                }
            }
        }
    }
}

/// Persists the maintenance state under one key of the metastore's `kv` table: builds the requests
/// and reads the responses.
#[derive(Debug, Clone, Copy)]
pub struct MetastoreKvPersistence;

impl MetastoreKvPersistence {
    /// The key that is read, set, and deleted.
    pub fn key(&self) -> (key: &'static str)
        ensures
            key@ == KV_KEY_MAINTENANCE_STATE@,
            key@ == "maintenance_state"@,
    {
        KV_KEY_MAINTENANCE_STATE
    }

    /// The value to set: the serialized state in base64.
    pub fn save_value(
        &self,
        metadata: &MaintenanceModeMetadata,
        frozen_plan: &PhysicalIndexingPlan,
    ) -> (result: Result<String, MaintenanceError>)
        ensures
            ({
                let bytes = postcard_bytes((metadata.enabled_at@, frozen_plan.entries()));
                &&& result matches Ok(value)
                &&& value@ == base64_text(bytes)
                &&& base64_bytes(value@) == Some(bytes)
                &&& decoded_state(bytes) == Some(
                    PersistedModel { enabled_at: metadata.enabled_at@, frozen_plan: frozen_plan@ },
                )
            }),
    {
        match MaintenancePersistedState::to_bytes(metadata, frozen_plan) {
            Ok(bytes) => Ok(base64_encode(bytes.as_slice())),
            Err(error) => Err(error),
        }
    }

    /// Reads the value found under the key, if any.
    pub fn load_value(&self, value: Option<&str>) -> (result: Result<
        Option<MaintenancePersistedState>,
        MaintenanceError,
    >)
        ensures
            match value {
                None => result matches Ok(None),
                Some(encoded) => match base64_bytes(encoded@) {
                    None => result == Err::<Option<MaintenancePersistedState>, MaintenanceError>(
                        MaintenanceError::InvalidBase64,
                    ),
                    Some(bytes) => match decoded_state(bytes) {
                        None => result == Err::<
                            Option<MaintenancePersistedState>,
                            MaintenanceError,
                        >(MaintenanceError::Deserialize),
                        Some(model) => result matches Ok(Some(state)) && state@ == model
                            && state.frozen_plan.wf(),
                    },
                },
            },
    {
        match value {
            None => Ok(None),
            Some(encoded) => match base64_decode(encoded) {
                Err(_) => Err(MaintenanceError::InvalidBase64),
                Ok(bytes) => match MaintenancePersistedState::from_bytes(bytes.as_slice()) {
                    Ok(state) => Ok(Some(state)),
                    Err(error) => Err(error),
                },
            },
        }
    }
}

/// A plan holds, for each indexer, the tasks of the last entry that names it, and no other indexer.
pub proof fn law_last_entry_of_an_indexer_counts(
    entries: Seq<(Seq<char>, Seq<TaskModel>)>,
    indexer_id: Seq<char>,
    i: int,
)
    ensures
        0 <= i < entries.len() && entries[i].0 == indexer_id && (forall|k: int|
            i < k < entries.len() ==> (#[trigger] entries[k]).0 != indexer_id) ==> plan_map(
            entries,
        ).contains_key(indexer_id) && plan_map(entries)[indexer_id] == entries[i].1,
        (forall|k: int| 0 <= k < entries.len() ==> (#[trigger] entries[k]).0 != indexer_id)
            ==> !plan_map(entries).contains_key(indexer_id),
    decreases entries.len(),
{
    if entries.len() > 0 {
        let front = entries.drop_last();
        law_last_entry_of_an_indexer_counts(front, indexer_id, i);
        assert(forall|k: int| 0 <= k < front.len() ==> #[trigger] front[k] == entries[k]);
        let last = entries.len() - 1;
        assert(entries.last() == entries[last]);
    }
}

/// What is read of serialized bytes is the datetime and the plan that they hold, and bytes that are
/// not valid hold nothing.
pub proof fn law_bytes_hold_the_state(bytes: Seq<u8>)
    ensures
        postcard_state(bytes) is None <==> decoded_state(bytes) is None,
        postcard_state(bytes) matches Some(wire) ==> decoded_state(bytes)->0.enabled_at == wire.0
            && decoded_state(bytes)->0.frozen_plan == plan_map(wire.1),
{
}

/// A task is put on the wire with all that it holds: tasks that look the same on the wire are the
/// same, down to each shard.
pub proof fn law_tasks_keep_everything_on_the_wire(task: IndexingTask, wire: WireTask, i: int)
    requires
        task@ == wire_task_model(wire),
    ensures
        task.index_uid@ == wire.0@,
        task.source_id@ == wire.1@,
        task.pipeline_uid@ == wire.2@,
        task.shard_ids@.len() == wire.3@.len(),
        0 <= i < task.shard_ids@.len() ==> task.shard_ids@[i]@ == wire.3@[i]@,
        task.params_fingerprint == wire.4,
{
    if 0 <= i < task.shard_ids@.len() {
        assert(texts(task.shard_ids@).len() == texts(wire.3@).len());
        assert(texts(task.shard_ids@)[i] == texts(wire.3@)[i]);
    }
    assert(texts(task.shard_ids@).len() == task.shard_ids@.len());
    assert(texts(wire.3@).len() == wire.3@.len());
}

/// A state is put on the wire with its datetime, and each entry of its plan with each of its tasks.
pub proof fn law_entries_keep_everything_on_the_wire(wire: WireState, i: int, j: int)
    ensures
        wire_model(wire).0 == wire.0@,
        wire_model(wire).1.len() == wire.1@.len(),
        0 <= i < wire.1@.len() ==> wire_model(wire).1[i].0 == wire.1@[i].0@ && wire_model(
            wire,
        ).1[i].1.len() == wire.1@[i].1@.len(),
        0 <= i < wire.1@.len() && 0 <= j < wire.1@[i].1@.len() ==> wire_model(wire).1[i].1[j]
            == wire_task_model(wire.1@[i].1@[j]),
{
}

/// A save is what is persisted then, and a clear leaves nothing. A load changes nothing.
pub proof fn law_outcome_of_a_call(before: Option<PersistedModel>, state: PersistedModel)
    ensures
        PersistenceCall::Save(state).outcome(before) == Some(state),
        PersistenceCall::Clear.outcome(before) is None,
        PersistenceCall::Load.outcome(before) == before,
{
}

/// The model of tasks holds each of them, in order, with all its parts.
pub proof fn law_task_models_hold_everything(tasks: Seq<IndexingTask>, i: int, j: int)
    requires
        0 <= i < tasks.len(),
    ensures
        task_models(tasks).len() == tasks.len(),
        task_models(tasks)[i].index_uid == tasks[i].index_uid@,
        task_models(tasks)[i].source_id == tasks[i].source_id@,
        task_models(tasks)[i].pipeline_uid == tasks[i].pipeline_uid@,
        task_models(tasks)[i].params_fingerprint == tasks[i].params_fingerprint,
        task_models(tasks)[i].shard_ids.len() == tasks[i].shard_ids@.len(),
        0 <= j < tasks[i].shard_ids@.len() ==> task_models(tasks)[i].shard_ids[j]
            == tasks[i].shard_ids@[j]@,
{
}

/// The model of a persisted state holds its datetime and the tasks of each indexer.
pub proof fn law_persisted_model_holds_everything(state: MaintenancePersistedState)
    ensures
        state@.enabled_at == state.metadata.enabled_at@,
        state@.frozen_plan == plan_map(state.frozen_plan.entries()),
{
}

} // verus!
