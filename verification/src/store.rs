//! The relational store: five tables of rows, their integrity invariants,
//! and the row operations the application performs against an opened store.
//!
//! Every operation states its effect over the store's model (`StoreModel`).
//! The invariants enforced throughout: row identifiers are unique per table,
//! a task's `list_id` (when present) names an existing list, a subtask's
//! `parent_id` names an existing task, and no row exists before the tables do.

use vstd::prelude::*;

use crate::rows::{
    ListModel, ListRow, SettingModel, SettingRow, SubtaskModel, SubtaskRow, SummaryModel,
    SummaryRow, TaskModel, TaskRow, views,
};

verus! {

/// An error from a single row operation, as the storage engine reports it.
#[derive(Debug, Clone, Copy, PartialEq, Eq, Structural)]
pub enum StoreError {
    /// The table addressed by the operation has not been created.
    NoSuchTable,
    /// A row with the same primary key already exists.
    DuplicateKey,
    /// A referenced row does not exist.
    ForeignKeyViolation,
}

/// An error from opening a store.
#[derive(Debug, Clone, Copy, PartialEq, Eq, Structural)]
pub enum OpenError {
    /// The backing file could not be opened or created. Produced by the
    /// caller that manages the backing file, never by the engine itself.
    Io,
    /// The migration step with this version failed; the store keeps the
    /// last version it fully reached.
    Schema { version: u64 },
    /// The registry is malformed at this version (a duplicate, out-of-order
    /// or non-positive version number); nothing was applied.
    Configuration { version: u64 },
}

/// Whether some list row carries this id.
pub open spec fn has_list(ls: Seq<ListModel>, id: Seq<char>) -> bool {
    exists|i: int| 0 <= i < ls.len() && ls[i].id == id
}

/// Whether some task row carries this id.
pub open spec fn has_task(ts: Seq<TaskModel>, id: Seq<char>) -> bool {
    exists|i: int| 0 <= i < ts.len() && ts[i].id == id
}

/// Whether some subtask row carries this id.
pub open spec fn has_subtask(sts: Seq<SubtaskModel>, id: Seq<char>) -> bool {
    exists|i: int| 0 <= i < sts.len() && sts[i].id == id
}

/// Whether some summary row carries this id.
pub open spec fn has_summary(ss: Seq<SummaryModel>, id: Seq<char>) -> bool {
    exists|i: int| 0 <= i < ss.len() && ss[i].id == id
}

/// Whether some setting row carries this key.
pub open spec fn has_setting(ss: Seq<SettingModel>, key: Seq<char>) -> bool {
    exists|i: int| 0 <= i < ss.len() && ss[i].key == key
}

/// A nullable list reference is valid when it is null or names a list.
pub open spec fn list_ref_ok(ls: Seq<ListModel>, list_id: Option<Seq<char>>) -> bool {
    match list_id {
        Some(lid) => has_list(ls, lid),
        None => true,
    }
}

pub open spec fn unique_list_ids(ls: Seq<ListModel>) -> bool {
    forall|i: int, j: int| 0 <= i < j < ls.len() ==> ls[i].id != ls[j].id
}

pub open spec fn unique_task_ids(ts: Seq<TaskModel>) -> bool {
    forall|i: int, j: int| 0 <= i < j < ts.len() ==> ts[i].id != ts[j].id
}

pub open spec fn unique_subtask_ids(sts: Seq<SubtaskModel>) -> bool {
    forall|i: int, j: int| 0 <= i < j < sts.len() ==> sts[i].id != sts[j].id
}

pub open spec fn unique_summary_ids(ss: Seq<SummaryModel>) -> bool {
    forall|i: int, j: int| 0 <= i < j < ss.len() ==> ss[i].id != ss[j].id
}

pub open spec fn unique_setting_keys(ss: Seq<SettingModel>) -> bool {
    forall|i: int, j: int| 0 <= i < j < ss.len() ==> ss[i].key != ss[j].key
}

/// A task as it stands after the list with this id was deleted: a task of
/// that list keeps every column but loses its list reference; any other task
/// is untouched.
pub open spec fn orphan_of(t: TaskModel, id: Seq<char>) -> TaskModel {
    if t.list_id == Some(id) {
        TaskModel { list_id: None, ..t }
    } else {
        t
    }
}

/// The model of a whole store: the recorded schema version, whether the
/// tables and indexes of the current schema exist, and the rows of each
/// table in insertion order.
#[verifier::ext_equal]
pub ghost struct StoreModel {
    pub version: u64,
    pub tables_created: bool,
    pub indexes_created: bool,
    pub lists: Seq<ListModel>,
    pub tasks: Seq<TaskModel>,
    pub subtasks: Seq<SubtaskModel>,
    pub summaries: Seq<SummaryModel>,
    pub settings: Seq<SettingModel>,
}

impl StoreModel {
    /// The integrity invariant every reachable store satisfies.
    pub open spec fn wf(self) -> bool {
        &&& unique_list_ids(self.lists)
        &&& unique_task_ids(self.tasks)
        &&& unique_subtask_ids(self.subtasks)
        &&& unique_summary_ids(self.summaries)
        &&& unique_setting_keys(self.settings)
        &&& forall|i: int|
            0 <= i < self.tasks.len() ==> list_ref_ok(self.lists, #[trigger] self.tasks[i].list_id)
        &&& forall|i: int|
            0 <= i < self.subtasks.len() ==> has_task(
                self.tasks,
                #[trigger] self.subtasks[i].parent_id,
            )
        &&& !self.tables_created ==> {
            &&& self.lists.len() == 0
            &&& self.tasks.len() == 0
            &&& self.subtasks.len() == 0
            &&& self.summaries.len() == 0
            &&& self.settings.len() == 0
        }
        &&& self.indexes_created ==> self.tables_created
    }

    /// A store that has never been migrated: no metadata, no tables, no rows.
    pub open spec fn fresh() -> StoreModel {
        StoreModel {
            version: 0,
            tables_created: false,
            indexes_created: false,
            lists: Seq::empty(),
            tasks: Seq::empty(),
            subtasks: Seq::empty(),
            summaries: Seq::empty(),
            settings: Seq::empty(),
        }
    }

    /// Creating the tables is idempotent and never fails.
    pub open spec fn create_tables(self) -> StoreModel {
        StoreModel { tables_created: true, ..self }
    }

    /// Creating the indexes is idempotent but needs the tables.
    pub open spec fn create_indexes(self) -> Result<StoreModel, StoreError> {
        if self.tables_created {
            Ok(StoreModel { indexes_created: true, ..self })
        } else {
            Err(StoreError::NoSuchTable)
        }
    }

    /// A plain list insert: fails on a duplicate id.
    pub open spec fn insert_list(self, l: ListModel) -> Result<StoreModel, StoreError> {
        if !self.tables_created {
            Err(StoreError::NoSuchTable)
        } else if has_list(self.lists, l.id) {
            Err(StoreError::DuplicateKey)
        } else {
            Ok(StoreModel { lists: self.lists.push(l), ..self })
        }
    }

    /// An insert-if-absent list seed: a present id leaves the store unchanged.
    pub open spec fn seed_list(self, l: ListModel) -> Result<StoreModel, StoreError> {
        if !self.tables_created {
            Err(StoreError::NoSuchTable)
        } else if has_list(self.lists, l.id) {
            Ok(self)
        } else {
            Ok(StoreModel { lists: self.lists.push(l), ..self })
        }
    }

    /// An insert-if-absent setting seed: a present key is never overwritten.
    pub open spec fn seed_setting(self, s: SettingModel) -> Result<StoreModel, StoreError> {
        if !self.tables_created {
            Err(StoreError::NoSuchTable)
        } else if has_setting(self.settings, s.key) {
            Ok(self)
        } else {
            Ok(StoreModel { settings: self.settings.push(s), ..self })
        }
    }

    /// A task insert: fails on a duplicate id or a dangling list reference.
    pub open spec fn insert_task(self, t: TaskModel) -> Result<StoreModel, StoreError> {
        if !self.tables_created {
            Err(StoreError::NoSuchTable)
        } else if has_task(self.tasks, t.id) {
            Err(StoreError::DuplicateKey)
        } else if !list_ref_ok(self.lists, t.list_id) {
            Err(StoreError::ForeignKeyViolation)
        } else {
            Ok(StoreModel { tasks: self.tasks.push(t), ..self })
        }
    }

    /// A subtask insert: fails on a duplicate id or a missing parent task.
    pub open spec fn insert_subtask(self, st: SubtaskModel) -> Result<StoreModel, StoreError> {
        if !self.tables_created {
            Err(StoreError::NoSuchTable)
        } else if has_subtask(self.subtasks, st.id) {
            Err(StoreError::DuplicateKey)
        } else if !has_task(self.tasks, st.parent_id) {
            Err(StoreError::ForeignKeyViolation)
        } else {
            Ok(StoreModel { subtasks: self.subtasks.push(st), ..self })
        }
    }

    /// A summary insert: fails on a duplicate id.
    pub open spec fn insert_summary(self, s: SummaryModel) -> Result<StoreModel, StoreError> {
        if !self.tables_created {
            Err(StoreError::NoSuchTable)
        } else if has_summary(self.summaries, s.id) {
            Err(StoreError::DuplicateKey)
        } else {
            Ok(StoreModel { summaries: self.summaries.push(s), ..self })
        }
    }
}

/// Appending a list row with a fresh id keeps the store well-formed.
proof fn lemma_push_list_preserves_wf(m: StoreModel, l: ListModel)
    requires
        m.wf(),
        m.tables_created,
        !has_list(m.lists, l.id),
    ensures
        (StoreModel { lists: m.lists.push(l), ..m }).wf(),
{
    let m2 = StoreModel { lists: m.lists.push(l), ..m };
    assert forall|i: int, j: int| 0 <= i < j < m2.lists.len() implies m2.lists[i].id
        != m2.lists[j].id by {
        if j < m.lists.len() {
            assert(m.lists[i].id != m.lists[j].id);
        } else {
            assert(m2.lists[i] == m.lists[i]);
        }
    }
    assert forall|i: int| 0 <= i < m2.tasks.len() implies list_ref_ok(
        m2.lists,
        #[trigger] m2.tasks[i].list_id,
    ) by {
        assert(list_ref_ok(m.lists, m.tasks[i].list_id));
        match m2.tasks[i].list_id {
            Some(lid) => {
                let k = choose|k: int| 0 <= k < m.lists.len() && m.lists[k].id == lid;
                assert(m2.lists[k].id == lid);
            },
            None => {},
        }
    }
}

/// Appending a task row with a fresh id and a valid list reference keeps the
/// store well-formed.
proof fn lemma_push_task_preserves_wf(m: StoreModel, t: TaskModel)
    requires
        m.wf(),
        m.tables_created,
        !has_task(m.tasks, t.id),
        list_ref_ok(m.lists, t.list_id),
    ensures
        (StoreModel { tasks: m.tasks.push(t), ..m }).wf(),
{
    let m2 = StoreModel { tasks: m.tasks.push(t), ..m };
    assert forall|i: int, j: int| 0 <= i < j < m2.tasks.len() implies m2.tasks[i].id
        != m2.tasks[j].id by {
        if j < m.tasks.len() {
            assert(m.tasks[i].id != m.tasks[j].id);
        } else {
            assert(m2.tasks[i] == m.tasks[i]);
        }
    }
    assert forall|i: int| 0 <= i < m2.tasks.len() implies list_ref_ok(
        m2.lists,
        #[trigger] m2.tasks[i].list_id,
    ) by {
        if i < m.tasks.len() {
            assert(list_ref_ok(m.lists, m.tasks[i].list_id));
        }
    }
    assert forall|i: int| 0 <= i < m2.subtasks.len() implies has_task(
        m2.tasks,
        #[trigger] m2.subtasks[i].parent_id,
    ) by {
        assert(has_task(m.tasks, m.subtasks[i].parent_id));
        let k = choose|k: int|
            0 <= k < m.tasks.len() && m.tasks[k].id == m.subtasks[i].parent_id;
        assert(m2.tasks[k].id == m.subtasks[i].parent_id);
    }
}

/// Appending a subtask row with a fresh id and an existing parent keeps the
/// store well-formed.
proof fn lemma_push_subtask_preserves_wf(m: StoreModel, st: SubtaskModel)
    requires
        m.wf(),
        m.tables_created,
        !has_subtask(m.subtasks, st.id),
        has_task(m.tasks, st.parent_id),
    ensures
        (StoreModel { subtasks: m.subtasks.push(st), ..m }).wf(),
{
    let m2 = StoreModel { subtasks: m.subtasks.push(st), ..m };
    assert forall|i: int, j: int| 0 <= i < j < m2.subtasks.len() implies m2.subtasks[i].id
        != m2.subtasks[j].id by {
        if j < m.subtasks.len() {
            assert(m.subtasks[i].id != m.subtasks[j].id);
        } else {
            assert(m2.subtasks[i] == m.subtasks[i]);
        }
    }
    assert forall|i: int| 0 <= i < m2.subtasks.len() implies has_task(
        m2.tasks,
        #[trigger] m2.subtasks[i].parent_id,
    ) by {
        if i < m.subtasks.len() {
            assert(has_task(m.tasks, m.subtasks[i].parent_id));
        }
    }
}

/// Appending a summary row with a fresh id keeps the store well-formed.
proof fn lemma_push_summary_preserves_wf(m: StoreModel, s: SummaryModel)
    requires
        m.wf(),
        m.tables_created,
        !has_summary(m.summaries, s.id),
    ensures
        (StoreModel { summaries: m.summaries.push(s), ..m }).wf(),
{
    let m2 = StoreModel { summaries: m.summaries.push(s), ..m };
    assert forall|i: int, j: int| 0 <= i < j < m2.summaries.len() implies m2.summaries[i].id
        != m2.summaries[j].id by {
        if j < m.summaries.len() {
            assert(m.summaries[i].id != m.summaries[j].id);
        } else {
            assert(m2.summaries[i] == m.summaries[i]);
        }
    }
}

/// Appending a setting row with a fresh key keeps the store well-formed.
proof fn lemma_push_setting_preserves_wf(m: StoreModel, s: SettingModel)
    requires
        m.wf(),
        m.tables_created,
        !has_setting(m.settings, s.key),
    ensures
        (StoreModel { settings: m.settings.push(s), ..m }).wf(),
{
    let m2 = StoreModel { settings: m.settings.push(s), ..m };
    assert forall|i: int, j: int| 0 <= i < j < m2.settings.len() implies m2.settings[i].key
        != m2.settings[j].key by {
        if j < m.settings.len() {
            assert(m.settings[i].key != m.settings[j].key);
        } else {
            assert(m2.settings[i] == m.settings[i]);
        }
    }
}

/// Every row kept by a filter is a row of the original sequence.
proof fn lemma_filter_subset<T>(s: Seq<T>, p: spec_fn(T) -> bool)
    ensures
        forall|i: int| 0 <= i < s.filter(p).len() ==> s.contains(#[trigger] s.filter(p)[i]),
    decreases s.len(),
{
    reveal(Seq::filter);
    if s.len() == 0 {
    } else {
        let rest = s.drop_last();
        lemma_filter_subset(rest, p);
        assert forall|i: int| 0 <= i < s.filter(p).len() implies s.contains(
            #[trigger] s.filter(p)[i],
        ) by {
            if i < rest.filter(p).len() {
                assert(rest.contains(rest.filter(p)[i]));
                let k = choose|k: int| 0 <= k < rest.len() && rest[k] == rest.filter(p)[i];
                assert(s[k] == s.filter(p)[i]);
            } else {
                assert(s.filter(p)[i] == s.last());
                assert(s[s.len() - 1] == s.last());
            }
        }
    }
}

/// Filtering keeps list ids unique.
proof fn lemma_filter_unique_list_ids(ls: Seq<ListModel>, p: spec_fn(ListModel) -> bool)
    requires
        unique_list_ids(ls),
    ensures
        unique_list_ids(ls.filter(p)),
    decreases ls.len(),
{
    reveal(Seq::filter);
    if ls.len() == 0 {
    } else {
        let rest = ls.drop_last();
        assert(unique_list_ids(rest));
        lemma_filter_unique_list_ids(rest, p);
        lemma_filter_subset(rest, p);
        assert forall|i: int, j: int| 0 <= i < j < ls.filter(p).len() implies ls.filter(p)[i].id
            != ls.filter(p)[j].id by {
            if j < rest.filter(p).len() {
                assert(rest.filter(p)[i].id != rest.filter(p)[j].id);
            } else {
                assert(ls.filter(p)[j] == ls.last());
                assert(rest.contains(rest.filter(p)[i]));
                let k = choose|k: int| 0 <= k < rest.len() && rest[k] == rest.filter(p)[i];
                assert(ls[k] == rest[k]);
                assert(ls[k].id != ls[ls.len() - 1].id);
            }
        }
    }
}

/// Filtering keeps task ids unique.
proof fn lemma_filter_unique_task_ids(ts: Seq<TaskModel>, p: spec_fn(TaskModel) -> bool)
    requires
        unique_task_ids(ts),
    ensures
        unique_task_ids(ts.filter(p)),
    decreases ts.len(),
{
    reveal(Seq::filter);
    if ts.len() == 0 {
    } else {
        let rest = ts.drop_last();
        assert(unique_task_ids(rest));
        lemma_filter_unique_task_ids(rest, p);
        lemma_filter_subset(rest, p);
        assert forall|i: int, j: int| 0 <= i < j < ts.filter(p).len() implies ts.filter(p)[i].id
            != ts.filter(p)[j].id by {
            if j < rest.filter(p).len() {
                assert(rest.filter(p)[i].id != rest.filter(p)[j].id);
            } else {
                assert(ts.filter(p)[j] == ts.last());
                assert(rest.contains(rest.filter(p)[i]));
                let k = choose|k: int| 0 <= k < rest.len() && rest[k] == rest.filter(p)[i];
                assert(ts[k] == rest[k]);
                assert(ts[k].id != ts[ts.len() - 1].id);
            }
        }
    }
}

/// Filtering keeps subtask ids unique.
proof fn lemma_filter_unique_subtask_ids(sts: Seq<SubtaskModel>, p: spec_fn(SubtaskModel) -> bool)
    requires
        unique_subtask_ids(sts),
    ensures
        unique_subtask_ids(sts.filter(p)),
    decreases sts.len(),
{
    reveal(Seq::filter);
    if sts.len() == 0 {
    } else {
        let rest = sts.drop_last();
        assert(unique_subtask_ids(rest));
        lemma_filter_unique_subtask_ids(rest, p);
        lemma_filter_subset(rest, p);
        assert forall|i: int, j: int| 0 <= i < j < sts.filter(p).len() implies sts.filter(p)[i].id
            != sts.filter(p)[j].id by {
            if j < rest.filter(p).len() {
                assert(rest.filter(p)[i].id != rest.filter(p)[j].id);
            } else {
                assert(sts.filter(p)[j] == sts.last());
                assert(rest.contains(rest.filter(p)[i]));
                let k = choose|k: int| 0 <= k < rest.len() && rest[k] == rest.filter(p)[i];
                assert(sts[k] == rest[k]);
                assert(sts[k].id != sts[sts.len() - 1].id);
            }
        }
    }
}

/// The executable store. A value of this type is the whole observable state
/// of the backing database: the caller that manages the file hands the
/// current state in and writes the returned state back out.
#[derive(Debug, PartialEq, Eq)]
pub struct Store {
    pub version: u64,
    pub tables_created: bool,
    pub indexes_created: bool,
    pub lists: Vec<ListRow>,
    pub tasks: Vec<TaskRow>,
    pub subtasks: Vec<SubtaskRow>,
    pub summaries: Vec<SummaryRow>,
    pub settings: Vec<SettingRow>,
}

impl View for Store {
    type V = StoreModel;

    open spec fn view(&self) -> StoreModel {
        StoreModel {
            version: self.version,
            tables_created: self.tables_created,
            indexes_created: self.indexes_created,
            lists: views(self.lists@),
            tasks: views(self.tasks@),
            subtasks: views(self.subtasks@),
            summaries: views(self.summaries@),
            settings: views(self.settings@),
        }
    }
}

impl Store {
    pub open spec fn wf(&self) -> bool {
        self@.wf()
    }

    /// A store that has never been migrated.
    pub fn fresh() -> (s: Store)
        ensures
            s@ == StoreModel::fresh(),
            s.wf(),
    {
        let s = Store {
            version: 0,
            tables_created: false,
            indexes_created: false,
            lists: Vec::new(),
            tasks: Vec::new(),
            subtasks: Vec::new(),
            summaries: Vec::new(),
            settings: Vec::new(),
        };
        proof {
            assert(s@ =~~= StoreModel::fresh());
        }
        s
    }

    /// Whether a list row with this id exists.
    pub fn contains_list(&self, id: &String) -> (r: bool)
        ensures
            r == has_list(self@.lists, id@),
    {
        let mut i: usize = 0;
        while i < self.lists.len()
            invariant
                i <= self.lists.len(),
                forall|j: int| 0 <= j < i ==> self@.lists[j].id != id@,
            decreases self.lists.len() - i,
        {
            if self.lists[i].id == *id {
                assert(self@.lists[i as int].id == id@);
                return true;
            }
            i += 1;
        }
        false
    }

    /// Whether a task row with this id exists.
    pub fn contains_task(&self, id: &String) -> (r: bool)
        ensures
            r == has_task(self@.tasks, id@),
    {
        let mut i: usize = 0;
        while i < self.tasks.len()
            invariant
                i <= self.tasks.len(),
                forall|j: int| 0 <= j < i ==> self@.tasks[j].id != id@,
            decreases self.tasks.len() - i,
        {
            if self.tasks[i].id == *id {
                assert(self@.tasks[i as int].id == id@);
                return true;
            }
            i += 1;
        }
        false
    }

    /// Whether a subtask row with this id exists.
    pub fn contains_subtask(&self, id: &String) -> (r: bool)
        ensures
            r == has_subtask(self@.subtasks, id@),
    {
        let mut i: usize = 0;
        while i < self.subtasks.len()
            invariant
                i <= self.subtasks.len(),
                forall|j: int| 0 <= j < i ==> self@.subtasks[j].id != id@,
            decreases self.subtasks.len() - i,
        {
            if self.subtasks[i].id == *id {
                assert(self@.subtasks[i as int].id == id@);
                return true;
            }
            i += 1;
        }
        false
    }

    /// Whether a summary row with this id exists.
    pub fn contains_summary(&self, id: &String) -> (r: bool)
        ensures
            r == has_summary(self@.summaries, id@),
    {
        let mut i: usize = 0;
        while i < self.summaries.len()
            invariant
                i <= self.summaries.len(),
                forall|j: int| 0 <= j < i ==> self@.summaries[j].id != id@,
            decreases self.summaries.len() - i,
        {
            if self.summaries[i].id == *id {
                assert(self@.summaries[i as int].id == id@);
                return true;
            }
            i += 1;
        }
        false
    }

    /// Whether a setting row with this key exists.
    pub fn contains_setting(&self, key: &String) -> (r: bool)
        ensures
            r == has_setting(self@.settings, key@),
    {
        let mut i: usize = 0;
        while i < self.settings.len()
            invariant
                i <= self.settings.len(),
                forall|j: int| 0 <= j < i ==> self@.settings[j].key != key@,
            decreases self.settings.len() - i,
        {
            if self.settings[i].key == *key {
                assert(self@.settings[i as int].key == key@);
                return true;
            }
            i += 1;
        }
        false
    }

    /// Insert a list row; a duplicate id is a constraint violation.
    pub fn insert_list(&mut self, row: ListRow) -> (r: Result<(), StoreError>)
        requires
            old(self).wf(),
        ensures
            final(self).wf(),
            match old(self)@.insert_list(row@) {
                Ok(m) => r is Ok && final(self)@ == m,
                Err(e) => (r matches Err(e2) && e2 == e) && *final(self) == *old(self),
            },
    {
        if !self.tables_created {
            return Err(StoreError::NoSuchTable);
        }
        if self.contains_list(&row.id) {
            return Err(StoreError::DuplicateKey);
        }
        let ghost m = old(self)@.insert_list(row@)->Ok_0;
        self.lists.push(row);
        proof {
            broadcast use vstd::prelude::Seq::lemma_push_map_commute;

            lemma_push_list_preserves_wf(old(self)@, row@);
            assert(self@ =~~= m);
        }
        Ok(())
    }

    /// Insert a list row only if its id is absent; never overwrites.
    pub fn seed_list(&mut self, row: ListRow) -> (r: Result<(), StoreError>)
        requires
            old(self).wf(),
        ensures
            final(self).wf(),
            match old(self)@.seed_list(row@) {
                Ok(m) => r is Ok && final(self)@ == m,
                Err(e) => (r matches Err(e2) && e2 == e) && *final(self) == *old(self),
            },
    {
        if !self.tables_created {
            return Err(StoreError::NoSuchTable);
        }
        if self.contains_list(&row.id) {
            return Ok(());
        }
        let ghost m = old(self)@.seed_list(row@)->Ok_0;
        self.lists.push(row);
        proof {
            broadcast use vstd::prelude::Seq::lemma_push_map_commute;

            lemma_push_list_preserves_wf(old(self)@, row@);
            assert(self@ =~~= m);
        }
        Ok(())
    }

    /// Insert a setting row only if its key is absent; never overwrites.
    pub fn seed_setting(&mut self, row: SettingRow) -> (r: Result<(), StoreError>)
        requires
            old(self).wf(),
        ensures
            final(self).wf(),
            match old(self)@.seed_setting(row@) {
                Ok(m) => r is Ok && final(self)@ == m,
                Err(e) => (r matches Err(e2) && e2 == e) && *final(self) == *old(self),
            },
    {
        if !self.tables_created {
            return Err(StoreError::NoSuchTable);
        }
        if self.contains_setting(&row.key) {
            return Ok(());
        }
        let ghost m = old(self)@.seed_setting(row@)->Ok_0;
        self.settings.push(row);
        proof {
            broadcast use vstd::prelude::Seq::lemma_push_map_commute;

            lemma_push_setting_preserves_wf(old(self)@, row@);
            assert(self@ =~~= m);
        }
        Ok(())
    }

    /// Insert a task row; a duplicate id or a dangling list reference is a
    /// constraint violation.
    pub fn insert_task(&mut self, row: TaskRow) -> (r: Result<(), StoreError>)
        requires
            old(self).wf(),
        ensures
            final(self).wf(),
            match old(self)@.insert_task(row@) {
                Ok(m) => r is Ok && final(self)@ == m,
                Err(e) => (r matches Err(e2) && e2 == e) && *final(self) == *old(self),
            },
    {
        if !self.tables_created {
            return Err(StoreError::NoSuchTable);
        }
        if self.contains_task(&row.id) {
            return Err(StoreError::DuplicateKey);
        }
        match &row.list_id {
            Some(lid) => {
                if !self.contains_list(lid) {
                    return Err(StoreError::ForeignKeyViolation);
                }
            },
            None => {},
        }
        let ghost m = old(self)@.insert_task(row@)->Ok_0;
        self.tasks.push(row);
        proof {
            broadcast use vstd::prelude::Seq::lemma_push_map_commute;

            lemma_push_task_preserves_wf(old(self)@, row@);
            assert(self@ =~~= m);
        }
        Ok(())
    }

    /// Insert a subtask row; a duplicate id or a missing parent task is a
    /// constraint violation.
    pub fn insert_subtask(&mut self, row: SubtaskRow) -> (r: Result<(), StoreError>)
        requires
            old(self).wf(),
        ensures
            final(self).wf(),
            match old(self)@.insert_subtask(row@) {
                Ok(m) => r is Ok && final(self)@ == m,
                Err(e) => (r matches Err(e2) && e2 == e) && *final(self) == *old(self),
            },
    {
        if !self.tables_created {
            return Err(StoreError::NoSuchTable);
        }
        if self.contains_subtask(&row.id) {
            return Err(StoreError::DuplicateKey);
        }
        if !self.contains_task(&row.parent_id) {
            return Err(StoreError::ForeignKeyViolation);
        }
        let ghost m = old(self)@.insert_subtask(row@)->Ok_0;
        self.subtasks.push(row);
        proof {
            broadcast use vstd::prelude::Seq::lemma_push_map_commute;

            lemma_push_subtask_preserves_wf(old(self)@, row@);
            assert(self@ =~~= m);
        }
        Ok(())
    }

    /// Insert a summary row; a duplicate id is a constraint violation.
    pub fn insert_summary(&mut self, row: SummaryRow) -> (r: Result<(), StoreError>)
        requires
            old(self).wf(),
        ensures
            final(self).wf(),
            match old(self)@.insert_summary(row@) {
                Ok(m) => r is Ok && final(self)@ == m,
                Err(e) => (r matches Err(e2) && e2 == e) && *final(self) == *old(self),
            },
    {
        if !self.tables_created {
            return Err(StoreError::NoSuchTable);
        }
        if self.contains_summary(&row.id) {
            return Err(StoreError::DuplicateKey);
        }
        let ghost m = old(self)@.insert_summary(row@)->Ok_0;
        self.summaries.push(row);
        proof {
            broadcast use vstd::prelude::Seq::lemma_push_map_commute;

            lemma_push_summary_preserves_wf(old(self)@, row@);
            assert(self@ =~~= m);
        }
        Ok(())
    }

    /// Delete the list with this id, if present. The tasks of that list are
    /// kept and soft-orphaned: `list_id` becomes null and every other column
    /// keeps its value; every other task is untouched. Subtasks, summaries,
    /// settings, the version and the schema are untouched. Returns whether a
    /// row was deleted.
    pub fn delete_list(&mut self, id: &String) -> (r: bool)
        requires
            old(self).wf(),
        ensures
            final(self).wf(),
            r == has_list(old(self)@.lists, id@),
            final(self)@.lists == old(self)@.lists.filter(|l: ListModel| l.id != id@),
            final(self)@.tasks == old(self)@.tasks.map_values(
                |t: TaskModel| orphan_of(t, id@),
            ),
            final(self)@.subtasks == old(self)@.subtasks,
            final(self)@.summaries == old(self)@.summaries,
            final(self)@.settings == old(self)@.settings,
            final(self)@.version == old(self)@.version,
            final(self)@.tables_created == old(self)@.tables_created,
            final(self)@.indexes_created == old(self)@.indexes_created,
    {
        let ghost lp = |l: ListModel| l.id != id@;
        let ghost tf = |t: TaskModel| orphan_of(t, id@);
        let mut found = false;
        let mut kept: Vec<ListRow> = Vec::new();
        let mut i: usize = 0;
        while i < self.lists.len()
            invariant
                i <= self.lists.len(),
                views(kept@) == views(self.lists@).take(i as int).filter(lp),
                found == has_list(views(self.lists@).take(i as int), id@),
                lp == (|l: ListModel| l.id != id@),
            decreases self.lists.len() - i,
        {
            let ghost pre = kept@;
            let ghost all = views(self.lists@);
            let hit = self.lists[i].id == *id;
            if hit {
                found = true;
            } else {
                kept.push(self.lists[i].clone());
            }
            proof {
                all.lemma_take_succ_push(i as int);
                all.take(i as int).lemma_filter_push(all[i as int], lp);
                if !hit {
                    pre.lemma_push_map_commute(|l: ListRow| l@, self.lists@[i as int]);
                    assert(views(kept@) =~= views(pre).push(all[i as int]));
                }
                assert(views(kept@) == all.take(i + 1).filter(lp));
                if has_list(all.take(i + 1), id@) {
                    let w = choose|w: int|
                        0 <= w < all.take(i + 1).len() && (#[trigger] all.take(i + 1)[w]).id
                            == id@;
                    if w < i {
                        assert(all.take(i as int)[w].id == id@);
                    } else {
                        assert(all[i as int].id == id@);
                    }
                }
                if has_list(all.take(i as int), id@) {
                    let w = choose|w: int|
                        0 <= w < all.take(i as int).len() && (#[trigger] all.take(i as int)[w]).id
                            == id@;
                    assert(all.take(i + 1)[w].id == id@);
                }
                if all[i as int].id == id@ {
                    assert(all.take(i + 1)[i as int].id == id@);
                }
            }
            i += 1;
        }
        let mut orphaned: Vec<TaskRow> = Vec::new();
        let mut j: usize = 0;
        while j < self.tasks.len()
            invariant
                j <= self.tasks.len(),
                views(orphaned@) == views(self.tasks@).take(j as int).map_values(tf),
                tf == (|t: TaskModel| orphan_of(t, id@)),
            decreases self.tasks.len() - j,
        {
            let ghost pre = orphaned@;
            let ghost all = views(self.tasks@);
            let mut t = self.tasks[j].clone();
            let mine = match &t.list_id {
                Some(lid) => *lid == *id,
                None => false,
            };
            if mine {
                t.list_id = None;
            }
            assert(t@ == tf(all[j as int]));
            orphaned.push(t);
            proof {
                all.lemma_take_succ_push(j as int);
                all.take(j as int).lemma_push_map_commute(tf, all[j as int]);
                pre.lemma_push_map_commute(|t: TaskRow| t@, orphaned@[pre.len() as int]);
                assert(views(orphaned@) =~= all.take(j + 1).map_values(tf));
            }
            j += 1;
        }
        proof {
            assert(views(self.lists@).take(self.lists@.len() as int) =~= views(self.lists@));
            assert(views(self.tasks@).take(self.tasks@.len() as int) =~= views(self.tasks@));
        }
        self.lists = kept;
        self.tasks = orphaned;
        proof {
            let m0 = old(self)@;
            lemma_filter_unique_list_ids(m0.lists, lp);
            assert(self@.tasks == m0.tasks.map_values(tf));
            assert forall|a: int, b: int| 0 <= a < b < self@.tasks.len() implies self@.tasks[a].id
                != self@.tasks[b].id by {
                assert(self@.tasks[a] == tf(m0.tasks[a]));
                assert(self@.tasks[b] == tf(m0.tasks[b]));
            }
            assert forall|a: int| 0 <= a < self@.tasks.len() implies list_ref_ok(
                self@.lists,
                #[trigger] self@.tasks[a].list_id,
            ) by {
                assert(self@.tasks[a] == tf(m0.tasks[a]));
                assert(list_ref_ok(m0.lists, m0.tasks[a].list_id));
                match self@.tasks[a].list_id {
                    Some(lid) => {
                        let k = choose|k: int| 0 <= k < m0.lists.len() && m0.lists[k].id == lid;
                        m0.lists.lemma_filter_contains(lp, k);
                        let w = choose|w: int|
                            0 <= w < m0.lists.filter(lp).len() && m0.lists.filter(lp)[w]
                                == m0.lists[k];
                        assert(self@.lists[w].id == lid);
                    },
                    None => {},
                }
            }
            assert forall|a: int| 0 <= a < self@.subtasks.len() implies has_task(
                self@.tasks,
                #[trigger] self@.subtasks[a].parent_id,
            ) by {
                assert(has_task(m0.tasks, m0.subtasks[a].parent_id));
                let k = choose|k: int|
                    0 <= k < m0.tasks.len() && m0.tasks[k].id == m0.subtasks[a].parent_id;
                assert(self@.tasks[k] == tf(m0.tasks[k]));
            }
            if !m0.tables_created {
                broadcast use vstd::prelude::Seq::lemma_filter_len;

            }
        }
        found
    }

    /// Delete the task with this id, if present, and cascade: every subtask
    /// whose `parent_id` is this id is deleted with it, and no other. Lists,
    /// summaries, settings, the version and the schema are untouched.
    /// Returns whether a task row was deleted.
    pub fn delete_task(&mut self, id: &String) -> (r: bool)
        requires
            old(self).wf(),
        ensures
            final(self).wf(),
            r == has_task(old(self)@.tasks, id@),
            final(self)@.tasks == old(self)@.tasks.filter(|t: TaskModel| t.id != id@),
            final(self)@.subtasks == old(self)@.subtasks.filter(
                |st: SubtaskModel| st.parent_id != id@,
            ),
            final(self)@.lists == old(self)@.lists,
            final(self)@.summaries == old(self)@.summaries,
            final(self)@.settings == old(self)@.settings,
            final(self)@.version == old(self)@.version,
            final(self)@.tables_created == old(self)@.tables_created,
            final(self)@.indexes_created == old(self)@.indexes_created,
    {
        let ghost tp = |t: TaskModel| t.id != id@;
        let ghost sp = |st: SubtaskModel| st.parent_id != id@;
        let mut found = false;
        let mut kept: Vec<TaskRow> = Vec::new();
        let mut i: usize = 0;
        while i < self.tasks.len()
            invariant
                i <= self.tasks.len(),
                views(kept@) == views(self.tasks@).take(i as int).filter(tp),
                found == has_task(views(self.tasks@).take(i as int), id@),
                tp == (|t: TaskModel| t.id != id@),
            decreases self.tasks.len() - i,
        {
            let ghost pre = kept@;
            let ghost all = views(self.tasks@);
            let hit = self.tasks[i].id == *id;
            if hit {
                found = true;
            } else {
                kept.push(self.tasks[i].clone());
            }
            proof {
                all.lemma_take_succ_push(i as int);
                all.take(i as int).lemma_filter_push(all[i as int], tp);
                if !hit {
                    pre.lemma_push_map_commute(|t: TaskRow| t@, self.tasks@[i as int]);
                    assert(views(kept@) =~= views(pre).push(all[i as int]));
                }
                assert(views(kept@) == all.take(i + 1).filter(tp));
                if has_task(all.take(i + 1), id@) {
                    let w = choose|w: int|
                        0 <= w < all.take(i + 1).len() && (#[trigger] all.take(i + 1)[w]).id
                            == id@;
                    if w < i {
                        assert(all.take(i as int)[w].id == id@);
                    } else {
                        assert(all[i as int].id == id@);
                    }
                }
                if has_task(all.take(i as int), id@) {
                    let w = choose|w: int|
                        0 <= w < all.take(i as int).len() && (#[trigger] all.take(i as int)[w]).id
                            == id@;
                    assert(all.take(i + 1)[w].id == id@);
                }
                if all[i as int].id == id@ {
                    assert(all.take(i + 1)[i as int].id == id@);
                }
            }
            i += 1;
        }
        let mut keptsub: Vec<SubtaskRow> = Vec::new();
        let mut j: usize = 0;
        while j < self.subtasks.len()
            invariant
                j <= self.subtasks.len(),
                views(keptsub@) == views(self.subtasks@).take(j as int).filter(sp),
                sp == (|st: SubtaskModel| st.parent_id != id@),
            decreases self.subtasks.len() - j,
        {
            let ghost pre = keptsub@;
            let ghost all = views(self.subtasks@);
            let cascade = self.subtasks[j].parent_id == *id;
            if !cascade {
                keptsub.push(self.subtasks[j].clone());
            }
            proof {
                all.lemma_take_succ_push(j as int);
                all.take(j as int).lemma_filter_push(all[j as int], sp);
                if !cascade {
                    pre.lemma_push_map_commute(|st: SubtaskRow| st@, self.subtasks@[j as int]);
                    assert(views(keptsub@) =~= views(pre).push(all[j as int]));
                }
                assert(views(keptsub@) == all.take(j + 1).filter(sp));
            }
            j += 1;
        }
        proof {
            assert(views(self.tasks@).take(self.tasks@.len() as int) =~= views(self.tasks@));
            assert(views(self.subtasks@).take(self.subtasks@.len() as int) =~= views(
                self.subtasks@,
            ));
        }
        self.tasks = kept;
        self.subtasks = keptsub;
        proof {
            let m0 = old(self)@;
            lemma_filter_unique_task_ids(m0.tasks, tp);
            lemma_filter_unique_subtask_ids(m0.subtasks, sp);
            lemma_filter_subset(m0.tasks, tp);
            assert forall|a: int| 0 <= a < self@.tasks.len() implies list_ref_ok(
                self@.lists,
                #[trigger] self@.tasks[a].list_id,
            ) by {
                assert(m0.tasks.contains(m0.tasks.filter(tp)[a]));
                let k = choose|k: int| 0 <= k < m0.tasks.len() && m0.tasks[k] == self@.tasks[a];
                assert(list_ref_ok(m0.lists, m0.tasks[k].list_id));
            }
            assert forall|a: int| 0 <= a < self@.subtasks.len() implies has_task(
                self@.tasks,
                #[trigger] self@.subtasks[a].parent_id,
            ) by {
                lemma_filter_subset(m0.subtasks, sp);
                assert(m0.subtasks.contains(m0.subtasks.filter(sp)[a]));
                let k = choose|k: int|
                    0 <= k < m0.subtasks.len() && m0.subtasks[k] == self@.subtasks[a];
                assert(sp(m0.subtasks[k]));
                assert(has_task(m0.tasks, m0.subtasks[k].parent_id));
                let w = choose|w: int|
                    0 <= w < m0.tasks.len() && m0.tasks[w].id == m0.subtasks[k].parent_id;
                assert(tp(m0.tasks[w]));
                m0.tasks.lemma_filter_contains(tp, w);
                let v = choose|v: int|
                    0 <= v < m0.tasks.filter(tp).len() && m0.tasks.filter(tp)[v] == m0.tasks[w];
                assert(self@.tasks[v].id == m0.subtasks[k].parent_id);
            }
            if !m0.tables_created {
                broadcast use vstd::prelude::Seq::lemma_filter_len;

            }
        }
        found
    }

    /// Read the value stored under this key, if any.
    pub fn get_setting(&self, key: &String) -> (r: Option<String>)
        ensures
            match r {
                Some(v) => exists|i: int|
                    0 <= i < self@.settings.len() && (#[trigger] self@.settings[i]).key == key@
                        && self@.settings[i].value == v@,
                None => !has_setting(self@.settings, key@),
            },
    {
        let mut i: usize = 0;
        while i < self.settings.len()
            invariant
                i <= self.settings.len(),
                forall|j: int| 0 <= j < i ==> self@.settings[j].key != key@,
            decreases self.settings.len() - i,
        {
            if self.settings[i].key == *key {
                let v = self.settings[i].value.clone();
                assert(self@.settings[i as int].key == key@);
                return Some(v);
            }
            i += 1;
        }
        None
    }

    /// Create or replace the setting under this key, stamping `now` as its
    /// update time. The one write that overwrites an existing setting row.
    pub fn set_setting(&mut self, key: String, value: String, now: u64) -> (r: Result<
        (),
        StoreError,
    >)
        requires
            old(self).wf(),
        ensures
            final(self).wf(),
            !old(self)@.tables_created ==> (r matches Err(e) && e == StoreError::NoSuchTable)
                && *final(self) == *old(self),
            old(self)@.tables_created ==> r is Ok && (if has_setting(old(self)@.settings, key@) {
                exists|i: int|
                    0 <= i < old(self)@.settings.len() && (#[trigger] old(
                        self,
                    )@.settings[i]).key == key@ && final(self)@ == (StoreModel {
                        settings: old(self)@.settings.update(
                            i,
                            SettingModel { key: key@, value: value@, updated_at: now },
                        ),
                        ..old(self)@
                    })
            } else {
                final(self)@ == (StoreModel {
                    settings: old(self)@.settings.push(
                        SettingModel { key: key@, value: value@, updated_at: now },
                    ),
                    ..old(self)@
                })
            }),
    {
        if !self.tables_created {
            return Err(StoreError::NoSuchTable);
        }
        let row = SettingRow { key, value, updated_at: now };
        let mut i: usize = 0;
        while i < self.settings.len()
            invariant
                i <= self.settings.len(),
                *self == *old(self),
                old(self).wf(),
                self@.tables_created,
                row@ == (SettingModel { key: key@, value: value@, updated_at: now }),
                forall|j: int| 0 <= j < i ==> self@.settings[j].key != row@.key,
            decreases self.settings.len() - i,
        {
            if self.settings[i].key == row.key {
                let ghost s0 = self.settings@;
                let ghost rowv = row;
                self.settings.remove(i);
                self.settings.insert(i, row);
                proof {
                    let m0 = old(self)@;
                    s0.remove_ensures(i as int);
                    s0.remove(i as int).insert_ensures(i as int, rowv);
                    assert(self.settings@ =~= s0.update(i as int, rowv));
                    assert(views(self.settings@) =~= m0.settings.update(i as int, rowv@));
                    assert(rowv@ == (SettingModel { key: key@, value: value@, updated_at: now }));
                    assert(self@ =~~= (StoreModel {
                        settings: m0.settings.update(
                            i as int,
                            SettingModel { key: key@, value: value@, updated_at: now },
                        ),
                        ..m0
                    }));
                    assert forall|a: int, b: int|
                        0 <= a < b < self@.settings.len() implies self@.settings[a].key
                        != self@.settings[b].key by {
                        assert(m0.settings[a].key != m0.settings[b].key);
                    }
                    assert(0 <= i < m0.settings.len() && (#[trigger] m0.settings[i as int]).key
                        == key@ && self@ == (StoreModel {
                        settings: m0.settings.update(
                            i as int,
                            SettingModel { key: key@, value: value@, updated_at: now },
                        ),
                        ..m0
                    }));
                }
                return Ok(());
            }
            i += 1;
        }
        let ghost m0 = self@;
        let ghost rowm = row@;
        self.settings.push(row);
        proof {
            broadcast use vstd::prelude::Seq::lemma_push_map_commute;

            lemma_push_setting_preserves_wf(m0, rowm);
            assert(self@ =~~= (StoreModel { settings: m0.settings.push(rowm), ..m0 }));
        }
        Ok(())
    }
}

} // verus!
