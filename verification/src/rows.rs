//! The rows of the five tables, together with their mathematical models.
//!
//! Every contract in this crate speaks about the model types (`ListModel`,
//! `TaskModel`, ...), which hold the same data as the executable rows but
//! with `Seq<char>` in place of `String`.

use vstd::prelude::*;

verus! {

/// The view of an optional text column.
pub open spec fn opt_view(o: Option<String>) -> Option<Seq<char>> {
    match o {
        Some(s) => Some(s@),
        None => None,
    }
}

/// The views of the rows of one table, in row order.
pub open spec fn views<T: View>(s: Seq<T>) -> Seq<T::V> {
    s.map_values(|t: T| t@)
}

/// The sentinel stored in `group_category` when a task has no date grouping.
pub open spec fn no_date_category() -> Seq<char> {
    "nodate"@
}

/// The model of a row of the `lists` table.
#[verifier::ext_equal]
pub ghost struct ListModel {
    pub id: Seq<char>,
    pub name: Seq<char>,
    pub icon: Option<Seq<char>>,
    pub color: Option<Seq<char>>,
    pub order: Option<i64>,
    pub created_at: u64,
    pub updated_at: u64,
}

/// A row of the `lists` table.
#[derive(Debug, PartialEq, Eq)]
pub struct ListRow {
    pub id: String,
    pub name: String,
    pub icon: Option<String>,
    pub color: Option<String>,
    pub order: Option<i64>,
    pub created_at: u64,
    pub updated_at: u64,
}

impl View for ListRow {
    type V = ListModel;

    open spec fn view(&self) -> ListModel {
        ListModel {
            id: self.id@,
            name: self.name@,
            icon: opt_view(self.icon),
            color: opt_view(self.color),
            order: self.order,
            created_at: self.created_at,
            updated_at: self.updated_at,
        }
    }
}

/// The model of a row of the `tasks` table.
#[verifier::ext_equal]
pub ghost struct TaskModel {
    pub id: Seq<char>,
    pub title: Seq<char>,
    pub completed: bool,
    pub completed_at: Option<u64>,
    pub completion_percentage: Option<i64>,
    pub due_date: Option<u64>,
    pub list_id: Option<Seq<char>>,
    pub list_name: Seq<char>,
    pub content: Option<Seq<char>>,
    pub order: i64,
    pub created_at: u64,
    pub updated_at: u64,
    pub tags: Option<Seq<char>>,
    pub priority: Option<i64>,
    pub group_category: Seq<char>,
}

/// A row of the `tasks` table. `tags` holds the serialized tag list as the
/// opaque text column stores it (absent when never set). `list_name` is a
/// deliberate denormalized snapshot of the owning list's name, taken when the
/// task is written; the store never rewrites it, not even when the list is
/// deleted.
#[derive(Debug, PartialEq, Eq)]
pub struct TaskRow {
    pub id: String,
    pub title: String,
    pub completed: bool,
    pub completed_at: Option<u64>,
    pub completion_percentage: Option<i64>,
    pub due_date: Option<u64>,
    pub list_id: Option<String>,
    pub list_name: String,
    pub content: Option<String>,
    pub order: i64,
    pub created_at: u64,
    pub updated_at: u64,
    pub tags: Option<String>,
    pub priority: Option<i64>,
    pub group_category: String,
}

impl View for TaskRow {
    type V = TaskModel;

    open spec fn view(&self) -> TaskModel {
        TaskModel {
            id: self.id@,
            title: self.title@,
            completed: self.completed,
            completed_at: self.completed_at,
            completion_percentage: self.completion_percentage,
            due_date: self.due_date,
            list_id: opt_view(self.list_id),
            list_name: self.list_name@,
            content: opt_view(self.content),
            order: self.order,
            created_at: self.created_at,
            updated_at: self.updated_at,
            tags: opt_view(self.tags),
            priority: self.priority,
            group_category: self.group_category@,
        }
    }
}

impl TaskRow {
    /// A task as a plain insert creates it: the flag columns take their
    /// declared defaults (not completed, no completion data, no tags), both
    /// timestamps are set to `now`, and an omitted `group_category` takes the
    /// "no date" sentinel.
    pub fn new(
        id: String,
        title: String,
        list_id: Option<String>,
        list_name: String,
        order: i64,
        group_category: Option<String>,
        now: u64,
    ) -> (r: TaskRow)
        ensures
            r@ == (TaskModel {
                id: id@,
                title: title@,
                completed: false,
                completed_at: None,
                completion_percentage: None,
                due_date: None,
                list_id: opt_view(list_id),
                list_name: list_name@,
                content: None,
                order: order,
                created_at: now,
                updated_at: now,
                tags: None,
                priority: None,
                group_category: match group_category {
                    Some(g) => g@,
                    None => no_date_category(),
                },
            }),
    {
        let category = match group_category {
            Some(g) => g,
            None => no_date_sentinel(),
        };
        TaskRow {
            id,
            title,
            completed: false,
            completed_at: None,
            completion_percentage: None,
            due_date: None,
            list_id,
            list_name,
            content: None,
            order,
            created_at: now,
            updated_at: now,
            tags: None,
            priority: None,
            group_category: category,
        }
    }
}

/// The "no date" sentinel as the stored text.
pub fn no_date_sentinel() -> (r: String)
    ensures
        r@ == no_date_category(),
{
    "nodate".to_owned()
}

/// The model of a row of the `subtasks` table.
#[verifier::ext_equal]
pub ghost struct SubtaskModel {
    pub id: Seq<char>,
    pub parent_id: Seq<char>,
    pub title: Seq<char>,
    pub completed: bool,
    pub completed_at: Option<u64>,
    pub due_date: Option<u64>,
    pub order: i64,
    pub created_at: u64,
    pub updated_at: u64,
}

/// A row of the `subtasks` table.
#[derive(Debug, PartialEq, Eq)]
pub struct SubtaskRow {
    pub id: String,
    pub parent_id: String,
    pub title: String,
    pub completed: bool,
    pub completed_at: Option<u64>,
    pub due_date: Option<u64>,
    pub order: i64,
    pub created_at: u64,
    pub updated_at: u64,
}

impl View for SubtaskRow {
    type V = SubtaskModel;

    open spec fn view(&self) -> SubtaskModel {
        SubtaskModel {
            id: self.id@,
            parent_id: self.parent_id@,
            title: self.title@,
            completed: self.completed,
            completed_at: self.completed_at,
            due_date: self.due_date,
            order: self.order,
            created_at: self.created_at,
            updated_at: self.updated_at,
        }
    }
}

/// The model of a row of the `summaries` table.
#[verifier::ext_equal]
pub ghost struct SummaryModel {
    pub id: Seq<char>,
    pub created_at: u64,
    pub updated_at: u64,
    pub period_key: Seq<char>,
    pub list_key: Seq<char>,
    pub task_ids: Seq<char>,
    pub summary_text: Seq<char>,
}

/// A row of the `summaries` table. `task_ids` holds the serialized id list
/// as the opaque text column stores it.
#[derive(Debug, PartialEq, Eq)]
pub struct SummaryRow {
    pub id: String,
    pub created_at: u64,
    pub updated_at: u64,
    pub period_key: String,
    pub list_key: String,
    pub task_ids: String,
    pub summary_text: String,
}

impl View for SummaryRow {
    type V = SummaryModel;

    open spec fn view(&self) -> SummaryModel {
        SummaryModel {
            id: self.id@,
            created_at: self.created_at,
            updated_at: self.updated_at,
            period_key: self.period_key@,
            list_key: self.list_key@,
            task_ids: self.task_ids@,
            summary_text: self.summary_text@,
        }
    }
}

/// The model of a row of the `settings` table.
#[verifier::ext_equal]
pub ghost struct SettingModel {
    pub key: Seq<char>,
    pub value: Seq<char>,
    pub updated_at: u64,
}

/// A row of the `settings` table.
#[derive(Debug, PartialEq, Eq)]
pub struct SettingRow {
    pub key: String,
    pub value: String,
    pub updated_at: u64,
}

impl View for SettingRow {
    type V = SettingModel;

    open spec fn view(&self) -> SettingModel {
        SettingModel { key: self.key@, value: self.value@, updated_at: self.updated_at }
    }
}

fn clone_opt_string(o: &Option<String>) -> (r: Option<String>)
    ensures
        r == *o,
{
    match o {
        Some(s) => Some(s.clone()),
        None => None,
    }
}

impl Clone for ListRow {
    fn clone(&self) -> (r: Self)
        ensures
            r == *self,
    {
        ListRow {
            id: self.id.clone(),
            name: self.name.clone(),
            icon: clone_opt_string(&self.icon),
            color: clone_opt_string(&self.color),
            order: self.order,
            created_at: self.created_at,
            updated_at: self.updated_at,
        }
    }
}

impl Clone for TaskRow {
    fn clone(&self) -> (r: Self)
        ensures
            r == *self,
    {
        TaskRow {
            id: self.id.clone(),
            title: self.title.clone(),
            completed: self.completed,
            completed_at: self.completed_at,
            completion_percentage: self.completion_percentage,
            due_date: self.due_date,
            list_id: clone_opt_string(&self.list_id),
            list_name: self.list_name.clone(),
            content: clone_opt_string(&self.content),
            order: self.order,
            created_at: self.created_at,
            updated_at: self.updated_at,
            tags: clone_opt_string(&self.tags),
            priority: self.priority,
            group_category: self.group_category.clone(),
        }
    }
}

impl Clone for SubtaskRow {
    fn clone(&self) -> (r: Self)
        ensures
            r == *self,
    {
        SubtaskRow {
            id: self.id.clone(),
            parent_id: self.parent_id.clone(),
            title: self.title.clone(),
            completed: self.completed,
            completed_at: self.completed_at,
            due_date: self.due_date,
            order: self.order,
            created_at: self.created_at,
            updated_at: self.updated_at,
        }
    }
}

impl Clone for SummaryRow {
    fn clone(&self) -> (r: Self)
        ensures
            r == *self,
    {
        SummaryRow {
            id: self.id.clone(),
            created_at: self.created_at,
            updated_at: self.updated_at,
            period_key: self.period_key.clone(),
            list_key: self.list_key.clone(),
            task_ids: self.task_ids.clone(),
            summary_text: self.summary_text.clone(),
        }
    }
}

impl Clone for SettingRow {
    fn clone(&self) -> (r: Self)
        ensures
            r == *self,
    {
        SettingRow {
            key: self.key.clone(),
            value: self.value.clone(),
            updated_at: self.updated_at,
        }
    }
}

} // verus!
