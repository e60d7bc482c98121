use tada_store::engine::open;
use tada_store::registry::default_registry;
use tada_store::rows::{ListRow, SubtaskRow, TaskRow};
use tada_store::store::{Store, StoreError};

fn opened_store() -> Store {
    let mut store = Store::fresh();
    let registry = default_registry(100);
    open(&mut store, &registry).unwrap();
    store
}

fn list(id: &str, name: &str, now: u64) -> ListRow {
    ListRow {
        id: id.to_owned(),
        name: name.to_owned(),
        icon: None,
        color: None,
        order: None,
        created_at: now,
        updated_at: now,
    }
}

fn subtask(id: &str, parent: &str, title: &str, now: u64) -> SubtaskRow {
    SubtaskRow {
        id: id.to_owned(),
        parent_id: parent.to_owned(),
        title: title.to_owned(),
        completed: false,
        completed_at: None,
        due_date: None,
        order: 1,
        created_at: now,
        updated_at: now,
    }
}

#[test]
fn tasks_table_exists_and_group_category_defaults_to_the_no_date_sentinel() {
    let mut store = opened_store();
    assert!(store.tables_created);
    let task = TaskRow::new(
        "t1".to_owned(),
        "buy milk".to_owned(),
        Some("inbox-default".to_owned()),
        "Inbox".to_owned(),
        1,
        None,
        200,
    );
    store.insert_task(task).unwrap();
    assert_eq!(store.tasks.len(), 1);
    assert_eq!(store.tasks[0].group_category, "nodate");
    assert!(!store.tasks[0].completed);
    assert_eq!(store.tasks[0].created_at, 200);
    assert_eq!(store.tasks[0].updated_at, 200);
}

#[test]
fn explicit_group_category_is_kept() {
    let mut store = opened_store();
    let task = TaskRow::new(
        "t1".to_owned(),
        "buy milk".to_owned(),
        None,
        "Inbox".to_owned(),
        1,
        Some("today".to_owned()),
        200,
    );
    store.insert_task(task).unwrap();
    assert_eq!(store.tasks[0].group_category, "today");
}

#[test]
fn deleting_a_list_soft_orphans_its_tasks() {
    let mut store = opened_store();
    store.insert_list(list("work", "Work", 150)).unwrap();
    let mine = TaskRow::new(
        "t1".to_owned(),
        "write report".to_owned(),
        Some("work".to_owned()),
        "Work".to_owned(),
        1,
        None,
        160,
    );
    let other = TaskRow::new(
        "t2".to_owned(),
        "buy milk".to_owned(),
        Some("inbox-default".to_owned()),
        "Inbox".to_owned(),
        2,
        None,
        160,
    );
    store.insert_task(mine).unwrap();
    store.insert_task(other).unwrap();

    assert!(store.delete_list(&"work".to_owned()));

    assert!(store.lists.iter().all(|l| l.id != "work"));
    assert_eq!(store.tasks.len(), 2);
    let t1 = &store.tasks[0];
    assert_eq!(t1.id, "t1");
    assert_eq!(t1.list_id, None);
    assert_eq!(t1.title, "write report");
    assert_eq!(t1.list_name, "Work");
    assert_eq!(t1.updated_at, 160);
    let t2 = &store.tasks[1];
    assert_eq!(t2.list_id.as_deref(), Some("inbox-default"));
}

#[test]
fn deleting_a_missing_list_changes_nothing() {
    let mut store = opened_store();
    let reference = opened_store();
    assert!(!store.delete_list(&"nope".to_owned()));
    assert_eq!(store, reference);
}

#[test]
fn deleting_a_task_cascades_to_exactly_its_subtasks() {
    let mut store = opened_store();
    let t1 = TaskRow::new(
        "t1".to_owned(),
        "pack".to_owned(),
        None,
        "Inbox".to_owned(),
        1,
        None,
        170,
    );
    let t2 = TaskRow::new(
        "t2".to_owned(),
        "travel".to_owned(),
        None,
        "Inbox".to_owned(),
        2,
        None,
        170,
    );
    store.insert_task(t1).unwrap();
    store.insert_task(t2).unwrap();
    store.insert_subtask(subtask("s1", "t1", "socks", 171)).unwrap();
    store.insert_subtask(subtask("s2", "t1", "shoes", 171)).unwrap();
    store.insert_subtask(subtask("s3", "t2", "tickets", 171)).unwrap();

    assert!(store.delete_task(&"t1".to_owned()));

    assert_eq!(store.tasks.len(), 1);
    assert_eq!(store.tasks[0].id, "t2");
    assert_eq!(store.subtasks.len(), 1);
    assert_eq!(store.subtasks[0].id, "s3");
    assert_eq!(store.subtasks[0].title, "tickets");
}

#[test]
fn inserts_fail_before_the_tables_exist() {
    let mut store = Store::fresh();
    let err = store.insert_list(list("a", "A", 1)).unwrap_err();
    assert_eq!(err, StoreError::NoSuchTable);
    assert_eq!(store, Store::fresh());
}

#[test]
fn duplicate_primary_keys_are_rejected() {
    let mut store = opened_store();
    store.insert_list(list("a", "A", 1)).unwrap();
    let err = store.insert_list(list("a", "Again", 2)).unwrap_err();
    assert_eq!(err, StoreError::DuplicateKey);
    assert_eq!(store.lists.len(), 2);
    assert_eq!(store.lists[1].name, "A");
}

#[test]
fn dangling_references_are_rejected() {
    let mut store = opened_store();
    let dangling = TaskRow::new(
        "t1".to_owned(),
        "ghost".to_owned(),
        Some("no-such-list".to_owned()),
        "Nowhere".to_owned(),
        1,
        None,
        10,
    );
    assert_eq!(
        store.insert_task(dangling).unwrap_err(),
        StoreError::ForeignKeyViolation
    );
    assert_eq!(
        store.insert_subtask(subtask("s1", "no-such-task", "x", 10)).unwrap_err(),
        StoreError::ForeignKeyViolation
    );
    assert!(store.tasks.is_empty());
    assert!(store.subtasks.is_empty());
}

#[test]
fn settings_can_be_read_written_and_refreshed() {
    let mut store = opened_store();
    assert_eq!(store.get_setting(&"missing".to_owned()), None);

    store
        .set_setting("appearance".to_owned(), "dark".to_owned(), 500)
        .unwrap();
    assert_eq!(store.settings.len(), 3);
    assert_eq!(store.get_setting(&"appearance".to_owned()).unwrap(), "dark");
    assert_eq!(store.settings[0].updated_at, 500);

    store
        .set_setting("brand-new".to_owned(), "v".to_owned(), 501)
        .unwrap();
    assert_eq!(store.settings.len(), 4);
    assert_eq!(store.get_setting(&"brand-new".to_owned()).unwrap(), "v");
}

#[test]
fn settings_writes_need_the_tables() {
    let mut store = Store::fresh();
    assert_eq!(
        store
            .set_setting("k".to_owned(), "v".to_owned(), 1)
            .unwrap_err(),
        StoreError::NoSuchTable
    );
}
