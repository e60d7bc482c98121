use tada_store::engine::open;
use tada_store::registry::{Action, MigrationStep, Registry, default_registry};
use tada_store::rows::{ListRow, SettingRow};
use tada_store::store::{OpenError, Store};

const APPEARANCE_PAYLOAD: &str =
    "{\"themeId\":\"default-coral\",\"darkMode\":\"system\",\"interfaceDensity\":\"default\"}";
const PREFERENCES_PAYLOAD: &str = "{\"language\":\"zh-CN\",\"defaultNewTaskDueDate\":null,\"defaultNewTaskPriority\":null,\"defaultNewTaskList\":\"Inbox\",\"confirmDeletions\":true}";
const AI_PAYLOAD: &str =
    "{\"provider\":\"openai\",\"apiKey\":\"\",\"model\":\"\",\"baseUrl\":\"\",\"availableModels\":[]}";

fn seed_setting_step(version: u64, key: &str, value: &str) -> MigrationStep {
    MigrationStep {
        version,
        description: format!("seed_{key}"),
        actions: vec![Action::SeedSetting(SettingRow {
            key: key.to_owned(),
            value: value.to_owned(),
            updated_at: version,
        })],
    }
}

#[test]
fn fresh_open_seeds_inbox_and_settings() {
    let mut store = Store::fresh();
    let registry = default_registry(1_000);
    let applied = open(&mut store, &registry).unwrap();
    assert_eq!(applied, 1);
    assert_eq!(store.version, 1);
    assert!(store.tables_created);
    assert!(store.indexes_created);
    assert_eq!(store.lists.len(), 1);
    let inbox = &store.lists[0];
    assert_eq!(inbox.id, "inbox-default");
    assert_eq!(inbox.name, "Inbox");
    assert_eq!(inbox.icon.as_deref(), Some("inbox"));
    assert_eq!(inbox.color, None);
    assert_eq!(inbox.order, Some(1));
    assert_eq!(store.settings.len(), 3);
    assert_eq!(store.settings[0].key, "appearance");
    assert_eq!(store.settings[0].value, APPEARANCE_PAYLOAD);
    assert_eq!(store.settings[1].key, "preferences");
    assert_eq!(store.settings[1].value, PREFERENCES_PAYLOAD);
    assert_eq!(store.settings[2].key, "ai");
    assert_eq!(store.settings[2].value, AI_PAYLOAD);
    assert!(store.tasks.is_empty());
    assert!(store.subtasks.is_empty());
    assert!(store.summaries.is_empty());
}

#[test]
fn second_open_applies_nothing_and_changes_nothing() {
    let registry = default_registry(7);
    let mut store = Store::fresh();
    assert_eq!(open(&mut store, &registry).unwrap(), 1);
    let mut reference = Store::fresh();
    assert_eq!(open(&mut reference, &registry).unwrap(), 1);
    assert_eq!(open(&mut store, &registry).unwrap(), 0);
    assert_eq!(store, reference);
}

#[test]
fn open_applies_exactly_the_pending_steps_in_order() {
    let v1 = default_registry(5).steps.remove(0);
    let mut store = Store::fresh();
    let base = Registry {
        steps: vec![default_registry(5).steps.remove(0)],
    };
    assert_eq!(open(&mut store, &base).unwrap(), 1);
    assert_eq!(store.version, 1);

    let full = Registry {
        steps: vec![
            v1,
            seed_setting_step(2, "second", "2"),
            seed_setting_step(3, "third", "3"),
        ],
    };
    let applied = open(&mut store, &full).unwrap();
    assert_eq!(applied, 2);
    assert_eq!(store.version, 3);
    assert_eq!(store.settings.len(), 5);
    assert_eq!(store.settings[3].key, "second");
    assert_eq!(store.settings[4].key, "third");
}

#[test]
fn failed_step_leaves_version_and_state_untouched() {
    let mut store = Store::fresh();
    let base = default_registry(5);
    assert_eq!(open(&mut store, &base).unwrap(), 1);
    assert_eq!(store.version, 1);

    let poisoned = Registry {
        steps: vec![
            default_registry(5).steps.remove(0),
            MigrationStep {
                version: 2,
                description: "widen".to_owned(),
                actions: vec![
                    Action::SeedSetting(SettingRow {
                        key: "partial".to_owned(),
                        value: "x".to_owned(),
                        updated_at: 9,
                    }),
                    // violates the primary key of `lists`: the seed list exists
                    Action::InsertList(ListRow {
                        id: "inbox-default".to_owned(),
                        name: "Again".to_owned(),
                        icon: None,
                        color: None,
                        order: None,
                        created_at: 9,
                        updated_at: 9,
                    }),
                ],
            },
        ],
    };
    let err = open(&mut store, &poisoned).unwrap_err();
    assert_eq!(err, OpenError::Schema { version: 2 });
    assert_eq!(store.version, 1);
    assert_eq!(store.settings.len(), 3);
    assert!(store.settings.iter().all(|s| s.key != "partial"));
    assert_eq!(store.lists.len(), 1);
}

#[test]
fn version_gaps_are_tolerated() {
    let mut store = Store::fresh();
    let gappy = Registry {
        steps: vec![
            default_registry(5).steps.remove(0),
            seed_setting_step(7, "later", "x"),
        ],
    };
    assert_eq!(open(&mut store, &gappy).unwrap(), 2);
    assert_eq!(store.version, 7);
    assert_eq!(store.settings.len(), 4);
}

#[test]
fn duplicate_version_is_a_configuration_error() {
    let mut store = Store::fresh();
    let registry = Registry {
        steps: vec![
            seed_setting_step(1, "a", "1"),
            seed_setting_step(1, "b", "1"),
        ],
    };
    let err = open(&mut store, &registry).unwrap_err();
    assert_eq!(err, OpenError::Configuration { version: 1 });
    assert_eq!(store, Store::fresh());
}

#[test]
fn out_of_order_or_zero_versions_are_configuration_errors() {
    let mut store = Store::fresh();
    let unordered = Registry {
        steps: vec![
            seed_setting_step(2, "a", "1"),
            seed_setting_step(1, "b", "1"),
        ],
    };
    assert_eq!(
        open(&mut store, &unordered).unwrap_err(),
        OpenError::Configuration { version: 1 }
    );
    let zero = Registry {
        steps: vec![seed_setting_step(0, "a", "1")],
    };
    assert_eq!(
        open(&mut store, &zero).unwrap_err(),
        OpenError::Configuration { version: 0 }
    );
    assert_eq!(store, Store::fresh());
}

#[test]
fn reapplying_the_seed_step_never_overwrites_present_rows() {
    let mut store = Store::fresh();
    assert_eq!(open(&mut store, &default_registry(5)).unwrap(), 1);
    store
        .set_setting("appearance".to_owned(), "custom".to_owned(), 42)
        .unwrap();
    // a later registry whose step 2 replays the same seeds must not reset them
    let v1 = default_registry(5).steps.remove(0);
    let mut replay = default_registry(5).steps.remove(0);
    replay.version = 2;
    replay.description = "replay_seeds".to_owned();
    let registry = Registry {
        steps: vec![v1, replay],
    };
    assert_eq!(open(&mut store, &registry).unwrap(), 1);
    assert_eq!(store.version, 2);
    assert_eq!(store.settings.len(), 3);
    assert_eq!(store.get_setting(&"appearance".to_owned()).unwrap(), "custom");
    assert_eq!(store.lists.len(), 1);
}
