//! The schema registry: the ordered, immutable list of versioned migration
//! steps that brings a store of any prior schema version to the current one.
//!
//! A step's effect is a list of actions, each safe to reapply (create if not
//! exists, insert if absent), so that rerunning a step on a store it already
//! touched cannot corrupt it.

use vstd::prelude::*;

use crate::rows::{ListModel, ListRow, SettingModel, SettingRow, views};

verus! {

/// The model of one migration action.
pub ghost enum ActionModel {
    CreateTables,
    CreateIndexes,
    SeedList(ListModel),
    SeedSetting(SettingModel),
    InsertList(ListModel),
}

/// One statement of a migration step's effect.
pub enum Action {
    /// Create the five tables of the current schema, if they do not exist.
    CreateTables,
    /// Create the secondary indexes, if they do not exist.
    CreateIndexes,
    /// Insert this list row, unless a row with its id exists.
    SeedList(ListRow),
    /// Insert this setting row, unless a row with its key exists; an existing
    /// key is never overwritten.
    SeedSetting(SettingRow),
    /// Insert this list row; an existing id makes the step fail.
    InsertList(ListRow),
}

impl View for Action {
    type V = ActionModel;

    open spec fn view(&self) -> ActionModel {
        match self {
            Action::CreateTables => ActionModel::CreateTables,
            Action::CreateIndexes => ActionModel::CreateIndexes,
            Action::SeedList(l) => ActionModel::SeedList(l@),
            Action::SeedSetting(s) => ActionModel::SeedSetting(s@),
            Action::InsertList(l) => ActionModel::InsertList(l@),
        }
    }
}

/// The model of one migration step.
#[verifier::ext_equal]
pub ghost struct StepModel {
    pub version: u64,
    pub description: Seq<char>,
    pub actions: Seq<ActionModel>,
}

/// A migration step: a positive version number, a short human-readable
/// description, and a forward-only effect.
pub struct MigrationStep {
    pub version: u64,
    pub description: String,
    pub actions: Vec<Action>,
}

impl View for MigrationStep {
    type V = StepModel;

    open spec fn view(&self) -> StepModel {
        StepModel {
            version: self.version,
            description: self.description@,
            actions: views(self.actions@),
        }
    }
}

/// A schema registry: migration steps in the order they are applied.
pub struct Registry {
    pub steps: Vec<MigrationStep>,
}

impl View for Registry {
    type V = Seq<StepModel>;

    open spec fn view(&self) -> Seq<StepModel> {
        views(self.steps@)
    }
}

/// The version at which the registry is first malformed, scanning in order
/// with `prev` the version of the last sound step (0 at the start): a step
/// whose version is not strictly above `prev` — a duplicate, an out-of-order
/// or a non-positive version — is a configuration fault.
pub open spec fn first_config_fault(prev: u64, steps: Seq<StepModel>) -> Option<u64>
    decreases steps.len(),
{
    if steps.len() == 0 {
        None
    } else if steps[0].version <= prev {
        Some(steps[0].version)
    } else {
        first_config_fault(steps[0].version, steps.drop_first())
    }
}

/// A well-formed registry: no configuration fault anywhere.
pub open spec fn registry_valid(steps: Seq<StepModel>) -> bool {
    first_config_fault(0, steps) is None
}

/// Version numbers strictly ascend along the registry.
pub open spec fn versions_ascending(steps: Seq<StepModel>) -> bool {
    forall|i: int, j: int| 0 <= i < j < steps.len() ==> steps[i].version < steps[j].version
}

/// Law: a registry is free of configuration faults above `prev` exactly when
/// its versions strictly ascend and all lie above `prev`; with `prev == 0`,
/// exactly when they strictly ascend and are positive.
pub proof fn lemma_valid_characterization(prev: u64, steps: Seq<StepModel>)
    ensures
        first_config_fault(prev, steps) is None <==> (versions_ascending(steps) && forall|i: int|
            0 <= i < steps.len() ==> #[trigger] steps[i].version > prev),
    decreases steps.len(),
{
    if steps.len() == 0 {
    } else {
        let rest = steps.drop_first();
        lemma_valid_characterization(steps[0].version, rest);
        assert(forall|i: int| 0 <= i < rest.len() ==> #[trigger] rest[i] == steps[i + 1]);
        if first_config_fault(prev, steps) is None {
            assert forall|i: int, j: int| 0 <= i < j < steps.len() implies steps[i].version
                < steps[j].version by {
                if i == 0 {
                    assert(rest[j - 1] == steps[j]);
                } else {
                    assert(rest[i - 1] == steps[i]);
                    assert(rest[j - 1] == steps[j]);
                }
            }
            assert forall|i: int| 0 <= i < steps.len() implies #[trigger] steps[i].version
                > prev by {
                if i > 0 {
                    assert(rest[i - 1] == steps[i]);
                }
            }
        } else {
            if steps[0].version > prev && versions_ascending(steps) && (forall|i: int|
                0 <= i < steps.len() ==> #[trigger] steps[i].version > prev) {
                assert forall|i: int, j: int| 0 <= i < j < rest.len() implies rest[i].version
                    < rest[j].version by {
                    assert(rest[i] == steps[i + 1]);
                    assert(rest[j] == steps[j + 1]);
                }
                assert forall|i: int| 0 <= i < rest.len() implies #[trigger] rest[i].version
                    > steps[0].version by {
                    assert(rest[i] == steps[i + 1]);
                }
                assert(false);
            }
        }
    }
}

/// The default payload of the "appearance" setting.
pub open spec fn appearance_defaults() -> Seq<char> {
    "{\"themeId\":\"default-coral\",\"darkMode\":\"system\",\"interfaceDensity\":\"default\"}"@
}

/// The default payload of the "preferences" setting.
pub open spec fn preferences_defaults() -> Seq<char> {
    "{\"language\":\"zh-CN\",\"defaultNewTaskDueDate\":null,\"defaultNewTaskPriority\":null,\"defaultNewTaskList\":\"Inbox\",\"confirmDeletions\":true}"@
}

/// The default payload of the "ai" setting.
pub open spec fn ai_defaults() -> Seq<char> {
    "{\"provider\":\"openai\",\"apiKey\":\"\",\"model\":\"\",\"baseUrl\":\"\",\"availableModels\":[]}"@
}

/// The one seed list: the default "Inbox", with a fixed sentinel id.
pub open spec fn inbox_seed_model(now: u64) -> ListModel {
    ListModel {
        id: "inbox-default"@,
        name: "Inbox"@,
        icon: Some("inbox"@),
        color: None,
        order: Some(1i64),
        created_at: now,
        updated_at: now,
    }
}

/// The first migration step: create the five tables and the indexes, seed
/// the default list and the three default settings.
pub open spec fn initial_step_model(now: u64) -> StepModel {
    StepModel {
        version: 1,
        description: "create_initial_tables"@,
        actions: seq![
            ActionModel::CreateTables,
            ActionModel::SeedList(inbox_seed_model(now)),
            ActionModel::SeedSetting(
                SettingModel { key: "appearance"@, value: appearance_defaults(), updated_at: now },
            ),
            ActionModel::SeedSetting(
                SettingModel {
                    key: "preferences"@,
                    value: preferences_defaults(),
                    updated_at: now,
                },
            ),
            ActionModel::SeedSetting(
                SettingModel { key: "ai"@, value: ai_defaults(), updated_at: now },
            ),
            ActionModel::CreateIndexes,
        ],
    }
}

/// The current registry: one step.
pub open spec fn default_registry_model(now: u64) -> Seq<StepModel> {
    seq![initial_step_model(now)]
}

/// Build the registry of the current schema. `now` is the wall-clock time in
/// epoch milliseconds, stamped on the seed rows.
pub fn default_registry(now: u64) -> (r: Registry)
    ensures
        r@ == default_registry_model(now),
        registry_valid(r@),
{
    let mut actions: Vec<Action> = Vec::new();
    actions.push(Action::CreateTables);
    actions.push(
        Action::SeedList(
            ListRow {
                id: "inbox-default".to_owned(),
                name: "Inbox".to_owned(),
                icon: Some("inbox".to_owned()),
                color: None,
                order: Some(1),
                created_at: now,
                updated_at: now,
            },
        ),
    );
    actions.push(
        Action::SeedSetting(
            SettingRow {
                key: "appearance".to_owned(),
                value:
                    "{\"themeId\":\"default-coral\",\"darkMode\":\"system\",\"interfaceDensity\":\"default\"}".to_owned(),
                updated_at: now,
            },
        ),
    );
    actions.push(
        Action::SeedSetting(
            SettingRow {
                key: "preferences".to_owned(),
                value:
                    "{\"language\":\"zh-CN\",\"defaultNewTaskDueDate\":null,\"defaultNewTaskPriority\":null,\"defaultNewTaskList\":\"Inbox\",\"confirmDeletions\":true}".to_owned(),
                updated_at: now,
            },
        ),
    );
    actions.push(
        Action::SeedSetting(
            SettingRow {
                key: "ai".to_owned(),
                value:
                    "{\"provider\":\"openai\",\"apiKey\":\"\",\"model\":\"\",\"baseUrl\":\"\",\"availableModels\":[]}".to_owned(),
                updated_at: now,
            },
        ),
    );
    actions.push(Action::CreateIndexes);
    let step = MigrationStep {
        version: 1,
        description: "create_initial_tables".to_owned(),
        actions,
    };
    let mut steps: Vec<MigrationStep> = Vec::new();
    steps.push(step);
    let r = Registry { steps };
    proof {
        assert(views(r.steps@[0].actions@) =~= initial_step_model(now).actions);
        assert(r@ =~= default_registry_model(now));
        assert(r@.drop_first().len() == 0);
        assert(first_config_fault(1, r@.drop_first()) is None);
    }
    r
}

} // verus!
