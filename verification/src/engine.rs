//! The migration engine. `open` takes the store's current state and the
//! registry, fails fast on a malformed registry, applies every step whose
//! version lies above the recorded one — in order, atomically each, recording
//! the step's version on success — and leaves the store current. Opening an
//! already-current store changes nothing.

use vstd::prelude::*;

use crate::registry::{
    Action, ActionModel, MigrationStep, Registry, StepModel, ai_defaults, appearance_defaults,
    default_registry_model, first_config_fault, inbox_seed_model, initial_step_model,
    preferences_defaults, versions_ascending,
};
use crate::rows::{ListModel, SettingModel, views};
use crate::store::{OpenError, Store, StoreError, StoreModel, has_list, has_setting};

verus! {

/// What one action does to a store.
pub open spec fn apply_action_model(m: StoreModel, a: ActionModel) -> Result<
    StoreModel,
    StoreError,
> {
    match a {
        ActionModel::CreateTables => Ok(m.create_tables()),
        ActionModel::CreateIndexes => m.create_indexes(),
        ActionModel::SeedList(l) => m.seed_list(l),
        ActionModel::SeedSetting(s) => m.seed_setting(s),
        ActionModel::InsertList(l) => m.insert_list(l),
    }
}

/// What a list of actions does: each in order, stopping at the first failure.
pub open spec fn apply_actions_model(m: StoreModel, actions: Seq<ActionModel>) -> Result<
    StoreModel,
    StoreError,
>
    decreases actions.len(),
{
    if actions.len() == 0 {
        Ok(m)
    } else {
        match apply_action_model(m, actions[0]) {
            Ok(m2) => apply_actions_model(m2, actions.drop_first()),
            Err(e) => Err(e),
        }
    }
}

/// What one whole step does: its actions in order, then the recorded version
/// becomes the step's version. A failing action fails the whole step, which
/// then contributes nothing.
pub open spec fn apply_step_model(m: StoreModel, step: StepModel) -> Result<
    StoreModel,
    StoreError,
> {
    match apply_actions_model(m, step.actions) {
        Ok(m2) => Ok(StoreModel { version: step.version, ..m2 }),
        Err(e) => Err(e),
    }
}

/// The outcome of a run of the engine over a registry.
pub ghost enum RunModel {
    /// Every pending step applied; `applied` counts them.
    Done { store: StoreModel, applied: nat },
    /// The step with this version failed with this error; `store` is what the
    /// engine leaves behind: every earlier pending step fully applied, and
    /// nothing of the failing step or of any later one.
    Failed { store: StoreModel, version: u64, error: StoreError },
}

/// The engine's behaviour: steps at or below the recorded version are
/// skipped, the rest apply in order, atomically each.
pub open spec fn run_model(m: StoreModel, steps: Seq<StepModel>) -> RunModel
    decreases steps.len(),
{
    if steps.len() == 0 {
        RunModel::Done { store: m, applied: 0 }
    } else if steps[0].version <= m.version {
        run_model(m, steps.drop_first())
    } else {
        match apply_step_model(m, steps[0]) {
            Ok(m2) => match run_model(m2, steps.drop_first()) {
                RunModel::Done { store, applied } => RunModel::Done {
                    store,
                    applied: applied + 1,
                },
                f => f,
            },
            Err(e) => RunModel::Failed { store: m, version: steps[0].version, error: e },
        }
    }
}

/// A run outcome with `extra` more steps counted as applied.
pub open spec fn add_applied(r: RunModel, extra: nat) -> RunModel {
    match r {
        RunModel::Done { store, applied } => RunModel::Done { store, applied: applied + extra },
        f => f,
    }
}

/// Law: a successful run leaves the recorded version at or above both the
/// initial version and every registry version.
pub proof fn lemma_run_reaches_all_versions(m: StoreModel, steps: Seq<StepModel>)
    ensures
        run_model(m, steps) matches RunModel::Done { store: s1, .. } ==> s1.version >= m.version
            && forall|i: int| 0 <= i < steps.len() ==> #[trigger] steps[i].version <= s1.version,
    decreases steps.len(),
{
    if steps.len() == 0 {
    } else {
        let rest = steps.drop_first();
        assert(forall|i: int| 0 <= i < rest.len() ==> #[trigger] rest[i] == steps[i + 1]);
        if steps[0].version <= m.version {
            lemma_run_reaches_all_versions(m, rest);
        } else {
            match apply_step_model(m, steps[0]) {
                Ok(m2) => {
                    lemma_run_reaches_all_versions(m2, rest);
                },
                Err(_) => {},
            }
        }
        match run_model(m, steps) {
            RunModel::Done { store: s1, .. } => {
                assert forall|i: int| 0 <= i < steps.len() implies #[trigger] steps[i].version
                    <= s1.version by {
                    if i > 0 {
                        assert(rest[i - 1] == steps[i]);
                    }
                }
            },
            _ => {},
        }
    }
}

/// Law: when every step's version is at or below the recorded one, a run
/// applies nothing and changes nothing.
pub proof fn lemma_run_skips_current(m: StoreModel, steps: Seq<StepModel>)
    requires
        forall|i: int| 0 <= i < steps.len() ==> #[trigger] steps[i].version <= m.version,
    ensures
        run_model(m, steps) == (RunModel::Done { store: m, applied: 0nat }),
    decreases steps.len(),
{
    if steps.len() == 0 {
    } else {
        let rest = steps.drop_first();
        assert forall|i: int| 0 <= i < rest.len() implies #[trigger] rest[i].version
            <= m.version by {
            assert(rest[i] == steps[i + 1]);
        }
        lemma_run_skips_current(m, rest);
    }
}

/// Law (idempotence): a second run over the same registry, starting from the
/// state a successful run left behind, applies zero steps and leaves the
/// store exactly as it was.
pub proof fn lemma_open_idempotent(m: StoreModel, steps: Seq<StepModel>)
    ensures
        run_model(m, steps) matches RunModel::Done { store: s1, .. } ==> run_model(s1, steps)
            == (RunModel::Done { store: s1, applied: 0nat }),
{
    match run_model(m, steps) {
        RunModel::Done { store: s1, .. } => {
            lemma_run_reaches_all_versions(m, steps);
            lemma_run_skips_current(s1, steps);
        },
        _ => {},
    }
}

/// How many registry steps lie strictly above this version.
pub open spec fn pending_count(version: u64, steps: Seq<StepModel>) -> nat
    decreases steps.len(),
{
    if steps.len() == 0 {
        0
    } else {
        (if steps[0].version > version {
            1nat
        } else {
            0nat
        }) + pending_count(version, steps.drop_first())
    }
}

/// When every step's version lies above `version`, every step is pending.
proof fn lemma_pending_all(version: u64, steps: Seq<StepModel>)
    requires
        forall|i: int| 0 <= i < steps.len() ==> #[trigger] steps[i].version > version,
    ensures
        pending_count(version, steps) == steps.len(),
    decreases steps.len(),
{
    if steps.len() == 0 {
    } else {
        let rest = steps.drop_first();
        assert forall|i: int| 0 <= i < rest.len() implies #[trigger] rest[i].version > version by {
            assert(rest[i] == steps[i + 1]);
        }
        lemma_pending_all(version, rest);
    }
}

/// Law (atomicity of failure): a failed run never leaves the store claiming
/// a version it did not fully reach — the recorded version stays strictly
/// below the failing step's, and the failing step contributes nothing, since
/// the state left behind is exactly the state the failing step was applied
/// to.
pub proof fn lemma_failure_claims_no_unreached_version(m: StoreModel, steps: Seq<StepModel>)
    ensures
        run_model(m, steps) matches RunModel::Failed { store: s1, version: v, error } ==> {
            &&& s1.version < v
            &&& exists|i: int|
                0 <= i < steps.len() && (#[trigger] steps[i]).version == v && apply_step_model(
                    s1,
                    steps[i],
                ) == Err::<StoreModel, StoreError>(error)
        },
    decreases steps.len(),
{
    if steps.len() == 0 {
    } else {
        let rest = steps.drop_first();
        assert(forall|i: int| 0 <= i < rest.len() ==> #[trigger] rest[i] == steps[i + 1]);
        if steps[0].version <= m.version {
            lemma_failure_claims_no_unreached_version(m, rest);
        } else {
            match apply_step_model(m, steps[0]) {
                Ok(m2) => {
                    lemma_failure_claims_no_unreached_version(m2, rest);
                },
                Err(_) => {},
            }
        }
        match run_model(m, steps) {
            RunModel::Failed { store: s1, version: v, error } => {
                if steps[0].version > m.version && apply_step_model(m, steps[0]) is Err {
                    assert(steps[0].version == v && apply_step_model(s1, steps[0]) == Err::<
                        StoreModel,
                        StoreError,
                    >(error));
                } else {
                    let i = choose|i: int|
                        0 <= i < rest.len() && (#[trigger] rest[i]).version == v
                            && apply_step_model(s1, rest[i]) == Err::<StoreModel, StoreError>(
                            error,
                        );
                    assert(steps[i + 1].version == v && apply_step_model(s1, steps[i + 1]) == Err::<
                        StoreModel,
                        StoreError,
                    >(error));
                }
            },
            _ => {},
        }
    }
}

/// Law (ordering and completeness): over a registry whose versions strictly
/// ascend, a successful run applies exactly the steps whose version lies
/// above the recorded one — in registry order, since a run consumes the
/// registry front to back — and records the last step's version when any
/// step was pending, the old version otherwise.
pub proof fn lemma_run_applies_exactly_pending(m: StoreModel, steps: Seq<StepModel>)
    requires
        versions_ascending(steps),
    ensures
        run_model(m, steps) matches RunModel::Done { store: s1, applied } ==> {
            &&& applied == pending_count(m.version, steps)
            &&& s1.version == (if pending_count(m.version, steps) == 0 {
                m.version
            } else {
                steps.last().version
            })
        },
    decreases steps.len(),
{
    if steps.len() == 0 {
    } else {
        let rest = steps.drop_first();
        assert(forall|i: int| 0 <= i < rest.len() ==> #[trigger] rest[i] == steps[i + 1]);
        assert forall|i: int, j: int| 0 <= i < j < rest.len() implies rest[i].version
            < rest[j].version by {
            assert(rest[i] == steps[i + 1]);
            assert(rest[j] == steps[j + 1]);
        }
        if steps[0].version <= m.version {
            lemma_run_applies_exactly_pending(m, rest);
            if rest.len() > 0 {
                assert(rest.last() == steps.last());
            }
        } else {
            assert forall|i: int| 0 <= i < rest.len() implies #[trigger] rest[i].version
                > steps[0].version by {
                assert(rest[i] == steps[i + 1]);
            }
            match apply_step_model(m, steps[0]) {
                Ok(m2) => {
                    lemma_run_applies_exactly_pending(m2, rest);
                    lemma_pending_all(m2.version, rest);
                    lemma_pending_all(m.version, rest);
                    if rest.len() > 0 {
                        assert(rest.last() == steps.last());
                    }
                },
                Err(_) => {},
            }
        }
    }
}

/// Law (first migration): a run of the default registry on a never-migrated
/// store succeeds, applies its one step, and leaves a store at version 1
/// whose tables and indexes exist, holding exactly one list row — the seeded
/// "Inbox", under its fixed sentinel id — and exactly the three settings
/// "appearance", "preferences" and "ai" with their documented default
/// payloads, and no other row.
pub proof fn lemma_fresh_open_seeds_defaults(now: u64)
    ensures
        run_model(StoreModel::fresh(), default_registry_model(now)) matches RunModel::Done {
            store: s1,
            applied,
        } && {
            &&& applied == 1
            &&& s1.version == 1
            &&& s1.tables_created
            &&& s1.indexes_created
            &&& s1.lists == seq![inbox_seed_model(now)]
            &&& s1.settings == seq![
                SettingModel { key: "appearance"@, value: appearance_defaults(), updated_at: now },
                SettingModel {
                    key: "preferences"@,
                    value: preferences_defaults(),
                    updated_at: now,
                },
                SettingModel { key: "ai"@, value: ai_defaults(), updated_at: now },
            ]
            &&& s1.tasks.len() == 0
            &&& s1.subtasks.len() == 0
            &&& s1.summaries.len() == 0
        },
{
    reveal_strlit("appearance");
    reveal_strlit("preferences");
    reveal_strlit("ai");
    let m0 = StoreModel::fresh();
    let st = initial_step_model(now);
    let acts = st.actions;
    let t5 = acts.drop_first();
    let t4 = t5.drop_first();
    let t3 = t4.drop_first();
    let t2 = t3.drop_first();
    let t1 = t2.drop_first();
    let t0 = t1.drop_first();
    assert(t5[0] == acts[1] && t4[0] == acts[2] && t3[0] == acts[3] && t2[0] == acts[4] && t1[0]
        == acts[5]);
    assert(t0.len() == 0);
    let l = inbox_seed_model(now);
    let s_app = SettingModel { key: "appearance"@, value: appearance_defaults(), updated_at: now };
    let s_pref = SettingModel {
        key: "preferences"@,
        value: preferences_defaults(),
        updated_at: now,
    };
    let s_ai = SettingModel { key: "ai"@, value: ai_defaults(), updated_at: now };
    let m1 = m0.create_tables();
    assert(apply_action_model(m0, acts[0]) == Ok::<StoreModel, StoreError>(m1));
    let m2 = StoreModel { lists: m1.lists.push(l), ..m1 };
    assert(!has_list(m1.lists, l.id));
    assert(apply_action_model(m1, acts[1]) == Ok::<StoreModel, StoreError>(m2));
    let m3 = StoreModel { settings: m2.settings.push(s_app), ..m2 };
    assert(!has_setting(m2.settings, s_app.key));
    assert(apply_action_model(m2, acts[2]) == Ok::<StoreModel, StoreError>(m3));
    let m4 = StoreModel { settings: m3.settings.push(s_pref), ..m3 };
    assert(!has_setting(m3.settings, s_pref.key)) by {
        assert(m3.settings[0].key.len() != s_pref.key.len());
    }
    assert(apply_action_model(m3, acts[3]) == Ok::<StoreModel, StoreError>(m4));
    let m5 = StoreModel { settings: m4.settings.push(s_ai), ..m4 };
    assert(!has_setting(m4.settings, s_ai.key)) by {
        assert(m4.settings[0].key.len() != s_ai.key.len());
        assert(m4.settings[1].key.len() != s_ai.key.len());
    }
    assert(apply_action_model(m4, acts[4]) == Ok::<StoreModel, StoreError>(m5));
    let m6 = StoreModel { indexes_created: true, ..m5 };
    assert(apply_action_model(m5, acts[5]) == Ok::<StoreModel, StoreError>(m6));
    assert(apply_actions_model(m6, t0) == Ok::<StoreModel, StoreError>(m6));
    assert(apply_actions_model(m5, t1) == Ok::<StoreModel, StoreError>(m6));
    assert(apply_actions_model(m4, t2) == Ok::<StoreModel, StoreError>(m6));
    assert(apply_actions_model(m3, t3) == Ok::<StoreModel, StoreError>(m6));
    assert(apply_actions_model(m2, t4) == Ok::<StoreModel, StoreError>(m6));
    assert(apply_actions_model(m1, t5) == Ok::<StoreModel, StoreError>(m6));
    assert(apply_actions_model(m0, acts) == Ok::<StoreModel, StoreError>(m6));
    let mfinal = StoreModel { version: 1u64, ..m6 };
    assert(apply_step_model(m0, st) == Ok::<StoreModel, StoreError>(mfinal));
    let steps = default_registry_model(now);
    assert(steps.drop_first().len() == 0);
    assert(run_model(mfinal, steps.drop_first()) == (RunModel::Done {
        store: mfinal,
        applied: 0nat,
    }));
    assert(run_model(m0, steps) == (RunModel::Done { store: mfinal, applied: 1nat }));
    assert(mfinal.settings == seq![s_app, s_pref, s_ai]) by {
        assert(Seq::<SettingModel>::empty().push(s_app).push(s_pref).push(s_ai) =~= seq![
            s_app,
            s_pref,
            s_ai,
        ]);
    }
    assert(mfinal.lists == seq![inbox_seed_model(now)]) by {
        assert(Seq::<ListModel>::empty().push(l) =~= seq![inbox_seed_model(now)]);
    }
}

/// Apply one action to the store.
fn apply_action(store: &mut Store, action: &Action) -> (r: Result<(), StoreError>)
    requires
        old(store).wf(),
    ensures
        final(store).wf(),
        match apply_action_model(old(store)@, action@) {
            Ok(m) => r is Ok && final(store)@ == m,
            Err(e) => (r matches Err(e2) && e2 == e) && *final(store) == *old(store),
        },
{
    match action {
        Action::CreateTables => {
            store.tables_created = true;
            proof {
                assert(store@ =~~= old(store)@.create_tables());
            }
            Ok(())
        },
        Action::CreateIndexes => {
            if !store.tables_created {
                return Err(StoreError::NoSuchTable);
            }
            store.indexes_created = true;
            proof {
                assert(store@ =~~= old(store)@.create_indexes()->Ok_0);
            }
            Ok(())
        },
        Action::SeedList(row) => store.seed_list(row.clone()),
        Action::SeedSetting(row) => store.seed_setting(row.clone()),
        Action::InsertList(row) => store.insert_list(row.clone()),
    }
}

/// Copy the store's state.
fn clone_store(s: &Store) -> (r: Store)
    ensures
        r@ == s@,
{
    let r = Store {
        version: s.version,
        tables_created: s.tables_created,
        indexes_created: s.indexes_created,
        lists: s.lists.clone(),
        tasks: s.tasks.clone(),
        subtasks: s.subtasks.clone(),
        summaries: s.summaries.clone(),
        settings: s.settings.clone(),
    };
    proof {
        assert(r.lists@ =~= s.lists@);
        assert(r.tasks@ =~= s.tasks@);
        assert(r.subtasks@ =~= s.subtasks@);
        assert(r.summaries@ =~= s.summaries@);
        assert(r.settings@ =~= s.settings@);
        assert(r@ =~~= s@);
    }
    r
}

/// Apply one migration step as a transaction: either its whole effect takes
/// hold and the recorded version becomes the step's version, or the store is
/// left exactly as it was.
fn apply_step(store: &mut Store, step: &MigrationStep) -> (r: Result<(), StoreError>)
    requires
        old(store).wf(),
    ensures
        final(store).wf(),
        match apply_step_model(old(store)@, step@) {
            Ok(m) => r is Ok && final(store)@ == m,
            Err(e) => (r matches Err(e2) && e2 == e) && *final(store) == *old(store),
        },
{
    let ghost acts = views(step.actions@);
    let mut work = clone_store(store);
    proof {
        assert(acts.skip(0) =~= acts);
    }
    let mut i: usize = 0;
    while i < step.actions.len()
        invariant
            i <= step.actions.len(),
            old(store).wf(),
            work.wf(),
            acts == views(step.actions@),
            acts.len() == step.actions.len(),
            apply_actions_model(old(store)@, acts) == apply_actions_model(
                work@,
                acts.skip(i as int),
            ),
            *store == *old(store),
        decreases step.actions.len() - i,
    {
        let ghost pre = work@;
        let outcome = apply_action(&mut work, &step.actions[i]);
        proof {
            assert(acts.skip(i as int)[0] == acts[i as int]);
            assert(acts.skip(i as int).drop_first() =~= acts.skip(i as int + 1));
        }
        match outcome {
            Ok(()) => {},
            Err(e) => {
                return Err(e);
            },
        }
        i += 1;
    }
    proof {
        assert(acts.skip(acts.len() as int).len() == 0);
    }
    work.version = step.version;
    *store = work;
    proof {
        assert(store@ =~~= apply_step_model(old(store)@, step@)->Ok_0);
    }
    Ok(())
}

/// Open a store: fail fast on a malformed registry, then apply every pending
/// migration step in version order, each atomically. On success the returned
/// count says how many steps were applied — zero when the store was already
/// current, in which case nothing was written at all.
pub fn open(store: &mut Store, registry: &Registry) -> (r: Result<usize, OpenError>)
    requires
        old(store).wf(),
    ensures
        final(store).wf(),
        match first_config_fault(0, registry@) {
            Some(v) => (r matches Err(e) && e == (OpenError::Configuration { version: v }))
                && *final(store) == *old(store),
            None => match run_model(old(store)@, registry@) {
                RunModel::Done { store: m, applied } => (r matches Ok(n) && n == applied)
                    && final(store)@ == m,
                RunModel::Failed { store: m, version, error } => (r matches Err(e) && e == (
                OpenError::Schema { version })) && final(store)@ == m,
            },
        },
{
    let ghost all = registry@;
    let mut prev: u64 = 0;
    let mut k: usize = 0;
    proof {
        assert(all.skip(0) =~= all);
    }
    while k < registry.steps.len()
        invariant
            k <= registry.steps.len(),
            all == registry@,
            all.len() == registry.steps.len(),
            first_config_fault(0, all) == first_config_fault(prev, all.skip(k as int)),
            *store == *old(store),
            store.wf(),
        decreases registry.steps.len() - k,
    {
        let v = registry.steps[k].version;
        proof {
            assert(all.skip(k as int)[0] == all[k as int]);
            assert(all.skip(k as int).drop_first() =~= all.skip(k as int + 1));
        }
        if v <= prev {
            return Err(OpenError::Configuration { version: v });
        }
        prev = v;
        k += 1;
    }
    proof {
        assert(all.skip(all.len() as int).len() == 0);
    }
    let mut applied: usize = 0;
    let mut i: usize = 0;
    while i < registry.steps.len()
        invariant
            i <= registry.steps.len(),
            applied <= i,
            all == registry@,
            all.len() == registry.steps.len(),
            first_config_fault(0, all) is None,
            store.wf(),
            run_model(old(store)@, all) == add_applied(
                run_model(store@, all.skip(i as int)),
                applied as nat,
            ),
        decreases registry.steps.len() - i,
    {
        let step = &registry.steps[i];
        let ghost pre = store@;
        proof {
            assert(all.skip(i as int)[0] == all[i as int]);
            assert(all.skip(i as int).drop_first() =~= all.skip(i as int + 1));
        }
        if step.version > store.version {
            match apply_step(store, step) {
                Ok(()) => {
                    applied += 1;
                },
                Err(e) => {
                    proof {
                        assert(run_model(pre, all.skip(i as int)) == (RunModel::Failed {
                            store: pre,
                            version: step@.version,
                            error: e,
                        }));
                    }
                    return Err(OpenError::Schema { version: step.version });
                },
            }
        }
        i += 1;
    }
    proof {
        assert(all.skip(all.len() as int).len() == 0);
    }
    Ok(applied)
}

} // verus!

