use session_repair::diagnose::{diagnose_codex_state, CodexState, ThreadRow};
use session_repair::model::{
    BranchStatus, Family, FamilyBranch, FamilyEntry, FamilyStore, IndexEntry,
};
use session_repair::orphans::{
    prune_index_lines, prune_orphan_entries, PruneInput, PruneOptions, StoreStep, ThreadsTable,
};
use session_repair::provider_sync::{
    ActiveRollout, RolloutFacts, SyncState, ThreadRepairState,
};
use session_repair::prune::{
    apply_normalization, apply_recovery, FamilyActiveNormalization, FamilyActiveRecovery,
    FamilyProbe,
};
use session_repair::rollout::RolloutIdentity;
use session_repair::subagents::{find_orphan_subagent_ids, SpawnEdge};

fn owned(items: &[&str]) -> Vec<String> {
    items.iter().map(|item| item.to_string()).collect()
}

fn edge(parent: &str, child: &str) -> SpawnEdge {
    SpawnEdge {
        parent: parent.to_string(),
        child: child.to_string(),
    }
}

fn identity(id: &str) -> RolloutIdentity {
    RolloutIdentity {
        id: id.to_string(),
        model_provider: "openai".to_string(),
        source: Some("cli".to_string()),
    }
}

// ---------------------------------------------------------------------------
// Sub-agents
// ---------------------------------------------------------------------------

#[test]
fn subagents_without_a_living_ancestor_are_orphans() {
    let edges = vec![
        edge("orphan-parent", "orphan-child"),
        edge("orphan-child", "orphan-grandchild"),
        edge("live-parent", "live-child"),
    ];
    let rollouts = owned(&["orphan-child", "orphan-grandchild", "live-child"]);
    let threads = owned(&["orphan-child", "orphan-grandchild", "live-parent", "live-child"]);
    assert_eq!(
        find_orphan_subagent_ids(&edges, &rollouts, &threads),
        owned(&["orphan-child", "orphan-grandchild"])
    );
}

#[test]
fn a_rollout_keeps_an_ancestor_alive() {
    let edges = vec![edge("parent", "child"), edge("child", "grandchild")];
    let rollouts = owned(&["parent", "child", "grandchild"]);
    let threads = owned(&["child", "grandchild"]);
    assert!(find_orphan_subagent_ids(&edges, &rollouts, &threads).is_empty());
}

#[test]
fn cycles_have_no_living_ancestor() {
    let edges = vec![edge("a", "b"), edge("b", "a")];
    assert_eq!(
        find_orphan_subagent_ids(&edges, &vec![], &vec![]),
        owned(&["a", "b"])
    );
    assert!(find_orphan_subagent_ids(&edges, &owned(&["a", "b"]), &vec![]).is_empty());
}

// ---------------------------------------------------------------------------
// The diagnosis
// ---------------------------------------------------------------------------

#[test]
fn diagnoses_compare_rollouts_index_and_threads() {
    let state = CodexState {
        archived: vec![Some(identity("stored")), None],
        index_lines: owned(&["{\"id\":\"a\"}", "{\"id\":\"lost\"}", "broken"]),
        threads: vec![
            ThreadRow {
                id: "a".to_string(),
                archived: false,
            },
            ThreadRow {
                id: "stored".to_string(),
                archived: true,
            },
            ThreadRow {
                id: "gone".to_string(),
                archived: false,
            },
        ],
        spawned: vec![],
        sync: SyncState {
            families: vec![],
            family_index_ids: vec![],
            rollouts: vec![
                ActiveRollout {
                    path: "/sessions/a".to_string(),
                    identity: identity("a"),
                    facts: RolloutFacts {
                        is_file: true,
                        recorded_matches: Ok(true),
                        identity: Ok(Some(identity("a"))),
                    },
                },
                ActiveRollout {
                    path: "/sessions/b".to_string(),
                    identity: identity("b"),
                    facts: RolloutFacts {
                        is_file: true,
                        recorded_matches: Ok(true),
                        identity: Ok(Some(identity("b"))),
                    },
                },
            ],
            thread_states: vec![ThreadRepairState {
                id: "a".to_string(),
                rollout_path: Some("/sessions/a".to_string()),
                model_provider: Some("openai".to_string()),
                source: Some("cli".to_string()),
                archived: false,
            }],
            session_index_ids: owned(&["a", "lost"]),
        },
    };
    let report = match diagnose_codex_state(&state, "openai") {
        Ok(report) => report,
        Err(error) => panic!("{}", error.message()),
    };
    assert_eq!(report.rollout_count, 2);
    assert_eq!(report.index_count, 2);
    assert_eq!(report.threads_count, 3);
    assert_eq!(report.threads_active_count, 2);
    assert_eq!(report.threads_archived_count, 1);
    assert_eq!(report.missing_in_index, owned(&["b"]));
    assert_eq!(report.missing_in_threads, owned(&["b"]));
    assert_eq!(report.orphan_in_index, owned(&["lost"]));
    assert_eq!(report.orphan_in_threads, owned(&["gone"]));
    assert_eq!(report.orphan_subagent_count, 0);
    assert_eq!(report.current_provider.as_deref(), Some("openai"));
    assert_eq!(report.provider_mismatched_families, 1);
}

// ---------------------------------------------------------------------------
// Pruning
// ---------------------------------------------------------------------------

fn branch(id: &str, status: BranchStatus) -> FamilyBranch {
    FamilyBranch {
        id: id.to_string(),
        provider: "openai".to_string(),
        created_at: "2026-04-24T00:00:00Z".to_string(),
        status,
        rollout_relpath: format!("sessions/rollout-{id}.jsonl"),
        sha256: None,
        line_count: None,
        note: None,
        archive_origin: None,
    }
}

fn two_branches(first: &str, second: &str) -> FamilyStore {
    let mut index = vec![
        IndexEntry {
            session_id: first.to_string(),
            family_id: first.to_string(),
        },
        IndexEntry {
            session_id: second.to_string(),
            family_id: first.to_string(),
        },
    ];
    index.sort_by(|left, right| left.session_id.cmp(&right.session_id));
    FamilyStore {
        version: 1,
        families: vec![FamilyEntry {
            key: first.to_string(),
            family: Family {
                family_id: first.to_string(),
                root_id: first.to_string(),
                title: "sync family".to_string(),
                chain: vec![
                    branch(first, BranchStatus::Active),
                    branch(second, BranchStatus::Archived),
                ],
                active_id: first.to_string(),
                updated_at: "2026-04-24T00:00:00Z".to_string(),
            },
        }],
        index,
    }
}

fn input(store: FamilyStore, active: &[&str], archived: &[&str]) -> PruneInput {
    let probes = store
        .families
        .iter()
        .map(|entry| FamilyProbe {
            resolved_family_id: Some(entry.key.clone()),
            rollout_files: entry.family.chain.iter().map(|_| Some(false)).collect(),
        })
        .collect();
    PruneInput {
        active: active.iter().map(|id| Some(identity(id))).collect(),
        archived: archived.iter().map(|id| Some(identity(id))).collect(),
        table: None,
        store,
        probes,
        index_lines: None,
        defer_cleanup: false,
        deletion_needs_restart: false,
    }
}

fn families_only(dry_run: bool) -> PruneOptions {
    PruneOptions {
        prune_index: false,
        prune_threads: false,
        prune_family: true,
        prune_subagents: false,
        dry_run,
    }
}

#[test]
fn families_without_any_rollout_are_removed() {
    let outcome = prune_orphan_entries(families_only(false), &input(two_branches("a", "b"), &[], &[]));
    assert_eq!(outcome.report.families_removed, 1);
    assert_eq!(outcome.report.family_branches_removed, 0);
    assert!(outcome.report.families_skipped.is_empty());
    let steps = match outcome.writes.store_steps {
        Some(steps) => steps,
        None => panic!("no steps"),
    };
    assert_eq!(steps.len(), 1);
    assert!(matches!(&steps[0], StoreStep::RemoveFamily(id) if id == "a"));
}

#[test]
fn missing_branches_that_are_not_active_are_removed() {
    let preview = prune_orphan_entries(
        families_only(true),
        &input(two_branches("active-branch", "missing-history"), &["active-branch"], &[]),
    );
    assert_eq!(preview.report.family_branches_removed, 1);
    assert!(preview.writes.store_steps.is_none());
    let outcome = prune_orphan_entries(
        families_only(false),
        &input(two_branches("active-branch", "missing-history"), &["active-branch"], &[]),
    );
    assert_eq!(outcome.report.family_branches_removed, 1);
    assert_eq!(outcome.report.families_removed, 0);
    let steps = match outcome.writes.store_steps {
        Some(steps) => steps,
        None => panic!("no steps"),
    };
    assert!(matches!(&steps[0], StoreStep::RemoveBranch(removal) if removal.branch_id == "missing-history"));
}

#[test]
fn families_with_a_broken_index_are_skipped() {
    let mut store = two_branches("active-branch", "missing-history");
    store.index.retain(|entry| entry.session_id == "active-branch");
    let mut input = input(store, &["active-branch"], &[]);
    input.probes[0].resolved_family_id = None;
    let outcome = prune_orphan_entries(families_only(false), &input);
    assert_eq!(outcome.report.family_branches_removed, 0);
    assert_eq!(outcome.report.families_removed, 0);
    assert_eq!(outcome.report.families_skipped, owned(&["active-branch"]));
}

#[test]
fn archived_rollouts_keep_their_branches() {
    let outcome = prune_orphan_entries(
        families_only(false),
        &input(two_branches("active-branch", "history"), &["active-branch"], &["history"]),
    );
    assert_eq!(outcome.report.family_branches_removed, 0);
    assert_eq!(outcome.report.families_removed, 0);
    assert!(outcome.report.families_skipped.is_empty());
}

#[test]
fn two_active_marks_are_set_right() {
    let mut store = two_branches("active-branch", "history-branch");
    store.families[0].family.chain[1].status = BranchStatus::Active;
    let mut input = input(store, &["active-branch"], &["history-branch"]);
    input.probes[0].resolved_family_id = None;
    let outcome = prune_orphan_entries(families_only(false), &input);
    assert_eq!(outcome.report.families_normalized, 1);
    assert!(outcome.report.families_skipped.is_empty());

    let mut changed = two_branches("active-branch", "history-branch");
    changed.families[0].family.chain[1].status = BranchStatus::Active;
    let normalization = FamilyActiveNormalization {
        family_id: "active-branch".to_string(),
        active_id: "active-branch".to_string(),
    };
    assert!(apply_normalization(&mut changed, &normalization, "now").is_ok());
    let family = &changed.families[0].family;
    assert!(family.chain[0].status == BranchStatus::Active);
    assert!(family.chain[1].status == BranchStatus::Archived);
    let missing = FamilyActiveNormalization {
        family_id: "none".to_string(),
        active_id: "x".to_string(),
    };
    match apply_normalization(&mut changed, &missing, "now") {
        Ok(()) => panic!("applied"),
        Err(error) => assert_eq!(
            error.message(),
            "family not found during normalization: none"
        ),
    }
}

#[test]
fn families_whose_active_rollout_is_missing_are_skipped() {
    let outcome = prune_orphan_entries(
        families_only(false),
        &input(
            two_branches("missing-active", "surviving-history"),
            &[],
            &["surviving-history"],
        ),
    );
    assert_eq!(outcome.report.family_branches_removed, 0);
    assert_eq!(outcome.report.families_removed, 0);
    assert_eq!(outcome.report.families_skipped, owned(&["missing-active"]));
}

#[test]
fn the_only_active_branch_with_a_rollout_is_recovered() {
    let stale = || {
        let mut store = two_branches("surviving-active", "missing-new-active");
        let family = &mut store.families[0].family;
        family.active_id = "missing-new-active".to_string();
        family.chain[1].status = BranchStatus::Active;
        store
    };
    let outcome = prune_orphan_entries(
        families_only(false),
        &input(stale(), &["surviving-active"], &[]),
    );
    assert_eq!(outcome.report.families_recovered, 1);
    assert_eq!(outcome.report.family_branches_removed, 1);
    assert!(outcome.report.families_skipped.is_empty());

    let mut changed = stale();
    let recovery = FamilyActiveRecovery {
        family_id: "surviving-active".to_string(),
        active_id: "surviving-active".to_string(),
        missing_branch_ids: owned(&["missing-new-active"]),
    };
    assert!(apply_recovery(&mut changed, &recovery, "now").is_ok());
    let family = &changed.families[0].family;
    assert_eq!(family.active_id, "surviving-active");
    assert_eq!(family.chain.len(), 1);
    assert!(family.chain[0].status == BranchStatus::Active);
    assert!(!changed
        .index
        .iter()
        .any(|entry| entry.session_id == "missing-new-active"));
}

fn everything(dry_run: bool) -> PruneOptions {
    PruneOptions {
        prune_index: true,
        prune_threads: true,
        prune_family: false,
        prune_subagents: true,
        dry_run,
    }
}

#[test]
fn index_threads_and_subagents_are_pruned() {
    let with_table = |dry_run: bool, defer_cleanup: bool| {
        let mut input = input(two_branches("a", "b"), &["a", "child"], &["b"]);
        input.table = Some(ThreadsTable {
            ids: owned(&["a", "b", "gone", "child"]),
            spawned: vec![edge("lost-parent", "child")],
        });
        input.index_lines = Some(owned(&["{\"id\":\"a\"}", "{\"id\":\"gone\"}", "broken"]));
        input.defer_cleanup = defer_cleanup;
        prune_orphan_entries(everything(dry_run), &input)
    };
    let outcome = with_table(false, false);
    assert_eq!(outcome.report.index_removed, 1);
    assert_eq!(outcome.report.threads_removed, 1);
    assert_eq!(outcome.report.subagents_removed, 1);
    assert!(!outcome.report.desktop_restart_required);
    assert_eq!(outcome.writes.thread_ids, owned(&["gone"]));
    assert_eq!(
        outcome.writes.index_lines,
        Some(owned(&["{\"id\":\"a\"}", "broken"]))
    );
    let dry = with_table(true, false);
    assert_eq!(dry.report.threads_removed, 1);
    assert!(dry.writes.thread_ids.is_empty());
    assert!(dry.writes.index_lines.is_none());
    let deferred = with_table(false, true);
    assert!(deferred.report.desktop_restart_required);
    assert!(deferred.writes.project_state_ids.is_empty());
}

#[test]
fn index_lines_of_missing_rollouts_go() {
    let lines = owned(&["{\"id\":\"a\"}", "{\"id\":\"b\"}", "", "x", "{\"name\":\"b\"}"]);
    let prune = prune_index_lines(&lines, &owned(&["a"]));
    assert_eq!(prune.removed, 1);
    assert_eq!(
        prune.kept,
        owned(&["{\"id\":\"a\"}", "x", "{\"name\":\"b\"}"])
    );
}
