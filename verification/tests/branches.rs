use std::collections::{BTreeMap, BTreeSet};

use session_repair::branch_change::{insert_index, replace_active, set_active_provider};
use session_repair::branch_sync::{compare_rollout_lines, describe_rollout_divergence};
use session_repair::branches::{
    append_branch_extras, delete_family_branch_with_lock, get_family,
    get_family_branch_sync_states_with_lock, mark_synced, resolve_branch_rollout,
    steps_after_sync, sync_active_into_branch_with_lock, sync_branch_into_active_with_lock,
    BranchPlace, SyncFacts,
};
use session_repair::error::AppError;
use session_repair::model::{
    ArchiveOrigin, BranchStatus, Family, FamilyBranch, FamilyEntry, FamilyStore, IndexEntry,
};
use session_repair::rollback::{
    rollback_family_active_with_lock, rollback_steps, CurrentFacts, RestoreFacts, RollbackFacts,
};
use session_repair::rollout::{read_rollout_brief, RolloutBrief, RolloutLine};
use session_repair::steps::{Assignment, Step};
use session_repair::switch_steps::{
    copy_first_steps, copy_later_steps, ArchiveMove, NewSession,
};

fn done<T>(outcome: Result<T, AppError>) -> T {
    match outcome {
        Ok(value) => value,
        Err(error) => panic!("{}", error.message()),
    }
}

fn refusal<T>(outcome: Result<T, AppError>) -> String {
    match outcome {
        Ok(_) => panic!("not refused"),
        Err(error) => error.message().clone(),
    }
}

fn value(line: &str) -> serde_json::Value {
    match serde_json::from_str(line) {
        Ok(value) => value,
        Err(error) => panic!("{line}: {error}"),
    }
}

fn owned(items: &[&str]) -> Vec<String> {
    items.iter().map(|item| item.to_string()).collect()
}

fn branch(id: &str, provider: &str, status: BranchStatus) -> FamilyBranch {
    FamilyBranch {
        id: id.to_string(),
        provider: provider.to_string(),
        created_at: "2026-04-24T00:00:00Z".to_string(),
        status,
        rollout_relpath: format!("sessions/rollout-{id}.jsonl"),
        sha256: Some("old".to_string()),
        line_count: Some(1),
        note: None,
        archive_origin: None,
    }
}

fn store() -> FamilyStore {
    FamilyStore {
        version: 1,
        families: vec![FamilyEntry {
            key: "f".to_string(),
            family: Family {
                family_id: "f".to_string(),
                root_id: "active".to_string(),
                title: "".to_string(),
                chain: vec![
                    branch("active", "openai", BranchStatus::Active),
                    branch("old", "custom", BranchStatus::Archived),
                ],
                active_id: "active".to_string(),
                updated_at: "before".to_string(),
            },
        }],
        index: vec![
            IndexEntry {
                session_id: "active".to_string(),
                family_id: "f".to_string(),
            },
            IndexEntry {
                session_id: "old".to_string(),
                family_id: "f".to_string(),
            },
        ],
    }
}

const MODEL_SWITCH: &str = "{\"type\":\"event_msg\",\"payload\":{\"type\":\"thread_settings_applied\",\"thread_settings\":{\"model\":\"gpt-next\"}}}";

#[test]
fn model_switch_on_one_side_is_ahead_not_diverged() {
    let active = owned(&["active-meta", "shared-message", MODEL_SWITCH, "new-turn"]);
    let history = owned(&["history-meta", "shared-message"]);

    assert_eq!(
        compare_rollout_lines(&active, &history),
        ("active_ahead".to_string(), 0, 2)
    );
}

#[test]
fn different_turns_after_model_switch_remain_diverged() {
    let active = owned(&[
        "active-meta",
        "shared-message",
        MODEL_SWITCH,
        "active-user-turn",
    ]);
    let history = owned(&["history-meta", "shared-message", "history-user-turn"]);

    assert_eq!(
        compare_rollout_lines(&active, &history),
        ("diverged".to_string(), 0, 0)
    );
    assert!(describe_rollout_divergence(&active, &history).contains("共同前缀 1 行"));
}

#[test]
fn equal_conversations_are_the_same() {
    let one = owned(&["meta-a", "x"]);
    let two = owned(&[
        "meta-b",
        "{\"type\":\"event_msg\",\"payload\":{\"type\":\"session_cloned\"}}",
        "x",
    ]);
    assert_eq!(compare_rollout_lines(&one, &two), ("same".to_string(), 0, 0));
    let longer = owned(&["meta", "x", "y"]);
    assert_eq!(
        compare_rollout_lines(&one, &longer),
        ("branch_ahead".to_string(), 1, 0)
    );
}

fn sync_meta(id: &str, provider: &str) -> String {
    format!("{{\"timestamp\":\"2026-04-24T00:00:00Z\",\"type\":\"session_meta\",\"payload\":{{\"id\":\"{id}\",\"model_provider\":\"{provider}\",\"cwd\":\"F:\\\\project\\\\example\",\"source\":\"cli\"}}}}")
}

fn facts(source: Vec<String>, target: Vec<String>) -> SyncFacts {
    SyncFacts {
        desktop: Ok(()),
        source_place: Ok(()),
        target_place: Ok(()),
        source_lines: Ok(source),
        target_lines: Ok(target),
        state_db: Ok(()),
    }
}

const HELLO: &str = "{\"timestamp\":\"2026-04-24T00:00:01Z\",\"type\":\"event_msg\",\"payload\":{\"type\":\"user_message\",\"message\":\"hello\"}}";
const TOKENS: &str = "{\"timestamp\":\"2026-04-24T00:00:02Z\",\"type\":\"event_msg\",\"payload\":{\"type\":\"token_count\",\"info\":{\"total_token_usage\":{\"total_tokens\":77}}}}";

fn ahead(source_id: &str) -> Vec<String> {
    vec![
        sync_meta(source_id, "custom"),
        "{\"type\":\"event_msg\",\"payload\":{\"type\":\"session_cloned\"}}".to_string(),
        HELLO.to_string(),
        sync_meta(source_id, "custom"),
        TOKENS.to_string(),
    ]
}

#[test]
fn syncing_writes_what_the_target_lacks() {
    let target = vec![sync_meta("active", "openai"), HELLO.to_string()];
    let (plan, report) = done(sync_branch_into_active_with_lock(
        &store(),
        "f",
        "old",
        &facts(ahead("old"), target.clone()),
    ));
    assert_eq!(report.active_id, "active");
    assert_eq!(report.source_id, "old");
    assert_eq!(report.appended_lines, 2);
    assert_eq!(report.total_lines, 4);
    assert_eq!(plan.lines.len(), 4);
    assert_eq!(plan.lines[..2], target[..]);
    let meta = value(&plan.lines[2]);
    assert_eq!(meta["payload"]["id"], "active");
    assert_eq!(meta["payload"]["model_provider"], "openai");
    assert_eq!(plan.lines[3], TOKENS);
    assert_eq!(
        compare_rollout_lines(&plan.lines, &target),
        ("active_ahead".to_string(), 0, 2)
    );
}

#[test]
fn syncing_the_active_branch_into_another() {
    let target = vec![sync_meta("old", "custom"), HELLO.to_string()];
    let (plan, report) = done(sync_active_into_branch_with_lock(
        &store(),
        "f",
        "old",
        &facts(ahead("active"), target),
    ));
    assert_eq!(report.source_id, "active");
    assert_eq!(report.target_id, "old");
    assert_eq!(report.appended_lines, 2);
    assert_eq!(value(&plan.lines[2])["payload"]["model_provider"], "custom");
}

#[test]
fn syncs_are_refused_with_a_reason() {
    let good = || facts(ahead("old"), vec![sync_meta("active", "openai")]);
    assert_eq!(
        refusal(sync_branch_into_active_with_lock(&store(), "g", "old", &good())),
        "family: g"
    );
    assert_eq!(
        refusal(sync_branch_into_active_with_lock(&store(), "f", "active", &good())),
        "源分支即为当前 active，无需同步"
    );
    assert_eq!(
        refusal(sync_active_into_branch_with_lock(&store(), "f", "active", &good())),
        "目标分支即为当前 active，无需同步"
    );
    assert_eq!(
        refusal(sync_branch_into_active_with_lock(&store(), "f", "none", &good())),
        "branch: none"
    );
    assert_eq!(
        refusal(append_branch_extras(&store(), "f", "old", "old", &good())),
        "源分支和目标分支相同，无需同步"
    );
    let mut lost = good();
    lost.target_place = Err(AppError::NotFound("lost".to_string()));
    assert_eq!(
        refusal(append_branch_extras(&store(), "f", "old", "active", &lost)),
        "lost"
    );
    let behind = facts(
        vec![sync_meta("old", "custom"), "other".to_string()],
        vec![sync_meta("active", "openai"), HELLO.to_string()],
    );
    refusal(append_branch_extras(&store(), "f", "old", "active", &behind));
}

#[test]
fn synced_branches_are_noted_in_the_store() {
    let mut changed = store();
    mark_synced(&mut changed, "f", "old", "active", ("sum", 4), "now");
    let family = &changed.families[0].family;
    assert_eq!(family.chain[1].sha256.as_deref(), Some("sum"));
    assert_eq!(family.chain[1].line_count, Some(4));
    assert_eq!(family.chain[1].note.as_deref(), Some("synced_from:active"));
    assert_eq!(family.updated_at, "now");
    assert_eq!(family.chain[0].sha256.as_deref(), Some("old"));
    let mut active = store();
    mark_synced(&mut active, "f", "active", "old", ("sum", 4), "now");
    assert_eq!(active.families[0].family.chain[0].sha256, None);
    assert_eq!(active.families[0].family.chain[0].line_count, None);
}

#[test]
fn archived_targets_get_no_index_entry() {
    let assignment = Some(Assignment {
        thread_id: "old".to_string(),
        cwd: "/p".to_string(),
    });
    let archived = done(steps_after_sync(true, true, "old", "/t", None, &assignment));
    assert!(archived.is_empty());
    let listed = done(steps_after_sync(
        true,
        false,
        "old",
        "/t",
        Some("hello".to_string()),
        &assignment,
    ));
    assert_eq!(listed.len(), 2);
    assert!(matches!(&listed[0], Step::AppendIndexLine { id, thread_name } if id == "old" && thread_name == "hello"));
    assert!(matches!(&listed[1], Step::AssignProject { missing_only: true, .. }));
    assert_eq!(
        refusal(steps_after_sync(false, true, "old", "/t", None, &None)),
        "同步后的 rollout 缺少有效 session_meta.id: /t"
    );
}

#[test]
fn branch_states_tell_what_can_be_appended() {
    let readings = vec![
        Ok(owned(&["m", "x", "y"])),
        Ok(owned(&["m", "x"])),
    ];
    let states = done(get_family_branch_sync_states_with_lock(&store(), "f", &readings));
    assert_eq!(states.len(), 2);
    assert_eq!(states[0].relation, "current");
    assert_eq!(states[0].branch_lines, Some(3));
    assert_eq!(states[1].relation, "active_ahead");
    assert_eq!(states[1].appendable_lines_to_branch, 1);
    assert_eq!(states[1].error, None);
    let lost = vec![
        Ok(owned(&["m", "x", "y"])),
        Err(AppError::NotFound("lost".to_string())),
    ];
    let states = done(get_family_branch_sync_states_with_lock(&store(), "f", &lost));
    assert_eq!(states[1].relation, "missing");
    assert_eq!(states[1].branch_lines, None);
    assert_eq!(states[1].error.as_deref(), Some("lost"));
    let empty = vec![Ok(owned(&[])), Ok(owned(&[]))];
    assert_eq!(
        refusal(get_family_branch_sync_states_with_lock(&store(), "f", &empty)),
        "当前 active 分支为空 rollout"
    );
}

#[test]
fn branch_rollouts_are_looked_for_in_two_places() {
    assert!(matches!(resolve_branch_rollout(Ok(()), true, true, "r"), Ok(BranchPlace::Main)));
    assert!(matches!(resolve_branch_rollout(Ok(()), false, true, "r"), Ok(BranchPlace::Archived)));
    assert_eq!(
        refusal(resolve_branch_rollout(Ok(()), false, false, "r")),
        "分支 rollout 丢失: r"
    );
}

#[test]
fn active_branches_are_not_deleted() {
    done(delete_family_branch_with_lock(&store(), "f", "old"));
    assert_eq!(
        refusal(delete_family_branch_with_lock(&store(), "f", "active")),
        "不能删除当前 active 分支，请先切换到其他分支"
    );
    assert_eq!(
        refusal(delete_family_branch_with_lock(&store(), "f", "none")),
        "branch not in family f: none"
    );
    assert_eq!(
        refusal(delete_family_branch_with_lock(&store(), "g", "none")),
        "family: g"
    );
}

#[test]
fn switching_leaves_one_active_branch() {
    let mut changed = store();
    replace_active(
        &mut changed,
        "f",
        branch("b-new", "third", BranchStatus::Active),
        "now",
    );
    let family = match get_family(&changed, "f") {
        Some(family) => family,
        None => panic!("no family"),
    };
    assert_eq!(family.active_id, "b-new");
    assert_eq!(family.updated_at, "now");
    assert_eq!(family.chain.len(), 3);
    assert!(family.chain[0].status == BranchStatus::Archived);
    assert_eq!(
        family.chain[0].archive_origin,
        Some(ArchiveOrigin::ProviderSync)
    );
    assert_eq!(family.chain[1].archive_origin, None);
    assert!(family.chain[2].status == BranchStatus::Active);
    let ids: Vec<&str> = changed
        .index
        .iter()
        .map(|entry| entry.session_id.as_str())
        .collect();
    assert_eq!(ids, vec!["active", "b-new", "old"]);
}

#[test]
fn following_changes_the_provider_of_the_active_branch() {
    let mut changed = store();
    set_active_provider(&mut changed, "f", "third", "now");
    assert_eq!(changed.families[0].family.chain[0].provider, "third");
    assert_eq!(changed.families[0].family.chain[1].provider, "custom");
    assert_eq!(changed.families[0].family.updated_at, "now");
}

#[test]
fn index_entries_are_replaced_in_place() {
    let mut index = store().index;
    insert_index(&mut index, "old", "g");
    assert_eq!(index.len(), 2);
    assert_eq!(index[1].family_id, "g");
    assert_eq!(index[0].family_id, "f");
}

fn brief_of(id: &str) -> Option<RolloutBrief> {
    read_rollout_brief(
        &vec![
            RolloutLine {
                text: sync_meta(id, "custom"),
                token_total: None,
            },
            RolloutLine {
                text: HELLO.to_string(),
                token_total: None,
            },
        ],
        "/t",
        "t",
        None,
    )
}

fn rollback_facts() -> RollbackFacts {
    RollbackFacts {
        desktop: Ok(()),
        state_db: Ok(()),
        current: CurrentFacts {
            place: Ok("/sessions/active".to_string()),
            is_file: true,
            thread_row: Ok(()),
            destination: "/archived/active".to_string(),
            occupied: false,
        },
        target: RestoreFacts {
            place: Ok("/sessions/old".to_string()),
            is_file: false,
            exists: false,
            archived_path: "/archived/old".to_string(),
            archived_exists: true,
            archived_is_file: true,
            brief: Ok(brief_of("old")),
        },
        current_lines: Ok(owned(&["m", "x"])),
        target_lines: Ok(owned(&["m", "x"])),
    }
}

#[test]
fn rollbacks_swap_two_rollouts() {
    let plan = done(rollback_family_active_with_lock(
        &store(),
        "f",
        "old",
        &rollback_facts(),
    ));
    assert_eq!(plan.current.from, "/sessions/active");
    assert_eq!(plan.current.to, "/archived/active");
    assert_eq!(plan.restore_from.as_deref(), Some("/archived/old"));
    assert_eq!(plan.thread_name, "hello");
    let steps = rollback_steps(&plan, "f", "old", &None);
    assert_eq!(steps.len(), 16);
    assert!(matches!(&steps[3], Step::MoveFile { from, to } if from == "/sessions/active" && to == "/archived/active"));
    assert!(matches!(&steps[7], Step::RecordLedger { family_id, id, origin, path }
        if family_id == "f"
            && id == "active"
            && *origin == ArchiveOrigin::Manual
            && path == "/archived/active"));
    assert!(matches!(&steps[9], Step::MoveFile { from, to } if from == "/archived/old" && to == "/sessions/old"));
    assert!(matches!(&steps[13], Step::SetActive { branch_id, .. } if branch_id == "old"));
    assert!(matches!(&steps[14], Step::SaveStore));
    assert!(matches!(&steps[15], Step::RemoveLedger { id } if id == "old"));
    for (at, step) in steps.iter().enumerate() {
        if let Step::MoveFile { from, to } = step {
            assert!(matches!(&steps[at - 1], Step::RequireUnchanged { path, .. } if path == from));
            assert!(matches!(&steps[at + 1], Step::RequireUnchanged { path, .. } if path == to));
        }
    }
}

#[test]
fn rollbacks_are_refused_with_a_reason() {
    let ask = |facts: &RollbackFacts| {
        refusal(rollback_family_active_with_lock(&store(), "f", "old", facts))
    };
    assert_eq!(
        refusal(rollback_family_active_with_lock(&store(), "f", "active", &rollback_facts())),
        "目标分支已经是当前 active"
    );
    assert_eq!(
        refusal(rollback_family_active_with_lock(&store(), "f", "none", &rollback_facts())),
        "branch not in family f: none"
    );
    let mut facts = rollback_facts();
    facts.target.archived_is_file = false;
    facts.target.archived_exists = false;
    assert_eq!(ask(&facts), "目标分支 rollout 丢失: /sessions/old");
    let mut facts = rollback_facts();
    facts.target.is_file = true;
    assert_eq!(
        ask(&facts),
        "目标分支同时存在 active 与 archived 副本，取消切换: /sessions/old / /archived/old"
    );
    let mut facts = rollback_facts();
    facts.target.exists = true;
    assert_eq!(
        ask(&facts),
        "目标分支恢复路径已被非文件条目占用: /sessions/old"
    );
    let mut facts = rollback_facts();
    facts.current.is_file = false;
    assert_eq!(
        ask(&facts),
        "当前 active rollout 不存在，不能归档: /sessions/active"
    );
    let mut facts = rollback_facts();
    facts.current.occupied = true;
    assert_eq!(
        ask(&facts),
        "当前 active 的归档目标已存在，取消切换: /archived/active"
    );
    let mut facts = rollback_facts();
    facts.target.brief = Ok(brief_of("other"));
    assert_eq!(
        ask(&facts),
        "目标分支 rollout id 不匹配：期望 old，实际 other"
    );
    let mut facts = rollback_facts();
    facts.target.brief = Ok(None);
    assert_eq!(
        ask(&facts),
        "目标分支 rollout 缺少有效 session_meta.id: /archived/old"
    );
    let mut facts = rollback_facts();
    facts.current_lines = Ok(owned(&["m", "x", "y", "z"]));
    assert_eq!(
        ask(&facts),
        "目标分支落后当前 active 2 行；请先把当前分支增量同步到目标分支，再设为当前"
    );
}

/// The sessions of a directory, as far as steps change them.
#[derive(Default)]
struct Sessions {
    rollouts: BTreeMap<String, String>,
    archived: BTreeMap<String, bool>,
    listed: BTreeSet<String>,
    ledger: BTreeMap<String, ArchiveOrigin>,
    active: String,
}

impl Sessions {
    fn take(&mut self, steps: Vec<Step>, written: &str) {
        for step in steps {
            match step {
                Step::WriteRollout { path } => {
                    self.rollouts.insert(path, written.to_string());
                }
                Step::SyncThread { path } => {
                    self.archived.insert(self.rollouts[&path].clone(), false);
                }
                Step::MoveFile { from, to } => {
                    let content = match self.rollouts.remove(&from) {
                        Some(content) => content,
                        None => panic!("no rollout at {from}"),
                    };
                    self.rollouts.insert(to, content);
                }
                Step::MarkArchived { id, .. } => {
                    self.archived.insert(id, true);
                }
                Step::RemoveIndexLine { id } => {
                    self.listed.remove(&id);
                }
                Step::AppendIndexLine { id, .. } => {
                    self.listed.insert(id);
                }
                Step::RecordLedger { id, origin, .. } => {
                    self.ledger.insert(id, origin);
                }
                Step::RemoveLedger { id } => {
                    self.ledger.remove(&id);
                }
                Step::AppendBranch { branch, .. } => self.active = branch.id,
                Step::SetActive { branch_id, .. } => self.active = branch_id,
                _ => {}
            }
        }
    }
}

#[test]
fn rollbacks_undo_switches() {
    let mut sessions = Sessions::default();
    let at_home = "/sessions/old".to_string();
    sessions.rollouts.insert(at_home.clone(), "old".to_string());
    sessions.listed.insert("old".to_string());
    sessions.active = "old".to_string();
    let archive = Some(ArchiveMove {
        branch_id: "old".to_string(),
        from: at_home.clone(),
        to: "/archived/old".to_string(),
    });
    let session = NewSession {
        id: "active".to_string(),
        path: "/sessions/active".to_string(),
        relpath: "sessions/active".to_string(),
        provider: "openai".to_string(),
        made_of: "old".to_string(),
        created_at: "now".to_string(),
    };
    sessions.take(copy_first_steps(&at_home, &session.path), "active");
    let brief = brief_of("active");
    let rest = copy_later_steps(&session, "f", &archive, &brief, "/p", "hello", true);
    sessions.take(done(rest), "active");
    assert_eq!(sessions.active, "active");
    assert_eq!(sessions.rollouts["/archived/old"], "old");
    assert!(!sessions.rollouts.contains_key(&at_home));
    assert!(sessions.archived["old"] && !sessions.archived["active"]);
    assert!(!sessions.listed.contains("old") && sessions.listed.contains("active"));
    assert_eq!(sessions.ledger["old"], ArchiveOrigin::ProviderSync);

    let plan = done(rollback_family_active_with_lock(
        &store(),
        "f",
        "old",
        &rollback_facts(),
    ));
    sessions.take(rollback_steps(&plan, "f", "old", &None), "");
    assert_eq!(sessions.active, "old");
    assert_eq!(sessions.rollouts[&at_home], "old");
    assert_eq!(sessions.rollouts["/archived/active"], "active");
    assert_eq!(sessions.rollouts.len(), 2);
    assert!(!sessions.archived["old"] && sessions.archived["active"]);
    assert!(sessions.listed.contains("old") && !sessions.listed.contains("active"));
    assert!(!sessions.ledger.contains_key("old"));
    assert_eq!(sessions.ledger["active"], ArchiveOrigin::Manual);
}

#[test]
fn changes_keep_the_store_in_order() {
    let mut changed = store();
    mark_synced(&mut changed, "f", "old", "active", ("sum", 2), "now");
    set_active_provider(&mut changed, "f", "third", "now");
    let ids: Vec<&str> = changed
        .index
        .iter()
        .map(|entry| entry.session_id.as_str())
        .collect();
    assert_eq!(ids, vec!["active", "old"]);
    assert_eq!(changed.families.len(), 1);
    assert_eq!(changed.families[0].key, "f");
}
