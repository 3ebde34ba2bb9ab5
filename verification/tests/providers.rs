use session_repair::batch::{
    batch_clone_for_current_provider_with_lock, batch_clone_for_current_provider_with_progress,
    get_provider_sync_plan_with_lock, BatchAction, Progress,
};
use session_repair::error::AppError;
use session_repair::json::Json;
use session_repair::model::BranchStatus;
use session_repair::official_fork::{
    check_entry, check_fork, check_fork_id, compensate_official_provider_fork, entry_steps,
    history_base_length, naming_steps, paginated_history_base_len, require_usable_fork, source_thread_name, ForkFacts,
};
use session_repair::provider::{effective_current_provider, get_provider_info, ConfigFile};
use session_repair::provider_sync::{
    list_mismatched_sessions, ActiveRollout, RolloutFacts, SyncBranch, SyncFamily, SyncState,
    ThreadRepairState,
};
use session_repair::rollout::{read_rollout_brief, RolloutBrief, RolloutIdentity, RolloutLine};
use session_repair::steps::{Assignment, Step};
use session_repair::switch::{
    clone_session_for_provider_with_lock, done_report, existing_report, resolve_target_provider,
    CloneReport, SwitchDecision, SwitchFacts, SwitchRequest, SwitchStrategy,
};
use session_repair::switch_report::{report_switch, SwitchWork};
use session_repair::switch_steps::{
    check_copy, copy_first_steps, copy_later_steps, existing_steps, follow_steps,
    report_visibility, visibility_steps, ArchiveFacts, CopyFacts, CopyOutcome, NewSession,
};

fn done<T>(outcome: Result<T, AppError>) -> T {
    match outcome {
        Ok(value) => value,
        Err(error) => panic!("{}", error.message()),
    }
}

fn refusal<T>(outcome: Result<T, AppError>) -> String {
    match outcome {
        Ok(_) => panic!("not refused"),
        Err(error) => error.message().clone(),
    }
}

// ---------------------------------------------------------------------------
// The configured provider
// ---------------------------------------------------------------------------

#[test]
fn providers_default_only_for_missing_or_valid_omission() {
    let path = "/codex/config.toml";
    assert_eq!(
        done(effective_current_provider(&ConfigFile::Missing, path)),
        "openai"
    );
    for (text, expected) in [
        ("", "openai"),
        ("[model_providers.custom]\nname = \"Custom\"\n", "openai"),
        ("model_provider = \"  custom  \"\n", "custom"),
    ] {
        let file = ConfigFile::Text(text.to_string());
        assert_eq!(done(effective_current_provider(&file, path)), expected);
    }
    for invalid in [
        "model_provider = \"   \"\n",
        "model_provider = 42\n",
        "model_provider = [\n",
    ] {
        let file = ConfigFile::Text(invalid.to_string());
        assert!(effective_current_provider(&file, path).is_err(), "{invalid}");
        assert!(get_provider_info(&file, path).is_err(), "{invalid}");
        let mut facts = facts("any-session", "any-session");
        facts.configured = effective_current_provider(&file, path);
        assert!(clone_session_for_provider_with_lock(
            &request("any-session", SwitchStrategy::Scatter, true),
            &facts
        )
        .is_err());
    }
    assert!(effective_current_provider(&ConfigFile::NotFile, path).is_err());
    assert!(
        effective_current_provider(&ConfigFile::ReadFailed("denied".to_string()), path).is_err()
    );
    assert!(
        effective_current_provider(&ConfigFile::MetadataFailed("denied".to_string()), path)
            .is_err()
    );
}

#[test]
fn provider_information_tells_what_is_explicit() {
    let file = ConfigFile::Text("model_provider = \"custom\"\n".to_string());
    let info = done(get_provider_info(&file, "/c"));
    assert_eq!(info.current.as_deref(), Some("custom"));
    assert!(info.is_explicit);
    assert!(info.exists);
    assert_eq!(info.config_path, "/c");
    let info = done(get_provider_info(&ConfigFile::Missing, "/c"));
    assert!(!info.is_explicit);
    assert!(!info.exists);
}

// ---------------------------------------------------------------------------
// Sessions that need another provider
// ---------------------------------------------------------------------------

fn identity(id: &str, provider: &str) -> RolloutIdentity {
    RolloutIdentity {
        id: id.to_string(),
        model_provider: provider.to_string(),
        source: Some("cli".to_string()),
    }
}

fn usable(id: &str, provider: &str) -> RolloutFacts {
    RolloutFacts {
        is_file: true,
        recorded_matches: Ok(true),
        identity: Ok(Some(identity(id, provider))),
    }
}

fn thread(id: &str, provider: &str, source: &str, archived: bool) -> ThreadRepairState {
    ThreadRepairState {
        id: id.to_string(),
        rollout_path: Some(format!("/sessions/{id}")),
        model_provider: Some(provider.to_string()),
        source: Some(source.to_string()),
        archived,
    }
}

fn sync_branch(id: &str, provider: &str, status: BranchStatus) -> SyncBranch {
    SyncBranch {
        id: id.to_string(),
        provider: provider.to_string(),
        status,
        in_sessions: Ok(true),
        facts: usable(id, provider),
    }
}

fn rollout(id: &str, provider: &str) -> ActiveRollout {
    ActiveRollout {
        path: format!("/sessions/{id}"),
        identity: identity(id, provider),
        facts: usable(id, provider),
    }
}

fn family_of_one(id: &str, provider: &str) -> SyncFamily {
    SyncFamily {
        active_id: id.to_string(),
        branches: vec![sync_branch(id, provider, BranchStatus::Active)],
    }
}

fn ids_of(state: &SyncState, provider: &str) -> Vec<String> {
    done(list_mismatched_sessions(state, provider))
        .into_iter()
        .map(|target| target.session_id)
        .collect()
}

fn texts(items: &[&str]) -> Vec<String> {
    items.iter().map(|item| item.to_string()).collect()
}

#[test]
fn scans_find_family_heads_and_loose_rollouts() {
    let state = SyncState {
        families: vec![
            family_of_one("head", "custom"),
            family_of_one("gone", "custom"),
            family_of_one("fine", "openai"),
        ],
        family_index_ids: texts(&["fine", "gone", "head"]),
        rollouts: vec![
            rollout("head", "custom"),
            rollout("fine", "openai"),
            rollout("loose", "custom"),
            rollout("settled", "openai"),
        ],
        thread_states: vec![
            thread("head", "custom", "cli", false),
            thread("fine", "openai", "cli", false),
            thread("loose", "custom", "cli", false),
            thread("settled", "openai", "cli", false),
        ],
        session_index_ids: texts(&["head", "fine", "loose", "settled"]),
    };
    assert_eq!(ids_of(&state, "openai"), texts(&["head", "loose"]));
    assert_eq!(ids_of(&state, "custom"), texts(&["fine", "settled"]));
    let targets = done(list_mismatched_sessions(&state, "openai"));
    assert_eq!(targets[1].rollout_path, "/sessions/loose");
    let plan = done(get_provider_sync_plan_with_lock(
        &Ok("openai".to_string()),
        &Ok(state),
    ));
    assert_eq!(plan, texts(&["head", "loose"]));
}

#[test]
fn scans_leave_usable_branches_alone() {
    let with_other = |status_ok: bool| {
        let mut other = sync_branch("other", "openai", BranchStatus::Archived);
        other.facts.is_file = status_ok;
        SyncState {
            families: vec![SyncFamily {
                active_id: "head".to_string(),
                branches: vec![sync_branch("head", "custom", BranchStatus::Active), other],
            }],
            family_index_ids: vec![],
            rollouts: vec![rollout("head", "custom")],
            thread_states: vec![
                thread("head", "custom", "cli", false),
                thread("other", "openai", "cli", false),
            ],
            session_index_ids: texts(&["head", "other"]),
        }
    };
    assert!(ids_of(&with_other(true), "openai").is_empty());
    assert_eq!(ids_of(&with_other(false), "openai"), texts(&["head"]));
}

#[test]
fn scans_look_at_hidden_archived_and_subagent_threads() {
    let state_with = |thread: ThreadRepairState| SyncState {
        families: vec![family_of_one("head", "openai")],
        family_index_ids: vec![],
        rollouts: vec![rollout("head", "openai")],
        thread_states: vec![thread],
        session_index_ids: texts(&["head"]),
    };
    let hidden = state_with(thread("head", "openai", "exec", false));
    assert_eq!(ids_of(&hidden, "openai"), texts(&["head"]));
    let archived = state_with(thread("head", "custom", "cli", true));
    assert!(ids_of(&archived, "openai").is_empty());
    let subagent = state_with(thread("head", "custom", "parent:x", false));
    assert!(ids_of(&subagent, "openai").is_empty());
    let fine = state_with(thread("head", "openai", "cli", false));
    assert!(ids_of(&fine, "openai").is_empty());
}

#[test]
fn scans_stop_at_what_cannot_be_judged() {
    let mut broken = rollout("loose", "custom");
    broken.facts.recorded_matches = Err(AppError::Outside("denied".to_string()));
    let state = SyncState {
        families: vec![],
        family_index_ids: vec![],
        rollouts: vec![broken],
        thread_states: vec![thread("loose", "custom", "cli", false)],
        session_index_ids: texts(&["loose"]),
    };
    assert_eq!(refusal(list_mismatched_sessions(&state, "openai")), "denied");
}

// ---------------------------------------------------------------------------
// Decisions
// ---------------------------------------------------------------------------

fn brief(id: &str, provider: &str, mode: &str) -> RolloutBrief {
    let lines = vec![
        RolloutLine {
            text: format!("{{\"timestamp\":\"2026-04-24T00:00:00Z\",\"type\":\"session_meta\",\"payload\":{{\"id\":\"{id}\",\"model_provider\":\"{provider}\",\"cwd\":\"/p\",\"source\":\"cli\",\"history_mode\":\"{mode}\"}}}}"),
            token_total: None,
        },
        RolloutLine {
            text: "{\"type\":\"event_msg\",\"payload\":{\"type\":\"user_message\",\"message\":\"hello\"}}".to_string(),
            token_total: None,
        },
    ];
    let path = format!("/sessions/{id}");
    match read_rollout_brief(&lines, &path, "sessions/x", Some("/p".to_string())) {
        Some(brief) => brief,
        None => panic!("no brief"),
    }
}

fn request(id: &str, strategy: SwitchStrategy, dry_run: bool) -> SwitchRequest {
    SwitchRequest {
        session_id: id.to_string(),
        target_provider: Some(" custom ".to_string()),
        strategy,
        dry_run,
    }
}

fn empty_state() -> SyncState {
    SyncState {
        families: vec![],
        family_index_ids: vec![],
        rollouts: vec![],
        thread_states: vec![],
        session_index_ids: vec![],
    }
}

fn facts(id: &str, active_id: &str) -> SwitchFacts {
    SwitchFacts {
        configured: Ok("openai".to_string()),
        source: Ok(Some(brief(id, "openai", "legacy"))),
        family: Some(SyncFamily {
            active_id: active_id.to_string(),
            branches: vec![sync_branch(active_id, "openai", BranchStatus::Active)],
        }),
        state: Ok(empty_state()),
        desktop_running: false,
        desktop: Ok(()),
        state_db: Ok(()),
    }
}

fn decide(strategy: SwitchStrategy, dry_run: bool, facts: &SwitchFacts) -> SwitchDecision {
    done(clone_session_for_provider_with_lock(
        &request("a", strategy, dry_run),
        facts,
    ))
}

fn finished(decision: SwitchDecision) -> CloneReport {
    match decision {
        SwitchDecision::Finished(report) => report,
        _ => panic!("not finished"),
    }
}

#[test]
fn strategies_decide_what_is_done() {
    let known = facts("a", "a");
    assert!(matches!(decide(SwitchStrategy::Scatter, false, &known), SwitchDecision::CopyRollout { archive: false }));
    assert!(matches!(decide(SwitchStrategy::Continuous, false, &known), SwitchDecision::CopyRollout { archive: true }));
    assert!(matches!(decide(SwitchStrategy::Follow, false, &known), SwitchDecision::RewriteInPlace));
    let dry = finished(decide(SwitchStrategy::Follow, true, &known));
    assert!(dry.ok);
    assert_eq!(dry.new_provider, "custom");
    assert_eq!(
        dry.skipped_reason.as_deref(),
        Some("dry_run: follow 模式将就地改写 provider")
    );
}

#[test]
fn source_changing_strategies_need_desktop_to_be_closed() {
    let mut running = facts("a", "a");
    running.desktop_running = true;
    for strategy in [SwitchStrategy::Follow, SwitchStrategy::Continuous] {
        assert_eq!(
            refusal(clone_session_for_provider_with_lock(
                &request("a", strategy, false),
                &running
            )),
            "follow/continuous provider 切换会改写或移动当前 rollout；Codex/ChatGPT 桌面应用正在运行，请完全退出后重试"
        );
    }
    assert!(matches!(decide(SwitchStrategy::Scatter, false, &running), SwitchDecision::CopyRollout { archive: false }));
    let mut started = facts("a", "a");
    started.desktop = Err(AppError::Other("started".to_string()));
    assert_eq!(
        refusal(clone_session_for_provider_with_lock(
            &request("a", SwitchStrategy::Follow, false),
            &started
        )),
        "started"
    );
}

#[test]
fn paged_sessions_are_left_to_codex() {
    let mut paged = facts("a", "a");
    paged.source = Ok(Some(brief("a", "openai", "paginated")));
    assert!(matches!(decide(SwitchStrategy::Scatter, false, &paged), SwitchDecision::ForkOfficially));
    let dry = finished(decide(SwitchStrategy::Scatter, true, &paged));
    assert_eq!(
        dry.skipped_reason.as_deref(),
        Some("dry_run: 将通过 Codex 官方 thread/fork 同步分页会话")
    );
    let error = refusal(clone_session_for_provider_with_lock(
        &request("a", SwitchStrategy::Continuous, false),
        &paged,
    ));
    assert!(error.contains("分页会话不支持连续模式"), "{error}");
    let error = refusal(clone_session_for_provider_with_lock(
        &request("a", SwitchStrategy::Follow, false),
        &paged,
    ));
    assert!(error.contains("分页会话不支持跟随"), "{error}");
}

#[test]
fn sessions_at_home_are_made_visible() {
    let mut home = facts("a", "a");
    home.configured = Ok("openai".to_string());
    let ask = |facts: &SwitchFacts, dry_run: bool| {
        let mut request = request("a", SwitchStrategy::Scatter, dry_run);
        request.target_provider = None;
        clone_session_for_provider_with_lock(&request, facts)
    };
    assert!(matches!(ask(&home, false), Ok(SwitchDecision::RepairVisibility)));
    let dry = finished(done(ask(&home, true)));
    assert_eq!(
        dry.skipped_reason.as_deref(),
        Some("dry_run: 将复核并修复本地索引可见性")
    );
    home.state_db = Err(AppError::NotFound("no database".to_string()));
    assert_eq!(refusal(ask(&home, false)), "no database");
    let mut paged = facts("a", "a");
    paged.source = Ok(Some(brief("a", "openai", "paginated")));
    let skipped = finished(done(ask(&paged, false)));
    assert!(skipped.ok);
    assert!(skipped
        .skipped_reason
        .is_some_and(|reason| reason.contains("分页会话（paginated）已属于当前 provider")));
}

#[test]
fn branches_that_serve_the_provider_are_used() {
    let mut served = facts("a", "a");
    served.family = Some(SyncFamily {
        active_id: "a".to_string(),
        branches: vec![
            sync_branch("a", "openai", BranchStatus::Active),
            sync_branch("b", "custom", BranchStatus::Archived),
        ],
    });
    let mut state = empty_state();
    state.thread_states = vec![thread("b", "custom", "cli", false)];
    state.session_index_ids = texts(&["b"]);
    served.state = Ok(state);
    assert!(matches!(
        decide(SwitchStrategy::Scatter, false, &served),
        SwitchDecision::UseExisting { branch_id } if branch_id == "b"
    ));
    let dry = finished(decide(SwitchStrategy::Scatter, true, &served));
    assert_eq!(dry.new_id.as_deref(), Some("b"));
    assert_eq!(
        dry.skipped_reason.as_deref(),
        Some("目标 provider 已有可用分支")
    );
    served.state = Err(AppError::Outside("locked".to_string()));
    assert_eq!(
        refusal(clone_session_for_provider_with_lock(
            &request("a", SwitchStrategy::Scatter, false),
            &served
        )),
        "locked"
    );
    let report = existing_report("a", "custom", "b", true);
    assert!(report.ok && report.desktop_restart_required);
}

#[test]
fn switches_are_refused_with_a_reason() {
    let ask = |facts: &SwitchFacts| {
        refusal(clone_session_for_provider_with_lock(
            &request("a", SwitchStrategy::Scatter, false),
            facts,
        ))
    };
    assert_eq!(
        ask(&facts("a", "other")),
        "provider 切换只能操作 family 当前 active 分支：当前 active=other，请求会话=a"
    );
    assert_eq!(
        ask(&facts("b", "a")),
        "provider 同步计划路径与会话 ID 不一致: 期望 a，实际 b"
    );
    assert_eq!(
        refusal(resolve_target_provider(&Some("  ".to_string()), &Ok("x".to_string()))),
        "目标 provider 不能为空"
    );
    let mut lost = facts("a", "a");
    lost.source = Ok(None);
    let report = finished(decide(SwitchStrategy::Scatter, false, &lost));
    assert!(!report.ok);
    assert_eq!(
        report.error.as_deref(),
        Some("未在 sessions/ 中找到 id=a")
    );
}

// ---------------------------------------------------------------------------
// Steps
// ---------------------------------------------------------------------------

fn copy_facts() -> CopyFacts {
    CopyFacts {
        source_path: Ok("/sessions/a".to_string()),
        source_is_file: true,
        new_id: "n".to_string(),
        new_path: "/sessions/n".to_string(),
        new_stem: Some(
            "rollout-2026-04-22T00-00-00-019a1b2c-3d4e-7f50-8a6b-7c8d9e0f1a2b".to_string(),
        ),
        state_db: Ok(()),
        active_id: Some("a".to_string()),
        archive: ArchiveFacts {
            is_file: true,
            thread_row: Ok(()),
            checksum: Ok(()),
            destination: Some("/archived/a".to_string()),
            occupied: false,
        },
    }
}

#[test]
fn copies_are_checked_before_anything_is_written() {
    let real = request("a", SwitchStrategy::Continuous, false);
    let dry = request("a", SwitchStrategy::Continuous, true);
    match done(check_copy(&real, "custom", true, &copy_facts())) {
        CopyOutcome::Proceed { source_path, archive } => {
            assert_eq!(source_path, "/sessions/a");
            assert!(archive.is_some_and(|moved| moved.to == "/archived/a"));
        }
        CopyOutcome::Finished(_) => panic!("finished"),
    }
    match done(check_copy(&dry, "custom", true, &copy_facts())) {
        CopyOutcome::Finished(report) => {
            assert_eq!(report.new_id.as_deref(), Some("n"));
            assert_eq!(
                report.skipped_reason.as_deref(),
                Some("dry_run: 不会写入磁盘")
            );
        }
        CopyOutcome::Proceed { .. } => panic!("a dry run went on"),
    }
    let mut facts = copy_facts();
    facts.source_is_file = false;
    match done(check_copy(&real, "custom", true, &facts)) {
        CopyOutcome::Finished(report) => assert_eq!(
            report.error.as_deref(),
            Some("源 rollout 不存在: /sessions/a")
        ),
        CopyOutcome::Proceed { .. } => panic!("went on"),
    }
    let ask = |facts: &CopyFacts| refusal(check_copy(&real, "custom", true, facts));
    let mut facts = copy_facts();
    facts.active_id = None;
    assert_eq!(ask(&facts), "continuous 模式缺少 active family 分支");
    let mut facts = copy_facts();
    facts.archive.is_file = false;
    assert_eq!(
        ask(&facts),
        "旧 active rollout 不存在，不能归档: /sessions/a"
    );
    let mut facts = copy_facts();
    facts.archive.occupied = true;
    assert_eq!(ask(&facts), "归档目标已存在，拒绝覆盖: /archived/a");
    let mut facts = copy_facts();
    facts.archive.destination = None;
    assert!(matches!(
        check_copy(&real, "custom", true, &facts),
        Err(AppError::Path(text)) if text == "rollout 缺少文件名: /sessions/a"
    ));
}

fn new_session() -> NewSession {
    NewSession {
        id: "n".to_string(),
        path: "/sessions/n".to_string(),
        relpath: "sessions/n".to_string(),
        provider: "custom".to_string(),
        made_of: "a".to_string(),
        created_at: "now".to_string(),
    }
}

#[test]
fn copies_check_the_source_round_every_move() {
    let first = copy_first_steps("/sessions/a", "/sessions/n");
    assert_eq!(first.len(), 3);
    assert!(matches!(&first[1], Step::RequireUnchanged { path, label } if path == "/sessions/a" && label == "克隆源 rollout "));
    let archive = match done(check_copy(
        &request("a", SwitchStrategy::Continuous, false),
        "custom",
        true,
        &copy_facts(),
    )) {
        CopyOutcome::Proceed { archive, .. } => archive,
        CopyOutcome::Finished(_) => panic!("finished"),
    };
    let steps = done(copy_later_steps(
        &new_session(),
        "f",
        &archive,
        &Some(brief("n", "custom", "legacy")),
        "/host/p",
        "hello",
        false,
    ));
    assert!(matches!(&steps[0], Step::AssignProject { cwd, .. } if cwd == "/host/p"));
    let mut moves = 0;
    for (at, step) in steps.iter().enumerate() {
        if let Step::MoveFile { from, to } = step {
            moves += 1;
            assert!(matches!(&steps[at - 1], Step::RequireUnchanged { path, .. } if path == from));
            assert!(matches!(&steps[at + 1], Step::RequireUnchanged { path, .. } if path == to));
        }
    }
    assert_eq!(moves, 1);
    assert!(matches!(steps.last(), Some(Step::SaveStore)));
    assert!(steps.iter().any(|step| matches!(step, Step::AppendBranch { branch, .. }
        if branch.note.as_deref() == Some("cloned_from:a"))));
    let scattered = done(copy_later_steps(
        &new_session(),
        "f",
        &None,
        &Some(brief("n", "custom", "legacy")),
        "/host/p",
        "hello",
        true,
    ));
    assert_eq!(scattered.len(), 4);
    assert!(matches!(&scattered[1], Step::ReplaceActive { .. }));
    assert_eq!(
        refusal(copy_later_steps(&new_session(), "f", &None, &None, "", "", true)),
        "新分支 rollout 缺少有效 session_meta.id: /sessions/n"
    );
}

#[test]
fn other_decisions_take_few_steps() {
    let source = brief("a", "openai", "legacy");
    let assignment = Some(Assignment {
        thread_id: "a".to_string(),
        cwd: "/p".to_string(),
    });
    let visible = visibility_steps(&source, &assignment, false, false);
    assert_eq!(visible.len(), 4);
    assert!(matches!(&visible[3], Step::SaveStore));
    assert_eq!(visibility_steps(&source, &assignment, true, true).len(), 2);
    assert_eq!(existing_steps(&assignment, false, true).len(), 1);
    let follow = follow_steps(&source, &None, "f", "custom");
    assert_eq!(follow.len(), 5);
    assert!(matches!(&follow[0], Step::RewriteProvider { path } if path == "/sessions/a"));
    assert!(matches!(&follow[3], Step::SetActiveProvider { provider, .. } if provider == "custom"));
    assert_eq!(
        refusal(report_visibility("a", "custom", Ok(false), false)),
        "会话 a 的可见性修复后复核仍未通过"
    );
    let report = done(report_visibility("a", "custom", Ok(true), true));
    assert_eq!(
        report.skipped_reason.as_deref(),
        Some("已修复并复核本地索引可见性")
    );
    assert!(report.desktop_restart_required);
}

// ---------------------------------------------------------------------------
// Forks that Codex makes
// ---------------------------------------------------------------------------

fn fork_facts() -> ForkFacts {
    ForkFacts {
        named: Ok(()),
        answered_path: true,
        host_path: "/h".to_string(),
        reached: Ok("/codex/sessions/n".to_string()),
        place: Ok(()),
        brief: Ok(Some(brief("n", "custom", "paginated"))),
        answered_provider: Some("custom".to_string()),
    }
}

#[test]
fn forks_are_what_was_asked_for() {
    let facts = fork_facts();
    assert_eq!(done(check_fork("n", Some("custom"), &facts)).id, "n");
    let ask = |facts: &ForkFacts| refusal(check_fork("n", Some("custom"), facts));
    let mut facts = fork_facts();
    facts.answered_path = false;
    assert_eq!(ask(&facts), "Codex thread/fork 响应缺少 rollout 路径");
    let mut facts = fork_facts();
    facts.reached = Err("gone".to_string());
    assert_eq!(
        ask(&facts),
        "Codex thread/fork 未生成可访问的 rollout：/h (gone)"
    );
    let mut facts = fork_facts();
    facts.brief = Ok(None);
    assert_eq!(
        ask(&facts),
        "Codex thread/fork rollout 缺少有效 session_meta.id：/codex/sessions/n"
    );
    let mut facts = fork_facts();
    facts.brief = Ok(Some(brief("m", "custom", "paginated")));
    assert_eq!(
        ask(&facts),
        "Codex thread/fork 响应 ID 与 rollout 不一致：响应 n，rollout m"
    );
    let mut facts = fork_facts();
    facts.answered_provider = None;
    assert_eq!(ask(&facts), "Codex thread/fork 未写入目标 provider=custom");
    assert!(check_fork("n", None, &facts).is_ok());
    let mut facts = fork_facts();
    facts.brief = Ok(Some(brief("n", "custom", "legacy")));
    assert_eq!(
        ask(&facts),
        "Codex thread/fork 返回 history_mode=legacy，期望 paginated"
    );
    assert_eq!(
        refusal(check_fork_id("a", "a")),
        "Codex thread/fork 返回了源会话 ID，拒绝继续登记"
    );
    done(check_fork_id("n", "a"));
}

#[test]
fn forks_are_entered_or_deleted() {
    done(check_entry(true, "/p", true, "f", Ok(()), Ok(())));
    assert_eq!(
        refusal(check_entry(false, "/p", true, "f", Ok(()), Ok(()))),
        "Codex thread/fork rollout 不在 Codex 目录内：/p"
    );
    assert_eq!(
        refusal(check_entry(true, "/p", false, "f", Ok(()), Ok(()))),
        "provider 同步 family：f"
    );
    let (first, second) = entry_steps(
        &new_session(),
        "a",
        "f",
        &brief("n", "custom", "paginated"),
        "/host/p",
        false,
    );
    assert!(matches!(&first[0], Step::ReplaceActive { branch, .. }
        if branch.note.as_deref() == Some("official_fork_from:a")));
    assert_eq!(second.len(), 1);
    let last = naming_steps("n", &None, "hello");
    assert!(matches!(&last[0], Step::AppendIndexLine { thread_name, .. } if thread_name == "hello"));
    assert!(matches!(&last[1], Step::SaveStore));
    done(require_usable_fork("n", Ok(true)));
    let failure = match require_usable_fork("n", Ok(false)) {
        Ok(()) => panic!("usable"),
        Err(error) => error,
    };
    assert_eq!(
        failure.message(),
        "Codex 官方 fork n 的 provider 可见性复核未通过"
    );
    let kept = compensate_official_provider_fork("n", failure.copy(), Ok(()));
    assert_eq!(kept.message(), failure.message());
    let both = compensate_official_provider_fork(
        "n",
        AppError::Other("first".to_string()),
        Err(AppError::Other("second".to_string())),
    );
    assert_eq!(
        both.message(),
        "first；清理 Codex 官方 fork n 失败：second"
    );
}

#[test]
fn forks_carry_a_name_and_their_history() {
    assert_eq!(
        source_thread_name(&Some("named".to_string()), "hello").as_deref(),
        Some("named")
    );
    assert_eq!(source_thread_name(&None, "hello").as_deref(), Some("hello"));
    assert_eq!(source_thread_name(&None, ""), None);
    let text = "\n{\"payload\":{\"history_base\":{\"end_ordinal_exclusive\":12}}}\nbroken";
    assert_eq!(done(paginated_history_base_len(text)), 12);
    assert_eq!(done(paginated_history_base_len("{}\n")), 0);
    assert_eq!(done(paginated_history_base_len(" \n")), 0);
    assert_eq!(
        done(paginated_history_base_len(
            "{\"payload\":{\"history_base\":{\"end_ordinal_exclusive\":-3}}}"
        )),
        0
    );
    assert!(matches!(
        paginated_history_base_len("broken"),
        Err(AppError::Outside(_))
    ));
    let base = Json::object().set("end_ordinal_exclusive", Json::Unsigned(7));
    let meta = Json::object().set("payload", Json::object().set("history_base", base));
    assert_eq!(history_base_length(&meta), 7);
    assert_eq!(history_base_length(&Json::Null), 0);
}

// ---------------------------------------------------------------------------
// Batches
// ---------------------------------------------------------------------------

#[test]
fn batches_report_on_every_session() {
    let state = SyncState {
        families: vec![],
        family_index_ids: vec![],
        rollouts: vec![rollout("x", "custom"), rollout("y", "custom")],
        thread_states: vec![],
        session_index_ids: vec![],
    };
    let mut batch = done(batch_clone_for_current_provider_with_lock(
        &Ok("openai".to_string()),
        &Ok(state),
        SwitchStrategy::Scatter,
        true,
    ));
    let started = told(batch.next_action());
    assert_eq!((started.done, started.total), (0, 2));
    assert!(started.session_id.is_none() && started.report.is_none());
    let announced = told(batch.next_action());
    assert_eq!((announced.done, announced.total), (0, 2));
    assert_eq!(announced.session_id.as_deref(), Some("x"));
    assert!(announced.report.is_none());
    assert_eq!(tried(batch.next_action()), "/sessions/x");
    let progress = batch_clone_for_current_provider_with_progress(
        &mut batch,
        Err(AppError::Other("failed".to_string())),
    );
    assert_eq!((progress.done, progress.total), (1, 2));
    assert!(progress.session_id.is_none());
    let report = match progress.report {
        Some(report) => report,
        None => panic!("no report"),
    };
    assert!(!report.ok);
    assert_eq!(report.source_id, "x");
    assert_eq!(report.new_provider, "openai");
    assert_eq!(report.error.as_deref(), Some("failed"));
    assert_eq!(told(batch.next_action()).session_id.as_deref(), Some("y"));
    assert_eq!(tried(batch.next_action()), "/sessions/y");
    let last = batch_clone_for_current_provider_with_progress(
        &mut batch,
        Ok(done_report("y", "openai", "z", "/sessions/z", false)),
    );
    assert_eq!((last.done, last.total), (2, 2));
    assert!(matches!(batch.next_action(), BatchAction::Finish));
    assert_eq!(batch.reports.len(), 2);
    assert!(batch.reports[1].ok);
}

fn told(action: BatchAction) -> Progress {
    match action {
        BatchAction::Tell(progress) => progress,
        _ => panic!("nothing told"),
    }
}

fn tried(action: BatchAction) -> String {
    match action {
        BatchAction::Clone {
            request,
            rollout_path,
        } => {
            assert_eq!(request.target_provider.as_deref(), Some("openai"));
            assert!(request.dry_run);
            assert_eq!(rollout_path, format!("/sessions/{}", request.session_id));
            rollout_path
        }
        _ => panic!("nothing tried"),
    }
}

#[test]
fn switched_families_are_not_planned_again() {
    let mut archived = sync_branch("old", "custom", BranchStatus::Archived);
    archived.in_sessions = Ok(false);
    let state = SyncState {
        families: vec![SyncFamily {
            active_id: "new".to_string(),
            branches: vec![archived, sync_branch("new", "openai", BranchStatus::Active)],
        }],
        family_index_ids: vec![],
        rollouts: vec![rollout("old", "custom"), rollout("new", "openai")],
        thread_states: vec![
            thread("old", "custom", "cli", true),
            thread("new", "openai", "cli", false),
        ],
        session_index_ids: texts(&["new"]),
    };
    assert!(ids_of(&state, "openai").is_empty());
    let rewritten = SyncState {
        families: vec![family_of_one("old", "openai")],
        family_index_ids: vec![],
        rollouts: vec![rollout("old", "openai")],
        thread_states: vec![thread("old", "openai", "cli", false)],
        session_index_ids: texts(&["old"]),
    };
    assert!(ids_of(&rewritten, "openai").is_empty());
}

#[test]
fn reports_follow_what_was_done() {
    let source = brief("a", "custom", "legacy");
    let made = || {
        Ok(SwitchWork {
            usable: Ok(true),
            new_id: "n".to_string(),
            new_path: "/sessions/n".to_string(),
        })
    };
    let report = |decision, work| report_switch("a", "openai", &source, decision, work, true);
    for decision in [
        SwitchDecision::CopyRollout { archive: true },
        SwitchDecision::ForkOfficially,
    ] {
        let copied = done(report(decision, made()));
        assert!(copied.ok && copied.desktop_restart_required);
        assert_eq!(copied.source_id, "a");
        assert_eq!(copied.new_provider, "openai");
        assert_eq!(copied.new_id.as_deref(), Some("n"));
        assert_eq!(copied.new_rollout_path.as_deref(), Some("/sessions/n"));
    }
    let rewritten = done(report(SwitchDecision::RewriteInPlace, made()));
    assert_eq!(rewritten.new_id.as_deref(), Some("a"));
    assert_eq!(rewritten.new_rollout_path.as_deref(), Some(source.path.as_str()));
    let used = done(report(
        SwitchDecision::UseExisting {
            branch_id: "b".to_string(),
        },
        made(),
    ));
    assert_eq!(used.source_id, "a");
    assert_eq!(used.new_id.as_deref(), Some("b"));
    assert!(used.new_rollout_path.is_none());
    let visible = done(report(SwitchDecision::RepairVisibility, made()));
    assert_eq!(visible.source_id, "a");
    assert!(visible.ok && visible.new_id.is_none());
    let hidden = SwitchWork {
        usable: Ok(false),
        new_id: String::new(),
        new_path: String::new(),
    };
    assert!(refusal(report(SwitchDecision::RepairVisibility, Ok(hidden))).contains("a"));
    let failed = Err(AppError::Other("failed".to_string()));
    assert_eq!(refusal(report(SwitchDecision::ForkOfficially, failed)), "failed");
}
