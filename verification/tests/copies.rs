use session_repair::duplicate::{
    duplicate_first_steps, duplicate_later_steps, duplicate_session_with_lock, forked_later_steps,
    report_duplicate, DuplicateFacts, DuplicateWay,
};
use session_repair::error::AppError;
use session_repair::fork::{
    fork_first_steps, fork_later_steps, fork_session_at_event_with_lock, report_fork,
    resolve_fork_source_rollout, ForkSource, ForkTarget,
};
use session_repair::model::{
    ArchiveOrigin, BranchStatus, Family, FamilyBranch, FamilyEntry, FamilyStore, IndexEntry,
};
use session_repair::json::parse;
use session_repair::provider_rewrite::{reprovide_record, rewrite_provider_inplace};
use session_repair::branch_sync::compare_rollout_lines;
use session_repair::rollout::{
    read_rollout_brief, read_rollout_identity, RolloutBrief, RolloutLine,
};
use session_repair::rollout_copy::{write_cloned_rollout, CopyIdentity};
use session_repair::rollout_fork::write_duplicated_rollout;
use session_repair::session_id::{build_clone_path, new_session_id, validate_rollout_filename};
use session_repair::session_meta::rewrite_session_meta_identity;
use session_repair::snapshot::{
    explain_removal, new_rollout_has_to_go, require_unchanged_snapshot, require_unchanged_source,
    rewrite_replaces_file, EntryKind,
};
use session_repair::stable_prefix::{collect_stable_prefix, write_forked_rollout_prefix};
use session_repair::steps::{project_assignment_record, Step};
use session_repair::switch_steps::{ArchiveMove, NewSession};

fn done<T>(outcome: Result<T, AppError>) -> T {
    match outcome {
        Ok(value) => value,
        Err(error) => panic!("{}", error.message()),
    }
}

fn refusal<T>(outcome: Result<T, AppError>) -> String {
    match outcome {
        Ok(_) => panic!("not refused"),
        Err(error) => error.message().clone(),
    }
}

fn value(line: &str) -> serde_json::Value {
    match serde_json::from_str(line) {
        Ok(value) => value,
        Err(error) => panic!("{line}: {error}"),
    }
}

fn meta(id: &str, provider: &str, extra: &str) -> String {
    format!("{{\"timestamp\":\"2026-04-24T00:00:00Z\",\"type\":\"session_meta\",\"payload\":{{\"id\":\"{id}\",\"session_id\":\"{id}\",\"model_provider\":\"{provider}\",\"cwd\":\"F:\\\\project\\\\example\",\"source\":\"cli\"{extra}}}}}")
}

fn conversation(id: &str) -> Vec<String> {
    vec![
        meta(id, "openai", ""),
        "{\"timestamp\":\"2026-04-23T00:00:01Z\",\"type\":\"event_msg\",\"payload\":{\"type\":\"user_message\",\"message\":\"First request\"}}".to_string(),
        "{\"timestamp\":\"2026-04-23T00:00:02Z\",\"type\":\"response_item\",\"payload\":{\"type\":\"message\",\"role\":\"assistant\",\"content\":[{\"type\":\"output_text\",\"text\":\"Stable answer\"}]}}".to_string(),
        "{\"timestamp\":\"2026-04-23T00:00:03Z\",\"type\":\"response_item\",\"payload\":{\"type\":\"function_call\",\"name\":\"decode_image\"}}".to_string(),
        "{not valid json".to_string(),
    ]
}

fn brief(lines: &[String]) -> Option<RolloutBrief> {
    let lines: Vec<RolloutLine> = lines
        .iter()
        .map(|text| RolloutLine {
            text: text.clone(),
            token_total: None,
        })
        .collect();
    read_rollout_brief(
        &lines,
        "/codex/sessions/rollout-x.jsonl",
        "sessions/rollout-x.jsonl",
        Some("F:\\project\\example".to_string()),
    )
}

fn copy_of<'a>(source_id: &'a str, new_id: &'a str, provider: &'a str) -> CopyIdentity<'a> {
    CopyIdentity {
        source_id,
        new_id,
        provider,
        timestamp: "2026-07-10T00:00:00Z",
    }
}

#[test]
fn cloned_rollout_rewrites_only_the_source_session_meta_identity() {
    let ancestor = "{\"timestamp\":\"2026-04-24T00:30:00Z\",\"type\":\"session_meta\",\"payload\":{\"id\":\"ancestor\",\"session_id\":\"ancestor\",\"model_provider\":\"ancestor-provider\",\"cwd\":\"F:\\\\project\\\\ancestor\",\"source\":\"cli\"}}";
    let repeated = "{\"timestamp\":\"2026-04-24T01:00:00Z\",\"type\":\"session_meta\",\"payload\":{\"id\":\"source\",\"session_id\":\"source\",\"timestamp\":\"2026-04-24T01:00:00Z\",\"model_provider\":\"openai\",\"cwd\":\"F:\\\\project\\\\example\",\"source\":\"cli\"}}";
    let lines = vec![
        meta("source", "openai", ""),
        ancestor.to_string(),
        repeated.to_string(),
    ];

    let copied = done(write_cloned_rollout(
        &lines,
        &copy_of("source", "target", "custom"),
        "source.jsonl",
    ));

    let metas: Vec<serde_json::Value> = copied.iter().map(|line| value(line)).collect();
    assert_eq!(metas.len(), 3);
    assert_eq!(metas[0]["payload"]["id"], "target");
    assert_eq!(metas[0]["payload"]["session_id"], "target");
    assert_eq!(metas[0]["payload"]["model_provider"], "custom");
    assert_eq!(metas[0]["timestamp"], "2026-07-10T00:00:00Z");
    assert_eq!(metas[1]["payload"]["id"], "ancestor");
    assert_eq!(metas[1]["payload"]["session_id"], "ancestor");
    assert_eq!(metas[1]["payload"]["model_provider"], "ancestor-provider");
    assert_eq!(copied[1], ancestor);
    assert_eq!(metas[2]["payload"]["id"], "target");
    assert_eq!(metas[2]["payload"]["session_id"], "target");
    assert_eq!(metas[2]["payload"]["model_provider"], "custom");
    assert_eq!(metas[2]["timestamp"], "2026-04-24T01:00:00Z");
}

#[test]
fn cloned_rollouts_keep_their_times_in_order() {
    let copied = done(write_cloned_rollout(
        &conversation("clone-time-source"),
        &copy_of("clone-time-source", "clone-time-target", "custom"),
        "source.jsonl",
    ));
    let brief = match brief(&copied) {
        Some(brief) => brief,
        None => panic!("no brief"),
    };
    assert!(brief.created_at_ms > 0);
    assert!(brief.updated_at_ms >= brief.created_at_ms);
    assert_eq!(copied[1..], conversation("clone-time-source")[1..]);
}

#[test]
fn duplicated_rollout_creates_a_root_meta_and_interrupts_an_unfinished_turn() {
    let tools = "[{\"name\":\"lookup\",\"description\":\"keep this dynamic tool description\",\"input_schema\":{\"type\":\"object\"}}]";
    let lines = vec![
        format!("{{\"timestamp\":\"2026-04-24T00:00:00Z\",\"type\":\"session_meta\",\"payload\":{{\"id\":\"source\",\"session_id\":\"source\",\"parent_thread_id\":\"old-parent\",\"model_provider\":\"openai\",\"cwd\":\"F:\\\\project\\\\example\",\"source\":{{\"subagent\":{{\"thread_spawn\":{{\"parent_thread_id\":\"old-parent\"}}}}}},\"thread_source\":\"subagent\",\"agent_nickname\":\"Worker\",\"agent_role\":\"planner\",\"agent_path\":\"/root/planner\",\"dynamic_tools\":{tools},\"history_mode\":\"legacy\"}}}}"),
        "{\"timestamp\":\"2026-04-24T00:00:01Z\",\"type\":\"session_meta\",\"payload\":{\"id\":\"ancestor\",\"session_id\":\"ancestor\",\"model_provider\":\"ancestor-provider\",\"cwd\":\"F:\\\\project\\\\ancestor\",\"source\":\"vscode\"}}".to_string(),
        "{\"timestamp\":\"2026-04-24T00:00:02Z\",\"type\":\"session_meta\",\"payload\":{\"id\":\"source\",\"session_id\":\"source\",\"model_provider\":\"openai\",\"cwd\":\"F:\\\\project\\\\example\",\"source\":\"vscode\"}}".to_string(),
        "{\"timestamp\":\"2026-04-24T00:00:03Z\",\"type\":\"event_msg\",\"payload\":{\"type\":\"task_started\",\"turn_id\":\"active-turn\"}}".to_string(),
        "{\"timestamp\":\"2026-04-24T00:00:04Z\",\"type\":\"response_item\",\"payload\":{\"type\":\"custom_tool_call\",\"call_id\":\"call-1\",\"name\":\"lookup\",\"input\":\"{}\"}}".to_string(),
    ];

    let copied = done(write_duplicated_rollout(
        &lines,
        &copy_of("source", "target", "openai"),
        "2026-07-10T00:00:01Z",
        "source.jsonl",
    ));

    let values: Vec<serde_json::Value> = copied.iter().map(|line| value(line)).collect();
    let canonical = &values[0];
    assert_eq!(canonical["payload"]["id"], "target");
    assert_eq!(canonical["payload"]["session_id"], "target");
    assert_eq!(canonical["payload"]["forked_from_id"], "source");
    assert_eq!(canonical["payload"]["source"], "cli");
    assert_eq!(canonical["payload"]["thread_source"], "user");
    assert_eq!(canonical["payload"]["history_mode"], "legacy");
    assert_eq!(canonical["payload"]["dynamic_tools"], value(tools));
    for removed in [
        "parent_thread_id",
        "agent_nickname",
        "agent_role",
        "agent_path",
    ] {
        assert!(canonical["payload"].get(removed).is_none(), "{removed}");
    }

    let copied_meta: Vec<&serde_json::Value> = values
        .iter()
        .skip(1)
        .filter(|value| value["type"] == "session_meta")
        .collect();
    assert_eq!(copied_meta.len(), 2);
    assert_eq!(copied_meta[0]["payload"]["id"], "ancestor");
    assert_eq!(
        copied_meta[0]["payload"]["model_provider"],
        "ancestor-provider"
    );
    assert_eq!(copied_meta[1]["payload"]["id"], "source");

    let marker = &values[values.len() - 2];
    assert_eq!(marker["type"], "response_item");
    assert_eq!(marker["payload"]["type"], "message");
    assert_eq!(marker["payload"]["role"], "user");
    assert!(marker["payload"]["content"][0]["text"]
        .as_str()
        .is_some_and(|text| text.contains("<turn_aborted>")));
    let aborted = &values[values.len() - 1];
    assert_eq!(aborted["type"], "event_msg");
    assert_eq!(aborted["payload"]["type"], "turn_aborted");
    assert_eq!(aborted["payload"]["turn_id"], "active-turn");
    assert_eq!(aborted["payload"]["reason"], "interrupted");
}

#[test]
fn duplicated_rollout_interrupts_legacy_history_without_lifecycle_events() {
    let lines = vec![
        meta("source", "openai", ",\"history_mode\":\"legacy\""),
        "{\"timestamp\":\"2026-04-24T00:00:01Z\",\"type\":\"response_item\",\"payload\":{\"type\":\"message\",\"role\":\"user\",\"content\":[{\"type\":\"input_text\",\"text\":\"continue\"}]}}".to_string(),
        "{\"timestamp\":\"2026-04-24T00:00:02Z\",\"type\":\"response_item\",\"payload\":{\"type\":\"message\",\"role\":\"assistant\",\"content\":[{\"type\":\"output_text\",\"text\":\"partial\"}]}}".to_string(),
    ];
    let copied = done(write_duplicated_rollout(
        &lines,
        &copy_of("source", "target", "openai"),
        "2026-07-10T00:00:01Z",
        "source.jsonl",
    ));
    let values: Vec<serde_json::Value> = copied.iter().map(|line| value(line)).collect();
    assert!(values[values.len() - 2]["payload"]["content"][0]["text"]
        .as_str()
        .is_some_and(|text| text.contains("<turn_aborted>")));
    assert_eq!(values[values.len() - 1]["payload"]["type"], "turn_aborted");
    assert!(values[values.len() - 1]["payload"]["turn_id"].is_null());
}

#[test]
fn finished_turns_are_not_interrupted() {
    let lines = vec![
        meta("source", "openai", ""),
        "{\"type\":\"event_msg\",\"payload\":{\"type\":\"task_started\",\"turn_id\":\"t\"}}".to_string(),
        "{\"type\":\"event_msg\",\"payload\":{\"type\":\"task_complete\",\"turn_id\":\"t\"}}".to_string(),
    ];
    let copied = done(write_duplicated_rollout(
        &lines,
        &copy_of("source", "target", "openai"),
        "2026-07-10T00:00:01Z",
        "source.jsonl",
    ));
    assert_eq!(copied.len(), 3);
    assert_eq!(copied[1..], lines[1..]);
}

#[test]
fn duplicated_rollout_rejects_paginated_history() {
    let lines = vec![meta("source", "openai", ",\"history_mode\":\"paginated\"")];
    let error = refusal(write_duplicated_rollout(
        &lines,
        &copy_of("source", "target", "openai"),
        "2026-07-10T00:00:01Z",
        "source.jsonl",
    ));
    assert!(error.contains("paginated"), "{error}");
    assert!(error.contains("Codex 官方"), "{error}");
}

#[test]
fn provider_clone_rejects_paginated_history() {
    let lines = vec![meta("source", "openai", ",\"history_mode\":\"paginated\"")];
    let error = refusal(write_cloned_rollout(
        &lines,
        &copy_of("source", "target", "custom"),
        "source.jsonl",
    ));
    assert!(error.contains("paginated"), "{error}");
}

#[test]
fn copies_need_session_metadata() {
    let lines = vec!["{\"type\":\"event_msg\",\"payload\":{}}".to_string()];
    assert_eq!(
        refusal(write_cloned_rollout(
            &lines,
            &copy_of("source", "target", "custom"),
            "/codex/source.jsonl",
        )),
        "源 rollout 缺少有效 session_meta，拒绝创建 provider 分支: /codex/source.jsonl"
    );
    let broken = vec!["{\"type\":\"session_meta\",\"payload\":1}".to_string()];
    assert_eq!(
        refusal(write_cloned_rollout(
            &broken,
            &copy_of("source", "target", "custom"),
            "/codex/source.jsonl",
        )),
        "session_meta 缺少有效 payload"
    );
}

#[test]
fn identities_are_rewritten_for_the_named_session_only() {
    let line = meta("source", "openai", "");
    assert!(done(rewrite_session_meta_identity(
        &line, "other", "target", "custom", None
    ))
    .is_none());
    let text = match done(rewrite_session_meta_identity(
        &line,
        "source",
        "target",
        "custom",
        Some("2026-07-10T00:00:00Z"),
    )) {
        Some(text) => text,
        None => panic!("not rewritten"),
    };
    let rewritten = value(&text);
    assert_eq!(rewritten["payload"]["id"], "target");
    assert_eq!(rewritten["payload"]["cwd"], "F:\\project\\example");
    assert_eq!(rewritten["payload"]["timestamp"], "2026-07-10T00:00:00Z");
}

#[test]
fn following_rewrites_the_first_metadata_only() {
    let lines = vec![
        "".to_string(),
        "no json".to_string(),
        meta("a", "openai", ""),
        meta("a", "openai", ""),
    ];
    let rewritten = done(rewrite_provider_inplace(&lines, "custom", "p"));
    assert_eq!(rewritten.len(), 3);
    assert_eq!(rewritten[0], "no json");
    assert_eq!(value(&rewritten[1])["payload"]["model_provider"], "custom");
    assert_eq!(value(&rewritten[1])["payload"]["id"], "a");
    assert_eq!(rewritten[2], lines[3]);
    assert_eq!(
        refusal(rewrite_provider_inplace(&vec!["{}".to_string()], "custom", "/p")),
        "rollout 缺少 session_meta，无法改写 provider: /p"
    );
}

#[test]
fn forks_copy_only_the_stable_prefix() {
    let lines = conversation("source-session");
    let prefix = done(collect_stable_prefix(&lines, 2));
    assert_eq!(prefix.lines.len(), 3);
    assert_eq!(prefix.cut.role, "assistant");
    let written = done(write_forked_rollout_prefix(
        &prefix,
        "new-session",
        "openai",
        "2026-07-10T00:00:00Z",
    ));
    assert_eq!(written.len(), 3);
    assert!(written
        .iter()
        .all(|line| !line.contains("decode_image") && !line.contains("not valid json")));
    let first = value(&written[0]);
    assert_eq!(first["payload"]["id"], "new-session");
    assert_eq!(first["payload"]["session_id"], "new-session");
    assert_eq!(first["payload"]["forked_from_id"], "source-session");
    assert_eq!(first["payload"]["thread_source"], "user");
    assert_eq!(first["payload"]["history_mode"], "legacy");
    assert_eq!(written[1..], lines[1..3]);

    let report = report_fork("source-session", "new-session", "/new", 2, &prefix);
    assert_eq!(report.source_id, "source-session");
    assert_eq!(report.event_index, 2);
    assert_eq!(report.included_lines, 3);
    assert_eq!(report.cut_role, "assistant");
    assert!(report.cut_summary.contains("Stable answer"));
}

#[test]
fn forks_reject_unstable_or_damaged_prefixes() {
    let lines = conversation("source-session");
    assert!(refusal(collect_stable_prefix(&lines, 3)).contains("稳定对话节点"));
    assert!(refusal(collect_stable_prefix(&lines, 4)).contains("不是有效 JSONL"));
    refusal(collect_stable_prefix(&lines, 9));
}

fn fork_store(active_id: &str) -> FamilyStore {
    FamilyStore {
        version: 1,
        families: vec![FamilyEntry {
            key: "f".to_string(),
            family: Family {
                family_id: "f".to_string(),
                root_id: "source-session".to_string(),
                title: "".to_string(),
                chain: vec![FamilyBranch {
                    id: "source-session".to_string(),
                    provider: "openai".to_string(),
                    created_at: "".to_string(),
                    status: BranchStatus::Active,
                    rollout_relpath: "sessions/rollout-x.jsonl".to_string(),
                    sha256: None,
                    line_count: None,
                    note: None,
                    archive_origin: None,
                }],
                active_id: active_id.to_string(),
                updated_at: "".to_string(),
            },
        }],
        index: vec![IndexEntry {
            session_id: "source-session".to_string(),
            family_id: "f".to_string(),
        }],
    }
}

fn good_stem() -> Option<String> {
    Some("rollout-2026-04-22T00-00-00-019a1b2c-3d4e-7f50-8a6b-7c8d9e0f1a2b".to_string())
}

fn fork_target() -> ForkTarget {
    ForkTarget {
        same_rollout: Ok(true),
        state_db: Ok(()),
        new_stem: good_stem(),
        destination: "/codex/archived_sessions/rollout-x.jsonl".to_string(),
        occupied: false,
    }
}

#[test]
fn forks_put_the_source_away_and_add_a_branch() {
    let moved = done(fork_session_at_event_with_lock(
        &fork_store("source-session"),
        "f",
        "source-session",
        "/codex/sessions/rollout-x.jsonl",
        &fork_target(),
    ));
    assert_eq!(moved.branch_id, "source-session");
    assert_eq!(moved.to, "/codex/archived_sessions/rollout-x.jsonl");
    let first = fork_first_steps("new", "/new", &moved, "f");
    assert!(matches!(&first[0], Step::WriteRollout { path } if path == "/new"));
    assert!(matches!(&first[5], Step::MoveFile { from, to }
        if from == "/codex/sessions/rollout-x.jsonl" && to == "/codex/archived_sessions/rollout-x.jsonl"));
    assert!(matches!(&first[8], Step::RecordLedger { origin, .. } if *origin == ArchiveOrigin::Fork));
    let session = NewSession {
        id: "new".to_string(),
        path: "/new".to_string(),
        relpath: "sessions/new".to_string(),
        provider: "openai".to_string(),
        made_of: "source-session".to_string(),
        created_at: "2026-07-10T00:00:00Z".to_string(),
    };
    let rest = done(fork_later_steps(
        &session,
        "f",
        2,
        "source message",
        &brief(&conversation("new")),
        "/project",
    ));
    assert_eq!(rest.len(), 4);
    match &rest[0] {
        Step::AppendBranch { branch, .. } => {
            assert_eq!(branch.id, "new");
            assert!(branch.status == BranchStatus::Active);
            assert_eq!(
                branch.note.as_deref(),
                Some("forked_from:source-session@line:2")
            );
        }
        _ => panic!("no branch"),
    }
    assert!(matches!(&rest[1], Step::AppendIndexLine { thread_name, .. } if thread_name == "First request"));
    assert!(matches!(&rest[2], Step::SaveStore));
    assert!(matches!(&rest[3], Step::AssignProject { thread_id, cwd, missing_only }
        if thread_id == "new" && cwd == "/project" && !*missing_only));
    assert_eq!(
        refusal(fork_later_steps(&session, "f", 2, "", &None, "")),
        "新分支 rollout 缺少有效 session_meta.id: /new"
    );
}

#[test]
fn forks_are_refused_with_a_reason() {
    let store = fork_store("source-session");
    let ask = |store: &FamilyStore, family: &str, target: &ForkTarget| {
        refusal(fork_session_at_event_with_lock(
            store,
            family,
            "source-session",
            "/s",
            target,
        ))
    };
    assert_eq!(ask(&store, "g", &fork_target()), "family not found: g");
    assert_eq!(
        ask(&fork_store("other"), "f", &fork_target()),
        "只能从当前 active 分支创建回溯分支；当前 active=other，请求源=source-session"
    );
    let mut target = fork_target();
    target.same_rollout = Ok(false);
    assert_eq!(
        ask(&store, "f", &target),
        "请求的 rollout 不是当前 active 分支文件：/s"
    );
    let mut target = fork_target();
    target.occupied = true;
    assert_eq!(
        ask(&store, "f", &target),
        "源分支归档目标已存在，拒绝覆盖: /codex/archived_sessions/rollout-x.jsonl"
    );
    let mut target = fork_target();
    target.new_stem = None;
    assert_eq!(ask(&store, "f", &target), "rollout 路径缺少文件名");
}

fn fork_source() -> ForkSource {
    ForkSource {
        desktop: Ok(()),
        host_path: "/h".to_string(),
        reached: Ok("/s".to_string()),
        sessions_path: "/codex/sessions".to_string(),
        sessions: Ok(()),
        in_sessions: true,
        brief: Ok(brief(&conversation("a"))),
    }
}

#[test]
fn fork_sources_are_checked_in_order() {
    let source = fork_source();
    let (path, found) = done(resolve_fork_source_rollout("a", &source));
    assert_eq!(path, "/s");
    assert_eq!(found.id, "a");
    let ask = |source: &ForkSource| match resolve_fork_source_rollout("a", source) {
        Ok(_) => panic!("not refused"),
        Err(error) => error,
    };
    let mut source = fork_source();
    source.reached = Err("gone".to_string());
    assert!(matches!(ask(&source), AppError::NotFound(text) if text == "源 rollout 不存在或无法访问: /h (gone)"));
    let mut source = fork_source();
    source.sessions = Err("gone".to_string());
    assert!(matches!(ask(&source), AppError::InvalidCodexDir(text) if text == "Codex sessions 目录不存在或无法访问: /codex/sessions (gone)"));
    let mut source = fork_source();
    source.in_sessions = false;
    assert!(matches!(ask(&source), AppError::Other(text) if text == "只能从 active sessions/ 下的 rollout 创建回溯分支: /s"));
    let mut source = fork_source();
    source.brief = Ok(brief(&conversation("b")));
    assert!(matches!(ask(&source), AppError::Other(text) if text == "源 rollout id 与会话不一致：期望 a，实际 b"));
    let mut source = fork_source();
    source.desktop = Err(AppError::Other("running".to_string()));
    assert!(matches!(ask(&source), AppError::Other(text) if text == "running"));
}

fn duplicate_facts(lines: &[String]) -> DuplicateFacts {
    DuplicateFacts {
        host_path: "/h".to_string(),
        reached: Ok("/s".to_string()),
        place: Ok(()),
        brief: Ok(brief(lines)),
        desktop: Ok(()),
        new_stem: good_stem(),
        state_db: Ok(()),
    }
}

#[test]
fn duplicates_are_made_by_copy_or_by_codex() {
    let facts = duplicate_facts(&conversation("a"));
    assert!(matches!(duplicate_session_with_lock("a", &facts), Ok(DuplicateWay::CopyRollout)));
    let mut paged = duplicate_facts(&[meta("a", "openai", ",\"history_mode\":\"paginated\"")]);
    paged.desktop = Err(AppError::Other("running".to_string()));
    assert!(matches!(duplicate_session_with_lock("a", &paged), Ok(DuplicateWay::ForkOfficially)));
    let mut blocked = duplicate_facts(&conversation("a"));
    blocked.desktop = Err(AppError::Other("running".to_string()));
    assert_eq!(refusal(duplicate_session_with_lock("a", &blocked)), "running");
    assert_eq!(
        refusal(duplicate_session_with_lock("b", &facts)),
        "源 rollout id 与会话不一致：期望 b，实际 a"
    );
    let nothing = duplicate_facts(&[]);
    assert_eq!(
        refusal(duplicate_session_with_lock("a", &nothing)),
        "无法读取源 rollout 元数据: /s"
    );
}

#[test]
fn duplicates_are_listed_under_their_first_message() {
    let first = duplicate_first_steps("a", "b", "/new");
    assert_eq!(first.len(), 4);
    assert!(matches!(&first[3], Step::CopyProvenance { from_id, to_id } if from_id == "a" && to_id == "b"));
    let rest = done(duplicate_later_steps(
        "b",
        "source message",
        &brief(&conversation("b")),
        "/project",
    ));
    assert!(matches!(&rest[0], Step::AppendIndexLine { thread_name, .. } if thread_name == "First request"));
    let silent = done(duplicate_later_steps(
        "b",
        "source message",
        &brief(&[meta("b", "openai", "")]),
        "/project",
    ));
    assert!(matches!(&silent[0], Step::AppendIndexLine { thread_name, .. } if thread_name == "source message"));
    assert_eq!(
        refusal(duplicate_later_steps("b", "", &None, "")),
        "新 rollout 缺少有效 session_meta.id"
    );
    let forked = match brief(&conversation("b")) {
        Some(brief) => forked_later_steps(
            "b",
            &None,
            &Some("named".to_string()),
            &brief,
            "/project",
            true,
        ),
        None => panic!("no brief"),
    };
    assert_eq!(forked.len(), 1);
    assert!(matches!(&forked[0], Step::AppendIndexLine { thread_name, .. } if thread_name == "named"));
    let report = report_duplicate("a", "b", "/new", 3, 40, true);
    assert_eq!(report.total_lines, 43);
    assert!(report.desktop_restart_required);
}

#[test]
fn session_ids_are_version_seven_and_readable() {
    let id = new_session_id(0x019a_1b2c_3d4e, 123_456_789, 4242);
    assert_eq!(id.len(), 36);
    assert!(id.starts_with("019a1b2c-3d4e-7"), "{id}");
    let later = new_session_id(0x019a_1b2c_3d4f, 0, 1);
    assert!(id < later);
    let parts = match build_clone_path(&id, 1_776_816_005) {
        Some(parts) => parts,
        None => panic!("no path"),
    };
    assert_eq!(
        parts,
        vec![
            "sessions".to_string(),
            "2026".to_string(),
            "04".to_string(),
            "22".to_string(),
            format!("rollout-2026-04-22T00-00-05-{id}.jsonl"),
        ]
    );
    let stem = format!("rollout-2026-04-22T00-00-05-{id}");
    done(validate_rollout_filename(Some(&stem)));
}

#[test]
fn unreadable_file_names_are_refused() {
    assert_eq!(refusal(validate_rollout_filename(None)), "rollout 路径缺少文件名");
    assert_eq!(
        refusal(validate_rollout_filename(Some("notes"))),
        "rollout 文件名缺少前缀: notes"
    );
    assert_eq!(
        refusal(validate_rollout_filename(Some("rollout-short"))),
        "rollout 文件名过短无法解析: rollout-short"
    );
    let bad = "rollout-2026-04-22T00-00-05-019a1b2c-3d4e-7f50-8a6b-7c8d9e0f1a2g";
    assert_eq!(
        refusal(validate_rollout_filename(Some(bad))),
        format!("rollout 文件名 UUID 段含非法字符: {bad}")
    );
    let regrouped = "rollout-2024-10-01T12-34-56-0123456-89ab-cdef-0123-456789abcdef0";
    assert_eq!(
        refusal(validate_rollout_filename(Some(regrouped))),
        format!("rollout 文件名 UUID 段不合法: {regrouped}")
    );
    let unstamped = "rollout-2024-1o-01T12-34-56-019a1b2c-3d4e-7f50-8a6b-7c8d9e0f1a2b";
    assert_eq!(
        refusal(validate_rollout_filename(Some(unstamped))),
        format!("rollout 文件名时间戳段不符合 codex 解析规则: {unstamped}")
    );
    let unparted = "rollout-2024-10-01T12-34-56_019a1b2c-3d4e-7f50-8a6b-7c8d9e0f1a2b";
    assert_eq!(
        refusal(validate_rollout_filename(Some(unparted))),
        format!("rollout 文件名 UUID 段格式异常: {unparted}")
    );
}

#[test]
fn changed_files_stop_an_operation() {
    done(require_unchanged_snapshot(Ok(true), "旧 active rollout ", "/p"));
    assert_eq!(
        refusal(require_unchanged_snapshot(Ok(false), "旧 active rollout ", "/p")),
        "旧 active rollout 在操作期间发生变化，已取消提交: /p"
    );
    assert_eq!(
        refusal(require_unchanged_source(Ok(false), "/p")),
        "源 rollout 在复制期间发生变化，已取消新会话创建: /p"
    );
    assert!(!new_rollout_has_to_go(&Ok(true)));
    assert!(new_rollout_has_to_go(&Ok(false)));
    let lost = Err(AppError::Outside("lost".to_string()));
    assert!(new_rollout_has_to_go(&lost));
    assert_eq!(
        explain_removal(&lost, &Ok(()), "/p", "/n").message(),
        "源 rollout 在复制提交时发生变化，已移除未登记会话: lost: /p"
    );
    assert_eq!(
        explain_removal(
            &Ok(false),
            &Err(AppError::Outside("busy".to_string())),
            "/p",
            "/n"
        )
        .message(),
        "源 rollout 在复制提交时发生变化，且未登记会话清理失败 /n: busy"
    );
}

#[test]
fn only_plain_files_are_rewritten() {
    assert!(done(rewrite_replaces_file(EntryKind::File, "/p")));
    assert!(!done(rewrite_replaces_file(EntryKind::Missing, "/p")));
    assert!(matches!(
        rewrite_replaces_file(EntryKind::Other, "/p"),
        Err(AppError::Path(text)) if text == "待重写路径不是普通文件或属于链接/junction: /p"
    ));
}

#[test]
fn blank_directories_are_assigned_to_no_project() {
    assert!(project_assignment_record("a", &Some("  ".to_string()), "x").is_none());
    assert!(project_assignment_record("a", &None, "x").is_none());
    let assignment = match project_assignment_record("a", &Some("F:\\p".to_string()), "/mnt/p") {
        Some(assignment) => assignment,
        None => panic!("not assigned"),
    };
    assert_eq!(assignment.thread_id, "a");
    assert_eq!(assignment.cwd, "/mnt/p");
    let unused = ArchiveMove {
        branch_id: "a".to_string(),
        from: "x".to_string(),
        to: "y".to_string(),
    };
    assert_eq!(fork_first_steps("n", "/n", &unused, "f").len(), 9);
}

fn states(lines: &Vec<String>, id: &str, provider: &str) -> bool {
    let readings = lines.iter().map(|line| Ok(line.clone())).collect();
    match read_rollout_identity(&readings) {
        Ok(Some(identity)) => identity.id == id && identity.model_provider == provider,
        _ => false,
    }
}

#[test]
fn copies_state_their_own_session() {
    let source = conversation("source");
    let cloned = done(write_cloned_rollout(
        &source,
        &copy_of("source", "target", "custom"),
        "p",
    ));
    assert!(states(&cloned, "target", "custom"));
    let duplicated = done(write_duplicated_rollout(
        &source,
        &copy_of("source", "target", "custom"),
        "2026-07-10T00:00:01Z",
        "p",
    ));
    assert!(states(&duplicated, "target", "custom"));
    let prefix = done(collect_stable_prefix(&source, 2));
    let forked = done(write_forked_rollout_prefix(
        &prefix,
        "target",
        "custom",
        "2026-07-10T00:00:00Z",
    ));
    assert!(states(&forked, "target", "custom"));
    let followed = done(rewrite_provider_inplace(&source, "custom", "p"));
    assert!(states(&followed, "source", "custom"));
}

#[test]
fn copies_are_level_with_their_source() {
    let source = conversation("source");
    let cloned = done(write_cloned_rollout(
        &source,
        &copy_of("source", "target", "custom"),
        "p",
    ));
    assert_eq!(
        compare_rollout_lines(&source, &cloned),
        ("same".to_string(), 0, 0)
    );
    let duplicated = done(write_duplicated_rollout(
        &source,
        &copy_of("source", "target", "custom"),
        "2026-07-10T00:00:01Z",
        "p",
    ));
    assert_eq!(
        compare_rollout_lines(&source, &duplicated),
        ("branch_ahead".to_string(), 2, 0)
    );
    let prefix = done(collect_stable_prefix(&source, 2));
    let forked = done(write_forked_rollout_prefix(
        &prefix,
        "target",
        "custom",
        "2026-07-10T00:00:00Z",
    ));
    assert_eq!(
        compare_rollout_lines(&source, &forked),
        ("active_ahead".to_string(), 0, 2)
    );
}

#[test]
fn repeated_metadata_sets_a_copy_apart() {
    let mut source = conversation("source");
    source.push(meta("source", "openai", ""));
    let cloned = done(write_cloned_rollout(
        &source,
        &copy_of("source", "target", "custom"),
        "p",
    ));
    assert_eq!(
        compare_rollout_lines(&source, &cloned),
        ("diverged".to_string(), 0, 0)
    );
}

#[test]
fn records_of_metadata_get_another_provider() {
    let record = |text: &str| match parse(text) {
        Some(record) => record,
        None => panic!("not read"),
    };
    let changed = match reprovide_record(record(&meta("a", "openai", "")), "custom") {
        Some(changed) => changed,
        None => panic!("not changed"),
    };
    assert!(changed
        .get("payload")
        .is_some_and(|payload| payload.has_str("model_provider", "custom")
            && payload.has_str("id", "a")));
    assert!(reprovide_record(record("{\"type\":\"event_msg\"}"), "custom").is_none());
    let bare = match reprovide_record(record("{\"type\":\"session_meta\",\"payload\":1}"), "x") {
        Some(bare) => bare,
        None => panic!("not changed"),
    };
    assert!(bare.get("payload").is_some_and(|payload| payload.as_u64() == Some(1)));
}
