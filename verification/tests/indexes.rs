use session_repair::error::AppError;
use session_repair::json::{parse, Json};
use session_repair::rebuild::{
    rebuild_threads_table, repair_session_index, IndexSource, Present, ThreadReading, ThreadSource,
};
use session_repair::rollout::{read_rollout_brief, RolloutBrief, RolloutLine};
use session_repair::session_index::{
    append_index_line, index_line_names, listed_ids, read_session_index_ids, remove_index_line,
};
use session_repair::threads::{
    bind_thread_value, carry_thread_title_sql, display_name_sql, effective_threads_cols,
    ensure_state_db_exists, require_synced, require_thread_row, thread_display_name,
    thread_values_from_rollout, threads_upsert_sql, RowSource, SqlValue,
};

fn done<T>(outcome: Result<T, AppError>) -> T {
    match outcome {
        Ok(value) => value,
        Err(error) => panic!("{}", error.message()),
    }
}

fn refusal<T>(outcome: Result<T, AppError>) -> String {
    match outcome {
        Ok(_) => panic!("not refused"),
        Err(error) => error.message().clone(),
    }
}

fn reading(text: &str) -> Json {
    match parse(text) {
        Some(value) => value,
        None => panic!("not read: {text}"),
    }
}

fn owned(items: &[&str]) -> Vec<String> {
    items.iter().map(|item| item.to_string()).collect()
}

fn brief(id: &str, extra: &str, tokens: Option<i64>) -> RolloutBrief {
    let lines = vec![
        RolloutLine {
            text: format!("{{\"timestamp\":\"2026-04-23T00:00:00Z\",\"type\":\"session_meta\",\"payload\":{{\"id\":\"{id}\",\"model_provider\":\"openai\",\"cwd\":\"/p\",\"source\":\"cli\"{extra}}}}}"),
            token_total: None,
        },
        RolloutLine {
            text: "{\"timestamp\":\"2026-04-23T00:00:01Z\",\"type\":\"event_msg\",\"payload\":{\"type\":\"user_message\",\"message\":\"First request\"}}".to_string(),
            token_total: tokens,
        },
    ];
    let path = format!("/codex/sessions/rollout-{id}.jsonl");
    match read_rollout_brief(&lines, &path, "sessions/x", Some("/p".to_string())) {
        Some(brief) => brief,
        None => panic!("no brief"),
    }
}

// ---------------------------------------------------------------------------
// The session index
// ---------------------------------------------------------------------------

#[test]
fn index_lines_are_replaced_and_removed() {
    let lines = owned(&[
        "{\"id\":\"a\",\"thread_name\":\"old\"}",
        "not json",
        "{\"id\":\"b\"}",
    ]);
    let next = append_index_line(&lines, "a", "new \"name\"", "2026-07-10T00:00:00Z");
    assert_eq!(next.len(), 3);
    assert_eq!(next[1], "not json");
    let entry: serde_json::Value = match serde_json::from_str(&next[0]) {
        Ok(entry) => entry,
        Err(error) => panic!("{error}"),
    };
    assert_eq!(entry["id"], "a");
    assert_eq!(entry["thread_name"], "new \"name\"");
    assert_eq!(entry["updated_at"], "2026-07-10T00:00:00Z");
    assert!(index_line_names(&next[0], "a"));
    assert!(!index_line_names(&next[0], "b"));
    assert_eq!(listed_ids(&next), owned(&["a", "b"]));
    let more = append_index_line(&next, "c", "third", "2026-07-10T00:00:00Z");
    assert_eq!(more.len(), 4);
    assert!(index_line_names(&more[3], "c"));
    let removed = match remove_index_line(&next, "a") {
        Some(lines) => lines,
        None => panic!("not removed"),
    };
    assert_eq!(removed, owned(&["not json", "{\"id\":\"b\"}"]));
    assert!(remove_index_line(&removed, "a").is_none());
}

#[test]
fn every_entry_of_the_index_needs_an_id() {
    let good = owned(&["{\"id\":\"b\"}", "", "{\"id\":\"a\"}"]);
    assert_eq!(done(read_session_index_ids(&good)), owned(&["a", "b"]));
    refusal(read_session_index_ids(&owned(&["{\"name\":\"b\"}"])));
    refusal(read_session_index_ids(&owned(&["broken"])));
}

fn index_source(id: &str, name: &str, modified_ms: i64) -> IndexSource {
    IndexSource {
        path: format!("/codex/sessions/{name}"),
        file_name: Some(name.to_string()),
        stem: name.strip_suffix(".jsonl").map(|stem| stem.to_string()),
        modified_ms,
        reading: Ok(Some(brief(id, "", None))),
    }
}

#[test]
fn repaired_indexes_prefer_continuations() {
    let sources = vec![
        index_source("a", "rollout-2026-04-23T00-00-00-a_child.jsonl", 1),
        index_source("a", "rollout-2026-04-23T00-00-00-a.jsonl", 2),
        IndexSource {
            path: "/codex/sessions/broken".to_string(),
            file_name: Some("rollout-2026-04-23T00-00-00-abcdefgh1.jsonl".to_string()),
            stem: Some("rollout-2026-04-23T00-00-00-abcdefgh1".to_string()),
            modified_ms: 1_776_816_000_000,
            reading: Ok(None),
        },
        IndexSource {
            path: "/codex/sessions/denied".to_string(),
            file_name: None,
            stem: None,
            modified_ms: 0,
            reading: Err(AppError::Outside("denied".to_string())),
        },
    ];
    let repair = repair_session_index(&sources, false);
    assert_eq!(repair.report.scanned, 4);
    assert_eq!(repair.report.written, 1);
    assert_eq!(repair.report.salvaged, 1);
    assert_eq!(repair.report.errors.len(), 1);
    let lines = match repair.lines {
        Some(lines) => lines,
        None => panic!("nothing written"),
    };
    assert_eq!(lines.len(), 2);
    assert_eq!(listed_ids(&lines), owned(&["a", "abcdefgh1"]));
    assert!(lines[0].contains("First request"), "{}", lines[0]);
    assert!(lines[1].contains("abcdefgh1"), "{}", lines[1]);
    let dry = repair_session_index(&sources, true);
    assert!(dry.lines.is_none());
    assert_eq!(dry.report.written, 1);
}

// ---------------------------------------------------------------------------
// The threads table
// ---------------------------------------------------------------------------

const REQUIRED: [&str; 27] = [
    "id",
    "rollout_path",
    "created_at",
    "updated_at",
    "source",
    "model_provider",
    "cwd",
    "title",
    "sandbox_policy",
    "approval_mode",
    "tokens_used",
    "has_user_event",
    "archived",
    "archived_at",
    "git_sha",
    "git_branch",
    "git_origin_url",
    "cli_version",
    "first_user_message",
    "agent_nickname",
    "agent_role",
    "memory_mode",
    "model",
    "reasoning_effort",
    "agent_path",
    "created_at_ms",
    "updated_at_ms",
];

fn row(columns: &Vec<String>, brief: &RolloutBrief, payload: &Json) -> Vec<SqlValue> {
    thread_values_from_rollout(
        columns,
        &RowSource {
            brief,
            payload,
            archived: false,
            modified_at: None,
            now_s: 1,
            now_ms: 1000,
        },
    )
}

fn column<'a>(columns: &[String], row: &'a [SqlValue], name: &str) -> &'a SqlValue {
    match columns.iter().position(|column| column == name) {
        Some(at) => &row[at],
        None => panic!("no column {name}"),
    }
}

fn is_text(value: &SqlValue, expected: &str) -> bool {
    matches!(value, SqlValue::Text(text) if text == expected)
}

#[test]
fn rows_hold_what_the_rollout_says() {
    let mut names = owned(&REQUIRED);
    for optional in [
        "preview",
        "thread_source",
        "recency_at",
        "recency_at_ms",
        "history_mode",
        "name",
    ] {
        names.push(optional.to_string());
    }
    let columns = done(effective_threads_cols(&names));
    let payload = reading("{\"id\":\"git-session\",\"model_provider\":\"openai\",\"cwd\":\"/p\",\"source\":\"cli\",\"git\":{\"commit_hash\":\"0123456789abcdef\",\"branch\":\"feature/nested-git\",\"repository_url\":\"https://example.invalid/repo.git\"}}");
    let brief = brief("git-session", "", Some(2_468_000));
    let row = row(&columns, &brief, &payload);
    assert_eq!(row.len(), columns.len());
    assert!(is_text(column(&columns, &row, "id"), "git-session"));
    assert!(matches!(
        column(&columns, &row, "tokens_used"),
        SqlValue::Integer(2_468_000)
    ));
    assert!(is_text(column(&columns, &row, "git_sha"), "0123456789abcdef"));
    assert!(is_text(column(&columns, &row, "git_branch"), "feature/nested-git"));
    assert!(is_text(
        column(&columns, &row, "git_origin_url"),
        "https://example.invalid/repo.git"
    ));
    assert!(is_text(column(&columns, &row, "preview"), "First request"));
    assert!(is_text(column(&columns, &row, "thread_source"), "user"));
    assert!(is_text(column(&columns, &row, "history_mode"), "legacy"));
    assert!(is_text(column(&columns, &row, "title"), "First request"));
}

#[test]
fn rows_of_subagents_say_so() {
    let mut names = owned(&REQUIRED);
    names.push("thread_source".to_string());
    let columns = done(effective_threads_cols(&names));
    let payload = reading("{\"id\":\"s\",\"source\":{\"subagent\":{\"other\":\"guardian\"}}}");
    let row = row(&columns, &brief("s", "", None), &payload);
    assert!(is_text(column(&columns, &row, "thread_source"), "subagent"));
}

#[test]
fn old_tables_get_only_the_columns_they_have() {
    let columns = done(effective_threads_cols(&owned(&REQUIRED)));
    assert!(!columns.iter().any(|column| column == "preview"));
    let sql = threads_upsert_sql(&columns);
    assert!(sql.contains("INSERT INTO threads"), "{sql}");
    assert!(sql.contains("ON CONFLICT"), "{sql}");
    assert!(!sql.contains("preview"), "{sql}");
}

#[test]
fn values_are_bound_by_their_type() {
    assert!(matches!(bind_thread_value(&Json::Null), SqlValue::Null));
    assert!(matches!(bind_thread_value(&Json::Bool(true)), SqlValue::Integer(1)));
    assert!(matches!(bind_thread_value(&reading("-7")), SqlValue::Integer(-7)));
    assert!(matches!(bind_thread_value(&reading("7")), SqlValue::Integer(7)));
    assert!(is_text(&bind_thread_value(&reading("\"x\"")), "x"));
    assert!(is_text(&bind_thread_value(&reading("[1, 2]")), "[1,2]"));
}

#[test]
fn titles_are_carried_with_the_columns_there_are() {
    assert!(carry_thread_title_sql(&owned(&["id", "title", "name"])).contains("name = CASE"));
    assert!(!carry_thread_title_sql(&owned(&["id", "title"])).contains("name"));
    assert!(display_name_sql(&owned(&["id", "title", "name"])).contains("name"));
    assert!(!display_name_sql(&owned(&["id", "title"])).contains("name"));
    assert_eq!(
        thread_display_name(Some("named".to_string())).as_deref(),
        Some("named")
    );
    assert_eq!(thread_display_name(Some("".to_string())), None);
    assert_eq!(thread_display_name(None), None);
}

#[test]
fn missing_rows_and_databases_are_refused() {
    done(require_thread_row(1, "a"));
    assert_eq!(refusal(require_thread_row(0, "a")), "threads 中未找到 id: a");
    done(require_synced(true, "/p"));
    assert_eq!(
        refusal(require_synced(false, "/p")),
        "rollout 缺少有效 session_meta.id，无法同步 threads: /p"
    );
    done(ensure_state_db_exists(true, "/db"));
    assert!(refusal(ensure_state_db_exists(false, "/db")).contains("/db"));
}

fn thread_source(id: &str, name: &str, archived: bool) -> ThreadSource {
    ThreadSource {
        path: format!("/codex/sessions/{name}"),
        file_name: Some(name.to_string()),
        archived,
        modified_at: Some(5),
        reading: Ok(Some(ThreadReading {
            brief: brief(id, "", None),
            meta: reading("{\"source\":\"cli\"}"),
        })),
    }
}

#[test]
fn rebuilt_tables_prefer_continuations() {
    let sources = vec![
        thread_source("a", "rollout-2026-04-23T00-00-00-a_child.jsonl", false),
        thread_source("a", "rollout-2026-04-23T00-00-00-a.jsonl", false),
        ThreadSource {
            path: "/codex/sessions/empty".to_string(),
            file_name: None,
            archived: false,
            modified_at: None,
            reading: Ok(None),
        },
        ThreadSource {
            path: "/codex/sessions/denied".to_string(),
            file_name: None,
            archived: false,
            modified_at: None,
            reading: Err(AppError::Outside("denied".to_string())),
        },
    ];
    let present = || Present { s: 1, ms: 1000 };
    let rebuild = done(rebuild_threads_table(
        ("/db", true),
        &owned(&REQUIRED),
        &sources,
        present(),
        false,
    ));
    assert_eq!(rebuild.report.scanned, 4);
    assert_eq!(rebuild.report.upserted, 1);
    assert_eq!(rebuild.report.skipped, 2);
    assert_eq!(rebuild.report.errors.len(), 1);
    assert_eq!(rebuild.rows.len(), 1);
    assert!(is_text(column(&rebuild.columns, &rebuild.rows[0], "id"), "a"));
    let dry = done(rebuild_threads_table(
        ("/db", true),
        &owned(&REQUIRED),
        &sources,
        present(),
        true,
    ));
    assert!(dry.rows.is_empty());
    assert_eq!(dry.report.upserted, 1);
    refusal(rebuild_threads_table(
        ("/db", false),
        &owned(&REQUIRED),
        &sources,
        present(),
        false,
    ));
}
