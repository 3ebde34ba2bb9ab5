use session_repair::claude_history::{
    diagnose_claude_history_orphans, prune_claude_history_orphans, HistoryLine,
};
use session_repair::error::AppError;
use session_repair::gui_title::{
    gui_head_title, gui_last_string_field, gui_read_windows, gui_visible_title,
};
use session_repair::gui_visibility::{
    append_custom_title, append_proposed_title, diagnose_claude_gui_visibility, is_session_uuid,
    repair_claude_gui_visibility, titles_to_write, GuiFile, SessionSummary, Windows,
};

fn history(text: &str, session_id: Option<&str>) -> HistoryLine {
    HistoryLine {
        text: text.to_string(),
        session_id: session_id.map(|id| id.to_string()),
    }
}

#[test]
fn history_rows_of_missing_sessions_are_reported_and_pruned() {
    let lines = vec![
        history("{\"sessionId\":\"live-session\",\"display\":\"keep\"}", Some("live-session")),
        history("{\"sessionId\":\"deleted-session\",\"display\":\"remove\"}", Some("deleted-session")),
        history("{\"session_id\":\"deleted-session-2\",\"display\":\"remove too\"}", Some("deleted-session-2")),
        history("not-json", None),
        history("{\"display\":\"no session id\"}", None),
    ];
    let sessions = vec!["live-session".to_string()];
    let orphans = vec![
        "deleted-session".to_string(),
        "deleted-session-2".to_string(),
    ];

    let report = diagnose_claude_history_orphans("assistant", "/history.jsonl", &lines, &sessions);
    assert_eq!(report.provider, "assistant");
    assert_eq!(report.session_count, 1);
    assert_eq!(report.history_rows, 5);
    assert_eq!(report.linked_rows, 1);
    assert_eq!(report.orphan_rows, 2);
    assert_eq!(report.untracked_rows, 2);
    assert_eq!(report.orphan_session_ids, orphans);

    let preview =
        prune_claude_history_orphans("assistant", "/history.jsonl", &lines, &sessions, true);
    assert_eq!(preview.report.removed_rows, 2);
    assert!(preview.kept_lines.is_none());

    let result =
        prune_claude_history_orphans("assistant", "/history.jsonl", &lines, &sessions, false);
    assert_eq!(result.report.removed_rows, 2);
    let kept = match result.kept_lines {
        Some(kept) => kept.join("\n"),
        None => panic!("nothing written"),
    };
    assert!(kept.contains("live-session"));
    assert!(!kept.contains("deleted-session"));
    assert!(kept.contains("not-json"));
    assert!(kept.contains("no session id"));
    assert_eq!(result.report.removed_rows, report.orphan_rows);
    assert_eq!(result.report.orphan_session_ids, report.orphan_session_ids);
    let left: Vec<HistoryLine> = lines
        .into_iter()
        .filter(|line| kept.contains(&line.text))
        .collect();
    let after = diagnose_claude_history_orphans("assistant", "/history.jsonl", &left, &sessions);
    assert_eq!(after.orphan_rows, 0);
    assert_eq!(after.linked_rows, report.linked_rows);
    assert_eq!(after.untracked_rows, report.untracked_rows);
}

const GUI_TEST_ID_VISIBLE: &str = "11111111-2222-4333-8444-555555555555";
const GUI_TEST_ID_HIDDEN: &str = "aaaaaaaa-bbbb-4ccc-8ddd-eeeeeeeeeeee";
const GUI_TEST_ID_SIDECHAIN: &str = "99999999-8888-4777-8666-555555555555";

fn windows_of(content: &str) -> Option<Windows> {
    let windows = gui_read_windows(content.len() as u64)?;
    let bytes = content.as_bytes();
    Some(Windows {
        head: String::from_utf8_lossy(&bytes[..windows.head_len as usize]).into_owned(),
        tail: String::from_utf8_lossy(&bytes[windows.tail_start as usize..]).into_owned(),
    })
}

fn gui_file(id: &str, content: &str) -> GuiFile {
    GuiFile {
        project_dir: "gui-project".to_string(),
        file_name: format!("{id}.jsonl"),
        path: format!("/projects/gui-project/{id}.jsonl"),
        windows: windows_of(content),
    }
}

fn user_line(id: &str, extra: &str, content: &str) -> String {
    format!("{{\"sessionId\":\"{id}\",{extra}\"timestamp\":\"2026-04-22T00:01:00Z\",\"type\":\"user\",\"message\":{{\"role\":\"user\",\"content\":\"{content}\"}}}}\n")
}

#[test]
fn sessions_out_of_sight_are_diagnosed_and_repaired() {
    let hidden = user_line(GUI_TEST_ID_HIDDEN, "\"isMeta\":true,", &"x".repeat(80_000))
        + &user_line(GUI_TEST_ID_HIDDEN, "", "帮我修复 GUI 列表");
    // 用户消息行之后的大段内容把它挤出尾部窗口。
    let hidden = hidden + &user_line(GUI_TEST_ID_HIDDEN, "\"isMeta\":true,", &"y".repeat(80_000));
    let files = vec![
        gui_file(GUI_TEST_ID_VISIBLE, &user_line(GUI_TEST_ID_VISIBLE, "", "hello")),
        gui_file(GUI_TEST_ID_HIDDEN, &hidden),
        gui_file(
            GUI_TEST_ID_SIDECHAIN,
            &user_line(GUI_TEST_ID_SIDECHAIN, "\"isSidechain\":true,", "subagent"),
        ),
        gui_file("notes", "{}"),
    ];
    let summaries = vec![SessionSummary {
        rollout_path: format!("/projects/gui-project/{GUI_TEST_ID_HIDDEN}.jsonl"),
        id: GUI_TEST_ID_HIDDEN.to_string(),
        title: "帮我修复 GUI 列表".to_string(),
        cwd: "F:\\project\\example".to_string(),
        cwd_display: "F:\\project\\example".to_string(),
        first_user_message: "帮我修复 GUI 列表".to_string(),
        updated_at: 1,
        rollout_bytes: hidden.len() as u64,
    }];
    let report = diagnose_claude_gui_visibility("assistant", "/projects", &files, &summaries);
    assert_eq!(report.scanned_sessions, 3);
    assert_eq!(report.visible_sessions, 1);
    assert_eq!(report.sidechain_sessions, 1);
    assert_eq!(report.issues.len(), 1);
    assert_eq!(report.issues[0].session_id, GUI_TEST_ID_HIDDEN);
    assert_eq!(report.issues[0].proposed_title, "帮我修复 GUI 列表");

    let preview = repair_claude_gui_visibility("assistant", &report.issues, &None, &vec![], true);
    assert_eq!(preview.fixed, 1);
    assert!(preview.dry_run);

    let appended = match append_custom_title(
        "Assistant",
        "/p",
        true,
        hidden.bytes().last(),
        GUI_TEST_ID_HIDDEN,
        "帮我修复 GUI 列表",
    ) {
        Ok(text) => text,
        Err(error) => panic!("{}", error.message()),
    };
    let record: serde_json::Value = match serde_json::from_str(appended.trim()) {
        Ok(record) => record,
        Err(error) => panic!("{error}"),
    };
    assert_eq!(record["type"], "custom-title");
    assert_eq!(record["customTitle"], "帮我修复 GUI 列表");
    assert_eq!(record["sessionId"], GUI_TEST_ID_HIDDEN);

    let result =
        repair_claude_gui_visibility("assistant", &report.issues, &None, &vec![Ok(())], false);
    assert_eq!(result.fixed, 1);
    assert!(result.errors.is_empty());
    let files = vec![
        gui_file(GUI_TEST_ID_VISIBLE, &user_line(GUI_TEST_ID_VISIBLE, "", "hello")),
        gui_file(GUI_TEST_ID_HIDDEN, &(hidden + &appended)),
    ];
    let after = diagnose_claude_gui_visibility("assistant", "/projects", &files, &summaries);
    assert_eq!(after.issues.len(), 0);
    assert_eq!(after.visible_sessions, 2);
}

#[test]
fn titles_are_written_only_where_asked() {
    let files = vec![gui_file(GUI_TEST_ID_HIDDEN, "{\"type\":\"x\"}\n")];
    let summaries = vec![SessionSummary {
        rollout_path: format!("/projects/gui-project/{GUI_TEST_ID_HIDDEN}.jsonl"),
        id: GUI_TEST_ID_HIDDEN.to_string(),
        title: "title".to_string(),
        cwd: "/p".to_string(),
        cwd_display: "/p".to_string(),
        first_user_message: "title".to_string(),
        updated_at: 1,
        rollout_bytes: 1,
    }];
    let report = diagnose_claude_gui_visibility("assistant", "/projects", &files, &summaries);
    assert_eq!(report.issues.len(), 1);
    let nobody = Some(vec!["other".to_string()]);
    let this_one = Some(vec![GUI_TEST_ID_HIDDEN.to_string()]);
    assert_eq!(titles_to_write(&report.issues, &nobody, false), vec![false]);
    assert_eq!(titles_to_write(&report.issues, &this_one, false), vec![true]);
    assert_eq!(titles_to_write(&report.issues, &None, false), vec![true]);
    assert_eq!(titles_to_write(&report.issues, &None, true), vec![false]);
    match append_proposed_title("Assistant", &report.issues[0], true, Some(b'\n')) {
        Ok(text) => assert_eq!(
            text,
            format!(
                "{{\"customTitle\":\"title\",\"sessionId\":\"{GUI_TEST_ID_HIDDEN}\",\"type\":\"custom-title\"}}\n"
            )
        ),
        Err(error) => panic!("{}", error.message()),
    }
    match append_proposed_title("Assistant", &report.issues[0], false, None) {
        Ok(_) => panic!("not refused"),
        Err(error) => assert!(error.message().ends_with(&report.issues[0].path)),
    }
    let skipped =
        repair_claude_gui_visibility("assistant", &report.issues, &nobody, &vec![Ok(())], false);
    assert_eq!(skipped.fixed, 0);
    assert_eq!(skipped.skipped, 1);
    let failed = repair_claude_gui_visibility(
        "assistant",
        &report.issues,
        &None,
        &vec![Err(AppError::Outside("denied".to_string()))],
        false,
    );
    assert_eq!(failed.fixed, 0);
    assert_eq!(
        failed.errors,
        vec![format!("{GUI_TEST_ID_HIDDEN}: denied")]
    );
    match append_custom_title("Assistant", "/p", false, None, "a", "t") {
        Ok(_) => panic!("not refused"),
        Err(error) => assert_eq!(
            error.message(),
            "Assistant 会话路径不是普通文件或属于链接/junction: /p"
        ),
    }
    assert!(append_custom_title("Assistant", "/p", true, Some(b'x'), "a", "t")
        .is_ok_and(|text| text.starts_with('\n') && text.ends_with('\n')));
}

#[test]
fn session_files_have_uuid_names() {
    assert!(is_session_uuid(GUI_TEST_ID_VISIBLE));
    assert!(!is_session_uuid("11111111-2222-4333-8444-55555555555"));
    assert!(!is_session_uuid("11111111x2222-4333-8444-555555555555"));
}

#[test]
fn windows_cover_both_ends() {
    assert!(gui_read_windows(0).is_none());
    for (size, head, tail) in [(10, 10, 0), (65536, 65536, 0), (100_000, 65536, 34464)] {
        match gui_read_windows(size) {
            Some(windows) => {
                assert_eq!(windows.head_len, head);
                assert_eq!(windows.tail_start, tail);
            }
            None => panic!("nothing read"),
        }
    }
}

#[test]
fn gui_title_extraction_matches_extension_semantics() {
    let tail = r#"{"type":"custom-title","customTitle":"old"}
{"type":"custom-title","customTitle":"new \"quoted\""}"#;
    assert_eq!(
        gui_last_string_field(tail, "customTitle").as_deref(),
        Some("new \"quoted\"")
    );

    let head = [
        r#"{"type":"user","isMeta":true,"message":{"role":"user","content":"meta"}}"#,
        r#"{"type":"user","message":{"role":"user","content":[{"type":"tool_result","content":"x"}]}}"#,
        r#"{"type":"user","isCompactSummary":true,"message":{"role":"user","content":"compact"}}"#,
        r#"{"type":"user","message":{"role":"user","content":"<local-command-stdout>out</local-command-stdout>"}}"#,
        r#"{"type":"user","message":{"role":"user","content":"真正的标题"}}"#,
        "",
    ]
    .join("\n");
    assert_eq!(gui_head_title(&head).as_deref(), Some("真正的标题"));

    let head_cmd = [
        r#"{"type":"user","message":{"role":"user","content":"<command-message>run</command-message><command-name>/compact</command-name>"}}"#,
        "",
    ]
    .join("\n");
    assert_eq!(gui_head_title(&head_cmd).as_deref(), Some("/compact"));

    let head_bash = [
        r#"{"type":"user","message":{"role":"user","content":"<bash-input>ls -la</bash-input>"}}"#,
        "",
    ]
    .join("\n");
    assert_eq!(gui_head_title(&head_bash).as_deref(), Some("! ls -la"));

    assert_eq!(gui_visible_title("", ""), None);
    assert_eq!(
        gui_visible_title("", r#"{"type":"summary","summary":"总结标题"}"#).as_deref(),
        Some("总结标题")
    );
}

#[test]
fn given_titles_are_found_behind_anything() {
    for before in [
        "",
        "{\"customTitle\":\"\"}\n",
        "{\"customTitle\": \"\"}\n",
        "\"customTitle\":\"open",
        "\"customTitle\": \"open \\",
        "\"customTitle\":\"customTitle\": \"",
        "\\",
    ] {
        for title in ["t", "\"", "\\", "customTitle\":\"", "\n", "标题"] {
            let lines = match append_custom_title("Assistant", "/p", true, None, "id\"", title) {
                Ok(lines) => lines,
                Err(error) => panic!("{}", error.message()),
            };
            let tail = before.to_string() + &lines;
            assert!(gui_visible_title("", &tail).is_some(), "{tail}");
        }
    }
    let lines = match append_custom_title("Assistant", "/p", true, None, "i", "a\"b") {
        Ok(lines) => lines,
        Err(error) => panic!("{}", error.message()),
    };
    assert_eq!(
        lines,
        "{\"customTitle\":\"a\\\"b\",\"sessionId\":\"i\",\"type\":\"custom-title\"}\n"
    );
    assert_eq!(gui_visible_title("", &lines).as_deref(), Some("a\"b"));
}
