use session_repair::continuation::{
    prefer_continuation, rollout_filename_is_paginated_continuation, salvage_id_from_filename,
    Candidate,
};
use session_repair::error::AppError;
use session_repair::json::{parse, Json};
use session_repair::rollout::{
    is_desktop_visible_source, is_subagent_source, metadata_string_value, read_rollout_brief,
    read_rollout_identity, strip_user_message_prefix, RolloutBrief, RolloutLine,
    IMAGE_ONLY_USER_MESSAGE_PLACEHOLDER,
};

fn line(text: &str) -> RolloutLine {
    RolloutLine {
        text: text.to_string(),
        token_total: None,
    }
}

fn value(text: &str) -> Json {
    match parse(text) {
        Some(value) => value,
        None => panic!("not read: {text}"),
    }
}

fn meta(id: &str) -> String {
    format!(
        "{{\"timestamp\":\"2026-04-22T00:00:00Z\",\"type\":\"session_meta\",\"payload\":{{\"id\":\"{id}\",\"model_provider\":\"openai\",\"cwd\":\"F:\\\\project\\\\example\",\"source\":\"cli\"}}}}"
    )
}

fn brief_of(lines: &Vec<RolloutLine>, cwd: Option<&str>) -> RolloutBrief {
    match read_rollout_brief(
        lines,
        "/codex/sessions/rollout-a.jsonl",
        "sessions/rollout-a.jsonl",
        cwd.map(|cwd| cwd.to_string()),
    ) {
        Some(brief) => brief,
        None => panic!("no brief"),
    }
}

#[test]
fn opencode_parent_sources_are_subagent_sessions() {
    assert!(is_subagent_source(Some("parent:ses_parent")));
    assert!(is_subagent_source(Some("PARENT: ses_parent")));
    assert!(!is_subagent_source(Some("parent:")));
}

#[test]
fn subagents_are_told_by_their_source() {
    assert!(is_subagent_source(Some("{\"subagent\":{\"other\":\"guardian\"}}")));
    assert!(!is_subagent_source(Some("cli")));
    assert!(!is_subagent_source(None));
    assert!(is_desktop_visible_source(Some("cli")));
    assert!(is_desktop_visible_source(Some("vscode")));
    assert!(!is_desktop_visible_source(Some("exec")));
    assert!(!is_desktop_visible_source(None));
}

#[test]
fn rollout_brief_reads_paginated_user_message() {
    let event = "{\"timestamp\":\"2026-04-22T00:00:01Z\",\"type\":\"event_msg\",\"payload\":{\"type\":\"item_completed\",\"thread_id\":\"paginated-preview\",\"turn_id\":\"turn-1\",\"item\":{\"type\":\"UserMessage\",\"content\":[{\"type\":\"text\",\"text\":\"## My request for Codex:\\n修复新版会话\"},{\"type\":\"local_image\",\"path\":\"C:\\\\temp\\\\reference.png\"}]}}}";
    let brief = brief_of(&vec![line(&meta("paginated-preview")), line(event)], None);
    assert_eq!(brief.first_user_message, "修复新版会话");
}

#[test]
fn rollout_brief_uses_placeholder_for_paginated_image_only_message() {
    let event = "{\"timestamp\":\"2026-04-22T00:00:01Z\",\"type\":\"event_msg\",\"payload\":{\"type\":\"item_completed\",\"item\":{\"type\":\"UserMessage\",\"content\":[{\"type\":\"local_image\",\"path\":\"C:\\\\temp\\\\reference.png\"}]}}}";
    let brief = brief_of(
        &vec![line(&meta("paginated-image-preview")), line(event)],
        None,
    );
    assert_eq!(
        brief.first_user_message,
        IMAGE_ONLY_USER_MESSAGE_PLACEHOLDER
    );
}

#[test]
fn briefs_take_metadata_times_and_tokens() {
    let lines = vec![
        line(&meta("a")),
        line("not json"),
        RolloutLine {
            text: "{\"timestamp\":\"2026-04-22T00:00:09Z\",\"type\":\"event_msg\",\"payload\":{\"type\":\"token_count\"}}".to_string(),
            token_total: Some(2_468_000),
        },
        line("{\"timestamp\":\"2026-04-22T00:00:02Z\",\"type\":\"event_msg\",\"payload\":{\"type\":\"user_message\",\"message\":\"First request\"}}"),
        line("{\"timestamp\":\"2026-04-22T00:00:03Z\",\"type\":\"event_msg\",\"payload\":{\"type\":\"user_message\",\"message\":\"Second request\"}}"),
    ];
    let brief = brief_of(&lines, Some("F:\\project\\current"));
    assert_eq!(brief.id, "a");
    assert_eq!(brief.model_provider, "openai");
    assert_eq!(brief.history_mode, "legacy");
    assert_eq!(brief.first_user_message, "First request");
    assert_eq!(brief.tokens_used, 2_468_000);
    assert_eq!(brief.created_at_ms, 1_776_816_000_000);
    assert_eq!(brief.updated_at_ms, 1_776_816_009_000);
    assert!(brief.updated_at_ms >= brief.created_at_ms);
    assert_eq!(brief.cwd.as_deref(), Some("F:\\project\\current"));
    assert_eq!(brief.relpath, "sessions/rollout-a.jsonl");
}

#[test]
fn rollouts_without_metadata_have_no_brief() {
    let lines = vec![line("{\"type\":\"event_msg\",\"payload\":{}}"), line("{")];
    assert!(read_rollout_brief(&lines, "p", "r", None).is_none());
}

#[test]
fn identities_come_from_the_first_metadata() {
    let lines = vec![
        "".to_string(),
        "broken".to_string(),
        meta("a"),
        meta("b"),
        "x".repeat(100),
    ];
    let mut readings: Vec<Result<String, AppError>> = lines.into_iter().map(Ok).collect();
    readings.push(Err(AppError::Other("no text".to_string())));
    let identity = match read_rollout_identity(&readings) {
        Ok(Some(identity)) => identity,
        _ => panic!("no identity"),
    };
    assert_eq!(identity.id, "a");
    assert_eq!(identity.model_provider, "openai");
    assert_eq!(identity.source.as_deref(), Some("cli"));
    let nothing = vec![Ok("{}".to_string())];
    assert!(matches!(read_rollout_identity(&nothing), Ok(None)));
    let unreadable = vec![
        Ok("{}".to_string()),
        Err(AppError::Other("no text".to_string())),
        Ok(meta("a")),
    ];
    assert!(matches!(
        read_rollout_identity(&unreadable),
        Err(AppError::Other(message)) if message == "no text"
    ));
}

#[test]
fn requests_are_cut_off_their_preamble() {
    assert_eq!(
        strip_user_message_prefix("context\n## My request for Codex:\n do it "),
        "do it"
    );
    assert_eq!(strip_user_message_prefix("  plain "), "plain");
}

#[test]
fn metadata_texts_are_not_empty() {
    assert_eq!(
        metadata_string_value(&value("\"x\"")).as_deref(),
        Some("x")
    );
    assert_eq!(metadata_string_value(&value("null")), None);
}

#[test]
fn continuations_are_told_by_file_name() {
    let id = "019a1b2c-3d4e-7f50-8a6b-7c8d9e0f1a2b";
    let child = "019a1b2c-3d4e-7f50-8a6b-7c8d9e0f1a2c";
    let plain = format!("rollout-2026-04-22T00-00-00-{id}.jsonl");
    let continued = format!("rollout-2026-04-22T00-00-00-{id}_{child}.jsonl");
    assert!(!rollout_filename_is_paginated_continuation(Some(&plain)));
    assert!(rollout_filename_is_paginated_continuation(Some(&continued)));
    assert!(!rollout_filename_is_paginated_continuation(None));
    assert_eq!(
        salvage_id_from_filename(&format!("rollout-2026-04-22T00-00-00-{id}")).as_deref(),
        Some(id)
    );
    assert_eq!(
        salvage_id_from_filename(&format!("rollout-2026-04-22T00-00-00-{id}_{child}")).as_deref(),
        Some(id)
    );
    assert_eq!(
        salvage_id_from_filename(
            "rollout-2024-10-01T12-34-56-aaaaaaaa-bbbb-4ccc-8ddd-eeeeeeeeeeee"
        )
        .as_deref(),
        Some("aaaaaaaa-bbbb-4ccc-8ddd-eeeeeeeeeeee")
    );
    assert_eq!(
        salvage_id_from_filename("rollout-2024-10-01T12-34-56-short"),
        None
    );
    assert_eq!(
        salvage_id_from_filename("rollout-other-abcdefgh").as_deref(),
        Some("abcdefgh")
    );
    assert_eq!(
        salvage_id_from_filename("rollout-2024-10-01T12-34-56-session-abcdefgh").as_deref(),
        Some("abcdefgh")
    );
    assert_eq!(
        salvage_id_from_filename(
            "rollout-2024-10-01T12-34-56-aaaaaaaa-bbbb-4ccc-8ddd-eeeeeeeeeeee"
        )
        .as_deref(),
        Some("aaaaaaaa-bbbb-4ccc-8ddd-eeeeeeeeeeee")
    );
    assert_eq!(salvage_id_from_filename("rollout-12345678"), None);
    assert_eq!(salvage_id_from_filename("notes"), None);
}

#[test]
fn continuations_take_the_place_of_stubs() {
    let candidates = vec![
        Candidate {
            id: "b".to_string(),
            updated_at_ms: 5,
            is_continuation: true,
        },
        Candidate {
            id: "b".to_string(),
            updated_at_ms: 9,
            is_continuation: false,
        },
        Candidate {
            id: "a".to_string(),
            updated_at_ms: 3,
            is_continuation: false,
        },
        Candidate {
            id: "a".to_string(),
            updated_at_ms: 3,
            is_continuation: false,
        },
    ];
    let choice = prefer_continuation(&candidates);
    assert_eq!(choice.ids, vec!["a".to_string(), "b".to_string()]);
    assert_eq!(choice.positions, vec![3, 0]);
}
