use session_repair::config_edit::{
    config_edits, find_key_line_in_range, find_toml_section_range, repair_project_configs,
    upsert_project_default_wait_timeout,
};
use session_repair::error::AppError;
use session_repair::project_config::{
    diagnose_project_configs, project_config_issue_message, suggested_default_wait_timeout,
    ProjectConfigCandidate, ProjectConfigInput, WaitTimes,
};
use session_repair::projects::{
    collect_project_config_candidates, collect_projects, cwd_lines, read_rollout_project,
    ConfiguredProject, ProjectLine, ProjectPath, ProjectSession,
};

fn done<T>(outcome: Result<T, AppError>) -> T {
    match outcome {
        Ok(value) => value,
        Err(error) => panic!("{}", error.message()),
    }
}

fn input(raw: Result<String, AppError>) -> ProjectConfigInput {
    ProjectConfigInput {
        candidate: ProjectConfigCandidate {
            project_cwd: "/project".to_string(),
            config_path: "/project/.codex/config.toml".to_string(),
            session_ids: vec!["a".to_string(), "b".to_string()],
        },
        raw,
    }
}

const MISSING_DEFAULT: &str = "[features.multi_agent_v2]\nenabled = true\nmax_concurrent_threads_per_session = 6\nmin_wait_timeout_ms = 480000\n";

#[test]
fn missing_defaults_are_diagnosed_and_repaired() {
    let inputs = vec![input(Ok(MISSING_DEFAULT.to_string()))];
    let report = diagnose_project_configs(1, &inputs);
    assert_eq!(report.scanned_projects, 1);
    assert_eq!(report.config_files, 1);
    assert_eq!(report.issue_count, 1);
    assert_eq!(report.repairable_count, 1);
    assert_eq!(
        report.issues[0].suggested_default_wait_timeout_ms,
        Some(480000)
    );
    assert_eq!(report.issues[0].session_count, 2);

    let preview = repair_project_configs(&report, &vec![], true);
    assert_eq!(preview.repaired_count, 1);
    assert!(preview.dry_run);

    let next = match done(upsert_project_default_wait_timeout(MISSING_DEFAULT, 480000)) {
        Some(next) => next,
        None => panic!("nothing to write"),
    };
    assert!(next.contains("default_wait_timeout_ms = 480000"));
    assert!(next.contains("max_concurrent_threads_per_session = 6"));
    let repaired = repair_project_configs(&report, &vec![Ok(true)], false);
    assert_eq!(repaired.repaired_count, 1);
    assert!(repaired.errors.is_empty());

    let clean = diagnose_project_configs(1, &vec![input(Ok(next.clone()))]);
    assert_eq!(clean.issue_count, 0);
    assert!(done(upsert_project_default_wait_timeout(&next, 480000)).is_none());
}

#[test]
fn broken_bounds_are_not_guessed() {
    let raw = "[features.multi_agent_v2]\nmin_wait_timeout_ms = 480000\nmax_wait_timeout_ms = 1000\n";
    let report = diagnose_project_configs(1, &vec![input(Ok(raw.to_string()))]);
    assert_eq!(report.issue_count, 1);
    assert_eq!(report.repairable_count, 0);
    assert!(!report.issues[0].repairable);
    assert!(report.issues[0].message.contains("需要人工决定"));
    let repaired = repair_project_configs(&report, &vec![], false);
    assert_eq!(repaired.repaired_count, 0);
}

#[test]
fn unreadable_configurations_are_issues() {
    let report = diagnose_project_configs(
        2,
        &vec![
            input(Err(AppError::Outside("denied".to_string()))),
            input(Ok("a = [".to_string())),
            input(Ok("model = \"x\"\n".to_string())),
        ],
    );
    assert_eq!(report.config_files, 3);
    assert_eq!(report.issue_count, 2);
    assert_eq!(report.repairable_count, 0);
    assert!(report.issues[0].message.contains("denied"));
}

#[test]
fn failed_writes_are_reported() {
    let report = diagnose_project_configs(1, &vec![input(Ok(MISSING_DEFAULT.to_string()))]);
    let repaired = repair_project_configs(
        &report,
        &vec![Err(AppError::Outside("read-only".to_string()))],
        false,
    );
    assert_eq!(repaired.repaired_count, 0);
    assert_eq!(repaired.errors.len(), 1);
    assert!(repaired.errors[0].contains("read-only"));
}

#[test]
fn edits_keep_comments_and_line_ends() {
    let raw = "# top\r\n[features.multi_agent_v2]\r\nmin_wait_timeout_ms = 5 # low\r\n\r\n[other]\r\ndefault_wait_timeout_ms = 1\r\n";
    let next = match done(upsert_project_default_wait_timeout(raw, 9)) {
        Some(next) => next,
        None => panic!("nothing to write"),
    };
    assert!(next.contains("# top\r\n"));
    assert!(next.contains("min_wait_timeout_ms = 5 # low\r\n"));
    assert!(next.contains("default_wait_timeout_ms = 9\r\n"));
    assert!(next.ends_with("[other]\r\ndefault_wait_timeout_ms = 1\r\n"));
    let replaced = match done(upsert_project_default_wait_timeout(
        "[features.multi_agent_v2]\n  default_wait_timeout_ms = 1\n",
        9,
    )) {
        Some(next) => next,
        None => panic!("nothing to write"),
    };
    assert_eq!(
        replaced,
        "[features.multi_agent_v2]\n  default_wait_timeout_ms = 9\n"
    );
    assert!(upsert_project_default_wait_timeout("x = 1\n", 9).is_err());
}

#[test]
fn suggestions_lie_between_the_bounds() {
    let times = |min, default, max| WaitTimes { min, default, max };
    assert_eq!(
        suggested_default_wait_timeout(times(Some(480000), None, None)),
        Some(480000)
    );
    assert_eq!(
        suggested_default_wait_timeout(times(Some(1), Some(2), Some(3))),
        None
    );
    let message = project_config_issue_message(times(Some(480000), None, None), 480000);
    assert!(message.contains("480000"), "{message}");
}

fn path(parts: &[&str]) -> ProjectPath {
    ProjectPath {
        text: format!("/{}", parts.join("/")),
        parts: parts.iter().map(|part| part.to_string()).collect(),
    }
}

fn session(id: &str, cwd: Option<ProjectPath>) -> ProjectSession {
    ProjectSession {
        id: id.to_string(),
        cwd,
    }
}

#[test]
fn sessions_are_gathered_by_directory() {
    let projects = collect_projects(&vec![
        session("b", Some(path(&["work", "b"]))),
        session("a", Some(path(&["work", "a"]))),
        session("c", Some(path(&["work", "b"]))),
        session("d", None),
    ]);
    assert_eq!(projects.len(), 2);
    assert_eq!(projects[0].path.text, "/work/a");
    assert_eq!(
        projects[1].session_ids,
        vec!["b".to_string(), "c".to_string()]
    );
    let configured: Vec<ConfiguredProject> = projects
        .into_iter()
        .enumerate()
        .map(|(at, project)| ConfiguredProject {
            config_path: format!("{}/.codex/config.toml", project.path.text),
            project,
            is_file: at == 1,
        })
        .collect();
    let candidates = collect_project_config_candidates(&configured);
    assert_eq!(candidates.len(), 1);
    assert_eq!(candidates[0].project_cwd, "/work/b");
    assert_eq!(candidates[0].config_path, "/work/b/.codex/config.toml");
}

#[test]
fn rollouts_name_their_project() {
    let lines = vec![
        kinded("{\"type\":1}", None),
        kinded(
            "{\"type\":\"x\",\"type\":\"session_meta\",\"payload\":{\"id\":\"two types\"}}",
            None,
        ),
        kinded("{\"type\":\"turn_context\",\"payload\":{\"id\":\"turn\"}}", Some("turn_context")),
        kinded(
            "{\"type\":\"session_meta\",\"payload\":{\"id\":\"a\",\"cwd\":\"/old\"}}",
            Some("session_meta"),
        ),
        kinded("{\"type\":\"session_meta\",\"payload\":{\"id\":\"b\"}}", Some("session_meta")),
    ];
    let telling = cwd_lines(&lines);
    assert_eq!(telling.len(), 3);
    assert_eq!(telling[0], lines[2].text);
    let (id, cwd) = match read_rollout_project(&lines, Some("/new".to_string())) {
        Some(project) => project,
        None => panic!("no project"),
    };
    assert_eq!(id, "a");
    assert_eq!(cwd.as_deref(), Some("/new"));
    assert!(read_rollout_project(&vec![kinded("{}", None)], None).is_none());
}

fn kinded(text: &str, kind: Option<&str>) -> ProjectLine {
    ProjectLine {
        text: text.to_string(),
        kind: kind.map(|kind| kind.to_string()),
    }
}

#[test]
fn configurations_are_edited_only_where_they_can_be_repaired() {
    let crossing = "[features.multi_agent_v2]\nmin_wait_timeout_ms = 9\nmax_wait_timeout_ms = 1\n";
    let report = diagnose_project_configs(
        3,
        &vec![
            input(Ok(MISSING_DEFAULT.to_string())),
            input(Ok(crossing.to_string())),
            input(Ok("a = [".to_string())),
        ],
    );
    assert_eq!(report.issue_count, 3);
    assert_eq!(config_edits(&report, false), vec![Some(480000), None, None]);
    assert_eq!(config_edits(&report, true), vec![None, None, None]);
    let repaired = repair_project_configs(&report, &vec![Ok(true), Ok(false), Ok(false)], false);
    assert_eq!(repaired.repaired_count, 1);
    assert_eq!(repaired.items.len(), 1);
}

#[test]
fn sections_and_keys_are_found_by_line() {
    let lines: Vec<String> = ["[a]", "x = 1", "[[b]]", " [c.d] ", "# x = 1", "  x=2"]
        .iter()
        .map(|line| line.to_string())
        .collect();
    assert_eq!(find_toml_section_range(&lines, "a"), Some((0, 3)));
    assert_eq!(find_toml_section_range(&lines, "c.d"), Some((3, 6)));
    assert_eq!(find_toml_section_range(&lines, "b"), None);
    assert_eq!(find_key_line_in_range(&lines, 0, 6, "x"), Some(1));
    assert_eq!(find_key_line_in_range(&lines, 2, 100, "x"), Some(5));
    assert_eq!(find_key_line_in_range(&lines, 2, 5, "x"), None);
    assert_eq!(find_key_line_in_range(&lines, 7, 100, "x"), None);
}

#[test]
fn configurations_need_a_table_at_their_top() {
    let raw = "\"$__toml_private_datetime\" = \"1979-05-27\"\n";
    let report = diagnose_project_configs(1, &vec![input(Ok(raw.to_string()))]);
    assert_eq!(report.issue_count, 1);
    assert_eq!(report.repairable_count, 0);
    assert_eq!(
        report.issues[0].message,
        "config.toml 顶层不是 TOML 表，Codex 无法按配置文件读取"
    );
}
