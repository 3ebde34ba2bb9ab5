//! Project configurations: waiting times that contradict each other, and setting them
//! right without touching anything else in the file.

use vstd::prelude::*;

use crate::config::{entry, parse_toml_value, table_entry, toml_value_reading, Toml, TomlView};
use crate::error::{error_text, AppError, ErrorView};
use crate::seqs::count_where;
use crate::text::{copy_texts, decimal, decimal_text, join2, join4, texts};

verus! {

// ---------------------------------------------------------------------------
// Waiting times
// ---------------------------------------------------------------------------

/// The three waiting times of a configuration, in milliseconds.
#[derive(Clone, Copy)]
pub struct WaitTimes {
    pub min: Option<u64>,
    pub default: Option<u64>,
    pub max: Option<u64>,
}

/// The waiting time under a key: an integer that is not negative, or why it is none.
pub open spec fn wait_time(table: TomlView, key: Seq<char>) -> Result<Option<u64>, Seq<char>> {
    match entry(table, key) {
        None => Ok(None),
        Some(TomlView::Integer(number)) => if number < 0 {
            Err("不能是负数"@)
        } else {
            Ok(Some(number as u64))
        },
        Some(_) => Err("必须是非负整数毫秒值"@),
    }
}

/// The waiting time under a key.
pub fn read_timeout_value(table: &Toml, key: &str) -> (time: Result<Option<u64>, String>)
    ensures
        match time {
            Ok(time) => wait_time(table.model(), key@) == Ok::<Option<u64>, Seq<char>>(time),
            Err(error) => wait_time(table.model(), key@) == Err::<Option<u64>, Seq<char>>(error@),
        },
{
    match table.get(key) {
        None => Ok(None),
        Some(Toml::Integer(number)) => if *number < 0 {
            Err("不能是负数".to_owned())
        } else {
            Ok(Some(*number as u64))
        },
        Some(_) => Err("必须是非负整数毫秒值".to_owned()),
    }
}

/// The default that is proposed: the bound that the default is beyond, or where there is no
/// default one of the bounds; none where all is well.
pub open spec fn suggested(times: WaitTimes) -> Option<u64> {
    match times.default {
        Some(default) => if times.min matches Some(min) && default < min {
            times.min
        } else if times.max matches Some(max) && default > max {
            times.max
        } else {
            None
        },
        None => if times.min is Some {
            times.min
        } else {
            times.max
        },
    }
}

/// The default that is proposed.
pub fn suggested_default_wait_timeout(times: WaitTimes) -> (suggestion: Option<u64>)
    ensures
        suggestion == suggested(times),
{
    match times.default {
        Some(default) => {
            if let Some(min) = times.min {
                if default < min {
                    return Some(min);
                }
            }
            if let Some(max) = times.max {
                if default > max {
                    return Some(max);
                }
            }
            None
        },
        None => match times.min {
            Some(min) => Some(min),
            None => times.max,
        },
    }
}

/// Whether the bounds contradict each other.
pub open spec fn bounds_cross(times: WaitTimes) -> bool {
    times.min matches Some(min) && (times.max matches Some(max) && min > max)
}

/// Where the bounds do not contradict each other, a proposed default lies within them, and
/// with it nothing more is proposed.
pub proof fn law_suggestion_settles(times: WaitTimes)
    requires
        !bounds_cross(times),
    ensures
        suggested(times) matches Some(next) ==> {
            &&& times.min matches Some(min) ==> min <= next
            &&& times.max matches Some(max) ==> next <= max
            &&& suggested(WaitTimes { default: Some(next), ..times }) is None
        },
{
}

/// What is said of a proposed default.
pub open spec fn suggestion_message(times: WaitTimes, next: u64) -> Seq<char> {
    let next = decimal(next as nat);
    match times.default {
        None => if times.min is Some && times.max is Some {
            "min_wait_timeout_ms 或 max_wait_timeout_ms 已显式设置，但缺少 default_wait_timeout_ms；将补为 "@
                + next
        } else if times.min is Some {
            "min_wait_timeout_ms 已显式设置，但缺少 default_wait_timeout_ms；新版 Codex 会用内置默认值参与校验，可能小于最小值。将补为 "@
                + next
        } else {
            "max_wait_timeout_ms 已显式设置，但缺少 default_wait_timeout_ms；新版 Codex 会用内置默认值参与校验，可能大于最大值。将补为 "@
                + next
        },
        Some(default) => if times.min matches Some(min) && default < min {
            "default_wait_timeout_ms="@ + decimal(default as nat) + " 小于 min_wait_timeout_ms="@
                + decimal(times.min->Some_0 as nat) + "；将改为 "@ + next
        } else if times.max matches Some(max) && default > max {
            "default_wait_timeout_ms="@ + decimal(default as nat) + " 大于 max_wait_timeout_ms="@
                + decimal(times.max->Some_0 as nat) + "；将改为 "@ + next
        } else {
            "default_wait_timeout_ms 将改为 "@ + next
        },
    }
}

/// What is said of a proposed default.
pub fn project_config_issue_message(times: WaitTimes, next_default: u64) -> (message: String)
    ensures
        message@ == suggestion_message(times, next_default),
{
    let next = decimal_text(next_default);
    match times.default {
        None => if times.min.is_some() && times.max.is_some() {
            join2(
                "min_wait_timeout_ms 或 max_wait_timeout_ms 已显式设置，但缺少 default_wait_timeout_ms；将补为 ",
                next.as_str(),
            )
        } else if times.min.is_some() {
            join2(
                "min_wait_timeout_ms 已显式设置，但缺少 default_wait_timeout_ms；新版 Codex 会用内置默认值参与校验，可能小于最小值。将补为 ",
                next.as_str(),
            )
        } else {
            join2(
                "max_wait_timeout_ms 已显式设置，但缺少 default_wait_timeout_ms；新版 Codex 会用内置默认值参与校验，可能大于最大值。将补为 ",
                next.as_str(),
            )
        },
        Some(default) => {
            if let Some(min) = times.min {
                if default < min {
                    let mut message = join4(
                        "default_wait_timeout_ms=",
                        decimal_text(default).as_str(),
                        " 小于 min_wait_timeout_ms=",
                        decimal_text(min).as_str(),
                    );
                    message.append("；将改为 ");
                    message.append(next.as_str());
                    return message;
                }
            }
            if let Some(max) = times.max {
                if default > max {
                    let mut message = join4(
                        "default_wait_timeout_ms=",
                        decimal_text(default).as_str(),
                        " 大于 max_wait_timeout_ms=",
                        decimal_text(max).as_str(),
                    );
                    message.append("；将改为 ");
                    message.append(next.as_str());
                    return message;
                }
            }
            join2("default_wait_timeout_ms 将改为 ", next.as_str())
        },
    }
}

// ---------------------------------------------------------------------------
// Diagnosis
// ---------------------------------------------------------------------------

/// A project with a configuration, and the sessions that work in it, sorted.
pub struct ProjectConfigCandidate {
    pub project_cwd: String,
    pub config_path: String,
    pub session_ids: Vec<String>,
}

/// What a [`ProjectConfigCandidate`] holds.
#[verifier::ext_equal]
pub struct CandidateView {
    pub project_cwd: Seq<char>,
    pub config_path: Seq<char>,
    pub session_ids: Seq<Seq<char>>,
}

impl View for ProjectConfigCandidate {
    type V = CandidateView;

    open spec fn view(&self) -> CandidateView {
        CandidateView {
            project_cwd: self.project_cwd@,
            config_path: self.config_path@,
            session_ids: texts(self.session_ids@),
        }
    }
}

/// Something that is wrong with a project configuration.
pub struct ProjectConfigIssue {
    pub project_cwd: String,
    pub config_path: String,
    pub session_count: u32,
    pub session_ids: Vec<String>,
    pub current_min_wait_timeout_ms: Option<u64>,
    pub current_default_wait_timeout_ms: Option<u64>,
    pub current_max_wait_timeout_ms: Option<u64>,
    pub suggested_default_wait_timeout_ms: Option<u64>,
    pub repairable: bool,
    pub message: String,
}

/// What a [`ProjectConfigIssue`] holds.
#[verifier::ext_equal]
pub struct IssueView {
    pub project_cwd: Seq<char>,
    pub config_path: Seq<char>,
    pub session_count: u32,
    pub session_ids: Seq<Seq<char>>,
    pub min: Option<u64>,
    pub default: Option<u64>,
    pub max: Option<u64>,
    pub suggested: Option<u64>,
    pub repairable: bool,
    pub message: Seq<char>,
}

impl View for ProjectConfigIssue {
    type V = IssueView;

    open spec fn view(&self) -> IssueView {
        IssueView {
            project_cwd: self.project_cwd@,
            config_path: self.config_path@,
            session_count: self.session_count,
            session_ids: texts(self.session_ids@),
            min: self.current_min_wait_timeout_ms,
            default: self.current_default_wait_timeout_ms,
            max: self.current_max_wait_timeout_ms,
            suggested: self.suggested_default_wait_timeout_ms,
            repairable: self.repairable,
            message: self.message@,
        }
    }
}

/// What a list of issues holds.
pub open spec fn issues_view(issues: Seq<ProjectConfigIssue>) -> Seq<IssueView> {
    issues.map_values(|issue: ProjectConfigIssue| issue@)
}

/// No waiting times.
pub open spec fn no_times() -> WaitTimes {
    WaitTimes { min: None, default: None, max: None }
}

/// An issue of a project.
pub open spec fn issue_of(
    candidate: CandidateView,
    times: WaitTimes,
    suggestion: Option<u64>,
    message: Seq<char>,
) -> IssueView {
    IssueView {
        project_cwd: candidate.project_cwd,
        config_path: candidate.config_path,
        session_count: candidate.session_ids.len() as u32,
        session_ids: candidate.session_ids,
        min: times.min,
        default: times.default,
        max: times.max,
        suggested: suggestion,
        repairable: suggestion is Some,
        message,
    }
}

/// An issue of a project; it can be repaired where a default is proposed.
pub fn project_config_issue(
    candidate: &ProjectConfigCandidate,
    times: WaitTimes,
    suggestion: Option<u64>,
    message: String,
) -> (issue: ProjectConfigIssue)
    ensures
        issue@ == issue_of(candidate@, times, suggestion, message@),
{
    ProjectConfigIssue {
        project_cwd: candidate.project_cwd.clone(),
        config_path: candidate.config_path.clone(),
        session_count: candidate.session_ids.len() as u32,
        session_ids: copy_texts(&candidate.session_ids),
        current_min_wait_timeout_ms: times.min,
        current_default_wait_timeout_ms: times.default,
        current_max_wait_timeout_ms: times.max,
        suggested_default_wait_timeout_ms: suggestion,
        repairable: suggestion.is_some(),
        message,
    }
}

/// The table of waiting times in a document.
pub open spec fn wait_table(document: TomlView) -> Option<TomlView> {
    match table_entry(document, "features"@) {
        Some(features) => table_entry(features, "multi_agent_v2"@),
        None => None,
    }
}

/// The error on a waiting time.
pub open spec fn time_error(key: Seq<char>, error: Seq<char>) -> ErrorView {
    ErrorView::Other("features.multi_agent_v2."@ + key + ": "@ + error)
}

/// The waiting times of a table.
pub open spec fn wait_times(table: TomlView) -> Result<WaitTimes, ErrorView> {
    match wait_time(table, "min_wait_timeout_ms"@) {
        Err(error) => Err(time_error("min_wait_timeout_ms"@, error)),
        Ok(min) => match wait_time(table, "default_wait_timeout_ms"@) {
            Err(error) => Err(time_error("default_wait_timeout_ms"@, error)),
            Ok(default) => match wait_time(table, "max_wait_timeout_ms"@) {
                Err(error) => Err(time_error("max_wait_timeout_ms"@, error)),
                Ok(max) => Ok(WaitTimes { min, default, max }),
            },
        },
    }
}

/// What is said of bounds that contradict each other.
pub open spec fn crossing_message(min: u64, max: u64) -> Seq<char> {
    "min_wait_timeout_ms="@ + decimal(min as nat) + " 大于 max_wait_timeout_ms="@ + decimal(
        max as nat,
    ) + "，需要人工决定修改哪个边界值"@
}

/// What is wrong with waiting times.
pub open spec fn times_issue(candidate: CandidateView, times: WaitTimes) -> Option<IssueView> {
    if bounds_cross(times) {
        Some(
            issue_of(
                candidate,
                times,
                None,
                crossing_message(times.min->Some_0, times.max->Some_0),
            ),
        )
    } else {
        match suggested(times) {
            Some(next) => Some(
                issue_of(candidate, times, Some(next), suggestion_message(times, next)),
            ),
            None => None,
        }
    }
}

/// What is wrong with a configuration that is a proper document.
pub open spec fn document_issue(candidate: CandidateView, document: TomlView) -> Result<
    Option<IssueView>,
    ErrorView,
> {
    if !(document is Table) {
        Ok(
            Some(
                issue_of(
                    candidate,
                    no_times(),
                    None,
                    "config.toml 顶层不是 TOML 表，Codex 无法按配置文件读取"@,
                ),
            ),
        )
    } else {
        match wait_table(document) {
            None => Ok(None),
            Some(table) => match wait_times(table) {
                Err(error) => Err(error),
                Ok(times) => Ok(times_issue(candidate, times)),
            },
        }
    }
}

/// What is wrong with a configuration, given what reading its file gave.
pub open spec fn config_issue(
    candidate: CandidateView,
    raw: Result<Seq<char>, ErrorView>,
) -> Result<Option<IssueView>, ErrorView> {
    match raw {
        Err(error) => Err(error),
        Ok(text) => match toml_value_reading(text) {
            Err(error) => Err(
                ErrorView::Other(
                    "config.toml 不是有效 TOML，Codex 恢复会话会直接失败："@ + error,
                ),
            ),
            Ok(document) => document_issue(candidate, document),
        },
    }
}

/// What the outcome of a diagnosis of one project holds.
pub open spec fn issue_outcome(outcome: Result<Option<ProjectConfigIssue>, AppError>) -> Result<
    Option<IssueView>,
    ErrorView,
> {
    match outcome {
        Ok(Some(issue)) => Ok(Some(issue@)),
        Ok(None) => Ok(None),
        Err(error) => Err(error@),
    }
}

fn time_failure(key: &str, error: String) -> (failure: AppError)
    ensures
        failure@ == time_error(key@, error@),
{
    AppError::Other(join4("features.multi_agent_v2.", key, ": ", error.as_str()))
}

fn read_wait_times(table: &Toml) -> (times: Result<WaitTimes, AppError>)
    ensures
        match times {
            Ok(times) => wait_times(table.model()) == Ok::<WaitTimes, ErrorView>(times),
            Err(error) => wait_times(table.model()) == Err::<WaitTimes, ErrorView>(error@),
        },
{
    let min = match read_timeout_value(table, "min_wait_timeout_ms") {
        Ok(time) => time,
        Err(error) => return Err(time_failure("min_wait_timeout_ms", error)),
    };
    let default = match read_timeout_value(table, "default_wait_timeout_ms") {
        Ok(time) => time,
        Err(error) => return Err(time_failure("default_wait_timeout_ms", error)),
    };
    let max = match read_timeout_value(table, "max_wait_timeout_ms") {
        Ok(time) => time,
        Err(error) => return Err(time_failure("max_wait_timeout_ms", error)),
    };
    Ok(WaitTimes { min, default, max })
}

fn diagnose_times(candidate: &ProjectConfigCandidate, times: WaitTimes) -> (issue: Option<
    ProjectConfigIssue,
>)
    ensures
        match issue {
            Some(issue) => times_issue(candidate@, times) == Some(issue@),
            None => times_issue(candidate@, times) is None,
        },
{
    if let Some(min) = times.min {
        if let Some(max) = times.max {
            if min > max {
                let mut message = join4(
                    "min_wait_timeout_ms=",
                    decimal_text(min).as_str(),
                    " 大于 max_wait_timeout_ms=",
                    decimal_text(max).as_str(),
                );
                message.append("，需要人工决定修改哪个边界值");
                return Some(project_config_issue(candidate, times, None, message));
            }
        }
    }
    match suggested_default_wait_timeout(times) {
        Some(next) => {
            let message = project_config_issue_message(times, next);
            Some(project_config_issue(candidate, times, Some(next), message))
        },
        None => None,
    }
}

/// What is wrong with a configuration that is a proper document.
pub fn diagnose_project_document(candidate: &ProjectConfigCandidate, document: &Toml) -> (outcome:
    Result<Option<ProjectConfigIssue>, AppError>)
    ensures
        issue_outcome(outcome) == document_issue(candidate@, document.model()),
{
    match document {
        Toml::Table(_) => {},
        _ => return Ok(
            Some(
                project_config_issue(
                    candidate,
                    WaitTimes { min: None, default: None, max: None },
                    None,
                    "config.toml 顶层不是 TOML 表，Codex 无法按配置文件读取".to_owned(),
                ),
            ),
        ),
    }
    let features = match document.get_table("features") {
        Some(features) => features,
        None => return Ok(None),
    };
    let table = match features.get_table("multi_agent_v2") {
        Some(table) => table,
        None => return Ok(None),
    };
    match read_wait_times(table) {
        Ok(times) => Ok(diagnose_times(candidate, times)),
        Err(error) => Err(error),
    }
}

/// What is wrong with a configuration, given what reading its file gave.
pub fn diagnose_project_config_candidate(
    candidate: &ProjectConfigCandidate,
    raw: &Result<String, AppError>,
) -> (outcome: Result<Option<ProjectConfigIssue>, AppError>)
    ensures
        issue_outcome(outcome) == config_issue(
            candidate@,
            match raw {
                Ok(text) => Ok(text@),
                Err(error) => Err(error@),
            },
        ),
{
    match raw {
        Err(error) => Err(error.copy()),
        Ok(text) => match parse_toml_value(text.as_str()) {
            Err(error) => Err(
                AppError::Other(
                    join2("config.toml 不是有效 TOML，Codex 恢复会话会直接失败：", error.as_str()),
                ),
            ),
            Ok(document) => diagnose_project_document(candidate, &document),
        },
    }
}

/// A project to diagnose: its configuration file, and what reading it gave.
pub struct ProjectConfigInput {
    pub candidate: ProjectConfigCandidate,
    pub raw: Result<String, AppError>,
}

/// What a [`ProjectConfigInput`] holds.
#[verifier::ext_equal]
pub struct InputView {
    pub candidate: CandidateView,
    pub raw: Result<Seq<char>, ErrorView>,
}

impl View for ProjectConfigInput {
    type V = InputView;

    open spec fn view(&self) -> InputView {
        InputView {
            candidate: self.candidate@,
            raw: match self.raw {
                Ok(text) => Ok(text@),
                Err(error) => Err(error@),
            },
        }
    }
}

/// What a list of inputs holds.
pub open spec fn inputs_view(inputs: Seq<ProjectConfigInput>) -> Seq<InputView> {
    inputs.map_values(|input: ProjectConfigInput| input@)
}

/// The issue of a project. A configuration that cannot be judged is an issue too.
pub open spec fn input_issue() -> spec_fn(InputView) -> Option<IssueView> {
    |input: InputView|
        match config_issue(input.candidate, input.raw) {
            Ok(issue) => issue,
            Err(error) => Some(
                issue_of(
                    input.candidate,
                    no_times(),
                    None,
                    "读取或解析项目 config.toml 失败："@ + error_text(error),
                ),
            ),
        }
}

/// Tells the issues that can be repaired.
pub open spec fn is_repairable() -> spec_fn(IssueView) -> bool {
    |issue: IssueView| issue.repairable
}

/// What is wrong with all project configurations.
pub struct ProjectConfigReport {
    pub scanned_projects: u32,
    pub config_files: u32,
    pub issue_count: u32,
    pub repairable_count: u32,
    pub issues: Vec<ProjectConfigIssue>,
}

/// Whether a report tells what is wrong with these projects.
pub open spec fn is_config_report(
    report: ProjectConfigReport,
    scanned_projects: u32,
    inputs: Seq<InputView>,
) -> bool {
    let issues = inputs.filter_map(input_issue());
    &&& issues_view(report.issues@) == issues
    &&& report.scanned_projects == scanned_projects
    &&& report.config_files == inputs.len() as u32
    &&& report.issue_count == issues.len() as u32
    &&& report.repairable_count == count_where(issues, is_repairable()) as u32
}

fn count_repairable(issues: &Vec<ProjectConfigIssue>) -> (count: usize)
    ensures
        count == count_where(issues_view(issues@), is_repairable()),
{
    let ghost all = issues_view(issues@);
    let mut count: usize = 0;
    let mut at: usize = 0;
    while at < issues.len()
        invariant
            at <= issues@.len(),
            count <= at,
            all == issues_view(issues@),
            count == count_where(all.take(at as int), is_repairable()),
        decreases issues.len() - at,
    {
        assert(all.take(at + 1).drop_last() =~= all.take(at as int));
        assert(all.take(at + 1).last() == issues@[at as int]@);
        if issues[at].repairable {
            count = count + 1;
        }
        at = at + 1;
    }
    assert(all.take(at as int) =~= all);
    count
}

/// Diagnoses the configurations of all projects.
pub fn diagnose_project_configs(scanned_projects: u32, inputs: &Vec<ProjectConfigInput>) -> (report:
    ProjectConfigReport)
    ensures
        is_config_report(report, scanned_projects, inputs_view(inputs@)),
{
    let ghost all = inputs_view(inputs@);
    let mut issues: Vec<ProjectConfigIssue> = Vec::new();
    let mut at: usize = 0;
    while at < inputs.len()
        invariant
            at <= inputs@.len(),
            all == inputs_view(inputs@),
            issues_view(issues@) == all.take(at as int).filter_map(input_issue()),
        decreases inputs.len() - at,
    {
        let input = &inputs[at];
        assert(all.take(at + 1).drop_last() =~= all.take(at as int));
        assert(all.take(at + 1).last() == input@);
        let ghost before = issues_view(issues@);
        match diagnose_project_config_candidate(&input.candidate, &input.raw) {
            Ok(Some(issue)) => {
                issues.push(issue);
                assert(issues_view(issues@) =~= before + seq![issue@]);
            },
            Ok(None) => {},
            Err(error) => {
                let issue = project_config_issue(
                    &input.candidate,
                    WaitTimes { min: None, default: None, max: None },
                    None,
                    join2("读取或解析项目 config.toml 失败：", error.message().as_str()),
                );
                issues.push(issue);
                assert(issues_view(issues@) =~= before + seq![issue@]);
            },
        }
        at = at + 1;
    }
    assert(all.take(at as int) =~= all);
    let repairable = count_repairable(&issues);
    ProjectConfigReport {
        scanned_projects,
        config_files: inputs.len() as u32,
        issue_count: issues.len() as u32,
        repairable_count: repairable as u32,
        issues,
    }
}

/// An issue that can be repaired has a proposed default, and only such an issue has.
pub proof fn law_repairable_issues_have_a_suggestion(input: InputView)
    ensures
        input_issue()(input) matches Some(issue) ==> issue.repairable == (issue.suggested is Some),
{
}

/// When a default is suggested: just where it is missing beside a bound or lies outside the bounds.
/// The bound that it breaks is suggested, and the lower one where it is missing.
pub proof fn law_which_default_is_suggested(times: WaitTimes)
    requires
        !bounds_cross(times),
    ensures
        times.default matches Some(default) ==> {
            &&& times.min matches Some(min) ==> (default < min ==> suggested(times) == Some(min))
            &&& times.max matches Some(max) ==> (default > max ==> suggested(times) == Some(max))
            &&& (times.min matches Some(min) ==> min <= default) && (times.max matches Some(max)
                ==> default <= max) ==> suggested(times) is None
        },
        times.default is None ==> {
            &&& times.min is Some ==> suggested(times) == times.min
            &&& times.min is None ==> suggested(times) == times.max
        },
{
}

/// Bounds that cross are told and left to the user; otherwise an issue is told just where a default is
/// suggested, and it names the project with what was read.
pub proof fn law_which_times_are_an_issue(candidate: CandidateView, times: WaitTimes)
    ensures
        times_issue(candidate, times) is Some <==> (times.min matches Some(min) && (
        times.max matches Some(max) && max < min)) || suggested(times) is Some,
        times_issue(candidate, times) matches Some(issue) ==> {
            &&& issue.project_cwd == candidate.project_cwd
            &&& issue.config_path == candidate.config_path
            &&& issue.session_ids == candidate.session_ids
            &&& issue.min == times.min && issue.default == times.default && issue.max == times.max
            &&& issue.repairable <==> !(times.min matches Some(min) && (times.max matches Some(max)
                && max < min))
            &&& issue.repairable ==> issue.suggested == suggested(times)
        },
{
}

/// A waiting time is read from a number that is not negative, and is missing where nothing is
/// entered.
pub proof fn law_which_waiting_times_are_read(table: TomlView, key: Seq<char>)
    ensures
        entry(table, key) is None ==> wait_time(table, key) == Ok::<Option<u64>, Seq<char>>(None),
        entry(table, key) matches Some(value) ==> (wait_time(table, key) is Ok <==> (
        value matches TomlView::Integer(number) && number >= 0)),
        entry(table, key) matches Some(TomlView::Integer(number)) ==> (number >= 0 ==> wait_time(
            table,
            key,
        ) == Ok::<Option<u64>, Seq<char>>(Some(number as u64))),
{
}

/// The three times are read each from its own entry; one that cannot be read stops it.
pub proof fn law_where_waiting_times_are_read(table: TomlView)
    ensures
        ({
            let min = wait_time(table, "min_wait_timeout_ms"@);
            let default = wait_time(table, "default_wait_timeout_ms"@);
            let max = wait_time(table, "max_wait_timeout_ms"@);
            &&& wait_times(table) is Ok <==> min is Ok && default is Ok && max is Ok
            &&& wait_times(table) matches Ok(times) ==> times.min == min->Ok_0 && times.default
                == default->Ok_0 && times.max == max->Ok_0
        }),
{
}

/// What is told of a configuration: one that is no table is an issue that cannot be repaired; without
/// the settings there is none; settings that cannot be read are an error.
pub proof fn law_which_documents_are_an_issue(candidate: CandidateView, document: TomlView)
    ensures
        !(document is Table) ==> (document_issue(candidate, document) matches Ok(Some(issue))
            && !issue.repairable && issue.project_cwd == candidate.project_cwd && issue.config_path
            == candidate.config_path),
        document is Table ==> match table_entry(document, "features"@) {
            Some(features) => match table_entry(features, "multi_agent_v2"@) {
                Some(table) => if wait_times(table) is Ok {
                    document_issue(candidate, document) == Ok::<Option<IssueView>, ErrorView>(
                        times_issue(candidate, wait_times(table)->Ok_0),
                    )
                } else {
                    document_issue(candidate, document) is Err
                },
                None => document_issue(candidate, document) == Ok::<Option<IssueView>, ErrorView>(
                    None,
                ),
            },
            None => document_issue(candidate, document) == Ok::<Option<IssueView>, ErrorView>(None),
        },
{
}

/// A configuration that cannot be read or holds what cannot be used is always told, and never as
/// something that could be repaired.
pub proof fn law_unreadable_configurations_are_told(input: InputView)
    ensures
        config_issue(input.candidate, input.raw) is Err ==> (input_issue()(input) matches Some(issue)
            && !issue.repairable && issue.config_path == input.candidate.config_path
            && issue.project_cwd == input.candidate.project_cwd && issue.session_ids
            == input.candidate.session_ids),
        input.raw is Err ==> config_issue(input.candidate, input.raw) is Err,
{
}

} // verus!
