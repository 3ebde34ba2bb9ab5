//! Sessions that the session list of the editor extension does not show, and giving them a
//! title so that it does.

use vstd::prelude::*;

use crate::error::{error_text, unit_outcome, AppError, ErrorView};
use crate::given_title::{
    ends_with_title, gives_title, lemma_title_pairs, title_pairs, title_text,
};
use crate::gui_title::{gui_visible_title, pieces, split_newlines, visible_title};
use crate::json::{object_of, render, Json};
use crate::seqs::count_where;
use crate::text::{
    before_suffix, chars_of, contains, finishes_with, has_part, holds_text, join3, same,
    strip_suffix, texts,
};

verus! {

/// Whether a character is a hexadecimal digit.
pub open spec fn is_hex_digit(ch: char) -> bool {
    ('0' <= ch <= '9') || ('a' <= ch <= 'f') || ('A' <= ch <= 'F')
}

/// Whether a position of an id is that of a hyphen.
pub open spec fn is_hyphen_place(at: int) -> bool {
    at == 8 || at == 13 || at == 18 || at == 23
}

/// Whether a text has the form of a session id: 36 characters, hyphens in four places and
/// hexadecimal digits in all others.
pub open spec fn is_uuid(text: Seq<char>) -> bool {
    text.len() == 36 && forall|i: int|
        0 <= i < 36 ==> if is_hyphen_place(i) {
            #[trigger] text[i] == '-'
        } else {
            is_hex_digit(text[i])
        }
}

/// Whether a text has the form of a session id.
pub fn is_session_uuid(name: &str) -> (matching: bool)
    ensures
        matching == is_uuid(name@),
{
    let chars = chars_of(name);
    if chars.len() != 36 {
        return false;
    }
    let mut at: usize = 0;
    while at < 36
        invariant
            at <= 36 == chars@.len(),
            chars@ == name@,
            forall|i: int|
                0 <= i < at ==> if is_hyphen_place(i) {
                    #[trigger] chars@[i] == '-'
                } else {
                    is_hex_digit(chars@[i])
                },
        decreases 36 - at,
    {
        let ch = chars[at];
        if at == 8 || at == 13 || at == 18 || at == 23 {
            if ch != '-' {
                assert(chars@[at as int] != '-');
                return false;
            }
        } else if !(('0' <= ch && ch <= '9') || ('a' <= ch && ch <= 'f') || ('A' <= ch && ch
            <= 'F')) {
            assert(!is_hex_digit(chars@[at as int]));
            return false;
        }
        at = at + 1;
    }
    true
}

/// Whether the first line of a session marks a side chain.
pub open spec fn starts_sidechain(head: Seq<char>) -> bool {
    has_part(pieces(head)[0], "\"isSidechain\":true"@) || has_part(
        pieces(head)[0],
        "\"isSidechain\": true"@,
    )
}

proof fn lemma_pieces(text: Seq<char>, start: int, at: int)
    ensures
        crate::gui_title::pieces_from(text, start, at).len() > 0,
    decreases text.len() - at,
{
    if 0 <= at < text.len() {
        if text[at] == '\n' {
            lemma_pieces(text, at + 1, at + 1);
        } else {
            lemma_pieces(text, start, at + 1);
        }
    }
}

/// Whether the first line of a session marks a side chain.
pub fn first_line_is_sidechain(head: &str) -> (marked: bool)
    ensures
        marked == starts_sidechain(head@),
{
    let items = split_newlines(head);
    proof {
        lemma_pieces(head@, 0, 0);
        assert(texts(items@)[0] == items@[0]@);
    }
    contains(items[0].as_str(), "\"isSidechain\":true") || contains(
        items[0].as_str(),
        "\"isSidechain\": true",
    )
}

// ---------------------------------------------------------------------------
// Diagnosis
// ---------------------------------------------------------------------------

/// The first and the last part of a session file.
pub struct Windows {
    pub head: String,
    pub tail: String,
}

/// A file in a project directory, with its first and last part; `None` where it is empty.
pub struct GuiFile {
    pub project_dir: String,
    pub file_name: String,
    pub path: String,
    pub windows: Option<Windows>,
}

/// What a [`GuiFile`] holds.
#[verifier::ext_equal]
pub struct GuiFileView {
    pub project_dir: Seq<char>,
    pub file_name: Seq<char>,
    pub path: Seq<char>,
    pub windows: Option<(Seq<char>, Seq<char>)>,
}

impl View for GuiFile {
    type V = GuiFileView;

    open spec fn view(&self) -> GuiFileView {
        GuiFileView {
            project_dir: self.project_dir@,
            file_name: self.file_name@,
            path: self.path@,
            windows: match self.windows {
                Some(windows) => Some((windows.head@, windows.tail@)),
                None => None,
            },
        }
    }
}

/// What a list of files holds.
pub open spec fn files_view(files: Seq<GuiFile>) -> Seq<GuiFileView> {
    files.map_values(|file: GuiFile| file@)
}

/// What the session list makes of a file.
#[derive(Clone, Copy, PartialEq, Eq, Structural)]
pub enum FileClass {
    /// It is no session file.
    Foreign,
    /// It is empty.
    Empty,
    /// It holds a side chain.
    Sidechain,
    /// It is listed.
    Visible,
    /// It is left out for want of a title.
    Invisible,
}

/// What the session list makes of a file.
pub open spec fn class_of(file: GuiFileView) -> FileClass {
    match before_suffix(file.file_name, ".jsonl"@) {
        None => FileClass::Foreign,
        Some(stem) => if !is_uuid(stem) {
            FileClass::Foreign
        } else {
            match file.windows {
                None => FileClass::Empty,
                Some((head, tail)) => if starts_sidechain(head) {
                    FileClass::Sidechain
                } else if visible_title(head, tail) is Some {
                    FileClass::Visible
                } else {
                    FileClass::Invisible
                },
            }
        },
    }
}

/// Tells the files of one class.
pub open spec fn in_class(class: FileClass) -> spec_fn(GuiFileView) -> bool {
    |file: GuiFileView| class_of(file) == class
}

/// Tells the session files.
pub open spec fn is_session_file() -> spec_fn(GuiFileView) -> bool {
    |file: GuiFileView| class_of(file) != FileClass::Foreign
}

/// What the session list makes of a file.
pub fn classify_file(file: &GuiFile) -> (class: FileClass)
    ensures
        class == class_of(file@),
        (file@.windows matches Some((_, tail)) && ends_with_title(tail)) ==> class
            != FileClass::Invisible,
{
    let stem = match strip_suffix(file.file_name.as_str(), ".jsonl") {
        Some(stem) => stem,
        None => return FileClass::Foreign,
    };
    if !is_session_uuid(stem.as_str()) {
        return FileClass::Foreign;
    }
    match &file.windows {
        None => FileClass::Empty,
        Some(windows) => {
            if first_line_is_sidechain(windows.head.as_str()) {
                FileClass::Sidechain
            } else {
                match gui_visible_title(windows.head.as_str(), windows.tail.as_str()) {
                    Some(_) => FileClass::Visible,
                    None => FileClass::Invisible,
                }
            }
        },
    }
}

/// What is known of a session from its whole file.
pub struct SessionSummary {
    pub rollout_path: String,
    pub id: String,
    pub title: String,
    pub cwd: String,
    pub cwd_display: String,
    pub first_user_message: String,
    pub updated_at: i64,
    pub rollout_bytes: u64,
}

/// What a [`SessionSummary`] holds.
#[verifier::ext_equal]
pub struct SummaryView {
    pub rollout_path: Seq<char>,
    pub id: Seq<char>,
    pub title: Seq<char>,
    pub cwd: Seq<char>,
    pub cwd_display: Seq<char>,
    pub first_user_message: Seq<char>,
    pub updated_at: i64,
    pub rollout_bytes: u64,
}

impl View for SessionSummary {
    type V = SummaryView;

    open spec fn view(&self) -> SummaryView {
        SummaryView {
            rollout_path: self.rollout_path@,
            id: self.id@,
            title: self.title@,
            cwd: self.cwd@,
            cwd_display: self.cwd_display@,
            first_user_message: self.first_user_message@,
            updated_at: self.updated_at,
            rollout_bytes: self.rollout_bytes,
        }
    }
}

/// What a list of summaries holds.
pub open spec fn summaries_view(summaries: Seq<SessionSummary>) -> Seq<SummaryView> {
    summaries.map_values(|summary: SessionSummary| summary@)
}

/// The summary of the session at a path; of several the last counts.
pub open spec fn summary_at(path: Seq<char>) -> spec_fn(SummaryView) -> Option<SummaryView> {
    |summary: SummaryView|
        if summary.rollout_path == path {
            Some(summary)
        } else {
            None
        }
}

/// A session that is not listed, with the title that it could get.
pub struct GuiVisibilityIssue {
    pub session_id: String,
    pub path: String,
    pub project_dir: String,
    pub cwd: String,
    pub proposed_title: String,
    pub updated_at: i64,
    pub file_size: u64,
}

/// What a [`GuiVisibilityIssue`] holds.
#[verifier::ext_equal]
pub struct GuiIssueView {
    pub session_id: Seq<char>,
    pub path: Seq<char>,
    pub project_dir: Seq<char>,
    pub cwd: Seq<char>,
    pub proposed_title: Seq<char>,
    pub updated_at: i64,
    pub file_size: u64,
}

impl View for GuiVisibilityIssue {
    type V = GuiIssueView;

    open spec fn view(&self) -> GuiIssueView {
        GuiIssueView {
            session_id: self.session_id@,
            path: self.path@,
            project_dir: self.project_dir@,
            cwd: self.cwd@,
            proposed_title: self.proposed_title@,
            updated_at: self.updated_at,
            file_size: self.file_size,
        }
    }
}

/// What a list of issues holds.
pub open spec fn gui_issues_view(issues: Seq<GuiVisibilityIssue>) -> Seq<GuiIssueView> {
    issues.map_values(|issue: GuiVisibilityIssue| issue@)
}

/// Whether the title of a summary comes from what the session holds.
pub open spec fn title_from_content(summary: SummaryView) -> bool {
    summary.title.len() > 0 && (summary.first_user_message.len() > 0 || (summary.title != summary.id
        && summary.title != summary.cwd_display))
}

/// The issue of a session that is not listed; `None` where no title can be proposed.
pub open spec fn gui_issue(
    file: GuiFileView,
    summary: Option<SummaryView>,
) -> Option<GuiIssueView> {
    match summary {
        Some(summary) => if title_from_content(summary) {
            Some(
                GuiIssueView {
                    session_id: if summary.id.len() == 0 {
                        before_suffix(file.file_name, ".jsonl"@)->Some_0
                    } else {
                        summary.id
                    },
                    path: file.path,
                    project_dir: file.project_dir,
                    cwd: summary.cwd,
                    proposed_title: summary.title,
                    updated_at: summary.updated_at,
                    file_size: summary.rollout_bytes,
                },
            )
        } else {
            None
        },
        None => None,
    }
}

/// The issue of a file, where it is a session that is not listed.
pub open spec fn file_issue(summaries: Seq<SummaryView>) -> spec_fn(GuiFileView) -> Option<
    GuiIssueView,
> {
    |file: GuiFileView|
        if class_of(file) == FileClass::Invisible {
            gui_issue(file, crate::seqs::last_found(summaries, summary_at(file.path)))
        } else {
            None
        }
}

/// Tells the sessions that are not listed and for which no title can be proposed.
pub open spec fn is_unfixable(summaries: Seq<SummaryView>) -> spec_fn(GuiFileView) -> bool {
    |file: GuiFileView|
        class_of(file) == FileClass::Invisible && file_issue(summaries)(file) is None
}

/// Issues with one more, after all that were changed no earlier.
pub open spec fn with_issue(issues: Seq<GuiIssueView>, issue: GuiIssueView) -> Seq<GuiIssueView>
    decreases issues.len(),
{
    if issues.len() == 0 || issues.last().updated_at >= issue.updated_at {
        issues.push(issue)
    } else {
        with_issue(issues.drop_last(), issue).push(issues.last())
    }
}

/// Issues with the one changed last first; those changed at one time keep their order.
pub open spec fn latest_first(issues: Seq<GuiIssueView>) -> Seq<GuiIssueView>
    decreases issues.len(),
{
    if issues.len() == 0 {
        Seq::empty()
    } else {
        with_issue(latest_first(issues.drop_last()), issues.last())
    }
}

/// Which sessions are not listed.
pub struct GuiVisibilityReport {
    pub provider: String,
    pub projects_root: String,
    pub scanned_sessions: u32,
    pub visible_sessions: u32,
    pub sidechain_sessions: u32,
    pub empty_sessions: u32,
    pub unfixable_sessions: u32,
    pub issues: Vec<GuiVisibilityIssue>,
}

/// Whether a report tells which of these sessions are not listed.
pub open spec fn is_gui_report(
    report: GuiVisibilityReport,
    provider: Seq<char>,
    projects_root: Seq<char>,
    files: Seq<GuiFileView>,
    summaries: Seq<SummaryView>,
) -> bool {
    &&& report.provider@ == provider
    &&& report.projects_root@ == projects_root
    &&& report.scanned_sessions == count_where(files, is_session_file())
    &&& report.visible_sessions == count_where(files, in_class(FileClass::Visible))
    &&& report.sidechain_sessions == count_where(files, in_class(FileClass::Sidechain))
    &&& report.empty_sessions == count_where(files, in_class(FileClass::Empty))
    &&& report.unfixable_sessions == count_where(files, is_unfixable(summaries))
    &&& gui_issues_view(report.issues@) == latest_first(files.filter_map(file_issue(summaries)))
}

fn find_summary<'a>(summaries: &'a Vec<SessionSummary>, path: &str) -> (found: Option<
    &'a SessionSummary,
>)
    ensures
        match found {
            Some(summary) => crate::seqs::last_found(
                summaries_view(summaries@),
                summary_at(path@),
            ) == Some(summary@),
            None => crate::seqs::last_found(
                summaries_view(summaries@),
                summary_at(path@),
            ) is None,
        },
{
    let ghost all = summaries_view(summaries@);
    let mut at: usize = summaries.len();
    assert(all.take(at as int) =~= all);
    while at > 0
        invariant
            at <= summaries@.len(),
            all == summaries_view(summaries@),
            crate::seqs::last_found(all, summary_at(path@)) == crate::seqs::last_found(
                all.take(at as int),
                summary_at(path@),
            ),
        decreases at,
    {
        assert(all.take(at as int).drop_last() =~= all.take(at - 1));
        at = at - 1;
        assert(all.take(at + 1).last() == summaries@[at as int]@);
        if same(summaries[at].rollout_path.as_str(), path) {
            return Some(&summaries[at]);
        }
    }
    None
}

fn propose(file: &GuiFile, summary: Option<&SessionSummary>) -> (issue: Option<GuiVisibilityIssue>)
    requires
        before_suffix(file@.file_name, ".jsonl"@) is Some,
    ensures
        match issue {
            Some(issue) => gui_issue(
                file@,
                match summary {
                    Some(summary) => Some(summary@),
                    None => None,
                },
            ) == Some(issue@),
            None => gui_issue(
                file@,
                match summary {
                    Some(summary) => Some(summary@),
                    None => None,
                },
            ) is None,
        },
{
    let summary = match summary {
        Some(summary) => summary,
        None => return None,
    };
    let content_derived = !summary.first_user_message.as_str().is_empty() || (!same(
        summary.title.as_str(),
        summary.id.as_str(),
    ) && !same(summary.title.as_str(), summary.cwd_display.as_str()));
    if !content_derived || summary.title.as_str().is_empty() {
        return None;
    }
    let session_id = if summary.id.as_str().is_empty() {
        match strip_suffix(file.file_name.as_str(), ".jsonl") {
            Some(stem) => stem,
            None => String::new(),
        }
    } else {
        summary.id.clone()
    };
    Some(
        GuiVisibilityIssue {
            session_id,
            path: file.path.clone(),
            project_dir: file.project_dir.clone(),
            cwd: summary.cwd.clone(),
            proposed_title: summary.title.clone(),
            updated_at: summary.updated_at,
            file_size: summary.rollout_bytes,
        },
    )
}

fn insert_issue(issues: &mut Vec<GuiVisibilityIssue>, issue: GuiVisibilityIssue)
    ensures
        gui_issues_view(final(issues)@) == with_issue(gui_issues_view(old(issues)@), issue@),
{
    let ghost all = gui_issues_view(issues@);
    let mut at: usize = issues.len();
    assert(all.take(at as int) =~= all);
    assert(with_issue(all, issue@) =~= with_issue(all.take(at as int), issue@) + all.skip(
        at as int,
    ));
    while at > 0 && issues[at - 1].updated_at < issue.updated_at
        invariant
            at <= issues@.len(),
            all == gui_issues_view(issues@),
            issues@ == old(issues)@,
            with_issue(all, issue@) == with_issue(all.take(at as int), issue@) + all.skip(
                at as int,
            ),
        decreases at,
    {
        let ghost head = all.take(at as int);
        assert(head.drop_last() =~= all.take(at - 1));
        assert(head.last() == all[at - 1]);
        assert(with_issue(all.take(at - 1), issue@).push(all[at - 1]) + all.skip(at as int)
            =~= with_issue(all.take(at - 1), issue@) + all.skip(at - 1));
        at = at - 1;
    }
    let ghost head = all.take(at as int);
    if at > 0 {
        assert(head.last() == all[at - 1]);
    }
    issues.insert(at, issue);
    assert(gui_issues_view(issues@) =~= all.insert(at as int, issue@));
    assert(head.push(issue@) + all.skip(at as int) =~= all.insert(at as int, issue@));
}

proof fn lemma_latest_first_step(issues: Seq<GuiIssueView>, issue: GuiIssueView)
    ensures
        latest_first(issues + seq![issue]) == with_issue(latest_first(issues), issue),
{
    assert((issues + seq![issue]).drop_last() =~= issues);
    assert((issues + seq![issue]).last() == issue);
}

/// Tells which sessions are not listed, and for which a title can be proposed. `provider`
/// names the assistant whose sessions these are.
pub fn diagnose_claude_gui_visibility(
    provider: &str,
    projects_root: &str,
    files: &Vec<GuiFile>,
    summaries: &Vec<SessionSummary>,
) -> (report: GuiVisibilityReport)
    requires
        files@.len() <= u32::MAX,
    ensures
        is_gui_report(
            report,
            provider@,
            projects_root@,
            files_view(files@),
            summaries_view(summaries@),
        ),
{
    let ghost all = files_view(files@);
    let ghost known = summaries_view(summaries@);
    let ghost pick = file_issue(known);
    let mut scanned: u32 = 0;
    let mut visible: u32 = 0;
    let mut sidechain: u32 = 0;
    let mut empty: u32 = 0;
    let mut unfixable: u32 = 0;
    let mut issues: Vec<GuiVisibilityIssue> = Vec::new();
    assert(gui_issues_view(issues@) =~= Seq::empty());
    let mut at: usize = 0;
    while at < files.len()
        invariant
            at <= files@.len() <= u32::MAX,
            all == files_view(files@),
            known == summaries_view(summaries@),
            pick == file_issue(known),
            scanned <= at,
            visible <= at,
            sidechain <= at,
            empty <= at,
            unfixable <= at,
            scanned == count_where(all.take(at as int), is_session_file()),
            visible == count_where(all.take(at as int), in_class(FileClass::Visible)),
            sidechain == count_where(all.take(at as int), in_class(FileClass::Sidechain)),
            empty == count_where(all.take(at as int), in_class(FileClass::Empty)),
            unfixable == count_where(all.take(at as int), is_unfixable(known)),
            gui_issues_view(issues@) == latest_first(all.take(at as int).filter_map(pick)),
        decreases files.len() - at,
    {
        let file = &files[at];
        assert(all.take(at + 1).drop_last() =~= all.take(at as int));
        assert(all.take(at + 1).last() == file@);
        match classify_file(file) {
            FileClass::Foreign => {},
            FileClass::Empty => {
                scanned = scanned + 1;
                empty = empty + 1;
            },
            FileClass::Sidechain => {
                scanned = scanned + 1;
                sidechain = sidechain + 1;
            },
            FileClass::Visible => {
                scanned = scanned + 1;
                visible = visible + 1;
            },
            FileClass::Invisible => {
                scanned = scanned + 1;
                match propose(file, find_summary(summaries, file.path.as_str())) {
                    Some(issue) => {
                        proof {
                            lemma_latest_first_step(
                                all.take(at as int).filter_map(pick),
                                issue@,
                            );
                        }
                        insert_issue(&mut issues, issue);
                    },
                    None => {
                        unfixable = unfixable + 1;
                    },
                }
            },
        }
        at = at + 1;
    }
    assert(all.take(at as int) =~= all);
    GuiVisibilityReport {
        provider: provider.to_owned(),
        projects_root: projects_root.to_owned(),
        scanned_sessions: scanned,
        visible_sessions: visible,
        sidechain_sessions: sidechain,
        empty_sessions: empty,
        unfixable_sessions: unfixable,
        issues,
    }
}

/// Every session file is listed, a side chain, empty, without a possible title, or an
/// issue.
pub proof fn law_sessions_fall_in_five(files: Seq<GuiFileView>, summaries: Seq<SummaryView>)
    ensures
        count_where(files, is_session_file()) == count_where(files, in_class(FileClass::Visible))
            + count_where(files, in_class(FileClass::Sidechain)) + count_where(
            files,
            in_class(FileClass::Empty),
        ) + count_where(files, is_unfixable(summaries)) + files.filter_map(
            file_issue(summaries),
        ).len(),
    decreases files.len(),
{
    if files.len() > 0 {
        law_sessions_fall_in_five(files.drop_last(), summaries);
    }
}

/// Issues are ordered by when their sessions were changed, the last first.
pub proof fn law_issues_are_latest_first(issues: Seq<GuiIssueView>)
    ensures
        latest_first(issues).len() == issues.len(),
        forall|i: int, j: int|
            0 <= i < j < latest_first(issues).len() ==> (#[trigger] latest_first(
                issues,
            )[i]).updated_at >= (#[trigger] latest_first(issues)[j]).updated_at,
    decreases issues.len(),
{
    if issues.len() > 0 {
        law_issues_are_latest_first(issues.drop_last());
        lemma_with_issue_sorted(latest_first(issues.drop_last()), issues.last());
    }
}

spec fn falling(issues: Seq<GuiIssueView>) -> bool {
    forall|i: int, j: int|
        0 <= i < j < issues.len() ==> (#[trigger] issues[i]).updated_at >= (
        #[trigger] issues[j]).updated_at
}

proof fn lemma_with_issue_sorted(issues: Seq<GuiIssueView>, issue: GuiIssueView)
    requires
        falling(issues),
    ensures
        falling(with_issue(issues, issue)),
        with_issue(issues, issue).len() == issues.len() + 1,
        forall|i: int|
            0 <= i < with_issue(issues, issue).len() ==> (#[trigger] with_issue(
                issues,
                issue,
            )[i]).updated_at >= issue.updated_at || (issues.len() > 0 && with_issue(
                issues,
                issue,
            )[i].updated_at >= issues.last().updated_at),
    decreases issues.len(),
{
    if issues.len() > 0 && issues.last().updated_at < issue.updated_at {
        let rest = issues.drop_last();
        assert(falling(rest)) by {
            assert forall|i: int, j: int| 0 <= i < j < rest.len() implies (
            #[trigger] rest[i]).updated_at >= (#[trigger] rest[j]).updated_at by {
                assert(rest[i] == issues[i] && rest[j] == issues[j]);
            }
        }
        lemma_with_issue_sorted(rest, issue);
        let before = with_issue(rest, issue);
        let last = issues.last();
        assert(issues[issues.len() - 1] == last);
        if rest.len() > 0 {
            assert(rest.last() == issues[issues.len() - 2]);
        }
        assert forall|i: int| 0 <= i < before.len() implies (#[trigger] before[i]).updated_at
            >= last.updated_at by {}
        let all = with_issue(issues, issue);
        assert forall|i: int, j: int| 0 <= i < j < all.len() implies (#[trigger] all[i]).updated_at
            >= (#[trigger] all[j]).updated_at by {
            assert(all[i] == before[i]);
            if j < before.len() {
                assert(all[j] == before[j]);
            }
        }
    } else {
        let all = with_issue(issues, issue);
        assert forall|i: int, j: int| 0 <= i < j < all.len() implies (#[trigger] all[i]).updated_at
            >= (#[trigger] all[j]).updated_at by {
            assert(all[i] == issues[i]);
            if j < issues.len() {
                assert(all[j] == issues[j]);
            } else if i < issues.len() - 1 {
                assert(issues[i].updated_at >= issues[issues.len() - 1].updated_at);
            }
        }
    }
}

// ---------------------------------------------------------------------------
// Repair
// ---------------------------------------------------------------------------

/// What became of sessions that are not listed.
pub struct GuiVisibilityFixReport {
    pub provider: String,
    pub fixed: u32,
    pub skipped: u32,
    pub dry_run: bool,
    pub fixed_session_ids: Vec<String>,
    pub errors: Vec<String>,
}

/// Whether a session is among those that are wanted; all are where none are named.
pub open spec fn is_wanted(wanted: Option<Seq<Seq<char>>>, id: Seq<char>) -> bool {
    match wanted {
        Some(ids) => ids.contains(id),
        None => true,
    }
}

/// What a list of optional ids holds.
pub open spec fn opt_texts(items: Option<Vec<String>>) -> Option<Seq<Seq<char>>> {
    match items {
        Some(items) => Some(texts(items@)),
        None => None,
    }
}

/// The sessions among the first issues that get a title, in order.
pub open spec fn fixed_ids(
    issues: Seq<GuiIssueView>,
    wanted: Option<Seq<Seq<char>>>,
    written: Seq<Result<(), ErrorView>>,
    dry_run: bool,
    count: int,
) -> Seq<Seq<char>>
    decreases count,
{
    if count <= 0 {
        Seq::empty()
    } else {
        let rest = fixed_ids(issues, wanted, written, dry_run, count - 1);
        let issue = issues[count - 1];
        if is_wanted(wanted, issue.session_id) && (dry_run || written[count - 1] is Ok) {
            rest.push(issue.session_id)
        } else {
            rest
        }
    }
}

/// The messages on the first issues, in order.
pub open spec fn fix_errors(
    issues: Seq<GuiIssueView>,
    wanted: Option<Seq<Seq<char>>>,
    written: Seq<Result<(), ErrorView>>,
    dry_run: bool,
    count: int,
) -> Seq<Seq<char>>
    decreases count,
{
    if count <= 0 {
        Seq::empty()
    } else {
        let rest = fix_errors(issues, wanted, written, dry_run, count - 1);
        let issue = issues[count - 1];
        match written[count - 1] {
            Err(error) => if is_wanted(wanted, issue.session_id) && !dry_run {
                rest.push(issue.session_id + ": "@ + error_text(error))
            } else {
                rest
            },
            Ok(()) => rest,
        }
    }
}

/// Tells the issues of sessions that are not wanted.
pub open spec fn not_wanted(wanted: Option<Seq<Seq<char>>>) -> spec_fn(GuiIssueView) -> bool {
    |issue: GuiIssueView| !is_wanted(wanted, issue.session_id)
}

/// What outcomes of writing hold.
pub open spec fn writes_view(written: Seq<Result<(), AppError>>) -> Seq<Result<(), ErrorView>> {
    written.map_values(|outcome: Result<(), AppError>| unit_outcome(outcome))
}

/// Which issues have a title written, in their order: those of wanted sessions, and on a dry
/// run none.
pub fn titles_to_write(
    issues: &Vec<GuiVisibilityIssue>,
    wanted: &Option<Vec<String>>,
    dry_run: bool,
) -> (write: Vec<bool>)
    ensures
        write@.len() == issues@.len(),
        forall|i: int|
            0 <= i < write@.len() ==> #[trigger] write@[i] == (!dry_run && is_wanted(
                opt_texts(*wanted),
                issues@[i].session_id@,
            )),
{
    let mut write: Vec<bool> = Vec::new();
    let mut at: usize = 0;
    while at < issues.len()
        invariant
            at <= issues@.len(),
            write@.len() == at,
            forall|i: int|
                0 <= i < at ==> #[trigger] write@[i] == (!dry_run && is_wanted(
                    opt_texts(*wanted),
                    issues@[i].session_id@,
                )),
        decreases issues.len() - at,
    {
        let asked = match wanted {
            Some(list) => holds_text(list, issues[at].session_id.as_str()),
            None => true,
        };
        write.push(!dry_run && asked);
        at = at + 1;
    }
    write
}

/// Whether a report tells which issues were fixed, skipped or failed.
pub open spec fn is_fix_report(
    report: GuiVisibilityFixReport,
    provider: Seq<char>,
    issues: Seq<GuiIssueView>,
    wanted: Option<Seq<Seq<char>>>,
    written: Seq<Result<(), ErrorView>>,
    dry_run: bool,
) -> bool {
    let count = issues.len() as int;
    let fixed = fixed_ids(issues, wanted, written, dry_run, count);
    &&& report.provider@ == provider
    &&& report.fixed == fixed.len()
    &&& report.skipped == count_where(issues, not_wanted(wanted))
    &&& report.dry_run == dry_run
    &&& texts(report.fixed_session_ids@) == fixed
    &&& texts(report.errors@) == fix_errors(issues, wanted, written, dry_run, count)
}

/// Tells what became of sessions that are not listed. `wanted` are the sessions to give a
/// title, all where it is `None`; `written` is what appending the title record of each
/// issue gave, in their order. On a dry run nothing is written and `written` is not looked
/// at.
pub fn repair_claude_gui_visibility(
    provider: &str,
    issues: &Vec<GuiVisibilityIssue>,
    wanted: &Option<Vec<String>>,
    written: &Vec<Result<(), AppError>>,
    dry_run: bool,
) -> (report: GuiVisibilityFixReport)
    requires
        issues@.len() <= u32::MAX,
        dry_run || written@.len() == issues@.len(),
    ensures
        is_fix_report(
            report,
            provider@,
            gui_issues_view(issues@),
            opt_texts(*wanted),
            writes_view(written@),
            dry_run,
        ),
{
    let ghost all = gui_issues_view(issues@);
    let ghost ids = opt_texts(*wanted);
    let ghost outcomes = writes_view(written@);
    let mut fixed: u32 = 0;
    let mut skipped: u32 = 0;
    let mut fixed_session_ids: Vec<String> = Vec::new();
    let mut errors: Vec<String> = Vec::new();
    assert(texts(fixed_session_ids@) =~= Seq::empty());
    assert(texts(errors@) =~= Seq::empty());
    let mut at: usize = 0;
    while at < issues.len()
        invariant
            at <= issues@.len() <= u32::MAX,
            dry_run || written@.len() == issues@.len(),
            all == gui_issues_view(issues@),
            ids == opt_texts(*wanted),
            outcomes == writes_view(written@),
            fixed <= at,
            skipped <= at,
            fixed == fixed_session_ids@.len(),
            skipped == count_where(all.take(at as int), not_wanted(ids)),
            texts(fixed_session_ids@) == fixed_ids(all, ids, outcomes, dry_run, at as int),
            texts(errors@) == fix_errors(all, ids, outcomes, dry_run, at as int),
        decreases issues.len() - at,
    {
        let issue = &issues[at];
        assert(all.take(at + 1).drop_last() =~= all.take(at as int));
        assert(all.take(at + 1).last() == issue@);
        assert(all[at as int] == issue@);
        let ghost fixed_before = texts(fixed_session_ids@);
        let ghost errors_before = texts(errors@);
        let asked = match wanted {
            Some(list) => holds_text(list, issue.session_id.as_str()),
            None => true,
        };
        if !asked {
            skipped = skipped + 1;
        } else {
            let mut failed = false;
            if !dry_run {
                assert(outcomes[at as int] == unit_outcome(written@[at as int]));
                if let Err(error) = &written[at] {
                    failed = true;
                    let message = join3(
                        issue.session_id.as_str(),
                        ": ",
                        error.message().as_str(),
                    );
                    errors.push(message);
                    assert(texts(errors@) =~= errors_before.push(message@));
                }
            }
            if !failed {
                fixed = fixed + 1;
                fixed_session_ids.push(issue.session_id.clone());
                assert(texts(fixed_session_ids@) =~= fixed_before.push(issue.session_id@));
            }
        }
        at = at + 1;
    }
    assert(all.take(at as int) =~= all);
    GuiVisibilityFixReport {
        provider: provider.to_owned(),
        fixed,
        skipped,
        dry_run,
        fixed_session_ids,
        errors,
    }
}

/// What is appended to a session file to give it a title: a line break where the file does
/// not end with one, the record, and a line break. `last` is the last byte of the file;
/// `None` where it is empty.
pub open spec fn title_lines(last: Option<u8>, session_id: Seq<char>, title: Seq<char>) -> Seq<
    char,
> {
    (if last is Some && last != Some(10u8) {
        "\n"@
    } else {
        Seq::empty()
    }) + title_text(session_id, title) + "\n"@
}

/// What is appended to a session file to give it a title: whatever the file holds, its last
/// line then gives the title. A path that is no ordinary file is refused; `assistant` is the name
/// of the assistant in that refusal.
pub fn append_custom_title(
    assistant: &str,
    path: &str,
    is_ordinary: bool,
    last: Option<u8>,
    session_id: &str,
    title: &str,
) -> (lines: Result<String, AppError>)
    ensures
        crate::error::text_outcome(lines) == if is_ordinary {
            Ok::<Seq<char>, ErrorView>(title_lines(last, session_id@, title@))
        } else {
            Err(
                ErrorView::Path(
                    assistant@ + " 会话路径不是普通文件或属于链接/junction: "@ + path@,
                ),
            )
        },
{
    if !is_ordinary {
        return Err(
            AppError::Path(
                join3(assistant, " 会话路径不是普通文件或属于链接/junction: ", path),
            ),
        );
    }
    let record = Json::object().set_str("customTitle", title).set_str(
        "sessionId",
        session_id,
    ).set_str("type", "custom-title");
    proof {
        lemma_title_pairs(session_id@, title@);
        assert(record.model() == object_of(title_pairs(session_id@, title@)));
    }
    let needs_newline = match last {
        Some(byte) => byte != 10,
        None => false,
    };
    let mut lines = if needs_newline {
        "\n".to_owned()
    } else {
        String::new()
    };
    lines.append(render(&record).as_str());
    lines.append("\n");
    Ok(lines)
}

/// What is appended to the file of an issue: the line that gives its session the proposed
/// title.
pub fn append_proposed_title(
    assistant: &str,
    issue: &GuiVisibilityIssue,
    is_ordinary: bool,
    last: Option<u8>,
) -> (lines: Result<String, AppError>)
    ensures
        crate::error::text_outcome(lines) == if is_ordinary {
            Ok::<Seq<char>, ErrorView>(
                title_lines(last, issue.session_id@, issue.proposed_title@),
            )
        } else {
            Err(
                ErrorView::Path(
                    assistant@ + " 会话路径不是普通文件或属于链接/junction: "@ + issue.path@,
                ),
            )
        },
{
    append_custom_title(
        assistant,
        issue.path.as_str(),
        is_ordinary,
        last,
        issue.session_id.as_str(),
        issue.proposed_title.as_str(),
    )
}

/// Every issue is fixed, skipped or has a message, and no two of these. A dry run gives no
/// message.
pub proof fn law_fixes_account_for_issues(
    issues: Seq<GuiIssueView>,
    wanted: Option<Seq<Seq<char>>>,
    written: Seq<Result<(), ErrorView>>,
    dry_run: bool,
    count: int,
)
    requires
        0 <= count <= issues.len(),
    ensures
        fixed_ids(issues, wanted, written, dry_run, count).len() + count_where(
            issues.take(count),
            not_wanted(wanted),
        ) + fix_errors(issues, wanted, written, dry_run, count).len() == count,
        dry_run ==> fix_errors(issues, wanted, written, dry_run, count).len() == 0,
    decreases count,
{
    if count > 0 {
        law_fixes_account_for_issues(issues, wanted, written, dry_run, count - 1);
        assert(issues.take(count).drop_last() =~= issues.take(count - 1));
        assert(issues.take(count).last() == issues[count - 1]);
    } else {
        assert(issues.take(count) =~= Seq::empty());
    }
}

/// Whatever a session file holds, once a title that is not empty was appended to it its last
/// line gives a title; so it is listed wherever that line is looked at.
pub proof fn law_appended_title_is_last(
    file: Seq<char>,
    last: Option<u8>,
    session_id: Seq<char>,
    title: Seq<char>,
)
    requires
        title.len() > 0,
    ensures
        ends_with_title(file + title_lines(last, session_id, title)),
{
    let before = file + if last is Some && last != Some(10u8) {
        "\n"@
    } else {
        Seq::empty()
    };
    assert(file + title_lines(last, session_id, title) =~= before + title_text(session_id, title)
        + "\n"@);
    assert(gives_title(
        file + title_lines(last, session_id, title),
        before,
        session_id,
        title,
    ));
}

/// A report counts the sessions that it names as fixed, and with those that it skipped and those
/// that it has a message on it tells of every issue. Where all sessions are asked for, none is
/// skipped, and a dry run gives no message.
pub proof fn law_fix_report_tells_of_every_issue(
    report: GuiVisibilityFixReport,
    provider: Seq<char>,
    issues: Seq<GuiIssueView>,
    wanted: Option<Seq<Seq<char>>>,
    written: Seq<Result<(), ErrorView>>,
    dry_run: bool,
)
    requires
        is_fix_report(report, provider, issues, wanted, written, dry_run),
    ensures
        report.fixed == report.fixed_session_ids@.len(),
        report.fixed + report.skipped + report.errors@.len() == issues.len(),
        wanted is None ==> report.skipped == 0,
        dry_run ==> report.errors@.len() == 0,
{
    let count = issues.len() as int;
    law_fixes_account_for_issues(issues, wanted, written, dry_run, count);
    assert(issues.take(count) =~= issues);
    assert(texts(report.fixed_session_ids@).len() == report.fixed_session_ids@.len());
    assert(texts(report.errors@).len() == report.errors@.len());
    if wanted is None {
        lemma_all_wanted(issues);
    }
}

proof fn lemma_all_wanted(issues: Seq<GuiIssueView>)
    ensures
        count_where(issues, not_wanted(None)) == 0,
    decreases issues.len(),
{
    if issues.len() > 0 {
        lemma_all_wanted(issues.drop_last());
    }
}

/// Which class a file is in, told by its name and what it holds: only files that are named after a
/// session are looked at, side chains are passed over, and a title decides about the rest.
pub proof fn law_which_files_are_visible(file: GuiFileView, stem: Seq<char>)
    requires
        file.file_name == stem + ".jsonl"@,
    ensures
        class_of(file) == FileClass::Foreign <==> !is_uuid(stem),
        class_of(file) == FileClass::Empty <==> is_uuid(stem) && file.windows is None,
        class_of(file) == FileClass::Sidechain <==> is_uuid(stem) && (file.windows matches Some(
            (head, _),
        ) && starts_sidechain(head)),
        class_of(file) == FileClass::Visible <==> is_uuid(stem) && (file.windows matches Some(
            (head, tail),
        ) && !starts_sidechain(head) && visible_title(head, tail) is Some),
        class_of(file) == FileClass::Invisible <==> is_uuid(stem) && (file.windows matches Some(
            (head, tail),
        ) && !starts_sidechain(head) && visible_title(head, tail) is None),
{
    let end = ".jsonl"@;
    let name = file.file_name;
    assert(name.subrange(name.len() - end.len(), name.len() as int) =~= end);
    assert(name.take(name.len() - end.len()) =~= stem);
}

/// A file with another ending is no session file.
pub proof fn law_other_files_are_foreign(file: GuiFileView)
    ensures
        !finishes_with(file.file_name, ".jsonl"@) ==> class_of(file) == FileClass::Foreign,
{
}

/// A file that no title is shown for can be given one just where its content has one: the title of
/// its summary, provided that it is more than the id or the folder.
pub proof fn law_which_files_can_get_a_title(file: GuiFileView, summary: SummaryView)
    ensures
        gui_issue(file, None) is None,
        gui_issue(file, Some(summary)) is Some <==> summary.title.len() > 0 && (
        summary.first_user_message.len() > 0 || (summary.title != summary.id && summary.title
            != summary.cwd_display)),
        gui_issue(file, Some(summary)) matches Some(issue) ==> {
            &&& issue.path == file.path
            &&& issue.project_dir == file.project_dir
            &&& issue.cwd == summary.cwd
            &&& issue.proposed_title == summary.title
            &&& issue.updated_at == summary.updated_at
            &&& issue.file_size == summary.rollout_bytes
            &&& summary.id.len() > 0 ==> issue.session_id == summary.id
            &&& summary.id.len() == 0 ==> forall|stem: Seq<char>|
                file.file_name == #[trigger] (stem + ".jsonl"@) ==> issue.session_id == stem
        },
{
    if summary.id.len() == 0 {
        if let Some(issue) = gui_issue(file, Some(summary)) {
            assert forall|stem: Seq<char>|
                file.file_name == #[trigger] (stem + ".jsonl"@) implies issue.session_id == stem by {
                let end = ".jsonl"@;
                let name = file.file_name;
                assert(name.subrange(name.len() - end.len(), name.len() as int) =~= end);
                assert(name.take(name.len() - end.len()) =~= stem);
            }
        }
    }
}

/// Putting issues in order neither loses nor adds any, and of two of one moment the one that was
/// found first stays first.
pub proof fn law_ordering_keeps_the_issues(issues: Seq<GuiIssueView>, last: GuiIssueView)
    ensures
        latest_first(issues).to_multiset() == issues.to_multiset(),
        (forall|i: int|
            0 <= i < issues.len() ==> (#[trigger] issues[i]).updated_at >= last.updated_at)
            ==> latest_first(issues.push(last)) == latest_first(issues).push(last),
    decreases issues.len(),
{
    broadcast use vstd::seq_lib::group_to_multiset_ensures;

    assert(issues.push(last).drop_last() =~= issues);
    law_issues_are_latest_first(issues);
    if issues.len() > 0 {
        let rest = issues.drop_last();
        law_ordering_keeps_the_issues(rest, issues.last());
        lemma_with_issue_multiset(latest_first(rest), issues.last());
        assert(issues =~= rest.push(issues.last()));
        if forall|i: int|
            0 <= i < issues.len() ==> (#[trigger] issues[i]).updated_at >= last.updated_at {
            let ordered = latest_first(issues);
            assert(ordered.to_multiset().count(ordered.last()) > 0) by {
                assert(ordered.contains(ordered.last()));
            }
            assert(issues.contains(ordered.last()));
        }
    } else {
        assert(latest_first(issues) =~= issues);
    }
}

proof fn lemma_with_issue_multiset(issues: Seq<GuiIssueView>, issue: GuiIssueView)
    ensures
        with_issue(issues, issue).to_multiset() == issues.to_multiset().insert(issue),
    decreases issues.len(),
{
    broadcast use vstd::seq_lib::group_to_multiset_ensures;

    if issues.len() == 0 || issues.last().updated_at >= issue.updated_at {
    } else {
        let rest = issues.drop_last();
        lemma_with_issue_multiset(rest, issue);
        assert(issues =~= rest.push(issues.last()));
        assert(with_issue(issues, issue).to_multiset() =~= rest.to_multiset().insert(issue).insert(
            issues.last(),
        ));
        assert(issues.to_multiset().insert(issue) =~= rest.to_multiset().insert(
            issues.last(),
        ).insert(issue));
    }
}

/// What a repair does to each issue. One that is wanted is fixed where its title was written, or
/// would be fixed where this is a rehearsal, and else its error is told; one that is not wanted is
/// left alone. Nothing else is told.
pub proof fn law_which_issues_are_fixed(
    issues: Seq<GuiIssueView>,
    wanted: Option<Seq<Seq<char>>>,
    written: Seq<Result<(), ErrorView>>,
    dry_run: bool,
    id: Seq<char>,
)
    ensures
        fixed_ids(issues, wanted, written, dry_run, issues.len() as int).contains(id) <==> exists|
            i: int,
        |
            0 <= i < issues.len() && (#[trigger] issues[i]).session_id == id && (wanted matches Some(
                ids,
            ) ==> ids.contains(id)) && (dry_run || written[i] is Ok),
        forall|i: int|
            0 <= i < issues.len() && !dry_run && (wanted matches Some(ids) ==> ids.contains(
                (#[trigger] issues[i]).session_id,
            )) ==> (written[i] matches Err(error) ==> fix_errors(
                issues,
                wanted,
                written,
                dry_run,
                issues.len() as int,
            ).contains(issues[i].session_id + ": "@ + error_text(error))),
{
    lemma_fixed(issues, wanted, written, dry_run, id, issues.len() as int);
}

proof fn lemma_fixed(
    issues: Seq<GuiIssueView>,
    wanted: Option<Seq<Seq<char>>>,
    written: Seq<Result<(), ErrorView>>,
    dry_run: bool,
    id: Seq<char>,
    count: int,
)
    requires
        0 <= count <= issues.len(),
    ensures
        fixed_ids(issues, wanted, written, dry_run, count).contains(id) <==> exists|i: int|
            0 <= i < count && (#[trigger] issues[i]).session_id == id && (wanted matches Some(ids)
                ==> ids.contains(id)) && (dry_run || written[i] is Ok),
        forall|i: int|
            0 <= i < count && !dry_run && (wanted matches Some(ids) ==> ids.contains(
                (#[trigger] issues[i]).session_id,
            )) ==> (written[i] matches Err(error) ==> fix_errors(
                issues,
                wanted,
                written,
                dry_run,
                count,
            ).contains(issues[i].session_id + ": "@ + error_text(error))),
    decreases count,
{
    if count > 0 {
        lemma_fixed(issues, wanted, written, dry_run, id, count - 1);
        let before = fixed_ids(issues, wanted, written, dry_run, count - 1);
        let after = fixed_ids(issues, wanted, written, dry_run, count);
        let issue = issues[count - 1];
        if after != before {
            assert(after == before.push(issue.session_id));
            assert(after[before.len() as int] == issue.session_id);
            assert forall|i: int| 0 <= i < before.len() implies after[i] == before[i] by {}
            if before.contains(id) {
                let k = choose|k: int| 0 <= k < before.len() && before[k] == id;
                assert(after[k] == id);
            }
            if after.contains(id) && issue.session_id != id {
                let k = choose|k: int| 0 <= k < after.len() && after[k] == id;
                assert(before[k] == id);
            }
            assert(before.push(issue.session_id).contains(issue.session_id));
        }
        let told = fix_errors(issues, wanted, written, dry_run, count - 1);
        let all = fix_errors(issues, wanted, written, dry_run, count);
        assert forall|text: Seq<char>| #[trigger] told.contains(text) implies all.contains(text) by {
            let k = choose|k: int| 0 <= k < told.len() && told[k] == text;
            assert(all[k] == text);
        }
        if !dry_run && is_wanted(wanted, issue.session_id) {
            if let Err(error) = written[count - 1] {
                assert(all[told.len() as int] == issue.session_id + ": "@ + error_text(error));
            }
        }
        assert forall|i: int|
            0 <= i < count && !dry_run && (wanted matches Some(ids) ==> ids.contains(
                (#[trigger] issues[i]).session_id,
            )) && written[i] is Err implies all.contains(
            issues[i].session_id + ": "@ + error_text(written[i]->Err_0),
        ) by {
            if i < count - 1 {
                assert(told.contains(
                    issues[i].session_id + ": "@ + error_text(written[i]->Err_0),
                ));
            }
        }
    }
}

/// Every issue is that of a file which is not shown, and proposes the title of a summary of that very
/// file.
pub proof fn law_issues_are_of_files_not_shown(file: GuiFileView, summaries: Seq<SummaryView>)
    ensures
        file_issue(summaries)(file) matches Some(issue) ==> {
            &&& class_of(file) == FileClass::Invisible
            &&& issue.path == file.path
            &&& exists|i: int|
                0 <= i < summaries.len() && (#[trigger] summaries[i]).rollout_path == file.path
                    && summaries[i].title == issue.proposed_title
        },
        class_of(file) == FileClass::Invisible && (exists|i: int|
            0 <= i < summaries.len() && (#[trigger] summaries[i]).rollout_path == file.path)
            && (forall|i: int|
            0 <= i < summaries.len() && (#[trigger] summaries[i]).rollout_path == file.path
                ==> summaries[i].title.len() > 0 && summaries[i].first_user_message.len() > 0)
            ==> file_issue(summaries)(file) is Some,
{
    lemma_summary_found(summaries, file.path);
}

proof fn lemma_summary_found(summaries: Seq<SummaryView>, path: Seq<char>)
    ensures
        match crate::seqs::last_found(summaries, summary_at(path)) {
            Some(summary) => exists|i: int|
                0 <= i < summaries.len() && (#[trigger] summaries[i]).rollout_path == path
                    && summaries[i] == summary,
            None => forall|i: int|
                0 <= i < summaries.len() ==> (#[trigger] summaries[i]).rollout_path != path,
        },
    decreases summaries.len(),
{
    if summaries.len() > 0 {
        let rest = summaries.drop_last();
        lemma_summary_found(rest, path);
        if summaries.last().rollout_path == path {
            assert(summaries[summaries.len() - 1].rollout_path == path);
        } else {
            match crate::seqs::last_found(rest, summary_at(path)) {
                Some(summary) => {
                    let i = choose|i: int|
                        0 <= i < rest.len() && (#[trigger] rest[i]).rollout_path == path && rest[i]
                            == summary;
                    assert(summaries[i] == summary);
                },
                None => {
                    assert forall|i: int| 0 <= i < summaries.len() implies (
                    #[trigger] summaries[i]).rollout_path != path by {
                        if i < rest.len() {
                            assert(rest[i].rollout_path != path);
                        }
                    }
                },
            }
        }
    }
}

} // verus!
