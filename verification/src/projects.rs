//! The projects that sessions work in.

use vstd::prelude::*;

use crate::json::{json_document, member, member_text, parse};
use crate::project_config::ProjectConfigCandidate;
use crate::rollout::lemma_first_found_extends;
use crate::seqs::first_found;
use crate::sorted::{ascending, insert_text, lemma_with_text, with_text};
use crate::text::{
    copy_texts, lemma_text_lt_irreflexive, lemma_text_lt_total, lemma_text_lt_transitive, opt_text,
    precedes, same, text_lt, texts,
};

verus! {

/// A line of a rollout: its text, and the `type` that reading it as a record of that one member
/// gave. A record without a `type`, with one that is no text or with two of them has none.
pub struct ProjectLine {
    pub text: String,
    pub kind: Option<String>,
}

/// What a [`ProjectLine`] holds.
#[verifier::ext_equal]
pub struct ProjectLineView {
    pub text: Seq<char>,
    pub kind: Option<Seq<char>>,
}

impl View for ProjectLine {
    type V = ProjectLineView;

    open spec fn view(&self) -> ProjectLineView {
        ProjectLineView { text: self.text@, kind: opt_text(self.kind) }
    }
}

/// What a list of lines holds.
pub open spec fn project_lines(lines: Seq<ProjectLine>) -> Seq<ProjectLineView> {
    lines.map_values(|line: ProjectLine| line@)
}

/// The session that a line of a rollout states.
pub open spec fn line_session() -> spec_fn(ProjectLineView) -> Option<Seq<char>> {
    |line: ProjectLineView|
        if line.kind == Some("session_meta"@) {
            match json_document(line.text) {
                Some(value) => match member(value, "payload"@) {
                    Some(payload) => member_text(payload, "id"@),
                    None => None,
                },
                None => None,
            }
        } else {
            None
        }
}

/// Gives the lines of metadata and of turns, which tell where a session works.
pub open spec fn cwd_line() -> spec_fn(ProjectLineView) -> Option<Seq<char>> {
    |line: ProjectLineView|
        if (line.kind == Some("session_meta"@) || line.kind == Some("turn_context"@))
            && json_document(line.text) is Some {
            Some(line.text)
        } else {
            None
        }
}

fn is_kind(line: &ProjectLine, kind: &str) -> (matching: bool)
    ensures
        matching == (line@.kind == Some(kind@)),
{
    match &line.kind {
        Some(found) => same(found.as_str(), kind),
        None => false,
    }
}

/// The lines that tell where a session works.
pub fn cwd_lines(lines: &Vec<ProjectLine>) -> (telling: Vec<String>)
    ensures
        texts(telling@) == project_lines(lines@).filter_map(cwd_line()),
{
    let ghost all = project_lines(lines@);
    let mut telling: Vec<String> = Vec::new();
    let mut at: usize = 0;
    assert(texts(telling@) =~= all.take(0).filter_map(cwd_line()));
    while at < lines.len()
        invariant
            at <= lines@.len(),
            all == project_lines(lines@),
            texts(telling@) == all.take(at as int).filter_map(cwd_line()),
        decreases lines.len() - at,
    {
        assert(all.take(at + 1).drop_last() =~= all.take(at as int));
        let ghost before = texts(telling@);
        if (is_kind(&lines[at], "session_meta") || is_kind(&lines[at], "turn_context")) && parse(
            lines[at].text.as_str(),
        ).is_some() {
            telling.push(lines[at].text.clone());
            assert(texts(telling@) =~= before + seq![all[at as int].text]);
        }
        at = at + 1;
    }
    assert(all.take(at as int) =~= all);
    telling
}

/// The session of a rollout: that of the first metadata record which states one. The
/// working directory in effect is handed on with it.
pub fn read_rollout_project(lines: &Vec<ProjectLine>, cwd: Option<String>) -> (project: Option<
    (String, Option<String>),
>)
    ensures
        match project {
            Some((id, dir)) => first_found(project_lines(lines@), line_session()) == Some(id@)
                && opt_text(dir) == opt_text(cwd),
            None => first_found(project_lines(lines@), line_session()) is None,
        },
{
    let ghost all = project_lines(lines@);
    let mut at: usize = 0;
    while at < lines.len()
        invariant
            at <= lines@.len(),
            all == project_lines(lines@),
            first_found(all.take(at as int), line_session()) is None,
        decreases lines.len() - at,
    {
        assert(all.take(at + 1).drop_last() =~= all.take(at as int));
        if is_kind(&lines[at], "session_meta") {
            if let Some(value) = parse(lines[at].text.as_str()) {
                if let Some(payload) = value.get("payload") {
                    if let Some(id) = payload.get_str("id") {
                        proof {
                            lemma_first_found_extends(all, line_session(), at + 1);
                        }
                        return Some((id.clone(), cwd));
                    }
                }
            }
        }
        at = at + 1;
    }
    assert(all.take(at as int) =~= all);
    None
}

/// A directory: how it is written, and its parts, so written that paths are ordered by
/// them.
pub struct ProjectPath {
    pub text: String,
    pub parts: Vec<String>,
}

/// What a [`ProjectPath`] holds.
#[verifier::ext_equal]
pub struct PathView {
    pub text: Seq<char>,
    pub parts: Seq<Seq<char>>,
}

impl View for ProjectPath {
    type V = PathView;

    open spec fn view(&self) -> PathView {
        PathView { text: self.text@, parts: texts(self.parts@) }
    }
}

/// A session and the directory that it works in.
pub struct ProjectSession {
    pub id: String,
    pub cwd: Option<ProjectPath>,
}

/// What a [`ProjectSession`] holds.
#[verifier::ext_equal]
pub struct ProjectSessionView {
    pub id: Seq<char>,
    pub cwd: Option<PathView>,
}

impl View for ProjectSession {
    type V = ProjectSessionView;

    open spec fn view(&self) -> ProjectSessionView {
        ProjectSessionView {
            id: self.id@,
            cwd: match self.cwd {
                Some(cwd) => Some(cwd@),
                None => None,
            },
        }
    }
}

/// What a list of sessions holds.
pub open spec fn sessions_view(sessions: Seq<ProjectSession>) -> Seq<ProjectSessionView> {
    sessions.map_values(|session: ProjectSession| session@)
}

/// A project with the sessions that work in it, sorted.
pub struct Project {
    pub path: ProjectPath,
    pub session_ids: Vec<String>,
}

/// What a [`Project`] holds.
#[verifier::ext_equal]
pub struct ProjectView {
    pub path: PathView,
    pub session_ids: Seq<Seq<char>>,
}

impl View for Project {
    type V = ProjectView;

    open spec fn view(&self) -> ProjectView {
        ProjectView { path: self.path@, session_ids: texts(self.session_ids@) }
    }
}

/// What a list of projects holds.
pub open spec fn projects_view(projects: Seq<Project>) -> Seq<ProjectView> {
    projects.map_values(|project: Project| project@)
}

/// Whether a path comes before another, part by part.
pub open spec fn path_lt(left: Seq<Seq<char>>, right: Seq<Seq<char>>) -> bool
    decreases left.len(),
{
    if right.len() == 0 {
        false
    } else if left.len() == 0 {
        true
    } else if left[0] != right[0] {
        text_lt(left[0], right[0])
    } else {
        path_lt(left.drop_first(), right.drop_first())
    }
}

/// The parts of the configuration file of a project.
pub open spec fn config_parts(parts: Seq<Seq<char>>) -> Seq<Seq<char>> {
    parts + seq![".codex"@, "config.toml"@]
}

/// Projects with one more session, in the order of their configuration files.
pub open spec fn with_session(
    projects: Seq<ProjectView>,
    path: PathView,
    id: Seq<char>,
) -> Seq<ProjectView>
    decreases projects.len(),
{
    if projects.len() == 0 {
        seq![ProjectView { path, session_ids: with_text(Seq::empty(), id) }]
    } else {
        let last = projects.last();
        if last.path.parts == path.parts {
            projects.drop_last().push(
                ProjectView { session_ids: with_text(last.session_ids, id), ..last },
            )
        } else if path_lt(config_parts(path.parts), config_parts(last.path.parts)) {
            with_session(projects.drop_last(), path, id).push(last)
        } else {
            projects.push(ProjectView { path, session_ids: with_text(Seq::empty(), id) })
        }
    }
}

/// The projects of sessions; sessions that work nowhere belong to none.
pub open spec fn projects_of(sessions: Seq<ProjectSessionView>) -> Seq<ProjectView>
    decreases sessions.len(),
{
    if sessions.len() == 0 {
        Seq::empty()
    } else {
        let rest = projects_of(sessions.drop_last());
        match sessions.last().cwd {
            Some(path) => if path.text.len() == 0 {
                rest
            } else {
                with_session(rest, path, sessions.last().id)
            },
            None => rest,
        }
    }
}

fn same_parts(left: &Vec<String>, right: &Vec<String>) -> (equal: bool)
    ensures
        equal == (texts(left@) == texts(right@)),
{
    let ghost a = texts(left@);
    let ghost b = texts(right@);
    if left.len() != right.len() {
        assert(a.len() != b.len());
        return false;
    }
    let mut at: usize = 0;
    while at < left.len()
        invariant
            at <= left@.len() == right@.len(),
            a == texts(left@),
            b == texts(right@),
            forall|i: int| 0 <= i < at ==> a[i] == b[i],
        decreases left.len() - at,
    {
        if !same(left[at].as_str(), right[at].as_str()) {
            assert(a[at as int] != b[at as int]);
            return false;
        }
        at = at + 1;
    }
    assert(a =~= b);
    true
}

fn path_before(left: &Vec<String>, right: &Vec<String>) -> (before: bool)
    ensures
        before == path_lt(texts(left@), texts(right@)),
{
    let ghost a = texts(left@);
    let ghost b = texts(right@);
    let mut at: usize = 0;
    assert(a.skip(0) =~= a && b.skip(0) =~= b);
    while at < left.len() && at < right.len() && same(left[at].as_str(), right[at].as_str())
        invariant
            at <= left@.len(),
            at <= right@.len(),
            a == texts(left@),
            b == texts(right@),
            path_lt(a, b) == path_lt(a.skip(at as int), b.skip(at as int)),
        decreases left.len() - at,
    {
        assert(a.skip(at as int)[0] == a[at as int]);
        assert(b.skip(at as int)[0] == b[at as int]);
        assert(a.skip(at as int).drop_first() =~= a.skip(at + 1));
        assert(b.skip(at as int).drop_first() =~= b.skip(at + 1));
        at = at + 1;
    }
    if at >= right.len() {
        false
    } else if at >= left.len() {
        true
    } else {
        assert(a.skip(at as int)[0] == a[at as int]);
        assert(b.skip(at as int)[0] == b[at as int]);
        precedes(left[at].as_str(), right[at].as_str())
    }
}

fn with_config(parts: &Vec<String>) -> (all: Vec<String>)
    ensures
        texts(all@) == config_parts(texts(parts@)),
{
    let mut all = copy_texts(parts);
    let ghost before = texts(all@);
    all.push(".codex".to_owned());
    all.push("config.toml".to_owned());
    assert(texts(all@) =~= before + seq![".codex"@, "config.toml"@]);
    all
}

fn single(path: &ProjectPath, id: &str) -> (project: Project)
    ensures
        project@ == (ProjectView { path: path@, session_ids: with_text(Seq::empty(), id@) }),
{
    let mut session_ids: Vec<String> = Vec::new();
    assert(texts(session_ids@) =~= Seq::empty());
    insert_text(&mut session_ids, id);
    Project {
        path: ProjectPath { text: path.text.clone(), parts: copy_texts(&path.parts) },
        session_ids,
    }
}

fn add_session(projects: &mut Vec<Project>, path: &ProjectPath, id: &str)
    ensures
        projects_view(final(projects)@) == with_session(
            projects_view(old(projects)@),
            path@,
            id@,
        ),
{
    let ghost all = projects_view(projects@);
    let config = with_config(&path.parts);
    let mut at: usize = projects.len();
    assert(all.take(at as int) =~= all);
    assert(with_session(all, path@, id@) =~= with_session(all.take(at as int), path@, id@)
        + all.skip(at as int));
    while at > 0 && !same_parts(&projects[at - 1].path.parts, &path.parts) && path_before(
        &config,
        &with_config(&projects[at - 1].path.parts),
    )
        invariant
            at <= projects@.len(),
            all == projects_view(projects@),
            projects@ == old(projects)@,
            texts(config@) == config_parts(path@.parts),
            with_session(all, path@, id@) == with_session(all.take(at as int), path@, id@)
                + all.skip(at as int),
        decreases at,
    {
        let ghost head = all.take(at as int);
        assert(head.drop_last() =~= all.take(at - 1));
        assert(head.last() == all[at - 1]);
        assert(with_session(all.take(at - 1), path@, id@).push(all[at - 1]) + all.skip(at as int)
            =~= with_session(all.take(at - 1), path@, id@) + all.skip(at - 1));
        at = at - 1;
    }
    let ghost head = all.take(at as int);
    if at > 0 {
        assert(head.last() == all[at - 1]);
        assert(head.drop_last() =~= all.take(at - 1));
    }
    if at > 0 && same_parts(&projects[at - 1].path.parts, &path.parts) {
        insert_text(&mut projects[at - 1].session_ids, id);
        let ghost changed = ProjectView {
            session_ids: with_text(all[at - 1].session_ids, id@),
            ..all[at - 1]
        };
        assert(projects_view(projects@) =~= all.update(at - 1, changed));
        assert(all.take(at - 1).push(changed) + all.skip(at as int) =~= all.update(
            at - 1,
            changed,
        ));
        return;
    }
    let project = single(path, id);
    projects.insert(at, project);
    assert(projects_view(projects@) =~= all.insert(at as int, project@));
    assert(head.push(project@) + all.skip(at as int) =~= all.insert(at as int, project@));
    if at == 0 {
        assert(head =~= Seq::empty());
        assert(seq![project@] =~= head.push(project@));
    }
}

/// The projects of sessions, each with its sessions, in the order of their configuration
/// files.
pub fn collect_projects(sessions: &Vec<ProjectSession>) -> (projects: Vec<Project>)
    ensures
        projects_view(projects@) == projects_of(sessions_view(sessions@)),
{
    let ghost all = sessions_view(sessions@);
    let mut projects: Vec<Project> = Vec::new();
    assert(projects_view(projects@) =~= Seq::empty());
    let mut at: usize = 0;
    while at < sessions.len()
        invariant
            at <= sessions@.len(),
            all == sessions_view(sessions@),
            projects_view(projects@) == projects_of(all.take(at as int)),
        decreases sessions.len() - at,
    {
        assert(all.take(at + 1).drop_last() =~= all.take(at as int));
        assert(all.take(at + 1).last() == sessions@[at as int]@);
        if let Some(path) = &sessions[at].cwd {
            if !path.text.as_str().is_empty() {
                add_session(&mut projects, path, sessions[at].id.as_str());
            }
        }
        at = at + 1;
    }
    assert(all.take(at as int) =~= all);
    projects
}

/// A project whose configuration is a file, given where that is.
pub struct ConfiguredProject {
    pub project: Project,
    pub config_path: String,
    pub is_file: bool,
}

/// What a candidate for a diagnosis is made of.
pub open spec fn config_candidate(project: ConfiguredProject) -> Option<
    crate::project_config::CandidateView,
> {
    if project.is_file {
        Some(
            crate::project_config::CandidateView {
                project_cwd: project.project@.path.text,
                config_path: project.config_path@,
                session_ids: project.project@.session_ids,
            },
        )
    } else {
        None
    }
}

/// Gives each project its candidate.
pub open spec fn config_candidates() -> spec_fn(ConfiguredProject) -> Option<
    crate::project_config::CandidateView,
> {
    |project: ConfiguredProject| config_candidate(project)
}

/// What a list of candidates holds.
pub open spec fn candidates_view(candidates: Seq<ProjectConfigCandidate>) -> Seq<
    crate::project_config::CandidateView,
> {
    candidates.map_values(|candidate: ProjectConfigCandidate| candidate@)
}

/// The projects that have a configuration file, in their order.
pub fn collect_project_config_candidates(projects: &Vec<ConfiguredProject>) -> (candidates: Vec<
    ProjectConfigCandidate,
>)
    ensures
        candidates_view(candidates@) == projects@.filter_map(config_candidates()),
{
    let ghost all = projects@;
    let mut candidates: Vec<ProjectConfigCandidate> = Vec::new();
    let mut at: usize = 0;
    while at < projects.len()
        invariant
            at <= projects@.len(),
            all == projects@,
            candidates_view(candidates@) == all.take(at as int).filter_map(config_candidates()),
        decreases projects.len() - at,
    {
        assert(all.take(at + 1).drop_last() =~= all.take(at as int));
        let ghost before = candidates_view(candidates@);
        if projects[at].is_file {
            let candidate = ProjectConfigCandidate {
                project_cwd: projects[at].project.path.text.clone(),
                config_path: projects[at].config_path.clone(),
                session_ids: copy_texts(&projects[at].project.session_ids),
            };
            candidates.push(candidate);
            assert(candidates_view(candidates@) =~= before + seq![candidate@]);
        }
        at = at + 1;
    }
    assert(all.take(at as int) =~= all);
    candidates
}

/// Whether a project holds a session of a directory.
pub open spec fn holds_session(
    project: ProjectView,
    parts: Seq<Seq<char>>,
    id: Seq<char>,
) -> bool {
    project.path.parts == parts && project.session_ids.contains(id)
}

/// Whether a session works in a directory.
pub open spec fn works_in(
    session: ProjectSessionView,
    parts: Seq<Seq<char>>,
    id: Seq<char>,
) -> bool {
    session.id == id && (session.cwd matches Some(path) && path.text.len() > 0 && path.parts
        == parts)
}

/// A project holds just the sessions that work in its directory; sessions of which no directory is
/// known are in none.
pub proof fn law_projects_hold_their_sessions(
    sessions: Seq<ProjectSessionView>,
    parts: Seq<Seq<char>>,
    id: Seq<char>,
)
    ensures
        (exists|p: int|
            0 <= p < projects_of(sessions).len() && holds_session(
                #[trigger] projects_of(sessions)[p],
                parts,
                id,
            )) <==> exists|i: int|
            0 <= i < sessions.len() && works_in(#[trigger] sessions[i], parts, id),
{
    lemma_projects_hold(sessions, parts, id);
}

/// Whether every list of sessions is in order.
spec fn ordered_sessions(projects: Seq<ProjectView>) -> bool {
    forall|p: int| 0 <= p < projects.len() ==> ascending((#[trigger] projects[p]).session_ids)
}

proof fn lemma_projects_hold(
    sessions: Seq<ProjectSessionView>,
    parts: Seq<Seq<char>>,
    id: Seq<char>,
)
    ensures
        ordered_sessions(projects_of(sessions)),
        (exists|p: int|
            0 <= p < projects_of(sessions).len() && holds_session(
                #[trigger] projects_of(sessions)[p],
                parts,
                id,
            )) <==> exists|i: int|
            0 <= i < sessions.len() && works_in(#[trigger] sessions[i], parts, id),
    decreases sessions.len(),
{
    if sessions.len() > 0 {
        let rest = sessions.drop_last();
        let last = sessions.last();
        lemma_projects_hold(rest, parts, id);
        assert((exists|i: int| 0 <= i < sessions.len() && works_in(#[trigger] sessions[i], parts, id))
            <==> (exists|i: int| 0 <= i < rest.len() && works_in(#[trigger] rest[i], parts, id))
            || works_in(last, parts, id)) by {
            if exists|i: int| 0 <= i < rest.len() && works_in(#[trigger] rest[i], parts, id) {
                let i = choose|i: int| 0 <= i < rest.len() && works_in(#[trigger] rest[i], parts, id);
                assert(works_in(sessions[i], parts, id));
            }
            if works_in(last, parts, id) {
                assert(works_in(sessions[sessions.len() - 1], parts, id));
            }
            if exists|i: int| 0 <= i < sessions.len() && works_in(#[trigger] sessions[i], parts, id) {
                let i = choose|i: int|
                    0 <= i < sessions.len() && works_in(#[trigger] sessions[i], parts, id);
                if i < rest.len() {
                    assert(works_in(rest[i], parts, id));
                }
            }
        }
        if let Some(path) = last.cwd {
            if path.text.len() > 0 {
                lemma_with_session(projects_of(rest), path, last.id, parts, id);
            }
        }
    }
}

proof fn lemma_with_session(
    projects: Seq<ProjectView>,
    path: PathView,
    added: Seq<char>,
    parts: Seq<Seq<char>>,
    id: Seq<char>,
)
    requires
        ordered_sessions(projects),
    ensures
        ordered_sessions(with_session(projects, path, added)),
        (exists|p: int|
            0 <= p < with_session(projects, path, added).len() && holds_session(
                #[trigger] with_session(projects, path, added)[p],
                parts,
                id,
            )) <==> (exists|p: int|
            0 <= p < projects.len() && holds_session(#[trigger] projects[p], parts, id)) || (
        path.parts == parts && added == id),
    decreases projects.len(),
{
    let after = with_session(projects, path, added);
    let none = Seq::<Seq<char>>::empty();
    assert(ascending(none));
    lemma_with_text(none, added);
    assert(!none.contains(id));
    if projects.len() == 0 {
        assert(after[0].session_ids == with_text(none, added));
        if path.parts == parts && added == id {
            assert(holds_session(after[0], parts, id));
        }
    } else {
        let rest = projects.drop_last();
        let last = projects.last();
        let n = projects.len() - 1;
        assert(last == projects[n]);
        assert forall|p: int| 0 <= p < rest.len() implies rest[p] == projects[p] by {}
        assert(ordered_sessions(rest)) by {
            assert forall|p: int| 0 <= p < rest.len() implies ascending(
                (#[trigger] rest[p]).session_ids,
            ) by {
                assert(rest[p] == projects[p]);
            }
        }
        assert(ascending(projects[n].session_ids));
        lemma_split(projects, parts, id);
        if last.path.parts == path.parts {
            lemma_with_text(last.session_ids, added);
            assert(after.drop_last() =~= rest);
            assert(after.last().session_ids == with_text(last.session_ids, added));
            lemma_split(after, parts, id);
            assert forall|p: int| 0 <= p < after.len() implies ascending(
                (#[trigger] after[p]).session_ids,
            ) by {
                if p < n {
                    assert(after[p] == rest[p]);
                }
            }
        } else if path_lt(config_parts(path.parts), config_parts(last.path.parts)) {
            lemma_with_session(rest, path, added, parts, id);
            let inner = with_session(rest, path, added);
            assert(after.drop_last() =~= inner);
            lemma_split(after, parts, id);
            assert forall|p: int| 0 <= p < after.len() implies ascending(
                (#[trigger] after[p]).session_ids,
            ) by {
                if p < inner.len() {
                    assert(after[p] == inner[p]);
                }
            }
        } else {
            assert(after.drop_last() =~= projects);
            lemma_split(after, parts, id);
            assert(after.last().session_ids == with_text(none, added));
            assert forall|p: int| 0 <= p < after.len() implies ascending(
                (#[trigger] after[p]).session_ids,
            ) by {
                if p <= n {
                    assert(after[p] == projects[p]);
                }
            }
        }
    }
}

proof fn lemma_split(projects: Seq<ProjectView>, parts: Seq<Seq<char>>, id: Seq<char>)
    requires
        projects.len() > 0,
    ensures
        (exists|p: int| 0 <= p < projects.len() && holds_session(#[trigger] projects[p], parts, id))
            <==> (exists|p: int|
            0 <= p < projects.drop_last().len() && holds_session(
                #[trigger] projects.drop_last()[p],
                parts,
                id,
            )) || holds_session(projects.last(), parts, id),
{
    let rest = projects.drop_last();
    if exists|p: int| 0 <= p < projects.len() && holds_session(#[trigger] projects[p], parts, id) {
        let p = choose|p: int|
            0 <= p < projects.len() && holds_session(#[trigger] projects[p], parts, id);
        if p < rest.len() {
            assert(holds_session(rest[p], parts, id));
        }
    }
    if exists|p: int| 0 <= p < rest.len() && holds_session(#[trigger] rest[p], parts, id) {
        let p = choose|p: int| 0 <= p < rest.len() && holds_session(#[trigger] rest[p], parts, id);
        assert(holds_session(projects[p], parts, id));
    }
    if holds_session(projects.last(), parts, id) {
        assert(holds_session(projects[projects.len() - 1], parts, id));
    }
}

/// Projects stand in the order of where their configurations are, each directory once.
pub proof fn law_projects_stand_in_order(sessions: Seq<ProjectSessionView>, i: int, j: int)
    requires
        0 <= i < j < projects_of(sessions).len(),
    ensures
        path_lt(
            config_parts(projects_of(sessions)[i].path.parts),
            config_parts(projects_of(sessions)[j].path.parts),
        ),
        projects_of(sessions)[i].path.parts != projects_of(sessions)[j].path.parts,
{
    lemma_projects_rise(sessions);
    lemma_path_lt_irreflexive(config_parts(projects_of(sessions)[i].path.parts));
}

spec fn rising(projects: Seq<ProjectView>) -> bool {
    forall|i: int, j: int|
        0 <= i < j < projects.len() ==> path_lt(
            config_parts((#[trigger] projects[i]).path.parts),
            config_parts((#[trigger] projects[j]).path.parts),
        )
}

proof fn lemma_projects_rise(sessions: Seq<ProjectSessionView>)
    ensures
        rising(projects_of(sessions)),
    decreases sessions.len(),
{
    if sessions.len() > 0 {
        let rest = sessions.drop_last();
        lemma_projects_rise(rest);
        if let Some(path) = sessions.last().cwd {
            if path.text.len() > 0 {
                lemma_with_session_rises(projects_of(rest), path, sessions.last().id);
            }
        }
    }
}

proof fn lemma_with_session_rises(projects: Seq<ProjectView>, path: PathView, id: Seq<char>)
    requires
        rising(projects),
    ensures
        rising(with_session(projects, path, id)),
        forall|k: int|
            0 <= k < with_session(projects, path, id).len() ==> (#[trigger] with_session(
                projects,
                path,
                id,
            )[k]).path.parts == path.parts || exists|p: int|
                0 <= p < projects.len() && (#[trigger] projects[p]).path.parts == with_session(
                    projects,
                    path,
                    id,
                )[k].path.parts,
    decreases projects.len(),
{
    let after = with_session(projects, path, id);
    if projects.len() > 0 {
        let rest = projects.drop_last();
        let last = projects.last();
        let n = projects.len() - 1;
        let own = config_parts(path.parts);
        assert(rising(rest)) by {
            assert forall|i: int, j: int| 0 <= i < j < rest.len() implies path_lt(
                config_parts((#[trigger] rest[i]).path.parts),
                config_parts((#[trigger] rest[j]).path.parts),
            ) by {
                assert(rest[i] == projects[i] && rest[j] == projects[j]);
            }
        }
        if last.path.parts == path.parts {
            assert forall|i: int| 0 <= i < after.len() implies (#[trigger] after[i]).path.parts
                == projects[i].path.parts by {}
        } else if path_lt(own, config_parts(last.path.parts)) {
            lemma_with_session_rises(rest, path, id);
            let inner = with_session(rest, path, id);
            assert forall|k: int| 0 <= k < inner.len() implies path_lt(
                config_parts((#[trigger] inner[k]).path.parts),
                config_parts(last.path.parts),
            ) by {
                if inner[k].path.parts != path.parts {
                    let p = choose|p: int|
                        0 <= p < rest.len() && (#[trigger] rest[p]).path.parts
                            == inner[k].path.parts;
                    assert(rest[p] == projects[p] && last == projects[n]);
                }
            }
            assert forall|i: int, j: int| 0 <= i < j < after.len() implies path_lt(
                config_parts((#[trigger] after[i]).path.parts),
                config_parts((#[trigger] after[j]).path.parts),
            ) by {
                assert(after[i] == inner[i]);
                if j < inner.len() {
                    assert(after[j] == inner[j]);
                }
            }
            assert forall|k: int| 0 <= k < after.len() implies (#[trigger] after[k]).path.parts
                == path.parts || exists|p: int|
                0 <= p < projects.len() && (#[trigger] projects[p]).path.parts
                    == after[k].path.parts by {
                if k < inner.len() {
                    assert(after[k] == inner[k]);
                    if inner[k].path.parts != path.parts {
                        let p = choose|p: int|
                            0 <= p < rest.len() && (#[trigger] rest[p]).path.parts
                                == inner[k].path.parts;
                        assert(rest[p] == projects[p]);
                    }
                } else {
                    assert(projects[n].path.parts == after[k].path.parts);
                }
            }
        } else {
            lemma_path_lt_total(own, config_parts(last.path.parts));
            if own == config_parts(last.path.parts) {
                let size = path.parts.len() as int;
                assert(own.len() == last.path.parts.len() + 2);
                assert(own.take(size) =~= path.parts);
                assert(config_parts(last.path.parts).take(size) =~= last.path.parts);
            }
            assert forall|i: int| 0 <= i < projects.len() implies path_lt(
                config_parts((#[trigger] projects[i]).path.parts),
                own,
            ) by {
                if i < n {
                    lemma_path_lt_transitive(
                        config_parts(projects[i].path.parts),
                        config_parts(projects[n].path.parts),
                        own,
                    );
                }
            }
            assert forall|i: int, j: int| 0 <= i < j < after.len() implies path_lt(
                config_parts((#[trigger] after[i]).path.parts),
                config_parts((#[trigger] after[j]).path.parts),
            ) by {
                assert(after[i] == projects[i]);
                if j < projects.len() {
                    assert(after[j] == projects[j]);
                }
            }
            assert forall|k: int| 0 <= k < after.len() implies (#[trigger] after[k]).path.parts
                == path.parts || exists|p: int|
                0 <= p < projects.len() && (#[trigger] projects[p]).path.parts
                    == after[k].path.parts by {
                if k < projects.len() {
                    assert(projects[k].path.parts == after[k].path.parts);
                }
            }
        }
    }
}

proof fn lemma_path_lt_irreflexive(path: Seq<Seq<char>>)
    ensures
        !path_lt(path, path),
    decreases path.len(),
{
    if path.len() > 0 {
        lemma_path_lt_irreflexive(path.drop_first());
    }
}

proof fn lemma_path_lt_transitive(a: Seq<Seq<char>>, b: Seq<Seq<char>>, c: Seq<Seq<char>>)
    requires
        path_lt(a, b),
        path_lt(b, c),
    ensures
        path_lt(a, c),
    decreases a.len(),
{
    if a.len() > 0 {
        if a[0] == b[0] && b[0] == c[0] {
            lemma_path_lt_transitive(a.drop_first(), b.drop_first(), c.drop_first());
        } else if a[0] != b[0] && b[0] != c[0] {
            lemma_text_lt_transitive(a[0], b[0], c[0]);
            lemma_text_lt_irreflexive(a[0]);
        }
    }
}

proof fn lemma_path_lt_total(a: Seq<Seq<char>>, b: Seq<Seq<char>>)
    ensures
        a == b || path_lt(a, b) || path_lt(b, a),
    decreases a.len(),
{
    if a.len() > 0 && b.len() > 0 {
        if a[0] == b[0] {
            lemma_path_lt_total(a.drop_first(), b.drop_first());
            if a.drop_first() == b.drop_first() {
                assert(a =~= seq![a[0]] + a.drop_first());
                assert(b =~= seq![b[0]] + b.drop_first());
            }
        } else {
            lemma_text_lt_total(a[0], b[0]);
        }
    } else {
        if a.len() == 0 && b.len() == 0 {
            assert(a =~= b);
        }
    }
}

/// A project is looked at just where there is a configuration file, and then with all its sessions.
pub proof fn law_which_configurations_are_read(project: ConfiguredProject)
    ensures
        config_candidate(project) is Some <==> project.is_file,
        config_candidate(project) matches Some(candidate) ==> candidate.project_cwd
            == project.project@.path.text && candidate.config_path == project.config_path@
            && candidate.session_ids == project.project@.session_ids,
{
}

/// Which session a rollout belongs to is told by its metadata alone; where it works is told by that
/// and by the settings of its turns.
pub proof fn law_which_lines_tell_of_the_project(line: ProjectLineView)
    ensures
        line_session()(line) is Some ==> line.kind == Some("session_meta"@),
        cwd_line()(line) == Some(line.text) <==> (line.kind == Some("session_meta"@) || line.kind
            == Some("turn_context"@)) && json_document(line.text) is Some,
        cwd_line()(line) matches Some(text) ==> text == line.text,
{
}

/// Projects are ordered by the path of their configuration file, which lies two steps below the
/// directory.
pub proof fn law_where_a_configuration_lies(parts: Seq<Seq<char>>)
    ensures
        config_parts(parts) == parts.push(".codex"@).push("config.toml"@),
{
    assert(config_parts(parts) =~= parts.push(".codex"@).push("config.toml"@));
}

} // verus!
