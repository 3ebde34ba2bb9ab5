//! Branches that go on from an earlier message of a session.

use vstd::prelude::*;

use crate::backfill::branch_origin;
use crate::branches::{get_branch, get_family};
use crate::duplicate::{
    brief_outcome, first_or, message_or, mismatched_source, reached_view, source_mismatch,
    source_unreachable, unreachable_source,
};
use crate::error::{unit_outcome, AppError, ErrorView};
use crate::model::{
    branch_of, family_under, lemma_position_of, position_of, ArchiveOrigin, BranchView, FamilyStore,
    StoreView,
};
use crate::rollout::{BriefView, RolloutBrief};
use crate::session_id::{stem_verdict, validate_rollout_filename};
use crate::stable_prefix::StablePrefix;
use crate::steps::{
    add_assignment, add_step, assignment_of, assignment_steps, no_steps, project_assignment_record,
    steps_outcome, steps_view, Step, StepView,
};
use crate::switch::opt_brief;
use crate::switch_steps::{
    new_branch, new_branch_view, new_without_session, ArchiveMove, MoveView, NewSession,
    NewSessionView,
};
use crate::text::{begins_with, decimal, decimal_text, join2, join4, join5, opt_text, same};

verus! {

// ---------------------------------------------------------------------------
// The session that is forked
// ---------------------------------------------------------------------------

/// What was learned of the rollout that is forked: whether Desktop does not run, how the host
/// writes its path, whether it can be reached (its proper path, or why not), whether the
/// directory of active sessions can be, whether the rollout lies in it, and what it says.
pub struct ForkSource {
    pub desktop: Result<(), AppError>,
    pub host_path: String,
    pub reached: Result<String, String>,
    pub sessions_path: String,
    pub sessions: Result<(), String>,
    pub in_sessions: bool,
    pub brief: Result<Option<RolloutBrief>, AppError>,
}

/// What a [`ForkSource`] holds.
#[verifier::ext_equal]
pub struct ForkSourceView {
    pub desktop: Result<(), ErrorView>,
    pub host_path: Seq<char>,
    pub reached: Result<Seq<char>, Seq<char>>,
    pub sessions_path: Seq<char>,
    pub sessions: Result<(), Seq<char>>,
    pub in_sessions: bool,
    pub brief: Result<Option<BriefView>, ErrorView>,
}

impl View for ForkSource {
    type V = ForkSourceView;

    open spec fn view(&self) -> ForkSourceView {
        ForkSourceView {
            desktop: unit_outcome(self.desktop),
            host_path: self.host_path@,
            reached: reached_view(self.reached),
            sessions_path: self.sessions_path@,
            sessions: match self.sessions {
                Ok(()) => Ok(()),
                Err(error) => Err(error@),
            },
            in_sessions: self.in_sessions,
            brief: brief_outcome(self.brief),
        }
    }
}

/// The rollout that is forked, with what it says, or why it cannot be.
pub open spec fn fork_source(session_id: Seq<char>, source: ForkSourceView) -> Result<
    (Seq<char>, BriefView),
    ErrorView,
> {
    if source.desktop is Err {
        Err(source.desktop->Err_0)
    } else {
        match source.reached {
            Err(error) => Err(source_unreachable(source.host_path, error)),
            Ok(path) => match source.sessions {
                Err(error) => Err(
                    ErrorView::InvalidCodexDir(
                        "Codex sessions 目录不存在或无法访问: "@ + source.sessions_path + " ("@
                            + error + ")"@,
                    ),
                ),
                Ok(()) => if !source.in_sessions {
                    Err(
                        ErrorView::Other(
                            "只能从 active sessions/ 下的 rollout 创建回溯分支: "@ + path,
                        ),
                    )
                } else {
                    match source.brief {
                        Err(error) => Err(error),
                        Ok(None) => Err(
                            ErrorView::Other(
                                "源 rollout 缺少有效 session_meta.id: "@ + path,
                            ),
                        ),
                        Ok(Some(brief)) => if brief.id != session_id {
                            Err(source_mismatch(session_id, brief.id))
                        } else {
                            Ok((path, brief))
                        },
                    }
                },
            },
        }
    }
}

/// The rollout that is forked, with what it says.
pub fn resolve_fork_source_rollout<'a>(session_id: &str, source: &'a ForkSource) -> (found: Result<
    (&'a String, &'a RolloutBrief),
    AppError,
>)
    ensures
        match found {
            Ok((path, brief)) => fork_source(session_id@, source@) == Ok::<
                (Seq<char>, BriefView),
                ErrorView,
            >((path@, brief@)),
            Err(error) => fork_source(session_id@, source@) == Err::<
                (Seq<char>, BriefView),
                ErrorView,
            >(error@),
        },
{
    if let Err(error) = &source.desktop {
        return Err(error.copy());
    }
    let path = match &source.reached {
        Ok(path) => path,
        Err(error) => return Err(unreachable_source(source.host_path.as_str(), error.as_str())),
    };
    if let Err(error) = &source.sessions {
        return Err(
            AppError::InvalidCodexDir(
                join5(
                    "Codex sessions 目录不存在或无法访问: ",
                    source.sessions_path.as_str(),
                    " (",
                    error.as_str(),
                    ")",
                ),
            ),
        );
    }
    if !source.in_sessions {
        return Err(
            AppError::Other(
                join2(
                    "只能从 active sessions/ 下的 rollout 创建回溯分支: ",
                    path.as_str(),
                ),
            ),
        );
    }
    let brief = match &source.brief {
        Err(error) => return Err(error.copy()),
        Ok(None) => return Err(
            AppError::Other(
                join2("源 rollout 缺少有效 session_meta.id: ", path.as_str()),
            ),
        ),
        Ok(Some(brief)) => brief,
    };
    if !same(brief.id.as_str(), session_id) {
        return Err(mismatched_source(session_id, brief.id.as_str()));
    }
    Ok((path, brief))
}

// ---------------------------------------------------------------------------
// The branch that is forked
// ---------------------------------------------------------------------------

/// The branch of a session that is the active one of its family, or why there is none.
pub open spec fn fork_branch(
    store: StoreView,
    family_id: Seq<char>,
    session_id: Seq<char>,
) -> Result<BranchView, ErrorView> {
    match family_under(store, family_id) {
        None => Err(ErrorView::NotFound("family not found: "@ + family_id)),
        Some(family) => if family.active_id != session_id {
            Err(
                ErrorView::Other(
                    "只能从当前 active 分支创建回溯分支；当前 active="@ + family.active_id
                        + "，请求源="@ + session_id,
                ),
            )
        } else {
            match branch_of(family.chain, session_id) {
                None => Err(ErrorView::NotFound("branch not found: "@ + session_id)),
                Some(branch) => Ok(branch),
            }
        },
    }
}

/// What was learned for a fork: whether the place that the branch records leads to the
/// rollout that is forked, whether the state database is there, the stem of the file name of
/// the new rollout, where the rollout that is forked goes, and whether something is there
/// already.
pub struct ForkTarget {
    pub same_rollout: Result<bool, AppError>,
    pub state_db: Result<(), AppError>,
    pub new_stem: Option<String>,
    pub destination: String,
    pub occupied: bool,
}

/// What a [`ForkTarget`] holds.
#[verifier::ext_equal]
pub struct ForkTargetView {
    pub same_rollout: Result<bool, ErrorView>,
    pub state_db: Result<(), ErrorView>,
    pub new_stem: Option<Seq<char>>,
    pub destination: Seq<char>,
    pub occupied: bool,
}

impl View for ForkTarget {
    type V = ForkTargetView;

    open spec fn view(&self) -> ForkTargetView {
        ForkTargetView {
            same_rollout: crate::error::bool_outcome(self.same_rollout),
            state_db: unit_outcome(self.state_db),
            new_stem: opt_text(self.new_stem),
            destination: self.destination@,
            occupied: self.occupied,
        }
    }
}

/// How the rollout that is forked is put away, or why it cannot be forked.
pub open spec fn fork_move(
    store: StoreView,
    family_id: Seq<char>,
    session_id: Seq<char>,
    source_path: Seq<char>,
    target: ForkTargetView,
) -> Result<MoveView, ErrorView> {
    match fork_branch(store, family_id, session_id) {
        Err(error) => Err(error),
        Ok(branch) => match target.same_rollout {
            Err(error) => Err(error),
            Ok(false) => Err(
                ErrorView::Other(
                    "请求的 rollout 不是当前 active 分支文件："@ + source_path,
                ),
            ),
            Ok(true) => if target.state_db is Err {
                Err(target.state_db->Err_0)
            } else if stem_verdict(target.new_stem) is Err {
                Err(stem_verdict(target.new_stem)->Err_0)
            } else if target.occupied {
                Err(
                    ErrorView::Other(
                        "源分支归档目标已存在，拒绝覆盖: "@ + target.destination,
                    ),
                )
            } else {
                Ok(MoveView { branch_id: branch.id, from: source_path, to: target.destination })
            },
        },
    }
}

/// What the outcome of planning a move holds.
pub open spec fn move_outcome(outcome: Result<ArchiveMove, AppError>) -> Result<
    MoveView,
    ErrorView,
> {
    match outcome {
        Ok(archive) => Ok(archive@),
        Err(error) => Err(error@),
    }
}

/// Checks that a session can be forked, and tells how its rollout is put away.
pub fn fork_session_at_event_with_lock(
    store: &FamilyStore,
    family_id: &str,
    session_id: &str,
    source_path: &str,
    target: &ForkTarget,
) -> (outcome: Result<ArchiveMove, AppError>)
    ensures
        move_outcome(outcome) == fork_move(
            store@,
            family_id@,
            session_id@,
            source_path@,
            target@,
        ),
{
    let family = match get_family(store, family_id) {
        Some(family) => family,
        None => return Err(AppError::NotFound(join2("family not found: ", family_id))),
    };
    if !same(family.active_id.as_str(), session_id) {
        return Err(
            AppError::Other(
                join4(
                    "只能从当前 active 分支创建回溯分支；当前 active=",
                    family.active_id.as_str(),
                    "，请求源=",
                    session_id,
                ),
            ),
        );
    }
    let branch = match get_branch(&family.chain, session_id) {
        Some(branch) => branch,
        None => return Err(AppError::NotFound(join2("branch not found: ", session_id))),
    };
    match &target.same_rollout {
        Err(error) => return Err(error.copy()),
        Ok(is_same) => if !*is_same {
            return Err(
                AppError::Other(
                    join2("请求的 rollout 不是当前 active 分支文件：", source_path),
                ),
            );
        },
    }
    if let Err(error) = &target.state_db {
        return Err(error.copy());
    }
    let stem = match &target.new_stem {
        Some(stem) => Some(stem.as_str()),
        None => None,
    };
    if let Err(error) = validate_rollout_filename(stem) {
        return Err(error);
    }
    if target.occupied {
        return Err(
            AppError::Other(
                join2(
                    "源分支归档目标已存在，拒绝覆盖: ",
                    target.destination.as_str(),
                ),
            ),
        );
    }
    Ok(
        ArchiveMove {
            branch_id: branch.id.clone(),
            from: source_path.to_owned(),
            to: target.destination.clone(),
        },
    )
}

// ---------------------------------------------------------------------------
// Steps
// ---------------------------------------------------------------------------

/// The steps of a fork up to its branch: the new rollout, both threads and the title, and
/// the rollout that was forked, which is put away.
pub open spec fn fork_start(
    new_id: Seq<char>,
    new_path: Seq<char>,
    archive: MoveView,
    family_id: Seq<char>,
) -> Seq<StepView> {
    seq![
        StepView::WriteRollout { path: new_path },
        StepView::SyncThread { path: new_path },
        StepView::SyncThread { path: archive.from },
        StepView::CarryTitle { from_id: archive.branch_id, to_id: new_id },
        StepView::ArchiveBranch { family_id, branch_id: archive.branch_id },
        StepView::MoveFile { from: archive.from, to: archive.to },
        StepView::MarkArchived { id: archive.branch_id, path: archive.to },
        StepView::RemoveIndexLine { id: archive.branch_id },
        StepView::RecordLedger {
            family_id,
            id: archive.branch_id,
            origin: ArchiveOrigin::Fork,
            path: archive.to,
        },
    ]
}

/// The steps of a fork up to its branch.
pub fn fork_first_steps(new_id: &str, new_path: &str, archive: &ArchiveMove, family_id: &str) -> (steps:
    Vec<Step>)
    ensures
        steps_view(steps@) == fork_start(new_id@, new_path@, archive@, family_id@),
{
    let mut steps = no_steps();
    add_step(&mut steps, Step::WriteRollout { path: new_path.to_owned() });
    add_step(&mut steps, Step::SyncThread { path: new_path.to_owned() });
    add_step(&mut steps, Step::SyncThread { path: archive.from.clone() });
    add_step(
        &mut steps,
        Step::CarryTitle { from_id: archive.branch_id.clone(), to_id: new_id.to_owned() },
    );
    add_step(
        &mut steps,
        Step::ArchiveBranch {
            family_id: family_id.to_owned(),
            branch_id: archive.branch_id.clone(),
        },
    );
    add_step(&mut steps, Step::MoveFile { from: archive.from.clone(), to: archive.to.clone() });
    add_step(
        &mut steps,
        Step::MarkArchived { id: archive.branch_id.clone(), path: archive.to.clone() },
    );
    add_step(&mut steps, Step::RemoveIndexLine { id: archive.branch_id.clone() });
    add_step(
        &mut steps,
        Step::RecordLedger {
            family_id: family_id.to_owned(),
            id: archive.branch_id.clone(),
            origin: ArchiveOrigin::Fork,
            path: archive.to.clone(),
        },
    );
    assert(steps_view(steps@) =~= fork_start(new_id@, new_path@, archive@, family_id@));
    steps
}

/// The note on a branch that goes on from a line of another.
pub open spec fn fork_note(source_id: Seq<char>, event_index: nat) -> Seq<char> {
    "forked_from:"@ + source_id + "@line:"@ + decimal(event_index)
}

/// The steps of a fork from its branch on: the branch, its entry in the index under its first
/// message or else that of its source, the store and its project.
pub open spec fn fork_rest(
    session: NewSessionView,
    family_id: Seq<char>,
    event_index: nat,
    source_message: Seq<char>,
    brief: Option<BriefView>,
    host_cwd: Seq<char>,
) -> Result<Seq<StepView>, ErrorView> {
    match brief {
        None => Err(new_without_session(session.path)),
        Some(brief) => Ok(
            seq![
                StepView::AppendBranch {
                    family_id,
                    branch: new_branch_view(session, fork_note(session.made_of, event_index)),
                },
                StepView::AppendIndexLine {
                    id: session.id,
                    thread_name: first_or(brief.first_user_message, source_message),
                },
                StepView::SaveStore,
            ] + assignment_steps(assignment_of(brief.id, brief.cwd, host_cwd), false, false),
        ),
    }
}

/// The steps of a fork from its branch on.
pub fn fork_later_steps(
    session: &NewSession,
    family_id: &str,
    event_index: usize,
    source_message: &str,
    brief: &Option<RolloutBrief>,
    host_cwd: &str,
) -> (steps: Result<Vec<Step>, AppError>)
    ensures
        steps_outcome(steps) == fork_rest(
            session@,
            family_id@,
            event_index as nat,
            source_message@,
            opt_brief(*brief),
            host_cwd@,
        ),
{
    let brief = match brief {
        Some(brief) => brief,
        None => return Err(
            AppError::Other(
                join2(
                    "新分支 rollout 缺少有效 session_meta.id: ",
                    session.path.as_str(),
                ),
            ),
        ),
    };
    let mut steps = no_steps();
    let line = decimal_text(event_index as u64);
    let note = join4("forked_from:", session.made_of.as_str(), "@line:", line.as_str());
    let branch = new_branch(session, note);
    let thread_name = message_or(brief.first_user_message.as_str(), source_message);
    add_step(&mut steps, Step::AppendBranch { family_id: family_id.to_owned(), branch });
    add_step(&mut steps, Step::AppendIndexLine { id: session.id.clone(), thread_name });
    add_step(&mut steps, Step::SaveStore);
    assert(steps_view(steps@) =~= seq![
        StepView::AppendBranch { family_id: family_id@, branch: branch@ },
        StepView::AppendIndexLine { id: session.id@, thread_name: thread_name@ },
        StepView::SaveStore,
    ]);
    let assignment = project_assignment_record(brief.id.as_str(), &brief.cwd, host_cwd);
    add_assignment(&mut steps, &assignment, false, false);
    Ok(steps)
}

/// Of a new branch that is archived later, its note tells whether it came of a fork or of a
/// copy for another provider.
pub proof fn law_notes_tell_the_origin(session: NewSessionView, event_index: nat)
    ensures
        branch_origin(new_branch_view(session, fork_note(session.made_of, event_index))) == Some(
            ArchiveOrigin::Fork,
        ),
        branch_origin(new_branch_view(session, "cloned_from:"@ + session.made_of)) == Some(
            ArchiveOrigin::ProviderSync,
        ),
{
    let forked = fork_note(session.made_of, event_index);
    let cloned = "cloned_from:"@ + session.made_of;
    reveal_strlit("forked_from:");
    reveal_strlit("cloned_from:");
    assert(forked.take("forked_from:"@.len() as int) =~= "forked_from:"@);
    assert(cloned.take("cloned_from:"@.len() as int) =~= "cloned_from:"@);
    assert(cloned[0] == 'c' && "forked_from:"@[0] == 'f');
    assert(begins_with(forked, "forked_from:"@));
    assert(begins_with(cloned, "cloned_from:"@));
    assert(!begins_with(cloned, "forked_from:"@));
}

// ---------------------------------------------------------------------------
// The report
// ---------------------------------------------------------------------------

/// What became of forking a session.
pub struct ForkSessionReport {
    pub source_id: String,
    pub new_id: String,
    pub new_rollout_path: String,
    pub event_index: usize,
    pub included_lines: u64,
    pub cut_role: String,
    pub cut_kind: String,
    pub cut_summary: String,
}

/// Reports on a session that was forked.
pub fn report_fork(
    session_id: &str,
    new_id: &str,
    new_path: &str,
    event_index: usize,
    prefix: &StablePrefix,
) -> (report: ForkSessionReport)
    ensures
        report.source_id@ == session_id@,
        report.new_id@ == new_id@,
        report.new_rollout_path@ == new_path@,
        report.event_index == event_index,
        report.included_lines == prefix.lines@.len(),
        report.cut_role@ == prefix.cut.role@,
        report.cut_kind@ == prefix.cut.kind@,
        report.cut_summary@ == prefix.cut.summary@,
{
    ForkSessionReport {
        source_id: session_id.to_owned(),
        new_id: new_id.to_owned(),
        new_rollout_path: new_path.to_owned(),
        event_index,
        included_lines: prefix.lines.len() as u64,
        cut_role: prefix.cut.role.clone(),
        cut_kind: prefix.cut.kind.clone(),
        cut_summary: prefix.cut.summary.clone(),
    }
}

/// A rollout may be forked from just where Desktop does not run, it can be reached and lies among
/// the active sessions, and states the session.
pub proof fn law_when_a_rollout_can_be_forked(session_id: Seq<char>, source: ForkSourceView)
    ensures
        fork_source(session_id, source) is Ok <==> source.desktop is Ok && source.reached is Ok
            && source.sessions is Ok && source.in_sessions && (source.brief matches Ok(Some(brief))
            && brief.id == session_id),
        fork_source(session_id, source) matches Ok((path, brief)) ==> source.reached == Ok::<
            Seq<char>,
            Seq<char>,
        >(path) && source.brief == Ok::<Option<BriefView>, ErrorView>(Some(brief)) && brief.id
            == session_id,
{
}

/// A session may be forked just where it is the active branch of its family, the rollout is that of
/// the branch, the databases are there, the new name can be read and nothing is where the rollout
/// is put away. It is the rollout of that branch which is put away, from where it is to there.
pub proof fn law_when_a_session_may_be_forked(
    store: StoreView,
    family_id: Seq<char>,
    session_id: Seq<char>,
    source_path: Seq<char>,
    target: ForkTargetView,
)
    ensures
        fork_move(store, family_id, session_id, source_path, target) is Ok <==> (family_under(
            store,
            family_id,
        ) matches Some(family) && family.active_id == session_id && exists|i: int|
            0 <= i < family.chain.len() && (#[trigger] family.chain[i]).id == session_id)
            && target.same_rollout == Ok::<bool, ErrorView>(true) && target.state_db is Ok
            && stem_verdict(target.new_stem) is Ok && !target.occupied,
        fork_move(store, family_id, session_id, source_path, target) matches Ok(moved)
            ==> moved.branch_id == session_id && moved.from == source_path && moved.to
            == target.destination,
{
    if let Some(family) = family_under(store, family_id) {
        lemma_position_of(family.chain, session_id);
        if let Some(at) = position_of(family.chain, session_id) {
            assert(family.chain[at].id == session_id);
        }
    }
}

/// The branch of a fork says which session it was forked from and at which line.
pub proof fn law_forks_say_where_they_start(
    session: NewSessionView,
    family_id: Seq<char>,
    event_index: nat,
    source_message: Seq<char>,
    brief: Option<BriefView>,
    host_cwd: Seq<char>,
)
    ensures
        fork_rest(session, family_id, event_index, source_message, brief, host_cwd) is Ok
            <==> brief is Some,
        fork_rest(session, family_id, event_index, source_message, brief, host_cwd) matches Ok(steps)
            ==> steps.len() >= 3 && (steps[0] matches StepView::AppendBranch {
            family_id: family,
            branch,
        } && family == family_id && branch.id == session.id && branch.note == Some(
            "forked_from:"@ + session.made_of + "@line:"@ + decimal(event_index),
        ) && branch.created_at == session.created_at && branch.sha256 is None && branch.line_count
            is None),
{
}

} // verus!
