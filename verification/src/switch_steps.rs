//! The steps by which a session is brought to another provider.

use vstd::prelude::*;

use crate::error::{bool_outcome, text_outcome, unit_outcome, AppError, ErrorView};
use crate::model::{ArchiveOrigin, BranchStatus, BranchView, FamilyBranch};
use crate::rollout::{BriefView, RolloutBrief};
use crate::session_id::{stem_verdict, validate_rollout_filename};
use crate::steps::{
    add_assignment, add_step, assignment_of, assignment_steps, no_steps, opt_assignment,
    project_assignment_record, steps_outcome, steps_view, Assignment, AssignmentView, Step,
    StepView,
};
use crate::switch::{
    active_branch, clone_outcome, done_report, done_view, failed_report, failed_view, opt_brief,
    skipped_report, skipped_view, switch_decision, CloneReport, CloneView, DecisionView,
    SwitchFactsView, SwitchRequest, SwitchRequestView,
};
use crate::text::{join2, join3, opt_text};

verus! {

// ---------------------------------------------------------------------------
// A session that has the provider already, or a branch that serves it
// ---------------------------------------------------------------------------

/// One step, where it is due.
pub open spec fn step_if(due: bool, step: StepView) -> Seq<StepView> {
    if due {
        seq![step]
    } else {
        Seq::empty()
    }
}

fn add_step_if(steps: &mut Vec<Step>, due: bool, step: Step)
    ensures
        steps_view(final(steps)@) == steps_view(old(steps)@) + step_if(due, step@),
{
    let ghost before = steps_view(steps@);
    if due {
        add_step(steps, step);
    }
    assert(steps_view(steps@) =~= before + step_if(due, step@));
}

/// The steps that make a session visible: its thread, its entry in the index, its project,
/// and its family where the store does not have it yet.
pub open spec fn visibility_plan(
    source: BriefView,
    assignment: Option<AssignmentView>,
    deferred: bool,
    registered: bool,
) -> Seq<StepView> {
    seq![
        StepView::SyncThread { path: source.path },
        StepView::AppendIndexLine { id: source.id, thread_name: source.first_user_message },
    ] + assignment_steps(assignment, true, deferred) + step_if(!registered, StepView::SaveStore)
}

/// The steps that make a session visible.
pub fn visibility_steps(
    source: &RolloutBrief,
    assignment: &Option<Assignment>,
    deferred: bool,
    registered: bool,
) -> (steps: Vec<Step>)
    ensures
        steps_view(steps@) == visibility_plan(
            source@,
            opt_assignment(*assignment),
            deferred,
            registered,
        ),
{
    let mut steps = no_steps();
    add_step(&mut steps, Step::SyncThread { path: source.path.clone() });
    add_step(
        &mut steps,
        Step::AppendIndexLine {
            id: source.id.clone(),
            thread_name: source.first_user_message.clone(),
        },
    );
    assert(steps_view(steps@) =~= seq![
        StepView::SyncThread { path: source.path@ },
        StepView::AppendIndexLine { id: source.id@, thread_name: source.first_user_message@ },
    ]);
    add_assignment(&mut steps, assignment, true, deferred);
    add_step_if(&mut steps, !registered, Step::SaveStore);
    steps
}

/// What is reported of a session once it was made visible. `usable` tells whether it then
/// can be used.
pub open spec fn visibility_outcome(
    id: Seq<char>,
    provider: Seq<char>,
    usable: Result<bool, ErrorView>,
    deferred: bool,
) -> Result<CloneView, ErrorView> {
    match usable {
        Err(error) => Err(error),
        Ok(false) => Err(
            ErrorView::Other("会话 "@ + id + " 的可见性修复后复核仍未通过"@),
        ),
        Ok(true) => Ok(
            skipped_view(id, provider, "已修复并复核本地索引可见性"@, deferred),
        ),
    }
}

/// Reports on a session that was made visible.
pub fn report_visibility(
    id: &str,
    provider: &str,
    usable: Result<bool, AppError>,
    deferred: bool,
) -> (outcome: Result<CloneReport, AppError>)
    ensures
        clone_outcome(outcome) == visibility_outcome(
            id@,
            provider@,
            bool_outcome(usable),
            deferred,
        ),
{
    match usable {
        Err(error) => Err(error),
        Ok(false) => Err(
            AppError::Other(join3("会话 ", id, " 的可见性修复后复核仍未通过")),
        ),
        Ok(true) => Ok(
            skipped_report(id, provider, "已修复并复核本地索引可见性", deferred),
        ),
    }
}

/// The steps where a branch serves the provider: its project, and the family where the store
/// does not have it yet.
pub open spec fn existing_plan(
    assignment: Option<AssignmentView>,
    deferred: bool,
    registered: bool,
) -> Seq<StepView> {
    assignment_steps(assignment, true, deferred) + step_if(!registered, StepView::SaveStore)
}

/// The steps where a branch serves the provider.
pub fn existing_steps(assignment: &Option<Assignment>, deferred: bool, registered: bool) -> (steps:
    Vec<Step>)
    ensures
        steps_view(steps@) == existing_plan(opt_assignment(*assignment), deferred, registered),
{
    let mut steps = no_steps();
    add_assignment(&mut steps, assignment, true, deferred);
    assert(steps_view(steps@) =~= assignment_steps(opt_assignment(*assignment), true, deferred));
    add_step_if(&mut steps, !registered, Step::SaveStore);
    steps
}

// ---------------------------------------------------------------------------
// Rewriting
// ---------------------------------------------------------------------------

/// The steps by which the rollout of a session is rewritten for a provider.
pub open spec fn follow_plan(
    source: BriefView,
    assignment: Option<AssignmentView>,
    family_id: Seq<char>,
    provider: Seq<char>,
) -> Seq<StepView> {
    assignment_steps(assignment, true, false) + seq![
        StepView::RewriteProvider { path: source.path },
        StepView::SyncThread { path: source.path },
        StepView::AppendIndexLine { id: source.id, thread_name: source.first_user_message },
        StepView::SetActiveProvider { family_id, provider },
        StepView::SaveStore,
    ]
}

/// The steps by which the rollout of a session is rewritten for a provider.
pub fn follow_steps(
    source: &RolloutBrief,
    assignment: &Option<Assignment>,
    family_id: &str,
    provider: &str,
) -> (steps: Vec<Step>)
    ensures
        steps_view(steps@) == follow_plan(
            source@,
            opt_assignment(*assignment),
            family_id@,
            provider@,
        ),
{
    let mut steps = no_steps();
    add_assignment(&mut steps, assignment, true, false);
    add_step(&mut steps, Step::RewriteProvider { path: source.path.clone() });
    add_step(&mut steps, Step::SyncThread { path: source.path.clone() });
    add_step(
        &mut steps,
        Step::AppendIndexLine {
            id: source.id.clone(),
            thread_name: source.first_user_message.clone(),
        },
    );
    add_step(
        &mut steps,
        Step::SetActiveProvider {
            family_id: family_id.to_owned(),
            provider: provider.to_owned(),
        },
    );
    add_step(&mut steps, Step::SaveStore);
    assert(steps_view(steps@) =~= follow_plan(
        source@,
        opt_assignment(*assignment),
        family_id@,
        provider@,
    ));
    steps
}

// ---------------------------------------------------------------------------
// Copying
// ---------------------------------------------------------------------------

/// What was learned for a copy: where the rollout is and whether it is there, the new
/// session with its rollout and the stem of its file name, whether the state database is
/// there, and what archiving the rollout needs.
pub struct CopyFacts {
    pub source_path: Result<String, AppError>,
    pub source_is_file: bool,
    pub new_id: String,
    pub new_path: String,
    pub new_stem: Option<String>,
    pub state_db: Result<(), AppError>,
    pub active_id: Option<String>,
    pub archive: ArchiveFacts,
}

/// What was learned for archiving a rollout: whether it is there still, whether its session
/// has a threads row, whether its checksum could be had, where it goes (`None` where it has
/// no file name), and whether something is there already.
pub struct ArchiveFacts {
    pub is_file: bool,
    pub thread_row: Result<(), AppError>,
    pub checksum: Result<(), AppError>,
    pub destination: Option<String>,
    pub occupied: bool,
}

/// What [`CopyFacts`] hold.
#[verifier::ext_equal]
pub struct CopyFactsView {
    pub source_path: Result<Seq<char>, ErrorView>,
    pub source_is_file: bool,
    pub new_id: Seq<char>,
    pub new_path: Seq<char>,
    pub new_stem: Option<Seq<char>>,
    pub state_db: Result<(), ErrorView>,
    pub active_id: Option<Seq<char>>,
    pub archive: ArchiveFactsView,
}

/// What [`ArchiveFacts`] hold.
#[verifier::ext_equal]
pub struct ArchiveFactsView {
    pub is_file: bool,
    pub thread_row: Result<(), ErrorView>,
    pub checksum: Result<(), ErrorView>,
    pub destination: Option<Seq<char>>,
    pub occupied: bool,
}

impl View for ArchiveFacts {
    type V = ArchiveFactsView;

    open spec fn view(&self) -> ArchiveFactsView {
        ArchiveFactsView {
            is_file: self.is_file,
            thread_row: unit_outcome(self.thread_row),
            checksum: unit_outcome(self.checksum),
            destination: opt_text(self.destination),
            occupied: self.occupied,
        }
    }
}

impl View for CopyFacts {
    type V = CopyFactsView;

    open spec fn view(&self) -> CopyFactsView {
        CopyFactsView {
            source_path: text_outcome(self.source_path),
            source_is_file: self.source_is_file,
            new_id: self.new_id@,
            new_path: self.new_path@,
            new_stem: opt_text(self.new_stem),
            state_db: unit_outcome(self.state_db),
            active_id: opt_text(self.active_id),
            archive: self.archive@,
        }
    }
}

/// A rollout that is put away: the branch that it belongs to, where it is and where it goes.
pub struct ArchiveMove {
    pub branch_id: String,
    pub from: String,
    pub to: String,
}

/// What an [`ArchiveMove`] holds.
#[verifier::ext_equal]
pub struct MoveView {
    pub branch_id: Seq<char>,
    pub from: Seq<char>,
    pub to: Seq<char>,
}

impl View for ArchiveMove {
    type V = MoveView;

    open spec fn view(&self) -> MoveView {
        MoveView { branch_id: self.branch_id@, from: self.from@, to: self.to@ }
    }
}

/// What an optional move holds.
pub open spec fn opt_move(archive: Option<ArchiveMove>) -> Option<MoveView> {
    match archive {
        Some(archive) => Some(archive@),
        None => None,
    }
}

/// What comes of the checks before a copy.
pub enum CopyOutcome {
    /// Nothing is copied.
    Finished(CloneReport),
    /// The rollout at `source_path` is copied, and then put away where `archive` is given.
    Proceed { source_path: String, archive: Option<ArchiveMove> },
}

/// What a [`CopyOutcome`] holds.
#[verifier::ext_equal]
pub enum CopyOutcomeView {
    Finished(CloneView),
    Proceed { source_path: Seq<char>, archive: Option<MoveView> },
}

impl View for CopyOutcome {
    type V = CopyOutcomeView;

    open spec fn view(&self) -> CopyOutcomeView {
        match *self {
            CopyOutcome::Finished(report) => CopyOutcomeView::Finished(report@),
            CopyOutcome::Proceed { source_path, archive } => CopyOutcomeView::Proceed {
                source_path: source_path@,
                archive: opt_move(archive),
            },
        }
    }
}

/// The move by which the rollout of the active branch is put away, or why it cannot be.
pub open spec fn archive_verdict(source_path: Seq<char>, facts: CopyFactsView) -> Result<
    MoveView,
    ErrorView,
> {
    match facts.active_id {
        None => Err(ErrorView::Other("continuous 模式缺少 active family 分支"@)),
        Some(branch_id) => if !facts.archive.is_file {
            Err(ErrorView::NotFound("旧 active rollout 不存在，不能归档: "@ + source_path))
        } else if facts.archive.thread_row is Err {
            Err(facts.archive.thread_row->Err_0)
        } else if facts.archive.checksum is Err {
            Err(facts.archive.checksum->Err_0)
        } else {
            match facts.archive.destination {
                None => Err(ErrorView::Path("rollout 缺少文件名: "@ + source_path)),
                Some(destination) => if facts.archive.occupied {
                    Err(ErrorView::Other("归档目标已存在，拒绝覆盖: "@ + destination))
                } else {
                    Ok(MoveView { branch_id, from: source_path, to: destination })
                },
            }
        },
    }
}

/// What comes of the checks before a copy.
pub open spec fn copy_verdict(
    request: SwitchRequestView,
    provider: Seq<char>,
    archive: bool,
    facts: CopyFactsView,
) -> Result<CopyOutcomeView, ErrorView> {
    match facts.source_path {
        Err(error) => Err(error),
        Ok(source_path) => if !facts.source_is_file {
            Ok(
                CopyOutcomeView::Finished(
                    failed_view(
                        request.session_id,
                        provider,
                        "源 rollout 不存在: "@ + source_path,
                    ),
                ),
            )
        } else if stem_verdict(facts.new_stem) is Err {
            Err(stem_verdict(facts.new_stem)->Err_0)
        } else if request.dry_run {
            Ok(
                CopyOutcomeView::Finished(
                    CloneView {
                        skipped_reason: Some("dry_run: 不会写入磁盘"@),
                        ..done_view(
                            request.session_id,
                            provider,
                            facts.new_id,
                            facts.new_path,
                            false,
                        )
                    },
                ),
            )
        } else if facts.state_db is Err {
            Err(facts.state_db->Err_0)
        } else if !archive {
            Ok(CopyOutcomeView::Proceed { source_path, archive: None })
        } else {
            match archive_verdict(source_path, facts) {
                Err(error) => Err(error),
                Ok(archive) => Ok(
                    CopyOutcomeView::Proceed { source_path, archive: Some(archive) },
                ),
            }
        },
    }
}

fn check_archive(source_path: &str, facts: &CopyFacts) -> (outcome: Result<ArchiveMove, AppError>)
    ensures
        match outcome {
            Ok(archive) => archive_verdict(source_path@, facts@) == Ok::<MoveView, ErrorView>(
                archive@,
            ),
            Err(error) => archive_verdict(source_path@, facts@) == Err::<MoveView, ErrorView>(
                error@,
            ),
        },
{
    let branch_id = match &facts.active_id {
        Some(branch_id) => branch_id,
        None => return Err(
            AppError::Other("continuous 模式缺少 active family 分支".to_owned()),
        ),
    };
    if !facts.archive.is_file {
        return Err(
            AppError::NotFound(
                join2("旧 active rollout 不存在，不能归档: ", source_path),
            ),
        );
    }
    if let Err(error) = &facts.archive.thread_row {
        return Err(error.copy());
    }
    if let Err(error) = &facts.archive.checksum {
        return Err(error.copy());
    }
    match &facts.archive.destination {
        None => Err(AppError::Path(join2("rollout 缺少文件名: ", source_path))),
        Some(destination) => if facts.archive.occupied {
            Err(
                AppError::Other(
                    join2("归档目标已存在，拒绝覆盖: ", destination.as_str()),
                ),
            )
        } else {
            Ok(
                ArchiveMove {
                    branch_id: branch_id.clone(),
                    from: source_path.to_owned(),
                    to: destination.clone(),
                },
            )
        },
    }
}

/// Checks that a rollout can be copied for a provider, and put away where `archive` says so.
pub fn check_copy(request: &SwitchRequest, provider: &str, archive: bool, facts: &CopyFacts) -> (outcome:
    Result<CopyOutcome, AppError>)
    ensures
        match outcome {
            Ok(outcome) => copy_verdict(request@, provider@, archive, facts@) == Ok::<
                CopyOutcomeView,
                ErrorView,
            >(outcome@),
            Err(error) => copy_verdict(request@, provider@, archive, facts@) == Err::<
                CopyOutcomeView,
                ErrorView,
            >(error@),
        },
{
    let session_id = request.session_id.as_str();
    let source_path = match &facts.source_path {
        Ok(path) => path,
        Err(error) => return Err(error.copy()),
    };
    if !facts.source_is_file {
        let text = join2("源 rollout 不存在: ", source_path.as_str());
        return Ok(CopyOutcome::Finished(failed_report(session_id, provider, text.as_str())));
    }
    let stem = match &facts.new_stem {
        Some(stem) => Some(stem.as_str()),
        None => None,
    };
    if let Err(error) = validate_rollout_filename(stem) {
        return Err(error);
    }
    if request.dry_run {
        let mut report = done_report(
            session_id,
            provider,
            facts.new_id.as_str(),
            facts.new_path.as_str(),
            false,
        );
        report.skipped_reason = Some("dry_run: 不会写入磁盘".to_owned());
        return Ok(CopyOutcome::Finished(report));
    }
    if let Err(error) = &facts.state_db {
        return Err(error.copy());
    }
    if !archive {
        return Ok(CopyOutcome::Proceed { source_path: source_path.clone(), archive: None });
    }
    match check_archive(source_path.as_str(), facts) {
        Ok(moved) => Ok(
            CopyOutcome::Proceed { source_path: source_path.clone(), archive: Some(moved) },
        ),
        Err(error) => Err(error),
    }
}

/// The first steps of a copy: the new rollout and its thread.
pub open spec fn copy_start(source_path: Seq<char>, new_path: Seq<char>) -> Seq<StepView> {
    seq![
        StepView::WriteRollout { path: new_path },
        StepView::RequireUnchanged { path: source_path, label: "克隆源 rollout "@ },
        StepView::SyncThread { path: new_path },
    ]
}

/// The first steps of a copy.
pub fn copy_first_steps(source_path: &str, new_path: &str) -> (steps: Vec<Step>)
    ensures
        steps_view(steps@) == copy_start(source_path@, new_path@),
{
    let mut steps = no_steps();
    add_step(&mut steps, Step::WriteRollout { path: new_path.to_owned() });
    add_step(
        &mut steps,
        Step::RequireUnchanged {
            path: source_path.to_owned(),
            label: "克隆源 rollout ".to_owned(),
        },
    );
    add_step(&mut steps, Step::SyncThread { path: new_path.to_owned() });
    assert(steps_view(steps@) =~= copy_start(source_path@, new_path@));
    steps
}

/// The steps by which the rollout of the branch that gave way is put away.
pub open spec fn archive_plan(archive: Option<MoveView>, family_id: Seq<char>) -> Seq<StepView> {
    match archive {
        None => Seq::empty(),
        Some(archive) => seq![
            StepView::RequireUnchanged { path: archive.from, label: "旧 active rollout "@ },
            StepView::ArchiveBranch { family_id, branch_id: archive.branch_id },
            StepView::SetArchiveOrigin {
                family_id,
                branch_id: archive.branch_id,
                origin: ArchiveOrigin::ProviderSync,
            },
            StepView::RequireUnchanged { path: archive.from, label: "旧 active rollout "@ },
            StepView::MoveFile { from: archive.from, to: archive.to },
            StepView::RequireUnchanged {
                path: archive.to,
                label: "已归档旧 active rollout "@,
            },
            StepView::MarkArchived { id: archive.branch_id, path: archive.to },
            StepView::RemoveIndexLine { id: archive.branch_id },
            StepView::RecordLedger {
                family_id,
                id: archive.branch_id,
                origin: ArchiveOrigin::ProviderSync,
                path: archive.to,
            },
        ],
    }
}

fn add_archive_steps(steps: &mut Vec<Step>, archive: &Option<ArchiveMove>, family_id: &str)
    ensures
        steps_view(final(steps)@) == steps_view(old(steps)@) + archive_plan(
            opt_move(*archive),
            family_id@,
        ),
{
    let ghost before = steps_view(steps@);
    if let Some(archive) = archive {
        let label = "旧 active rollout ";
        add_step(
            steps,
            Step::RequireUnchanged { path: archive.from.clone(), label: label.to_owned() },
        );
        add_step(
            steps,
            Step::ArchiveBranch {
                family_id: family_id.to_owned(),
                branch_id: archive.branch_id.clone(),
            },
        );
        add_step(
            steps,
            Step::SetArchiveOrigin {
                family_id: family_id.to_owned(),
                branch_id: archive.branch_id.clone(),
                origin: ArchiveOrigin::ProviderSync,
            },
        );
        add_step(
            steps,
            Step::RequireUnchanged { path: archive.from.clone(), label: label.to_owned() },
        );
        add_step(steps, Step::MoveFile { from: archive.from.clone(), to: archive.to.clone() });
        add_step(
            steps,
            Step::RequireUnchanged {
                path: archive.to.clone(),
                label: "已归档旧 active rollout ".to_owned(),
            },
        );
        add_step(
            steps,
            Step::MarkArchived { id: archive.branch_id.clone(), path: archive.to.clone() },
        );
        add_step(steps, Step::RemoveIndexLine { id: archive.branch_id.clone() });
        add_step(
            steps,
            Step::RecordLedger {
                family_id: family_id.to_owned(),
                id: archive.branch_id.clone(),
                origin: ArchiveOrigin::ProviderSync,
                path: archive.to.clone(),
            },
        );
        assert(steps_view(steps@) =~= before + archive_plan(Some(archive@), family_id@));
    } else {
        assert(before + archive_plan(None, family_id@) =~= before);
    }
}

/// A new session of a family: its rollout, its provider, the session that it was made of and
/// when.
pub struct NewSession {
    pub id: String,
    pub path: String,
    pub relpath: String,
    pub provider: String,
    pub made_of: String,
    pub created_at: String,
}

/// What a [`NewSession`] holds.
#[verifier::ext_equal]
pub struct NewSessionView {
    pub id: Seq<char>,
    pub path: Seq<char>,
    pub relpath: Seq<char>,
    pub provider: Seq<char>,
    pub made_of: Seq<char>,
    pub created_at: Seq<char>,
}

impl View for NewSession {
    type V = NewSessionView;

    open spec fn view(&self) -> NewSessionView {
        NewSessionView {
            id: self.id@,
            path: self.path@,
            relpath: self.relpath@,
            provider: self.provider@,
            made_of: self.made_of@,
            created_at: self.created_at@,
        }
    }
}

/// The branch of a new session, with a note on how it was made.
pub open spec fn new_branch_view(session: NewSessionView, note: Seq<char>) -> BranchView {
    BranchView {
        id: session.id,
        provider: session.provider,
        created_at: session.created_at,
        status: BranchStatus::Active,
        rollout_relpath: session.relpath,
        sha256: None,
        line_count: None,
        note: Some(note),
        archive_origin: None,
    }
}

/// The branch of a new session, with a note on how it was made.
pub fn new_branch(session: &NewSession, note: String) -> (branch: FamilyBranch)
    ensures
        branch@ == new_branch_view(session@, note@),
{
    FamilyBranch {
        id: session.id.clone(),
        provider: session.provider.clone(),
        created_at: session.created_at.clone(),
        status: BranchStatus::Active,
        rollout_relpath: session.relpath.clone(),
        sha256: None,
        line_count: None,
        note: Some(note),
        archive_origin: None,
    }
}

/// The error on a new rollout that states no session.
pub open spec fn new_without_session(path: Seq<char>) -> ErrorView {
    ErrorView::Other("新分支 rollout 缺少有效 session_meta.id: "@ + path)
}

/// The step that makes a new branch the active one of its family.
pub open spec fn branch_step(family_id: Seq<char>, branch: BranchView, archived: bool) -> StepView {
    if archived {
        StepView::AppendBranch { family_id, branch }
    } else {
        StepView::ReplaceActive { family_id, branch }
    }
}

/// The steps of a copy once its rollout is there: its project and title, the rollout of the
/// branch that gave way, the new branch, its entry in the index and the store. `brief` is
/// what the new rollout says, and `host_cwd` how the host writes the directory of its
/// session.
pub open spec fn copy_rest(
    session: NewSessionView,
    family_id: Seq<char>,
    archive: Option<MoveView>,
    brief: Option<BriefView>,
    host_cwd: Seq<char>,
    thread_name: Seq<char>,
    deferred: bool,
) -> Result<Seq<StepView>, ErrorView> {
    match brief {
        None => Err(new_without_session(session.path)),
        Some(brief) => Ok(
            assignment_steps(assignment_of(brief.id, brief.cwd, host_cwd), false, deferred) + seq![
                StepView::CarryTitle { from_id: session.made_of, to_id: session.id },
            ] + archive_plan(archive, family_id) + seq![
                branch_step(
                    family_id,
                    new_branch_view(session, "cloned_from:"@ + session.made_of),
                    archive is Some,
                ),
                StepView::AppendIndexLine { id: session.id, thread_name },
                StepView::SaveStore,
            ],
        ),
    }
}

/// The steps of a copy once its rollout is there.
pub fn copy_later_steps(
    session: &NewSession,
    family_id: &str,
    archive: &Option<ArchiveMove>,
    brief: &Option<RolloutBrief>,
    host_cwd: &str,
    thread_name: &str,
    deferred: bool,
) -> (steps: Result<Vec<Step>, AppError>)
    ensures
        steps_outcome(steps) == copy_rest(
            session@,
            family_id@,
            opt_move(*archive),
            opt_brief(*brief),
            host_cwd@,
            thread_name@,
            deferred,
        ),
{
    let brief = match brief {
        Some(brief) => brief,
        None => return Err(
            AppError::Other(
                join2(
                    "新分支 rollout 缺少有效 session_meta.id: ",
                    session.path.as_str(),
                ),
            ),
        ),
    };
    let assignment = project_assignment_record(brief.id.as_str(), &brief.cwd, host_cwd);
    let mut steps = no_steps();
    add_assignment(&mut steps, &assignment, false, deferred);
    add_step(
        &mut steps,
        Step::CarryTitle { from_id: session.made_of.clone(), to_id: session.id.clone() },
    );
    let ghost first = assignment_steps(opt_assignment(assignment), false, deferred) + seq![
        StepView::CarryTitle { from_id: session.made_of@, to_id: session.id@ },
    ];
    assert(steps_view(steps@) =~= first);
    add_archive_steps(&mut steps, archive, family_id);
    let ghost second = first + archive_plan(opt_move(*archive), family_id@);
    let branch = new_branch(session, join2("cloned_from:", session.made_of.as_str()));
    if archive.is_some() {
        add_step(&mut steps, Step::AppendBranch { family_id: family_id.to_owned(), branch });
    } else {
        add_step(&mut steps, Step::ReplaceActive { family_id: family_id.to_owned(), branch });
    }
    add_step(
        &mut steps,
        Step::AppendIndexLine { id: session.id.clone(), thread_name: thread_name.to_owned() },
    );
    add_step(&mut steps, Step::SaveStore);
    assert(steps_view(steps@) =~= second + seq![
        branch_step(family_id@, branch@, archive is Some),
        StepView::AppendIndexLine { id: session.id@, thread_name: thread_name@ },
        StepView::SaveStore,
    ]);
    Ok(steps)
}

// ---------------------------------------------------------------------------
// Laws
// ---------------------------------------------------------------------------

/// A dry run takes no step: whatever is decided, either nothing is left to do, or a rollout
/// would be copied and the checks before the copy end without one.
pub proof fn law_dry_run_changes_nothing(
    request: SwitchRequestView,
    facts: SwitchFactsView,
    provider: Seq<char>,
    copy: CopyFactsView,
)
    requires
        request.dry_run,
    ensures
        match switch_decision(request, facts) {
            Ok(DecisionView::Finished(_)) => true,
            Ok(DecisionView::CopyRollout { archive }) => !(copy_verdict(
                request,
                provider,
                archive,
                copy,
            ) matches Ok(CopyOutcomeView::Proceed { .. })),
            Ok(_) => false,
            Err(_) => true,
        },
{
}

/// The rollout of a session whose history is in pages is never rewritten, copied or taken
/// for its thread.
pub proof fn law_pages_are_left_to_codex(
    request: SwitchRequestView,
    facts: SwitchFactsView,
    source: BriefView,
)
    requires
        facts.source == Ok::<Option<BriefView>, ErrorView>(Some(source)),
        source.history_mode == "paginated"@,
    ensures
        match switch_decision(request, facts) {
            Ok(DecisionView::Finished(_)) => true,
            Ok(DecisionView::UseExisting { .. }) => true,
            Ok(DecisionView::ForkOfficially) => true,
            Ok(_) => false,
            Err(_) => true,
        },
{
}

/// While Desktop runs no rollout is rewritten or put away.
pub proof fn law_running_desktop_keeps_its_rollouts(
    request: SwitchRequestView,
    facts: SwitchFactsView,
)
    requires
        !request.dry_run,
        facts.desktop_running || facts.desktop is Err,
    ensures
        switch_decision(request, facts) != Ok::<DecisionView, ErrorView>(
            DecisionView::RewriteInPlace,
        ),
        switch_decision(request, facts) != Ok::<DecisionView, ErrorView>(
            DecisionView::CopyRollout { archive: true },
        ),
{
}

/// Only the active branch of a family is brought to another provider.
pub proof fn law_only_the_active_branch_switches(
    request: SwitchRequestView,
    facts: SwitchFactsView,
    source: BriefView,
)
    requires
        facts.source == Ok::<Option<BriefView>, ErrorView>(Some(source)),
        active_branch(facts.family) is Some,
        active_branch(facts.family)->Some_0.id != request.session_id,
    ensures
        switch_decision(request, facts) is Err,
{
}

/// A family in which a branch serves the provider gets no second one for it.
pub proof fn law_one_branch_per_provider(
    request: SwitchRequestView,
    facts: SwitchFactsView,
    provider: Seq<char>,
)
    requires
        crate::switch::chosen_provider(request.target_provider, facts.configured) == Ok::<
            Seq<char>,
            ErrorView,
        >(provider),
        crate::switch::serving_branch(facts, provider) matches Ok(Some(_)),
    ensures
        match switch_decision(request, facts) {
            Ok(DecisionView::ForkOfficially) => false,
            Ok(DecisionView::RewriteInPlace) => false,
            Ok(DecisionView::CopyRollout { .. }) => false,
            _ => true,
        },
{
}

/// In the steps of a copy every move of a rollout stands between two checks that it is what
/// it was, and the store is written last.
pub proof fn law_copy_checks_round_moves(
    session: NewSessionView,
    family_id: Seq<char>,
    archive: Option<MoveView>,
    brief: Option<BriefView>,
    host_cwd: Seq<char>,
    thread_name: Seq<char>,
    deferred: bool,
)
    requires
        brief is Some,
    ensures
        copy_rest(session, family_id, archive, brief, host_cwd, thread_name, deferred) matches Ok(
            steps,
        ) && steps.last() == StepView::SaveStore && (forall|i: int|
            0 <= i < steps.len() && #[trigger] steps[i] is MoveFile ==> 0 < i && i + 1
                < steps.len() && steps[i - 1] is RequireUnchanged && steps[i - 1]->RequireUnchanged_path
                == steps[i]->from && steps[i + 1] is RequireUnchanged
                && steps[i + 1]->RequireUnchanged_path == steps[i]->to),
{
    let steps = copy_rest(
        session,
        family_id,
        archive,
        brief,
        host_cwd,
        thread_name,
        deferred,
    )->Ok_0;
    let brief = brief->Some_0;
    let head = assignment_steps(assignment_of(brief.id, brief.cwd, host_cwd), false, deferred)
        + seq![StepView::CarryTitle { from_id: session.made_of, to_id: session.id }];
    let middle = archive_plan(archive, family_id);
    assert forall|i: int|
        0 <= i < steps.len() && #[trigger] steps[i] is MoveFile implies 0 < i && i + 1
        < steps.len() && steps[i - 1] is RequireUnchanged && steps[i - 1]->RequireUnchanged_path
        == steps[i]->from && steps[i + 1] is RequireUnchanged && steps[i + 1]->RequireUnchanged_path
        == steps[i]->to by {
        if i < head.len() {
            assert(steps[i] == head[i]);
        } else if i < head.len() + middle.len() {
            assert(steps[i] == middle[i - head.len()]);
            assert(steps[i - 1] == middle[i - head.len() - 1]);
            assert(steps[i + 1] == middle[i - head.len() + 1]);
        }
    }
}

/// A copy may be made just where the rollout that is copied is known and there, the new name can be
/// read and the databases are there. Where it is put away afterwards, its branch must be active and
/// have a row and a checksum, and the place that it goes to must be known and free.
pub proof fn law_when_a_rollout_is_copied(
    request: SwitchRequestView,
    provider: Seq<char>,
    archive: bool,
    facts: CopyFactsView,
)
    ensures
        copy_verdict(request, provider, archive, facts) matches Ok(CopyOutcomeView::Proceed { .. })
            <==> !request.dry_run && facts.source_path is Ok && facts.source_is_file && stem_verdict(
            facts.new_stem,
        ) is Ok && facts.state_db is Ok && (archive ==> facts.active_id is Some
            && facts.archive.is_file && facts.archive.thread_row is Ok && facts.archive.checksum
            is Ok && facts.archive.destination is Some && !facts.archive.occupied),
        copy_verdict(request, provider, archive, facts) matches Ok(
            CopyOutcomeView::Proceed { source_path, archive: moved },
        ) ==> facts.source_path == Ok::<Seq<char>, ErrorView>(source_path) && (moved is Some
            <==> archive) && (moved matches Some(moved) ==> moved.from == source_path && Some(
            moved.branch_id,
        ) == facts.active_id && Some(moved.to) == facts.archive.destination),
{
}

/// What a copy that is not made reports: a rollout that is not there is a failure, and a dry run
/// tells the session and the place that the copy would have.
pub proof fn law_what_a_copy_that_is_not_made_reports(
    request: SwitchRequestView,
    provider: Seq<char>,
    archive: bool,
    facts: CopyFactsView,
)
    ensures
        facts.source_path is Ok && !facts.source_is_file ==> (copy_verdict(
            request,
            provider,
            archive,
            facts,
        ) matches Ok(CopyOutcomeView::Finished(report)) && !report.ok && report.error is Some
            && report.new_id is None),
        facts.source_path is Ok && facts.source_is_file && stem_verdict(facts.new_stem) is Ok
            && request.dry_run ==> (copy_verdict(request, provider, archive, facts) matches Ok(
            CopyOutcomeView::Finished(report),
        ) && report.ok && report.new_id == Some(facts.new_id) && report.new_rollout_path == Some(
            facts.new_path,
        ) && report.skipped_reason is Some && !report.desktop_restart_required),
{
}

/// The branch of a copy says which session it was cloned from, belongs to the provider and has the
/// place and the moment of the new session.
pub proof fn law_copies_say_what_they_were_made_of(
    session: NewSessionView,
    family_id: Seq<char>,
    archive: Option<MoveView>,
    brief: Option<BriefView>,
    host_cwd: Seq<char>,
    thread_name: Seq<char>,
    deferred: bool,
)
    requires
        brief is Some,
    ensures
        copy_rest(session, family_id, archive, brief, host_cwd, thread_name, deferred) matches Ok(
            steps,
        ) && steps.len() >= 3 && {
            let step = steps[steps.len() - 3];
            let branch = match step {
                StepView::AppendBranch { branch, .. } => branch,
                StepView::ReplaceActive { branch, .. } => branch,
                _ => arbitrary(),
            };
            &&& step is AppendBranch <==> archive is Some
            &&& step is ReplaceActive <==> archive is None
            &&& branch.id == session.id && branch.provider == session.provider
            &&& branch.rollout_relpath == session.relpath && branch.created_at == session.created_at
            &&& branch.note == Some("cloned_from:"@ + session.made_of)
        },
{
}

/// A session that was made visible is reported as such just where it then can be used.
pub proof fn law_visibility_is_checked_again(
    id: Seq<char>,
    provider: Seq<char>,
    usable: Result<bool, ErrorView>,
    deferred: bool,
)
    ensures
        visibility_outcome(id, provider, usable, deferred) is Ok <==> usable == Ok::<
            bool,
            ErrorView,
        >(true),
        visibility_outcome(id, provider, usable, deferred) matches Ok(report) ==> report.ok
            && report.source_id == id && report.new_id is None && report.desktop_restart_required
            == deferred,
        usable matches Err(error) ==> visibility_outcome(id, provider, usable, deferred) == Err::<
            CloneView,
            ErrorView,
        >(error),
{
}

} // verus!
