//! The steps that change files and databases. An operation plans its steps; they are taken
//! in order, up to the first that fails. To undo those that were taken is left to the journal of
//! whoever takes them.

use vstd::prelude::*;

use crate::error::{AppError, ErrorView};
use crate::model::{ArchiveOrigin, BranchView, FamilyBranch};

verus! {

/// One step of an operation.
pub enum Step {
    /// Assigns a thread to the project at a directory; `missing_only` where it has none yet.
    AssignProject { thread_id: String, cwd: String, missing_only: bool },
    /// Writes the rollout of a new session.
    WriteRollout { path: String },
    /// Sets the provider in the metadata of a rollout.
    RewriteProvider { path: String },
    /// Fails where a file is no longer what it was; `label` names it.
    RequireUnchanged { path: String, label: String },
    /// Writes the threads row of a rollout, as one that is not archived.
    SyncThread { path: String },
    /// Carries title and name of a session to another.
    CarryTitle { from_id: String, to_id: String },
    /// Carries over where a session was converted from.
    CopyProvenance { from_id: String, to_id: String },
    /// Marks a branch of the store as archived, with the checksum of its rollout.
    ArchiveBranch { family_id: String, branch_id: String },
    /// Notes in the store why a branch was archived.
    SetArchiveOrigin { family_id: String, branch_id: String, origin: ArchiveOrigin },
    /// Moves a file.
    MoveFile { from: String, to: String },
    /// Marks the threads row of a session as archived, with the new place of its rollout.
    MarkArchived { id: String, path: String },
    /// Removes a session from the session index.
    RemoveIndexLine { id: String },
    /// Notes in the ledger why a session was archived and where its rollout is, with the
    /// checksum that its branch in a family has.
    RecordLedger { family_id: String, id: String, origin: ArchiveOrigin, path: String },
    /// Removes a session from the ledger.
    RemoveLedger { id: String },
    /// Adds a branch to a family and makes it the active one.
    AppendBranch { family_id: String, branch: FamilyBranch },
    /// Adds a branch to a family as the active one; those that were active so far are
    /// archived for the sync of providers.
    ReplaceActive { family_id: String, branch: FamilyBranch },
    /// Sets the provider of the active branch of a family.
    SetActiveProvider { family_id: String, provider: String },
    /// Makes another branch of a family the active one; why it was archived is forgotten.
    SetActive { family_id: String, branch_id: String },
    /// Writes the entry of a session into the session index.
    AppendIndexLine { id: String, thread_name: String },
    /// Writes the store.
    SaveStore,
}

/// What a [`Step`] holds.
#[verifier::ext_equal]
pub enum StepView {
    AssignProject { thread_id: Seq<char>, cwd: Seq<char>, missing_only: bool },
    WriteRollout { path: Seq<char> },
    RewriteProvider { path: Seq<char> },
    RequireUnchanged { path: Seq<char>, label: Seq<char> },
    SyncThread { path: Seq<char> },
    CarryTitle { from_id: Seq<char>, to_id: Seq<char> },
    CopyProvenance { from_id: Seq<char>, to_id: Seq<char> },
    ArchiveBranch { family_id: Seq<char>, branch_id: Seq<char> },
    SetArchiveOrigin { family_id: Seq<char>, branch_id: Seq<char>, origin: ArchiveOrigin },
    MoveFile { from: Seq<char>, to: Seq<char> },
    MarkArchived { id: Seq<char>, path: Seq<char> },
    RemoveIndexLine { id: Seq<char> },
    RecordLedger { family_id: Seq<char>, id: Seq<char>, origin: ArchiveOrigin, path: Seq<char> },
    RemoveLedger { id: Seq<char> },
    AppendBranch { family_id: Seq<char>, branch: BranchView },
    ReplaceActive { family_id: Seq<char>, branch: BranchView },
    SetActiveProvider { family_id: Seq<char>, provider: Seq<char> },
    SetActive { family_id: Seq<char>, branch_id: Seq<char> },
    AppendIndexLine { id: Seq<char>, thread_name: Seq<char> },
    SaveStore,
}

impl View for Step {
    type V = StepView;

    open spec fn view(&self) -> StepView {
        match *self {
            Step::AssignProject { thread_id, cwd, missing_only } => StepView::AssignProject {
                thread_id: thread_id@,
                cwd: cwd@,
                missing_only,
            },
            Step::WriteRollout { path } => StepView::WriteRollout { path: path@ },
            Step::RewriteProvider { path } => StepView::RewriteProvider { path: path@ },
            Step::RequireUnchanged { path, label } => StepView::RequireUnchanged {
                path: path@,
                label: label@,
            },
            Step::SyncThread { path } => StepView::SyncThread { path: path@ },
            Step::CarryTitle { from_id, to_id } => StepView::CarryTitle {
                from_id: from_id@,
                to_id: to_id@,
            },
            Step::CopyProvenance { from_id, to_id } => StepView::CopyProvenance {
                from_id: from_id@,
                to_id: to_id@,
            },
            Step::ArchiveBranch { family_id, branch_id } => StepView::ArchiveBranch {
                family_id: family_id@,
                branch_id: branch_id@,
            },
            Step::SetArchiveOrigin { family_id, branch_id, origin } => StepView::SetArchiveOrigin {
                family_id: family_id@,
                branch_id: branch_id@,
                origin,
            },
            Step::MoveFile { from, to } => StepView::MoveFile { from: from@, to: to@ },
            Step::MarkArchived { id, path } => StepView::MarkArchived { id: id@, path: path@ },
            Step::RemoveIndexLine { id } => StepView::RemoveIndexLine { id: id@ },
            Step::RecordLedger { family_id, id, origin, path } => StepView::RecordLedger {
                family_id: family_id@,
                id: id@,
                origin,
                path: path@,
            },
            Step::RemoveLedger { id } => StepView::RemoveLedger { id: id@ },
            Step::AppendBranch { family_id, branch } => StepView::AppendBranch {
                family_id: family_id@,
                branch: branch@,
            },
            Step::ReplaceActive { family_id, branch } => StepView::ReplaceActive {
                family_id: family_id@,
                branch: branch@,
            },
            Step::SetActiveProvider { family_id, provider } => StepView::SetActiveProvider {
                family_id: family_id@,
                provider: provider@,
            },
            Step::SetActive { family_id, branch_id } => StepView::SetActive {
                family_id: family_id@,
                branch_id: branch_id@,
            },
            Step::AppendIndexLine { id, thread_name } => StepView::AppendIndexLine {
                id: id@,
                thread_name: thread_name@,
            },
            Step::SaveStore => StepView::SaveStore,
        }
    }
}

/// What a list of steps holds.
pub open spec fn steps_view(steps: Seq<Step>) -> Seq<StepView> {
    steps.map_values(|step: Step| step@)
}

/// What the outcome of planning steps holds.
pub open spec fn steps_outcome(outcome: Result<Vec<Step>, AppError>) -> Result<
    Seq<StepView>,
    ErrorView,
> {
    match outcome {
        Ok(steps) => Ok(steps_view(steps@)),
        Err(error) => Err(error@),
    }
}

/// The thread and directory of a project assignment.
pub struct Assignment {
    pub thread_id: String,
    pub cwd: String,
}

/// What an [`Assignment`] holds.
#[verifier::ext_equal]
pub struct AssignmentView {
    pub thread_id: Seq<char>,
    pub cwd: Seq<char>,
}

impl View for Assignment {
    type V = AssignmentView;

    open spec fn view(&self) -> AssignmentView {
        AssignmentView { thread_id: self.thread_id@, cwd: self.cwd@ }
    }
}

/// What an optional assignment holds.
pub open spec fn opt_assignment(assignment: Option<Assignment>) -> Option<AssignmentView> {
    match assignment {
        Some(assignment) => Some(assignment@),
        None => None,
    }
}

/// The steps of a project assignment: one where there is anything to assign.
pub open spec fn assignment_steps(
    assignment: Option<AssignmentView>,
    missing_only: bool,
    deferred: bool,
) -> Seq<StepView> {
    match assignment {
        Some(assignment) => if deferred {
            Seq::empty()
        } else {
            seq![
                StepView::AssignProject {
                    thread_id: assignment.thread_id,
                    cwd: assignment.cwd,
                    missing_only,
                },
            ]
        },
        None => Seq::empty(),
    }
}

/// Adds one step to a list.
pub fn add_step(steps: &mut Vec<Step>, step: Step)
    ensures
        steps_view(final(steps)@) == steps_view(old(steps)@).push(step@),
{
    let ghost before = steps_view(steps@);
    steps.push(step);
    assert(steps_view(steps@) =~= before.push(step@));
}

/// Adds the steps of a project assignment to a list.
pub fn add_assignment(
    steps: &mut Vec<Step>,
    assignment: &Option<Assignment>,
    missing_only: bool,
    deferred: bool,
)
    ensures
        steps_view(final(steps)@) == steps_view(old(steps)@) + assignment_steps(
            opt_assignment(*assignment),
            missing_only,
            deferred,
        ),
{
    let ghost before = steps_view(steps@);
    if !deferred {
        if let Some(assignment) = assignment {
            add_step(
                steps,
                Step::AssignProject {
                    thread_id: assignment.thread_id.clone(),
                    cwd: assignment.cwd.clone(),
                    missing_only,
                },
            );
            assert(steps_view(steps@) =~= before + assignment_steps(
                Some(assignment@),
                missing_only,
                deferred,
            ));
            return;
        }
    }
    assert(before + Seq::<StepView>::empty() =~= before);
}

/// No steps.
pub fn no_steps() -> (steps: Vec<Step>)
    ensures
        steps_view(steps@) == Seq::<StepView>::empty(),
{
    let steps: Vec<Step> = Vec::new();
    assert(steps_view(steps@) =~= Seq::empty());
    steps
}

/// The directory to which a session is assigned: that in which it works, where it is not
/// blank, as the host writes it.
pub open spec fn assignment_of(
    id: Seq<char>,
    cwd: Option<Seq<char>>,
    host_cwd: Seq<char>,
) -> Option<AssignmentView> {
    match cwd {
        Some(cwd) => if crate::text::trimmed(cwd).len() == 0 {
            None
        } else {
            Some(AssignmentView { thread_id: id, cwd: host_cwd })
        },
        None => None,
    }
}

/// The project assignment of a session. `host_cwd` is how the host writes the directory in
/// which the session works, without white space round it.
pub fn project_assignment_record(id: &str, cwd: &Option<String>, host_cwd: &str) -> (assignment: Option<
    Assignment,
>)
    ensures
        opt_assignment(assignment) == assignment_of(id@, crate::text::opt_text(*cwd), host_cwd@),
{
    match cwd {
        Some(cwd) => if crate::text::is_blank(cwd.as_str()) {
            None
        } else {
            Some(Assignment { thread_id: id.to_owned(), cwd: host_cwd.to_owned() })
        },
        None => None,
    }
}

/// A session is assigned to a project just where its directory is told and not blank. It is the
/// session itself that is assigned, to the directory as this machine writes it.
pub proof fn law_when_a_project_is_assigned(
    id: Seq<char>,
    cwd: Option<Seq<char>>,
    host_cwd: Seq<char>,
    missing_only: bool,
    deferred: bool,
)
    ensures
        ({
            let told = cwd matches Some(cwd) && crate::text::trimmed(cwd).len() > 0;
            let steps = assignment_steps(assignment_of(id, cwd, host_cwd), missing_only, deferred);
            &&& steps.len() == if told && !deferred {
                1int
            } else {
                0int
            }
            &&& forall|i: int|
                0 <= i < steps.len() ==> (#[trigger] steps[i] matches StepView::AssignProject {
                    thread_id,
                    cwd: at,
                    missing_only: only,
                } && thread_id == id && at == host_cwd && only == missing_only)
        }),
{
}

} // verus!
