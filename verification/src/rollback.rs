//! Making an earlier branch of a family the active one again.

use vstd::prelude::*;

use crate::branch_sync::{body_of, compare_rollout_lines, relation};
use crate::branches::{get_branch, get_family, no_family, not_in_family};
use crate::duplicate::brief_outcome;
use crate::error::{text_outcome, unit_outcome, AppError, ErrorView};
use crate::model::{
    branch_ids, branch_of, family_under, lemma_position_of, position_of, ArchiveOrigin, BranchView,
    FamilyBranch, FamilyStore, StoreView,
};
use crate::rollout::{BriefView, RolloutBrief};
use crate::rollout_copy::lines_outcome;
use crate::steps::{
    add_assignment, add_step, assignment_steps, no_steps, opt_assignment, steps_view, Assignment,
    AssignmentView, Step, StepView,
};
use crate::switch_steps::{ArchiveMove, MoveView};
use crate::text::{decimal, decimal_text, join2, join3, join4, opt_text, same};

verus! {

// ---------------------------------------------------------------------------
// What is looked at
// ---------------------------------------------------------------------------

/// What was learned of the active branch: where its rollout is, whether it is there, whether
/// its session has a threads row, where the rollout goes, and whether something is there
/// already.
pub struct CurrentFacts {
    pub place: Result<String, AppError>,
    pub is_file: bool,
    pub thread_row: Result<(), AppError>,
    pub destination: String,
    pub occupied: bool,
}

/// What [`CurrentFacts`] hold.
#[verifier::ext_equal]
pub struct CurrentFactsView {
    pub place: Result<Seq<char>, ErrorView>,
    pub is_file: bool,
    pub thread_row: Result<(), ErrorView>,
    pub destination: Seq<char>,
    pub occupied: bool,
}

impl View for CurrentFacts {
    type V = CurrentFactsView;

    open spec fn view(&self) -> CurrentFactsView {
        CurrentFactsView {
            place: text_outcome(self.place),
            is_file: self.is_file,
            thread_row: unit_outcome(self.thread_row),
            destination: self.destination@,
            occupied: self.occupied,
        }
    }
}

/// What was learned of the branch that becomes active: where its rollout belongs, what is
/// there, where it would be archived, what is there, and what the rollout says.
pub struct RestoreFacts {
    pub place: Result<String, AppError>,
    pub is_file: bool,
    pub exists: bool,
    pub archived_path: String,
    pub archived_exists: bool,
    pub archived_is_file: bool,
    pub brief: Result<Option<RolloutBrief>, AppError>,
}

/// What [`RestoreFacts`] hold.
#[verifier::ext_equal]
pub struct RestoreFactsView {
    pub place: Result<Seq<char>, ErrorView>,
    pub is_file: bool,
    pub exists: bool,
    pub archived_path: Seq<char>,
    pub archived_exists: bool,
    pub archived_is_file: bool,
    pub brief: Result<Option<BriefView>, ErrorView>,
}

impl View for RestoreFacts {
    type V = RestoreFactsView;

    open spec fn view(&self) -> RestoreFactsView {
        RestoreFactsView {
            place: text_outcome(self.place),
            is_file: self.is_file,
            exists: self.exists,
            archived_path: self.archived_path@,
            archived_exists: self.archived_exists,
            archived_is_file: self.archived_is_file,
            brief: brief_outcome(self.brief),
        }
    }
}

/// What was learned for a rollback: whether Desktop does not run, whether the state database
/// is there, both branches and the lines of their rollouts.
pub struct RollbackFacts {
    pub desktop: Result<(), AppError>,
    pub state_db: Result<(), AppError>,
    pub current: CurrentFacts,
    pub target: RestoreFacts,
    pub current_lines: Result<Vec<String>, AppError>,
    pub target_lines: Result<Vec<String>, AppError>,
}

/// What [`RollbackFacts`] hold.
#[verifier::ext_equal]
pub struct RollbackFactsView {
    pub desktop: Result<(), ErrorView>,
    pub state_db: Result<(), ErrorView>,
    pub current: CurrentFactsView,
    pub target: RestoreFactsView,
    pub current_lines: Result<Seq<Seq<char>>, ErrorView>,
    pub target_lines: Result<Seq<Seq<char>>, ErrorView>,
}

impl View for RollbackFacts {
    type V = RollbackFactsView;

    open spec fn view(&self) -> RollbackFactsView {
        RollbackFactsView {
            desktop: unit_outcome(self.desktop),
            state_db: unit_outcome(self.state_db),
            current: self.current@,
            target: self.target@,
            current_lines: lines_outcome(self.current_lines),
            target_lines: lines_outcome(self.target_lines),
        }
    }
}

/// A rollback that may be carried out: how the rollout of the active branch is put away,
/// where that of the target belongs, where it has to be restored from if it is not there,
/// and its first message.
pub struct RollbackPlan {
    pub current: ArchiveMove,
    pub target_path: String,
    pub restore_from: Option<String>,
    pub thread_name: String,
}

/// What a [`RollbackPlan`] holds.
#[verifier::ext_equal]
pub struct RollbackView {
    pub current: MoveView,
    pub target_path: Seq<char>,
    pub restore_from: Option<Seq<char>>,
    pub thread_name: Seq<char>,
}

impl View for RollbackPlan {
    type V = RollbackView;

    open spec fn view(&self) -> RollbackView {
        RollbackView {
            current: self.current@,
            target_path: self.target_path@,
            restore_from: opt_text(self.restore_from),
            thread_name: self.thread_name@,
        }
    }
}

// ---------------------------------------------------------------------------
// Whether it may be carried out
// ---------------------------------------------------------------------------

/// The active branch of a family and the one that becomes active, or why there are not two.
pub open spec fn rollback_sides(
    store: StoreView,
    family_id: Seq<char>,
    target_id: Seq<char>,
) -> Result<(BranchView, BranchView), ErrorView> {
    match family_under(store, family_id) {
        None => Err(no_family(family_id)),
        Some(family) => if family.active_id == target_id {
            Err(ErrorView::Other("目标分支已经是当前 active"@))
        } else {
            match branch_of(family.chain, family.active_id) {
                None => Err(ErrorView::NotFound("active branch: "@ + family.active_id)),
                Some(current) => match branch_of(family.chain, target_id) {
                    None => Err(not_in_family(family_id, target_id)),
                    Some(target) => Ok((current, target)),
                },
            }
        },
    }
}

/// How the rollout of the active branch is put away, or why it cannot be.
pub open spec fn current_move(branch_id: Seq<char>, facts: CurrentFactsView) -> Result<
    MoveView,
    ErrorView,
> {
    match facts.place {
        Err(error) => Err(error),
        Ok(path) => if !facts.is_file {
            Err(ErrorView::NotFound("当前 active rollout 不存在，不能归档: "@ + path))
        } else if facts.thread_row is Err {
            Err(facts.thread_row->Err_0)
        } else if facts.occupied {
            Err(
                ErrorView::Other(
                    "当前 active 的归档目标已存在，取消切换: "@ + facts.destination,
                ),
            )
        } else {
            Ok(MoveView { branch_id, from: path, to: facts.destination })
        },
    }
}

/// Where the rollout of the target belongs, and where it has to be restored from if it is
/// not there; or why it cannot be had.
pub open spec fn target_places(facts: RestoreFactsView) -> Result<
    (Seq<char>, Option<Seq<char>>),
    ErrorView,
> {
    match facts.place {
        Err(error) => Err(error),
        Ok(path) => if facts.is_file && facts.archived_exists {
            Err(
                ErrorView::Other(
                    "目标分支同时存在 active 与 archived 副本，取消切换: "@ + path + " / "@
                        + facts.archived_path,
                ),
            )
        } else if !facts.is_file && facts.exists {
            Err(ErrorView::Other("目标分支恢复路径已被非文件条目占用: "@ + path))
        } else if facts.is_file {
            Ok((path, None))
        } else if facts.archived_is_file {
            Ok((path, Some(facts.archived_path)))
        } else {
            Err(ErrorView::NotFound("目标分支 rollout 丢失: "@ + path))
        },
    }
}

/// Whether the rollout at a path is that of the target, and its first message.
pub open spec fn target_message(
    target_id: Seq<char>,
    path: Seq<char>,
    brief: Result<Option<BriefView>, ErrorView>,
) -> Result<Seq<char>, ErrorView> {
    match brief {
        Err(error) => Err(error),
        Ok(None) => Err(
            ErrorView::Other("目标分支 rollout 缺少有效 session_meta.id: "@ + path),
        ),
        Ok(Some(brief)) => if brief.id != target_id {
            Err(
                ErrorView::Other(
                    "目标分支 rollout id 不匹配：期望 "@ + target_id + "，实际 "@ + brief.id,
                ),
            )
        } else {
            Ok(brief.first_user_message)
        },
    }
}

/// Whether the target lacks nothing that only the active branch has. Where it does, it has to
/// be brought level first.
pub open spec fn not_behind(
    current: Result<Seq<Seq<char>>, ErrorView>,
    target: Result<Seq<Seq<char>>, ErrorView>,
) -> Result<(), ErrorView> {
    match current {
        Err(error) => Err(error),
        Ok(current) => match target {
            Err(error) => Err(error),
            Ok(target) => {
                let told = relation(body_of(current), body_of(target));
                if told.0 == "active_ahead"@ {
                    Err(
                        ErrorView::Other(
                            "目标分支落后当前 active "@ + decimal((told.2 as u32) as nat)
                                + " 行；请先把当前分支增量同步到目标分支，再设为当前"@,
                        ),
                    )
                } else {
                    Ok(())
                }
            },
        },
    }
}

/// The rollback that may be carried out, or why none may be.
pub open spec fn rollback_verdict(
    store: StoreView,
    family_id: Seq<char>,
    target_id: Seq<char>,
    facts: RollbackFactsView,
) -> Result<RollbackView, ErrorView> {
    if facts.desktop is Err {
        Err(facts.desktop->Err_0)
    } else if facts.state_db is Err {
        Err(facts.state_db->Err_0)
    } else {
        match rollback_sides(store, family_id, target_id) {
            Err(error) => Err(error),
            Ok((current, target)) => match current_move(current.id, facts.current) {
                Err(error) => Err(error),
                Ok(moved) => match target_places(facts.target) {
                    Err(error) => Err(error),
                    Ok((path, restore)) => match target_message(
                        target_id,
                        match restore {
                            Some(archived) => archived,
                            None => path,
                        },
                        facts.target.brief,
                    ) {
                        Err(error) => Err(error),
                        Ok(message) => match not_behind(facts.current_lines, facts.target_lines) {
                            Err(error) => Err(error),
                            Ok(()) => Ok(
                                RollbackView {
                                    current: moved,
                                    target_path: path,
                                    restore_from: restore,
                                    thread_name: message,
                                },
                            ),
                        },
                    },
                },
            },
        }
    }
}

fn check_current(branch_id: &str, facts: &CurrentFacts) -> (outcome: Result<ArchiveMove, AppError>)
    ensures
        crate::fork::move_outcome(outcome) == current_move(branch_id@, facts@),
{
    let path = match &facts.place {
        Ok(path) => path,
        Err(error) => return Err(error.copy()),
    };
    if !facts.is_file {
        return Err(
            AppError::NotFound(
                join2("当前 active rollout 不存在，不能归档: ", path.as_str()),
            ),
        );
    }
    if let Err(error) = &facts.thread_row {
        return Err(error.copy());
    }
    if facts.occupied {
        return Err(
            AppError::Other(
                join2(
                    "当前 active 的归档目标已存在，取消切换: ",
                    facts.destination.as_str(),
                ),
            ),
        );
    }
    Ok(
        ArchiveMove {
            branch_id: branch_id.to_owned(),
            from: path.clone(),
            to: facts.destination.clone(),
        },
    )
}

fn find_target(facts: &RestoreFacts) -> (outcome: Result<(String, Option<String>), AppError>)
    ensures
        match outcome {
            Ok((path, restore)) => target_places(facts@) == Ok::<
                (Seq<char>, Option<Seq<char>>),
                ErrorView,
            >((path@, opt_text(restore))),
            Err(error) => target_places(facts@) == Err::<
                (Seq<char>, Option<Seq<char>>),
                ErrorView,
            >(error@),
        },
{
    let path = match &facts.place {
        Ok(path) => path,
        Err(error) => return Err(error.copy()),
    };
    if facts.is_file && facts.archived_exists {
        return Err(
            AppError::Other(
                join4(
                    "目标分支同时存在 active 与 archived 副本，取消切换: ",
                    path.as_str(),
                    " / ",
                    facts.archived_path.as_str(),
                ),
            ),
        );
    }
    if !facts.is_file && facts.exists {
        return Err(
            AppError::Other(
                join2("目标分支恢复路径已被非文件条目占用: ", path.as_str()),
            ),
        );
    }
    if facts.is_file {
        Ok((path.clone(), None))
    } else if facts.archived_is_file {
        Ok((path.clone(), Some(facts.archived_path.clone())))
    } else {
        Err(AppError::NotFound(join2("目标分支 rollout 丢失: ", path.as_str())))
    }
}

fn check_target(
    target_id: &str,
    path: &str,
    brief: &Result<Option<RolloutBrief>, AppError>,
) -> (message: Result<String, AppError>)
    ensures
        text_outcome(message) == target_message(target_id@, path@, brief_outcome(*brief)),
{
    match brief {
        Err(error) => Err(error.copy()),
        Ok(None) => Err(
            AppError::Other(join2("目标分支 rollout 缺少有效 session_meta.id: ", path)),
        ),
        Ok(Some(brief)) => if same(brief.id.as_str(), target_id) {
            Ok(brief.first_user_message.clone())
        } else {
            Err(
                AppError::Other(
                    join4(
                        "目标分支 rollout id 不匹配：期望 ",
                        target_id,
                        "，实际 ",
                        brief.id.as_str(),
                    ),
                ),
            )
        },
    }
}

fn check_not_behind(
    current: &Result<Vec<String>, AppError>,
    target: &Result<Vec<String>, AppError>,
) -> (outcome: Result<(), AppError>)
    ensures
        unit_outcome(outcome) == not_behind(lines_outcome(*current), lines_outcome(*target)),
{
    let current = match current {
        Ok(lines) => lines,
        Err(error) => return Err(error.copy()),
    };
    let target = match target {
        Ok(lines) => lines,
        Err(error) => return Err(error.copy()),
    };
    let (told, _, missing) = compare_rollout_lines(current, target);
    if same(told.as_str(), "active_ahead") {
        let count = decimal_text(missing as u64);
        return Err(
            AppError::Other(
                join3(
                    "目标分支落后当前 active ",
                    count.as_str(),
                    " 行；请先把当前分支增量同步到目标分支，再设为当前",
                ),
            ),
        );
    }
    Ok(())
}

fn find_sides<'a>(store: &'a FamilyStore, family_id: &str, target_id: &str) -> (sides: Result<
    (&'a FamilyBranch, &'a FamilyBranch),
    AppError,
>)
    ensures
        match sides {
            Ok((current, target)) => rollback_sides(store@, family_id@, target_id@) == Ok::<
                (BranchView, BranchView),
                ErrorView,
            >((current@, target@)),
            Err(error) => rollback_sides(store@, family_id@, target_id@) == Err::<
                (BranchView, BranchView),
                ErrorView,
            >(error@),
        },
{
    let family = match get_family(store, family_id) {
        Some(family) => family,
        None => return Err(AppError::NotFound(join2("family: ", family_id))),
    };
    if same(family.active_id.as_str(), target_id) {
        return Err(AppError::Other("目标分支已经是当前 active".to_owned()));
    }
    let current = match get_branch(&family.chain, family.active_id.as_str()) {
        Some(branch) => branch,
        None => return Err(
            AppError::NotFound(join2("active branch: ", family.active_id.as_str())),
        ),
    };
    match get_branch(&family.chain, target_id) {
        Some(target) => Ok((current, target)),
        None => Err(
            AppError::NotFound(join4("branch not in family ", family_id, ": ", target_id)),
        ),
    }
}

/// Checks that a branch can become the active one of its family, and tells how.
pub fn rollback_family_active_with_lock(
    store: &FamilyStore,
    family_id: &str,
    target_branch_id: &str,
    facts: &RollbackFacts,
) -> (outcome: Result<RollbackPlan, AppError>)
    ensures
        match outcome {
            Ok(plan) => rollback_verdict(store@, family_id@, target_branch_id@, facts@) == Ok::<
                RollbackView,
                ErrorView,
            >(plan@),
            Err(error) => rollback_verdict(store@, family_id@, target_branch_id@, facts@) == Err::<
                RollbackView,
                ErrorView,
            >(error@),
        },
{
    if let Err(error) = &facts.desktop {
        return Err(error.copy());
    }
    if let Err(error) = &facts.state_db {
        return Err(error.copy());
    }
    let current_id = match find_sides(store, family_id, target_branch_id) {
        Ok((current, _)) => current.id.as_str(),
        Err(error) => return Err(error),
    };
    let current = match check_current(current_id, &facts.current) {
        Ok(current) => current,
        Err(error) => return Err(error),
    };
    let (target_path, restore_from) = match find_target(&facts.target) {
        Ok(places) => places,
        Err(error) => return Err(error),
    };
    let source = match &restore_from {
        Some(archived) => archived.as_str(),
        None => target_path.as_str(),
    };
    let thread_name = match check_target(target_branch_id, source, &facts.target.brief) {
        Ok(message) => message,
        Err(error) => return Err(error),
    };
    if let Err(error) = check_not_behind(&facts.current_lines, &facts.target_lines) {
        return Err(error);
    }
    Ok(RollbackPlan { current, target_path, restore_from, thread_name })
}

/// Refuses a rollback to a branch that lacks lines of the active one: those would be lost
/// from sight.
pub proof fn law_no_rollback_behind(
    store: StoreView,
    family_id: Seq<char>,
    target_id: Seq<char>,
    facts: RollbackFactsView,
    current: Seq<Seq<char>>,
    target: Seq<Seq<char>>,
)
    requires
        facts.current_lines == Ok::<Seq<Seq<char>>, ErrorView>(current),
        facts.target_lines == Ok::<Seq<Seq<char>>, ErrorView>(target),
        body_of(target).len() < body_of(current).len(),
        body_of(target).is_prefix_of(body_of(current)),
    ensures
        rollback_verdict(store, family_id, target_id, facts) is Err,
{
}

// ---------------------------------------------------------------------------
// Steps
// ---------------------------------------------------------------------------

/// The steps that put the rollout of the active branch away.
pub open spec fn retire_plan(current: MoveView, family_id: Seq<char>) -> Seq<StepView> {
    seq![
        StepView::RequireUnchanged { path: current.from, label: "当前 active rollout "@ },
        StepView::ArchiveBranch { family_id, branch_id: current.branch_id },
        StepView::RequireUnchanged { path: current.from, label: "当前 active rollout "@ },
        StepView::MoveFile { from: current.from, to: current.to },
        StepView::RequireUnchanged {
            path: current.to,
            label: "已归档当前 active rollout "@,
        },
        StepView::MarkArchived { id: current.branch_id, path: current.to },
        StepView::RemoveIndexLine { id: current.branch_id },
        StepView::RecordLedger {
            family_id,
            id: current.branch_id,
            origin: ArchiveOrigin::Manual,
            path: current.to,
        },
    ]
}

/// The steps that bring the rollout of the target to where it belongs.
pub open spec fn restore_plan(path: Seq<char>, restore_from: Option<Seq<char>>) -> Seq<StepView> {
    match restore_from {
        Some(archived) => seq![
            StepView::RequireUnchanged { path: archived, label: "待恢复目标 rollout "@ },
            StepView::MoveFile { from: archived, to: path },
            StepView::RequireUnchanged { path, label: "已恢复目标 rollout "@ },
        ],
        None => seq![StepView::RequireUnchanged { path, label: "目标 rollout "@ }],
    }
}

/// The steps that enter the target as the active branch.
pub open spec fn reenter_plan(
    family_id: Seq<char>,
    target_id: Seq<char>,
    path: Seq<char>,
    thread_name: Seq<char>,
) -> Seq<StepView> {
    seq![
        StepView::SyncThread { path },
        StepView::AppendIndexLine { id: target_id, thread_name },
        StepView::SetActive { family_id, branch_id: target_id },
        StepView::SaveStore,
        StepView::RemoveLedger { id: target_id },
    ]
}

/// The steps of a rollback.
pub open spec fn rollback_plan(
    plan: RollbackView,
    family_id: Seq<char>,
    target_id: Seq<char>,
    assignment: Option<AssignmentView>,
) -> Seq<StepView> {
    assignment_steps(assignment, true, false) + retire_plan(plan.current, family_id)
        + restore_plan(plan.target_path, plan.restore_from) + reenter_plan(
        family_id,
        target_id,
        plan.target_path,
        plan.thread_name,
    )
}

fn add_retire_steps(steps: &mut Vec<Step>, current: &ArchiveMove, family_id: &str)
    ensures
        steps_view(final(steps)@) == steps_view(old(steps)@) + retire_plan(current@, family_id@),
{
    let ghost before = steps_view(steps@);
    let label = "当前 active rollout ";
    add_step(
        steps,
        Step::RequireUnchanged { path: current.from.clone(), label: label.to_owned() },
    );
    add_step(
        steps,
        Step::ArchiveBranch {
            family_id: family_id.to_owned(),
            branch_id: current.branch_id.clone(),
        },
    );
    add_step(
        steps,
        Step::RequireUnchanged { path: current.from.clone(), label: label.to_owned() },
    );
    add_step(steps, Step::MoveFile { from: current.from.clone(), to: current.to.clone() });
    add_step(
        steps,
        Step::RequireUnchanged {
            path: current.to.clone(),
            label: "已归档当前 active rollout ".to_owned(),
        },
    );
    add_step(
        steps,
        Step::MarkArchived { id: current.branch_id.clone(), path: current.to.clone() },
    );
    add_step(steps, Step::RemoveIndexLine { id: current.branch_id.clone() });
    add_step(
        steps,
        Step::RecordLedger {
            family_id: family_id.to_owned(),
            id: current.branch_id.clone(),
            origin: ArchiveOrigin::Manual,
            path: current.to.clone(),
        },
    );
    assert(steps_view(steps@) =~= before + retire_plan(current@, family_id@));
}

fn add_restore_steps(steps: &mut Vec<Step>, path: &str, restore_from: &Option<String>)
    ensures
        steps_view(final(steps)@) == steps_view(old(steps)@) + restore_plan(
            path@,
            opt_text(*restore_from),
        ),
{
    let ghost before = steps_view(steps@);
    match restore_from {
        Some(archived) => {
            add_step(
                steps,
                Step::RequireUnchanged {
                    path: archived.clone(),
                    label: "待恢复目标 rollout ".to_owned(),
                },
            );
            add_step(steps, Step::MoveFile { from: archived.clone(), to: path.to_owned() });
            add_step(
                steps,
                Step::RequireUnchanged {
                    path: path.to_owned(),
                    label: "已恢复目标 rollout ".to_owned(),
                },
            );
        },
        None => {
            add_step(
                steps,
                Step::RequireUnchanged {
                    path: path.to_owned(),
                    label: "目标 rollout ".to_owned(),
                },
            );
        },
    }
    assert(steps_view(steps@) =~= before + restore_plan(path@, opt_text(*restore_from)));
}

/// The steps of a rollback.
pub fn rollback_steps(
    plan: &RollbackPlan,
    family_id: &str,
    target_id: &str,
    assignment: &Option<Assignment>,
) -> (steps: Vec<Step>)
    ensures
        steps_view(steps@) == rollback_plan(
            plan@,
            family_id@,
            target_id@,
            opt_assignment(*assignment),
        ),
{
    let mut steps = no_steps();
    add_assignment(&mut steps, assignment, true, false);
    assert(steps_view(steps@) =~= assignment_steps(opt_assignment(*assignment), true, false));
    add_retire_steps(&mut steps, &plan.current, family_id);
    add_restore_steps(&mut steps, plan.target_path.as_str(), &plan.restore_from);
    let ghost before = steps_view(steps@);
    add_step(&mut steps, Step::SyncThread { path: plan.target_path.clone() });
    add_step(
        &mut steps,
        Step::AppendIndexLine {
            id: target_id.to_owned(),
            thread_name: plan.thread_name.clone(),
        },
    );
    add_step(
        &mut steps,
        Step::SetActive { family_id: family_id.to_owned(), branch_id: target_id.to_owned() },
    );
    add_step(&mut steps, Step::SaveStore);
    add_step(&mut steps, Step::RemoveLedger { id: target_id.to_owned() });
    assert(steps_view(steps@) =~= before + reenter_plan(
        family_id@,
        target_id@,
        plan.target_path@,
        plan.thread_name@,
    ));
    steps
}

/// In the steps of a rollback every move of a rollout stands between two checks that it is
/// what it was.
pub proof fn law_rollback_checks_round_moves(
    plan: RollbackView,
    family_id: Seq<char>,
    target_id: Seq<char>,
    assignment: Option<AssignmentView>,
)
    ensures
        ({
            let steps = rollback_plan(plan, family_id, target_id, assignment);
            forall|i: int|
                0 <= i < steps.len() && #[trigger] steps[i] is MoveFile ==> 0 < i && i + 1
                    < steps.len() && steps[i - 1] is RequireUnchanged
                    && steps[i - 1]->RequireUnchanged_path == steps[i]->from && steps[i
                    + 1] is RequireUnchanged && steps[i + 1]->RequireUnchanged_path == steps[i]->to
        }),
{
    let steps = rollback_plan(plan, family_id, target_id, assignment);
    let a = assignment_steps(assignment, true, false);
    let b = retire_plan(plan.current, family_id);
    let c = restore_plan(plan.target_path, plan.restore_from);
    let d = reenter_plan(family_id, target_id, plan.target_path, plan.thread_name);
    assert forall|i: int|
        0 <= i < steps.len() && #[trigger] steps[i] is MoveFile implies 0 < i && i + 1
        < steps.len() && steps[i - 1] is RequireUnchanged && steps[i - 1]->RequireUnchanged_path
        == steps[i]->from && steps[i + 1] is RequireUnchanged && steps[i + 1]->RequireUnchanged_path
        == steps[i]->to by {
        let j = i - a.len();
        let k = j - b.len();
        if i < a.len() {
            assert(steps[i] == a[i]);
        } else if j < b.len() {
            assert(steps[i] == b[j] && steps[i - 1] == b[j - 1] && steps[i + 1] == b[j + 1]);
        } else if k < c.len() {
            assert(steps[i] == c[k]);
            assert(k == 1);
            assert(steps[i - 1] == c[0] && steps[i + 1] == c[2]);
        } else {
            assert(steps[i] == d[k - c.len()]);
        }
    }
}

/// A rollback may be carried out exactly where Desktop does not run, the databases can be had, the
/// active branch and the target are two branches of the family, the rollout of the active branch is
/// there with a threads row and can be put away, that of the target is in one place of two, at its
/// own place or archived, and states the target, and the target lacks nothing that the active
/// branch has.
pub proof fn law_when_a_rollback_is_allowed(
    store: StoreView,
    family_id: Seq<char>,
    target_id: Seq<char>,
    facts: RollbackFactsView,
)
    ensures
        rollback_verdict(store, family_id, target_id, facts) is Ok <==> {
            &&& facts.desktop is Ok
            &&& facts.state_db is Ok
            &&& family_under(store, family_id) matches Some(family) && family.active_id != target_id
                && branch_ids(family.chain).contains(family.active_id) && branch_ids(
                family.chain,
            ).contains(target_id)
            &&& facts.current.place is Ok && facts.current.is_file && facts.current.thread_row is Ok
                && !facts.current.occupied
            &&& facts.target.place is Ok
            &&& if facts.target.is_file {
                !facts.target.archived_exists
            } else {
                !facts.target.exists && facts.target.archived_is_file
            }
            &&& facts.target.brief matches Ok(Some(brief)) && brief.id == target_id
            &&& facts.current_lines is Ok && facts.target_lines is Ok
            &&& !(body_of(facts.target_lines->Ok_0).len() < body_of(facts.current_lines->Ok_0).len()
                && body_of(facts.target_lines->Ok_0).is_prefix_of(
                body_of(facts.current_lines->Ok_0),
            ))
        },
{
    reveal_strlit("same");
    reveal_strlit("branch_ahead");
    reveal_strlit("active_ahead");
    reveal_strlit("diverged");
    assert("same"@.len() == 4 && "diverged"@.len() == 8);
    assert("branch_ahead"@.len() == 12 && "active_ahead"@.len() == 12);
    assert("branch_ahead"@[0] == 'b' && "active_ahead"@[0] == 'a');
    if let Some(family) = family_under(store, family_id) {
        lemma_has_branch(family.chain, family.active_id);
        lemma_has_branch(family.chain, target_id);
    }
}

proof fn lemma_has_branch(chain: Seq<BranchView>, id: Seq<char>)
    ensures
        branch_of(chain, id) is Some <==> branch_ids(chain).contains(id),
        branch_of(chain, id) matches Some(branch) ==> branch.id == id,
{
    lemma_position_of(chain, id);
    if branch_ids(chain).contains(id) {
        let i = choose|i: int| 0 <= i < chain.len() && branch_ids(chain)[i] == id;
        assert(chain[i].id == id);
    }
    if let Some(at) = position_of(chain, id) {
        assert(branch_ids(chain)[at] == id);
    }
}

/// A rollback puts the rollout of the active branch away from where it is to where archived ones
/// go, and enters the target where its rollout belongs, under its first message. The rollout of the
/// target is restored from the archive just where it is not at its place.
pub proof fn law_what_a_rollback_does(
    store: StoreView,
    family_id: Seq<char>,
    target_id: Seq<char>,
    facts: RollbackFactsView,
)
    ensures
        rollback_verdict(store, family_id, target_id, facts) matches Ok(plan) ==> {
            &&& family_under(store, family_id) matches Some(family) && plan.current.branch_id
                == family.active_id
            &&& plan.current.branch_id != target_id
            &&& facts.current.place == Ok::<Seq<char>, ErrorView>(plan.current.from)
            &&& plan.current.to == facts.current.destination
            &&& facts.target.place == Ok::<Seq<char>, ErrorView>(plan.target_path)
            &&& facts.target.is_file ==> plan.restore_from is None
            &&& !facts.target.is_file ==> plan.restore_from == Some(facts.target.archived_path)
            &&& facts.target.brief matches Ok(Some(brief)) && plan.thread_name
                == brief.first_user_message
        },
{
    if let Some(family) = family_under(store, family_id) {
        lemma_has_branch(family.chain, family.active_id);
        lemma_has_branch(family.chain, target_id);
    }
}

} // verus!
