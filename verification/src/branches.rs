//! Operations on the branches of a family: telling how far they agree, bringing them level
//! and deleting them.

use vstd::prelude::*;

use crate::branch_sync::{
    body_of, compare_rollout_lines, describe_rollout_divergence, divergence_text, plan_branch_sync,
    plan_outcome, relation, sync_plan, SyncPlan, SyncPlanView, SyncSide,
};
use crate::error::{error_text, text_outcome, unit_outcome, AppError, ErrorView};
use crate::model::{
    branch_of, chain_view, families_view, family_at, family_under, find_branch, find_family,
    lemma_family_at, lemma_position_of, position_of, BranchView, Family, FamilyBranch, FamilyStore, FamilyView,
    StoreView,
};
use crate::prune::{lemma_with_family_keys, with_family};
use crate::rollout_copy::lines_outcome;
use crate::steps::{
    add_assignment, add_step, assignment_steps, no_steps, opt_assignment, steps_outcome,
    steps_view, Assignment, AssignmentView, Step, StepView,
};
use crate::text::{join2, join4, opt_text, same, texts};

verus! {

// ---------------------------------------------------------------------------
// Finding families and branches
// ---------------------------------------------------------------------------

/// The error for a family that is not in the store.
pub open spec fn no_family(family_id: Seq<char>) -> ErrorView {
    ErrorView::NotFound("family: "@ + family_id)
}

/// The error for a branch that is not in its family.
pub open spec fn not_in_family(family_id: Seq<char>, branch_id: Seq<char>) -> ErrorView {
    ErrorView::NotFound("branch not in family "@ + family_id + ": "@ + branch_id)
}

fn family_missing(family_id: &str) -> (error: AppError)
    ensures
        error@ == no_family(family_id@),
{
    AppError::NotFound(join2("family: ", family_id))
}

fn branch_missing(family_id: &str, branch_id: &str) -> (error: AppError)
    ensures
        error@ == not_in_family(family_id@, branch_id@),
{
    AppError::NotFound(join4("branch not in family ", family_id, ": ", branch_id))
}

/// The family of a store under a key.
pub fn get_family<'a>(store: &'a FamilyStore, key: &str) -> (family: Option<&'a Family>)
    ensures
        match family {
            Some(family) => family_under(store@, key@) == Some(family@),
            None => family_under(store@, key@) is None,
        },
{
    match find_family(&store.families, key) {
        Some(at) => {
            assert(families_view(store.families@)[at as int] == store.families@[at as int]@);
            Some(&store.families[at].family)
        },
        None => None,
    }
}

/// The first branch of a chain that has this id.
pub fn get_branch<'a>(chain: &'a Vec<FamilyBranch>, id: &str) -> (branch: Option<&'a FamilyBranch>)
    ensures
        match branch {
            Some(branch) => branch_of(chain_view(chain@), id@) == Some(branch@),
            None => branch_of(chain_view(chain@), id@) is None,
        },
{
    match find_branch(chain, id) {
        Some(at) => {
            assert(chain_view(chain@)[at as int] == chain@[at as int]@);
            Some(&chain[at])
        },
        None => None,
    }
}

/// The active session of a family.
pub open spec fn active_of(store: StoreView, family_id: Seq<char>) -> Result<Seq<char>, ErrorView> {
    match family_under(store, family_id) {
        Some(family) => Ok(family.active_id),
        None => Err(no_family(family_id)),
    }
}

/// The active session of a family.
pub fn active_branch_id(store: &FamilyStore, family_id: &str) -> (id: Result<String, AppError>)
    ensures
        text_outcome(id) == active_of(store@, family_id@),
{
    match get_family(store, family_id) {
        Some(family) => Ok(family.active_id.clone()),
        None => Err(family_missing(family_id)),
    }
}

// ---------------------------------------------------------------------------
// Deleting
// ---------------------------------------------------------------------------

/// Whether a branch can be deleted: it is one of its family, and not the active one.
pub open spec fn deletion_verdict(
    store: StoreView,
    family_id: Seq<char>,
    branch_id: Seq<char>,
) -> Result<(), ErrorView> {
    match family_under(store, family_id) {
        None => Err(no_family(family_id)),
        Some(family) => if family.active_id == branch_id {
            Err(ErrorView::Other("不能删除当前 active 分支，请先切换到其他分支"@))
        } else if branch_of(family.chain, branch_id) is None {
            Err(not_in_family(family_id, branch_id))
        } else {
            Ok(())
        },
    }
}

/// Refuses to delete a branch that is not in its family, or is the active one.
pub fn delete_family_branch_with_lock(store: &FamilyStore, family_id: &str, branch_id: &str) -> (outcome:
    Result<(), AppError>)
    ensures
        unit_outcome(outcome) == deletion_verdict(store@, family_id@, branch_id@),
{
    let family = match get_family(store, family_id) {
        Some(family) => family,
        None => return Err(family_missing(family_id)),
    };
    if same(family.active_id.as_str(), branch_id) {
        return Err(
            AppError::Other("不能删除当前 active 分支，请先切换到其他分支".to_owned()),
        );
    }
    match get_branch(&family.chain, branch_id) {
        Some(_) => Ok(()),
        None => Err(branch_missing(family_id, branch_id)),
    }
}

/// The active branch of a family is never deleted.
pub proof fn law_active_branch_cannot_be_deleted(
    store: StoreView,
    family_id: Seq<char>,
    family: FamilyView,
)
    requires
        family_under(store, family_id) == Some(family),
    ensures
        deletion_verdict(store, family_id, family.active_id) is Err,
{
}

// ---------------------------------------------------------------------------
// How far branches agree
// ---------------------------------------------------------------------------

/// How a branch relates to the active one of its family.
pub struct BranchSyncState {
    pub branch_id: String,
    pub relation: String,
    pub active_lines: Option<u64>,
    pub branch_lines: Option<u64>,
    pub appendable_lines_to_active: u32,
    pub appendable_lines_to_branch: u32,
    pub error: Option<String>,
}

/// What a [`BranchSyncState`] holds.
#[verifier::ext_equal]
pub struct SyncStateView {
    pub branch_id: Seq<char>,
    pub relation: Seq<char>,
    pub active_lines: Option<u64>,
    pub branch_lines: Option<u64>,
    pub to_active: u32,
    pub to_branch: u32,
    pub error: Option<Seq<char>>,
}

impl View for BranchSyncState {
    type V = SyncStateView;

    open spec fn view(&self) -> SyncStateView {
        SyncStateView {
            branch_id: self.branch_id@,
            relation: self.relation@,
            active_lines: self.active_lines,
            branch_lines: self.branch_lines,
            to_active: self.appendable_lines_to_active,
            to_branch: self.appendable_lines_to_branch,
            error: opt_text(self.error),
        }
    }
}

/// What a list of states holds.
pub open spec fn states_view(states: Seq<BranchSyncState>) -> Seq<SyncStateView> {
    states.map_values(|state: BranchSyncState| state@)
}

/// What the rollouts of branches held, or why they could not be read.
pub open spec fn readings_view(readings: Seq<Result<Vec<String>, AppError>>) -> Seq<
    Result<Seq<Seq<char>>, ErrorView>,
> {
    readings.map_values(|reading: Result<Vec<String>, AppError>| lines_outcome(reading))
}

/// The state of the active branch itself.
pub open spec fn current_state(id: Seq<char>, active: Seq<Seq<char>>) -> SyncStateView {
    SyncStateView {
        branch_id: id,
        relation: "current"@,
        active_lines: Some(active.len() as u64),
        branch_lines: Some(active.len() as u64),
        to_active: 0,
        to_branch: 0,
        error: None,
    }
}

/// The state of another branch, given what its rollout held.
pub open spec fn other_state(
    id: Seq<char>,
    active: Seq<Seq<char>>,
    reading: Result<Seq<Seq<char>>, ErrorView>,
) -> SyncStateView {
    match reading {
        Err(error) => SyncStateView {
            branch_id: id,
            relation: "missing"@,
            active_lines: Some(active.len() as u64),
            branch_lines: None,
            to_active: 0,
            to_branch: 0,
            error: Some(error_text(error)),
        },
        Ok(lines) => if lines.len() == 0 {
            SyncStateView {
                branch_id: id,
                relation: "missing"@,
                active_lines: Some(active.len() as u64),
                branch_lines: Some(0),
                to_active: 0,
                to_branch: 0,
                error: Some("分支为空 rollout"@),
            }
        } else {
            let told = relation(body_of(active), body_of(lines));
            SyncStateView {
                branch_id: id,
                relation: told.0,
                active_lines: Some(active.len() as u64),
                branch_lines: Some(lines.len() as u64),
                to_active: told.1 as u32,
                to_branch: told.2 as u32,
                error: if told.0 == "diverged"@ {
                    Some(divergence_text(body_of(active), body_of(lines)))
                } else {
                    None
                },
            }
        },
    }
}

/// The state of a branch of a family.
pub open spec fn branch_state(
    family: FamilyView,
    active: Seq<Seq<char>>,
    branch: BranchView,
    reading: Result<Seq<Seq<char>>, ErrorView>,
) -> SyncStateView {
    if branch.id == family.active_id {
        current_state(branch.id, active)
    } else {
        other_state(branch.id, active, reading)
    }
}

/// The lines of the active branch, or why there are none.
pub open spec fn active_reading(
    store: StoreView,
    family_id: Seq<char>,
    readings: Seq<Result<Seq<Seq<char>>, ErrorView>>,
) -> Result<(FamilyView, Seq<Seq<char>>), ErrorView> {
    match family_under(store, family_id) {
        None => Err(no_family(family_id)),
        Some(family) => match position_of(family.chain, family.active_id) {
            None => Err(ErrorView::NotFound("active 分支缺失"@)),
            Some(at) => match readings[at] {
                Err(error) => Err(error),
                Ok(lines) => if lines.len() == 0 {
                    Err(ErrorView::Other("当前 active 分支为空 rollout"@))
                } else {
                    Ok((family, lines))
                },
            },
        },
    }
}

/// The states of all branches of a family, in the order of its chain.
pub open spec fn sync_states(
    store: StoreView,
    family_id: Seq<char>,
    readings: Seq<Result<Seq<Seq<char>>, ErrorView>>,
) -> Result<Seq<SyncStateView>, ErrorView> {
    match active_reading(store, family_id, readings) {
        Err(error) => Err(error),
        Ok((family, active)) => Ok(
            Seq::new(
                family.chain.len(),
                |i: int| branch_state(family, active, family.chain[i], readings[i]),
            ),
        ),
    }
}

fn compare_branch(
    id: &str,
    active: &Vec<String>,
    reading: &Result<Vec<String>, AppError>,
) -> (state: BranchSyncState)
    ensures
        state@ == other_state(id@, texts(active@), lines_outcome(*reading)),
{
    let active_lines = Some(active.len() as u64);
    match reading {
        Err(error) => BranchSyncState {
            branch_id: id.to_owned(),
            relation: "missing".to_owned(),
            active_lines,
            branch_lines: None,
            appendable_lines_to_active: 0,
            appendable_lines_to_branch: 0,
            error: Some(error.message().clone()),
        },
        Ok(lines) => {
            if lines.len() == 0 {
                return BranchSyncState {
                    branch_id: id.to_owned(),
                    relation: "missing".to_owned(),
                    active_lines,
                    branch_lines: Some(0),
                    appendable_lines_to_active: 0,
                    appendable_lines_to_branch: 0,
                    error: Some("分支为空 rollout".to_owned()),
                };
            }
            let (told, to_active, to_branch) = compare_rollout_lines(active, lines);
            let error = if same(told.as_str(), "diverged") {
                Some(describe_rollout_divergence(active, lines))
            } else {
                None
            };
            BranchSyncState {
                branch_id: id.to_owned(),
                relation: told,
                active_lines,
                branch_lines: Some(lines.len() as u64),
                appendable_lines_to_active: to_active,
                appendable_lines_to_branch: to_branch,
                error,
            }
        },
    }
}

/// How the branches of a family relate to the active one. `readings` are the lines of the
/// rollouts of its branches, in the order of its chain.
pub fn get_family_branch_sync_states_with_lock(
    store: &FamilyStore,
    family_id: &str,
    readings: &Vec<Result<Vec<String>, AppError>>,
) -> (states: Result<Vec<BranchSyncState>, AppError>)
    requires
        family_under(store@, family_id@) matches Some(family) ==> readings@.len()
            == family.chain.len(),
    ensures
        match states {
            Ok(states) => sync_states(store@, family_id@, readings_view(readings@)) == Ok::<
                Seq<SyncStateView>,
                ErrorView,
            >(states_view(states@)),
            Err(error) => sync_states(store@, family_id@, readings_view(readings@)) == Err::<
                Seq<SyncStateView>,
                ErrorView,
            >(error@),
        },
{
    let ghost all = readings_view(readings@);
    let family = match get_family(store, family_id) {
        Some(family) => family,
        None => return Err(family_missing(family_id)),
    };
    let position = match find_branch(&family.chain, family.active_id.as_str()) {
        Some(position) => position,
        None => return Err(AppError::NotFound("active 分支缺失".to_owned())),
    };
    assert(all[position as int] == lines_outcome(readings@[position as int]));
    let active = match &readings[position] {
        Ok(lines) => lines,
        Err(error) => return Err(error.copy()),
    };
    if active.len() == 0 {
        assert(texts(active@).len() == 0);
        return Err(AppError::Other("当前 active 分支为空 rollout".to_owned()));
    }
    let ghost view = family@;
    let ghost lines = texts(active@);
    let ghost wanted = Seq::new(
        view.chain.len(),
        |i: int| branch_state(view, lines, view.chain[i], all[i]),
    );
    let mut states: Vec<BranchSyncState> = Vec::new();
    let mut at: usize = 0;
    while at < family.chain.len()
        invariant
            at <= family.chain@.len() == readings@.len(),
            view == family@,
            lines == texts(active@),
            all == readings_view(readings@),
            wanted == Seq::new(
                view.chain.len(),
                |i: int| branch_state(view, lines, view.chain[i], all[i]),
            ),
            states_view(states@) == wanted.take(at as int),
        decreases family.chain.len() - at,
    {
        let branch = &family.chain[at];
        assert(view.chain[at as int] == branch@);
        assert(all[at as int] == lines_outcome(readings@[at as int]));
        let ghost before = states_view(states@);
        let state = if same(branch.id.as_str(), family.active_id.as_str()) {
            BranchSyncState {
                branch_id: branch.id.clone(),
                relation: "current".to_owned(),
                active_lines: Some(active.len() as u64),
                branch_lines: Some(active.len() as u64),
                appendable_lines_to_active: 0,
                appendable_lines_to_branch: 0,
                error: None,
            }
        } else {
            compare_branch(branch.id.as_str(), active, &readings[at])
        };
        assert(state@ =~= wanted[at as int]);
        states.push(state);
        assert(states_view(states@) =~= before.push(wanted[at as int]));
        assert(states_view(states@) =~= wanted.take(at + 1));
        at = at + 1;
    }
    assert(wanted.take(at as int) =~= wanted);
    Ok(states)
}

// ---------------------------------------------------------------------------
// Bringing branches level
// ---------------------------------------------------------------------------

/// Where the rollout of a branch is.
#[derive(Clone, Copy, PartialEq, Eq, Structural)]
pub enum BranchPlace {
    /// Where its record says.
    Main,
    /// Among the archived sessions.
    Archived,
}

/// Where the rollout of a branch is, or that it is lost. `place` tells why its recorded
/// place is refused, if it is.
pub open spec fn branch_place(
    place: Result<(), ErrorView>,
    main_is_file: bool,
    archived_is_file: bool,
    relpath: Seq<char>,
) -> Result<BranchPlace, ErrorView> {
    match place {
        Err(error) => Err(error),
        Ok(()) => if main_is_file {
            Ok(BranchPlace::Main)
        } else if archived_is_file {
            Ok(BranchPlace::Archived)
        } else {
            Err(ErrorView::NotFound("分支 rollout 丢失: "@ + relpath))
        },
    }
}

/// Where the rollout of a branch is.
pub fn resolve_branch_rollout(
    place: Result<(), AppError>,
    main_is_file: bool,
    archived_is_file: bool,
    relpath: &str,
) -> (found: Result<BranchPlace, AppError>)
    ensures
        match found {
            Ok(found) => branch_place(
                unit_outcome(place),
                main_is_file,
                archived_is_file,
                relpath@,
            ) == Ok::<BranchPlace, ErrorView>(found),
            Err(error) => branch_place(
                unit_outcome(place),
                main_is_file,
                archived_is_file,
                relpath@,
            ) == Err::<BranchPlace, ErrorView>(error@),
        },
{
    if let Err(error) = place {
        return Err(error);
    }
    if main_is_file {
        Ok(BranchPlace::Main)
    } else if archived_is_file {
        Ok(BranchPlace::Archived)
    } else {
        Err(AppError::NotFound(join2("分支 rollout 丢失: ", relpath)))
    }
}

/// What was learned for a sync: whether Desktop is not running, where the two rollouts are,
/// what they hold, and whether the databases can take the change.
pub struct SyncFacts {
    pub desktop: Result<(), AppError>,
    pub source_place: Result<(), AppError>,
    pub target_place: Result<(), AppError>,
    pub source_lines: Result<Vec<String>, AppError>,
    pub target_lines: Result<Vec<String>, AppError>,
    pub state_db: Result<(), AppError>,
}

/// What [`SyncFacts`] hold.
#[verifier::ext_equal]
pub struct SyncFactsView {
    pub desktop: Result<(), ErrorView>,
    pub source_place: Result<(), ErrorView>,
    pub target_place: Result<(), ErrorView>,
    pub source_lines: Result<Seq<Seq<char>>, ErrorView>,
    pub target_lines: Result<Seq<Seq<char>>, ErrorView>,
    pub state_db: Result<(), ErrorView>,
}

impl View for SyncFacts {
    type V = SyncFactsView;

    open spec fn view(&self) -> SyncFactsView {
        SyncFactsView {
            desktop: unit_outcome(self.desktop),
            source_place: unit_outcome(self.source_place),
            target_place: unit_outcome(self.target_place),
            source_lines: lines_outcome(self.source_lines),
            target_lines: lines_outcome(self.target_lines),
            state_db: unit_outcome(self.state_db),
        }
    }
}

/// The two branches of a sync, or why there are not two.
pub open spec fn sync_sides(
    store: StoreView,
    family_id: Seq<char>,
    source_id: Seq<char>,
    target_id: Seq<char>,
) -> Result<(BranchView, BranchView), ErrorView> {
    match family_under(store, family_id) {
        None => Err(no_family(family_id)),
        Some(family) => if source_id == target_id {
            Err(ErrorView::Other("源分支和目标分支相同，无需同步"@))
        } else {
            match branch_of(family.chain, source_id) {
                None => Err(ErrorView::NotFound("branch: "@ + source_id)),
                Some(source) => match branch_of(family.chain, target_id) {
                    None => Err(ErrorView::NotFound("branch: "@ + target_id)),
                    Some(target) => Ok((source, target)),
                },
            }
        },
    }
}

/// The lines of the two rollouts of a sync, or why they cannot be had.
pub open spec fn sync_lines(facts: SyncFactsView) -> Result<
    (Seq<Seq<char>>, Seq<Seq<char>>),
    ErrorView,
> {
    if facts.source_place is Err {
        Err(facts.source_place->Err_0)
    } else if facts.target_place is Err {
        Err(facts.target_place->Err_0)
    } else {
        match facts.source_lines {
            Err(error) => Err(error),
            Ok(source) => match facts.target_lines {
                Err(error) => Err(error),
                Ok(target) => Ok((source, target)),
            },
        }
    }
}

/// What bringing a branch level with another writes.
pub open spec fn extras_plan(
    store: StoreView,
    family_id: Seq<char>,
    source_id: Seq<char>,
    target_id: Seq<char>,
    facts: SyncFactsView,
) -> Result<SyncPlanView, ErrorView> {
    if facts.desktop is Err {
        Err(facts.desktop->Err_0)
    } else {
        match sync_sides(store, family_id, source_id, target_id) {
            Err(error) => Err(error),
            Ok((source, target)) => match sync_lines(facts) {
                Err(error) => Err(error),
                Ok((source_lines, target_lines)) => sync_plan(
                    source.id,
                    target.id,
                    target.provider,
                    source_lines,
                    target_lines,
                    facts.state_db,
                ),
            },
        }
    }
}

/// Plans to bring a branch level with another of its family.
pub fn append_branch_extras(
    store: &FamilyStore,
    family_id: &str,
    source_id: &str,
    target_id: &str,
    facts: &SyncFacts,
) -> (plan: Result<SyncPlan, AppError>)
    ensures
        plan_outcome(plan) == extras_plan(store@, family_id@, source_id@, target_id@, facts@),
{
    if let Err(error) = &facts.desktop {
        return Err(error.copy());
    }
    let family = match get_family(store, family_id) {
        Some(family) => family,
        None => return Err(family_missing(family_id)),
    };
    if same(source_id, target_id) {
        return Err(AppError::Other("源分支和目标分支相同，无需同步".to_owned()));
    }
    let source = match get_branch(&family.chain, source_id) {
        Some(branch) => branch,
        None => return Err(AppError::NotFound(join2("branch: ", source_id))),
    };
    let target = match get_branch(&family.chain, target_id) {
        Some(branch) => branch,
        None => return Err(AppError::NotFound(join2("branch: ", target_id))),
    };
    if let Err(error) = &facts.source_place {
        return Err(error.copy());
    }
    if let Err(error) = &facts.target_place {
        return Err(error.copy());
    }
    let source_lines = match &facts.source_lines {
        Ok(lines) => lines,
        Err(error) => return Err(error.copy()),
    };
    let target_lines = match &facts.target_lines {
        Ok(lines) => lines,
        Err(error) => return Err(error.copy()),
    };
    plan_branch_sync(
        source.id.as_str(),
        SyncSide { id: target.id.as_str(), provider: target.provider.as_str() },
        source_lines,
        target_lines,
        &facts.state_db,
    )
}

/// What became of bringing the active branch level with another.
pub struct SyncBranchReport {
    pub active_id: String,
    pub source_id: String,
    pub appended_lines: u32,
    pub total_lines: u32,
}

/// What became of bringing a branch level with another.
pub struct BranchSyncReport {
    pub source_id: String,
    pub target_id: String,
    pub appended_lines: u32,
    pub total_lines: u32,
}

/// Plans to bring the active branch of a family level with another: what is written, and
/// what is reported once that is done.
pub fn sync_branch_into_active_with_lock(
    store: &FamilyStore,
    family_id: &str,
    source_branch_id: &str,
    facts: &SyncFacts,
) -> (outcome: Result<(SyncPlan, SyncBranchReport), AppError>)
    ensures
        match active_of(store@, family_id@) {
            Err(error) => outcome matches Err(failure) && failure@ == error,
            Ok(active) => if active == source_branch_id@ {
                outcome matches Err(failure) && failure@ == ErrorView::Other(
                    "源分支即为当前 active，无需同步"@,
                )
            } else {
                match extras_plan(store@, family_id@, source_branch_id@, active, facts@) {
                    Err(error) => outcome matches Err(failure) && failure@ == error,
                    Ok(plan) => outcome matches Ok((written, report)) && written@ == plan
                        && report.active_id@ == active && report.source_id@ == source_branch_id@
                        && report.appended_lines == plan.appended && report.total_lines
                        == plan.total,
                }
            },
        },
{
    let active = match active_branch_id(store, family_id) {
        Ok(active) => active,
        Err(error) => return Err(error),
    };
    if same(active.as_str(), source_branch_id) {
        return Err(AppError::Other("源分支即为当前 active，无需同步".to_owned()));
    }
    match append_branch_extras(store, family_id, source_branch_id, active.as_str(), facts) {
        Ok(plan) => {
            let report = SyncBranchReport {
                active_id: active,
                source_id: source_branch_id.to_owned(),
                appended_lines: plan.appended,
                total_lines: plan.total,
            };
            Ok((plan, report))
        },
        Err(error) => Err(error),
    }
}

/// Plans to bring another branch of a family level with the active one: what is written,
/// and what is reported once that is done.
pub fn sync_active_into_branch_with_lock(
    store: &FamilyStore,
    family_id: &str,
    target_branch_id: &str,
    facts: &SyncFacts,
) -> (outcome: Result<(SyncPlan, BranchSyncReport), AppError>)
    ensures
        match active_of(store@, family_id@) {
            Err(error) => outcome matches Err(failure) && failure@ == error,
            Ok(active) => if active == target_branch_id@ {
                outcome matches Err(failure) && failure@ == ErrorView::Other(
                    "目标分支即为当前 active，无需同步"@,
                )
            } else {
                match extras_plan(store@, family_id@, active, target_branch_id@, facts@) {
                    Err(error) => outcome matches Err(failure) && failure@ == error,
                    Ok(plan) => outcome matches Ok((written, report)) && written@ == plan
                        && report.source_id@ == active && report.target_id@ == target_branch_id@
                        && report.appended_lines == plan.appended && report.total_lines
                        == plan.total,
                }
            },
        },
{
    let active = match active_branch_id(store, family_id) {
        Ok(active) => active,
        Err(error) => return Err(error),
    };
    if same(active.as_str(), target_branch_id) {
        return Err(AppError::Other("目标分支即为当前 active，无需同步".to_owned()));
    }
    match append_branch_extras(store, family_id, active.as_str(), target_branch_id, facts) {
        Ok(plan) => {
            let report = BranchSyncReport {
                source_id: active,
                target_id: target_branch_id.to_owned(),
                appended_lines: plan.appended,
                total_lines: plan.total,
            };
            Ok((plan, report))
        },
        Err(error) => Err(error),
    }
}

/// The error on a rollout that states no session after a sync.
pub open spec fn sync_without_session(path: Seq<char>) -> ErrorView {
    ErrorView::InvalidCodexDir("同步后的 rollout 缺少有效 session_meta.id: "@ + path)
}

/// What follows once the rollout of a target was written: the entry of its session in the
/// index and its project, where the rollout is not archived. `first_message` is what the
/// rollout then says of its first user message; `None` where it states no session.
pub open spec fn after_sync(
    upserted: bool,
    archived: bool,
    target_id: Seq<char>,
    path: Seq<char>,
    first_message: Option<Seq<char>>,
    assignment: Option<AssignmentView>,
) -> Result<Seq<StepView>, ErrorView> {
    if !upserted {
        Err(sync_without_session(path))
    } else if archived {
        Ok(Seq::empty())
    } else {
        match first_message {
            None => Err(sync_without_session(path)),
            Some(message) => Ok(
                seq![StepView::AppendIndexLine { id: target_id, thread_name: message }]
                    + assignment_steps(assignment, true, false),
            ),
        }
    }
}

/// The steps that follow once the rollout of a target was written.
pub fn steps_after_sync(
    upserted: bool,
    archived: bool,
    target_id: &str,
    path: &str,
    first_message: Option<String>,
    assignment: &Option<Assignment>,
) -> (steps: Result<Vec<Step>, AppError>)
    ensures
        steps_outcome(steps) == after_sync(
            upserted,
            archived,
            target_id@,
            path@,
            opt_text(first_message),
            opt_assignment(*assignment),
        ),
{
    if !upserted {
        return Err(
            AppError::InvalidCodexDir(
                join2("同步后的 rollout 缺少有效 session_meta.id: ", path),
            ),
        );
    }
    let mut steps = no_steps();
    if archived {
        return Ok(steps);
    }
    match first_message {
        None => Err(
            AppError::InvalidCodexDir(
                join2("同步后的 rollout 缺少有效 session_meta.id: ", path),
            ),
        ),
        Some(message) => {
            add_step(
                &mut steps,
                Step::AppendIndexLine { id: target_id.to_owned(), thread_name: message },
            );
            assert(steps_view(steps@) =~= seq![
                StepView::AppendIndexLine { id: target_id@, thread_name: message@ },
            ]);
            add_assignment(&mut steps, assignment, true, false);
            Ok(steps)
        },
    }
}

/// A branch after it was brought level with another: where its family has it as active,
/// nothing is kept of its checksum, and else what was computed.
pub open spec fn branch_synced(
    branch: BranchView,
    active_id: Seq<char>,
    source_id: Seq<char>,
    checksum: (Seq<char>, u64),
) -> BranchView {
    BranchView {
        sha256: if branch.id == active_id {
            None
        } else {
            Some(checksum.0)
        },
        line_count: if branch.id == active_id {
            None
        } else {
            Some(checksum.1)
        },
        note: Some("synced_from:"@ + source_id),
        ..branch
    }
}

/// A family after one of its branches was brought level with another.
pub open spec fn family_synced(
    family: FamilyView,
    target_id: Seq<char>,
    source_id: Seq<char>,
    checksum: (Seq<char>, u64),
    now: Seq<char>,
) -> FamilyView {
    FamilyView {
        chain: match position_of(family.chain, target_id) {
            Some(at) => family.chain.update(
                at,
                branch_synced(family.chain[at], family.active_id, source_id, checksum),
            ),
            None => family.chain,
        },
        updated_at: now,
        ..family
    }
}

/// The store after a branch was brought level with another.
pub open spec fn store_synced(
    store: StoreView,
    family_id: Seq<char>,
    target_id: Seq<char>,
    source_id: Seq<char>,
    checksum: (Seq<char>, u64),
    now: Seq<char>,
) -> StoreView {
    match family_at(store.families, family_id) {
        Some(at) => with_family(
            store,
            at,
            family_synced(store.families[at].family, target_id, source_id, checksum, now),
        ),
        None => store,
    }
}

fn mark_family_synced(
    family: &mut Family,
    target_id: &str,
    source_id: &str,
    checksum: (&str, u64),
    now: &str,
)
    ensures
        final(family)@ == family_synced(
            old(family)@,
            target_id@,
            source_id@,
            (checksum.0@, checksum.1),
            now@,
        ),
{
    let ghost before = family@;
    if let Some(at) = find_branch(&family.chain, target_id) {
        let mut branch = family.chain[at].copy();
        assert(before.chain[at as int] == branch@);
        if same(branch.id.as_str(), family.active_id.as_str()) {
            branch.sha256 = None;
            branch.line_count = None;
        } else {
            branch.sha256 = Some(checksum.0.to_owned());
            branch.line_count = Some(checksum.1);
        }
        branch.note = Some(join2("synced_from:", source_id));
        assert(branch@ =~= branch_synced(
            before.chain[at as int],
            before.active_id,
            source_id@,
            (checksum.0@, checksum.1),
        ));
        family.chain.set(at, branch);
        assert(chain_view(family.chain@) =~= before.chain.update(at as int, branch@));
    }
    family.updated_at = now.to_owned();
}

/// Notes in the store that a branch was brought level with another. `checksum` is that of
/// its rollout, with the number of its lines.
pub fn mark_synced(
    store: &mut FamilyStore,
    family_id: &str,
    target_id: &str,
    source_id: &str,
    checksum: (&str, u64),
    now: &str,
)
    ensures
        final(store)@ == store_synced(
            old(store)@,
            family_id@,
            target_id@,
            source_id@,
            (checksum.0@, checksum.1),
            now@,
        ),
{
    let ghost before = store@;
    if let Some(at) = find_family(&store.families, family_id) {
        mark_family_synced(
            &mut store.families[at].family,
            target_id,
            source_id,
            checksum,
            now,
        );
        assert(store@ =~= with_family(
            before,
            at as int,
            family_synced(
                before.families[at as int].family,
                target_id@,
                source_id@,
                (checksum.0@, checksum.1),
                now@,
            ),
        ));
    }
}

/// Bringing a branch level with another keeps the store in order.
pub proof fn law_syncing_keeps_the_order(
    store: StoreView,
    family_id: Seq<char>,
    target_id: Seq<char>,
    source_id: Seq<char>,
    checksum: (Seq<char>, u64),
    now: Seq<char>,
)
    requires
        store.well_formed(),
    ensures
        store_synced(store, family_id, target_id, source_id, checksum, now).well_formed(),
{
    lemma_family_at(store.families, family_id);
    if let Some(at) = family_at(store.families, family_id) {
        lemma_with_family_keys(
            store,
            at,
            family_synced(store.families[at].family, target_id, source_id, checksum, now),
        );
    }
}

/// A branch may be deleted just where it is one of the family and not the active one.
pub proof fn law_when_a_branch_may_be_deleted(
    store: StoreView,
    family_id: Seq<char>,
    branch_id: Seq<char>,
)
    ensures
        deletion_verdict(store, family_id, branch_id) is Ok <==> (family_under(
            store,
            family_id,
        ) matches Some(family) && family.active_id != branch_id && exists|i: int|
            0 <= i < family.chain.len() && (#[trigger] family.chain[i]).id == branch_id),
{
    if let Some(family) = family_under(store, family_id) {
        lemma_position_of(family.chain, branch_id);
        if let Some(at) = position_of(family.chain, branch_id) {
            assert(family.chain[at].id == branch_id);
        }
    }
}

/// The rollout of a branch is looked for at its own place first, and then among the archived ones.
pub proof fn law_where_a_branch_is_found(
    place: Result<(), ErrorView>,
    main_is_file: bool,
    archived_is_file: bool,
    relpath: Seq<char>,
)
    ensures
        branch_place(place, main_is_file, archived_is_file, relpath) == Ok::<BranchPlace, ErrorView>(
            BranchPlace::Main,
        ) <==> place is Ok && main_is_file,
        branch_place(place, main_is_file, archived_is_file, relpath) == Ok::<BranchPlace, ErrorView>(
            BranchPlace::Archived,
        ) <==> place is Ok && !main_is_file && archived_is_file,
{
}

/// What is told of the branches of a family: one state for each, in their order. The active one is
/// the current one; any other has what it lacks and what the active one lacks, or is missing where
/// its rollout cannot be read or is empty.
pub proof fn law_what_is_told_of_branches(
    store: StoreView,
    family_id: Seq<char>,
    readings: Seq<Result<Seq<Seq<char>>, ErrorView>>,
    family: FamilyView,
    at: int,
    i: int,
)
    requires
        family_under(store, family_id) == Some(family),
        0 <= at < family.chain.len(),
        family.chain[at].id == family.active_id,
        forall|j: int| 0 <= j < at ==> (#[trigger] family.chain[j]).id != family.active_id,
        readings.len() == family.chain.len(),
        readings[at] is Ok,
        0 <= i < family.chain.len(),
    ensures
        ({
            let active = readings[at]->Ok_0;
            match sync_states(store, family_id, readings) {
                Err(_) => active.len() == 0,
                Ok(states) => {
                    let told = states[i];
                    &&& active.len() > 0
                    &&& states.len() == family.chain.len()
                    &&& told.branch_id == family.chain[i].id
                    &&& told.active_lines == Some(active.len() as u64)
                    &&& if family.chain[i].id == family.active_id {
                        told.relation == "current"@ && told.error is None && told.to_active == 0
                            && told.to_branch == 0
                    } else {
                        match readings[i] {
                            Err(error) => told.relation == "missing"@ && told.error == Some(
                                error_text(error),
                            ) && told.branch_lines is None,
                            Ok(lines) => if lines.len() == 0 {
                                told.relation == "missing"@ && told.branch_lines == Some(0u64)
                                    && told.error is Some
                            } else {
                                &&& told.relation == relation(body_of(active), body_of(lines)).0
                                &&& told.branch_lines == Some(lines.len() as u64)
                                &&& told.to_active == relation(body_of(active), body_of(lines)).1 as u32
                                &&& told.to_branch == relation(body_of(active), body_of(lines)).2 as u32
                                &&& told.error is Some <==> told.relation == "diverged"@
                            },
                        }
                    }
                },
            }
        }),
{
    lemma_position_of(family.chain, family.active_id);
    assert(position_of(family.chain, family.active_id) == Some(at));
}

/// One branch is brought level with another just on these terms: Desktop does not run, both are
/// branches of the family and differ, their rollouts can be read, and the plan for their lines can
/// be carried out under the provider of the target.
pub proof fn law_when_branches_are_brought_level(
    store: StoreView,
    family_id: Seq<char>,
    source_id: Seq<char>,
    target_id: Seq<char>,
    facts: SyncFactsView,
)
    ensures
        extras_plan(store, family_id, source_id, target_id, facts) matches Ok(plan) ==> {
            &&& facts.desktop is Ok && facts.source_place is Ok && facts.target_place is Ok
            &&& facts.source_lines is Ok && facts.target_lines is Ok && facts.state_db is Ok
            &&& source_id != target_id
            &&& family_under(store, family_id) matches Some(family) && (branch_of(
                family.chain,
                source_id,
            ) is Some && (branch_of(family.chain, target_id) matches Some(target) && sync_plan(
                source_id,
                target_id,
                target.provider,
                facts.source_lines->Ok_0,
                facts.target_lines->Ok_0,
                Ok(()),
            ) == Ok::<SyncPlanView, ErrorView>(plan)))
        },
        facts.desktop is Ok && facts.source_place is Ok && facts.target_place is Ok
            && facts.state_db is Ok && source_id != target_id && (family_under(
            store,
            family_id,
        ) matches Some(family) && branch_of(family.chain, source_id) is Some && branch_of(
            family.chain,
            target_id,
        ) is Some) && (facts.source_lines matches Ok(source) && (facts.target_lines matches Ok(
            target,
        ) && (sync_plan(
            source_id,
            target_id,
            branch_of(family_under(store, family_id)->Some_0.chain, target_id)->Some_0.provider,
            source,
            target,
            Ok(()),
        ) is Ok))) ==> extras_plan(store, family_id, source_id, target_id, facts) is Ok,
{
    if let Some(family) = family_under(store, family_id) {
        lemma_position_of(family.chain, source_id);
        lemma_position_of(family.chain, target_id);
    }
}

/// A branch that was brought level says where from. One that is not active has the checksum and the
/// count of lines of its rollout, and one that is active has neither, since it goes on. No other
/// branch, and no other family, changes.
pub proof fn law_syncing_changes_one_branch(
    family: FamilyView,
    target_id: Seq<char>,
    source_id: Seq<char>,
    checksum: (Seq<char>, u64),
    now: Seq<char>,
    i: int,
)
    requires
        0 <= i < family.chain.len(),
        forall|a: int, b: int|
            0 <= a < b < family.chain.len() ==> (#[trigger] family.chain[a]).id != (
            #[trigger] family.chain[b]).id,
    ensures
        ({
            let after = family_synced(family, target_id, source_id, checksum, now);
            let branch = after.chain[i];
            &&& after.active_id == family.active_id && after.root_id == family.root_id
            &&& after.chain.len() == family.chain.len()
            &&& after.updated_at == now
            &&& family.chain[i].id != target_id ==> branch == family.chain[i]
            &&& family.chain[i].id == target_id ==> {
                &&& branch.id == target_id && branch.provider == family.chain[i].provider
                &&& branch.status == family.chain[i].status && branch.rollout_relpath
                    == family.chain[i].rollout_relpath
                &&& branch.note == Some("synced_from:"@ + source_id)
                &&& target_id == family.active_id ==> branch.sha256 is None && branch.line_count
                    is None
                &&& target_id != family.active_id ==> branch.sha256 == Some(checksum.0)
                    && branch.line_count == Some(checksum.1)
            }
        }),
{
    lemma_position_of(family.chain, target_id);
    if family.chain[i].id == target_id {
        let at = position_of(family.chain, target_id)->Some_0;
        if at < i {
            assert(family.chain[at].id != family.chain[i].id);
        }
    }
}

/// Steps follow a sync just where the row could be written: none for an archived branch, and else the
/// index has the branch under its first message and it gets a project where it has none.
pub proof fn law_what_follows_a_sync(
    upserted: bool,
    archived: bool,
    target_id: Seq<char>,
    path: Seq<char>,
    first_message: Option<Seq<char>>,
    assignment: Option<AssignmentView>,
)
    ensures
        after_sync(upserted, archived, target_id, path, first_message, assignment) is Ok
            <==> upserted && (archived || first_message is Some),
        after_sync(upserted, archived, target_id, path, first_message, assignment) matches Ok(steps)
            ==> (archived ==> steps.len() == 0) && (!archived ==> steps.len() > 0 && steps[0] == (
        StepView::AppendIndexLine { id: target_id, thread_name: first_message->Some_0 }) && (
        assignment is None ==> steps.len() == 1) && (assignment matches Some(due) ==> steps.len() == 2
            && steps[1] == (StepView::AssignProject {
            thread_id: due.thread_id,
            cwd: due.cwd,
            missing_only: true,
        }))),
{
}

} // verus!
