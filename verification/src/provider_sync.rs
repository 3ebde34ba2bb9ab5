//! Which sessions have to be brought to the current provider: those whose active
//! branch belongs to another provider, and those whose local records have drifted.

use vstd::prelude::*;

use crate::error::{bool_outcome, AppError, ErrorView};
use crate::model::BranchStatus;
use crate::rollout::{
    is_desktop_visible_source, is_subagent_source, opt_identity, source_is_subagent,
    source_is_visible, IdentityView, RolloutIdentity,
};
use crate::seqs::last_found;
use crate::text::{holds_text, opt_str, opt_text, same, texts};

verus! {

/// What the threads table holds of a session.
pub struct ThreadRepairState {
    pub id: String,
    pub rollout_path: Option<String>,
    pub model_provider: Option<String>,
    pub source: Option<String>,
    pub archived: bool,
}

/// What a [`ThreadRepairState`] holds.
#[verifier::ext_equal]
pub struct ThreadStateView {
    pub id: Seq<char>,
    pub rollout_path: Option<Seq<char>>,
    pub model_provider: Option<Seq<char>>,
    pub source: Option<Seq<char>>,
    pub archived: bool,
}

impl View for ThreadRepairState {
    type V = ThreadStateView;

    open spec fn view(&self) -> ThreadStateView {
        ThreadStateView {
            id: self.id@,
            rollout_path: opt_text(self.rollout_path),
            model_provider: opt_text(self.model_provider),
            source: opt_text(self.source),
            archived: self.archived,
        }
    }
}

/// What a list of thread states holds.
pub open spec fn states_view(states: Seq<ThreadRepairState>) -> Seq<ThreadStateView> {
    states.map_values(|state: ThreadRepairState| state@)
}

/// Keeps the thread states of one session.
pub open spec fn state_of(id: Seq<char>) -> spec_fn(ThreadStateView) -> Option<ThreadStateView> {
    |state: ThreadStateView|
        if state.id == id {
            Some(state)
        } else {
            None
        }
}

/// The thread state of a session; of several rows the last counts.
pub fn find_state<'a>(states: &'a Vec<ThreadRepairState>, id: &str) -> (found: Option<
    &'a ThreadRepairState,
>)
    ensures
        match found {
            Some(state) => last_found(states_view(states@), state_of(id@)) == Some(state@),
            None => last_found(states_view(states@), state_of(id@)) is None,
        },
{
    let ghost all = states_view(states@);
    let mut at: usize = states.len();
    assert(all.take(at as int) =~= all);
    while at > 0
        invariant
            at <= states@.len(),
            all == states_view(states@),
            last_found(all, state_of(id@)) == last_found(all.take(at as int), state_of(id@)),
        decreases at,
    {
        assert(all.take(at as int).drop_last() =~= all.take(at - 1));
        at = at - 1;
        assert(all.take(at + 1).last() == states@[at as int]@);
        if same(states[at].id.as_str(), id) {
            return Some(&states[at]);
        }
    }
    None
}

/// What was learned of a rollout file: whether it is there, whether the path that the
/// threads table records leads to the same file, and whose it is.
pub struct RolloutFacts {
    pub is_file: bool,
    pub recorded_matches: Result<bool, AppError>,
    pub identity: Result<Option<RolloutIdentity>, AppError>,
}

/// What [`RolloutFacts`] hold.
#[verifier::ext_equal]
pub struct RolloutFactsView {
    pub is_file: bool,
    pub recorded_matches: Result<bool, ErrorView>,
    pub identity: Result<Option<IdentityView>, ErrorView>,
}

impl View for RolloutFacts {
    type V = RolloutFactsView;

    open spec fn view(&self) -> RolloutFactsView {
        RolloutFactsView {
            is_file: self.is_file,
            recorded_matches: bool_outcome(self.recorded_matches),
            identity: match self.identity {
                Ok(identity) => Ok(opt_identity(identity)),
                Err(error) => Err(error@),
            },
        }
    }
}

/// Whether thread columns describe a session that is in use under a provider.
pub open spec fn fields_match(
    provider: Option<Seq<char>>,
    source: Option<Seq<char>>,
    archived: bool,
    expected: Seq<char>,
) -> bool {
    provider == Some(expected) && source_is_visible(source) && !archived
}

/// Whether a session can be used under a provider: its thread columns, the session
/// index, the recorded path and the rollout itself all agree.
pub open spec fn record_usable(
    id: Seq<char>,
    expected: Seq<char>,
    facts: RolloutFactsView,
    rollout_path: Option<Seq<char>>,
    provider: Option<Seq<char>>,
    source: Option<Seq<char>>,
    archived: bool,
    indexed: bool,
) -> Result<bool, ErrorView> {
    if !fields_match(provider, source, archived, expected) || !indexed || !facts.is_file
        || rollout_path is None {
        Ok(false)
    } else {
        match facts.recorded_matches {
            Err(error) => Err(error),
            Ok(false) => Ok(false),
            Ok(true) => match facts.identity {
                Err(error) => Err(error),
                Ok(None) => Ok(false),
                Ok(Some(identity)) => Ok(identity.id == id && identity.model_provider == expected),
            },
        }
    }
}

/// Whether a session can be used under a provider, given all thread states.
pub open spec fn session_usable(
    states: Seq<ThreadStateView>,
    index_ids: Seq<Seq<char>>,
    id: Seq<char>,
    expected: Seq<char>,
    facts: RolloutFactsView,
) -> Result<bool, ErrorView> {
    match last_found(states, state_of(id)) {
        None => Ok(false),
        Some(state) => record_usable(
            id,
            expected,
            facts,
            state.rollout_path,
            state.model_provider,
            state.source,
            state.archived,
            index_ids.contains(id),
        ),
    }
}

fn opt_ref(text: &Option<String>) -> (slice: Option<&str>)
    ensures
        opt_str(slice) == opt_text(*text),
{
    match text {
        Some(text) => Some(text.as_str()),
        None => None,
    }
}

/// Whether thread columns describe a session that is in use under a provider.
pub fn thread_fields_match_usable_provider(
    provider: Option<&str>,
    source: Option<&str>,
    archived: bool,
    expected: &str,
) -> (matching: bool)
    ensures
        matching == fields_match(opt_str(provider), opt_str(source), archived, expected@),
{
    let same_provider = match provider {
        Some(provider) => same(provider, expected),
        None => false,
    };
    same_provider && is_desktop_visible_source(source) && !archived
}

/// Whether a session can be used under a provider.
pub fn rollout_record_is_usable_provider(
    id: &str,
    expected_provider: &str,
    facts: &RolloutFacts,
    recorded_rollout_path: Option<&str>,
    recorded_provider: Option<&str>,
    recorded_source: Option<&str>,
    archived: bool,
    indexed: bool,
) -> (usable: Result<bool, AppError>)
    ensures
        bool_outcome(usable) == record_usable(
            id@,
            expected_provider@,
            facts@,
            opt_str(recorded_rollout_path),
            opt_str(recorded_provider),
            opt_str(recorded_source),
            archived,
            indexed,
        ),
{
    if !thread_fields_match_usable_provider(
        recorded_provider,
        recorded_source,
        archived,
        expected_provider,
    ) || !indexed || !facts.is_file || recorded_rollout_path.is_none() {
        return Ok(false);
    }
    match &facts.recorded_matches {
        Err(error) => return Err(error.copy()),
        Ok(matching) => if !*matching {
            return Ok(false);
        },
    }
    match &facts.identity {
        Err(error) => Err(error.copy()),
        Ok(None) => Ok(false),
        Ok(Some(identity)) => Ok(
            same(identity.id.as_str(), id) && same(
                identity.model_provider.as_str(),
                expected_provider,
            ),
        ),
    }
}

/// Whether a session can be used under a provider, given all thread states.
pub fn rollout_is_usable_provider_session(
    states: &Vec<ThreadRepairState>,
    index_ids: &Vec<String>,
    id: &str,
    expected_provider: &str,
    facts: &RolloutFacts,
) -> (usable: Result<bool, AppError>)
    ensures
        bool_outcome(usable) == session_usable(
            states_view(states@),
            texts(index_ids@),
            id@,
            expected_provider@,
            facts@,
        ),
{
    match find_state(states, id) {
        None => Ok(false),
        Some(state) => rollout_record_is_usable_provider(
            id,
            expected_provider,
            facts,
            opt_ref(&state.rollout_path),
            opt_ref(&state.model_provider),
            opt_ref(&state.source),
            state.archived,
            holds_text(index_ids, id),
        ),
    }
}

/// What provider sync reads of a branch. `in_sessions` tells whether its recorded
/// place lies in the directory of active sessions, or why that place is refused.
pub struct SyncBranch {
    pub id: String,
    pub provider: String,
    pub status: BranchStatus,
    pub in_sessions: Result<bool, AppError>,
    pub facts: RolloutFacts,
}

/// What a [`SyncBranch`] holds.
#[verifier::ext_equal]
pub struct SyncBranchView {
    pub id: Seq<char>,
    pub provider: Seq<char>,
    pub status: BranchStatus,
    pub in_sessions: Result<bool, ErrorView>,
    pub facts: RolloutFactsView,
}

impl View for SyncBranch {
    type V = SyncBranchView;

    open spec fn view(&self) -> SyncBranchView {
        SyncBranchView {
            id: self.id@,
            provider: self.provider@,
            status: self.status,
            in_sessions: bool_outcome(self.in_sessions),
            facts: self.facts@,
        }
    }
}

/// What provider sync reads of a family.
pub struct SyncFamily {
    pub active_id: String,
    pub branches: Vec<SyncBranch>,
}

/// What a [`SyncFamily`] holds.
#[verifier::ext_equal]
pub struct SyncFamilyView {
    pub active_id: Seq<char>,
    pub branches: Seq<SyncBranchView>,
}

/// What a list of branches holds.
pub open spec fn sync_branches_view(branches: Seq<SyncBranch>) -> Seq<SyncBranchView> {
    branches.map_values(|branch: SyncBranch| branch@)
}

impl View for SyncFamily {
    type V = SyncFamilyView;

    open spec fn view(&self) -> SyncFamilyView {
        SyncFamilyView {
            active_id: self.active_id@,
            branches: sync_branches_view(self.branches@),
        }
    }
}

/// What a list of families holds.
pub open spec fn sync_families_view(families: Seq<SyncFamily>) -> Seq<SyncFamilyView> {
    families.map_values(|family: SyncFamily| family@)
}

/// A rollout of an active session.
pub struct ActiveRollout {
    pub path: String,
    pub identity: RolloutIdentity,
    pub facts: RolloutFacts,
}

/// What an [`ActiveRollout`] holds.
#[verifier::ext_equal]
pub struct ActiveRolloutView {
    pub path: Seq<char>,
    pub identity: IdentityView,
    pub facts: RolloutFactsView,
}

impl View for ActiveRollout {
    type V = ActiveRolloutView;

    open spec fn view(&self) -> ActiveRolloutView {
        ActiveRolloutView { path: self.path@, identity: self.identity@, facts: self.facts@ }
    }
}

/// What a list of rollouts holds.
pub open spec fn rollouts_view(rollouts: Seq<ActiveRollout>) -> Seq<ActiveRolloutView> {
    rollouts.map_values(|rollout: ActiveRollout| rollout@)
}

/// All that provider sync reads: the families with the sessions that their index
/// names, the rollouts of active sessions, the threads table and the session index.
pub struct SyncState {
    pub families: Vec<SyncFamily>,
    pub family_index_ids: Vec<String>,
    pub rollouts: Vec<ActiveRollout>,
    pub thread_states: Vec<ThreadRepairState>,
    pub session_index_ids: Vec<String>,
}

/// What a [`SyncState`] holds.
#[verifier::ext_equal]
pub struct SyncStateView {
    pub families: Seq<SyncFamilyView>,
    pub family_index_ids: Seq<Seq<char>>,
    pub rollouts: Seq<ActiveRolloutView>,
    pub thread_states: Seq<ThreadStateView>,
    pub session_index_ids: Seq<Seq<char>>,
}

impl View for SyncState {
    type V = SyncStateView;

    open spec fn view(&self) -> SyncStateView {
        SyncStateView {
            families: sync_families_view(self.families@),
            family_index_ids: texts(self.family_index_ids@),
            rollouts: rollouts_view(self.rollouts@),
            thread_states: states_view(self.thread_states@),
            session_index_ids: texts(self.session_index_ids@),
        }
    }
}

/// A session that has to be brought to a provider.
pub struct ProviderSyncTarget {
    pub session_id: String,
    pub rollout_path: String,
}

/// What a [`ProviderSyncTarget`] holds.
#[verifier::ext_equal]
pub struct TargetView {
    pub session_id: Seq<char>,
    pub rollout_path: Seq<char>,
}

impl View for ProviderSyncTarget {
    type V = TargetView;

    open spec fn view(&self) -> TargetView {
        TargetView { session_id: self.session_id@, rollout_path: self.rollout_path@ }
    }
}

/// What a list of targets holds.
pub open spec fn targets_view(targets: Seq<ProviderSyncTarget>) -> Seq<TargetView> {
    targets.map_values(|target: ProviderSyncTarget| target@)
}

/// Whether a branch can be used under a provider.
pub open spec fn branch_usable(
    state: SyncStateView,
    branch: SyncBranchView,
    expected: Seq<char>,
) -> Result<bool, ErrorView> {
    match branch.in_sessions {
        Err(error) => Err(error),
        Ok(false) => Ok(false),
        Ok(true) => session_usable(
            state.thread_states,
            state.session_index_ids,
            branch.id,
            expected,
            branch.facts,
        ),
    }
}

/// The first branch of a provider that can be used under it; one before it that cannot be
/// judged is an error.
pub open spec fn first_usable(
    state: SyncStateView,
    branches: Seq<SyncBranchView>,
    target: Seq<char>,
) -> Result<Option<SyncBranchView>, ErrorView>
    decreases branches.len(),
{
    if branches.len() == 0 {
        Ok(None)
    } else {
        match first_usable(state, branches.drop_last(), target) {
            Ok(None) => if branches.last().provider == target {
                match branch_usable(state, branches.last(), target) {
                    Err(error) => Err(error),
                    Ok(true) => Ok(Some(branches.last())),
                    Ok(false) => Ok(None),
                }
            } else {
                Ok(None)
            },
            decided => decided,
        }
    }
}

/// Whether any branch of a provider can be used under it.
pub open spec fn any_usable(
    state: SyncStateView,
    branches: Seq<SyncBranchView>,
    target: Seq<char>,
) -> Result<bool, ErrorView> {
    match first_usable(state, branches, target) {
        Err(error) => Err(error),
        Ok(found) => Ok(found is Some),
    }
}

/// Gives the path of each rollout of one session.
pub open spec fn path_of(id: Seq<char>) -> spec_fn(ActiveRolloutView) -> Option<Seq<char>> {
    |rollout: ActiveRolloutView|
        if rollout.identity.id == id {
            Some(rollout.path)
        } else {
            None
        }
}

/// Whether the threads table has a session as archived.
pub open spec fn thread_archived(states: Seq<ThreadStateView>, id: Seq<char>) -> bool {
    last_found(states, state_of(id)) matches Some(state) && state.archived
}

/// Whether the threads table has a session as that of a sub-agent.
pub open spec fn thread_is_subagent(states: Seq<ThreadStateView>, id: Seq<char>) -> bool {
    last_found(states, state_of(id)) matches Some(state) && source_is_subagent(state.source)
}

/// The first branch of a family that has this id.
pub open spec fn sync_branch_of(
    branches: Seq<SyncBranchView>,
    id: Seq<char>,
) -> Option<SyncBranchView>
    decreases branches.len(),
{
    if branches.len() == 0 {
        None
    } else {
        match sync_branch_of(branches.drop_last(), id) {
            Some(branch) => Some(branch),
            None => if branches.last().id == id {
                Some(branches.last())
            } else {
                None
            },
        }
    }
}

/// The session of a family that has to be brought to a provider. None has to where
/// the active branch is not in use, has no rollout, is archived or is that of a
/// sub-agent, or where another branch can be used under the provider.
pub open spec fn family_target(
    state: SyncStateView,
    family: SyncFamilyView,
    target: Seq<char>,
) -> Result<Option<TargetView>, ErrorView> {
    match sync_branch_of(family.branches, family.active_id) {
        None => Ok(None),
        Some(active) => {
            let path = last_found(state.rollouts, path_of(active.id));
            if active.status != BranchStatus::Active || path is None || thread_archived(
                state.thread_states,
                active.id,
            ) || thread_is_subagent(state.thread_states, active.id) {
                Ok(None)
            } else {
                match any_usable(state, family.branches, target) {
                    Err(error) => Err(error),
                    Ok(has_target) => if active.provider != target && has_target {
                        Ok(None)
                    } else {
                        match branch_usable(state, active, active.provider) {
                            Err(error) => Err(error),
                            Ok(in_order) => if active.provider != target || !in_order {
                                Ok(
                                    Some(
                                        TargetView {
                                            session_id: active.id,
                                            rollout_path: path->Some_0,
                                        },
                                    ),
                                )
                            } else {
                                Ok(None)
                            },
                        }
                    },
                }
            }
        },
    }
}

/// Whether a session belongs to a family.
pub open spec fn is_managed(state: SyncStateView, id: Seq<char>) -> bool {
    state.family_index_ids.contains(id) || exists|i: int, k: int|
        0 <= i < state.families.len() && 0 <= k < state.families[i].branches.len() && (
        #[trigger] state.families[i].branches[k]).id == id
}

/// The session of a rollout outside all families that has to be brought to a provider.
pub open spec fn rollout_target(
    state: SyncStateView,
    rollout: ActiveRolloutView,
    target: Seq<char>,
) -> Result<Option<TargetView>, ErrorView> {
    let identity = rollout.identity;
    if is_managed(state, identity.id) || source_is_subagent(identity.source) {
        Ok(None)
    } else {
        match session_usable(
            state.thread_states,
            state.session_index_ids,
            identity.id,
            identity.model_provider,
            rollout.facts,
        ) {
            Err(error) => Err(error),
            Ok(in_order) => if identity.model_provider != target || !in_order {
                Ok(Some(TargetView { session_id: identity.id, rollout_path: rollout.path }))
            } else {
                Ok(None)
            },
        }
    }
}

/// Whether a list of targets has a session.
pub open spec fn targets_session(targets: Seq<TargetView>, id: Seq<char>) -> bool {
    exists|i: int| 0 <= i < targets.len() && (#[trigger] targets[i]).session_id == id
}

/// Targets with one more, unless its session is there already.
pub open spec fn with_target(
    targets: Seq<TargetView>,
    target: Option<TargetView>,
) -> Seq<TargetView> {
    match target {
        Some(target) => if targets_session(targets, target.session_id) {
            targets
        } else {
            targets.push(target)
        },
        None => targets,
    }
}

/// The targets among the first families.
pub open spec fn family_targets(
    state: SyncStateView,
    count: int,
    target: Seq<char>,
) -> Result<Seq<TargetView>, ErrorView>
    decreases count,
{
    if count <= 0 {
        Ok(Seq::empty())
    } else {
        match family_targets(state, count - 1, target) {
            Err(error) => Err(error),
            Ok(targets) => match family_target(state, state.families[count - 1], target) {
                Err(error) => Err(error),
                Ok(found) => Ok(with_target(targets, found)),
            },
        }
    }
}

/// The targets among all families and the first rollouts.
pub open spec fn targets_through(
    state: SyncStateView,
    count: int,
    target: Seq<char>,
) -> Result<Seq<TargetView>, ErrorView>
    decreases count,
{
    if count <= 0 {
        family_targets(state, state.families.len() as int, target)
    } else {
        match targets_through(state, count - 1, target) {
            Err(error) => Err(error),
            Ok(targets) => match rollout_target(state, state.rollouts[count - 1], target) {
                Err(error) => Err(error),
                Ok(found) => Ok(with_target(targets, found)),
            },
        }
    }
}

/// The sessions that have to be brought to a provider, each once: those of families in
/// their order, then those of other rollouts.
pub open spec fn mismatched(state: SyncStateView, target: Seq<char>) -> Result<
    Seq<TargetView>,
    ErrorView,
> {
    targets_through(state, state.rollouts.len() as int, target)
}

/// The ids of targets.
pub open spec fn target_ids(targets: Seq<TargetView>) -> Seq<Seq<char>> {
    targets.map_values(|target: TargetView| target.session_id)
}

/// Whether the threads table has a session as that of a sub-agent.
pub fn thread_state_is_subagent(states: &Vec<ThreadRepairState>, id: &str) -> (subagent: bool)
    ensures
        subagent == thread_is_subagent(states_view(states@), id@),
{
    match find_state(states, id) {
        Some(state) => is_subagent_source(opt_ref(&state.source)),
        None => false,
    }
}

/// Whether a branch can be used under a provider.
pub fn family_branch_is_usable_provider(
    state: &SyncState,
    branch: &SyncBranch,
    expected_provider: &str,
) -> (usable: Result<bool, AppError>)
    ensures
        bool_outcome(usable) == branch_usable(state@, branch@, expected_provider@),
{
    match &branch.in_sessions {
        Err(error) => return Err(error.copy()),
        Ok(inside) => if !*inside {
            return Ok(false);
        },
    }
    rollout_is_usable_provider_session(
        &state.thread_states,
        &state.session_index_ids,
        branch.id.as_str(),
        expected_provider,
        &branch.facts,
    )
}

/// The first branch of a provider that can be used under it.
pub fn find_usable_branch<'a>(
    state: &SyncState,
    branches: &'a Vec<SyncBranch>,
    target: &str,
) -> (found: Result<Option<&'a SyncBranch>, AppError>)
    ensures
        match found {
            Ok(Some(branch)) => first_usable(state@, sync_branches_view(branches@), target@)
                == Ok::<Option<SyncBranchView>, ErrorView>(Some(branch@)),
            Ok(None) => first_usable(state@, sync_branches_view(branches@), target@) == Ok::<
                Option<SyncBranchView>,
                ErrorView,
            >(None),
            Err(error) => first_usable(state@, sync_branches_view(branches@), target@) == Err::<
                Option<SyncBranchView>,
                ErrorView,
            >(error@),
        },
{
    let ghost all = sync_branches_view(branches@);
    let mut at: usize = 0;
    while at < branches.len()
        invariant
            at <= branches@.len(),
            all == sync_branches_view(branches@),
            first_usable(state@, all.take(at as int), target@) == Ok::<
                Option<SyncBranchView>,
                ErrorView,
            >(None),
        decreases branches.len() - at,
    {
        assert(all.take(at + 1).drop_last() =~= all.take(at as int));
        assert(all.take(at + 1).last() == branches@[at as int]@);
        if same(branches[at].provider.as_str(), target) {
            match family_branch_is_usable_provider(state, &branches[at], target) {
                Err(error) => {
                    proof {
                        lemma_first_usable_extends(state@, all, target@, at + 1);
                    }
                    return Err(error);
                },
                Ok(true) => {
                    proof {
                        lemma_first_usable_extends(state@, all, target@, at + 1);
                    }
                    return Ok(Some(&branches[at]));
                },
                Ok(false) => {},
            }
        }
        at = at + 1;
    }
    assert(all.take(at as int) =~= all);
    Ok(None)
}

proof fn lemma_first_usable_extends(
    state: SyncStateView,
    branches: Seq<SyncBranchView>,
    target: Seq<char>,
    at: int,
)
    requires
        0 <= at <= branches.len(),
        first_usable(state, branches.take(at), target) != Ok::<Option<SyncBranchView>, ErrorView>(
            None,
        ),
    ensures
        first_usable(state, branches, target) == first_usable(state, branches.take(at), target),
    decreases branches.len(),
{
    if at < branches.len() {
        assert(branches.drop_last().take(at) =~= branches.take(at));
        lemma_first_usable_extends(state, branches.drop_last(), target, at);
    } else {
        assert(branches.take(at) =~= branches);
    }
}

/// The first branch of a family that has this id.
pub fn find_sync_branch<'a>(family: &'a SyncFamily, id: &str) -> (found: Option<&'a SyncBranch>)
    ensures
        match found {
            Some(branch) => sync_branch_of(family@.branches, id@) == Some(branch@),
            None => sync_branch_of(family@.branches, id@) is None,
        },
{
    let ghost all = family@.branches;
    let mut at: usize = 0;
    while at < family.branches.len()
        invariant
            at <= family.branches@.len(),
            all == sync_branches_view(family.branches@),
            sync_branch_of(all.take(at as int), id@) is None,
        decreases family.branches.len() - at,
    {
        assert(all.take(at + 1).drop_last() =~= all.take(at as int));
        assert(all.take(at + 1).last() == family.branches@[at as int]@);
        if same(family.branches[at].id.as_str(), id) {
            proof {
                lemma_sync_branch_extends(all, id@, at + 1);
            }
            return Some(&family.branches[at]);
        }
        at = at + 1;
    }
    assert(all.take(at as int) =~= all);
    None
}

proof fn lemma_sync_branch_extends(branches: Seq<SyncBranchView>, id: Seq<char>, at: int)
    requires
        0 <= at <= branches.len(),
        sync_branch_of(branches.take(at), id) is Some,
    ensures
        sync_branch_of(branches, id) == sync_branch_of(branches.take(at), id),
    decreases branches.len(),
{
    if at < branches.len() {
        assert(branches.drop_last().take(at) =~= branches.take(at));
        lemma_sync_branch_extends(branches.drop_last(), id, at);
    } else {
        assert(branches.take(at) =~= branches);
    }
}

fn find_rollout_path<'a>(rollouts: &'a Vec<ActiveRollout>, id: &str) -> (path: Option<&'a String>)
    ensures
        match path {
            Some(path) => last_found(rollouts_view(rollouts@), path_of(id@)) == Some(path@),
            None => last_found(rollouts_view(rollouts@), path_of(id@)) is None,
        },
{
    let ghost all = rollouts_view(rollouts@);
    let mut at: usize = rollouts.len();
    assert(all.take(at as int) =~= all);
    while at > 0
        invariant
            at <= rollouts@.len(),
            all == rollouts_view(rollouts@),
            last_found(all, path_of(id@)) == last_found(all.take(at as int), path_of(id@)),
        decreases at,
    {
        assert(all.take(at as int).drop_last() =~= all.take(at - 1));
        at = at - 1;
        assert(all.take(at + 1).last() == rollouts@[at as int]@);
        if same(rollouts[at].identity.id.as_str(), id) {
            return Some(&rollouts[at].path);
        }
    }
    None
}

/// What the outcome of looking for one target holds.
pub open spec fn target_outcome(
    outcome: Result<Option<ProviderSyncTarget>, AppError>,
) -> Result<Option<TargetView>, ErrorView> {
    match outcome {
        Ok(Some(target)) => Ok(Some(target@)),
        Ok(None) => Ok(None),
        Err(error) => Err(error@),
    }
}

/// What the outcome of looking for all targets holds.
pub open spec fn targets_outcome(
    outcome: Result<Vec<ProviderSyncTarget>, AppError>,
) -> Result<Seq<TargetView>, ErrorView> {
    match outcome {
        Ok(targets) => Ok(targets_view(targets@)),
        Err(error) => Err(error@),
    }
}

/// The session of a family that has to be brought to a provider.
pub fn mismatched_family_session(
    state: &SyncState,
    family: &SyncFamily,
    target: &str,
) -> (outcome: Result<Option<ProviderSyncTarget>, AppError>)
    ensures
        target_outcome(outcome) == family_target(state@, family@, target@),
{
    let active = match find_sync_branch(family, family.active_id.as_str()) {
        Some(active) => active,
        None => return Ok(None),
    };
    match active.status {
        BranchStatus::Active => {},
        _ => return Ok(None),
    }
    let path = match find_rollout_path(&state.rollouts, active.id.as_str()) {
        Some(path) => path,
        None => return Ok(None),
    };
    if let Some(row) = find_state(&state.thread_states, active.id.as_str()) {
        if row.archived {
            return Ok(None);
        }
    }
    if thread_state_is_subagent(&state.thread_states, active.id.as_str()) {
        return Ok(None);
    }
    let has_target = match find_usable_branch(state, &family.branches, target) {
        Ok(found) => found.is_some(),
        Err(error) => return Err(error),
    };
    let elsewhere = !same(active.provider.as_str(), target);
    if elsewhere && has_target {
        return Ok(None);
    }
    let in_order = match family_branch_is_usable_provider(state, active, active.provider.as_str()) {
        Ok(usable) => usable,
        Err(error) => return Err(error),
    };
    if elsewhere || !in_order {
        Ok(
            Some(
                ProviderSyncTarget { session_id: active.id.clone(), rollout_path: path.clone() },
            ),
        )
    } else {
        Ok(None)
    }
}

fn family_holds(family: &SyncFamily, id: &str) -> (held: bool)
    ensures
        held == exists|k: int|
            0 <= k < family@.branches.len() && (#[trigger] family@.branches[k]).id == id@,
{
    let mut at: usize = 0;
    while at < family.branches.len()
        invariant
            at <= family.branches@.len(),
            forall|k: int| 0 <= k < at ==> (#[trigger] family@.branches[k]).id != id@,
        decreases family.branches.len() - at,
    {
        if same(family.branches[at].id.as_str(), id) {
            assert(family@.branches[at as int].id == id@);
            return true;
        }
        at = at + 1;
    }
    false
}

/// Whether a session belongs to a family.
pub fn session_is_managed(state: &SyncState, id: &str) -> (managed: bool)
    ensures
        managed == is_managed(state@, id@),
{
    if holds_text(&state.family_index_ids, id) {
        return true;
    }
    let mut at: usize = 0;
    while at < state.families.len()
        invariant
            at <= state.families@.len(),
            forall|i: int, k: int|
                0 <= i < at && 0 <= k < state@.families[i].branches.len() ==> (
                #[trigger] state@.families[i].branches[k]).id != id@,
        decreases state.families.len() - at,
    {
        assert(state@.families[at as int] == state.families@[at as int]@);
        if family_holds(&state.families[at], id) {
            let ghost family = state.families@[at as int];
            proof {
                let k = choose|k: int|
                    0 <= k < family@.branches.len() && (#[trigger] family@.branches[k]).id == id@;
                assert(state@.families[at as int].branches[k].id == id@);
            }
            return true;
        }
        at = at + 1;
    }
    false
}

/// The session of a rollout outside all families that has to be brought to a provider.
pub fn mismatched_rollout_session(
    state: &SyncState,
    rollout: &ActiveRollout,
    target: &str,
) -> (outcome: Result<Option<ProviderSyncTarget>, AppError>)
    ensures
        target_outcome(outcome) == rollout_target(state@, rollout@, target@),
{
    let identity = &rollout.identity;
    if session_is_managed(state, identity.id.as_str()) {
        return Ok(None);
    }
    if is_subagent_source(opt_ref(&identity.source)) {
        return Ok(None);
    }
    let in_order = match rollout_is_usable_provider_session(
        &state.thread_states,
        &state.session_index_ids,
        identity.id.as_str(),
        identity.model_provider.as_str(),
        &rollout.facts,
    ) {
        Ok(usable) => usable,
        Err(error) => return Err(error),
    };
    if !same(identity.model_provider.as_str(), target) || !in_order {
        Ok(
            Some(
                ProviderSyncTarget {
                    session_id: identity.id.clone(),
                    rollout_path: rollout.path.clone(),
                },
            ),
        )
    } else {
        Ok(None)
    }
}

fn has_session(targets: &Vec<ProviderSyncTarget>, id: &str) -> (found: bool)
    ensures
        found == targets_session(targets_view(targets@), id@),
{
    let ghost all = targets_view(targets@);
    let mut at: usize = 0;
    while at < targets.len()
        invariant
            at <= targets@.len(),
            all == targets_view(targets@),
            forall|i: int| 0 <= i < at ==> (#[trigger] all[i]).session_id != id@,
        decreases targets.len() - at,
    {
        if same(targets[at].session_id.as_str(), id) {
            assert(all[at as int].session_id == id@);
            return true;
        }
        at = at + 1;
    }
    false
}

fn add_target(targets: &mut Vec<ProviderSyncTarget>, found: Option<ProviderSyncTarget>)
    ensures
        targets_view(final(targets)@) == with_target(
            targets_view(old(targets)@),
            match found {
                Some(target) => Some(target@),
                None => None,
            },
        ),
{
    if let Some(target) = found {
        let ghost before = targets_view(targets@);
        if !has_session(targets, target.session_id.as_str()) {
            targets.push(target);
            assert(targets_view(targets@) =~= before.push(target@));
        }
    }
}

/// The sessions that have to be brought to a provider.
pub fn list_mismatched_sessions(state: &SyncState, target_provider: &str) -> (outcome: Result<
    Vec<ProviderSyncTarget>,
    AppError,
>)
    ensures
        targets_outcome(outcome) == mismatched(state@, target_provider@),
{
    let mut targets: Vec<ProviderSyncTarget> = Vec::new();
    assert(targets_view(targets@) =~= Seq::empty());
    let mut at: usize = 0;
    while at < state.families.len()
        invariant
            at <= state.families@.len(),
            family_targets(state@, at as int, target_provider@) == Ok::<Seq<TargetView>, ErrorView>(
                targets_view(targets@),
            ),
        decreases state.families.len() - at,
    {
        assert(state@.families[at as int] == state.families@[at as int]@);
        match mismatched_family_session(state, &state.families[at], target_provider) {
            Err(error) => {
                proof {
                    lemma_family_error(state@, at + 1, target_provider@);
                    lemma_through_error(state@, 0, target_provider@);
                }
                return Err(error);
            },
            Ok(found) => add_target(&mut targets, found),
        }
        at = at + 1;
    }
    let mut next: usize = 0;
    while next < state.rollouts.len()
        invariant
            next <= state.rollouts@.len(),
            targets_through(state@, next as int, target_provider@) == Ok::<
                Seq<TargetView>,
                ErrorView,
            >(targets_view(targets@)),
        decreases state.rollouts.len() - next,
    {
        assert(state@.rollouts[next as int] == state.rollouts@[next as int]@);
        match mismatched_rollout_session(state, &state.rollouts[next], target_provider) {
            Err(error) => {
                proof {
                    lemma_through_error(state@, next + 1, target_provider@);
                }
                return Err(error);
            },
            Ok(found) => add_target(&mut targets, found),
        }
        next = next + 1;
    }
    Ok(targets)
}

proof fn lemma_family_error(state: SyncStateView, count: int, target: Seq<char>)
    requires
        0 <= count <= state.families.len(),
        family_targets(state, count, target) is Err,
    ensures
        family_targets(state, state.families.len() as int, target) == family_targets(
            state,
            count,
            target,
        ),
    decreases state.families.len() - count,
{
    if count < state.families.len() {
        lemma_family_error(state, count + 1, target);
    }
}

proof fn lemma_through_error(state: SyncStateView, count: int, target: Seq<char>)
    requires
        0 <= count <= state.rollouts.len(),
        targets_through(state, count, target) is Err,
    ensures
        mismatched(state, target) == targets_through(state, count, target),
    decreases state.rollouts.len() - count,
{
    if count < state.rollouts.len() {
        lemma_through_error(state, count + 1, target);
    }
}

/// No two targets are of one session.
pub proof fn law_targets_are_distinct(state: SyncStateView, target: Seq<char>)
    ensures
        mismatched(state, target) matches Ok(targets) ==> target_ids(targets).no_duplicates(),
{
    lemma_family_targets_distinct(state, state.families.len() as int, target);
    lemma_through_distinct(state, state.rollouts.len() as int, target);
}

spec fn distinct_sessions(targets: Seq<TargetView>) -> bool {
    forall|i: int, j: int|
        0 <= i < j < targets.len() ==> (#[trigger] targets[i]).session_id != (
        #[trigger] targets[j]).session_id
}

proof fn lemma_family_targets_distinct(state: SyncStateView, count: int, target: Seq<char>)
    ensures
        family_targets(state, count, target) matches Ok(targets) ==> distinct_sessions(targets),
    decreases count,
{
    if count > 0 {
        lemma_family_targets_distinct(state, count - 1, target);
    }
}

proof fn lemma_through_distinct(state: SyncStateView, count: int, target: Seq<char>)
    ensures
        targets_through(state, count, target) matches Ok(targets) ==> distinct_sessions(targets),
    decreases count,
{
    if count > 0 {
        lemma_through_distinct(state, count - 1, target);
    } else {
        lemma_family_targets_distinct(state, state.families.len() as int, target);
    }
}

/// A session that the threads table has as archived is no target of its family.
pub proof fn law_archived_heads_are_left_alone(
    state: SyncStateView,
    family: SyncFamilyView,
    target: Seq<char>,
)
    requires
        thread_archived(state.thread_states, family.active_id),
    ensures
        family_target(state, family, target) == Ok::<Option<TargetView>, ErrorView>(None),
{
    lemma_sync_branch_id(family.branches, family.active_id);
}

/// A session without a rollout is no target of its family.
pub proof fn law_heads_without_rollout_are_left_alone(
    state: SyncStateView,
    family: SyncFamilyView,
    target: Seq<char>,
)
    requires
        last_found(state.rollouts, path_of(family.active_id)) is None,
    ensures
        family_target(state, family, target) == Ok::<Option<TargetView>, ErrorView>(None),
{
    lemma_sync_branch_id(family.branches, family.active_id);
}

/// The session of a sub-agent is no target, in a family or outside of all.
pub proof fn law_subagents_are_left_alone(
    state: SyncStateView,
    family: SyncFamilyView,
    rollout: ActiveRolloutView,
    target: Seq<char>,
)
    ensures
        thread_is_subagent(state.thread_states, family.active_id) ==> family_target(
            state,
            family,
            target,
        ) == Ok::<Option<TargetView>, ErrorView>(None),
        source_is_subagent(rollout.identity.source) ==> rollout_target(state, rollout, target)
            == Ok::<Option<TargetView>, ErrorView>(None),
{
    lemma_sync_branch_id(family.branches, family.active_id);
}

/// A family whose active branch belongs to another provider is left alone where one of
/// its branches can be used under the wanted one.
pub proof fn law_usable_branch_settles_the_family(
    state: SyncStateView,
    family: SyncFamilyView,
    target: Seq<char>,
)
    requires
        sync_branch_of(family.branches, family.active_id) matches Some(active) && active.provider
            != target,
        any_usable(state, family.branches, target) == Ok::<bool, ErrorView>(true),
    ensures
        family_target(state, family, target) == Ok::<Option<TargetView>, ErrorView>(None),
{
}

/// A branch that was found has the id that was asked for.
pub proof fn lemma_sync_branch_id(branches: Seq<SyncBranchView>, id: Seq<char>)
    ensures
        sync_branch_of(branches, id) matches Some(branch) ==> branch.id == id,
    decreases branches.len(),
{
    if branches.len() > 0 {
        lemma_sync_branch_id(branches.drop_last(), id);
    }
}

/// A session can be used under a provider only where it has a threads row in use that names the
/// provider and a source that Desktop lists and records where its rollout is, an entry in the
/// index, and a rollout that is there, where the row says, and states the session and the provider.
/// Where all of that holds it can be used.
pub proof fn law_when_a_session_is_usable(
    states: Seq<ThreadStateView>,
    index_ids: Seq<Seq<char>>,
    id: Seq<char>,
    expected: Seq<char>,
    facts: RolloutFactsView,
)
    ensures
        session_usable(states, index_ids, id, expected, facts) == Ok::<bool, ErrorView>(true)
            <==> {
            &&& last_found(states, state_of(id)) matches Some(row) && !row.archived
                && row.model_provider == Some(expected) && (row.source == Some("cli"@)
                || row.source == Some("vscode"@)) && row.rollout_path is Some
            &&& index_ids.contains(id)
            &&& facts.is_file
            &&& facts.recorded_matches == Ok::<bool, ErrorView>(true)
            &&& facts.identity matches Ok(Some(identity)) && identity.id == id
                && identity.model_provider == expected
        },
{
}

/// A session whose threads row is archived can be used under no provider, and nothing stands in the
/// way of telling so.
pub proof fn law_archived_sessions_are_not_usable(
    states: Seq<ThreadStateView>,
    index_ids: Seq<Seq<char>>,
    id: Seq<char>,
    expected: Seq<char>,
    facts: RolloutFactsView,
)
    requires
        last_found(states, state_of(id)) matches Some(row) && row.archived,
    ensures
        session_usable(states, index_ids, id, expected, facts) == Ok::<bool, ErrorView>(false),
{
}

proof fn lemma_none_usable(
    state: SyncStateView,
    branches: Seq<SyncBranchView>,
    target: Seq<char>,
)
    requires
        forall|i: int|
            0 <= i < branches.len() && (#[trigger] branches[i]).provider == target
                ==> branch_usable(state, branches[i], target) == Ok::<bool, ErrorView>(false),
    ensures
        first_usable(state, branches, target) == Ok::<Option<SyncBranchView>, ErrorView>(None),
    decreases branches.len(),
{
    if branches.len() > 0 {
        let rest = branches.drop_last();
        assert forall|i: int|
            0 <= i < rest.len() && (#[trigger] rest[i]).provider == target implies branch_usable(
            state,
            rest[i],
            target,
        ) == Ok::<bool, ErrorView>(false) by {
            assert(rest[i] == branches[i]);
        }
        lemma_none_usable(state, rest, target);
        assert(branches[branches.len() - 1] == branches.last());
    }
}

/// A family whose active branch belongs to another provider, has a rollout and is neither archived
/// nor a sub-agent has to be brought to the wanted provider, with that rollout, where every branch
/// of the wanted provider lies outside the active sessions, has no threads row or an archived one,
/// is not in the index or has no rollout, and the active branch itself can be judged.
pub proof fn law_families_without_a_usable_branch_are_targets(
    state: SyncStateView,
    family: SyncFamilyView,
    active: SyncBranchView,
    target: Seq<char>,
)
    requires
        sync_branch_of(family.branches, family.active_id) == Some(active),
        active.provider != target,
        active.status == BranchStatus::Active,
        last_found(state.rollouts, path_of(family.active_id)) is Some,
        last_found(state.thread_states, state_of(family.active_id)) matches Some(row)
            ==> !row.archived && !source_is_subagent(row.source),
        branch_usable(state, active, active.provider) is Ok,
        forall|i: int|
            0 <= i < family.branches.len() && (#[trigger] family.branches[i]).provider == target
                ==> (family.branches[i].in_sessions is Ok && (family.branches[i].in_sessions == Ok::<
                bool,
                ErrorView,
            >(false) || last_found(state.thread_states, state_of(family.branches[i].id)) is None
                || last_found(
                state.thread_states,
                state_of(family.branches[i].id),
            )->Some_0.archived || !state.session_index_ids.contains(family.branches[i].id)
                || !family.branches[i].facts.is_file)),
    ensures
        family_target(state, family, target) == Ok::<Option<TargetView>, ErrorView>(
            Some(
                TargetView {
                    session_id: family.active_id,
                    rollout_path: last_found(
                        state.rollouts,
                        path_of(family.active_id),
                    )->Some_0,
                },
            ),
        ),
{
    lemma_sync_branch_id(family.branches, family.active_id);
    lemma_none_usable(state, family.branches, target);
}

/// A family whose active branch belongs to the wanted provider has to be brought in order just where
/// that branch, which is in use and has a rollout, cannot be used there.
pub proof fn law_families_at_home_are_targets_where_they_drifted(
    state: SyncStateView,
    family: SyncFamilyView,
    active: SyncBranchView,
    target: Seq<char>,
)
    requires
        sync_branch_of(family.branches, family.active_id) == Some(active),
        active.provider == target,
        active.status == BranchStatus::Active,
        last_found(state.rollouts, path_of(family.active_id)) is Some,
        last_found(state.thread_states, state_of(family.active_id)) matches Some(row)
            ==> !row.archived && !source_is_subagent(row.source),
        any_usable(state, family.branches, target) is Ok,
    ensures
        match branch_usable(state, active, target) {
            Ok(true) => family_target(state, family, target) == Ok::<Option<TargetView>, ErrorView>(
                None,
            ),
            Ok(false) => family_target(state, family, target) matches Ok(Some(found))
                && found.session_id == family.active_id,
            Err(error) => family_target(state, family, target) == Err::<
                Option<TargetView>,
                ErrorView,
            >(error),
        },
{
    lemma_sync_branch_id(family.branches, family.active_id);
}

/// A family has a session to be brought to a provider only where its active branch is in use, has
/// a rollout, and is neither archived nor a sub-agent; it is that session.
pub proof fn law_only_heads_in_use_are_targets(
    state: SyncStateView,
    family: SyncFamilyView,
    target: Seq<char>,
)
    ensures
        family_target(state, family, target) matches Ok(Some(found)) ==> {
            &&& found.session_id == family.active_id
            &&& sync_branch_of(family.branches, family.active_id) matches Some(active)
                && active.status == BranchStatus::Active
            &&& last_found(state.rollouts, path_of(family.active_id)) == Some(found.rollout_path)
            &&& last_found(state.thread_states, state_of(family.active_id)) matches Some(row)
                ==> !row.archived && !source_is_subagent(row.source)
        },
{
    lemma_sync_branch_id(family.branches, family.active_id);
}

/// A rollout outside all families has to be brought to a provider just where it is no sub-agent and
/// either belongs to another provider or cannot be used under its own.
pub proof fn law_when_a_loose_rollout_is_a_target(
    state: SyncStateView,
    rollout: ActiveRolloutView,
    target: Seq<char>,
)
    ensures
        rollout_target(state, rollout, target) matches Ok(Some(found)) ==> found.session_id
            == rollout.identity.id && found.rollout_path == rollout.path,
        rollout_target(state, rollout, target) matches Ok(Some(_)) <==> {
            let usable = session_usable(
                state.thread_states,
                state.session_index_ids,
                rollout.identity.id,
                rollout.identity.model_provider,
                rollout.facts,
            );
            &&& !is_managed(state, rollout.identity.id)
            &&& !source_is_subagent(rollout.identity.source)
            &&& usable is Ok
            &&& rollout.identity.model_provider != target || usable == Ok::<bool, ErrorView>(false)
        },
{
}

} // verus!
