//! What provider sync plans after sessions were brought to a provider: neither the session that
//! was brought there nor the one that takes its place.

use vstd::prelude::*;

use crate::effects::{
    law_fork_replaces_the_session, law_rewrite_keeps_the_session, law_switch_replaces_the_session,
    new_state, payload_of, rebranded_state, row_for, state_ids, BranchState, FamilyState,
    PlacesView, SessionsView,
};
use crate::error::ErrorView;
use crate::json::JsonView;
use crate::official_fork::{entry_plan, fork_usable, naming_plan};
use crate::provider_sync::{
    any_usable, branch_usable, family_target, family_targets, first_usable, is_managed,
    lemma_sync_branch_id, mismatched, rollout_target, session_usable, state_of, sync_branch_of,
    targets_session, targets_through, RolloutFactsView, SyncBranchView, SyncFamilyView,
    SyncStateView,
};
use crate::rollout::{
    lemma_identity_of_payload, line_identities, source_is_subagent, source_is_visible,
    states_session, visible_source, BriefView, IdentityView,
};
use crate::seqs::{first_found, last_found};
use crate::steps::AssignmentView;
use crate::switch::{
    chosen_provider, switch_decision, DecisionView, SwitchFactsView, SwitchRequestView,
};
use crate::switch_steps::{copy_rest, copy_start, follow_plan, MoveView, NewSessionView};
use crate::text::trimmed;

verus! {

// ---------------------------------------------------------------------------
// What provider sync reads of the sessions
// ---------------------------------------------------------------------------

/// Whether what was learned of a rollout is so: it can be read where it is there, and the path
/// that the row of its session records leads to it.
pub open spec fn facts_show(
    facts: RolloutFactsView,
    sessions: SessionsView,
    id: Seq<char>,
    path: Seq<char>,
) -> bool {
    &&& facts.is_file == sessions.rollouts.contains_key(path)
    &&& facts.is_file ==> facts.recorded_matches is Ok && facts.identity == Ok::<
        Option<IdentityView>,
        ErrorView,
    >(first_found(sessions.rollouts[path], line_identities()))
    &&& facts.is_file && sessions.rows.contains_key(id) && sessions.rows[id].path == path
        ==> facts.recorded_matches == Ok::<bool, ErrorView>(true)
}

/// Whether what provider sync reads of a branch is so.
pub open spec fn branch_shows(
    shown: SyncBranchView,
    sessions: SessionsView,
    places: PlacesView,
    branch: BranchState,
) -> bool {
    let path = (places.root)(branch.relpath);
    &&& shown.id == branch.id
    &&& shown.provider == branch.provider
    &&& shown.status == branch.status
    &&& shown.in_sessions == Ok::<bool, ErrorView>((places.among)(path))
    &&& facts_show(shown.facts, sessions, branch.id, path)
}

/// Whether what provider sync reads of a family is so.
pub open spec fn family_shows(
    shown: SyncFamilyView,
    sessions: SessionsView,
    places: PlacesView,
    family: FamilyState,
) -> bool {
    &&& shown.active_id == family.active_id
    &&& shown.branches.len() == family.chain.len()
    &&& forall|i: int|
        0 <= i < family.chain.len() ==> branch_shows(
            #[trigger] shown.branches[i],
            sessions,
            places,
            family.chain[i],
        )
}

/// Whether the row that is found of a session is the one that it has.
pub open spec fn row_shows(state: SyncStateView, sessions: SessionsView, id: Seq<char>) -> bool {
    match last_found(state.thread_states, state_of(id)) {
        Some(row) => {
            &&& sessions.rows.contains_key(id)
            &&& row.archived == sessions.rows[id].archived
            &&& row.rollout_path == Some(sessions.rows[id].path)
            &&& row.source == Some(sessions.rows[id].source)
            &&& sessions.rows[id].provider is Some ==> row.model_provider
                == sessions.rows[id].provider
        },
        None => !sessions.rows.contains_key(id),
    }
}

/// Whether all that provider sync reads is so; `keys` are the families in the order in which they
/// are read.
pub open spec fn state_shows(
    state: SyncStateView,
    sessions: SessionsView,
    places: PlacesView,
    keys: Seq<Seq<char>>,
) -> bool {
    &&& state.families.len() == keys.len()
    &&& keys.no_duplicates()
    &&& forall|key: Seq<char>| sessions.families.contains_key(key) <==> #[trigger] keys.contains(key)
    &&& forall|k: int|
        0 <= k < keys.len() ==> family_shows(
            #[trigger] state.families[k],
            sessions,
            places,
            sessions.families[keys[k]],
        )
    &&& forall|id: Seq<char>| #[trigger] row_shows(state, sessions, id)
    &&& forall|id: Seq<char>|
        #[trigger] state.session_index_ids.contains(id) <==> sessions.listed.contains(id)
    &&& forall|k: int|
        0 <= k < state.rollouts.len() ==> facts_show(
            (#[trigger] state.rollouts[k]).facts,
            sessions,
            state.rollouts[k].identity.id,
            state.rollouts[k].path,
        )
}

// ---------------------------------------------------------------------------
// Which sessions are left alone
// ---------------------------------------------------------------------------

/// Whether no family has a session as the one to be brought to a provider.
pub open spec fn no_family_targets(state: SyncStateView, target: Seq<char>, id: Seq<char>) -> bool {
    forall|j: int|
        0 <= j < state.families.len() ==> (family_target(
            state,
            #[trigger] state.families[j],
            target,
        ) matches Ok(Some(found)) ==> found.session_id != id)
}

proof fn lemma_not_targeted_by_families(
    state: SyncStateView,
    count: int,
    target: Seq<char>,
    id: Seq<char>,
)
    requires
        count <= state.families.len(),
        no_family_targets(state, target, id),
    ensures
        family_targets(state, count, target) matches Ok(targets) ==> !targets_session(targets, id),
    decreases count,
{
    if count > 0 {
        lemma_not_targeted_by_families(state, count - 1, target, id);
        assert(family_target(state, state.families[count - 1], target) matches Ok(Some(found))
            ==> found.session_id != id);
    }
}

proof fn lemma_not_targeted(state: SyncStateView, count: int, target: Seq<char>, id: Seq<char>)
    requires
        count <= state.rollouts.len(),
        is_managed(state, id),
        no_family_targets(state, target, id),
    ensures
        targets_through(state, count, target) matches Ok(targets) ==> !targets_session(
            targets,
            id,
        ),
    decreases count,
{
    if count > 0 {
        lemma_not_targeted(state, count - 1, target, id);
        assert(rollout_target(state, state.rollouts[count - 1], target) matches Ok(Some(found))
            ==> found.session_id != id);
    } else {
        lemma_not_targeted_by_families(state, state.families.len() as int, target, id);
    }
}

proof fn lemma_usable_is_found(
    state: SyncStateView,
    branches: Seq<SyncBranchView>,
    target: Seq<char>,
    at: int,
)
    requires
        0 <= at < branches.len(),
        branches[at].provider == target,
        branch_usable(state, branches[at], target) == Ok::<bool, ErrorView>(true),
    ensures
        any_usable(state, branches, target) != Ok::<bool, ErrorView>(false),
    decreases branches.len(),
{
    if at < branches.len() - 1 {
        lemma_usable_is_found(state, branches.drop_last(), target, at);
    }
}

proof fn lemma_branch_at(branches: Seq<SyncBranchView>, at: int)
    requires
        0 <= at < branches.len(),
        forall|i: int| 0 <= i < at ==> (#[trigger] branches[i]).id != branches[at].id,
    ensures
        sync_branch_of(branches, branches[at].id) == Some(branches[at]),
    decreases branches.len(),
{
    let rest = branches.drop_last();
    if at < rest.len() {
        lemma_branch_at(rest, at);
    } else {
        lemma_no_branch(rest, branches[at].id);
    }
}

proof fn lemma_no_branch(branches: Seq<SyncBranchView>, id: Seq<char>)
    requires
        forall|i: int| 0 <= i < branches.len() ==> (#[trigger] branches[i]).id != id,
    ensures
        sync_branch_of(branches, id) is None,
    decreases branches.len(),
{
    if branches.len() > 0 {
        lemma_no_branch(branches.drop_last(), id);
        assert(branches[branches.len() - 1].id != id);
    }
}

/// A family of which no session has to be brought to a provider keeps all its sessions out of the
/// plan for that provider, unless another family has one as its active session.
pub proof fn law_settled_families_are_not_planned(
    state: SyncStateView,
    k: int,
    member: int,
    provider: Seq<char>,
)
    requires
        0 <= k < state.families.len(),
        0 <= member < state.families[k].branches.len(),
        !(family_target(state, state.families[k], provider) matches Ok(Some(_))),
        forall|j: int|
            0 <= j < state.families.len() && j != k ==> (#[trigger] state.families[j]).active_id
                != state.families[k].branches[member].id,
    ensures
        mismatched(state, provider) matches Ok(targets) ==> !targets_session(
            targets,
            state.families[k].branches[member].id,
        ),
{
    let id = state.families[k].branches[member].id;
    assert(is_managed(state, id));
    assert forall|j: int| 0 <= j < state.families.len() implies (family_target(
        state,
        #[trigger] state.families[j],
        provider,
    ) matches Ok(Some(found)) ==> found.session_id != id) by {
        lemma_sync_branch_id(state.families[j].branches, state.families[j].active_id);
    }
    lemma_not_targeted(state, state.rollouts.len() as int, provider, id);
}

// ---------------------------------------------------------------------------
// A plan can be made of what can be read
// ---------------------------------------------------------------------------

proof fn lemma_shown_branches_are_judged(
    state: SyncStateView,
    sessions: SessionsView,
    places: PlacesView,
    shown: SyncFamilyView,
    family: FamilyState,
    count: int,
    target: Seq<char>,
)
    requires
        family_shows(shown, sessions, places, family),
        0 <= count <= shown.branches.len(),
    ensures
        first_usable(state, shown.branches.take(count), target) is Ok,
    decreases count,
{
    if count > 0 {
        lemma_shown_branches_are_judged(
            state,
            sessions,
            places,
            shown,
            family,
            count - 1,
            target,
        );
        assert(shown.branches.take(count).drop_last() =~= shown.branches.take(count - 1));
        assert(shown.branches.take(count).last() == shown.branches[count - 1]);
    }
}

proof fn lemma_found_branch(branches: Seq<SyncBranchView>, id: Seq<char>)
    ensures
        sync_branch_of(branches, id) matches Some(branch) ==> exists|i: int|
            0 <= i < branches.len() && #[trigger] branches[i] == branch,
    decreases branches.len(),
{
    if branches.len() > 0 {
        lemma_found_branch(branches.drop_last(), id);
        if let Some(branch) = sync_branch_of(branches.drop_last(), id) {
            let i = choose|i: int|
                0 <= i < branches.drop_last().len() && #[trigger] branches.drop_last()[i] == branch;
            assert(branches[i] == branch);
        } else {
            assert(branches[branches.len() - 1] == branches.last());
        }
    }
}

proof fn lemma_family_is_judged(
    state: SyncStateView,
    sessions: SessionsView,
    places: PlacesView,
    shown: SyncFamilyView,
    family: FamilyState,
    target: Seq<char>,
)
    requires
        family_shows(shown, sessions, places, family),
    ensures
        family_target(state, shown, target) is Ok,
{
    lemma_shown_branches_are_judged(
        state,
        sessions,
        places,
        shown,
        family,
        shown.branches.len() as int,
        target,
    );
    assert(shown.branches.take(shown.branches.len() as int) =~= shown.branches);
    lemma_found_branch(shown.branches, shown.active_id);
}

proof fn lemma_families_are_judged(
    state: SyncStateView,
    sessions: SessionsView,
    places: PlacesView,
    keys: Seq<Seq<char>>,
    count: int,
    target: Seq<char>,
)
    requires
        state_shows(state, sessions, places, keys),
        count <= state.families.len(),
    ensures
        family_targets(state, count, target) is Ok,
    decreases count,
{
    if count > 0 {
        lemma_families_are_judged(state, sessions, places, keys, count - 1, target);
        lemma_family_is_judged(
            state,
            sessions,
            places,
            state.families[count - 1],
            sessions.families[keys[count - 1]],
            target,
        );
    }
}

proof fn lemma_rollouts_are_judged(
    state: SyncStateView,
    sessions: SessionsView,
    places: PlacesView,
    keys: Seq<Seq<char>>,
    count: int,
    target: Seq<char>,
)
    requires
        state_shows(state, sessions, places, keys),
        count <= state.rollouts.len(),
    ensures
        targets_through(state, count, target) is Ok,
    decreases count,
{
    if count > 0 {
        lemma_rollouts_are_judged(state, sessions, places, keys, count - 1, target);
        assert(facts_show(
            state.rollouts[count - 1].facts,
            sessions,
            state.rollouts[count - 1].identity.id,
            state.rollouts[count - 1].path,
        ));
        assert(rollout_target(state, state.rollouts[count - 1], target) is Ok);
    } else {
        lemma_families_are_judged(
            state,
            sessions,
            places,
            keys,
            state.families.len() as int,
            target,
        );
    }
}

/// Where all that provider sync reads can be read, there is a plan.
pub proof fn law_readable_sessions_have_a_plan(
    state: SyncStateView,
    sessions: SessionsView,
    places: PlacesView,
    keys: Seq<Seq<char>>,
    target: Seq<char>,
)
    requires
        state_shows(state, sessions, places, keys),
    ensures
        mismatched(state, target) is Ok,
{
    lemma_rollouts_are_judged(
        state,
        sessions,
        places,
        keys,
        state.rollouts.len() as int,
        target,
    );
}

// ---------------------------------------------------------------------------
// After a switch
// ---------------------------------------------------------------------------

proof fn lemma_source_is_listed_or_subagent(payload: JsonView)
    ensures
        source_is_visible(Some(visible_source(payload))) || source_is_subagent(
            Some(visible_source(payload)),
        ),
{
}

/// A family at rest: its active branch is the first of its session, belongs to the provider, and
/// has a rollout among the active sessions that states it, an entry in the index and the threads
/// row that is written for that rollout.
spec fn rests_at(
    sessions: SessionsView,
    places: PlacesView,
    family: FamilyState,
    at: int,
    provider: Seq<char>,
) -> bool {
    let branch = family.chain[at];
    let path = (places.root)(branch.relpath);
    &&& 0 <= at < family.chain.len()
    &&& forall|i: int| 0 <= i < at ==> (#[trigger] family.chain[i]).id != branch.id
    &&& family.active_id == branch.id
    &&& branch.provider == provider
    &&& (places.among)(path)
    &&& sessions.rollouts.contains_key(path)
    &&& states_session(sessions.rollouts[path], branch.id, provider)
    &&& sessions.listed.contains(branch.id)
    &&& sessions.rows.contains_key(branch.id)
    &&& sessions.rows[branch.id] == row_for(payload_of(sessions.rollouts[path]), path)
}

proof fn lemma_resting_family_is_settled(
    state: SyncStateView,
    sessions: SessionsView,
    places: PlacesView,
    keys: Seq<Seq<char>>,
    k: int,
    at: int,
    provider: Seq<char>,
)
    requires
        state_shows(state, sessions, places, keys),
        0 <= k < keys.len(),
        rests_at(sessions, places, sessions.families[keys[k]], at, provider),
        trimmed(provider).len() > 0,
    ensures
        !(family_target(state, state.families[k], provider) matches Ok(Some(_))),
{
    let family = sessions.families[keys[k]];
    let shown = state.families[k];
    let branch = family.chain[at];
    let path = (places.root)(branch.relpath);
    let payload = payload_of(sessions.rollouts[path]);
    assert(family_shows(shown, sessions, places, family));
    assert(branch_shows(shown.branches[at], sessions, places, branch));
    assert forall|i: int| 0 <= i < at implies (#[trigger] shown.branches[i]).id
        != shown.branches[at].id by {
        assert(branch_shows(shown.branches[i], sessions, places, family.chain[i]));
    }
    lemma_branch_at(shown.branches, at);
    lemma_identity_of_payload(sessions.rollouts[path]);
    assert(row_shows(state, sessions, branch.id));
    assert(state.session_index_ids.contains(branch.id));
    lemma_source_is_listed_or_subagent(payload);
    assert(sessions.rows[branch.id].provider == Some(provider));
    if !source_is_subagent(Some(visible_source(payload))) {
        assert(branch_usable(state, shown.branches[at], provider) == Ok::<bool, ErrorView>(true));
        lemma_usable_is_found(state, shown.branches, provider, at);
    }
}

proof fn lemma_member_is_not_planned(
    state: SyncStateView,
    sessions: SessionsView,
    places: PlacesView,
    keys: Seq<Seq<char>>,
    k: int,
    provider: Seq<char>,
    id: Seq<char>,
)
    requires
        state_shows(state, sessions, places, keys),
        sessions.well_formed(),
        0 <= k < keys.len(),
        !(family_target(state, state.families[k], provider) matches Ok(Some(_))),
        sessions.has_branch(keys[k], id),
    ensures
        mismatched(state, provider) matches Ok(targets) && !targets_session(targets, id),
{
    law_readable_sessions_have_a_plan(state, sessions, places, keys, provider);
    let family = sessions.families[keys[k]];
    let member = choose|i: int| 0 <= i < family.chain.len() && state_ids(family.chain)[i] == id;
    assert(family_shows(state.families[k], sessions, places, family));
    assert(branch_shows(state.families[k].branches[member], sessions, places, family.chain[member]));
    assert(is_managed(state, state.families[k].branches[member].id));
    assert forall|j: int| 0 <= j < state.families.len() implies (family_target(
        state,
        #[trigger] state.families[j],
        provider,
    ) matches Ok(Some(found)) ==> found.session_id != id) by {
        let other = sessions.families[keys[j]];
        let shown = state.families[j];
        assert(family_shows(shown, sessions, places, other));
        lemma_sync_branch_id(shown.branches, shown.active_id);
        lemma_found_branch(shown.branches, shown.active_id);
        if j != k && sync_branch_of(shown.branches, shown.active_id) is Some && shown.active_id
            == id {
            let i = choose|i: int|
                0 <= i < shown.branches.len() && #[trigger] shown.branches[i] == sync_branch_of(
                    shown.branches,
                    shown.active_id,
                )->Some_0;
            assert(branch_shows(shown.branches[i], sessions, places, other.chain[i]));
            assert(state_ids(other.chain)[i] == id);
            assert(sessions.has_branch(keys[j], id));
            assert(keys.contains(keys[j]) && keys.contains(keys[k]));
        }
    }
    lemma_not_targeted(state, state.rollouts.len() as int, provider, id);
}

proof fn lemma_extended_families_stay_apart(
    before: SessionsView,
    after: SessionsView,
    family_id: Seq<char>,
    new_id: Seq<char>,
)
    requires
        before.well_formed(),
        before.is_new(new_id),
        before.families.contains_key(family_id),
        after.families.dom() == before.families.dom(),
        forall|key: Seq<char>|
            key != family_id && before.families.contains_key(key)
                ==> #[trigger] after.families[key] == before.families[key],
        state_ids(after.families[family_id].chain) == state_ids(
            before.families[family_id].chain,
        ).push(new_id),
    ensures
        after.well_formed(),
        after.has_branch(family_id, new_id),
        forall|id: Seq<char>| #[trigger]
            before.has_branch(family_id, id) ==> after.has_branch(family_id, id),
{
    let ids = state_ids(before.families[family_id].chain);
    let grown = state_ids(after.families[family_id].chain);
    assert(grown[ids.len() as int] == new_id);
    assert forall|id: Seq<char>| #[trigger] before.has_branch(family_id, id) implies after.has_branch(
        family_id,
        id,
    ) by {
        let i = choose|i: int| 0 <= i < ids.len() && ids[i] == id;
        assert(grown[i] == id);
    }
    assert forall|one: Seq<char>, other: Seq<char>, id: Seq<char>|
        after.families.contains_key(one) && after.families.contains_key(other)
            && #[trigger] after.has_branch(one, id) && #[trigger] after.has_branch(
            other,
            id,
        ) implies one == other by {
        assert forall|key: Seq<char>|
            after.families.contains_key(key) && #[trigger] after.has_branch(key, id) && id
                != new_id implies before.has_branch(key, id) by {
            if key == family_id {
                let i = choose|i: int| 0 <= i < grown.len() && grown[i] == id;
                assert(i < ids.len());
                assert(ids[i] == id);
            }
        }
        if id == new_id {
            assert(one != family_id ==> after.families[one] == before.families[one]);
            assert(other != family_id ==> after.families[other] == before.families[other]);
            assert(one != family_id ==> !before.has_branch(one, id));
            assert(other != family_id ==> !before.has_branch(other, id));
        } else {
            assert(before.has_branch(one, id) && before.has_branch(other, id));
        }
    }
}

/// Whether a copy of a session can be made: its family is there, the new session and its rollout
/// are not, its rollout will be among the active sessions, and a rollout that is put away is there
/// and leaves that place.
pub open spec fn copy_can_be_made(
    before: SessionsView,
    places: PlacesView,
    session: NewSessionView,
    family_id: Seq<char>,
    archive: Option<MoveView>,
) -> bool {
    &&& before.well_formed()
    &&& before.families.contains_key(family_id)
    &&& before.is_new(session.id)
    &&& (places.root)(session.relpath) == session.path
    &&& (places.among)(session.path)
    &&& !before.rollouts.contains_key(session.path)
    &&& archive matches Some(archive) ==> before.rollouts.contains_key(archive.from)
        && !(places.among)(archive.to) && before.has_branch(family_id, archive.branch_id)
}

/// After the steps of a switch by a copy, the plan for the provider holds neither the new session
/// nor any that its family had before, whether the rollout of the old one was put away or not.
pub proof fn law_switched_sessions_are_not_planned(
    before: SessionsView,
    places: PlacesView,
    session: NewSessionView,
    family_id: Seq<char>,
    source_path: Seq<char>,
    archive: Option<MoveView>,
    brief: Option<BriefView>,
    host_cwd: Seq<char>,
    thread_name: Seq<char>,
    deferred: bool,
    written: Seq<Seq<char>>,
    state: SyncStateView,
    keys: Seq<Seq<char>>,
    id: Seq<char>,
)
    requires
        copy_can_be_made(before, places, session, family_id, archive),
        before.has_branch(family_id, id),
        states_session(written, session.id, session.provider),
        trimmed(session.provider).len() > 0,
        copy_rest(session, family_id, archive, brief, host_cwd, thread_name, deferred) is Ok,
        state_shows(
            state,
            before.after_all(
                copy_start(source_path, session.path) + copy_rest(
                    session,
                    family_id,
                    archive,
                    brief,
                    host_cwd,
                    thread_name,
                    deferred,
                )->Ok_0,
                written,
            ),
            places,
            keys,
        ),
    ensures
        mismatched(state, session.provider) matches Ok(targets) && !targets_session(targets, id)
            && !targets_session(targets, session.id),
{
    law_switch_replaces_the_session(
        before,
        session,
        family_id,
        source_path,
        archive,
        brief,
        host_cwd,
        thread_name,
        deferred,
        written,
    );
    let after = before.after_all(
        copy_start(source_path, session.path) + copy_rest(
            session,
            family_id,
            archive,
            brief,
            host_cwd,
            thread_name,
            deferred,
        )->Ok_0,
        written,
    );
    let old = before.families[family_id].chain;
    let chain = after.families[family_id].chain;
    let at = old.len() as int;
    assert(chain.len() == at + 1 && chain[at] == new_state(session));
    assert(state_ids(chain) =~= state_ids(old).push(session.id));
    assert(after.families.dom() =~= before.families.dom());
    lemma_extended_families_stay_apart(before, after, family_id, session.id);
    assert forall|i: int| 0 <= i < at implies (#[trigger] chain[i]).id != session.id by {
        assert(state_ids(old)[i] == state_ids(chain)[i]);
        assert(!before.has_branch(family_id, session.id));
    }
    if archive is Some {
        assert(archive->Some_0.branch_id != session.id);
    }
    assert(keys.contains(family_id));
    let k = choose|k: int| 0 <= k < keys.len() && keys[k] == family_id;
    assert(rests_at(after, places, after.families[family_id], at, session.provider));
    lemma_resting_family_is_settled(state, after, places, keys, k, at, session.provider);
    lemma_member_is_not_planned(state, after, places, keys, k, session.provider, id);
    lemma_member_is_not_planned(state, after, places, keys, k, session.provider, session.id);
}

/// After the steps by which a session was rewritten for a provider, the plan for that provider
/// does not hold it.
pub proof fn law_rewritten_sessions_are_not_planned(
    before: SessionsView,
    places: PlacesView,
    source: BriefView,
    assignment: Option<AssignmentView>,
    family_id: Seq<char>,
    provider: Seq<char>,
    written: Seq<Seq<char>>,
    state: SyncStateView,
    keys: Seq<Seq<char>>,
)
    requires
        before.well_formed(),
        before.families.contains_key(family_id),
        before.families[family_id].active_id == source.id,
        state_ids(before.families[family_id].chain).index_of_first(source.id) matches Some(at)
            && (places.root)(before.families[family_id].chain[at].relpath) == source.path,
        (places.among)(source.path),
        states_session(written, source.id, provider),
        trimmed(provider).len() > 0,
        state_shows(
            state,
            before.after_all(follow_plan(source, assignment, family_id, provider), written),
            places,
            keys,
        ),
    ensures
        mismatched(state, provider) matches Ok(targets) && !targets_session(targets, source.id),
{
    law_rewrite_keeps_the_session(before, source, assignment, family_id, provider, written);
    let after = before.after_all(follow_plan(source, assignment, family_id, provider), written);
    let old = before.families[family_id];
    let family = after.families[family_id];
    let ids = state_ids(old.chain);
    ids.index_of_first_ensures(source.id);
    let at = ids.index_of_first(source.id)->Some_0;
    assert(family == rebranded_state(old, provider));
    assert(state_ids(family.chain) =~= ids);
    assert forall|i: int| 0 <= i < at implies (#[trigger] family.chain[i]).id != source.id by {
        assert(ids[i] == old.chain[i].id);
        assert(ids[i] != source.id);
    }
    assert(family.chain[at].id == source.id) by {
        assert(ids[at] == source.id);
    }
    assert(after.well_formed()) by {
        assert forall|one: Seq<char>, other: Seq<char>, id: Seq<char>|
            after.families.contains_key(one) && after.families.contains_key(other)
                && #[trigger] after.has_branch(one, id) && #[trigger] after.has_branch(
                other,
                id,
            ) implies one == other by {
            assert(before.has_branch(one, id) && before.has_branch(other, id));
        }
    }
    assert(keys.contains(family_id));
    let k = choose|k: int| 0 <= k < keys.len() && keys[k] == family_id;
    assert(rests_at(after, places, family, at, provider));
    lemma_resting_family_is_settled(state, after, places, keys, k, at, provider);
    assert(state_ids(family.chain)[at] == source.id);
    assert(after.has_branch(family_id, source.id));
    lemma_member_is_not_planned(state, after, places, keys, k, provider, source.id);
}

/// After a fork that Codex made was entered and found to be usable, the plan for the provider
/// holds neither the fork nor any session that the family had before.
pub proof fn law_forked_sessions_are_not_planned(
    before: SessionsView,
    places: PlacesView,
    session: NewSessionView,
    session_id: Seq<char>,
    family_id: Seq<char>,
    brief: BriefView,
    host_cwd: Seq<char>,
    deferred: bool,
    display: Option<Seq<char>>,
    first_message: Seq<char>,
    state: SyncStateView,
    keys: Seq<Seq<char>>,
    k: int,
    id: Seq<char>,
)
    requires
        before.well_formed(),
        before.families.contains_key(family_id),
        before.is_new(session.id),
        before.has_branch(family_id, id),
        (places.root)(session.relpath) == session.path,
        (places.among)(session.path),
        0 <= k < keys.len(),
        keys[k] == family_id,
        state_shows(
            state,
            before.after_all(
                entry_plan(session, session_id, family_id, brief, host_cwd, deferred).0
                    + entry_plan(session, session_id, family_id, brief, host_cwd, deferred).1
                    + naming_plan(session.id, display, first_message),
                Seq::empty(),
            ),
            places,
            keys,
        ),
        fork_usable(
            session.id,
            session_usable(
                state.thread_states,
                state.session_index_ids,
                session.id,
                session.provider,
                state.families[k].branches.last().facts,
            ),
        ) is Ok,
    ensures
        mismatched(state, session.provider) matches Ok(targets) && !targets_session(targets, id)
            && !targets_session(targets, session.id),
{
    law_fork_replaces_the_session(
        before,
        session,
        session_id,
        family_id,
        brief,
        host_cwd,
        deferred,
        display,
        first_message,
        Seq::empty(),
    );
    let after = before.after_all(
        entry_plan(session, session_id, family_id, brief, host_cwd, deferred).0 + entry_plan(
            session,
            session_id,
            family_id,
            brief,
            host_cwd,
            deferred,
        ).1 + naming_plan(session.id, display, first_message),
        Seq::empty(),
    );
    let old = before.families[family_id].chain;
    let family = after.families[family_id];
    let at = old.len() as int;
    assert(family.chain.len() == at + 1 && family.chain[at] == new_state(session));
    assert(state_ids(family.chain) =~= state_ids(old).push(session.id));
    assert(after.families.dom() =~= before.families.dom());
    lemma_extended_families_stay_apart(before, after, family_id, session.id);
    let shown = state.families[k];
    assert(family_shows(shown, after, places, family));
    assert(branch_shows(shown.branches[at], after, places, family.chain[at]));
    assert forall|i: int| 0 <= i < at implies (#[trigger] shown.branches[i]).id
        != shown.branches[at].id by {
        assert(branch_shows(shown.branches[i], after, places, family.chain[i]));
        assert(state_ids(old)[i] == state_ids(family.chain)[i]);
        assert(!before.has_branch(family_id, session.id));
    }
    lemma_branch_at(shown.branches, at);
    assert(branch_usable(state, shown.branches[at], session.provider) == Ok::<bool, ErrorView>(
        true,
    ));
    lemma_usable_is_found(state, shown.branches, session.provider, at);
    lemma_member_is_not_planned(state, after, places, keys, k, session.provider, id);
    lemma_member_is_not_planned(state, after, places, keys, k, session.provider, session.id);
}

/// Where a switch finds a branch that serves the provider already, the plan for that provider
/// holds no session of the family, given that its branches, the threads and the index are those
/// that the switch looked at.
pub proof fn law_served_sessions_are_not_planned(
    request: SwitchRequestView,
    facts: SwitchFactsView,
    provider: Seq<char>,
    state: SyncStateView,
    k: int,
    member: int,
)
    requires
        chosen_provider(request.target_provider, facts.configured) == Ok::<Seq<char>, ErrorView>(
            provider,
        ),
        switch_decision(request, facts) matches Ok(DecisionView::UseExisting { .. }),
        0 <= k < state.families.len(),
        facts.family == Some(state.families[k]),
        facts.state matches Ok(seen) && seen.thread_states == state.thread_states
            && seen.session_index_ids == state.session_index_ids,
        0 <= member < state.families[k].branches.len(),
        forall|j: int|
            0 <= j < state.families.len() && j != k ==> (#[trigger] state.families[j]).active_id
                != state.families[k].branches[member].id,
    ensures
        mismatched(state, provider) matches Ok(targets) ==> !targets_session(
            targets,
            state.families[k].branches[member].id,
        ),
{
    let seen = facts.state->Ok_0;
    lemma_same_rows_same_verdict(seen, state, state.families[k].branches, provider);
    law_settled_families_are_not_planned(state, k, member, provider);
}

proof fn lemma_same_rows_same_verdict(
    seen: SyncStateView,
    state: SyncStateView,
    branches: Seq<SyncBranchView>,
    target: Seq<char>,
)
    requires
        seen.thread_states == state.thread_states,
        seen.session_index_ids == state.session_index_ids,
    ensures
        first_usable(seen, branches, target) == first_usable(state, branches, target),
    decreases branches.len(),
{
    if branches.len() > 0 {
        lemma_same_rows_same_verdict(seen, state, branches.drop_last(), target);
    }
}

} // verus!
