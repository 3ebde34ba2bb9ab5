//! Going back to a session after it gave way to a copy.

use vstd::prelude::*;

use crate::effects::{
    activated_states, archived_states, family_state, law_rollback_puts_away,
    law_switch_replaces_the_session, lemma_after_both, lemma_assignment_effect,
    lemma_entered_again, lemma_restored, state_ids, PlacesView, SessionsView,
};
use crate::branch_sync::{body_of, relation};
use crate::error::ErrorView;
use crate::lineage::law_clone_is_not_ahead;
use crate::model::{
    branch_ids, branch_of, family_under, lemma_position_of, ArchiveOrigin, BranchStatus, FamilyView,
    StoreView,
};
use crate::outcomes::{
    law_copy_becomes_the_active_branch, law_copy_leaves_the_new_session,
    law_rollback_changes_the_active_branch, law_rollback_swaps_two_sessions,
};
use crate::rollback::{
    law_what_a_rollback_does, law_when_a_rollback_is_allowed, reenter_plan, restore_plan, retire_plan, rollback_plan, rollback_verdict, RollbackFactsView,
    RollbackView,
};
use crate::rollout::{states_session, BriefView};
use crate::rollout_copy::{cloned_lines, CopyIdentityView};
use crate::settled::copy_can_be_made;
use crate::steps::{assignment_steps, AssignmentView};
use crate::switch_steps::{copy_rest, copy_start, MoveView, NewSessionView};

verus! {

/// Whether what is looked at for a rollback is so, given where the rollouts of the active branch
/// and of the target belong: what is there and where it would be archived, and the lines.
pub open spec fn rollback_shows(
    facts: RollbackFactsView,
    sessions: SessionsView,
    places: PlacesView,
    current_id: Seq<char>,
    here: Seq<char>,
    there: Seq<char>,
) -> bool {
    let rollouts = sessions.rollouts;
    let source = if rollouts.contains_key(there) {
        there
    } else {
        (places.archived)(there)
    };
    &&& facts.current.place == Ok::<Seq<char>, ErrorView>(here)
    &&& facts.current.is_file == rollouts.contains_key(here)
    &&& facts.current.thread_row is Ok <==> sessions.rows.contains_key(current_id)
    &&& facts.current.destination == (places.archived)(here)
    &&& facts.current.occupied == rollouts.contains_key((places.archived)(here))
    &&& facts.target.place == Ok::<Seq<char>, ErrorView>(there)
    &&& facts.target.is_file == rollouts.contains_key(there)
    &&& facts.target.exists == rollouts.contains_key(there)
    &&& facts.target.archived_path == (places.archived)(there)
    &&& facts.target.archived_exists == rollouts.contains_key((places.archived)(there))
    &&& facts.target.archived_is_file == rollouts.contains_key((places.archived)(there))
    &&& rollouts.contains_key(here) ==> facts.current_lines == Ok::<Seq<Seq<char>>, ErrorView>(
        rollouts[here],
    )
    &&& rollouts.contains_key(source) ==> facts.target_lines == Ok::<Seq<Seq<char>>, ErrorView>(
        rollouts[source],
    )
}

/// Whether sessions are as they were before a copy of one was made, but that the copy is archived
/// by hand: the old session is the active branch, not archived for any reason, its rollout is
/// where it was, its row and the index have it, and the ledger does not. All other rollouts are
/// untouched.
pub open spec fn is_restored(
    before: SessionsView,
    after: SessionsView,
    family_id: Seq<char>,
    archive: MoveView,
    session: NewSessionView,
    away: Seq<char>,
    written: Seq<Seq<char>>,
) -> bool {
    let id = archive.branch_id;
    let chain = after.families[family_id].chain;
    &&& after.rollouts == before.rollouts.insert(away, written)
    &&& after.families[family_id].active_id == id
    &&& state_ids(chain) == state_ids(before.families[family_id].chain).push(session.id)
    &&& forall|i: int|
        0 <= i < chain.len() && (#[trigger] chain[i]).id == id ==> chain[i].status
            == BranchStatus::Active && chain[i].origin is None
    &&& forall|i: int|
        0 <= i < chain.len() && (#[trigger] chain[i]).id == session.id ==> chain[i].status
            == BranchStatus::Archived
    &&& after.rows.contains_key(id) && !after.rows[id].archived && after.rows[id].path
        == archive.from
    &&& after.rows.contains_key(session.id) && after.rows[session.id].archived
        && after.rows[session.id].path == away
    &&& after.listed.contains(id) && !after.listed.contains(session.id)
    &&& !after.ledger.contains_key(id)
    &&& after.ledger.contains_key(session.id) && after.ledger[session.id] == (
        ArchiveOrigin::Manual,
        away,
    )
}

proof fn lemma_branch_is_there(family: FamilyView, id: Seq<char>)
    requires
        state_ids(family_state(family).chain).contains(id),
    ensures
        branch_of(family.chain, id) matches Some(branch) && branch.id == id,
{
    let ids = state_ids(family_state(family).chain);
    lemma_position_of(family.chain, id);
    let i = choose|i: int| 0 <= i < ids.len() && ids[i] == id;
    assert(family.chain[i].id == id);
}

proof fn lemma_rollback_is_allowed(
    store: StoreView,
    family_id: Seq<char>,
    target_id: Seq<char>,
    facts: RollbackFactsView,
    lines: Seq<Seq<char>>,
    copy: CopyIdentityView,
)
    requires
        facts.desktop is Ok,
        facts.state_db is Ok,
        family_under(store, family_id) matches Some(family) && family.active_id != target_id
            && state_ids(family_state(family).chain).contains(family.active_id) && state_ids(
            family_state(family).chain,
        ).contains(target_id),
        facts.current.place is Ok,
        facts.current.is_file,
        facts.current.thread_row is Ok,
        !facts.current.occupied,
        facts.target.place is Ok,
        !facts.target.is_file,
        !facts.target.exists,
        facts.target.archived_is_file,
        facts.target.brief matches Ok(Some(brief)) && brief.id == target_id,
        facts.target_lines == Ok::<Seq<Seq<char>>, ErrorView>(lines),
        cloned_lines(lines, copy) matches Ok((copied, _)) && facts.current_lines == Ok::<
            Seq<Seq<char>>,
            ErrorView,
        >(copied),
    ensures
        rollback_verdict(store, family_id, target_id, facts) == Ok::<RollbackView, ErrorView>(
            RollbackView {
                current: MoveView {
                    branch_id: family_under(store, family_id)->Some_0.active_id,
                    from: facts.current.place->Ok_0,
                    to: facts.current.destination,
                },
                target_path: facts.target.place->Ok_0,
                restore_from: Some(facts.target.archived_path),
                thread_name: facts.target.brief->Ok_0->Some_0.first_user_message,
            },
        ),
{
    let family = family_under(store, family_id)->Some_0;
    lemma_branch_is_there(family, family.active_id);
    lemma_branch_is_there(family, target_id);
    law_clone_is_not_ahead(lines, copy);
}

/// After a session was copied for a provider and its own rollout put away, a rollback to it is
/// carried out, where Desktop does not run and the databases can be had, and it restores the
/// session. The rollouts of both sessions go to different places when they are put away, and
/// nothing is there yet.
pub proof fn law_rollback_undoes_a_switch(
    before: SessionsView,
    places: PlacesView,
    session: NewSessionView,
    family_id: Seq<char>,
    archive: MoveView,
    copy: CopyIdentityView,
    brief: Option<BriefView>,
    host_cwd: Seq<char>,
    thread_name: Seq<char>,
    deferred: bool,
    written: Seq<Seq<char>>,
    store: StoreView,
    facts: RollbackFactsView,
    assignment: Option<AssignmentView>,
)
    requires
        places.well_formed(),
        copy_can_be_made(before, places, session, family_id, Some(archive)),
        (places.among)(archive.from),
        archive.to == (places.archived)(archive.from),
        (places.archived)(session.path) != archive.to,
        !before.rollouts.contains_key(archive.to),
        !before.rollouts.contains_key((places.archived)(session.path)),
        before.row_at(archive.from) matches Some((stated, _)) && stated == archive.branch_id,
        cloned_lines(before.rollouts[archive.from], copy) matches Ok((copied, _)) && copied
            == written,
        states_session(written, session.id, session.provider),
        copy_rest(session, family_id, Some(archive), brief, host_cwd, thread_name, deferred) is Ok,
        family_under(store, family_id) matches Some(family) && family_state(family)
            == before.after_all(
            copy_start(archive.from, session.path) + copy_rest(
                session,
                family_id,
                Some(archive),
                brief,
                host_cwd,
                thread_name,
                deferred,
            )->Ok_0,
            written,
        ).families[family_id],
        rollback_shows(
            facts,
            before.after_all(
                copy_start(archive.from, session.path) + copy_rest(
                    session,
                    family_id,
                    Some(archive),
                    brief,
                    host_cwd,
                    thread_name,
                    deferred,
                )->Ok_0,
                written,
            ),
            places,
            session.id,
            session.path,
            archive.from,
        ),
        facts.target.brief matches Ok(Some(told)) && told.id == archive.branch_id,
        facts.desktop is Ok,
        facts.state_db is Ok,
    ensures
        rollback_verdict(store, family_id, archive.branch_id, facts) matches Ok(plan)
            && is_restored(
            before,
            before.after_all(
                copy_start(archive.from, session.path) + copy_rest(
                    session,
                    family_id,
                    Some(archive),
                    brief,
                    host_cwd,
                    thread_name,
                    deferred,
                )->Ok_0,
                written,
            ).after_all(
                rollback_plan(plan, family_id, archive.branch_id, assignment),
                Seq::empty(),
            ),
            family_id,
            archive,
            session,
            (places.archived)(session.path),
            written,
        ),
{
    let nothing = Seq::<Seq<char>>::empty();
    let id = archive.branch_id;
    let away = (places.archived)(session.path);
    law_switch_replaces_the_session(
        before,
        session,
        family_id,
        archive.from,
        Some(archive),
        brief,
        host_cwd,
        thread_name,
        deferred,
        written,
    );
    let start = before.after_all(
        copy_start(archive.from, session.path) + copy_rest(
            session,
            family_id,
            Some(archive),
            brief,
            host_cwd,
            thread_name,
            deferred,
        )->Ok_0,
        written,
    );
    let old = before.families[family_id].chain;
    let chain = start.families[family_id].chain;
    assert(!before.has_branch(family_id, session.id));
    assert(id != session.id);
    assert(state_ids(chain) =~= state_ids(old).push(session.id));
    assert(state_ids(chain)[old.len() as int] == session.id);
    let i = choose|i: int| 0 <= i < old.len() && state_ids(old)[i] == id;
    assert(state_ids(chain)[i] == id);
    assert(start.rollouts[archive.to] == before.rollouts[archive.from]);
    assert(start.rollouts[session.path] == written);
    lemma_rollback_is_allowed(
        store,
        family_id,
        id,
        facts,
        before.rollouts[archive.from],
        copy,
    );
    let plan = rollback_verdict(store, family_id, id, facts)->Ok_0;
    assert(plan.current == (MoveView { branch_id: session.id, from: session.path, to: away }));
    let a = assignment_steps(assignment, true, false);
    let b = retire_plan(plan.current, family_id);
    let c = restore_plan(plan.target_path, plan.restore_from);
    let d = reenter_plan(family_id, id, plan.target_path, plan.thread_name);
    lemma_after_both(start, a + b + c, d, nothing);
    lemma_after_both(start, a + b, c, nothing);
    lemma_after_both(start, a, b, nothing);
    lemma_assignment_effect(start, assignment, true, false, nothing);
    let assigned = start.after_all(a, nothing);
    law_rollback_puts_away(assigned, plan.current, family_id, nothing);
    let retired = assigned.after_all(b, nothing);
    assert(retired.rollouts[archive.to] == before.rollouts[archive.from]);
    lemma_restored(retired, archive.from, archive.to, nothing);
    let restored = retired.after_all(c, nothing);
    assert(restored.rollouts =~= before.rollouts.insert(away, written));
    assert(restored.row_at(archive.from) == before.row_at(archive.from));
    lemma_entered_again(restored, family_id, id, archive.from, plan.thread_name, nothing);
    let after = restored.after_all(d, nothing);
    let last = after.families[family_id].chain;
    assert(last == activated_states(archived_states(chain, session.id, None), id));
    assert(state_ids(last) =~= state_ids(chain));
    assert forall|i: int|
        0 <= i < last.len() && (#[trigger] last[i]).id == session.id implies last[i].status
        == BranchStatus::Archived by {
        assert(archived_states(chain, session.id, None)[i].id == session.id);
    }
}

/// After a session was copied for a provider while its own rollout stayed where it is, a rollback to
/// it is carried out, where Desktop does not run and the databases can be had. The session is the
/// active branch again and no longer archived, with its rollout untouched and nothing restored from
/// the archive; the copy is put away as one that was archived by hand.
pub proof fn law_rollback_undoes_a_switch_in_place(
    before: SessionsView,
    places: PlacesView,
    session: NewSessionView,
    family_id: Seq<char>,
    id: Seq<char>,
    source_path: Seq<char>,
    copy: CopyIdentityView,
    brief: Option<BriefView>,
    host_cwd: Seq<char>,
    thread_name: Seq<char>,
    deferred: bool,
    written: Seq<Seq<char>>,
    store: StoreView,
    facts: RollbackFactsView,
    assignment: Option<AssignmentView>,
)
    requires
        places.well_formed(),
        copy_can_be_made(before, places, session, family_id, None),
        before.has_branch(family_id, id),
        before.rollouts.contains_key(source_path),
        (places.among)(source_path),
        !before.rollouts.contains_key((places.archived)(source_path)),
        !before.rollouts.contains_key((places.archived)(session.path)),
        before.row_at(source_path) matches Some((stated, _)) && stated == id,
        cloned_lines(before.rollouts[source_path], copy) matches Ok((copied, _)) && copied
            == written,
        states_session(written, session.id, session.provider),
        copy_rest(session, family_id, None, brief, host_cwd, thread_name, deferred) is Ok,
        family_under(store, family_id) matches Some(family) && family_state(family)
            == before.after_all(
            copy_start(source_path, session.path) + copy_rest(
                session,
                family_id,
                None,
                brief,
                host_cwd,
                thread_name,
                deferred,
            )->Ok_0,
            written,
        ).families[family_id],
        rollback_shows(
            facts,
            before.after_all(
                copy_start(source_path, session.path) + copy_rest(
                    session,
                    family_id,
                    None,
                    brief,
                    host_cwd,
                    thread_name,
                    deferred,
                )->Ok_0,
                written,
            ),
            places,
            session.id,
            session.path,
            source_path,
        ),
        facts.target.brief matches Ok(Some(told)) && told.id == id,
        facts.desktop is Ok,
        facts.state_db is Ok,
    ensures
        rollback_verdict(store, family_id, id, facts) matches Ok(plan) && {
            let start = before.after_all(
                copy_start(source_path, session.path) + copy_rest(
                    session,
                    family_id,
                    None,
                    brief,
                    host_cwd,
                    thread_name,
                    deferred,
                )->Ok_0,
                written,
            );
            let after = start.after_all(
                rollback_plan(plan, family_id, id, assignment),
                Seq::empty(),
            );
            let away = (places.archived)(session.path);
            &&& plan.target_path == source_path
            &&& plan.restore_from is None
            &&& after.rollouts == before.rollouts.insert(away, written)
            &&& after.families[family_id].active_id == id
            &&& !after.rows[id].archived && after.rows[id].path == source_path
            &&& after.rows[session.id].archived && after.rows[session.id].path == away
            &&& after.listed.contains(id) && !after.listed.contains(session.id)
            &&& !after.ledger.contains_key(id)
            &&& after.ledger[session.id] == (ArchiveOrigin::Manual, away)
            &&& forall|i: int|
                0 <= i < after.families[family_id].chain.len() && (
                #[trigger] after.families[family_id].chain[i]).id == id
                    ==> after.families[family_id].chain[i].status == BranchStatus::Active
                    && after.families[family_id].chain[i].origin is None
        },
{
    let nothing = Seq::<Seq<char>>::empty();
    let rest = copy_rest(
        session,
        family_id,
        None,
        brief,
        host_cwd,
        thread_name,
        deferred,
    )->Ok_0;
    let start = before.after_all(copy_start(source_path, session.path) + rest, written);
    law_copy_leaves_the_new_session(
        before,
        session,
        family_id,
        source_path,
        None,
        brief,
        host_cwd,
        thread_name,
        deferred,
        written,
    );
    law_copy_becomes_the_active_branch(
        before,
        session,
        family_id,
        source_path,
        None,
        brief,
        host_cwd,
        thread_name,
        deferred,
        written,
    );
    let family = family_under(store, family_id)->Some_0;
    let old = before.families[family_id].chain;
    let chain = start.families[family_id].chain;
    assert(!before.has_branch(family_id, session.id));
    assert(id != session.id);
    let i = choose|i: int| 0 <= i < old.len() && state_ids(old)[i] == id;
    assert(chain[i].id == id && chain[old.len() as int].id == session.id);
    assert forall|i: int| 0 <= i < chain.len() implies branch_ids(family.chain)[i]
        == chain[i].id by {
        assert(family_state(family).chain[i] == chain[i]);
    }
    assert(family_state(family).chain.len() == chain.len());
    assert(branch_ids(family.chain)[i] == id);
    assert(branch_ids(family.chain)[old.len() as int] == session.id);
    assert(start.rollouts.contains_key(source_path) && start.rollouts[source_path]
        == before.rollouts[source_path]);
    assert(!start.rollouts.contains_key((places.archived)(source_path)));
    assert(!start.rollouts.contains_key((places.archived)(session.path)));
    law_clone_is_not_ahead(before.rollouts[source_path], copy);
    law_when_a_rollback_is_allowed(store, family_id, id, facts);
    lemma_not_ahead(written, before.rollouts[source_path]);
    law_what_a_rollback_does(store, family_id, id, facts);
    let plan = rollback_verdict(store, family_id, id, facts)->Ok_0;
    law_rollback_swaps_two_sessions(start, plan, family_id, id, assignment, nothing);
    law_rollback_changes_the_active_branch(start, plan, family_id, id, assignment, nothing);
    let after = start.after_all(rollback_plan(plan, family_id, id, assignment), nothing);
    let away = (places.archived)(session.path);
    assert(after.rollouts =~= before.rollouts.insert(away, written)) by {
        assert forall|path: Seq<char>| after.rollouts.contains_key(path)
            <==> before.rollouts.insert(away, written).contains_key(path) by {}
    }
}

proof fn lemma_not_ahead(copied: Seq<Seq<char>>, lines: Seq<Seq<char>>)
    requires
        relation(body_of(copied), body_of(lines)).0 != "active_ahead"@,
    ensures
        !(body_of(lines).len() < body_of(copied).len() && body_of(lines).is_prefix_of(
            body_of(copied),
        )),
{
}

} // verus!
