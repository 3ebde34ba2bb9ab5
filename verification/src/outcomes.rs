//! What the operations on sessions leave behind, once their steps were taken: which rollouts,
//! threads rows, entries of the index and of the ledger, families, titles, names and projects are
//! new, which are gone, and that all others are what they were.

use vstd::prelude::*;

use crate::duplicate::{
    duplicate_rest, duplicate_start, forked_name, forked_start, listing_plan,
};
use crate::effects::{
    activated_states, archived_states, law_rewrite_keeps_the_session, law_rollback_puts_away,
    law_switch_replaces_the_session, lemma_after_both, lemma_after_next, lemma_assignment_effect,
    lemma_restored, put_away, rebranded_state, relabelled, state_ids, BranchState, FamilyState,
    SessionsView,
};
use crate::fork::{fork_rest, fork_start};
use crate::labels::{is_spaces, LabelsView};
use crate::model::{ArchiveOrigin, BranchStatus};
use crate::official_fork::{entry_plan, naming_plan};
use crate::rollback::{reenter_plan, restore_plan, retire_plan, rollback_plan, RollbackView};
use crate::rollout::{states_session, BriefView};
use crate::steps::{assignment_of, assignment_steps, AssignmentView, StepView};
use crate::switch_steps::{
    archive_plan, branch_step, copy_rest, copy_start, existing_plan, follow_plan, new_branch_view,
    visibility_plan, MoveView, NewSessionView,
};
use crate::text::trimmed;

verus! {

/// Whether a map has the same entries as another, but for those of some keys.
pub open spec fn same_but<V>(
    before: Map<Seq<char>, V>,
    after: Map<Seq<char>, V>,
    keys: Set<Seq<char>>,
) -> bool {
    forall|key: Seq<char>|
        !keys.contains(key) ==> (#[trigger] after.contains_key(key) <==> before.contains_key(key))
            && (before.contains_key(key) ==> after[key] == before[key])
}

/// Whether a set has the same members as another, but for some.
pub open spec fn same_members_but(
    before: Set<Seq<char>>,
    after: Set<Seq<char>>,
    keys: Set<Seq<char>>,
) -> bool {
    forall|key: Seq<char>|
        !keys.contains(key) ==> (#[trigger] after.contains(key) <==> before.contains(key))
}

/// Whether a session has the title and the name of another, each where that has one, and all other
/// sessions have their own.
pub open spec fn takes_title(
    before: LabelsView,
    after: LabelsView,
    from: Seq<char>,
    to: Seq<char>,
) -> bool {
    &&& before.titles.contains_key(from) && after.titles.contains_key(to) ==> {
        &&& !is_spaces(before.titles[from].title) ==> after.titles[to].title
            == before.titles[from].title
        &&& !is_spaces(before.titles[from].name) ==> after.titles[to].name
            == before.titles[from].name
    }
    &&& same_but(before.titles, after.titles, set![to])
}

/// Whether a session was assigned to the project at a directory, as the host writes it, where the
/// session works anywhere; all other sessions keep their projects.
pub open spec fn joins_project(
    before: LabelsView,
    after: LabelsView,
    brief: BriefView,
    host_cwd: Seq<char>,
    deferred: bool,
) -> bool {
    if !deferred && (brief.cwd matches Some(cwd) && trimmed(cwd).len() > 0) {
        &&& after.projects.contains_key(brief.id)
        &&& after.projects[brief.id] == host_cwd
        &&& same_but(before.projects, after.projects, set![brief.id])
    } else {
        after.projects == before.projects
    }
}

/// Whether a session that belongs to no project yet was assigned to one; all other sessions, and
/// this one where it has a project, keep theirs.
pub open spec fn gets_missing_project(
    before: LabelsView,
    after: LabelsView,
    assignment: Option<AssignmentView>,
    deferred: bool,
) -> bool {
    &&& forall|id: Seq<char>|
        before.projects.contains_key(id) ==> #[trigger] after.projects.contains_key(id)
            && after.projects[id] == before.projects[id]
    &&& match assignment {
        Some(assignment) => {
            &&& !deferred ==> after.projects.contains_key(assignment.thread_id)
            &&& !deferred && !before.projects.contains_key(assignment.thread_id)
                ==> after.projects[assignment.thread_id] == assignment.cwd
            &&& deferred ==> after.projects == before.projects
            &&& same_but(before.projects, after.projects, set![assignment.thread_id])
        },
        None => after.projects == before.projects,
    }
}

/// Whether a family got a new active branch behind those that it had, which keep what they are but
/// for whether they are archived and why.
pub open spec fn gains_branch(
    before: FamilyState,
    after: FamilyState,
    session: NewSessionView,
) -> bool {
    let last = after.chain[before.chain.len() as int];
    &&& after.active_id == session.id
    &&& after.chain.len() == before.chain.len() + 1
    &&& last.id == session.id && last.provider == session.provider && last.relpath
        == session.relpath
    &&& last.status == BranchStatus::Active && last.origin is None
    &&& forall|i: int|
        0 <= i < before.chain.len() ==> (#[trigger] after.chain[i]).id == before.chain[i].id
            && after.chain[i].provider == before.chain[i].provider && after.chain[i].relpath
            == before.chain[i].relpath
}

/// Whether the branches that were active are archived, for the sync of providers, and all others
/// are what they were.
pub open spec fn active_ones_gave_way(before: FamilyState, after: FamilyState) -> bool {
    forall|i: int|
        0 <= i < before.chain.len() ==> if before.chain[i].status == BranchStatus::Active {
            (#[trigger] after.chain[i]).status == BranchStatus::Archived && after.chain[i].origin
                == Some(ArchiveOrigin::ProviderSync)
        } else {
            after.chain[i] == before.chain[i]
        }
}

/// Whether the branch of one session is archived, and all others are what they were. The reason is
/// noted where it is given.
pub open spec fn one_gave_way(
    before: FamilyState,
    after: FamilyState,
    id: Seq<char>,
    origin: Option<ArchiveOrigin>,
) -> bool {
    forall|i: int|
        0 <= i < before.chain.len() ==> if before.chain[i].id == id {
            (#[trigger] after.chain[i]).status == BranchStatus::Archived && after.chain[i].origin
                == if origin is Some {
                origin
            } else {
                before.chain[i].origin
            }
        } else {
            after.chain[i] == before.chain[i]
        }
}

/// Whether the rollout of a session was put away and nothing else of it is left in sight: its row
/// is archived and leads to the new place, the index has no entry, and the ledger tells why.
pub open spec fn is_put_away(
    before: SessionsView,
    after: SessionsView,
    away: MoveView,
    origin: ArchiveOrigin,
) -> bool {
    let id = away.branch_id;
    &&& away.from != away.to ==> !after.rollouts.contains_key(away.from)
    &&& after.rollouts.contains_key(away.to)
    &&& after.rollouts[away.to] == before.rollouts[away.from]
    &&& before.rows.contains_key(id) ==> after.rows.contains_key(id) && after.rows[id].archived
        && after.rows[id].path == away.to && after.rows[id].provider == before.rows[id].provider
        && after.rows[id].source == before.rows[id].source
    &&& !after.listed.contains(id)
    &&& !after.labels.names.contains_key(id)
    &&& after.ledger.contains_key(id)
    &&& after.ledger[id] == (origin, away.to)
}

proof fn lemma_archive_labels(
    sessions: SessionsView,
    archive: MoveView,
    family_id: Seq<char>,
    written: Seq<Seq<char>>,
)
    ensures
        sessions.after_all(archive_plan(Some(archive), family_id), written).labels == (LabelsView {
            names: sessions.labels.names.remove(archive.branch_id),
            ..sessions.labels
        }),
{
    let steps = archive_plan(Some(archive), family_id);
    assert(steps.take(0) =~= Seq::empty());
    lemma_after_next(sessions, steps, 0, written);
    lemma_after_next(sessions, steps, 1, written);
    lemma_after_next(sessions, steps, 2, written);
    lemma_after_next(sessions, steps, 3, written);
    lemma_after_next(sessions, steps, 4, written);
    lemma_after_next(sessions, steps, 5, written);
    lemma_after_next(sessions, steps, 6, written);
    lemma_after_next(sessions, steps, 7, written);
    lemma_after_next(sessions, steps, 8, written);
    assert(steps.take(9) =~= steps);
}

proof fn lemma_retire_labels(
    sessions: SessionsView,
    current: MoveView,
    family_id: Seq<char>,
    written: Seq<Seq<char>>,
)
    ensures
        sessions.after_all(retire_plan(current, family_id), written).labels == (LabelsView {
            names: sessions.labels.names.remove(current.branch_id),
            ..sessions.labels
        }),
{
    let steps = retire_plan(current, family_id);
    assert(steps.take(0) =~= Seq::empty());
    lemma_after_next(sessions, steps, 0, written);
    lemma_after_next(sessions, steps, 1, written);
    lemma_after_next(sessions, steps, 2, written);
    lemma_after_next(sessions, steps, 3, written);
    lemma_after_next(sessions, steps, 4, written);
    lemma_after_next(sessions, steps, 5, written);
    lemma_after_next(sessions, steps, 6, written);
    lemma_after_next(sessions, steps, 7, written);
    assert(steps.take(8) =~= steps);
}

/// What a copy of a session for a provider leaves of the rollouts, the threads rows, the index and
/// the ledger: the new session is there, with its rollout and a row that is in use, and all else
/// is what it was, but for the session that was put away, where one was.
pub proof fn law_copy_leaves_the_new_session(
    before: SessionsView,
    session: NewSessionView,
    family_id: Seq<char>,
    source_path: Seq<char>,
    archive: Option<MoveView>,
    brief: Option<BriefView>,
    host_cwd: Seq<char>,
    thread_name: Seq<char>,
    deferred: bool,
    written: Seq<Seq<char>>,
)
    requires
        states_session(written, session.id, session.provider),
        brief is Some,
        archive matches Some(archive) ==> archive.branch_id != session.id && archive.from
            != session.path && archive.to != session.path,
    ensures
        copy_rest(session, family_id, archive, brief, host_cwd, thread_name, deferred) matches Ok(
            rest,
        ) && {
            let after = before.after_all(copy_start(source_path, session.path) + rest, written);
            let row = after.rows[session.id];
            &&& after.rollouts.contains_key(session.path)
            &&& after.rollouts[session.path] == written
            &&& after.rows.contains_key(session.id)
            &&& !row.archived && row.path == session.path
            &&& trimmed(session.provider).len() > 0 ==> row.provider == Some(session.provider)
            &&& after.listed.contains(session.id)
            &&& after.labels.names.contains_key(session.id)
            &&& after.labels.names[session.id] == thread_name
            &&& match archive {
                None => {
                    &&& same_but(before.rollouts, after.rollouts, set![session.path])
                    &&& same_but(before.rows, after.rows, set![session.id])
                    &&& same_members_but(before.listed, after.listed, set![session.id])
                    &&& same_but(before.labels.names, after.labels.names, set![session.id])
                    &&& after.ledger == before.ledger
                },
                Some(archive) => {
                    let ids = set![session.id, archive.branch_id];
                    &&& is_put_away(before, after, archive, ArchiveOrigin::ProviderSync)
                    &&& same_but(
                        before.rollouts,
                        after.rollouts,
                        set![session.path, archive.from, archive.to],
                    )
                    &&& same_but(before.rows, after.rows, ids)
                    &&& same_members_but(before.listed, after.listed, ids)
                    &&& same_but(before.labels.names, after.labels.names, ids)
                    &&& same_but(before.ledger, after.ledger, set![archive.branch_id])
                },
            }
        },
{
    law_switch_replaces_the_session(
        before,
        session,
        family_id,
        source_path,
        archive,
        brief,
        host_cwd,
        thread_name,
        deferred,
        written,
    );
    lemma_copy_labels(
        before,
        session,
        family_id,
        source_path,
        archive,
        brief,
        host_cwd,
        thread_name,
        deferred,
        written,
    );
}

/// What a copy of a session for a provider leaves of the families: the copy is the new active
/// branch of its family, before which either the branch that is put away or all that were active
/// gave way, and no other family changed. The families are then written.
pub proof fn law_copy_becomes_the_active_branch(
    before: SessionsView,
    session: NewSessionView,
    family_id: Seq<char>,
    source_path: Seq<char>,
    archive: Option<MoveView>,
    brief: Option<BriefView>,
    host_cwd: Seq<char>,
    thread_name: Seq<char>,
    deferred: bool,
    written: Seq<Seq<char>>,
)
    requires
        states_session(written, session.id, session.provider),
        brief is Some,
        before.families.contains_key(family_id),
    ensures
        copy_rest(session, family_id, archive, brief, host_cwd, thread_name, deferred) matches Ok(
            rest,
        ) && {
            let after = before.after_all(copy_start(source_path, session.path) + rest, written);
            let old = before.families[family_id];
            let family = after.families[family_id];
            &&& after.families.contains_key(family_id)
            &&& gains_branch(old, family, session)
            &&& match archive {
                None => active_ones_gave_way(old, family),
                Some(archive) => one_gave_way(
                    old,
                    family,
                    archive.branch_id,
                    Some(ArchiveOrigin::ProviderSync),
                ),
            }
            &&& same_but(before.families, after.families, set![family_id])
            &&& after.labels.saved == after.families
        },
{
    law_switch_replaces_the_session(
        before,
        session,
        family_id,
        source_path,
        archive,
        brief,
        host_cwd,
        thread_name,
        deferred,
        written,
    );
    lemma_copy_labels(
        before,
        session,
        family_id,
        source_path,
        archive,
        brief,
        host_cwd,
        thread_name,
        deferred,
        written,
    );
}

/// A copy of a session for a provider takes along the title and the name of the session that it was
/// made of, and joins its project; every other session keeps its title, its name, its project and
/// where it was converted from.
pub proof fn law_copy_takes_the_title_along(
    before: SessionsView,
    session: NewSessionView,
    family_id: Seq<char>,
    source_path: Seq<char>,
    archive: Option<MoveView>,
    brief: Option<BriefView>,
    host_cwd: Seq<char>,
    thread_name: Seq<char>,
    deferred: bool,
    written: Seq<Seq<char>>,
)
    requires
        states_session(written, session.id, session.provider),
        brief is Some,
        session.id != session.made_of,
    ensures
        copy_rest(session, family_id, archive, brief, host_cwd, thread_name, deferred) matches Ok(
            rest,
        ) && {
            let after = before.after_all(copy_start(source_path, session.path) + rest, written);
            &&& after.labels.titles.contains_key(session.id)
            &&& takes_title(before.labels, after.labels, session.made_of, session.id)
            &&& joins_project(before.labels, after.labels, brief->Some_0, host_cwd, deferred)
            &&& after.labels.provenance == before.labels.provenance
        },
{
    lemma_copy_labels(
        before,
        session,
        family_id,
        source_path,
        archive,
        brief,
        host_cwd,
        thread_name,
        deferred,
        written,
    );
}

proof fn lemma_copy_labels(
    before: SessionsView,
    session: NewSessionView,
    family_id: Seq<char>,
    source_path: Seq<char>,
    archive: Option<MoveView>,
    brief: Option<BriefView>,
    host_cwd: Seq<char>,
    thread_name: Seq<char>,
    deferred: bool,
    written: Seq<Seq<char>>,
)
    requires
        states_session(written, session.id, session.provider),
        brief is Some,
    ensures
        ({
            let after = before.after_all(
                copy_start(source_path, session.path) + copy_rest(
                    session,
                    family_id,
                    archive,
                    brief,
                    host_cwd,
                    thread_name,
                    deferred,
                )->Ok_0,
                written,
            );
            let named = before.labels.entitled(session.id, written).assigned(
                assignment_of(brief->Some_0.id, brief->Some_0.cwd, host_cwd),
                false,
                deferred,
            ).carried(session.made_of, session.id);
            &&& after.labels.titles == named.titles
            &&& after.labels.projects == named.projects
            &&& after.labels.provenance == named.provenance
            &&& after.labels.names == match archive {
                Some(archive) => named.names.remove(archive.branch_id),
                None => named.names,
            }.insert(session.id, thread_name)
            &&& after.labels.saved == after.families
        }),
{
    let rest = copy_rest(
        session,
        family_id,
        archive,
        brief,
        host_cwd,
        thread_name,
        deferred,
    )->Ok_0;
    let start = copy_start(source_path, session.path);
    let told = brief->Some_0;
    let assignment = assignment_of(told.id, told.cwd, host_cwd);
    let a = assignment_steps(assignment, false, deferred);
    let title = seq![rest[a.len() as int]];
    let plan = archive_plan(archive, family_id);
    let branch = new_branch_view(session, "cloned_from:"@ + session.made_of);
    let last = seq![
        branch_step(family_id, branch, archive is Some),
        StepView::AppendIndexLine { id: session.id, thread_name },
        StepView::SaveStore,
    ];
    assert(rest =~= a + title + plan + last);
    lemma_after_both(before, start, rest, written);
    let first = before.after_all(start, written);
    assert(start.take(0) =~= Seq::empty());
    lemma_after_next(before, start, 0, written);
    lemma_after_next(before, start, 1, written);
    lemma_after_next(before, start, 2, written);
    assert(start.take(3) =~= start);
    lemma_after_both(first, a + title + plan, last, written);
    lemma_after_both(first, a + title, plan, written);
    lemma_after_both(first, a, title, written);
    lemma_assignment_effect(first, assignment, false, deferred, written);
    let assigned = first.after_all(a, written);
    assert(title.take(0) =~= Seq::empty());
    lemma_after_next(assigned, title, 0, written);
    assert(title.take(1) =~= title);
    let named = assigned.after_all(title, written);
    if let Some(archive) = archive {
        lemma_archive_labels(named, archive, family_id, written);
    }
    let cleared = named.after_all(plan, written);
    assert(last.take(0) =~= Seq::empty());
    lemma_after_next(cleared, last, 0, written);
    lemma_after_next(cleared, last, 1, written);
    lemma_after_next(cleared, last, 2, written);
    assert(last.take(3) =~= last);
}

/// Whether a branch is the first of its session in a chain.
pub open spec fn is_first_of(chain: Seq<BranchState>, at: int, id: Seq<char>) -> bool {
    0 <= at < chain.len() && chain[at].id == id && forall|j: int|
        0 <= j < at ==> (#[trigger] chain[j]).id != id
}

/// What rewriting a session for a provider leaves: its rollout holds the new lines, its row is in use
/// under the provider, the index has it under its first message, and it is the active branch still,
/// which belongs to the provider. Nothing else changed, and a title that it had is kept.
pub proof fn law_rewrite_changes_one_session(
    before: SessionsView,
    source: BriefView,
    assignment: Option<AssignmentView>,
    family_id: Seq<char>,
    provider: Seq<char>,
    written: Seq<Seq<char>>,
)
    requires
        states_session(written, source.id, provider),
        before.families.contains_key(family_id),
    ensures
        ({
            let after = before.after_all(
                follow_plan(source, assignment, family_id, provider),
                written,
            );
            let old = before.families[family_id];
            let family = after.families[family_id];
            &&& after.rollouts == before.rollouts.insert(source.path, written)
            &&& after.rows.contains_key(source.id)
            &&& !after.rows[source.id].archived && after.rows[source.id].path == source.path
            &&& trimmed(provider).len() > 0 ==> after.rows[source.id].provider == Some(provider)
            &&& same_but(before.rows, after.rows, set![source.id])
            &&& after.listed == before.listed.insert(source.id)
            &&& after.labels.names == before.labels.names.insert(
                source.id,
                source.first_user_message,
            )
            &&& after.ledger == before.ledger
            &&& same_but(before.families, after.families, set![family_id])
            &&& family.active_id == old.active_id
            &&& family.chain.len() == old.chain.len()
            &&& forall|i: int|
                0 <= i < old.chain.len() ==> (#[trigger] family.chain[i]).id == old.chain[i].id
                    && family.chain[i].relpath == old.chain[i].relpath && family.chain[i].status
                    == old.chain[i].status && family.chain[i].origin == old.chain[i].origin
            &&& forall|i: int|
                0 <= i < old.chain.len() && (#[trigger] old.chain[i]).id != old.active_id
                    ==> family.chain[i].provider == old.chain[i].provider
            &&& forall|i: int| #[trigger]
                is_first_of(old.chain, i, old.active_id) ==> family.chain[i].provider == provider
            &&& after.labels.saved == after.families
            &&& same_but(before.labels.titles, after.labels.titles, set![source.id])
            &&& before.labels.titles.contains_key(source.id) && !is_spaces(
                before.labels.titles[source.id].title,
            ) ==> after.labels.titles[source.id].title == before.labels.titles[source.id].title
            &&& after.labels.provenance == before.labels.provenance
            &&& gets_missing_project(before.labels, after.labels, assignment, false)
        }),
{
    law_rewrite_keeps_the_session(before, source, assignment, family_id, provider, written);
    lemma_follow_labels(before, source, assignment, family_id, provider, written);
    lemma_rebranded(before.families[family_id], provider);
}

proof fn lemma_rebranded(old: FamilyState, provider: Seq<char>)
    ensures
        ({
            let family = rebranded_state(old, provider);
            &&& family.active_id == old.active_id
            &&& family.chain.len() == old.chain.len()
            &&& forall|i: int|
                0 <= i < old.chain.len() ==> (#[trigger] family.chain[i]).id == old.chain[i].id
                    && family.chain[i].relpath == old.chain[i].relpath && family.chain[i].status
                    == old.chain[i].status && family.chain[i].origin == old.chain[i].origin
            &&& forall|i: int|
                0 <= i < old.chain.len() && (#[trigger] old.chain[i]).id != old.active_id
                    ==> family.chain[i].provider == old.chain[i].provider
            &&& forall|i: int| #[trigger]
                is_first_of(old.chain, i, old.active_id) ==> family.chain[i].provider == provider
        }),
{
    let ids = state_ids(old.chain);
    ids.index_of_first_ensures(old.active_id);
    assert forall|i: int| 0 <= i < ids.len() implies ids[i] == old.chain[i].id by {}
    assert forall|i: int| #[trigger]
        is_first_of(old.chain, i, old.active_id) implies rebranded_state(
        old,
        provider,
    ).chain[i].provider == provider by {
        assert(ids[i] == old.active_id);
        assert(ids.contains(old.active_id));
        let first = ids.index_of_first(old.active_id)->Some_0;
        assert(ids[first] == old.active_id);
        assert(old.chain[first].id == old.active_id);
        if first < i {
            assert(old.chain[first].id != old.active_id);
        } else if i < first {
            assert(ids[i] != old.active_id);
        }
    }
}

proof fn lemma_follow_labels(
    before: SessionsView,
    source: BriefView,
    assignment: Option<AssignmentView>,
    family_id: Seq<char>,
    provider: Seq<char>,
    written: Seq<Seq<char>>,
)
    requires
        states_session(written, source.id, provider),
    ensures
        ({
            let after = before.after_all(
                follow_plan(source, assignment, family_id, provider),
                written,
            );
            let named = before.labels.assigned(assignment, true, false).entitled(
                source.id,
                written,
            );
            &&& after.labels.titles == named.titles
            &&& after.labels.projects == named.projects
            &&& after.labels.provenance == named.provenance
            &&& after.labels.names == named.names.insert(source.id, source.first_user_message)
            &&& after.labels.saved == after.families
        }),
{
    let a = assignment_steps(assignment, true, false);
    let plan = follow_plan(source, assignment, family_id, provider);
    let steps = plan.skip(a.len() as int);
    assert(plan =~= a + steps);
    lemma_after_both(before, a, steps, written);
    lemma_assignment_effect(before, assignment, true, false, written);
    let assigned = before.after_all(a, written);
    assert(steps.take(0) =~= Seq::empty());
    lemma_after_next(assigned, steps, 0, written);
    lemma_after_next(assigned, steps, 1, written);
    lemma_after_next(assigned, steps, 2, written);
    lemma_after_next(assigned, steps, 3, written);
    lemma_after_next(assigned, steps, 4, written);
    assert(steps.take(5) =~= steps);
}

/// What entering a fork that Codex made leaves: the fork is the new active branch, before which all
/// that were active gave way, and the index has it under the name under which it is shown, or else
/// under the first message. It takes along the title of the session that was forked. Rollouts,
/// rows and the ledger are what they were.
pub proof fn law_entered_fork_becomes_the_active_branch(
    before: SessionsView,
    session: NewSessionView,
    session_id: Seq<char>,
    family_id: Seq<char>,
    brief: BriefView,
    host_cwd: Seq<char>,
    deferred: bool,
    display: Option<Seq<char>>,
    first_message: Seq<char>,
    written: Seq<Seq<char>>,
)
    requires
        before.families.contains_key(family_id),
        session.id != session_id,
    ensures
        ({
            let (first, second) = entry_plan(
                session,
                session_id,
                family_id,
                brief,
                host_cwd,
                deferred,
            );
            let after = before.after_all(
                first + second + naming_plan(session.id, display, first_message),
                written,
            );
            &&& after.rollouts == before.rollouts
            &&& after.rows == before.rows
            &&& after.ledger == before.ledger
            &&& after.listed == before.listed.insert(session.id)
            &&& after.labels.names.contains_key(session.id)
            &&& display matches Some(name) ==> after.labels.names[session.id] == name
            &&& display is None ==> after.labels.names[session.id] == first_message
            &&& same_but(before.labels.names, after.labels.names, set![session.id])
            &&& gains_branch(before.families[family_id], after.families[family_id], session)
            &&& active_ones_gave_way(before.families[family_id], after.families[family_id])
            &&& same_but(before.families, after.families, set![family_id])
            &&& after.labels.saved == after.families
            &&& takes_title(before.labels, after.labels, session_id, session.id)
            &&& joins_project(before.labels, after.labels, brief, host_cwd, deferred)
            &&& after.labels.provenance == before.labels.provenance
        }),
{
    let (first, second) = entry_plan(session, session_id, family_id, brief, host_cwd, deferred);
    let last = naming_plan(session.id, display, first_message);
    lemma_after_both(before, first + second, last, written);
    lemma_after_both(before, first, second, written);
    assert(first.take(0) =~= Seq::empty());
    lemma_after_next(before, first, 0, written);
    lemma_after_next(before, first, 1, written);
    assert(first.take(2) =~= first);
    let entered = before.after_all(first, written);
    lemma_assignment_effect(
        entered,
        assignment_of(brief.id, brief.cwd, host_cwd),
        false,
        deferred,
        written,
    );
    let assigned = entered.after_all(second, written);
    assert(last.take(0) =~= Seq::empty());
    lemma_after_next(assigned, last, 0, written);
    lemma_after_next(assigned, last, 1, written);
    assert(last.take(2) =~= last);
}

/// What a branch that goes on from an earlier message leaves: the new session has its rollout and a
/// row in use, is in the index under its first message or else that of its source, and is the new
/// active branch. The rollout of the source is put away as that of a fork. The new session takes
/// along the title of its source, which keeps it, and joins its project.
pub proof fn law_fork_leaves_the_new_session(
    before: SessionsView,
    session: NewSessionView,
    archive: MoveView,
    family_id: Seq<char>,
    event_index: nat,
    source_message: Seq<char>,
    brief: Option<BriefView>,
    host_cwd: Seq<char>,
    written: Seq<Seq<char>>,
)
    requires
        states_session(written, session.id, session.provider),
        before.row_at(archive.from) matches Some((id, _)) && id == archive.branch_id,
        before.families.contains_key(family_id),
        archive.branch_id != session.id,
        archive.from != session.path,
        archive.to != session.path,
        brief is Some,
    ensures
        fork_rest(session, family_id, event_index, source_message, brief, host_cwd) matches Ok(rest)
            && {
            let after = before.after_all(
                fork_start(session.id, session.path, archive, family_id) + rest,
                written,
            );
            let id = archive.branch_id;
            let message = brief->Some_0.first_user_message;
            let ids = set![session.id, id];
            &&& after.rollouts.contains_key(session.path)
            &&& after.rollouts[session.path] == written
            &&& archive.from != archive.to ==> !after.rollouts.contains_key(archive.from)
            &&& after.rollouts.contains_key(archive.to)
            &&& after.rollouts[archive.to] == before.rollouts[archive.from]
            &&& same_but(
                before.rollouts,
                after.rollouts,
                set![session.path, archive.from, archive.to],
            )
            &&& after.rows.contains_key(session.id) && !after.rows[session.id].archived
                && after.rows[session.id].path == session.path
            &&& after.rows.contains_key(id) && after.rows[id].archived && after.rows[id].path
                == archive.to
            &&& same_but(before.rows, after.rows, ids)
            &&& after.listed.contains(session.id) && !after.listed.contains(id)
            &&& same_members_but(before.listed, after.listed, ids)
            &&& after.labels.names.contains_key(session.id)
            &&& message.len() > 0 ==> after.labels.names[session.id] == message
            &&& message.len() == 0 ==> after.labels.names[session.id] == source_message
            &&& !after.labels.names.contains_key(id)
            &&& same_but(before.labels.names, after.labels.names, ids)
            &&& after.ledger.contains_key(id) && after.ledger[id] == (
                ArchiveOrigin::Fork,
                archive.to,
            )
            &&& same_but(before.ledger, after.ledger, set![id])
            &&& gains_branch(before.families[family_id], after.families[family_id], session)
            &&& one_gave_way(before.families[family_id], after.families[family_id], id, None)
            &&& same_but(before.families, after.families, set![family_id])
            &&& after.labels.saved == after.families
        },
{
    lemma_fork_steps(
        before,
        session,
        archive,
        family_id,
        event_index,
        source_message,
        brief,
        host_cwd,
        written,
    );
}

/// A branch that goes on from an earlier message takes along the title and the name of its source,
/// where that has them, and joins its project. The source keeps its title, as do all others.
pub proof fn law_fork_takes_the_title_along(
    before: SessionsView,
    session: NewSessionView,
    archive: MoveView,
    family_id: Seq<char>,
    event_index: nat,
    source_message: Seq<char>,
    brief: Option<BriefView>,
    host_cwd: Seq<char>,
    written: Seq<Seq<char>>,
)
    requires
        states_session(written, session.id, session.provider),
        before.row_at(archive.from) matches Some((id, _)) && id == archive.branch_id,
        before.families.contains_key(family_id),
        archive.branch_id != session.id,
        archive.from != session.path,
        archive.to != session.path,
        brief is Some,
    ensures
        fork_rest(session, family_id, event_index, source_message, brief, host_cwd) matches Ok(rest)
            && {
            let after = before.after_all(
                fork_start(session.id, session.path, archive, family_id) + rest,
                written,
            ).labels;
            let titles = before.labels.titles;
            let id = archive.branch_id;
            &&& after.titles.contains_key(session.id)
            &&& titles.contains_key(id) && !is_spaces(titles[id].title)
                ==> after.titles[session.id].title == titles[id].title && after.titles[id].title
                == titles[id].title
            &&& titles.contains_key(id) && !is_spaces(titles[id].name)
                ==> after.titles[session.id].name == titles[id].name && after.titles[id].name
                == titles[id].name
            &&& same_but(titles, after.titles, set![session.id, id])
            &&& joins_project(before.labels, after, brief->Some_0, host_cwd, false)
            &&& after.provenance == before.labels.provenance
        },
{
    lemma_fork_steps(
        before,
        session,
        archive,
        family_id,
        event_index,
        source_message,
        brief,
        host_cwd,
        written,
    );
}

spec fn forked(
    before: SessionsView,
    session: NewSessionView,
    archive: MoveView,
    family_id: Seq<char>,
    written: Seq<Seq<char>>,
) -> SessionsView {
    let a = before.after(StepView::WriteRollout { path: session.path }, written);
    let b = a.after(StepView::SyncThread { path: session.path }, written);
    let c = b.after(StepView::SyncThread { path: archive.from }, written);
    let d = c.after(
        StepView::CarryTitle { from_id: archive.branch_id, to_id: session.id },
        written,
    );
    let e = d.after(
        StepView::ArchiveBranch { family_id, branch_id: archive.branch_id },
        written,
    );
    let f = e.after(StepView::MoveFile { from: archive.from, to: archive.to }, written);
    let g = f.after(
        StepView::MarkArchived { id: archive.branch_id, path: archive.to },
        written,
    );
    let h = g.after(StepView::RemoveIndexLine { id: archive.branch_id }, written);
    h.after(
        StepView::RecordLedger {
            family_id,
            id: archive.branch_id,
            origin: ArchiveOrigin::Fork,
            path: archive.to,
        },
        written,
    )
}

proof fn lemma_fork_steps(
    before: SessionsView,
    session: NewSessionView,
    archive: MoveView,
    family_id: Seq<char>,
    event_index: nat,
    source_message: Seq<char>,
    brief: Option<BriefView>,
    host_cwd: Seq<char>,
    written: Seq<Seq<char>>,
)
    requires
        brief is Some,
    ensures
        ({
            let rest = fork_rest(
                session,
                family_id,
                event_index,
                source_message,
                brief,
                host_cwd,
            )->Ok_0;
            let after = before.after_all(
                fork_start(session.id, session.path, archive, family_id) + rest,
                written,
            );
            let told = brief->Some_0;
            let named = forked(before, session, archive, family_id, written);
            let entered = named.after(rest[0], written).after(rest[1], written).after(
                rest[2],
                written,
            );
            &&& after == relabelled(entered, after.labels)
            &&& after.labels == entered.labels.assigned(
                assignment_of(told.id, told.cwd, host_cwd),
                false,
                false,
            )
        }),
{
    let rest = fork_rest(
        session,
        family_id,
        event_index,
        source_message,
        brief,
        host_cwd,
    )->Ok_0;
    let start = fork_start(session.id, session.path, archive, family_id);
    let told = brief->Some_0;
    let assignment = assignment_of(told.id, told.cwd, host_cwd);
    let a = assignment_steps(assignment, false, false);
    let middle = rest.take(3);
    assert(rest =~= middle + a);
    lemma_after_both(before, start, rest, written);
    assert(start.take(0) =~= Seq::empty());
    lemma_after_next(before, start, 0, written);
    lemma_after_next(before, start, 1, written);
    lemma_after_next(before, start, 2, written);
    lemma_after_next(before, start, 3, written);
    lemma_after_next(before, start, 4, written);
    lemma_after_next(before, start, 5, written);
    lemma_after_next(before, start, 6, written);
    lemma_after_next(before, start, 7, written);
    lemma_after_next(before, start, 8, written);
    assert(start.take(9) =~= start);
    let first = before.after_all(start, written);
    assert(first == forked(before, session, archive, family_id, written));
    lemma_after_both(first, middle, a, written);
    assert(middle.take(0) =~= Seq::empty());
    lemma_after_next(first, middle, 0, written);
    lemma_after_next(first, middle, 1, written);
    lemma_after_next(first, middle, 2, written);
    assert(middle.take(3) =~= middle);
    lemma_assignment_effect(first.after_all(middle, written), assignment, false, false, written);
}

/// What an independent copy leaves: the new session has its rollout and a row in use, and the index
/// has it under its first message or else that of its source. It takes along the title of its
/// source and where that was converted from, and joins its project. Families, the ledger and all
/// other sessions are what they were.
pub proof fn law_duplicate_leaves_the_new_session(
    before: SessionsView,
    session_id: Seq<char>,
    new_id: Seq<char>,
    new_path: Seq<char>,
    provider: Seq<char>,
    source_message: Seq<char>,
    brief: Option<BriefView>,
    host_cwd: Seq<char>,
    written: Seq<Seq<char>>,
)
    requires
        states_session(written, new_id, provider),
        brief is Some,
        new_id != session_id,
    ensures
        duplicate_rest(new_id, source_message, brief, host_cwd) matches Ok(rest) && {
            let after = before.after_all(
                duplicate_start(session_id, new_id, new_path) + rest,
                written,
            );
            let message = brief->Some_0.first_user_message;
            &&& after.rollouts == before.rollouts.insert(new_path, written)
            &&& after.rows.contains_key(new_id) && !after.rows[new_id].archived
                && after.rows[new_id].path == new_path
            &&& trimmed(provider).len() > 0 ==> after.rows[new_id].provider == Some(provider)
            &&& same_but(before.rows, after.rows, set![new_id])
            &&& after.listed == before.listed.insert(new_id)
            &&& after.labels.names.contains_key(new_id)
            &&& message.len() > 0 ==> after.labels.names[new_id] == message
            &&& message.len() == 0 ==> after.labels.names[new_id] == source_message
            &&& same_but(before.labels.names, after.labels.names, set![new_id])
            &&& after.ledger == before.ledger
            &&& after.families == before.families
            &&& after.labels.saved == before.labels.saved
            &&& after.labels.titles.contains_key(new_id)
            &&& takes_title(before.labels, after.labels, session_id, new_id)
            &&& joins_project(before.labels, after.labels, brief->Some_0, host_cwd, false)
            &&& before.labels.provenance.contains_key(session_id)
                ==> after.labels.provenance.contains_key(new_id)
                && after.labels.provenance[new_id] == before.labels.provenance[session_id]
            &&& same_but(before.labels.provenance, after.labels.provenance, set![new_id])
        },
{
    let rest = duplicate_rest(new_id, source_message, brief, host_cwd)->Ok_0;
    let start = duplicate_start(session_id, new_id, new_path);
    let told = brief->Some_0;
    let assignment = assignment_of(told.id, told.cwd, host_cwd);
    let a = assignment_steps(assignment, false, false);
    let line = rest.take(1);
    assert(rest =~= line + a);
    lemma_after_both(before, start, rest, written);
    assert(start.take(0) =~= Seq::empty());
    lemma_after_next(before, start, 0, written);
    lemma_after_next(before, start, 1, written);
    lemma_after_next(before, start, 2, written);
    lemma_after_next(before, start, 3, written);
    assert(start.take(4) =~= start);
    let first = before.after_all(start, written);
    lemma_after_both(first, line, a, written);
    assert(line.take(0) =~= Seq::empty());
    lemma_after_next(first, line, 0, written);
    assert(line.take(1) =~= line);
    lemma_assignment_effect(first.after_all(line, written), assignment, false, false, written);
}

/// What entering an independent copy that Codex made leaves: the index has it under the name under
/// which it is shown, or else that of its source, or else its first message. It takes along the
/// title of its source and where that was converted from, and joins its project unless that is
/// deferred. All else is what it was.
pub proof fn law_forked_duplicate_is_entered(
    before: SessionsView,
    session_id: Seq<char>,
    new_id: Seq<char>,
    display: Option<Seq<char>>,
    source_name: Option<Seq<char>>,
    brief: BriefView,
    host_cwd: Seq<char>,
    deferred: bool,
    written: Seq<Seq<char>>,
)
    requires
        new_id != session_id,
    ensures
        ({
            let after = before.after_all(
                forked_start(session_id, new_id) + listing_plan(
                    new_id,
                    forked_name(display, source_name, brief.first_user_message),
                    brief,
                    host_cwd,
                    deferred,
                ),
                written,
            );
            &&& after.rollouts == before.rollouts
            &&& after.rows == before.rows
            &&& after.ledger == before.ledger
            &&& after.families == before.families
            &&& after.labels.saved == before.labels.saved
            &&& after.listed == before.listed.insert(new_id)
            &&& after.labels.names.contains_key(new_id)
            &&& display matches Some(name) ==> after.labels.names[new_id] == name
            &&& display is None && source_name is Some ==> Some(after.labels.names[new_id])
                == source_name
            &&& display is None && source_name is None ==> after.labels.names[new_id]
                == brief.first_user_message
            &&& same_but(before.labels.names, after.labels.names, set![new_id])
            &&& takes_title(before.labels, after.labels, session_id, new_id)
            &&& joins_project(before.labels, after.labels, brief, host_cwd, deferred)
            &&& before.labels.provenance.contains_key(session_id)
                ==> after.labels.provenance.contains_key(new_id)
                && after.labels.provenance[new_id] == before.labels.provenance[session_id]
            &&& same_but(before.labels.provenance, after.labels.provenance, set![new_id])
        }),
{
    let start = forked_start(session_id, new_id);
    let rest = listing_plan(
        new_id,
        forked_name(display, source_name, brief.first_user_message),
        brief,
        host_cwd,
        deferred,
    );
    let assignment = assignment_of(brief.id, brief.cwd, host_cwd);
    let a = assignment_steps(assignment, false, deferred);
    let line = rest.take(1);
    assert(rest =~= line + a);
    lemma_after_both(before, start, rest, written);
    assert(start.take(0) =~= Seq::empty());
    lemma_after_next(before, start, 0, written);
    lemma_after_next(before, start, 1, written);
    assert(start.take(2) =~= start);
    let first = before.after_all(start, written);
    lemma_after_both(first, line, a, written);
    assert(line.take(0) =~= Seq::empty());
    lemma_after_next(first, line, 0, written);
    assert(line.take(1) =~= line);
    lemma_assignment_effect(first.after_all(line, written), assignment, false, deferred, written);
}

/// What a rollback leaves of the rollouts, the threads rows, the index and the ledger: the active
/// branch is put away as one that was archived by hand, and the target is back where it belongs,
/// with a row in use and an entry in the index, and the ledger does not have it.
pub proof fn law_rollback_swaps_two_sessions(
    before: SessionsView,
    plan: RollbackView,
    family_id: Seq<char>,
    target_id: Seq<char>,
    assignment: Option<AssignmentView>,
    written: Seq<Seq<char>>,
)
    requires
        plan.current.branch_id != target_id,
        plan.current.from != plan.current.to,
        plan.target_path != plan.current.from,
        plan.target_path != plan.current.to,
        plan.restore_from matches Some(archived) ==> archived != plan.current.from && archived
            != plan.current.to && archived != plan.target_path,
        before.rollouts.contains_key(plan.current.from),
        ({
            let place = match plan.restore_from {
                Some(archived) => archived,
                None => plan.target_path,
            };
            before.row_at(place) matches Some((id, _)) && id == target_id
        }),
    ensures
        ({
            let after = before.after_all(
                rollback_plan(plan, family_id, target_id, assignment),
                written,
            );
            let place = match plan.restore_from {
                Some(archived) => archived,
                None => plan.target_path,
            };
            let ids = set![plan.current.branch_id, target_id];
            &&& is_put_away(before, after, plan.current, ArchiveOrigin::Manual)
            &&& after.rollouts.contains_key(plan.target_path)
            &&& after.rollouts[plan.target_path] == before.rollouts[place]
            &&& place != plan.target_path ==> !after.rollouts.contains_key(place)
            &&& same_but(
                before.rollouts,
                after.rollouts,
                set![plan.current.from, plan.current.to, place, plan.target_path],
            )
            &&& after.rows.contains_key(target_id) && !after.rows[target_id].archived
                && after.rows[target_id].path == plan.target_path
            &&& same_but(before.rows, after.rows, ids)
            &&& after.listed.contains(target_id)
            &&& same_members_but(before.listed, after.listed, ids)
            &&& after.labels.names.contains_key(target_id)
            &&& after.labels.names[target_id] == plan.thread_name
            &&& same_but(before.labels.names, after.labels.names, ids)
            &&& !after.ledger.contains_key(target_id)
            &&& same_but(before.ledger, after.ledger, ids)
        }),
{
    lemma_rollback_steps(before, plan, family_id, target_id, assignment, written);
}

/// What a rollback leaves of the family: the target is the active branch and no longer archived for
/// any reason, the branch that was active is archived, and the others are what they were. No title
/// is lost.
pub proof fn law_rollback_changes_the_active_branch(
    before: SessionsView,
    plan: RollbackView,
    family_id: Seq<char>,
    target_id: Seq<char>,
    assignment: Option<AssignmentView>,
    written: Seq<Seq<char>>,
)
    requires
        plan.current.branch_id != target_id,
        plan.current.from != plan.current.to,
        plan.target_path != plan.current.from,
        plan.target_path != plan.current.to,
        plan.restore_from matches Some(archived) ==> archived != plan.current.from && archived
            != plan.current.to && archived != plan.target_path,
        before.rollouts.contains_key(plan.current.from),
        before.families.contains_key(family_id),
        ({
            let place = match plan.restore_from {
                Some(archived) => archived,
                None => plan.target_path,
            };
            before.row_at(place) matches Some((id, _)) && id == target_id
        }),
    ensures
        ({
            let after = before.after_all(
                rollback_plan(plan, family_id, target_id, assignment),
                written,
            );
            let old = before.families[family_id].chain;
            let chain = after.families[family_id].chain;
            &&& after.families.contains_key(family_id)
            &&& after.families[family_id].active_id == target_id
            &&& chain.len() == old.len()
            &&& forall|i: int|
                0 <= i < old.len() ==> {
                    &&& (#[trigger] chain[i]).id == old[i].id
                    &&& chain[i].provider == old[i].provider
                    &&& chain[i].relpath == old[i].relpath
                    &&& old[i].id == target_id ==> chain[i].status == BranchStatus::Active
                        && chain[i].origin is None
                    &&& old[i].id == plan.current.branch_id ==> chain[i].status
                        == BranchStatus::Archived
                    &&& old[i].id != target_id && old[i].id != plan.current.branch_id ==> chain[i]
                        == old[i]
                }
            &&& same_but(before.families, after.families, set![family_id])
            &&& after.labels.saved == after.families
            &&& same_but(before.labels.titles, after.labels.titles, set![target_id])
            &&& before.labels.titles.contains_key(target_id) && !is_spaces(
                before.labels.titles[target_id].title,
            ) ==> after.labels.titles[target_id].title == before.labels.titles[target_id].title
            &&& after.labels.provenance == before.labels.provenance
            &&& gets_missing_project(before.labels, after.labels, assignment, false)
        }),
{
    lemma_rollback_steps(before, plan, family_id, target_id, assignment, written);
    let after = before.after_all(rollback_plan(plan, family_id, target_id, assignment), written);
    let old = before.families[family_id].chain;
    let chain = after.families[family_id].chain;
    assert(chain == activated_states(
        archived_states(old, plan.current.branch_id, None),
        target_id,
    ));
}

proof fn lemma_rollback_steps(
    before: SessionsView,
    plan: RollbackView,
    family_id: Seq<char>,
    target_id: Seq<char>,
    assignment: Option<AssignmentView>,
    written: Seq<Seq<char>>,
)
    ensures
        ({
            let after = before.after_all(
                rollback_plan(plan, family_id, target_id, assignment),
                written,
            );
            let labels = before.labels.assigned(assignment, true, false);
            let away = put_away(
                before,
                plan.current,
                family_id,
                ArchiveOrigin::Manual,
                false,
                LabelsView { names: labels.names.remove(plan.current.branch_id), ..labels },
            );
            let back = match plan.restore_from {
                Some(archived) => SessionsView {
                    rollouts: away.rollouts.remove(archived).insert(
                        plan.target_path,
                        away.rollouts[archived],
                    ),
                    ..away
                },
                None => away,
            };
            let a = back.after(StepView::SyncThread { path: plan.target_path }, written);
            let b = a.after(
                StepView::AppendIndexLine { id: target_id, thread_name: plan.thread_name },
                written,
            );
            let c = b.after(StepView::SetActive { family_id, branch_id: target_id }, written);
            let d = c.after(StepView::SaveStore, written);
            after == d.after(StepView::RemoveLedger { id: target_id }, written)
        }),
{
    let a = assignment_steps(assignment, true, false);
    let b = retire_plan(plan.current, family_id);
    let c = restore_plan(plan.target_path, plan.restore_from);
    let d = reenter_plan(family_id, target_id, plan.target_path, plan.thread_name);
    lemma_after_both(before, a + b + c, d, written);
    lemma_after_both(before, a + b, c, written);
    lemma_after_both(before, a, b, written);
    lemma_assignment_effect(before, assignment, true, false, written);
    let assigned = before.after_all(a, written);
    law_rollback_puts_away(assigned, plan.current, family_id, written);
    lemma_retire_labels(assigned, plan.current, family_id, written);
    let away = assigned.after_all(b, written);
    match plan.restore_from {
        Some(archived) => {
            lemma_restored(away, plan.target_path, archived, written);
        },
        None => {
            assert(c.take(0) =~= Seq::empty());
            lemma_after_next(away, c, 0, written);
            assert(c.take(1) =~= c);
        },
    }
    let back = away.after_all(c, written);
    assert(d.take(0) =~= Seq::empty());
    lemma_after_next(back, d, 0, written);
    lemma_after_next(back, d, 1, written);
    lemma_after_next(back, d, 2, written);
    lemma_after_next(back, d, 3, written);
    lemma_after_next(back, d, 4, written);
    assert(d.take(5) =~= d);
}

/// What making a session visible leaves: its row is in use and leads to its rollout, and the index
/// has it under its first message. Rollouts, the ledger and families are what they were; families
/// are written where the store does not have this one yet.
pub proof fn law_visible_sessions_are_listed(
    before: SessionsView,
    source: BriefView,
    assignment: Option<AssignmentView>,
    deferred: bool,
    registered: bool,
    written: Seq<Seq<char>>,
)
    requires
        before.row_at(source.path) matches Some((id, _)) && id == source.id,
    ensures
        ({
            let after = before.after_all(
                visibility_plan(source, assignment, deferred, registered),
                written,
            );
            &&& after.rollouts == before.rollouts
            &&& after.families == before.families
            &&& after.ledger == before.ledger
            &&& after.rows.contains_key(source.id) && !after.rows[source.id].archived
                && after.rows[source.id].path == source.path
            &&& same_but(before.rows, after.rows, set![source.id])
            &&& after.listed == before.listed.insert(source.id)
            &&& after.labels.names == before.labels.names.insert(
                source.id,
                source.first_user_message,
            )
            &&& after.labels.saved == if registered {
                before.labels.saved
            } else {
                before.families
            }
            &&& same_but(before.labels.titles, after.labels.titles, set![source.id])
            &&& before.labels.titles.contains_key(source.id) && !is_spaces(
                before.labels.titles[source.id].title,
            ) ==> after.labels.titles[source.id].title == before.labels.titles[source.id].title
            &&& after.labels.provenance == before.labels.provenance
            &&& gets_missing_project(before.labels, after.labels, assignment, deferred)
        }),
{
    let plan = visibility_plan(source, assignment, deferred, registered);
    let first = plan.take(2);
    let a = assignment_steps(assignment, true, deferred);
    let last = plan.skip(2 + a.len() as int);
    assert(plan =~= first + a + last);
    lemma_after_both(before, first + a, last, written);
    lemma_after_both(before, first, a, written);
    assert(first.take(0) =~= Seq::empty());
    lemma_after_next(before, first, 0, written);
    lemma_after_next(before, first, 1, written);
    assert(first.take(2) =~= first);
    let listed = before.after_all(first, written);
    lemma_assignment_effect(listed, assignment, true, deferred, written);
    let assigned = listed.after_all(a, written);
    assert(last.take(0) =~= Seq::empty());
    if !registered {
        lemma_after_next(assigned, last, 0, written);
        assert(last.take(1) =~= last);
    } else {
        assert(last =~= Seq::empty());
    }
}

/// Where a branch serves the provider already, nothing changes but the project of that branch, where
/// it has none; families are written where the store does not have this one yet.
pub proof fn law_served_sessions_stay(
    before: SessionsView,
    assignment: Option<AssignmentView>,
    deferred: bool,
    registered: bool,
    written: Seq<Seq<char>>,
)
    ensures
        ({
            let after = before.after_all(
                existing_plan(assignment, deferred, registered),
                written,
            );
            &&& after == relabelled(before, after.labels)
            &&& after.labels.titles == before.labels.titles
            &&& after.labels.names == before.labels.names
            &&& after.labels.provenance == before.labels.provenance
            &&& after.labels.saved == if registered {
                before.labels.saved
            } else {
                before.families
            }
            &&& gets_missing_project(before.labels, after.labels, assignment, deferred)
        }),
{
    let plan = existing_plan(assignment, deferred, registered);
    let a = assignment_steps(assignment, true, deferred);
    let last = plan.skip(a.len() as int);
    assert(plan =~= a + last);
    lemma_after_both(before, a, last, written);
    lemma_assignment_effect(before, assignment, true, deferred, written);
    let assigned = before.after_all(a, written);
    assert(last.take(0) =~= Seq::empty());
    if !registered {
        lemma_after_next(assigned, last, 0, written);
        assert(last.take(1) =~= last);
    } else {
        assert(last =~= Seq::empty());
    }
}

} // verus!
