//! What steps do to the sessions: their rollouts, their threads rows, the session index, the
//! ledger and the families.

use vstd::prelude::*;

use crate::branch_change::{family_rebranded, family_switched, retired, retired_chain};
use crate::json::{member_text, JsonView};
use crate::labels::LabelsView;
use crate::model::{
    lemma_position_of, position_of, ArchiveOrigin, BranchStatus, BranchView, FamilyView,
};
use crate::official_fork::{entry_plan, naming_plan};
use crate::rollback::{reenter_plan, restore_plan, retire_plan};
use crate::rollout::{line_payloads, metadata_field, states_session, visible_source, BriefView};
use crate::seqs::first_found;
use crate::steps::{assignment_of, assignment_steps, AssignmentView, StepView};
use crate::switch_steps::{
    archive_plan, branch_step, copy_rest, copy_start, follow_plan, new_branch_view, MoveView,
    NewSessionView,
};
use crate::text::trimmed;

verus! {

/// The threads row of a session, as far as steps change it: the provider is the one that the
/// metadata of its rollout names, where it does.
#[verifier::ext_equal]
pub struct RowView {
    pub archived: bool,
    pub path: Seq<char>,
    pub provider: Option<Seq<char>>,
    pub source: Seq<char>,
}

/// The threads row of a rollout at a path whose metadata has this payload.
pub open spec fn row_for(payload: JsonView, path: Seq<char>) -> RowView {
    RowView {
        archived: false,
        path,
        provider: metadata_field(payload, "model_provider"@),
        source: visible_source(payload),
    }
}

/// A branch of a family, as far as steps change it.
#[verifier::ext_equal]
pub struct BranchState {
    pub id: Seq<char>,
    pub provider: Seq<char>,
    pub relpath: Seq<char>,
    pub status: BranchStatus,
    pub origin: Option<ArchiveOrigin>,
}

/// A family, as far as steps change it.
#[verifier::ext_equal]
pub struct FamilyState {
    pub active_id: Seq<char>,
    pub chain: Seq<BranchState>,
}

/// What steps see of a branch.
pub open spec fn branch_state(branch: BranchView) -> BranchState {
    BranchState {
        id: branch.id,
        provider: branch.provider,
        relpath: branch.rollout_relpath,
        status: branch.status,
        origin: branch.archive_origin,
    }
}

/// What steps see of a family of the store.
pub open spec fn family_state(family: FamilyView) -> FamilyState {
    FamilyState {
        active_id: family.active_id,
        chain: family.chain.map_values(|branch: BranchView| branch_state(branch)),
    }
}

/// The sessions of branches.
pub open spec fn state_ids(chain: Seq<BranchState>) -> Seq<Seq<char>> {
    chain.map_values(|branch: BranchState| branch.id)
}

/// Branches, all of which gave way.
pub open spec fn retired_states(chain: Seq<BranchState>) -> Seq<BranchState> {
    chain.map_values(
        |branch: BranchState|
            if branch.status == BranchStatus::Active {
                BranchState {
                    status: BranchStatus::Archived,
                    origin: Some(ArchiveOrigin::ProviderSync),
                    ..branch
                }
            } else {
                branch
            },
    )
}

/// Branches, that of a session being archived; why is noted where that is given.
pub open spec fn archived_states(
    chain: Seq<BranchState>,
    id: Seq<char>,
    origin: Option<ArchiveOrigin>,
) -> Seq<BranchState> {
    chain.map_values(
        |branch: BranchState|
            if branch.id == id {
                BranchState {
                    status: BranchStatus::Archived,
                    origin: if origin is Some {
                        origin
                    } else {
                        branch.origin
                    },
                    ..branch
                }
            } else {
                branch
            },
    )
}

/// Branches, with the reason noted why that of a session was archived.
pub open spec fn noted_states(
    chain: Seq<BranchState>,
    id: Seq<char>,
    origin: ArchiveOrigin,
) -> Seq<BranchState> {
    chain.map_values(
        |branch: BranchState|
            if branch.id == id {
                BranchState { origin: Some(origin), ..branch }
            } else {
                branch
            },
    )
}

/// Branches, that of a session being active and no longer archived for any reason.
pub open spec fn activated_states(chain: Seq<BranchState>, id: Seq<char>) -> Seq<BranchState> {
    chain.map_values(
        |branch: BranchState|
            if branch.id == id {
                BranchState { status: BranchStatus::Active, origin: None, ..branch }
            } else {
                branch
            },
    )
}

/// A family whose active branch belongs to a provider.
pub open spec fn rebranded_state(family: FamilyState, provider: Seq<char>) -> FamilyState {
    FamilyState {
        chain: match state_ids(family.chain).index_of_first(family.active_id) {
            Some(at) => family.chain.update(at, BranchState { provider, ..family.chain[at] }),
            None => family.chain,
        },
        ..family
    }
}

/// The sessions, as steps find them and leave them: the lines of each rollout, the threads rows,
/// the sessions of the index, why sessions are archived and where, the families, and what sessions
/// are called and belong to.
#[verifier::ext_equal]
pub struct SessionsView {
    pub rollouts: Map<Seq<char>, Seq<Seq<char>>>,
    pub rows: Map<Seq<char>, RowView>,
    pub listed: Set<Seq<char>>,
    pub ledger: Map<Seq<char>, (ArchiveOrigin, Seq<char>)>,
    pub families: Map<Seq<char>, FamilyState>,
    pub labels: LabelsView,
}

impl SessionsView {
    /// The session that the rollout at a path states, and the threads row that is written for it.
    pub open spec fn row_at(self, path: Seq<char>) -> Option<(Seq<char>, RowView)> {
        if self.rollouts.contains_key(path) {
            match first_found(self.rollouts[path], line_payloads()) {
                Some(payload) => Some(
                    (
                        trimmed(member_text(payload, "id"@)->Some_0),
                        row_for(payload, path),
                    ),
                ),
                None => None,
            }
        } else {
            None
        }
    }

    /// The sessions after a family changed; those without that family stay as they are.
    pub open spec fn with_family(self, family_id: Seq<char>, family: FamilyState) -> SessionsView {
        SessionsView {
            families: if self.families.contains_key(family_id) {
                self.families.insert(family_id, family)
            } else {
                self.families
            },
            ..self
        }
    }

    /// What sessions are called and belong to after a step.
    pub open spec fn labels_after(self, step: StepView) -> LabelsView {
        let labels = self.labels;
        match step {
            StepView::SyncThread { path } => match self.row_at(path) {
                Some((id, _)) => labels.entitled(id, self.rollouts[path]),
                None => labels,
            },
            StepView::CarryTitle { from_id, to_id } => labels.carried(from_id, to_id),
            StepView::CopyProvenance { from_id, to_id } => if labels.provenance.contains_key(
                from_id,
            ) {
                LabelsView {
                    provenance: labels.provenance.insert(to_id, labels.provenance[from_id]),
                    ..labels
                }
            } else {
                labels
            },
            StepView::AssignProject { thread_id, cwd, missing_only } => if missing_only
                && labels.projects.contains_key(thread_id) {
                labels
            } else {
                LabelsView { projects: labels.projects.insert(thread_id, cwd), ..labels }
            },
            StepView::AppendIndexLine { id, thread_name } => LabelsView {
                names: labels.names.insert(id, thread_name),
                ..labels
            },
            StepView::RemoveIndexLine { id } => LabelsView {
                names: labels.names.remove(id),
                ..labels
            },
            StepView::SaveStore => LabelsView { saved: self.families, ..labels },
            _ => labels,
        }
    }

    /// The sessions after a step. `written` are the lines of the rollout that the operation
    /// writes.
    pub open spec fn after(self, step: StepView, written: Seq<Seq<char>>) -> SessionsView {
        SessionsView { labels: self.labels_after(step), ..self.changed(step, written) }
    }

    /// The sessions after a step, but for what they are called and belong to.
    pub open spec fn changed(self, step: StepView, written: Seq<Seq<char>>) -> SessionsView {
        match step {
            StepView::WriteRollout { path } => SessionsView {
                rollouts: self.rollouts.insert(path, written),
                ..self
            },
            StepView::RewriteProvider { path } => SessionsView {
                rollouts: self.rollouts.insert(path, written),
                ..self
            },
            StepView::SyncThread { path } => match self.row_at(path) {
                Some((id, row)) => SessionsView { rows: self.rows.insert(id, row), ..self },
                None => self,
            },
            StepView::ArchiveBranch { family_id, branch_id } => {
                let family = self.families[family_id];
                self.with_family(
                    family_id,
                    FamilyState { chain: archived_states(family.chain, branch_id, None), ..family },
                )
            },
            StepView::SetArchiveOrigin { family_id, branch_id, origin } => {
                let family = self.families[family_id];
                self.with_family(
                    family_id,
                    FamilyState { chain: noted_states(family.chain, branch_id, origin), ..family },
                )
            },
            StepView::MoveFile { from, to } => SessionsView {
                rollouts: self.rollouts.remove(from).insert(to, self.rollouts[from]),
                ..self
            },
            StepView::MarkArchived { id, path } => SessionsView {
                rows: if self.rows.contains_key(id) {
                    self.rows.insert(id, RowView { archived: true, path, ..self.rows[id] })
                } else {
                    self.rows
                },
                ..self
            },
            StepView::RemoveIndexLine { id } => SessionsView {
                listed: self.listed.remove(id),
                ..self
            },
            StepView::RecordLedger { family_id, id, origin, path } => SessionsView {
                ledger: self.ledger.insert(id, (origin, path)),
                ..self
            },
            StepView::RemoveLedger { id } => SessionsView {
                ledger: self.ledger.remove(id),
                ..self
            },
            StepView::AppendBranch { family_id, branch } => {
                let family = self.families[family_id];
                self.with_family(
                    family_id,
                    FamilyState {
                        active_id: branch.id,
                        chain: family.chain.push(branch_state(branch)),
                    },
                )
            },
            StepView::ReplaceActive { family_id, branch } => {
                let family = self.families[family_id];
                self.with_family(
                    family_id,
                    FamilyState {
                        active_id: branch.id,
                        chain: retired_states(family.chain).push(branch_state(branch)),
                    },
                )
            },
            StepView::SetActiveProvider { family_id, provider } => self.with_family(
                family_id,
                rebranded_state(self.families[family_id], provider),
            ),
            StepView::SetActive { family_id, branch_id } => {
                let family = self.families[family_id];
                self.with_family(
                    family_id,
                    FamilyState {
                        active_id: branch_id,
                        chain: activated_states(family.chain, branch_id),
                    },
                )
            },
            StepView::AppendIndexLine { id, .. } => SessionsView {
                listed: self.listed.insert(id),
                ..self
            },
            _ => self,
        }
    }

    /// The sessions after steps, taken in their order.
    pub open spec fn after_all(self, steps: Seq<StepView>, written: Seq<Seq<char>>) -> SessionsView
        decreases steps.len(),
    {
        if steps.len() == 0 {
            self
        } else {
            self.after_all(steps.drop_last(), written).after(steps.last(), written)
        }
    }
}

/// Where things are: where a path in the Codex directory leads, where the rollout at a path goes
/// when it is put away, and which paths lie among the active sessions.
pub struct PlacesView {
    pub root: spec_fn(Seq<char>) -> Seq<char>,
    pub archived: spec_fn(Seq<char>) -> Seq<char>,
    pub among: spec_fn(Seq<char>) -> bool,
}

impl PlacesView {
    /// Whether nothing that is put away lies among the active sessions.
    pub open spec fn well_formed(self) -> bool {
        forall|path: Seq<char>| !(self.among)(#[trigger] (self.archived)(path))
    }
}

impl SessionsView {
    /// Whether no session is a branch of two families.
    pub open spec fn well_formed(self) -> bool {
        forall|one: Seq<char>, other: Seq<char>, id: Seq<char>|
            self.families.contains_key(one) && self.families.contains_key(other)
                && #[trigger] self.has_branch(one, id) && #[trigger] self.has_branch(other, id)
                ==> one == other
    }

    /// Whether a session is a branch of a family.
    pub open spec fn has_branch(self, family_id: Seq<char>, id: Seq<char>) -> bool {
        state_ids(self.families[family_id].chain).contains(id)
    }

    /// Whether a session is a branch of no family yet.
    pub open spec fn is_new(self, id: Seq<char>) -> bool {
        forall|family_id: Seq<char>|
            self.families.contains_key(family_id) ==> !#[trigger] self.has_branch(family_id, id)
    }
}

/// What steps see of a family with a new active branch is what the step that adds it leaves.
pub proof fn law_switched_families_are_seen(family: FamilyView, branch: BranchView, now: Seq<char>)
    ensures
        family_state(family_switched(family, branch, now)) == (FamilyState {
            active_id: branch.id,
            chain: retired_states(family_state(family).chain).push(branch_state(branch)),
        }),
{
    let left = family_state(family_switched(family, branch, now)).chain;
    let right = retired_states(family_state(family).chain).push(branch_state(branch));
    assert forall|i: int| 0 <= i < left.len() implies left[i] == right[i] by {
        if i < family.chain.len() {
            assert(retired_chain(family.chain)[i] == retired(family.chain[i]));
        }
    }
    assert(left =~= right);
}

/// What steps see of a family whose active branch was given another provider is what the step
/// that gives it leaves.
pub proof fn law_rebranded_families_are_seen(
    family: FamilyView,
    provider: Seq<char>,
    now: Seq<char>,
)
    ensures
        family_state(family_rebranded(family, provider, now)) == rebranded_state(
            family_state(family),
            provider,
        ),
{
    let state = family_state(family);
    let ids = state_ids(state.chain);
    lemma_position_of(family.chain, family.active_id);
    ids.index_of_first_ensures(family.active_id);
    assert forall|i: int| 0 <= i < ids.len() implies ids[i] == family.chain[i].id by {}
    match position_of(family.chain, family.active_id) {
        Some(at) => {
            assert(ids[at] == family.active_id);
            assert(ids.contains(family.active_id));
            let first = ids.index_of_first(family.active_id)->Some_0;
            assert(family.chain[first].id == family.active_id);
            assert(first == at);
        },
        None => {
            if ids.contains(family.active_id) {
                let i = choose|i: int| 0 <= i < ids.len() && ids[i] == family.active_id;
                assert(family.chain[i].id == family.active_id);
            }
        },
    }
    assert(family_state(family_rebranded(family, provider, now)).chain =~= rebranded_state(
        state,
        provider,
    ).chain);
}

/// Steps that follow others start from what those left.
pub proof fn lemma_after_both(
    sessions: SessionsView,
    first: Seq<StepView>,
    second: Seq<StepView>,
    written: Seq<Seq<char>>,
)
    ensures
        sessions.after_all(first + second, written) == sessions.after_all(first, written).after_all(
            second,
            written,
        ),
    decreases second.len(),
{
    if second.len() == 0 {
        assert(first + second =~= first);
    } else {
        lemma_after_both(sessions, first, second.drop_last(), written);
        assert((first + second).drop_last() =~= first + second.drop_last());
        assert((first + second).last() == second.last());
    }
}

/// A step that follows others starts from what those left.
pub proof fn lemma_after_next(
    sessions: SessionsView,
    steps: Seq<StepView>,
    at: int,
    written: Seq<Seq<char>>,
)
    requires
        0 <= at < steps.len(),
    ensures
        sessions.after_all(steps.take(at + 1), written) == sessions.after_all(
            steps.take(at),
            written,
        ).after(steps[at], written),
{
    assert(steps.take(at + 1).drop_last() =~= steps.take(at));
    assert(steps.take(at + 1).last() == steps[at]);
}

/// The sessions after they are called and belong as said, and are else what they were.
pub open spec fn relabelled(sessions: SessionsView, labels: LabelsView) -> SessionsView {
    SessionsView { labels, ..sessions }
}

/// Assigning a project changes only what sessions belong to.
pub proof fn lemma_assignment_effect(
    sessions: SessionsView,
    assignment: Option<AssignmentView>,
    missing_only: bool,
    deferred: bool,
    written: Seq<Seq<char>>,
)
    ensures
        ({
            let after = sessions.after_all(
                assignment_steps(assignment, missing_only, deferred),
                written,
            );
            &&& after == relabelled(sessions, after.labels)
            &&& after.labels == sessions.labels.assigned(assignment, missing_only, deferred)
        }),
{
    let steps = assignment_steps(assignment, missing_only, deferred);
    if steps.len() > 0 {
        lemma_after_next(sessions, steps, 0, written);
        assert(steps.take(1) =~= steps);
        assert(steps.take(0) =~= Seq::empty());
    }
}

/// The sessions after a rollout was put away: it has moved, the row of its session says so, its
/// session has no entry in the index, the ledger tells why, and so does its family where `noted`.
pub open spec fn put_away(
    sessions: SessionsView,
    away: MoveView,
    family_id: Seq<char>,
    origin: ArchiveOrigin,
    noted: bool,
    labels: LabelsView,
) -> SessionsView {
    let family = sessions.families[family_id];
    let reason = if noted {
        Some(origin)
    } else {
        None
    };
    SessionsView {
        rollouts: sessions.rollouts.remove(away.from).insert(away.to, sessions.rollouts[away.from]),
        rows: if sessions.rows.contains_key(away.branch_id) {
            sessions.rows.insert(
                away.branch_id,
                RowView { archived: true, path: away.to, ..sessions.rows[away.branch_id] },
            )
        } else {
            sessions.rows
        },
        listed: sessions.listed.remove(away.branch_id),
        ledger: sessions.ledger.insert(away.branch_id, (origin, away.to)),
        labels,
        ..sessions.with_family(
            family_id,
            FamilyState {
                chain: archived_states(family.chain, away.branch_id, reason),
                ..family
            },
        )
    }
}

/// A switch puts the rollout that gave way away, for the sync of providers.
pub proof fn law_switch_puts_away(
    sessions: SessionsView,
    archive: MoveView,
    family_id: Seq<char>,
    written: Seq<Seq<char>>,
)
    ensures
        sessions.after_all(archive_plan(Some(archive), family_id), written) == put_away(
            sessions,
            archive,
            family_id,
            ArchiveOrigin::ProviderSync,
            true,
            sessions.after_all(archive_plan(Some(archive), family_id), written).labels,
        ),
{
    let steps = archive_plan(Some(archive), family_id);
    assert(steps.take(0) =~= Seq::empty());
    lemma_after_next(sessions, steps, 0, written);
    lemma_after_next(sessions, steps, 1, written);
    lemma_after_next(sessions, steps, 2, written);
    lemma_after_next(sessions, steps, 3, written);
    lemma_after_next(sessions, steps, 4, written);
    lemma_after_next(sessions, steps, 5, written);
    lemma_after_next(sessions, steps, 6, written);
    lemma_after_next(sessions, steps, 7, written);
    lemma_after_next(sessions, steps, 8, written);
    assert(steps.take(9) =~= steps);
    let chain = sessions.families[family_id].chain;
    assert(noted_states(
        archived_states(chain, archive.branch_id, None),
        archive.branch_id,
        ArchiveOrigin::ProviderSync,
    ) =~= archived_states(chain, archive.branch_id, Some(ArchiveOrigin::ProviderSync)));
    let after = sessions.after_all(steps, written);
    let wanted = put_away(
        sessions,
        archive,
        family_id,
        ArchiveOrigin::ProviderSync,
        true,
        after.labels,
    );
    assert(after.families =~= wanted.families);
    assert(after.rows =~= wanted.rows);
    assert(sessions.after_all(steps, written) =~= put_away(
        sessions,
        archive,
        family_id,
        ArchiveOrigin::ProviderSync,
        true,
        after.labels,
    ));
}

/// A rollback puts the rollout of the active branch away, as one that was archived by hand.
pub proof fn law_rollback_puts_away(
    sessions: SessionsView,
    current: MoveView,
    family_id: Seq<char>,
    written: Seq<Seq<char>>,
)
    ensures
        sessions.after_all(retire_plan(current, family_id), written) == put_away(
            sessions,
            current,
            family_id,
            ArchiveOrigin::Manual,
            false,
            sessions.after_all(retire_plan(current, family_id), written).labels,
        ),
{
    let steps = retire_plan(current, family_id);
    assert(steps.take(0) =~= Seq::empty());
    lemma_after_next(sessions, steps, 0, written);
    lemma_after_next(sessions, steps, 1, written);
    lemma_after_next(sessions, steps, 2, written);
    lemma_after_next(sessions, steps, 3, written);
    lemma_after_next(sessions, steps, 4, written);
    lemma_after_next(sessions, steps, 5, written);
    lemma_after_next(sessions, steps, 6, written);
    lemma_after_next(sessions, steps, 7, written);
    assert(steps.take(8) =~= steps);
    assert(sessions.after_all(steps, written) =~= put_away(
        sessions,
        current,
        family_id,
        ArchiveOrigin::Manual,
        false,
        sessions.after_all(steps, written).labels,
    ));
}

/// The sessions after a branch became the active one of its family again, given its threads row.
pub open spec fn entered_again(
    sessions: SessionsView,
    family_id: Seq<char>,
    id: Seq<char>,
    row: RowView,
    labels: LabelsView,
) -> SessionsView {
    SessionsView {
        labels,
        rows: sessions.rows.insert(id, row),
        listed: sessions.listed.insert(id),
        ledger: sessions.ledger.remove(id),
        ..sessions.with_family(
            family_id,
            FamilyState {
                active_id: id,
                chain: activated_states(sessions.families[family_id].chain, id),
            },
        )
    }
}

/// A branch that enters again as the active one of its family.
pub proof fn lemma_entered_again(
    sessions: SessionsView,
    family_id: Seq<char>,
    id: Seq<char>,
    path: Seq<char>,
    thread_name: Seq<char>,
    written: Seq<Seq<char>>,
)
    requires
        sessions.row_at(path) matches Some((stated, _)) && stated == id,
    ensures
        sessions.after_all(reenter_plan(family_id, id, path, thread_name), written)
            == entered_again(
            sessions,
            family_id,
            id,
            sessions.row_at(path)->Some_0.1,
            sessions.after_all(reenter_plan(family_id, id, path, thread_name), written).labels,
        ),
{
    let steps = reenter_plan(family_id, id, path, thread_name);
    assert(steps.take(0) =~= Seq::empty());
    lemma_after_next(sessions, steps, 0, written);
    lemma_after_next(sessions, steps, 1, written);
    lemma_after_next(sessions, steps, 2, written);
    lemma_after_next(sessions, steps, 3, written);
    lemma_after_next(sessions, steps, 4, written);
    assert(steps.take(5) =~= steps);
    assert(sessions.after_all(steps, written) =~= entered_again(
        sessions,
        family_id,
        id,
        sessions.row_at(path)->Some_0.1,
        sessions.after_all(steps, written).labels,
    ));
}

/// A rollout that is brought back to where it belongs.
pub proof fn lemma_restored(
    sessions: SessionsView,
    path: Seq<char>,
    archived: Seq<char>,
    written: Seq<Seq<char>>,
)
    ensures
        sessions.after_all(restore_plan(path, Some(archived)), written) == (SessionsView {
            rollouts: sessions.rollouts.remove(archived).insert(path, sessions.rollouts[archived]),
            ..sessions
        }),
{
    let steps = restore_plan(path, Some(archived));
    assert(steps.take(0) =~= Seq::empty());
    lemma_after_next(sessions, steps, 0, written);
    lemma_after_next(sessions, steps, 1, written);
    lemma_after_next(sessions, steps, 2, written);
    assert(steps.take(3) =~= steps);
}

/// The payload of the metadata by which lines state a session.
pub open spec fn payload_of(lines: Seq<Seq<char>>) -> JsonView {
    first_found(lines, line_payloads())->Some_0
}

proof fn lemma_copy_started(
    sessions: SessionsView,
    source_path: Seq<char>,
    new_path: Seq<char>,
    id: Seq<char>,
    provider: Seq<char>,
    written: Seq<Seq<char>>,
)
    requires
        states_session(written, id, provider),
    ensures
        sessions.after_all(copy_start(source_path, new_path), written) == (SessionsView {
            rollouts: sessions.rollouts.insert(new_path, written),
            rows: sessions.rows.insert(id, row_for(payload_of(written), new_path)),
            labels: sessions.labels.entitled(id, written),
            ..sessions
        }),
{
    let steps = copy_start(source_path, new_path);
    assert(steps.take(0) =~= Seq::empty());
    lemma_after_next(sessions, steps, 0, written);
    lemma_after_next(sessions, steps, 1, written);
    lemma_after_next(sessions, steps, 2, written);
    assert(steps.take(3) =~= steps);
}

/// The sessions after a session was copied for a provider, and its own rollout put away where
/// `archive` says so.
pub open spec fn switched(
    sessions: SessionsView,
    session: NewSessionView,
    family_id: Seq<char>,
    archive: Option<MoveView>,
    written: Seq<Seq<char>>,
    labels: LabelsView,
) -> SessionsView {
    let copied = SessionsView {
        rollouts: sessions.rollouts.insert(session.path, written),
        rows: sessions.rows.insert(session.id, row_for(payload_of(written), session.path)),
        ..sessions
    };
    let cleared = match archive {
        Some(archive) => put_away(
            copied,
            archive,
            family_id,
            ArchiveOrigin::ProviderSync,
            true,
            labels,
        ),
        None => copied,
    };
    let chain = cleared.families[family_id].chain;
    let branch = new_state(session);
    SessionsView {
        labels,
        listed: cleared.listed.insert(session.id),
        ..cleared.with_family(
            family_id,
            FamilyState {
                active_id: session.id,
                chain: if archive is Some {
                    chain.push(branch)
                } else {
                    retired_states(chain).push(branch)
                },
            },
        )
    }
}

/// The branch of a new session.
pub open spec fn new_state(session: NewSessionView) -> BranchState {
    BranchState {
        id: session.id,
        provider: session.provider,
        relpath: session.relpath,
        status: BranchStatus::Active,
        origin: None,
    }
}

/// Copying a session for a provider makes the copy the active branch. Its own rollout is put away
/// for the sync of providers, or stays where it is while its branch gives way.
pub proof fn law_switch_replaces_the_session(
    sessions: SessionsView,
    session: NewSessionView,
    family_id: Seq<char>,
    source_path: Seq<char>,
    archive: Option<MoveView>,
    brief: Option<BriefView>,
    host_cwd: Seq<char>,
    thread_name: Seq<char>,
    deferred: bool,
    written: Seq<Seq<char>>,
)
    requires
        states_session(written, session.id, session.provider),
        brief is Some,
    ensures
        copy_rest(session, family_id, archive, brief, host_cwd, thread_name, deferred) matches Ok(
            rest,
        ) && sessions.after_all(copy_start(source_path, session.path) + rest, written)
            == switched(
            sessions,
            session,
            family_id,
            archive,
            written,
            sessions.after_all(copy_start(source_path, session.path) + rest, written).labels,
        ),
{
    let rest = copy_rest(
        session,
        family_id,
        archive,
        brief,
        host_cwd,
        thread_name,
        deferred,
    )->Ok_0;
    let start = copy_start(source_path, session.path);
    let told = brief->Some_0;
    let assignment = assignment_of(told.id, told.cwd, host_cwd);
    let a = assignment_steps(assignment, false, deferred);
    let title = seq![StepView::CarryTitle { from_id: session.made_of, to_id: session.id }];
    let plan = archive_plan(archive, family_id);
    let branch = new_branch_view(session, "cloned_from:"@ + session.made_of);
    let last = seq![
        branch_step(family_id, branch, archive is Some),
        StepView::AppendIndexLine { id: session.id, thread_name },
        StepView::SaveStore,
    ];
    assert(rest == a + title + plan + last);
    lemma_after_both(sessions, start, rest, written);
    let first = sessions.after_all(start, written);
    lemma_copy_started(
        sessions,
        source_path,
        session.path,
        session.id,
        session.provider,
        written,
    );
    lemma_after_both(first, a + title + plan, last, written);
    lemma_after_both(first, a + title, plan, written);
    lemma_after_both(first, a, title, written);
    lemma_assignment_effect(first, assignment, false, deferred, written);
    assert(title.take(0) =~= Seq::empty());
    assert(title.take(1) =~= title);
    let named = first.after_all(a, written).after_all(title, written);
    lemma_after_next(first.after_all(a, written), title, 0, written);
    assert(first.after_all(a + title, written) == named);
    assert(named == relabelled(first, named.labels));
    if let Some(archive) = archive {
        law_switch_puts_away(named, archive, family_id, written);
    }
    let cleared = named.after_all(plan, written);
    assert(last.take(0) =~= Seq::empty());
    lemma_after_next(cleared, last, 0, written);
    lemma_after_next(cleared, last, 1, written);
    lemma_after_next(cleared, last, 2, written);
    assert(last.take(3) =~= last);
    assert(branch_state(branch) == new_state(session));
    assert(cleared.after_all(last, written) =~= switched(
        sessions,
        session,
        family_id,
        archive,
        written,
        cleared.after_all(last, written).labels,
    ));
}

/// The sessions after the rollout of a session was rewritten for a provider.
pub open spec fn rewritten(
    sessions: SessionsView,
    source: BriefView,
    family_id: Seq<char>,
    provider: Seq<char>,
    written: Seq<Seq<char>>,
    labels: LabelsView,
) -> SessionsView {
    SessionsView {
        labels,
        rollouts: sessions.rollouts.insert(source.path, written),
        rows: sessions.rows.insert(source.id, row_for(payload_of(written), source.path)),
        listed: sessions.listed.insert(source.id),
        ..sessions.with_family(
            family_id,
            rebranded_state(sessions.families[family_id], provider),
        )
    }
}

/// Rewriting a session for a provider keeps it the active branch, which then belongs to the
/// provider.
pub proof fn law_rewrite_keeps_the_session(
    sessions: SessionsView,
    source: BriefView,
    assignment: Option<AssignmentView>,
    family_id: Seq<char>,
    provider: Seq<char>,
    written: Seq<Seq<char>>,
)
    requires
        states_session(written, source.id, provider),
    ensures
        sessions.after_all(follow_plan(source, assignment, family_id, provider), written)
            == rewritten(
            sessions,
            source,
            family_id,
            provider,
            written,
            sessions.after_all(follow_plan(source, assignment, family_id, provider), written).labels,
        ),
{
    let a = assignment_steps(assignment, true, false);
    let steps = seq![
        StepView::RewriteProvider { path: source.path },
        StepView::SyncThread { path: source.path },
        StepView::AppendIndexLine { id: source.id, thread_name: source.first_user_message },
        StepView::SetActiveProvider { family_id, provider },
        StepView::SaveStore,
    ];
    assert(follow_plan(source, assignment, family_id, provider) == a + steps);
    lemma_after_both(sessions, a, steps, written);
    lemma_assignment_effect(sessions, assignment, true, false, written);
    let assigned = sessions.after_all(a, written);
    assert(steps.take(0) =~= Seq::empty());
    lemma_after_next(assigned, steps, 0, written);
    lemma_after_next(assigned, steps, 1, written);
    lemma_after_next(assigned, steps, 2, written);
    lemma_after_next(assigned, steps, 3, written);
    lemma_after_next(assigned, steps, 4, written);
    assert(steps.take(5) =~= steps);
    assert(assigned.after_all(steps, written) =~= rewritten(
        sessions,
        source,
        family_id,
        provider,
        written,
        assigned.after_all(steps, written).labels,
    ));
}

/// The sessions after a fork that Codex made was entered.
pub open spec fn fork_entered(
    sessions: SessionsView,
    session: NewSessionView,
    family_id: Seq<char>,
    labels: LabelsView,
) -> SessionsView {
    SessionsView {
        labels,
        listed: sessions.listed.insert(session.id),
        ..sessions.with_family(
            family_id,
            FamilyState {
                active_id: session.id,
                chain: retired_states(sessions.families[family_id].chain).push(new_state(session)),
            },
        )
    }
}

/// Entering a fork that Codex made makes it the active branch, before which the others give way.
pub proof fn law_fork_replaces_the_session(
    sessions: SessionsView,
    session: NewSessionView,
    session_id: Seq<char>,
    family_id: Seq<char>,
    brief: BriefView,
    host_cwd: Seq<char>,
    deferred: bool,
    display: Option<Seq<char>>,
    first_message: Seq<char>,
    written: Seq<Seq<char>>,
)
    ensures
        ({
            let (first, second) = entry_plan(
                session,
                session_id,
                family_id,
                brief,
                host_cwd,
                deferred,
            );
            let after = sessions.after_all(
                first + second + naming_plan(session.id, display, first_message),
                written,
            );
            after == fork_entered(sessions, session, family_id, after.labels)
        }),
{
    let (first, second) = entry_plan(session, session_id, family_id, brief, host_cwd, deferred);
    let last = naming_plan(session.id, display, first_message);
    lemma_after_both(sessions, first + second, last, written);
    lemma_after_both(sessions, first, second, written);
    assert(first.take(0) =~= Seq::empty());
    lemma_after_next(sessions, first, 0, written);
    lemma_after_next(sessions, first, 1, written);
    assert(first.take(2) =~= first);
    let entered = sessions.after_all(first, written);
    lemma_assignment_effect(
        entered,
        assignment_of(brief.id, brief.cwd, host_cwd),
        false,
        deferred,
        written,
    );
    let entered = entered.after_all(second, written);
    assert(last.take(0) =~= Seq::empty());
    lemma_after_next(entered, last, 0, written);
    lemma_after_next(entered, last, 1, written);
    assert(last.take(2) =~= last);
    assert(branch_state(
        new_branch_view(session, "official_fork_from:"@ + session.made_of),
    ) == new_state(session));
    assert(entered.after_all(last, written) =~= fork_entered(
        sessions,
        session,
        family_id,
        entered.after_all(last, written).labels,
    ));
}

} // verus!
