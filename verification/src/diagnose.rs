//! The overall diagnosis: how far rollouts, session index and threads table agree.

use vstd::prelude::*;

use crate::error::{AppError, ErrorView};
use crate::json::{json_document, member_text};
use crate::provider_sync::{
    list_mismatched_sessions, mismatched, ActiveRolloutView, SyncState, SyncStateView, TargetView,
};
use crate::rollout::{opt_identity, IdentityView, RolloutIdentity};
use crate::seqs::lemma_filter_map_has;
use crate::session_index::{line_ids, listed_ids};
use crate::sorted::{
    ascending, difference, lemma_sorted_texts, lemma_texts_without, lemma_with_text, sort_texts,
    sorted_texts, texts_without,
};
use crate::subagents::{edges_view, find_orphan_subagent_ids, is_orphan, EdgeView, SpawnEdge};
use crate::text::{texts, trimmed};

verus! {

/// A row of the threads table.
pub struct ThreadRow {
    pub id: String,
    pub archived: bool,
}

/// What a [`ThreadRow`] holds.
#[verifier::ext_equal]
pub struct ThreadRowView {
    pub id: Seq<char>,
    pub archived: bool,
}

impl View for ThreadRow {
    type V = ThreadRowView;

    open spec fn view(&self) -> ThreadRowView {
        ThreadRowView { id: self.id@, archived: self.archived }
    }
}

/// What a list of rows holds.
pub open spec fn rows_view(rows: Seq<ThreadRow>) -> Seq<ThreadRowView> {
    rows.map_values(|row: ThreadRow| row@)
}

/// The state that a diagnosis looks at: the rollouts of archived sessions, each with
/// its identity where it states one, the lines of the session index, the rows of the
/// threads table, the sessions that others spawned, and what provider sync reads, the
/// rollouts of active sessions among it.
pub struct CodexState {
    pub archived: Vec<Option<RolloutIdentity>>,
    pub index_lines: Vec<String>,
    pub threads: Vec<ThreadRow>,
    pub spawned: Vec<SpawnEdge>,
    pub sync: SyncState,
}

/// What a [`CodexState`] holds.
#[verifier::ext_equal]
pub struct CodexStateView {
    pub archived: Seq<Option<IdentityView>>,
    pub index_lines: Seq<Seq<char>>,
    pub threads: Seq<ThreadRowView>,
    pub spawned: Seq<EdgeView>,
    pub sync: SyncStateView,
}

/// What a list of identities holds.
pub open spec fn identities_view(identities: Seq<Option<RolloutIdentity>>) -> Seq<
    Option<IdentityView>,
> {
    identities.map_values(|identity: Option<RolloutIdentity>| opt_identity(identity))
}

impl View for CodexState {
    type V = CodexStateView;

    open spec fn view(&self) -> CodexStateView {
        CodexStateView {
            archived: identities_view(self.archived@),
            index_lines: texts(self.index_lines@),
            threads: rows_view(self.threads@),
            spawned: edges_view(self.spawned@),
            sync: self.sync@,
        }
    }
}

/// The outcome of a diagnosis.
pub struct DiagnosticReport {
    pub rollout_count: u32,
    pub archived_rollout_count: u32,
    pub index_count: u32,
    pub threads_count: u32,
    pub threads_active_count: u32,
    pub threads_archived_count: u32,
    pub rollout_ids: Vec<String>,
    pub index_ids: Vec<String>,
    pub threads_ids: Vec<String>,
    pub missing_in_index: Vec<String>,
    pub missing_in_threads: Vec<String>,
    pub orphan_in_index: Vec<String>,
    pub orphan_in_threads: Vec<String>,
    pub orphan_subagent_count: u32,
    pub orphan_subagent_ids: Vec<String>,
    pub current_provider: Option<String>,
    pub provider_mismatched_families: u32,
}

/// The sessions of active rollouts, sorted.
pub open spec fn active_ids(state: CodexStateView) -> Seq<Seq<char>> {
    sorted_texts(state.sync.rollouts.map_values(|rollout: ActiveRolloutView| rollout.identity.id))
}

/// Gives the session of each identity.
pub open spec fn identity_ids() -> spec_fn(Option<IdentityView>) -> Option<Seq<char>> {
    |identity: Option<IdentityView>|
        match identity {
            Some(identity) => Some(identity.id),
            None => None,
        }
}

/// The sessions of archived rollouts, sorted.
pub open spec fn archived_ids(state: CodexStateView) -> Seq<Seq<char>> {
    sorted_texts(state.archived.filter_map(identity_ids()))
}

/// The sessions of the session index, sorted.
pub open spec fn indexed_ids(state: CodexStateView) -> Seq<Seq<char>> {
    sorted_texts(state.index_lines.filter_map(line_ids()))
}

/// Gives the session of each row, whether archived or not.
pub open spec fn row_ids() -> spec_fn(ThreadRowView) -> Option<Seq<char>> {
    |row: ThreadRowView| Some(row.id)
}

/// Gives the session of each row that is archived, or of each that is not.
pub open spec fn row_ids_where(archived: bool) -> spec_fn(ThreadRowView) -> Option<Seq<char>> {
    |row: ThreadRowView|
        if row.archived == archived {
            Some(row.id)
        } else {
            None
        }
}

/// The sessions of the threads table, sorted.
pub open spec fn thread_ids(state: CodexStateView) -> Seq<Seq<char>> {
    sorted_texts(state.threads.filter_map(row_ids()))
}

/// The sessions that the threads table has as archived, or as not archived, sorted.
pub open spec fn thread_ids_where(state: CodexStateView, archived: bool) -> Seq<Seq<char>> {
    sorted_texts(state.threads.filter_map(row_ids_where(archived)))
}

/// The sessions that a rollout or a threads row shows to exist.
pub open spec fn existing_ids(state: CodexStateView) -> Seq<Seq<char>> {
    active_ids(state) + archived_ids(state) + thread_ids(state)
}

/// Whether a report is the diagnosis of a state, with the current provider and the
/// targets of provider sync.
pub open spec fn is_diagnosis(
    report: DiagnosticReport,
    state: CodexStateView,
    provider: Seq<char>,
    targets: Seq<TargetView>,
) -> bool {
    let rollouts = active_ids(state);
    let index = indexed_ids(state);
    let threads = thread_ids(state);
    &&& texts(report.rollout_ids@) == rollouts
    &&& texts(report.index_ids@) == index
    &&& texts(report.threads_ids@) == threads
    &&& texts(report.missing_in_index@) == texts_without(rollouts, index)
    &&& texts(report.missing_in_threads@) == texts_without(rollouts, threads)
    &&& texts(report.orphan_in_index@) == texts_without(index, rollouts)
    &&& texts(report.orphan_in_threads@) == texts_without(
        texts_without(threads, rollouts),
        archived_ids(state),
    )
    &&& ascending(texts(report.orphan_subagent_ids@))
    &&& forall|id: Seq<char>| #[trigger]
        texts(report.orphan_subagent_ids@).contains(id) <==> is_orphan(
            state.spawned,
            existing_ids(state),
            id,
        )
    &&& report.rollout_count == rollouts.len() as u32
    &&& report.archived_rollout_count == state.archived.len() as u32
    &&& report.index_count == index.len() as u32
    &&& report.threads_count == threads.len() as u32
    &&& report.threads_active_count == thread_ids_where(state, false).len() as u32
    &&& report.threads_archived_count == thread_ids_where(state, true).len() as u32
    &&& report.orphan_subagent_count == report.orphan_subagent_ids@.len() as u32
    &&& crate::text::opt_text(report.current_provider) == Some(provider)
    &&& report.provider_mismatched_families == targets.len() as u32
}

fn rollout_ids_of(state: &CodexState) -> (ids: Vec<String>)
    ensures
        texts(ids@) == active_ids(state@),
{
    let ghost all = state@.sync.rollouts;
    let ghost pick = |rollout: ActiveRolloutView| rollout.identity.id;
    let mut ids: Vec<String> = Vec::new();
    let mut at: usize = 0;
    while at < state.sync.rollouts.len()
        invariant
            at <= state.sync.rollouts@.len(),
            all == state@.sync.rollouts,
            pick == (|rollout: ActiveRolloutView| rollout.identity.id),
            texts(ids@) == all.take(at as int).map_values(pick),
        decreases state.sync.rollouts.len() - at,
    {
        let ghost before = texts(ids@);
        ids.push(state.sync.rollouts[at].identity.id.clone());
        assert(texts(ids@) =~= before.push(all[at as int].identity.id));
        assert(texts(ids@) =~= all.take(at + 1).map_values(pick));
        at = at + 1;
    }
    assert(all.take(at as int) =~= all);
    sort_texts(&ids)
}

fn archived_ids_of(state: &CodexState) -> (ids: Vec<String>)
    ensures
        texts(ids@) == archived_ids(state@),
{
    let ghost all = state@.archived;
    let mut ids: Vec<String> = Vec::new();
    let mut at: usize = 0;
    while at < state.archived.len()
        invariant
            at <= state.archived@.len(),
            all == state@.archived,
            texts(ids@) == all.take(at as int).filter_map(identity_ids()),
        decreases state.archived.len() - at,
    {
        assert(all.take(at + 1).drop_last() =~= all.take(at as int));
        let ghost before = texts(ids@);
        if let Some(identity) = &state.archived[at] {
            ids.push(identity.id.clone());
            assert(texts(ids@) =~= before + seq![identity.id@]);
        }
        at = at + 1;
    }
    assert(all.take(at as int) =~= all);
    sort_texts(&ids)
}

fn thread_ids_of(state: &CodexState) -> (ids: (Vec<String>, Vec<String>, Vec<String>))
    ensures
        texts(ids.0@) == thread_ids(state@),
        texts(ids.1@) == thread_ids_where(state@, false),
        texts(ids.2@) == thread_ids_where(state@, true),
{
    let ghost all = state@.threads;
    let mut ids: Vec<String> = Vec::new();
    let mut active: Vec<String> = Vec::new();
    let mut archived: Vec<String> = Vec::new();
    let mut at: usize = 0;
    while at < state.threads.len()
        invariant
            at <= state.threads@.len(),
            all == state@.threads,
            texts(ids@) == all.take(at as int).filter_map(row_ids()),
            texts(active@) == all.take(at as int).filter_map(row_ids_where(false)),
            texts(archived@) == all.take(at as int).filter_map(row_ids_where(true)),
        decreases state.threads.len() - at,
    {
        assert(all.take(at + 1).drop_last() =~= all.take(at as int));
        let row = &state.threads[at];
        assert(all.take(at + 1).last() == row@);
        let ghost ids_before = texts(ids@);
        let ghost active_before = texts(active@);
        let ghost archived_before = texts(archived@);
        if row.archived {
            archived.push(row.id.clone());
            assert(texts(archived@) =~= archived_before + seq![row.id@]);
        } else {
            active.push(row.id.clone());
            assert(texts(active@) =~= active_before + seq![row.id@]);
        }
        ids.push(row.id.clone());
        assert(texts(ids@) =~= ids_before + seq![row.id@]);
        at = at + 1;
    }
    assert(all.take(at as int) =~= all);
    (sort_texts(&ids), sort_texts(&active), sort_texts(&archived))
}

fn both(left: &Vec<String>, right: &Vec<String>) -> (all: Vec<String>)
    ensures
        texts(all@) == texts(left@) + texts(right@),
{
    let mut all = crate::text::copy_texts(left);
    let mut rest = crate::text::copy_texts(right);
    let ghost first = all@;
    let ghost second = rest@;
    all.append(&mut rest);
    assert(texts(first + second) =~= texts(first) + texts(second));
    all
}

/// Diagnoses a state, given the current provider. The targets of provider sync may fail
/// to be told; no report is given then.
pub fn diagnose_codex_state(state: &CodexState, current_provider: &str) -> (report: Result<
    DiagnosticReport,
    AppError,
>)
    ensures
        match report {
            Ok(report) => mismatched(state@.sync, current_provider@) matches Ok(targets)
                && is_diagnosis(report, state@, current_provider@, targets),
            Err(error) => mismatched(state@.sync, current_provider@) == Err::<
                Seq<TargetView>,
                ErrorView,
            >(error@),
        },
{
    let rollout_ids = rollout_ids_of(state);
    let archived = archived_ids_of(state);
    let index_ids = sort_texts(&listed_ids(&state.index_lines));
    let (threads_ids, threads_active, threads_archived) = thread_ids_of(state);
    let all_rollouts = both(&rollout_ids, &archived);
    let orphan_subagent_ids = find_orphan_subagent_ids(&state.spawned, &all_rollouts, &threads_ids);
    let missing_in_index = difference(&rollout_ids, &index_ids);
    let missing_in_threads = difference(&rollout_ids, &threads_ids);
    let orphan_in_index = difference(&index_ids, &rollout_ids);
    let orphan_in_threads = difference(&difference(&threads_ids, &rollout_ids), &archived);
    let targets = match list_mismatched_sessions(&state.sync, current_provider) {
        Ok(targets) => targets,
        Err(error) => return Err(error),
    };
    Ok(
        DiagnosticReport {
            rollout_count: rollout_ids.len() as u32,
            archived_rollout_count: state.archived.len() as u32,
            index_count: index_ids.len() as u32,
            threads_count: threads_ids.len() as u32,
            threads_active_count: threads_active.len() as u32,
            threads_archived_count: threads_archived.len() as u32,
            rollout_ids,
            index_ids,
            threads_ids,
            missing_in_index,
            missing_in_threads,
            orphan_in_index,
            orphan_in_threads,
            orphan_subagent_count: orphan_subagent_ids.len() as u32,
            orphan_subagent_ids,
            current_provider: Some(current_provider.to_owned()),
            provider_mismatched_families: targets.len() as u32,
        },
    )
}

/// A session is missing in the index where it has an active rollout and the index does
/// not hold it; it is an orphan there where the index holds it without such a rollout.
/// No session is both.
pub proof fn law_index_differences(state: CodexStateView, id: Seq<char>)
    ensures
        texts_without(active_ids(state), indexed_ids(state)).contains(id) <==> active_ids(
            state,
        ).contains(id) && !indexed_ids(state).contains(id),
        texts_without(indexed_ids(state), active_ids(state)).contains(id) <==> indexed_ids(
            state,
        ).contains(id) && !active_ids(state).contains(id),
        !(texts_without(active_ids(state), indexed_ids(state)).contains(id) && texts_without(
            indexed_ids(state),
            active_ids(state),
        ).contains(id)),
{
    lemma_texts_without(active_ids(state), indexed_ids(state));
    lemma_texts_without(indexed_ids(state), active_ids(state));
}

/// A session that has an archived rollout is no orphan in the threads table.
pub proof fn law_archived_rollouts_are_no_thread_orphans(state: CodexStateView, id: Seq<char>)
    requires
        archived_ids(state).contains(id),
    ensures
        !texts_without(
            texts_without(thread_ids(state), active_ids(state)),
            archived_ids(state),
        ).contains(id),
{
    lemma_texts_without(
        texts_without(thread_ids(state), active_ids(state)),
        archived_ids(state),
    );
}

/// Every list of sessions in a diagnosis is in ascending order, so it holds each session
/// once.
pub proof fn law_lists_are_sorted(
    report: DiagnosticReport,
    state: CodexStateView,
    provider: Seq<char>,
    targets: Seq<TargetView>,
)
    requires
        is_diagnosis(report, state, provider, targets),
    ensures
        ascending(texts(report.rollout_ids@)),
        ascending(texts(report.index_ids@)),
        ascending(texts(report.threads_ids@)),
        ascending(texts(report.missing_in_index@)),
        ascending(texts(report.missing_in_threads@)),
        ascending(texts(report.orphan_in_index@)),
        ascending(texts(report.orphan_in_threads@)),
        ascending(texts(report.orphan_subagent_ids@)),
{
    lemma_sorted_texts(
        state.sync.rollouts.map_values(|rollout: ActiveRolloutView| rollout.identity.id),
    );
    lemma_sorted_texts(state.index_lines.filter_map(line_ids()));
    lemma_sorted_texts(state.threads.filter_map(row_ids()));
    lemma_texts_without(active_ids(state), indexed_ids(state));
    lemma_texts_without(active_ids(state), thread_ids(state));
    lemma_texts_without(indexed_ids(state), active_ids(state));
    lemma_texts_without(thread_ids(state), active_ids(state));
    lemma_texts_without(texts_without(thread_ids(state), active_ids(state)), archived_ids(state));
}

proof fn lemma_distinct_rows(rows: Seq<ThreadRowView>)
    requires
        forall|i: int, j: int| 0 <= i < j < rows.len() ==> rows[i].id != rows[j].id,
    ensures
        sorted_texts(rows.filter_map(row_ids())).len() == rows.len(),
        sorted_texts(rows.filter_map(row_ids_where(false))).len() + sorted_texts(
            rows.filter_map(row_ids_where(true)),
        ).len() == rows.len(),
        forall|id: Seq<char>|
            rows.filter_map(row_ids()).contains(id) ==> exists|i: int|
                0 <= i < rows.len() && (#[trigger] rows[i]).id == id,
        forall|id: Seq<char>, archived: bool|
            rows.filter_map(row_ids_where(archived)).contains(id) ==> exists|i: int|
                0 <= i < rows.len() && (#[trigger] rows[i]).id == id,
    decreases rows.len(),
{
    if rows.len() > 0 {
        let rest = rows.drop_last();
        let last = rows.last();
        assert forall|i: int, j: int| 0 <= i < j < rest.len() implies rest[i].id != rest[j].id by {
            assert(rest[i] == rows[i] && rest[j] == rows[j]);
        }
        lemma_distinct_rows(rest);
        lemma_added_row(rest.filter_map(row_ids()), last.id);
        lemma_added_row(rest.filter_map(row_ids_where(last.archived)), last.id);
        assert forall|id: Seq<char>| rows.filter_map(row_ids()).contains(id) implies exists|i: int|
            0 <= i < rows.len() && (#[trigger] rows[i]).id == id by {
            lemma_row_of(rows, row_ids(), id);
        }
        assert forall|id: Seq<char>, archived: bool|
            rows.filter_map(row_ids_where(archived)).contains(id) implies exists|i: int|
            0 <= i < rows.len() && (#[trigger] rows[i]).id == id by {
            lemma_row_of(rows, row_ids_where(archived), id);
        }
        assert forall|i: int| 0 <= i < rest.len() implies (#[trigger] rest[i]).id != last.id by {
            assert(rest[i] == rows[i] && rows[rows.len() - 1] == last);
        }
    }
}

proof fn lemma_row_of(
    rows: Seq<ThreadRowView>,
    pick: spec_fn(ThreadRowView) -> Option<Seq<char>>,
    id: Seq<char>,
)
    requires
        rows.filter_map(pick).contains(id),
        forall|row: ThreadRowView| #[trigger] pick(row) is Some ==> pick(row) == Some(row.id),
    ensures
        exists|i: int| 0 <= i < rows.len() && (#[trigger] rows[i]).id == id,
{
    rows.lemma_filter_map_contains(pick, id);
    let row = choose|row: ThreadRowView| #[trigger] rows.contains(row) && pick(row) == Some(id);
    let i = choose|i: int| 0 <= i < rows.len() && rows[i] == row;
    assert(rows[i].id == id);
}

proof fn lemma_added_row(ids: Seq<Seq<char>>, id: Seq<char>)
    requires
        !ids.contains(id),
    ensures
        sorted_texts(ids + seq![id]).len() == sorted_texts(ids).len() + 1,
{
    lemma_sorted_texts(ids);
    lemma_with_text(sorted_texts(ids), id);
    assert((ids + seq![id]).drop_last() =~= ids);
    assert((ids + seq![id]).last() == id);
}

/// Where no two threads rows are of one session, the threads are those that are active and those
/// that are archived.
pub proof fn law_threads_are_active_or_archived(
    report: DiagnosticReport,
    state: CodexStateView,
    provider: Seq<char>,
    targets: Seq<TargetView>,
)
    requires
        is_diagnosis(report, state, provider, targets),
        state.threads.len() <= u32::MAX,
        forall|i: int, j: int|
            0 <= i < j < state.threads.len() ==> state.threads[i].id != state.threads[j].id,
    ensures
        report.threads_count == state.threads.len(),
        report.threads_count == report.threads_active_count + report.threads_archived_count,
{
    lemma_distinct_rows(state.threads);
}

/// Whether an active rollout states a session.
pub open spec fn has_active_rollout(state: CodexStateView, id: Seq<char>) -> bool {
    exists|i: int|
        0 <= i < state.sync.rollouts.len() && (#[trigger] state.sync.rollouts[i]).identity.id == id
}

/// Whether an archived rollout states a session.
pub open spec fn has_archived_rollout(state: CodexStateView, id: Seq<char>) -> bool {
    exists|i: int|
        0 <= i < state.archived.len() && (#[trigger] state.archived[i] matches Some(identity)
            && identity.id == id)
}

/// Whether a line of the index that is not blank has a session under its `id`.
pub open spec fn is_indexed(state: CodexStateView, id: Seq<char>) -> bool {
    exists|i: int|
        0 <= i < state.index_lines.len() && trimmed(#[trigger] state.index_lines[i]).len() > 0 && (
        json_document(state.index_lines[i]) matches Some(value) && member_text(value, "id"@)
            == Some(id))
}

/// Whether the threads table has a row of a session.
pub open spec fn has_thread(state: CodexStateView, id: Seq<char>) -> bool {
    exists|i: int| 0 <= i < state.threads.len() && (#[trigger] state.threads[i]).id == id
}

proof fn lemma_active_ids(state: CodexStateView, id: Seq<char>)
    ensures
        active_ids(state).contains(id) <==> has_active_rollout(state, id),
{
    let ids = state.sync.rollouts.map_values(|rollout: ActiveRolloutView| rollout.identity.id);
    lemma_sorted_texts(ids);
    if ids.contains(id) {
        let i = choose|i: int| 0 <= i < ids.len() && ids[i] == id;
        assert(state.sync.rollouts[i].identity.id == id);
    }
    if has_active_rollout(state, id) {
        let i = choose|i: int|
            0 <= i < state.sync.rollouts.len() && (#[trigger] state.sync.rollouts[i]).identity.id
                == id;
        assert(ids[i] == id);
    }
}

proof fn lemma_archived_ids(state: CodexStateView, id: Seq<char>)
    ensures
        archived_ids(state).contains(id) <==> has_archived_rollout(state, id),
{
    let found = state.archived.filter_map(identity_ids());
    lemma_sorted_texts(found);
    if found.contains(id) {
        state.archived.lemma_filter_map_contains(identity_ids(), id);
        let item = choose|item: Option<IdentityView>| #[trigger]
            state.archived.contains(item) && identity_ids()(item) == Some(id);
        let i = choose|i: int| 0 <= i < state.archived.len() && state.archived[i] == item;
        assert(state.archived[i] matches Some(identity) && identity.id == id);
    }
    if has_archived_rollout(state, id) {
        let i = choose|i: int|
            0 <= i < state.archived.len() && (#[trigger] state.archived[i] matches Some(identity)
                && identity.id == id);
        lemma_filter_map_has(state.archived, identity_ids(), i);
    }
}

proof fn lemma_indexed_ids(state: CodexStateView, id: Seq<char>)
    ensures
        indexed_ids(state).contains(id) <==> is_indexed(state, id),
{
    let found = state.index_lines.filter_map(line_ids());
    lemma_sorted_texts(found);
    if found.contains(id) {
        state.index_lines.lemma_filter_map_contains(line_ids(), id);
        let line = choose|line: Seq<char>| #[trigger]
            state.index_lines.contains(line) && line_ids()(line) == Some(id);
        let i = choose|i: int| 0 <= i < state.index_lines.len() && state.index_lines[i] == line;
        assert(trimmed(state.index_lines[i]).len() > 0);
    }
    if is_indexed(state, id) {
        let i = choose|i: int|
            0 <= i < state.index_lines.len() && trimmed(#[trigger] state.index_lines[i]).len() > 0
                && (json_document(state.index_lines[i]) matches Some(value) && member_text(
                value,
                "id"@,
            ) == Some(id));
        lemma_filter_map_has(state.index_lines, line_ids(), i);
    }
}

proof fn lemma_thread_ids(state: CodexStateView, id: Seq<char>)
    ensures
        thread_ids(state).contains(id) <==> has_thread(state, id),
{
    let found = state.threads.filter_map(row_ids());
    lemma_sorted_texts(found);
    if found.contains(id) {
        lemma_row_of(state.threads, row_ids(), id);
    }
    if has_thread(state, id) {
        let i = choose|i: int| 0 <= i < state.threads.len() && (#[trigger] state.threads[i]).id == id;
        lemma_filter_map_has(state.threads, row_ids(), i);
    }
}

/// What a diagnosis lists. A session is missing in the index or the threads table where it has an
/// active rollout and is not there; it is an orphan in the index where it has no active rollout, and
/// in the threads table where it has no rollout at all.
pub proof fn law_what_a_diagnosis_lists(
    report: DiagnosticReport,
    state: CodexStateView,
    provider: Seq<char>,
    targets: Seq<TargetView>,
    id: Seq<char>,
)
    requires
        is_diagnosis(report, state, provider, targets),
    ensures
        texts(report.rollout_ids@).contains(id) <==> has_active_rollout(state, id),
        texts(report.index_ids@).contains(id) <==> is_indexed(state, id),
        texts(report.threads_ids@).contains(id) <==> has_thread(state, id),
        texts(report.missing_in_index@).contains(id) <==> has_active_rollout(state, id)
            && !is_indexed(state, id),
        texts(report.missing_in_threads@).contains(id) <==> has_active_rollout(state, id)
            && !has_thread(state, id),
        texts(report.orphan_in_index@).contains(id) <==> is_indexed(state, id)
            && !has_active_rollout(state, id),
        texts(report.orphan_in_threads@).contains(id) <==> has_thread(state, id)
            && !has_active_rollout(state, id) && !has_archived_rollout(state, id),
{
    lemma_active_ids(state, id);
    lemma_archived_ids(state, id);
    lemma_indexed_ids(state, id);
    lemma_thread_ids(state, id);
    lemma_texts_without(active_ids(state), indexed_ids(state));
    lemma_texts_without(active_ids(state), thread_ids(state));
    lemma_texts_without(indexed_ids(state), active_ids(state));
    lemma_texts_without(thread_ids(state), active_ids(state));
    lemma_texts_without(texts_without(thread_ids(state), active_ids(state)), archived_ids(state));
}

/// What a diagnosis counts: the lists that it gives, the archived rollouts, and the sessions that
/// provider sync would bring to the current provider.
pub proof fn law_what_a_diagnosis_counts(
    report: DiagnosticReport,
    state: CodexStateView,
    provider: Seq<char>,
    targets: Seq<TargetView>,
)
    requires
        is_diagnosis(report, state, provider, targets),
    ensures
        report.rollout_count == report.rollout_ids@.len() as u32,
        report.index_count == report.index_ids@.len() as u32,
        report.threads_count == report.threads_ids@.len() as u32,
        report.orphan_subagent_count == report.orphan_subagent_ids@.len() as u32,
        report.archived_rollout_count == state.archived.len() as u32,
        report.provider_mismatched_families == targets.len() as u32,
{
    assert(texts(report.rollout_ids@).len() == report.rollout_ids@.len());
    assert(texts(report.index_ids@).len() == report.index_ids@.len());
    assert(texts(report.threads_ids@).len() == report.threads_ids@.len());
}

} // verus!
