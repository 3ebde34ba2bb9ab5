//! Rebuilding the session index and the threads table from rollouts.

use vstd::prelude::*;

use crate::continuation::{
    candidate_ids, candidates_view, chosen, is_choice, law_continuation_wins,
    law_newest_of_a_kind_wins, lemma_chosen, name_continues, prefer_continuation,
    rollout_filename_is_paginated_continuation, salvage_id_from_filename, salvaged_id, Candidate,
    CandidateView,
};
use crate::error::{error_text, AppError, ErrorView};
use crate::json::{json_text, member, member_text, reads_back, render, Json, JsonView};
use crate::rollout::{BriefView, RolloutBrief};
use crate::seqs::count_where;
use crate::session_index::line_ids;
use crate::sorted::{lemma_sorted_texts, sorted_texts};
use crate::text::{join2, join3, opt_text, texts};
use crate::threads::{
    column_values, effective_threads_cols, payload_or_null, row_view, thread_values_from_rollout,
    written_columns, RowSource, RowSourceView, SqlValue, SqlView,
};

verus! {

/// What reading a rollout gave: its brief, nothing where it states no session, or why it
/// could not be read.
pub open spec fn reading_view(reading: Result<Option<RolloutBrief>, AppError>) -> Result<
    Option<BriefView>,
    ErrorView,
> {
    match reading {
        Ok(Some(brief)) => Ok(Some(brief@)),
        Ok(None) => Ok(None),
        Err(error) => Err(error@),
    }
}

/// A rollout from which the session index is rebuilt: its path, its file name where that
/// is a text, the stem of that name, when it was last changed, in milliseconds since 1970
/// or 0, and what reading it gave.
pub struct IndexSource {
    pub path: String,
    pub file_name: Option<String>,
    pub stem: Option<String>,
    pub modified_ms: i64,
    pub reading: Result<Option<RolloutBrief>, AppError>,
}

/// What an [`IndexSource`] holds.
#[verifier::ext_equal]
pub struct IndexSourceView {
    pub path: Seq<char>,
    pub file_name: Option<Seq<char>>,
    pub stem: Option<Seq<char>>,
    pub modified_ms: i64,
    pub reading: Result<Option<BriefView>, ErrorView>,
}

impl View for IndexSource {
    type V = IndexSourceView;

    open spec fn view(&self) -> IndexSourceView {
        IndexSourceView {
            path: self.path@,
            file_name: opt_text(self.file_name),
            stem: opt_text(self.stem),
            modified_ms: self.modified_ms,
            reading: reading_view(self.reading),
        }
    }
}

/// What a list of sources holds.
pub open spec fn sources_view(sources: Seq<IndexSource>) -> Seq<IndexSourceView> {
    sources.map_values(|source: IndexSource| source@)
}

/// An entry of the rebuilt index, with its moment and whether the rollout stated its
/// session.
#[verifier::ext_equal]
pub struct PlannedEntry {
    pub id: Seq<char>,
    pub thread_name: Seq<char>,
    pub rollout_path: Seq<char>,
    pub updated_at: int,
    pub is_continuation: bool,
    pub stated: bool,
}

/// Whether a file name is that of a continuation.
pub open spec fn opt_name_continues(name: Option<Seq<char>>) -> bool {
    match name {
        Some(name) => name_continues(name),
        None => false,
    }
}

/// When a session was last changed: as its rollout says, else when it was created, else 0.
pub open spec fn best_moment(brief: BriefView) -> int {
    if brief.updated_at_ms > 0 {
        brief.updated_at_ms
    } else if brief.created_at_ms > 0 {
        brief.created_at_ms
    } else {
        0
    }
}

/// The entry that a rollout gives. One that states no session gives one where its file
/// name still tells an id.
pub open spec fn planned_entry(source: IndexSourceView) -> Option<PlannedEntry> {
    let continues = opt_name_continues(source.file_name);
    match source.reading {
        Ok(Some(brief)) => Some(
            PlannedEntry {
                id: brief.id,
                thread_name: brief.first_user_message,
                rollout_path: brief.path,
                updated_at: best_moment(brief),
                is_continuation: continues,
                stated: true,
            },
        ),
        Ok(None) => match source.stem {
            Some(stem) => match salvaged_id(stem) {
                Some(id) => Some(
                    PlannedEntry {
                        id,
                        thread_name: Seq::empty(),
                        rollout_path: source.path,
                        updated_at: source.modified_ms as int,
                        is_continuation: continues,
                        stated: false,
                    },
                ),
                None => None,
            },
            None => None,
        },
        Err(_) => None,
    }
}

/// Gives each rollout its entry.
pub open spec fn planned_entries() -> spec_fn(IndexSourceView) -> Option<PlannedEntry> {
    |source: IndexSourceView| planned_entry(source)
}

/// The message on a rollout that could not be read.
pub open spec fn reading_error() -> spec_fn(IndexSourceView) -> Option<Seq<char>> {
    |source: IndexSourceView|
        match source.reading {
            Err(error) => Some(source.path + ": "@ + error_text(error)),
            _ => None,
        }
}

/// An entry as far as the choice among files of one session goes.
pub open spec fn entry_candidate(entry: PlannedEntry) -> CandidateView {
    CandidateView {
        id: entry.id,
        updated_at_ms: entry.updated_at,
        is_continuation: entry.is_continuation,
    }
}

/// Entries as far as the choice goes.
pub open spec fn entry_candidates(entries: Seq<PlannedEntry>) -> Seq<CandidateView> {
    entries.map_values(|entry: PlannedEntry| entry_candidate(entry))
}

/// The chosen entries, one for each session, sorted by session.
pub open spec fn chosen_entries(entries: Seq<PlannedEntry>) -> Seq<PlannedEntry> {
    let ids = sorted_texts(entries.map_values(|entry: PlannedEntry| entry.id));
    ids.map_values(|id: Seq<char>| entries[chosen(entry_candidates(entries), id)->Some_0])
}

/// An integer as a JSON value.
pub open spec fn integer_value(number: int) -> JsonView {
    if number >= 0 {
        JsonView::Unsigned(number as u64)
    } else {
        JsonView::Negative(number as i64)
    }
}

/// The line of an entry.
pub open spec fn entry_line(entry: PlannedEntry) -> Seq<char> {
    json_text(
        JsonView::Object(
            Map::empty().insert("id"@, JsonView::Text(entry.id)).insert(
                "thread_name"@,
                JsonView::Text(entry.thread_name),
            ).insert("rollout_path"@, JsonView::Text(entry.rollout_path)).insert(
                "updated_at"@,
                integer_value(entry.updated_at),
            ),
        ),
    )
}

/// Tells the entries of rollouts that stated their session.
pub open spec fn is_stated() -> spec_fn(PlannedEntry) -> bool {
    |entry: PlannedEntry| entry.stated
}

/// Tells the entries whose session was told by the file name alone.
pub open spec fn is_salvaged() -> spec_fn(PlannedEntry) -> bool {
    |entry: PlannedEntry| !entry.stated
}

/// What rebuilding the session index did, or would do.
pub struct IndexRepairReport {
    pub scanned: u32,
    pub written: u32,
    pub salvaged: u32,
    pub dry_run: bool,
    pub errors: Vec<String>,
}

/// The report of a rebuild of the session index, and the lines to write; none on a dry
/// run.
pub struct IndexRepair {
    pub report: IndexRepairReport,
    pub lines: Option<Vec<String>>,
}

struct EntryParts {
    candidate: Candidate,
    thread_name: String,
    rollout_path: String,
    stated: bool,
}

impl EntryParts {
    spec fn planned(self) -> PlannedEntry {
        PlannedEntry {
            id: self.candidate.id@,
            thread_name: self.thread_name@,
            rollout_path: self.rollout_path@,
            updated_at: self.candidate.updated_at_ms as int,
            is_continuation: self.candidate.is_continuation,
            stated: self.stated,
        }
    }
}

fn entry_of(source: &IndexSource) -> (entry: Option<EntryParts>)
    ensures
        match entry {
            Some(entry) => planned_entry(source@) == Some(entry.planned()),
            None => planned_entry(source@) is None,
        },
{
    let name = match &source.file_name {
        Some(name) => Some(name.as_str()),
        None => None,
    };
    let is_continuation = rollout_filename_is_paginated_continuation(name);
    match &source.reading {
        Ok(Some(brief)) => {
            let updated_at_ms = if brief.updated_at_ms > 0 {
                brief.updated_at_ms
            } else if brief.created_at_ms > 0 {
                brief.created_at_ms
            } else {
                0
            };
            Some(
                EntryParts {
                    candidate: Candidate { id: brief.id.clone(), updated_at_ms, is_continuation },
                    thread_name: brief.first_user_message.clone(),
                    rollout_path: brief.path.clone(),
                    stated: true,
                },
            )
        },
        Ok(None) => match &source.stem {
            Some(stem) => match salvage_id_from_filename(stem.as_str()) {
                Some(id) => Some(
                    EntryParts {
                        candidate: Candidate {
                            id,
                            updated_at_ms: source.modified_ms,
                            is_continuation,
                        },
                        thread_name: String::new(),
                        rollout_path: source.path.clone(),
                        stated: false,
                    },
                ),
                None => None,
            },
            None => None,
        },
        Err(_) => None,
    }
}

fn integer_json(number: i64) -> (json: Json)
    ensures
        json.model() == integer_value(number as int),
{
    if number >= 0 {
        Json::Unsigned(number as u64)
    } else {
        Json::Negative(number)
    }
}

fn line_of(
    id: &str,
    thread_name: &str,
    rollout_path: &str,
    updated_at: i64,
    Ghost(entry): Ghost<PlannedEntry>,
) -> (line: String)
    requires
        entry.id == id@,
        entry.thread_name == thread_name@,
        entry.rollout_path == rollout_path@,
        entry.updated_at == updated_at,
    ensures
        line@ == entry_line(entry),
        line_ids()(line@) == Some(entry.id),
{
    let value = Json::object().set_str("id", id).set_str("thread_name", thread_name).set_str(
        "rollout_path",
        rollout_path,
    ).set("updated_at", integer_json(updated_at));
    proof {
        reveal_strlit("id");
        reveal_strlit("thread_name");
        reveal_strlit("rollout_path");
        reveal_strlit("updated_at");
        assert("id"@.len() == 2 && "thread_name"@.len() == 11);
        assert("rollout_path"@.len() == 12 && "updated_at"@.len() == 10);
        let members = value.model()->Object_0;
        assert forall|name: Seq<char>| #[trigger] members.contains_key(name) implies reads_back(
            members[name],
            126,
        ) by {}
    }
    render(&value)
}

/// Whether a repair rebuilds the session index from these rollouts.
pub open spec fn is_index_repair(
    repair: IndexRepair,
    sources: Seq<IndexSourceView>,
    dry_run: bool,
) -> bool {
    let entries = chosen_entries(sources.filter_map(planned_entries()));
    &&& repair.report.scanned == sources.len() as u32
    &&& repair.report.written == count_where(entries, is_stated())
    &&& repair.report.salvaged == count_where(entries, is_salvaged())
    &&& repair.report.dry_run == dry_run
    &&& texts(repair.report.errors@) == sources.filter_map(reading_error())
    &&& match repair.lines {
        Some(lines) => !dry_run && texts(lines@) == entries.map_values(
            |entry: PlannedEntry| entry_line(entry),
        ),
        None => dry_run,
    }
}

proof fn lemma_entry_ids(entries: Seq<PlannedEntry>)
    ensures
        candidate_ids(entry_candidates(entries)) == entries.map_values(
            |entry: PlannedEntry| entry.id,
        ),
{
    assert(candidate_ids(entry_candidates(entries)) =~= entries.map_values(
        |entry: PlannedEntry| entry.id,
    ));
}

/// Rebuilds the session index: one line for each session, sorted, from the file that is
/// chosen for it. The new index lists all these sessions, and no others.
pub fn repair_session_index(sources: &Vec<IndexSource>, dry_run: bool) -> (repair: IndexRepair)
    requires
        sources@.len() <= u32::MAX,
    ensures
        is_index_repair(repair, sources_view(sources@), dry_run),
        repair.lines matches Some(lines) ==> texts(lines@).filter_map(line_ids()) == sorted_texts(
            sources_view(sources@).filter_map(planned_entries()).map_values(
                |entry: PlannedEntry| entry.id,
            ),
        ),
{
    let ghost all = sources_view(sources@);
    let mut candidates: Vec<Candidate> = Vec::new();
    let mut names: Vec<String> = Vec::new();
    let mut paths: Vec<String> = Vec::new();
    let mut stated: Vec<bool> = Vec::new();
    let mut errors: Vec<String> = Vec::new();
    let ghost mut planned: Seq<PlannedEntry> = Seq::empty();
    let mut at: usize = 0;
    while at < sources.len()
        invariant
            at <= sources@.len(),
            all == sources_view(sources@),
            planned == all.take(at as int).filter_map(planned_entries()),
            planned.len() <= at,
            candidates@.len() == planned.len(),
            names@.len() == planned.len(),
            paths@.len() == planned.len(),
            stated@.len() == planned.len(),
            forall|i: int|
                0 <= i < planned.len() ==> candidates@[i]@ == entry_candidate(planned[i])
                    && names@[i]@ == planned[i].thread_name && paths@[i]@
                    == planned[i].rollout_path && stated@[i] == (#[trigger] planned[i]).stated,
            texts(errors@) == all.take(at as int).filter_map(reading_error()),
        decreases sources.len() - at,
    {
        let source = &sources[at];
        assert(all.take(at + 1).drop_last() =~= all.take(at as int));
        assert(all.take(at + 1).last() == source@);
        let ghost errors_before = texts(errors@);
        if let Err(error) = &source.reading {
            errors.push(join3(source.path.as_str(), ": ", error.message().as_str()));
            assert(texts(errors@) =~= errors_before + seq![
                source@.path + ": "@ + error_text(error@),
            ]);
        }
        let entry = entry_of(source);
        if let Some(parts) = entry {
            proof {
                planned = planned.push(parts.planned());
            }
            candidates.push(parts.candidate);
            names.push(parts.thread_name);
            paths.push(parts.rollout_path);
            stated.push(parts.stated);
        }
        assert(planned =~= all.take(at + 1).filter_map(planned_entries()));
        at = at + 1;
    }
    assert(all.take(at as int) =~= all);
    assert(candidates_view(candidates@) =~= entry_candidates(planned));
    let choice = prefer_continuation(&candidates);
    let ghost ids = texts(choice.ids@);
    let ghost entries = chosen_entries(planned);
    proof {
        lemma_entry_ids(planned);
        lemma_sorted_texts(candidate_ids(entry_candidates(planned)));
    }
    assert(entries.len() == ids.len());
    assert(ids.len() <= u32::MAX);
    let mut written: u32 = 0;
    let mut salvaged: u32 = 0;
    let mut lines: Vec<String> = Vec::new();
    let ghost line_fn = |entry: PlannedEntry| entry_line(entry);
    let mut next: usize = 0;
    while next < choice.positions.len()
        invariant
            next <= choice.positions@.len() == ids.len() == entries.len(),
            ids.len() <= u32::MAX,
            ids == texts(choice.ids@),
            choice.ids@.len() == choice.positions@.len(),
            entries == chosen_entries(planned),
            ids == sorted_texts(planned.map_values(|entry: PlannedEntry| entry.id)),
            is_choice(choice, entry_candidates(planned)),
            candidates@.len() == planned.len(),
            names@.len() == planned.len(),
            paths@.len() == planned.len(),
            stated@.len() == planned.len(),
            forall|i: int|
                0 <= i < planned.len() ==> candidates@[i]@ == entry_candidate(planned[i])
                    && names@[i]@ == planned[i].thread_name && paths@[i]@
                    == planned[i].rollout_path && stated@[i] == (#[trigger] planned[i]).stated,
            written + salvaged == next,
            written == count_where(entries.take(next as int), is_stated()),
            salvaged == count_where(entries.take(next as int), is_salvaged()),
            line_fn == (|entry: PlannedEntry| entry_line(entry)),
            texts(lines@) == entries.take(next as int).map_values(line_fn),
            texts(lines@).filter_map(line_ids()) == ids.take(next as int),
        decreases choice.positions.len() - next,
    {
        let position = choice.positions[next];
        let ghost entry = entries[next as int];
        assert(entry == planned[position as int]);
        assert(entries.take(next + 1).drop_last() =~= entries.take(next as int));
        assert(candidates@[position as int]@ == entry_candidate(planned[position as int]));
        let ghost lines_before = texts(lines@);
        let line = line_of(
            candidates[position].id.as_str(),
            names[position].as_str(),
            paths[position].as_str(),
            candidates[position].updated_at_ms,
            Ghost(entry),
        );
        lines.push(line);
        assert(texts(lines@) =~= lines_before.push(entry_line(entry)));
        assert(texts(lines@) =~= entries.take(next + 1).map_values(line_fn));
        assert(texts(lines@).drop_last() =~= lines_before);
        proof {
            law_one_line_for_each_session(planned);
        }
        assert(entry.id == ids[next as int]);
        assert(texts(lines@).filter_map(line_ids()) =~= ids.take(next + 1));
        if stated[position] {
            written = written + 1;
        } else {
            salvaged = salvaged + 1;
        }
        next = next + 1;
    }
    assert(entries.take(next as int) =~= entries);
    assert(ids.take(next as int) =~= ids);
    IndexRepair {
        report: IndexRepairReport {
            scanned: sources.len() as u32,
            written,
            salvaged,
            dry_run,
            errors,
        },
        lines: if dry_run {
            None
        } else {
            Some(lines)
        },
    }
}

/// Every session gets one line: the lines that were written and those that were salvaged
/// are together as many as there are sessions.
pub proof fn law_one_line_for_each_session(entries: Seq<PlannedEntry>)
    ensures
        count_where(chosen_entries(entries), is_stated()) + count_where(
            chosen_entries(entries),
            is_salvaged(),
        ) == sorted_texts(entries.map_values(|entry: PlannedEntry| entry.id)).len(),
        forall|i: int|
            0 <= i < chosen_entries(entries).len() ==> (#[trigger] chosen_entries(entries)[i]).id
                == sorted_texts(entries.map_values(|entry: PlannedEntry| entry.id))[i],
{
    lemma_stated_or_salvaged(chosen_entries(entries));
    let listed = entries.map_values(|entry: PlannedEntry| entry.id);
    let ids = sorted_texts(listed);
    lemma_entry_ids(entries);
    lemma_sorted_texts(listed);
    assert forall|i: int| 0 <= i < ids.len() implies (#[trigger] chosen_entries(entries)[i]).id
        == ids[i] by {
        assert(ids.contains(ids[i]));
        lemma_chosen(entry_candidates(entries), ids[i]);
    }
}

proof fn lemma_stated_or_salvaged(entries: Seq<PlannedEntry>)
    ensures
        count_where(entries, is_stated()) + count_where(entries, is_salvaged()) == entries.len(),
    decreases entries.len(),
{
    if entries.len() > 0 {
        lemma_stated_or_salvaged(entries.drop_last());
    }
}

// ---------------------------------------------------------------------------
// The threads table
// ---------------------------------------------------------------------------

/// What a rollout gives for a row: its brief and its session metadata.
pub struct ThreadReading {
    pub brief: RolloutBrief,
    pub meta: Json,
}

/// What a [`ThreadReading`] holds.
#[verifier::ext_equal]
pub struct ThreadReadingView {
    pub brief: BriefView,
    pub meta: JsonView,
}

impl View for ThreadReading {
    type V = ThreadReadingView;

    open spec fn view(&self) -> ThreadReadingView {
        ThreadReadingView { brief: self.brief@, meta: self.meta.model() }
    }
}

/// A rollout from which the threads table is rebuilt: its path, its file name where that
/// is a text, whether its session is archived, when it was last changed, in seconds since
/// 1970, and what reading it gave.
pub struct ThreadSource {
    pub path: String,
    pub file_name: Option<String>,
    pub archived: bool,
    pub modified_at: Option<i64>,
    pub reading: Result<Option<ThreadReading>, AppError>,
}

/// What a [`ThreadSource`] holds.
#[verifier::ext_equal]
pub struct ThreadSourceView {
    pub path: Seq<char>,
    pub file_name: Option<Seq<char>>,
    pub archived: bool,
    pub modified_at: Option<i64>,
    pub reading: Result<Option<ThreadReadingView>, ErrorView>,
}

impl View for ThreadSource {
    type V = ThreadSourceView;

    open spec fn view(&self) -> ThreadSourceView {
        ThreadSourceView {
            path: self.path@,
            file_name: opt_text(self.file_name),
            archived: self.archived,
            modified_at: self.modified_at,
            reading: match self.reading {
                Ok(Some(reading)) => Ok(Some(reading@)),
                Ok(None) => Ok(None),
                Err(error) => Err(error@),
            },
        }
    }
}

/// What a list of sources holds.
pub open spec fn thread_sources_view(sources: Seq<ThreadSource>) -> Seq<ThreadSourceView> {
    sources.map_values(|source: ThreadSource| source@)
}

/// The present, in seconds and in milliseconds since 1970.
#[derive(Clone, Copy)]
pub struct Present {
    pub s: i64,
    pub ms: i64,
}

/// A row of the rebuilt table, with what the choice among files of one session needs.
#[verifier::ext_equal]
pub struct PlannedRow {
    pub candidate: CandidateView,
    pub values: Seq<SqlView>,
}

/// The row that a rollout gives.
pub open spec fn planned_row(
    columns: Seq<Seq<char>>,
    present: Present,
) -> spec_fn(ThreadSourceView) -> Option<PlannedRow> {
    |source: ThreadSourceView|
        match source.reading {
            Ok(Some(reading)) => Some(
                PlannedRow {
                    candidate: CandidateView {
                        id: reading.brief.id,
                        updated_at_ms: if reading.brief.updated_at_ms > 0 {
                            reading.brief.updated_at_ms
                        } else {
                            reading.brief.created_at_ms
                        },
                        is_continuation: opt_name_continues(source.file_name),
                    },
                    values: columns.map_values(
                        column_values(
                            RowSourceView {
                                brief: reading.brief,
                                payload: payload_or_null(reading.meta),
                                archived: source.archived,
                                modified_at: source.modified_at,
                                now_s: present.s,
                                now_ms: present.ms,
                            },
                        ),
                    ),
                },
            ),
            _ => None,
        }
}

/// The message on a rollout that could not be read.
pub open spec fn thread_reading_error() -> spec_fn(ThreadSourceView) -> Option<Seq<char>> {
    |source: ThreadSourceView|
        match source.reading {
            Err(error) => Some(source.path + ": "@ + error_text(error)),
            _ => None,
        }
}

/// Tells the rollouts that give no row.
pub open spec fn gives_no_row() -> spec_fn(ThreadSourceView) -> bool {
    |source: ThreadSourceView| !(source.reading matches Ok(Some(_)))
}

/// Rows as far as the choice goes.
pub open spec fn row_candidates(rows: Seq<PlannedRow>) -> Seq<CandidateView> {
    rows.map_values(|row: PlannedRow| row.candidate)
}

/// The sessions of rows, sorted.
pub open spec fn row_sessions(rows: Seq<PlannedRow>) -> Seq<Seq<char>> {
    sorted_texts(candidate_ids(row_candidates(rows)))
}

/// The chosen rows, one for each session, sorted by session.
pub open spec fn chosen_rows(rows: Seq<PlannedRow>) -> Seq<Seq<SqlView>> {
    row_sessions(rows).map_values(
        |id: Seq<char>| rows[chosen(row_candidates(rows), id)->Some_0].values,
    )
}

/// What rebuilding the threads table did, or would do.
pub struct ThreadsRebuildReport {
    pub scanned: u32,
    pub upserted: u32,
    pub skipped: u32,
    pub dry_run: bool,
    pub errors: Vec<String>,
}

/// The report of a rebuild of the threads table, the columns that are written, and the
/// rows; none on a dry run.
pub struct ThreadsRebuild {
    pub report: ThreadsRebuildReport,
    pub columns: Vec<String>,
    pub rows: Vec<Vec<SqlValue>>,
}

/// What a list of rows holds.
pub open spec fn rows_values(rows: Seq<Vec<SqlValue>>) -> Seq<Seq<SqlView>> {
    rows.map_values(|row: Vec<SqlValue>| row_view(row@))
}

/// Whether a rebuild is that of the threads table from these rollouts.
pub open spec fn is_threads_rebuild(
    rebuild: ThreadsRebuild,
    columns: Seq<Seq<char>>,
    sources: Seq<ThreadSourceView>,
    present: Present,
    dry_run: bool,
) -> bool {
    let rows = sources.filter_map(planned_row(columns, present));
    &&& texts(rebuild.columns@) == columns
    &&& rebuild.report.scanned == sources.len()
    &&& rebuild.report.upserted == row_sessions(rows).len()
    &&& rebuild.report.skipped == count_where(sources, gives_no_row())
    &&& rebuild.report.dry_run == dry_run
    &&& texts(rebuild.report.errors@) == sources.filter_map(thread_reading_error())
    &&& rows_values(rebuild.rows@) == if dry_run {
        Seq::empty()
    } else {
        chosen_rows(rows)
    }
}

/// The error for a directory without a state database.
pub open spec fn no_state_db(path: Seq<char>) -> ErrorView {
    ErrorView::InvalidCodexDir("state_5.sqlite 不存在: "@ + path)
}

/// Rebuilds the threads table: one row for each session, from the file that is chosen for
/// it. `state_db` is the path of the database and whether it is there, `existing` are the
/// columns that its table has.
pub fn rebuild_threads_table(
    state_db: (&str, bool),
    existing: &Vec<String>,
    sources: &Vec<ThreadSource>,
    present: Present,
    dry_run: bool,
) -> (rebuild: Result<ThreadsRebuild, AppError>)
    requires
        sources@.len() <= u32::MAX,
    ensures
        match rebuild {
            Ok(rebuild) => state_db.1 && (written_columns(texts(existing@)) matches Ok(columns)
                && is_threads_rebuild(
                rebuild,
                columns,
                thread_sources_view(sources@),
                present,
                dry_run,
            )),
            Err(error) => if !state_db.1 {
                error@ == no_state_db(state_db.0@)
            } else {
                written_columns(texts(existing@)) == Err::<Seq<Seq<char>>, ErrorView>(error@)
            },
        },
{
    if !state_db.1 {
        return Err(AppError::InvalidCodexDir(join2("state_5.sqlite 不存在: ", state_db.0)));
    }
    let columns = match effective_threads_cols(existing) {
        Ok(columns) => columns,
        Err(error) => return Err(error),
    };
    let ghost names = texts(columns@);
    let ghost all = thread_sources_view(sources@);
    let ghost pick = planned_row(names, present);
    let mut candidates: Vec<Candidate> = Vec::new();
    let mut values: Vec<Vec<SqlValue>> = Vec::new();
    let mut errors: Vec<String> = Vec::new();
    let mut skipped: u32 = 0;
    let ghost mut planned: Seq<PlannedRow> = Seq::empty();
    let mut at: usize = 0;
    while at < sources.len()
        invariant
            at <= sources@.len() <= u32::MAX,
            all == thread_sources_view(sources@),
            names == texts(columns@),
            pick == planned_row(names, present),
            planned == all.take(at as int).filter_map(pick),
            planned.len() + skipped == at,
            skipped == count_where(all.take(at as int), gives_no_row()),
            candidates@.len() == planned.len(),
            values@.len() == planned.len(),
            forall|i: int|
                0 <= i < planned.len() ==> candidates@[i]@ == planned[i].candidate && row_view(
                    values@[i]@,
                ) == (#[trigger] planned[i]).values,
            texts(errors@) == all.take(at as int).filter_map(thread_reading_error()),
        decreases sources.len() - at,
    {
        let source = &sources[at];
        assert(all.take(at + 1).drop_last() =~= all.take(at as int));
        assert(all.take(at + 1).last() == source@);
        let ghost errors_before = texts(errors@);
        match &source.reading {
            Ok(Some(reading)) => {
                let name = match &source.file_name {
                    Some(name) => Some(name.as_str()),
                    None => None,
                };
                let candidate = Candidate {
                    id: reading.brief.id.clone(),
                    updated_at_ms: if reading.brief.updated_at_ms > 0 {
                        reading.brief.updated_at_ms
                    } else {
                        reading.brief.created_at_ms
                    },
                    is_continuation: rollout_filename_is_paginated_continuation(name),
                };
                let nothing = Json::Null;
                let payload = match reading.meta.get("payload") {
                    Some(payload) => payload,
                    None => &nothing,
                };
                let row_source = RowSource {
                    brief: &reading.brief,
                    payload,
                    archived: source.archived,
                    modified_at: source.modified_at,
                    now_s: present.s,
                    now_ms: present.ms,
                };
                let row = thread_values_from_rollout(&columns, &row_source);
                proof {
                    planned = planned.push(
                        PlannedRow { candidate: candidate@, values: row_view(row@) },
                    );
                }
                candidates.push(candidate);
                values.push(row);
            },
            Ok(None) => {
                skipped = skipped + 1;
            },
            Err(error) => {
                errors.push(join3(source.path.as_str(), ": ", error.message().as_str()));
                assert(texts(errors@) =~= errors_before + seq![
                    source@.path + ": "@ + error_text(error@),
                ]);
                skipped = skipped + 1;
            },
        }
        assert(planned =~= all.take(at + 1).filter_map(pick));
        at = at + 1;
    }
    assert(all.take(at as int) =~= all);
    assert(candidates_view(candidates@) =~= row_candidates(planned));
    let choice = prefer_continuation(&candidates);
    let ghost ids = texts(choice.ids@);
    proof {
        lemma_sorted_texts(candidate_ids(row_candidates(planned)));
    }
    let upserted = choice.ids.len() as u32;
    let mut rows: Vec<Vec<SqlValue>> = Vec::new();
    if !dry_run {
        let ghost result = chosen_rows(planned);
        let mut next: usize = 0;
        while next < choice.positions.len()
            invariant
                next <= choice.positions@.len() == ids.len() == result.len(),
                ids == texts(choice.ids@),
                result == chosen_rows(planned),
                ids == row_sessions(planned),
                is_choice(choice, row_candidates(planned)),
                values@.len() == planned.len(),
                forall|i: int|
                    0 <= i < planned.len() ==> row_view(values@[i]@) == (
                    #[trigger] planned[i]).values,
                rows_values(rows@) == result.take(next as int),
            decreases choice.positions.len() - next,
        {
            let position = choice.positions[next];
            assert(result[next as int] == planned[position as int].values);
            let ghost before = rows_values(rows@);
            let row = copy_row(&values[position]);
            rows.push(row);
            assert(rows_values(rows@) =~= before.push(row_view(row@)));
            assert(rows_values(rows@) =~= result.take(next + 1));
            next = next + 1;
        }
        assert(result.take(next as int) =~= result);
    } else {
        assert(rows_values(rows@) =~= Seq::empty());
    }
    Ok(
        ThreadsRebuild {
            report: ThreadsRebuildReport {
                scanned: sources.len() as u32,
                upserted,
                skipped,
                dry_run,
                errors,
            },
            columns,
            rows,
        },
    )
}

fn copy_row(row: &Vec<SqlValue>) -> (copy: Vec<SqlValue>)
    ensures
        row_view(copy@) == row_view(row@),
{
    let ghost all = row_view(row@);
    let mut copy: Vec<SqlValue> = Vec::new();
    let mut at: usize = 0;
    while at < row.len()
        invariant
            at <= row@.len(),
            all == row_view(row@),
            row_view(copy@) == all.take(at as int),
        decreases row.len() - at,
    {
        let ghost before = row_view(copy@);
        let value = match &row[at] {
            SqlValue::Null => SqlValue::Null,
            SqlValue::Integer(number) => SqlValue::Integer(*number),
            SqlValue::Unsigned(number) => SqlValue::Unsigned(*number),
            SqlValue::Fraction(number) => SqlValue::Fraction(number.clone()),
            SqlValue::Text(text) => SqlValue::Text(text.clone()),
        };
        assert(value@ =~= all[at as int]);
        copy.push(value);
        assert(row_view(copy@) =~= before.push(all[at as int]));
        assert(row_view(copy@) =~= all.take(at + 1));
        at = at + 1;
    }
    assert(all.take(at as int) =~= all);
    copy
}

/// What becomes of each file that is read for the index: a rollout that states its session gets an
/// entry with the first message, where the rollout is and when it was last used; from one that does
/// not, the id is read from its name; one that cannot be read gets none.
pub proof fn law_which_entries_are_planned(source: IndexSourceView)
    ensures
        source.reading is Err ==> planned_entry(source) is None,
        source.reading matches Ok(Some(brief)) ==> (planned_entry(source) matches Some(entry) && {
            &&& entry.id == brief.id
            &&& entry.thread_name == brief.first_user_message
            &&& entry.rollout_path == brief.path
            &&& entry.stated
            &&& brief.updated_at_ms > 0 ==> entry.updated_at == brief.updated_at_ms
            &&& brief.updated_at_ms <= 0 && brief.created_at_ms > 0 ==> entry.updated_at
                == brief.created_at_ms
            &&& brief.updated_at_ms <= 0 && brief.created_at_ms <= 0 ==> entry.updated_at == 0
        }),
        source.reading matches Ok(None) ==> {
            let id = match source.stem {
                Some(stem) => salvaged_id(stem),
                None => None,
            };
            &&& id is None ==> planned_entry(source) is None
            &&& id matches Some(id) ==> (planned_entry(source) matches Some(entry) && entry.id == id
                && entry.thread_name.len() == 0 && entry.rollout_path == source.path
                && entry.updated_at == source.modified_ms && !entry.stated)
        },
        planned_entry(source) matches Some(entry) ==> (entry.is_continuation <==> (
        source.file_name matches Some(name) && name_continues(name))),
{
}

/// A line of the index names the session, its title, its rollout and its last use, and nothing else.
pub proof fn law_what_an_index_line_says(entry: PlannedEntry, name: Seq<char>)
    requires
        i64::MIN <= entry.updated_at <= i64::MAX,
    ensures
        exists|record: JsonView| #[trigger]
            json_text(record) == entry_line(entry) && is_record_of(record, entry, name),
{
    reveal_strlit("id");
    reveal_strlit("thread_name");
    reveal_strlit("rollout_path");
    reveal_strlit("updated_at");
    assert("id"@.len() == 2 && "thread_name"@.len() == 11);
    assert("rollout_path"@.len() == 12 && "updated_at"@.len() == 10);
    let record = JsonView::Object(
        Map::empty().insert("id"@, JsonView::Text(entry.id)).insert(
            "thread_name"@,
            JsonView::Text(entry.thread_name),
        ).insert("rollout_path"@, JsonView::Text(entry.rollout_path)).insert(
            "updated_at"@,
            integer_value(entry.updated_at),
        ),
    );
    assert(is_record_of(record, entry, name));
    assert(json_text(record) == entry_line(entry));
}

/// Whether a record is that of an entry of the index.
pub open spec fn is_record_of(record: JsonView, entry: PlannedEntry, name: Seq<char>) -> bool {
    &&& member_text(record, "id"@) == Some(entry.id)
    &&& member_text(record, "thread_name"@) == Some(entry.thread_name)
    &&& member_text(record, "rollout_path"@) == Some(entry.rollout_path)
    &&& entry.updated_at >= 0 ==> member(record, "updated_at"@) == Some(
        JsonView::Unsigned(entry.updated_at as u64),
    )
    &&& entry.updated_at < 0 ==> member(record, "updated_at"@) == Some(
        JsonView::Negative(entry.updated_at as i64),
    )
    &&& member(record, name) is Some ==> name == "id"@ || name == "thread_name"@ || name
        == "rollout_path"@ || name == "updated_at"@
}

/// Every session of which an entry is planned stands in the repaired index with one of its entries:
/// that of a continuation where there is one, and the newest of its kind.
pub proof fn law_best_entry_is_kept(entries: Seq<PlannedEntry>, i: int)
    requires
        0 <= i < entries.len(),
    ensures
        exists|r: int|
            0 <= r < chosen_entries(entries).len() && is_at_least(
                #[trigger] chosen_entries(entries)[r],
                entries[i],
            ) && entries.contains(chosen_entries(entries)[r]),
{
    let all = entries.map_values(|entry: PlannedEntry| entry.id);
    let ids = sorted_texts(all);
    let candidates = entry_candidates(entries);
    let id = entries[i].id;
    lemma_sorted_texts(all);
    assert(all[i] == id);
    assert(all.contains(id));
    assert(ids.contains(id));
    let r = choose|r: int| 0 <= r < ids.len() && ids[r] == id;
    assert(candidates[i] == entry_candidate(entries[i]));
    law_newest_of_a_kind_wins(candidates, id, i);
    if candidates[i].is_continuation {
        law_continuation_wins(candidates, id, i);
    }
    lemma_chosen(candidates, id);
    let k = chosen(candidates, id)->Some_0;
    assert(candidates[k] == entry_candidate(entries[k]));
    assert(chosen_entries(entries)[r] == entries[k]);
}

/// Whether an entry is of the same session as another and is not to give way to it.
pub open spec fn is_at_least(entry: PlannedEntry, other: PlannedEntry) -> bool {
    &&& entry.id == other.id
    &&& other.is_continuation ==> entry.is_continuation
    &&& entry.is_continuation == other.is_continuation ==> other.updated_at <= entry.updated_at
}

} // verus!
