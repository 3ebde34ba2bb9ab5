//! What each column of a threads row holds, by its name, and what the rows of a rebuilt table say.

use vstd::prelude::*;

use crate::continuation::{
    candidate_ids, chosen, law_continuation_wins, law_newest_of_a_kind_wins, lemma_chosen,
    name_continues,
};
use crate::json::{member, JsonView};
use crate::rebuild::{
    chosen_rows, is_threads_rebuild, planned_row, row_candidates, row_sessions, Present,
    ThreadSourceView, ThreadsRebuild,
};
use crate::rollout::{metadata_field, source_is_subagent, visible_source, BriefView};
use crate::seqs::lemma_filter_map_has;
use crate::sorted::lemma_sorted_texts;
use crate::threads::{
    bound_value, column_value, row_view, written_columns, RowSourceView, SqlView,
};

verus! {

proof fn lemma_column_lengths()
    ensures
        "created_at"@.len() == 10,
        "updated_at"@.len() == 10,
        "recency_at"@.len() == 10,
        "created_at_ms"@.len() == 13,
        "updated_at_ms"@.len() == 13,
        "recency_at_ms"@.len() == 13,
        "has_user_event"@.len() == 14,
        "archived"@.len() == 8,
        "tokens_used"@.len() == 11,
        "id"@.len() == 2,
        "rollout_path"@.len() == 12,
        "cwd"@.len() == 3,
        "source"@.len() == 6,
        "model_provider"@.len() == 14,
        "sandbox_policy"@.len() == 14,
        "approval_mode"@.len() == 13,
        "memory_mode"@.len() == 11,
        "title"@.len() == 5,
        "first_user_message"@.len() == 18,
        "preview"@.len() == 7,
        "cli_version"@.len() == 11,
        "history_mode"@.len() == 12,
        "thread_source"@.len() == 13,
        "archived_at"@.len() == 11,
        "model"@.len() == 5,
        "reasoning_effort"@.len() == 16,
        "git_sha"@.len() == 7,
        "git_branch"@.len() == 10,
        "git_origin_url"@.len() == 14,
        "name"@.len() == 4,
        "agent_nickname"@.len() == 14,
        "agent_role"@.len() == 10,
        "agent_path"@.len() == 10,
{
    reveal_strlit("created_at");
    reveal_strlit("updated_at");
    reveal_strlit("recency_at");
    reveal_strlit("created_at_ms");
    reveal_strlit("updated_at_ms");
    reveal_strlit("recency_at_ms");
    reveal_strlit("has_user_event");
    reveal_strlit("archived");
    reveal_strlit("tokens_used");
    reveal_strlit("id");
    reveal_strlit("rollout_path");
    reveal_strlit("cwd");
    reveal_strlit("source");
    reveal_strlit("model_provider");
    reveal_strlit("sandbox_policy");
    reveal_strlit("approval_mode");
    reveal_strlit("memory_mode");
    reveal_strlit("title");
    reveal_strlit("first_user_message");
    reveal_strlit("preview");
    reveal_strlit("cli_version");
    reveal_strlit("history_mode");
    reveal_strlit("thread_source");
    reveal_strlit("archived_at");
    reveal_strlit("model");
    reveal_strlit("reasoning_effort");
    reveal_strlit("git_sha");
    reveal_strlit("git_branch");
    reveal_strlit("git_origin_url");
    reveal_strlit("name");
    reveal_strlit("agent_nickname");
    reveal_strlit("agent_role");
    reveal_strlit("agent_path");
}

proof fn lemma_columns_of_one_length()
    ensures
        "created_at"@ != "updated_at"@,
        "created_at"@ != "recency_at"@,
        "created_at"@ != "git_branch"@,
        "created_at"@ != "agent_role"@,
        "created_at"@ != "agent_path"@,
        "updated_at"@ != "recency_at"@,
        "updated_at"@ != "git_branch"@,
        "updated_at"@ != "agent_role"@,
        "updated_at"@ != "agent_path"@,
        "recency_at"@ != "git_branch"@,
        "recency_at"@ != "agent_role"@,
        "recency_at"@ != "agent_path"@,
        "created_at_ms"@ != "updated_at_ms"@,
        "created_at_ms"@ != "recency_at_ms"@,
        "created_at_ms"@ != "approval_mode"@,
        "created_at_ms"@ != "thread_source"@,
        "updated_at_ms"@ != "recency_at_ms"@,
        "updated_at_ms"@ != "approval_mode"@,
        "updated_at_ms"@ != "thread_source"@,
        "recency_at_ms"@ != "approval_mode"@,
        "recency_at_ms"@ != "thread_source"@,
        "has_user_event"@ != "model_provider"@,
        "has_user_event"@ != "sandbox_policy"@,
        "has_user_event"@ != "git_origin_url"@,
        "has_user_event"@ != "agent_nickname"@,
        "tokens_used"@ != "memory_mode"@,
        "tokens_used"@ != "cli_version"@,
        "tokens_used"@ != "archived_at"@,
        "rollout_path"@ != "history_mode"@,
        "model_provider"@ != "sandbox_policy"@,
        "model_provider"@ != "git_origin_url"@,
        "model_provider"@ != "agent_nickname"@,
        "sandbox_policy"@ != "git_origin_url"@,
        "sandbox_policy"@ != "agent_nickname"@,
        "approval_mode"@ != "thread_source"@,
        "memory_mode"@ != "cli_version"@,
        "memory_mode"@ != "archived_at"@,
        "title"@ != "model"@,
        "preview"@ != "git_sha"@,
        "cli_version"@ != "archived_at"@,
        "git_branch"@ != "agent_role"@,
        "git_branch"@ != "agent_path"@,
        "git_origin_url"@ != "agent_nickname"@,
        "agent_role"@ != "agent_path"@,
{
    reveal_strlit("created_at");
    reveal_strlit("updated_at");
    reveal_strlit("recency_at");
    reveal_strlit("created_at_ms");
    reveal_strlit("updated_at_ms");
    reveal_strlit("recency_at_ms");
    reveal_strlit("has_user_event");
    reveal_strlit("tokens_used");
    reveal_strlit("rollout_path");
    reveal_strlit("model_provider");
    reveal_strlit("sandbox_policy");
    reveal_strlit("approval_mode");
    reveal_strlit("memory_mode");
    reveal_strlit("title");
    reveal_strlit("preview");
    reveal_strlit("cli_version");
    reveal_strlit("history_mode");
    reveal_strlit("thread_source");
    reveal_strlit("archived_at");
    reveal_strlit("model");
    reveal_strlit("git_sha");
    reveal_strlit("git_branch");
    reveal_strlit("git_origin_url");
    reveal_strlit("agent_nickname");
    reveal_strlit("agent_role");
    reveal_strlit("agent_path");
    assert("created_at"@[0] == 'c' && "updated_at"@[0] == 'u');
    assert("created_at"@[0] == 'c' && "recency_at"@[0] == 'r');
    assert("created_at"@[0] == 'c' && "git_branch"@[0] == 'g');
    assert("created_at"@[0] == 'c' && "agent_role"@[0] == 'a');
    assert("created_at"@[0] == 'c' && "agent_path"@[0] == 'a');
    assert("updated_at"@[0] == 'u' && "recency_at"@[0] == 'r');
    assert("updated_at"@[0] == 'u' && "git_branch"@[0] == 'g');
    assert("updated_at"@[0] == 'u' && "agent_role"@[0] == 'a');
    assert("updated_at"@[0] == 'u' && "agent_path"@[0] == 'a');
    assert("recency_at"@[0] == 'r' && "git_branch"@[0] == 'g');
    assert("recency_at"@[0] == 'r' && "agent_role"@[0] == 'a');
    assert("recency_at"@[0] == 'r' && "agent_path"@[0] == 'a');
    assert("created_at_ms"@[0] == 'c' && "updated_at_ms"@[0] == 'u');
    assert("created_at_ms"@[0] == 'c' && "recency_at_ms"@[0] == 'r');
    assert("created_at_ms"@[0] == 'c' && "approval_mode"@[0] == 'a');
    assert("created_at_ms"@[0] == 'c' && "thread_source"@[0] == 't');
    assert("updated_at_ms"@[0] == 'u' && "recency_at_ms"@[0] == 'r');
    assert("updated_at_ms"@[0] == 'u' && "approval_mode"@[0] == 'a');
    assert("updated_at_ms"@[0] == 'u' && "thread_source"@[0] == 't');
    assert("recency_at_ms"@[0] == 'r' && "approval_mode"@[0] == 'a');
    assert("recency_at_ms"@[0] == 'r' && "thread_source"@[0] == 't');
    assert("has_user_event"@[0] == 'h' && "model_provider"@[0] == 'm');
    assert("has_user_event"@[0] == 'h' && "sandbox_policy"@[0] == 's');
    assert("has_user_event"@[0] == 'h' && "git_origin_url"@[0] == 'g');
    assert("has_user_event"@[0] == 'h' && "agent_nickname"@[0] == 'a');
    assert("tokens_used"@[0] == 't' && "memory_mode"@[0] == 'm');
    assert("tokens_used"@[0] == 't' && "cli_version"@[0] == 'c');
    assert("tokens_used"@[0] == 't' && "archived_at"@[0] == 'a');
    assert("rollout_path"@[0] == 'r' && "history_mode"@[0] == 'h');
    assert("model_provider"@[0] == 'm' && "sandbox_policy"@[0] == 's');
    assert("model_provider"@[0] == 'm' && "git_origin_url"@[0] == 'g');
    assert("model_provider"@[0] == 'm' && "agent_nickname"@[0] == 'a');
    assert("sandbox_policy"@[0] == 's' && "git_origin_url"@[0] == 'g');
    assert("sandbox_policy"@[0] == 's' && "agent_nickname"@[0] == 'a');
    assert("approval_mode"@[0] == 'a' && "thread_source"@[0] == 't');
    assert("memory_mode"@[0] == 'm' && "cli_version"@[0] == 'c');
    assert("memory_mode"@[0] == 'm' && "archived_at"@[0] == 'a');
    assert("title"@[0] == 't' && "model"@[0] == 'm');
    assert("preview"@[0] == 'p' && "git_sha"@[0] == 'g');
    assert("cli_version"@[0] == 'c' && "archived_at"@[0] == 'a');
    assert("git_branch"@[0] == 'g' && "agent_role"@[0] == 'a');
    assert("git_branch"@[0] == 'g' && "agent_path"@[0] == 'a');
    assert("git_origin_url"@[0] == 'g' && "agent_nickname"@[0] == 'a');
    assert("agent_role"@[6] == 'r' && "agent_path"@[6] == 'p');
}

/// The metadata value of a member of `git`, or else of a member of the payload itself.
pub open spec fn git_value(payload: JsonView, older: Seq<char>, name: Seq<char>) -> Option<Seq<char>> {
    match member(payload, "git"@) {
        Some(git) => match metadata_field(git, name) {
            Some(value) => Some(value),
            None => metadata_field(payload, older),
        },
        None => metadata_field(payload, older),
    }
}

/// A row is that of the session of its rollout, leads to that rollout, and says where the session
/// works, where it comes from and under which provider it runs.
pub proof fn law_row_names_its_session(source: RowSourceView)
    ensures
        ({
            let brief = source.brief;
            let payload = source.payload;
            &&& column_value("id"@, source) == SqlView::Text(brief.id)
            &&& column_value("rollout_path"@, source) == SqlView::Text(brief.path)
            &&& column_value("cwd"@, source) == SqlView::Text(
                match brief.cwd {
                    Some(cwd) => cwd,
                    None => match metadata_field(payload, "cwd"@) {
                        Some(cwd) => cwd,
                        None => Seq::empty(),
                    },
                },
            )
            &&& column_value("source"@, source) == SqlView::Text(visible_source(payload))
            &&& column_value("model_provider"@, source) == SqlView::Text(
                match metadata_field(payload, "model_provider"@) {
                    Some(provider) => provider,
                    None => brief.model_provider,
                },
            )
            &&& column_value("thread_source"@, source) == SqlView::Text(
                if source_is_subagent(Some(visible_source(payload))) {
                    "subagent"@
                } else {
                    "user"@
                },
            )
        }),
{
    lemma_column_lengths();
    lemma_columns_of_one_length();
}

/// A row is archived just where its session is, and since when it is tells only then.
pub proof fn law_row_tells_what_is_archived(source: RowSourceView)
    ensures
        ({
            let brief = source.brief;
            let payload = source.payload;
            &&& column_value("archived"@, source) == SqlView::Integer(
                if source.archived {
                    1
                } else {
                    0
                },
            )
            &&& column_value("archived_at"@, source) == (if source.archived {
                SqlView::Integer(
                    match source.modified_at {
                        Some(at) => at,
                        None => source.now_s,
                    },
                )
            } else {
                SqlView::Null
            })
        }),
{
    lemma_column_lengths();
    lemma_columns_of_one_length();
}

/// A row shows the first message, the start of which is its title; a name is left to its user.
pub proof fn law_row_shows_the_first_message(source: RowSourceView)
    ensures
        ({
            let brief = source.brief;
            let payload = source.payload;
            &&& column_value("title"@, source) == SqlView::Text(
                if brief.first_user_message.len() <= 80 {
                    brief.first_user_message
                } else {
                    brief.first_user_message.take(80)
                },
            )
            &&& column_value("first_user_message"@, source) == SqlView::Text(brief.first_user_message)
            &&& column_value("preview"@, source) == SqlView::Text(brief.first_user_message)
            &&& column_value("name"@, source) == SqlView::Null
        }),
{
    lemma_column_lengths();
    lemma_columns_of_one_length();
}

/// A row keeps the settings of the session, or those that hold by default.
pub proof fn law_row_keeps_the_settings(source: RowSourceView)
    ensures
        ({
            let brief = source.brief;
            let payload = source.payload;
            &&& column_value("sandbox_policy"@, source) == SqlView::Text(
                match brief.sandbox_policy {
                    Some(policy) => policy,
                    None => "read-only"@,
                },
            )
            &&& column_value("approval_mode"@, source) == SqlView::Text(
                match brief.approval_mode {
                    Some(mode) => mode,
                    None => "on-request"@,
                },
            )
            &&& column_value("memory_mode"@, source) == SqlView::Text(
                match brief.memory_mode {
                    Some(mode) => mode,
                    None => "enabled"@,
                },
            )
            &&& column_value("model"@, source) == (match brief.model {
                Some(model) => SqlView::Text(model),
                None => SqlView::Null,
            })
            &&& column_value("reasoning_effort"@, source) == (match brief.reasoning_effort {
                Some(effort) => SqlView::Text(effort),
                None => SqlView::Null,
            })
            &&& column_value("tokens_used"@, source) == SqlView::Integer(brief.tokens_used)
            &&& column_value("cli_version"@, source) == SqlView::Text(
                match metadata_field(payload, "cli_version"@) {
                    Some(version) => version,
                    None => Seq::empty(),
                },
            )
            &&& column_value("history_mode"@, source) == SqlView::Text(
                match metadata_field(payload, "history_mode"@) {
                    Some(mode) => mode,
                    None => "legacy"@,
                },
            )
            &&& column_value("has_user_event"@, source) == SqlView::Integer(1)
        }),
{
    lemma_column_lengths();
    lemma_columns_of_one_length();
}

/// A row keeps the state of the repository and what the metadata says of a sub-agent.
pub proof fn law_row_keeps_where_it_comes_from(source: RowSourceView)
    ensures
        ({
            let brief = source.brief;
            let payload = source.payload;
            &&& column_value("git_sha"@, source) == (match git_value(payload, "git_sha"@, "commit_hash"@) {
                Some(text) => SqlView::Text(text),
                None => SqlView::Null,
            })
            &&& column_value("git_branch"@, source) == (match git_value(payload, "git_branch"@, "branch"@) {
                Some(text) => SqlView::Text(text),
                None => SqlView::Null,
            })
            &&& column_value("git_origin_url"@, source) == (match git_value(payload, "git_origin_url"@, "repository_url"@) {
                Some(text) => SqlView::Text(text),
                None => SqlView::Null,
            })
            &&& column_value("agent_nickname"@, source) == (match member(payload, "agent_nickname"@) {
                Some(value) => bound_value(value),
                None => SqlView::Null,
            })
            &&& column_value("agent_role"@, source) == (match member(payload, "agent_role"@) {
                Some(value) => bound_value(value),
                None => SqlView::Null,
            })
            &&& column_value("agent_path"@, source) == (match member(payload, "agent_path"@) {
                Some(value) => bound_value(value),
                None => SqlView::Null,
            })
        }),
{
    lemma_column_lengths();
    lemma_columns_of_one_length();
    reveal_strlit("git_sha");
    reveal_strlit("git_branch");
    reveal_strlit("git_origin_url");
}

/// A row was created when the rollout says, or else when it was last changed, and last changed when
/// the rollout says, or else now; in milliseconds and in whole seconds.
pub proof fn law_row_keeps_its_moments(source: RowSourceView)
    requires
        source.now_ms >= 0,
    ensures
        ({
            let brief = source.brief;
            let payload = source.payload;
            let updated = if brief.updated_at_ms > 0 {
                brief.updated_at_ms
            } else {
                source.now_ms as int
            };
            let created = if brief.created_at_ms > 0 {
                brief.created_at_ms
            } else {
                updated
            };
            &&& column_value("created_at"@, source) == SqlView::Integer((created / 1000) as i64)
            &&& column_value("updated_at"@, source) == SqlView::Integer((updated / 1000) as i64)
            &&& column_value("recency_at"@, source) == SqlView::Integer((updated / 1000) as i64)
            &&& column_value("created_at_ms"@, source) == SqlView::Integer(created as i64)
            &&& column_value("updated_at_ms"@, source) == SqlView::Integer(updated as i64)
            &&& column_value("recency_at_ms"@, source) == SqlView::Integer(updated as i64)
        }),
{
    lemma_column_lengths();
    lemma_columns_of_one_length();
}

/// A table gets just those of its columns that are known, and none is left out.
pub proof fn law_known_columns_are_written(existing: Seq<Seq<char>>, column: Seq<char>)
    ensures
        written_columns(existing) is Ok <==> existing.contains("id"@) && existing.contains(
            "rollout_path"@,
        ),
        written_columns(existing) matches Ok(columns) ==> (columns.contains(column)
            <==> existing.contains(column) && (column == "id"@
            || column == "rollout_path"@
            || column == "created_at"@
            || column == "updated_at"@
            || column == "source"@
            || column == "model_provider"@
            || column == "cwd"@
            || column == "title"@
            || column == "sandbox_policy"@
            || column == "approval_mode"@
            || column == "tokens_used"@
            || column == "has_user_event"@
            || column == "archived"@
            || column == "archived_at"@
            || column == "git_sha"@
            || column == "git_branch"@
            || column == "git_origin_url"@
            || column == "cli_version"@
            || column == "first_user_message"@
            || column == "agent_nickname"@
            || column == "agent_role"@
            || column == "memory_mode"@
            || column == "model"@
            || column == "reasoning_effort"@
            || column == "agent_path"@
            || column == "created_at_ms"@
            || column == "updated_at_ms"@
            || column == "preview"@
            || column == "thread_source"@
            || column == "recency_at"@
            || column == "recency_at_ms"@
            || column == "history_mode"@
            || column == "name"@)),
{
    let known = crate::threads::known_columns();
    assert(known[0] == "id"@);
    assert(known[1] == "rollout_path"@);
    assert(known[2] == "created_at"@);
    assert(known[3] == "updated_at"@);
    assert(known[4] == "source"@);
    assert(known[5] == "model_provider"@);
    assert(known[6] == "cwd"@);
    assert(known[7] == "title"@);
    assert(known[8] == "sandbox_policy"@);
    assert(known[9] == "approval_mode"@);
    assert(known[10] == "tokens_used"@);
    assert(known[11] == "has_user_event"@);
    assert(known[12] == "archived"@);
    assert(known[13] == "archived_at"@);
    assert(known[14] == "git_sha"@);
    assert(known[15] == "git_branch"@);
    assert(known[16] == "git_origin_url"@);
    assert(known[17] == "cli_version"@);
    assert(known[18] == "first_user_message"@);
    assert(known[19] == "agent_nickname"@);
    assert(known[20] == "agent_role"@);
    assert(known[21] == "memory_mode"@);
    assert(known[22] == "model"@);
    assert(known[23] == "reasoning_effort"@);
    assert(known[24] == "agent_path"@);
    assert(known[25] == "created_at_ms"@);
    assert(known[26] == "updated_at_ms"@);
    assert(known[27] == "preview"@);
    assert(known[28] == "thread_source"@);
    assert(known[29] == "recency_at"@);
    assert(known[30] == "recency_at_ms"@);
    assert(known[31] == "history_mode"@);
    assert(known[32] == "name"@);
    crate::threads::lemma_texts_within(known, existing, column);
    crate::threads::lemma_texts_within(known, existing, "id"@);
    crate::threads::lemma_texts_within(known, existing, "rollout_path"@);
    assert(known.contains("id"@) && known.contains("rollout_path"@));
    if known.contains(column) {
        let k = choose|k: int| 0 <= k < known.len() && known[k] == column;
        assert(known.len() == 33);
    }
}

/// Every row of a rebuilt table is that of a rollout that was read: it names the session of that
/// rollout and where it is, and is archived just where the rollout is that of an archived session.
pub proof fn law_rebuilt_rows_are_those_of_rollouts(
    rebuild: ThreadsRebuild,
    columns: Seq<Seq<char>>,
    sources: Seq<ThreadSourceView>,
    present: Present,
    r: int,
)
    requires
        is_threads_rebuild(rebuild, columns, sources, present, false),
        0 <= r < rebuild.rows@.len(),
    ensures
        exists|s: int| #[trigger]
            is_row_of(row_view(rebuild.rows@[r]@), columns, sources, s),
{
    lemma_row_at(rebuild, columns, sources, present, r);
}

proof fn lemma_row_at(
    rebuild: ThreadsRebuild,
    columns: Seq<Seq<char>>,
    sources: Seq<ThreadSourceView>,
    present: Present,
    r: int,
)
    requires
        is_threads_rebuild(rebuild, columns, sources, present, false),
        0 <= r < rebuild.rows@.len(),
    ensures
        ({
            let pick = planned_row(columns, present);
            let rows = sources.filter_map(pick);
            let k = chosen(row_candidates(rows), row_sessions(rows)[r])->Some_0;
            exists|s: int| #[trigger]
                is_row_of(row_view(rebuild.rows@[r]@), columns, sources, s) && pick(sources[s])
                    == Some(rows[k])
        }),
{
    let rows = sources.filter_map(planned_row(columns, present));
    let ids = row_sessions(rows);
    let values = chosen_rows(rows)[r];
    assert(crate::rebuild::rows_values(rebuild.rows@)[r] == row_view(rebuild.rows@[r]@));
    lemma_sorted_texts(candidate_ids(row_candidates(rows)));
    assert(chosen_rows(rows).len() == ids.len());
    assert(crate::rebuild::rows_values(rebuild.rows@).len() == rebuild.rows@.len());
    assert(ids.contains(ids[r]));
    lemma_chosen(row_candidates(rows), ids[r]);
    let k = chosen(row_candidates(rows), ids[r])->Some_0;
    assert(0 <= k < rows.len());
    assert(rows.contains(rows[k]));
    sources.lemma_filter_map_contains(planned_row(columns, present), rows[k]);
    let source = choose|source: ThreadSourceView| #[trigger]
        sources.contains(source) && planned_row(columns, present)(source) == Some(rows[k]);
    let s = choose|s: int| 0 <= s < sources.len() && sources[s] == source;
    let reading = source.reading->Ok_0->Some_0;
    let row_source = RowSourceView {
        brief: reading.brief,
        payload: crate::threads::payload_or_null(reading.meta),
        archived: source.archived,
        modified_at: source.modified_at,
        now_s: present.s,
        now_ms: present.ms,
    };
    law_row_names_its_session(row_source);
    law_row_tells_what_is_archived(row_source);
    assert forall|c: int| 0 <= c < columns.len() implies values[c] == column_value(
        #[trigger] columns[c],
        row_source,
    ) by {
        assert(rows[k].values[c] == column_value(columns[c], row_source));
    }
    assert(is_row_of(values, columns, sources, s));
}

/// Whether a row is that of a rollout that was read, as far as the session, the place of the rollout
/// and what is archived go.
pub open spec fn is_row_of(
    row: Seq<SqlView>,
    columns: Seq<Seq<char>>,
    sources: Seq<ThreadSourceView>,
    s: int,
) -> bool {
    &&& 0 <= s < sources.len()
    &&& row.len() == columns.len()
    &&& sources[s].reading matches Ok(Some(reading)) && forall|c: int|
        0 <= c < columns.len() ==> {
            &&& #[trigger] columns[c] == "id"@ ==> row[c] == SqlView::Text(reading.brief.id)
            &&& columns[c] == "rollout_path"@ ==> row[c] == SqlView::Text(reading.brief.path)
            &&& columns[c] == "archived"@ ==> row[c] == SqlView::Integer(
                if sources[s].archived {
                    1
                } else {
                    0
                },
            )
            &&& columns[c] == "archived_at"@ ==> (row[c] is Null <==> !sources[s].archived)
            &&& columns[c] == "archived_at"@ && sources[s].archived ==> (
            sources[s].modified_at matches Some(at) ==> row[c] == SqlView::Integer(at))
        }
}

/// A rebuild counts the rows that it gives, and with the rollouts that were skipped those that were
/// read make all. A dry run gives no row.
pub proof fn law_rebuild_counts_its_rows(
    rebuild: ThreadsRebuild,
    columns: Seq<Seq<char>>,
    sources: Seq<ThreadSourceView>,
    present: Present,
    dry_run: bool,
)
    requires
        is_threads_rebuild(rebuild, columns, sources, present, dry_run),
    ensures
        dry_run ==> rebuild.rows@.len() == 0,
        !dry_run ==> rebuild.rows@.len() == rebuild.report.upserted,
        rebuild.report.skipped + sources.filter_map(planned_row(columns, present)).len()
            == sources.len(),
{
    assert(crate::rebuild::rows_values(rebuild.rows@).len() == rebuild.rows@.len());
    lemma_rows_or_skipped(columns, sources, present);
}

proof fn lemma_rows_or_skipped(
    columns: Seq<Seq<char>>,
    sources: Seq<ThreadSourceView>,
    present: Present,
)
    ensures
        crate::seqs::count_where(sources, crate::rebuild::gives_no_row()) + sources.filter_map(
            planned_row(columns, present),
        ).len() == sources.len(),
    decreases sources.len(),
{
    if sources.len() > 0 {
        lemma_rows_or_skipped(columns, sources.drop_last(), present);
    }
}

/// When a rollout that was read was last changed, or else created.
pub open spec fn moment_of(brief: BriefView) -> int {
    if brief.updated_at_ms > 0 {
        brief.updated_at_ms
    } else {
        brief.created_at_ms
    }
}

/// Whether a rollout continues another, by its file name.
pub open spec fn source_continues(source: ThreadSourceView) -> bool {
    source.file_name matches Some(name) && name_continues(name)
}

/// Whether a rollout that was read is preferred to another of its session: one that continues others
/// to one that does not, and of two of a kind none that was changed earlier.
pub open spec fn is_preferred(better: ThreadSourceView, other: ThreadSourceView) -> bool {
    &&& better.reading matches Ok(Some(reading)) && (other.reading matches Ok(Some(than))
        && reading.brief.id == than.brief.id && (source_continues(better) == source_continues(other)
        ==> moment_of(than.brief) <= moment_of(reading.brief)))
    &&& source_continues(other) ==> source_continues(better)
}

/// Every rollout that was read has its session in the rebuilt table, by the row of a rollout of that
/// session to which it is not preferred.
pub proof fn law_rebuilt_table_has_every_session(
    rebuild: ThreadsRebuild,
    columns: Seq<Seq<char>>,
    sources: Seq<ThreadSourceView>,
    present: Present,
    s: int,
)
    requires
        is_threads_rebuild(rebuild, columns, sources, present, false),
        0 <= s < sources.len(),
        sources[s].reading matches Ok(Some(_)),
    ensures
        exists|r: int, t: int|
            0 <= r < rebuild.rows@.len() && #[trigger] is_row_of(
                row_view(rebuild.rows@[r]@),
                columns,
                sources,
                t,
            ) && is_preferred(sources[t], sources[s]),
{
    let pick = planned_row(columns, present);
    let rows = sources.filter_map(pick);
    let ids = row_sessions(rows);
    let candidates = row_candidates(rows);
    let id = sources[s].reading->Ok_0->Some_0.brief.id;
    let own = pick(sources[s])->Some_0;
    lemma_filter_map_has(sources, pick, s);
    let i = choose|i: int| 0 <= i < rows.len() && rows[i] == own;
    assert(candidates[i] == own.candidate);
    assert(candidate_ids(candidates)[i] == id);
    lemma_sorted_texts(candidate_ids(candidates));
    assert(candidate_ids(candidates).contains(id));
    assert(ids.contains(id));
    let r = choose|r: int| 0 <= r < ids.len() && ids[r] == id;
    assert(crate::rebuild::rows_values(rebuild.rows@).len() == rebuild.rows@.len());
    assert(chosen_rows(rows).len() == ids.len());
    lemma_row_at(rebuild, columns, sources, present, r);
    let k = chosen(candidates, id)->Some_0;
    law_newest_of_a_kind_wins(candidates, id, i);
    if candidates[i].is_continuation {
        law_continuation_wins(candidates, id, i);
    }
    let t = choose|t: int| #[trigger]
        is_row_of(row_view(rebuild.rows@[r]@), columns, sources, t) && pick(sources[t]) == Some(
            rows[k],
        );
    lemma_chosen(candidates, id);
    assert(candidates[k] == rows[k].candidate);
    assert(candidates[k].id == id);
    let better = sources[t].reading->Ok_0->Some_0.brief;
    assert(candidates[k].updated_at_ms == moment_of(better) && better.id == id);
    assert(candidates[k].is_continuation == source_continues(sources[t]));
    assert(candidates[i].is_continuation == source_continues(sources[s]));
    assert(is_preferred(sources[t], sources[s]));
}

} // verus!
