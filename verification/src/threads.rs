//! Rows of the threads table: which columns are written, with what values, and by which
//! statement.

use vstd::prelude::*;

use crate::error::{AppError, ErrorView};
use crate::json::{json_text, member, render, Json, JsonView};
use crate::rollout::{
    desktop_visible_source, git_field, is_subagent_source, metadata_field, metadata_git_field,
    metadata_string_field, source_is_subagent, text_or, visible_source, BriefView, RolloutBrief,
};
use crate::text::{
    head_of, holds_text, join, join3, joined, opt_text, same, take_chars, texts,
};

verus! {

// ---------------------------------------------------------------------------
// Columns
// ---------------------------------------------------------------------------

/// The columns that every threads table may have, in order.
pub open spec fn base_columns() -> Seq<Seq<char>> {
    seq![
        "id"@,
        "rollout_path"@,
        "created_at"@,
        "updated_at"@,
        "source"@,
        "model_provider"@,
        "cwd"@,
        "title"@,
        "sandbox_policy"@,
        "approval_mode"@,
        "tokens_used"@,
        "has_user_event"@,
        "archived"@,
        "archived_at"@,
        "git_sha"@,
        "git_branch"@,
        "git_origin_url"@,
        "cli_version"@,
        "first_user_message"@,
        "agent_nickname"@,
        "agent_role"@,
        "memory_mode"@,
        "model"@,
        "reasoning_effort"@,
        "agent_path"@,
        "created_at_ms"@,
        "updated_at_ms"@,
    ]
}

/// The columns that newer threads tables may have too, in order.
pub open spec fn newer_columns() -> Seq<Seq<char>> {
    seq![
        "preview"@,
        "thread_source"@,
        "recency_at"@,
        "recency_at_ms"@,
        "history_mode"@,
        "name"@,
    ]
}

/// All columns that can be written, in order.
pub open spec fn known_columns() -> Seq<Seq<char>> {
    base_columns() + newer_columns()
}

/// The texts of `items` that `held` holds, in order.
pub open spec fn texts_within(items: Seq<Seq<char>>, held: Seq<Seq<char>>) -> Seq<Seq<char>>
    decreases items.len(),
{
    if items.len() == 0 {
        Seq::empty()
    } else if held.contains(items.last()) {
        texts_within(items.drop_last(), held).push(items.last())
    } else {
        texts_within(items.drop_last(), held)
    }
}

/// The columns that are written into a table with these columns: the known ones that it
/// has. Without id and rollout path nothing can be written.
pub open spec fn written_columns(existing: Seq<Seq<char>>) -> Result<Seq<Seq<char>>, ErrorView> {
    let columns = texts_within(known_columns(), existing);
    if columns.contains("id"@) && columns.contains("rollout_path"@) {
        Ok(columns)
    } else {
        Err(ErrorView::InvalidCodexDir("threads 表缺少 id/rollout_path 列，无法同步会话"@))
    }
}

fn known_column_names() -> (names: Vec<&'static str>)
    ensures
        names@.len() == known_columns().len(),
        forall|i: int| 0 <= i < names@.len() ==> (#[trigger] names@[i])@ == known_columns()[i],
{
    let names: Vec<&'static str> = vec![
        "id",
        "rollout_path",
        "created_at",
        "updated_at",
        "source",
        "model_provider",
        "cwd",
        "title",
        "sandbox_policy",
        "approval_mode",
        "tokens_used",
        "has_user_event",
        "archived",
        "archived_at",
        "git_sha",
        "git_branch",
        "git_origin_url",
        "cli_version",
        "first_user_message",
        "agent_nickname",
        "agent_role",
        "memory_mode",
        "model",
        "reasoning_effort",
        "agent_path",
        "created_at_ms",
        "updated_at_ms",
        "preview",
        "thread_source",
        "recency_at",
        "recency_at_ms",
        "history_mode",
        "name",
    ];
    names
}

/// The columns that are written into a table with these columns.
pub fn effective_threads_cols(existing: &Vec<String>) -> (columns: Result<Vec<String>, AppError>)
    ensures
        match columns {
            Ok(columns) => written_columns(texts(existing@)) == Ok::<Seq<Seq<char>>, ErrorView>(
                texts(columns@),
            ),
            Err(error) => written_columns(texts(existing@)) == Err::<Seq<Seq<char>>, ErrorView>(
                error@,
            ),
        },
{
    let names = known_column_names();
    let ghost all = known_columns();
    let mut columns: Vec<String> = Vec::new();
    let mut at: usize = 0;
    while at < names.len()
        invariant
            at <= names@.len() == all.len(),
            forall|i: int| 0 <= i < names@.len() ==> (#[trigger] names@[i])@ == all[i],
            texts(columns@) == texts_within(all.take(at as int), texts(existing@)),
        decreases names.len() - at,
    {
        let ghost before = texts(columns@);
        assert(all.take(at + 1).drop_last() =~= all.take(at as int));
        assert(names@[at as int]@ == all[at as int]);
        if holds_text(existing, names[at]) {
            columns.push(names[at].to_owned());
            assert(texts(columns@) =~= before.push(all[at as int]));
        }
        at = at + 1;
    }
    assert(all.take(at as int) =~= all);
    if !holds_text(&columns, "id") || !holds_text(&columns, "rollout_path") {
        return Err(
            AppError::InvalidCodexDir("threads 表缺少 id/rollout_path 列，无法同步会话".to_owned()),
        );
    }
    Ok(columns)
}

/// Only known columns that the table has are written.
pub proof fn law_only_existing_columns_are_written(
    existing: Seq<Seq<char>>,
    column: Seq<char>,
)
    ensures
        written_columns(existing) matches Ok(columns) ==> (columns.contains(column)
            <==> known_columns().contains(column) && existing.contains(column)),
{
    lemma_texts_within(known_columns(), existing, column);
}

/// What is within another list is in both.
pub proof fn lemma_texts_within(items: Seq<Seq<char>>, held: Seq<Seq<char>>, text: Seq<char>)
    ensures
        texts_within(items, held).contains(text) <==> items.contains(text) && held.contains(text),
    decreases items.len(),
{
    if items.len() > 0 {
        let rest = items.drop_last();
        lemma_texts_within(rest, held, text);
        let before = texts_within(rest, held);
        let last = items.last();
        assert(items =~= rest.push(last));
        assert(rest.push(last).contains(text) <==> rest.contains(text) || text == last) by {
            assert(rest.push(last)[rest.len() as int] == last);
            if rest.contains(text) {
                let k = choose|k: int| 0 <= k < rest.len() && rest[k] == text;
                assert(rest.push(last)[k] == text);
            }
            if rest.push(last).contains(text) {
                let k = choose|k: int| 0 <= k < items.len() && rest.push(last)[k] == text;
                if k < rest.len() {
                    assert(rest[k] == text);
                }
            }
        }
        if held.contains(last) {
            assert(before.push(last).contains(text) <==> before.contains(text) || text == last) by {
                assert(before.push(last)[before.len() as int] == last);
                if before.contains(text) {
                    let k = choose|k: int| 0 <= k < before.len() && before[k] == text;
                    assert(before.push(last)[k] == text);
                }
                if before.push(last).contains(text) {
                    let k = choose|k: int|
                        0 <= k < before.push(last).len() && before.push(last)[k] == text;
                    if k < before.len() {
                        assert(before[k] == text);
                    }
                }
            }
        }
    }
}

// ---------------------------------------------------------------------------
// The statement
// ---------------------------------------------------------------------------

/// How the statement sets a column of a row that exists: titles and names only where the
/// row has none, list positions and Git data not at all where the row has them, previews
/// not to nothing, and all else to the new value.
pub open spec fn update_clause(column: Seq<char>) -> Seq<char> {
    if column == "title"@ || column == "name"@ {
        column + "=CASE WHEN TRIM(COALESCE(threads."@ + column + ",''))='' THEN excluded."@ + column
            + " ELSE threads."@ + column + " END"@
    } else if column == "recency_at"@ || column == "recency_at_ms"@ {
        column + "=threads."@ + column
    } else if column == "preview"@ {
        "preview=COALESCE(NULLIF(excluded.preview,''), threads.preview)"@
    } else if column == "git_sha"@ || column == "git_branch"@ || column == "git_origin_url"@ {
        column + "=COALESCE(threads."@ + column + ", excluded."@ + column + ")"@
    } else {
        column + "=excluded."@ + column
    }
}

/// Gives each column but the id the clause that sets it.
pub open spec fn update_clauses() -> spec_fn(Seq<char>) -> Option<Seq<char>> {
    |column: Seq<char>|
        if column == "id"@ {
            None
        } else {
            Some(update_clause(column))
        }
}

/// As many placeholders as there are columns.
pub open spec fn placeholders(columns: Seq<Seq<char>>) -> Seq<Seq<char>> {
    columns.map_values(|column: Seq<char>| "?"@)
}

/// The statement that inserts a row or updates the one with its id.
pub open spec fn upsert_sql(columns: Seq<Seq<char>>) -> Seq<char> {
    "INSERT INTO threads ("@ + joined(columns, ","@) + ") VALUES ("@ + joined(
        placeholders(columns),
        ","@,
    ) + ") ON CONFLICT(id) DO UPDATE SET "@ + joined(columns.filter_map(update_clauses()), ","@)
}

fn column_update(column: &str) -> (clause: String)
    ensures
        clause@ == update_clause(column@),
{
    if same(column, "title") || same(column, "name") {
        let mut clause = join3(column, "=CASE WHEN TRIM(COALESCE(threads.", column);
        clause.append(",''))='' THEN excluded.");
        clause.append(column);
        clause.append(" ELSE threads.");
        clause.append(column);
        clause.append(" END");
        clause
    } else if same(column, "recency_at") || same(column, "recency_at_ms") {
        join3(column, "=threads.", column)
    } else if same(column, "preview") {
        "preview=COALESCE(NULLIF(excluded.preview,''), threads.preview)".to_owned()
    } else if same(column, "git_sha") || same(column, "git_branch") || same(
        column,
        "git_origin_url",
    ) {
        let mut clause = join3(column, "=COALESCE(threads.", column);
        clause.append(", excluded.");
        clause.append(column);
        clause.append(")");
        clause
    } else {
        join3(column, "=excluded.", column)
    }
}

/// The statement that inserts a row or updates the one with its id.
pub fn threads_upsert_sql(columns: &Vec<String>) -> (sql: String)
    ensures
        sql@ == upsert_sql(texts(columns@)),
{
    let ghost all = texts(columns@);
    let mut marks: Vec<String> = Vec::new();
    let mut clauses: Vec<String> = Vec::new();
    let mut at: usize = 0;
    while at < columns.len()
        invariant
            at <= columns@.len(),
            all == texts(columns@),
            texts(marks@) == placeholders(all.take(at as int)),
            texts(clauses@) == all.take(at as int).filter_map(update_clauses()),
        decreases columns.len() - at,
    {
        assert(all.take(at + 1).drop_last() =~= all.take(at as int));
        let ghost marks_before = texts(marks@);
        let ghost clauses_before = texts(clauses@);
        marks.push("?".to_owned());
        assert(texts(marks@) =~= marks_before.push("?"@));
        assert(texts(marks@) =~= placeholders(all.take(at + 1)));
        if !same(columns[at].as_str(), "id") {
            clauses.push(column_update(columns[at].as_str()));
            assert(texts(clauses@) =~= clauses_before + seq![update_clause(all[at as int])]);
        }
        at = at + 1;
    }
    assert(all.take(at as int) =~= all);
    let mut sql = "INSERT INTO threads (".to_owned();
    sql.append(join(columns, ",").as_str());
    sql.append(") VALUES (");
    sql.append(join(&marks, ",").as_str());
    sql.append(") ON CONFLICT(id) DO UPDATE SET ");
    sql.append(join(&clauses, ",").as_str());
    sql
}

// ---------------------------------------------------------------------------
// The values
// ---------------------------------------------------------------------------

/// A value of a column. Numbers beyond 64-bit signed integers are kept as they were read.
pub enum SqlValue {
    Null,
    Integer(i64),
    Unsigned(u64),
    Fraction(serde_json::Number),
    Text(String),
}

/// What an [`SqlValue`] holds.
#[verifier::ext_equal]
pub enum SqlView {
    Null,
    Integer(i64),
    Unsigned(u64),
    Fraction(serde_json::Number),
    Text(Seq<char>),
}

impl View for SqlValue {
    type V = SqlView;

    open spec fn view(&self) -> SqlView {
        match *self {
            SqlValue::Null => SqlView::Null,
            SqlValue::Integer(number) => SqlView::Integer(number),
            SqlValue::Unsigned(number) => SqlView::Unsigned(number),
            SqlValue::Fraction(number) => SqlView::Fraction(number),
            SqlValue::Text(text) => SqlView::Text(text@),
        }
    }
}

/// What a row holds.
pub open spec fn row_view(row: Seq<SqlValue>) -> Seq<SqlView> {
    row.map_values(|value: SqlValue| value@)
}

/// The column value that a JSON value is stored as.
pub open spec fn bound_value(value: JsonView) -> SqlView {
    match value {
        JsonView::Null => SqlView::Null,
        JsonView::Bool(flag) => SqlView::Integer(
            if flag {
                1
            } else {
                0
            },
        ),
        JsonView::Unsigned(number) => if number <= i64::MAX {
            SqlView::Integer(number as i64)
        } else {
            SqlView::Unsigned(number)
        },
        JsonView::Negative(number) => SqlView::Integer(number),
        JsonView::Fraction(number) => SqlView::Fraction(number),
        JsonView::Text(text) => SqlView::Text(text),
        _ => SqlView::Text(json_text(value)),
    }
}

/// The column value that a JSON value is stored as.
pub fn bind_thread_value(value: &Json) -> (bound: SqlValue)
    ensures
        bound@ == bound_value(value.model()),
{
    match value {
        Json::Null => SqlValue::Null,
        Json::Bool(flag) => SqlValue::Integer(
            if *flag {
                1
            } else {
                0
            },
        ),
        Json::Unsigned(number) => if *number <= i64::MAX as u64 {
            SqlValue::Integer(*number as i64)
        } else {
            SqlValue::Unsigned(*number)
        },
        Json::Negative(number) => SqlValue::Integer(*number),
        Json::Fraction(fraction) => SqlValue::Fraction(fraction.number()),
        Json::Text(text) => SqlValue::Text(text.clone()),
        other => SqlValue::Text(render(other)),
    }
}

/// What the values of a row are made of: the brief of the rollout, the payload of its
/// session metadata, whether the session is archived, when its file was last changed and
/// the present, both in seconds and the present also in milliseconds since 1970.
pub struct RowSource<'a> {
    pub brief: &'a RolloutBrief,
    pub payload: &'a Json,
    pub archived: bool,
    pub modified_at: Option<i64>,
    pub now_s: i64,
    pub now_ms: i64,
}

/// What a [`RowSource`] holds.
pub struct RowSourceView {
    pub brief: BriefView,
    pub payload: JsonView,
    pub archived: bool,
    pub modified_at: Option<i64>,
    pub now_s: i64,
    pub now_ms: i64,
}

impl<'a> View for RowSource<'a> {
    type V = RowSourceView;

    open spec fn view(&self) -> RowSourceView {
        RowSourceView {
            brief: self.brief@,
            payload: self.payload.model(),
            archived: self.archived,
            modified_at: self.modified_at,
            now_s: self.now_s,
            now_ms: self.now_ms,
        }
    }
}

/// Milliseconds as whole seconds, rounded toward zero.
pub open spec fn whole_seconds(ms: int) -> int {
    if ms >= 0 {
        ms / 1000
    } else {
        -((-ms) / 1000)
    }
}

/// When a session was last changed: as its rollout says, or now.
pub open spec fn row_updated(source: RowSourceView) -> int {
    if source.brief.updated_at_ms > 0 {
        source.brief.updated_at_ms
    } else {
        source.now_ms as int
    }
}

/// When a session was created: as its rollout says, or when it was last changed.
pub open spec fn row_created(source: RowSourceView) -> int {
    if source.brief.created_at_ms > 0 {
        source.brief.created_at_ms
    } else {
        row_updated(source)
    }
}

/// A text, or nothing.
pub open spec fn text_or_null(text: Option<Seq<char>>) -> SqlView {
    match text {
        Some(text) => SqlView::Text(text),
        None => SqlView::Null,
    }
}

/// The value of a column that holds a moment or a number.
pub open spec fn number_column(column: Seq<char>, source: RowSourceView) -> Option<int> {
    if column == "created_at"@ {
        Some(whole_seconds(row_created(source)))
    } else if column == "updated_at"@ || column == "recency_at"@ {
        Some(whole_seconds(row_updated(source)))
    } else if column == "created_at_ms"@ {
        Some(row_created(source))
    } else if column == "updated_at_ms"@ || column == "recency_at_ms"@ {
        Some(row_updated(source))
    } else if column == "has_user_event"@ {
        Some(1)
    } else if column == "archived"@ {
        Some(
            if source.archived {
                1
            } else {
                0
            },
        )
    } else if column == "tokens_used"@ {
        Some(source.brief.tokens_used as int)
    } else {
        None
    }
}

/// The value of a column that always holds a text.
pub open spec fn text_column(column: Seq<char>, source: RowSourceView) -> Option<Seq<char>> {
    let brief = source.brief;
    let payload = source.payload;
    if column == "id"@ {
        Some(brief.id)
    } else if column == "rollout_path"@ {
        Some(brief.path)
    } else if column == "cwd"@ {
        Some(
            match brief.cwd {
                Some(cwd) => cwd,
                None => text_or(metadata_field(payload, "cwd"@), Seq::empty()),
            },
        )
    } else if column == "source"@ {
        Some(visible_source(payload))
    } else if column == "model_provider"@ {
        Some(text_or(metadata_field(payload, "model_provider"@), brief.model_provider))
    } else if column == "sandbox_policy"@ {
        Some(text_or(brief.sandbox_policy, "read-only"@))
    } else if column == "approval_mode"@ {
        Some(text_or(brief.approval_mode, "on-request"@))
    } else if column == "memory_mode"@ {
        Some(text_or(brief.memory_mode, "enabled"@))
    } else if column == "title"@ {
        Some(head_of(brief.first_user_message, 80))
    } else if column == "first_user_message"@ || column == "preview"@ {
        Some(brief.first_user_message)
    } else if column == "cli_version"@ {
        Some(text_or(metadata_field(payload, "cli_version"@), Seq::empty()))
    } else if column == "history_mode"@ {
        Some(text_or(metadata_field(payload, "history_mode"@), "legacy"@))
    } else if column == "thread_source"@ {
        Some(
            if source_is_subagent(Some(visible_source(payload))) {
                "subagent"@
            } else {
                "user"@
            },
        )
    } else {
        None
    }
}

/// The value of a column that may hold nothing.
pub open spec fn open_column(column: Seq<char>, source: RowSourceView) -> SqlView {
    let payload = source.payload;
    if column == "archived_at"@ {
        if source.archived {
            SqlView::Integer(
                match source.modified_at {
                    Some(at) => at,
                    None => source.now_s,
                },
            )
        } else {
            SqlView::Null
        }
    } else if column == "model"@ {
        text_or_null(source.brief.model)
    } else if column == "reasoning_effort"@ {
        text_or_null(source.brief.reasoning_effort)
    } else if column == "git_sha"@ {
        text_or_null(git_field(payload, "git_sha"@, "commit_hash"@))
    } else if column == "git_branch"@ {
        text_or_null(git_field(payload, "git_branch"@, "branch"@))
    } else if column == "git_origin_url"@ {
        text_or_null(git_field(payload, "git_origin_url"@, "repository_url"@))
    } else if column == "name"@ {
        SqlView::Null
    } else {
        match member(payload, column) {
            Some(value) => bound_value(value),
            None => SqlView::Null,
        }
    }
}

/// The value of a column.
pub open spec fn column_value(column: Seq<char>, source: RowSourceView) -> SqlView {
    match number_column(column, source) {
        Some(number) => SqlView::Integer(number as i64),
        None => match text_column(column, source) {
            Some(text) => SqlView::Text(text),
            None => open_column(column, source),
        },
    }
}

/// Gives each column its value.
pub open spec fn column_values(source: RowSourceView) -> spec_fn(Seq<char>) -> SqlView {
    |column: Seq<char>| column_value(column, source)
}

fn to_seconds(ms: i64) -> (seconds: i64)
    ensures
        seconds == whole_seconds(ms as int),
{
    if ms >= 0 {
        ms / 1000
    } else {
        let wide: i128 = ms as i128;
        (-((-wide) / 1000)) as i64
    }
}

fn or_else(text: &Option<String>, default: &str) -> (chosen: String)
    ensures
        chosen@ == text_or(opt_text(*text), default@),
{
    match text {
        Some(text) => text.clone(),
        None => default.to_owned(),
    }
}

fn nullable(text: Option<String>) -> (value: SqlValue)
    ensures
        value@ == text_or_null(opt_text(text)),
{
    match text {
        Some(text) => SqlValue::Text(text),
        None => SqlValue::Null,
    }
}

fn row_updated_at(source: &RowSource) -> (ms: i64)
    ensures
        ms == row_updated(source@),
{
    if source.brief.updated_at_ms > 0 {
        source.brief.updated_at_ms
    } else {
        source.now_ms
    }
}

fn row_created_at(source: &RowSource) -> (ms: i64)
    ensures
        ms == row_created(source@),
{
    if source.brief.created_at_ms > 0 {
        source.brief.created_at_ms
    } else {
        row_updated_at(source)
    }
}

fn number_value(column: &str, source: &RowSource) -> (number: Option<i64>)
    ensures
        match number {
            Some(number) => number_column(column@, source@) == Some(number as int),
            None => number_column(column@, source@) is None,
        },
{
    if same(column, "created_at") {
        Some(to_seconds(row_created_at(source)))
    } else if same(column, "updated_at") || same(column, "recency_at") {
        Some(to_seconds(row_updated_at(source)))
    } else if same(column, "created_at_ms") {
        Some(row_created_at(source))
    } else if same(column, "updated_at_ms") || same(column, "recency_at_ms") {
        Some(row_updated_at(source))
    } else if same(column, "has_user_event") {
        Some(1)
    } else if same(column, "archived") {
        Some(
            if source.archived {
                1
            } else {
                0
            },
        )
    } else if same(column, "tokens_used") {
        Some(source.brief.tokens_used)
    } else {
        None
    }
}

fn text_value(column: &str, source: &RowSource) -> (text: Option<String>)
    ensures
        opt_text(text) == text_column(column@, source@),
{
    let brief = source.brief;
    let payload = source.payload;
    if same(column, "id") {
        Some(brief.id.clone())
    } else if same(column, "rollout_path") {
        Some(brief.path.clone())
    } else if same(column, "cwd") {
        Some(
            match &brief.cwd {
                Some(cwd) => cwd.clone(),
                None => match metadata_string_field(payload, "cwd") {
                    Some(cwd) => cwd,
                    None => String::new(),
                },
            },
        )
    } else if same(column, "source") {
        Some(desktop_visible_source(payload))
    } else if same(column, "model_provider") {
        Some(
            or_else(
                &metadata_string_field(payload, "model_provider"),
                brief.model_provider.as_str(),
            ),
        )
    } else if same(column, "sandbox_policy") {
        Some(or_else(&brief.sandbox_policy, "read-only"))
    } else if same(column, "approval_mode") {
        Some(or_else(&brief.approval_mode, "on-request"))
    } else if same(column, "memory_mode") {
        Some(or_else(&brief.memory_mode, "enabled"))
    } else if same(column, "title") {
        Some(take_chars(brief.first_user_message.as_str(), 80))
    } else if same(column, "first_user_message") || same(column, "preview") {
        Some(brief.first_user_message.clone())
    } else if same(column, "cli_version") {
        Some(
            match metadata_string_field(payload, "cli_version") {
                Some(version) => version,
                None => String::new(),
            },
        )
    } else if same(column, "history_mode") {
        Some(or_else(&metadata_string_field(payload, "history_mode"), "legacy"))
    } else if same(column, "thread_source") {
        let visible = desktop_visible_source(payload);
        Some(
            if is_subagent_source(Some(visible.as_str())) {
                "subagent".to_owned()
            } else {
                "user".to_owned()
            },
        )
    } else {
        None
    }
}

fn open_value_of(column: &str, source: &RowSource) -> (value: SqlValue)
    ensures
        value@ == open_column(column@, source@),
{
    let payload = source.payload;
    if same(column, "archived_at") {
        if source.archived {
            SqlValue::Integer(
                match source.modified_at {
                    Some(at) => at,
                    None => source.now_s,
                },
            )
        } else {
            SqlValue::Null
        }
    } else if same(column, "model") {
        nullable(crate::text::copy_opt(&source.brief.model))
    } else if same(column, "reasoning_effort") {
        nullable(crate::text::copy_opt(&source.brief.reasoning_effort))
    } else if same(column, "git_sha") {
        nullable(metadata_git_field(payload, "git_sha", "commit_hash"))
    } else if same(column, "git_branch") {
        nullable(metadata_git_field(payload, "git_branch", "branch"))
    } else if same(column, "git_origin_url") {
        nullable(metadata_git_field(payload, "git_origin_url", "repository_url"))
    } else if same(column, "name") {
        SqlValue::Null
    } else {
        match payload.get(column) {
            Some(value) => bind_thread_value(value),
            None => SqlValue::Null,
        }
    }
}

/// The value of a column.
pub fn thread_column_value(column: &str, source: &RowSource) -> (value: SqlValue)
    ensures
        value@ == column_value(column@, source@),
{
    match number_value(column, source) {
        Some(number) => SqlValue::Integer(number),
        None => match text_value(column, source) {
            Some(text) => SqlValue::Text(text),
            None => open_value_of(column, source),
        },
    }
}

/// The values of a row, in the order of the columns.
pub fn thread_values_from_rollout(columns: &Vec<String>, source: &RowSource) -> (row: Vec<SqlValue>)
    ensures
        row_view(row@) == texts(columns@).map_values(column_values(source@)),
{
    let ghost all = texts(columns@);
    let ghost value_of = column_values(source@);
    let mut row: Vec<SqlValue> = Vec::new();
    let mut at: usize = 0;
    while at < columns.len()
        invariant
            at <= columns@.len(),
            all == texts(columns@),
            value_of == column_values(source@),
            row_view(row@) == all.take(at as int).map_values(value_of),
        decreases columns.len() - at,
    {
        let ghost before = row_view(row@);
        let value = thread_column_value(columns[at].as_str(), source);
        row.push(value);
        assert(row_view(row@) =~= before.push(value@));
        assert(row_view(row@) =~= all.take(at + 1).map_values(value_of));
        at = at + 1;
    }
    assert(all.take(at as int) =~= all);
    row
}

/// The payload of session metadata; `null` where it has none.
pub open spec fn payload_or_null(meta: JsonView) -> JsonView {
    match member(meta, "payload"@) {
        Some(payload) => payload,
        None => JsonView::Null,
    }
}

/// The title of a row has at most 80 characters and starts the first user message.
pub proof fn law_title_starts_the_first_message(source: RowSourceView)
    ensures
        ({
            let title = head_of(source.brief.first_user_message, 80);
            title.len() <= 80 && title == source.brief.first_user_message.take(title.len() as int)
        }),
{
    let message = source.brief.first_user_message;
    if message.len() <= 80 {
        assert(message.take(message.len() as int) =~= message);
    }
}

/// A row that was made from the brief of a rollout was created no later than it was last
/// changed.
pub proof fn law_row_created_before_updated(source: RowSourceView)
    requires
        source.brief.created_at_ms <= source.brief.updated_at_ms,
        0 <= source.brief.updated_at_ms,
    ensures
        row_created(source) <= row_updated(source),
{
}

// ---------------------------------------------------------------------------
// Other statements, and what their answers mean
// ---------------------------------------------------------------------------

/// The statement that carries title and name of a session to another: `?1` is the
/// session, `?2` the other. Nothing is carried where the session has none.
pub open spec fn carry_sql(has_name: bool) -> Seq<char> {
    if has_name {
        "UPDATE threads SET title = CASE WHEN EXISTS (SELECT 1 FROM threads WHERE id = ?1 AND TRIM(COALESCE(title,'')) <> '') THEN (SELECT title FROM threads WHERE id = ?1) ELSE title END, name = CASE WHEN EXISTS (SELECT 1 FROM threads WHERE id = ?1 AND TRIM(COALESCE(name,'')) <> '') THEN (SELECT name FROM threads WHERE id = ?1) ELSE name END WHERE id = ?2"@
    } else {
        "UPDATE threads SET title = (SELECT title FROM threads WHERE id = ?1) WHERE id = ?2 AND EXISTS (SELECT 1 FROM threads WHERE id = ?1 AND TRIM(COALESCE(title,'')) <> '')"@
    }
}

/// The statement that carries title and name of a session to another, for a table with
/// these columns.
pub fn carry_thread_title_sql(columns: &Vec<String>) -> (sql: &'static str)
    ensures
        sql@ == carry_sql(texts(columns@).contains("name"@)),
{
    if holds_text(columns, "name") {
        "UPDATE threads SET title = CASE WHEN EXISTS (SELECT 1 FROM threads WHERE id = ?1 AND TRIM(COALESCE(title,'')) <> '') THEN (SELECT title FROM threads WHERE id = ?1) ELSE title END, name = CASE WHEN EXISTS (SELECT 1 FROM threads WHERE id = ?1 AND TRIM(COALESCE(name,'')) <> '') THEN (SELECT name FROM threads WHERE id = ?1) ELSE name END WHERE id = ?2"
    } else {
        "UPDATE threads SET title = (SELECT title FROM threads WHERE id = ?1) WHERE id = ?2 AND EXISTS (SELECT 1 FROM threads WHERE id = ?1 AND TRIM(COALESCE(title,'')) <> '')"
    }
}

/// The statement that reads the name under which a session is shown.
pub open spec fn name_sql(has_name: bool) -> Seq<char> {
    if has_name {
        "SELECT COALESCE(NULLIF(TRIM(name), ''), NULLIF(TRIM(title), ''), '') FROM threads WHERE id = ?"@
    } else {
        "SELECT COALESCE(NULLIF(TRIM(title), ''), '') FROM threads WHERE id = ?"@
    }
}

/// The statement that reads the name under which a session is shown, for a table with
/// these columns.
pub fn display_name_sql(columns: &Vec<String>) -> (sql: &'static str)
    ensures
        sql@ == name_sql(texts(columns@).contains("name"@)),
{
    if holds_text(columns, "name") {
        "SELECT COALESCE(NULLIF(TRIM(name), ''), NULLIF(TRIM(title), ''), '') FROM threads WHERE id = ?"
    } else {
        "SELECT COALESCE(NULLIF(TRIM(title), ''), '') FROM threads WHERE id = ?"
    }
}

/// The name under which a session is shown, given what its row answered; an empty answer
/// is no name.
pub fn thread_display_name(answer: Option<String>) -> (name: Option<String>)
    ensures
        opt_text(name) == match opt_text(answer) {
            Some(name) => if name.len() > 0 {
                Some(name)
            } else {
                None
            },
            None => None,
        },
{
    match answer {
        Some(name) => if name.as_str().is_empty() {
            None
        } else {
            Some(name)
        },
        None => None,
    }
}

/// The error for a session that the threads table does not have.
pub open spec fn missing_thread(id: Seq<char>) -> ErrorView {
    ErrorView::NotFound("threads 中未找到 id: "@ + id)
}

/// Refuses a session of which the threads table has no row.
pub fn require_thread_row(rows: usize, id: &str) -> (outcome: Result<(), AppError>)
    ensures
        crate::error::unit_outcome(outcome) == if rows == 0 {
            Err::<(), ErrorView>(missing_thread(id@))
        } else {
            Ok(())
        },
{
    if rows == 0 {
        Err(AppError::NotFound(crate::text::join2("threads 中未找到 id: ", id)))
    } else {
        Ok(())
    }
}

/// Refuses a rollout from which no row could be made.
pub fn require_synced(upserted: bool, rollout: &str) -> (outcome: Result<(), AppError>)
    ensures
        crate::error::unit_outcome(outcome) == if upserted {
            Ok::<(), ErrorView>(())
        } else {
            Err(
                ErrorView::InvalidCodexDir(
                    "rollout 缺少有效 session_meta.id，无法同步 threads: "@ + rollout@,
                ),
            )
        },
{
    if upserted {
        Ok(())
    } else {
        Err(
            AppError::InvalidCodexDir(
                crate::text::join2("rollout 缺少有效 session_meta.id，无法同步 threads: ", rollout),
            ),
        )
    }
}

/// Refuses a directory without a state database, where sessions are to be shown.
pub fn ensure_state_db_exists(is_file: bool, path: &str) -> (outcome: Result<(), AppError>)
    ensures
        crate::error::unit_outcome(outcome) == if is_file {
            Ok::<(), ErrorView>(())
        } else {
            Err(
                ErrorView::InvalidCodexDir(
                    "state_5.sqlite 不存在，无法同步会话可见性: "@ + path@,
                ),
            )
        },
{
    if is_file {
        Ok(())
    } else {
        Err(
            AppError::InvalidCodexDir(
                crate::text::join2("state_5.sqlite 不存在，无法同步会话可见性: ", path),
            ),
        )
    }
}

/// How a row that is there is brought up to date. Its id stays; a title or a name is kept where it is
/// not blank; when it was last looked at is kept; a preview gives way to another that is not empty;
/// where the code came from is kept where it is known. All else is taken over.
pub proof fn law_how_a_row_is_brought_up_to_date(column: Seq<char>)
    ensures
        ({
            let named = column == "title"@ || column == "name"@;
            let looked_at = column == "recency_at"@ || column == "recency_at_ms"@;
            let origin = column == "git_sha"@ || column == "git_branch"@ || column
                == "git_origin_url"@;
            let clause = update_clauses()(column);
            &&& column == "id"@ <==> clause is None
            &&& named ==> clause == Some(
                column + "=CASE WHEN TRIM(COALESCE(threads."@ + column
                    + ",''))='' THEN excluded."@ + column + " ELSE threads."@ + column
                    + " END"@,
            )
            &&& looked_at ==> clause == Some(column + "=threads."@ + column)
            &&& column == "preview"@ ==> clause == Some(
                "preview=COALESCE(NULLIF(excluded.preview,''), threads.preview)"@,
            )
            &&& origin ==> clause == Some(
                column + "=COALESCE(threads."@ + column + ", excluded."@ + column + ")"@,
            )
            &&& column != "id"@ && !named && !looked_at && !origin && column != "preview"@
                ==> clause == Some(column + "=excluded."@ + column)
        }),
{
    reveal_strlit("id");
    reveal_strlit("title");
    reveal_strlit("name");
    reveal_strlit("recency_at");
    reveal_strlit("recency_at_ms");
    reveal_strlit("preview");
    reveal_strlit("git_sha");
    reveal_strlit("git_branch");
    reveal_strlit("git_origin_url");
    assert("id"@.len() == 2 && "title"@.len() == 5 && "name"@.len() == 4);
    assert("recency_at"@.len() == 10 && "recency_at_ms"@.len() == 13);
    assert("preview"@.len() == 7 && "git_sha"@.len() == 7);
    assert("git_branch"@.len() == 10 && "git_origin_url"@.len() == 14);
    assert("preview"@[0] == 'p' && "git_sha"@[0] == 'g');
    assert("recency_at"@[0] == 'r' && "git_branch"@[0] == 'g');
}

/// A row is written with one place for each column, in the order of the columns.
pub proof fn law_each_column_has_its_place(columns: Seq<Seq<char>>, source: RowSourceView, i: int)
    requires
        0 <= i < columns.len(),
    ensures
        placeholders(columns).len() == columns.len(),
        placeholders(columns)[i] == "?"@,
        columns.map_values(column_values(source)).len() == columns.len(),
        columns.map_values(column_values(source))[i] == column_value(columns[i], source),
{
}

/// How a value of a record is written into a column: truth as one or zero, numbers and texts as they
/// are, null as such, and lists and objects as their text.
pub proof fn law_how_values_are_bound(value: JsonView)
    ensures
        value is Null ==> bound_value(value) == SqlView::Null,
        value == JsonView::Bool(true) ==> bound_value(value) == SqlView::Integer(1),
        value == JsonView::Bool(false) ==> bound_value(value) == SqlView::Integer(0),
        value matches JsonView::Unsigned(number) ==> (number <= i64::MAX ==> bound_value(value)
            == SqlView::Integer(number as i64)) && (number > i64::MAX ==> bound_value(value)
            == SqlView::Unsigned(number)),
        value matches JsonView::Negative(number) ==> bound_value(value) == SqlView::Integer(number),
        value matches JsonView::Text(text) ==> bound_value(value) == SqlView::Text(text),
        value is List || value is Object ==> bound_value(value) == SqlView::Text(json_text(value)),
{
}

} // verus!
