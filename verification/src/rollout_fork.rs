//! Independent copies of rollouts, whole or up to a chosen message.

use vstd::prelude::*;

use crate::error::{AppError, ErrorView};
use crate::json::{
    json_document, json_text, list_model, member, member_text, parse, reads_back, render, Json,
    JsonView,
};
use crate::rollout_copy::{
    filled_lines, fresh_tail, lines_outcome, needs_boundary, tail_after, CopyIdentity,
    CopyIdentityView, DuplicateTailState, TailView,
};
use crate::rollout::{lemma_first_line_states, states_session};
use crate::session_meta::{
    build_independent_duplicate_meta, copied_meta, is_meta, is_session_id, lemma_copy_is_stated,
    line_meta, meta_outcome, source_session_meta,
};
use crate::text::{is_blank, join2, opt_text, texts, trimmed};

verus! {

// ---------------------------------------------------------------------------
// The end of an interrupted copy
// ---------------------------------------------------------------------------

/// What a copy says to the assistant where the last turn of its source was not finished.
pub open spec fn interruption_text() -> Seq<char> {
    "<turn_aborted>\nThe user interrupted the previous turn on purpose. Any running unified exec processes may still be running in the background. If any tools/commands were aborted, they may have partially executed.\n</turn_aborted>"@
}

/// The record that says so in the conversation.
pub open spec fn interruption_marker(timestamp: Seq<char>) -> JsonView {
    let part = JsonView::Object(
        Map::empty().insert("type"@, JsonView::Text("input_text"@)).insert(
            "text"@,
            JsonView::Text(interruption_text()),
        ),
    );
    let payload = JsonView::Object(
        Map::empty().insert("type"@, JsonView::Text("message"@)).insert(
            "role"@,
            JsonView::Text("user"@),
        ).insert("content"@, JsonView::List(seq![part])),
    );
    JsonView::Object(
        Map::empty().insert("timestamp"@, JsonView::Text(timestamp)).insert(
            "type"@,
            JsonView::Text("response_item"@),
        ).insert("payload"@, payload),
    )
}

/// The record that ends the turn.
pub open spec fn interruption_event(timestamp: Seq<char>, turn_id: Option<Seq<char>>) -> JsonView {
    let payload = JsonView::Object(
        Map::empty().insert("type"@, JsonView::Text("turn_aborted"@)).insert(
            "turn_id"@,
            match turn_id {
                Some(id) => JsonView::Text(id),
                None => JsonView::Null,
            },
        ).insert("reason"@, JsonView::Text("interrupted"@)),
    );
    JsonView::Object(
        Map::empty().insert("timestamp"@, JsonView::Text(timestamp)).insert(
            "type"@,
            JsonView::Text("event_msg"@),
        ).insert("payload"@, payload),
    )
}

/// The lines that end an interrupted copy.
pub open spec fn interruption_lines(timestamp: Seq<char>, turn_id: Option<Seq<char>>) -> Seq<
    Seq<char>,
> {
    seq![
        json_text(interruption_marker(timestamp)),
        json_text(interruption_event(timestamp, turn_id)),
    ]
}

/// The records that end an interrupted copy.
pub fn interruption_records(timestamp: &str, turn_id: &Option<String>) -> (records: (Json, Json))
    ensures
        records.0.model() == interruption_marker(timestamp@),
        records.1.model() == interruption_event(timestamp@, opt_text(*turn_id)),
{
    let text = "<turn_aborted>\nThe user interrupted the previous turn on purpose. Any running unified exec processes may still be running in the background. If any tools/commands were aborted, they may have partially executed.\n</turn_aborted>";
    let part = Json::object().set_str("type", "input_text").set_str("text", text);
    let mut parts: Vec<Json> = Vec::new();
    parts.push(part);
    assert(list_model(parts@) =~= seq![part.model()]);
    let message = Json::object().set_str("type", "message").set_str("role", "user").set(
        "content",
        Json::List(parts),
    );
    let marker = Json::object().set_str("timestamp", timestamp).set_str(
        "type",
        "response_item",
    ).set("payload", message);
    let turn = match turn_id {
        Some(id) => Json::text(id.as_str()),
        None => Json::Null,
    };
    let ended = Json::object().set_str("type", "turn_aborted").set("turn_id", turn).set_str(
        "reason",
        "interrupted",
    );
    let event = Json::object().set_str("timestamp", timestamp).set_str("type", "event_msg").set(
        "payload",
        ended,
    );
    (marker, event)
}

/// The lines that end an interrupted copy.
pub fn write_interrupted_duplicate_boundary(timestamp: &str, turn_id: &Option<String>) -> (lines:
    Vec<String>)
    ensures
        texts(lines@) == interruption_lines(timestamp@, opt_text(*turn_id)),
{
    let (marker, event) = interruption_records(timestamp, turn_id);
    let mut lines: Vec<String> = Vec::new();
    lines.push(render(&marker));
    lines.push(render(&event));
    assert(texts(lines@) =~= interruption_lines(timestamp@, opt_text(*turn_id)));
    lines
}

// ---------------------------------------------------------------------------
// The whole of a session
// ---------------------------------------------------------------------------

/// The first metadata of a session in a rollout.
pub open spec fn first_meta(lines: Seq<Seq<char>>, id: Seq<char>) -> Result<
    Option<JsonView>,
    ErrorView,
>
    decreases lines.len(),
{
    if lines.len() == 0 {
        Ok(None)
    } else {
        match first_meta(lines.drop_last(), id) {
            Ok(None) => line_meta(lines.last(), id),
            decided => decided,
        }
    }
}

/// What a copy takes over of the first lines of its source.
#[verifier::ext_equal]
pub struct CopyProgress {
    pub lines: Seq<Seq<char>>,
    pub skipped: bool,
    pub tail: TailView,
}

/// How a session ends once a line was seen.
pub open spec fn tail_after_line(tail: TailView, line: Seq<char>) -> TailView {
    match json_document(line) {
        Some(record) => tail_after(tail, record),
        None => tail,
    }
}

/// What a copy takes over of the lines of its source: all that are not blank but for the
/// first metadata of the session.
pub open spec fn copied_body(lines: Seq<Seq<char>>, id: Seq<char>) -> Result<
    CopyProgress,
    ErrorView,
>
    decreases lines.len(),
{
    if lines.len() == 0 {
        Ok(CopyProgress { lines: Seq::empty(), skipped: false, tail: fresh_tail() })
    } else {
        match copied_body(lines.drop_last(), id) {
            Err(error) => Err(error),
            Ok(before) => {
                let line = lines.last();
                if trimmed(line).len() == 0 {
                    Ok(before)
                } else if before.skipped {
                    Ok(
                        CopyProgress {
                            lines: before.lines.push(line),
                            tail: tail_after_line(before.tail, line),
                            ..before
                        },
                    )
                } else {
                    match line_meta(line, id) {
                        Err(error) => Err(error),
                        Ok(Some(_)) => Ok(CopyProgress { skipped: true, ..before }),
                        Ok(None) => Ok(
                            CopyProgress {
                                lines: before.lines.push(line),
                                tail: tail_after_line(before.tail, line),
                                ..before
                            },
                        ),
                    }
                }
            },
        }
    }
}

/// The lines of an independent copy: its own metadata, what it takes over, and where its
/// source was not finished the lines that say so.
pub open spec fn copy_of_body(
    canonical: Seq<char>,
    body: CopyProgress,
    ended_at: Seq<char>,
) -> Seq<Seq<char>> {
    seq![canonical] + body.lines + if needs_boundary(body.tail) {
        interruption_lines(ended_at, body.tail.active_turn_id)
    } else {
        Seq::empty()
    }
}

/// An independent copy of a rollout.
pub open spec fn duplicated_rollout(
    lines: Seq<Seq<char>>,
    copy: CopyIdentityView,
    ended_at: Seq<char>,
    path: Seq<char>,
) -> Result<Seq<Seq<char>>, ErrorView> {
    match first_meta(lines, copy.source_id) {
        Err(error) => Err(error),
        Ok(None) => Err(ErrorView::Other("源 rollout 缺少当前会话的 session_meta: "@ + path)),
        Ok(Some(meta)) => match copied_meta(
            meta,
            copy.new_id,
            copy.provider,
            copy.source_id,
            copy.timestamp,
        ) {
            Err(error) => Err(error),
            Ok(canonical) => match copied_body(lines, copy.source_id) {
                Err(error) => Err(error),
                Ok(body) => if body.skipped {
                    Ok(copy_of_body(json_text(canonical), body, ended_at))
                } else {
                    Err(ErrorView::Other("复制期间未找到源会话 canonical meta"@))
                },
            },
        },
    }
}

proof fn lemma_first_meta_decided(lines: Seq<Seq<char>>, id: Seq<char>, at: int)
    requires
        0 <= at <= lines.len(),
        first_meta(lines.take(at), id) != Ok::<Option<JsonView>, ErrorView>(None),
    ensures
        first_meta(lines, id) == first_meta(lines.take(at), id),
    decreases lines.len(),
{
    if at < lines.len() {
        assert(lines.drop_last().take(at) =~= lines.take(at));
        lemma_first_meta_decided(lines.drop_last(), id, at);
    } else {
        assert(lines.take(at) =~= lines);
    }
}

proof fn lemma_first_meta_is_meta(lines: Seq<Seq<char>>, id: Seq<char>)
    ensures
        first_meta(lines, id) matches Ok(Some(meta)) ==> is_meta(meta),
    decreases lines.len(),
{
    if lines.len() > 0 {
        lemma_first_meta_is_meta(lines.drop_last(), id);
    }
}

fn find_first_meta(lines: &Vec<String>, id: &str) -> (meta: Result<Option<Json>, AppError>)
    ensures
        meta_outcome(meta) == first_meta(texts(lines@), id@),
{
    let ghost all = texts(lines@);
    let mut at: usize = 0;
    while at < lines.len()
        invariant
            at <= lines@.len(),
            all == texts(lines@),
            first_meta(all.take(at as int), id@) == Ok::<Option<JsonView>, ErrorView>(None),
        decreases lines.len() - at,
    {
        assert(all.take(at + 1).drop_last() =~= all.take(at as int));
        assert(all.take(at + 1).last() == lines@[at as int]@);
        match source_session_meta(lines[at].as_str(), id) {
            Err(error) => {
                proof {
                    lemma_first_meta_decided(all, id@, at + 1);
                }
                return Err(error);
            },
            Ok(Some(meta)) => {
                proof {
                    lemma_first_meta_decided(all, id@, at + 1);
                }
                return Ok(Some(meta));
            },
            Ok(None) => {},
        }
        at = at + 1;
    }
    assert(all.take(at as int) =~= all);
    Ok(None)
}

struct Body {
    lines: Vec<String>,
    skipped: bool,
    tail: DuplicateTailState,
}

impl Body {
    spec fn progress(self) -> CopyProgress {
        CopyProgress { lines: texts(self.lines@), skipped: self.skipped, tail: self.tail@ }
    }
}

proof fn lemma_body_error(lines: Seq<Seq<char>>, id: Seq<char>, at: int)
    requires
        0 <= at <= lines.len(),
        copied_body(lines.take(at), id) is Err,
    ensures
        copied_body(lines, id) == copied_body(lines.take(at), id),
    decreases lines.len(),
{
    if at < lines.len() {
        assert(lines.drop_last().take(at) =~= lines.take(at));
        lemma_body_error(lines.drop_last(), id, at);
    } else {
        assert(lines.take(at) =~= lines);
    }
}

fn copy_body(lines: &Vec<String>, id: &str) -> (body: Result<Body, AppError>)
    ensures
        match body {
            Ok(body) => copied_body(texts(lines@), id@) == Ok::<CopyProgress, ErrorView>(
                body.progress(),
            ),
            Err(error) => copied_body(texts(lines@), id@) == Err::<CopyProgress, ErrorView>(error@),
        },
{
    let ghost all = texts(lines@);
    let mut kept: Vec<String> = Vec::new();
    let mut skipped = false;
    let mut tail = DuplicateTailState::fresh();
    assert(texts(kept@) =~= Seq::empty());
    let mut at: usize = 0;
    while at < lines.len()
        invariant
            at <= lines@.len(),
            all == texts(lines@),
            copied_body(all.take(at as int), id@) == Ok::<CopyProgress, ErrorView>(
                CopyProgress { lines: texts(kept@), skipped, tail: tail@ },
            ),
        decreases lines.len() - at,
    {
        let line = &lines[at];
        assert(all.take(at + 1).drop_last() =~= all.take(at as int));
        assert(all.take(at + 1).last() == line@);
        let ghost before = texts(kept@);
        if !is_blank(line.as_str()) {
            let is_meta = if skipped {
                false
            } else {
                match source_session_meta(line.as_str(), id) {
                    Err(error) => {
                        proof {
                            lemma_body_error(all, id@, at + 1);
                        }
                        return Err(error);
                    },
                    Ok(meta) => meta.is_some(),
                }
            };
            if is_meta {
                skipped = true;
            } else {
                if let Some(record) = parse(line.as_str()) {
                    tail.observe(&record);
                }
                kept.push(line.clone());
                assert(texts(kept@) =~= before.push(line@));
            }
        }
        at = at + 1;
    }
    assert(all.take(at as int) =~= all);
    Ok(Body { lines: kept, skipped, tail })
}

/// Copies a rollout as an independent session. `ended_at` is the time that is given for the
/// end of an unfinished turn. The copy states the new session and its provider.
pub fn write_duplicated_rollout(
    lines: &Vec<String>,
    copy: &CopyIdentity,
    ended_at: &str,
    path: &str,
) -> (copied: Result<Vec<String>, AppError>)
    ensures
        lines_outcome(copied) == duplicated_rollout(texts(lines@), copy@, ended_at@, path@),
        (first_meta(texts(lines@), copy@.source_id) matches Ok(Some(meta)) && reads_back(meta, 127))
            && is_session_id(copy@.new_id) ==> (copied matches Ok(copied) ==> states_session(
            texts(copied@),
            copy@.new_id,
            copy@.provider,
        )),
{
    let meta = match find_first_meta(lines, copy.source_id) {
        Err(error) => return Err(error),
        Ok(None) => return Err(
            AppError::Other(join2("源 rollout 缺少当前会话的 session_meta: ", path)),
        ),
        Ok(Some(meta)) => meta,
    };
    let ghost source = meta.model();
    let canonical = match build_independent_duplicate_meta(
        meta,
        copy.new_id,
        copy.provider,
        copy.source_id,
        copy.timestamp,
    ) {
        Ok(line) => line,
        Err(error) => return Err(error),
    };
    let body = match copy_body(lines, copy.source_id) {
        Ok(body) => body,
        Err(error) => return Err(error),
    };
    if !body.skipped {
        return Err(AppError::Other("复制期间未找到源会话 canonical meta".to_owned()));
    }
    let ghost progress = body.progress();
    let mut copied: Vec<String> = Vec::new();
    copied.push(canonical);
    let ghost first = copied@;
    assert(texts(first) =~= seq![canonical@]);
    let needed = body.tail.needs_interruption();
    let mut ending = if needed {
        write_interrupted_duplicate_boundary(ended_at, &body.tail.active_turn_id)
    } else {
        let none: Vec<String> = Vec::new();
        assert(texts(none@) =~= Seq::empty());
        none
    };
    let mut rest = body.lines;
    let ghost second = rest@;
    let ghost third = ending@;
    copied.append(&mut rest);
    copied.append(&mut ending);
    assert(texts(first + second + third) =~= texts(first) + texts(second) + texts(third));
    assert(texts(copied@) =~= copy_of_body(canonical@, progress, ended_at@));
    proof {
        lemma_first_meta_is_meta(texts(lines@), copy@.source_id);
        if reads_back(source, 127) && is_session_id(copy@.new_id) {
            lemma_copy_is_stated(
                canonical@,
                source,
                copy@.new_id,
                copy@.provider,
                copy@.source_id,
                copy@.timestamp,
            );
            assert(texts(copied@)[0] == canonical@);
            lemma_first_line_states(texts(copied@), copy@.new_id, copy@.provider);
        }
    }
    Ok(copied)
}

/// An independent copy has, after its own metadata, every line of its source that is not
/// blank but for one, in order.
pub proof fn law_duplicate_takes_over_all_but_one_line(lines: Seq<Seq<char>>, id: Seq<char>)
    ensures
        copied_body(lines, id) matches Ok(body) ==> body.lines.len() + (if body.skipped {
            1int
        } else {
            0
        }) == filled_lines(lines).len(),
    decreases lines.len(),
{
    if lines.len() > 0 {
        law_duplicate_takes_over_all_but_one_line(lines.drop_last(), id);
    }
}

/// The record that ends an interrupted copy leaves nothing to interrupt: a copy of the copy
/// gets no such record again.
pub proof fn law_boundary_settles_the_tail(
    tail: TailView,
    timestamp: Seq<char>,
    turn_id: Option<Seq<char>>,
)
    ensures
        !needs_boundary(tail_after(tail, interruption_event(timestamp, turn_id))),
{
    reveal_strlit("type");
    reveal_strlit("payload");
    reveal_strlit("timestamp");
    reveal_strlit("turn_id");
    reveal_strlit("reason");
    assert("type"@.len() == 4 && "payload"@.len() == 7 && "timestamp"@.len() == 9);
    assert("turn_id"@.len() == 7 && "reason"@.len() == 6);
    assert("payload"@[0] == 'p' && "turn_id"@[0] == 't');
    let event = interruption_event(timestamp, turn_id);
    crate::rollout_copy::law_finished_turns_need_no_boundary(tail, event);
}

/// Whether lines are those of a rollout that are not blank without one of them, the first metadata
/// of a session.
pub open spec fn leaves_out(
    kept: Seq<Seq<char>>,
    id: Seq<char>,
    lines: Seq<Seq<char>>,
    k: int,
) -> bool {
    &&& 0 <= k < kept.len()
    &&& line_meta(kept[k], id) matches Ok(Some(_))
    &&& forall|j: int|
        0 <= j < k ==> line_meta(#[trigger] kept[j], id) == Ok::<Option<JsonView>, ErrorView>(None)
    &&& lines == kept.remove(k)
}

/// An independent copy holds after its metadata all lines of its source that are not blank but the
/// first metadata of the session, in their order. Two records follow just where the session ends in
/// the middle of a turn.
pub proof fn law_what_a_duplicate_holds(
    lines: Seq<Seq<char>>,
    copy: CopyIdentityView,
    ended_at: Seq<char>,
    path: Seq<char>,
)
    ensures
        duplicated_rollout(lines, copy, ended_at, path) matches Ok(copied) ==> {
            let count = filled_lines(lines).len() as int;
            let body = copied.subrange(1, count);
            let tail = body.fold_left(
                fresh_tail(),
                |tail: TailView, line: Seq<char>| tail_after_line(tail, line),
            );
            &&& 1 <= count <= copied.len()
            &&& exists|k: int| #[trigger]
                leaves_out(filled_lines(lines), copy.source_id, body, k)
            &&& if needs_boundary(tail) {
                copied.len() == count + 2 && copied[count] == json_text(
                    interruption_marker(ended_at),
                ) && copied[count + 1] == json_text(
                    interruption_event(ended_at, tail.active_turn_id),
                )
            } else {
                copied.len() == count
            }
        },
{
    if let Ok(copied) = duplicated_rollout(lines, copy, ended_at, path) {
        lemma_copied_lines(lines, copy.source_id);
        law_duplicate_takes_over_all_but_one_line(lines, copy.source_id);
        let body = copied_body(lines, copy.source_id)->Ok_0;
        let count = filled_lines(lines).len() as int;
        assert(body.lines.len() + 1 == count);
        assert(copied.subrange(1, count) =~= body.lines);
    }
}

proof fn lemma_copied_lines(lines: Seq<Seq<char>>, id: Seq<char>)
    ensures
        copied_body(lines, id) matches Ok(body) ==> {
            &&& body.tail == body.lines.fold_left(
                fresh_tail(),
                |tail: TailView, line: Seq<char>| tail_after_line(tail, line),
            )
            &&& if body.skipped {
                exists|k: int| #[trigger] leaves_out(filled_lines(lines), id, body.lines, k)
            } else {
                body.lines == filled_lines(lines) && forall|j: int|
                    0 <= j < filled_lines(lines).len() ==> line_meta(
                        #[trigger] filled_lines(lines)[j],
                        id,
                    ) == Ok::<Option<JsonView>, ErrorView>(None)
            }
        },
    decreases lines.len(),
{
    if lines.len() > 0 {
        let rest = lines.drop_last();
        let line = lines.last();
        lemma_copied_lines(rest, id);
        if let Ok(body) = copied_body(lines, id) {
            let before = copied_body(rest, id)->Ok_0;
            let kept = filled_lines(rest);
            let all = filled_lines(lines);
            if trimmed(line).len() > 0 {
                assert(all == kept.push(line));
                assert(before.lines.push(line).drop_last() =~= before.lines);
                assert forall|j: int| 0 <= j < kept.len() implies all[j] == kept[j] by {}
                if before.skipped {
                    let k = choose|k: int| #[trigger] leaves_out(kept, id, before.lines, k);
                    assert(all.remove(k) =~= kept.remove(k).push(line));
                    assert forall|j: int| 0 <= j < k implies line_meta(#[trigger] all[j], id)
                        == Ok::<Option<JsonView>, ErrorView>(None) by {
                        assert(all[j] == kept[j]);
                    }
                    assert(leaves_out(all, id, body.lines, k));
                } else if body.skipped {
                    let k = kept.len() as int;
                    assert(all.remove(k) =~= kept);
                    assert forall|j: int| 0 <= j < k implies line_meta(#[trigger] all[j], id)
                        == Ok::<Option<JsonView>, ErrorView>(None) by {
                        assert(all[j] == kept[j]);
                    }
                    assert(leaves_out(all, id, body.lines, k));
                } else {
                    assert forall|j: int| 0 <= j < all.len() implies line_meta(
                        #[trigger] all[j],
                        id,
                    ) == Ok::<Option<JsonView>, ErrorView>(None) by {
                        if j < kept.len() {
                            assert(all[j] == kept[j]);
                        }
                    }
                }
            }
        }
    } else {
        assert(filled_lines(lines) =~= Seq::empty());
    }
}

/// Whether the metadata of a copy is made of the first metadata of its source.
pub open spec fn is_made_of(
    lines: Seq<Seq<char>>,
    copy: CopyIdentityView,
    line: Seq<char>,
    m: int,
) -> bool {
    &&& 0 <= m < lines.len()
    &&& forall|j: int|
        0 <= j < m ==> line_meta(#[trigger] lines[j], copy.source_id) == Ok::<
            Option<JsonView>,
            ErrorView,
        >(None)
    &&& line_meta(lines[m], copy.source_id) matches Ok(Some(meta)) && (copied_meta(
        meta,
        copy.new_id,
        copy.provider,
        copy.source_id,
        copy.timestamp,
    ) matches Ok(own) && line == json_text(own))
}

/// An independent copy starts with the metadata of the copy, made of the first metadata of the
/// session in the source. A rollout without any is not copied.
pub proof fn law_duplicate_starts_with_its_metadata(
    lines: Seq<Seq<char>>,
    copy: CopyIdentityView,
    ended_at: Seq<char>,
    path: Seq<char>,
)
    ensures
        duplicated_rollout(lines, copy, ended_at, path) matches Ok(copied) ==> copied.len() > 0
            && exists|m: int| #[trigger] is_made_of(lines, copy, copied[0], m),
{
    if let Ok(copied) = duplicated_rollout(lines, copy, ended_at, path) {
        lemma_where_metadata_starts(lines, copy.source_id);
        let m = choose|m: int|
            0 <= m < lines.len() && #[trigger] line_meta(lines[m], copy.source_id) == first_meta(
                lines,
                copy.source_id,
            ) && forall|j: int|
                0 <= j < m ==> line_meta(#[trigger] lines[j], copy.source_id) == Ok::<
                    Option<JsonView>,
                    ErrorView,
                >(None);
        assert(is_made_of(lines, copy, copied[0], m));
    }
}

proof fn lemma_where_metadata_starts(lines: Seq<Seq<char>>, id: Seq<char>)
    ensures
        if first_meta(lines, id) == Ok::<Option<JsonView>, ErrorView>(None) {
            forall|j: int|
                0 <= j < lines.len() ==> line_meta(#[trigger] lines[j], id) == Ok::<
                    Option<JsonView>,
                    ErrorView,
                >(None)
        } else {
            exists|m: int|
                0 <= m < lines.len() && #[trigger] line_meta(lines[m], id) == first_meta(lines, id)
                    && forall|j: int|
                    0 <= j < m ==> line_meta(#[trigger] lines[j], id) == Ok::<
                        Option<JsonView>,
                        ErrorView,
                    >(None)
        },
    decreases lines.len(),
{
    if lines.len() > 0 {
        let rest = lines.drop_last();
        lemma_where_metadata_starts(rest, id);
        assert forall|j: int| 0 <= j < rest.len() implies rest[j] == lines[j] by {}
        if first_meta(rest, id) == Ok::<Option<JsonView>, ErrorView>(None) {
            assert forall|j: int| 0 <= j < rest.len() implies line_meta(#[trigger] lines[j], id)
                == Ok::<Option<JsonView>, ErrorView>(None) by {
                assert(rest[j] == lines[j]);
            }
            let m = lines.len() - 1;
            assert(line_meta(lines[m], id) == first_meta(lines, id));
        } else {
            let m = choose|m: int|
                0 <= m < rest.len() && #[trigger] line_meta(rest[m], id) == first_meta(rest, id)
                    && forall|j: int|
                    0 <= j < m ==> line_meta(#[trigger] rest[j], id) == Ok::<
                        Option<JsonView>,
                        ErrorView,
                    >(None);
            assert(rest[m] == lines[m]);
            assert forall|j: int| 0 <= j < m implies line_meta(#[trigger] lines[j], id) == Ok::<
                Option<JsonView>,
                ErrorView,
            >(None) by {
                assert(rest[j] == lines[j]);
            }
            assert(line_meta(lines[m], id) == first_meta(lines, id));
        }
    }
}

/// The records that close an unfinished turn: a message of the user that says that the turn was
/// interrupted, and an event that aborts that turn for this reason, both of the given moment.
pub proof fn law_what_the_closing_records_say(timestamp: Seq<char>, turn_id: Option<Seq<char>>)
    ensures
        ({
            let marker = interruption_marker(timestamp);
            &&& member_text(marker, "timestamp"@) == Some(timestamp)
            &&& member_text(marker, "type"@) == Some("response_item"@)
            &&& member(marker, "payload"@) matches Some(payload) && {
                &&& member_text(payload, "type"@) == Some("message"@)
                &&& member_text(payload, "role"@) == Some("user"@)
                &&& member(payload, "content"@) matches Some(JsonView::List(parts)) && parts.len()
                    == 1 && member_text(parts[0], "type"@) == Some("input_text"@) && member_text(
                    parts[0],
                    "text"@,
                ) == Some(
                    "<turn_aborted>\nThe user interrupted the previous turn on purpose. Any running unified exec processes may still be running in the background. If any tools/commands were aborted, they may have partially executed.\n</turn_aborted>"@,
                )
            }
        }),
        ({
            let event = interruption_event(timestamp, turn_id);
            &&& member_text(event, "timestamp"@) == Some(timestamp)
            &&& member_text(event, "type"@) == Some("event_msg"@)
            &&& member(event, "payload"@) matches Some(payload) && {
                &&& member_text(payload, "type"@) == Some("turn_aborted"@)
                &&& member_text(payload, "reason"@) == Some("interrupted"@)
                &&& member_text(payload, "turn_id"@) == turn_id
                &&& turn_id is None ==> member(payload, "turn_id"@) == Some(JsonView::Null)
            }
        }),
{
    reveal_strlit("type");
    reveal_strlit("role");
    reveal_strlit("text");
    reveal_strlit("content");
    reveal_strlit("timestamp");
    reveal_strlit("payload");
    reveal_strlit("turn_id");
    reveal_strlit("reason");
    assert("type"@.len() == 4 && "role"@.len() == 4 && "text"@.len() == 4);
    assert("type"@[1] == 'y' && "role"@[1] == 'o' && "text"@[1] == 'e');
    assert("content"@.len() == 7 && "turn_id"@.len() == 7 && "reason"@.len() == 6);
    assert("content"@[0] == 'c' && "turn_id"@[0] == 't');
    assert("timestamp"@.len() == 9 && "payload"@.len() == 7);
}

} // verus!
