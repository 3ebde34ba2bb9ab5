//! Copies of rollouts: for another provider, as an independent session, or up to a chosen
//! message.

use vstd::prelude::*;

use crate::error::{AppError, ErrorView};
use crate::json::{is_written, json_text, member, member_text, reads_back, Json, JsonView};
use crate::rollout::{lemma_first_line_states, states_session};
use crate::session_meta::{
    ensure_legacy_history_mode, is_session_id, legacy_verdict, lemma_identity_is_stated, line_meta,
    rewrite_session_meta_identity, rewritten, source_session_meta, with_identity,
};
use crate::text::{holds_text, is_blank, join2, opt_text, same, texts, trimmed};

verus! {

/// What the outcome of copying a rollout holds.
pub open spec fn lines_outcome(outcome: Result<Vec<String>, AppError>) -> Result<
    Seq<Seq<char>>,
    ErrorView,
> {
    match outcome {
        Ok(lines) => Ok(texts(lines@)),
        Err(error) => Err(error@),
    }
}

// ---------------------------------------------------------------------------
// For another provider
// ---------------------------------------------------------------------------

/// The identity of a copy: the new session, its provider, and the time at which it is made.
pub struct CopyIdentity<'a> {
    pub source_id: &'a str,
    pub new_id: &'a str,
    pub provider: &'a str,
    pub timestamp: &'a str,
}

/// What a [`CopyIdentity`] holds.
#[verifier::ext_equal]
pub struct CopyIdentityView {
    pub source_id: Seq<char>,
    pub new_id: Seq<char>,
    pub provider: Seq<char>,
    pub timestamp: Seq<char>,
}

impl<'a> View for CopyIdentity<'a> {
    type V = CopyIdentityView;

    open spec fn view(&self) -> CopyIdentityView {
        CopyIdentityView {
            source_id: self.source_id@,
            new_id: self.new_id@,
            provider: self.provider@,
            timestamp: self.timestamp@,
        }
    }
}

/// The line that a line of the source becomes. The first metadata of the session, `found`
/// tells whether it came already, must allow the copy and gets the new time.
pub open spec fn cloned_line(line: Seq<char>, copy: CopyIdentityView, found: bool) -> Result<
    (Seq<char>, bool),
    ErrorView,
> {
    let stamp = if found {
        None
    } else {
        Some(copy.timestamp)
    };
    let allowed = match line_meta(line, copy.source_id) {
        Ok(Some(meta)) => if found {
            Ok(())
        } else {
            legacy_verdict(meta, "provider 克隆"@)
        },
        Ok(None) => Ok(()),
        Err(error) => Err(error),
    };
    match allowed {
        Err(error) => Err(error),
        Ok(()) => match rewritten(line, copy.source_id, copy.new_id, copy.provider, stamp) {
            Err(error) => Err(error),
            Ok(Some(text)) => Ok((text, true)),
            Ok(None) => Ok((line, found)),
        },
    }
}

/// The lines that lines of the source become, and whether metadata of the session was
/// among them. Blank lines go.
pub open spec fn cloned_lines(lines: Seq<Seq<char>>, copy: CopyIdentityView) -> Result<
    (Seq<Seq<char>>, bool),
    ErrorView,
>
    decreases lines.len(),
{
    if lines.len() == 0 {
        Ok((Seq::empty(), false))
    } else {
        match cloned_lines(lines.drop_last(), copy) {
            Err(error) => Err(error),
            Ok((before, found)) => if trimmed(lines.last()).len() == 0 {
                Ok((before, found))
            } else {
                match cloned_line(lines.last(), copy, found) {
                    Err(error) => Err(error),
                    Ok((line, now_found)) => Ok((before.push(line), now_found)),
                }
            },
        }
    }
}

/// The copy of a rollout for another provider. Without metadata of the session there is
/// none.
pub open spec fn cloned_rollout(
    lines: Seq<Seq<char>>,
    copy: CopyIdentityView,
    path: Seq<char>,
) -> Result<Seq<Seq<char>>, ErrorView> {
    match cloned_lines(lines, copy) {
        Err(error) => Err(error),
        Ok((copied, found)) => if found {
            Ok(copied)
        } else {
            Err(
                ErrorView::Other(
                    "源 rollout 缺少有效 session_meta，拒绝创建 provider 分支: "@ + path,
                ),
            )
        },
    }
}

fn clone_line(line: &str, copy: &CopyIdentity, found: bool) -> (outcome: Result<
    (String, bool),
    AppError,
>)
    ensures
        match outcome {
            Ok((text, now_found)) => cloned_line(line@, copy@, found) == Ok::<
                (Seq<char>, bool),
                ErrorView,
            >((text@, now_found)),
            Err(error) => cloned_line(line@, copy@, found) == Err::<(Seq<char>, bool), ErrorView>(
                error@,
            ),
        },
        !found && (line_meta(line@, copy@.source_id) matches Ok(Some(meta))) ==> (outcome matches Ok(
            (text, _),
        ) ==> is_written(
            text@,
            with_identity(
                line_meta(line@, copy@.source_id)->Ok_0->Some_0,
                copy@.new_id,
                copy@.provider,
                Some(copy@.timestamp),
            ),
        )),
{
    if !found {
        match source_session_meta(line, copy.source_id) {
            Err(error) => return Err(error),
            Ok(Some(meta)) => {
                if let Err(error) = ensure_legacy_history_mode(&meta, "provider 克隆") {
                    return Err(error);
                }
            },
            Ok(None) => {},
        }
    }
    let stamp = if found {
        None
    } else {
        Some(copy.timestamp)
    };
    match rewrite_session_meta_identity(line, copy.source_id, copy.new_id, copy.provider, stamp) {
        Err(error) => Err(error),
        Ok(Some(text)) => Ok((text, true)),
        Ok(None) => Ok((line.to_owned(), found)),
    }
}

proof fn lemma_cloned_error(lines: Seq<Seq<char>>, copy: CopyIdentityView, at: int)
    requires
        0 <= at <= lines.len(),
        cloned_lines(lines.take(at), copy) is Err,
    ensures
        cloned_lines(lines, copy) == cloned_lines(lines.take(at), copy),
    decreases lines.len(),
{
    if at < lines.len() {
        assert(lines.drop_last().take(at) =~= lines.take(at));
        lemma_cloned_error(lines.drop_last(), copy, at);
    } else {
        assert(lines.take(at) =~= lines);
    }
}

/// Whether the first line of a rollout is the metadata of a session, which is read back as it
/// is written.
pub open spec fn starts_with_meta(lines: Seq<Seq<char>>, id: Seq<char>) -> bool {
    lines.len() > 0 && trimmed(lines[0]).len() > 0 && (line_meta(lines[0], id) matches Ok(Some(meta))
        && reads_back(meta, 127))
}

/// Copies a rollout for another provider. The copy of a rollout that starts with the
/// metadata of its session states the new session and the provider.
pub fn write_cloned_rollout(lines: &Vec<String>, copy: &CopyIdentity, path: &str) -> (copied: Result<
    Vec<String>,
    AppError,
>)
    ensures
        lines_outcome(copied) == cloned_rollout(texts(lines@), copy@, path@),
        starts_with_meta(texts(lines@), copy@.source_id) && is_session_id(copy@.new_id) ==> (
        copied matches Ok(copied) ==> states_session(
            texts(copied@),
            copy@.new_id,
            copy@.provider,
        )),
{
    let ghost all = texts(lines@);
    let ghost meta = line_meta(all[0], copy@.source_id)->Ok_0->Some_0;
    let ghost changed = with_identity(meta, copy@.new_id, copy@.provider, Some(copy@.timestamp));
    let mut copied: Vec<String> = Vec::new();
    assert(texts(copied@) =~= Seq::empty());
    let mut found = false;
    let mut at: usize = 0;
    while at < lines.len()
        invariant
            at <= lines@.len(),
            all == texts(lines@),
            cloned_lines(all.take(at as int), copy@) == Ok::<(Seq<Seq<char>>, bool), ErrorView>(
                (texts(copied@), found),
            ),
            at == 0 ==> !found,
            meta == line_meta(all[0], copy@.source_id)->Ok_0->Some_0,
            changed == with_identity(meta, copy@.new_id, copy@.provider, Some(copy@.timestamp)),
            at > 0 && starts_with_meta(all, copy@.source_id) ==> copied@.len() > 0 && is_written(
                copied@[0]@,
                changed,
            ),
        decreases lines.len() - at,
    {
        assert(all.take(at + 1).drop_last() =~= all.take(at as int));
        assert(all.take(at + 1).last() == lines@[at as int]@);
        let ghost before = texts(copied@);
        if !is_blank(lines[at].as_str()) {
            match clone_line(lines[at].as_str(), copy, found) {
                Err(error) => {
                    proof {
                        lemma_cloned_error(all, copy@, at + 1);
                    }
                    return Err(error);
                },
                Ok((line, now_found)) => {
                    copied.push(line);
                    assert(texts(copied@) =~= before.push(line@));
                    found = now_found;
                },
            }
        }
        at = at + 1;
    }
    assert(all.take(at as int) =~= all);
    if !found {
        return Err(
            AppError::Other(
                join2("源 rollout 缺少有效 session_meta，拒绝创建 provider 分支: ", path),
            ),
        );
    }
    proof {
        if starts_with_meta(all, copy@.source_id) && is_session_id(copy@.new_id) {
            lemma_identity_is_stated(
                copied@[0]@,
                meta,
                copy@.new_id,
                copy@.provider,
                Some(copy@.timestamp),
            );
            lemma_first_line_states(texts(copied@), copy@.new_id, copy@.provider);
        }
    }
    Ok(copied)
}

/// The lines that are not blank, in order.
pub open spec fn filled_lines(lines: Seq<Seq<char>>) -> Seq<Seq<char>>
    decreases lines.len(),
{
    if lines.len() == 0 {
        Seq::empty()
    } else if trimmed(lines.last()).len() == 0 {
        filled_lines(lines.drop_last())
    } else {
        filled_lines(lines.drop_last()).push(lines.last())
    }
}

/// A copy for another provider has one line for each line of the source that is not blank,
/// and it is the same line unless that holds metadata of the session.
pub proof fn law_clone_keeps_the_conversation(lines: Seq<Seq<char>>, copy: CopyIdentityView)
    ensures
        cloned_lines(lines, copy) matches Ok((copied, found)) ==> {
            &&& copied.len() == filled_lines(lines).len()
            &&& forall|i: int|
                0 <= i < copied.len() && line_meta(filled_lines(lines)[i], copy.source_id) == Ok::<
                    Option<JsonView>,
                    ErrorView,
                >(None) ==> #[trigger] copied[i] == filled_lines(lines)[i]
        },
    decreases lines.len(),
{
    if lines.len() > 0 {
        law_clone_keeps_the_conversation(lines.drop_last(), copy);
        let rest = filled_lines(lines.drop_last());
        if trimmed(lines.last()).len() > 0 {
            assert(filled_lines(lines) =~= rest.push(lines.last()));
        }
    }
}

// ---------------------------------------------------------------------------
// How a session ends
// ---------------------------------------------------------------------------

/// Whether a session ends in the middle of a turn.
pub struct DuplicateTailState {
    pub turn_active: bool,
    pub active_turn_id: Option<String>,
    pub pending_tool_calls: Vec<String>,
    pub unterminated_user_turn: bool,
}

/// What a [`DuplicateTailState`] holds.
#[verifier::ext_equal]
pub struct TailView {
    pub turn_active: bool,
    pub active_turn_id: Option<Seq<char>>,
    pub pending_tool_calls: Set<Seq<char>>,
    pub unterminated_user_turn: bool,
}

impl View for DuplicateTailState {
    type V = TailView;

    open spec fn view(&self) -> TailView {
        TailView {
            turn_active: self.turn_active,
            active_turn_id: opt_text(self.active_turn_id),
            pending_tool_calls: texts(self.pending_tool_calls@).to_set(),
            unterminated_user_turn: self.unterminated_user_turn,
        }
    }
}

/// A session of which nothing was seen yet.
pub open spec fn fresh_tail() -> TailView {
    TailView {
        turn_active: false,
        active_turn_id: None,
        pending_tool_calls: Set::empty(),
        unterminated_user_turn: false,
    }
}

/// Whether a copy of a session has to be told that its last turn was interrupted.
pub open spec fn needs_boundary(tail: TailView) -> bool {
    tail.turn_active || tail.unterminated_user_turn || !(tail.pending_tool_calls =~= Set::empty())
}

/// The id of the tool call that an item belongs to.
pub open spec fn call_id(payload: JsonView) -> Option<Seq<char>> {
    match member(payload, "call_id"@) {
        Some(_) => member_text(payload, "call_id"@),
        None => member_text(payload, "id"@),
    }
}

/// The payload of a record, or the record itself where it has none.
pub open spec fn payload_or_self(record: JsonView) -> JsonView {
    match member(record, "payload"@) {
        Some(payload) => payload,
        None => record,
    }
}

/// Whether a text is one of these.
pub open spec fn is_one_of(text: Option<Seq<char>>, a: Seq<char>, b: Seq<char>, c: Seq<char>) -> bool {
    text == Some(a) || text == Some(b) || text == Some(c)
}

/// How a session ends once an event was seen.
pub open spec fn tail_after_event(tail: TailView, payload: JsonView) -> TailView {
    let kind = member_text(payload, "type"@);
    if kind == Some("task_started"@) || kind == Some("turn_started"@) {
        TailView {
            turn_active: true,
            active_turn_id: member_text(payload, "turn_id"@),
            pending_tool_calls: Set::empty(),
            unterminated_user_turn: false,
        }
    } else if is_one_of(kind, "task_complete"@, "turn_complete"@, "turn_aborted"@) {
        fresh_tail()
    } else if kind == Some("user_message"@) {
        TailView { unterminated_user_turn: true, ..tail }
    } else {
        tail
    }
}

/// How a session ends once an item of a response was seen.
pub open spec fn tail_after_item(tail: TailView, payload: JsonView) -> TailView {
    let kind = member_text(payload, "type"@);
    if kind == Some("message"@) {
        if member_text(payload, "role"@) == Some("user"@) {
            TailView { unterminated_user_turn: true, ..tail }
        } else {
            tail
        }
    } else if is_one_of(kind, "function_call"@, "custom_tool_call"@, "tool_search_call"@) {
        match call_id(payload) {
            Some(id) => TailView {
                pending_tool_calls: tail.pending_tool_calls.insert(id),
                ..tail
            },
            None => tail,
        }
    } else if is_one_of(
        kind,
        "function_call_output"@,
        "custom_tool_call_output"@,
        "tool_search_output"@,
    ) {
        match call_id(payload) {
            Some(id) => TailView {
                pending_tool_calls: tail.pending_tool_calls.remove(id),
                ..tail
            },
            None => tail,
        }
    } else {
        tail
    }
}

/// How a session ends once a record was seen.
pub open spec fn tail_after(tail: TailView, record: JsonView) -> TailView {
    let payload = payload_or_self(record);
    if member_text(record, "type"@) == Some("event_msg"@) {
        tail_after_event(tail, payload)
    } else if member_text(record, "type"@) == Some("response_item"@) {
        tail_after_item(tail, payload)
    } else {
        tail
    }
}

/// The id of the tool call that an item belongs to.
pub fn response_item_call_id(payload: &Json) -> (id: Option<String>)
    ensures
        opt_text(id) == call_id(payload.model()),
{
    let found = match payload.get("call_id") {
        Some(_) => payload.get_str("call_id"),
        None => payload.get_str("id"),
    };
    match found {
        Some(id) => Some(id.clone()),
        None => None,
    }
}

fn add_to_set(items: &mut Vec<String>, text: String)
    ensures
        texts(final(items)@).to_set() == texts(old(items)@).to_set().insert(text@),
{
    let ghost before = texts(items@);
    if holds_text(items, text.as_str()) {
        assert(before.to_set().insert(text@) =~= before.to_set());
    } else {
        items.push(text);
        assert(texts(items@) =~= before.push(text@));
        assert(before.push(text@).to_set() =~= before.to_set().insert(text@)) by {
            let more = before.push(text@);
            assert forall|other: Seq<char>| more.to_set().contains(other)
                <==> before.to_set().insert(text@).contains(other) by {
                if more.contains(other) {
                    let k = choose|k: int| 0 <= k < more.len() && more[k] == other;
                    if k < before.len() {
                        assert(before[k] == other);
                    }
                }
                if before.contains(other) {
                    let k = choose|k: int| 0 <= k < before.len() && before[k] == other;
                    assert(more[k] == other);
                }
                assert(more[before.len() as int] == text@);
            }
        }
    }
}

fn remove_from_set(items: &Vec<String>, text: &str) -> (rest: Vec<String>)
    ensures
        texts(rest@).to_set() == texts(items@).to_set().remove(text@),
{
    let ghost all = texts(items@);
    let mut rest: Vec<String> = Vec::new();
    let mut at: usize = 0;
    assert(texts(rest@) =~= Seq::empty());
    while at < items.len()
        invariant
            at <= items@.len(),
            all == texts(items@),
            forall|other: Seq<char>| #[trigger]
                texts(rest@).contains(other) <==> all.take(at as int).contains(other) && other
                    != text@,
        decreases items.len() - at,
    {
        let ghost before = texts(rest@);
        let ghost so_far = all.take(at as int);
        let ghost item = items@[at as int]@;
        assert(all.take(at + 1) =~= so_far.push(item));
        if !same(items[at].as_str(), text) {
            rest.push(items[at].clone());
            assert(texts(rest@) =~= before.push(item));
        }
        assert forall|other: Seq<char>| #[trigger] texts(rest@).contains(other) <==> all.take(
            at + 1,
        ).contains(other) && other != text@ by {
            lemma_push_contains(before, item, other);
            lemma_push_contains(so_far, item, other);
        }
        at = at + 1;
    }
    assert(all.take(at as int) =~= all);
    assert(texts(rest@).to_set() =~= all.to_set().remove(text@));
    rest
}

proof fn lemma_push_contains(items: Seq<Seq<char>>, text: Seq<char>, other: Seq<char>)
    ensures
        items.push(text).contains(other) <==> items.contains(other) || other == text,
{
    if items.contains(other) {
        let k = choose|k: int| 0 <= k < items.len() && items[k] == other;
        assert(items.push(text)[k] == other);
    }
    assert(items.push(text)[items.len() as int] == text);
    if items.push(text).contains(other) {
        let k = choose|k: int| 0 <= k < items.push(text).len() && items.push(text)[k] == other;
        if k < items.len() {
            assert(items[k] == other);
        }
    }
}

impl DuplicateTailState {
    /// A session of which nothing was seen yet.
    pub fn fresh() -> (tail: DuplicateTailState)
        ensures
            tail@ == fresh_tail(),
    {
        let tail = DuplicateTailState {
            turn_active: false,
            active_turn_id: None,
            pending_tool_calls: Vec::new(),
            unterminated_user_turn: false,
        };
        assert(texts(tail.pending_tool_calls@) =~= Seq::empty());
        assert(tail@ =~= fresh_tail());
        tail
    }

    /// Takes note of a record.
    pub fn observe(&mut self, record: &Json)
        ensures
            final(self)@ == tail_after(old(self)@, record.model()),
    {
        proof {
            lemma_kinds();
        }
        let payload = match record.get("payload") {
            Some(payload) => payload,
            None => record,
        };
        if record.has_str("type", "event_msg") {
            if payload.has_str("type", "task_started") || payload.has_str("type", "turn_started") {
                let turn_id = match payload.get_str("turn_id") {
                    Some(id) => Some(id.clone()),
                    None => None,
                };
                self.turn_active = true;
                self.active_turn_id = turn_id;
                self.pending_tool_calls = Vec::new();
                self.unterminated_user_turn = false;
                assert(texts(self.pending_tool_calls@) =~= Seq::empty());
                assert(texts(self.pending_tool_calls@).to_set() =~= Set::empty());
            } else if payload.has_str("type", "task_complete") || payload.has_str(
                "type",
                "turn_complete",
            ) || payload.has_str("type", "turn_aborted") {
                self.turn_active = false;
                self.active_turn_id = None;
                self.pending_tool_calls = Vec::new();
                self.unterminated_user_turn = false;
                assert(texts(self.pending_tool_calls@) =~= Seq::empty());
                assert(texts(self.pending_tool_calls@).to_set() =~= Set::empty());
            } else if payload.has_str("type", "user_message") {
                self.unterminated_user_turn = true;
            }
            return;
        }
        if !record.has_str("type", "response_item") {
            return;
        }
        if payload.has_str("type", "message") {
            if payload.has_str("role", "user") {
                self.unterminated_user_turn = true;
            }
        } else if payload.has_str("type", "function_call") || payload.has_str(
            "type",
            "custom_tool_call",
        ) || payload.has_str("type", "tool_search_call") {
            if let Some(id) = response_item_call_id(payload) {
                add_to_set(&mut self.pending_tool_calls, id);
            }
        } else if payload.has_str("type", "function_call_output") || payload.has_str(
            "type",
            "custom_tool_call_output",
        ) || payload.has_str("type", "tool_search_output") {
            if let Some(id) = response_item_call_id(payload) {
                self.pending_tool_calls = remove_from_set(&self.pending_tool_calls, id.as_str());
            }
        }
    }

    /// Whether a copy of the session has to be told that its last turn was interrupted.
    pub fn needs_interruption(&self) -> (needed: bool)
        ensures
            needed == needs_boundary(self@),
    {
        let pending = self.pending_tool_calls.len() > 0;
        proof {
            let calls = texts(self.pending_tool_calls@);
            if pending {
                assert(calls.contains(calls[0]));
                assert(calls.to_set().contains(calls[0]));
            } else {
                assert(calls.to_set() =~= Set::empty());
            }
        }
        self.turn_active || self.unterminated_user_turn || pending
    }
}

proof fn lemma_kinds()
    ensures
        "event_msg"@ != "response_item"@,
{
    reveal_strlit("event_msg");
    reveal_strlit("response_item");
    assert("event_msg"@.len() == 9);
    assert("response_item"@.len() == 13);
}

/// A turn that was completed or broken off leaves nothing to interrupt.
pub proof fn law_finished_turns_need_no_boundary(tail: TailView, record: JsonView)
    requires
        member_text(record, "type"@) == Some("event_msg"@),
        is_one_of(
            member_text(payload_or_self(record), "type"@),
            "task_complete"@,
            "turn_complete"@,
            "turn_aborted"@,
        ),
    ensures
        !needs_boundary(tail_after(tail, record)),
{
    reveal_strlit("task_started");
    reveal_strlit("turn_started");
    reveal_strlit("task_complete");
    reveal_strlit("turn_complete");
    reveal_strlit("turn_aborted");
    assert("task_started"@.len() == 12 && "turn_started"@.len() == 12);
    assert("task_complete"@.len() == 13 && "turn_complete"@.len() == 13);
    assert("turn_aborted"@.len() == 12);
    assert("turn_aborted"@[5] == 'a');
    assert("turn_started"@[5] == 's');
    assert("task_started"@[5] == 's');
}

/// What a copy for another provider holds for each line of its source that is not blank: the same
/// line, unless that is metadata of the session; every metadata of the session names the new one
/// and the provider instead.
pub proof fn law_clone_renames_all_metadata(lines: Seq<Seq<char>>, copy: CopyIdentityView)
    ensures
        cloned_lines(lines, copy) matches Ok((copied, _)) ==> copied.len() == filled_lines(
            lines,
        ).len() && forall|i: int|
            0 <= i < copied.len() ==> match line_meta(
                #[trigger] filled_lines(lines)[i],
                copy.source_id,
            ) {
                Ok(Some(meta)) => copied[i] == json_text(
                    with_identity(meta, copy.new_id, copy.provider, None),
                ) || copied[i] == json_text(
                    with_identity(meta, copy.new_id, copy.provider, Some(copy.timestamp)),
                ),
                Ok(None) => copied[i] == filled_lines(lines)[i],
                Err(_) => false,
            },
    decreases lines.len(),
{
    if lines.len() > 0 {
        let rest = lines.drop_last();
        law_clone_renames_all_metadata(rest, copy);
        if let Ok((copied, _)) = cloned_lines(lines, copy) {
            let (before, found) = cloned_lines(rest, copy)->Ok_0;
            let kept = filled_lines(rest);
            let all = filled_lines(lines);
            assert forall|i: int| 0 <= i < copied.len() implies match line_meta(
                #[trigger] all[i],
                copy.source_id,
            ) {
                Ok(Some(meta)) => copied[i] == json_text(
                    with_identity(meta, copy.new_id, copy.provider, None),
                ) || copied[i] == json_text(
                    with_identity(meta, copy.new_id, copy.provider, Some(copy.timestamp)),
                ),
                Ok(None) => copied[i] == all[i],
                Err(_) => false,
            } by {
                if i < kept.len() {
                    assert(all[i] == kept[i] && copied[i] == before[i]);
                } else {
                    assert(all[i] == lines.last());
                }
            }
        }
    }
}

/// A rollout is copied for another provider only where it has metadata of the session, the first of
/// which has its history in one file and gets the moment of the copy.
pub proof fn law_clone_needs_metadata(
    lines: Seq<Seq<char>>,
    copy: CopyIdentityView,
    path: Seq<char>,
)
    ensures
        cloned_rollout(lines, copy, path) matches Ok(copied) ==> cloned_lines(lines, copy) == Ok::<
            (Seq<Seq<char>>, bool),
            ErrorView,
        >((copied, true)) && exists|i: int| #[trigger] is_first_meta(lines, copy, copied, i),
{
    if cloned_rollout(lines, copy, path) is Ok {
        lemma_first_meta(lines, copy);
    }
}

/// Whether a line is the first metadata of the session among those that are not blank, has its
/// history in one file, and is in the copy with the moment of the copy.
pub open spec fn is_first_meta(
    lines: Seq<Seq<char>>,
    copy: CopyIdentityView,
    copied: Seq<Seq<char>>,
    i: int,
) -> bool {
    let kept = filled_lines(lines);
    &&& 0 <= i < kept.len()
    &&& i < copied.len()
    &&& line_meta(kept[i], copy.source_id) matches Ok(Some(meta)) && legacy_verdict(
        meta,
        "provider 克隆"@,
    ) is Ok && copied[i] == json_text(
        with_identity(meta, copy.new_id, copy.provider, Some(copy.timestamp)),
    )
    &&& forall|j: int|
        0 <= j < i ==> line_meta(#[trigger] kept[j], copy.source_id) == Ok::<
            Option<JsonView>,
            ErrorView,
        >(None)
}

proof fn lemma_first_meta(lines: Seq<Seq<char>>, copy: CopyIdentityView)
    ensures
        cloned_lines(lines, copy) matches Ok((copied, found)) ==> copied.len() == filled_lines(
            lines,
        ).len() && if found {
            exists|i: int| #[trigger] is_first_meta(lines, copy, copied, i)
        } else {
            forall|j: int|
                0 <= j < filled_lines(lines).len() ==> line_meta(
                    #[trigger] filled_lines(lines)[j],
                    copy.source_id,
                ) == Ok::<Option<JsonView>, ErrorView>(None)
        },
    decreases lines.len(),
{
    if lines.len() > 0 {
        let rest = lines.drop_last();
        lemma_first_meta(rest, copy);
        if let Ok((copied, found)) = cloned_lines(lines, copy) {
            let (before, earlier) = cloned_lines(rest, copy)->Ok_0;
            let kept = filled_lines(rest);
            let all = filled_lines(lines);
            if earlier {
                let i = choose|i: int| #[trigger] is_first_meta(rest, copy, before, i);
                assert(all[i] == kept[i] && copied[i] == before[i]);
                assert forall|j: int| 0 <= j < i implies line_meta(
                    #[trigger] all[j],
                    copy.source_id,
                ) == Ok::<Option<JsonView>, ErrorView>(None) by {
                    assert(all[j] == kept[j]);
                }
                assert(is_first_meta(lines, copy, copied, i));
            } else if trimmed(lines.last()).len() > 0 {
                assert forall|j: int| 0 <= j < kept.len() implies all[j] == kept[j] by {}
                if found {
                    let i = kept.len() as int;
                    assert(all[i] == lines.last());
                    assert forall|j: int| 0 <= j < i implies line_meta(
                        #[trigger] all[j],
                        copy.source_id,
                    ) == Ok::<Option<JsonView>, ErrorView>(None) by {
                        assert(all[j] == kept[j]);
                    }
                    assert(is_first_meta(lines, copy, copied, i));
                } else {
                    assert forall|j: int| 0 <= j < all.len() implies line_meta(
                        #[trigger] all[j],
                        copy.source_id,
                    ) == Ok::<Option<JsonView>, ErrorView>(None) by {
                        if j < kept.len() {
                            assert(all[j] == kept[j]);
                        }
                    }
                }
            }
        }
    }
}

/// What an event says of how a session ends. A turn that starts is under way, with nothing pending;
/// a turn that is complete or aborted leaves nothing; a message of the user waits for an answer.
pub proof fn law_what_events_do_to_the_tail(tail: TailView, record: JsonView, payload: JsonView)
    requires
        member_text(record, "type"@) == Some("event_msg"@),
        member(record, "payload"@) == Some(payload),
    ensures
        ({
            let after = tail_after(tail, record);
            let kind = member_text(payload, "type"@);
            let starts = kind == Some("task_started"@) || kind == Some("turn_started"@);
            let ends = kind == Some("task_complete"@) || kind == Some("turn_complete"@) || kind
                == Some("turn_aborted"@);
            let asks = kind == Some("user_message"@);
            &&& starts ==> after.turn_active && after.active_turn_id == member_text(
                payload,
                "turn_id"@,
            ) && after.pending_tool_calls =~= Set::empty() && !after.unterminated_user_turn
            &&& ends ==> !after.turn_active && after.active_turn_id is None
                && after.pending_tool_calls =~= Set::empty() && !after.unterminated_user_turn
            &&& asks ==> after.unterminated_user_turn && after.turn_active == tail.turn_active
                && after.active_turn_id == tail.active_turn_id && after.pending_tool_calls
                == tail.pending_tool_calls
            &&& !starts && !ends && !asks ==> after == tail
        }),
{
    reveal_strlit("task_started");
    reveal_strlit("turn_started");
    reveal_strlit("task_complete");
    reveal_strlit("turn_complete");
    reveal_strlit("turn_aborted");
    reveal_strlit("user_message");
    assert("task_started"@.len() == 12 && "turn_started"@.len() == 12);
    assert("task_complete"@.len() == 13 && "turn_complete"@.len() == 13);
    assert("turn_aborted"@.len() == 12 && "user_message"@.len() == 12);
    assert("task_started"@[1] == 'a' && "turn_started"@[1] == 'u' && "user_message"@[1] == 's');
    assert("turn_aborted"@[5] == 'a' && "turn_started"@[5] == 's');
    assert("turn_aborted"@[1] == 'u');
}

/// What an item of a response says of how a session ends: a message of the user waits for an answer,
/// a call is pending until its output comes, and nothing else changes.
pub proof fn law_what_items_do_to_the_tail(
    tail: TailView,
    record: JsonView,
    payload: JsonView,
    id: Seq<char>,
)
    requires
        member_text(record, "type"@) == Some("response_item"@),
        member(record, "payload"@) == Some(payload),
        member_text(payload, "call_id"@) == Some(id),
    ensures
        ({
            let after = tail_after(tail, record);
            let kind = member_text(payload, "type"@);
            let says = kind == Some("message"@) && member_text(payload, "role"@) == Some("user"@);
            let calls = kind == Some("function_call"@) || kind == Some("custom_tool_call"@) || kind
                == Some("tool_search_call"@);
            let answers = kind == Some("function_call_output"@) || kind == Some(
                "custom_tool_call_output"@,
            ) || kind == Some("tool_search_output"@);
            &&& after.turn_active == tail.turn_active && after.active_turn_id == tail.active_turn_id
            &&& after.unterminated_user_turn == (tail.unterminated_user_turn || says)
            &&& calls ==> after.pending_tool_calls == tail.pending_tool_calls.insert(id)
            &&& answers ==> after.pending_tool_calls == tail.pending_tool_calls.remove(id)
            &&& !calls && !answers ==> after.pending_tool_calls == tail.pending_tool_calls
        }),
{
    reveal_strlit("event_msg");
    reveal_strlit("response_item");
    assert("event_msg"@.len() != "response_item"@.len());
    reveal_strlit("message");
    reveal_strlit("function_call");
    reveal_strlit("custom_tool_call");
    reveal_strlit("tool_search_call");
    reveal_strlit("function_call_output");
    reveal_strlit("custom_tool_call_output");
    reveal_strlit("tool_search_output");
    assert("message"@.len() == 7 && "function_call"@.len() == 13);
    assert("custom_tool_call"@.len() == 16 && "tool_search_call"@.len() == 16);
    assert("function_call_output"@.len() == 20 && "custom_tool_call_output"@.len() == 23);
    assert("tool_search_output"@.len() == 18);
}

/// A session ends in the middle of a turn just where one is under way, a message waits for an answer
/// or a call is pending.
pub proof fn law_when_a_turn_is_unfinished(tail: TailView)
    ensures
        needs_boundary(tail) <==> tail.turn_active || tail.unterminated_user_turn || exists|
            id: Seq<char>,
        | #[trigger] tail.pending_tool_calls.contains(id),
{
    if !(tail.pending_tool_calls =~= Set::empty()) {
        assert(exists|id: Seq<char>| #[trigger] tail.pending_tool_calls.contains(id));
    }
}

} // verus!
