//! The part of a session up to a message from which a new branch can start.

use vstd::prelude::*;

use crate::error::{AppError, ErrorView};
use crate::json::{
    as_text, json_reading, json_text, list_model, member, member_text, parse_or_explain,
    reads_back, Json, JsonView,
};
use crate::rollout::{
    lemma_first_line_states, request_text, states_session, strip_user_message_prefix,
};
use crate::rollout_copy::{lines_outcome, payload_or_self};
use crate::session_meta::{
    build_independent_duplicate_meta, copied_meta, is_meta, is_session_id, lemma_copy_is_stated,
};
use crate::text::{
    chars_of, contains, decimal, decimal_text, has_part, is_blank, join, join3, join4, joined,
    law_trimming_cuts_off_space_only, opt_text, same, stands_alone, text_of, texts, trim, trimmed,
};

verus! {

// ---------------------------------------------------------------------------
// Messages
// ---------------------------------------------------------------------------

/// A message from which a branch can start: who wrote it, what kind of record it is, and
/// how it is shown.
pub struct StableCutInfo {
    pub role: String,
    pub kind: String,
    pub summary: String,
}

/// What a [`StableCutInfo`] holds.
#[verifier::ext_equal]
pub struct CutView {
    pub role: Seq<char>,
    pub kind: Seq<char>,
    pub summary: Seq<char>,
}

impl View for StableCutInfo {
    type V = CutView;

    open spec fn view(&self) -> CutView {
        CutView { role: self.role@, kind: self.kind@, summary: self.summary@ }
    }
}

/// What an optional message holds.
pub open spec fn opt_cut(cut: Option<StableCutInfo>) -> Option<CutView> {
    match cut {
        Some(cut) => Some(cut@),
        None => None,
    }
}

/// A text with its line feeds and carriage returns replaced by spaces.
pub open spec fn flat(text: Seq<char>) -> Seq<char> {
    text.map_values(
        |ch: char|
            if ch == '\n' || ch == '\r' {
                ' '
            } else {
                ch
            },
    )
}

/// A text on one line, with an ellipsis in place of what is beyond a number of characters.
pub open spec fn flat_head(text: Seq<char>, count: int) -> Seq<char> {
    let line = trimmed(flat(text));
    if line.len() <= count {
        line
    } else {
        line.take(count).push('…')
    }
}

fn flatten(text: &str) -> (line: String)
    ensures
        line@ == flat(text@),
{
    let chars = chars_of(text);
    let mut line = String::new();
    let mut at: usize = 0;
    while at < chars.len()
        invariant
            at <= chars@.len(),
            line@ == flat(chars@.take(at as int)),
        decreases chars.len() - at,
    {
        line.push(
            if chars[at] == '\n' || chars[at] == '\r' {
                ' '
            } else {
                chars[at]
            },
        );
        assert(line@ =~= flat(chars@.take(at + 1)));
        at = at + 1;
    }
    assert(chars@.take(at as int) =~= chars@);
    line
}

/// A text on one line, cut to a number of characters.
pub fn trim_flat(text: &str, max_chars: usize) -> (line: String)
    ensures
        line@ == flat_head(text@, max_chars as int),
{
    let line = trim(flatten(text).as_str());
    let chars = chars_of(line.as_str());
    if chars.len() <= max_chars {
        return line;
    }
    let mut head = text_of(&chars, 0, max_chars);
    assert(head@ =~= line@.take(max_chars as int));
    head.push('…');
    head
}

/// The text of a part of a message.
pub open spec fn part_content() -> spec_fn(JsonView) -> Option<Seq<char>> {
    |part: JsonView|
        match member_text(part, "text"@) {
            Some(text) => Some(text),
            None => as_text(part),
        }
}

/// The text of a message; `None` where it holds none.
pub open spec fn content_text(content: Option<JsonView>) -> Option<Seq<char>> {
    match content {
        Some(JsonView::Text(text)) => Some(text),
        Some(JsonView::List(parts)) => {
            let text = joined(parts.filter_map(part_content()), "\n"@);
            if trimmed(text).len() == 0 {
                None
            } else {
                Some(text)
            }
        },
        _ => None,
    }
}

/// The text of a message.
pub fn flatten_message_content(content: Option<&Json>) -> (text: Option<String>)
    ensures
        opt_text(text) == content_text(
            match content {
                Some(content) => Some(content.model()),
                None => None,
            },
        ),
{
    match content {
        Some(Json::Text(text)) => Some(text.clone()),
        Some(Json::List(parts)) => {
            let ghost all = list_model(parts@);
            let mut items: Vec<String> = Vec::new();
            let mut at: usize = 0;
            while at < parts.len()
                invariant
                    at <= parts@.len(),
                    all == list_model(parts@),
                    texts(items@) == all.take(at as int).filter_map(part_content()),
                decreases parts.len() - at,
            {
                let part = &parts[at];
                assert(all.take(at + 1).drop_last() =~= all.take(at as int));
                assert(all[at as int] == part.model());
                let ghost before = texts(items@);
                let found = match part.get_str("text") {
                    Some(text) => Some(text),
                    None => part.as_str(),
                };
                if let Some(text) = found {
                    items.push(text.clone());
                    assert(texts(items@) =~= before + seq![text@]);
                }
                at = at + 1;
            }
            assert(all.take(at as int) =~= all);
            let text = join(&items, "\n");
            if is_blank(text.as_str()) {
                None
            } else {
                Some(text)
            }
        },
        _ => None,
    }
}

/// Whether a part of a message is an image.
pub open spec fn is_image(part: JsonView) -> bool {
    (member_text(part, "type"@) matches Some(kind) && has_part(kind, "image"@)) || member(
        part,
        "image_url"@,
    ) is Some || member(part, "image"@) is Some
}

/// Whether a message holds an image.
pub open spec fn content_has_image(content: Option<JsonView>) -> bool {
    content matches Some(JsonView::List(parts)) && exists|i: int|
        0 <= i < parts.len() && is_image(#[trigger] parts[i])
}

fn any_image(parts: &Vec<Json>) -> (found: bool)
    ensures
        found == exists|i: int|
            0 <= i < list_model(parts@).len() && is_image(#[trigger] list_model(parts@)[i]),
{
    let ghost all = list_model(parts@);
    let mut at: usize = 0;
    while at < parts.len()
        invariant
            at <= parts@.len(),
            all == list_model(parts@),
            forall|i: int| 0 <= i < at ==> !is_image(#[trigger] all[i]),
        decreases parts.len() - at,
    {
        let part = &parts[at];
        assert(all[at as int] == part.model());
        let image_kind = match part.get_str("type") {
            Some(kind) => contains(kind.as_str(), "image"),
            None => false,
        };
        if image_kind || part.get("image_url").is_some() || part.get("image").is_some() {
            assert(is_image(all[at as int]));
            return true;
        }
        at = at + 1;
    }
    false
}

/// Whether a message holds an image.
pub fn message_has_image_content(content: Option<&Json>) -> (found: bool)
    ensures
        found == content_has_image(
            match content {
                Some(content) => Some(content.model()),
                None => None,
            },
        ),
{
    match content {
        Some(Json::List(parts)) => {
            let found = any_image(parts);
            let ghost view = content->Some_0.model();
            assert(view is List);
            assert(view == JsonView::List(list_model(parts@)));
            assert(found == content_has_image(Some(view)));
            found
        },
        _ => false,
    }
}

/// How a user message is shown: its request on one line, or that it is an image.
pub open spec fn user_summary(payload: JsonView) -> Seq<char> {
    match member_text(payload, "message"@) {
        Some(message) => {
            let line = flat_head(request_text(message), 120);
            if line.len() > 0 {
                line
            } else {
                "[Image]"@
            }
        },
        None => "[Image]"@,
    }
}

/// How a message of a response is shown.
pub open spec fn item_summary(payload: JsonView) -> Seq<char> {
    let content = member(payload, "content"@);
    let line = match content_text(content) {
        Some(text) => flat_head(text, 120),
        None => Seq::empty(),
    };
    if line.len() > 0 {
        line
    } else if content_has_image(content) {
        "[Image]"@
    } else {
        Seq::empty()
    }
}

/// The message that a record is; `None` where it is none of a user or an assistant.
pub open spec fn cut_of(record: JsonView) -> Option<CutView> {
    let outer = member_text(record, "type"@);
    let payload = payload_or_self(record);
    let kind = member_text(payload, "type"@);
    let role = member_text(payload, "role"@);
    if outer == Some("event_msg"@) && kind == Some("user_message"@) {
        Some(CutView { role: "user"@, kind: "user_message"@, summary: user_summary(payload) })
    } else if outer == Some("event_msg"@) && kind == Some("agent_message"@) {
        Some(
            CutView {
                role: "assistant"@,
                kind: "agent_message"@,
                summary: match member_text(payload, "message"@) {
                    Some(message) => flat_head(message, 120),
                    None => Seq::empty(),
                },
            },
        )
    } else if outer == Some("response_item"@) && kind == Some("message"@) {
        match role {
            Some(role) => if role == "user"@ || role == "assistant"@ {
                Some(CutView { role, kind: "message"@, summary: item_summary(payload) })
            } else {
                None
            },
            None => None,
        }
    } else {
        None
    }
}

fn summarize_user(payload: &Json) -> (summary: String)
    ensures
        summary@ == user_summary(payload.model()),
{
    if let Some(message) = payload.get_str("message") {
        let request = strip_user_message_prefix(message.as_str());
        let line = trim_flat(request.as_str(), 120);
        if !line.as_str().is_empty() {
            return line;
        }
    }
    "[Image]".to_owned()
}

fn summarize_item(payload: &Json) -> (summary: String)
    ensures
        summary@ == item_summary(payload.model()),
{
    let content = payload.get("content");
    if let Some(text) = flatten_message_content(content) {
        let line = trim_flat(text.as_str(), 120);
        if !line.as_str().is_empty() {
            return line;
        }
    }
    if message_has_image_content(content) {
        "[Image]".to_owned()
    } else {
        String::new()
    }
}

/// The message that a record is.
pub fn stable_cut_event(record: &Json) -> (cut: Option<StableCutInfo>)
    ensures
        opt_cut(cut) == cut_of(record.model()),
{
    let payload = match record.get("payload") {
        Some(payload) => payload,
        None => record,
    };
    if record.has_str("type", "event_msg") && payload.has_str("type", "user_message") {
        return Some(
            StableCutInfo {
                role: "user".to_owned(),
                kind: "user_message".to_owned(),
                summary: summarize_user(payload),
            },
        );
    }
    if record.has_str("type", "event_msg") && payload.has_str("type", "agent_message") {
        return Some(
            StableCutInfo {
                role: "assistant".to_owned(),
                kind: "agent_message".to_owned(),
                summary: match payload.get_str("message") {
                    Some(message) => trim_flat(message.as_str(), 120),
                    None => String::new(),
                },
            },
        );
    }
    if record.has_str("type", "response_item") && payload.has_str("type", "message") {
        return match payload.get_str("role") {
            Some(role) => if same(role.as_str(), "user") || same(role.as_str(), "assistant") {
                Some(
                    StableCutInfo {
                        role: role.clone(),
                        kind: "message".to_owned(),
                        summary: summarize_item(payload),
                    },
                )
            } else {
                None
            },
            None => None,
        };
    }
    None
}

// ---------------------------------------------------------------------------
// The prefix
// ---------------------------------------------------------------------------

/// A line of a prefix: where it stands in the rollout, its text, and the record it holds.
pub struct StablePrefixLine {
    pub physical_index: usize,
    pub raw_line: String,
    pub value: Json,
}

/// What a [`StablePrefixLine`] holds.
#[verifier::ext_equal]
pub struct PrefixLineView {
    pub index: int,
    pub raw: Seq<char>,
    pub value: JsonView,
}

impl View for StablePrefixLine {
    type V = PrefixLineView;

    open spec fn view(&self) -> PrefixLineView {
        PrefixLineView {
            index: self.physical_index as int,
            raw: self.raw_line@,
            value: self.value.model(),
        }
    }
}

/// What the lines of a prefix hold.
pub open spec fn prefix_lines_view(lines: Seq<StablePrefixLine>) -> Seq<PrefixLineView> {
    lines.map_values(|line: StablePrefixLine| line@)
}

/// The part of a session up to a message, and that message.
pub struct StablePrefix {
    pub lines: Vec<StablePrefixLine>,
    pub cut: StableCutInfo,
}

/// What a [`StablePrefix`] holds.
#[verifier::ext_equal]
pub struct PrefixView {
    pub lines: Seq<PrefixLineView>,
    pub cut: CutView,
}

impl View for StablePrefix {
    type V = PrefixView;

    open spec fn view(&self) -> PrefixView {
        PrefixView { lines: prefix_lines_view(self.lines@), cut: self.cut@ }
    }
}

/// What the first lines of a rollout give for a prefix.
#[verifier::ext_equal]
pub struct PrefixProgress {
    pub lines: Seq<PrefixLineView>,
    pub cut: Option<CutView>,
}

/// What a line adds to a prefix that ends at `event_index`. A line that is no JSON, or at
/// the end no message, is an error.
pub open spec fn prefix_step(
    before: PrefixProgress,
    line: Seq<char>,
    index: int,
    event_index: int,
) -> Result<PrefixProgress, ErrorView> {
    if index > event_index || trimmed(line).len() == 0 {
        Ok(before)
    } else {
        match json_reading(line) {
            Err(error) => Err(
                ErrorView::Other(
                    "无法创建回溯分支：目标节点之前第 "@ + decimal((index + 1) as nat)
                        + " 行不是有效 JSONL: "@ + error,
                ),
            ),
            Ok(value) => {
                let lines = before.lines.push(PrefixLineView { index, raw: line, value });
                if index == event_index {
                    match cut_of(value) {
                        Some(cut) => Ok(PrefixProgress { lines, cut: Some(cut) }),
                        None => Err(
                            ErrorView::Other(
                                "只能从稳定对话节点创建分支；第 "@ + decimal((index + 1) as nat)
                                    + " 行不是用户或助手消息节点"@,
                            ),
                        ),
                    }
                } else {
                    Ok(PrefixProgress { lines, ..before })
                }
            },
        }
    }
}

/// What lines of a rollout give for a prefix that ends at `event_index`.
pub open spec fn prefix_progress(lines: Seq<Seq<char>>, event_index: int) -> Result<
    PrefixProgress,
    ErrorView,
>
    decreases lines.len(),
{
    if lines.len() == 0 {
        Ok(PrefixProgress { lines: Seq::empty(), cut: None })
    } else {
        match prefix_progress(lines.drop_last(), event_index) {
            Err(error) => Err(error),
            Ok(before) => prefix_step(before, lines.last(), lines.len() - 1, event_index),
        }
    }
}

/// The prefix that progress makes: it must hold its message and start with metadata.
pub open spec fn finished_prefix(progress: PrefixProgress, event_index: int) -> Result<
    PrefixView,
    ErrorView,
> {
    match progress.cut {
        None => Err(
            ErrorView::Other(
                "未找到 index="@ + decimal(event_index as nat)
                    + " 对应的事件行；目标可能是空行或超出 rollout 范围"@,
            ),
        ),
        Some(cut) => if progress.lines.len() == 0 {
            Err(ErrorView::Other("无法创建回溯分支：目标节点之前没有任何有效事件"@))
        } else if member_text(progress.lines[0].value, "type"@) != Some("session_meta"@) {
            Err(
                ErrorView::Other(
                    "无法创建回溯分支：第一个有效事件必须是 session_meta，实际位于第 "@ + decimal(
                        (progress.lines[0].index + 1) as nat,
                    ) + " 行"@,
                ),
            )
        } else {
            Ok(PrefixView { lines: progress.lines, cut })
        },
    }
}

/// The part of a rollout up to the message at `event_index`.
pub open spec fn stable_prefix(lines: Seq<Seq<char>>, event_index: int) -> Result<
    PrefixView,
    ErrorView,
> {
    match prefix_progress(lines, event_index) {
        Err(error) => Err(error),
        Ok(progress) => finished_prefix(progress, event_index),
    }
}

proof fn lemma_prefix_error(lines: Seq<Seq<char>>, event_index: int, at: int)
    requires
        0 <= at <= lines.len(),
        prefix_progress(lines.take(at), event_index) is Err,
    ensures
        prefix_progress(lines, event_index) == prefix_progress(lines.take(at), event_index),
    decreases lines.len(),
{
    if at < lines.len() {
        assert(lines.drop_last().take(at) =~= lines.take(at));
        lemma_prefix_error(lines.drop_last(), event_index, at);
    } else {
        assert(lines.take(at) =~= lines);
    }
}

proof fn lemma_prefix_end(lines: Seq<Seq<char>>, event_index: int, at: int)
    requires
        0 <= event_index < at <= lines.len(),
        prefix_progress(lines.take(at), event_index) is Ok,
    ensures
        prefix_progress(lines, event_index) == prefix_progress(lines.take(at), event_index),
    decreases lines.len(),
{
    if at < lines.len() {
        assert(lines.drop_last().take(at) =~= lines.take(at));
        lemma_prefix_end(lines.drop_last(), event_index, at);
    } else {
        assert(lines.take(at) =~= lines);
    }
}

/// What the outcome of looking for a prefix holds.
pub open spec fn prefix_outcome(outcome: Result<StablePrefix, AppError>) -> Result<
    PrefixView,
    ErrorView,
> {
    match outcome {
        Ok(prefix) => Ok(prefix@),
        Err(error) => Err(error@),
    }
}

fn finish_prefix(
    lines: Vec<StablePrefixLine>,
    cut: Option<StableCutInfo>,
    event_index: usize,
) -> (prefix: Result<StablePrefix, AppError>)
    requires
        forall|i: int|
            0 <= i < lines@.len() ==> (#[trigger] lines@[i]).physical_index < usize::MAX,
    ensures
        prefix_outcome(prefix) == finished_prefix(
            PrefixProgress { lines: prefix_lines_view(lines@), cut: opt_cut(cut) },
            event_index as int,
        ),
{
    let cut = match cut {
        Some(cut) => cut,
        None => return Err(
            AppError::Other(
                join3(
                    "未找到 index=",
                    decimal_text(event_index as u64).as_str(),
                    " 对应的事件行；目标可能是空行或超出 rollout 范围",
                ),
            ),
        ),
    };
    if lines.len() == 0 {
        return Err(
            AppError::Other("无法创建回溯分支：目标节点之前没有任何有效事件".to_owned()),
        );
    }
    assert(prefix_lines_view(lines@)[0] == lines@[0]@);
    if !lines[0].value.has_str("type", "session_meta") {
        let number = decimal_text(lines[0].physical_index as u64 + 1);
        return Err(
            AppError::Other(
                join3(
                    "无法创建回溯分支：第一个有效事件必须是 session_meta，实际位于第 ",
                    number.as_str(),
                    " 行",
                ),
            ),
        );
    }
    Ok(StablePrefix { lines, cut })
}

/// The part of a rollout up to the message at `event_index`.
pub fn collect_stable_prefix(lines: &Vec<String>, event_index: usize) -> (prefix: Result<
    StablePrefix,
    AppError,
>)
    ensures
        prefix_outcome(prefix) == stable_prefix(texts(lines@), event_index as int),
{
    let ghost all = texts(lines@);
    let count: usize = lines.len();
    let mut kept: Vec<StablePrefixLine> = Vec::new();
    let mut cut: Option<StableCutInfo> = None;
    assert(prefix_lines_view(kept@) =~= Seq::empty());
    let mut at: usize = 0;
    while at < count && at <= event_index
        invariant
            at <= count == lines@.len(),
            at <= event_index + 1,
            all == texts(lines@),
            forall|i: int|
                0 <= i < kept@.len() ==> (#[trigger] kept@[i]).physical_index < usize::MAX,
            prefix_progress(all.take(at as int), event_index as int) == Ok::<
                PrefixProgress,
                ErrorView,
            >(PrefixProgress { lines: prefix_lines_view(kept@), cut: opt_cut(cut) }),
        decreases count - at,
    {
        let line = &lines[at];
        assert(all.take(at + 1).drop_last() =~= all.take(at as int));
        assert(all.take(at + 1).last() == line@);
        let ghost before = prefix_lines_view(kept@);
        if !is_blank(line.as_str()) {
            match parse_or_explain(line.as_str()) {
                Err(error) => {
                    proof {
                        lemma_prefix_error(all, event_index as int, at + 1);
                    }
                    return Err(
                        AppError::Other(
                            join4(
                                "无法创建回溯分支：目标节点之前第 ",
                                decimal_text(at as u64 + 1).as_str(),
                                " 行不是有效 JSONL: ",
                                error.as_str(),
                            ),
                        ),
                    );
                },
                Ok(value) => {
                    if at == event_index {
                        match stable_cut_event(&value) {
                            Some(found) => {
                                cut = Some(found);
                            },
                            None => {
                                proof {
                                    lemma_prefix_error(all, event_index as int, at + 1);
                                }
                                return Err(
                                    AppError::Other(
                                        join3(
                                            "只能从稳定对话节点创建分支；第 ",
                                            decimal_text(at as u64 + 1).as_str(),
                                            " 行不是用户或助手消息节点",
                                        ),
                                    ),
                                );
                            },
                        }
                    }
                    let item = StablePrefixLine {
                        physical_index: at,
                        raw_line: line.clone(),
                        value,
                    };
                    kept.push(item);
                    assert(prefix_lines_view(kept@) =~= before.push(item@));
                },
            }
        }
        at = at + 1;
    }
    proof {
        if at < count {
            lemma_prefix_end(all, event_index as int, at as int);
        } else {
            assert(all.take(at as int) =~= all);
        }
    }
    finish_prefix(kept, cut, event_index)
}

// ---------------------------------------------------------------------------
// The fork
// ---------------------------------------------------------------------------

/// The rollout of a fork: metadata of its own, then the other lines of the prefix.
pub open spec fn forked_rollout(
    prefix: Seq<PrefixLineView>,
    new_id: Seq<char>,
    provider: Seq<char>,
    timestamp: Seq<char>,
) -> Result<Seq<Seq<char>>, ErrorView> {
    if prefix.len() == 0 {
        Ok(Seq::empty())
    } else {
        let id = match member(prefix[0].value, "payload"@) {
            Some(payload) => member_text(payload, "id"@),
            None => None,
        };
        match id {
            None => Err(
                ErrorView::Other("session_meta.payload.id 缺失，无法创建新分支"@),
            ),
            Some(source_id) => match copied_meta(
                prefix[0].value,
                new_id,
                provider,
                source_id,
                timestamp,
            ) {
                Err(error) => Err(error),
                Ok(meta) => Ok(
                    seq![json_text(meta)] + prefix.skip(1).map_values(
                        |line: PrefixLineView| line.raw,
                    ),
                ),
            },
        }
    }
}

/// The rollout of a fork. It states the new session and its provider.
pub fn write_forked_rollout_prefix(
    prefix: &StablePrefix,
    new_id: &str,
    provider: &str,
    timestamp: &str,
) -> (lines: Result<Vec<String>, AppError>)
    ensures
        lines_outcome(lines) == forked_rollout(prefix@.lines, new_id@, provider@, timestamp@),
        prefix@.lines.len() > 0 && is_meta(prefix@.lines[0].value) && reads_back(
            prefix@.lines[0].value,
            127,
        ) && is_session_id(new_id@) ==> (lines matches Ok(lines) ==> states_session(
            texts(lines@),
            new_id@,
            provider@,
        )),
{
    let ghost all = prefix@.lines;
    let mut lines: Vec<String> = Vec::new();
    if prefix.lines.len() == 0 {
        assert(texts(lines@) =~= Seq::empty());
        return Ok(lines);
    }
    let first = &prefix.lines[0];
    assert(all[0] == first@);
    let source_id = match first.value.get("payload") {
        Some(payload) => payload.get_str("id"),
        None => None,
    };
    let source_id = match source_id {
        Some(id) => id.clone(),
        None => return Err(
            AppError::Other("session_meta.payload.id 缺失，无法创建新分支".to_owned()),
        ),
    };
    let canonical = match build_independent_duplicate_meta(
        first.value.copy(),
        new_id,
        provider,
        source_id.as_str(),
        timestamp,
    ) {
        Ok(line) => line,
        Err(error) => return Err(error),
    };
    lines.push(canonical);
    let ghost raw = |line: PrefixLineView| line.raw;
    let ghost rest = all.skip(1);
    assert(texts(lines@) =~= seq![canonical@] + rest.take(0).map_values(raw));
    let mut at: usize = 1;
    while at < prefix.lines.len()
        invariant
            1 <= at <= prefix.lines@.len(),
            all == prefix_lines_view(prefix.lines@),
            rest == all.skip(1),
            raw == (|line: PrefixLineView| line.raw),
            texts(lines@) == seq![canonical@] + rest.take(at - 1).map_values(raw),
        decreases prefix.lines.len() - at,
    {
        let ghost before = texts(lines@);
        lines.push(prefix.lines[at].raw_line.clone());
        assert(texts(lines@) =~= before.push(rest[at - 1].raw));
        assert(rest.take(at as int).map_values(raw) =~= rest.take(at - 1).map_values(raw).push(
            rest[at - 1].raw,
        ));
        assert(texts(lines@) =~= seq![canonical@] + rest.take(at as int).map_values(raw));
        at = at + 1;
    }
    assert(rest.take(at - 1) =~= rest);
    proof {
        if is_meta(all[0].value) && reads_back(all[0].value, 127) && is_session_id(new_id@) {
            lemma_copy_is_stated(
                canonical@,
                all[0].value,
                new_id@,
                provider@,
                source_id@,
                timestamp@,
            );
            assert(texts(lines@)[0] == canonical@);
            lemma_first_line_states(texts(lines@), new_id@, provider@);
        }
    }
    Ok(lines)
}

/// A prefix ends with its message: no line of it stands after `event_index`, the lines
/// stand in the order of the rollout, and each is a line of it that is not blank.
pub proof fn law_prefix_ends_at_its_message(lines: Seq<Seq<char>>, event_index: int)
    ensures
        prefix_progress(lines, event_index) matches Ok(progress) ==> {
            &&& forall|i: int|
                0 <= i < progress.lines.len() ==> {
                    &&& 0 <= (#[trigger] progress.lines[i]).index <= event_index
                    &&& progress.lines[i].index < lines.len()
                    &&& progress.lines[i].raw == lines[progress.lines[i].index]
                    &&& trimmed(progress.lines[i].raw).len() > 0
                }
            &&& forall|i: int, j: int|
                0 <= i < j < progress.lines.len() ==> (#[trigger] progress.lines[i]).index < (
                #[trigger] progress.lines[j]).index
        },
    decreases lines.len(),
{
    if lines.len() > 0 {
        law_prefix_ends_at_its_message(lines.drop_last(), event_index);
    }
}

/// Whether a line is the first one of a rollout that is not blank, and is metadata.
pub open spec fn opens_with_metadata(lines: Seq<Seq<char>>, first: int) -> bool {
    &&& 0 <= first < lines.len()
    &&& trimmed(lines[first]).len() > 0
    &&& forall|i: int| 0 <= i < first ==> trimmed(#[trigger] lines[i]).len() == 0
    &&& json_reading(lines[first]) matches Ok(value) && member_text(value, "type"@) == Some(
        "session_meta"@,
    )
}

/// Whether all lines up to a place that are not blank can be read.
pub open spec fn readable_up_to(lines: Seq<Seq<char>>, event_index: int) -> bool {
    forall|i: int|
        0 <= i < lines.len() && i <= event_index && trimmed(#[trigger] lines[i]).len() > 0
            ==> json_reading(lines[i]) is Ok
}

/// A prefix can be taken just where its place is a line with a message, all lines up to there can be
/// read, and the first of them is metadata. Its last line is that message.
pub proof fn law_when_a_prefix_is_taken(lines: Seq<Seq<char>>, event_index: int)
    requires
        0 <= event_index,
    ensures
        stable_prefix(lines, event_index) is Ok <==> {
            &&& event_index < lines.len()
            &&& trimmed(lines[event_index]).len() > 0
            &&& readable_up_to(lines, event_index)
            &&& json_reading(lines[event_index]) matches Ok(value) && cut_of(value) is Some
            &&& exists|first: int| first <= event_index && #[trigger] opens_with_metadata(lines, first)
        },
        stable_prefix(lines, event_index) matches Ok(prefix) ==> {
            &&& json_reading(lines[event_index]) matches Ok(value) && cut_of(value) == Some(
                prefix.cut,
            )
            &&& prefix.lines.len() > 0
            &&& prefix.lines.last().index == event_index
            &&& prefix.lines.last().raw == lines[event_index]
            &&& forall|i: int|
                0 <= i < prefix.lines.len() ==> json_reading((#[trigger] prefix.lines[i]).raw)
                    == Ok::<JsonView, Seq<char>>(prefix.lines[i].value)
        },
{
    lemma_prefix_progress(lines, event_index);
    if let Ok(progress) = prefix_progress(lines, event_index) {
        if progress.lines.len() > 0 {
            let first = progress.lines[0].index;
            assert(json_reading(lines[first]) is Ok);
            if member_text(progress.lines[0].value, "type"@) == Some("session_meta"@) {
                assert(opens_with_metadata(lines, first));
            }
            assert forall|other: int|
                other <= event_index && #[trigger] opens_with_metadata(lines, other) implies other
                == first by {
                if other < first {
                    assert(trimmed(lines[other]).len() == 0);
                } else if first < other {
                    assert(trimmed(lines[first]).len() == 0);
                }
            }
        }
    }
}

proof fn lemma_prefix_progress(lines: Seq<Seq<char>>, event_index: int)
    requires
        0 <= event_index,
    ensures
        prefix_progress(lines, event_index) is Ok <==> readable_up_to(lines, event_index) && (
        event_index < lines.len() && trimmed(lines[event_index]).len() > 0 ==> (json_reading(
            lines[event_index],
        ) matches Ok(value) && cut_of(value) is Some)),
        prefix_progress(lines, event_index) matches Ok(progress) ==> {
            &&& progress.cut is Some <==> event_index < lines.len() && trimmed(
                lines[event_index],
            ).len() > 0
            &&& progress.cut is Some ==> progress.lines.len() > 0 && progress.lines.last().index
                == event_index && progress.lines.last().raw == lines[event_index] && cut_of(
                json_reading(lines[event_index])->Ok_0,
            ) == progress.cut
            &&& forall|i: int|
                0 <= i < progress.lines.len() ==> json_reading((#[trigger] progress.lines[i]).raw)
                    == Ok::<JsonView, Seq<char>>(progress.lines[i].value)
            &&& progress.lines.len() > 0 ==> {
                let first = progress.lines[0].index;
                &&& 0 <= first < lines.len()
                &&& first <= event_index
                &&& progress.lines[0].raw == lines[first]
                &&& trimmed(lines[first]).len() > 0
                &&& forall|i: int| 0 <= i < first ==> trimmed(#[trigger] lines[i]).len() == 0
            }
            &&& progress.lines.len() == 0 ==> forall|i: int|
                0 <= i < lines.len() && i <= event_index ==> trimmed(#[trigger] lines[i]).len() == 0
        },
    decreases lines.len(),
{
    if lines.len() > 0 {
        let rest = lines.drop_last();
        let last = lines.len() - 1;
        lemma_prefix_progress(rest, event_index);
        assert forall|i: int| 0 <= i < rest.len() implies rest[i] == lines[i] by {}
        assert(readable_up_to(lines, event_index) <==> readable_up_to(rest, event_index) && (last
            <= event_index && trimmed(lines[last]).len() > 0 ==> json_reading(lines[last]) is Ok))
            by {
            if readable_up_to(lines, event_index) {
                assert forall|i: int|
                    0 <= i < rest.len() && i <= event_index && trimmed(#[trigger] rest[i]).len()
                        > 0 implies json_reading(rest[i]) is Ok by {
                    assert(rest[i] == lines[i]);
                }
            }
            if readable_up_to(rest, event_index) && (last <= event_index && trimmed(
                lines[last],
            ).len() > 0 ==> json_reading(lines[last]) is Ok) {
                assert forall|i: int|
                    0 <= i < lines.len() && i <= event_index && trimmed(#[trigger] lines[i]).len()
                        > 0 implies json_reading(lines[i]) is Ok by {
                    if i < last {
                        assert(rest[i] == lines[i]);
                    }
                }
            }
        }
        if let Ok(progress) = prefix_progress(lines, event_index) {
            let before = prefix_progress(rest, event_index)->Ok_0;
            if progress.lines.len() > 0 {
                let first = progress.lines[0].index;
                if before.lines.len() > 0 {
                    assert(progress.lines[0] == before.lines[0]);
                    assert(rest[first] == lines[first]);
                }
                assert forall|i: int| 0 <= i < first implies trimmed(#[trigger] lines[i]).len()
                    == 0 by {
                    assert(rest[i] == lines[i]);
                }
            } else {
                assert forall|i: int| 0 <= i < lines.len() && i <= event_index implies trimmed(
                    #[trigger] lines[i],
                ).len() == 0 by {
                    if i < last {
                        assert(rest[i] == lines[i]);
                    }
                }
            }
        }
    }
}

/// A fork can start at a message of the user or of the assistant and nowhere else.
pub proof fn law_where_a_fork_can_start(record: JsonView, payload: JsonView)
    requires
        member(record, "payload"@) == Some(payload),
    ensures
        ({
            let outer = member_text(record, "type"@);
            let kind = member_text(payload, "type"@);
            let role = member_text(payload, "role"@);
            let asked = outer == Some("event_msg"@) && kind == Some("user_message"@);
            let answered = outer == Some("event_msg"@) && kind == Some("agent_message"@);
            let spoken = outer == Some("response_item"@) && kind == Some("message"@) && (role
                == Some("user"@) || role == Some("assistant"@));
            &&& cut_of(record) is Some <==> asked || answered || spoken
            &&& asked ==> (cut_of(record) matches Some(cut) && cut.role == "user"@ && cut.kind
                == "user_message"@ && cut.summary.len() > 0)
            &&& answered ==> (cut_of(record) matches Some(cut) && cut.role == "assistant"@
                && cut.kind == "agent_message"@ && (member_text(payload, "message"@) matches Some(
                message,
            ) ==> cut.summary == flat_head(message, 120)))
            &&& spoken ==> (cut_of(record) matches Some(cut) && Some(cut.role) == role && cut.kind
                == "message"@)
        }),
{
    reveal_strlit("event_msg");
    reveal_strlit("response_item");
    reveal_strlit("user_message");
    reveal_strlit("agent_message");
    reveal_strlit("[Image]");
    assert("event_msg"@.len() != "response_item"@.len());
    assert("user_message"@.len() != "agent_message"@.len());
    assert("[Image]"@.len() == 7);
}

/// What is shown of a message is one line with no space around it, cut off after the given number of
/// characters, and a sign tells that more follows.
pub proof fn law_shown_text_is_one_line(text: Seq<char>, count: int)
    requires
        0 <= count,
    ensures
        ({
            let line = flat_head(text, count);
            &&& line.len() <= count + 1
            &&& forall|i: int| 0 <= i < line.len() ==> #[trigger] line[i] != '\n' && line[i] != '\r'
            &&& line.len() == count + 1 ==> line.last() == '…'
            &&& text.len() <= count && (forall|i: int|
                0 <= i < text.len() ==> #[trigger] text[i] != '\n' && text[i] != '\r') ==> line
                == trimmed(text)
        }),
{
    let whole = flat(text);
    law_trimming_cuts_off_space_only(whole);
    let cut = trimmed(whole);
    let at = choose|at: int| #[trigger] stands_alone(whole, cut, at);
    assert forall|i: int| 0 <= i < cut.len() implies #[trigger] cut[i] != '\n' && cut[i]
        != '\r' by {
        assert(cut[i] == whole.subrange(at, at + cut.len())[i]);
        assert(cut[i] == whole[at + i]);
    }
    if forall|i: int| 0 <= i < text.len() ==> #[trigger] text[i] != '\n' && text[i] != '\r' {
        assert(whole =~= text);
    }
}

/// A fork starts with its own metadata, made of that of its source, and then has every other line of
/// the prefix as it stands.
pub proof fn law_what_a_fork_holds(
    prefix: Seq<PrefixLineView>,
    new_id: Seq<char>,
    provider: Seq<char>,
    timestamp: Seq<char>,
    payload: JsonView,
)
    requires
        prefix.len() > 0,
        member(prefix[0].value, "payload"@) == Some(payload),
    ensures
        forked_rollout(prefix, new_id, provider, timestamp) matches Ok(lines) ==> {
            &&& lines.len() == prefix.len()
            &&& forall|i: int| 0 < i < lines.len() ==> #[trigger] lines[i] == prefix[i].raw
            &&& member_text(payload, "id"@) matches Some(id) && (copied_meta(
                prefix[0].value,
                new_id,
                provider,
                id,
                timestamp,
            ) matches Ok(meta) && lines[0] == json_text(meta))
        },
        member_text(payload, "id"@) is None ==> forked_rollout(prefix, new_id, provider, timestamp)
            is Err,
{
}

/// What is shown of the message at which a fork starts: its first words, or else that it is an image.
pub proof fn law_what_is_shown_where_a_fork_starts(record: JsonView, payload: JsonView)
    requires
        member(record, "payload"@) == Some(payload),
    ensures
        ({
            let outer = member_text(record, "type"@);
            let kind = member_text(payload, "type"@);
            let request = match member_text(payload, "message"@) {
                Some(message) => flat_head(request_text(message), 120),
                None => Seq::<char>::empty(),
            };
            let content = member(payload, "content"@);
            let said = match content_text(content) {
                Some(text) => flat_head(text, 120),
                None => Seq::<char>::empty(),
            };
            &&& outer == Some("event_msg"@) && kind == Some("user_message"@) ==> (cut_of(
                record,
            ) matches Some(cut) && (request.len() > 0 ==> cut.summary == request) && (request.len()
                == 0 ==> cut.summary == "[Image]"@))
            &&& outer == Some("response_item"@) && kind == Some("message"@) ==> (cut_of(
                record,
            ) matches Some(cut) ==> (said.len() > 0 ==> cut.summary == said) && (said.len() == 0
                && content_has_image(content) ==> cut.summary == "[Image]"@) && (said.len() == 0
                && !content_has_image(content) ==> cut.summary.len() == 0))
        }),
{
    reveal_strlit("event_msg");
    reveal_strlit("response_item");
    assert("event_msg"@.len() != "response_item"@.len());
}

/// What a message says: a text is taken as it is; of parts, those that have a text, one on each line;
/// nothing where all of that is blank.
pub proof fn law_what_a_message_says(parts: Seq<JsonView>, text: Seq<char>)
    ensures
        content_text(None) is None,
        content_text(Some(JsonView::Text(text))) == Some(text),
        content_text(Some(JsonView::List(parts))) matches Some(said) ==> trimmed(said).len() > 0,
        parts.len() == 1 && member_text(parts[0], "text"@) == Some(text) ==> content_text(
            Some(JsonView::List(parts)),
        ) == if trimmed(text).len() > 0 {
            Some(text)
        } else {
            None
        },
{
    if parts.len() == 1 && member_text(parts[0], "text"@) == Some(text) {
        reveal(Seq::filter_map);
        let said = parts.filter_map(part_content());
        assert(parts.drop_last() =~= Seq::empty());
        assert(parts.drop_last().filter_map(part_content()) =~= Seq::empty());
        assert(parts.last() == parts[0]);
        assert(said =~= seq![text]);
    }
}

} // verus!
