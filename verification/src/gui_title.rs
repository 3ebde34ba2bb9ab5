//! The title under which the session list of the editor extension shows a session. It is
//! derived from the first and the last part of the session file; a session for which none
//! can be derived is not listed.

use vstd::prelude::*;

use crate::given_title::{ends_with_title, gives_title, lemma_given_title_is_found};
use crate::json::{
    json_document, list_model, member, member_text, opt_model, parse, quoted, Json, JsonView,
};
use crate::text::{
    after_prefix, chars_of, contains, find_from, find_in, find_part, has_part, is_space,
    is_whitespace, join2, join3, lemma_find_from, lemma_trimmed_end, occurs_at, opt_text,
    strip_prefix, text_of, texts, trim, trim_start, trimmed, trimmed_end, trimmed_start,
};

verus! {

// ---------------------------------------------------------------------------
// String fields
// ---------------------------------------------------------------------------

/// Where a quoted text that starts at `at` ends: at the first quote that no backslash
/// precedes. A position at or beyond the end means that it does not end.
pub open spec fn closing_quote(text: Seq<char>, at: int) -> int
    decreases text.len() - at + 1,
{
    if at < 0 || at >= text.len() {
        at
    } else if text[at] == '\\' {
        closing_quote(text, at + 2)
    } else if text[at] == '"' {
        at
    } else {
        closing_quote(text, at + 1)
    }
}

/// A field that was found: where it starts, and its value as written.
pub struct Found {
    pub at: int,
    pub raw: Seq<char>,
}

/// The better of what was found before and a field that starts at `at`, whose value goes
/// from `start` to `end`: the later one. A value that does not end is no field.
pub open spec fn later(
    before: Option<Found>,
    text: Seq<char>,
    at: int,
    start: int,
    end: int,
) -> Option<Found> {
    if end < text.len() && (before matches Some(found) ==> at > found.at) {
        Some(Found { at, raw: text.subrange(start, end) })
    } else {
        before
    }
}

/// The last field from position `from` that starts with this pattern. The search goes on
/// after the end of each value.
pub open spec fn last_field(
    text: Seq<char>,
    pattern: Seq<char>,
    from: int,
    before: Option<Found>,
) -> Option<Found>
    decreases text.len() - from,
{
    match find_from(text, pattern, from) {
        None => before,
        Some(at) => {
            let start = at + pattern.len();
            let end = closing_quote(text, start);
            let best = later(before, text, at, start, end);
            if end + 1 >= text.len() || end < from {
                best
            } else {
                last_field(text, pattern, end + 1, best)
            }
        },
    }
}

/// How a field starts, without and with a space after its colon.
pub open spec fn field_pattern(key: Seq<char>, spaced: bool) -> Seq<char> {
    if spaced {
        "\""@ + key + "\": \""@
    } else {
        "\""@ + key + "\":\""@
    }
}

/// The text that a value as written stands for, given the JSON value that it is between
/// quotes.
pub open spec fn unescaped_given(raw: Seq<char>, value: Option<JsonView>) -> Seq<char> {
    if has_part(raw, "\\"@) {
        match value {
            Some(JsonView::Text(text)) => text,
            _ => raw,
        }
    } else {
        raw
    }
}

/// The text that a value as written stands for.
pub open spec fn unescaped(raw: Seq<char>) -> Seq<char> {
    unescaped_given(raw, json_document(quoted(raw)))
}

/// The last string field of this key.
pub open spec fn found_field(text: Seq<char>, key: Seq<char>) -> Option<Found> {
    last_field(
        text,
        field_pattern(key, true),
        0,
        last_field(text, field_pattern(key, false), 0, None),
    )
}

/// The value of the last string field of this key.
pub open spec fn string_field(text: Seq<char>, key: Seq<char>) -> Option<Seq<char>> {
    match found_field(text, key) {
        Some(found) => Some(unescaped(found.raw)),
        None => None,
    }
}

/// The text that a value as written stands for, given the JSON value that it is between
/// quotes.
pub fn unescape_given(raw: &str, value: Option<Json>) -> (text: String)
    ensures
        text@ == unescaped_given(raw@, opt_model(value)),
{
    if !contains(raw, "\\") {
        return raw.to_owned();
    }
    match value {
        Some(Json::Text(text)) => text,
        _ => raw.to_owned(),
    }
}

/// The text that a value as written stands for.
pub fn gui_unescape(raw: &str) -> (text: String)
    ensures
        text@ == unescaped(raw@),
        raw@.len() > 0 ==> text@.len() > 0,
{
    let whole = join3("\"", raw, "\"");
    let value = parse(whole.as_str());
    proof {
        reveal_strlit("\"");
        assert("\""@.len() == 1 && "\""@[0] == '"');
        assert(whole@[0] == '"' && whole@.last() == '"');
        assert(trimmed_start(whole@) == whole@);
        assert(trimmed(whole@) == whole@);
        assert(quoted(Seq::empty()).len() == 2);
    }
    unescape_given(raw, value)
}

proof fn lemma_closing_quote(text: Seq<char>, at: int)
    requires
        0 <= at,
    ensures
        closing_quote(text, at) >= at,
        closing_quote(text, at) < text.len() ==> text[closing_quote(text, at)] == '"',
        closing_quote(text, at) <= text.len() + 1 || closing_quote(text, at) == at,
    decreases text.len() - at + 1,
{
    if at < text.len() && text[at] == '\\' {
        lemma_closing_quote(text, at + 2);
    } else if at < text.len() && text[at] != '"' {
        lemma_closing_quote(text, at + 1);
    }
}

fn find_closing_quote(chars: &Vec<char>, start: usize) -> (end: Option<usize>)
    requires
        start <= chars@.len(),
    ensures
        match end {
            Some(end) => end == closing_quote(chars@, start as int) && start <= end < chars@.len(),
            None => closing_quote(chars@, start as int) >= chars@.len(),
        },
{
    let count: usize = chars.len();
    let mut at: usize = start;
    while at < count
        invariant
            start <= at,
            count == chars@.len(),
            closing_quote(chars@, start as int) == closing_quote(chars@, at as int),
        decreases count - at,
    {
        if chars[at] == '\\' {
            if at + 1 >= count {
                assert(closing_quote(chars@, at + 2) == at + 2);
                return None;
            }
            at = at + 2;
        } else if chars[at] == '"' {
            return Some(at);
        } else {
            at = at + 1;
        }
    }
    None
}

struct Best {
    at: usize,
    start: usize,
    end: usize,
}

spec fn best_view(chars: Seq<char>, best: Option<Best>) -> Option<Found> {
    match best {
        Some(best) => Some(
            Found { at: best.at as int, raw: chars.subrange(best.start as int, best.end as int) },
        ),
        None => None,
    }
}

fn scan_field(chars: &Vec<char>, pattern: &Vec<char>, before: Option<Best>) -> (best: Option<Best>)
    requires
        pattern@.len() > 0,
        before matches Some(found) ==> found.start <= found.end <= chars@.len(),
    ensures
        best_view(chars@, best) == last_field(chars@, pattern@, 0, best_view(chars@, before)),
        best matches Some(found) ==> found.start <= found.end <= chars@.len(),
{
    let count: usize = chars.len();
    let ghost first = best_view(chars@, before);
    let mut best = before;
    let mut from: usize = 0;
    loop
        invariant
            from <= count == chars@.len(),
            pattern@.len() > 0,
            first == best_view(chars@, before),
            best matches Some(found) ==> found.start <= found.end <= chars@.len(),
            last_field(chars@, pattern@, 0, first) == last_field(
                chars@,
                pattern@,
                from as int,
                best_view(chars@, best),
            ),
        decreases count - from,
    {
        match find_part(chars, pattern, from) {
            None => {
                return best;
            },
            Some(at) => {
                proof {
                    crate::text::lemma_find_from(chars@, pattern@, from as int);
                }
                let start = at + pattern.len();
                proof {
                    lemma_closing_quote(chars@, start as int);
                }
                match find_closing_quote(chars, start) {
                    None => {
                        return best;
                    },
                    Some(end) => {
                        let is_later = match &best {
                            Some(found) => at > found.at,
                            None => true,
                        };
                        if is_later {
                            best = Some(Best { at, start, end });
                        }
                        if end + 1 >= count {
                            return best;
                        }
                        from = end + 1;
                    },
                }
            },
        }
    }
}

/// The value of the last string field of this key.
pub fn gui_last_string_field(text: &str, key: &str) -> (value: Option<String>)
    ensures
        opt_text(value) == string_field(text@, key@),
        found_field(text@, key@) matches Some(found) ==> (found.raw.len() > 0 ==> filled(
            opt_text(value),
        )),
{
    let chars = chars_of(text);
    let plain = join3("\"", key, "\":\"");
    let spaced = join3("\"", key, "\": \"");
    proof {
        reveal_strlit("\"");
        assert("\""@.len() == 1);
    }
    let first = scan_field(&chars, &chars_of(plain.as_str()), None);
    let best = scan_field(&chars, &chars_of(spaced.as_str()), first);
    match best {
        Some(found) => {
            let raw = text_of(&chars, found.start, found.end);
            Some(gui_unescape(raw.as_str()))
        },
        None => None,
    }
}

// ---------------------------------------------------------------------------
// Titles from user messages
// ---------------------------------------------------------------------------

/// Whether a character can stand in the name of a tag.
pub open spec fn is_name_char(ch: char) -> bool {
    ('a' <= ch <= 'z') || ('A' <= ch <= 'Z') || ('0' <= ch <= '9') || ch == '_' || ch == '-'
}

/// How many characters of a name stand from a position on.
pub open spec fn name_end(text: Seq<char>, at: int) -> int
    decreases text.len() - at,
{
    if at < 0 || at >= text.len() || !is_name_char(text[at]) {
        at
    } else {
        name_end(text, at + 1)
    }
}

/// Whether a text starts with a tag whose name starts with a lower case letter.
pub open spec fn starts_with_tag(text: Seq<char>) -> bool {
    text.len() >= 2 && text[0] == '<' && 'a' <= text[1] <= 'z' && {
        let end = name_end(text, 2);
        end < text.len() && (is_space(text[end]) || text[end] == '>')
    }
}

/// Whether a text is no title: it starts with a tag, or says that the user interrupted.
pub open spec fn title_skipped(text: Seq<char>) -> bool {
    starts_with_tag(trimmed_start(text)) || (after_prefix(text, "[Request interrupted by user"@)
        matches Some(rest) && has_part(rest, "]"@))
}

fn tag_starts(chars: &Vec<char>) -> (found: bool)
    ensures
        found == starts_with_tag(chars@),
{
    let count: usize = chars.len();
    if count < 2 || chars[0] != '<' || !('a' <= chars[1] && chars[1] <= 'z') {
        return false;
    }
    let mut at: usize = 2;
    while at < count && (('a' <= chars[at] && chars[at] <= 'z') || ('A' <= chars[at] && chars[at]
        <= 'Z') || ('0' <= chars[at] && chars[at] <= '9') || chars[at] == '_' || chars[at] == '-')
        invariant
            2 <= at <= count == chars@.len(),
            name_end(chars@, 2) == name_end(chars@, at as int),
        decreases count - at,
    {
        at = at + 1;
    }
    at < count && (is_whitespace(chars[at]) || chars[at] == '>')
}

/// Whether a text is no title.
pub fn gui_title_skipped(text: &str) -> (skipped: bool)
    ensures
        skipped == title_skipped(text@),
{
    if tag_starts(&chars_of(trim_start(text).as_str())) {
        return true;
    }
    match strip_prefix(text, "[Request interrupted by user") {
        Some(rest) => contains(rest.as_str(), "]"),
        None => false,
    }
}

/// What stands between two tags.
pub open spec fn between(text: Seq<char>, open: Seq<char>, close: Seq<char>) -> Option<Seq<char>> {
    match find_in(text, open) {
        Some(at) => match find_from(text, close, at + open.len()) {
            Some(end) => Some(text.subrange(at + open.len(), end)),
            None => None,
        },
        None => None,
    }
}

/// What stands between two tags.
pub fn gui_tag_capture(text: &str, open: &str, close: &str) -> (captured: Option<String>)
    ensures
        opt_text(captured) == between(text@, open@, close@),
{
    let chars = chars_of(text);
    let first = chars_of(open);
    let count: usize = chars.len();
    match find_part(&chars, &first, 0) {
        Some(at) => {
            let start = at + first.len();
            match find_part(&chars, &chars_of(close), start) {
                Some(end) => {
                    proof {
                        crate::text::lemma_find_from(chars@, close@, start as int);
                    }
                    Some(text_of(&chars, start, end))
                },
                None => None,
            }
        },
        None => None,
    }
}

/// A text with its line feeds replaced by spaces.
pub open spec fn on_one_line(text: Seq<char>) -> Seq<char> {
    text.map_values(
        |ch: char|
            if ch == '\n' {
                ' '
            } else {
                ch
            },
    )
}

fn put_on_one_line(text: &str) -> (line: String)
    ensures
        line@ == on_one_line(text@),
{
    let chars = chars_of(text);
    let mut line = String::new();
    let mut at: usize = 0;
    while at < chars.len()
        invariant
            at <= chars@.len(),
            line@ == on_one_line(chars@.take(at as int)),
        decreases chars.len() - at,
    {
        line.push(
            if chars[at] == '\n' {
                ' '
            } else {
                chars[at]
            },
        );
        assert(line@ =~= on_one_line(chars@.take(at + 1)));
        at = at + 1;
    }
    assert(chars@.take(at as int) =~= chars@);
    line
}

/// A title of at most 200 characters; where more was cut off, an ellipsis follows.
pub open spec fn shortened(line: Seq<char>) -> Seq<char> {
    if line.len() > 200 {
        trimmed_end(line.take(200)) + "…"@
    } else {
        line
    }
}

/// What one text of a message gives: a title, a command that serves where no title is
/// found, or nothing.
pub enum TitleStep {
    Title(Seq<char>),
    Command(Seq<char>),
    Nothing,
}

/// What one text of a message gives.
pub open spec fn title_step(text: Seq<char>) -> TitleStep {
    let line = trimmed(on_one_line(text));
    if line.len() == 0 {
        TitleStep::Nothing
    } else {
        match between(line, "<command-name>"@, "</command-name>"@) {
            Some(command) => TitleStep::Command(command),
            None => match between(line, "<bash-input>"@, "</bash-input>"@) {
                Some(input) => TitleStep::Title("! "@ + trimmed(input)),
                None => if title_skipped(line) {
                    TitleStep::Nothing
                } else {
                    TitleStep::Title(shortened(line))
                },
            },
        }
    }
}

/// The title that texts give, and the command that serves where none does: the first of
/// each. Texts after the title are not looked at.
pub open spec fn texts_title(items: Seq<Seq<char>>, fallback: Seq<char>) -> (
    Option<Seq<char>>,
    Seq<char>,
)
    decreases items.len(),
{
    if items.len() == 0 {
        (None, fallback)
    } else {
        match title_step(items[0]) {
            TitleStep::Title(title) => (Some(title), fallback),
            TitleStep::Command(command) => texts_title(
                items.drop_first(),
                if fallback.len() == 0 {
                    command
                } else {
                    fallback
                },
            ),
            TitleStep::Nothing => texts_title(items.drop_first(), fallback),
        }
    }
}

/// The texts of the parts of a message.
pub open spec fn part_text() -> spec_fn(JsonView) -> Option<Seq<char>> {
    |part: JsonView|
        if member_text(part, "type"@) == Some("text"@) {
            member_text(part, "text"@)
        } else {
            None
        }
}

/// Whether any part of a message is the result of a tool.
pub open spec fn has_tool_result(parts: Seq<JsonView>) -> bool {
    exists|i: int|
        0 <= i < parts.len() && #[trigger] member_text(parts[i], "type"@) == Some("tool_result"@)
}

/// The texts of a user record; `None` where it is no message of a user.
pub open spec fn user_texts(record: JsonView) -> Option<Seq<Seq<char>>> {
    if member_text(record, "type"@) != Some("user"@) || member(record, "isMeta"@) == Some(
        JsonView::Bool(true),
    ) || member(record, "isCompactSummary"@) == Some(JsonView::Bool(true)) {
        None
    } else {
        match member(record, "message"@) {
            None => None,
            Some(JsonView::Null) => None,
            Some(message) => match member(message, "content"@) {
                Some(JsonView::Text(text)) => Some(seq![text]),
                Some(JsonView::List(parts)) => if has_tool_result(parts) {
                    None
                } else {
                    Some(parts.filter_map(part_text()))
                },
                _ => Some(Seq::empty()),
            },
        }
    }
}

/// The title that a user record gives, and the command that serves where none does.
pub open spec fn record_title(record: JsonView, fallback: Seq<char>) -> (
    Option<Seq<char>>,
    Seq<char>,
) {
    match user_texts(record) {
        Some(items) => texts_title(items, fallback),
        None => (None, fallback),
    }
}

fn title_of_texts(items: &Vec<String>, fallback: &mut String) -> (title: Option<String>)
    ensures
        texts_title(texts(items@), old(fallback)@) == (opt_text(title), final(fallback)@),
{
    let ghost all = texts(items@);
    let mut at: usize = 0;
    assert(all.skip(0) =~= all);
    while at < items.len()
        invariant
            at <= items@.len(),
            all == texts(items@),
            texts_title(all, old(fallback)@) == texts_title(all.skip(at as int), fallback@),
        decreases items.len() - at,
    {
        assert(all.skip(at as int)[0] == items@[at as int]@);
        assert(all.skip(at as int).drop_first() =~= all.skip(at + 1));
        let line = trim(put_on_one_line(items[at].as_str()).as_str());
        if !line.as_str().is_empty() {
            match gui_tag_capture(line.as_str(), "<command-name>", "</command-name>") {
                Some(command) => {
                    if fallback.as_str().is_empty() {
                        *fallback = command;
                    }
                },
                None => {
                    if let Some(input) = gui_tag_capture(
                        line.as_str(),
                        "<bash-input>",
                        "</bash-input>",
                    ) {
                        return Some(join2("! ", trim(input.as_str()).as_str()));
                    }
                    if !gui_title_skipped(line.as_str()) {
                        return Some(shorten(line.as_str()));
                    }
                },
            }
        }
        at = at + 1;
    }
    None
}

fn shorten(line: &str) -> (title: String)
    ensures
        title@ == shortened(line@),
{
    let chars = chars_of(line);
    if chars.len() > 200 {
        let mut to: usize = 200;
        assert(chars@.subrange(0, 200) =~= chars@.take(200));
        while to > 0 && is_whitespace(chars[to - 1])
            invariant
                to <= 200 < chars@.len(),
                trimmed_end(chars@.take(200)) == trimmed_end(chars@.subrange(0, to as int)),
            decreases to,
        {
            assert(chars@.subrange(0, to as int).drop_last() =~= chars@.subrange(0, to - 1));
            assert(chars@.subrange(0, to as int).last() == chars@[to - 1]);
            to = to - 1;
        }
        let head = text_of(&chars, 0, to);
        join2(head.as_str(), "…")
    } else {
        line.to_owned()
    }
}

fn is_true(value: Option<&Json>) -> (flag: bool)
    ensures
        flag == (value matches Some(value) && value.model() == JsonView::Bool(true)),
{
    match value {
        Some(Json::Bool(flag)) => *flag,
        _ => false,
    }
}

fn texts_of_parts(parts: &Vec<Json>) -> (items: Option<Vec<String>>)
    ensures
        match items {
            Some(items) => !has_tool_result(list_model(parts@)) && texts(items@) == list_model(
                parts@,
            ).filter_map(part_text()),
            None => has_tool_result(list_model(parts@)),
        },
{
    let ghost all = list_model(parts@);
    let mut items: Vec<String> = Vec::new();
    let mut at: usize = 0;
    while at < parts.len()
        invariant
            at <= parts@.len(),
            all == list_model(parts@),
            forall|i: int|
                0 <= i < at ==> #[trigger] member_text(all[i], "type"@) != Some("tool_result"@),
            texts(items@) == all.take(at as int).filter_map(part_text()),
        decreases parts.len() - at,
    {
        let part = &parts[at];
        assert(all.take(at + 1).drop_last() =~= all.take(at as int));
        assert(all[at as int] == part.model());
        if part.has_str("type", "tool_result") {
            assert(member_text(all[at as int], "type"@) == Some("tool_result"@));
            return None;
        }
        let ghost before = texts(items@);
        if part.has_str("type", "text") {
            if let Some(text) = part.get_str("text") {
                items.push(text.clone());
                assert(texts(items@) =~= before + seq![text@]);
            }
        }
        at = at + 1;
    }
    assert(all.take(at as int) =~= all);
    Some(items)
}

/// The title that a user record gives; the first command is kept for where none does.
pub fn gui_user_record_title(record: &Json, command_fallback: &mut String) -> (title: Option<String>)
    ensures
        record_title(record.model(), old(command_fallback)@) == (
            opt_text(title),
            final(command_fallback)@,
        ),
{
    if !record.has_str("type", "user") {
        return None;
    }
    if is_true(record.get("isMeta")) || is_true(record.get("isCompactSummary")) {
        return None;
    }
    let message = match record.get("message") {
        Some(Json::Null) => return None,
        Some(message) => message,
        None => return None,
    };
    let items = match message.get("content") {
        Some(Json::Text(text)) => {
            let mut items: Vec<String> = Vec::new();
            items.push(text.clone());
            assert(texts(items@) =~= seq![text@]);
            items
        },
        Some(Json::List(parts)) => match texts_of_parts(parts) {
            Some(items) => items,
            None => return None,
        },
        _ => {
            let items: Vec<String> = Vec::new();
            assert(texts(items@) =~= Seq::empty());
            items
        },
    };
    title_of_texts(&items, command_fallback)
}

// ---------------------------------------------------------------------------
// The title chain
// ---------------------------------------------------------------------------

/// The pieces of a text between line feeds, from position `start`, of which the characters
/// before `at` are known to hold none.
pub open spec fn pieces_from(text: Seq<char>, start: int, at: int) -> Seq<Seq<char>>
    decreases text.len() - at,
{
    if at < 0 || at >= text.len() {
        seq![text.subrange(start, text.len() as int)]
    } else if text[at] == '\n' {
        seq![text.subrange(start, at)] + pieces_from(text, at + 1, at + 1)
    } else {
        pieces_from(text, start, at + 1)
    }
}

/// The pieces of a text between line feeds.
pub open spec fn pieces(text: Seq<char>) -> Seq<Seq<char>> {
    pieces_from(text, 0, 0)
}

/// The pieces of a text between line feeds.
pub fn split_newlines(text: &str) -> (items: Vec<String>)
    ensures
        texts(items@) == pieces(text@),
{
    let chars = chars_of(text);
    let mut items: Vec<String> = Vec::new();
    let mut start: usize = 0;
    let mut at: usize = 0;
    assert(texts(items@) + pieces_from(chars@, 0, 0) =~= pieces(text@));
    while at < chars.len()
        invariant
            start <= at <= chars@.len(),
            text@ == chars@,
            texts(items@) + pieces_from(chars@, start as int, at as int) == pieces(text@),
        decreases chars.len() - at,
    {
        if chars[at] == '\n' {
            let piece = text_of(&chars, start, at);
            let ghost before = texts(items@);
            items.push(piece);
            assert(texts(items@) =~= before.push(piece@));
            assert(before.push(piece@) + pieces_from(chars@, at + 1, at + 1) =~= before + (
            seq![piece@] + pieces_from(chars@, at + 1, at + 1)));
            start = at + 1;
        }
        at = at + 1;
    }
    let piece = text_of(&chars, start, chars.len());
    let ghost before = texts(items@);
    items.push(piece);
    assert(texts(items@) =~= before + seq![piece@]);
    items
}

/// Whether a line may hold a user message that gives a title, as far as its text shows.
pub open spec fn may_give_title(line: Seq<char>) -> bool {
    &&& has_part(line, "\"type\":\"user\""@) || has_part(line, "\"type\": \"user\""@)
    &&& !has_part(line, "\"tool_result\""@)
    &&& !has_part(line, "\"isMeta\":true"@) && !has_part(line, "\"isMeta\": true"@)
    &&& !has_part(line, "\"isCompactSummary\":true"@) && !has_part(
        line,
        "\"isCompactSummary\": true"@,
    )
}

/// The title that a line gives, and the command that serves where none does.
pub open spec fn line_title(line: Seq<char>, fallback: Seq<char>) -> (Option<Seq<char>>, Seq<char>) {
    if may_give_title(line) {
        match json_document(line) {
            Some(record) => record_title(record, fallback),
            None => (None, fallback),
        }
    } else {
        (None, fallback)
    }
}

/// The title that the first of these lines to give one gives, and the command that serves
/// where none does.
pub open spec fn lines_title(lines: Seq<Seq<char>>, fallback: Seq<char>) -> (
    Option<Seq<char>>,
    Seq<char>,
)
    decreases lines.len(),
{
    if lines.len() == 0 {
        (None, fallback)
    } else {
        let (title, command) = line_title(lines[0], fallback);
        if title is Some {
            (title, command)
        } else {
            lines_title(lines.drop_first(), command)
        }
    }
}

/// The title that the first part of a session gives: that of its first user message which
/// gives one, or else its first command.
pub open spec fn head_title(head: Seq<char>) -> Option<Seq<char>> {
    let (title, command) = lines_title(pieces(head), Seq::empty());
    if title is Some {
        title
    } else if command.len() > 0 {
        Some(command)
    } else {
        None
    }
}

/// Whether a line may hold a user message that gives a title, as far as its text shows.
pub fn line_may_give_title(line: &str) -> (may: bool)
    ensures
        may == may_give_title(line@),
{
    (contains(line, "\"type\":\"user\"") || contains(line, "\"type\": \"user\"")) && !contains(
        line,
        "\"tool_result\"",
    ) && !contains(line, "\"isMeta\":true") && !contains(line, "\"isMeta\": true") && !contains(
        line,
        "\"isCompactSummary\":true",
    ) && !contains(line, "\"isCompactSummary\": true")
}

/// The title that the first part of a session gives.
pub fn gui_head_title(head: &str) -> (title: Option<String>)
    ensures
        opt_text(title) == head_title(head@),
{
    let items = split_newlines(head);
    let ghost all = texts(items@);
    let mut command = String::new();
    let mut at: usize = 0;
    assert(all.skip(0) =~= all);
    while at < items.len()
        invariant
            at <= items@.len(),
            all == texts(items@),
            all == pieces(head@),
            lines_title(all, Seq::empty()) == lines_title(all.skip(at as int), command@),
        decreases items.len() - at,
    {
        assert(all.skip(at as int)[0] == items@[at as int]@);
        assert(all.skip(at as int).drop_first() =~= all.skip(at + 1));
        if line_may_give_title(items[at].as_str()) {
            if let Some(record) = parse(items[at].as_str()) {
                if let Some(title) = gui_user_record_title(&record, &mut command) {
                    return Some(title);
                }
            }
        }
        at = at + 1;
    }
    if command.as_str().is_empty() {
        None
    } else {
        Some(command)
    }
}

/// The first of two texts that is there.
pub open spec fn first_of(a: Option<Seq<char>>, b: Option<Seq<char>>) -> Option<Seq<char>> {
    if a is Some {
        a
    } else {
        b
    }
}

/// A text that is there and not empty.
pub open spec fn filled(text: Option<Seq<char>>) -> bool {
    text matches Some(text) && text.len() > 0
}

/// The name that a session was given, by its user or else by the assistant, in its last
/// part or else in its first.
pub open spec fn given_name(head: Seq<char>, tail: Seq<char>) -> Option<Seq<char>> {
    first_of(
        first_of(
            first_of(string_field(tail, "customTitle"@), string_field(head, "customTitle"@)),
            string_field(tail, "aiTitle"@),
        ),
        string_field(head, "aiTitle"@),
    )
}

/// The title under which a session is listed: its name, its last prompt, its summary, or
/// what its first user message gives. Without one it is not listed.
pub open spec fn visible_title(head: Seq<char>, tail: Seq<char>) -> Option<Seq<char>> {
    if filled(given_name(head, tail)) {
        given_name(head, tail)
    } else if filled(string_field(tail, "lastPrompt"@)) {
        string_field(tail, "lastPrompt"@)
    } else if filled(string_field(tail, "summary"@)) {
        string_field(tail, "summary"@)
    } else if filled(head_title(head)) {
        head_title(head)
    } else {
        None
    }
}

fn is_filled(text: &Option<String>) -> (full: bool)
    ensures
        full == filled(opt_text(*text)),
{
    match text {
        Some(text) => !text.as_str().is_empty(),
        None => false,
    }
}

/// The title under which a session is listed. A session whose last line gives it a title is
/// listed.
pub fn gui_visible_title(head: &str, tail: &str) -> (title: Option<String>)
    ensures
        opt_text(title) == visible_title(head@, tail@),
        ends_with_title(tail@) ==> title is Some,
{
    proof {
        if ends_with_title(tail@) {
            let (before, id, title) = choose|before: Seq<char>, id: Seq<char>, title: Seq<char>|
                #[trigger] gives_title(tail@, before, id, title);
            lemma_given_title_is_found(tail@, before, id, title);
        }
    }
    let named = match gui_last_string_field(tail, "customTitle") {
        Some(title) => Some(title),
        None => match gui_last_string_field(head, "customTitle") {
            Some(title) => Some(title),
            None => match gui_last_string_field(tail, "aiTitle") {
                Some(title) => Some(title),
                None => gui_last_string_field(head, "aiTitle"),
            },
        },
    };
    if is_filled(&named) {
        return named;
    }
    let prompt = gui_last_string_field(tail, "lastPrompt");
    if is_filled(&prompt) {
        return prompt;
    }
    let summary = gui_last_string_field(tail, "summary");
    if is_filled(&summary) {
        return summary;
    }
    let title = gui_head_title(head);
    if is_filled(&title) {
        title
    } else {
        None
    }
}

/// A title under which a session is listed is not empty.
pub proof fn law_titles_are_not_empty(head: Seq<char>, tail: Seq<char>)
    ensures
        visible_title(head, tail) matches Some(title) ==> title.len() > 0,
{
}

/// A name that a user gave, found in the last part of a session, is its title, whatever
/// else the session holds.
pub proof fn law_given_name_comes_first(head: Seq<char>, tail: Seq<char>)
    requires
        filled(string_field(tail, "customTitle"@)),
    ensures
        visible_title(head, tail) == string_field(tail, "customTitle"@),
{
}

// ---------------------------------------------------------------------------
// What is read of a file
// ---------------------------------------------------------------------------

/// The parts of a session file that are read: the first `head_len` bytes, and all from
/// `tail_start` on.
pub struct GuiWindows {
    pub head_len: u64,
    pub tail_start: u64,
}

/// The parts of a session file of a size that are read: nothing of an empty file, and else at
/// most 65536 bytes at either end.
pub fn gui_read_windows(size: u64) -> (windows: Option<GuiWindows>)
    ensures
        match windows {
            None => size == 0,
            Some(windows) => {
                &&& size > 0
                &&& windows.head_len == if size < 65536 {
                    size
                } else {
                    65536
                }
                &&& windows.tail_start == if size > 65536 {
                    (size - 65536) as u64
                } else {
                    0
                }
            },
        },
{
    if size == 0 {
        return None;
    }
    let head_len: u64 = if size < 65536 {
        size
    } else {
        65536
    };
    let tail_start: u64 = if size > 65536 {
        size - 65536
    } else {
        0
    };
    Some(GuiWindows { head_len, tail_start })
}

/// Which title is shown. A title that the user gave comes first, the later part of the history
/// before the earlier; then one that was made up; then the last request, the summary and the first
/// message.
pub proof fn law_which_title_is_shown(head: Seq<char>, tail: Seq<char>)
    ensures
        ({
            let given = string_field(tail, "customTitle"@);
            let given_before = string_field(head, "customTitle"@);
            let made_up = string_field(tail, "aiTitle"@);
            let made_up_before = string_field(head, "aiTitle"@);
            let asked = string_field(tail, "lastPrompt"@);
            let summary = string_field(tail, "summary"@);
            let shown = visible_title(head, tail);
            let unnamed = given is None && given_before is None && made_up is None && made_up_before
                is None;
            &&& filled(given) ==> shown == given
            &&& given is None && filled(given_before) ==> shown == given_before
            &&& given is None && given_before is None && filled(made_up) ==> shown == made_up
            &&& given is None && given_before is None && made_up is None && filled(made_up_before)
                ==> shown == made_up_before
            &&& unnamed && filled(asked) ==> shown == asked
            &&& unnamed && !filled(asked) && filled(summary) ==> shown == summary
            &&& unnamed && !filled(asked) && !filled(summary) && filled(head_title(head)) ==> shown
                == head_title(head)
            &&& unnamed && !filled(asked) && !filled(summary) && !filled(head_title(head)) ==> shown
                is None
        }),
{
}

/// A message gives no title where it is none of the user, was made up, sums up a history or holds
/// the result of a tool.
pub proof fn law_which_messages_give_a_title(record: JsonView, message: JsonView)
    requires
        member(record, "message"@) == Some(message),
        !(message is Null),
    ensures
        ({
            let parts = member(message, "content"@);
            let result = parts matches Some(JsonView::List(parts)) && exists|i: int|
                0 <= i < parts.len() && #[trigger] member_text(parts[i], "type"@) == Some(
                    "tool_result"@,
                );
            &&& user_texts(record) is None <==> member_text(record, "type"@) != Some("user"@)
                || member(record, "isMeta"@) == Some(JsonView::Bool(true)) || member(
                record,
                "isCompactSummary"@,
            ) == Some(JsonView::Bool(true)) || result
            &&& user_texts(record) is Some ==> (parts matches Some(JsonView::Text(text))
                ==> user_texts(record) == Some(seq![text]))
        }),
{
}

/// A text that gives a title gives itself on one line, without space around it, cut off where it is
/// long. A command gives its name where nothing else does, a line for the shell what was entered.
pub proof fn law_what_a_text_gives(text: Seq<char>)
    ensures
        ({
            let line = trimmed(on_one_line(text));
            let command = between(line, "<command-name>"@, "</command-name>"@);
            let input = between(line, "<bash-input>"@, "</bash-input>"@);
            let plain = line.len() > 0 && command is None && input is None && !title_skipped(line);
            &&& line.len() == 0 ==> title_step(text) is Nothing
            &&& line.len() > 0 && command is Some ==> title_step(text) == TitleStep::Command(
                command->Some_0,
            )
            &&& line.len() > 0 && command is None && input is Some ==> title_step(text)
                == TitleStep::Title("! "@ + trimmed(input->Some_0))
            &&& plain && line.len() <= 200 ==> title_step(text) == TitleStep::Title(line)
            &&& plain ==> (title_step(text) matches TitleStep::Title(title) && title.len() <= 201)
            &&& line.len() > 0 && command is None && input is None && title_skipped(line)
                ==> title_step(text) is Nothing
        }),
{
    reveal_strlit("…");
    assert("…"@.len() == 1);
    let line = trimmed(on_one_line(text));
    if line.len() > 200 {
        lemma_trimmed_end(line.take(200));
    }
}

/// Whether a part of a text stands between two others, with the second nowhere before its end.
pub open spec fn is_between(
    text: Seq<char>,
    open: Seq<char>,
    close: Seq<char>,
    part: Seq<char>,
    at: int,
) -> bool {
    let start = at + open.len();
    &&& occurs_at(text, open, at)
    &&& part == text.subrange(start, start + part.len())
    &&& occurs_at(text, close, start + part.len())
    &&& forall|i: int| 0 <= i < at ==> !#[trigger] occurs_at(text, open, i)
    &&& forall|i: int| start <= i < start + part.len() ==> !#[trigger] occurs_at(text, close, i)
}

/// What is taken out of a text stands there between the first opening mark and the closing mark that
/// follows.
pub proof fn law_what_stands_between_marks(text: Seq<char>, open: Seq<char>, close: Seq<char>)
    ensures
        between(text, open, close) matches Some(part) ==> exists|at: int| #[trigger]
            is_between(text, open, close, part, at),
        between(text, open, close) is None ==> forall|at: int, part: Seq<char>|
            !#[trigger] is_between(text, open, close, part, at),
{
    lemma_find_from(text, open, 0);
    if let Some(at) = find_in(text, open) {
        lemma_find_from(text, close, at + open.len());
        if let Some(part) = between(text, open, close) {
            assert(is_between(text, open, close, part, at));
        } else {
            assert forall|other: int, part: Seq<char>|
                !#[trigger] is_between(text, open, close, part, other) by {
                if is_between(text, open, close, part, other) {
                    assert(other >= at);
                    if at < other {
                        assert(occurs_at(text, open, at));
                    }
                    assert(occurs_at(text, close, at + open.len() + part.len()));
                }
            }
        }
    }
}

/// Which lines are read for a title: those of the user that were neither made up nor sum up a
/// history, and hold no result of a tool, whether or not space follows the colon.
pub proof fn law_which_lines_are_read_for_a_title(line: Seq<char>, fallback: Seq<char>)
    ensures
        ({
            let of_user = has_part(line, "\"type\":\"user\""@) || has_part(
                line,
                "\"type\": \"user\""@,
            );
            let set_aside = has_part(line, "\"tool_result\""@) || has_part(
                line,
                "\"isMeta\":true"@,
            ) || has_part(line, "\"isMeta\": true"@) || has_part(
                line,
                "\"isCompactSummary\":true"@,
            ) || has_part(line, "\"isCompactSummary\": true"@);
            &&& !of_user || set_aside ==> line_title(line, fallback) == (
                None::<Seq<char>>,
                fallback,
            )
            &&& of_user && !set_aside ==> (json_document(line) matches Some(record) ==> line_title(
                line,
                fallback,
            ) == record_title(record, fallback))
        }),
{
}

/// The first text that gives a title gives it; a command that comes before is kept for the case that
/// none does, the first before the later ones.
pub proof fn law_first_title_counts(items: Seq<Seq<char>>, fallback: Seq<char>, k: int)
    requires
        0 <= k < items.len(),
        forall|j: int| 0 <= j < k ==> !(#[trigger] title_step(items[j]) is Title),
    ensures
        title_step(items[k]) matches TitleStep::Title(title) ==> texts_title(items, fallback).0
            == Some(title),
        fallback.len() > 0 ==> texts_title(items, fallback).1 == fallback,
    decreases k,
{
    let rest = items.drop_first();
    let next = match title_step(items[0]) {
        TitleStep::Command(command) => if fallback.len() == 0 {
            command
        } else {
            fallback
        },
        _ => fallback,
    };
    if k > 0 {
        assert(rest[k - 1] == items[k]);
        assert forall|j: int| 0 <= j < k - 1 implies !(#[trigger] title_step(rest[j]) is Title) by {
            assert(rest[j] == items[j + 1]);
        }
        assert(!(title_step(items[0]) is Title));
        law_first_title_counts(rest, next, k - 1);
    }
    if fallback.len() > 0 {
        lemma_fallback_stays(items, fallback);
    }
}

proof fn lemma_fallback_stays(items: Seq<Seq<char>>, fallback: Seq<char>)
    requires
        fallback.len() > 0,
    ensures
        texts_title(items, fallback).1 == fallback,
    decreases items.len(),
{
    if items.len() > 0 {
        lemma_fallback_stays(items.drop_first(), fallback);
    }
}

/// A text is put on one line by a space for each line end; every other character stays in its place.
pub proof fn law_only_line_ends_become_spaces(text: Seq<char>, i: int)
    requires
        0 <= i < text.len(),
    ensures
        on_one_line(text).len() == text.len(),
        text[i] == '\n' ==> on_one_line(text)[i] == ' ',
        text[i] != '\n' ==> on_one_line(text)[i] == text[i],
{
}

} // verus!
