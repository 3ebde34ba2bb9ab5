//! Setting the default waiting time in a project configuration, line by line, so that all
//! other lines stay as they are.

use vstd::prelude::*;

use crate::config::{parse_toml_value, toml_value_reading};
use crate::error::{error_text, AppError, ErrorView};
use crate::project_config::{
    input_issue, is_config_report, is_repairable, issues_view,
    law_repairable_issues_have_a_suggestion, InputView, IssueView, ProjectConfigReport,
};
use crate::seqs::{count_where, lemma_count_where_bound};
use crate::text::{
    begins_with, contains, decimal, decimal_text, ends_with, finishes_with, has_part, is_space,
    join, join2, join3, joined, leading_space, leading_spaces, lines, lines_of, same, starts_with,
    strip_prefix, texts, trim, trim_start, trimmed, trimmed_end, trimmed_start,
};

verus! {

/// Whether a line assigns a value to a key.
pub open spec fn assigns(line: Seq<char>, key: Seq<char>) -> bool {
    let text = trimmed_start(line);
    !begins_with(text, "#"@) && begins_with(text, key) && begins_with(
        trimmed_start(text.skip(key.len() as int)),
        "="@,
    )
}

/// Whether a line assigns a value to a key.
pub fn is_toml_key_assignment(line: &str, key: &str) -> (assigning: bool)
    ensures
        assigning == assigns(line@, key@),
{
    let text = trim_start(line);
    if starts_with(text.as_str(), "#") {
        return false;
    }
    match strip_prefix(text.as_str(), key) {
        Some(rest) => starts_with(trim_start(rest.as_str()).as_str(), "="),
        None => false,
    }
}

/// Whether a line is the header of a section.
pub open spec fn is_section_header(line: Seq<char>, section: Seq<char>) -> bool {
    trimmed(line) == "["@ + section + "]"@
}

/// Whether a line is the header of a table.
pub open spec fn is_header(line: Seq<char>) -> bool {
    begins_with(trimmed_start(line), "["@) && !begins_with(trimmed_start(line), "[["@)
}

/// The first position from `from` up to `to` whose line meets a condition.
pub open spec fn first_line(
    lines: Seq<Seq<char>>,
    from: int,
    to: int,
    holds: spec_fn(Seq<char>) -> bool,
) -> Option<int>
    decreases to - from,
{
    if from >= to {
        None
    } else if holds(lines[from]) {
        Some(from)
    } else {
        first_line(lines, from + 1, to, holds)
    }
}

/// Tells the lines that assign a value to a key.
pub open spec fn assigning(key: Seq<char>) -> spec_fn(Seq<char>) -> bool {
    |line: Seq<char>| assigns(line, key)
}

/// Tells the header of a section.
pub open spec fn section_header(section: Seq<char>) -> spec_fn(Seq<char>) -> bool {
    |line: Seq<char>| is_section_header(line, section)
}

/// Tells the headers of tables.
pub open spec fn header() -> spec_fn(Seq<char>) -> bool {
    |line: Seq<char>| is_header(line)
}

/// A first position is the first one at which the condition holds.
pub proof fn lemma_first_line(
    lines: Seq<Seq<char>>,
    from: int,
    to: int,
    holds: spec_fn(Seq<char>) -> bool,
)
    ensures
        match first_line(lines, from, to, holds) {
            Some(at) => from <= at < to && holds(lines[at]) && (forall|i: int|
                from <= i < at ==> !holds(#[trigger] lines[i])),
            None => forall|i: int| from <= i < to ==> !holds(#[trigger] lines[i]),
        },
    decreases to - from,
{
    if from < to && !holds(lines[from]) {
        lemma_first_line(lines, from + 1, to, holds);
    }
}

/// A section: the position of its header and where it ends.
pub open spec fn section_range(lines: Seq<Seq<char>>, section: Seq<char>) -> Option<(int, int)> {
    match first_line(lines, 0, lines.len() as int, section_header(section)) {
        Some(start) => Some(
            (
                start,
                match first_line(lines, start + 1, lines.len() as int, header()) {
                    Some(end) => end,
                    None => lines.len() as int,
                },
            ),
        ),
        None => None,
    }
}

/// The section of waiting times.
pub open spec fn wait_section(lines: Seq<Seq<char>>) -> Option<(int, int)> {
    section_range(lines, "features.multi_agent_v2"@)
}

/// The line that sets the default waiting time.
pub open spec fn default_line(indent: Seq<char>, value: u64) -> Seq<char> {
    indent + "default_wait_timeout_ms"@ + " = "@ + decimal(value as nat)
}

/// The white space at the start of a line.
pub open spec fn indent_of(line: Seq<char>) -> Seq<char> {
    line.take(leading_spaces(line) as int)
}

/// After which line of a section the default goes where it is missing.
pub open spec fn place_after(lines: Seq<Seq<char>>, start: int, end: int) -> int {
    match first_line(lines, start + 1, end, assigning("min_wait_timeout_ms"@)) {
        Some(at) => at,
        None => match first_line(lines, start + 1, end, assigning("max_wait_timeout_ms"@)) {
            Some(at) => at,
            None => start,
        },
    }
}

/// The lines with the default waiting time set: in the line of the section that sets it
/// now, or in a new line. `None` where there is no such section.
pub open spec fn with_default(lines: Seq<Seq<char>>, value: u64) -> Option<Seq<Seq<char>>> {
    match wait_section(lines) {
        None => None,
        Some((start, end)) => match first_line(
            lines,
            start + 1,
            end,
            assigning("default_wait_timeout_ms"@),
        ) {
            Some(at) => Some(lines.update(at, default_line(indent_of(lines[at]), value))),
            None => Some(
                lines.insert(
                    place_after(lines, start, end) + 1,
                    default_line(Seq::empty(), value),
                ),
            ),
        },
    }
}

/// The line break that a text uses.
pub open spec fn line_break(raw: Seq<char>) -> Seq<char> {
    if has_part(raw, "\r\n"@) {
        "\r\n"@
    } else {
        "\n"@
    }
}

/// The text that lines make, with line breaks and a last one like those of another text.
pub open spec fn text_like(lines: Seq<Seq<char>>, raw: Seq<char>) -> Seq<char> {
    if finishes_with(raw, "\n"@) {
        joined(lines, line_break(raw)) + line_break(raw)
    } else {
        joined(lines, line_break(raw))
    }
}

/// The configuration with the default waiting time set; `None` where it is set already.
/// The text must be proper TOML before and after.
pub open spec fn edited(raw: Seq<char>, value: u64) -> Result<Option<Seq<char>>, ErrorView> {
    match toml_value_reading(raw) {
        Err(error) => Err(ErrorView::Other("config.toml 不是有效 TOML："@ + error)),
        Ok(_) => {
            let lines = lines_of(raw);
            match with_default(lines, value) {
                None => Err(ErrorView::Other("未找到 [features.multi_agent_v2] 配置段"@)),
                Some(next) => if next == lines {
                    Ok(None)
                } else {
                    match toml_value_reading(text_like(next, raw)) {
                        Err(error) => Err(
                            ErrorView::Other("修改后的 config.toml 不是有效 TOML："@ + error),
                        ),
                        Ok(_) => if text_like(next, raw) == raw {
                            Ok(None)
                        } else {
                            Ok(Some(text_like(next, raw)))
                        },
                    }
                },
            }
        },
    }
}

fn find_header(lines: &Vec<String>, section: &str) -> (found: Option<usize>)
    ensures
        match found {
            Some(at) => first_line(
                texts(lines@),
                0,
                lines@.len() as int,
                section_header(section@),
            ) == Some(at as int) && at < lines@.len(),
            None => first_line(
                texts(lines@),
                0,
                lines@.len() as int,
                section_header(section@),
            ) is None,
        },
{
    let ghost all = texts(lines@);
    let wanted: String = join3("[", section, "]");
    let mut at: usize = 0;
    while at < lines.len()
        invariant
            at <= lines@.len(),
            all == texts(lines@),
            wanted@ == "["@ + section@ + "]"@,
            first_line(all, 0, all.len() as int, section_header(section@)) == first_line(
                all,
                at as int,
                all.len() as int,
                section_header(section@),
            ),
        decreases lines.len() - at,
    {
        if same(trim(lines[at].as_str()).as_str(), wanted.as_str()) {
            return Some(at);
        }
        at = at + 1;
    }
    None
}

fn find_end(lines: &Vec<String>, start: usize) -> (end: usize)
    requires
        start < lines@.len(),
    ensures
        start < end <= lines@.len(),
        end == match first_line(texts(lines@), start + 1, lines@.len() as int, header()) {
            Some(end) => end,
            None => lines@.len() as int,
        },
{
    let ghost all = texts(lines@);
    let count: usize = lines.len();
    assert(start < count);
    let mut at: usize = start + 1;
    while at < lines.len()
        invariant
            start < at <= lines@.len(),
            all == texts(lines@),
            first_line(all, start + 1, all.len() as int, header()) == first_line(
                all,
                at as int,
                all.len() as int,
                header(),
            ),
        decreases lines.len() - at,
    {
        let text = trim_start(lines[at].as_str());
        if starts_with(text.as_str(), "[") && !starts_with(text.as_str(), "[[") {
            return at;
        }
        at = at + 1;
    }
    at
}

/// A section: the position of its header and where it ends.
pub fn find_toml_section_range(lines: &Vec<String>, section: &str) -> (range: Option<
    (usize, usize),
>)
    ensures
        match range {
            Some((start, end)) => section_range(texts(lines@), section@) == Some(
                (start as int, end as int),
            ) && start < end <= lines@.len(),
            None => section_range(texts(lines@), section@) is None,
        },
{
    match find_header(lines, section) {
        Some(start) => Some((start, find_end(lines, start))),
        None => None,
    }
}

/// The lesser of an end and the count of lines.
pub open spec fn end_within(end: int, count: int) -> int {
    if end < count {
        end
    } else {
        count
    }
}

/// The first line from `start` up to `end` that assigns a value to a key; the search ends with
/// the last line.
pub fn find_key_line_in_range(lines: &Vec<String>, start: usize, end: usize, key: &str) -> (found:
    Option<usize>)
    ensures
        match found {
            Some(at) => first_line(
                texts(lines@),
                start as int,
                end_within(end as int, lines@.len() as int),
                assigning(key@),
            ) == Some(at as int) && start <= at < end && at < lines@.len(),
            None => first_line(
                texts(lines@),
                start as int,
                end_within(end as int, lines@.len() as int),
                assigning(key@),
            ) is None,
        },
{
    let ghost all = texts(lines@);
    let count: usize = lines.len();
    let stop: usize = if end < count {
        end
    } else {
        count
    };
    let mut at: usize = start;
    while at < stop
        invariant
            start <= at,
            at <= stop || at == start,
            stop == end_within(end as int, lines@.len() as int),
            all == texts(lines@),
            first_line(all, start as int, stop as int, assigning(key@)) == first_line(
                all,
                at as int,
                stop as int,
                assigning(key@),
            ),
        decreases stop - at,
    {
        if is_toml_key_assignment(lines[at].as_str(), key) {
            return Some(at);
        }
        at = at + 1;
    }
    None
}

fn write_default_line(indent: &str, value: u64) -> (line: String)
    ensures
        line@ == default_line(indent@, value),
{
    let mut line = join3(indent, "default_wait_timeout_ms", " = ");
    line.append(decimal_text(value).as_str());
    line
}

/// Sets the default waiting time in the lines of a configuration. Tells whether there is a
/// section for it, and whether anything changed.
pub fn set_default_wait_timeout(lines: &mut Vec<String>, value: u64) -> (changed: Option<bool>)
    ensures
        match with_default(texts(old(lines)@), value) {
            Some(next) => texts(final(lines)@) == next && changed == Some(
                next != texts(old(lines)@),
            ),
            None => changed is None && final(lines)@ == old(lines)@,
        },
{
    let ghost all = texts(lines@);
    let (start, end) = match find_toml_section_range(lines, "features.multi_agent_v2") {
        Some(range) => range,
        None => return None,
    };
    match find_key_line_in_range(lines, start + 1, end, "default_wait_timeout_ms") {
        Some(at) => {
            let indent = leading_space(lines[at].as_str());
            let next = write_default_line(indent.as_str(), value);
            if same(lines[at].as_str(), next.as_str()) {
                assert(all.update(at as int, next@) =~= all);
                return Some(false);
            }
            assert(all[at as int] != next@);
            lines.set(at, next);
            assert(texts(lines@) =~= all.update(at as int, next@));
            assert(texts(lines@)[at as int] != all[at as int]);
            Some(true)
        },
        None => {
            let after = match find_key_line_in_range(
                lines,
                start + 1,
                end,
                "min_wait_timeout_ms",
            ) {
                Some(at) => at,
                None => match find_key_line_in_range(
                    lines,
                    start + 1,
                    end,
                    "max_wait_timeout_ms",
                ) {
                    Some(at) => at,
                    None => start,
                },
            };
            assert(after == place_after(all, start as int, end as int));
            let next = write_default_line("", value);
            proof {
                reveal_strlit("");
                assert(""@ =~= Seq::empty());
            }
            lines.insert(after + 1, next);
            assert(texts(lines@) =~= all.insert(after + 1, next@));
            assert(texts(lines@).len() != all.len());
            Some(true)
        },
    }
}

/// Sets the default waiting time in the text of a configuration: gives the text to write,
/// or `None` where nothing changes.
pub fn upsert_project_default_wait_timeout(raw: &str, value: u64) -> (next: Result<
    Option<String>,
    AppError,
>)
    ensures
        match next {
            Ok(next) => edited(raw@, value) == Ok::<Option<Seq<char>>, ErrorView>(
                crate::text::opt_text(next),
            ),
            Err(error) => edited(raw@, value) == Err::<Option<Seq<char>>, ErrorView>(error@),
        },
{
    if let Err(error) = parse_toml_value(raw) {
        return Err(AppError::Other(join2("config.toml 不是有效 TOML：", error.as_str())));
    }
    let newline = if contains(raw, "\r\n") {
        "\r\n"
    } else {
        "\n"
    };
    let had_final_newline = ends_with(raw, "\n");
    let mut lines = lines(raw);
    match set_default_wait_timeout(&mut lines, value) {
        None => Err(AppError::Other("未找到 [features.multi_agent_v2] 配置段".to_owned())),
        Some(false) => Ok(None),
        Some(true) => {
            let mut next = join(&lines, newline);
            if had_final_newline {
                next.append(newline);
            }
            assert(next@ == text_like(texts(lines@), raw@));
            if let Err(error) = parse_toml_value(next.as_str()) {
                return Err(
                    AppError::Other(join2("修改后的 config.toml 不是有效 TOML：", error.as_str())),
                );
            }
            if same(next.as_str(), raw) {
                Ok(None)
            } else {
                Ok(Some(next))
            }
        },
    }
}

// ---------------------------------------------------------------------------
// Setting the default twice
// ---------------------------------------------------------------------------

spec fn all_space(text: Seq<char>) -> bool {
    forall|i: int| 0 <= i < text.len() ==> is_space(#[trigger] text[i])
}

proof fn lemma_leading_spaces(text: Seq<char>)
    ensures
        leading_spaces(text) <= text.len(),
        all_space(text.take(leading_spaces(text) as int)),
    decreases text.len(),
{
    if text.len() > 0 && is_space(text[0]) {
        let rest = text.drop_first();
        lemma_leading_spaces(rest);
        let head = text.take(leading_spaces(text) as int);
        assert forall|i: int| 0 <= i < head.len() implies is_space(#[trigger] head[i]) by {
            if i > 0 {
                assert(rest.take(leading_spaces(rest) as int)[i - 1] == head[i]);
            }
        }
    }
}

proof fn lemma_indented(indent: Seq<char>, text: Seq<char>)
    requires
        all_space(indent),
        text.len() > 0,
        !is_space(text[0]),
    ensures
        trimmed_start(indent + text) == text,
        leading_spaces(indent + text) == indent.len(),
    decreases indent.len(),
{
    if indent.len() == 0 {
        assert(indent + text =~= text);
    } else {
        let rest = indent.drop_first();
        assert forall|i: int| 0 <= i < rest.len() implies is_space(#[trigger] rest[i]) by {
            assert(rest[i] == indent[i + 1]);
        }
        lemma_indented(rest, text);
        assert((indent + text).drop_first() =~= rest + text);
        assert((indent + text)[0] == indent[0]);
    }
}

proof fn lemma_trimmed_end_prefix(text: Seq<char>)
    ensures
        trimmed_end(text).len() <= text.len(),
        trimmed_end(text) == text.take(trimmed_end(text).len() as int),
    decreases text.len(),
{
    if text.len() > 0 && is_space(text.last()) {
        lemma_trimmed_end_prefix(text.drop_last());
        let end = trimmed_end(text);
        assert(text.drop_last().take(end.len() as int) =~= text.take(end.len() as int));
    } else {
        assert(text.take(text.len() as int) =~= text);
    }
}

proof fn lemma_default_line(indent: Seq<char>, value: u64)
    requires
        all_space(indent),
    ensures
        ({
            let line = default_line(indent, value);
            &&& assigns(line, "default_wait_timeout_ms"@)
            &&& !is_header(line)
            &&& !is_section_header(line, "features.multi_agent_v2"@)
            &&& indent_of(line) == indent
        }),
{
    reveal_strlit("default_wait_timeout_ms");
    reveal_strlit(" = ");
    reveal_strlit("=");
    reveal_strlit("#");
    reveal_strlit("[");
    let key = "default_wait_timeout_ms"@;
    let digits = decimal(value as nat);
    let text = key + " = "@ + digits;
    let line = default_line(indent, value);
    assert(line =~= indent + text);
    assert(text[0] == 'd');
    lemma_indented(indent, text);
    assert(text.subrange(0, key.len() as int) =~= key);
    assert(begins_with(text, key));
    let rest = text.skip(key.len() as int);
    assert(rest =~= " = "@ + digits);
    let after = "= "@ + digits;
    reveal_strlit("= ");
    assert(rest.drop_first() =~= after);
    assert(rest[0] == ' ');
    assert(after[0] == '=');
    assert(trimmed_start(after) == after);
    assert(trimmed_start(rest) == after);
    assert(after.subrange(0, 1) =~= "="@);
    assert(begins_with(after, "="@));
    assert(!begins_with(text, "#"@)) by {
        assert("#"@[0] == '#');
        if begins_with(text, "#"@) {
            assert(text.subrange(0, 1)[0] == text[0]);
        }
    }
    assert(!begins_with(text, "["@)) by {
        assert("["@[0] == '[');
        if begins_with(text, "["@) {
            assert(text.subrange(0, 1)[0] == text[0]);
        }
    }
    lemma_trimmed_end_prefix(text);
    assert(!is_section_header(line, "features.multi_agent_v2"@)) by {
        if is_section_header(line, "features.multi_agent_v2"@) {
            let wanted = "["@ + "features.multi_agent_v2"@ + "]"@;
            assert(wanted[0] == '[');
            assert(trimmed_end(text) == wanted);
            assert(text.take(wanted.len() as int)[0] == text[0]);
        }
    }
    assert(line.take(indent.len() as int) =~= indent);
}

proof fn lemma_first_line_is(
    lines: Seq<Seq<char>>,
    from: int,
    to: int,
    holds: spec_fn(Seq<char>) -> bool,
    at: int,
)
    requires
        from <= at < to,
        holds(lines[at]),
        forall|i: int| from <= i < at ==> !holds(#[trigger] lines[i]),
    ensures
        first_line(lines, from, to, holds) == Some(at),
{
    lemma_first_line(lines, from, to, holds);
}

proof fn lemma_first_line_none(
    lines: Seq<Seq<char>>,
    from: int,
    to: int,
    holds: spec_fn(Seq<char>) -> bool,
)
    requires
        forall|i: int| from <= i < to ==> !holds(#[trigger] lines[i]),
    ensures
        first_line(lines, from, to, holds) is None,
{
    lemma_first_line(lines, from, to, holds);
}

/// Setting the default waiting time to the same value a second time changes nothing.
pub proof fn law_setting_the_default_is_stable(lines: Seq<Seq<char>>, value: u64)
    ensures
        with_default(lines, value) matches Some(next) ==> with_default(next, value) == Some(next),
{
    if let Some((start, end)) = wait_section(lines) {
        let count = lines.len() as int;
        let key = assigning("default_wait_timeout_ms"@);
        lemma_first_line(lines, 0, count, section_header("features.multi_agent_v2"@));
        lemma_first_line(lines, start + 1, count, header());
        lemma_first_line(lines, start + 1, end, key);
        match first_line(lines, start + 1, end, key) {
            Some(at) => {
                let indent = indent_of(lines[at]);
                lemma_leading_spaces(lines[at]);
                lemma_default_line(indent, value);
                let line = default_line(indent, value);
                let next = lines.update(at, line);
                assert forall|i: int| 0 <= i < start implies !section_header("features.multi_agent_v2"@)(#[trigger] next[i]) by {
                    assert(!section_header("features.multi_agent_v2"@)(lines[i]));
                }
                lemma_first_line_is(next, 0, count, section_header("features.multi_agent_v2"@), start);
                assert forall|i: int| start + 1 <= i < end implies !header()(
                    #[trigger] next[i],
                ) by {
                    assert(!header()(lines[i]));
                }
                if end < count {
                    lemma_first_line_is(next, start + 1, count, header(), end);
                } else {
                    lemma_first_line_none(next, start + 1, count, header());
                }
                assert(wait_section(next) == Some((start, end)));
                assert forall|i: int| start + 1 <= i < at implies !key(#[trigger] next[i]) by {
                    assert(!key(lines[i]));
                }
                lemma_first_line_is(next, start + 1, end, key, at);
                assert(next.update(at, line) =~= next);
            },
            None => {
                let after = place_after(lines, start, end);
                lemma_first_line(lines, start + 1, end, assigning("min_wait_timeout_ms"@));
                lemma_first_line(lines, start + 1, end, assigning("max_wait_timeout_ms"@));
                assert(start <= after < end);
                let at = after + 1;
                let nothing = Seq::<char>::empty();
                lemma_default_line(nothing, value);
                let line = default_line(nothing, value);
                let next = lines.insert(at, line);
                assert forall|i: int| 0 <= i < at implies #[trigger] next[i] == lines[i] by {}
                assert forall|i: int| at < i <= count implies #[trigger] next[i]
                    == lines[i - 1] by {}
                assert(next[at] == line);
                assert forall|i: int| 0 <= i < start implies !section_header("features.multi_agent_v2"@)(#[trigger] next[i]) by {
                    assert(!section_header("features.multi_agent_v2"@)(lines[i]));
                }
                lemma_first_line_is(next, 0, count + 1, section_header("features.multi_agent_v2"@), start);
                assert forall|i: int| start + 1 <= i < end + 1 implies !header()(
                    #[trigger] next[i],
                ) by {
                    if i < at {
                        assert(!header()(lines[i]));
                    } else if i > at {
                        assert(!header()(lines[i - 1]));
                    }
                }
                if end < count {
                    assert(next[end + 1] == lines[end]);
                    lemma_first_line_is(next, start + 1, count + 1, header(), end + 1);
                } else {
                    lemma_first_line_none(next, start + 1, count + 1, header());
                }
                assert(wait_section(next) == Some((start, end + 1)));
                assert forall|i: int| start + 1 <= i < at implies !key(#[trigger] next[i]) by {
                    assert(!key(lines[i]));
                }
                lemma_first_line_is(next, start + 1, end + 1, key, at);
                assert(next.update(at, line) =~= next);
            },
        }
    }
}

// ---------------------------------------------------------------------------
// Repairing all projects
// ---------------------------------------------------------------------------

/// A project configuration that was repaired, or would be.
pub struct ProjectConfigRepairItem {
    pub project_cwd: String,
    pub config_path: String,
    pub changed: bool,
    pub dry_run: bool,
    pub old_default_wait_timeout_ms: Option<u64>,
    pub new_default_wait_timeout_ms: u64,
}

/// What a [`ProjectConfigRepairItem`] holds.
#[verifier::ext_equal]
pub struct RepairItemView {
    pub project_cwd: Seq<char>,
    pub config_path: Seq<char>,
    pub changed: bool,
    pub dry_run: bool,
    pub old: Option<u64>,
    pub new: u64,
}

impl View for ProjectConfigRepairItem {
    type V = RepairItemView;

    open spec fn view(&self) -> RepairItemView {
        RepairItemView {
            project_cwd: self.project_cwd@,
            config_path: self.config_path@,
            changed: self.changed,
            dry_run: self.dry_run,
            old: self.old_default_wait_timeout_ms,
            new: self.new_default_wait_timeout_ms,
        }
    }
}

/// What a list of repaired configurations holds.
pub open spec fn items_view(items: Seq<ProjectConfigRepairItem>) -> Seq<RepairItemView> {
    items.map_values(|item: ProjectConfigRepairItem| item@)
}

/// What became of all project configurations.
pub struct ProjectConfigRepairReport {
    pub scanned_projects: u32,
    pub config_files: u32,
    pub issue_count: u32,
    pub repaired_count: u32,
    pub dry_run: bool,
    pub items: Vec<ProjectConfigRepairItem>,
    pub errors: Vec<String>,
}

/// What an outcome of writing holds.
pub open spec fn outcomes_view(outcomes: Seq<Result<bool, AppError>>) -> Seq<
    Result<bool, ErrorView>,
> {
    outcomes.map_values(|outcome: Result<bool, AppError>| crate::error::bool_outcome(outcome))
}

/// Whether repairing an issue changes its file, given what writing gave. On a dry run
/// nothing is written, and it would change where the default is another.
pub open spec fn repair_changes(
    issue: IssueView,
    next: u64,
    written: Result<bool, ErrorView>,
    dry_run: bool,
) -> Result<bool, ErrorView> {
    if dry_run {
        Ok(issue.default != Some(next))
    } else {
        written
    }
}

/// What becomes of an issue: a repaired configuration, a message, or nothing where it
/// cannot be repaired.
pub open spec fn repair_of(
    issue: IssueView,
    written: Result<bool, ErrorView>,
    dry_run: bool,
) -> Option<Result<RepairItemView, Seq<char>>> {
    if !issue.repairable {
        None
    } else {
        match issue.suggested {
            None => Some(
                Err(
                    issue.config_path + ": repairable=true 但缺少建议 default_wait_timeout_ms"@,
                ),
            ),
            Some(next) => match repair_changes(issue, next, written, dry_run) {
                Ok(changed) => Some(
                    Ok(
                        RepairItemView {
                            project_cwd: issue.project_cwd,
                            config_path: issue.config_path,
                            changed,
                            dry_run,
                            old: issue.default,
                            new: next,
                        },
                    ),
                ),
                Err(error) => Some(Err(issue.config_path + ": "@ + error_text(error))),
            },
        }
    }
}

/// The repaired configurations among the first issues, in order.
pub open spec fn repaired_items(
    issues: Seq<IssueView>,
    written: Seq<Result<bool, ErrorView>>,
    dry_run: bool,
    count: int,
) -> Seq<RepairItemView>
    decreases count,
{
    if count <= 0 {
        Seq::empty()
    } else {
        let rest = repaired_items(issues, written, dry_run, count - 1);
        match repair_of(issues[count - 1], written[count - 1], dry_run) {
            Some(Ok(item)) => rest.push(item),
            _ => rest,
        }
    }
}

/// The messages on the first issues, in order.
pub open spec fn repair_errors(
    issues: Seq<IssueView>,
    written: Seq<Result<bool, ErrorView>>,
    dry_run: bool,
    count: int,
) -> Seq<Seq<char>>
    decreases count,
{
    if count <= 0 {
        Seq::empty()
    } else {
        let rest = repair_errors(issues, written, dry_run, count - 1);
        match repair_of(issues[count - 1], written[count - 1], dry_run) {
            Some(Err(message)) => rest.push(message),
            _ => rest,
        }
    }
}

/// Tells the configurations that changed.
pub open spec fn has_changed() -> spec_fn(RepairItemView) -> bool {
    |item: RepairItemView| item.changed
}

/// Whether a report tells what became of the issues of another report.
pub open spec fn is_repair_report(
    repair: ProjectConfigRepairReport,
    report: ProjectConfigReport,
    written: Seq<Result<bool, ErrorView>>,
    dry_run: bool,
) -> bool {
    let issues = issues_view(report.issues@);
    let count = issues.len() as int;
    let items = repaired_items(issues, written, dry_run, count);
    &&& repair.scanned_projects == report.scanned_projects
    &&& repair.config_files == report.config_files
    &&& repair.issue_count == report.issue_count
    &&& repair.dry_run == dry_run
    &&& items_view(repair.items@) == items
    &&& texts(repair.errors@) == repair_errors(issues, written, dry_run, count)
    &&& repair.repaired_count == count_where(items, has_changed()) as u32
}

fn count_changed(items: &Vec<ProjectConfigRepairItem>) -> (count: usize)
    ensures
        count == count_where(items_view(items@), has_changed()),
{
    let ghost all = items_view(items@);
    let mut count: usize = 0;
    let mut at: usize = 0;
    while at < items.len()
        invariant
            at <= items@.len(),
            count <= at,
            all == items_view(items@),
            count == count_where(all.take(at as int), has_changed()),
        decreases items.len() - at,
    {
        assert(all.take(at + 1).drop_last() =~= all.take(at as int));
        assert(all.take(at + 1).last() == items@[at as int]@);
        if items[at].changed {
            count = count + 1;
        }
        at = at + 1;
    }
    assert(all.take(at as int) =~= all);
    count
}

/// The value that each issue of a report has its configuration set to, in their order: the
/// proposed one where it can be repaired, and none elsewhere. On a dry run no configuration
/// is written.
pub fn config_edits(report: &ProjectConfigReport, dry_run: bool) -> (edits: Vec<Option<u64>>)
    ensures
        edits@.len() == report.issues@.len(),
        forall|i: int|
            0 <= i < edits@.len() ==> #[trigger] edits@[i] == (if !dry_run
                && report.issues@[i].repairable {
                report.issues@[i].suggested_default_wait_timeout_ms
            } else {
                None
            }),
{
    let mut edits: Vec<Option<u64>> = Vec::new();
    let mut at: usize = 0;
    while at < report.issues.len()
        invariant
            at <= report.issues@.len(),
            edits@.len() == at,
            forall|i: int|
                0 <= i < at ==> #[trigger] edits@[i] == (if !dry_run && report.issues@[i].repairable {
                    report.issues@[i].suggested_default_wait_timeout_ms
                } else {
                    None
                }),
        decreases report.issues.len() - at,
    {
        let edit = if !dry_run && report.issues[at].repairable {
            report.issues[at].suggested_default_wait_timeout_ms
        } else {
            None
        };
        edits.push(edit);
        at = at + 1;
    }
    edits
}

/// Tells what became of the issues of a report. `written` is what editing and writing each
/// configuration gave, in the order of the issues; only those of issues that can be
/// repaired are looked at, and on a dry run none.
pub fn repair_project_configs(
    report: &ProjectConfigReport,
    written: &Vec<Result<bool, AppError>>,
    dry_run: bool,
) -> (repair: ProjectConfigRepairReport)
    requires
        dry_run || written@.len() == report.issues@.len(),
    ensures
        is_repair_report(repair, *report, outcomes_view(written@), dry_run),
{
    let ghost issues = issues_view(report.issues@);
    let ghost outcomes = outcomes_view(written@);
    let mut items: Vec<ProjectConfigRepairItem> = Vec::new();
    let mut errors: Vec<String> = Vec::new();
    assert(items_view(items@) =~= Seq::empty());
    assert(texts(errors@) =~= Seq::empty());
    let mut at: usize = 0;
    while at < report.issues.len()
        invariant
            at <= report.issues@.len(),
            dry_run || written@.len() == report.issues@.len(),
            issues == issues_view(report.issues@),
            outcomes == outcomes_view(written@),
            items_view(items@) == repaired_items(issues, outcomes, dry_run, at as int),
            texts(errors@) == repair_errors(issues, outcomes, dry_run, at as int),
        decreases report.issues.len() - at,
    {
        let issue = &report.issues[at];
        assert(issues[at as int] == issue@);
        let ghost items_before = items_view(items@);
        let ghost errors_before = texts(errors@);
        if issue.repairable {
            match issue.suggested_default_wait_timeout_ms {
                None => {
                    let message = join2(
                        issue.config_path.as_str(),
                        ": repairable=true 但缺少建议 default_wait_timeout_ms",
                    );
                    errors.push(message);
                    assert(texts(errors@) =~= errors_before.push(message@));
                },
                Some(next) => {
                    let changed: Result<bool, AppError> = if dry_run {
                        Ok(
                            match issue.current_default_wait_timeout_ms {
                                Some(current) => current != next,
                                None => true,
                            },
                        )
                    } else {
                        assert(outcomes[at as int] == crate::error::bool_outcome(
                            written@[at as int],
                        ));
                        match &written[at] {
                            Ok(changed) => Ok(*changed),
                            Err(error) => Err(error.copy()),
                        }
                    };
                    match changed {
                        Ok(changed) => {
                            let item = ProjectConfigRepairItem {
                                project_cwd: issue.project_cwd.clone(),
                                config_path: issue.config_path.clone(),
                                changed,
                                dry_run,
                                old_default_wait_timeout_ms: issue.current_default_wait_timeout_ms,
                                new_default_wait_timeout_ms: next,
                            };
                            items.push(item);
                            assert(items_view(items@) =~= items_before.push(item@));
                        },
                        Err(error) => {
                            let message = join3(
                                issue.config_path.as_str(),
                                ": ",
                                error.message().as_str(),
                            );
                            errors.push(message);
                            assert(texts(errors@) =~= errors_before.push(message@));
                        },
                    }
                },
            }
        }
        at = at + 1;
    }
    let repaired = count_changed(&items);
    ProjectConfigRepairReport {
        scanned_projects: report.scanned_projects,
        config_files: report.config_files,
        issue_count: report.issue_count,
        repaired_count: repaired as u32,
        dry_run,
        items,
        errors,
    }
}

/// Every issue that can be repaired becomes a repaired configuration or a message, and no
/// other issue becomes either. Where all of them have a proposed default, a dry run gives no
/// message.
pub proof fn law_repairs_account_for_issues(
    issues: Seq<IssueView>,
    written: Seq<Result<bool, ErrorView>>,
    dry_run: bool,
    count: int,
)
    requires
        0 <= count <= issues.len(),
    ensures
        repaired_items(issues, written, dry_run, count).len() + repair_errors(
            issues,
            written,
            dry_run,
            count,
        ).len() == count_where(issues.take(count), is_repairable()),
        dry_run && (forall|i: int|
            0 <= i < issues.len() && (#[trigger] issues[i]).repairable ==> issues[i].suggested
                is Some) ==> repair_errors(issues, written, dry_run, count).len() == 0,
    decreases count,
{
    if count > 0 {
        law_repairs_account_for_issues(issues, written, dry_run, count - 1);
        assert(issues.take(count).drop_last() =~= issues.take(count - 1));
        assert(issues.take(count).last() == issues[count - 1]);
    } else {
        assert(issues.take(count) =~= Seq::empty());
    }
}

/// Every repaired configuration is that of an issue that can be repaired, with its proposed
/// default as the new value and its present one as the old.
pub proof fn law_repairs_set_the_proposal(
    issues: Seq<IssueView>,
    written: Seq<Result<bool, ErrorView>>,
    dry_run: bool,
    count: int,
    k: int,
)
    requires
        0 <= count <= issues.len(),
        0 <= k < repaired_items(issues, written, dry_run, count).len(),
    ensures
        exists|i: int|
            {
                let item = repaired_items(issues, written, dry_run, count)[k];
                &&& 0 <= i < count
                &&& (#[trigger] issues[i]).repairable
                &&& issues[i].suggested == Some(item.new)
                &&& issues[i].default == item.old
                &&& issues[i].config_path == item.config_path
            },
    decreases count,
{
    if count > 0 {
        let rest = repaired_items(issues, written, dry_run, count - 1);
        if k < rest.len() {
            law_repairs_set_the_proposal(issues, written, dry_run, count - 1, k);
            assert(repaired_items(issues, written, dry_run, count)[k] == rest[k]);
        } else {
            assert(issues[count - 1].repairable);
        }
    }
}

proof fn lemma_issues_are_countable(inputs: Seq<InputView>)
    ensures
        inputs.filter_map(input_issue()).len() <= inputs.len(),
        forall|i: int|
            0 <= i < inputs.filter_map(input_issue()).len() && (#[trigger] inputs.filter_map(
                input_issue(),
            )[i]).repairable ==> inputs.filter_map(input_issue())[i].suggested is Some,
    decreases inputs.len(),
{
    if inputs.len() > 0 {
        let rest = inputs.drop_last();
        lemma_issues_are_countable(rest);
        law_repairable_issues_have_a_suggestion(inputs.last());
        let before = rest.filter_map(input_issue());
        let all = inputs.filter_map(input_issue());
        assert forall|i: int| 0 <= i < all.len() && (#[trigger] all[i]).repairable implies all[i]
            .suggested is Some by {
            if i < before.len() {
                assert(all[i] == before[i]);
            }
        }
    }
}

/// A repair reports on each configuration that its diagnosis found repairable, as repaired or with
/// a message, and counts those that changed. A dry run gives no message. There are no more
/// configurations than can be counted.
pub proof fn law_repair_answers_the_diagnosis(
    report: ProjectConfigReport,
    scanned_projects: u32,
    inputs: Seq<InputView>,
    repair: ProjectConfigRepairReport,
    written: Seq<Result<bool, ErrorView>>,
    dry_run: bool,
)
    requires
        is_config_report(report, scanned_projects, inputs),
        is_repair_report(repair, report, written, dry_run),
        inputs.len() <= u32::MAX,
    ensures
        repair.items@.len() + repair.errors@.len() == report.repairable_count,
        repair.repaired_count == count_where(items_view(repair.items@), has_changed()),
        dry_run ==> repair.errors@.len() == 0,
{
    let issues = issues_view(report.issues@);
    let count = issues.len() as int;
    lemma_issues_are_countable(inputs);
    law_repairs_account_for_issues(issues, written, dry_run, count);
    assert(issues.take(count) =~= issues);
    lemma_count_where_bound(issues, is_repairable());
    lemma_count_where_bound(items_view(repair.items@), has_changed());
    assert(items_view(repair.items@).len() == repair.items@.len());
    assert(texts(repair.errors@).len() == repair.errors@.len());
}

/// Whether a section lies between two places: its heading is the first of that name, and no other
/// heading follows before its end.
pub open spec fn is_section(
    lines: Seq<Seq<char>>,
    section: Seq<char>,
    start: int,
    end: int,
) -> bool {
    &&& 0 <= start < end <= lines.len()
    &&& trimmed(lines[start]) == "["@ + section + "]"@
    &&& forall|i: int| 0 <= i < start ==> trimmed(#[trigger] lines[i]) != "["@ + section + "]"@
    &&& forall|i: int| start < i < end ==> !is_header(#[trigger] lines[i])
    &&& end < lines.len() ==> is_header(lines[end])
}

/// A section goes from its heading to the next one, or to the end.
pub proof fn law_where_a_section_lies(
    lines: Seq<Seq<char>>,
    section: Seq<char>,
    start: int,
    end: int,
)
    ensures
        section_range(lines, section) == Some((start, end)) <==> is_section(
            lines,
            section,
            start,
            end,
        ),
{
    let count = lines.len() as int;
    lemma_first_line(lines, 0, count, section_header(section));
    if let Some(first) = first_line(lines, 0, count, section_header(section)) {
        lemma_first_line(lines, first + 1, count, header());
        if is_section(lines, section, start, end) {
            assert(section_header(section)(lines[start]));
            assert(trimmed(lines[first]) == "["@ + section + "]"@);
            assert(first == start) by {
                if start < first {
                    assert(!section_header(section)(lines[start]));
                } else if first < start {
                    assert(trimmed(lines[first]) != "["@ + section + "]"@);
                }
            }
            match first_line(lines, first + 1, count, header()) {
                Some(next) => {
                    assert(header()(lines[next]));
                    if next < end {
                        assert(!is_header(lines[next]));
                    } else if end < next {
                        assert(!header()(lines[end]));
                    }
                },
                None => {
                    if end < count {
                        assert(!header()(lines[end]));
                    }
                },
            }
        }
        if section_range(lines, section) == Some((start, end)) {
            assert forall|i: int| 0 <= i < start implies trimmed(#[trigger] lines[i]) != "["@
                + section + "]"@ by {
                assert(!section_header(section)(lines[i]));
            }
            assert forall|i: int| start < i < end implies !is_header(#[trigger] lines[i]) by {
                assert(!header()(lines[i]));
            }
        }
    } else if is_section(lines, section, start, end) {
        assert(!section_header(section)(lines[start]));
    }
}

/// Whether a default is set in its place: an entry that is there gets the value and keeps its indent,
/// and where there is none a line is added within the section.
pub open spec fn sets_default(
    lines: Seq<Seq<char>>,
    next: Seq<Seq<char>>,
    value: u64,
    start: int,
    end: int,
    at: int,
) -> bool {
    let entry = "default_wait_timeout_ms"@ + " = "@ + decimal(value as nat);
    &&& is_section(lines, "features.multi_agent_v2"@, start, end)
    &&& start < at <= end
    &&& if next.len() == lines.len() {
        &&& at < end
        &&& assigns(lines[at], "default_wait_timeout_ms"@)
        &&& next == lines.update(at, next[at])
        &&& next[at] =~= lines[at].take(leading_spaces(lines[at]) as int) + entry
    } else {
        &&& next == lines.insert(at, entry)
        &&& forall|i: int|
            start < i < end ==> !assigns(#[trigger] lines[i], "default_wait_timeout_ms"@)
    }
}

/// Setting the default changes or adds one line of its section and no other. Only where there is no
/// such section nothing can be set.
pub proof fn law_one_line_is_set(lines: Seq<Seq<char>>, value: u64)
    ensures
        with_default(lines, value) matches Some(next) ==> exists|start: int, end: int, at: int|
            #[trigger] sets_default(lines, next, value, start, end, at),
        with_default(lines, value) is None ==> forall|start: int, end: int|
            !#[trigger] is_section(lines, "features.multi_agent_v2"@, start, end),
{
    let section = "features.multi_agent_v2"@;
    if let Some((start, end)) = wait_section(lines) {
        law_where_a_section_lies(lines, section, start, end);
        let key = assigning("default_wait_timeout_ms"@);
        lemma_first_line(lines, start + 1, end, key);
        lemma_first_line(lines, start + 1, end, assigning("min_wait_timeout_ms"@));
        lemma_first_line(lines, start + 1, end, assigning("max_wait_timeout_ms"@));
        let next = with_default(lines, value)->Some_0;
        match first_line(lines, start + 1, end, key) {
            Some(at) => {
                assert(key(lines[at]));
                let line = default_line(indent_of(lines[at]), value);
                assert(next[at] == line);
                assert(line =~= indent_of(lines[at]) + ("default_wait_timeout_ms"@ + " = "@
                    + decimal(value as nat)));
                assert(sets_default(lines, next, value, start, end, at));
            },
            None => {
                let at = place_after(lines, start, end) + 1;
                let entry = "default_wait_timeout_ms"@ + " = "@ + decimal(value as nat);
                assert(default_line(Seq::empty(), value) =~= entry);
                assert forall|i: int| start < i < end implies !assigns(
                    #[trigger] lines[i],
                    "default_wait_timeout_ms"@,
                ) by {
                    assert(!key(lines[i]));
                }
                assert(next.len() == lines.len() + 1);
                assert(sets_default(lines, next, value, start, end, at));
            },
        }
    } else {
        assert forall|start: int, end: int| !#[trigger] is_section(lines, section, start, end) by {
            law_where_a_section_lies(lines, section, start, end);
        }
    }
}

/// A line assigns a key where the key stands first and an equals sign follows, with or without white
/// space before each; a comment assigns nothing.
pub proof fn law_which_lines_assign(
    indent: Seq<char>,
    key: Seq<char>,
    gap: Seq<char>,
    value: Seq<char>,
)
    requires
        key.len() > 0,
        !is_space(key[0]),
        key[0] != '#',
        forall|i: int| 0 <= i < indent.len() ==> is_space(#[trigger] indent[i]),
        forall|i: int| 0 <= i < gap.len() ==> is_space(#[trigger] gap[i]),
    ensures
        assigns(indent + (key + (gap + ("="@ + value))), key),
        !assigns(indent + ("#"@ + (key + (gap + ("="@ + value)))), key),
{
    reveal_strlit("=");
    reveal_strlit("#");
    assert("="@ =~= seq!['='] && "#"@ =~= seq!['#']);
    let end = "="@ + value;
    let text = key + (gap + end);
    assert(text[0] == key[0]);
    lemma_indented(indent, text);
    assert(text.subrange(0, key.len() as int) =~= key);
    assert(text.skip(key.len() as int) =~= gap + end);
    assert(end[0] == '=');
    lemma_indented(gap, end);
    assert(end.subrange(0, 1) =~= "="@);
    if begins_with(text, "#"@) {
        assert(text.subrange(0, 1)[0] == '#');
    }
    let comment = "#"@ + text;
    assert(comment[0] == '#');
    lemma_indented(indent, comment);
    assert(comment.subrange(0, 1) =~= "#"@);
}

/// A text that was edited has line ends as it had before, and a last one just where it had it.
pub proof fn law_line_ends_are_kept(lines: Seq<Seq<char>>, raw: Seq<char>)
    ensures
        has_part(raw, "\r\n"@) && finishes_with(raw, "\n"@) ==> text_like(lines, raw) == joined(
            lines,
            "\r\n"@,
        ) + "\r\n"@,
        has_part(raw, "\r\n"@) && !finishes_with(raw, "\n"@) ==> text_like(lines, raw) == joined(
            lines,
            "\r\n"@,
        ),
        !has_part(raw, "\r\n"@) && finishes_with(raw, "\n"@) ==> text_like(lines, raw) == joined(
            lines,
            "\n"@,
        ) + "\n"@,
        !has_part(raw, "\r\n"@) && !finishes_with(raw, "\n"@) ==> text_like(lines, raw) == joined(
            lines,
            "\n"@,
        ),
{
}

/// What becomes of an issue: one that cannot be repaired is passed over; one that can gets its
/// suggestion. Whether that changes the file is what writing it told, and in a rehearsal whether the
/// value is another.
pub proof fn law_what_a_repair_tells(
    issue: IssueView,
    next: u64,
    written: Result<bool, ErrorView>,
    dry_run: bool,
)
    ensures
        !issue.repairable ==> repair_of(issue, written, dry_run) is None,
        issue.repairable && issue.suggested is None ==> (repair_of(issue, written, dry_run)
            matches Some(Err(_))),
        issue.repairable && issue.suggested == Some(next) && (dry_run || written is Ok) ==> (
        repair_of(issue, written, dry_run) matches Some(Ok(item)) && {
            &&& item.project_cwd == issue.project_cwd
            &&& item.config_path == issue.config_path
            &&& item.old == issue.default
            &&& item.new == next
            &&& item.dry_run == dry_run
            &&& dry_run ==> item.changed == (issue.default != Some(next))
            &&& !dry_run ==> Ok::<bool, ErrorView>(item.changed) == written
        }),
        issue.repairable && issue.suggested == Some(next) && !dry_run && written is Err ==> (
        repair_of(issue, written, dry_run) matches Some(Err(_))),
{
}

} // verus!
