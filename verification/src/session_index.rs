//! The session index: one JSON line for each session.

use vstd::prelude::*;

use crate::error::{AppError, ErrorView};
use crate::json::{
    json_document, json_reading, lemma_texts_read_back, json_text, member, member_text, parse, parse_or_explain, reads_back, render, Json, JsonView,
};
use crate::rollout::{line_value, read_line_value};
use crate::seqs::count_where;
use crate::sorted::{ascending, insert_text, lemma_with_text, with_text};
use crate::text::{decimal, decimal_text, is_blank, join3, join4, texts, trim, trimmed};

verus! {

/// Whether a value is the entry of a session.
pub open spec fn value_names(value: JsonView, id: Seq<char>) -> bool {
    member_text(value, "id"@) == Some(id) || member_text(value, "session_id"@) == Some(id)
}

/// Whether a line is the entry of a session.
pub open spec fn line_names(line: Seq<char>, id: Seq<char>) -> bool {
    json_document(line) matches Some(value) && value_names(value, id)
}

/// Tells the lines that are entries of a session.
pub open spec fn naming(id: Seq<char>) -> spec_fn(Seq<char>) -> bool {
    |line: Seq<char>| line_names(line, id)
}

/// Whether a line is neither blank nor the entry of a session.
pub open spec fn stays(line: Seq<char>, id: Seq<char>) -> bool {
    trimmed(line).len() > 0 && !line_names(line, id)
}

/// The lines that are neither blank nor entries of a session, in order.
pub open spec fn other_lines(lines: Seq<Seq<char>>, id: Seq<char>) -> Seq<Seq<char>>
    decreases lines.len(),
{
    if lines.len() == 0 {
        Seq::empty()
    } else if stays(lines.last(), id) {
        other_lines(lines.drop_last(), id).push(lines.last())
    } else {
        other_lines(lines.drop_last(), id)
    }
}

/// Whether any line is an entry of a session.
pub open spec fn any_names(lines: Seq<Seq<char>>, id: Seq<char>) -> bool {
    exists|i: int| 0 <= i < lines.len() && line_names(#[trigger] lines[i], id)
}

/// The lines with the first entry of a session replaced, its other entries and blank
/// lines dropped.
pub open spec fn replaced(
    lines: Seq<Seq<char>>,
    id: Seq<char>,
    entry: Seq<char>,
) -> Seq<Seq<char>>
    decreases lines.len(),
{
    if lines.len() == 0 {
        Seq::empty()
    } else {
        let before = replaced(lines.drop_last(), id, entry);
        if line_names(lines.last(), id) {
            if any_names(lines.drop_last(), id) {
                before
            } else {
                before.push(entry)
            }
        } else if trimmed(lines.last()).len() > 0 {
            before.push(lines.last())
        } else {
            before
        }
    }
}

/// The index after the entry of a session was written: in the place of its first
/// entry, or at the end where it had none.
pub open spec fn with_entry(
    lines: Seq<Seq<char>>,
    id: Seq<char>,
    entry: Seq<char>,
) -> Seq<Seq<char>> {
    if any_names(lines, id) {
        replaced(lines, id, entry)
    } else {
        replaced(lines, id, entry).push(entry)
    }
}

/// The entry of a session.
pub open spec fn entry_value(
    id: Seq<char>,
    thread_name: Seq<char>,
    updated_at: Seq<char>,
) -> JsonView {
    JsonView::Object(
        Map::empty().insert("id"@, JsonView::Text(id)).insert(
            "thread_name"@,
            JsonView::Text(thread_name),
        ).insert("updated_at"@, JsonView::Text(updated_at)),
    )
}

/// Whether a value is the entry of a session.
pub fn entry_names(value: &Json, id: &str) -> (names: bool)
    ensures
        names == value_names(value.model(), id@),
{
    value.has_str("id", id) || value.has_str("session_id", id)
}

/// Whether a line is the entry of a session.
pub fn index_line_names(line: &str, id: &str) -> (names: bool)
    ensures
        names == line_names(line@, id@),
{
    match parse(line) {
        Some(value) => entry_names(&value, id),
        None => false,
    }
}

proof fn lemma_entry_value(id: Seq<char>, thread_name: Seq<char>, updated_at: Seq<char>)
    ensures
        reads_back(entry_value(id, thread_name, updated_at), 127),
        value_names(entry_value(id, thread_name, updated_at), id),
{
    reveal_strlit("id");
    reveal_strlit("thread_name");
    reveal_strlit("updated_at");
    assert("id"@.len() == 2);
    assert("thread_name"@.len() == 11);
    assert("updated_at"@.len() == 10);
    lemma_texts_read_back(entry_value(id, thread_name, updated_at));
}

/// The lines of the index after the entry of a session was written. One line is then
/// the entry of the session, and the others are what they were.
pub fn append_index_line(
    lines: &Vec<String>,
    id: &str,
    thread_name: &str,
    updated_at: &str,
) -> (next: Vec<String>)
    ensures
        texts(next@) == with_entry(
            texts(lines@),
            id@,
            json_text(entry_value(id@, thread_name@, updated_at@)),
        ),
        line_names(json_text(entry_value(id@, thread_name@, updated_at@)), id@),
        count_where(texts(next@), naming(id@)) == 1,
        other_lines(texts(next@), id@) == other_lines(texts(lines@), id@),
{
    let value = Json::object().set_str("id", id).set_str("thread_name", thread_name).set_str(
        "updated_at",
        updated_at,
    );
    let entry = render(&value);
    proof {
        lemma_entry_value(id@, thread_name@, updated_at@);
    }
    assert(line_names(entry@, id@));
    let ghost all = texts(lines@);
    let mut next: Vec<String> = Vec::new();
    let mut found = false;
    let mut at: usize = 0;
    while at < lines.len()
        invariant
            at <= lines@.len(),
            all == texts(lines@),
            texts(next@) == replaced(all.take(at as int), id@, entry@),
            found == any_names(all.take(at as int), id@),
        decreases lines.len() - at,
    {
        let ghost so_far = all.take(at as int);
        let ghost more = all.take(at + 1);
        assert(more.drop_last() =~= so_far);
        assert(more.last() == lines@[at as int]@);
        let ghost before = texts(next@);
        let line = &lines[at];
        proof {
            lemma_any_names_step(more, id@);
        }
        if index_line_names(line.as_str(), id) {
            if !found {
                next.push(entry.clone());
                assert(texts(next@) =~= before.push(entry@));
                found = true;
            }
        } else if !is_blank(line.as_str()) {
            next.push(line.clone());
            assert(texts(next@) =~= before.push(line@));
        }
        at = at + 1;
    }
    assert(all.take(at as int) =~= all);
    if !found {
        let ghost before = texts(next@);
        next.push(entry.clone());
        assert(texts(next@) =~= before.push(entry@));
    }
    proof {
        law_one_entry_after_writing(all, id@, entry@);
    }
    next
}

proof fn lemma_any_names_step(lines: Seq<Seq<char>>, id: Seq<char>)
    requires
        lines.len() > 0,
    ensures
        any_names(lines, id) == (any_names(lines.drop_last(), id) || line_names(lines.last(), id)),
{
    if any_names(lines, id) {
        let i = choose|i: int| 0 <= i < lines.len() && line_names(#[trigger] lines[i], id);
        if i < lines.len() - 1 {
            assert(line_names(lines.drop_last()[i], id));
        }
    }
    if any_names(lines.drop_last(), id) {
        let i = choose|i: int|
            0 <= i < lines.drop_last().len() && line_names(#[trigger] lines.drop_last()[i], id);
        assert(line_names(lines[i], id));
    }
    if line_names(lines.last(), id) {
        assert(line_names(lines[lines.len() - 1], id));
    }
}

proof fn lemma_replaced(lines: Seq<Seq<char>>, id: Seq<char>, entry: Seq<char>)
    requires
        line_names(entry, id),
    ensures
        count_where(replaced(lines, id, entry), naming(id)) == if any_names(lines, id) {
            1nat
        } else {
            0nat
        },
        other_lines(replaced(lines, id, entry), id) == other_lines(lines, id),
    decreases lines.len(),
{
    if lines.len() > 0 {
        lemma_replaced(lines.drop_last(), id, entry);
        lemma_any_names_step(lines, id);
        let before = replaced(lines.drop_last(), id, entry);
        assert(before.push(entry).drop_last() =~= before);
        assert(before.push(lines.last()).drop_last() =~= before);
    }
}

/// After the entry of a session was written, just one line is the entry of that
/// session, and all other lines are there in their order.
pub proof fn law_one_entry_after_writing(
    lines: Seq<Seq<char>>,
    id: Seq<char>,
    entry: Seq<char>,
)
    requires
        line_names(entry, id),
    ensures
        count_where(with_entry(lines, id, entry), naming(id)) == 1,
        other_lines(with_entry(lines, id, entry), id) == other_lines(lines, id),
{
    lemma_replaced(lines, id, entry);
    let before = replaced(lines, id, entry);
    assert(before.push(entry).drop_last() =~= before);
}

/// The lines of the index without the entries of a session, or `None` where it has no
/// entry of it and stays as it is.
pub fn remove_index_line(lines: &Vec<String>, id: &str) -> (next: Option<Vec<String>>)
    ensures
        match next {
            Some(kept) => any_names_apart(texts(lines@), id@) && texts(kept@) == other_lines(
                texts(lines@),
                id@,
            ),
            None => !any_names_apart(texts(lines@), id@),
        },
{
    let ghost all = texts(lines@);
    let mut kept: Vec<String> = Vec::new();
    let mut removed = false;
    let mut at: usize = 0;
    while at < lines.len()
        invariant
            at <= lines@.len(),
            all == texts(lines@),
            texts(kept@) == other_lines(all.take(at as int), id@),
            removed == any_names_apart(all.take(at as int), id@),
        decreases lines.len() - at,
    {
        let ghost so_far = all.take(at as int);
        let ghost more = all.take(at + 1);
        assert(more.drop_last() =~= so_far);
        assert(more.last() == lines@[at as int]@);
        let ghost before = texts(kept@);
        let line = &lines[at];
        proof {
            lemma_names_apart_step(more, id@);
        }
        if !is_blank(line.as_str()) {
            if index_line_names(line.as_str(), id) {
                removed = true;
            } else {
                kept.push(line.clone());
                assert(texts(kept@) =~= before.push(line@));
            }
        }
        at = at + 1;
    }
    assert(all.take(at as int) =~= all);
    if removed {
        Some(kept)
    } else {
        None
    }
}

/// Whether any line that is not blank is an entry of a session.
pub open spec fn any_names_apart(lines: Seq<Seq<char>>, id: Seq<char>) -> bool {
    exists|i: int|
        0 <= i < lines.len() && line_names(#[trigger] lines[i], id) && trimmed(lines[i]).len() > 0
}

proof fn lemma_names_apart_step(lines: Seq<Seq<char>>, id: Seq<char>)
    requires
        lines.len() > 0,
    ensures
        any_names_apart(lines, id) == (any_names_apart(lines.drop_last(), id) || (line_names(
            lines.last(),
            id,
        ) && trimmed(lines.last()).len() > 0)),
{
    let rest = lines.drop_last();
    if any_names_apart(lines, id) {
        let i = choose|i: int|
            0 <= i < lines.len() && line_names(#[trigger] lines[i], id) && trimmed(lines[i]).len()
                > 0;
        if i < rest.len() {
            assert(line_names(rest[i], id));
        }
    }
    if any_names_apart(rest, id) {
        let i = choose|i: int|
            0 <= i < rest.len() && line_names(#[trigger] rest[i], id) && trimmed(rest[i]).len() > 0;
        assert(line_names(lines[i], id));
    }
    if line_names(lines.last(), id) {
        assert(line_names(lines[lines.len() - 1], id));
    }
}

/// Removing the entry of a session after it was written leaves the lines that the index
/// had beside it.
pub proof fn law_removing_undoes_writing(lines: Seq<Seq<char>>, id: Seq<char>, entry: Seq<char>)
    requires
        line_names(entry, id),
    ensures
        other_lines(with_entry(lines, id, entry), id) == other_lines(lines, id),
        count_where(other_lines(with_entry(lines, id, entry), id), naming(id)) == 0,
{
    law_one_entry_after_writing(lines, id, entry);
    lemma_other_lines_name_nothing(lines, id);
}

proof fn lemma_other_lines_name_nothing(lines: Seq<Seq<char>>, id: Seq<char>)
    ensures
        count_where(other_lines(lines, id), naming(id)) == 0,
    decreases lines.len(),
{
    if lines.len() > 0 {
        lemma_other_lines_name_nothing(lines.drop_last(), id);
        let rest = other_lines(lines.drop_last(), id);
        assert(rest.push(lines.last()).drop_last() =~= rest);
    }
}

// ---------------------------------------------------------------------------
// The ids in the index
// ---------------------------------------------------------------------------

/// The id of each line that has one.
pub open spec fn line_ids() -> spec_fn(Seq<char>) -> Option<Seq<char>> {
    |line: Seq<char>|
        match line_value(line) {
            Some(value) => member_text(value, "id"@),
            None => None,
        }
}

/// The ids of the lines that have one, in order.
pub fn listed_ids(lines: &Vec<String>) -> (ids: Vec<String>)
    ensures
        texts(ids@) == texts(lines@).filter_map(line_ids()),
{
    let ghost all = texts(lines@);
    let mut ids: Vec<String> = Vec::new();
    let mut at: usize = 0;
    while at < lines.len()
        invariant
            at <= lines@.len(),
            all == texts(lines@),
            texts(ids@) == all.take(at as int).filter_map(line_ids()),
        decreases lines.len() - at,
    {
        assert(all.take(at + 1).drop_last() =~= all.take(at as int));
        let ghost before = texts(ids@);
        if let Some(value) = read_line_value(lines[at].as_str()) {
            if let Some(id) = value.get_str("id") {
                ids.push(id.clone());
                assert(texts(ids@) =~= before + seq![id@]);
            }
        }
        at = at + 1;
    }
    assert(all.take(at as int) =~= all);
    ids
}

/// The id that an entry must have: that of `id`, or of `session_id` where there is no
/// `id`, without white space round it and not empty.
pub open spec fn required_id(value: JsonView) -> Option<Seq<char>> {
    let text = match member(value, "id"@) {
        Some(_) => member_text(value, "id"@),
        None => member_text(value, "session_id"@),
    };
    match text {
        Some(id) => if trimmed(id).len() > 0 {
            Some(trimmed(id))
        } else {
            None
        },
        None => None,
    }
}

/// The id that an entry must have.
pub fn required_entry_id(value: &Json) -> (id: Option<String>)
    ensures
        crate::text::opt_text(id) == required_id(value.model()),
{
    let text = match value.get("id") {
        Some(_) => value.get_str("id"),
        None => value.get_str("session_id"),
    };
    match text {
        Some(id) => {
            let id = trim(id.as_str());
            if id.as_str().is_empty() {
                None
            } else {
                Some(id)
            }
        },
        None => None,
    }
}

/// The id of the line with this number, `None` for a blank line, or why it has none.
pub open spec fn strict_line_id(line: Seq<char>, number: nat) -> Result<
    Option<Seq<char>>,
    ErrorView,
> {
    if trimmed(line).len() == 0 {
        Ok(None)
    } else {
        match json_reading(line) {
            Err(error) => Err(
                ErrorView::Other("session_index.jsonl 第 "@ + decimal(number) + " 行损坏: "@ + error),
            ),
            Ok(value) => match required_id(value) {
                Some(id) => Ok(Some(id)),
                None => Err(
                    ErrorView::Other("session_index.jsonl 第 "@ + decimal(number) + " 行缺少有效 id"@),
                ),
            },
        }
    }
}

/// The ids of the first lines, sorted, or why one of them has none.
pub open spec fn strict_ids(lines: Seq<Seq<char>>) -> Result<Seq<Seq<char>>, ErrorView>
    decreases lines.len(),
{
    if lines.len() == 0 {
        Ok(Seq::empty())
    } else {
        match strict_ids(lines.drop_last()) {
            Err(error) => Err(error),
            Ok(ids) => match strict_line_id(lines.last(), lines.len()) {
                Err(error) => Err(error),
                Ok(None) => Ok(ids),
                Ok(Some(id)) => Ok(with_text(ids, id)),
            },
        }
    }
}

proof fn lemma_strict_error(lines: Seq<Seq<char>>, at: int)
    requires
        0 <= at <= lines.len(),
        strict_ids(lines.take(at)) is Err,
    ensures
        strict_ids(lines) == strict_ids(lines.take(at)),
    decreases lines.len(),
{
    if at < lines.len() {
        assert(lines.drop_last().take(at) =~= lines.take(at));
        lemma_strict_error(lines.drop_last(), at);
    } else {
        assert(lines.take(at) =~= lines);
    }
}

/// The ids that the index holds, sorted. A line that is not blank and holds no id is an
/// error that names the line.
pub fn read_session_index_ids(lines: &Vec<String>) -> (ids: Result<Vec<String>, AppError>)
    ensures
        match ids {
            Ok(ids) => strict_ids(texts(lines@)) == Ok::<Seq<Seq<char>>, ErrorView>(texts(ids@)),
            Err(error) => strict_ids(texts(lines@)) == Err::<Seq<Seq<char>>, ErrorView>(error@),
        },
{
    let ghost all = texts(lines@);
    let mut ids: Vec<String> = Vec::new();
    assert(texts(ids@) =~= Seq::empty());
    let mut at: usize = 0;
    while at < lines.len()
        invariant
            at <= lines@.len(),
            all == texts(lines@),
            strict_ids(all.take(at as int)) == Ok::<Seq<Seq<char>>, ErrorView>(texts(ids@)),
        decreases lines.len() - at,
    {
        assert(all.take(at + 1).drop_last() =~= all.take(at as int));
        assert(all.take(at + 1).last() == lines@[at as int]@);
        let line = &lines[at];
        if !is_blank(line.as_str()) {
            let number = decimal_text(at as u64 + 1);
            match parse_or_explain(line.as_str()) {
                Err(error) => {
                    proof {
                        lemma_strict_error(all, at + 1);
                    }
                    return Err(
                        AppError::Other(
                            join4(
                                "session_index.jsonl 第 ",
                                number.as_str(),
                                " 行损坏: ",
                                error.as_str(),
                            ),
                        ),
                    );
                },
                Ok(value) => match required_entry_id(&value) {
                    None => {
                        proof {
                            lemma_strict_error(all, at + 1);
                        }
                        return Err(
                            AppError::Other(
                                join3("session_index.jsonl 第 ", number.as_str(), " 行缺少有效 id"),
                            ),
                        );
                    },
                    Some(id) => {
                        insert_text(&mut ids, id.as_str());
                    },
                },
            }
        }
        at = at + 1;
    }
    assert(all.take(at as int) =~= all);
    Ok(ids)
}

/// The entry of a session holds its id, the name under which it is listed and when it was changed,
/// and nothing else.
pub proof fn law_entry_holds_name_and_moment(
    id: Seq<char>,
    thread_name: Seq<char>,
    updated_at: Seq<char>,
    name: Seq<char>,
)
    ensures
        ({
            let entry = entry_value(id, thread_name, updated_at);
            &&& member_text(entry, "id"@) == Some(id)
            &&& member_text(entry, "thread_name"@) == Some(thread_name)
            &&& member_text(entry, "updated_at"@) == Some(updated_at)
            &&& name != "id"@ && name != "thread_name"@ && name != "updated_at"@ ==> member(
                entry,
                name,
            ) is None
        }),
{
    reveal_strlit("id");
    reveal_strlit("thread_name");
    reveal_strlit("updated_at");
    assert("id"@.len() == 2 && "thread_name"@.len() == 11 && "updated_at"@.len() == 10);
}

/// Whether a line is an entry of a session, under either name that ids go by.
pub open spec fn is_entry_of(line: Seq<char>, id: Seq<char>) -> bool {
    json_document(line) matches Some(value) && (member_text(value, "id"@) == Some(id)
        || member_text(value, "session_id"@) == Some(id))
}

/// Removing a session from the index takes its entries and blank lines out, and nothing else.
pub proof fn law_removing_keeps_other_entries(
    lines: Seq<Seq<char>>,
    id: Seq<char>,
    line: Seq<char>,
)
    ensures
        other_lines(lines, id).contains(line) <==> lines.contains(line) && trimmed(line).len() > 0
            && !is_entry_of(line, id),
    decreases lines.len(),
{
    if lines.len() > 0 {
        let rest = lines.drop_last();
        law_removing_keeps_other_entries(rest, id, line);
        assert(lines =~= rest.push(lines.last()));
        lemma_pushed(rest, lines.last(), line);
        lemma_pushed(other_lines(rest, id), lines.last(), line);
    }
}

proof fn lemma_pushed(items: Seq<Seq<char>>, last: Seq<char>, text: Seq<char>)
    ensures
        items.push(last).contains(text) <==> items.contains(text) || text == last,
{
    let all = items.push(last);
    assert(all[items.len() as int] == last);
    if items.contains(text) {
        let k = choose|k: int| 0 <= k < items.len() && items[k] == text;
        assert(all[k] == text);
    }
    if all.contains(text) {
        let k = choose|k: int| 0 <= k < all.len() && all[k] == text;
        if k < items.len() {
            assert(items[k] == text);
        }
    }
}

/// Writing the entry of a session keeps every other line that is not blank, and the entry is there.
pub proof fn law_writing_keeps_other_entries(
    lines: Seq<Seq<char>>,
    id: Seq<char>,
    entry: Seq<char>,
    line: Seq<char>,
)
    ensures
        with_entry(lines, id, entry).contains(line) <==> line == entry || (lines.contains(line)
            && trimmed(line).len() > 0 && !is_entry_of(line, id)),
{
    lemma_replaced_lines(lines, id, entry, line);
    lemma_pushed(replaced(lines, id, entry), entry, line);
}

proof fn lemma_replaced_lines(
    lines: Seq<Seq<char>>,
    id: Seq<char>,
    entry: Seq<char>,
    line: Seq<char>,
)
    ensures
        replaced(lines, id, entry).contains(line) <==> (line == entry && any_names(lines, id)) || (
        lines.contains(line) && trimmed(line).len() > 0 && !is_entry_of(line, id)),
    decreases lines.len(),
{
    if lines.len() > 0 {
        let rest = lines.drop_last();
        let last = lines.last();
        lemma_replaced_lines(rest, id, entry, line);
        assert(lines =~= rest.push(last));
        lemma_pushed(rest, last, line);
        lemma_pushed(replaced(rest, id, entry), entry, line);
        lemma_pushed(replaced(rest, id, entry), last, line);
        lemma_any_names(lines, id);
    }
}

proof fn lemma_any_names(lines: Seq<Seq<char>>, id: Seq<char>)
    requires
        lines.len() > 0,
    ensures
        any_names(lines, id) <==> any_names(lines.drop_last(), id) || line_names(lines.last(), id),
{
    let rest = lines.drop_last();
    if any_names(lines, id) {
        let i = choose|i: int| 0 <= i < lines.len() && line_names(#[trigger] lines[i], id);
        if i < rest.len() {
            assert(line_names(rest[i], id));
        }
    }
    if any_names(rest, id) {
        let i = choose|i: int| 0 <= i < rest.len() && line_names(#[trigger] rest[i], id);
        assert(line_names(lines[i], id));
    }
    if line_names(lines.last(), id) {
        assert(line_names(lines[lines.len() - 1], id));
    }
}

/// A session that the index does not have yet comes last; one that it has keeps its place, that of
/// its first entry.
pub proof fn law_entries_keep_their_place(
    lines: Seq<Seq<char>>,
    id: Seq<char>,
    entry: Seq<char>,
    k: int,
)
    requires
        0 <= k <= lines.len(),
        forall|i: int| 0 <= i < k ==> !is_entry_of(#[trigger] lines[i], id),
        forall|i: int| 0 <= i < k ==> trimmed(#[trigger] lines[i]).len() > 0,
    ensures
        k == lines.len() ==> with_entry(lines, id, entry) == lines.push(entry),
        k < lines.len() && is_entry_of(lines[k], id) ==> with_entry(lines, id, entry).len() > k
            && with_entry(lines, id, entry)[k] == entry,
        forall|i: int|
            0 <= i < k ==> with_entry(lines, id, entry).len() > i && #[trigger] with_entry(
                lines,
                id,
                entry,
            )[i] == lines[i],
{
    lemma_replaced_start(lines.take(k), id, entry);
    assert(!any_names(lines.take(k), id)) by {
        assert forall|i: int| 0 <= i < k implies !line_names(#[trigger] lines.take(k)[i], id) by {
            assert(!is_entry_of(lines[i], id));
        }
    }
    if k < lines.len() {
        let next = lines.take(k + 1);
        assert(next.drop_last() =~= lines.take(k));
        assert(next.last() == lines[k]);
        if is_entry_of(lines[k], id) {
            assert(replaced(next, id, entry) == lines.take(k).push(entry));
            lemma_replaced_grows(lines, id, entry, k + 1);
        } else {
            lemma_replaced_grows(lines, id, entry, k);
        }
    } else {
        assert(lines.take(k) =~= lines);
    }
    lemma_replaced_grows(lines, id, entry, k);
    let all = replaced(lines, id, entry);
    let start = replaced(lines.take(k), id, entry);
    assert(start == lines.take(k));
    assert forall|i: int| 0 <= i < k implies all.len() > i && all[i] == lines[i] by {
        assert(start[i] == all.subrange(0, start.len() as int)[i]);
    }
    if k < lines.len() && is_entry_of(lines[k], id) {
        let next = replaced(lines.take(k + 1), id, entry);
        assert(next[k] == entry);
        assert(next[k] == all.subrange(0, next.len() as int)[k]);
    }
    assert(with_entry(lines, id, entry).len() >= all.len());
    assert forall|i: int| 0 <= i < all.len() implies with_entry(lines, id, entry)[i]
        == all[i] by {}
}

proof fn lemma_replaced_start(lines: Seq<Seq<char>>, id: Seq<char>, entry: Seq<char>)
    requires
        forall|i: int| 0 <= i < lines.len() ==> !is_entry_of(#[trigger] lines[i], id),
        forall|i: int| 0 <= i < lines.len() ==> trimmed(#[trigger] lines[i]).len() > 0,
    ensures
        replaced(lines, id, entry) == lines,
    decreases lines.len(),
{
    if lines.len() > 0 {
        let rest = lines.drop_last();
        assert forall|i: int| 0 <= i < rest.len() implies !is_entry_of(#[trigger] rest[i], id) by {
            assert(rest[i] == lines[i]);
        }
        assert forall|i: int| 0 <= i < rest.len() implies trimmed(#[trigger] rest[i]).len() > 0 by {
            assert(rest[i] == lines[i]);
        }
        lemma_replaced_start(rest, id, entry);
        assert(!is_entry_of(lines[lines.len() - 1], id));
        assert(trimmed(lines[lines.len() - 1]).len() > 0);
        assert(rest.push(lines.last()) =~= lines);
    } else {
        assert(replaced(lines, id, entry) =~= lines);
    }
}

proof fn lemma_replaced_grows(lines: Seq<Seq<char>>, id: Seq<char>, entry: Seq<char>, k: int)
    requires
        0 <= k <= lines.len(),
    ensures
        replaced(lines.take(k), id, entry).is_prefix_of(replaced(lines, id, entry)),
    decreases lines.len(),
{
    if k < lines.len() {
        let rest = lines.drop_last();
        lemma_replaced_grows(rest, id, entry, k);
        assert(rest.take(k) =~= lines.take(k));
        let short = replaced(lines.take(k), id, entry);
        let before = replaced(rest, id, entry);
        let all = replaced(lines, id, entry);
        assert(before.is_prefix_of(all));
        assert(short =~= before.take(short.len() as int));
        assert(short =~= all.take(short.len() as int));
    } else {
        assert(lines.take(k) =~= lines);
    }
}

/// The index is read as a whole or refused: a line that is not blank and is no JSON, or has no id,
/// is an error, and else the sessions are those that its lines have, each once and sorted.
pub proof fn law_strict_reading_misses_nothing(lines: Seq<Seq<char>>)
    ensures
        match strict_ids(lines) {
            Ok(ids) => ascending(ids) && forall|i: int|
                0 <= i < lines.len() && trimmed(#[trigger] lines[i]).len() > 0 ==> (json_reading(
                    lines[i],
                ) matches Ok(value) && (required_id(value) matches Some(id) && ids.contains(id))),
            Err(_) => exists|i: int|
                0 <= i < lines.len() && trimmed(#[trigger] lines[i]).len() > 0 && (json_reading(
                    lines[i],
                ) is Err || required_id(json_reading(lines[i])->Ok_0) is None),
        },
    decreases lines.len(),
{
    if lines.len() > 0 {
        let rest = lines.drop_last();
        law_strict_reading_misses_nothing(rest);
        match strict_ids(rest) {
            Ok(ids) => {
                if let Ok(Some(id)) = strict_line_id(lines.last(), lines.len()) {
                    lemma_with_text(ids, id);
                    assert(with_text(ids, id).contains(id));
                }
                if let Ok(all) = strict_ids(lines) {
                    assert forall|i: int|
                        0 <= i < lines.len() && trimmed(#[trigger] lines[i]).len()
                            > 0 implies (json_reading(lines[i]) matches Ok(value) && (required_id(
                        value,
                    ) matches Some(id) && all.contains(id))) by {
                        if i < rest.len() {
                            assert(rest[i] == lines[i]);
                        }
                    }
                } else {
                    assert(trimmed(lines[lines.len() - 1]).len() > 0);
                }
            },
            Err(_) => {
                let i = choose|i: int|
                    0 <= i < rest.len() && trimmed(#[trigger] rest[i]).len() > 0 && (json_reading(
                        rest[i],
                    ) is Err || required_id(json_reading(rest[i])->Ok_0) is None);
                assert(lines[i] == rest[i]);
            },
        }
    }
}

/// The index has no session that none of its lines has.
pub proof fn law_strict_reading_adds_nothing(lines: Seq<Seq<char>>, id: Seq<char>)
    ensures
        strict_ids(lines) matches Ok(ids) ==> ascending(ids) && (ids.contains(id) ==> exists|i: int|
            0 <= i < lines.len() && trimmed(#[trigger] lines[i]).len() > 0 && (json_reading(
                lines[i],
            ) matches Ok(value) && required_id(value) == Some(id))),
    decreases lines.len(),
{
    if lines.len() > 0 {
        let rest = lines.drop_last();
        law_strict_reading_adds_nothing(rest, id);
        if let Ok(ids) = strict_ids(rest) {
            if let Ok(Some(last)) = strict_line_id(lines.last(), lines.len()) {
                lemma_with_text(ids, last);
                assert(lines[lines.len() - 1] == lines.last());
            }
            if ids.contains(id) {
                let i = choose|i: int|
                    0 <= i < rest.len() && trimmed(#[trigger] rest[i]).len() > 0 && (json_reading(
                        rest[i],
                    ) matches Ok(value) && required_id(value) == Some(id));
                assert(lines[i] == rest[i]);
            }
        }
    }
}

/// The id of an entry is the text under `id`, or under `session_id` where there is no `id`, without
/// white space round it; a blank one is none.
pub proof fn law_which_id_an_entry_has(value: JsonView)
    ensures
        match required_id(value) {
            Some(id) => id.len() > 0 && (member(value, "id"@) is Some ==> (member_text(
                value,
                "id"@,
            ) matches Some(text) && id == trimmed(text))) && (member(value, "id"@) is None ==> (
            member_text(value, "session_id"@) matches Some(text) && id == trimmed(text))),
            None => (member_text(value, "id"@) matches Some(text) ==> trimmed(text).len() == 0) && (
            member(value, "id"@) is None ==> (member_text(value, "session_id"@) matches Some(text)
                ==> trimmed(text).len() == 0)),
        },
{
}

} // verus!
