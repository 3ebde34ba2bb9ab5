//! The record that gives a session a title, and why the title is then found.

use vstd::prelude::*;

use crate::gui_title::{closing_quote, field_pattern, found_field, last_field, later, Found};
use crate::json::{
    escaped, escaped_char, hex_digit, names_of, object_of, object_text, pair_text, quoted, JsonView,
};
use crate::sorted::ascending;
use crate::text::{find_from, joined, lemma_find_from, occurs_at, text_lt};

verus! {

/// The members of the record that gives a session a title.
pub open spec fn title_pairs(session_id: Seq<char>, title: Seq<char>) -> Seq<
    (Seq<char>, Seq<char>),
> {
    seq![
        ("customTitle"@, title),
        ("sessionId"@, session_id),
        ("type"@, "custom-title"@),
    ]
}

/// The record that gives a session a title, as it is written.
pub open spec fn title_text(session_id: Seq<char>, title: Seq<char>) -> Seq<char> {
    object_text(title_pairs(session_id, title))
}

/// Whether a text ends with a line that gives a session a title which is not empty.
pub open spec fn gives_title(
    tail: Seq<char>,
    before: Seq<char>,
    session_id: Seq<char>,
    title: Seq<char>,
) -> bool {
    title.len() > 0 && tail == before + title_text(session_id, title) + "\n"@
}

/// Whether a text ends with a line that gives any session a title which is not empty.
pub open spec fn ends_with_title(tail: Seq<char>) -> bool {
    exists|before: Seq<char>, session_id: Seq<char>, title: Seq<char>| #[trigger]
        gives_title(tail, before, session_id, title)
}

/// The names of the members are in ascending order, and the record is the object of them.
pub proof fn lemma_title_pairs(session_id: Seq<char>, title: Seq<char>)
    ensures
        ascending(names_of(title_pairs(session_id, title))),
        object_of(title_pairs(session_id, title)) == JsonView::Object(
            Map::empty().insert("customTitle"@, JsonView::Text(title)).insert(
                "sessionId"@,
                JsonView::Text(session_id),
            ).insert("type"@, JsonView::Text("custom-title"@)),
        ),
{
    let pairs = title_pairs(session_id, title);
    let names = names_of(pairs);
    reveal_strlit("customTitle");
    reveal_strlit("sessionId");
    reveal_strlit("type");
    assert(names.len() == 3);
    assert(names[0] == "customTitle"@ && names[1] == "sessionId"@ && names[2] == "type"@);
    assert("customTitle"@[0] == 'c' && "sessionId"@[0] == 's' && "type"@[0] == 't');
    assert(text_lt("customTitle"@, "sessionId"@));
    assert(text_lt("customTitle"@, "type"@));
    assert(text_lt("sessionId"@, "type"@));
    let two = pairs.drop_last();
    let one = two.drop_last();
    assert(one.drop_last().len() == 0);
    assert(object_of(one.drop_last()) == JsonView::Object(Map::empty()));
    assert(one.last() == pairs[0] && two.last() == pairs[1] && pairs.last() == pairs[2]);
    let first: Map<Seq<char>, JsonView> = Map::empty().insert(
        "customTitle"@,
        JsonView::Text(title),
    );
    assert(object_of(one) == JsonView::Object(first));
    assert(object_of(two) == JsonView::Object(
        first.insert("sessionId"@, JsonView::Text(session_id)),
    ));
}

// ---------------------------------------------------------------------------
// Escapes
// ---------------------------------------------------------------------------

proof fn lemma_hex_digit(number: int)
    requires
        0 <= number < 16,
    ensures
        hex_digit(number) != '"',
        hex_digit(number) != '\\',
{
    reveal_strlit("0123456789abcdef");
    let digits = "0123456789abcdef"@;
    assert(digits.len() == 16);
    assert(digits[0] == '0' && digits[1] == '1' && digits[2] == '2' && digits[3] == '3');
    assert(digits[4] == '4' && digits[5] == '5' && digits[6] == '6' && digits[7] == '7');
    assert(digits[8] == '8' && digits[9] == '9' && digits[10] == 'a' && digits[11] == 'b');
    assert(digits[12] == 'c' && digits[13] == 'd' && digits[14] == 'e' && digits[15] == 'f');
    if number == 0 || number == 1 || number == 2 || number == 3 {
    } else if number == 4 || number == 5 || number == 6 || number == 7 {
    } else if number == 8 || number == 9 || number == 10 || number == 11 {
    } else {
        assert(number == 12 || number == 13 || number == 14 || number == 15);
    }
}

proof fn lemma_control(ch: char)
    requires
        ch <= '\u{1f}',
    ensures
        0 <= (ch as int) / 16 < 16,
        0 <= (ch as int) % 16 < 16,
{
}

/// Between quotes a quote stands only behind a backslash.
proof fn lemma_escaped_quotes(text: Seq<char>)
    ensures
        forall|i: int|
            0 <= i < escaped(text).len() && #[trigger] escaped(text)[i] == '"' ==> i > 0
                && escaped(text)[i - 1] == '\\',
    decreases text.len(),
{
    if text.len() > 0 {
        let rest = escaped(text.drop_last());
        let last = escaped_char(text.last());
        lemma_escaped_quotes(text.drop_last());
        if text.last() <= '\u{1f}' {
            lemma_control(text.last());
            lemma_hex_digit((text.last() as int) / 16);
            lemma_hex_digit((text.last() as int) % 16);
        }
        assert forall|i: int|
            0 <= i < escaped(text).len() && #[trigger] escaped(text)[i] == '"' implies i > 0
            && escaped(text)[i - 1] == '\\' by {
            if i < rest.len() {
                assert(rest[i] == '"');
                assert(rest[i - 1] == '\\');
            } else {
                let j = i - rest.len();
                assert(last[j] == '"');
                assert(j == 1 && last[0] == '\\');
            }
        }
    }
}

/// The search for a closing quote passes over an escaped text.
proof fn lemma_escaped_scan(whole: Seq<char>, at: int, text: Seq<char>)
    requires
        0 <= at,
        at + escaped(text).len() <= whole.len(),
        whole.subrange(at, at + escaped(text).len()) == escaped(text),
    ensures
        closing_quote(whole, at) == closing_quote(whole, at + escaped(text).len()),
    decreases text.len(),
{
    if text.len() > 0 {
        let all = escaped(text);
        let rest = escaped(text.drop_last());
        let ch = text.last();
        let last = escaped_char(ch);
        let k = at + rest.len();
        assert forall|i: int| 0 <= i < all.len() implies #[trigger] whole[at + i] == all[i] by {
            assert(whole.subrange(at, at + all.len())[i] == all[i]);
        }
        assert(whole.subrange(at, k) =~= rest) by {
            assert forall|i: int| 0 <= i < rest.len() implies whole.subrange(at, k)[i]
                == rest[i] by {
                assert(whole[at + i] == all[i]);
            }
        }
        lemma_escaped_scan(whole, at, text.drop_last());
        assert forall|j: int| 0 <= j < last.len() implies #[trigger] whole[k + j] == last[j] by {
            assert(whole[at + (rest.len() + j)] == all[rest.len() + j]);
        }
        assert(whole[k + 0] == last[0]);
        if last.len() == 2 {
            assert(closing_quote(whole, k) == closing_quote(whole, k + 2));
        } else if last.len() == 6 {
            lemma_control(ch);
            lemma_hex_digit((ch as int) / 16);
            lemma_hex_digit((ch as int) % 16);
            assert(whole[k + 2] == last[2] && whole[k + 3] == last[3]);
            assert(whole[k + 4] == last[4] && whole[k + 5] == last[5]);
            assert(closing_quote(whole, k) == closing_quote(whole, k + 2));
            assert(closing_quote(whole, k + 2) == closing_quote(whole, k + 3));
            assert(closing_quote(whole, k + 3) == closing_quote(whole, k + 4));
            assert(closing_quote(whole, k + 4) == closing_quote(whole, k + 5));
            assert(closing_quote(whole, k + 5) == closing_quote(whole, k + 6));
        } else {
            assert(closing_quote(whole, k) == closing_quote(whole, k + 1));
        }
    }
}

/// A text without anything to escape is written as it is.
proof fn lemma_plain(text: Seq<char>)
    requires
        forall|i: int|
            0 <= i < text.len() ==> (#[trigger] text[i]) > '\u{1f}' && text[i] != '"' && text[i]
                != '\\',
    ensures
        escaped(text) == text,
    decreases text.len(),
{
    if text.len() > 0 {
        let rest = text.drop_last();
        assert forall|i: int| 0 <= i < rest.len() implies (#[trigger] rest[i]) > '\u{1f}' && rest[i]
            != '"' && rest[i] != '\\' by {
            assert(rest[i] == text[i]);
        }
        lemma_plain(rest);
        assert(text[text.len() - 1] == text.last());
        assert(escaped_char(text.last()) =~= seq![text.last()]);
        assert(rest + seq![text.last()] =~= text);
    } else {
        assert(escaped(text) =~= text);
    }
}

// ---------------------------------------------------------------------------
// The form of the record
// ---------------------------------------------------------------------------

spec fn plain_pattern() -> Seq<char> {
    field_pattern("customTitle"@, false)
}

spec fn spaced_pattern() -> Seq<char> {
    field_pattern("customTitle"@, true)
}

spec fn middle() -> Seq<char> {
    "\",\"sessionId\":\""@
}

spec fn ending() -> Seq<char> {
    "\",\"type\":\"custom-title\"}\n"@
}

proof fn lemma_patterns()
    ensures
        plain_pattern().len() == 15,
        plain_pattern()[0] == '"',
        plain_pattern()[1] == 'c',
        plain_pattern()[2] == 'u',
        plain_pattern()[3] == 's',
        plain_pattern()[4] == 't',
        plain_pattern()[5] == 'o',
        plain_pattern()[6] == 'm',
        plain_pattern()[7] == 'T',
        plain_pattern()[8] == 'i',
        plain_pattern()[9] == 't',
        plain_pattern()[10] == 'l',
        plain_pattern()[11] == 'e',
        plain_pattern()[12] == '"',
        plain_pattern()[13] == ':',
        plain_pattern()[14] == '"',
        spaced_pattern().len() == 16,
        forall|i: int| 0 <= i < 14 ==> #[trigger] spaced_pattern()[i] == plain_pattern()[i],
        spaced_pattern()[14] == ' ',
        spaced_pattern()[15] == '"',
{
    reveal_strlit("customTitle");
    reveal_strlit("\"");
    reveal_strlit("\":\"");
    reveal_strlit("\": \"");
    assert("customTitle"@.len() == 11 && "\""@.len() == 1);
    assert("\":\""@.len() == 3 && "\": \""@.len() == 4);
    assert("\":\""@[0] == '"' && "\":\""@[1] == ':' && "\":\""@[2] == '"');
    assert("\": \""@[0] == '"' && "\": \""@[1] == ':' && "\": \""@[2] == ' ' && "\": \""@[3] == '"');
}

proof fn lemma_middle()
    ensures
        middle().len() == 15,
        middle()[0] == '"' && middle()[1] == ',' && middle()[2] == '"' && middle()[3] == 's',
        middle()[4] == 'e' && middle()[5] == 's' && middle()[6] == 's' && middle()[7] == 'i',
        middle()[8] == 'o' && middle()[9] == 'n' && middle()[10] == 'I' && middle()[11] == 'd',
        middle()[12] == '"' && middle()[13] == ':' && middle()[14] == '"',
{
    reveal_strlit("\",\"sessionId\":\"");
}

proof fn lemma_ending()
    ensures
        ending().len() == 25,
        ending()[0] == '"' && ending()[1] == ',' && ending()[2] == '"' && ending()[3] == 't',
        ending()[4] == 'y' && ending()[5] == 'p' && ending()[6] == 'e' && ending()[7] == '"',
        ending()[8] == ':' && ending()[9] == '"' && ending()[10] == 'c' && ending()[11] == 'u',
        ending()[12] == 's' && ending()[13] == 't' && ending()[14] == 'o' && ending()[15] == 'm',
        ending()[16] == '-' && ending()[17] == 't' && ending()[18] == 'i' && ending()[19] == 't',
        ending()[20] == 'l' && ending()[21] == 'e' && ending()[22] == '"' && ending()[23] == '}',
        ending()[24] == '\n',
{
    reveal_strlit("\",\"type\":\"custom-title\"}\n");
}

proof fn lemma_plain_names()
    ensures
        escaped("customTitle"@) == "customTitle"@,
        escaped("sessionId"@) == "sessionId"@,
        escaped("type"@) == "type"@,
        escaped("custom-title"@) == "custom-title"@,
{
    reveal_strlit("customTitle");
    reveal_strlit("sessionId");
    reveal_strlit("type");
    reveal_strlit("custom-title");
    lemma_plain("customTitle"@);
    lemma_plain("sessionId"@);
    lemma_plain("type"@);
    lemma_plain("custom-title"@);
}

proof fn lemma_title_text(session_id: Seq<char>, title: Seq<char>)
    ensures
        title_text(session_id, title) + "\n"@ == "{"@ + plain_pattern() + escaped(title) + middle()
            + escaped(session_id) + ending(),
{
    lemma_plain_names();
    let pairs = title_pairs(session_id, title);
    let items = pairs.map_values(|pair: (Seq<char>, Seq<char>)| pair_text(pair));
    let first = items.drop_last();
    assert(items.len() == 3 && first.len() == 2);
    assert(items[0] == pair_text(pairs[0]) && items[1] == pair_text(pairs[1]));
    assert(items[2] == pair_text(pairs[2]));
    assert(first.drop_last().len() == 1);
    assert(joined(first.drop_last(), ","@) == items[0]);
    assert(joined(first, ","@) == items[0] + ","@ + items[1]);
    assert(joined(items, ","@) == items[0] + ","@ + items[1] + ","@ + items[2]);
    let a = quoted("customTitle"@) + ":"@ + quoted(escaped(title));
    let b = quoted("sessionId"@) + ":"@ + quoted(escaped(session_id));
    let c = quoted("type"@) + ":"@ + quoted("custom-title"@);
    assert(title_text(session_id, title) == "{"@ + (a + ","@ + b + ","@ + c) + "}"@);
    reveal_strlit("\"");
    reveal_strlit(":");
    reveal_strlit(",");
    reveal_strlit("}");
    reveal_strlit("\n");
    reveal_strlit("\":\"");
    reveal_strlit("sessionId");
    reveal_strlit("type");
    reveal_strlit("custom-title");
    lemma_middle();
    lemma_ending();
    assert(a =~= plain_pattern() + escaped(title) + "\""@) by {
        assert("\""@ + ":"@ + "\""@ =~= "\":\""@);
    }
    assert("\""@ + ","@ + "\""@ + "sessionId"@ + "\""@ + ":"@ + "\""@ =~= middle());
    assert("\""@ + ","@ + c + "}"@ + "\n"@ =~= ending());
    assert(a + ","@ + b =~= plain_pattern() + escaped(title) + middle() + escaped(session_id)
        + "\""@);
    assert(title_text(session_id, title) + "\n"@ =~= "{"@ + (a + ","@ + b) + ","@ + c + "}"@
        + "\n"@);
}

// ---------------------------------------------------------------------------
// The search
// ---------------------------------------------------------------------------

proof fn lemma_occurs(whole: Seq<char>, part: Seq<char>, at: int)
    requires
        occurs_at(whole, part, at),
    ensures
        forall|i: int| 0 <= i < part.len() ==> #[trigger] whole[at + i] == part[i],
{
    assert forall|i: int| 0 <= i < part.len() implies #[trigger] whole[at + i] == part[i] by {
        assert(whole.subrange(at, at + part.len())[i] == part[i]);
    }
}

/// A quote that no backslash precedes ends the search for a closing quote.
proof fn lemma_closing_at_most(whole: Seq<char>, from: int, at: int)
    requires
        0 <= from <= at < whole.len(),
        whole[at] == '"',
        at > from ==> whole[at - 1] != '\\',
    ensures
        from <= closing_quote(whole, from) <= at,
    decreases at - from,
{
    if from < at {
        if whole[from] == '\\' {
            assert(from + 1 != at);
            lemma_closing_at_most(whole, from + 2, at);
        } else if whole[from] != '"' {
            lemma_closing_at_most(whole, from + 1, at);
        }
    }
}

/// What the search relies on: a field starts at `at` behind a brace, its value goes on to
/// `end`, and no field starts after it.
spec fn is_last_field(whole: Seq<char>, at: int, end: int) -> bool {
    &&& 1 <= at
    &&& at + 15 < end < whole.len()
    &&& whole[at - 1] == '{'
    &&& occurs_at(whole, plain_pattern(), at)
    &&& closing_quote(whole, at + 15) == end
    &&& forall|q: int| q > at ==> !occurs_at(whole, plain_pattern(), q)
    &&& forall|q: int| q >= at ==> !occurs_at(whole, spaced_pattern(), q)
}

proof fn lemma_no_overlap(whole: Seq<char>, at: int, end: int, q: int)
    requires
        is_last_field(whole, at, end),
        0 <= q < at,
    ensures
        occurs_at(whole, plain_pattern(), q) ==> q + 15 < at,
        occurs_at(whole, spaced_pattern(), q) ==> q + 16 < at,
{
    lemma_patterns();
    lemma_occurs(whole, plain_pattern(), at);
    assert(whole[at + 0] == '"');
    let d = at - q;
    if occurs_at(whole, plain_pattern(), q) {
        lemma_occurs(whole, plain_pattern(), q);
        if d <= 15 {
            assert(whole[q + (d - 1)] == plain_pattern()[d - 1]);
            assert(plain_pattern()[d - 1] == '{');
            assert(d == 1 || d == 2 || d == 3 || d == 4 || d == 5 || d == 6 || d == 7 || d == 8 || d
                == 9 || d == 10 || d == 11 || d == 12 || d == 13 || d == 14 || d == 15);
        }
    }
    if occurs_at(whole, spaced_pattern(), q) {
        lemma_occurs(whole, spaced_pattern(), q);
        if d <= 16 {
            assert(whole[q + (d - 1)] == spaced_pattern()[d - 1]);
            assert(spaced_pattern()[d - 1] == '{');
            if d <= 14 {
                assert(plain_pattern()[d - 1] == '{');
                assert(d == 1 || d == 2 || d == 3 || d == 4 || d == 5 || d == 6 || d == 7 || d == 8
                    || d == 9 || d == 10 || d == 11 || d == 12 || d == 13 || d == 14);
            }
        }
    }
}

/// Whether the best field is the last one, or one before it whose value goes on up to it.
spec fn is_good(whole: Seq<char>, at: int, best: Option<Found>) -> bool {
    best matches Some(found) && found.raw.len() > 0 && (found.at == at || (0 <= found.at < at
        && occurs_at(whole, plain_pattern(), found.at) && closing_quote(whole, found.at + 15)
        == at))
}

proof fn lemma_first_scan(whole: Seq<char>, at: int, end: int, from: int, before: Option<Found>)
    requires
        is_last_field(whole, at, end),
        0 <= from <= at,
        before matches Some(found) ==> found.at < from,
    ensures
        is_good(whole, at, last_field(whole, plain_pattern(), from, before)),
    decreases at - from,
{
    let pattern = plain_pattern();
    lemma_patterns();
    lemma_find_from(whole, pattern, from);
    let q = find_from(whole, pattern, from)->Some_0;
    assert(q <= at);
    let start = q + pattern.len();
    let stop = closing_quote(whole, start);
    let best = later(before, whole, q, start, stop);
    lemma_occurs(whole, pattern, at);
    assert(whole[at + 0] == '"');
    if q == at {
        lemma_find_from(whole, pattern, end + 1);
        assert(best == Some(Found { at, raw: whole.subrange(start, end) }));
        assert(last_field(whole, pattern, end + 1, best) == best);
    } else {
        lemma_no_overlap(whole, at, end, q);
        lemma_closing_at_most(whole, start, at);
        assert(best == Some(Found { at: q, raw: whole.subrange(start, stop) }));
        if stop == at {
            lemma_find_from(whole, pattern, at + 1);
            assert(last_field(whole, pattern, at + 1, best) == best);
        } else {
            lemma_first_scan(whole, at, end, stop + 1, best);
        }
    }
}

proof fn lemma_second_scan(whole: Seq<char>, at: int, end: int, from: int, best: Option<Found>)
    requires
        is_last_field(whole, at, end),
        0 <= from,
        is_good(whole, at, best),
    ensures
        last_field(whole, spaced_pattern(), from, best) == best,
    decreases whole.len() - from,
{
    let pattern = spaced_pattern();
    lemma_patterns();
    lemma_find_from(whole, pattern, from);
    if let Some(q) = find_from(whole, pattern, from) {
        let found = best->Some_0;
        let start = q + pattern.len();
        let stop = closing_quote(whole, start);
        assert(q < at);
        lemma_no_overlap(whole, at, end, q);
        lemma_occurs(whole, pattern, q);
        lemma_occurs(whole, plain_pattern(), at);
        assert(whole[at + 0] == '"');
        lemma_closing_at_most(whole, start, at);
        if q > found.at {
            assert(found.at < at);
            lemma_occurs(whole, plain_pattern(), found.at);
            assert(whole[q + 0] == '"' && whole[q + 11] == 'e' && whole[q + 12] == '"');
            assert(whole[found.at + 1] == 'c' && whole[found.at + 2] == 'u');
            assert(q != found.at + 1 && q != found.at + 2);
            lemma_closing_at_most(whole, found.at + 15, q + 12);
            assert(false);
        }
        assert(later(best, whole, q, start, stop) == best);
        if stop + 1 < whole.len() {
            lemma_second_scan(whole, at, end, stop + 1, best);
        }
    }
}

// ---------------------------------------------------------------------------
// The title is found
// ---------------------------------------------------------------------------

proof fn lemma_no_later_field(
    whole: Seq<char>,
    at: int,
    name: Seq<char>,
    id: Seq<char>,
    q: int,
    pattern: Seq<char>,
)
    requires
        1 <= at,
        whole.len() == at + 15 + escaped(name).len() + 15 + escaped(id).len() + 25,
        forall|i: int| 0 <= i < 15 ==> #[trigger] whole[at + i] == plain_pattern()[i],
        forall|i: int|
            0 <= i < escaped(name).len() ==> #[trigger] whole[at + 15 + i] == escaped(name)[i],
        forall|i: int|
            0 <= i < 15 ==> #[trigger] whole[at + 15 + escaped(name).len() + i] == middle()[i],
        forall|i: int|
            0 <= i < escaped(id).len() ==> #[trigger] whole[at + 15 + escaped(name).len() + 15 + i]
                == escaped(id)[i],
        forall|i: int|
            0 <= i < 25 ==> #[trigger] whole[at + 15 + escaped(name).len() + 15 + escaped(id).len()
                + i] == ending()[i],
        q > at,
        pattern == plain_pattern() || pattern == spaced_pattern(),
    ensures
        !occurs_at(whole, pattern, q),
{
    lemma_patterns();
    lemma_middle();
    lemma_ending();
    lemma_escaped_quotes(name);
    lemma_escaped_quotes(id);
    if occurs_at(whole, pattern, q) {
        lemma_occurs(whole, pattern, q);
        let x = q + 12;
        let a1 = at + 15;
        let a2 = a1 + escaped(name).len();
        let a3 = a2 + 15;
        let a4 = a3 + escaped(id).len();
        assert(whole[q + 10] == 'l' && whole[q + 11] == 'e' && whole[q + 12] == '"');
        assert(whole[q + 13] == ':');
        assert(whole[x] == '"' && whole[x - 1] == 'e' && whole[x - 2] == 'l' && whole[x + 1]
            == ':');
        if x < a1 {
            let j = x - at;
            assert(j == 13 || j == 14);
            assert(whole[at + j] == plain_pattern()[j]);
            assert(whole[at + (j - 1)] == plain_pattern()[j - 1]);
        } else if x < a2 {
            let j = x - a1;
            assert(whole[at + 15 + j] == escaped(name)[j]);
            assert(whole[at + 15 + (j - 1)] == escaped(name)[j - 1]);
        } else if x < a3 {
            let j = x - a2;
            assert(whole[at + 15 + escaped(name).len() + j] == middle()[j]);
            assert(j == 0 || j == 2 || j == 12 || j == 14) by {
                assert(j == 0 || j == 1 || j == 2 || j == 3 || j == 4 || j == 5 || j == 6 || j == 7
                    || j == 8 || j == 9 || j == 10 || j == 11 || j == 12 || j == 13 || j == 14);
            }
            if j < 14 {
                assert(whole[at + 15 + escaped(name).len() + (j + 1)] == middle()[j + 1]);
            }
            if j > 0 {
                assert(whole[at + 15 + escaped(name).len() + (j - 1)] == middle()[j - 1]);
            }
        } else if x < a4 {
            let j = x - a3;
            assert(whole[at + 15 + escaped(name).len() + 15 + j] == escaped(id)[j]);
            assert(whole[at + 15 + escaped(name).len() + 15 + (j - 1)] == escaped(id)[j - 1]);
        } else {
            let j = x - a4;
            let base = at + 15 + escaped(name).len() + 15 + escaped(id).len();
            assert(j < 25);
            assert(whole[base + j] == ending()[j]);
            assert(j == 0 || j == 2 || j == 7 || j == 9 || j == 22) by {
                assert(j == 0 || j == 1 || j == 2 || j == 3 || j == 4 || j == 5 || j == 6 || j == 7
                    || j == 8 || j == 9 || j == 10 || j == 11 || j == 12 || j == 13 || j == 14 || j
                    == 15 || j == 16 || j == 17 || j == 18 || j == 19 || j == 20 || j == 21 || j
                    == 22 || j == 23 || j == 24);
            }
            assert(whole[base + (j + 1)] == ending()[j + 1]);
            if j > 2 {
                assert(whole[base + (j - 1)] == ending()[j - 1]);
                assert(whole[base + (j - 2)] == ending()[j - 2]);
            }
        }
        assert(false);
    }
}

/// In a text that ends with a line that gives a title, the last field of that title is found,
/// and its value is not empty.
pub proof fn lemma_given_title_is_found(
    tail: Seq<char>,
    before: Seq<char>,
    session_id: Seq<char>,
    title: Seq<char>,
)
    requires
        gives_title(tail, before, session_id, title),
    ensures
        found_field(tail, "customTitle"@) matches Some(found) && found.raw.len() > 0,
{
    let et = escaped(title);
    let ei = escaped(session_id);
    let at = before.len() as int + 1;
    let end = at + 15 + et.len();
    lemma_patterns();
    lemma_middle();
    lemma_ending();
    lemma_title_text(session_id, title);
    reveal_strlit("{");
    assert("{"@.len() == 1 && "{"@[0] == '{');
    let line = "{"@ + plain_pattern() + et + middle() + ei + ending();
    assert(tail =~= before + line);
    assert(tail.len() == at + 15 + et.len() + 15 + ei.len() + 25);
    assert(tail[at - 1] == '{');
    assert forall|i: int| 0 <= i < 15 implies #[trigger] tail[at + i] == plain_pattern()[i] by {
        assert(line[1 + i] == plain_pattern()[i]);
    }
    assert forall|i: int| 0 <= i < et.len() implies #[trigger] tail[at + 15 + i] == et[i] by {
        assert(line[16 + i] == et[i]);
    }
    assert forall|i: int| 0 <= i < 15 implies #[trigger] tail[at + 15 + et.len() + i]
        == middle()[i] by {
        assert(line[16 + et.len() + i] == middle()[i]);
    }
    assert forall|i: int| 0 <= i < ei.len() implies #[trigger] tail[at + 15 + et.len() + 15 + i]
        == ei[i] by {
        assert(line[16 + et.len() + 15 + i] == ei[i]);
    }
    assert forall|i: int| 0 <= i < 25 implies #[trigger] tail[at + 15 + et.len() + 15 + ei.len() + i]
        == ending()[i] by {
        assert(line[16 + et.len() + 15 + ei.len() + i] == ending()[i]);
    }
    assert(tail.subrange(at, at + 15) =~= plain_pattern()) by {
        assert forall|i: int| 0 <= i < 15 implies tail.subrange(at, at + 15)[i]
            == plain_pattern()[i] by {
            assert(tail[at + i] == plain_pattern()[i]);
        }
    }
    assert(occurs_at(tail, plain_pattern(), at));
    assert(tail.subrange(at + 15, at + 15 + et.len()) =~= et) by {
        assert forall|i: int| 0 <= i < et.len() implies tail.subrange(
            at + 15,
            at + 15 + et.len(),
        )[i] == et[i] by {
            assert(tail[at + 15 + i] == et[i]);
        }
    }
    lemma_escaped_scan(tail, at + 15, title);
    assert(tail[at + 15 + et.len() + 0] == middle()[0]);
    assert(closing_quote(tail, end) == end);
    assert(et.len() > 0) by {
        assert(escaped_char(title.last()).len() > 0);
    }
    assert forall|q: int| q > at implies !occurs_at(tail, plain_pattern(), q) by {
        lemma_no_later_field(tail, at, title, session_id, q, plain_pattern());
    }
    assert forall|q: int| q >= at implies !occurs_at(tail, spaced_pattern(), q) by {
        if q > at {
            lemma_no_later_field(tail, at, title, session_id, q, spaced_pattern());
        } else if occurs_at(tail, spaced_pattern(), q) {
            lemma_occurs(tail, spaced_pattern(), q);
            assert(tail[q + 14] == ' ');
            assert(tail[at + 14] == '"');
        }
    }
    lemma_first_scan(tail, at, end, 0, None);
    lemma_second_scan(
        tail,
        at,
        end,
        0,
        last_field(tail, plain_pattern(), 0, None),
    );
}

} // verus!
