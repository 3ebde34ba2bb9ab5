//! Text as sequences of characters: the string operations that the rest of the
//! library is stated with, each with the executable function that computes it.

use vstd::prelude::*;

verus! {

/// `String::push` appends one character to the end of the string.
pub assume_specification[ String::push ](text: &mut String, ch: char)
    ensures
        final(text)@ == old(text)@.push(ch),
;

// ---------------------------------------------------------------------------
// Views
// ---------------------------------------------------------------------------

/// The texts that a sequence of strings holds.
pub open spec fn texts(items: Seq<String>) -> Seq<Seq<char>> {
    items.map_values(|item: String| item@)
}

/// The text that an optional string holds.
pub open spec fn opt_text(item: Option<String>) -> Option<Seq<char>> {
    match item {
        Some(text) => Some(text@),
        None => None,
    }
}

/// The text that an optional string slice holds.
pub open spec fn opt_str(item: Option<&str>) -> Option<Seq<char>> {
    match item {
        Some(text) => Some(text@),
        None => None,
    }
}

/// The characters of a string slice, in order.
pub fn chars_of(text: &str) -> (chars: Vec<char>)
    ensures
        chars@ == text@,
{
    let mut chars: Vec<char> = Vec::new();
    for ch in it: text.chars()
        invariant
            it.seq() == text@,
            chars@ == text@.take(it.index()),
    {
        chars.push(ch);
        assert(text@.take(it.index() + 1) =~= text@.take(it.index()).push(ch));
    }
    assert(text@.take(text@.len() as int) =~= text@);
    chars
}

/// The string made of the characters from `from` up to, not including, `to`.
pub fn text_of(chars: &Vec<char>, from: usize, to: usize) -> (text: String)
    requires
        from <= to <= chars@.len(),
    ensures
        text@ == chars@.subrange(from as int, to as int),
{
    let mut text = String::new();
    let mut at: usize = from;
    while at < to
        invariant
            from <= at <= to <= chars@.len(),
            text@ == chars@.subrange(from as int, at as int),
        decreases to - at,
    {
        text.push(chars[at]);
        assert(chars@.subrange(from as int, at + 1) =~= chars@.subrange(from as int, at as int).push(
            chars@[at as int],
        ));
        at = at + 1;
    }
    text
}

/// Whether two strings hold the same text.
pub fn same(left: &str, right: &str) -> (equal: bool)
    ensures
        equal == (left@ == right@),
{
    if left.len() != right.len() {
        return false;
    }
    left.to_owned() == right.to_owned()
}

/// A copy of an optional string.
pub fn copy_opt(item: &Option<String>) -> (copy: Option<String>)
    ensures
        opt_text(copy) == opt_text(*item),
{
    match item {
        Some(text) => Some(text.clone()),
        None => None,
    }
}

/// A copy of a list of strings.
pub fn copy_texts(items: &Vec<String>) -> (copy: Vec<String>)
    ensures
        texts(copy@) == texts(items@),
{
    let mut copy: Vec<String> = Vec::new();
    let mut at: usize = 0;
    while at < items.len()
        invariant
            at <= items@.len(),
            texts(copy@) == texts(items@.take(at as int)),
        decreases items.len() - at,
    {
        copy.push(items[at].clone());
        assert(texts(items@.take(at + 1)) =~= texts(items@.take(at as int)).push(items@[at as int]@));
        assert(texts(copy@) =~= texts(items@.take(at as int)).push(items@[at as int]@));
        at = at + 1;
    }
    assert(items@.take(at as int) =~= items@);
    copy
}

/// Whether a list of strings holds a text.
pub fn holds_text(items: &Vec<String>, text: &str) -> (found: bool)
    ensures
        found == texts(items@).contains(text@),
{
    let mut at: usize = 0;
    while at < items.len()
        invariant
            at <= items@.len(),
            forall|i: int| 0 <= i < at ==> texts(items@)[i] != text@,
        decreases items.len() - at,
    {
        if same(items[at].as_str(), text) {
            assert(texts(items@)[at as int] == text@);
            return true;
        }
        at = at + 1;
    }
    false
}

// ---------------------------------------------------------------------------
// Joining
// ---------------------------------------------------------------------------

/// `left` followed by `right`.
pub fn join2(left: &str, right: &str) -> (text: String)
    ensures
        text@ == left@ + right@,
{
    let mut text = left.to_owned();
    text.append(right);
    text
}

/// Three texts, one after the other.
pub fn join3(a: &str, b: &str, c: &str) -> (text: String)
    ensures
        text@ == a@ + b@ + c@,
{
    let mut text = a.to_owned();
    text.append(b);
    text.append(c);
    text
}

/// Four texts, one after the other.
pub fn join4(a: &str, b: &str, c: &str, d: &str) -> (text: String)
    ensures
        text@ == a@ + b@ + c@ + d@,
{
    let mut text = join3(a, b, c);
    text.append(d);
    text
}

/// Five texts, one after the other.
pub fn join5(a: &str, b: &str, c: &str, d: &str, e: &str) -> (text: String)
    ensures
        text@ == a@ + b@ + c@ + d@ + e@,
{
    let mut text = join4(a, b, c, d);
    text.append(e);
    text
}

/// The texts in order, with `separator` between each two of them.
pub open spec fn joined(items: Seq<Seq<char>>, separator: Seq<char>) -> Seq<char>
    decreases items.len(),
{
    if items.len() == 0 {
        Seq::empty()
    } else if items.len() == 1 {
        items[0]
    } else {
        joined(items.drop_last(), separator) + separator + items.last()
    }
}

/// Joins strings with a separator.
pub fn join(items: &Vec<String>, separator: &str) -> (text: String)
    ensures
        text@ == joined(texts(items@), separator@),
{
    let mut text = String::new();
    let mut at: usize = 0;
    while at < items.len()
        invariant
            at <= items@.len(),
            text@ == joined(texts(items@).take(at as int), separator@),
        decreases items.len() - at,
    {
        let ghost before = texts(items@).take(at as int);
        let ghost after = texts(items@).take(at + 1);
        assert(after.drop_last() =~= before);
        if at > 0 {
            text.append(separator);
        }
        text.append(items[at].as_str());
        assert(after.last() == items@[at as int]@);
        assert(text@ =~= joined(after, separator@));
        at = at + 1;
    }
    assert(texts(items@).take(at as int) =~= texts(items@));
    text
}

// ---------------------------------------------------------------------------
// Decimal numbers
// ---------------------------------------------------------------------------

/// The character of one decimal digit.
pub open spec fn digit_char(digit: nat) -> char {
    if digit == 0 { '0' } else if digit == 1 { '1' } else if digit == 2 { '2' } else if digit == 3 {
        '3'
    } else if digit == 4 { '4' } else if digit == 5 { '5' } else if digit == 6 { '6' } else if digit
        == 7 { '7' } else if digit == 8 { '8' } else { '9' }
}

/// A natural number in decimal, without leading zeros.
pub open spec fn decimal(number: nat) -> Seq<char>
    decreases number,
{
    if number < 10 {
        seq![digit_char(number)]
    } else {
        decimal(number / 10).push(digit_char(number % 10))
    }
}

fn digit_to_char(digit: u64) -> (ch: char)
    requires
        digit < 10,
    ensures
        ch == digit_char(digit as nat),
{
    match digit {
        0 => '0',
        1 => '1',
        2 => '2',
        3 => '3',
        4 => '4',
        5 => '5',
        6 => '6',
        7 => '7',
        8 => '8',
        _ => '9',
    }
}

/// Writes a number in decimal.
pub fn decimal_text(number: u64) -> (text: String)
    ensures
        text@ == decimal(number as nat),
    decreases number,
{
    let last = digit_to_char(number % 10);
    if number < 10 {
        let mut text = String::new();
        text.push(last);
        assert(text@ =~= seq![digit_char(number as nat)]);
        text
    } else {
        let mut text = decimal_text(number / 10);
        text.push(last);
        text
    }
}

// ---------------------------------------------------------------------------
// White space
// ---------------------------------------------------------------------------

/// Whether a character has the Unicode property `White_Space`.
pub open spec fn is_space(ch: char) -> bool {
    ||| '\u{9}' <= ch <= '\u{d}'
    ||| ch == ' '
    ||| ch == '\u{85}'
    ||| ch == '\u{a0}'
    ||| ch == '\u{1680}'
    ||| '\u{2000}' <= ch <= '\u{200a}'
    ||| ch == '\u{2028}'
    ||| ch == '\u{2029}'
    ||| ch == '\u{202f}'
    ||| ch == '\u{205f}'
    ||| ch == '\u{3000}'
}

/// Whether a character is white space.
pub fn is_whitespace(ch: char) -> (space: bool)
    ensures
        space == is_space(ch),
{
    ('\u{9}' <= ch && ch <= '\u{d}') || ch == ' ' || ch == '\u{85}' || ch == '\u{a0}' || ch
        == '\u{1680}' || ('\u{2000}' <= ch && ch <= '\u{200a}') || ch == '\u{2028}' || ch
        == '\u{2029}' || ch == '\u{202f}' || ch == '\u{205f}' || ch == '\u{3000}'
}

/// How many characters at the start of a text are white space.
pub open spec fn leading_spaces(text: Seq<char>) -> nat
    decreases text.len(),
{
    if text.len() > 0 && is_space(text[0]) {
        1 + leading_spaces(text.drop_first())
    } else {
        0
    }
}

/// A text without the white space at its start.
pub open spec fn trimmed_start(text: Seq<char>) -> Seq<char>
    decreases text.len(),
{
    if text.len() > 0 && is_space(text[0]) {
        trimmed_start(text.drop_first())
    } else {
        text
    }
}

/// A text without the white space at its end.
pub open spec fn trimmed_end(text: Seq<char>) -> Seq<char>
    decreases text.len(),
{
    if text.len() > 0 && is_space(text.last()) {
        trimmed_end(text.drop_last())
    } else {
        text
    }
}

/// A text without the white space at its start and its end.
pub open spec fn trimmed(text: Seq<char>) -> Seq<char> {
    trimmed_end(trimmed_start(text))
}

/// Removes the white space at the start of a text.
pub fn trim_start(text: &str) -> (rest: String)
    ensures
        rest@ == trimmed_start(text@),
{
    let chars = chars_of(text);
    let mut at: usize = 0;
    assert(chars@.skip(0) =~= chars@);
    while at < chars.len() && is_whitespace(chars[at])
        invariant
            at <= chars@.len(),
            trimmed_start(chars@) == trimmed_start(chars@.skip(at as int)),
        decreases chars.len() - at,
    {
        assert(chars@.skip(at as int).drop_first() =~= chars@.skip(at + 1));
        at = at + 1;
    }
    assert(chars@.subrange(at as int, chars@.len() as int) =~= chars@.skip(at as int));
    text_of(&chars, at, chars.len())
}

/// The white space at the start of a text.
pub fn leading_space(text: &str) -> (space: String)
    ensures
        space@ == text@.take(leading_spaces(text@) as int),
{
    let chars = chars_of(text);
    let mut at: usize = 0;
    assert(chars@.skip(0) =~= chars@);
    while at < chars.len() && is_whitespace(chars[at])
        invariant
            at <= chars@.len(),
            leading_spaces(chars@) == at + leading_spaces(chars@.skip(at as int)),
        decreases chars.len() - at,
    {
        assert(chars@.skip(at as int).drop_first() =~= chars@.skip(at + 1));
        at = at + 1;
    }
    let space = text_of(&chars, 0, at);
    assert(chars@.subrange(0, at as int) =~= chars@.take(at as int));
    space
}

/// Removes the white space at the start and the end of a text.
pub fn trim(text: &str) -> (rest: String)
    ensures
        rest@ == trimmed(text@),
{
    let chars = chars_of(text);
    let mut from: usize = 0;
    assert(chars@.skip(0) =~= chars@);
    while from < chars.len() && is_whitespace(chars[from])
        invariant
            from <= chars@.len(),
            trimmed_start(chars@) == trimmed_start(chars@.skip(from as int)),
        decreases chars.len() - from,
    {
        assert(chars@.skip(from as int).drop_first() =~= chars@.skip(from + 1));
        from = from + 1;
    }
    let ghost rest = chars@.skip(from as int);
    assert(trimmed_start(chars@) == rest);
    let mut to: usize = chars.len();
    assert(chars@.subrange(from as int, to as int) =~= rest);
    while to > from && is_whitespace(chars[to - 1])
        invariant
            from <= to <= chars@.len(),
            trimmed_end(rest) == trimmed_end(chars@.subrange(from as int, to as int)),
        decreases to,
    {
        assert(chars@.subrange(from as int, to as int).drop_last() =~= chars@.subrange(
            from as int,
            to - 1,
        ));
        assert(chars@.subrange(from as int, to as int).last() == chars@[to - 1]);
        to = to - 1;
    }
    text_of(&chars, from, to)
}

/// Whether a text holds nothing but white space.
pub fn is_blank(text: &str) -> (blank: bool)
    ensures
        blank == (trimmed(text@).len() == 0),
{
    trim(text).as_str().is_empty()
}


// ---------------------------------------------------------------------------
// Prefixes and searching
// ---------------------------------------------------------------------------

/// Whether `part` stands in `text` at position `at`.
pub open spec fn occurs_at(text: Seq<char>, part: Seq<char>, at: int) -> bool {
    0 <= at && at + part.len() <= text.len() && text.subrange(at, at + part.len()) == part
}

/// Whether a text starts with another.
pub open spec fn begins_with(text: Seq<char>, prefix: Seq<char>) -> bool {
    occurs_at(text, prefix, 0)
}

/// Whether a text ends with another.
pub open spec fn finishes_with(text: Seq<char>, suffix: Seq<char>) -> bool {
    occurs_at(text, suffix, text.len() - suffix.len())
}

/// Where `part` first stands in `text` at or after position `from`.
pub open spec fn find_from(text: Seq<char>, part: Seq<char>, from: int) -> Option<int>
    decreases text.len() - from + 1,
{
    if from < 0 || from > text.len() {
        None
    } else if occurs_at(text, part, from) {
        Some(from)
    } else {
        find_from(text, part, from + 1)
    }
}

/// Where `part` first stands in `text`.
pub open spec fn find_in(text: Seq<char>, part: Seq<char>) -> Option<int> {
    find_from(text, part, 0)
}

/// Whether `part` stands anywhere in `text`.
pub open spec fn has_part(text: Seq<char>, part: Seq<char>) -> bool {
    exists|at: int| occurs_at(text, part, at)
}

/// A found position is the first one at which the part stands.
pub proof fn lemma_find_from(text: Seq<char>, part: Seq<char>, from: int)
    requires
        0 <= from,
    ensures
        match find_from(text, part, from) {
            Some(at) => from <= at && occurs_at(text, part, at) && (forall|i: int|
                from <= i < at ==> !occurs_at(text, part, i)),
            None => forall|i: int| from <= i ==> !occurs_at(text, part, i),
        },
    decreases text.len() - from + 1,
{
    if from <= text.len() && !occurs_at(text, part, from) {
        lemma_find_from(text, part, from + 1);
    }
}

/// Whether `part` stands in `text` at position `at`.
pub fn part_at(text: &Vec<char>, part: &Vec<char>, at: usize) -> (found: bool)
    ensures
        found == occurs_at(text@, part@, at as int),
{
    if part.len() > text.len() || at > text.len() - part.len() {
        return false;
    }
    let mut i: usize = 0;
    let length: usize = text.len();
    while i < part.len()
        invariant
            i <= part@.len(),
            at + part@.len() <= length == text@.len(),
            forall|k: int| 0 <= k < i ==> text@[at + k] == part@[k],
        decreases part.len() - i,
    {
        if text[at + i] != part[i] {
            assert(text@.subrange(at as int, at + part@.len())[i as int] != part@[i as int]);
            return false;
        }
        i = i + 1;
    }
    assert(text@.subrange(at as int, at + part@.len()) =~= part@);
    true
}

/// Where `part` first stands in `text` at or after position `from`.
pub fn find_part(text: &Vec<char>, part: &Vec<char>, from: usize) -> (found: Option<usize>)
    ensures
        match found {
            Some(at) => find_from(text@, part@, from as int) == Some(at as int) && at + part@.len()
                <= text@.len(),
            None => find_from(text@, part@, from as int) is None,
        },
{
    if from > text.len() {
        return None;
    }
    let mut at: usize = from;
    loop
        invariant
            from <= at <= text@.len(),
            find_from(text@, part@, from as int) == find_from(text@, part@, at as int),
        decreases text.len() - at,
    {
        if part_at(text, part, at) {
            return Some(at);
        }
        if at == text.len() {
            assert(find_from(text@, part@, at + 1) is None);
            return None;
        }
        at = at + 1;
    }
}

/// Whether a text starts with another.
pub fn starts_with(text: &str, prefix: &str) -> (found: bool)
    ensures
        found == begins_with(text@, prefix@),
{
    part_at(&chars_of(text), &chars_of(prefix), 0)
}

/// Whether a text ends with another.
pub fn ends_with(text: &str, suffix: &str) -> (found: bool)
    ensures
        found == finishes_with(text@, suffix@),
{
    let chars = chars_of(text);
    let tail = chars_of(suffix);
    if tail.len() > chars.len() {
        return false;
    }
    part_at(&chars, &tail, chars.len() - tail.len())
}

/// Whether `part` stands anywhere in `text`.
pub fn contains(text: &str, part: &str) -> (found: bool)
    ensures
        found == has_part(text@, part@),
{
    let found = find_part(&chars_of(text), &chars_of(part), 0);
    proof {
        lemma_find_from(text@, part@, 0);
        if found is Some {
            assert(occurs_at(text@, part@, found->Some_0 as int));
        } else {
            assert forall|at: int| !occurs_at(text@, part@, at) by {}
        }
    }
    found.is_some()
}

/// What follows a prefix, where the text starts with it.
pub open spec fn after_prefix(text: Seq<char>, prefix: Seq<char>) -> Option<Seq<char>> {
    if begins_with(text, prefix) {
        Some(text.skip(prefix.len() as int))
    } else {
        None
    }
}

/// What precedes a suffix, where the text ends with it.
pub open spec fn before_suffix(text: Seq<char>, suffix: Seq<char>) -> Option<Seq<char>> {
    if finishes_with(text, suffix) {
        Some(text.take(text.len() - suffix.len()))
    } else {
        None
    }
}

/// Removes a prefix.
pub fn strip_prefix(text: &str, prefix: &str) -> (rest: Option<String>)
    ensures
        opt_text(rest) == after_prefix(text@, prefix@),
{
    let chars = chars_of(text);
    let head = chars_of(prefix);
    if part_at(&chars, &head, 0) {
        let rest = text_of(&chars, head.len(), chars.len());
        assert(chars@.subrange(head@.len() as int, chars@.len() as int) =~= text@.skip(
            prefix@.len() as int,
        ));
        Some(rest)
    } else {
        None
    }
}

/// Removes a suffix.
pub fn strip_suffix(text: &str, suffix: &str) -> (rest: Option<String>)
    ensures
        opt_text(rest) == before_suffix(text@, suffix@),
{
    let chars = chars_of(text);
    let tail = chars_of(suffix);
    if tail.len() <= chars.len() && part_at(&chars, &tail, chars.len() - tail.len()) {
        let rest = text_of(&chars, 0, chars.len() - tail.len());
        assert(chars@.subrange(0, chars@.len() - tail@.len()) =~= text@.take(
            text@.len() - suffix@.len(),
        ));
        Some(rest)
    } else {
        None
    }
}

/// The two sides of the first place at which `part` stands.
pub open spec fn cut_at(text: Seq<char>, part: Seq<char>) -> Option<(Seq<char>, Seq<char>)> {
    match find_in(text, part) {
        Some(at) => Some((text.take(at), text.skip(at + part.len()))),
        None => None,
    }
}

/// Splits a text at the first place at which `part` stands.
pub fn split_once(text: &str, part: &str) -> (sides: Option<(String, String)>)
    ensures
        match sides {
            Some((left, right)) => cut_at(text@, part@) == Some((left@, right@)),
            None => cut_at(text@, part@) is None,
        },
{
    let chars = chars_of(text);
    let middle = chars_of(part);
    let length: usize = chars.len();
    match find_part(&chars, &middle, 0) {
        Some(at) => {
            let left = text_of(&chars, 0, at);
            let right = text_of(&chars, at + middle.len(), length);
            assert(left@ =~= text@.take(at as int));
            assert(right@ =~= text@.skip(at + part@.len()));
            Some((left, right))
        },
        None => None,
    }
}

/// The first `count` characters of a text, or all of it where it is shorter.
pub open spec fn head_of(text: Seq<char>, count: int) -> Seq<char> {
    if text.len() <= count {
        text
    } else {
        text.take(count)
    }
}

/// The first characters of a text.
pub fn take_chars(text: &str, count: usize) -> (head: String)
    ensures
        head@ == head_of(text@, count as int),
{
    let chars = chars_of(text);
    let to = if chars.len() <= count { chars.len() } else { count };
    let head = text_of(&chars, 0, to);
    assert(head@ =~= head_of(text@, count as int));
    head
}

// ---------------------------------------------------------------------------
// Lines
// ---------------------------------------------------------------------------

/// A line without the carriage return at its end, where it has one.
pub open spec fn without_return(line: Seq<char>) -> Seq<char> {
    if line.len() > 0 && line.last() == '\r' {
        line.drop_last()
    } else {
        line
    }
}

/// The lines of a text: each ends with a line feed, or with a carriage return
/// and a line feed, which do not belong to it; after the last line they may be
/// missing.
pub open spec fn lines_of(text: Seq<char>) -> Seq<Seq<char>> {
    lines_from(text, 0, 0)
}

/// The lines of a text from position `start`, of which the characters before
/// `at` are known to hold no line feed.
pub open spec fn lines_from(text: Seq<char>, start: int, at: int) -> Seq<Seq<char>>
    decreases text.len() - at,
{
    if at < 0 || at >= text.len() {
        if start < text.len() {
            seq![text.subrange(start, text.len() as int)]
        } else {
            Seq::empty()
        }
    } else if text[at] == '\n' {
        seq![without_return(text.subrange(start, at))] + lines_from(text, at + 1, at + 1)
    } else {
        lines_from(text, start, at + 1)
    }
}

/// The lines of a text.
pub fn lines(text: &str) -> (items: Vec<String>)
    ensures
        texts(items@) == lines_of(text@),
{
    let chars = chars_of(text);
    let mut items: Vec<String> = Vec::new();
    let mut start: usize = 0;
    let mut at: usize = 0;
    assert(texts(items@) + lines_from(chars@, 0, 0) =~= lines_of(text@));
    while at < chars.len()
        invariant
            start <= at <= chars@.len(),
            text@ == chars@,
            texts(items@) + lines_from(chars@, start as int, at as int) == lines_of(text@),
        decreases chars.len() - at,
    {
        if chars[at] == '\n' {
            let end = if at > start && chars[at - 1] == '\r' { at - 1 } else { at };
            let line = text_of(&chars, start, end);
            let ghost before = texts(items@);
            assert(line@ =~= without_return(chars@.subrange(start as int, at as int)));
            items.push(line);
            assert(texts(items@) =~= before.push(line@));
            assert(before.push(line@) + lines_from(chars@, at + 1, at + 1) =~= before + (seq![line@]
                + lines_from(chars@, at + 1, at + 1)));
            start = at + 1;
        }
        at = at + 1;
    }
    if start < chars.len() {
        let line = text_of(&chars, start, chars.len());
        let ghost before = texts(items@);
        items.push(line);
        assert(texts(items@) =~= before + seq![line@]);
    } else {
        assert(texts(items@) + Seq::<Seq<char>>::empty() =~= texts(items@));
    }
    items
}

// ---------------------------------------------------------------------------
// Letter case
// ---------------------------------------------------------------------------

/// The lower case of an ASCII upper case letter, and any other character as it is.
pub open spec fn ascii_lower(ch: char) -> char {
    if 'A' <= ch <= 'Z' {
        ((ch as u32) + 32) as char
    } else {
        ch
    }
}

/// A text with its ASCII letters in lower case.
pub open spec fn lowered(text: Seq<char>) -> Seq<char> {
    text.map_values(|ch: char| ascii_lower(ch))
}

fn lower_char(ch: char) -> (lower: char)
    ensures
        lower == ascii_lower(ch),
{
    if 'A' <= ch && ch <= 'Z' {
        ((ch as u8) + 32) as char
    } else {
        ch
    }
}

/// Puts the ASCII letters of a text in lower case.
pub fn to_ascii_lowercase(text: &str) -> (lower: String)
    ensures
        lower@ == lowered(text@),
{
    let chars = chars_of(text);
    let mut lower = String::new();
    let mut at: usize = 0;
    while at < chars.len()
        invariant
            at <= chars@.len(),
            lower@ == lowered(chars@.take(at as int)),
        decreases chars.len() - at,
    {
        lower.push(lower_char(chars[at]));
        assert(lower@ =~= lowered(chars@.take(at + 1)));
        at = at + 1;
    }
    assert(chars@.take(at as int) =~= chars@);
    lower
}

/// Whether two texts are equal but for the case of ASCII letters.
pub fn eq_ignore_ascii_case(left: &str, right: &str) -> (equal: bool)
    ensures
        equal == (lowered(left@) == lowered(right@)),
{
    same(to_ascii_lowercase(left).as_str(), to_ascii_lowercase(right).as_str())
}

// ---------------------------------------------------------------------------
// Order
// ---------------------------------------------------------------------------

/// Whether a text comes before another in the order of their code points, from
/// left to right.
pub open spec fn text_lt(left: Seq<char>, right: Seq<char>) -> bool
    decreases left.len(),
{
    if right.len() == 0 {
        false
    } else if left.len() == 0 {
        true
    } else if left[0] != right[0] {
        left[0] < right[0]
    } else {
        text_lt(left.drop_first(), right.drop_first())
    }
}

/// No text comes before itself.
pub proof fn lemma_text_lt_irreflexive(text: Seq<char>)
    ensures
        !text_lt(text, text),
    decreases text.len(),
{
    if text.len() > 0 {
        lemma_text_lt_irreflexive(text.drop_first());
    }
}

/// What comes before a text comes before all that come after it.
pub proof fn lemma_text_lt_transitive(a: Seq<char>, b: Seq<char>, c: Seq<char>)
    requires
        text_lt(a, b),
        text_lt(b, c),
    ensures
        text_lt(a, c),
    decreases a.len(),
{
    if a.len() > 0 && a[0] == b[0] && b[0] == c[0] {
        lemma_text_lt_transitive(a.drop_first(), b.drop_first(), c.drop_first());
    }
}

/// Of two different texts one comes before the other.
pub proof fn lemma_text_lt_total(a: Seq<char>, b: Seq<char>)
    ensures
        a == b || text_lt(a, b) || text_lt(b, a),
    decreases a.len(),
{
    if a.len() > 0 && b.len() > 0 && a[0] == b[0] {
        lemma_text_lt_total(a.drop_first(), b.drop_first());
        if a.drop_first() == b.drop_first() {
            assert(a =~= seq![a[0]] + a.drop_first());
            assert(b =~= seq![b[0]] + b.drop_first());
        }
    } else if a.len() == 0 && b.len() == 0 {
        assert(a =~= b);
    }
}

/// Whether a text comes before another.
pub fn precedes(left: &str, right: &str) -> (before: bool)
    ensures
        before == text_lt(left@, right@),
{
    let a = chars_of(left);
    let b = chars_of(right);
    let mut at: usize = 0;
    assert(a@.skip(0) =~= a@ && b@.skip(0) =~= b@);
    while at < a.len() && at < b.len() && a[at] == b[at]
        invariant
            at <= a@.len(),
            at <= b@.len(),
            text_lt(a@, b@) == text_lt(a@.skip(at as int), b@.skip(at as int)),
        decreases a.len() - at,
    {
        assert(a@.skip(at as int).drop_first() =~= a@.skip(at + 1));
        assert(b@.skip(at as int).drop_first() =~= b@.skip(at + 1));
        at = at + 1;
    }
    if at >= b.len() {
        false
    } else if at >= a.len() {
        true
    } else {
        a[at] < b[at]
    }
}

// ---------------------------------------------------------------------------
// What holds of these operations
// ---------------------------------------------------------------------------

/// A trimmed text is a part of the text that neither starts nor ends with white space; all that was
/// cut off is white space.
pub proof fn law_trimming_cuts_off_space_only(text: Seq<char>)
    ensures
        ({
            let rest = trimmed(text);
            &&& rest.len() > 0 ==> !is_space(rest[0]) && !is_space(rest.last())
            &&& exists|at: int| #[trigger] stands_alone(text, rest, at)
        }),
{
    let start = trimmed_start(text);
    lemma_trimmed_start(text);
    lemma_trimmed_end(start);
    let rest = trimmed(text);
    let at = text.len() - start.len();
    assert(rest == start.take(rest.len() as int));
    assert(text.subrange(at, at + rest.len()) =~= rest);
    assert forall|i: int| at + rest.len() <= i < text.len() implies is_space(
        #[trigger] text[i],
    ) by {
        assert(text[i] == start[i - at]);
    }
    assert(stands_alone(text, rest, at));
}

/// Whether a part stands at a place of a text with nothing but white space around it.
pub open spec fn stands_alone(text: Seq<char>, part: Seq<char>, at: int) -> bool {
    &&& 0 <= at
    &&& at + part.len() <= text.len()
    &&& text.subrange(at, at + part.len()) == part
    &&& forall|i: int|
        0 <= i < at || at + part.len() <= i < text.len() ==> is_space(#[trigger] text[i])
}

proof fn lemma_trimmed_start(text: Seq<char>)
    ensures
        trimmed_start(text).len() <= text.len(),
        trimmed_start(text) == text.skip(text.len() - trimmed_start(text).len()),
        trimmed_start(text).len() > 0 ==> !is_space(trimmed_start(text)[0]),
        forall|i: int|
            0 <= i < text.len() - trimmed_start(text).len() ==> is_space(#[trigger] text[i]),
    decreases text.len(),
{
    if text.len() > 0 && is_space(text[0]) {
        let rest = text.drop_first();
        lemma_trimmed_start(rest);
        let cut = text.len() - trimmed_start(text).len();
        assert(text.skip(cut) =~= rest.skip(cut - 1));
        assert forall|i: int| 0 <= i < cut implies is_space(#[trigger] text[i]) by {
            if i > 0 {
                assert(text[i] == rest[i - 1]);
            }
        }
    } else {
        assert(text.skip(0) =~= text);
    }
}

/// What is left without the white space at the end is what the text starts with.
pub proof fn lemma_trimmed_end(text: Seq<char>)
    ensures
        trimmed_end(text).len() <= text.len(),
        trimmed_end(text) == text.take(trimmed_end(text).len() as int),
        trimmed_end(text).len() > 0 ==> !is_space(trimmed_end(text).last()),
        text.len() > 0 && !is_space(text[0]) ==> trimmed_end(text).len() > 0,
        forall|i: int| trimmed_end(text).len() <= i < text.len() ==> is_space(#[trigger] text[i]),
    decreases text.len(),
{
    if text.len() > 0 && is_space(text.last()) {
        let rest = text.drop_last();
        lemma_trimmed_end(rest);
        let size = trimmed_end(text).len() as int;
        assert(text.take(size) =~= rest.take(size));
        assert forall|i: int| size <= i < text.len() implies is_space(#[trigger] text[i]) by {
            if i < rest.len() {
                assert(text[i] == rest[i]);
            }
        }
    } else {
        assert(text.take(text.len() as int) =~= text);
    }
}

/// White space is what Unicode gives that property: the tabs and line ends, the space, the next line
/// and the wide, narrow and fixed spaces; no letter, digit or sign is.
pub proof fn law_letters_are_no_space(ch: char)
    ensures
        ch == ' ' || ch == '\n' || ch == '\r' || ch == '\t' ==> is_space(ch),
        '!' <= ch <= '~' ==> !is_space(ch),
        is_space(ch) ==> ch <= ' ' || ch == '\u{85}' || ch == '\u{a0}' || ch == '\u{1680}'
            || '\u{2000}' <= ch <= '\u{200a}' || '\u{2028}' <= ch <= '\u{2029}' || ch
            == '\u{202f}' || ch == '\u{205f}' || ch == '\u{3000}',
{
}

/// Texts that are joined stand one after another, with the separator between each two.
pub proof fn law_joining_adds_separators(
    items: Seq<Seq<char>>,
    last: Seq<char>,
    separator: Seq<char>,
)
    ensures
        joined(Seq::<Seq<char>>::empty(), separator) == Seq::<char>::empty(),
        joined(seq![last], separator) == last,
        items.len() > 0 ==> joined(items.push(last), separator) == joined(items, separator)
            + separator + last,
{
    assert(items.push(last).drop_last() =~= items);
}

/// A number in decimal starts with no zero unless it is zero, and ten times the number with a digit
/// behind it is written by adding that digit.
pub proof fn law_decimals_are_read_from_the_left(number: nat, digit: nat)
    requires
        digit < 10,
    ensures
        number > 0 ==> decimal((10 * number + digit) as nat) == decimal(number) + decimal(digit),
        decimal(0) == "0"@,
        number > 0 ==> decimal(number)[0] != '0',
    decreases number,
{
    reveal_strlit("0");
    assert(decimal(0) =~= "0"@);
    if number > 0 {
        assert((10 * number + digit) / 10 == number);
        assert((10 * number + digit) % 10 == digit);
        assert(decimal(number).push(digit_char(digit)) =~= decimal(number) + decimal(digit));
        if number >= 10 {
            law_decimals_are_read_from_the_left(number / 10, digit);
            lemma_decimal_len(number / 10);
        }
    }
}

proof fn lemma_decimal_len(number: nat)
    ensures
        decimal(number).len() > 0,
    decreases number,
{
    if number >= 10 {
        lemma_decimal_len(number / 10);
    }
}

/// The lower case of a text changes just the capital letters of ASCII, each into its small letter.
pub proof fn law_lower_case_changes_capitals_only(text: Seq<char>, i: int)
    requires
        0 <= i < text.len(),
    ensures
        lowered(text).len() == text.len(),
        !('A' <= text[i] <= 'Z') ==> lowered(text)[i] == text[i],
        'A' <= text[i] <= 'Z' ==> 'a' <= lowered(text)[i] <= 'z' && lowered(text)[i] as u32 - 'a' as u32
            == text[i] as u32 - 'A' as u32,
{
}

} // verus!
