//! Rollout files of one session: of several the one that continues the others is
//! preferred, and else the one changed last.

use vstd::prelude::*;
use vstd::utf8::encode_utf8;

use crate::gui_visibility::{is_session_uuid, is_uuid};
use crate::sorted::{lemma_ascending_distinct, lemma_sorted_texts, sort_texts, sorted_texts};
use crate::stamps::{is_digit, is_stamp};
use crate::text::{
    after_prefix, before_suffix, begins_with, chars_of, contains, cut_at, find_in, finishes_with,
    has_part, lemma_find_from, occurs_at, opt_text, same, split_once, strip_prefix, strip_suffix,
    text_of, texts,
};

verus! {

/// Whether a file name is that of a rollout which continues another: one that ends in
/// `.jsonl`, starts with `rollout-` and has an underscore in between.
pub open spec fn name_continues(name: Seq<char>) -> bool {
    match before_suffix(name, ".jsonl"@) {
        Some(stem) => match after_prefix(stem, "rollout-"@) {
            Some(rest) => has_part(rest, "_"@),
            None => false,
        },
        None => false,
    }
}

/// Whether a file name is that of a rollout which continues another; `None` stands for a
/// name that is no text.
pub fn rollout_filename_is_paginated_continuation(name: Option<&str>) -> (continues: bool)
    ensures
        continues == match name {
            Some(name) => name_continues(name@),
            None => false,
        },
{
    let name = match name {
        Some(name) => name,
        None => return false,
    };
    let stem = match strip_suffix(name, ".jsonl") {
        Some(stem) => stem,
        None => return false,
    };
    match strip_prefix(stem.as_str(), "rollout-") {
        Some(rest) => contains(rest.as_str(), "_"),
        None => false,
    }
}

/// The part of a text after its last hyphen; `None` where it has none.
pub open spec fn after_last_hyphen(text: Seq<char>) -> Option<Seq<char>>
    decreases text.len(),
{
    if text.len() == 0 {
        None
    } else if text.last() == '-' {
        Some(Seq::empty())
    } else {
        match after_last_hyphen(text.drop_last()) {
            Some(rest) => Some(rest.push(text.last())),
            None => None,
        }
    }
}

/// Whether a character is an ASCII letter.
pub open spec fn is_ascii_letter(ch: char) -> bool {
    'a' <= ch <= 'z' || 'A' <= ch <= 'Z'
}

/// Whether a text holds an ASCII letter.
pub open spec fn has_letter(text: Seq<char>) -> bool {
    exists|i: int| 0 <= i < text.len() && is_ascii_letter(#[trigger] text[i])
}

/// The session id that the stem of a rollout's file name holds, where it has the form
/// `rollout-<stamp>-<uuid>` or `rollout-<stamp>-<uuid>_<id of the continuation>`.
pub open spec fn id_in_name(stem: Seq<char>) -> Option<Seq<char>> {
    match after_prefix(stem, "rollout-"@) {
        Some(rest) => if rest.len() >= 20 && is_stamp(rest.take(19)) && rest[19] == '-' {
            let id = match cut_at(rest.skip(20), "_"@) {
                Some((id, _)) => id,
                None => rest.skip(20),
            };
            if is_uuid(id) {
                Some(id)
            } else {
                None
            }
        } else {
            None
        },
        None => None,
    }
}

/// A text, where it can be a session id: it has at least 8 bytes and a letter.
pub open spec fn if_id(candidate: Seq<char>) -> Option<Seq<char>> {
    if encode_utf8(candidate).len() >= 8 && has_letter(candidate) {
        Some(candidate)
    } else {
        None
    }
}

/// The session id that the stem of a rollout's file name still tells: the one that a name of
/// the usual form holds, and of any other name what follows its last hyphen. Either must be
/// one that can be a session id.
pub open spec fn salvaged_id(stem: Seq<char>) -> Option<Seq<char>> {
    match id_in_name(stem) {
        Some(id) => if_id(id),
        None => match after_last_hyphen(stem) {
            Some(candidate) => if_id(candidate),
            None => None,
        },
    }
}

proof fn lemma_after_last_hyphen(text: Seq<char>, at: int)
    requires
        0 <= at < text.len(),
        text[at] == '-',
        forall|i: int| at < i < text.len() ==> text[i] != '-',
    ensures
        after_last_hyphen(text) == Some(text.skip(at + 1)),
    decreases text.len(),
{
    if at < text.len() - 1 {
        lemma_after_last_hyphen(text.drop_last(), at);
        assert(text.drop_last().skip(at + 1).push(text.last()) =~= text.skip(at + 1));
    } else {
        assert(text.skip(at + 1) =~= Seq::empty());
    }
}

proof fn lemma_no_hyphen(text: Seq<char>)
    requires
        forall|i: int| 0 <= i < text.len() ==> text[i] != '-',
    ensures
        after_last_hyphen(text) is None,
    decreases text.len(),
{
    if text.len() > 0 {
        lemma_no_hyphen(text.drop_last());
    }
}

fn holds_letter(text: &str) -> (found: bool)
    ensures
        found == has_letter(text@),
{
    let chars = chars_of(text);
    let mut at: usize = 0;
    while at < chars.len()
        invariant
            at <= chars@.len(),
            chars@ == text@,
            forall|i: int| 0 <= i < at ==> !is_ascii_letter(#[trigger] chars@[i]),
        decreases chars.len() - at,
    {
        let ch = chars[at];
        if ('a' <= ch && ch <= 'z') || ('A' <= ch && ch <= 'Z') {
            assert(is_ascii_letter(text@[at as int]));
            return true;
        }
        at = at + 1;
    }
    false
}

fn keep_id(candidate: String) -> (id: Option<String>)
    ensures
        opt_text(id) == if_id(candidate@),
{
    if candidate.as_str().as_bytes().len() >= 8 && holds_letter(candidate.as_str()) {
        Some(candidate)
    } else {
        None
    }
}

fn starts_with_stamp(chars: &Vec<char>) -> (found: bool)
    requires
        chars@.len() >= 19,
    ensures
        found == is_stamp(chars@.take(19)),
{
    let ghost head = chars@.take(19);
    if chars[4] != '-' || chars[7] != '-' || chars[10] != 'T' || chars[13] != '-' || chars[16]
        != '-' {
        return false;
    }
    let mut at: usize = 0;
    while at < 19
        invariant
            at <= 19 <= chars@.len(),
            head == chars@.take(19),
            forall|i: int|
                0 <= i < at && i != 4 && i != 7 && i != 10 && i != 13 && i != 16 ==> is_digit(
                    #[trigger] head[i],
                ),
        decreases 19 - at,
    {
        let ch = chars[at];
        let separator = at == 4 || at == 7 || at == 10 || at == 13 || at == 16;
        assert(head[at as int] == ch);
        if !separator && !('0' <= ch && ch <= '9') {
            assert(!is_digit(head[at as int]));
            return false;
        }
        at = at + 1;
    }
    true
}

fn find_id_in_name(stem: &str) -> (id: Option<String>)
    ensures
        opt_text(id) == id_in_name(stem@),
{
    let rest = match strip_prefix(stem, "rollout-") {
        Some(rest) => rest,
        None => return None,
    };
    let chars = chars_of(rest.as_str());
    if chars.len() < 20 || !starts_with_stamp(&chars) || chars[19] != '-' {
        return None;
    }
    let named = text_of(&chars, 20, chars.len());
    assert(named@ =~= rest@.skip(20));
    let id = match split_once(named.as_str(), "_") {
        Some((id, _)) => id,
        None => named,
    };
    if is_session_uuid(id.as_str()) {
        Some(id)
    } else {
        None
    }
}

fn find_last_part(stem: &str) -> (part: Option<String>)
    ensures
        opt_text(part) == after_last_hyphen(stem@),
{
    let chars = chars_of(stem);
    let mut at: usize = chars.len();
    while at > 0 && chars[at - 1] != '-'
        invariant
            at <= chars@.len(),
            forall|i: int| at <= i < chars@.len() ==> chars@[i] != '-',
        decreases at,
    {
        at = at - 1;
    }
    if at == 0 {
        proof {
            lemma_no_hyphen(chars@);
        }
        return None;
    }
    proof {
        lemma_after_last_hyphen(chars@, at - 1);
    }
    let part = text_of(&chars, at, chars.len());
    assert(part@ =~= chars@.skip(at as int));
    Some(part)
}

/// The session id that the stem of a rollout's file name still tells.
pub fn salvage_id_from_filename(stem: &str) -> (id: Option<String>)
    ensures
        opt_text(id) == salvaged_id(stem@),
{
    match find_id_in_name(stem) {
        Some(id) => keep_id(id),
        None => match find_last_part(stem) {
            Some(part) => keep_id(part),
            None => None,
        },
    }
}

// ---------------------------------------------------------------------------
// Choosing among several files
// ---------------------------------------------------------------------------

/// A rollout file of a session, as far as the choice goes.
pub struct Candidate {
    pub id: String,
    pub updated_at_ms: i64,
    pub is_continuation: bool,
}

/// What a [`Candidate`] holds.
#[verifier::ext_equal]
pub struct CandidateView {
    pub id: Seq<char>,
    pub updated_at_ms: int,
    pub is_continuation: bool,
}

impl View for Candidate {
    type V = CandidateView;

    open spec fn view(&self) -> CandidateView {
        CandidateView {
            id: self.id@,
            updated_at_ms: self.updated_at_ms as int,
            is_continuation: self.is_continuation,
        }
    }
}

/// What a list of candidates holds.
pub open spec fn candidates_view(candidates: Seq<Candidate>) -> Seq<CandidateView> {
    candidates.map_values(|candidate: Candidate| candidate@)
}

/// The sessions of candidates.
pub open spec fn candidate_ids(candidates: Seq<CandidateView>) -> Seq<Seq<char>> {
    candidates.map_values(|candidate: CandidateView| candidate.id)
}

/// Whether a later file takes the place of an earlier one of the same session.
pub open spec fn replaces(later: CandidateView, earlier: CandidateView) -> bool {
    if later.is_continuation != earlier.is_continuation {
        later.is_continuation
    } else {
        later.updated_at_ms >= earlier.updated_at_ms
    }
}

/// The position of the file that is chosen for a session.
pub open spec fn chosen(candidates: Seq<CandidateView>, id: Seq<char>) -> Option<int>
    decreases candidates.len(),
{
    if candidates.len() == 0 {
        None
    } else {
        let last = candidates.len() - 1;
        match chosen(candidates.drop_last(), id) {
            Some(at) => if candidates[last].id == id && replaces(
                candidates[last],
                candidates[at],
            ) {
                Some(last)
            } else {
                Some(at)
            },
            None => if candidates[last].id == id {
                Some(last)
            } else {
                None
            },
        }
    }
}

/// Whether a later file takes the place of an earlier one of the same session.
pub fn takes_place(later: &Candidate, earlier: &Candidate) -> (takes: bool)
    ensures
        takes == replaces(later@, earlier@),
{
    if later.is_continuation && !earlier.is_continuation {
        true
    } else if !later.is_continuation && earlier.is_continuation {
        false
    } else {
        later.updated_at_ms >= earlier.updated_at_ms
    }
}

/// The position of the file that is chosen for a session.
pub fn choose_file(candidates: &Vec<Candidate>, id: &str) -> (position: Option<usize>)
    ensures
        match position {
            Some(at) => chosen(candidates_view(candidates@), id@) == Some(at as int) && at
                < candidates@.len() && candidates@[at as int].id@ == id@,
            None => chosen(candidates_view(candidates@), id@) is None,
        },
{
    let ghost all = candidates_view(candidates@);
    let mut position: Option<usize> = None;
    let mut at: usize = 0;
    while at < candidates.len()
        invariant
            at <= candidates@.len(),
            all == candidates_view(candidates@),
            match position {
                Some(found) => chosen(all.take(at as int), id@) == Some(found as int) && found < at
                    && candidates@[found as int].id@ == id@,
                None => chosen(all.take(at as int), id@) is None,
            },
        decreases candidates.len() - at,
    {
        assert(all.take(at + 1).drop_last() =~= all.take(at as int));
        assert(all[at as int] == candidates@[at as int]@);
        if same(candidates[at].id.as_str(), id) {
            let takes = match position {
                Some(found) => {
                    assert(all[found as int] == candidates@[found as int]@);
                    takes_place(&candidates[at], &candidates[found])
                },
                None => true,
            };
            if takes {
                position = Some(at);
            }
        }
        at = at + 1;
    }
    assert(all.take(at as int) =~= all);
    position
}

/// A chosen position is that of a file of the session.
pub proof fn lemma_chosen(candidates: Seq<CandidateView>, id: Seq<char>)
    ensures
        match chosen(candidates, id) {
            Some(at) => 0 <= at < candidates.len() && candidates[at].id == id,
            None => !candidate_ids(candidates).contains(id),
        },
    decreases candidates.len(),
{
    if candidates.len() > 0 {
        lemma_chosen(candidates.drop_last(), id);
        if chosen(candidates, id) is None && candidate_ids(candidates).contains(id) {
            let k = choose|k: int|
                0 <= k < candidates.len() && candidate_ids(candidates)[k] == id;
            if k < candidates.len() - 1 {
                assert(candidate_ids(candidates.drop_last())[k] == id);
            }
        }
    }
}

/// The sessions of all files, sorted, each with the position of the chosen file.
pub struct Choice {
    pub ids: Vec<String>,
    pub positions: Vec<usize>,
}

/// Whether a choice names each session once, in order, with its chosen file.
pub open spec fn is_choice(choice: Choice, candidates: Seq<CandidateView>) -> bool {
    &&& texts(choice.ids@) == sorted_texts(candidate_ids(candidates))
    &&& choice.positions@.len() == choice.ids@.len()
    &&& forall|i: int|
        0 <= i < choice.ids@.len() ==> chosen(candidates, texts(choice.ids@)[i]) == Some(
            (#[trigger] choice.positions@[i]) as int,
        ) && choice.positions@[i] < candidates.len()
}

/// Chooses one file for each session.
pub fn prefer_continuation(candidates: &Vec<Candidate>) -> (choice: Choice)
    ensures
        is_choice(choice, candidates_view(candidates@)),
{
    let ghost all = candidates_view(candidates@);
    let mut listed: Vec<String> = Vec::new();
    let mut at: usize = 0;
    while at < candidates.len()
        invariant
            at <= candidates@.len(),
            all == candidates_view(candidates@),
            texts(listed@) == candidate_ids(all.take(at as int)),
        decreases candidates.len() - at,
    {
        let ghost before = texts(listed@);
        listed.push(candidates[at].id.clone());
        assert(texts(listed@) =~= before.push(all[at as int].id));
        assert(texts(listed@) =~= candidate_ids(all.take(at + 1)));
        at = at + 1;
    }
    assert(all.take(at as int) =~= all);
    let ids = sort_texts(&listed);
    proof {
        lemma_sorted_texts(candidate_ids(all));
    }
    let mut positions: Vec<usize> = Vec::new();
    let mut next: usize = 0;
    while next < ids.len()
        invariant
            next <= ids@.len(),
            all == candidates_view(candidates@),
            positions@.len() == next,
            texts(ids@) == sorted_texts(candidate_ids(all)),
            forall|text: Seq<char>| #[trigger]
                sorted_texts(candidate_ids(all)).contains(text) <==> candidate_ids(all).contains(
                    text,
                ),
            forall|i: int|
                0 <= i < next ==> chosen(all, texts(ids@)[i]) == Some(
                    (#[trigger] positions@[i]) as int,
                ) && positions@[i] < all.len(),
        decreases ids.len() - next,
    {
        let ghost id = texts(ids@)[next as int];
        assert(sorted_texts(candidate_ids(all)).contains(id));
        proof {
            lemma_chosen(all, id);
        }
        match choose_file(candidates, ids[next].as_str()) {
            Some(position) => {
                positions.push(position);
            },
            None => {
                assert(false);
            },
        }
        next = next + 1;
    }
    Choice { ids, positions }
}

// ---------------------------------------------------------------------------
// Laws
// ---------------------------------------------------------------------------

/// Where any file of a session continues others, the chosen file does, in whatever order
/// the files come.
pub proof fn law_continuation_wins(candidates: Seq<CandidateView>, id: Seq<char>, i: int)
    requires
        0 <= i < candidates.len(),
        candidates[i].id == id,
        candidates[i].is_continuation,
    ensures
        chosen(candidates, id) matches Some(at) && candidates[at].is_continuation,
    decreases candidates.len(),
{
    let rest = candidates.drop_last();
    lemma_chosen(rest, id);
    if i < rest.len() {
        law_continuation_wins(rest, id, i);
    }
}

/// Of files of one kind none was changed later than the chosen one.
pub proof fn law_newest_of_a_kind_wins(candidates: Seq<CandidateView>, id: Seq<char>, i: int)
    requires
        0 <= i < candidates.len(),
        candidates[i].id == id,
    ensures
        chosen(candidates, id) matches Some(at) && (candidates[at].is_continuation
            == candidates[i].is_continuation ==> candidates[i].updated_at_ms
            <= candidates[at].updated_at_ms),
    decreases candidates.len(),
{
    let rest = candidates.drop_last();
    lemma_chosen(rest, id);
    if i < rest.len() {
        law_newest_of_a_kind_wins(rest, id, i);
        if candidates[i].is_continuation {
            law_continuation_wins(rest, id, i);
        }
    }
}

/// A choice names no session twice, and all that have a file.
pub proof fn law_choice_is_complete(choice: Choice, candidates: Seq<CandidateView>, i: int)
    requires
        is_choice(choice, candidates),
        0 <= i < candidates.len(),
    ensures
        texts(choice.ids@).no_duplicates(),
        texts(choice.ids@).contains(candidates[i].id),
{
    lemma_sorted_texts(candidate_ids(candidates));
    lemma_ascending_distinct(texts(choice.ids@));
    assert(candidate_ids(candidates)[i] == candidates[i].id);
}

/// Of two files of a session that are alike, the later one is taken.
pub proof fn law_of_equals_the_later_wins(candidates: Seq<CandidateView>, id: Seq<char>, i: int)
    requires
        chosen(candidates, id) matches Some(at) && at < i < candidates.len(),
        candidates[i].id == id,
        candidates[i].is_continuation == candidates[chosen(candidates, id)->Some_0].is_continuation,
    ensures
        candidates[i].updated_at_ms < candidates[chosen(candidates, id)->Some_0].updated_at_ms,
    decreases candidates.len(),
{
    let rest = candidates.drop_last();
    let at = chosen(candidates, id)->Some_0;
    lemma_chosen(candidates, id);
    lemma_chosen(rest, id);
    if i < rest.len() {
        assert(rest[i] == candidates[i] && rest[at] == candidates[at]);
        law_of_equals_the_later_wins(rest, id, i);
    }
}

/// The name of a rollout tells that it continues another just where an underscore stands in it
/// between what all such names start and end with.
pub proof fn law_which_names_continue(name: Seq<char>, middle: Seq<char>)
    requires
        name == "rollout-"@ + middle + ".jsonl"@,
    ensures
        name_continues(name) <==> middle.contains('_'),
{
    reveal_strlit("rollout-");
    reveal_strlit(".jsonl");
    reveal_strlit("_");
    let head = "rollout-"@;
    let tail = ".jsonl"@;
    assert(head.len() == 8 && tail.len() == 6 && "_"@ =~= seq!['_']);
    assert(name.subrange(name.len() - 6, name.len() as int) =~= tail);
    let stem = name.take(name.len() - 6);
    assert(stem =~= head + middle);
    assert(stem.subrange(0, 8) =~= head);
    assert(stem.skip(8) =~= middle);
    if middle.contains('_') {
        let i = choose|i: int| 0 <= i < middle.len() && middle[i] == '_';
        assert(middle.subrange(i, i + 1) =~= "_"@);
        assert(occurs_at(middle, "_"@, i));
    }
    if has_part(middle, "_"@) {
        let at = choose|at: int| occurs_at(middle, "_"@, at);
        assert(middle.subrange(at, at + 1)[0] == '_');
        assert(middle[at] == '_');
    }
}

/// A name of another form tells nothing of a continuation.
pub proof fn law_other_names_continue_nothing(name: Seq<char>)
    ensures
        name_continues(name) ==> begins_with(name, "rollout-"@) && finishes_with(name, ".jsonl"@),
{
    if name_continues(name) {
        reveal_strlit("rollout-");
        reveal_strlit(".jsonl");
        let stem = name.take(name.len() - 6);
        assert(".jsonl"@.len() == 6 && "rollout-"@.len() == 8);
        assert(begins_with(stem, "rollout-"@));
        assert(name.subrange(0, 8) =~= stem.subrange(0, 8));
    }
}

/// The id of a session is read from the name of its rollout, whether or not the name goes on behind
/// the id.
pub proof fn law_ids_are_read_from_names(
    stamp: Seq<char>,
    id: Seq<char>,
    more: Seq<char>,
    goes_on: bool,
)
    requires
        is_stamp(stamp),
        is_uuid(id),
        has_letter(id),
    ensures
        salvaged_id(
            "rollout-"@ + stamp + "-"@ + id + if goes_on {
                "_"@ + more
            } else {
                Seq::<char>::empty()
            },
        ) == Some(id),
{
    reveal_strlit("rollout-");
    reveal_strlit("-");
    reveal_strlit("_");
    let head = "rollout-"@;
    let end = if goes_on {
        "_"@ + more
    } else {
        Seq::<char>::empty()
    };
    let stem = head + stamp + "-"@ + id + end;
    assert(head.len() == 8 && "-"@ =~= seq!['-'] && "_"@ =~= seq!['_']);
    assert(stem.subrange(0, 8) =~= head);
    let rest = stem.skip(8);
    assert(rest.take(19) =~= stamp);
    assert(rest[19] == '-');
    let tail = rest.skip(20);
    assert(tail =~= id + end);
    assert forall|i: int| 0 <= i < id.len() implies id[i] != '_' && tail[i] == id[i] by {}
    lemma_find_from(tail, "_"@, 0);
    if goes_on {
        assert(tail.subrange(36, 37) =~= "_"@);
        assert(occurs_at(tail, "_"@, 36));
        let at = find_in(tail, "_"@)->Some_0;
        assert(tail.subrange(at, at + 1)[0] == '_');
        assert(tail[at] == '_');
        assert(at == 36);
        assert(tail.take(36) =~= id);
    } else {
        if find_in(tail, "_"@) is Some {
            let at = find_in(tail, "_"@)->Some_0;
            assert(tail.subrange(at, at + 1)[0] == '_');
            assert(tail[at] == '_');
        }
        assert(tail =~= id);
    }
    assert(id_in_name(stem) == Some(id));
    lemma_uuid_bytes(id);
}

proof fn lemma_uuid_bytes(id: Seq<char>)
    requires
        is_uuid(id),
    ensures
        encode_utf8(id).len() >= 8,
{
    lemma_encode_len(id);
}

proof fn lemma_encode_len(text: Seq<char>)
    ensures
        encode_utf8(text).len() >= text.len(),
    decreases text.len(),
{
    if text.len() > 0 {
        lemma_encode_len(text.drop_first());
    }
}

/// Whether what follows the last hyphen of a text is another.
pub open spec fn is_last_part(text: Seq<char>, part: Seq<char>, at: int) -> bool {
    0 <= at < text.len() && text[at] == '-' && part == text.skip(at + 1) && !part.contains('-')
}

/// What is read from a name as an id has a letter and at least eight bytes; it either has the form of
/// a session id or is what follows the last hyphen.
pub proof fn law_what_passes_as_an_id(stem: Seq<char>)
    ensures
        salvaged_id(stem) matches Some(id) ==> {
            &&& encode_utf8(id).len() >= 8
            &&& exists|i: int|
                0 <= i < id.len() && ('a' <= #[trigger] id[i] <= 'z' || 'A' <= id[i] <= 'Z')
            &&& is_uuid(id) || exists|at: int| #[trigger] is_last_part(stem, id, at)
        },
{
    if let Some(id) = salvaged_id(stem) {
        let i = choose|i: int| 0 <= i < id.len() && is_ascii_letter(#[trigger] id[i]);
        assert('a' <= id[i] <= 'z' || 'A' <= id[i] <= 'Z');
        if !is_uuid(id) {
            let at = lemma_last_part(stem, id);
            assert(is_last_part(stem, id, at));
        }
    }
}

proof fn lemma_last_part(text: Seq<char>, part: Seq<char>) -> (at: int)
    requires
        after_last_hyphen(text) == Some(part),
    ensures
        is_last_part(text, part, at),
    decreases text.len(),
{
    let rest = text.drop_last();
    if text.last() == '-' {
        let at = text.len() - 1;
        assert(text.skip(at + 1) =~= part);
        at
    } else {
        let before = after_last_hyphen(rest)->Some_0;
        let at = lemma_last_part(rest, before);
        assert(text.skip(at + 1) =~= part);
        if part.contains('-') {
            let i = choose|i: int| 0 <= i < part.len() && part[i] == '-';
            assert(before[i] == '-');
        }
        at
    }
}

} // verus!
