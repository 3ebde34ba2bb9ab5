//! Sorted lists of texts without repetitions, and lists keyed by text.

use vstd::prelude::*;

use crate::text::{
    holds_text, lemma_text_lt_irreflexive, lemma_text_lt_total, lemma_text_lt_transitive, precedes,
    same, text_lt, texts,
};

verus! {

/// Whether each text comes before all that follow it.
pub open spec fn ascending(items: Seq<Seq<char>>) -> bool {
    forall|i: int, j: int| 0 <= i < j < items.len() ==> text_lt(#[trigger] items[i], #[trigger] items[j])
}

/// A sorted list with one more text, in its place; the same list where it holds the
/// text already.
pub open spec fn with_text(items: Seq<Seq<char>>, text: Seq<char>) -> Seq<Seq<char>>
    decreases items.len(),
{
    if items.len() == 0 {
        seq![text]
    } else if items.last() == text {
        items
    } else if text_lt(text, items.last()) {
        with_text(items.drop_last(), text).push(items.last())
    } else {
        items.push(text)
    }
}

/// The texts of a list, sorted, each once.
pub open spec fn sorted_texts(items: Seq<Seq<char>>) -> Seq<Seq<char>>
    decreases items.len(),
{
    if items.len() == 0 {
        Seq::empty()
    } else {
        with_text(sorted_texts(items.drop_last()), items.last())
    }
}

/// Adding a text keeps a list sorted, and adds that text and no other.
pub proof fn lemma_with_text(items: Seq<Seq<char>>, text: Seq<char>)
    requires
        ascending(items),
    ensures
        ascending(with_text(items, text)),
        forall|other: Seq<char>| #[trigger]
            with_text(items, text).contains(other) <==> items.contains(other) || other == text,
        items.contains(text) ==> with_text(items, text) == items,
        !items.contains(text) ==> with_text(items, text).len() == items.len() + 1,
    decreases items.len(),
{
    let all = with_text(items, text);
    if items.len() == 0 {
        assert(all[0] == text);
        assert(all.contains(text));
    } else if items.last() == text {
        assert(items[items.len() - 1] == text);
    } else {
        let rest = items.drop_last();
        let last = items.last();
        assert(items[items.len() - 1] == last);
        lemma_text_lt_total(text, last);
        if text_lt(text, last) {
            lemma_with_text(rest, text);
            let shorter = with_text(rest, text);
            assert forall|i: int, j: int| 0 <= i < j < all.len() implies text_lt(
                #[trigger] all[i],
                #[trigger] all[j],
            ) by {
                if j == all.len() - 1 {
                    assert(shorter.contains(shorter[i]));
                    if shorter[i] != text {
                        assert(rest.contains(shorter[i]));
                        let k = choose|k: int| 0 <= k < rest.len() && rest[k] == shorter[i];
                        assert(items[k] == shorter[i]);
                    }
                } else {
                    assert(all[i] == shorter[i] && all[j] == shorter[j]);
                }
            }
            assert forall|other: Seq<char>| #[trigger] all.contains(other) <==> items.contains(other)
                || other == text by {
                if all.contains(other) {
                    let k = choose|k: int| 0 <= k < all.len() && all[k] == other;
                    if k < shorter.len() {
                        assert(shorter[k] == other);
                        assert(shorter.contains(other));
                        if other != text {
                            let m = choose|m: int| 0 <= m < rest.len() && rest[m] == other;
                            assert(items[m] == other);
                        }
                    }
                }
                if items.contains(other) || other == text {
                    if other == last {
                        assert(all[all.len() - 1] == other);
                    } else {
                        if items.contains(other) {
                            let m = choose|m: int| 0 <= m < items.len() && items[m] == other;
                            assert(rest[m] == other);
                        }
                        assert(shorter.contains(other));
                        let k = choose|k: int| 0 <= k < shorter.len() && shorter[k] == other;
                        assert(all[k] == other);
                    }
                }
            }
            assert(items.contains(text) <==> rest.contains(text)) by {
                if items.contains(text) {
                    let m = choose|m: int| 0 <= m < items.len() && items[m] == text;
                    assert(rest[m] == text);
                }
                if rest.contains(text) {
                    let m = choose|m: int| 0 <= m < rest.len() && rest[m] == text;
                    assert(items[m] == text);
                }
            }
            if items.contains(text) {
                assert(all =~= items);
            }
        } else {
            assert(all[all.len() - 1] == text);
            assert forall|i: int, j: int| 0 <= i < j < all.len() implies text_lt(
                #[trigger] all[i],
                #[trigger] all[j],
            ) by {
                if j == all.len() - 1 {
                    if i < items.len() - 1 {
                        assert(text_lt(items[i], items[items.len() - 1]));
                        lemma_text_lt_transitive(items[i], last, text);
                    }
                } else {
                    assert(all[i] == items[i] && all[j] == items[j]);
                }
            }
            assert forall|other: Seq<char>| #[trigger] all.contains(other) <==> items.contains(other)
                || other == text by {
                if all.contains(other) {
                    let k = choose|k: int| 0 <= k < all.len() && all[k] == other;
                    if k < items.len() {
                        assert(items[k] == other);
                    }
                }
                if items.contains(other) {
                    let k = choose|k: int| 0 <= k < items.len() && items[k] == other;
                    assert(all[k] == other);
                }
            }
            if items.contains(text) {
                let k = choose|k: int| 0 <= k < items.len() && items[k] == text;
                if k < items.len() - 1 {
                    assert(text_lt(items[k], items[items.len() - 1]));
                    lemma_text_lt_transitive(text, last, text);
                }
                lemma_text_lt_irreflexive(text);
                assert(false);
            }
        }
    }
}

/// The sorted texts of a list are in ascending order, and are the texts of the list.
pub proof fn lemma_sorted_texts(items: Seq<Seq<char>>)
    ensures
        ascending(sorted_texts(items)),
        forall|text: Seq<char>| #[trigger]
            sorted_texts(items).contains(text) <==> items.contains(text),
        sorted_texts(items).len() <= items.len(),
    decreases items.len(),
{
    if items.len() > 0 {
        let rest = items.drop_last();
        lemma_sorted_texts(rest);
        lemma_with_text(sorted_texts(rest), items.last());
        assert forall|text: Seq<char>| #[trigger] sorted_texts(items).contains(text) <==> items.contains(
            text,
        ) by {
            if items.contains(text) {
                let k = choose|k: int| 0 <= k < items.len() && items[k] == text;
                if k < items.len() - 1 {
                    assert(rest[k] == text);
                    assert(rest.contains(text));
                }
            }
            if rest.contains(text) {
                let k = choose|k: int| 0 <= k < rest.len() && rest[k] == text;
                assert(items[k] == text);
            }
            assert(items[items.len() - 1] == items.last());
        }
    }
}

/// Texts in ascending order are all different.
pub proof fn lemma_ascending_distinct(items: Seq<Seq<char>>)
    requires
        ascending(items),
    ensures
        items.no_duplicates(),
{
    assert forall|i: int, j: int| 0 <= i < items.len() && 0 <= j < items.len() && i != j implies items[i]
        != items[j] by {
        lemma_text_lt_irreflexive(items[i]);
        if i < j {
            assert(text_lt(items[i], items[j]));
        } else {
            assert(text_lt(items[j], items[i]));
        }
    }
}

/// Two ascending lists that hold the same texts are the same list.
pub proof fn lemma_ascending_unique(left: Seq<Seq<char>>, right: Seq<Seq<char>>)
    requires
        ascending(left),
        ascending(right),
        forall|text: Seq<char>| left.contains(text) <==> right.contains(text),
    ensures
        left == right,
    decreases left.len(),
{
    if left.len() == 0 {
        if right.len() > 0 {
            assert(right.contains(right[0]));
            assert(left.contains(right[0]));
        }
        assert(left =~= right);
    } else {
        assert(left.contains(left[left.len() - 1]));
        assert(right.contains(left[left.len() - 1]));
        assert(right.contains(right[right.len() - 1]));
        assert(left.contains(right[right.len() - 1]));
        let a = left.last();
        let b = right.last();
        if a != b {
            let i = choose|i: int| 0 <= i < right.len() && right[i] == a;
            let j = choose|j: int| 0 <= j < left.len() && left[j] == b;
            assert(text_lt(right[i], right[right.len() - 1]));
            assert(text_lt(left[j], left[left.len() - 1]));
            lemma_text_lt_transitive(a, b, a);
            lemma_text_lt_irreflexive(a);
        }
        let l = left.drop_last();
        let r = right.drop_last();
        assert forall|text: Seq<char>| l.contains(text) <==> r.contains(text) by {
            if l.contains(text) {
                let k = choose|k: int| 0 <= k < l.len() && l[k] == text;
                assert(left[k] == text);
                assert(right.contains(text));
                let m = choose|m: int| 0 <= m < right.len() && right[m] == text;
                assert(text_lt(left[k], left[left.len() - 1]));
                lemma_text_lt_irreflexive(text);
                assert(r[m] == text);
            }
            if r.contains(text) {
                let k = choose|k: int| 0 <= k < r.len() && r[k] == text;
                assert(right[k] == text);
                assert(left.contains(text));
                let m = choose|m: int| 0 <= m < left.len() && left[m] == text;
                assert(text_lt(right[k], right[right.len() - 1]));
                lemma_text_lt_irreflexive(text);
                assert(l[m] == text);
            }
        }
        lemma_ascending_unique(l, r);
        assert(left =~= l.push(a));
        assert(right =~= r.push(b));
    }
}

/// Adds a text to a sorted list; tells whether it was missing.
pub fn insert_text(items: &mut Vec<String>, text: &str) -> (added: bool)
    ensures
        texts(final(items)@) == with_text(texts(old(items)@), text@),
        added == (final(items)@.len() == old(items)@.len() + 1),
        !added ==> final(items)@.len() == old(items)@.len(),
{
    let ghost all = texts(items@);
    let mut at: usize = items.len();
    assert(all.take(at as int) =~= all);
    assert(with_text(all, text@) =~= with_text(all.take(at as int), text@) + all.skip(at as int));
    while at > 0 && !same(items[at - 1].as_str(), text) && precedes(text, items[at - 1].as_str())
        invariant
            at <= items@.len(),
            all == texts(items@),
            items@ == old(items)@,
            with_text(all, text@) == with_text(all.take(at as int), text@) + all.skip(at as int),
        decreases at,
    {
        let ghost head = all.take(at as int);
        assert(head.drop_last() =~= all.take(at - 1));
        assert(head.last() == all[at - 1]);
        assert(with_text(all.take(at - 1), text@).push(all[at - 1]) + all.skip(at as int)
            =~= with_text(all.take(at - 1), text@) + all.skip(at - 1));
        at = at - 1;
    }
    let ghost head = all.take(at as int);
    if at > 0 {
        assert(head.last() == all[at - 1]);
    }
    if at > 0 && same(items[at - 1].as_str(), text) {
        assert(head + all.skip(at as int) =~= all);
        return false;
    }
    items.insert(at, text.to_owned());
    assert(texts(items@) =~= all.insert(at as int, text@));
    assert(head.push(text@) + all.skip(at as int) =~= all.insert(at as int, text@));
    if at == 0 {
        assert(head =~= Seq::empty());
        assert(seq![text@] =~= head.push(text@));
    }
    true
}

/// Sorts texts and keeps each once.
pub fn sort_texts(items: &Vec<String>) -> (sorted: Vec<String>)
    ensures
        texts(sorted@) == sorted_texts(texts(items@)),
{
    let ghost all = texts(items@);
    let mut sorted: Vec<String> = Vec::new();
    let mut at: usize = 0;
    while at < items.len()
        invariant
            at <= items@.len(),
            all == texts(items@),
            texts(sorted@) == sorted_texts(all.take(at as int)),
        decreases items.len() - at,
    {
        assert(all.take(at + 1).drop_last() =~= all.take(at as int));
        insert_text(&mut sorted, items[at].as_str());
        at = at + 1;
    }
    assert(all.take(at as int) =~= all);
    sorted
}

/// The texts of `left` that `right` does not hold, in their order.
pub open spec fn texts_without(left: Seq<Seq<char>>, right: Seq<Seq<char>>) -> Seq<Seq<char>>
    decreases left.len(),
{
    if left.len() == 0 {
        Seq::empty()
    } else if right.contains(left.last()) {
        texts_without(left.drop_last(), right)
    } else {
        texts_without(left.drop_last(), right).push(left.last())
    }
}

/// What is left of a list holds just the texts that the other does not, in order.
pub proof fn lemma_texts_without(left: Seq<Seq<char>>, right: Seq<Seq<char>>)
    ensures
        forall|text: Seq<char>| #[trigger]
            texts_without(left, right).contains(text) <==> left.contains(text) && !right.contains(
                text,
            ),
        ascending(left) ==> ascending(texts_without(left, right)),
        texts_without(left, right).len() <= left.len(),
    decreases left.len(),
{
    if left.len() > 0 {
        let rest = left.drop_last();
        let last = left.last();
        lemma_texts_without(rest, right);
        let kept = texts_without(rest, right);
        let all = texts_without(left, right);
        assert forall|text: Seq<char>| #[trigger] all.contains(text) <==> left.contains(text)
            && !right.contains(text) by {
            assert(left.contains(text) <==> rest.contains(text) || text == last) by {
                if left.contains(text) {
                    let k = choose|k: int| 0 <= k < left.len() && left[k] == text;
                    if k < left.len() - 1 {
                        assert(rest[k] == text);
                    }
                }
                if rest.contains(text) {
                    let k = choose|k: int| 0 <= k < rest.len() && rest[k] == text;
                    assert(left[k] == text);
                }
                assert(left[left.len() - 1] == last);
            }
            if !right.contains(last) {
                assert(all[all.len() - 1] == last);
                if kept.contains(text) {
                    let k = choose|k: int| 0 <= k < kept.len() && kept[k] == text;
                    assert(all[k] == text);
                }
                if all.contains(text) {
                    let k = choose|k: int| 0 <= k < all.len() && all[k] == text;
                    if k < kept.len() {
                        assert(kept[k] == text);
                    }
                }
            }
        }
        if ascending(left) {
            assert(ascending(rest)) by {
                assert forall|i: int, j: int| 0 <= i < j < rest.len() implies text_lt(
                    #[trigger] rest[i],
                    #[trigger] rest[j],
                ) by {
                    assert(rest[i] == left[i] && rest[j] == left[j]);
                }
            }
            if !right.contains(last) {
                assert forall|i: int, j: int| 0 <= i < j < all.len() implies text_lt(
                    #[trigger] all[i],
                    #[trigger] all[j],
                ) by {
                    assert(all[i] == kept[i]);
                    if j < kept.len() {
                        assert(all[j] == kept[j]);
                    } else {
                        assert(kept.contains(kept[i]));
                        let k = choose|k: int| 0 <= k < rest.len() && rest[k] == kept[i];
                        assert(text_lt(left[k], left[left.len() - 1]));
                    }
                }
            }
        }
    }
}

/// The texts of `left` that `right` does not hold.
pub fn difference(left: &Vec<String>, right: &Vec<String>) -> (rest: Vec<String>)
    ensures
        texts(rest@) == texts_without(texts(left@), texts(right@)),
{
    let ghost all = texts(left@);
    let mut rest: Vec<String> = Vec::new();
    let mut at: usize = 0;
    while at < left.len()
        invariant
            at <= left@.len(),
            all == texts(left@),
            texts(rest@) == texts_without(all.take(at as int), texts(right@)),
        decreases left.len() - at,
    {
        assert(all.take(at + 1).drop_last() =~= all.take(at as int));
        let ghost before = texts(rest@);
        if !holds_text(right, left[at].as_str()) {
            rest.push(left[at].clone());
            assert(texts(rest@) =~= before.push(all[at as int]));
        }
        at = at + 1;
    }
    assert(all.take(at as int) =~= all);
    rest
}

} // verus!
