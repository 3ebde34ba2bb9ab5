//! Small facts on sequences that several modules share.

use vstd::prelude::*;

verus! {

/// What `pick` gives for the first item for which it gives anything.
pub open spec fn first_found<A, B>(items: Seq<A>, pick: spec_fn(A) -> Option<B>) -> Option<B>
    decreases items.len(),
{
    if items.len() == 0 {
        None
    } else {
        match first_found(items.drop_last(), pick) {
            Some(found) => Some(found),
            None => pick(items.last()),
        }
    }
}

/// What `pick` gives for the last item for which it gives anything.
pub open spec fn last_found<A, B>(items: Seq<A>, pick: spec_fn(A) -> Option<B>) -> Option<B>
    decreases items.len(),
{
    if items.len() == 0 {
        None
    } else {
        match pick(items.last()) {
            Some(found) => Some(found),
            None => last_found(items.drop_last(), pick),
        }
    }
}

/// The greatest of zero and the numbers that `pick` gives for the items.
pub open spec fn greatest<A>(items: Seq<A>, pick: spec_fn(A) -> Option<int>) -> int
    decreases items.len(),
{
    if items.len() == 0 {
        0
    } else {
        let rest = greatest(items.drop_last(), pick);
        match pick(items.last()) {
            Some(number) => if number > rest {
                number
            } else {
                rest
            },
            None => rest,
        }
    }
}

/// How many items meet a condition.
pub open spec fn count_where<A>(items: Seq<A>, holds: spec_fn(A) -> bool) -> nat
    decreases items.len(),
{
    if items.len() == 0 {
        0
    } else {
        count_where(items.drop_last(), holds) + if holds(items.last()) {
            1nat
        } else {
            0nat
        }
    }
}

/// At most all items meet a condition.
pub proof fn lemma_count_where_bound<A>(items: Seq<A>, holds: spec_fn(A) -> bool)
    ensures
        count_where(items, holds) <= items.len(),
    decreases items.len(),
{
    if items.len() > 0 {
        lemma_count_where_bound(items.drop_last(), holds);
    }
}

/// No more items meet a condition among the first ones than among all.
pub proof fn lemma_count_where_take<A>(items: Seq<A>, holds: spec_fn(A) -> bool, at: int)
    requires
        0 <= at <= items.len(),
    ensures
        count_where(items.take(at), holds) <= count_where(items, holds),
    decreases items.len(),
{
    if at < items.len() {
        lemma_count_where_take(items.drop_last(), holds, at);
        assert(items.drop_last().take(at) =~= items.take(at));
    } else {
        assert(items.take(at) =~= items);
    }
}

/// What was found first is what `pick` gives for some item, and for none before it
/// does it give anything.
pub proof fn lemma_first_found<A, B>(items: Seq<A>, pick: spec_fn(A) -> Option<B>)
    ensures
        match first_found(items, pick) {
            Some(found) => exists|i: int|
                0 <= i < items.len() && #[trigger] pick(items[i]) == Some(found) && (forall|j: int|
                    0 <= j < i ==> #[trigger] pick(items[j]) is None),
            None => forall|i: int| 0 <= i < items.len() ==> #[trigger] pick(items[i]) is None,
        },
    decreases items.len(),
{
    if items.len() > 0 {
        let rest = items.drop_last();
        lemma_first_found(rest, pick);
        if first_found(rest, pick) is Some {
            let i = choose|i: int|
                0 <= i < rest.len() && #[trigger] pick(rest[i]) == first_found(rest, pick) && (
                forall|j: int| 0 <= j < i ==> #[trigger] pick(rest[j]) is None);
            assert(pick(items[i]) == first_found(items, pick));
            assert forall|j: int| 0 <= j < i implies #[trigger] pick(items[j]) is None by {
                assert(rest[j] == items[j]);
            }
        } else {
            assert forall|j: int| 0 <= j < items.len() - 1 implies #[trigger] pick(
                items[j],
            ) is None by {
                assert(rest[j] == items[j]);
            }
            assert(pick(items[items.len() - 1]) == pick(items.last()));
        }
    }
}

/// No number that `pick` gives is above the greatest.
pub proof fn lemma_greatest<A>(items: Seq<A>, pick: spec_fn(A) -> Option<int>, i: int)
    ensures
        greatest(items, pick) >= 0,
        0 <= i < items.len() && pick(items[i]) is Some ==> pick(items[i])->Some_0 <= greatest(
            items,
            pick,
        ),
    decreases items.len(),
{
    if items.len() > 0 {
        lemma_greatest(items.drop_last(), pick, i);
    }
}

/// What `pick` gives for an item is among what it gives for all.
pub proof fn lemma_filter_map_has<A, B>(items: Seq<A>, pick: spec_fn(A) -> Option<B>, at: int)
    requires
        0 <= at < items.len(),
        pick(items[at]) is Some,
    ensures
        items.filter_map(pick).contains(pick(items[at])->Some_0),
    decreases items.len(),
{
    let rest = items.drop_last();
    let all = items.filter_map(pick);
    let found = pick(items[at])->Some_0;
    if at < rest.len() {
        lemma_filter_map_has(rest, pick, at);
        assert(rest[at] == items[at]);
        let before = rest.filter_map(pick);
        let k = choose|k: int| 0 <= k < before.len() && before[k] == found;
        assert(all[k] == found);
    } else {
        assert(items.last() == items[at]);
        assert(all[all.len() - 1] == found);
    }
}

/// The items that are counted are as many as those that are kept, where both ask the same.
pub proof fn lemma_count_is_filter<A>(
    items: Seq<A>,
    holds: spec_fn(A) -> bool,
    keeps: spec_fn(A) -> bool,
)
    requires
        forall|item: A| #[trigger] holds(item) == keeps(item),
    ensures
        count_where(items, holds) == items.filter(keeps).len(),
    decreases items.len(),
{
    reveal(Seq::filter);
    if items.len() > 0 {
        lemma_count_is_filter(items.drop_last(), holds, keeps);
        assert(holds(items.last()) == keeps(items.last()));
    }
}

/// What is first found is what the first item gives that gives anything.
pub proof fn lemma_first_at<A, B>(items: Seq<A>, pick: spec_fn(A) -> Option<B>, at: int)
    requires
        0 <= at < items.len(),
        pick(items[at]) is Some,
        forall|j: int| 0 <= j < at ==> #[trigger] pick(items[j]) is None,
    ensures
        first_found(items, pick) == pick(items[at]),
{
    lemma_first_found(items, pick);
    if let Some(found) = first_found(items, pick) {
        let i = choose|i: int|
            0 <= i < items.len() && #[trigger] pick(items[i]) == Some(found) && (forall|j: int|
                0 <= j < i ==> #[trigger] pick(items[j]) is None);
        if i < at {
            assert(pick(items[i]) is None);
        } else if at < i {
            assert(pick(items[at]) is None);
        }
    }
}

/// What is last found is what the last item gives that gives anything.
pub proof fn lemma_last_at<A, B>(items: Seq<A>, pick: spec_fn(A) -> Option<B>, at: int)
    requires
        0 <= at < items.len(),
        pick(items[at]) is Some,
        forall|j: int| at < j < items.len() ==> #[trigger] pick(items[j]) is None,
    ensures
        last_found(items, pick) == pick(items[at]),
    decreases items.len(),
{
    if at < items.len() - 1 {
        let rest = items.drop_last();
        assert(pick(items[items.len() - 1]) is None);
        assert forall|j: int| at < j < rest.len() implies #[trigger] pick(rest[j]) is None by {
            assert(rest[j] == items[j]);
        }
        assert(rest[at] == items[at]);
        lemma_last_at(rest, pick, at);
    }
}

} // verus!
