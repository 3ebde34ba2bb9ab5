//! Sub-agent sessions whose line of parents leads to a session that is gone.

use vstd::prelude::*;

use crate::sorted::{ascending, lemma_sorted_texts, sort_texts};
use crate::text::{holds_text, same, texts};

verus! {

/// A session and one that it spawned.
pub struct SpawnEdge {
    pub parent: String,
    pub child: String,
}

/// What a [`SpawnEdge`] holds.
pub struct EdgeView {
    pub parent: Seq<char>,
    pub child: Seq<char>,
}

impl View for SpawnEdge {
    type V = EdgeView;

    open spec fn view(&self) -> EdgeView {
        EdgeView { parent: self.parent@, child: self.child@ }
    }
}

/// What a list of edges holds.
pub open spec fn edges_view(edges: Seq<SpawnEdge>) -> Seq<EdgeView> {
    edges.map_values(|edge: SpawnEdge| edge@)
}

/// Whether a path of edges, given by their positions, starts at a parent that does
/// not exist and leads from each child to the next parent.
pub open spec fn orphan_path(
    edges: Seq<EdgeView>,
    existing: Seq<Seq<char>>,
    path: Seq<int>,
) -> bool {
    &&& path.len() > 0
    &&& forall|i: int| 0 <= i < path.len() ==> 0 <= #[trigger] path[i] < edges.len()
    &&& !existing.contains(edges[path[0]].parent)
    &&& forall|i: int|
        0 <= i < path.len() - 1 ==> edges[#[trigger] path[i]].child == edges[path[i + 1]].parent
}

/// Whether a session was spawned, directly or through others, by one that does not
/// exist.
pub open spec fn is_orphan(
    edges: Seq<EdgeView>,
    existing: Seq<Seq<char>>,
    id: Seq<char>,
) -> bool {
    exists|path: Seq<int>| #[trigger]
        orphan_path(edges, existing, path) && edges[path.last()].child == id
}

proof fn lemma_step(edges: Seq<EdgeView>, existing: Seq<Seq<char>>, id: Seq<char>, next: int)
    requires
        is_orphan(edges, existing, id),
        0 <= next < edges.len(),
        edges[next].parent == id,
    ensures
        is_orphan(edges, existing, edges[next].child),
{
    let path = choose|path: Seq<int>| #[trigger]
        orphan_path(edges, existing, path) && edges[path.last()].child == id;
    let longer = path.push(next);
    assert forall|i: int| 0 <= i < longer.len() - 1 implies edges[#[trigger] longer[i]].child
        == edges[longer[i + 1]].parent by {
        if i < path.len() - 1 {
            assert(longer[i] == path[i] && longer[i + 1] == path[i + 1]);
        }
    }
    assert(orphan_path(edges, existing, longer));
}

proof fn lemma_start(edges: Seq<EdgeView>, existing: Seq<Seq<char>>, first: int)
    requires
        0 <= first < edges.len(),
        !existing.contains(edges[first].parent),
    ensures
        is_orphan(edges, existing, edges[first].child),
{
    assert(orphan_path(edges, existing, seq![first]));
}

/// A set that holds the children of missing parents and the children of its members
/// holds the end of every path.
proof fn lemma_closed(
    edges: Seq<EdgeView>,
    existing: Seq<Seq<char>>,
    found: Seq<Seq<char>>,
    path: Seq<int>,
)
    requires
        orphan_path(edges, existing, path),
        forall|i: int|
            0 <= i < edges.len() && !existing.contains(edges[i].parent) ==> found.contains(
                (#[trigger] edges[i]).child,
            ),
        forall|i: int|
            0 <= i < edges.len() && found.contains(edges[i].parent) ==> found.contains(
                (#[trigger] edges[i]).child,
            ),
    ensures
        found.contains(edges[path.last()].child),
    decreases path.len(),
{
    if path.len() > 1 {
        let shorter = path.drop_last();
        assert(orphan_path(edges, existing, shorter)) by {
            assert forall|i: int| 0 <= i < shorter.len() - 1 implies edges[#[trigger] shorter[i]].child
                == edges[shorter[i + 1]].parent by {
                assert(shorter[i] == path[i] && shorter[i + 1] == path[i + 1]);
            }
        }
        lemma_closed(edges, existing, found, shorter);
        let last = path.len() - 1;
        assert(edges[path[last - 1]].child == edges[path[last]].parent);
        assert(found.contains(edges[path[last]].parent));
    } else {
        assert(path.last() == path[0]);
    }
}

/// The sessions that edges lead to.
spec fn children(edges: Seq<EdgeView>) -> Seq<Seq<char>> {
    edges.map_values(|edge: EdgeView| edge.child)
}

/// Whether a list of sessions is part of the children of edges, without repetition.
spec fn drawn_from(edges: Seq<EdgeView>, found: Seq<Seq<char>>) -> bool {
    found.no_duplicates() && forall|k: int|
        0 <= k < found.len() ==> children(edges).contains(#[trigger] found[k])
}

/// Whether the list holds the children of its first sessions.
spec fn holds_children(edges: Seq<EdgeView>, found: Seq<Seq<char>>, next: int) -> bool {
    forall|k: int, i: int|
        #![trigger found[k], edges[i]]
        0 <= k < next && 0 <= i < edges.len() && edges[i].parent == found[k] ==> found.contains(
            edges[i].child,
        )
}

proof fn lemma_found_bound(edges: Seq<EdgeView>, found: Seq<Seq<char>>)
    requires
        drawn_from(edges, found),
    ensures
        found.len() <= edges.len(),
{
    let children = children(edges);
    found.unique_seq_to_set();
    children.lemma_cardinality_of_set();
    assert(found.to_set().subset_of(children.to_set())) by {
        assert forall|id: Seq<char>| found.to_set().contains(id) implies children.to_set().contains(
            id,
        ) by {
            let k = choose|k: int| 0 <= k < found.len() && found[k] == id;
            assert(children.contains(found[k]));
        }
    }
    vstd::set_lib::lemma_len_subset(found.to_set(), children.to_set());
}

/// The sub-agent sessions that a missing session spawned, directly or through
/// others, sorted. A session exists where a rollout or a threads row holds its id.
pub fn find_orphan_subagent_ids(
    edges: &Vec<SpawnEdge>,
    rollout_ids: &Vec<String>,
    thread_ids: &Vec<String>,
) -> (ids: Vec<String>)
    ensures
        ascending(texts(ids@)),
        forall|id: Seq<char>| #[trigger]
            texts(ids@).contains(id) <==> is_orphan(
                edges_view(edges@),
                texts(rollout_ids@) + texts(thread_ids@),
                id,
            ),
{
    let ghost all = edges_view(edges@);
    let ghost existing = texts(rollout_ids@) + texts(thread_ids@);
    let mut found: Vec<String> = Vec::new();
    let mut at: usize = 0;
    while at < edges.len()
        invariant
            at <= edges@.len(),
            all == edges_view(edges@),
            existing == texts(rollout_ids@) + texts(thread_ids@),
            drawn_from(all, texts(found@)),
            forall|k: int|
                0 <= k < found@.len() ==> is_orphan(all, existing, #[trigger] texts(found@)[k]),
            forall|i: int|
                0 <= i < at && !existing.contains(all[i].parent) ==> texts(found@).contains(
                    (#[trigger] all[i]).child,
                ),
        decreases edges.len() - at,
    {
        let edge = &edges[at];
        assert(all[at as int] == edge@);
        let in_rollouts = holds_text(rollout_ids, edge.parent.as_str());
        let in_threads = holds_text(thread_ids, edge.parent.as_str());
        proof {
            lemma_contains_add(texts(rollout_ids@), texts(thread_ids@), edge.parent@);
        }
        if !in_rollouts && !in_threads {
            proof {
                lemma_start(all, existing, at as int);
            }
            let ghost before = texts(found@);
            if !holds_text(&found, edge.child.as_str()) {
                found.push(edge.child.clone());
                assert(texts(found@) =~= before.push(edge.child@));
                assert(children(all)[at as int] == edge.child@);
                assert(texts(found@)[before.len() as int] == edge.child@);
                proof {
                    lemma_push_contains(before, edge.child@);
                }
            }
        }
        at = at + 1;
    }
    let mut next: usize = 0;
    proof {
        lemma_found_bound(all, texts(found@));
    }
    while next < found.len()
        invariant
            next <= found@.len() <= edges@.len(),
            all == edges_view(edges@),
            drawn_from(all, texts(found@)),
            forall|k: int|
                0 <= k < found@.len() ==> is_orphan(all, existing, #[trigger] texts(found@)[k]),
            forall|i: int|
                0 <= i < all.len() && !existing.contains(all[i].parent) ==> texts(found@).contains(
                    (#[trigger] all[i]).child,
                ),
            holds_children(all, texts(found@), next as int),
        decreases edges.len() - next,
    {
        let parent = found[next].clone();
        assert(texts(found@)[next as int] == parent@);
        let mut at: usize = 0;
        while at < edges.len()
            invariant
                at <= edges@.len(),
                all == edges_view(edges@),
                next < found@.len(),
                texts(found@)[next as int] == parent@,
                drawn_from(all, texts(found@)),
                forall|k: int|
                    0 <= k < found@.len() ==> is_orphan(all, existing, #[trigger] texts(found@)[k]),
                forall|i: int|
                    0 <= i < all.len() && !existing.contains(all[i].parent) ==> texts(
                        found@,
                    ).contains((#[trigger] all[i]).child),
                holds_children(all, texts(found@), next as int),
                forall|i: int|
                    0 <= i < at && all[i].parent == parent@ ==> texts(found@).contains(
                        (#[trigger] all[i]).child,
                    ),
            decreases edges.len() - at,
        {
            let edge = &edges[at];
            assert(all[at as int] == edge@);
            if same(edge.parent.as_str(), parent.as_str()) {
                proof {
                    lemma_step(all, existing, parent@, at as int);
                }
                let ghost before = texts(found@);
                if !holds_text(&found, edge.child.as_str()) {
                    found.push(edge.child.clone());
                    assert(texts(found@) =~= before.push(edge.child@));
                    assert(children(all)[at as int] == edge.child@);
                    assert(texts(found@)[before.len() as int] == edge.child@);
                    proof {
                        lemma_push_contains(before, edge.child@);
                        assert forall|k: int| 0 <= k < next implies #[trigger] texts(found@)[k]
                            == before[k] by {}
                    }
                }
            }
            at = at + 1;
        }
        proof {
            lemma_found_bound(all, texts(found@));
        }
        next = next + 1;
    }
    let ids = sort_texts(&found);
    proof {
        lemma_sorted_texts(texts(found@));
        assert forall|id: Seq<char>| #[trigger] texts(ids@).contains(id) <==> is_orphan(
            all,
            existing,
            id,
        ) by {
            if texts(found@).contains(id) {
                let k = choose|k: int| 0 <= k < found@.len() && texts(found@)[k] == id;
                assert(is_orphan(all, existing, texts(found@)[k]));
            }
            if is_orphan(all, existing, id) {
                let path = choose|path: Seq<int>| #[trigger]
                    orphan_path(all, existing, path) && all[path.last()].child == id;
                assert forall|i: int|
                    0 <= i < all.len() && texts(found@).contains(all[i].parent) implies texts(
                    found@,
                ).contains((#[trigger] all[i]).child) by {
                    let k = choose|k: int|
                        0 <= k < found@.len() && texts(found@)[k] == all[i].parent;
                }
                lemma_closed(all, existing, texts(found@), path);
            }
        }
    }
    ids
}

proof fn lemma_contains_add(left: Seq<Seq<char>>, right: Seq<Seq<char>>, text: Seq<char>)
    ensures
        (left + right).contains(text) == (left.contains(text) || right.contains(text)),
{
    if left.contains(text) {
        let k = choose|k: int| 0 <= k < left.len() && left[k] == text;
        assert((left + right)[k] == text);
    }
    if right.contains(text) {
        let k = choose|k: int| 0 <= k < right.len() && right[k] == text;
        assert((left + right)[left.len() + k] == text);
    }
    if (left + right).contains(text) {
        let k = choose|k: int| 0 <= k < (left + right).len() && (left + right)[k] == text;
        if k < left.len() {
            assert(left[k] == text);
        } else {
            assert(right[k - left.len()] == text);
        }
    }
}

proof fn lemma_push_contains(items: Seq<Seq<char>>, text: Seq<char>)
    ensures
        forall|other: Seq<char>| items.contains(other) ==> #[trigger] items.push(text).contains(other),
        items.push(text).contains(text),
{
    assert forall|other: Seq<char>| items.contains(other) implies #[trigger] items.push(
        text,
    ).contains(other) by {
        let k = choose|k: int| 0 <= k < items.len() && items[k] == other;
        assert(items.push(text)[k] == other);
    }
    assert(items.push(text)[items.len() as int] == text);
}

/// A session whose id no edge names as a child is no orphan.
pub proof fn law_only_spawned_sessions_are_orphans(
    edges: Seq<EdgeView>,
    existing: Seq<Seq<char>>,
    id: Seq<char>,
)
    requires
        forall|i: int| 0 <= i < edges.len() ==> (#[trigger] edges[i]).child != id,
    ensures
        !is_orphan(edges, existing, id),
{
    if is_orphan(edges, existing, id) {
        let path = choose|path: Seq<int>| #[trigger]
            orphan_path(edges, existing, path) && edges[path.last()].child == id;
        assert(path.last() == path[path.len() - 1]);
        assert(edges[path[path.len() - 1]].child != id);
    }
}

/// Where every parent exists, no session is an orphan.
pub proof fn law_existing_parents_leave_no_orphans(
    edges: Seq<EdgeView>,
    existing: Seq<Seq<char>>,
    id: Seq<char>,
)
    requires
        forall|i: int| 0 <= i < edges.len() ==> existing.contains((#[trigger] edges[i]).parent),
    ensures
        !is_orphan(edges, existing, id),
{
}

/// What makes a session an orphan: that it was spawned by a session which is gone, or by an orphan.
pub proof fn law_what_makes_an_orphan(
    edges: Seq<EdgeView>,
    existing: Seq<Seq<char>>,
    id: Seq<char>,
)
    ensures
        is_orphan(edges, existing, id) <==> exists|i: int|
            0 <= i < edges.len() && (#[trigger] edges[i]).child == id && (!existing.contains(
                edges[i].parent,
            ) || is_orphan(edges, existing, edges[i].parent)),
{
    if is_orphan(edges, existing, id) {
        let path = choose|path: Seq<int>| #[trigger]
            orphan_path(edges, existing, path) && edges[path.last()].child == id;
        let i = path.last();
        if path.len() > 1 {
            let rest = path.drop_last();
            assert forall|k: int| 0 <= k < rest.len() implies 0 <= #[trigger] rest[k]
                < edges.len() by {
                assert(rest[k] == path[k]);
            }
            assert forall|k: int| 0 <= k < rest.len() - 1 implies edges[#[trigger] rest[k]].child
                == edges[rest[k + 1]].parent by {
                assert(rest[k] == path[k] && rest[k + 1] == path[k + 1]);
            }
            assert(orphan_path(edges, existing, rest));
            assert(rest.last() == path[path.len() - 2]);
            assert(edges[path[path.len() - 2]].child == edges[path[path.len() - 1]].parent);
        }
        assert(edges[i].child == id);
    }
    if exists|i: int|
        0 <= i < edges.len() && (#[trigger] edges[i]).child == id && (!existing.contains(
            edges[i].parent,
        ) || is_orphan(edges, existing, edges[i].parent)) {
        let i = choose|i: int|
            0 <= i < edges.len() && (#[trigger] edges[i]).child == id && (!existing.contains(
                edges[i].parent,
            ) || is_orphan(edges, existing, edges[i].parent));
        if !existing.contains(edges[i].parent) {
            let path = seq![i];
            assert(orphan_path(edges, existing, path) && edges[path.last()].child == id);
        } else {
            let before = choose|path: Seq<int>| #[trigger]
                orphan_path(edges, existing, path) && edges[path.last()].child == edges[i].parent;
            let path = before.push(i);
            assert forall|k: int| 0 <= k < path.len() - 1 implies edges[#[trigger] path[k]].child
                == edges[path[k + 1]].parent by {
                if k < before.len() - 1 {
                    assert(path[k] == before[k] && path[k + 1] == before[k + 1]);
                }
            }
            assert(orphan_path(edges, existing, path) && edges[path.last()].child == id);
        }
    }
}

} // verus!
