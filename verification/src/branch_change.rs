//! Changes to the store when a session moves to another provider.

use vstd::prelude::*;

use crate::model::{
    chain_view, families_view, family_at, family_keys, family_of, family_under, find_branch,
    find_family, index_keys, index_view, lemma_family_at, lemma_family_of, lemma_position_of,
    position_of, ArchiveOrigin, BranchStatus, BranchView, Family, FamilyBranch, FamilyStore,
    FamilyView, IndexEntry, IndexEntryView, StoreView,
};
use crate::prune::{lemma_with_family_keys, with_family};
use crate::sorted::{ascending, lemma_with_text, with_text};
use crate::text::{lemma_text_lt_irreflexive, precedes, same, text_lt};

verus! {

// ---------------------------------------------------------------------------
// The index of the store
// ---------------------------------------------------------------------------

/// An index in which a session belongs to a family, in its place in the order.
pub open spec fn index_with(
    index: Seq<IndexEntryView>,
    session_id: Seq<char>,
    family_id: Seq<char>,
) -> Seq<IndexEntryView>
    decreases index.len(),
{
    let entry = IndexEntryView { session_id, family_id };
    if index.len() == 0 {
        seq![entry]
    } else if index.last().session_id == session_id {
        index.drop_last().push(entry)
    } else if text_lt(session_id, index.last().session_id) {
        index_with(index.drop_last(), session_id, family_id).push(index.last())
    } else {
        index.push(entry)
    }
}

/// Notes in an index which family a session belongs to.
pub fn insert_index(index: &mut Vec<IndexEntry>, session_id: &str, family_id: &str)
    ensures
        index_view(final(index)@) == index_with(index_view(old(index)@), session_id@, family_id@),
{
    let ghost all = index_view(index@);
    let ghost entry = IndexEntryView { session_id: session_id@, family_id: family_id@ };
    let ghost wanted = index_with(all, session_id@, family_id@);
    let mut at: usize = index.len();
    assert(all.take(at as int) =~= all);
    assert(wanted =~= index_with(all.take(at as int), session_id@, family_id@) + all.skip(
        at as int,
    ));
    while at > 0 && !same(index[at - 1].session_id.as_str(), session_id) && precedes(
        session_id,
        index[at - 1].session_id.as_str(),
    )
        invariant
            at <= index@.len(),
            all == index_view(index@),
            wanted == index_with(all.take(at as int), session_id@, family_id@) + all.skip(
                at as int,
            ),
        decreases at,
    {
        let ghost head = all.take(at as int);
        assert(head.drop_last() =~= all.take(at - 1));
        assert(head.last() == all[at - 1]);
        assert(index_with(all.take(at - 1), session_id@, family_id@).push(all[at - 1]) + all.skip(
            at as int,
        ) =~= index_with(all.take(at - 1), session_id@, family_id@) + all.skip(at - 1));
        at = at - 1;
    }
    let ghost head = all.take(at as int);
    let added = IndexEntry { session_id: session_id.to_owned(), family_id: family_id.to_owned() };
    if at > 0 {
        assert(head.last() == all[at - 1]);
    }
    if at > 0 && same(index[at - 1].session_id.as_str(), session_id) {
        index.set(at - 1, added);
        assert(index_view(index@) =~= all.update(at - 1, entry));
        assert(head.drop_last().push(entry) + all.skip(at as int) =~= all.update(at - 1, entry));
        return;
    }
    index.insert(at, added);
    assert(index_view(index@) =~= all.insert(at as int, entry));
    assert(head.push(entry) + all.skip(at as int) =~= all.insert(at as int, entry));
    if at == 0 {
        assert(head =~= Seq::empty());
        assert(seq![entry] =~= head.push(entry));
    }
}

proof fn lemma_index_with_keys(
    index: Seq<IndexEntryView>,
    session_id: Seq<char>,
    family_id: Seq<char>,
)
    ensures
        index_keys(index_with(index, session_id, family_id)) == with_text(
            index_keys(index),
            session_id,
        ),
    decreases index.len(),
{
    let keys = index_keys(index);
    let result = index_keys(index_with(index, session_id, family_id));
    if index.len() == 0 {
        assert(result =~= seq![session_id]);
    } else {
        let rest = index.drop_last();
        assert(index_keys(rest) =~= keys.drop_last());
        assert(keys.last() == index.last().session_id);
        if index.last().session_id == session_id {
            assert(result =~= keys);
        } else if text_lt(session_id, index.last().session_id) {
            lemma_index_with_keys(rest, session_id, family_id);
            assert(result =~= index_keys(index_with(rest, session_id, family_id)).push(
                index.last().session_id,
            ));
        } else {
            assert(result =~= keys.push(session_id));
        }
    }
}

proof fn lemma_index_with_lookup(
    index: Seq<IndexEntryView>,
    session_id: Seq<char>,
    family_id: Seq<char>,
    other: Seq<char>,
)
    requires
        ascending(index_keys(index)),
    ensures
        family_of(index_with(index, session_id, family_id), other) == if other == session_id {
            Some(family_id)
        } else {
            family_of(index, other)
        },
    decreases index.len(),
{
    let entry = IndexEntryView { session_id, family_id };
    let result = index_with(index, session_id, family_id);
    if index.len() == 0 {
        assert(result.drop_last() =~= Seq::empty());
        assert(result.last() == entry);
    } else {
        let rest = index.drop_last();
        let keys = index_keys(index);
        assert(index_keys(rest) =~= keys.drop_last());
        assert(keys.last() == index.last().session_id);
        if index.last().session_id == session_id {
            assert(result.drop_last() =~= rest);
            if family_of(rest, session_id) is Some {
                lemma_family_of(rest, session_id);
                let i = choose|i: int|
                    0 <= i < rest.len() && (#[trigger] rest[i]).session_id == session_id;
                assert(text_lt(keys[i], keys[keys.len() - 1]));
                lemma_text_lt_irreflexive(session_id);
            }
        } else if text_lt(session_id, index.last().session_id) {
            lemma_index_with_lookup(rest, session_id, family_id, other);
            assert(result.drop_last() =~= index_with(rest, session_id, family_id));
        } else {
            assert(result.drop_last() =~= index);
            if family_of(index, session_id) is Some {
                lemma_family_of(index, session_id);
                let i = choose|i: int|
                    0 <= i < index.len() && (#[trigger] index[i]).session_id == session_id;
                assert(keys[i] == session_id);
                assert(text_lt(keys[i], keys[keys.len() - 1]));
            }
        }
    }
}

/// Noting the family of a session keeps the order of an index, gives that session the
/// family, and leaves the family of every other session as it was.
pub proof fn law_index_with(
    index: Seq<IndexEntryView>,
    session_id: Seq<char>,
    family_id: Seq<char>,
    other: Seq<char>,
)
    requires
        ascending(index_keys(index)),
    ensures
        ascending(index_keys(index_with(index, session_id, family_id))),
        family_of(index_with(index, session_id, family_id), session_id) == Some(family_id),
        other != session_id ==> family_of(index_with(index, session_id, family_id), other)
            == family_of(index, other),
{
    lemma_index_with_keys(index, session_id, family_id);
    lemma_with_text(index_keys(index), session_id);
    lemma_index_with_lookup(index, session_id, family_id, session_id);
    lemma_index_with_lookup(index, session_id, family_id, other);
}

// ---------------------------------------------------------------------------
// A new active branch
// ---------------------------------------------------------------------------

/// A branch that gave way to one of another provider.
pub open spec fn retired(branch: BranchView) -> BranchView {
    if branch.status == BranchStatus::Active {
        BranchView {
            status: BranchStatus::Archived,
            archive_origin: Some(ArchiveOrigin::ProviderSync),
            ..branch
        }
    } else {
        branch
    }
}

/// The branches of a chain, all of which gave way.
pub open spec fn retired_chain(chain: Seq<BranchView>) -> Seq<BranchView> {
    chain.map_values(|branch: BranchView| retired(branch))
}

/// A family with a new active branch.
pub open spec fn family_switched(
    family: FamilyView,
    branch: BranchView,
    now: Seq<char>,
) -> FamilyView {
    FamilyView {
        chain: retired_chain(family.chain).push(branch),
        active_id: branch.id,
        updated_at: now,
        ..family
    }
}

/// A store in which a family has a new active branch.
pub open spec fn store_switched(
    store: StoreView,
    family_id: Seq<char>,
    branch: BranchView,
    now: Seq<char>,
) -> StoreView {
    StoreView {
        families: match family_at(store.families, family_id) {
            Some(at) => with_family(
                store,
                at,
                family_switched(store.families[at].family, branch, now),
            ).families,
            None => store.families,
        },
        index: index_with(store.index, branch.id, family_id),
        ..store
    }
}

fn retire_chain(chain: &mut Vec<FamilyBranch>)
    ensures
        chain_view(final(chain)@) == retired_chain(chain_view(old(chain)@)),
{
    let ghost all = chain_view(chain@);
    let ghost wanted = retired_chain(all);
    let mut at: usize = 0;
    while at < chain.len()
        invariant
            at <= chain@.len() == all.len() == wanted.len(),
            wanted == retired_chain(all),
            forall|i: int| 0 <= i < at ==> (#[trigger] chain@[i])@ == wanted[i],
            forall|i: int| at <= i < chain@.len() ==> (#[trigger] chain@[i])@ == all[i],
        decreases chain.len() - at,
    {
        if chain[at].status == BranchStatus::Active {
            let mut branch = chain[at].copy();
            branch.status = BranchStatus::Archived;
            branch.archive_origin = Some(ArchiveOrigin::ProviderSync);
            assert(branch@ =~= retired(all[at as int]));
            chain.set(at, branch);
        }
        at = at + 1;
    }
    assert(chain_view(chain@) =~= wanted);
}

fn switch_family(family: &mut Family, branch: FamilyBranch, now: &str)
    ensures
        final(family)@ == family_switched(old(family)@, branch@, now@),
{
    retire_chain(&mut family.chain);
    let ghost before = chain_view(family.chain@);
    family.active_id = branch.id.clone();
    family.chain.push(branch);
    assert(chain_view(family.chain@) =~= before.push(branch@));
    family.updated_at = now.to_owned();
}

/// Gives a family a new active branch, in place of all that were active.
pub fn replace_active(store: &mut FamilyStore, family_id: &str, branch: FamilyBranch, now: &str)
    ensures
        final(store)@ == store_switched(old(store)@, family_id@, branch@, now@),
{
    let ghost before = store@;
    insert_index(&mut store.index, branch.id.as_str(), family_id);
    if let Some(at) = find_family(&store.families, family_id) {
        switch_family(&mut store.families[at].family, branch, now);
        assert(families_view(store.families@) =~= with_family(
            before,
            at as int,
            family_switched(before.families[at as int].family, branch@, now@),
        ).families);
    }
}

/// After a switch the new branch of a family is its last, the one that it names as active
/// and the only one that is active; every other branch keeps its id, its place and all else
/// that it holds but for its status and why it was archived.
pub proof fn law_switch_leaves_one_active(family: FamilyView, branch: BranchView, now: Seq<char>)
    requires
        branch.status == BranchStatus::Active,
    ensures
        ({
            let switched = family_switched(family, branch, now);
            let count = family.chain.len() as int;
            &&& switched.active_id == branch.id
            &&& switched.chain.len() == count + 1
            &&& switched.chain[count] == branch
            &&& forall|i: int|
                0 <= i <= count ==> ((#[trigger] switched.chain[i]).status == BranchStatus::Active
                    <==> i == count)
            &&& forall|i: int|
                0 <= i < count ==> (BranchView {
                    status: family.chain[i].status,
                    archive_origin: family.chain[i].archive_origin,
                    ..#[trigger] switched.chain[i]
                }) == family.chain[i]
        }),
{
    let switched = family_switched(family, branch, now);
    let count = family.chain.len() as int;
    assert forall|i: int| 0 <= i < count implies (BranchView {
        status: family.chain[i].status,
        archive_origin: family.chain[i].archive_origin,
        ..#[trigger] switched.chain[i]
    }) == family.chain[i] by {
        assert(switched.chain[i] == retired(family.chain[i]));
    }
}

/// A switch keeps a store well formed, makes the new session one of the family, and leaves
/// all other families as they were.
pub proof fn law_switch_changes_one_family(
    store: StoreView,
    family_id: Seq<char>,
    branch: BranchView,
    now: Seq<char>,
    other: Seq<char>,
)
    requires
        store.well_formed(),
    ensures
        store_switched(store, family_id, branch, now).well_formed(),
        family_of(store_switched(store, family_id, branch, now).index, branch.id) == Some(
            family_id,
        ),
        other != family_id ==> family_under(
            store_switched(store, family_id, branch, now),
            other,
        ) == family_under(store, other),
{
    let after = store_switched(store, family_id, branch, now);
    law_index_with(store.index, branch.id, family_id, other);
    lemma_family_at(store.families, family_id);
    assert forall|i: int| 0 <= i < store.families.len() implies (#[trigger] after.families[i]).key
        == store.families[i].key && (store.families[i].key == family_id
        || after.families[i] == store.families[i]) by {}
    assert(family_keys(after.families) =~= family_keys(store.families));
    lemma_family_at(store.families, other);
    lemma_family_at(after.families, other);
    if family_at(store.families, other) is Some && family_at(after.families, other) is Some {
        let i = family_at(store.families, other)->Some_0;
        let j = family_at(after.families, other)->Some_0;
        assert(after.families[i].key == other && store.families[j].key == other);
        assert(i == j);
    } else if family_at(store.families, other) is Some {
        assert(after.families[family_at(store.families, other)->Some_0].key == other);
    } else if family_at(after.families, other) is Some {
        assert(store.families[family_at(after.families, other)->Some_0].key == other);
    }
}

/// A family whose active branch belongs to a provider.
pub open spec fn family_rebranded(
    family: FamilyView,
    provider: Seq<char>,
    now: Seq<char>,
) -> FamilyView {
    FamilyView {
        chain: match position_of(family.chain, family.active_id) {
            Some(at) => family.chain.update(at, BranchView { provider, ..family.chain[at] }),
            None => family.chain,
        },
        updated_at: now,
        ..family
    }
}

/// A store in which the active branch of a family belongs to a provider.
pub open spec fn store_rebranded(
    store: StoreView,
    family_id: Seq<char>,
    provider: Seq<char>,
    now: Seq<char>,
) -> StoreView {
    match family_at(store.families, family_id) {
        Some(at) => with_family(
            store,
            at,
            family_rebranded(store.families[at].family, provider, now),
        ),
        None => store,
    }
}

fn rebrand_family(family: &mut Family, provider: &str, now: &str)
    ensures
        final(family)@ == family_rebranded(old(family)@, provider@, now@),
{
    let ghost before = family@;
    if let Some(at) = find_branch(&family.chain, family.active_id.as_str()) {
        let mut branch = family.chain[at].copy();
        branch.provider = provider.to_owned();
        assert(branch@ =~= (BranchView { provider: provider@, ..before.chain[at as int] }));
        family.chain.set(at, branch);
        assert(chain_view(family.chain@) =~= before.chain.update(at as int, branch@));
    }
    family.updated_at = now.to_owned();
}

/// Notes that the active branch of a family belongs to a provider.
pub fn set_active_provider(store: &mut FamilyStore, family_id: &str, provider: &str, now: &str)
    ensures
        final(store)@ == store_rebranded(old(store)@, family_id@, provider@, now@),
{
    let ghost before = store@;
    if let Some(at) = find_family(&store.families, family_id) {
        rebrand_family(&mut store.families[at].family, provider, now);
        assert(store@ =~= with_family(
            before,
            at as int,
            family_rebranded(before.families[at as int].family, provider@, now@),
        ));
    }
}

/// Giving the active branch of a family another provider keeps the store in order.
pub proof fn law_rebranding_keeps_the_order(
    store: StoreView,
    family_id: Seq<char>,
    provider: Seq<char>,
    now: Seq<char>,
)
    requires
        store.well_formed(),
    ensures
        store_rebranded(store, family_id, provider, now).well_formed(),
{
    lemma_family_at(store.families, family_id);
    if let Some(at) = family_at(store.families, family_id) {
        lemma_with_family_keys(
            store,
            at,
            family_rebranded(store.families[at].family, provider, now),
        );
    }
}

/// A branch that gives way to another is archived for the sync of providers; one that was archived
/// before keeps the reason it has.
pub proof fn law_replaced_branches_say_why(
    family: FamilyView,
    branch: BranchView,
    now: Seq<char>,
    i: int,
)
    requires
        0 <= i < family.chain.len(),
    ensures
        ({
            let switched = family_switched(family, branch, now);
            &&& switched.updated_at == now
            &&& family.chain[i].status == BranchStatus::Active ==> switched.chain[i].archive_origin
                == Some(ArchiveOrigin::ProviderSync)
            &&& family.chain[i].status != BranchStatus::Active ==> switched.chain[i]
                == family.chain[i]
        }),
{
}

/// Setting the provider of a family changes that of its active branch and nothing else but the
/// moment.
pub proof fn law_rebranding_changes_the_active_branch(
    family: FamilyView,
    provider: Seq<char>,
    now: Seq<char>,
    i: int,
)
    requires
        0 <= i < family.chain.len(),
    ensures
        ({
            let changed = family_rebranded(family, provider, now);
            &&& changed.active_id == family.active_id
            &&& changed.updated_at == now
            &&& changed.chain.len() == family.chain.len()
            &&& (BranchView { provider: family.chain[i].provider, ..changed.chain[i] })
                == family.chain[i]
            &&& family.chain[i].id != family.active_id ==> changed.chain[i] == family.chain[i]
            &&& family.chain[i].id == family.active_id && (forall|j: int|
                0 <= j < i ==> (#[trigger] family.chain[j]).id != family.active_id)
                ==> changed.chain[i].provider == provider
        }),
{
    lemma_position_of(family.chain, family.active_id);
}

} // verus!
