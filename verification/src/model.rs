//! Families of sessions: the branches that were made of one session, of which one is
//! active, and the store that holds all families.

use vstd::prelude::*;

use crate::text::{copy_opt, opt_text, same};

verus! {

/// Whether a branch is the one in use or was put away.
#[derive(Clone, Copy, Debug, PartialEq, Eq, Structural)]
pub enum BranchStatus {
    Active,
    Archived,
}

/// Why a session was archived.
#[derive(Clone, Copy, Debug, PartialEq, Eq, Structural)]
pub enum ArchiveOrigin {
    /// A fork took its place.
    Fork,
    /// A copy for another provider took its place.
    ProviderSync,
    /// A user put it away.
    Manual,
    /// Codex put it away.
    Official,
    /// Nothing tells.
    Unknown,
}

/// One branch of a family.
pub struct FamilyBranch {
    pub id: String,
    pub provider: String,
    pub created_at: String,
    pub status: BranchStatus,
    pub rollout_relpath: String,
    pub sha256: Option<String>,
    pub line_count: Option<u64>,
    pub note: Option<String>,
    pub archive_origin: Option<ArchiveOrigin>,
}

/// What a [`FamilyBranch`] holds.
#[verifier::ext_equal]
pub struct BranchView {
    pub id: Seq<char>,
    pub provider: Seq<char>,
    pub created_at: Seq<char>,
    pub status: BranchStatus,
    pub rollout_relpath: Seq<char>,
    pub sha256: Option<Seq<char>>,
    pub line_count: Option<u64>,
    pub note: Option<Seq<char>>,
    pub archive_origin: Option<ArchiveOrigin>,
}

impl View for FamilyBranch {
    type V = BranchView;

    open spec fn view(&self) -> BranchView {
        BranchView {
            id: self.id@,
            provider: self.provider@,
            created_at: self.created_at@,
            status: self.status,
            rollout_relpath: self.rollout_relpath@,
            sha256: opt_text(self.sha256),
            line_count: self.line_count,
            note: opt_text(self.note),
            archive_origin: self.archive_origin,
        }
    }
}

/// A family of sessions.
pub struct Family {
    pub family_id: String,
    pub root_id: String,
    pub title: String,
    pub chain: Vec<FamilyBranch>,
    pub active_id: String,
    pub updated_at: String,
}

/// What a [`Family`] holds.
#[verifier::ext_equal]
pub struct FamilyView {
    pub family_id: Seq<char>,
    pub root_id: Seq<char>,
    pub title: Seq<char>,
    pub chain: Seq<BranchView>,
    pub active_id: Seq<char>,
    pub updated_at: Seq<char>,
}

/// What a chain of branches holds.
pub open spec fn chain_view(chain: Seq<FamilyBranch>) -> Seq<BranchView> {
    chain.map_values(|branch: FamilyBranch| branch@)
}

impl View for Family {
    type V = FamilyView;

    open spec fn view(&self) -> FamilyView {
        FamilyView {
            family_id: self.family_id@,
            root_id: self.root_id@,
            title: self.title@,
            chain: chain_view(self.chain@),
            active_id: self.active_id@,
            updated_at: self.updated_at@,
        }
    }
}

/// A family under the key that the store has for it.
pub struct FamilyEntry {
    pub key: String,
    pub family: Family,
}

/// What a [`FamilyEntry`] holds.
#[verifier::ext_equal]
pub struct FamilyEntryView {
    pub key: Seq<char>,
    pub family: FamilyView,
}

impl View for FamilyEntry {
    type V = FamilyEntryView;

    open spec fn view(&self) -> FamilyEntryView {
        FamilyEntryView { key: self.key@, family: self.family@ }
    }
}

/// A session and the key of the family that it belongs to.
pub struct IndexEntry {
    pub session_id: String,
    pub family_id: String,
}

/// What an [`IndexEntry`] holds.
#[verifier::ext_equal]
pub struct IndexEntryView {
    pub session_id: Seq<char>,
    pub family_id: Seq<char>,
}

impl View for IndexEntry {
    type V = IndexEntryView;

    open spec fn view(&self) -> IndexEntryView {
        IndexEntryView { session_id: self.session_id@, family_id: self.family_id@ }
    }
}

/// All families, and which family each session belongs to. Both lists are in
/// ascending order of their keys.
pub struct FamilyStore {
    pub version: u32,
    pub families: Vec<FamilyEntry>,
    pub index: Vec<IndexEntry>,
}

/// What a [`FamilyStore`] holds.
#[verifier::ext_equal]
pub struct StoreView {
    pub version: u32,
    pub families: Seq<FamilyEntryView>,
    pub index: Seq<IndexEntryView>,
}

/// What the families of a store hold.
pub open spec fn families_view(families: Seq<FamilyEntry>) -> Seq<FamilyEntryView> {
    families.map_values(|entry: FamilyEntry| entry@)
}

/// What the index of a store holds.
pub open spec fn index_view(index: Seq<IndexEntry>) -> Seq<IndexEntryView> {
    index.map_values(|entry: IndexEntry| entry@)
}

impl View for FamilyStore {
    type V = StoreView;

    open spec fn view(&self) -> StoreView {
        StoreView {
            version: self.version,
            families: families_view(self.families@),
            index: index_view(self.index@),
        }
    }
}

/// The keys of families.
pub open spec fn family_keys(families: Seq<FamilyEntryView>) -> Seq<Seq<char>> {
    families.map_values(|entry: FamilyEntryView| entry.key)
}

/// The sessions that an index names.
pub open spec fn index_keys(index: Seq<IndexEntryView>) -> Seq<Seq<char>> {
    index.map_values(|entry: IndexEntryView| entry.session_id)
}

/// The ids of branches.
pub open spec fn branch_ids(chain: Seq<BranchView>) -> Seq<Seq<char>> {
    chain.map_values(|branch: BranchView| branch.id)
}

impl StoreView {
    /// Whether both lists are in ascending order of their keys.
    pub open spec fn well_formed(self) -> bool {
        crate::sorted::ascending(family_keys(self.families)) && crate::sorted::ascending(
            index_keys(self.index),
        )
    }
}

/// The first position at which a chain has a branch of this id.
pub open spec fn position_of(chain: Seq<BranchView>, id: Seq<char>) -> Option<int>
    decreases chain.len(),
{
    if chain.len() == 0 {
        None
    } else {
        match position_of(chain.drop_last(), id) {
            Some(at) => Some(at),
            None => if chain.last().id == id {
                Some(chain.len() - 1)
            } else {
                None
            },
        }
    }
}

/// The first branch of a chain that has this id.
pub open spec fn branch_of(chain: Seq<BranchView>, id: Seq<char>) -> Option<BranchView> {
    match position_of(chain, id) {
        Some(at) => Some(chain[at]),
        None => None,
    }
}

/// A position that was found is that of the first branch with the id.
pub proof fn lemma_position_of(chain: Seq<BranchView>, id: Seq<char>)
    ensures
        match position_of(chain, id) {
            Some(at) => 0 <= at < chain.len() && chain[at].id == id && (forall|i: int|
                0 <= i < at ==> (#[trigger] chain[i]).id != id),
            None => forall|i: int| 0 <= i < chain.len() ==> (#[trigger] chain[i]).id != id,
        },
    decreases chain.len(),
{
    if chain.len() > 0 {
        let rest = chain.drop_last();
        lemma_position_of(rest, id);
        assert forall|i: int| 0 <= i < rest.len() implies #[trigger] chain[i] == rest[i] by {}
    }
}

/// The position found is kept where more branches follow.
pub proof fn lemma_position_of_take(chain: Seq<BranchView>, id: Seq<char>, at: int)
    requires
        0 <= at < chain.len(),
        chain[at].id == id,
        forall|i: int| 0 <= i < at ==> (#[trigger] chain[i]).id != id,
    ensures
        position_of(chain, id) == Some(at),
{
    lemma_position_of(chain, id);
}

/// Finds the first branch of a chain that has this id.
pub fn find_branch(chain: &Vec<FamilyBranch>, id: &str) -> (found: Option<usize>)
    ensures
        match found {
            Some(at) => position_of(chain_view(chain@), id@) == Some(at as int) && at
                < chain@.len(),
            None => position_of(chain_view(chain@), id@) is None,
        },
{
    let ghost all = chain_view(chain@);
    let mut at: usize = 0;
    while at < chain.len()
        invariant
            at <= chain@.len(),
            all == chain_view(chain@),
            forall|i: int| 0 <= i < at ==> (#[trigger] all[i]).id != id@,
        decreases chain.len() - at,
    {
        if same(chain[at].id.as_str(), id) {
            proof {
                lemma_position_of_take(all, id@, at as int);
            }
            return Some(at);
        }
        at = at + 1;
    }
    proof {
        lemma_position_of(all, id@);
    }
    None
}

/// The position of the family under this key.
pub open spec fn family_at(families: Seq<FamilyEntryView>, key: Seq<char>) -> Option<int>
    decreases families.len(),
{
    if families.len() == 0 {
        None
    } else {
        match family_at(families.drop_last(), key) {
            Some(at) => Some(at),
            None => if families.last().key == key {
                Some(families.len() - 1)
            } else {
                None
            },
        }
    }
}

/// The family under this key.
pub open spec fn family_under(store: StoreView, key: Seq<char>) -> Option<FamilyView> {
    match family_at(store.families, key) {
        Some(at) => Some(store.families[at].family),
        None => None,
    }
}

/// A position that was found is that of the first family with the key.
pub proof fn lemma_family_at(families: Seq<FamilyEntryView>, key: Seq<char>)
    ensures
        match family_at(families, key) {
            Some(at) => 0 <= at < families.len() && families[at].key == key && (forall|i: int|
                0 <= i < at ==> (#[trigger] families[i]).key != key),
            None => forall|i: int| 0 <= i < families.len() ==> (#[trigger] families[i]).key != key,
        },
    decreases families.len(),
{
    if families.len() > 0 {
        let rest = families.drop_last();
        lemma_family_at(rest, key);
        assert forall|i: int| 0 <= i < rest.len() implies #[trigger] families[i] == rest[i] by {}
    }
}

/// Finds the family under a key.
pub fn find_family(families: &Vec<FamilyEntry>, key: &str) -> (found: Option<usize>)
    ensures
        match found {
            Some(at) => family_at(families_view(families@), key@) == Some(at as int) && at
                < families@.len(),
            None => family_at(families_view(families@), key@) is None,
        },
{
    let ghost all = families_view(families@);
    proof {
        lemma_family_at(all, key@);
    }
    let mut at: usize = 0;
    while at < families.len()
        invariant
            at <= families@.len(),
            all == families_view(families@),
            forall|i: int| 0 <= i < at ==> (#[trigger] all[i]).key != key@,
        decreases families.len() - at,
    {
        if same(families[at].key.as_str(), key) {
            proof {
                lemma_family_at(all, key@);
                assert(all[at as int].key == key@);
            }
            return Some(at);
        }
        at = at + 1;
    }
    proof {
        lemma_family_at(all, key@);
    }
    None
}

/// The family that the index has for a session.
pub open spec fn family_of(index: Seq<IndexEntryView>, session_id: Seq<char>) -> Option<Seq<char>>
    decreases index.len(),
{
    if index.len() == 0 {
        None
    } else {
        match family_of(index.drop_last(), session_id) {
            Some(family_id) => Some(family_id),
            None => if index.last().session_id == session_id {
                Some(index.last().family_id)
            } else {
                None
            },
        }
    }
}

/// What the index has for a session is what its first entry of that session has.
pub proof fn lemma_family_of(index: Seq<IndexEntryView>, session_id: Seq<char>)
    ensures
        match family_of(index, session_id) {
            Some(family_id) => exists|i: int|
                0 <= i < index.len() && (#[trigger] index[i]).session_id == session_id
                    && index[i].family_id == family_id && (forall|j: int|
                    0 <= j < i ==> (#[trigger] index[j]).session_id != session_id),
            None => forall|i: int|
                0 <= i < index.len() ==> (#[trigger] index[i]).session_id != session_id,
        },
    decreases index.len(),
{
    if index.len() > 0 {
        let rest = index.drop_last();
        lemma_family_of(rest, session_id);
        assert forall|i: int| 0 <= i < rest.len() implies #[trigger] index[i] == rest[i] by {}
        if family_of(rest, session_id) is Some {
            let i = choose|i: int|
                0 <= i < rest.len() && (#[trigger] rest[i]).session_id == session_id
                    && rest[i].family_id == family_of(rest, session_id)->Some_0 && (forall|j: int|
                    0 <= j < i ==> (#[trigger] rest[j]).session_id != session_id);
            assert(index[i].session_id == session_id);
            assert forall|j: int| 0 <= j < i implies (#[trigger] index[j]).session_id
                != session_id by {
                assert(rest[j].session_id != session_id);
            }
        } else {
            assert(index[index.len() - 1] == index.last());
        }
    }
}

/// Finds the family that the index has for a session.
pub fn find_index(index: &Vec<IndexEntry>, session_id: &str) -> (found: Option<usize>)
    ensures
        match found {
            Some(at) => at < index@.len() && family_of(index_view(index@), session_id@) == Some(
                index@[at as int].family_id@,
            ),
            None => family_of(index_view(index@), session_id@) is None,
        },
{
    let ghost all = index_view(index@);
    let mut at: usize = 0;
    while at < index.len()
        invariant
            at <= index@.len(),
            all == index_view(index@),
            family_of(all.take(at as int), session_id@) is None,
        decreases index.len() - at,
    {
        assert(all.take(at + 1).drop_last() =~= all.take(at as int));
        if same(index[at].session_id.as_str(), session_id) {
            proof {
                lemma_family_of_extends(all, session_id@, at + 1);
            }
            return Some(at);
        }
        at = at + 1;
    }
    assert(all.take(at as int) =~= all);
    None
}

proof fn lemma_family_of_extends(index: Seq<IndexEntryView>, session_id: Seq<char>, at: int)
    requires
        0 <= at <= index.len(),
        family_of(index.take(at), session_id) is Some,
    ensures
        family_of(index, session_id) == family_of(index.take(at), session_id),
    decreases index.len(),
{
    if at < index.len() {
        assert(index.drop_last().take(at) =~= index.take(at));
        lemma_family_of_extends(index.drop_last(), session_id, at);
    } else {
        assert(index.take(at) =~= index);
    }
}

impl FamilyBranch {
    /// A branch that holds the same.
    pub fn copy(&self) -> (branch: FamilyBranch)
        ensures
            branch@ == self@,
    {
        FamilyBranch {
            id: self.id.clone(),
            provider: self.provider.clone(),
            created_at: self.created_at.clone(),
            status: self.status,
            rollout_relpath: self.rollout_relpath.clone(),
            sha256: copy_opt(&self.sha256),
            line_count: self.line_count,
            note: copy_opt(&self.note),
            archive_origin: self.archive_origin,
        }
    }
}

} // verus!
