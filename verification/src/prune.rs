//! Removing what points to rollouts that are gone: lines of the session index, rows of
//! the threads table, sub-agent sessions, and branches and families of the store.

use vstd::prelude::*;

use crate::error::{AppError, ErrorView};
use crate::model::{
    branch_ids, chain_view, families_view, family_at, family_keys, family_of, find_family,
    find_index, index_keys, index_view, lemma_family_at, BranchStatus, BranchView, Family,
    FamilyBranch, FamilyEntryView, FamilyStore, FamilyView, IndexEntry, IndexEntryView, StoreView,
};
use crate::seqs::count_where;
use crate::sorted::ascending;
use crate::text::{holds_text, join2, opt_text, same, text_lt, texts};

verus! {

// ---------------------------------------------------------------------------
// Which branches still have a rollout
// ---------------------------------------------------------------------------

/// What was learned of the files of a family: to which family its first branch leads
/// when followed strictly, where it leads to one, and for each branch whether the file
/// at its recorded place exists, or `None` where that place is refused.
pub struct FamilyProbe {
    pub resolved_family_id: Option<String>,
    pub rollout_files: Vec<Option<bool>>,
}

/// What a [`FamilyProbe`] holds.
#[verifier::ext_equal]
pub struct ProbeView {
    pub resolved_family_id: Option<Seq<char>>,
    pub rollout_files: Seq<Option<bool>>,
}

impl View for FamilyProbe {
    type V = ProbeView;

    open spec fn view(&self) -> ProbeView {
        ProbeView {
            resolved_family_id: opt_text(self.resolved_family_id),
            rollout_files: self.rollout_files@,
        }
    }
}

/// What a list of probes holds.
pub open spec fn probes_view(probes: Seq<FamilyProbe>) -> Seq<ProbeView> {
    probes.map_values(|probe: FamilyProbe| probe@)
}

/// Whether there is one probe for each family, with one answer for each branch.
pub open spec fn probes_fit(store: StoreView, probes: Seq<ProbeView>) -> bool {
    probes.len() == store.families.len() && forall|i: int|
        0 <= i < probes.len() ==> (#[trigger] probes[i]).rollout_files.len()
            == store.families[i].family.chain.len()
}

/// Whether the rollout of a branch exists; `None` where that cannot be told.
pub open spec fn branch_exists(
    branch: BranchView,
    file: Option<bool>,
    rollout_ids: Seq<Seq<char>>,
) -> Option<bool> {
    if rollout_ids.contains(branch.id) {
        Some(true)
    } else {
        file
    }
}

/// Whether it can be told of every branch whether its rollout exists.
pub open spec fn all_judged(
    chain: Seq<BranchView>,
    files: Seq<Option<bool>>,
    rollout_ids: Seq<Seq<char>>,
) -> bool {
    forall|i: int|
        0 <= i < chain.len() ==> branch_exists(#[trigger] chain[i], files[i], rollout_ids) is Some
}

/// Whether a chain has a branch of this id whose rollout exists.
pub open spec fn id_exists(
    chain: Seq<BranchView>,
    files: Seq<Option<bool>>,
    rollout_ids: Seq<Seq<char>>,
    id: Seq<char>,
) -> bool {
    exists|i: int|
        0 <= i < chain.len() && (#[trigger] chain[i]).id == id && branch_exists(
            chain[i],
            files[i],
            rollout_ids,
        ) == Some(true)
}

/// Whether any branch of a chain has a rollout.
pub open spec fn any_exists(
    chain: Seq<BranchView>,
    files: Seq<Option<bool>>,
    rollout_ids: Seq<Seq<char>>,
) -> bool {
    exists|i: int|
        0 <= i < chain.len() && branch_exists(#[trigger] chain[i], files[i], rollout_ids) == Some(
            true,
        )
}

/// The ids that a list holds of those of a chain, in the order of the chain, or those
/// that it does not hold.
pub open spec fn ids_where(
    chain: Seq<BranchView>,
    existing: Seq<Seq<char>>,
    held: bool,
    active_only: bool,
) -> Seq<Seq<char>>
    decreases chain.len(),
{
    if chain.len() == 0 {
        Seq::empty()
    } else {
        let rest = ids_where(chain.drop_last(), existing, held, active_only);
        let last = chain.last();
        if existing.contains(last.id) == held && (!active_only || last.status
            == BranchStatus::Active) {
            rest.push(last.id)
        } else {
            rest
        }
    }
}

/// The ids of the branches whose rollout exists, in the order of the chain.
pub open spec fn existing_ids(
    chain: Seq<BranchView>,
    files: Seq<Option<bool>>,
    rollout_ids: Seq<Seq<char>>,
) -> Seq<Seq<char>>
    decreases chain.len(),
{
    if chain.len() == 0 {
        Seq::empty()
    } else {
        let at = chain.len() - 1;
        let rest = existing_ids(chain.drop_last(), files, rollout_ids);
        if branch_exists(chain[at], files[at], rollout_ids) == Some(true) {
            rest.push(chain[at].id)
        } else {
            rest
        }
    }
}

/// The existing ids are just the ids that exist.
pub proof fn lemma_existing_ids(
    chain: Seq<BranchView>,
    files: Seq<Option<bool>>,
    rollout_ids: Seq<Seq<char>>,
)
    ensures
        forall|id: Seq<char>| #[trigger]
            existing_ids(chain, files, rollout_ids).contains(id) <==> id_exists(
                chain,
                files,
                rollout_ids,
                id,
            ),
        existing_ids(chain, files, rollout_ids).len() > 0 <==> any_exists(
            chain,
            files,
            rollout_ids,
        ),
    decreases chain.len(),
{
    if chain.len() > 0 {
        let rest = chain.drop_last();
        let at = chain.len() - 1;
        lemma_existing_ids(rest, files, rollout_ids);
        let before = existing_ids(rest, files, rollout_ids);
        let all = existing_ids(chain, files, rollout_ids);
        let added = branch_exists(chain[at], files[at], rollout_ids) == Some(true);
        assert forall|i: int| 0 <= i < rest.len() implies #[trigger] rest[i] == chain[i] by {}
        assert forall|id: Seq<char>| #[trigger] all.contains(id) <==> id_exists(
            chain,
            files,
            rollout_ids,
            id,
        ) by {
            if id_exists(chain, files, rollout_ids, id) {
                let i = choose|i: int|
                    0 <= i < chain.len() && (#[trigger] chain[i]).id == id && branch_exists(
                        chain[i],
                        files[i],
                        rollout_ids,
                    ) == Some(true);
                if i < at {
                    assert(rest[i].id == id);
                    assert(id_exists(rest, files, rollout_ids, id));
                    assert(before.contains(id));
                    let k = choose|k: int| 0 <= k < before.len() && before[k] == id;
                    assert(all[k] == id);
                } else {
                    assert(all[all.len() - 1] == id);
                }
            }
            if all.contains(id) {
                let k = choose|k: int| 0 <= k < all.len() && all[k] == id;
                if k < before.len() {
                    assert(before[k] == id);
                    assert(before.contains(id));
                    let i = choose|i: int|
                        0 <= i < rest.len() && (#[trigger] rest[i]).id == id && branch_exists(
                            rest[i],
                            files[i],
                            rollout_ids,
                        ) == Some(true);
                    assert(chain[i].id == id);
                } else {
                    assert(chain[at].id == id);
                }
            }
        }
        if any_exists(rest, files, rollout_ids) {
            let i = choose|i: int|
                0 <= i < rest.len() && branch_exists(#[trigger] rest[i], files[i], rollout_ids)
                    == Some(true);
            assert(branch_exists(chain[i], files[i], rollout_ids) == Some(true));
        }
        if any_exists(chain, files, rollout_ids) {
            let i = choose|i: int|
                0 <= i < chain.len() && branch_exists(#[trigger] chain[i], files[i], rollout_ids)
                    == Some(true);
            if i < at {
                assert(branch_exists(rest[i], files[i], rollout_ids) == Some(true));
            }
        }
    }
}

/// Whether the rollout of a branch exists.
pub fn family_branch_rollout_exists(
    branch: &FamilyBranch,
    file: Option<bool>,
    rollout_ids: &Vec<String>,
) -> (exists_: Option<bool>)
    ensures
        exists_ == branch_exists(branch@, file, texts(rollout_ids@)),
{
    if holds_text(rollout_ids, branch.id.as_str()) {
        Some(true)
    } else {
        file
    }
}

/// The ids of the branches whose rollout exists; `None` where that cannot be told of
/// every branch.
pub fn existing_family_branch_ids(
    family: &Family,
    files: &Vec<Option<bool>>,
    rollout_ids: &Vec<String>,
) -> (ids: Option<Vec<String>>)
    requires
        files@.len() == family@.chain.len(),
    ensures
        match ids {
            Some(ids) => all_judged(family@.chain, files@, texts(rollout_ids@)) && texts(ids@)
                == existing_ids(family@.chain, files@, texts(rollout_ids@)),
            None => !all_judged(family@.chain, files@, texts(rollout_ids@)),
        },
{
    let ghost chain = family@.chain;
    let ghost rollouts = texts(rollout_ids@);
    let mut ids: Vec<String> = Vec::new();
    let mut at: usize = 0;
    while at < family.chain.len()
        invariant
            at <= family.chain@.len(),
            files@.len() == chain.len(),
            chain == chain_view(family.chain@),
            rollouts == texts(rollout_ids@),
            forall|i: int|
                0 <= i < at ==> branch_exists(#[trigger] chain[i], files@[i], rollouts) is Some,
            texts(ids@) == existing_ids(chain.take(at as int), files@, rollouts),
        decreases family.chain.len() - at,
    {
        let ghost before = texts(ids@);
        assert(chain.take(at + 1).drop_last() =~= chain.take(at as int));
        assert(chain[at as int] == family.chain@[at as int]@);
        match family_branch_rollout_exists(&family.chain[at], files[at], rollout_ids) {
            None => {
                assert(branch_exists(chain[at as int], files@[at as int], rollouts) is None);
                return None;
            },
            Some(true) => {
                ids.push(family.chain[at].id.clone());
                assert(texts(ids@) =~= before.push(chain[at as int].id));
            },
            Some(false) => {},
        }
        at = at + 1;
    }
    assert(chain.take(at as int) =~= chain);
    Some(ids)
}

// ---------------------------------------------------------------------------
// What can be trusted of a family
// ---------------------------------------------------------------------------

/// Whether the index leads a session to a family whose chain does not hold it.
pub open spec fn index_strays(
    index: Seq<IndexEntryView>,
    key: Seq<char>,
    ids: Seq<Seq<char>>,
) -> bool {
    exists|i: int|
        0 <= i < index.len() && (#[trigger] index[i]).family_id == key && !ids.contains(
            index[i].session_id,
        )
}

/// Whether the records of a family agree with each other.
pub open spec fn metadata_consistent(
    store: StoreView,
    key: Seq<char>,
    family: FamilyView,
    resolved: Option<Seq<char>>,
) -> bool {
    &&& family.family_id == key
    &&& !index_strays(store.index, key, branch_ids(family.chain))
    &&& family.chain.len() == 0 || resolved == Some(key)
}

/// Whether another family has a branch of one of these ids.
pub open spec fn shared_with_others(
    families: Seq<FamilyEntryView>,
    key: Seq<char>,
    ids: Seq<Seq<char>>,
) -> bool {
    exists|i: int, k: int|
        0 <= i < families.len() && families[i].key != key && 0 <= k
            < families[i].family.chain.len() && ids.contains(
            (#[trigger] families[i].family.chain[k]).id,
        )
}

/// Whether a family can be mended without touching another: its branches are its own,
/// all different, and the index leads just them to it.
pub open spec fn structure_safe(store: StoreView, key: Seq<char>, family: FamilyView) -> bool {
    &&& family.family_id == key
    &&& family.chain.len() > 0
    &&& branch_ids(family.chain).no_duplicates()
    &&& forall|i: int|
        0 <= i < family.chain.len() ==> family_of(store.index, (#[trigger] family.chain[i]).id)
            == Some(key)
    &&& !index_strays(store.index, key, branch_ids(family.chain))
    &&& !shared_with_others(store.families, key, branch_ids(family.chain))
}

fn chain_ids(chain: &Vec<FamilyBranch>) -> (ids: Vec<String>)
    ensures
        texts(ids@) == branch_ids(chain_view(chain@)),
{
    let ghost all = chain_view(chain@);
    let mut ids: Vec<String> = Vec::new();
    let mut at: usize = 0;
    while at < chain.len()
        invariant
            at <= chain@.len(),
            all == chain_view(chain@),
            texts(ids@) == branch_ids(all.take(at as int)),
        decreases chain.len() - at,
    {
        let ghost before = texts(ids@);
        ids.push(chain[at].id.clone());
        assert(texts(ids@) =~= before.push(all[at as int].id));
        assert(texts(ids@) =~= branch_ids(all.take(at + 1)));
        at = at + 1;
    }
    assert(all.take(at as int) =~= all);
    ids
}

fn index_has_strays(store: &FamilyStore, key: &str, ids: &Vec<String>) -> (strays: bool)
    ensures
        strays == index_strays(store@.index, key@, texts(ids@)),
{
    let ghost all = store@.index;
    let mut at: usize = 0;
    while at < store.index.len()
        invariant
            at <= store.index@.len(),
            all == index_view(store.index@),
            forall|i: int|
                0 <= i < at && (#[trigger] all[i]).family_id == key@ ==> texts(ids@).contains(
                    all[i].session_id,
                ),
        decreases store.index.len() - at,
    {
        assert(all[at as int] == store.index@[at as int]@);
        if same(store.index[at].family_id.as_str(), key) && !holds_text(
            ids,
            store.index[at].session_id.as_str(),
        ) {
            return true;
        }
        at = at + 1;
    }
    false
}

/// Whether the records of a family agree with each other, given the family to which its
/// first branch leads.
pub fn family_metadata_is_consistent(
    store: &FamilyStore,
    key: &str,
    family: &Family,
    resolved: &Option<String>,
) -> (consistent: bool)
    ensures
        consistent == metadata_consistent(store@, key@, family@, opt_text(*resolved)),
{
    if !same(family.family_id.as_str(), key) {
        return false;
    }
    let ids = chain_ids(&family.chain);
    if index_has_strays(store, key, &ids) {
        return false;
    }
    if family.chain.len() == 0 {
        return true;
    }
    match resolved {
        Some(id) => same(id.as_str(), key),
        None => false,
    }
}

fn all_different(ids: &Vec<String>) -> (different: bool)
    ensures
        different == texts(ids@).no_duplicates(),
{
    let ghost all = texts(ids@);
    let mut at: usize = 0;
    while at < ids.len()
        invariant
            at <= ids@.len(),
            all == texts(ids@),
            forall|i: int, j: int| 0 <= i < j < at ==> all[i] != all[j],
        decreases ids.len() - at,
    {
        let mut other: usize = 0;
        while other < at
            invariant
                other <= at < ids@.len(),
                all == texts(ids@),
                forall|i: int| 0 <= i < other ==> all[i] != all[at as int],
            decreases at - other,
        {
            if same(ids[other].as_str(), ids[at].as_str()) {
                assert(all[other as int] == all[at as int]);
                return false;
            }
            other = other + 1;
        }
        at = at + 1;
    }
    true
}

fn chain_shares(chain: &Vec<FamilyBranch>, ids: &Vec<String>) -> (shares: bool)
    ensures
        shares == exists|k: int|
            0 <= k < chain_view(chain@).len() && texts(ids@).contains(
                (#[trigger] chain_view(chain@)[k]).id,
            ),
{
    let ghost all = chain_view(chain@);
    let mut at: usize = 0;
    while at < chain.len()
        invariant
            at <= chain@.len(),
            all == chain_view(chain@),
            forall|k: int| 0 <= k < at ==> !texts(ids@).contains((#[trigger] all[k]).id),
        decreases chain.len() - at,
    {
        assert(all[at as int] == chain@[at as int]@);
        if holds_text(ids, chain[at].id.as_str()) {
            return true;
        }
        at = at + 1;
    }
    false
}

fn others_share(store: &FamilyStore, key: &str, ids: &Vec<String>) -> (shared: bool)
    ensures
        shared == shared_with_others(store@.families, key@, texts(ids@)),
{
    let ghost all = store@.families;
    let mut at: usize = 0;
    while at < store.families.len()
        invariant
            at <= store.families@.len(),
            all == families_view(store.families@),
            forall|i: int, k: int|
                0 <= i < at && all[i].key != key@ && 0 <= k < all[i].family.chain.len() ==> !texts(
                    ids@,
                ).contains((#[trigger] all[i].family.chain[k]).id),
        decreases store.families.len() - at,
    {
        let entry = &store.families[at];
        assert(all[at as int] == entry@);
        if !same(entry.key.as_str(), key) && chain_shares(&entry.family.chain, ids) {
            proof {
                let chain = chain_view(entry.family.chain@);
                let k = choose|k: int|
                    0 <= k < chain.len() && texts(ids@).contains((#[trigger] chain[k]).id);
                assert(texts(ids@).contains(all[at as int].family.chain[k].id));
            }
            return true;
        }
        at = at + 1;
    }
    false
}

/// Whether a family can be mended without touching another.
pub fn family_structure_is_safe_to_repair(store: &FamilyStore, key: &str, family: &Family) -> (safe:
    bool)
    ensures
        safe == structure_safe(store@, key@, family@),
{
    if !same(family.family_id.as_str(), key) || family.chain.len() == 0 {
        return false;
    }
    let ghost chain = family@.chain;
    let ids = chain_ids(&family.chain);
    if !all_different(&ids) {
        return false;
    }
    let mut at: usize = 0;
    while at < family.chain.len()
        invariant
            at <= family.chain@.len(),
            chain == chain_view(family.chain@),
            forall|i: int|
                0 <= i < at ==> family_of(store@.index, (#[trigger] chain[i]).id) == Some(key@),
        decreases family.chain.len() - at,
    {
        assert(chain[at as int] == family.chain@[at as int]@);
        match find_index(&store.index, family.chain[at].id.as_str()) {
            Some(found) => {
                if !same(store.index[found].family_id.as_str(), key) {
                    return false;
                }
            },
            None => {
                return false;
            },
        }
        at = at + 1;
    }
    if index_has_strays(store, key, &ids) {
        return false;
    }
    !others_share(store, key, &ids)
}

// ---------------------------------------------------------------------------
// The plan for the store
// ---------------------------------------------------------------------------

/// What is to be done with a family.
#[verifier::ext_equal]
pub enum Verdict {
    /// Nothing can be told for sure: leave it.
    Skip,
    /// None of its branches has a rollout: remove it.
    Remove,
    /// Its active branch is gone, and one other branch is marked active: make that the
    /// active one and drop the branches without rollout.
    Recover { active_id: Seq<char>, missing: Seq<Seq<char>> },
    /// Drop the branches without rollout, after the marks of the branches were set
    /// right where they have to be.
    Prune { normalize: bool, missing: Seq<Seq<char>> },
}

/// What is to be done with a family of which it can be told which branches exist.
pub open spec fn verdict_given(
    store: StoreView,
    key: Seq<char>,
    family: FamilyView,
    resolved: Option<Seq<char>>,
    existing: Seq<Seq<char>>,
) -> Verdict {
    let consistent = metadata_consistent(store, key, family, resolved);
    let missing = ids_where(family.chain, existing, false, false);
    if existing.len() == 0 {
        if consistent {
            Verdict::Remove
        } else {
            Verdict::Skip
        }
    } else if !existing.contains(family.active_id) {
        let active = ids_where(family.chain, existing, true, true);
        if active.len() == 1 && structure_safe(store, key, family) {
            Verdict::Recover { active_id: active[0], missing }
        } else {
            Verdict::Skip
        }
    } else if consistent {
        Verdict::Prune { normalize: false, missing }
    } else if structure_safe(store, key, family) {
        Verdict::Prune { normalize: true, missing }
    } else {
        Verdict::Skip
    }
}

/// What is to be done with a family.
pub open spec fn verdict(
    store: StoreView,
    entry: FamilyEntryView,
    probe: ProbeView,
    rollout_ids: Seq<Seq<char>>,
) -> Verdict {
    if all_judged(entry.family.chain, probe.rollout_files, rollout_ids) {
        verdict_given(
            store,
            entry.key,
            entry.family,
            probe.resolved_family_id,
            existing_ids(entry.family.chain, probe.rollout_files, rollout_ids),
        )
    } else {
        Verdict::Skip
    }
}

/// A family that gets another active branch.
pub struct FamilyActiveRecovery {
    pub family_id: String,
    pub active_id: String,
    pub missing_branch_ids: Vec<String>,
}

/// A family whose branches are to be marked after its active branch.
pub struct FamilyActiveNormalization {
    pub family_id: String,
    pub active_id: String,
}

/// A branch that is to be dropped.
pub struct BranchRemoval {
    pub family_id: String,
    pub branch_id: String,
}

/// What is to be done with the store.
pub struct FamilyOrphanPrunePlan {
    pub family_ids: Vec<String>,
    pub branches: Vec<BranchRemoval>,
    pub recoveries: Vec<FamilyActiveRecovery>,
    pub normalizations: Vec<FamilyActiveNormalization>,
    pub skipped_family_ids: Vec<String>,
}

/// What a [`FamilyActiveRecovery`] holds.
#[verifier::ext_equal]
pub struct RecoveryView {
    pub family_id: Seq<char>,
    pub active_id: Seq<char>,
    pub missing_branch_ids: Seq<Seq<char>>,
}

/// What a [`FamilyActiveNormalization`] holds.
#[verifier::ext_equal]
pub struct NormalizationView {
    pub family_id: Seq<char>,
    pub active_id: Seq<char>,
}

/// What a [`BranchRemoval`] holds.
#[verifier::ext_equal]
pub struct RemovalView {
    pub family_id: Seq<char>,
    pub branch_id: Seq<char>,
}

/// What a [`FamilyOrphanPrunePlan`] holds.
#[verifier::ext_equal]
pub struct PlanView {
    pub family_ids: Seq<Seq<char>>,
    pub branches: Seq<RemovalView>,
    pub recoveries: Seq<RecoveryView>,
    pub normalizations: Seq<NormalizationView>,
    pub skipped_family_ids: Seq<Seq<char>>,
}

impl View for FamilyActiveRecovery {
    type V = RecoveryView;

    open spec fn view(&self) -> RecoveryView {
        RecoveryView {
            family_id: self.family_id@,
            active_id: self.active_id@,
            missing_branch_ids: texts(self.missing_branch_ids@),
        }
    }
}

impl View for FamilyActiveNormalization {
    type V = NormalizationView;

    open spec fn view(&self) -> NormalizationView {
        NormalizationView { family_id: self.family_id@, active_id: self.active_id@ }
    }
}

impl View for BranchRemoval {
    type V = RemovalView;

    open spec fn view(&self) -> RemovalView {
        RemovalView { family_id: self.family_id@, branch_id: self.branch_id@ }
    }
}

/// What a list of removals holds.
pub open spec fn removals_view(removals: Seq<BranchRemoval>) -> Seq<RemovalView> {
    removals.map_values(|removal: BranchRemoval| removal@)
}

/// What a list of recoveries holds.
pub open spec fn recoveries_view(recoveries: Seq<FamilyActiveRecovery>) -> Seq<RecoveryView> {
    recoveries.map_values(|recovery: FamilyActiveRecovery| recovery@)
}

/// What a list of normalizations holds.
pub open spec fn normalizations_view(normalizations: Seq<FamilyActiveNormalization>) -> Seq<
    NormalizationView,
> {
    normalizations.map_values(|normalization: FamilyActiveNormalization| normalization@)
}

impl View for FamilyOrphanPrunePlan {
    type V = PlanView;

    open spec fn view(&self) -> PlanView {
        PlanView {
            family_ids: texts(self.family_ids@),
            branches: removals_view(self.branches@),
            recoveries: recoveries_view(self.recoveries@),
            normalizations: normalizations_view(self.normalizations@),
            skipped_family_ids: texts(self.skipped_family_ids@),
        }
    }
}

/// A plan that does nothing.
pub open spec fn empty_plan() -> PlanView {
    PlanView {
        family_ids: Seq::empty(),
        branches: Seq::empty(),
        recoveries: Seq::empty(),
        normalizations: Seq::empty(),
        skipped_family_ids: Seq::empty(),
    }
}

/// The removals of branches of one family.
pub open spec fn removals_of(key: Seq<char>, missing: Seq<Seq<char>>) -> Seq<RemovalView> {
    missing.map_values(|branch_id: Seq<char>| RemovalView { family_id: key, branch_id })
}

/// A plan that also does what is to be done with one more family.
pub open spec fn with_verdict(
    plan: PlanView,
    key: Seq<char>,
    active_id: Seq<char>,
    verdict: Verdict,
) -> PlanView {
    match verdict {
        Verdict::Skip => PlanView {
            skipped_family_ids: plan.skipped_family_ids.push(key),
            ..plan
        },
        Verdict::Remove => PlanView { family_ids: plan.family_ids.push(key), ..plan },
        Verdict::Recover { active_id, missing } => PlanView {
            recoveries: plan.recoveries.push(
                RecoveryView { family_id: key, active_id, missing_branch_ids: missing },
            ),
            ..plan
        },
        Verdict::Prune { normalize, missing } => PlanView {
            normalizations: if normalize {
                plan.normalizations.push(NormalizationView { family_id: key, active_id })
            } else {
                plan.normalizations
            },
            branches: plan.branches + removals_of(key, missing),
            ..plan
        },
    }
}

/// What is to be done with the first families.
pub open spec fn plan_through(
    store: StoreView,
    probes: Seq<ProbeView>,
    rollout_ids: Seq<Seq<char>>,
    count: int,
) -> PlanView
    decreases count,
{
    if count <= 0 {
        empty_plan()
    } else {
        let entry = store.families[count - 1];
        with_verdict(
            plan_through(store, probes, rollout_ids, count - 1),
            entry.key,
            entry.family.active_id,
            verdict(store, entry, probes[count - 1], rollout_ids),
        )
    }
}

/// What is to be done with the store.
pub open spec fn family_plan(
    store: StoreView,
    probes: Seq<ProbeView>,
    rollout_ids: Seq<Seq<char>>,
) -> PlanView {
    plan_through(store, probes, rollout_ids, store.families.len() as int)
}

fn select_ids(chain: &Vec<FamilyBranch>, existing: &Vec<String>, held: bool, active_only: bool) -> (ids:
    Vec<String>)
    ensures
        texts(ids@) == ids_where(chain_view(chain@), texts(existing@), held, active_only),
{
    let ghost all = chain_view(chain@);
    let mut ids: Vec<String> = Vec::new();
    let mut at: usize = 0;
    while at < chain.len()
        invariant
            at <= chain@.len(),
            all == chain_view(chain@),
            texts(ids@) == ids_where(all.take(at as int), texts(existing@), held, active_only),
        decreases chain.len() - at,
    {
        let ghost before = texts(ids@);
        assert(all.take(at + 1).drop_last() =~= all.take(at as int));
        assert(all.take(at + 1).last() == chain@[at as int]@);
        let is_active = match chain[at].status {
            BranchStatus::Active => true,
            _ => false,
        };
        if holds_text(existing, chain[at].id.as_str()) == held && (!active_only || is_active) {
            ids.push(chain[at].id.clone());
            assert(texts(ids@) =~= before.push(all[at as int].id));
        }
        at = at + 1;
    }
    assert(all.take(at as int) =~= all);
    ids
}

fn add_removals(branches: &mut Vec<BranchRemoval>, key: &str, missing: &Vec<String>)
    ensures
        removals_view(final(branches)@) == removals_view(old(branches)@) + removals_of(
            key@,
            texts(missing@),
        ),
{
    let ghost before = removals_view(branches@);
    let ghost all = texts(missing@);
    let mut at: usize = 0;
    assert(before =~= before + removals_of(key@, all.take(0)));
    while at < missing.len()
        invariant
            at <= missing@.len(),
            all == texts(missing@),
            removals_view(branches@) == before + removals_of(key@, all.take(at as int)),
        decreases missing.len() - at,
    {
        let ghost so_far = removals_view(branches@);
        let removal = BranchRemoval { family_id: key.to_owned(), branch_id: missing[at].clone() };
        branches.push(removal);
        assert(removals_view(branches@) =~= so_far.push(removal@));
        assert(removals_of(key@, all.take(at + 1)) =~= removals_of(key@, all.take(at as int)).push(
            removal@,
        ));
        assert(removals_view(branches@) =~= before + removals_of(key@, all.take(at + 1)));
        at = at + 1;
    }
    assert(all.take(at as int) =~= all);
}

fn empty() -> (plan: FamilyOrphanPrunePlan)
    ensures
        plan@ == empty_plan(),
{
    let plan = FamilyOrphanPrunePlan {
        family_ids: Vec::new(),
        branches: Vec::new(),
        recoveries: Vec::new(),
        normalizations: Vec::new(),
        skipped_family_ids: Vec::new(),
    };
    assert(plan@ =~= empty_plan());
    plan
}

fn skip(plan: &mut FamilyOrphanPrunePlan, key: &str)
    ensures
        final(plan)@ == (PlanView {
            skipped_family_ids: old(plan)@.skipped_family_ids.push(key@),
            ..old(plan)@
        }),
{
    let ghost before = texts(plan.skipped_family_ids@);
    plan.skipped_family_ids.push(key.to_owned());
    assert(texts(plan.skipped_family_ids@) =~= before.push(key@));
}

/// Adds to a plan what is to be done with one family.
pub fn plan_family(
    plan: &mut FamilyOrphanPrunePlan,
    store: &FamilyStore,
    key: &str,
    family: &Family,
    probe: &FamilyProbe,
    rollout_ids: &Vec<String>,
)
    requires
        probe@.rollout_files.len() == family@.chain.len(),
    ensures
        final(plan)@ == with_verdict(
            old(plan)@,
            key@,
            family@.active_id,
            verdict(
                store@,
                FamilyEntryView { key: key@, family: family@ },
                probe@,
                texts(rollout_ids@),
            ),
        ),
{
    let consistent = family_metadata_is_consistent(store, key, family, &probe.resolved_family_id);
    let existing = match existing_family_branch_ids(family, &probe.rollout_files, rollout_ids) {
        Some(existing) => existing,
        None => {
            skip(plan, key);
            return;
        },
    };
    if existing.len() == 0 {
        if consistent {
            let ghost before = texts(plan.family_ids@);
            plan.family_ids.push(key.to_owned());
            assert(texts(plan.family_ids@) =~= before.push(key@));
        } else {
            skip(plan, key);
        }
        return;
    }
    let missing = select_ids(&family.chain, &existing, false, false);
    if !holds_text(&existing, family.active_id.as_str()) {
        let active = select_ids(&family.chain, &existing, true, true);
        if active.len() == 1 && family_structure_is_safe_to_repair(store, key, family) {
            let ghost before = recoveries_view(plan.recoveries@);
            let recovery = FamilyActiveRecovery {
                family_id: key.to_owned(),
                active_id: active[0].clone(),
                missing_branch_ids: missing,
            };
            assert(texts(active@)[0] == recovery.active_id@);
            plan.recoveries.push(recovery);
            assert(recoveries_view(plan.recoveries@) =~= before.push(recovery@));
        } else {
            skip(plan, key);
        }
        return;
    }
    if !consistent {
        if family_structure_is_safe_to_repair(store, key, family) {
            let ghost before = normalizations_view(plan.normalizations@);
            let normalization = FamilyActiveNormalization {
                family_id: key.to_owned(),
                active_id: family.active_id.clone(),
            };
            plan.normalizations.push(normalization);
            assert(normalizations_view(plan.normalizations@) =~= before.push(normalization@));
        } else {
            skip(plan, key);
            return;
        }
    }
    add_removals(&mut plan.branches, key, &missing);
}

/// What is to be done with the store.
pub fn plan_family_orphan_prune(
    store: &FamilyStore,
    probes: &Vec<FamilyProbe>,
    rollout_ids: &Vec<String>,
) -> (plan: FamilyOrphanPrunePlan)
    requires
        probes_fit(store@, probes_view(probes@)),
    ensures
        plan@ == family_plan(store@, probes_view(probes@), texts(rollout_ids@)),
{
    let ghost all = probes_view(probes@);
    let mut plan = empty();
    let mut at: usize = 0;
    while at < store.families.len()
        invariant
            at <= store.families@.len(),
            all == probes_view(probes@),
            probes_fit(store@, all),
            plan@ == plan_through(store@, all, texts(rollout_ids@), at as int),
        decreases store.families.len() - at,
    {
        let entry = &store.families[at];
        assert(store@.families[at as int] == entry@);
        assert(all[at as int] == probes@[at as int]@);
        plan_family(&mut plan, store, entry.key.as_str(), &entry.family, &probes[at], rollout_ids);
        at = at + 1;
    }
    plan
}

// ---------------------------------------------------------------------------
// Carrying out the plan
// ---------------------------------------------------------------------------

/// A branch with another status.
pub open spec fn with_status(branch: BranchView, status: BranchStatus) -> BranchView {
    BranchView { status, ..branch }
}

/// A branch marked after the active branch of its family.
pub open spec fn marked_after(branch: BranchView, active_id: Seq<char>) -> BranchView {
    if branch.id == active_id {
        with_status(branch, BranchStatus::Active)
    } else {
        with_status(branch, BranchStatus::Archived)
    }
}

/// A chain marked after its active branch.
pub open spec fn marked_chain(chain: Seq<BranchView>, active_id: Seq<char>) -> Seq<BranchView> {
    chain.map_values(|branch: BranchView| marked_after(branch, active_id))
}

/// A family marked after its active branch.
pub open spec fn normalized(
    family: FamilyView,
    active_id: Seq<char>,
    now: Seq<char>,
) -> FamilyView {
    FamilyView { chain: marked_chain(family.chain, active_id), updated_at: now, ..family }
}

/// The branches of a chain whose ids are not among these.
pub open spec fn chain_without(chain: Seq<BranchView>, ids: Seq<Seq<char>>) -> Seq<BranchView>
    decreases chain.len(),
{
    if chain.len() == 0 {
        Seq::empty()
    } else if ids.contains(chain.last().id) {
        chain_without(chain.drop_last(), ids)
    } else {
        chain_without(chain.drop_last(), ids).push(chain.last())
    }
}

/// A family with another active branch, without its missing branches. Where its root is
/// gone, the active branch takes its place.
pub open spec fn recovered(
    family: FamilyView,
    active_id: Seq<char>,
    missing: Seq<Seq<char>>,
    now: Seq<char>,
) -> FamilyView {
    let chain = marked_chain(chain_without(family.chain, missing), active_id);
    FamilyView {
        chain,
        active_id,
        root_id: if branch_ids(chain).contains(family.root_id) {
            family.root_id
        } else {
            active_id
        },
        updated_at: now,
        ..family
    }
}

/// The entries of an index whose sessions are not among these.
pub open spec fn index_without(
    index: Seq<IndexEntryView>,
    ids: Seq<Seq<char>>,
) -> Seq<IndexEntryView>
    decreases index.len(),
{
    if index.len() == 0 {
        Seq::empty()
    } else if ids.contains(index.last().session_id) {
        index_without(index.drop_last(), ids)
    } else {
        index_without(index.drop_last(), ids).push(index.last())
    }
}

fn mark_chain(chain: &Vec<FamilyBranch>, active_id: &str) -> (marked: Vec<FamilyBranch>)
    ensures
        chain_view(marked@) == marked_chain(chain_view(chain@), active_id@),
{
    let ghost all = chain_view(chain@);
    let mut marked: Vec<FamilyBranch> = Vec::new();
    let mut at: usize = 0;
    while at < chain.len()
        invariant
            at <= chain@.len(),
            all == chain_view(chain@),
            chain_view(marked@) == marked_chain(all.take(at as int), active_id@),
        decreases chain.len() - at,
    {
        let ghost before = chain_view(marked@);
        let mut branch = chain[at].copy();
        branch.status = if same(branch.id.as_str(), active_id) {
            BranchStatus::Active
        } else {
            BranchStatus::Archived
        };
        assert(branch@ == marked_after(all[at as int], active_id@));
        marked.push(branch);
        assert(chain_view(marked@) =~= before.push(branch@));
        assert(chain_view(marked@) =~= marked_chain(all.take(at + 1), active_id@));
        at = at + 1;
    }
    assert(all.take(at as int) =~= all);
    marked
}

fn drop_branches(chain: &Vec<FamilyBranch>, ids: &Vec<String>) -> (kept: Vec<FamilyBranch>)
    ensures
        chain_view(kept@) == chain_without(chain_view(chain@), texts(ids@)),
{
    let ghost all = chain_view(chain@);
    let mut kept: Vec<FamilyBranch> = Vec::new();
    let mut at: usize = 0;
    while at < chain.len()
        invariant
            at <= chain@.len(),
            all == chain_view(chain@),
            chain_view(kept@) == chain_without(all.take(at as int), texts(ids@)),
        decreases chain.len() - at,
    {
        let ghost before = chain_view(kept@);
        assert(all.take(at + 1).drop_last() =~= all.take(at as int));
        assert(all.take(at + 1).last() == chain@[at as int]@);
        if !holds_text(ids, chain[at].id.as_str()) {
            kept.push(chain[at].copy());
            assert(chain_view(kept@) =~= before.push(all[at as int]));
        }
        at = at + 1;
    }
    assert(all.take(at as int) =~= all);
    kept
}

fn drop_index(index: &Vec<IndexEntry>, ids: &Vec<String>) -> (kept: Vec<IndexEntry>)
    ensures
        index_view(kept@) == index_without(index_view(index@), texts(ids@)),
{
    let ghost all = index_view(index@);
    let mut kept: Vec<IndexEntry> = Vec::new();
    let mut at: usize = 0;
    while at < index.len()
        invariant
            at <= index@.len(),
            all == index_view(index@),
            index_view(kept@) == index_without(all.take(at as int), texts(ids@)),
        decreases index.len() - at,
    {
        let ghost before = index_view(kept@);
        assert(all.take(at + 1).drop_last() =~= all.take(at as int));
        assert(all.take(at + 1).last() == index@[at as int]@);
        if !holds_text(ids, index[at].session_id.as_str()) {
            let entry = IndexEntry {
                session_id: index[at].session_id.clone(),
                family_id: index[at].family_id.clone(),
            };
            assert(entry@ =~= all[at as int]);
            kept.push(entry);
            assert(index_view(kept@) =~= before.push(all[at as int]));
        }
        at = at + 1;
    }
    assert(all.take(at as int) =~= all);
    kept
}

/// Marks the branches of a family after its active branch.
pub fn normalize_family(family: &mut Family, active_id: &str, now: &str)
    ensures
        final(family)@ == normalized(old(family)@, active_id@, now@),
{
    family.chain = mark_chain(&family.chain, active_id);
    family.updated_at = now.to_owned();
}

/// Gives a family another active branch and drops its missing branches.
pub fn recover_family(family: &mut Family, active_id: &str, missing: &Vec<String>, now: &str)
    ensures
        final(family)@ == recovered(old(family)@, active_id@, texts(missing@), now@),
{
    let kept = drop_branches(&family.chain, missing);
    family.chain = mark_chain(&kept, active_id);
    family.active_id = active_id.to_owned();
    let ids = chain_ids(&family.chain);
    if !holds_text(&ids, family.root_id.as_str()) {
        family.root_id = active_id.to_owned();
    }
    family.updated_at = now.to_owned();
}

/// A store with the family at a position replaced.
pub open spec fn with_family(store: StoreView, at: int, family: FamilyView) -> StoreView {
    StoreView {
        families: store.families.update(
            at,
            FamilyEntryView { key: store.families[at].key, family },
        ),
        ..store
    }
}

/// The store after the branches of a family were marked after its active branch.
pub open spec fn store_normalized(
    store: StoreView,
    normalization: NormalizationView,
    now: Seq<char>,
) -> Result<StoreView, ErrorView> {
    match family_at(store.families, normalization.family_id) {
        Some(at) => Ok(
            with_family(
                store,
                at,
                normalized(store.families[at].family, normalization.active_id, now),
            ),
        ),
        None => Err(
            ErrorView::NotFound(
                "family not found during normalization: "@ + normalization.family_id,
            ),
        ),
    }
}

/// The store after a family got another active branch.
pub open spec fn store_recovered(
    store: StoreView,
    recovery: RecoveryView,
    now: Seq<char>,
) -> Result<StoreView, ErrorView> {
    match family_at(store.families, recovery.family_id) {
        Some(at) => Ok(
            StoreView {
                index: index_without(store.index, recovery.missing_branch_ids),
                ..with_family(
                    store,
                    at,
                    recovered(
                        store.families[at].family,
                        recovery.active_id,
                        recovery.missing_branch_ids,
                        now,
                    ),
                )
            },
        ),
        None => Err(
            ErrorView::NotFound("family not found during recovery: "@ + recovery.family_id),
        ),
    }
}

/// Marks the branches of a family of the store after its active branch.
pub fn apply_normalization(
    store: &mut FamilyStore,
    normalization: &FamilyActiveNormalization,
    now: &str,
) -> (outcome: Result<(), AppError>)
    ensures
        match outcome {
            Ok(()) => store_normalized(old(store)@, normalization@, now@) == Ok::<
                StoreView,
                ErrorView,
            >(final(store)@),
            Err(error) => store_normalized(old(store)@, normalization@, now@) == Err::<
                StoreView,
                ErrorView,
            >(error@) && final(store)@ == old(store)@,
        },
{
    let ghost before = store@;
    match find_family(&store.families, normalization.family_id.as_str()) {
        Some(at) => {
            normalize_family(
                &mut store.families[at].family,
                normalization.active_id.as_str(),
                now,
            );
            assert(store@ =~= with_family(
                before,
                at as int,
                normalized(before.families[at as int].family, normalization@.active_id, now@),
            ));
            Ok(())
        },
        None => Err(
            AppError::NotFound(
                join2("family not found during normalization: ", normalization.family_id.as_str()),
            ),
        ),
    }
}

/// Gives a family of the store another active branch.
pub fn apply_recovery(store: &mut FamilyStore, recovery: &FamilyActiveRecovery, now: &str) -> (outcome:
    Result<(), AppError>)
    ensures
        match outcome {
            Ok(()) => store_recovered(old(store)@, recovery@, now@) == Ok::<StoreView, ErrorView>(
                final(store)@,
            ),
            Err(error) => store_recovered(old(store)@, recovery@, now@) == Err::<
                StoreView,
                ErrorView,
            >(error@) && final(store)@ == old(store)@,
        },
{
    let ghost before = store@;
    match find_family(&store.families, recovery.family_id.as_str()) {
        Some(at) => {
            recover_family(
                &mut store.families[at].family,
                recovery.active_id.as_str(),
                &recovery.missing_branch_ids,
                now,
            );
            store.index = drop_index(&store.index, &recovery.missing_branch_ids);
            assert(store@.families =~= with_family(
                before,
                at as int,
                recovered(
                    before.families[at as int].family,
                    recovery@.active_id,
                    recovery@.missing_branch_ids,
                    now@,
                ),
            ).families);
            Ok(())
        },
        None => Err(
            AppError::NotFound(
                join2("family not found during recovery: ", recovery.family_id.as_str()),
            ),
        ),
    }
}

// ---------------------------------------------------------------------------
// Laws
// ---------------------------------------------------------------------------

/// Tells the active branches.
pub open spec fn is_active() -> spec_fn(BranchView) -> bool {
    |branch: BranchView| branch.status == BranchStatus::Active
}

proof fn lemma_ids_where(
    chain: Seq<BranchView>,
    existing: Seq<Seq<char>>,
    held: bool,
    active_only: bool,
)
    ensures
        forall|id: Seq<char>| #[trigger]
            ids_where(chain, existing, held, active_only).contains(id) ==> existing.contains(id)
                == held && branch_ids(chain).contains(id),
        ids_where(chain, existing, held, active_only).len() <= chain.len(),
    decreases chain.len(),
{
    if chain.len() > 0 {
        let rest = chain.drop_last();
        lemma_ids_where(rest, existing, held, active_only);
        let before = ids_where(rest, existing, held, active_only);
        let all = ids_where(chain, existing, held, active_only);
        assert forall|id: Seq<char>| #[trigger] all.contains(id) implies existing.contains(id)
            == held && branch_ids(chain).contains(id) by {
            let k = choose|k: int| 0 <= k < all.len() && all[k] == id;
            if k < before.len() {
                assert(before[k] == id);
                assert(before.contains(id));
                let i = choose|i: int| 0 <= i < branch_ids(rest).len() && branch_ids(rest)[i] == id;
                assert(branch_ids(chain)[i] == id);
            } else {
                assert(branch_ids(chain)[chain.len() - 1] == id);
            }
        }
    }
}

/// No branch that has a rollout is dropped, and neither is the active branch of the
/// family or the branch that becomes active. The branch that becomes active has a
/// rollout.
pub proof fn law_branches_with_rollout_stay(
    store: StoreView,
    entry: FamilyEntryView,
    probe: ProbeView,
    rollout_ids: Seq<Seq<char>>,
)
    ensures
        match verdict(store, entry, probe, rollout_ids) {
            Verdict::Prune { normalize, missing } => !missing.contains(entry.family.active_id)
                && forall|id: Seq<char>| #[trigger]
                missing.contains(id) ==> branch_ids(entry.family.chain).contains(id) && !id_exists(
                    entry.family.chain,
                    probe.rollout_files,
                    rollout_ids,
                    id,
                ),
            Verdict::Recover { active_id, missing } => !missing.contains(active_id) && id_exists(
                entry.family.chain,
                probe.rollout_files,
                rollout_ids,
                active_id,
            ) && forall|id: Seq<char>| #[trigger]
                missing.contains(id) ==> branch_ids(entry.family.chain).contains(id) && !id_exists(
                    entry.family.chain,
                    probe.rollout_files,
                    rollout_ids,
                    id,
                ),
            Verdict::Remove => forall|id: Seq<char>|
                !id_exists(entry.family.chain, probe.rollout_files, rollout_ids, id),
            Verdict::Skip => true,
        },
{
    let chain = entry.family.chain;
    let existing = existing_ids(chain, probe.rollout_files, rollout_ids);
    lemma_existing_ids(chain, probe.rollout_files, rollout_ids);
    lemma_ids_where(chain, existing, false, false);
    lemma_ids_where(chain, existing, true, true);
    match verdict(store, entry, probe, rollout_ids) {
        Verdict::Recover { active_id, missing } => {
            let active = ids_where(chain, existing, true, true);
            assert(active.contains(active[0]));
        },
        Verdict::Remove => {
            assert forall|id: Seq<char>|
                !id_exists(chain, probe.rollout_files, rollout_ids, id) by {
                assert(!existing.contains(id));
            }
        },
        _ => {},
    }
}

proof fn lemma_one_active(chain: Seq<BranchView>, active_id: Seq<char>)
    requires
        branch_ids(chain).no_duplicates(),
    ensures
        count_where(marked_chain(chain, active_id), is_active()) == if branch_ids(chain).contains(
            active_id,
        ) {
            1nat
        } else {
            0nat
        },
    decreases chain.len(),
{
    if chain.len() > 0 {
        let rest = chain.drop_last();
        let ids = branch_ids(chain);
        assert(branch_ids(rest) =~= ids.drop_last());
        assert(branch_ids(rest).no_duplicates()) by {
            assert forall|i: int, j: int|
                0 <= i < branch_ids(rest).len() && 0 <= j < branch_ids(rest).len() && i
                    != j implies branch_ids(rest)[i] != branch_ids(rest)[j] by {
                assert(ids[i] != ids[j]);
            }
        }
        lemma_one_active(rest, active_id);
        assert(marked_chain(chain, active_id).drop_last() =~= marked_chain(rest, active_id));
        let last = chain.len() - 1;
        if chain.last().id == active_id {
            assert(ids[last] == active_id);
            if branch_ids(rest).contains(active_id) {
                let k = choose|k: int|
                    0 <= k < branch_ids(rest).len() && branch_ids(rest)[k] == active_id;
                assert(ids[k] == ids[last]);
            }
        } else {
            if ids.contains(active_id) {
                let k = choose|k: int| 0 <= k < ids.len() && ids[k] == active_id;
                assert(branch_ids(rest)[k] == active_id);
            }
            if branch_ids(rest).contains(active_id) {
                let k = choose|k: int|
                    0 <= k < branch_ids(rest).len() && branch_ids(rest)[k] == active_id;
                assert(ids[k] == active_id);
            }
        }
    }
}

/// A family whose branches were marked after its active branch has that one active
/// branch and no other.
pub proof fn law_normalizing_leaves_one_active_branch(
    store: StoreView,
    entry: FamilyEntryView,
    probe: ProbeView,
    rollout_ids: Seq<Seq<char>>,
    now: Seq<char>,
)
    requires
        verdict(store, entry, probe, rollout_ids) matches Verdict::Prune { normalize, .. }
            && normalize,
    ensures
        count_where(
            normalized(entry.family, entry.family.active_id, now).chain,
            is_active(),
        ) == 1,
{
    let chain = entry.family.chain;
    lemma_existing_ids(chain, probe.rollout_files, rollout_ids);
    let existing = existing_ids(chain, probe.rollout_files, rollout_ids);
    assert(existing.contains(entry.family.active_id));
    let i = choose|i: int|
        0 <= i < chain.len() && (#[trigger] chain[i]).id == entry.family.active_id
            && branch_exists(chain[i], probe.rollout_files[i], rollout_ids) == Some(true);
    assert(branch_ids(chain)[i] == entry.family.active_id);
    lemma_one_active(chain, entry.family.active_id);
}

proof fn lemma_chain_without(chain: Seq<BranchView>, ids: Seq<Seq<char>>)
    ensures
        forall|i: int|
            0 <= i < chain_without(chain, ids).len() ==> !ids.contains(
                (#[trigger] chain_without(chain, ids)[i]).id,
            ),
        forall|id: Seq<char>| #[trigger]
            branch_ids(chain_without(chain, ids)).contains(id) <==> branch_ids(chain).contains(id)
                && !ids.contains(id),
        branch_ids(chain).no_duplicates() ==> branch_ids(
            chain_without(chain, ids),
        ).no_duplicates(),
    decreases chain.len(),
{
    if chain.len() > 0 {
        let rest = chain.drop_last();
        lemma_chain_without(rest, ids);
        let before = chain_without(rest, ids);
        let all = chain_without(chain, ids);
        let last = chain.last();
        assert(branch_ids(chain) =~= branch_ids(rest).push(last.id));
        if !ids.contains(last.id) {
            assert(branch_ids(all) =~= branch_ids(before).push(last.id));
        }
        assert forall|id: Seq<char>| #[trigger] branch_ids(all).contains(id) <==> branch_ids(
            chain,
        ).contains(id) && !ids.contains(id) by {
            lemma_push_contains_iff(branch_ids(rest), last.id, id);
            lemma_push_contains_iff(branch_ids(before), last.id, id);
        }
        if branch_ids(chain).no_duplicates() {
            assert(branch_ids(rest).no_duplicates()) by {
                assert forall|i: int, j: int|
                    0 <= i < rest.len() && 0 <= j < rest.len() && i != j implies branch_ids(rest)[i]
                        != branch_ids(rest)[j] by {
                    assert(branch_ids(chain)[i] != branch_ids(chain)[j]);
                }
            }
            if !ids.contains(last.id) {
                assert(!branch_ids(rest).contains(last.id)) by {
                    if branch_ids(rest).contains(last.id) {
                        let k = choose|k: int|
                            0 <= k < rest.len() && branch_ids(rest)[k] == last.id;
                        assert(branch_ids(chain)[k] == branch_ids(chain)[chain.len() - 1]);
                    }
                }
                assert(!branch_ids(before).contains(last.id));
                assert forall|i: int, j: int|
                    0 <= i < all.len() && 0 <= j < all.len() && i != j implies branch_ids(all)[i]
                        != branch_ids(all)[j] by {
                    let n = before.len() as int;
                    if i < n && j < n {
                        assert(branch_ids(before)[i] != branch_ids(before)[j]);
                    } else if i == n {
                        assert(branch_ids(before).contains(branch_ids(before)[j]));
                    } else {
                        assert(branch_ids(before).contains(branch_ids(before)[i]));
                    }
                }
            }
        }
    }
}

proof fn lemma_push_contains_iff(items: Seq<Seq<char>>, text: Seq<char>, other: Seq<char>)
    ensures
        items.push(text).contains(other) <==> items.contains(other) || other == text,
{
    if items.contains(other) {
        let k = choose|k: int| 0 <= k < items.len() && items[k] == other;
        assert(items.push(text)[k] == other);
    }
    assert(items.push(text)[items.len() as int] == text);
    if items.push(text).contains(other) {
        let k = choose|k: int| 0 <= k < items.push(text).len() && items.push(text)[k] == other;
        if k < items.len() {
            assert(items[k] == other);
        }
    }
}

/// A recovered family has one active branch, the one that its record names. Its root is
/// one of its branches, and every branch that is left has a rollout.
pub proof fn law_recovering_leaves_one_active_branch(
    store: StoreView,
    entry: FamilyEntryView,
    probe: ProbeView,
    rollout_ids: Seq<Seq<char>>,
    now: Seq<char>,
)
    ensures
        verdict(store, entry, probe, rollout_ids) matches Verdict::Recover { active_id, missing }
            ==> {
            let family = recovered(entry.family, active_id, missing, now);
            &&& count_where(family.chain, is_active()) == 1
            &&& branch_ids(family.chain).contains(family.active_id)
            &&& branch_ids(family.chain).contains(family.root_id)
            &&& forall|id: Seq<char>| #[trigger]
                branch_ids(family.chain).contains(id) ==> id_exists(
                    entry.family.chain,
                    probe.rollout_files,
                    rollout_ids,
                    id,
                )
        },
{
    if let Verdict::Recover { active_id, missing } = verdict(store, entry, probe, rollout_ids) {
        let chain = entry.family.chain;
        let existing = existing_ids(chain, probe.rollout_files, rollout_ids);
        let active = ids_where(chain, existing, true, true);
        lemma_existing_ids(chain, probe.rollout_files, rollout_ids);
        lemma_ids_where(chain, existing, true, true);
        lemma_ids_where(chain, existing, false, false);
        lemma_ids_where_complete(chain, existing);
        lemma_chain_without(chain, missing);
        let kept = chain_without(chain, missing);
        let family = recovered(entry.family, active_id, missing, now);
        assert(active.contains(active[0]));
        assert(branch_ids(family.chain) =~= branch_ids(kept));
        lemma_one_active(kept, active_id);
        assert forall|id: Seq<char>| #[trigger] branch_ids(family.chain).contains(id) implies id_exists(
            chain,
            probe.rollout_files,
            rollout_ids,
            id,
        ) by {
            assert(existing.contains(id));
        }
    }
}

proof fn lemma_ids_where_complete(chain: Seq<BranchView>, existing: Seq<Seq<char>>)
    ensures
        forall|id: Seq<char>| #[trigger]
            branch_ids(chain).contains(id) && !existing.contains(id) ==> ids_where(
                chain,
                existing,
                false,
                false,
            ).contains(id),
    decreases chain.len(),
{
    if chain.len() > 0 {
        let rest = chain.drop_last();
        lemma_ids_where_complete(rest, existing);
        let before = ids_where(rest, existing, false, false);
        assert(branch_ids(chain) =~= branch_ids(rest).push(chain.last().id));
        assert forall|id: Seq<char>| #[trigger]
            branch_ids(chain).contains(id) && !existing.contains(id) implies ids_where(
            chain,
            existing,
            false,
            false,
        ).contains(id) by {
            lemma_push_contains_iff(branch_ids(rest), chain.last().id, id);
            lemma_push_contains_iff(before, chain.last().id, id);
        }
    }
}

/// Replacing a family keeps the keys of the families.
pub proof fn lemma_with_family_keys(store: StoreView, at: int, family: FamilyView)
    requires
        0 <= at < store.families.len(),
    ensures
        family_keys(with_family(store, at, family).families) == family_keys(store.families),
{
    assert(family_keys(with_family(store, at, family).families) =~= family_keys(store.families));
}

proof fn lemma_index_without_order(index: Seq<IndexEntryView>, ids: Seq<Seq<char>>)
    requires
        ascending(index_keys(index)),
    ensures
        ascending(index_keys(index_without(index, ids))),
        forall|key: Seq<char>| #[trigger]
            index_keys(index_without(index, ids)).contains(key) ==> index_keys(index).contains(
                key,
            ),
    decreases index.len(),
{
    let keys = index_keys(index);
    let kept = index_keys(index_without(index, ids));
    if index.len() > 0 {
        let rest = index.drop_last();
        let last = index.last();
        assert(index_keys(rest) =~= keys.drop_last());
        assert(keys[index.len() - 1] == last.session_id);
        lemma_index_without_order(rest, ids);
        let before = index_keys(index_without(rest, ids));
        if ids.contains(last.session_id) {
            assert(kept == before);
        } else {
            assert(kept =~= before.push(last.session_id));
            assert forall|i: int, j: int| 0 <= i < j < kept.len() implies text_lt(
                #[trigger] kept[i],
                #[trigger] kept[j],
            ) by {
                assert(before.contains(before[i]));
                let k = choose|k: int| 0 <= k < rest.len() && index_keys(rest)[k] == before[i];
                assert(keys[k] == before[i]);
            }
        }
        assert forall|key: Seq<char>| #[trigger] kept.contains(key) implies keys.contains(key) by {
            let at = choose|at: int| 0 <= at < kept.len() && kept[at] == key;
            if at < before.len() {
                assert(before.contains(before[at]));
                let k = choose|k: int| 0 <= k < rest.len() && index_keys(rest)[k] == before[at];
                assert(keys[k] == key);
            }
        }
    }
}

/// Marking the branches of a family after its active branch keeps the store in order.
pub proof fn law_normalizing_keeps_the_order(
    store: StoreView,
    normalization: NormalizationView,
    now: Seq<char>,
)
    requires
        store.well_formed(),
    ensures
        store_normalized(store, normalization, now) matches Ok(after) ==> after.well_formed(),
{
    lemma_family_at(store.families, normalization.family_id);
    if let Some(at) = family_at(store.families, normalization.family_id) {
        lemma_with_family_keys(
            store,
            at,
            normalized(store.families[at].family, normalization.active_id, now),
        );
    }
}

/// Giving a family another active branch keeps the store in order.
pub proof fn law_recovering_keeps_the_order(
    store: StoreView,
    recovery: RecoveryView,
    now: Seq<char>,
)
    requires
        store.well_formed(),
    ensures
        store_recovered(store, recovery, now) matches Ok(after) ==> after.well_formed(),
{
    lemma_family_at(store.families, recovery.family_id);
    if let Some(at) = family_at(store.families, recovery.family_id) {
        lemma_with_family_keys(
            store,
            at,
            recovered(
                store.families[at].family,
                recovery.active_id,
                recovery.missing_branch_ids,
                now,
            ),
        );
        lemma_index_without_order(store.index, recovery.missing_branch_ids);
    }
}

/// Whether a branch has a rollout: a rollout states it, or its own file is there.
pub open spec fn has_rollout(
    entry: FamilyEntryView,
    probe: ProbeView,
    rollout_ids: Seq<Seq<char>>,
    i: int,
) -> bool {
    &&& 0 <= i < entry.family.chain.len()
    &&& rollout_ids.contains(entry.family.chain[i].id) || probe.rollout_files[i] == Some(true)
}

/// Whether it cannot be told of some branch whether it has a rollout.
pub open spec fn is_in_doubt(
    entry: FamilyEntryView,
    probe: ProbeView,
    rollout_ids: Seq<Seq<char>>,
) -> bool {
    exists|i: int|
        0 <= i < entry.family.chain.len() && probe.rollout_files[i] is None && !rollout_ids.contains(
            (#[trigger] entry.family.chain[i]).id,
        )
}

/// Whether some branch of a session has a rollout.
pub open spec fn session_has_rollout(
    entry: FamilyEntryView,
    probe: ProbeView,
    rollout_ids: Seq<Seq<char>>,
    id: Seq<char>,
) -> bool {
    exists|i: int| #[trigger]
        has_rollout(entry, probe, rollout_ids, i) && entry.family.chain[i].id == id
}

/// Whether every session that the index has under a family is one of its branches.
pub open spec fn index_knows_branches_only(store: StoreView, entry: FamilyEntryView) -> bool {
    forall|i: int|
        0 <= i < store.index.len() && (#[trigger] store.index[i]).family_id == entry.key
            ==> exists|k: int|
            0 <= k < entry.family.chain.len() && (#[trigger] entry.family.chain[k]).id
                == store.index[i].session_id
}

/// Whether the records of a family fit together: it has its own key, the index has only its branches
/// under it, and its first branch leads to it.
pub open spec fn is_whole(store: StoreView, entry: FamilyEntryView, probe: ProbeView) -> bool {
    &&& entry.family.family_id == entry.key
    &&& index_knows_branches_only(store, entry)
    &&& entry.family.chain.len() > 0 ==> probe.resolved_family_id == Some(entry.key)
}

/// Whether a family owns its branches: it has its own key, no branch occurs twice or in another
/// family, and the index has all of them, and only them, under it.
pub open spec fn owns_its_branches(store: StoreView, entry: FamilyEntryView) -> bool {
    let chain = entry.family.chain;
    &&& entry.family.family_id == entry.key
    &&& chain.len() > 0
    &&& forall|i: int, j: int|
        0 <= i < j < chain.len() ==> (#[trigger] chain[i]).id != (#[trigger] chain[j]).id
    &&& forall|i: int|
        0 <= i < chain.len() ==> family_of(store.index, (#[trigger] chain[i]).id) == Some(entry.key)
    &&& index_knows_branches_only(store, entry)
    &&& forall|f: int, k: int, i: int|
        0 <= f < store.families.len() && store.families[f].key != entry.key && 0 <= k
            < store.families[f].family.chain.len() && 0 <= i < chain.len() ==> (
        #[trigger] store.families[f].family.chain[k]).id != (#[trigger] chain[i]).id
}

proof fn lemma_whole(store: StoreView, entry: FamilyEntryView, probe: ProbeView)
    ensures
        is_whole(store, entry, probe) == metadata_consistent(
            store,
            entry.key,
            entry.family,
            probe.resolved_family_id,
        ),
{
    lemma_index_knows(store, entry);
}

proof fn lemma_index_knows(store: StoreView, entry: FamilyEntryView)
    ensures
        index_knows_branches_only(store, entry) == !index_strays(
            store.index,
            entry.key,
            branch_ids(entry.family.chain),
        ),
{
    let chain = entry.family.chain;
    let ids = branch_ids(chain);
    assert forall|i: int| 0 <= i < store.index.len() implies (ids.contains(
        (#[trigger] store.index[i]).session_id,
    ) <==> exists|k: int|
        0 <= k < chain.len() && (#[trigger] chain[k]).id == store.index[i].session_id) by {
        let id = store.index[i].session_id;
        if ids.contains(id) {
            let k = choose|k: int| 0 <= k < ids.len() && ids[k] == id;
            assert(chain[k].id == id);
        }
        if exists|k: int| 0 <= k < chain.len() && (#[trigger] chain[k]).id == id {
            let k = choose|k: int| 0 <= k < chain.len() && (#[trigger] chain[k]).id == id;
            assert(ids[k] == id);
        }
    }
}

proof fn lemma_owns(store: StoreView, entry: FamilyEntryView)
    ensures
        owns_its_branches(store, entry) == structure_safe(store, entry.key, entry.family),
{
    lemma_index_knows(store, entry);
    let chain = entry.family.chain;
    let ids = branch_ids(chain);
    assert forall|i: int| 0 <= i < chain.len() implies ids[i] == (#[trigger] chain[i]).id by {}
    if owns_its_branches(store, entry) {
        assert(ids.no_duplicates()) by {
            assert forall|i: int, j: int|
                0 <= i < ids.len() && 0 <= j < ids.len() && i != j implies ids[i] != ids[j] by {
                assert(ids[i] == chain[i].id && ids[j] == chain[j].id);
            }
        }
        if shared_with_others(store.families, entry.key, ids) {
            let (f, k) = choose|f: int, k: int|
                0 <= f < store.families.len() && store.families[f].key != entry.key && 0 <= k
                    < store.families[f].family.chain.len() && ids.contains(
                    (#[trigger] store.families[f].family.chain[k]).id,
                );
            let i = choose|i: int|
                0 <= i < ids.len() && ids[i] == store.families[f].family.chain[k].id;
            assert(chain[i].id == store.families[f].family.chain[k].id);
        }
    }
    if structure_safe(store, entry.key, entry.family) {
        assert forall|i: int, j: int| 0 <= i < j < chain.len() implies (#[trigger] chain[i]).id != (
        #[trigger] chain[j]).id by {
            assert(ids[i] == chain[i].id && ids[j] == chain[j].id);
        }
        assert forall|f: int, k: int, i: int|
            0 <= f < store.families.len() && store.families[f].key != entry.key && 0 <= k
                < store.families[f].family.chain.len() && 0 <= i < chain.len() implies (
        #[trigger] store.families[f].family.chain[k]).id != (#[trigger] chain[i]).id by {
            assert(ids[i] == chain[i].id);
            assert(!ids.contains(store.families[f].family.chain[k].id));
        }
    }
}

/// What becomes of a family. One of which something cannot be told is left alone. One without any
/// rollout is removed where its records fit together. One whose active branch has a rollout loses
/// the branches that have none where its records fit together, or can be set right because it owns
/// its branches. One whose active branch has no rollout gets the one other branch that is marked
/// active and has a rollout as its active one, where there is just one and it owns its branches.
pub proof fn law_what_becomes_of_a_family(
    store: StoreView,
    entry: FamilyEntryView,
    probe: ProbeView,
    rollout_ids: Seq<Seq<char>>,
)
    ensures
        ({
            let doubt = is_in_doubt(entry, probe, rollout_ids);
            let whole = is_whole(store, entry, probe);
            let owned = owns_its_branches(store, entry);
            let any = exists|i: int| #[trigger] has_rollout(entry, probe, rollout_ids, i);
            let head = session_has_rollout(entry, probe, rollout_ids, entry.family.active_id);
            let found = verdict(store, entry, probe, rollout_ids);
            &&& doubt ==> found is Skip
            &&& found is Remove <==> !doubt && !any && whole
            &&& found is Prune <==> !doubt && head && (whole || owned)
            &&& found matches Verdict::Prune { normalize, .. } ==> normalize == !whole
            &&& found is Recover ==> !doubt && any && !head && owned
        }),
{
    lemma_whole(store, entry, probe);
    lemma_owns(store, entry);
    let chain = entry.family.chain;
    let existing = existing_ids(chain, probe.rollout_files, rollout_ids);
    lemma_existing_ids(chain, probe.rollout_files, rollout_ids);
    lemma_judged(entry, probe, rollout_ids);
    lemma_exists(entry, probe, rollout_ids, entry.family.active_id);
    assert(existing.contains(entry.family.active_id) <==> session_has_rollout(
        entry,
        probe,
        rollout_ids,
        entry.family.active_id,
    ));
    if existing.len() > 0 {
        assert(existing.contains(existing[0]));
        lemma_exists(entry, probe, rollout_ids, existing[0]);
        let i = choose|i: int| #[trigger]
            has_rollout(entry, probe, rollout_ids, i) && chain[i].id == existing[0];
        assert(has_rollout(entry, probe, rollout_ids, i));
    }
    if exists|i: int| #[trigger] has_rollout(entry, probe, rollout_ids, i) {
        let i = choose|i: int| #[trigger] has_rollout(entry, probe, rollout_ids, i);
        lemma_exists(entry, probe, rollout_ids, chain[i].id);
        assert(session_has_rollout(entry, probe, rollout_ids, chain[i].id));
        assert(existing.contains(chain[i].id));
    }
}

proof fn lemma_judged(entry: FamilyEntryView, probe: ProbeView, rollout_ids: Seq<Seq<char>>)
    ensures
        all_judged(entry.family.chain, probe.rollout_files, rollout_ids) == !is_in_doubt(
            entry,
            probe,
            rollout_ids,
        ),
{
    let chain = entry.family.chain;
    if is_in_doubt(entry, probe, rollout_ids) {
        let i = choose|i: int|
            0 <= i < chain.len() && probe.rollout_files[i] is None && !rollout_ids.contains(
                (#[trigger] chain[i]).id,
            );
        assert(branch_exists(chain[i], probe.rollout_files[i], rollout_ids) is None);
    } else {
        assert forall|i: int| 0 <= i < chain.len() implies branch_exists(
            #[trigger] chain[i],
            probe.rollout_files[i],
            rollout_ids,
        ) is Some by {}
    }
}

proof fn lemma_exists(
    entry: FamilyEntryView,
    probe: ProbeView,
    rollout_ids: Seq<Seq<char>>,
    id: Seq<char>,
)
    ensures
        id_exists(entry.family.chain, probe.rollout_files, rollout_ids, id) == session_has_rollout(
            entry,
            probe,
            rollout_ids,
            id,
        ),
{
    let chain = entry.family.chain;
    if id_exists(chain, probe.rollout_files, rollout_ids, id) {
        let i = choose|i: int|
            0 <= i < chain.len() && (#[trigger] chain[i]).id == id && branch_exists(
                chain[i],
                probe.rollout_files[i],
                rollout_ids,
            ) == Some(true);
        assert(has_rollout(entry, probe, rollout_ids, i));
    }
    if session_has_rollout(entry, probe, rollout_ids, id) {
        let i = choose|i: int| #[trigger]
            has_rollout(entry, probe, rollout_ids, i) && chain[i].id == id;
        assert(chain[i].id == id);
    }
}

/// The branches that a family loses are those without a rollout, all of them.
pub proof fn law_all_branches_without_rollout_go(
    store: StoreView,
    entry: FamilyEntryView,
    probe: ProbeView,
    rollout_ids: Seq<Seq<char>>,
    id: Seq<char>,
)
    ensures
        match verdict(store, entry, probe, rollout_ids) {
            Verdict::Prune { missing, .. } => missing.contains(id) <==> branch_ids(
                entry.family.chain,
            ).contains(id) && !session_has_rollout(entry, probe, rollout_ids, id),
            Verdict::Recover { missing, .. } => missing.contains(id) <==> branch_ids(
                entry.family.chain,
            ).contains(id) && !session_has_rollout(entry, probe, rollout_ids, id),
            _ => true,
        },
{
    let chain = entry.family.chain;
    let existing = existing_ids(chain, probe.rollout_files, rollout_ids);
    lemma_existing_ids(chain, probe.rollout_files, rollout_ids);
    lemma_exists(entry, probe, rollout_ids, id);
    lemma_ids_where(chain, existing, false, false);
    lemma_ids_where_complete(chain, existing);
}

/// Whether a branch is marked active and its session has a rollout.
pub open spec fn can_take_over(
    entry: FamilyEntryView,
    probe: ProbeView,
    rollout_ids: Seq<Seq<char>>,
    i: int,
) -> bool {
    &&& 0 <= i < entry.family.chain.len()
    &&& entry.family.chain[i].status == BranchStatus::Active
    &&& session_has_rollout(entry, probe, rollout_ids, entry.family.chain[i].id)
}

proof fn lemma_marked_ids(chain: Seq<BranchView>, existing: Seq<Seq<char>>)
    ensures
        forall|i: int|
            0 <= i < chain.len() && (#[trigger] chain[i]).status == BranchStatus::Active
                && existing.contains(chain[i].id) ==> ids_where(
                chain,
                existing,
                true,
                true,
            ).contains(chain[i].id),
        forall|k: int|
            0 <= k < ids_where(chain, existing, true, true).len() ==> exists|i: int|
                0 <= i < chain.len() && (#[trigger] chain[i]).id == #[trigger] ids_where(
                    chain,
                    existing,
                    true,
                    true,
                )[k] && chain[i].status == BranchStatus::Active && existing.contains(chain[i].id),
    decreases chain.len(),
{
    if chain.len() > 0 {
        let rest = chain.drop_last();
        lemma_marked_ids(rest, existing);
        let before = ids_where(rest, existing, true, true);
        let all = ids_where(chain, existing, true, true);
        assert forall|i: int|
            0 <= i < chain.len() && (#[trigger] chain[i]).status == BranchStatus::Active
                && existing.contains(chain[i].id) implies all.contains(chain[i].id) by {
            if i < rest.len() {
                assert(rest[i] == chain[i]);
                assert(before.contains(chain[i].id));
                let k = choose|k: int| 0 <= k < before.len() && before[k] == chain[i].id;
                assert(all[k] == chain[i].id);
            } else {
                assert(all[all.len() - 1] == chain[i].id);
            }
        }
        assert forall|k: int| 0 <= k < all.len() implies exists|i: int|
            0 <= i < chain.len() && (#[trigger] chain[i]).id == #[trigger] all[k]
                && chain[i].status == BranchStatus::Active && existing.contains(chain[i].id) by {
            if k < before.len() {
                assert(all[k] == before[k]);
                let i = choose|i: int|
                    0 <= i < rest.len() && (#[trigger] rest[i]).id == before[k] && rest[i].status
                        == BranchStatus::Active && existing.contains(rest[i].id);
                assert(chain[i] == rest[i]);
            } else {
                assert(chain[chain.len() - 1] == chain.last());
            }
        }
    }
}

/// A family whose active branch is gone gets the one branch that is marked active and has a rollout;
/// where two such branches compete, or none is there, it is left alone.
pub proof fn law_one_branch_takes_over(
    store: StoreView,
    entry: FamilyEntryView,
    probe: ProbeView,
    rollout_ids: Seq<Seq<char>>,
    i: int,
)
    requires
        can_take_over(entry, probe, rollout_ids, i),
    ensures
        verdict(store, entry, probe, rollout_ids) matches Verdict::Recover { active_id, .. }
            ==> active_id == entry.family.chain[i].id,
{
    let chain = entry.family.chain;
    let existing = existing_ids(chain, probe.rollout_files, rollout_ids);
    lemma_existing_ids(chain, probe.rollout_files, rollout_ids);
    lemma_exists(entry, probe, rollout_ids, chain[i].id);
    lemma_marked_ids(chain, existing);
    assert(existing.contains(chain[i].id));
    assert(chain[i].status == BranchStatus::Active);
    let active = ids_where(chain, existing, true, true);
    assert(active.contains(chain[i].id));
}

/// Nothing takes over but a branch that is marked active and has a rollout.
pub proof fn law_only_marked_branches_take_over(
    store: StoreView,
    entry: FamilyEntryView,
    probe: ProbeView,
    rollout_ids: Seq<Seq<char>>,
)
    ensures
        verdict(store, entry, probe, rollout_ids) matches Verdict::Recover { active_id, .. }
            ==> exists|i: int| #[trigger]
            can_take_over(entry, probe, rollout_ids, i) && entry.family.chain[i].id == active_id,
{
    if let Verdict::Recover { active_id, .. } = verdict(store, entry, probe, rollout_ids) {
        let chain = entry.family.chain;
        let existing = existing_ids(chain, probe.rollout_files, rollout_ids);
        lemma_existing_ids(chain, probe.rollout_files, rollout_ids);
        lemma_marked_ids(chain, existing);
        let active = ids_where(chain, existing, true, true);
        assert(active[0] == active_id);
        let i = choose|i: int|
            0 <= i < chain.len() && (#[trigger] chain[i]).id == active[0] && chain[i].status
                == BranchStatus::Active && existing.contains(chain[i].id);
        lemma_exists(entry, probe, rollout_ids, chain[i].id);
        assert(can_take_over(entry, probe, rollout_ids, i));
    }
}

/// A family whose active branch is gone, which owns its branches and has just one that can take
/// over, is recovered.
pub proof fn law_families_with_one_heir_recover(
    store: StoreView,
    entry: FamilyEntryView,
    probe: ProbeView,
    rollout_ids: Seq<Seq<char>>,
    i: int,
)
    requires
        !is_in_doubt(entry, probe, rollout_ids),
        owns_its_branches(store, entry),
        !session_has_rollout(entry, probe, rollout_ids, entry.family.active_id),
        can_take_over(entry, probe, rollout_ids, i),
        forall|j: int| #[trigger] can_take_over(entry, probe, rollout_ids, j) ==> j == i,
    ensures
        verdict(store, entry, probe, rollout_ids) matches Verdict::Recover { active_id, .. }
            && active_id == entry.family.chain[i].id,
{
    let chain = entry.family.chain;
    let existing = existing_ids(chain, probe.rollout_files, rollout_ids);
    lemma_owns(store, entry);
    lemma_judged(entry, probe, rollout_ids);
    lemma_existing_ids(chain, probe.rollout_files, rollout_ids);
    lemma_exists(entry, probe, rollout_ids, chain[i].id);
    lemma_exists(entry, probe, rollout_ids, entry.family.active_id);
    lemma_marked_ids(chain, existing);
    assert(existing.contains(chain[i].id));
    assert(chain[i].status == BranchStatus::Active);
    let active = ids_where(chain, existing, true, true);
    assert(active.contains(chain[i].id));
    assert(chain.take(chain.len() as int) =~= chain);
    lemma_one_marked(entry, probe, rollout_ids, existing, i, chain.len() as int);
    assert(active.len() == 1);
    assert(active[0] == chain[i].id) by {
        let k = choose|k: int| 0 <= k < active.len() && active[k] == chain[i].id;
    }
}

proof fn lemma_one_marked(
    entry: FamilyEntryView,
    probe: ProbeView,
    rollout_ids: Seq<Seq<char>>,
    existing: Seq<Seq<char>>,
    i: int,
    count: int,
)
    requires
        0 <= count <= entry.family.chain.len(),
        forall|id: Seq<char>| #[trigger]
            existing.contains(id) ==> id_exists(
                entry.family.chain,
                probe.rollout_files,
                rollout_ids,
                id,
            ),
        forall|j: int| #[trigger] can_take_over(entry, probe, rollout_ids, j) ==> j == i,
    ensures
        ids_where(entry.family.chain.take(count), existing, true, true).len() <= if i < count {
            1int
        } else {
            0int
        },
    decreases count,
{
    if count > 0 {
        let chain = entry.family.chain;
        lemma_one_marked(entry, probe, rollout_ids, existing, i, count - 1);
        assert(chain.take(count).drop_last() =~= chain.take(count - 1));
        assert(chain.take(count).last() == chain[count - 1]);
        if existing.contains(chain[count - 1].id) && chain[count - 1].status
            == BranchStatus::Active {
            lemma_exists(entry, probe, rollout_ids, chain[count - 1].id);
            assert(can_take_over(entry, probe, rollout_ids, count - 1));
        }
    }
}

/// Setting the marks of a family right changes nothing but the marks and when it changed: the branch
/// of the active session is active and all others are archived.
pub proof fn law_normalizing_changes_marks_only(
    family: FamilyView,
    active_id: Seq<char>,
    now: Seq<char>,
    i: int,
)
    requires
        0 <= i < family.chain.len(),
    ensures
        ({
            let after = normalized(family, active_id, now);
            &&& after.active_id == family.active_id && after.root_id == family.root_id
            &&& after.family_id == family.family_id && after.title == family.title
            &&& after.updated_at == now
            &&& after.chain.len() == family.chain.len()
            &&& after.chain[i].id == family.chain[i].id
            &&& after.chain[i].provider == family.chain[i].provider
            &&& after.chain[i].rollout_relpath == family.chain[i].rollout_relpath
            &&& after.chain[i].note == family.chain[i].note
            &&& after.chain[i].archive_origin == family.chain[i].archive_origin
            &&& after.chain[i].sha256 == family.chain[i].sha256
            &&& after.chain[i].status == BranchStatus::Active <==> family.chain[i].id == active_id
        }),
{
}

/// A recovered family has the branches that are not missing, in their order and with their places,
/// and the wanted one is active and all others archived. Its root is kept where that branch is.
pub proof fn law_recovering_keeps_the_other_branches(
    family: FamilyView,
    active_id: Seq<char>,
    missing: Seq<Seq<char>>,
    now: Seq<char>,
)
    ensures
        ({
            let after = recovered(family, active_id, missing, now);
            &&& after.active_id == active_id
            &&& after.family_id == family.family_id && after.title == family.title
            &&& after.updated_at == now
            &&& forall|id: Seq<char>| #[trigger]
                branch_ids(after.chain).contains(id) <==> branch_ids(family.chain).contains(id)
                    && !missing.contains(id)
            &&& forall|i: int|
                0 <= i < after.chain.len() ==> ((#[trigger] after.chain[i]).status
                    == BranchStatus::Active <==> after.chain[i].id == active_id)
            &&& branch_ids(family.chain).contains(family.root_id) && !missing.contains(
                family.root_id,
            ) ==> after.root_id == family.root_id
            &&& missing.contains(family.root_id) ==> after.root_id == active_id
            &&& forall|i: int|
                0 <= i < after.chain.len() ==> exists|k: int|
                    0 <= k < family.chain.len() && same_place(
                        #[trigger] after.chain[i],
                        #[trigger] family.chain[k],
                    )
        }),
{
    let kept = chain_without(family.chain, missing);
    let after = recovered(family, active_id, missing, now);
    lemma_chain_without(family.chain, missing);
    lemma_kept_branches(family.chain, missing);
    assert(branch_ids(after.chain) =~= branch_ids(kept));
    assert forall|i: int| 0 <= i < after.chain.len() implies exists|k: int|
        0 <= k < family.chain.len() && same_place(
            #[trigger] after.chain[i],
            #[trigger] family.chain[k],
        ) by {
        let k = choose|k: int|
            0 <= k < family.chain.len() && #[trigger] family.chain[k] == kept[i];
        assert(same_place(after.chain[i], family.chain[k]));
    }
}

/// Whether two branches are of one session, provider and rollout.
pub open spec fn same_place(one: BranchView, other: BranchView) -> bool {
    one.id == other.id && one.provider == other.provider && one.rollout_relpath
        == other.rollout_relpath && one.note == other.note && one.created_at == other.created_at
}

proof fn lemma_kept_branches(chain: Seq<BranchView>, ids: Seq<Seq<char>>)
    ensures
        forall|i: int|
            0 <= i < chain_without(chain, ids).len() ==> exists|k: int|
                0 <= k < chain.len() && #[trigger] chain[k] == #[trigger] chain_without(
                    chain,
                    ids,
                )[i],
    decreases chain.len(),
{
    if chain.len() > 0 {
        let rest = chain.drop_last();
        lemma_kept_branches(rest, ids);
        let before = chain_without(rest, ids);
        let all = chain_without(chain, ids);
        assert forall|i: int| 0 <= i < all.len() implies exists|k: int|
            0 <= k < chain.len() && #[trigger] chain[k] == #[trigger] all[i] by {
            if i < before.len() {
                assert(all[i] == before[i]);
                let k = choose|k: int| 0 <= k < rest.len() && #[trigger] rest[k] == before[i];
                assert(chain[k] == rest[k]);
            } else {
                assert(chain[chain.len() - 1] == chain.last());
            }
        }
    }
}

/// A recovery takes the missing sessions, and no others, out of the index of the store, and changes
/// no other family.
pub proof fn law_recovering_clears_the_index(
    store: StoreView,
    recovery: RecoveryView,
    now: Seq<char>,
    session_id: Seq<char>,
)
    ensures
        store_recovered(store, recovery, now) matches Ok(after) ==> {
            &&& index_keys(after.index).contains(session_id) <==> index_keys(store.index).contains(
                session_id,
            ) && !recovery.missing_branch_ids.contains(session_id)
            &&& after.families.len() == store.families.len()
            &&& forall|i: int|
                0 <= i < store.families.len() && (#[trigger] store.families[i]).key
                    != recovery.family_id ==> after.families[i] == store.families[i]
        },
        store_recovered(store, recovery, now) is Ok <==> family_keys(store.families).contains(
            recovery.family_id,
        ),
{
    lemma_index_without_keys(store.index, recovery.missing_branch_ids, session_id);
    lemma_family_at(store.families, recovery.family_id);
    let keys = family_keys(store.families);
    match family_at(store.families, recovery.family_id) {
        Some(at) => {
            assert(keys[at] == recovery.family_id);
        },
        None => {
            if keys.contains(recovery.family_id) {
                let i = choose|i: int| 0 <= i < keys.len() && keys[i] == recovery.family_id;
                assert(store.families[i].key == recovery.family_id);
            }
        },
    }
}

proof fn lemma_index_without_keys(
    index: Seq<IndexEntryView>,
    ids: Seq<Seq<char>>,
    session_id: Seq<char>,
)
    ensures
        index_keys(index_without(index, ids)).contains(session_id) <==> index_keys(index).contains(
            session_id,
        ) && !ids.contains(session_id),
    decreases index.len(),
{
    let keys = index_keys(index);
    let kept = index_keys(index_without(index, ids));
    if index.len() > 0 {
        let rest = index.drop_last();
        let last = index.last().session_id;
        lemma_index_without_keys(rest, ids, session_id);
        let before = index_keys(index_without(rest, ids));
        assert(keys =~= index_keys(rest).push(last));
        lemma_push_contains(index_keys(rest), last, session_id);
        if !ids.contains(last) {
            assert(kept =~= before.push(last));
            lemma_push_contains(before, last, session_id);
        }
    }
}

proof fn lemma_push_contains(items: Seq<Seq<char>>, last: Seq<char>, text: Seq<char>)
    ensures
        items.push(last).contains(text) <==> items.contains(text) || text == last,
{
    let all = items.push(last);
    assert(all[items.len() as int] == last);
    if items.contains(text) {
        let k = choose|k: int| 0 <= k < items.len() && items[k] == text;
        assert(all[k] == text);
    }
    if all.contains(text) {
        let k = choose|k: int| 0 <= k < all.len() && all[k] == text;
        if k < items.len() {
            assert(items[k] == text);
        }
    }
}

/// A plan tells of every family what becomes of it, and of nothing else: which are removed, which
/// are left alone, which get another active branch, which have their marks set right and which
/// branches go. No two families have one key.
pub proof fn law_plan_tells_what_becomes_of_each(
    store: StoreView,
    probes: Seq<ProbeView>,
    rollout_ids: Seq<Seq<char>>,
    count: int,
    i: int,
)
    requires
        0 <= i < count <= store.families.len(),
        forall|a: int, b: int|
            0 <= a < b < store.families.len() ==> (#[trigger] store.families[a]).key != (
            #[trigger] store.families[b]).key,
    ensures
        ({
            let plan = plan_through(store, probes, rollout_ids, count);
            let entry = store.families[i];
            let found = verdict(store, entry, probes[i], rollout_ids);
            &&& plan.family_ids.contains(entry.key) <==> found is Remove
            &&& plan.skipped_family_ids.contains(entry.key) <==> found is Skip
            &&& forall|active_id: Seq<char>, missing: Seq<Seq<char>>|
                plan.recoveries.contains(
                    RecoveryView { family_id: entry.key, active_id, missing_branch_ids: missing },
                ) <==> found == (Verdict::Recover { active_id, missing })
            &&& forall|active_id: Seq<char>|
                plan.normalizations.contains(
                    NormalizationView { family_id: entry.key, active_id },
                ) <==> active_id == entry.family.active_id && (found matches Verdict::Prune {
                    normalize,
                    ..
                } && normalize)
            &&& forall|branch_id: Seq<char>|
                plan.branches.contains(RemovalView { family_id: entry.key, branch_id }) <==> (
                found matches Verdict::Prune { missing, .. } && missing.contains(branch_id))
        }),
    decreases count,
{
    let entry = store.families[count - 1];
    let plan = plan_through(store, probes, rollout_ids, count - 1);
    let after = plan_through(store, probes, rollout_ids, count);
    let found = verdict(store, entry, probes[count - 1], rollout_ids);
    if i < count - 1 {
        law_plan_tells_what_becomes_of_each(store, probes, rollout_ids, count - 1, i);
        lemma_other_key(plan, entry.key, entry.family.active_id, found, store.families[i].key);
    } else {
        lemma_plan_has_earlier_keys(store, probes, rollout_ids, count - 1, entry.key);
        lemma_own_key(plan, entry.key, entry.family.active_id, found);
    }
}

spec fn plan_is_silent(plan: PlanView, key: Seq<char>) -> bool {
    &&& !plan.family_ids.contains(key)
    &&& !plan.skipped_family_ids.contains(key)
    &&& forall|i: int|
        0 <= i < plan.recoveries.len() ==> (#[trigger] plan.recoveries[i]).family_id != key
    &&& forall|i: int|
        0 <= i < plan.normalizations.len() ==> (#[trigger] plan.normalizations[i]).family_id != key
    &&& forall|i: int|
        0 <= i < plan.branches.len() ==> (#[trigger] plan.branches[i]).family_id != key
}

proof fn lemma_plan_has_earlier_keys(
    store: StoreView,
    probes: Seq<ProbeView>,
    rollout_ids: Seq<Seq<char>>,
    count: int,
    key: Seq<char>,
)
    requires
        count <= store.families.len(),
        forall|a: int| 0 <= a < count ==> (#[trigger] store.families[a]).key != key,
    ensures
        plan_is_silent(plan_through(store, probes, rollout_ids, count), key),
    decreases count,
{
    if count > 0 {
        lemma_plan_has_earlier_keys(store, probes, rollout_ids, count - 1, key);
        let plan = plan_through(store, probes, rollout_ids, count - 1);
        let entry = store.families[count - 1];
        lemma_push_contains(plan.family_ids, entry.key, key);
        lemma_push_contains(plan.skipped_family_ids, entry.key, key);
    }
}

proof fn lemma_other_key(
    plan: PlanView,
    key: Seq<char>,
    active_id: Seq<char>,
    found: Verdict,
    other: Seq<char>,
)
    requires
        key != other,
    ensures
        ({
            let after = with_verdict(plan, key, active_id, found);
            &&& after.family_ids.contains(other) == plan.family_ids.contains(other)
            &&& after.skipped_family_ids.contains(other) == plan.skipped_family_ids.contains(other)
            &&& forall|r: RecoveryView|
                r.family_id == other ==> #[trigger] after.recoveries.contains(r)
                    == plan.recoveries.contains(r)
            &&& forall|n: NormalizationView|
                n.family_id == other ==> #[trigger] after.normalizations.contains(n)
                    == plan.normalizations.contains(n)
            &&& forall|r: RemovalView|
                r.family_id == other ==> #[trigger] after.branches.contains(r)
                    == plan.branches.contains(r)
        }),
{
    let after = with_verdict(plan, key, active_id, found);
    lemma_push_contains(plan.family_ids, key, other);
    lemma_push_contains(plan.skipped_family_ids, key, other);
    assert forall|r: RecoveryView| r.family_id == other implies #[trigger] after.recoveries.contains(
        r,
    ) == plan.recoveries.contains(r) by {
        if plan.recoveries.contains(r) {
            let k = choose|k: int| 0 <= k < plan.recoveries.len() && plan.recoveries[k] == r;
            assert(after.recoveries[k] == r);
        }
        if after.recoveries.contains(r) {
            let k = choose|k: int| 0 <= k < after.recoveries.len() && after.recoveries[k] == r;
            assert(plan.recoveries[k] == r);
        }
    }
    assert forall|n: NormalizationView| n.family_id
        == other implies #[trigger] after.normalizations.contains(n)
        == plan.normalizations.contains(n) by {
        if plan.normalizations.contains(n) {
            let k = choose|k: int|
                0 <= k < plan.normalizations.len() && plan.normalizations[k] == n;
            assert(after.normalizations[k] == n);
        }
        if after.normalizations.contains(n) {
            let k = choose|k: int|
                0 <= k < after.normalizations.len() && after.normalizations[k] == n;
            assert(plan.normalizations[k] == n);
        }
    }
    assert forall|r: RemovalView| r.family_id == other implies #[trigger] after.branches.contains(
        r,
    ) == plan.branches.contains(r) by {
        if plan.branches.contains(r) {
            let k = choose|k: int| 0 <= k < plan.branches.len() && plan.branches[k] == r;
            assert(after.branches[k] == r);
        }
        if after.branches.contains(r) {
            let k = choose|k: int| 0 <= k < after.branches.len() && after.branches[k] == r;
            assert(plan.branches[k] == r);
        }
    }
}

proof fn lemma_own_key(plan: PlanView, key: Seq<char>, active_id: Seq<char>, found: Verdict)
    requires
        plan_is_silent(plan, key),
    ensures
        ({
            let after = with_verdict(plan, key, active_id, found);
            &&& after.family_ids.contains(key) <==> found is Remove
            &&& after.skipped_family_ids.contains(key) <==> found is Skip
            &&& forall|id: Seq<char>, missing: Seq<Seq<char>>|
                #[trigger] after.recoveries.contains(
                    RecoveryView { family_id: key, active_id: id, missing_branch_ids: missing },
                ) <==> found == (Verdict::Recover { active_id: id, missing })
            &&& forall|id: Seq<char>|
                #[trigger] after.normalizations.contains(
                    NormalizationView { family_id: key, active_id: id },
                ) <==> id == active_id && (found matches Verdict::Prune { normalize, .. }
                    && normalize)
            &&& forall|branch_id: Seq<char>|
                #[trigger] after.branches.contains(RemovalView { family_id: key, branch_id })
                    <==> (found matches Verdict::Prune { missing, .. } && missing.contains(
                    branch_id,
                ))
        }),
{
    let after = with_verdict(plan, key, active_id, found);
    lemma_push_contains(plan.family_ids, key, key);
    lemma_push_contains(plan.skipped_family_ids, key, key);
    assert forall|id: Seq<char>, missing: Seq<Seq<char>>| #[trigger] after.recoveries.contains(
        RecoveryView { family_id: key, active_id: id, missing_branch_ids: missing },
    ) <==> found == (Verdict::Recover { active_id: id, missing }) by {
        let r = RecoveryView { family_id: key, active_id: id, missing_branch_ids: missing };
        if after.recoveries.contains(r) {
            let k = choose|k: int| 0 <= k < after.recoveries.len() && after.recoveries[k] == r;
            if k < plan.recoveries.len() {
                assert(plan.recoveries[k].family_id == key);
            }
        }
        if found == (Verdict::Recover { active_id: id, missing }) {
            assert(after.recoveries[plan.recoveries.len() as int] == r);
        }
    }
    assert forall|id: Seq<char>| #[trigger] after.normalizations.contains(
        NormalizationView { family_id: key, active_id: id },
    ) <==> id == active_id && (found matches Verdict::Prune { normalize, .. } && normalize) by {
        let n = NormalizationView { family_id: key, active_id: id };
        if after.normalizations.contains(n) {
            let k = choose|k: int|
                0 <= k < after.normalizations.len() && after.normalizations[k] == n;
            if k < plan.normalizations.len() {
                assert(plan.normalizations[k].family_id == key);
            }
        }
        if id == active_id && (found matches Verdict::Prune { normalize, .. } && normalize) {
            assert(after.normalizations[plan.normalizations.len() as int] == n);
        }
    }
    assert forall|branch_id: Seq<char>| #[trigger] after.branches.contains(
        RemovalView { family_id: key, branch_id },
    ) <==> (found matches Verdict::Prune { missing, .. } && missing.contains(branch_id)) by {
        let r = RemovalView { family_id: key, branch_id };
        if after.branches.contains(r) {
            let k = choose|k: int| 0 <= k < after.branches.len() && after.branches[k] == r;
            if k < plan.branches.len() {
                assert(plan.branches[k].family_id == key);
            } else if let Verdict::Prune { missing, .. } = found {
                assert(removals_of(key, missing)[k - plan.branches.len()] == r);
                assert(missing[k - plan.branches.len()] == branch_id);
            }
        }
        if let Verdict::Prune { missing, .. } = found {
            if missing.contains(branch_id) {
                let k = choose|k: int| 0 <= k < missing.len() && missing[k] == branch_id;
                assert(removals_of(key, missing)[k] == r);
                assert(after.branches[plan.branches.len() + k] == r);
            }
        }
    }
}

} // verus!
