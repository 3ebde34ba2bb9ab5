//! Telling afterwards why archived sessions were archived.

use vstd::prelude::*;

use crate::model::{
    branch_of, chain_view, families_view, find_branch, ArchiveOrigin, BranchView, FamilyBranch,
    FamilyEntryView, FamilyStore, StoreView,
};
use crate::rollout::{
    is_subagent_source, lemma_first_found_extends, opt_identity, source_is_subagent, IdentityView,
    RolloutIdentity,
};
use crate::seqs::first_found;
use crate::text::{begins_with, holds_text, opt_text, same, starts_with, texts};

verus! {

/// The origin that a branch states or that its note implies.
pub open spec fn branch_origin(branch: BranchView) -> Option<ArchiveOrigin> {
    match branch.archive_origin {
        Some(origin) => Some(origin),
        None => match branch.note {
            Some(note) => if begins_with(note, "forked_from:"@) {
                Some(ArchiveOrigin::Fork)
            } else if begins_with(note, "cloned_from:"@) {
                Some(ArchiveOrigin::ProviderSync)
            } else {
                None
            },
            None => None,
        },
    }
}

/// The origin that a family has for a session.
pub open spec fn origin_in_family(id: Seq<char>) -> spec_fn(FamilyEntryView) -> Option<
    ArchiveOrigin,
> {
    |entry: FamilyEntryView|
        match branch_of(entry.family.chain, id) {
            Some(branch) => branch_origin(branch),
            None => None,
        }
}

/// The origin that a store has for a session: that of the first family which has one,
/// and else unknown.
pub open spec fn inferred_origin(store: StoreView, id: Seq<char>) -> ArchiveOrigin {
    match first_found(store.families, origin_in_family(id)) {
        Some(origin) => origin,
        None => ArchiveOrigin::Unknown,
    }
}

/// The origin that a branch states or that its note implies.
pub fn stated_origin(branch: &FamilyBranch) -> (origin: Option<ArchiveOrigin>)
    ensures
        origin == branch_origin(branch@),
{
    if let Some(origin) = branch.archive_origin {
        return Some(origin);
    }
    match &branch.note {
        Some(note) => if starts_with(note.as_str(), "forked_from:") {
            Some(ArchiveOrigin::Fork)
        } else if starts_with(note.as_str(), "cloned_from:") {
            Some(ArchiveOrigin::ProviderSync)
        } else {
            None
        },
        None => None,
    }
}

/// The origin that a store has for a session.
pub fn infer_backfill_origin(store: &FamilyStore, session_id: &str) -> (origin: ArchiveOrigin)
    ensures
        origin == inferred_origin(store@, session_id@),
{
    let ghost all = store@.families;
    let ghost pick = origin_in_family(session_id@);
    let mut at: usize = 0;
    while at < store.families.len()
        invariant
            at <= store.families@.len(),
            all == families_view(store.families@),
            pick == origin_in_family(session_id@),
            first_found(all.take(at as int), pick) is None,
        decreases store.families.len() - at,
    {
        let chain = &store.families[at].family.chain;
        assert(all.take(at + 1).drop_last() =~= all.take(at as int));
        assert(all.take(at + 1).last() == store.families@[at as int]@);
        if let Some(position) = find_branch(chain, session_id) {
            assert(chain_view(chain@)[position as int] == chain@[position as int]@);
            if let Some(origin) = stated_origin(&chain[position]) {
                proof {
                    lemma_first_found_extends(all, pick, at + 1);
                }
                return origin;
            }
        }
        at = at + 1;
    }
    assert(all.take(at as int) =~= all);
    ArchiveOrigin::Unknown
}

/// An origin that a branch states counts whatever its note says.
pub proof fn law_stated_origin_beats_note(branch: BranchView, origin: ArchiveOrigin)
    requires
        branch.archive_origin == Some(origin),
    ensures
        branch_origin(branch) == Some(origin),
{
}

// ---------------------------------------------------------------------------
// The backfill
// ---------------------------------------------------------------------------

/// The rollout of an archived session: whose it is, where it states that, when the file
/// was last changed, in seconds since 1970, and where it is.
pub struct ArchivedRollout {
    pub identity: Option<RolloutIdentity>,
    pub modified_at: Option<i64>,
    pub source_path: String,
}

/// What an [`ArchivedRollout`] holds.
#[verifier::ext_equal]
pub struct ArchivedRolloutView {
    pub identity: Option<IdentityView>,
    pub modified_at: Option<i64>,
    pub source_path: Seq<char>,
}

impl View for ArchivedRollout {
    type V = ArchivedRolloutView;

    open spec fn view(&self) -> ArchivedRolloutView {
        ArchivedRolloutView {
            identity: opt_identity(self.identity),
            modified_at: self.modified_at,
            source_path: self.source_path@,
        }
    }
}

/// What a list of archived rollouts holds.
pub open spec fn archived_view(rollouts: Seq<ArchivedRollout>) -> Seq<ArchivedRolloutView> {
    rollouts.map_values(|rollout: ArchivedRollout| rollout@)
}

/// An entry of the ledger of archived sessions.
pub struct ArchiveLedgerEntry {
    pub session_id: String,
    pub origin: ArchiveOrigin,
    pub archived_at: Option<i64>,
    pub source_path: Option<String>,
    pub sha256: Option<String>,
}

/// What an [`ArchiveLedgerEntry`] holds.
#[verifier::ext_equal]
pub struct LedgerEntryView {
    pub session_id: Seq<char>,
    pub origin: ArchiveOrigin,
    pub archived_at: Option<i64>,
    pub source_path: Option<Seq<char>>,
    pub sha256: Option<Seq<char>>,
}

impl View for ArchiveLedgerEntry {
    type V = LedgerEntryView;

    open spec fn view(&self) -> LedgerEntryView {
        LedgerEntryView {
            session_id: self.session_id@,
            origin: self.origin,
            archived_at: self.archived_at,
            source_path: opt_text(self.source_path),
            sha256: opt_text(self.sha256),
        }
    }
}

/// What a list of ledger entries holds.
pub open spec fn ledger_view(entries: Seq<ArchiveLedgerEntry>) -> Seq<LedgerEntryView> {
    entries.map_values(|entry: ArchiveLedgerEntry| entry@)
}

/// How many sessions were looked at, and what was found.
#[derive(Clone, Copy, PartialEq, Eq, Structural)]
pub struct ArchiveOriginBackfillReport {
    pub scanned: u32,
    pub skipped_existing: u32,
    pub fork_marked: u32,
    pub provider_sync_marked: u32,
    pub unknown_marked: u32,
    pub dry_run: bool,
}

/// How many sessions fall under each heading, and the entries that were added.
#[verifier::ext_equal]
pub struct BackfillView {
    pub skipped_existing: nat,
    pub fork_marked: nat,
    pub provider_sync_marked: nat,
    pub unknown_marked: nat,
    pub entries: Seq<LedgerEntryView>,
}

/// Whether entries hold one of a session.
pub open spec fn has_entry(entries: Seq<LedgerEntryView>, id: Seq<char>) -> bool {
    exists|i: int| 0 <= i < entries.len() && (#[trigger] entries[i]).session_id == id
}

/// What a rollout adds to a backfill: nothing where it states no session, or that of a
/// sub-agent; one more that was skipped where the ledger has the session already; and
/// else an entry with the inferred origin, which a dry run only counts.
pub open spec fn backfill_step(
    so_far: BackfillView,
    ledger: Seq<Seq<char>>,
    store: StoreView,
    rollout: ArchivedRolloutView,
    dry_run: bool,
) -> BackfillView {
    match rollout.identity {
        None => so_far,
        Some(identity) => if ledger.contains(identity.id) || has_entry(
            so_far.entries,
            identity.id,
        ) {
            BackfillView { skipped_existing: so_far.skipped_existing + 1, ..so_far }
        } else if source_is_subagent(identity.source) {
            so_far
        } else {
            let origin = inferred_origin(store, identity.id);
            BackfillView {
                fork_marked: so_far.fork_marked + if origin == ArchiveOrigin::Fork {
                    1nat
                } else {
                    0nat
                },
                provider_sync_marked: so_far.provider_sync_marked + if origin
                    == ArchiveOrigin::ProviderSync {
                    1nat
                } else {
                    0nat
                },
                unknown_marked: so_far.unknown_marked + if origin != ArchiveOrigin::Fork && origin
                    != ArchiveOrigin::ProviderSync {
                    1nat
                } else {
                    0nat
                },
                entries: if dry_run {
                    so_far.entries
                } else {
                    so_far.entries.push(
                        LedgerEntryView {
                            session_id: identity.id,
                            origin,
                            archived_at: rollout.modified_at,
                            source_path: Some(rollout.source_path),
                            sha256: None,
                        },
                    )
                },
                ..so_far
            }
        },
    }
}

/// What rollouts add to the ledger.
pub open spec fn backfilled(
    ledger: Seq<Seq<char>>,
    store: StoreView,
    rollouts: Seq<ArchivedRolloutView>,
    dry_run: bool,
) -> BackfillView
    decreases rollouts.len(),
{
    if rollouts.len() == 0 {
        BackfillView {
            skipped_existing: 0,
            fork_marked: 0,
            provider_sync_marked: 0,
            unknown_marked: 0,
            entries: Seq::empty(),
        }
    } else {
        backfill_step(
            backfilled(ledger, store, rollouts.drop_last(), dry_run),
            ledger,
            store,
            rollouts.last(),
            dry_run,
        )
    }
}

/// What a backfill reports and adds to the ledger, and whether the ledger is saved.
pub struct BackfillOutcome {
    pub report: ArchiveOriginBackfillReport,
    pub entries: Vec<ArchiveLedgerEntry>,
    pub save: bool,
}

proof fn lemma_backfill_bound(
    ledger: Seq<Seq<char>>,
    store: StoreView,
    rollouts: Seq<ArchivedRolloutView>,
    dry_run: bool,
)
    ensures
        ({
            let done = backfilled(ledger, store, rollouts, dry_run);
            done.skipped_existing + done.fork_marked + done.provider_sync_marked
                + done.unknown_marked <= rollouts.len()
        }),
    decreases rollouts.len(),
{
    if rollouts.len() > 0 {
        lemma_backfill_bound(ledger, store, rollouts.drop_last(), dry_run);
    }
}

fn ledger_has(entries: &Vec<ArchiveLedgerEntry>, id: &str) -> (found: bool)
    ensures
        found == has_entry(ledger_view(entries@), id@),
{
    let ghost all = ledger_view(entries@);
    let mut at: usize = 0;
    while at < entries.len()
        invariant
            at <= entries@.len(),
            all == ledger_view(entries@),
            forall|i: int| 0 <= i < at ==> (#[trigger] all[i]).session_id != id@,
        decreases entries.len() - at,
    {
        if same(entries[at].session_id.as_str(), id) {
            assert(all[at as int].session_id == id@);
            return true;
        }
        at = at + 1;
    }
    false
}

/// Adds the archived sessions that the ledger lacks. `ledger` are the sessions that it
/// has, and `replace_corrupt` tells whether it could not be read and has to be written
/// anew.
pub fn backfill_archive_origins(
    ledger: &Vec<String>,
    store: &FamilyStore,
    rollouts: &Vec<ArchivedRollout>,
    dry_run: bool,
    replace_corrupt: bool,
) -> (outcome: BackfillOutcome)
    requires
        rollouts@.len() <= u32::MAX,
    ensures
        ({
            let done = backfilled(
                texts(ledger@),
                store@,
                archived_view(rollouts@),
                dry_run,
            );
            &&& outcome.report.scanned == rollouts@.len()
            &&& outcome.report.skipped_existing == done.skipped_existing
            &&& outcome.report.fork_marked == done.fork_marked
            &&& outcome.report.provider_sync_marked == done.provider_sync_marked
            &&& outcome.report.unknown_marked == done.unknown_marked
            &&& outcome.report.dry_run == dry_run
            &&& ledger_view(outcome.entries@) == done.entries
            &&& outcome.save == (!dry_run && (ledger@.len() + done.entries.len() > 0
                || replace_corrupt))
        }),
{
    let ghost all = archived_view(rollouts@);
    let ghost known = texts(ledger@);
    let mut report = ArchiveOriginBackfillReport {
        scanned: rollouts.len() as u32,
        skipped_existing: 0,
        fork_marked: 0,
        provider_sync_marked: 0,
        unknown_marked: 0,
        dry_run,
    };
    let mut entries: Vec<ArchiveLedgerEntry> = Vec::new();
    assert(ledger_view(entries@) =~= Seq::empty());
    let mut at: usize = 0;
    while at < rollouts.len()
        invariant
            at <= rollouts@.len() <= u32::MAX,
            all == archived_view(rollouts@),
            known == texts(ledger@),
            report.scanned == rollouts@.len(),
            report.dry_run == dry_run,
            ({
                let done = backfilled(known, store@, all.take(at as int), dry_run);
                &&& report.skipped_existing == done.skipped_existing
                &&& report.fork_marked == done.fork_marked
                &&& report.provider_sync_marked == done.provider_sync_marked
                &&& report.unknown_marked == done.unknown_marked
                &&& ledger_view(entries@) == done.entries
            }),
        decreases rollouts.len() - at,
    {
        assert(all.take(at + 1).drop_last() =~= all.take(at as int));
        assert(all.take(at + 1).last() == rollouts@[at as int]@);
        proof {
            lemma_backfill_bound(known, store@, all.take(at as int), dry_run);
        }
        let rollout = &rollouts[at];
        if let Some(identity) = &rollout.identity {
            let id = identity.id.as_str();
            let source = match &identity.source {
                Some(source) => Some(source.as_str()),
                None => None,
            };
            if holds_text(ledger, id) || ledger_has(&entries, id) {
                report.skipped_existing = report.skipped_existing + 1;
            } else if !is_subagent_source(source) {
                let origin = infer_backfill_origin(store, id);
                match origin {
                    ArchiveOrigin::Fork => {
                        report.fork_marked = report.fork_marked + 1;
                    },
                    ArchiveOrigin::ProviderSync => {
                        report.provider_sync_marked = report.provider_sync_marked + 1;
                    },
                    _ => {
                        report.unknown_marked = report.unknown_marked + 1;
                    },
                }
                if !dry_run {
                    let ghost before = ledger_view(entries@);
                    let entry = ArchiveLedgerEntry {
                        session_id: identity.id.clone(),
                        origin,
                        archived_at: rollout.modified_at,
                        source_path: Some(rollout.source_path.clone()),
                        sha256: None,
                    };
                    entries.push(entry);
                    assert(ledger_view(entries@) =~= before.push(entry@));
                }
            }
        }
        at = at + 1;
    }
    assert(all.take(at as int) =~= all);
    let save = !dry_run && (ledger.len() > 0 || entries.len() > 0 || replace_corrupt);
    BackfillOutcome { report, entries, save }
}

/// A backfill adds no entry for a session that the ledger has, and no two for one.
pub proof fn law_backfill_keeps_what_is_there(
    ledger: Seq<Seq<char>>,
    store: StoreView,
    rollouts: Seq<ArchivedRolloutView>,
    dry_run: bool,
)
    ensures
        ({
            let entries = backfilled(ledger, store, rollouts, dry_run).entries;
            &&& forall|i: int|
                0 <= i < entries.len() ==> !ledger.contains((#[trigger] entries[i]).session_id)
            &&& forall|i: int, j: int|
                0 <= i < j < entries.len() ==> (#[trigger] entries[i]).session_id != (
                #[trigger] entries[j]).session_id
        }),
    decreases rollouts.len(),
{
    if rollouts.len() > 0 {
        law_backfill_keeps_what_is_there(ledger, store, rollouts.drop_last(), dry_run);
    }
}

/// A dry run adds nothing, and every entry that is added was counted under its origin.
pub proof fn law_backfill_counts_its_entries(
    ledger: Seq<Seq<char>>,
    store: StoreView,
    rollouts: Seq<ArchivedRolloutView>,
    dry_run: bool,
)
    ensures
        ({
            let done = backfilled(ledger, store, rollouts, dry_run);
            &&& dry_run ==> done.entries.len() == 0
            &&& !dry_run ==> done.entries.len() == done.fork_marked + done.provider_sync_marked
                + done.unknown_marked
        }),
    decreases rollouts.len(),
{
    if rollouts.len() > 0 {
        law_backfill_counts_its_entries(ledger, store, rollouts.drop_last(), dry_run);
    }
}

/// The session of a sub-agent gets no entry and is counted nowhere, unless the ledger has
/// it.
pub proof fn law_backfill_passes_over_subagents(
    so_far: BackfillView,
    ledger: Seq<Seq<char>>,
    store: StoreView,
    rollout: ArchivedRolloutView,
    dry_run: bool,
)
    requires
        rollout.identity matches Some(identity) && source_is_subagent(identity.source)
            && !ledger.contains(identity.id) && !has_entry(so_far.entries, identity.id),
    ensures
        backfill_step(so_far, ledger, store, rollout, dry_run) == so_far,
{
}

/// The sessions of ledger entries.
pub open spec fn entry_ids(entries: Seq<LedgerEntryView>) -> Seq<Seq<char>> {
    entries.map_values(|entry: LedgerEntryView| entry.session_id)
}

/// Whether a rollout states a session, as one that is no sub-agent.
pub open spec fn states_own_session(rollout: ArchivedRolloutView, id: Seq<char>) -> bool {
    rollout.identity matches Some(identity) && identity.id == id && !source_is_subagent(
        identity.source,
    )
}

/// Every entry that a backfill adds is that of a rollout whose session is no sub-agent.
pub proof fn law_backfill_enters_no_subagent(
    ledger: Seq<Seq<char>>,
    store: StoreView,
    rollouts: Seq<ArchivedRolloutView>,
    dry_run: bool,
)
    ensures
        ({
            let entries = backfilled(ledger, store, rollouts, dry_run).entries;
            forall|i: int|
                0 <= i < entries.len() ==> exists|k: int|
                    0 <= k < rollouts.len() && #[trigger] states_own_session(
                        rollouts[k],
                        (#[trigger] entries[i]).session_id,
                    )
        }),
    decreases rollouts.len(),
{
    if rollouts.len() > 0 {
        let rest = rollouts.drop_last();
        law_backfill_enters_no_subagent(ledger, store, rest, dry_run);
        let before = backfilled(ledger, store, rest, dry_run).entries;
        let entries = backfilled(ledger, store, rollouts, dry_run).entries;
        assert forall|i: int| 0 <= i < entries.len() implies exists|k: int|
            0 <= k < rollouts.len() && #[trigger] states_own_session(
                rollouts[k],
                (#[trigger] entries[i]).session_id,
            ) by {
            if i < before.len() {
                assert(entries[i] == before[i]);
                let k = choose|k: int|
                    0 <= k < rest.len() && #[trigger] states_own_session(
                        rest[k],
                        before[i].session_id,
                    );
                assert(states_own_session(rollouts[k], entries[i].session_id));
            } else {
                assert(states_own_session(rollouts[rollouts.len() - 1], entries[i].session_id));
            }
        }
    }
}

proof fn lemma_entries_stay(
    ledger: Seq<Seq<char>>,
    store: StoreView,
    rollouts: Seq<ArchivedRolloutView>,
    count: int,
    id: Seq<char>,
)
    requires
        0 <= count <= rollouts.len(),
        has_entry(backfilled(ledger, store, rollouts.take(count), false).entries, id),
    ensures
        has_entry(backfilled(ledger, store, rollouts, false).entries, id),
    decreases rollouts.len(),
{
    if count < rollouts.len() {
        let rest = rollouts.drop_last();
        assert(rest.take(count) =~= rollouts.take(count));
        lemma_entries_stay(ledger, store, rest, count, id);
        let before = backfilled(ledger, store, rest, false).entries;
        let entries = backfilled(ledger, store, rollouts, false).entries;
        let i = choose|i: int| 0 <= i < before.len() && (#[trigger] before[i]).session_id == id;
        assert(entries[i] == before[i]);
    } else {
        assert(rollouts.take(count) =~= rollouts);
    }
}

/// After a backfill the ledger has every session that a rollout states, but for sub-agents.
pub proof fn law_backfill_is_complete(
    ledger: Seq<Seq<char>>,
    store: StoreView,
    rollouts: Seq<ArchivedRolloutView>,
    k: int,
)
    requires
        0 <= k < rollouts.len(),
        rollouts[k].identity matches Some(identity) && !source_is_subagent(identity.source),
    ensures
        ledger.contains(rollouts[k].identity->Some_0.id) || has_entry(
            backfilled(ledger, store, rollouts, false).entries,
            rollouts[k].identity->Some_0.id,
        ),
{
    let id = rollouts[k].identity->Some_0.id;
    let upto = rollouts.take(k + 1);
    assert(upto.drop_last() =~= rollouts.take(k));
    assert(upto.last() == rollouts[k]);
    if !ledger.contains(id) {
        let before = backfilled(ledger, store, rollouts.take(k), false).entries;
        let entries = backfilled(ledger, store, upto, false).entries;
        if has_entry(before, id) {
            assert(entries == before);
        } else {
            assert(entries.last().session_id == id);
            assert(entries[entries.len() - 1].session_id == id);
        }
        lemma_entries_stay(ledger, store, rollouts, k + 1, id);
    }
}

proof fn lemma_nothing_left_to_mark(
    ledger: Seq<Seq<char>>,
    store: StoreView,
    rollouts: Seq<ArchivedRolloutView>,
    dry_run: bool,
)
    requires
        forall|k: int|
            0 <= k < rollouts.len() ==> ((#[trigger] rollouts[k]).identity matches Some(identity)
                ==> source_is_subagent(identity.source) || ledger.contains(identity.id)),
    ensures
        ({
            let done = backfilled(ledger, store, rollouts, dry_run);
            &&& done.fork_marked == 0 && done.provider_sync_marked == 0 && done.unknown_marked == 0
            &&& done.entries.len() == 0
        }),
    decreases rollouts.len(),
{
    if rollouts.len() > 0 {
        let rest = rollouts.drop_last();
        assert forall|k: int| 0 <= k < rest.len() implies ((#[trigger] rest[k]).identity matches Some(
            identity,
        ) ==> source_is_subagent(identity.source) || ledger.contains(identity.id)) by {
            assert(rest[k] == rollouts[k]);
        }
        lemma_nothing_left_to_mark(ledger, store, rest, dry_run);
        assert(rollouts[rollouts.len() - 1] == rollouts.last());
    }
}

/// A second backfill over the same rollouts and the ledger that the first left marks nothing and
/// adds no entry, whatever became of the store meanwhile.
pub proof fn law_second_backfill_marks_nothing(
    ledger: Seq<Seq<char>>,
    store: StoreView,
    later_store: StoreView,
    rollouts: Seq<ArchivedRolloutView>,
    dry_run: bool,
)
    ensures
        ({
            let first = backfilled(ledger, store, rollouts, false);
            let second = backfilled(
                ledger + entry_ids(first.entries),
                later_store,
                rollouts,
                dry_run,
            );
            &&& second.fork_marked == 0 && second.provider_sync_marked == 0
                && second.unknown_marked == 0
            &&& second.entries.len() == 0
        }),
{
    let entries = backfilled(ledger, store, rollouts, false).entries;
    let grown = ledger + entry_ids(entries);
    assert forall|k: int| 0 <= k < rollouts.len() implies ((#[trigger] rollouts[k]).identity matches Some(
        identity,
    ) ==> source_is_subagent(identity.source) || grown.contains(identity.id)) by {
        if let Some(identity) = rollouts[k].identity {
            if !source_is_subagent(identity.source) {
                law_backfill_is_complete(ledger, store, rollouts, k);
                if ledger.contains(identity.id) {
                    let i = choose|i: int| 0 <= i < ledger.len() && ledger[i] == identity.id;
                    assert(grown[i] == identity.id);
                } else {
                    let i = choose|i: int|
                        0 <= i < entries.len() && (#[trigger] entries[i]).session_id == identity.id;
                    assert(entry_ids(entries)[i] == identity.id);
                    assert(grown[ledger.len() + i] == identity.id);
                }
            }
        }
    }
    lemma_nothing_left_to_mark(grown, later_store, rollouts, dry_run);
}

/// The note of a branch tells its origin where nothing else does: a fork says whence it was forked, a
/// copy for another provider of what it was cloned.
pub proof fn law_notes_tell_the_origin(branch: BranchView, note: Seq<char>, of: Seq<char>)
    requires
        branch.archive_origin is None,
        branch.note == Some(note),
    ensures
        note == "forked_from:"@ + of ==> branch_origin(branch) == Some(ArchiveOrigin::Fork),
        note == "cloned_from:"@ + of ==> branch_origin(branch) == Some(ArchiveOrigin::ProviderSync),
        branch_origin(branch) is Some ==> begins_with(note, "forked_from:"@) || begins_with(
            note,
            "cloned_from:"@,
        ),
        branch_origin(branch) != Some(ArchiveOrigin::Unknown),
{
    reveal_strlit("forked_from:");
    reveal_strlit("cloned_from:");
    let fork = "forked_from:"@;
    let clone = "cloned_from:"@;
    assert(fork.len() == 12 && clone.len() == 12);
    assert(fork[0] == 'f' && clone[0] == 'c');
    if note == fork + of {
        assert(note.subrange(0, 12) =~= fork);
    }
    if note == clone + of {
        assert(note.subrange(0, 12) =~= clone);
        assert(note.subrange(0, 12)[0] == 'c');
        assert(!begins_with(note, fork));
    }
}

/// A branch whose origin neither is stated nor noted has none.
pub proof fn law_unstated_origins_stay_open(branch: BranchView)
    requires
        branch.archive_origin is None,
        branch.note is None,
    ensures
        branch_origin(branch) is None,
{
}

/// Whether an entry of the ledger is that of an archived rollout: it names the session, when and
/// where it was found, and the origin that the store tells; a checksum it has none.
pub open spec fn is_entry_of(
    entry: LedgerEntryView,
    store: StoreView,
    rollout: ArchivedRolloutView,
) -> bool {
    &&& rollout.identity matches Some(identity) && entry.session_id == identity.id
        && !source_is_subagent(identity.source)
    &&& entry.origin == inferred_origin(store, entry.session_id)
    &&& entry.archived_at == rollout.modified_at
    &&& entry.source_path == Some(rollout.source_path)
    &&& entry.sha256 is None
}

/// Every new entry of the ledger tells of an archived rollout what that is and where it lies.
pub proof fn law_what_entries_tell(
    ledger: Seq<Seq<char>>,
    store: StoreView,
    rollouts: Seq<ArchivedRolloutView>,
    dry_run: bool,
    i: int,
)
    requires
        0 <= i < backfilled(ledger, store, rollouts, dry_run).entries.len(),
    ensures
        exists|k: int|
            0 <= k < rollouts.len() && #[trigger] is_entry_of(
                backfilled(ledger, store, rollouts, dry_run).entries[i],
                store,
                rollouts[k],
            ),
    decreases rollouts.len(),
{
    let rest = rollouts.drop_last();
    let before = backfilled(ledger, store, rest, dry_run).entries;
    let entries = backfilled(ledger, store, rollouts, dry_run).entries;
    if i < before.len() {
        law_what_entries_tell(ledger, store, rest, dry_run, i);
        let k = choose|k: int|
            0 <= k < rest.len() && #[trigger] is_entry_of(before[i], store, rest[k]);
        assert(rest[k] == rollouts[k] && entries[i] == before[i]);
        assert(is_entry_of(entries[i], store, rollouts[k]));
    } else {
        assert(is_entry_of(entries[i], store, rollouts[rollouts.len() - 1]));
    }
}

/// The marks of a run count the entries of each origin: forks, copies for a provider, and all
/// others.
pub proof fn law_marks_count_origins(
    ledger: Seq<Seq<char>>,
    store: StoreView,
    rollouts: Seq<ArchivedRolloutView>,
)
    ensures
        ({
            let done = backfilled(ledger, store, rollouts, false);
            &&& done.fork_marked == done.entries.filter(
                |entry: LedgerEntryView| entry.origin == ArchiveOrigin::Fork,
            ).len()
            &&& done.provider_sync_marked == done.entries.filter(
                |entry: LedgerEntryView| entry.origin == ArchiveOrigin::ProviderSync,
            ).len()
        }),
    decreases rollouts.len(),
{
    reveal(Seq::filter);
    if rollouts.len() > 0 {
        let rest = rollouts.drop_last();
        law_marks_count_origins(ledger, store, rest);
        let before = backfilled(ledger, store, rest, false).entries;
        let entries = backfilled(ledger, store, rollouts, false).entries;
        if entries.len() > before.len() {
            assert(entries.drop_last() =~= before);
        }
    }
}

} // verus!
