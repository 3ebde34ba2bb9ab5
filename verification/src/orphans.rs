//! Pruning orphans as a whole: what is removed where, in which order it is written, and
//! what is reported.

use vstd::prelude::*;

use crate::json::{json_document, member_text, parse, Json, JsonView};
use crate::model::{FamilyEntryView, FamilyStore, StoreView};
use crate::prune::{
    empty_plan, family_plan, ids_where, plan_family_orphan_prune, plan_through, probes_fit,
    probes_view, verdict, BranchRemoval, FamilyActiveNormalization, FamilyActiveRecovery,
    FamilyOrphanPrunePlan, FamilyProbe, NormalizationView, PlanView, ProbeView, RecoveryView,
    RemovalView, Verdict,
};
use crate::rollout::{IdentityView, RolloutIdentity};
use crate::seqs::{count_where, lemma_filter_map_has};
use crate::sorted::{
    ascending, difference, lemma_ascending_unique, lemma_sorted_texts, lemma_texts_without,
    sort_texts, sorted_texts, texts_without,
};
use crate::subagents::{edges_view, find_orphan_subagent_ids, is_orphan, EdgeView, SpawnEdge};
use crate::text::{copy_texts, holds_text, is_blank, texts, trimmed};

verus! {

// ---------------------------------------------------------------------------
// The session index
// ---------------------------------------------------------------------------

/// Whether an entry of the session index stays: its session has an active rollout, or it
/// names no session.
pub open spec fn entry_stays(value: JsonView, rollout_ids: Seq<Seq<char>>) -> bool {
    match member_text(value, "id"@) {
        Some(id) => rollout_ids.contains(id),
        None => true,
    }
}

/// Whether a line of the session index stays. What is no JSON stays too.
pub open spec fn line_stays(line: Seq<char>, rollout_ids: Seq<Seq<char>>) -> bool {
    match json_document(line) {
        Some(value) => entry_stays(value, rollout_ids),
        None => true,
    }
}

/// The lines that stay, in order; blank lines do not.
pub open spec fn kept_lines(lines: Seq<Seq<char>>, rollout_ids: Seq<Seq<char>>) -> Seq<Seq<char>>
    decreases lines.len(),
{
    if lines.len() == 0 {
        Seq::empty()
    } else if trimmed(lines.last()).len() > 0 && line_stays(lines.last(), rollout_ids) {
        kept_lines(lines.drop_last(), rollout_ids).push(lines.last())
    } else {
        kept_lines(lines.drop_last(), rollout_ids)
    }
}

/// Tells the lines that are orphans.
pub open spec fn orphan_line(rollout_ids: Seq<Seq<char>>) -> spec_fn(Seq<char>) -> bool {
    |line: Seq<char>| trimmed(line).len() > 0 && !line_stays(line, rollout_ids)
}

/// Tells the lines that are not blank.
pub open spec fn not_blank() -> spec_fn(Seq<char>) -> bool {
    |line: Seq<char>| trimmed(line).len() > 0
}

/// Whether an entry of the session index stays.
pub fn index_entry_stays(value: &Json, rollout_ids: &Vec<String>) -> (stays: bool)
    ensures
        stays == entry_stays(value.model(), texts(rollout_ids@)),
{
    match value.get_str("id") {
        Some(id) => holds_text(rollout_ids, id.as_str()),
        None => true,
    }
}

/// The session index without orphans, and how many were removed.
pub struct IndexPrune {
    pub kept: Vec<String>,
    pub removed: usize,
}

/// Removes the orphans of the session index.
pub fn prune_index_lines(lines: &Vec<String>, rollout_ids: &Vec<String>) -> (prune: IndexPrune)
    ensures
        texts(prune.kept@) == kept_lines(texts(lines@), texts(rollout_ids@)),
        prune.removed == count_where(texts(lines@), orphan_line(texts(rollout_ids@))),
{
    let ghost all = texts(lines@);
    let ghost ids = texts(rollout_ids@);
    let mut kept: Vec<String> = Vec::new();
    let mut removed: usize = 0;
    let mut at: usize = 0;
    while at < lines.len()
        invariant
            at <= lines@.len(),
            removed <= at,
            all == texts(lines@),
            ids == texts(rollout_ids@),
            texts(kept@) == kept_lines(all.take(at as int), ids),
            removed == count_where(all.take(at as int), orphan_line(ids)),
        decreases lines.len() - at,
    {
        let ghost before = texts(kept@);
        assert(all.take(at + 1).drop_last() =~= all.take(at as int));
        assert(all.take(at + 1).last() == lines@[at as int]@);
        let line = &lines[at];
        if !is_blank(line.as_str()) {
            let stays = match parse(line.as_str()) {
                Some(value) => index_entry_stays(&value, rollout_ids),
                None => true,
            };
            if stays {
                kept.push(line.clone());
                assert(texts(kept@) =~= before.push(line@));
            } else {
                removed = removed + 1;
            }
        }
        at = at + 1;
    }
    assert(all.take(at as int) =~= all);
    IndexPrune { kept, removed }
}

/// Every line that is not blank is kept or counted as removed.
pub proof fn law_index_lines_are_kept_or_counted(
    lines: Seq<Seq<char>>,
    rollout_ids: Seq<Seq<char>>,
)
    ensures
        kept_lines(lines, rollout_ids).len() + count_where(lines, orphan_line(rollout_ids))
            == count_where(lines, not_blank()),
    decreases lines.len(),
{
    if lines.len() > 0 {
        law_index_lines_are_kept_or_counted(lines.drop_last(), rollout_ids);
    }
}

/// Pruning the session index a second time changes nothing.
pub proof fn law_index_prune_is_stable(lines: Seq<Seq<char>>, rollout_ids: Seq<Seq<char>>)
    ensures
        kept_lines(kept_lines(lines, rollout_ids), rollout_ids) == kept_lines(lines, rollout_ids),
        count_where(kept_lines(lines, rollout_ids), orphan_line(rollout_ids)) == 0,
    decreases lines.len(),
{
    if lines.len() > 0 {
        law_index_prune_is_stable(lines.drop_last(), rollout_ids);
        let before = kept_lines(lines.drop_last(), rollout_ids);
        assert(before.push(lines.last()).drop_last() =~= before);
    }
}

// ---------------------------------------------------------------------------
// Threads and sub-agents
// ---------------------------------------------------------------------------

/// What is to be pruned, and whether anything is to be written.
#[derive(Clone, Copy)]
pub struct PruneOptions {
    pub prune_index: bool,
    pub prune_threads: bool,
    pub prune_family: bool,
    pub prune_subagents: bool,
    pub dry_run: bool,
}

/// The sessions of the threads table and those that others spawned.
pub struct ThreadsTable {
    pub ids: Vec<String>,
    pub spawned: Vec<SpawnEdge>,
}

/// What a [`ThreadsTable`] holds.
#[verifier::ext_equal]
pub struct ThreadsTableView {
    pub ids: Seq<Seq<char>>,
    pub spawned: Seq<EdgeView>,
}

impl View for ThreadsTable {
    type V = ThreadsTableView;

    open spec fn view(&self) -> ThreadsTableView {
        ThreadsTableView { ids: texts(self.ids@), spawned: edges_view(self.spawned@) }
    }
}

/// What an optional threads table holds.
pub open spec fn opt_table(table: Option<ThreadsTable>) -> Option<ThreadsTableView> {
    match table {
        Some(table) => Some(table@),
        None => None,
    }
}

/// Sessions of the threads table without a rollout, and orphaned sub-agents.
/// `cleanup_needed` tells whether the project records of the removed sessions have to go
/// too, and `deferred` whether that has to wait until Desktop starts again.
pub struct ThreadOrphans {
    pub orphan_ids: Vec<String>,
    pub orphan_subagent_ids: Vec<String>,
    pub cleanup_needed: bool,
    pub deferred: bool,
}

/// The sessions of the threads table without a rollout, in the order of the table.
pub open spec fn orphan_threads(
    options: PruneOptions,
    table: Option<ThreadsTableView>,
    all_rollouts: Seq<Seq<char>>,
) -> Seq<Seq<char>> {
    match table {
        Some(table) => if options.prune_threads {
            texts_without(table.ids, all_rollouts)
        } else {
            Seq::empty()
        },
        None => Seq::empty(),
    }
}

/// Whether these are the orphaned sub-agents, sorted.
pub open spec fn are_orphan_subagents(
    ids: Seq<Seq<char>>,
    options: PruneOptions,
    table: Option<ThreadsTableView>,
    all_rollouts: Seq<Seq<char>>,
) -> bool {
    match table {
        Some(table) => if options.prune_subagents {
            ascending(ids) && forall|id: Seq<char>| #[trigger]
                ids.contains(id) <==> is_orphan(table.spawned, all_rollouts + table.ids, id)
        } else {
            ids.len() == 0
        },
        None => ids.len() == 0,
    }
}

/// Whether the project records of removed sessions have to go.
pub open spec fn needs_cleanup(options: PruneOptions, orphan_ids: Seq<Seq<char>>) -> bool {
    !options.dry_run && options.prune_threads && orphan_ids.len() > 0
}

/// Finds the sessions of the threads table without a rollout and the orphaned
/// sub-agents, given the sessions of all rollouts, active and archived.
pub fn find_thread_orphans(
    options: PruneOptions,
    table: &Option<ThreadsTable>,
    all_rollouts: &Vec<String>,
    defer_cleanup: bool,
) -> (orphans: ThreadOrphans)
    ensures
        texts(orphans.orphan_ids@) == orphan_threads(
            options,
            opt_table(*table),
            texts(all_rollouts@),
        ),
        are_orphan_subagents(
            texts(orphans.orphan_subagent_ids@),
            options,
            opt_table(*table),
            texts(all_rollouts@),
        ),
        orphans.cleanup_needed == needs_cleanup(options, texts(orphans.orphan_ids@)),
        orphans.deferred == (orphans.cleanup_needed && defer_cleanup),
{
    let orphan_ids = match table {
        Some(table) => if options.prune_threads {
            difference(&table.ids, all_rollouts)
        } else {
            Vec::new()
        },
        None => Vec::new(),
    };
    let orphan_subagent_ids = match table {
        Some(table) => if options.prune_subagents {
            find_orphan_subagent_ids(&table.spawned, all_rollouts, &table.ids)
        } else {
            Vec::new()
        },
        None => Vec::new(),
    };
    let cleanup_needed = !options.dry_run && options.prune_threads && orphan_ids.len() > 0;
    let orphans = ThreadOrphans {
        orphan_ids,
        orphan_subagent_ids,
        cleanup_needed,
        deferred: cleanup_needed && defer_cleanup,
    };
    assert(texts(orphans.orphan_ids@) =~= orphan_threads(
        options,
        opt_table(*table),
        texts(all_rollouts@),
    ));
    orphans
}

/// The sessions of rollouts that state one.
pub open spec fn sessions_of(identities: Seq<Option<IdentityView>>) -> Seq<Seq<char>> {
    sorted_texts(identities.filter_map(crate::diagnose::identity_ids()))
}

/// The sessions of rollouts that state one, sorted.
pub fn rollout_sessions(identities: &Vec<Option<RolloutIdentity>>) -> (ids: Vec<String>)
    ensures
        texts(ids@) == sessions_of(crate::diagnose::identities_view(identities@)),
{
    let ghost all = crate::diagnose::identities_view(identities@);
    let mut ids: Vec<String> = Vec::new();
    let mut at: usize = 0;
    while at < identities.len()
        invariant
            at <= identities@.len(),
            all == crate::diagnose::identities_view(identities@),
            texts(ids@) == all.take(at as int).filter_map(crate::diagnose::identity_ids()),
        decreases identities.len() - at,
    {
        assert(all.take(at + 1).drop_last() =~= all.take(at as int));
        let ghost before = texts(ids@);
        if let Some(identity) = &identities[at] {
            ids.push(identity.id.clone());
            assert(texts(ids@) =~= before + seq![identity.id@]);
        }
        at = at + 1;
    }
    assert(all.take(at as int) =~= all);
    sort_texts(&ids)
}

// ---------------------------------------------------------------------------
// The whole
// ---------------------------------------------------------------------------

/// One step in changing the store.
pub enum StoreStep {
    RemoveFamily(String),
    Normalize(FamilyActiveNormalization),
    RemoveBranch(BranchRemoval),
    Recover(FamilyActiveRecovery),
}

/// What a [`StoreStep`] holds.
#[verifier::ext_equal]
pub enum StoreStepView {
    RemoveFamily(Seq<char>),
    Normalize(NormalizationView),
    RemoveBranch(RemovalView),
    Recover(RecoveryView),
}

impl View for StoreStep {
    type V = StoreStepView;

    open spec fn view(&self) -> StoreStepView {
        match *self {
            StoreStep::RemoveFamily(id) => StoreStepView::RemoveFamily(id@),
            StoreStep::Normalize(normalization) => StoreStepView::Normalize(normalization@),
            StoreStep::RemoveBranch(removal) => StoreStepView::RemoveBranch(removal@),
            StoreStep::Recover(recovery) => StoreStepView::Recover(recovery@),
        }
    }
}

/// What a list of steps holds.
pub open spec fn steps_view(steps: Seq<StoreStep>) -> Seq<StoreStepView> {
    steps.map_values(|step: StoreStep| step@)
}

/// The steps of a plan in their order: families are removed, marks set right, branches
/// removed, and then families recovered.
pub open spec fn plan_steps(plan: PlanView) -> Seq<StoreStepView> {
    plan.family_ids.map_values(|id: Seq<char>| StoreStepView::RemoveFamily(id))
        + plan.normalizations.map_values(|n: NormalizationView| StoreStepView::Normalize(n))
        + plan.branches.map_values(|r: RemovalView| StoreStepView::RemoveBranch(r))
        + plan.recoveries.map_values(|r: RecoveryView| StoreStepView::Recover(r))
}

/// The steps of a plan in their order.
pub fn store_steps(plan: FamilyOrphanPrunePlan) -> (steps: Vec<StoreStep>)
    ensures
        steps_view(steps@) == plan_steps(plan@),
{
    let ghost view = plan@;
    let ghost families = view.family_ids.map_values(
        |id: Seq<char>| StoreStepView::RemoveFamily(id),
    );
    let ghost normalizations = view.normalizations.map_values(
        |n: NormalizationView| StoreStepView::Normalize(n),
    );
    let ghost branches = view.branches.map_values(|r: RemovalView| StoreStepView::RemoveBranch(r));
    let ghost recoveries = view.recoveries.map_values(|r: RecoveryView| StoreStepView::Recover(r));
    let mut steps: Vec<StoreStep> = Vec::new();
    for id in it: plan.family_ids
        invariant
            it.seq() == plan.family_ids@,
            families.len() == plan.family_ids@.len(),
            forall|i: int|
                0 <= i < families.len() ==> #[trigger] families[i] == StoreStepView::RemoveFamily(
                    plan.family_ids@[i]@,
                ),
            steps_view(steps@) == families.take(it.index()),
    {
        let ghost before = steps_view(steps@);
        let step = StoreStep::RemoveFamily(id);
        steps.push(step);
        assert(steps_view(steps@) =~= before.push(step@));
        assert(steps_view(steps@) =~= families.take(it.index() + 1));
    }
    assert(families.take(families.len() as int) =~= families);
    assert(steps_view(steps@) =~= families + normalizations.take(0));
    for normalization in it: plan.normalizations
        invariant
            it.seq() == plan.normalizations@,
            normalizations.len() == plan.normalizations@.len(),
            forall|i: int|
                0 <= i < normalizations.len() ==> #[trigger] normalizations[i]
                    == StoreStepView::Normalize(plan.normalizations@[i]@),
            steps_view(steps@) == families + normalizations.take(it.index()),
    {
        let ghost before = steps_view(steps@);
        let step = StoreStep::Normalize(normalization);
        steps.push(step);
        assert(steps_view(steps@) =~= before.push(step@));
        assert(steps_view(steps@) =~= families + normalizations.take(it.index() + 1));
    }
    let ghost two = families + normalizations;
    assert(normalizations.take(normalizations.len() as int) =~= normalizations);
    assert(steps_view(steps@) =~= two + branches.take(0));
    for removal in it: plan.branches
        invariant
            it.seq() == plan.branches@,
            branches.len() == plan.branches@.len(),
            forall|i: int|
                0 <= i < branches.len() ==> #[trigger] branches[i] == StoreStepView::RemoveBranch(
                    plan.branches@[i]@,
                ),
            steps_view(steps@) == two + branches.take(it.index()),
    {
        let ghost before = steps_view(steps@);
        let step = StoreStep::RemoveBranch(removal);
        steps.push(step);
        assert(steps_view(steps@) =~= before.push(step@));
        assert(steps_view(steps@) =~= two + branches.take(it.index() + 1));
    }
    let ghost three = two + branches;
    assert(branches.take(branches.len() as int) =~= branches);
    assert(steps_view(steps@) =~= three + recoveries.take(0));
    for recovery in it: plan.recoveries
        invariant
            it.seq() == plan.recoveries@,
            recoveries.len() == plan.recoveries@.len(),
            forall|i: int|
                0 <= i < recoveries.len() ==> #[trigger] recoveries[i] == StoreStepView::Recover(
                    plan.recoveries@[i]@,
                ),
            steps_view(steps@) == three + recoveries.take(it.index()),
    {
        let ghost before = steps_view(steps@);
        let step = StoreStep::Recover(recovery);
        steps.push(step);
        assert(steps_view(steps@) =~= before.push(step@));
        assert(steps_view(steps@) =~= three + recoveries.take(it.index() + 1));
    }
    assert(recoveries.take(recoveries.len() as int) =~= recoveries);
    steps
}

/// How many branches a plan drops.
pub open spec fn dropped_branches(plan: PlanView) -> nat {
    plan.branches.len() + recovery_drops(plan.recoveries)
}

/// How many branches recoveries drop.
pub open spec fn recovery_drops(recoveries: Seq<RecoveryView>) -> nat
    decreases recoveries.len(),
{
    if recoveries.len() == 0 {
        0
    } else {
        recovery_drops(recoveries.drop_last()) + recoveries.last().missing_branch_ids.len()
    }
}

/// How many branches the first families have.
pub open spec fn branch_total(families: Seq<FamilyEntryView>, count: int) -> nat
    decreases count,
{
    if count <= 0 {
        0
    } else {
        branch_total(families, count - 1) + families[count - 1].family.chain.len()
    }
}

proof fn lemma_ids_where_len(
    chain: Seq<crate::model::BranchView>,
    existing: Seq<Seq<char>>,
    held: bool,
    active_only: bool,
)
    ensures
        ids_where(chain, existing, held, active_only).len() <= chain.len(),
    decreases chain.len(),
{
    if chain.len() > 0 {
        lemma_ids_where_len(chain.drop_last(), existing, held, active_only);
    }
}

proof fn lemma_dropped_bound(
    store: StoreView,
    probes: Seq<ProbeView>,
    rollout_ids: Seq<Seq<char>>,
    count: int,
)
    requires
        0 <= count <= store.families.len(),
    ensures
        dropped_branches(plan_through(store, probes, rollout_ids, count)) <= branch_total(
            store.families,
            count,
        ),
    decreases count,
{
    if count > 0 {
        lemma_dropped_bound(store, probes, rollout_ids, count - 1);
        let entry = store.families[count - 1];
        let before = plan_through(store, probes, rollout_ids, count - 1);
        let existing = crate::prune::existing_ids(
            entry.family.chain,
            probes[count - 1].rollout_files,
            rollout_ids,
        );
        lemma_ids_where_len(entry.family.chain, existing, false, false);
        let after = plan_through(store, probes, rollout_ids, count);
        match verdict(store, entry, probes[count - 1], rollout_ids) {
            Verdict::Recover { active_id, missing } => {
                let recovery = RecoveryView {
                    family_id: entry.key,
                    active_id,
                    missing_branch_ids: missing,
                };
                assert(after.recoveries.drop_last() =~= before.recoveries);
                assert(after.recoveries.last() == recovery);
            },
            _ => {},
        }
    }
}

fn count_recovery_drops(recoveries: &Vec<FamilyActiveRecovery>, limit: u32) -> (count: u32)
    requires
        recovery_drops(crate::prune::recoveries_view(recoveries@)) <= limit,
    ensures
        count == recovery_drops(crate::prune::recoveries_view(recoveries@)),
{
    let ghost all = crate::prune::recoveries_view(recoveries@);
    let mut count: u32 = 0;
    let mut at: usize = 0;
    while at < recoveries.len()
        invariant
            at <= recoveries@.len(),
            all == crate::prune::recoveries_view(recoveries@),
            recovery_drops(all) <= limit,
            count == recovery_drops(all.take(at as int)),
        decreases recoveries.len() - at,
    {
        assert(all.take(at + 1).drop_last() =~= all.take(at as int));
        assert(all.take(at + 1).last() == recoveries@[at as int]@);
        proof {
            lemma_recovery_drops_take(all, at + 1);
        }
        count = count + recoveries[at].missing_branch_ids.len() as u32;
        at = at + 1;
    }
    assert(all.take(at as int) =~= all);
    count
}

proof fn lemma_recovery_drops_take(recoveries: Seq<RecoveryView>, at: int)
    requires
        0 <= at <= recoveries.len(),
    ensures
        recovery_drops(recoveries.take(at)) <= recovery_drops(recoveries),
    decreases recoveries.len(),
{
    if at < recoveries.len() {
        lemma_recovery_drops_take(recoveries.drop_last(), at);
        assert(recoveries.drop_last().take(at) =~= recoveries.take(at));
    } else {
        assert(recoveries.take(at) =~= recoveries);
    }
}

/// What pruning orphans removed, or would remove.
pub struct OrphanPruneReport {
    pub index_removed: u32,
    pub threads_removed: u32,
    pub subagents_removed: u32,
    pub family_branches_removed: u32,
    pub families_removed: u32,
    pub families_recovered: u32,
    pub families_normalized: u32,
    pub families_skipped: Vec<String>,
    pub desktop_restart_required: bool,
    pub dry_run: bool,
}

/// What pruning orphans writes, in this order: the store, the session index, the threads
/// table and the project records of removed sessions.
pub struct PruneWrites {
    pub store_steps: Option<Vec<StoreStep>>,
    pub index_lines: Option<Vec<String>>,
    pub thread_ids: Vec<String>,
    pub project_state_ids: Vec<String>,
}

/// What pruning orphans reports and writes.
pub struct PruneOutcome {
    pub report: OrphanPruneReport,
    pub writes: PruneWrites,
}

/// All that pruning orphans reads: the sessions of active and of archived rollouts, the
/// threads table where there is one, the store with one probe for each family, and the
/// lines of the session index where there is one. `defer_cleanup` tells whether project
/// records cannot be changed now, `deletion_needs_restart` whether deleting the orphaned
/// sub-agents asked for Desktop to start again.
pub struct PruneInput {
    pub active: Vec<Option<RolloutIdentity>>,
    pub archived: Vec<Option<RolloutIdentity>>,
    pub table: Option<ThreadsTable>,
    pub store: FamilyStore,
    pub probes: Vec<FamilyProbe>,
    pub index_lines: Option<Vec<String>>,
    pub defer_cleanup: bool,
    pub deletion_needs_restart: bool,
}

impl PruneInput {
    /// Whether the probes are those of the store, and its branches can be counted.
    pub open spec fn well_formed(&self) -> bool {
        probes_fit(self.store@, probes_view(self.probes@)) && branch_total(
            self.store@.families,
            self.store@.families.len() as int,
        ) <= u32::MAX
    }

    /// The sessions of active rollouts.
    pub open spec fn active_ids(&self) -> Seq<Seq<char>> {
        sessions_of(crate::diagnose::identities_view(self.active@))
    }

    /// The sessions of all rollouts.
    pub open spec fn all_ids(&self) -> Seq<Seq<char>> {
        self.active_ids() + sessions_of(crate::diagnose::identities_view(self.archived@))
    }

    /// What is to be done with the store.
    pub open spec fn plan(&self, options: PruneOptions) -> PlanView {
        if options.prune_family {
            family_plan(self.store@, probes_view(self.probes@), self.all_ids())
        } else {
            empty_plan()
        }
    }

    /// How many lines of the session index are orphans.
    pub open spec fn index_orphans(&self, options: PruneOptions) -> nat {
        match self.index_lines {
            Some(lines) => if options.prune_index {
                count_where(texts(lines@), orphan_line(self.active_ids()))
            } else {
                0
            },
            None => 0,
        }
    }
}

/// Whether a plan does anything.
pub open spec fn plan_acts(plan: PlanView) -> bool {
    plan.branches.len() > 0 || plan.family_ids.len() > 0 || plan.recoveries.len() > 0
        || plan.normalizations.len() > 0
}

/// Whether an outcome reports what pruning removes.
pub open spec fn reports_prune(
    outcome: PruneOutcome,
    options: PruneOptions,
    input: PruneInput,
) -> bool {
    let plan = input.plan(options);
    let orphans = orphan_threads(options, opt_table(input.table), input.all_ids());
    &&& outcome.report.index_removed == input.index_orphans(options) as u32
    &&& outcome.report.threads_removed == orphans.len() as u32
    &&& outcome.report.family_branches_removed == dropped_branches(plan)
    &&& outcome.report.families_removed == plan.family_ids.len() as u32
    &&& outcome.report.families_recovered == plan.recoveries.len() as u32
    &&& outcome.report.families_normalized == plan.normalizations.len() as u32
    &&& texts(outcome.report.families_skipped@) == plan.skipped_family_ids
    &&& outcome.report.dry_run == options.dry_run
    &&& exists|subagents: Seq<Seq<char>>|
        {
            &&& #[trigger] are_orphan_subagents(
                subagents,
                options,
                opt_table(input.table),
                input.all_ids(),
            )
            &&& outcome.report.subagents_removed == subagents.len() as u32
            &&& outcome.report.desktop_restart_required == ((needs_cleanup(options, orphans)
                && input.defer_cleanup) || (!options.dry_run && options.prune_subagents
                && subagents.len() > 0 && input.deletion_needs_restart))
        }
}

/// Whether an outcome writes what pruning changes, and nothing on a dry run.
pub open spec fn writes_prune(
    outcome: PruneOutcome,
    options: PruneOptions,
    input: PruneInput,
) -> bool {
    let plan = input.plan(options);
    let orphans = orphan_threads(options, opt_table(input.table), input.all_ids());
    let writes = outcome.writes;
    &&& match writes.store_steps {
        Some(steps) => !options.dry_run && plan_acts(plan) && steps_view(steps@) == plan_steps(plan),
        None => options.dry_run || !plan_acts(plan),
    }
    &&& match writes.index_lines {
        Some(kept) => !options.dry_run && input.index_orphans(options) > 0
            && (input.index_lines matches Some(lines) && texts(kept@) == kept_lines(
            texts(lines@),
            input.active_ids(),
        )),
        None => options.dry_run || input.index_orphans(options) == 0,
    }
    &&& texts(writes.thread_ids@) == if options.dry_run {
        Seq::empty()
    } else {
        orphans
    }
    &&& texts(writes.project_state_ids@) == if needs_cleanup(options, orphans)
        && !input.defer_cleanup {
        orphans
    } else {
        Seq::empty()
    }
}

/// Prunes orphans: tells what is removed, and what is to be written for it.
pub fn prune_orphan_entries(options: PruneOptions, input: &PruneInput) -> (outcome: PruneOutcome)
    requires
        input.well_formed(),
    ensures
        reports_prune(outcome, options, *input),
        writes_prune(outcome, options, *input),
{
    let active = rollout_sessions(&input.active);
    let archived = rollout_sessions(&input.archived);
    let mut all = copy_texts(&active);
    let ghost first = all@;
    let mut rest = archived;
    let ghost second = rest@;
    all.append(&mut rest);
    assert(texts(first + second) =~= texts(first) + texts(second));
    assert(texts(all@) == input.all_ids());
    let orphans = find_thread_orphans(options, &input.table, &all, input.defer_cleanup);
    let delete_subagents = !options.dry_run && options.prune_subagents
        && orphans.orphan_subagent_ids.len() > 0;
    let desktop_restart_required = orphans.deferred || (delete_subagents
        && input.deletion_needs_restart);

    let plan = if options.prune_family {
        plan_family_orphan_prune(&input.store, &input.probes, &all)
    } else {
        no_plan()
    };
    let ghost plan_view = plan@;
    assert(plan_view == input.plan(options));
    proof {
        lemma_dropped_bound(
            input.store@,
            probes_view(input.probes@),
            input.all_ids(),
            input.store@.families.len() as int,
        );
    }
    let family_branches_removed = plan.branches.len() as u32 + count_recovery_drops(
        &plan.recoveries,
        u32::MAX - plan.branches.len() as u32,
    );
    let families_removed = plan.family_ids.len() as u32;
    let families_recovered = plan.recoveries.len() as u32;
    let families_normalized = plan.normalizations.len() as u32;
    let families_skipped = copy_texts(&plan.skipped_family_ids);
    let acts = plan.branches.len() > 0 || plan.family_ids.len() > 0 || plan.recoveries.len() > 0
        || plan.normalizations.len() > 0;
    let steps = if !options.dry_run && acts {
        Some(store_steps(plan))
    } else {
        None
    };

    let mut index_removed: usize = 0;
    let mut index_lines: Option<Vec<String>> = None;
    if options.prune_index {
        if let Some(lines) = &input.index_lines {
            let prune = prune_index_lines(lines, &active);
            index_removed = prune.removed;
            if !options.dry_run && prune.removed > 0 {
                index_lines = Some(prune.kept);
            }
        }
    }
    let threads_removed = orphans.orphan_ids.len() as u32;
    let subagents_removed = orphans.orphan_subagent_ids.len() as u32;
    let project_state_ids = if orphans.cleanup_needed && !orphans.deferred {
        copy_texts(&orphans.orphan_ids)
    } else {
        Vec::new()
    };
    let thread_ids = if options.dry_run {
        Vec::new()
    } else {
        copy_texts(&orphans.orphan_ids)
    };
    let outcome = PruneOutcome {
        report: OrphanPruneReport {
            index_removed: index_removed as u32,
            threads_removed,
            subagents_removed,
            family_branches_removed,
            families_removed,
            families_recovered,
            families_normalized,
            families_skipped,
            desktop_restart_required,
            dry_run: options.dry_run,
        },
        writes: PruneWrites { store_steps: steps, index_lines, thread_ids, project_state_ids },
    };
    proof {
        let subagents = texts(orphans.orphan_subagent_ids@);
        assert(are_orphan_subagents(
            subagents,
            options,
            opt_table(input.table),
            input.all_ids(),
        ));
        let ids = orphan_threads(options, opt_table(input.table), input.all_ids());
        assert(texts(orphans.orphan_ids@) == ids);
        assert(texts(outcome.writes.thread_ids@) =~= if options.dry_run {
            Seq::empty()
        } else {
            ids
        });
        assert(texts(outcome.writes.project_state_ids@) =~= if needs_cleanup(options, ids)
            && !input.defer_cleanup {
            ids
        } else {
            Seq::empty()
        });
    }
    outcome
}

fn no_plan() -> (plan: FamilyOrphanPrunePlan)
    ensures
        plan@ == empty_plan(),
{
    let plan = FamilyOrphanPrunePlan {
        family_ids: Vec::new(),
        branches: Vec::new(),
        recoveries: Vec::new(),
        normalizations: Vec::new(),
        skipped_family_ids: Vec::new(),
    };
    assert(plan@ =~= empty_plan());
    plan
}

/// A dry run writes nothing.
pub proof fn law_dry_run_writes_nothing(
    outcome: PruneOutcome,
    options: PruneOptions,
    input: PruneInput,
)
    requires
        writes_prune(outcome, options, input),
        options.dry_run,
    ensures
        outcome.writes.store_steps is None,
        outcome.writes.index_lines is None,
        outcome.writes.thread_ids@.len() == 0,
        outcome.writes.project_state_ids@.len() == 0,
{
    assert(texts(outcome.writes.thread_ids@).len() == 0);
    assert(texts(outcome.writes.project_state_ids@).len() == 0);
}

/// Whether a line of the index names a session, and no rollout is left of it.
pub open spec fn names_lost_session(line: Seq<char>, rollout_ids: Seq<Seq<char>>) -> bool {
    json_document(line) matches Some(value) && (member_text(value, "id"@) matches Some(id)
        && !rollout_ids.contains(id))
}

/// A prune of the index keeps every line that is not blank and names no lost session, and nothing
/// else; lines that are no entries stay.
pub proof fn law_index_keeps_all_but_lost_sessions(
    lines: Seq<Seq<char>>,
    rollout_ids: Seq<Seq<char>>,
    line: Seq<char>,
)
    ensures
        kept_lines(lines, rollout_ids).contains(line) <==> lines.contains(line) && trimmed(
            line,
        ).len() > 0 && !names_lost_session(line, rollout_ids),
    decreases lines.len(),
{
    if lines.len() > 0 {
        let rest = lines.drop_last();
        law_index_keeps_all_but_lost_sessions(rest, rollout_ids, line);
        let kept = kept_lines(rest, rollout_ids);
        assert(lines =~= rest.push(lines.last()));
        lemma_pushed(rest, lines.last(), line);
        lemma_pushed(kept, lines.last(), line);
    }
}

proof fn lemma_pushed(items: Seq<Seq<char>>, last: Seq<char>, text: Seq<char>)
    ensures
        items.push(last).contains(text) <==> items.contains(text) || text == last,
{
    let all = items.push(last);
    assert(all[items.len() as int] == last);
    if items.contains(text) {
        let k = choose|k: int| 0 <= k < items.len() && items[k] == text;
        assert(all[k] == text);
    }
    if all.contains(text) {
        let k = choose|k: int| 0 <= k < all.len() && all[k] == text;
        if k < items.len() {
            assert(items[k] == text);
        }
    }
}

/// Whether a rollout among these states a session.
pub open spec fn some_states(identities: Seq<Option<RolloutIdentity>>, id: Seq<char>) -> bool {
    exists|i: int|
        0 <= i < identities.len() && (#[trigger] identities[i] matches Some(identity)
            && identity.id@ == id)
}

proof fn lemma_some_states(identities: Seq<Option<RolloutIdentity>>, id: Seq<char>)
    ensures
        sessions_of(crate::diagnose::identities_view(identities)).contains(id) <==> some_states(
            identities,
            id,
        ),
{
    let all = crate::diagnose::identities_view(identities);
    let pick = crate::diagnose::identity_ids();
    let found = all.filter_map(pick);
    lemma_sorted_texts(found);
    if found.contains(id) {
        all.lemma_filter_map_contains(pick, id);
        let item = choose|item: Option<IdentityView>| #[trigger]
            all.contains(item) && pick(item) == Some(id);
        let i = choose|i: int| 0 <= i < all.len() && all[i] == item;
        assert(identities[i] matches Some(identity) && identity.id@ == id);
    }
    if some_states(identities, id) {
        let i = choose|i: int|
            0 <= i < identities.len() && (#[trigger] identities[i] matches Some(identity)
                && identity.id@ == id);
        assert(all[i] matches Some(identity) && identity.id == id);
        lemma_filter_map_has(all, pick, i);
    }
}

/// Whether the threads table that was read has a row of a session.
pub open spec fn table_has(input: PruneInput, id: Seq<char>) -> bool {
    input.table matches Some(table) && texts(table.ids@).contains(id)
}

/// A prune that is no dry run deletes the threads rows of just those sessions of which neither an
/// active nor an archived rollout is left, where it was asked to prune threads.
pub proof fn law_threads_without_rollout_are_deleted(
    outcome: PruneOutcome,
    options: PruneOptions,
    input: PruneInput,
    id: Seq<char>,
)
    requires
        writes_prune(outcome, options, input),
    ensures
        texts(outcome.writes.thread_ids@).contains(id) <==> !options.dry_run
            && options.prune_threads && table_has(input, id) && !some_states(input.active@, id)
            && !some_states(input.archived@, id),
        outcome.writes.project_state_ids@.len() > 0 ==> !input.defer_cleanup && !options.dry_run
            && options.prune_threads && texts(outcome.writes.project_state_ids@) == texts(
            outcome.writes.thread_ids@,
        ),
        !input.defer_cleanup ==> texts(outcome.writes.project_state_ids@) == texts(
            outcome.writes.thread_ids@,
        ),
{
    lemma_some_states(input.active@, id);
    lemma_some_states(input.archived@, id);
    if let Some(table) = opt_table(input.table) {
        lemma_texts_without(table.ids, input.all_ids());
        lemma_both_contain(
            input.active_ids(),
            sessions_of(crate::diagnose::identities_view(input.archived@)),
            id,
        );
    }
    assert(texts(outcome.writes.project_state_ids@).len() == outcome.writes.project_state_ids@.len(
    ));
    let orphans = orphan_threads(options, opt_table(input.table), input.all_ids());
    if !input.defer_cleanup && !needs_cleanup(options, orphans) {
        assert(texts(outcome.writes.thread_ids@) =~= Seq::empty());
        assert(texts(outcome.writes.project_state_ids@) =~= Seq::empty());
    }
}

proof fn lemma_both_contain(left: Seq<Seq<char>>, right: Seq<Seq<char>>, id: Seq<char>)
    ensures
        (left + right).contains(id) <==> left.contains(id) || right.contains(id),
{
    let all = left + right;
    if left.contains(id) {
        let k = choose|k: int| 0 <= k < left.len() && left[k] == id;
        assert(all[k] == id);
    }
    if right.contains(id) {
        let k = choose|k: int| 0 <= k < right.len() && right[k] == id;
        assert(all[left.len() + k] == id);
    }
    if all.contains(id) {
        let k = choose|k: int| 0 <= k < all.len() && all[k] == id;
        if k < left.len() {
            assert(left[k] == id);
        } else {
            assert(right[k - left.len()] == id);
        }
    }
}

/// A prune that is no dry run writes the index anew just where it was asked to and a line names a
/// session without an active rollout; a session that is only archived has no place there. What it
/// writes are the other lines.
pub proof fn law_index_is_written_without_lost_sessions(
    outcome: PruneOutcome,
    options: PruneOptions,
    input: PruneInput,
    line: Seq<char>,
)
    requires
        writes_prune(outcome, options, input),
    ensures
        outcome.writes.index_lines matches Some(kept) ==> !options.dry_run && options.prune_index
            && (input.index_lines matches Some(lines) && (texts(kept@).contains(line) <==> texts(
            lines@,
        ).contains(line) && trimmed(line).len() > 0 && !(json_document(line) matches Some(value)
            && (member_text(value, "id"@) matches Some(id) && !some_states(input.active@, id))))),
        !options.dry_run && options.prune_index && (input.index_lines matches Some(lines) && texts(
            lines@,
        ).contains(line) && trimmed(line).len() > 0 && (json_document(line) matches Some(value) && (
        member_text(value, "id"@) matches Some(id) && !some_states(input.active@, id))))
            ==> outcome.writes.index_lines is Some,
{
    if let Some(lines) = input.index_lines {
        let all = texts(lines@);
        law_index_keeps_all_but_lost_sessions(all, input.active_ids(), line);
        if let Some(value) = json_document(line) {
            if let Some(id) = member_text(value, "id"@) {
                lemma_some_states(input.active@, id);
            }
        }
        if all.contains(line) && orphan_line(input.active_ids())(line) {
            let k = choose|k: int| 0 <= k < all.len() && all[k] == line;
            lemma_counted(all, orphan_line(input.active_ids()), k);
        }
    }
}

proof fn lemma_counted(items: Seq<Seq<char>>, holds: spec_fn(Seq<char>) -> bool, at: int)
    requires
        0 <= at < items.len(),
        holds(items[at]),
    ensures
        count_where(items, holds) > 0,
    decreases items.len(),
{
    if at < items.len() - 1 {
        lemma_counted(items.drop_last(), holds, at);
    }
}

/// A dry run reports what a run would do: the counts and the families that are left alone are the
/// same. Only what concerns Desktop depends on whether anything is written.
pub proof fn law_dry_run_tells_what_a_run_does(
    dry: PruneOutcome,
    wet: PruneOutcome,
    options: PruneOptions,
    input: PruneInput,
)
    requires
        !options.dry_run,
        reports_prune(wet, options, input),
        reports_prune(dry, (PruneOptions { dry_run: true, ..options }), input),
    ensures
        dry.report.index_removed == wet.report.index_removed,
        dry.report.threads_removed == wet.report.threads_removed,
        dry.report.subagents_removed == wet.report.subagents_removed,
        dry.report.family_branches_removed == wet.report.family_branches_removed,
        dry.report.families_removed == wet.report.families_removed,
        dry.report.families_recovered == wet.report.families_recovered,
        dry.report.families_normalized == wet.report.families_normalized,
        texts(dry.report.families_skipped@) == texts(wet.report.families_skipped@),
        dry.report.dry_run && !wet.report.dry_run,
        !dry.report.desktop_restart_required,
{
    let dry_options = PruneOptions { dry_run: true, ..options };
    let table = opt_table(input.table);
    let a = choose|subagents: Seq<Seq<char>>|
        {
            &&& #[trigger] are_orphan_subagents(subagents, options, table, input.all_ids())
            &&& wet.report.subagents_removed == subagents.len() as u32
        };
    let b = choose|subagents: Seq<Seq<char>>|
        {
            &&& #[trigger] are_orphan_subagents(subagents, dry_options, table, input.all_ids())
            &&& dry.report.subagents_removed == subagents.len() as u32
        };
    if table is Some && options.prune_subagents {
        assert forall|id: Seq<char>| a.contains(id) <==> b.contains(id) by {}
        lemma_ascending_unique(a, b);
    }
}

/// What was not asked to be pruned stays: without the option for families, threads or the index,
/// nothing of them is removed or written.
pub proof fn law_only_what_was_asked_is_pruned(
    outcome: PruneOutcome,
    options: PruneOptions,
    input: PruneInput,
)
    requires
        reports_prune(outcome, options, input),
        writes_prune(outcome, options, input),
    ensures
        !options.prune_family ==> outcome.writes.store_steps is None
            && outcome.report.families_removed == 0 && outcome.report.family_branches_removed == 0
            && outcome.report.families_recovered == 0 && outcome.report.families_normalized == 0,
        !options.prune_threads ==> outcome.writes.thread_ids@.len() == 0
            && outcome.report.threads_removed == 0,
        !options.prune_index ==> outcome.writes.index_lines is None && outcome.report.index_removed
            == 0,
        !options.prune_subagents ==> outcome.report.subagents_removed == 0,
{
    assert(texts(outcome.writes.thread_ids@).len() == outcome.writes.thread_ids@.len());
    assert(recovery_drops(Seq::empty()) == 0);
}

/// The steps on the store are those of the plan: a family is removed, has its marks set right, loses
/// a branch or gets another active one just where the plan says so.
pub proof fn law_store_steps_carry_out_the_plan(plan: PlanView, step: StoreStepView)
    ensures
        plan_steps(plan).contains(step) <==> match step {
            StoreStepView::RemoveFamily(id) => plan.family_ids.contains(id),
            StoreStepView::Normalize(normalization) => plan.normalizations.contains(normalization),
            StoreStepView::RemoveBranch(removal) => plan.branches.contains(removal),
            StoreStepView::Recover(recovery) => plan.recoveries.contains(recovery),
        },
{
    let a = plan.family_ids.map_values(|id: Seq<char>| StoreStepView::RemoveFamily(id));
    let b = plan.normalizations.map_values(|n: NormalizationView| StoreStepView::Normalize(n));
    let c = plan.branches.map_values(|r: RemovalView| StoreStepView::RemoveBranch(r));
    let d = plan.recoveries.map_values(|r: RecoveryView| StoreStepView::Recover(r));
    let all = plan_steps(plan);
    assert(all == a + b + c + d);
    if all.contains(step) {
        let k = choose|k: int| 0 <= k < all.len() && all[k] == step;
        if k < a.len() {
            assert(a[k] == step && plan.family_ids[k] == step->RemoveFamily_0);
        } else if k < a.len() + b.len() {
            let j = k - a.len();
            assert(b[j] == step && plan.normalizations[j] == step->Normalize_0);
        } else if k < a.len() + b.len() + c.len() {
            let j = k - a.len() - b.len();
            assert(c[j] == step && plan.branches[j] == step->RemoveBranch_0);
        } else {
            let j = k - a.len() - b.len() - c.len();
            assert(d[j] == step && plan.recoveries[j] == step->Recover_0);
        }
    }
    match step {
        StoreStepView::RemoveFamily(id) => {
            if plan.family_ids.contains(id) {
                let k = choose|k: int| 0 <= k < plan.family_ids.len() && plan.family_ids[k] == id;
                assert(all[k] == step);
            }
        },
        StoreStepView::Normalize(n) => {
            if plan.normalizations.contains(n) {
                let k = choose|k: int|
                    0 <= k < plan.normalizations.len() && plan.normalizations[k] == n;
                assert(all[a.len() + k] == step);
            }
        },
        StoreStepView::RemoveBranch(r) => {
            if plan.branches.contains(r) {
                let k = choose|k: int| 0 <= k < plan.branches.len() && plan.branches[k] == r;
                assert(all[a.len() + b.len() + k] == step);
            }
        },
        StoreStepView::Recover(r) => {
            if plan.recoveries.contains(r) {
                let k = choose|k: int| 0 <= k < plan.recoveries.len() && plan.recoveries[k] == r;
                assert(all[a.len() + b.len() + c.len() + k] == step);
            }
        },
    }
}

} // verus!
