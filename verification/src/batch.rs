//! Bringing all sessions that need it to the configured provider, one after the other.

use vstd::prelude::*;

use crate::error::{error_text, text_outcome, AppError, ErrorView};
use crate::provider_sync::{
    list_mismatched_sessions, mismatched, target_ids, targets_view, ProviderSyncTarget, SyncState,
    SyncStateView, TargetView,
};
use crate::rollout_copy::lines_outcome;
use crate::switch::{
    clone_outcome, failed_report, failed_view, CloneReport, CloneView, SwitchRequest,
    SwitchRequestView, SwitchStrategy,
};
use crate::switch_report::{law_reports_name_their_session, switch_outcome, TryView};
use crate::text::{opt_text, texts};

verus! {

// ---------------------------------------------------------------------------
// The plan
// ---------------------------------------------------------------------------

/// The sessions that have to be brought to the configured provider.
pub open spec fn sync_targets(
    configured: Result<Seq<char>, ErrorView>,
    state: Result<SyncStateView, ErrorView>,
) -> Result<Seq<TargetView>, ErrorView> {
    match configured {
        Err(error) => Err(error),
        Ok(provider) => match state {
            Err(error) => Err(error),
            Ok(state) => mismatched(state, provider),
        },
    }
}

/// What the outcome of reading the state holds.
pub open spec fn state_outcome(state: Result<SyncState, AppError>) -> Result<
    SyncStateView,
    ErrorView,
> {
    match state {
        Ok(state) => Ok(state@),
        Err(error) => Err(error@),
    }
}

fn list_targets(configured: &Result<String, AppError>, state: &Result<SyncState, AppError>) -> (targets:
    Result<Vec<ProviderSyncTarget>, AppError>)
    ensures
        crate::provider_sync::targets_outcome(targets) == sync_targets(
            text_outcome(*configured),
            state_outcome(*state),
        ),
{
    let provider = match configured {
        Ok(provider) => provider,
        Err(error) => return Err(error.copy()),
    };
    match state {
        Ok(state) => list_mismatched_sessions(state, provider.as_str()),
        Err(error) => Err(error.copy()),
    }
}

/// The ids of the sessions that have to be brought to the configured provider.
pub open spec fn sync_ids(
    configured: Result<Seq<char>, ErrorView>,
    state: Result<SyncStateView, ErrorView>,
) -> Result<Seq<Seq<char>>, ErrorView> {
    match sync_targets(configured, state) {
        Err(error) => Err(error),
        Ok(targets) => Ok(target_ids(targets)),
    }
}

/// The ids of the sessions that have to be brought to the configured provider.
pub fn get_provider_sync_plan_with_lock(
    configured: &Result<String, AppError>,
    state: &Result<SyncState, AppError>,
) -> (ids: Result<Vec<String>, AppError>)
    ensures
        lines_outcome(ids) == sync_ids(text_outcome(*configured), state_outcome(*state)),
{
    let targets = match list_targets(configured, state) {
        Ok(targets) => targets,
        Err(error) => return Err(error),
    };
    let ghost all = target_ids(targets_view(targets@));
    let mut ids: Vec<String> = Vec::new();
    let mut at: usize = 0;
    assert(texts(ids@) =~= all.take(0));
    while at < targets.len()
        invariant
            at <= targets@.len(),
            all == target_ids(targets_view(targets@)),
            texts(ids@) == all.take(at as int),
        decreases targets.len() - at,
    {
        let ghost before = texts(ids@);
        ids.push(targets[at].session_id.clone());
        assert(texts(ids@) =~= before.push(all[at as int]));
        assert(before.push(all[at as int]) =~= all.take(at + 1));
        at = at + 1;
    }
    assert(all.take(at as int) =~= all);
    Ok(ids)
}

// ---------------------------------------------------------------------------
// The batch
// ---------------------------------------------------------------------------

/// What a batch is about to do.
#[derive(Clone, Copy, Debug, PartialEq, Eq, Structural)]
pub enum BatchStage {
    /// To tell that it starts.
    Fresh,
    /// To tell which session comes next, or to finish.
    Idle,
    /// To try the session that it told.
    Announced,
}

/// Sessions that are brought to a provider, with the reports on those that were tried.
pub struct CloneBatch {
    pub provider: String,
    pub strategy: SwitchStrategy,
    pub dry_run: bool,
    pub targets: Vec<ProviderSyncTarget>,
    pub reports: Vec<CloneReport>,
    pub stage: BatchStage,
}

/// What a [`CloneBatch`] holds.
#[verifier::ext_equal]
pub struct BatchView {
    pub provider: Seq<char>,
    pub strategy: SwitchStrategy,
    pub dry_run: bool,
    pub targets: Seq<TargetView>,
    pub reports: Seq<CloneView>,
    pub stage: BatchStage,
}

/// What a list of reports holds.
pub open spec fn reports_view(reports: Seq<CloneReport>) -> Seq<CloneView> {
    reports.map_values(|report: CloneReport| report@)
}

impl View for CloneBatch {
    type V = BatchView;

    open spec fn view(&self) -> BatchView {
        BatchView {
            provider: self.provider@,
            strategy: self.strategy,
            dry_run: self.dry_run,
            targets: targets_view(self.targets@),
            reports: reports_view(self.reports@),
            stage: self.stage,
        }
    }
}

/// How far a batch is: how many sessions were tried, of how many, the one that comes next
/// where it is about to, and the report on the last where it was just tried.
pub struct Progress {
    pub done: usize,
    pub total: usize,
    pub session_id: Option<String>,
    pub report: Option<CloneReport>,
}

/// What a [`Progress`] holds.
#[verifier::ext_equal]
pub struct ProgressView {
    pub done: nat,
    pub total: nat,
    pub session_id: Option<Seq<char>>,
    pub report: Option<CloneView>,
}

impl View for Progress {
    type V = ProgressView;

    open spec fn view(&self) -> ProgressView {
        ProgressView {
            done: self.done as nat,
            total: self.total as nat,
            session_id: opt_text(self.session_id),
            report: match self.report {
                Some(report) => Some(report@),
                None => None,
            },
        }
    }
}

/// What is to be done for a batch.
pub enum BatchAction {
    /// To tell how far it is.
    Tell(Progress),
    /// To bring a session to the provider, given where its rollout is, and to note what became of
    /// it.
    Clone { request: SwitchRequest, rollout_path: String },
    /// Nothing: all sessions were tried.
    Finish,
}

/// What a [`BatchAction`] holds.
#[verifier::ext_equal]
pub enum BatchActionView {
    Tell(ProgressView),
    Clone { request: SwitchRequestView, rollout_path: Seq<char> },
    Finish,
}

impl View for BatchAction {
    type V = BatchActionView;

    open spec fn view(&self) -> BatchActionView {
        match self {
            BatchAction::Tell(progress) => BatchActionView::Tell(progress@),
            BatchAction::Clone { request, rollout_path } => BatchActionView::Clone {
                request: request@,
                rollout_path: rollout_path@,
            },
            BatchAction::Finish => BatchActionView::Finish,
        }
    }
}

/// The report on a session that was tried: that of the try, or one on its error.
pub open spec fn settled(
    session_id: Seq<char>,
    provider: Seq<char>,
    outcome: Result<CloneView, ErrorView>,
) -> CloneView {
    match outcome {
        Ok(report) => report,
        Err(error) => failed_view(session_id, provider, error_text(error)),
    }
}

impl BatchView {
    /// Whether no more sessions were tried than there are, and one is left to be tried where one
    /// was told.
    pub open spec fn well_formed(self) -> bool {
        self.reports.len() <= self.targets.len() && (self.stage == BatchStage::Announced
            ==> self.reports.len() < self.targets.len())
    }

    /// How far this batch is.
    pub open spec fn progress(
        self,
        session_id: Option<Seq<char>>,
        report: Option<CloneView>,
    ) -> ProgressView {
        ProgressView { done: self.reports.len(), total: self.targets.len(), session_id, report }
    }

    /// What is asked for a session of this batch: to bring it to the provider.
    pub open spec fn request(self, at: int) -> SwitchRequestView {
        SwitchRequestView {
            session_id: self.targets[at].session_id,
            target_provider: Some(self.provider),
            strategy: self.strategy,
            dry_run: self.dry_run,
        }
    }

    /// What is to be done next.
    pub open spec fn action(self) -> BatchActionView {
        let at = self.reports.len();
        match self.stage {
            BatchStage::Fresh => BatchActionView::Tell(self.progress(None, None)),
            BatchStage::Idle => if at < self.targets.len() {
                BatchActionView::Tell(
                    self.progress(Some(self.targets[at as int].session_id), None),
                )
            } else {
                BatchActionView::Finish
            },
            BatchStage::Announced => BatchActionView::Clone {
                request: self.request(at as int),
                rollout_path: self.targets[at as int].rollout_path,
            },
        }
    }

    /// This batch once its next action is being done.
    pub open spec fn acted(self) -> BatchView {
        BatchView {
            stage: match self.stage {
                BatchStage::Fresh => BatchStage::Idle,
                BatchStage::Idle => if self.reports.len() < self.targets.len() {
                    BatchStage::Announced
                } else {
                    BatchStage::Idle
                },
                BatchStage::Announced => BatchStage::Announced,
            },
            ..self
        }
    }

    /// The batch after its next session was tried.
    pub open spec fn after(self, outcome: Result<CloneView, ErrorView>) -> BatchView {
        BatchView {
            reports: self.reports.push(
                settled(
                    self.targets[self.reports.len() as int].session_id,
                    self.provider,
                    outcome,
                ),
            ),
            stage: BatchStage::Idle,
            ..self
        }
    }

    /// How far this batch is when a session was just tried.
    pub open spec fn noted(self) -> ProgressView {
        self.progress(None, Some(self.reports.last()))
    }
}

/// Starts to bring all sessions that need it to the configured provider.
pub fn batch_clone_for_current_provider_with_lock(
    configured: &Result<String, AppError>,
    state: &Result<SyncState, AppError>,
    strategy: SwitchStrategy,
    dry_run: bool,
) -> (batch: Result<CloneBatch, AppError>)
    ensures
        match batch {
            Ok(batch) => {
                &&& batch@.well_formed()
                &&& sync_targets(text_outcome(*configured), state_outcome(*state)) == Ok::<
                    Seq<TargetView>,
                    ErrorView,
                >(batch@.targets)
                &&& text_outcome(*configured) == Ok::<Seq<char>, ErrorView>(batch@.provider)
                &&& batch@.strategy == strategy
                &&& batch@.dry_run == dry_run
                &&& batch@.reports.len() == 0
                &&& batch@.stage == BatchStage::Fresh
            },
            Err(error) => sync_targets(text_outcome(*configured), state_outcome(*state)) == Err::<
                Seq<TargetView>,
                ErrorView,
            >(error@),
        },
{
    let targets = match list_targets(configured, state) {
        Ok(targets) => targets,
        Err(error) => return Err(error),
    };
    match configured {
        Ok(provider) => Ok(
            CloneBatch {
                provider: provider.clone(),
                strategy,
                dry_run,
                targets,
                reports: Vec::new(),
                stage: BatchStage::Fresh,
            },
        ),
        Err(error) => Err(error.copy()),
    }
}

impl CloneBatch {
    /// What is to be done next: to tell that the batch starts; then, for each session, to tell
    /// that it comes next and to try it.
    pub fn next_action(&mut self) -> (action: BatchAction)
        requires
            old(self)@.well_formed(),
        ensures
            action@ == old(self)@.action(),
            final(self)@ == old(self)@.acted(),
            final(self)@.well_formed(),
    {
        let at: usize = self.reports.len();
        let total: usize = self.targets.len();
        match self.stage {
            BatchStage::Fresh => {
                self.stage = BatchStage::Idle;
                BatchAction::Tell(Progress { done: at, total, session_id: None, report: None })
            },
            BatchStage::Idle => {
                if at < total {
                    self.stage = BatchStage::Announced;
                    let session_id = Some(self.targets[at].session_id.clone());
                    BatchAction::Tell(Progress { done: at, total, session_id, report: None })
                } else {
                    BatchAction::Finish
                }
            },
            BatchStage::Announced => {
                BatchAction::Clone {
                    request: SwitchRequest {
                        session_id: self.targets[at].session_id.clone(),
                        target_provider: Some(self.provider.clone()),
                        strategy: self.strategy,
                        dry_run: self.dry_run,
                    },
                    rollout_path: self.targets[at].rollout_path.clone(),
                }
            },
        }
    }
}

/// Notes what became of the next session of a batch, and tells how far the batch then is.
pub fn batch_clone_for_current_provider_with_progress(
    batch: &mut CloneBatch,
    outcome: Result<CloneReport, AppError>,
) -> (progress: Progress)
    requires
        old(batch)@.reports.len() < old(batch)@.targets.len(),
    ensures
        final(batch)@ == old(batch)@.after(clone_outcome(outcome)),
        final(batch)@.well_formed(),
        progress@ == final(batch)@.noted(),
{
    let ghost before = batch@;
    let at: usize = batch.reports.len();
    let report = match outcome {
        Ok(report) => report,
        Err(error) => failed_report(
            batch.targets[at].session_id.as_str(),
            batch.provider.as_str(),
            error.message().as_str(),
        ),
    };
    let told = report.copy();
    batch.reports.push(report);
    batch.stage = BatchStage::Idle;
    assert(reports_view(batch.reports@) =~= before.reports.push(told@));
    assert(batch@ =~= before.after(clone_outcome(outcome)));
    Progress {
        done: batch.reports.len(),
        total: batch.targets.len(),
        session_id: None,
        report: Some(told),
    }
}

/// A batch after some of its sessions were tried, one after the other, with all that it told
/// up to then.
pub open spec fn batch_run(batch: BatchView, outcomes: Seq<Result<CloneView, ErrorView>>) -> (
    BatchView,
    Seq<ProgressView>,
)
    decreases outcomes.len(),
{
    if outcomes.len() == 0 {
        (batch.acted(), seq![batch.action()->Tell_0])
    } else {
        let (before, told) = batch_run(batch, outcomes.drop_last());
        let after = before.acted().after(outcomes.last());
        (after, told.push(before.action()->Tell_0).push(after.noted()))
    }
}

/// A batch gives one report on each session, in their order, whatever becomes of the others:
/// a failure stops nothing.
pub proof fn law_batch_reports_on_each_session(
    batch: BatchView,
    outcomes: Seq<Result<CloneView, ErrorView>>,
)
    requires
        batch.stage == BatchStage::Fresh,
        batch.reports.len() == 0,
        outcomes.len() <= batch.targets.len(),
    ensures
        batch_run(batch, outcomes).0.targets == batch.targets,
        batch_run(batch, outcomes).0.provider == batch.provider,
        batch_run(batch, outcomes).0.strategy == batch.strategy,
        batch_run(batch, outcomes).0.dry_run == batch.dry_run,
        batch_run(batch, outcomes).0.stage == BatchStage::Idle,
        batch_run(batch, outcomes).0.reports.len() == outcomes.len(),
        forall|i: int|
            0 <= i < outcomes.len() ==> #[trigger] batch_run(batch, outcomes).0.reports[i]
                == settled(batch.targets[i].session_id, batch.provider, outcomes[i]),
    decreases outcomes.len(),
{
    if outcomes.len() > 0 {
        law_batch_reports_on_each_session(batch, outcomes.drop_last());
    }
}

/// What the tries of a batch give, each for the session that comes next.
pub open spec fn try_outcomes(batch: BatchView, tries: Seq<TryView>) -> Seq<
    Result<CloneView, ErrorView>,
> {
    Seq::new(tries.len(), |i: int| switch_outcome(batch.request(i), tries[i]))
}

/// The reports of a batch are on its sessions, in their order. A try that gave an error is
/// reported as failed, with its text and no new session.
pub proof fn law_batch_reports_name_their_session(batch: BatchView, tries: Seq<TryView>)
    requires
        batch.stage == BatchStage::Fresh,
        batch.reports.len() == 0,
        tries.len() <= batch.targets.len(),
    ensures
        ({
            let reports = batch_run(batch, try_outcomes(batch, tries)).0.reports;
            &&& reports.len() == tries.len()
            &&& forall|i: int|
                0 <= i < tries.len() ==> (#[trigger] reports[i]).source_id
                    == batch.targets[i].session_id
            &&& forall|i: int|
                0 <= i < tries.len() ==> (switch_outcome(
                    batch.request(i),
                    #[trigger] tries[i],
                ) matches Err(error) ==> !reports[i].ok && reports[i].new_id is None
                    && reports[i].error == Some(error_text(error)))
        }),
{
    let outcomes = try_outcomes(batch, tries);
    law_batch_reports_on_each_session(batch, outcomes);
    let reports = batch_run(batch, outcomes).0.reports;
    assert forall|i: int| 0 <= i < tries.len() implies (#[trigger] reports[i]).source_id
        == batch.targets[i].session_id by {
        assert(outcomes[i] == switch_outcome(batch.request(i), tries[i]));
        law_reports_name_their_session(batch.request(i), tries[i]);
    }
    assert forall|i: int| 0 <= i < tries.len() implies (switch_outcome(
        batch.request(i),
        #[trigger] tries[i],
    ) matches Err(error) ==> !reports[i].ok && reports[i].new_id is None && reports[i].error
        == Some(error_text(error))) by {
        assert(outcomes[i] == switch_outcome(batch.request(i), tries[i]));
    }
}

/// A batch tells how far it is once at its start, and then twice for each session: that it comes
/// next, and what became of it. The session that it told is the one that is tried, and the
/// batch is over when all were.
pub proof fn law_batch_progress(
    batch: BatchView,
    outcomes: Seq<Result<CloneView, ErrorView>>,
)
    requires
        batch.stage == BatchStage::Fresh,
        batch.reports.len() == 0,
        outcomes.len() <= batch.targets.len(),
    ensures
        ({
            let (after, told) = batch_run(batch, outcomes);
            let total = batch.targets.len();
            &&& told.len() == 2 * outcomes.len() + 1
            &&& told[0] == (ProgressView { done: 0, total, session_id: None, report: None })
            &&& forall|i: int|
                0 <= i < outcomes.len() ==> #[trigger] told[2 * i + 1] == (ProgressView {
                    done: i as nat,
                    total,
                    session_id: Some(batch.targets[i].session_id),
                    report: None,
                })
            &&& forall|i: int|
                0 <= i < outcomes.len() ==> #[trigger] told[2 * i + 2] == (ProgressView {
                    done: (i + 1) as nat,
                    total,
                    session_id: None,
                    report: Some(
                        settled(batch.targets[i].session_id, batch.provider, outcomes[i]),
                    ),
                })
            &&& if outcomes.len() < total {
                &&& after.action() is Tell
                &&& after.acted().action() == (BatchActionView::Clone {
                    request: batch.request(outcomes.len() as int),
                    rollout_path: batch.targets[outcomes.len() as int].rollout_path,
                })
            } else {
                after.action() is Finish
            }
        }),
    decreases outcomes.len(),
{
    law_batch_reports_on_each_session(batch, outcomes);
    if outcomes.len() > 0 {
        let rest = outcomes.drop_last();
        law_batch_progress(batch, rest);
        law_batch_reports_on_each_session(batch, rest);
        let (before, earlier) = batch_run(batch, rest);
        let (after, told) = batch_run(batch, outcomes);
        let last = rest.len() as int;
        assert(told[2 * last + 1] == before.action()->Tell_0);
        assert(told[2 * last + 2] == after.noted());
        assert forall|i: int| 0 <= i < outcomes.len() implies #[trigger] told[2 * i + 1] == (
        ProgressView {
            done: i as nat,
            total: batch.targets.len(),
            session_id: Some(batch.targets[i].session_id),
            report: None,
        }) by {
            if i < last {
                assert(told[2 * i + 1] == earlier[2 * i + 1]);
            }
        }
        assert forall|i: int| 0 <= i < outcomes.len() implies #[trigger] told[2 * i + 2] == (
        ProgressView {
            done: (i + 1) as nat,
            total: batch.targets.len(),
            session_id: None,
            report: Some(settled(batch.targets[i].session_id, batch.provider, outcomes[i])),
        }) by {
            if i < last {
                assert(told[2 * i + 2] == earlier[2 * i + 2]);
                assert(rest[i] == outcomes[i]);
            }
        }
    }
}

/// A batch asks for each of its sessions to be brought to its provider, in its own way, and for a
/// rehearsal just where it is one itself.
pub proof fn law_batch_asks_for_its_provider(batch: BatchView, at: int)
    requires
        0 <= at < batch.targets.len(),
    ensures
        batch.request(at).session_id == batch.targets[at].session_id,
        batch.request(at).target_provider == Some(batch.provider),
        batch.request(at).strategy == batch.strategy,
        batch.request(at).dry_run == batch.dry_run,
{
}

/// Where a session could not be brought to the provider, its report says so: it names the session,
/// the provider and the error, and no new session. A report that was made is kept as it is.
pub proof fn law_failures_are_reported(
    session_id: Seq<char>,
    provider: Seq<char>,
    outcome: Result<CloneView, ErrorView>,
)
    ensures
        outcome matches Ok(report) ==> settled(session_id, provider, outcome) == report,
        outcome matches Err(error) ==> {
            let report = settled(session_id, provider, outcome);
            &&& !report.ok
            &&& report.source_id == session_id
            &&& report.new_provider == provider
            &&& report.new_id is None
            &&& report.error == Some(error_text(error))
        },
{
}

} // verus!
