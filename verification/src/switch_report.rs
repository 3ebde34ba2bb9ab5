//! What is reported of a session that was to be brought to a provider, once the decision on it was
//! carried out.

use vstd::prelude::*;

use crate::error::{bool_outcome, AppError, ErrorView};
use crate::rollout::{BriefView, RolloutBrief};
use crate::switch::{
    chosen_provider, clone_outcome, done_report, done_view, existing_report, existing_view,
    switch_decision, CloneReport, CloneView, DecisionView, SwitchDecision, SwitchFactsView,
    SwitchRequestView,
};
use crate::switch_steps::{
    copy_verdict, report_visibility, visibility_outcome, CopyFactsView, CopyOutcomeView,
};

verus! {

/// What came of carrying a decision out. `usable` tells whether a session that was made visible
/// can then be used; `new_id` and `new_path` name a session that was copied or forked, and its
/// rollout.
pub struct SwitchWork {
    pub usable: Result<bool, AppError>,
    pub new_id: String,
    pub new_path: String,
}

/// What a [`SwitchWork`] holds.
#[verifier::ext_equal]
pub struct WorkView {
    pub usable: Result<bool, ErrorView>,
    pub new_id: Seq<char>,
    pub new_path: Seq<char>,
}

impl View for SwitchWork {
    type V = WorkView;

    open spec fn view(&self) -> WorkView {
        WorkView {
            usable: bool_outcome(self.usable),
            new_id: self.new_id@,
            new_path: self.new_path@,
        }
    }
}

/// What the outcome of carrying a decision out holds.
pub open spec fn work_outcome(work: Result<SwitchWork, AppError>) -> Result<WorkView, ErrorView> {
    match work {
        Ok(work) => Ok(work@),
        Err(error) => Err(error@),
    }
}

/// What is reported of a decision that was carried out: on a session that was rewritten, that it
/// became itself; on one that was copied or forked, the new session.
pub open spec fn carried_out(
    session_id: Seq<char>,
    provider: Seq<char>,
    source: BriefView,
    decision: DecisionView,
    work: Result<WorkView, ErrorView>,
    deferred: bool,
) -> Result<CloneView, ErrorView> {
    match decision {
        DecisionView::Finished(report) => Ok(report),
        _ => match work {
            Err(error) => Err(error),
            Ok(work) => match decision {
                DecisionView::Finished(report) => Ok(report),
                DecisionView::RepairVisibility => visibility_outcome(
                    session_id,
                    provider,
                    work.usable,
                    deferred,
                ),
                DecisionView::UseExisting { branch_id } => Ok(
                    existing_view(session_id, provider, branch_id, deferred),
                ),
                DecisionView::RewriteInPlace => Ok(
                    done_view(session_id, provider, source.id, source.path, deferred),
                ),
                DecisionView::ForkOfficially => Ok(
                    done_view(session_id, provider, work.new_id, work.new_path, deferred),
                ),
                DecisionView::CopyRollout { .. } => Ok(
                    done_view(session_id, provider, work.new_id, work.new_path, deferred),
                ),
            },
        },
    }
}

/// Reports on a decision that was carried out.
pub fn report_switch(
    session_id: &str,
    provider: &str,
    source: &RolloutBrief,
    decision: SwitchDecision,
    work: Result<SwitchWork, AppError>,
    deferred: bool,
) -> (report: Result<CloneReport, AppError>)
    ensures
        clone_outcome(report) == carried_out(
            session_id@,
            provider@,
            source@,
            decision@,
            work_outcome(work),
            deferred,
        ),
{
    if let SwitchDecision::Finished(report) = decision {
        return Ok(report);
    }
    let work = match work {
        Ok(work) => work,
        Err(error) => return Err(error),
    };
    match decision {
        SwitchDecision::Finished(report) => Ok(report),
        SwitchDecision::RepairVisibility => report_visibility(
            session_id,
            provider,
            work.usable,
            deferred,
        ),
        SwitchDecision::UseExisting { branch_id } => Ok(
            existing_report(session_id, provider, branch_id.as_str(), deferred),
        ),
        SwitchDecision::RewriteInPlace => Ok(
            done_report(
                session_id,
                provider,
                source.id.as_str(),
                source.path.as_str(),
                deferred,
            ),
        ),
        SwitchDecision::ForkOfficially => Ok(
            done_report(
                session_id,
                provider,
                work.new_id.as_str(),
                work.new_path.as_str(),
                deferred,
            ),
        ),
        SwitchDecision::CopyRollout { .. } => Ok(
            done_report(
                session_id,
                provider,
                work.new_id.as_str(),
                work.new_path.as_str(),
                deferred,
            ),
        ),
    }
}

/// All that a try to bring a session to a provider finds: what is learned for the decision, what
/// is learned for a copy, and what comes of carrying the decision out.
#[verifier::ext_equal]
pub struct TryView {
    pub facts: SwitchFactsView,
    pub copy: CopyFactsView,
    pub work: Result<WorkView, ErrorView>,
}

/// What a try to bring a session to a provider gives: a refusal, the report where nothing is left
/// to do, or the report on the decision that was carried out. A copy is of the session and the
/// rollout that were chosen before its checks.
pub open spec fn switch_outcome(request: SwitchRequestView, found: TryView) -> Result<
    CloneView,
    ErrorView,
> {
    match switch_decision(request, found.facts) {
        Err(error) => Err(error),
        Ok(DecisionView::Finished(report)) => Ok(report),
        Ok(decision) => {
            let provider = chosen_provider(request.target_provider, found.facts.configured)->Ok_0;
            let source = found.facts.source->Ok_0->Some_0;
            let deferred = found.facts.desktop_running;
            match decision {
                DecisionView::CopyRollout { archive } => match copy_verdict(
                    request,
                    provider,
                    archive,
                    found.copy,
                ) {
                    Err(error) => Err(error),
                    Ok(CopyOutcomeView::Finished(report)) => Ok(report),
                    Ok(CopyOutcomeView::Proceed { .. }) => carried_out(
                        request.session_id,
                        provider,
                        source,
                        decision,
                        match found.work {
                            Err(error) => Err(error),
                            Ok(work) => Ok(
                                WorkView {
                                    new_id: found.copy.new_id,
                                    new_path: found.copy.new_path,
                                    ..work
                                },
                            ),
                        },
                        deferred,
                    ),
                },
                _ => carried_out(
                    request.session_id,
                    provider,
                    source,
                    decision,
                    found.work,
                    deferred,
                ),
            }
        },
    }
}

/// Whatever is decided and whatever comes of it, a report is on the session that was asked for and
/// on the provider that it was to be brought to.
pub proof fn law_reports_name_their_session(request: SwitchRequestView, found: TryView)
    ensures
        switch_outcome(request, found) matches Ok(report) ==> report.source_id
            == request.session_id && Ok::<Seq<char>, ErrorView>(report.new_provider)
            == chosen_provider(request.target_provider, found.facts.configured),
{
}

/// A report that is not on a success tells why, and names no new session.
pub proof fn law_failures_are_explained(request: SwitchRequestView, found: TryView)
    ensures
        switch_outcome(request, found) matches Ok(report) ==> (report.ok <==> report.error is None)
            && (!report.ok ==> report.new_id is None && report.new_rollout_path is None),
{
}

/// A switch that failed is told as failed, and one that did nothing tells what was found: the outcome
/// is never better than the work.
pub proof fn law_failed_work_is_told(
    session_id: Seq<char>,
    provider: Seq<char>,
    source: BriefView,
    decision: DecisionView,
    work: Result<WorkView, ErrorView>,
    deferred: bool,
)
    ensures
        decision matches DecisionView::Finished(report) ==> carried_out(
            session_id,
            provider,
            source,
            decision,
            work,
            deferred,
        ) == Ok::<CloneView, ErrorView>(report),
        !(decision is Finished) ==> (work matches Err(error) ==> carried_out(
            session_id,
            provider,
            source,
            decision,
            work,
            deferred,
        ) == Err::<CloneView, ErrorView>(error)),
{
}

/// What a switch that was carried out leaves in use: the session itself where its rollout was
/// rewritten, the branch that was there where that one serves, and else the new session.
pub proof fn law_reports_tell_what_is_in_use(
    session_id: Seq<char>,
    provider: Seq<char>,
    source: BriefView,
    decision: DecisionView,
    work: WorkView,
    deferred: bool,
)
    ensures
        carried_out(
            session_id,
            provider,
            source,
            decision,
            Ok::<WorkView, ErrorView>(work),
            deferred,
        ) matches Ok(report) ==> {
            &&& decision is RewriteInPlace ==> report.ok && report.new_id == Some(source.id)
                && report.new_rollout_path == Some(source.path)
            &&& decision is ForkOfficially || decision is CopyRollout ==> report.ok && report.new_id
                == Some(work.new_id) && report.new_rollout_path == Some(work.new_path)
            &&& decision matches DecisionView::UseExisting { branch_id } ==> report.ok
                && report.new_id == Some(branch_id)
        },
        decision is RepairVisibility && work.usable == Ok::<bool, ErrorView>(false) ==> !(carried_out(
            session_id,
            provider,
            source,
            decision,
            Ok::<WorkView, ErrorView>(work),
            deferred,
        ) matches Ok(report) && report.ok),
{
}

} // verus!
