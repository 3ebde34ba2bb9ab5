//! Bringing a session to another provider: what has to be done for it, and in which steps.

use vstd::prelude::*;

use crate::error::{text_outcome, unit_outcome, AppError, ErrorView};
use crate::provider_sync::{
    branch_usable, find_sync_branch, find_usable_branch, first_usable, sync_branch_of,
    sync_branches_view, SyncBranch, SyncBranchView, SyncFamily, SyncFamilyView, SyncState,
    SyncStateView,
};
use crate::rollout::{BriefView, RolloutBrief};
use crate::text::{copy_opt, join2, join4, opt_text, same, trim, trimmed};

verus! {

// ---------------------------------------------------------------------------
// Requests and reports
// ---------------------------------------------------------------------------

/// How a session is brought to another provider.
#[derive(Clone, Copy, PartialEq, Eq, Structural)]
pub enum SwitchStrategy {
    /// Its rollout is rewritten.
    Follow,
    /// A copy of its rollout takes its place; the rollout stays where it is.
    Scatter,
    /// A copy of its rollout takes its place; the rollout is archived.
    Continuous,
}

/// What became of bringing a session to a provider.
pub struct CloneReport {
    pub source_id: String,
    pub new_id: Option<String>,
    pub new_rollout_path: Option<String>,
    pub new_provider: String,
    pub desktop_restart_required: bool,
    pub ok: bool,
    pub skipped_reason: Option<String>,
    pub error: Option<String>,
}

/// What a [`CloneReport`] holds.
#[verifier::ext_equal]
pub struct CloneView {
    pub source_id: Seq<char>,
    pub new_id: Option<Seq<char>>,
    pub new_rollout_path: Option<Seq<char>>,
    pub new_provider: Seq<char>,
    pub desktop_restart_required: bool,
    pub ok: bool,
    pub skipped_reason: Option<Seq<char>>,
    pub error: Option<Seq<char>>,
}

impl View for CloneReport {
    type V = CloneView;

    open spec fn view(&self) -> CloneView {
        CloneView {
            source_id: self.source_id@,
            new_id: opt_text(self.new_id),
            new_rollout_path: opt_text(self.new_rollout_path),
            new_provider: self.new_provider@,
            desktop_restart_required: self.desktop_restart_required,
            ok: self.ok,
            skipped_reason: opt_text(self.skipped_reason),
            error: opt_text(self.error),
        }
    }
}

impl CloneReport {
    /// A report that holds the same.
    pub fn copy(&self) -> (report: CloneReport)
        ensures
            report@ == self@,
    {
        CloneReport {
            source_id: self.source_id.clone(),
            new_id: copy_opt(&self.new_id),
            new_rollout_path: copy_opt(&self.new_rollout_path),
            new_provider: self.new_provider.clone(),
            desktop_restart_required: self.desktop_restart_required,
            ok: self.ok,
            skipped_reason: copy_opt(&self.skipped_reason),
            error: copy_opt(&self.error),
        }
    }
}

/// What the outcome of bringing a session to a provider holds.
pub open spec fn clone_outcome(outcome: Result<CloneReport, AppError>) -> Result<
    CloneView,
    ErrorView,
> {
    match outcome {
        Ok(report) => Ok(report@),
        Err(error) => Err(error@),
    }
}

/// A report on a failure.
pub open spec fn failed_view(
    source_id: Seq<char>,
    provider: Seq<char>,
    error: Seq<char>,
) -> CloneView {
    CloneView {
        source_id,
        new_id: None,
        new_rollout_path: None,
        new_provider: provider,
        desktop_restart_required: false,
        ok: false,
        skipped_reason: None,
        error: Some(error),
    }
}

/// A report on a success that made no session.
pub open spec fn skipped_view(
    source_id: Seq<char>,
    provider: Seq<char>,
    reason: Seq<char>,
    restart: bool,
) -> CloneView {
    CloneView {
        source_id,
        new_id: None,
        new_rollout_path: None,
        new_provider: provider,
        desktop_restart_required: restart,
        ok: true,
        skipped_reason: Some(reason),
        error: None,
    }
}

/// A report on a session that was brought to a provider.
pub open spec fn done_view(
    source_id: Seq<char>,
    provider: Seq<char>,
    new_id: Seq<char>,
    path: Seq<char>,
    restart: bool,
) -> CloneView {
    CloneView {
        source_id,
        new_id: Some(new_id),
        new_rollout_path: Some(path),
        new_provider: provider,
        desktop_restart_required: restart,
        ok: true,
        skipped_reason: None,
        error: None,
    }
}

/// A report on a family that has a branch for the provider already.
pub open spec fn existing_view(
    source_id: Seq<char>,
    provider: Seq<char>,
    branch_id: Seq<char>,
    restart: bool,
) -> CloneView {
    CloneView {
        new_id: Some(branch_id),
        ..skipped_view(source_id, provider, "目标 provider 已有可用分支"@, restart)
    }
}

/// A report on a failure.
pub fn failed_report(source_id: &str, provider: &str, error: &str) -> (report: CloneReport)
    ensures
        report@ == failed_view(source_id@, provider@, error@),
{
    CloneReport {
        source_id: source_id.to_owned(),
        new_id: None,
        new_rollout_path: None,
        new_provider: provider.to_owned(),
        desktop_restart_required: false,
        ok: false,
        skipped_reason: None,
        error: Some(error.to_owned()),
    }
}

/// A report on a success that made no session.
pub fn skipped_report(source_id: &str, provider: &str, reason: &str, restart: bool) -> (report:
    CloneReport)
    ensures
        report@ == skipped_view(source_id@, provider@, reason@, restart),
{
    CloneReport {
        source_id: source_id.to_owned(),
        new_id: None,
        new_rollout_path: None,
        new_provider: provider.to_owned(),
        desktop_restart_required: restart,
        ok: true,
        skipped_reason: Some(reason.to_owned()),
        error: None,
    }
}

/// A report on a session that was brought to a provider.
pub fn done_report(
    source_id: &str,
    provider: &str,
    new_id: &str,
    path: &str,
    restart: bool,
) -> (report: CloneReport)
    ensures
        report@ == done_view(source_id@, provider@, new_id@, path@, restart),
{
    CloneReport {
        source_id: source_id.to_owned(),
        new_id: Some(new_id.to_owned()),
        new_rollout_path: Some(path.to_owned()),
        new_provider: provider.to_owned(),
        desktop_restart_required: restart,
        ok: true,
        skipped_reason: None,
        error: None,
    }
}

/// A report on a family that has a branch for the provider already.
pub fn existing_report(source_id: &str, provider: &str, branch_id: &str, restart: bool) -> (report:
    CloneReport)
    ensures
        report@ == existing_view(source_id@, provider@, branch_id@, restart),
{
    let mut report = skipped_report(
        source_id,
        provider,
        "目标 provider 已有可用分支",
        restart,
    );
    report.new_id = Some(branch_id.to_owned());
    report
}

// ---------------------------------------------------------------------------
// The decision
// ---------------------------------------------------------------------------

/// A session, the provider that it is to be brought to and how; no provider stands for the
/// configured one.
pub struct SwitchRequest {
    pub session_id: String,
    pub target_provider: Option<String>,
    pub strategy: SwitchStrategy,
    pub dry_run: bool,
}

/// What a [`SwitchRequest`] holds.
#[verifier::ext_equal]
pub struct SwitchRequestView {
    pub session_id: Seq<char>,
    pub target_provider: Option<Seq<char>>,
    pub strategy: SwitchStrategy,
    pub dry_run: bool,
}

impl View for SwitchRequest {
    type V = SwitchRequestView;

    open spec fn view(&self) -> SwitchRequestView {
        SwitchRequestView {
            session_id: self.session_id@,
            target_provider: opt_text(self.target_provider),
            strategy: self.strategy,
            dry_run: self.dry_run,
        }
    }
}

/// What was learned for a switch: the configured provider, what the rollout of the session
/// says, the family of the session, the threads and the session index, whether Desktop runs
/// and is found not to run when asked again, and whether the state database is there.
pub struct SwitchFacts {
    pub configured: Result<String, AppError>,
    pub source: Result<Option<RolloutBrief>, AppError>,
    pub family: Option<SyncFamily>,
    pub state: Result<SyncState, AppError>,
    pub desktop_running: bool,
    pub desktop: Result<(), AppError>,
    pub state_db: Result<(), AppError>,
}

/// What [`SwitchFacts`] hold.
#[verifier::ext_equal]
pub struct SwitchFactsView {
    pub configured: Result<Seq<char>, ErrorView>,
    pub source: Result<Option<BriefView>, ErrorView>,
    pub family: Option<SyncFamilyView>,
    pub state: Result<SyncStateView, ErrorView>,
    pub desktop_running: bool,
    pub desktop: Result<(), ErrorView>,
    pub state_db: Result<(), ErrorView>,
}

/// What an optional brief holds.
pub open spec fn opt_brief(brief: Option<RolloutBrief>) -> Option<BriefView> {
    match brief {
        Some(brief) => Some(brief@),
        None => None,
    }
}

impl View for SwitchFacts {
    type V = SwitchFactsView;

    open spec fn view(&self) -> SwitchFactsView {
        SwitchFactsView {
            configured: text_outcome(self.configured),
            source: match self.source {
                Ok(brief) => Ok(opt_brief(brief)),
                Err(error) => Err(error@),
            },
            family: match self.family {
                Some(family) => Some(family@),
                None => None,
            },
            state: match self.state {
                Ok(state) => Ok(state@),
                Err(error) => Err(error@),
            },
            desktop_running: self.desktop_running,
            desktop: unit_outcome(self.desktop),
            state_db: unit_outcome(self.state_db),
        }
    }
}

/// What has to be done to bring a session to a provider.
pub enum SwitchDecision {
    /// Nothing.
    Finished(CloneReport),
    /// The session has the provider: its thread and its entry in the index are written anew.
    RepairVisibility,
    /// A branch of the family serves the provider.
    UseExisting { branch_id: String },
    /// Codex itself has to fork the session.
    ForkOfficially,
    /// The rollout is rewritten.
    RewriteInPlace,
    /// The rollout is copied, and put away afterwards where `archive` says so.
    CopyRollout { archive: bool },
}

/// What a [`SwitchDecision`] holds.
#[verifier::ext_equal]
pub enum DecisionView {
    Finished(CloneView),
    RepairVisibility,
    UseExisting { branch_id: Seq<char> },
    ForkOfficially,
    RewriteInPlace,
    CopyRollout { archive: bool },
}

impl View for SwitchDecision {
    type V = DecisionView;

    open spec fn view(&self) -> DecisionView {
        match *self {
            SwitchDecision::Finished(report) => DecisionView::Finished(report@),
            SwitchDecision::RepairVisibility => DecisionView::RepairVisibility,
            SwitchDecision::UseExisting { branch_id } => DecisionView::UseExisting {
                branch_id: branch_id@,
            },
            SwitchDecision::ForkOfficially => DecisionView::ForkOfficially,
            SwitchDecision::RewriteInPlace => DecisionView::RewriteInPlace,
            SwitchDecision::CopyRollout { archive } => DecisionView::CopyRollout { archive },
        }
    }
}

/// What a decision or a refusal holds.
pub open spec fn decision_outcome(outcome: Result<SwitchDecision, AppError>) -> Result<
    DecisionView,
    ErrorView,
> {
    match outcome {
        Ok(decision) => Ok(decision@),
        Err(error) => Err(error@),
    }
}

/// The provider that a session is to be brought to.
pub open spec fn chosen_provider(
    requested: Option<Seq<char>>,
    configured: Result<Seq<char>, ErrorView>,
) -> Result<Seq<char>, ErrorView> {
    match configured {
        Err(error) => Err(error),
        Ok(configured) => match requested {
            None => Ok(configured),
            Some(requested) => if trimmed(requested).len() == 0 {
                Err(ErrorView::Other("目标 provider 不能为空"@))
            } else {
                Ok(trimmed(requested))
            },
        },
    }
}

/// The provider that a session is to be brought to.
pub fn resolve_target_provider(
    requested: &Option<String>,
    configured: &Result<String, AppError>,
) -> (provider: Result<String, AppError>)
    ensures
        text_outcome(provider) == chosen_provider(opt_text(*requested), text_outcome(*configured)),
{
    let configured = match configured {
        Ok(configured) => configured,
        Err(error) => return Err(error.copy()),
    };
    match requested {
        None => Ok(configured.clone()),
        Some(requested) => {
            let provider = trim(requested.as_str());
            if provider.as_str().is_empty() {
                Err(AppError::Other("目标 provider 不能为空".to_owned()))
            } else {
                Ok(provider)
            }
        },
    }
}

/// The active branch of a family.
pub open spec fn active_branch(family: Option<SyncFamilyView>) -> Option<SyncBranchView> {
    match family {
        Some(family) => sync_branch_of(family.branches, family.active_id),
        None => None,
    }
}

/// The branch of a family that serves a provider. The threads and the index are looked at
/// only where a branch names the provider.
pub open spec fn serving_branch(
    facts: SwitchFactsView,
    provider: Seq<char>,
) -> Result<Option<SyncBranchView>, ErrorView> {
    match facts.family {
        None => Ok(None),
        Some(family) => if exists|i: int|
            0 <= i < family.branches.len() && (#[trigger] family.branches[i]).provider == provider {
            match facts.state {
                Err(error) => Err(error),
                Ok(state) => first_usable(state, family.branches, provider),
            }
        } else {
            Ok(None)
        },
    }
}

/// The decision on a session that belongs to the provider already.
pub open spec fn decision_at_home(
    request: SwitchRequestView,
    facts: SwitchFactsView,
    provider: Seq<char>,
    source: BriefView,
) -> Result<DecisionView, ErrorView> {
    if source.history_mode == "paginated"@ {
        Ok(
            DecisionView::Finished(
                skipped_view(
                    request.session_id,
                    provider,
                    "分页会话（paginated）已属于当前 provider，跳过本地索引可见性修复以保留 Codex App 指向延续文件的记录"@,
                    false,
                ),
            ),
        )
    } else if request.dry_run {
        Ok(
            DecisionView::Finished(
                skipped_view(
                    request.session_id,
                    provider,
                    "dry_run: 将复核并修复本地索引可见性"@,
                    false,
                ),
            ),
        )
    } else if facts.state_db is Err {
        Err(facts.state_db->Err_0)
    } else {
        Ok(DecisionView::RepairVisibility)
    }
}

/// The decision on a session whose history is in pages, where no branch serves the provider.
pub open spec fn decision_on_pages(request: SwitchRequestView, provider: Seq<char>) -> Result<
    DecisionView,
    ErrorView,
> {
    match request.strategy {
        SwitchStrategy::Continuous => Err(
            ErrorView::Other(
                "分页会话不支持连续模式；请选择散点模式（scatter），通过 Codex 官方派生保留完整历史，可在 Codex App 运行时执行"@,
            ),
        ),
        SwitchStrategy::Follow => Err(
            ErrorView::Other(
                "分页会话不支持跟随（follow）模式：就地改写只会命中存根或延续文件之一，且会按单文件回写 threads 索引；请选择散点模式（scatter），通过 Codex 官方派生保留完整历史"@,
            ),
        ),
        SwitchStrategy::Scatter => if request.dry_run {
            Ok(
                DecisionView::Finished(
                    skipped_view(
                        request.session_id,
                        provider,
                        "dry_run: 将通过 Codex 官方 thread/fork 同步分页会话"@,
                        false,
                    ),
                ),
            )
        } else {
            Ok(DecisionView::ForkOfficially)
        },
    }
}

/// Why the rollout of the session must not be changed, if it is so.
pub open spec fn source_locked(
    request: SwitchRequestView,
    facts: SwitchFactsView,
) -> Result<(), ErrorView> {
    if request.dry_run || request.strategy == SwitchStrategy::Scatter {
        Ok(())
    } else if facts.desktop_running {
        Err(
            ErrorView::Other(
                "follow/continuous provider 切换会改写或移动当前 rollout；Codex/ChatGPT 桌面应用正在运行，请完全退出后重试"@,
            ),
        )
    } else {
        facts.desktop
    }
}

/// The decision on a session whose history is in one file, where no branch serves the
/// provider.
pub open spec fn decision_on_file(
    request: SwitchRequestView,
    facts: SwitchFactsView,
    provider: Seq<char>,
) -> Result<DecisionView, ErrorView> {
    match source_locked(request, facts) {
        Err(error) => Err(error),
        Ok(()) => match request.strategy {
            SwitchStrategy::Scatter => Ok(DecisionView::CopyRollout { archive: false }),
            SwitchStrategy::Continuous => Ok(DecisionView::CopyRollout { archive: true }),
            SwitchStrategy::Follow => if request.dry_run {
                Ok(
                    DecisionView::Finished(
                        skipped_view(
                            request.session_id,
                            provider,
                            "dry_run: follow 模式将就地改写 provider"@,
                            false,
                        ),
                    ),
                )
            } else if facts.state_db is Err {
                Err(facts.state_db->Err_0)
            } else {
                Ok(DecisionView::RewriteInPlace)
            },
        },
    }
}

/// The decision on a session that was found.
pub open spec fn decision_on_source(
    request: SwitchRequestView,
    facts: SwitchFactsView,
    provider: Seq<char>,
    source: BriefView,
) -> Result<DecisionView, ErrorView> {
    let active = active_branch(facts.family);
    if active is Some && active->Some_0.id != request.session_id {
        Err(
            ErrorView::Other(
                "provider 切换只能操作 family 当前 active 分支：当前 active="@
                    + active->Some_0.id + "，请求会话="@ + request.session_id,
            ),
        )
    } else if active is Some && active->Some_0.provider == provider {
        decision_at_home(request, facts, provider, source)
    } else {
        match serving_branch(facts, provider) {
            Err(error) => Err(error),
            Ok(Some(branch)) => if request.dry_run {
                Ok(
                    DecisionView::Finished(
                        existing_view(request.session_id, provider, branch.id, false),
                    ),
                )
            } else {
                Ok(DecisionView::UseExisting { branch_id: branch.id })
            },
            Ok(None) => if source.history_mode == "paginated"@ {
                decision_on_pages(request, provider)
            } else {
                decision_on_file(request, facts, provider)
            },
        }
    }
}

/// What has to be done to bring a session to a provider.
pub open spec fn switch_decision(request: SwitchRequestView, facts: SwitchFactsView) -> Result<
    DecisionView,
    ErrorView,
> {
    match chosen_provider(request.target_provider, facts.configured) {
        Err(error) => Err(error),
        Ok(provider) => match facts.source {
            Err(error) => Err(error),
            Ok(None) => Ok(
                DecisionView::Finished(
                    failed_view(
                        request.session_id,
                        provider,
                        "未在 sessions/ 中找到 id="@ + request.session_id,
                    ),
                ),
            ),
            Ok(Some(source)) => if source.id != request.session_id {
                Err(
                    ErrorView::Other(
                        "provider 同步计划路径与会话 ID 不一致: 期望 "@ + request.session_id
                            + "，实际 "@ + source.id,
                    ),
                )
            } else {
                decision_on_source(request, facts, provider, source)
            },
        },
    }
}

fn decide_at_home(
    request: &SwitchRequest,
    facts: &SwitchFacts,
    provider: &str,
    source: &RolloutBrief,
) -> (decision: Result<SwitchDecision, AppError>)
    ensures
        decision_outcome(decision) == decision_at_home(request@, facts@, provider@, source@),
{
    let id = request.session_id.as_str();
    if same(source.history_mode.as_str(), "paginated") {
        return Ok(
            SwitchDecision::Finished(
                skipped_report(
                    id,
                    provider,
                    "分页会话（paginated）已属于当前 provider，跳过本地索引可见性修复以保留 Codex App 指向延续文件的记录",
                    false,
                ),
            ),
        );
    }
    if request.dry_run {
        return Ok(
            SwitchDecision::Finished(
                skipped_report(
                    id,
                    provider,
                    "dry_run: 将复核并修复本地索引可见性",
                    false,
                ),
            ),
        );
    }
    match &facts.state_db {
        Err(error) => Err(error.copy()),
        Ok(()) => Ok(SwitchDecision::RepairVisibility),
    }
}

fn decide_on_pages(request: &SwitchRequest, provider: &str) -> (decision: Result<
    SwitchDecision,
    AppError,
>)
    ensures
        decision_outcome(decision) == decision_on_pages(request@, provider@),
{
    match request.strategy {
        SwitchStrategy::Continuous => Err(
            AppError::Other(
                "分页会话不支持连续模式；请选择散点模式（scatter），通过 Codex 官方派生保留完整历史，可在 Codex App 运行时执行".to_owned(),
            ),
        ),
        SwitchStrategy::Follow => Err(
            AppError::Other(
                "分页会话不支持跟随（follow）模式：就地改写只会命中存根或延续文件之一，且会按单文件回写 threads 索引；请选择散点模式（scatter），通过 Codex 官方派生保留完整历史".to_owned(),
            ),
        ),
        SwitchStrategy::Scatter => if request.dry_run {
            Ok(
                SwitchDecision::Finished(
                    skipped_report(
                        request.session_id.as_str(),
                        provider,
                        "dry_run: 将通过 Codex 官方 thread/fork 同步分页会话",
                        false,
                    ),
                ),
            )
        } else {
            Ok(SwitchDecision::ForkOfficially)
        },
    }
}

fn require_free_source(request: &SwitchRequest, facts: &SwitchFacts) -> (outcome: Result<
    (),
    AppError,
>)
    ensures
        unit_outcome(outcome) == source_locked(request@, facts@),
{
    if request.dry_run || request.strategy == SwitchStrategy::Scatter {
        return Ok(());
    }
    if facts.desktop_running {
        return Err(
            AppError::Other(
                "follow/continuous provider 切换会改写或移动当前 rollout；Codex/ChatGPT 桌面应用正在运行，请完全退出后重试".to_owned(),
            ),
        );
    }
    match &facts.desktop {
        Ok(()) => Ok(()),
        Err(error) => Err(error.copy()),
    }
}

fn decide_on_file(request: &SwitchRequest, facts: &SwitchFacts, provider: &str) -> (decision:
    Result<SwitchDecision, AppError>)
    ensures
        decision_outcome(decision) == decision_on_file(request@, facts@, provider@),
{
    if let Err(error) = require_free_source(request, facts) {
        return Err(error);
    }
    match request.strategy {
        SwitchStrategy::Scatter => Ok(SwitchDecision::CopyRollout { archive: false }),
        SwitchStrategy::Continuous => Ok(SwitchDecision::CopyRollout { archive: true }),
        SwitchStrategy::Follow => {
            if request.dry_run {
                return Ok(
                    SwitchDecision::Finished(
                        skipped_report(
                            request.session_id.as_str(),
                            provider,
                            "dry_run: follow 模式将就地改写 provider",
                            false,
                        ),
                    ),
                );
            }
            match &facts.state_db {
                Err(error) => Err(error.copy()),
                Ok(()) => Ok(SwitchDecision::RewriteInPlace),
            }
        },
    }
}

fn names_provider(branches: &Vec<SyncBranch>, provider: &str) -> (named: bool)
    ensures
        named == exists|i: int|
            0 <= i < sync_branches_view(branches@).len() && (#[trigger] sync_branches_view(
                branches@,
            )[i]).provider == provider@,
{
    let ghost all = sync_branches_view(branches@);
    let mut at: usize = 0;
    while at < branches.len()
        invariant
            at <= branches@.len(),
            all == sync_branches_view(branches@),
            forall|i: int| 0 <= i < at ==> (#[trigger] all[i]).provider != provider@,
        decreases branches.len() - at,
    {
        if same(branches[at].provider.as_str(), provider) {
            assert(all[at as int].provider == provider@);
            return true;
        }
        at = at + 1;
    }
    false
}

fn find_serving_branch<'a>(facts: &'a SwitchFacts, provider: &str) -> (found: Result<
    Option<&'a SyncBranch>,
    AppError,
>)
    ensures
        match found {
            Ok(Some(branch)) => serving_branch(facts@, provider@) == Ok::<
                Option<SyncBranchView>,
                ErrorView,
            >(Some(branch@)),
            Ok(None) => serving_branch(facts@, provider@) == Ok::<
                Option<SyncBranchView>,
                ErrorView,
            >(None),
            Err(error) => serving_branch(facts@, provider@) == Err::<
                Option<SyncBranchView>,
                ErrorView,
            >(error@),
        },
{
    let family = match &facts.family {
        Some(family) => family,
        None => return Ok(None),
    };
    if !names_provider(&family.branches, provider) {
        return Ok(None);
    }
    match &facts.state {
        Err(error) => Err(error.copy()),
        Ok(state) => find_usable_branch(state, &family.branches, provider),
    }
}

fn decide_on_source(
    request: &SwitchRequest,
    facts: &SwitchFacts,
    provider: &str,
    source: &RolloutBrief,
) -> (decision: Result<SwitchDecision, AppError>)
    ensures
        decision_outcome(decision) == decision_on_source(request@, facts@, provider@, source@),
{
    let active = match &facts.family {
        Some(family) => find_sync_branch(family, family.active_id.as_str()),
        None => None,
    };
    if let Some(active) = active {
        if !same(active.id.as_str(), request.session_id.as_str()) {
            return Err(
                AppError::Other(
                    join4(
                        "provider 切换只能操作 family 当前 active 分支：当前 active=",
                        active.id.as_str(),
                        "，请求会话=",
                        request.session_id.as_str(),
                    ),
                ),
            );
        }
        if same(active.provider.as_str(), provider) {
            return decide_at_home(request, facts, provider, source);
        }
    }
    match find_serving_branch(facts, provider) {
        Err(error) => Err(error),
        Ok(Some(branch)) => if request.dry_run {
            Ok(
                SwitchDecision::Finished(
                    existing_report(
                        request.session_id.as_str(),
                        provider,
                        branch.id.as_str(),
                        false,
                    ),
                ),
            )
        } else {
            Ok(SwitchDecision::UseExisting { branch_id: branch.id.clone() })
        },
        Ok(None) => if same(source.history_mode.as_str(), "paginated") {
            decide_on_pages(request, provider)
        } else {
            decide_on_file(request, facts, provider)
        },
    }
}

/// Decides what has to be done to bring a session to a provider.
pub fn clone_session_for_provider_with_lock(request: &SwitchRequest, facts: &SwitchFacts) -> (decision:
    Result<SwitchDecision, AppError>)
    ensures
        decision_outcome(decision) == switch_decision(request@, facts@),
{
    let provider = match resolve_target_provider(&request.target_provider, &facts.configured) {
        Ok(provider) => provider,
        Err(error) => return Err(error),
    };
    let source = match &facts.source {
        Err(error) => return Err(error.copy()),
        Ok(None) => {
            let text = join2("未在 sessions/ 中找到 id=", request.session_id.as_str());
            return Ok(
                SwitchDecision::Finished(
                    failed_report(request.session_id.as_str(), provider.as_str(), text.as_str()),
                ),
            );
        },
        Ok(Some(source)) => source,
    };
    if !same(source.id.as_str(), request.session_id.as_str()) {
        return Err(
            AppError::Other(
                join4(
                    "provider 同步计划路径与会话 ID 不一致: 期望 ",
                    request.session_id.as_str(),
                    "，实际 ",
                    source.id.as_str(),
                ),
            ),
        );
    }
    decide_on_source(request, facts, provider.as_str(), source)
}

/// The provider that a session is brought to: the one that was asked for, without white space round
/// it, or else the configured one. A blank one is refused, and so is anything where the configured
/// one cannot be told.
pub proof fn law_which_provider_is_chosen(
    requested: Option<Seq<char>>,
    configured: Result<Seq<char>, ErrorView>,
)
    ensures
        configured matches Err(error) ==> chosen_provider(requested, configured) == Err::<
            Seq<char>,
            ErrorView,
        >(error),
        configured is Ok && requested is None ==> chosen_provider(requested, configured)
            == configured,
        configured is Ok && (requested matches Some(asked) && trimmed(asked).len() > 0)
            ==> chosen_provider(requested, configured) == Ok::<Seq<char>, ErrorView>(
            trimmed(requested->Some_0),
        ),
        configured is Ok && (requested matches Some(asked) && trimmed(asked).len() == 0)
            ==> chosen_provider(requested, configured) is Err,
{
}

/// Whether a switch starts from the active branch of its family: the session was found, states
/// itself, and its family has no other active branch.
pub open spec fn starts_from_head(request: SwitchRequestView, facts: SwitchFactsView) -> bool {
    &&& facts.source matches Ok(Some(source)) && source.id == request.session_id
    &&& active_branch(facts.family) matches Some(active) ==> active.id == request.session_id
}

/// Whether the active branch belongs to a provider already.
pub open spec fn is_at_home(facts: SwitchFactsView, provider: Seq<char>) -> bool {
    active_branch(facts.family) matches Some(active) && active.provider == provider
}

/// Whether Desktop is known not to run.
pub open spec fn desktop_is_closed(facts: SwitchFactsView) -> bool {
    !facts.desktop_running && facts.desktop is Ok
}

/// What is done to bring a session to a provider, where it is no dry run. A session that has the
/// provider is made visible; else a branch that serves the provider is used; else a session in
/// pages is forked by Codex, and one in a single file is rewritten, or copied and then left or put
/// away, as was asked. Rewriting and putting away need Desktop to be closed.
pub proof fn law_what_a_switch_does(
    request: SwitchRequestView,
    facts: SwitchFactsView,
    provider: Seq<char>,
)
    requires
        chosen_provider(request.target_provider, facts.configured) == Ok::<Seq<char>, ErrorView>(
            provider,
        ),
        !request.dry_run,
    ensures
        ({
            let decision = switch_decision(request, facts);
            let pages = facts.source matches Ok(Some(source)) && source.history_mode == "paginated"@;
            let away = starts_from_head(request, facts) && !is_at_home(facts, provider);
            let unserved = away && serving_branch(facts, provider) == Ok::<
                Option<SyncBranchView>,
                ErrorView,
            >(None);
            &&& decision == Ok::<DecisionView, ErrorView>(DecisionView::RepairVisibility)
                <==> starts_from_head(request, facts) && is_at_home(facts, provider) && !pages
                && facts.state_db is Ok
            &&& decision matches Ok(DecisionView::UseExisting { branch_id }) ==> away && (
            serving_branch(facts, provider) matches Ok(Some(branch)) && branch.id == branch_id)
            &&& away && (serving_branch(facts, provider) matches Ok(Some(_))) ==> (
            decision matches Ok(DecisionView::UseExisting { .. }))
            &&& decision == Ok::<DecisionView, ErrorView>(DecisionView::ForkOfficially)
                <==> unserved && pages && request.strategy == SwitchStrategy::Scatter
            &&& decision == Ok::<DecisionView, ErrorView>(DecisionView::RewriteInPlace)
                <==> unserved && !pages && request.strategy == SwitchStrategy::Follow
                && desktop_is_closed(facts) && facts.state_db is Ok
            &&& decision == Ok::<DecisionView, ErrorView>(
                DecisionView::CopyRollout { archive: false },
            ) <==> unserved && !pages && request.strategy == SwitchStrategy::Scatter
            &&& decision == Ok::<DecisionView, ErrorView>(
                DecisionView::CopyRollout { archive: true },
            ) <==> unserved && !pages && request.strategy == SwitchStrategy::Continuous
                && desktop_is_closed(facts)
        }),
{
}

/// A branch serves a provider where it belongs to it and can be used under it; of several it is the
/// first.
pub proof fn law_serving_branches_are_usable(facts: SwitchFactsView, provider: Seq<char>)
    ensures
        serving_branch(facts, provider) matches Ok(Some(branch)) ==> (facts.state matches Ok(state)
            && (facts.family matches Some(family) && branch.provider == provider && branch_usable(
            state,
            branch,
            provider,
        ) == Ok::<bool, ErrorView>(true) && exists|i: int|
            0 <= i < family.branches.len() && #[trigger] family.branches[i] == branch)),
        serving_branch(facts, provider) == Ok::<Option<SyncBranchView>, ErrorView>(None) ==> (
        facts.family matches Some(family) ==> forall|i: int|
            0 <= i < family.branches.len() && (#[trigger] family.branches[i]).provider == provider
                ==> (facts.state matches Ok(state) && branch_usable(
                state,
                family.branches[i],
                provider,
            ) == Ok::<bool, ErrorView>(false))),
{
    if let Some(family) = facts.family {
        if let Ok(state) = facts.state {
            lemma_first_usable(state, family.branches, provider);
        }
    }
}

proof fn lemma_first_usable(
    state: SyncStateView,
    branches: Seq<SyncBranchView>,
    provider: Seq<char>,
)
    ensures
        first_usable(state, branches, provider) matches Ok(Some(branch)) ==> branch.provider
            == provider && branch_usable(state, branch, provider) == Ok::<bool, ErrorView>(true)
            && exists|i: int| 0 <= i < branches.len() && #[trigger] branches[i] == branch,
        first_usable(state, branches, provider) == Ok::<Option<SyncBranchView>, ErrorView>(None)
            ==> forall|i: int|
            0 <= i < branches.len() && (#[trigger] branches[i]).provider == provider
                ==> branch_usable(state, branches[i], provider) == Ok::<bool, ErrorView>(false),
    decreases branches.len(),
{
    if branches.len() > 0 {
        let rest = branches.drop_last();
        lemma_first_usable(state, rest, provider);
        match first_usable(state, rest, provider) {
            Ok(Some(branch)) => {
                let i = choose|i: int| 0 <= i < rest.len() && #[trigger] rest[i] == branch;
                assert(branches[i] == branch);
            },
            Ok(None) => {
                assert(branches[branches.len() - 1] == branches.last());
                assert forall|i: int|
                    0 <= i < branches.len() && (#[trigger] branches[i]).provider
                        == provider && first_usable(state, branches, provider) == Ok::<
                        Option<SyncBranchView>,
                        ErrorView,
                    >(None) implies branch_usable(state, branches[i], provider) == Ok::<
                    bool,
                    ErrorView,
                >(false) by {
                    if i < rest.len() {
                        assert(rest[i] == branches[i]);
                    }
                }
            },
            Err(_) => {},
        }
    }
}

/// A switch is refused where the session is not the active branch of its family, where its rollout
/// states another session, and where anything that has to be known cannot be told. A session of
/// which no rollout is found is reported as failed.
pub proof fn law_when_a_switch_is_refused(
    request: SwitchRequestView,
    facts: SwitchFactsView,
    provider: Seq<char>,
)
    requires
        chosen_provider(request.target_provider, facts.configured) == Ok::<Seq<char>, ErrorView>(
            provider,
        ),
    ensures
        facts.source matches Err(error) ==> switch_decision(request, facts) == Err::<
            DecisionView,
            ErrorView,
        >(error),
        facts.source == Ok::<Option<BriefView>, ErrorView>(None) ==> (switch_decision(
            request,
            facts,
        ) matches Ok(DecisionView::Finished(report)) && !report.ok && report.error is Some
            && report.new_id is None),
        (facts.source matches Ok(Some(source)) && !starts_from_head(request, facts))
            ==> switch_decision(request, facts) is Err,
        starts_from_head(request, facts) && !is_at_home(facts, provider) ==> (serving_branch(
            facts,
            provider,
        ) matches Err(error) ==> switch_decision(request, facts) == Err::<DecisionView, ErrorView>(
            error,
        )),
{
}

/// A dry run finishes at once with a report that a session is left as it is, and names the branch
/// that serves the provider where there is one; only what a copy would be is still to be told.
pub proof fn law_dry_runs_report(
    request: SwitchRequestView,
    facts: SwitchFactsView,
    provider: Seq<char>,
)
    requires
        chosen_provider(request.target_provider, facts.configured) == Ok::<Seq<char>, ErrorView>(
            provider,
        ),
        request.dry_run,
        starts_from_head(request, facts),
    ensures
        switch_decision(request, facts) matches Ok(DecisionView::Finished(report)) ==> report.ok
            && report.skipped_reason is Some && !report.desktop_restart_required
            && report.new_rollout_path is None && report.error is None,
        !is_at_home(facts, provider) && (serving_branch(facts, provider) matches Ok(Some(branch)))
            ==> (switch_decision(request, facts) matches Ok(DecisionView::Finished(report))
            && report.new_id == Some((serving_branch(facts, provider)->Ok_0)->Some_0.id)),
        is_at_home(facts, provider) ==> (switch_decision(request, facts) matches Ok(
            DecisionView::Finished(report),
        ) && report.new_id is None),
{
}

} // verus!
