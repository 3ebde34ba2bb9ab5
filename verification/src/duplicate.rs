//! Independent copies of whole sessions.

use vstd::prelude::*;

use crate::error::{unit_outcome, AppError, ErrorView};
use crate::rollout::{BriefView, RolloutBrief};
use crate::session_id::{stem_verdict, validate_rollout_filename};
use crate::steps::{
    add_assignment, add_step, assignment_of, assignment_steps, no_steps, project_assignment_record,
    steps_outcome, steps_view, Step, StepView,
};
use crate::switch::opt_brief;
use crate::text::{join2, join4, join5, opt_text, same};

verus! {

/// What became of copying a session.
pub struct DuplicateSessionReport {
    pub source_id: String,
    pub new_id: String,
    pub new_rollout_path: String,
    pub total_lines: u64,
    pub desktop_restart_required: bool,
}

/// What was learned of the session that is copied: how the host writes the path of its
/// rollout, whether it can be reached (its proper path, or why not), whether a rollout may
/// be there, and what it says; then whether Desktop does not run, the stem of the file name
/// of the new rollout, and whether the state database is there.
pub struct DuplicateFacts {
    pub host_path: String,
    pub reached: Result<String, String>,
    pub place: Result<(), AppError>,
    pub brief: Result<Option<RolloutBrief>, AppError>,
    pub desktop: Result<(), AppError>,
    pub new_stem: Option<String>,
    pub state_db: Result<(), AppError>,
}

/// What [`DuplicateFacts`] hold.
#[verifier::ext_equal]
pub struct DuplicateFactsView {
    pub host_path: Seq<char>,
    pub reached: Result<Seq<char>, Seq<char>>,
    pub place: Result<(), ErrorView>,
    pub brief: Result<Option<BriefView>, ErrorView>,
    pub desktop: Result<(), ErrorView>,
    pub new_stem: Option<Seq<char>>,
    pub state_db: Result<(), ErrorView>,
}

/// What a path that was looked for holds.
pub open spec fn reached_view(reached: Result<String, String>) -> Result<Seq<char>, Seq<char>> {
    match reached {
        Ok(path) => Ok(path@),
        Err(error) => Err(error@),
    }
}

/// What an outcome of reading a rollout holds.
pub open spec fn brief_outcome(brief: Result<Option<RolloutBrief>, AppError>) -> Result<
    Option<BriefView>,
    ErrorView,
> {
    match brief {
        Ok(brief) => Ok(opt_brief(brief)),
        Err(error) => Err(error@),
    }
}

impl View for DuplicateFacts {
    type V = DuplicateFactsView;

    open spec fn view(&self) -> DuplicateFactsView {
        DuplicateFactsView {
            host_path: self.host_path@,
            reached: reached_view(self.reached),
            place: unit_outcome(self.place),
            brief: brief_outcome(self.brief),
            desktop: unit_outcome(self.desktop),
            new_stem: opt_text(self.new_stem),
            state_db: unit_outcome(self.state_db),
        }
    }
}

/// How a session is copied.
#[derive(Clone, Copy, PartialEq, Eq, Structural)]
pub enum DuplicateWay {
    /// Codex itself has to fork it.
    ForkOfficially,
    /// Its rollout is copied.
    CopyRollout,
}

/// The error on a rollout that cannot be reached.
pub open spec fn source_unreachable(host_path: Seq<char>, error: Seq<char>) -> ErrorView {
    ErrorView::NotFound(
        "源 rollout 不存在或无法访问: "@ + host_path + " ("@ + error + ")"@,
    )
}

/// The error on a rollout that states another session.
pub open spec fn source_mismatch(session_id: Seq<char>, found: Seq<char>) -> ErrorView {
    ErrorView::Other(
        "源 rollout id 与会话不一致：期望 "@ + session_id + "，实际 "@ + found,
    )
}

/// What the rollout of the session says, or why the session cannot be copied.
pub open spec fn duplicate_source(session_id: Seq<char>, facts: DuplicateFactsView) -> Result<
    BriefView,
    ErrorView,
> {
    match facts.reached {
        Err(error) => Err(source_unreachable(facts.host_path, error)),
        Ok(path) => if facts.place is Err {
            Err(facts.place->Err_0)
        } else {
            match facts.brief {
                Err(error) => Err(error),
                Ok(None) => Err(ErrorView::NotFound("无法读取源 rollout 元数据: "@ + path)),
                Ok(Some(brief)) => if brief.id != session_id {
                    Err(source_mismatch(session_id, brief.id))
                } else {
                    Ok(brief)
                },
            }
        },
    }
}

/// How a session is copied, or why it cannot be.
pub open spec fn duplicate_way(session_id: Seq<char>, facts: DuplicateFactsView) -> Result<
    DuplicateWay,
    ErrorView,
> {
    match duplicate_source(session_id, facts) {
        Err(error) => Err(error),
        Ok(brief) => if brief.history_mode == "paginated"@ {
            Ok(DuplicateWay::ForkOfficially)
        } else if facts.desktop is Err {
            Err(facts.desktop->Err_0)
        } else if stem_verdict(facts.new_stem) is Err {
            Err(stem_verdict(facts.new_stem)->Err_0)
        } else if facts.state_db is Err {
            Err(facts.state_db->Err_0)
        } else {
            Ok(DuplicateWay::CopyRollout)
        },
    }
}

/// The error on a rollout that cannot be reached.
pub fn unreachable_source(host_path: &str, error: &str) -> (failure: AppError)
    ensures
        failure@ == source_unreachable(host_path@, error@),
{
    AppError::NotFound(
        join5("源 rollout 不存在或无法访问: ", host_path, " (", error, ")"),
    )
}

/// The error on a rollout that states another session.
pub fn mismatched_source(session_id: &str, found: &str) -> (failure: AppError)
    ensures
        failure@ == source_mismatch(session_id@, found@),
{
    AppError::Other(
        join4("源 rollout id 与会话不一致：期望 ", session_id, "，实际 ", found),
    )
}

fn check_source<'a>(session_id: &str, facts: &'a DuplicateFacts) -> (brief: Result<
    &'a RolloutBrief,
    AppError,
>)
    ensures
        match brief {
            Ok(brief) => duplicate_source(session_id@, facts@) == Ok::<BriefView, ErrorView>(
                brief@,
            ),
            Err(error) => duplicate_source(session_id@, facts@) == Err::<BriefView, ErrorView>(
                error@,
            ),
        },
{
    let path = match &facts.reached {
        Ok(path) => path,
        Err(error) => return Err(unreachable_source(facts.host_path.as_str(), error.as_str())),
    };
    if let Err(error) = &facts.place {
        return Err(error.copy());
    }
    let brief = match &facts.brief {
        Err(error) => return Err(error.copy()),
        Ok(None) => return Err(
            AppError::NotFound(join2("无法读取源 rollout 元数据: ", path.as_str())),
        ),
        Ok(Some(brief)) => brief,
    };
    if !same(brief.id.as_str(), session_id) {
        return Err(mismatched_source(session_id, brief.id.as_str()));
    }
    Ok(brief)
}

/// Decides how a session is copied.
pub fn duplicate_session_with_lock(session_id: &str, facts: &DuplicateFacts) -> (way: Result<
    DuplicateWay,
    AppError,
>)
    ensures
        match way {
            Ok(way) => duplicate_way(session_id@, facts@) == Ok::<DuplicateWay, ErrorView>(way),
            Err(error) => duplicate_way(session_id@, facts@) == Err::<DuplicateWay, ErrorView>(
                error@,
            ),
        },
{
    let brief = match check_source(session_id, facts) {
        Ok(brief) => brief,
        Err(error) => return Err(error),
    };
    if same(brief.history_mode.as_str(), "paginated") {
        return Ok(DuplicateWay::ForkOfficially);
    }
    if let Err(error) = &facts.desktop {
        return Err(error.copy());
    }
    let stem = match &facts.new_stem {
        Some(stem) => Some(stem.as_str()),
        None => None,
    };
    if let Err(error) = validate_rollout_filename(stem) {
        return Err(error);
    }
    match &facts.state_db {
        Err(error) => Err(error.copy()),
        Ok(()) => Ok(DuplicateWay::CopyRollout),
    }
}

/// While Desktop runs only sessions whose history is in pages are copied.
pub proof fn law_running_desktop_blocks_copies(session_id: Seq<char>, facts: DuplicateFactsView)
    requires
        facts.desktop is Err,
    ensures
        duplicate_way(session_id, facts) != Ok::<DuplicateWay, ErrorView>(
            DuplicateWay::CopyRollout,
        ),
{
}

/// The first steps of a copy: its rollout, its thread, its title and where the session was
/// converted from.
pub open spec fn duplicate_start(
    session_id: Seq<char>,
    new_id: Seq<char>,
    new_path: Seq<char>,
) -> Seq<StepView> {
    seq![
        StepView::WriteRollout { path: new_path },
        StepView::SyncThread { path: new_path },
        StepView::CarryTitle { from_id: session_id, to_id: new_id },
        StepView::CopyProvenance { from_id: session_id, to_id: new_id },
    ]
}

/// The first steps of a copy.
pub fn duplicate_first_steps(session_id: &str, new_id: &str, new_path: &str) -> (steps: Vec<Step>)
    ensures
        steps_view(steps@) == duplicate_start(session_id@, new_id@, new_path@),
{
    let mut steps = no_steps();
    add_step(&mut steps, Step::WriteRollout { path: new_path.to_owned() });
    add_step(&mut steps, Step::SyncThread { path: new_path.to_owned() });
    add_step(
        &mut steps,
        Step::CarryTitle { from_id: session_id.to_owned(), to_id: new_id.to_owned() },
    );
    add_step(
        &mut steps,
        Step::CopyProvenance { from_id: session_id.to_owned(), to_id: new_id.to_owned() },
    );
    assert(steps_view(steps@) =~= duplicate_start(session_id@, new_id@, new_path@));
    steps
}

/// The first steps that enter a fork that Codex made: its title and where the session was
/// converted from.
pub open spec fn forked_start(session_id: Seq<char>, new_id: Seq<char>) -> Seq<StepView> {
    seq![
        StepView::CarryTitle { from_id: session_id, to_id: new_id },
        StepView::CopyProvenance { from_id: session_id, to_id: new_id },
    ]
}

/// The first steps that enter a fork that Codex made.
pub fn forked_first_steps(session_id: &str, new_id: &str) -> (steps: Vec<Step>)
    ensures
        steps_view(steps@) == forked_start(session_id@, new_id@),
{
    let mut steps = no_steps();
    add_step(
        &mut steps,
        Step::CarryTitle { from_id: session_id.to_owned(), to_id: new_id.to_owned() },
    );
    add_step(
        &mut steps,
        Step::CopyProvenance { from_id: session_id.to_owned(), to_id: new_id.to_owned() },
    );
    assert(steps_view(steps@) =~= forked_start(session_id@, new_id@));
    steps
}

/// The first of two messages, or the second where the first is empty.
pub open spec fn first_or(message: Seq<char>, other: Seq<char>) -> Seq<char> {
    if message.len() == 0 {
        other
    } else {
        message
    }
}

/// The first of two messages, or the second where the first is empty.
pub fn message_or(message: &str, other: &str) -> (chosen: String)
    ensures
        chosen@ == first_or(message@, other@),
{
    if message.is_empty() {
        other.to_owned()
    } else {
        message.to_owned()
    }
}

/// The last steps of a copy: its entry in the index and its project.
pub open spec fn listing_plan(
    new_id: Seq<char>,
    thread_name: Seq<char>,
    brief: BriefView,
    host_cwd: Seq<char>,
    deferred: bool,
) -> Seq<StepView> {
    seq![StepView::AppendIndexLine { id: new_id, thread_name }] + assignment_steps(
        assignment_of(brief.id, brief.cwd, host_cwd),
        false,
        deferred,
    )
}

fn listing_steps(
    new_id: &str,
    thread_name: String,
    brief: &RolloutBrief,
    host_cwd: &str,
    deferred: bool,
) -> (steps: Vec<Step>)
    ensures
        steps_view(steps@) == listing_plan(new_id@, thread_name@, brief@, host_cwd@, deferred),
{
    let mut steps = no_steps();
    add_step(&mut steps, Step::AppendIndexLine { id: new_id.to_owned(), thread_name });
    assert(steps_view(steps@) =~= seq![
        StepView::AppendIndexLine { id: new_id@, thread_name: thread_name@ },
    ]);
    let assignment = project_assignment_record(brief.id.as_str(), &brief.cwd, host_cwd);
    add_assignment(&mut steps, &assignment, false, deferred);
    steps
}

/// The last steps of a copy, given what its rollout says. It is listed under its first
/// message, or else that of its source.
pub open spec fn duplicate_rest(
    new_id: Seq<char>,
    source_message: Seq<char>,
    brief: Option<BriefView>,
    host_cwd: Seq<char>,
) -> Result<Seq<StepView>, ErrorView> {
    match brief {
        None => Err(ErrorView::Other("新 rollout 缺少有效 session_meta.id"@)),
        Some(brief) => Ok(
            listing_plan(
                new_id,
                first_or(brief.first_user_message, source_message),
                brief,
                host_cwd,
                false,
            ),
        ),
    }
}

/// The last steps of a copy.
pub fn duplicate_later_steps(
    new_id: &str,
    source_message: &str,
    brief: &Option<RolloutBrief>,
    host_cwd: &str,
) -> (steps: Result<Vec<Step>, AppError>)
    ensures
        steps_outcome(steps) == duplicate_rest(
            new_id@,
            source_message@,
            opt_brief(*brief),
            host_cwd@,
        ),
{
    match brief {
        None => Err(AppError::Other("新 rollout 缺少有效 session_meta.id".to_owned())),
        Some(brief) => {
            let thread_name = message_or(brief.first_user_message.as_str(), source_message);
            Ok(listing_steps(new_id, thread_name, brief, host_cwd, false))
        },
    }
}

/// The name under which a fork that Codex made is listed: that of its thread, or else that of
/// its source, or else its first message.
pub open spec fn forked_name(
    display: Option<Seq<char>>,
    source_name: Option<Seq<char>>,
    first_message: Seq<char>,
) -> Seq<char> {
    match display {
        Some(name) => name,
        None => match source_name {
            Some(name) => name,
            None => first_message,
        },
    }
}

/// The last steps that enter a fork that Codex made.
pub fn forked_later_steps(
    new_id: &str,
    display: &Option<String>,
    source_name: &Option<String>,
    brief: &RolloutBrief,
    host_cwd: &str,
    deferred: bool,
) -> (steps: Vec<Step>)
    ensures
        steps_view(steps@) == listing_plan(
            new_id@,
            forked_name(opt_text(*display), opt_text(*source_name), brief@.first_user_message),
            brief@,
            host_cwd@,
            deferred,
        ),
{
    let thread_name = match display {
        Some(name) => name.clone(),
        None => match source_name {
            Some(name) => name.clone(),
            None => brief.first_user_message.clone(),
        },
    };
    listing_steps(new_id, thread_name, brief, host_cwd, deferred)
}

/// Reports on a session that was copied. `inherited` is the count of lines in the history
/// that its rollout refers to.
pub fn report_duplicate(
    session_id: &str,
    new_id: &str,
    new_path: &str,
    own_lines: u64,
    inherited: u64,
    deferred: bool,
) -> (report: DuplicateSessionReport)
    requires
        own_lines + inherited <= u64::MAX,
    ensures
        report.source_id@ == session_id@,
        report.new_id@ == new_id@,
        report.new_rollout_path@ == new_path@,
        report.total_lines == own_lines + inherited,
        report.desktop_restart_required == deferred,
{
    DuplicateSessionReport {
        source_id: session_id.to_owned(),
        new_id: new_id.to_owned(),
        new_rollout_path: new_path.to_owned(),
        total_lines: own_lines + inherited,
        desktop_restart_required: deferred,
    }
}

/// An independent copy may be made just where the rollout can be reached, lies where rollouts may
/// lie and states the session. Codex makes it where the history is in pages; else the rollout is
/// copied, for which Desktop must not run, the new name must be readable and the databases must be
/// there.
pub proof fn law_when_a_copy_is_made(session_id: Seq<char>, facts: DuplicateFactsView)
    ensures
        ({
            let found = facts.reached is Ok && facts.place is Ok && (facts.brief matches Ok(
                Some(brief),
            ) && brief.id == session_id);
            let pages = facts.brief matches Ok(Some(brief)) && brief.history_mode == "paginated"@;
            &&& duplicate_way(session_id, facts) == Ok::<DuplicateWay, ErrorView>(
                DuplicateWay::ForkOfficially,
            ) <==> found && pages
            &&& duplicate_way(session_id, facts) == Ok::<DuplicateWay, ErrorView>(
                DuplicateWay::CopyRollout,
            ) <==> found && !pages && facts.desktop is Ok && stem_verdict(facts.new_stem) is Ok
                && facts.state_db is Ok
        }),
{
}

/// What keeps a copy from being made is told as it was found: an error of the place or of reading
/// comes before those of Desktop, of the name and of the databases.
pub proof fn law_why_no_copy_is_made(session_id: Seq<char>, facts: DuplicateFactsView)
    requires
        facts.reached is Ok,
    ensures
        facts.place matches Err(error) ==> duplicate_way(session_id, facts) == Err::<
            DuplicateWay,
            ErrorView,
        >(error),
        facts.place is Ok ==> (facts.brief matches Err(error) ==> duplicate_way(session_id, facts)
            == Err::<DuplicateWay, ErrorView>(error)),
        facts.place is Ok && (facts.brief matches Ok(Some(brief)) && brief.id == session_id
            && brief.history_mode != "paginated"@) ==> (facts.desktop matches Err(error)
            ==> duplicate_way(session_id, facts) == Err::<DuplicateWay, ErrorView>(error)),
        facts.place is Ok && facts.desktop is Ok && stem_verdict(facts.new_stem) is Ok && (
        facts.brief matches Ok(Some(brief)) && brief.id == session_id && brief.history_mode
            != "paginated"@) ==> (facts.state_db matches Err(error) ==> duplicate_way(
            session_id,
            facts,
        ) == Err::<DuplicateWay, ErrorView>(error)),
{
}

} // verus!
