//! Sessions whose history is in pages. Codex itself forks them; what it answers is checked,
//! and the new session is then entered like any other.

use vstd::prelude::*;

use crate::error::{bool_outcome, error_text, unit_outcome, AppError, ErrorView};
use crate::json::{as_unsigned, json_reading, member, parse_or_explain, Json, JsonView};
use crate::rollout::{BriefView, RolloutBrief};
use crate::seqs::first_found;
use crate::steps::{
    add_assignment, add_step, assignment_of, assignment_steps, no_steps, opt_assignment,
    project_assignment_record, steps_view, Step, StepView,
};
use crate::switch::opt_brief;
use crate::switch_steps::{new_branch, new_branch_view, NewSession, NewSessionView};
use crate::text::{
    is_blank, join2, join3, join4, join5, lines, lines_of, opt_text, same, texts, trimmed,
};

verus! {

/// The name of the session that is forked: that which its thread has, or else its first
/// message.
pub open spec fn source_name(display: Option<Seq<char>>, first_message: Seq<char>) -> Option<
    Seq<char>,
> {
    match display {
        Some(name) => Some(name),
        None => if first_message.len() == 0 {
            None
        } else {
            Some(first_message)
        },
    }
}

/// The name of the session that is forked.
pub fn source_thread_name(display: &Option<String>, first_message: &str) -> (name: Option<String>)
    ensures
        opt_text(name) == source_name(opt_text(*display), first_message@),
{
    match display {
        Some(name) => Some(name.clone()),
        None => if first_message.is_empty() {
            None
        } else {
            Some(first_message.to_owned())
        },
    }
}

/// Whether the id that Codex answered is that of a new session.
pub open spec fn fork_id_verdict(fork_id: Seq<char>, session_id: Seq<char>) -> Result<
    (),
    ErrorView,
> {
    if fork_id == session_id {
        Err(ErrorView::Other("Codex thread/fork 返回了源会话 ID，拒绝继续登记"@))
    } else {
        Ok(())
    }
}

/// Refuses a fork that has the id of its source.
pub fn check_fork_id(fork_id: &str, session_id: &str) -> (outcome: Result<(), AppError>)
    ensures
        unit_outcome(outcome) == fork_id_verdict(fork_id@, session_id@),
{
    if same(fork_id, session_id) {
        Err(AppError::Other("Codex thread/fork 返回了源会话 ID，拒绝继续登记".to_owned()))
    } else {
        Ok(())
    }
}

/// What was learned of a fork that Codex made: whether it could be named, the rollout that
/// the answer gave and how the host writes that path, whether it can be reached (its proper
/// path, or why not), whether a rollout may be there, what it says, and the provider that
/// the answer gave.
pub struct ForkFacts {
    pub named: Result<(), AppError>,
    pub answered_path: bool,
    pub host_path: String,
    pub reached: Result<String, String>,
    pub place: Result<(), AppError>,
    pub brief: Result<Option<RolloutBrief>, AppError>,
    pub answered_provider: Option<String>,
}

/// What [`ForkFacts`] hold.
#[verifier::ext_equal]
pub struct ForkFactsView {
    pub named: Result<(), ErrorView>,
    pub answered_path: bool,
    pub host_path: Seq<char>,
    pub reached: Result<Seq<char>, Seq<char>>,
    pub place: Result<(), ErrorView>,
    pub brief: Result<Option<BriefView>, ErrorView>,
    pub answered_provider: Option<Seq<char>>,
}

impl View for ForkFacts {
    type V = ForkFactsView;

    open spec fn view(&self) -> ForkFactsView {
        ForkFactsView {
            named: unit_outcome(self.named),
            answered_path: self.answered_path,
            host_path: self.host_path@,
            reached: match self.reached {
                Ok(path) => Ok(path@),
                Err(error) => Err(error@),
            },
            place: unit_outcome(self.place),
            brief: match self.brief {
                Ok(brief) => Ok(opt_brief(brief)),
                Err(error) => Err(error@),
            },
            answered_provider: opt_text(self.answered_provider),
        }
    }
}

/// What the rollout of a fork says, or why the rollout cannot be had.
pub open spec fn fork_rollout(facts: ForkFactsView) -> Result<BriefView, ErrorView> {
    if facts.named is Err {
        Err(facts.named->Err_0)
    } else if !facts.answered_path {
        Err(ErrorView::Other("Codex thread/fork 响应缺少 rollout 路径"@))
    } else {
        match facts.reached {
            Err(error) => Err(
                ErrorView::NotFound(
                    "Codex thread/fork 未生成可访问的 rollout："@ + facts.host_path + " ("@
                        + error + ")"@,
                ),
            ),
            Ok(path) => if facts.place is Err {
                Err(facts.place->Err_0)
            } else {
                match facts.brief {
                    Err(error) => Err(error),
                    Ok(None) => Err(
                        ErrorView::Other(
                            "Codex thread/fork rollout 缺少有效 session_meta.id："@ + path,
                        ),
                    ),
                    Ok(Some(brief)) => Ok(brief),
                }
            },
        }
    }
}

/// Whether a fork is what was asked for: the session that was answered, the provider where
/// one was asked for, and a history in pages.
pub open spec fn fork_verdict(
    new_id: Seq<char>,
    provider: Option<Seq<char>>,
    facts: ForkFactsView,
) -> Result<BriefView, ErrorView> {
    match fork_rollout(facts) {
        Err(error) => Err(error),
        Ok(brief) => if brief.id != new_id {
            Err(
                ErrorView::Other(
                    "Codex thread/fork 响应 ID 与 rollout 不一致：响应 "@ + new_id
                        + "，rollout "@ + brief.id,
                ),
            )
        } else if provider is Some && (brief.model_provider != provider->Some_0
            || facts.answered_provider != provider) {
            Err(
                ErrorView::Other(
                    "Codex thread/fork 未写入目标 provider="@ + provider->Some_0,
                ),
            )
        } else if brief.history_mode != "paginated"@ {
            Err(
                ErrorView::Other(
                    "Codex thread/fork 返回 history_mode="@ + brief.history_mode
                        + "，期望 paginated"@,
                ),
            )
        } else {
            Ok(brief)
        },
    }
}

fn read_fork<'a>(facts: &'a ForkFacts) -> (brief: Result<&'a RolloutBrief, AppError>)
    ensures
        match brief {
            Ok(brief) => fork_rollout(facts@) == Ok::<BriefView, ErrorView>(brief@),
            Err(error) => fork_rollout(facts@) == Err::<BriefView, ErrorView>(error@),
        },
{
    if let Err(error) = &facts.named {
        return Err(error.copy());
    }
    if !facts.answered_path {
        return Err(AppError::Other("Codex thread/fork 响应缺少 rollout 路径".to_owned()));
    }
    let path = match &facts.reached {
        Ok(path) => path,
        Err(error) => return Err(
            AppError::NotFound(
                join5(
                    "Codex thread/fork 未生成可访问的 rollout：",
                    facts.host_path.as_str(),
                    " (",
                    error.as_str(),
                    ")",
                ),
            ),
        ),
    };
    if let Err(error) = &facts.place {
        return Err(error.copy());
    }
    match &facts.brief {
        Err(error) => Err(error.copy()),
        Ok(None) => Err(
            AppError::Other(
                join2(
                    "Codex thread/fork rollout 缺少有效 session_meta.id：",
                    path.as_str(),
                ),
            ),
        ),
        Ok(Some(brief)) => Ok(brief),
    }
}

/// Checks that a fork is what was asked for, and gives what its rollout says.
pub fn check_fork<'a>(new_id: &str, provider: Option<&str>, facts: &'a ForkFacts) -> (brief: Result<
    &'a RolloutBrief,
    AppError,
>)
    ensures
        match brief {
            Ok(brief) => fork_verdict(new_id@, crate::text::opt_str(provider), facts@) == Ok::<
                BriefView,
                ErrorView,
            >(brief@),
            Err(error) => fork_verdict(new_id@, crate::text::opt_str(provider), facts@) == Err::<
                BriefView,
                ErrorView,
            >(error@),
        },
{
    let brief = match read_fork(facts) {
        Ok(brief) => brief,
        Err(error) => return Err(error),
    };
    if !same(brief.id.as_str(), new_id) {
        return Err(
            AppError::Other(
                join4(
                    "Codex thread/fork 响应 ID 与 rollout 不一致：响应 ",
                    new_id,
                    "，rollout ",
                    brief.id.as_str(),
                ),
            ),
        );
    }
    if let Some(provider) = provider {
        let answered = match &facts.answered_provider {
            Some(answered) => same(answered.as_str(), provider),
            None => false,
        };
        if !answered || !same(brief.model_provider.as_str(), provider) {
            return Err(
                AppError::Other(
                    join2("Codex thread/fork 未写入目标 provider=", provider),
                ),
            );
        }
    }
    if !same(brief.history_mode.as_str(), "paginated") {
        return Err(
            AppError::Other(
                join3(
                    "Codex thread/fork 返回 history_mode=",
                    brief.history_mode.as_str(),
                    "，期望 paginated",
                ),
            ),
        );
    }
    Ok(brief)
}

// ---------------------------------------------------------------------------
// For another provider
// ---------------------------------------------------------------------------

/// Whether a fork for another provider can be entered: its rollout lies in the directory of
/// Codex (`relative`), its family is there, and so are the state database and its thread.
pub open spec fn entry_verdict(
    relative: bool,
    path: Seq<char>,
    family_found: bool,
    family_id: Seq<char>,
    state_db: Result<(), ErrorView>,
    thread_row: Result<(), ErrorView>,
) -> Result<(), ErrorView> {
    if !relative {
        Err(ErrorView::Path("Codex thread/fork rollout 不在 Codex 目录内："@ + path))
    } else if !family_found {
        Err(ErrorView::NotFound("provider 同步 family："@ + family_id))
    } else if state_db is Err {
        state_db
    } else {
        thread_row
    }
}

/// Checks that a fork for another provider can be entered.
pub fn check_entry(
    relative: bool,
    path: &str,
    family_found: bool,
    family_id: &str,
    state_db: Result<(), AppError>,
    thread_row: Result<(), AppError>,
) -> (outcome: Result<(), AppError>)
    ensures
        unit_outcome(outcome) == entry_verdict(
            relative,
            path@,
            family_found,
            family_id@,
            unit_outcome(state_db),
            unit_outcome(thread_row),
        ),
{
    if !relative {
        return Err(
            AppError::Path(join2("Codex thread/fork rollout 不在 Codex 目录内：", path)),
        );
    }
    if !family_found {
        return Err(AppError::NotFound(join2("provider 同步 family：", family_id)));
    }
    if let Err(error) = state_db {
        return Err(error);
    }
    thread_row
}

/// The steps that enter a fork for another provider: those up to its title, and those up to
/// its entry in the index.
pub open spec fn entry_plan(
    session: NewSessionView,
    session_id: Seq<char>,
    family_id: Seq<char>,
    brief: BriefView,
    host_cwd: Seq<char>,
    deferred: bool,
) -> (Seq<StepView>, Seq<StepView>) {
    (
        seq![
            StepView::ReplaceActive {
                family_id,
                branch: new_branch_view(session, "official_fork_from:"@ + session.made_of),
            },
            StepView::CarryTitle { from_id: session_id, to_id: session.id },
        ],
        assignment_steps(assignment_of(brief.id, brief.cwd, host_cwd), false, deferred),
    )
}

/// The steps that enter a fork for another provider: those up to its title, and those up to
/// its entry in the index.
pub fn entry_steps(
    session: &NewSession,
    session_id: &str,
    family_id: &str,
    brief: &RolloutBrief,
    host_cwd: &str,
    deferred: bool,
) -> (steps: (Vec<Step>, Vec<Step>))
    ensures
        (steps_view(steps.0@), steps_view(steps.1@)) == entry_plan(
            session@,
            session_id@,
            family_id@,
            brief@,
            host_cwd@,
            deferred,
        ),
{
    let mut first = no_steps();
    let branch = new_branch(session, join2("official_fork_from:", session.made_of.as_str()));
    add_step(&mut first, Step::ReplaceActive { family_id: family_id.to_owned(), branch });
    add_step(
        &mut first,
        Step::CarryTitle { from_id: session_id.to_owned(), to_id: session.id.clone() },
    );
    assert(steps_view(first@) =~= seq![
        StepView::ReplaceActive { family_id: family_id@, branch: branch@ },
        StepView::CarryTitle { from_id: session_id@, to_id: session.id@ },
    ]);
    let assignment = project_assignment_record(brief.id.as_str(), &brief.cwd, host_cwd);
    let mut second = no_steps();
    add_assignment(&mut second, &assignment, false, deferred);
    assert(steps_view(second@) =~= assignment_steps(opt_assignment(assignment), false, deferred));
    (first, second)
}

/// The last steps that enter a fork for another provider: its entry in the index, under the
/// name of its thread or else the first message of its source, and the store.
pub open spec fn naming_plan(
    new_id: Seq<char>,
    display: Option<Seq<char>>,
    first_message: Seq<char>,
) -> Seq<StepView> {
    seq![
        StepView::AppendIndexLine {
            id: new_id,
            thread_name: match display {
                Some(name) => name,
                None => first_message,
            },
        },
        StepView::SaveStore,
    ]
}

/// The last steps that enter a fork for another provider.
pub fn naming_steps(new_id: &str, display: &Option<String>, first_message: &str) -> (steps: Vec<
    Step,
>)
    ensures
        steps_view(steps@) == naming_plan(new_id@, opt_text(*display), first_message@),
{
    let thread_name = match display {
        Some(name) => name.clone(),
        None => first_message.to_owned(),
    };
    let mut steps = no_steps();
    add_step(&mut steps, Step::AppendIndexLine { id: new_id.to_owned(), thread_name });
    add_step(&mut steps, Step::SaveStore);
    assert(steps_view(steps@) =~= naming_plan(new_id@, opt_text(*display), first_message@));
    steps
}

/// Whether a fork can be used under the provider once it was entered.
pub open spec fn fork_usable(new_id: Seq<char>, usable: Result<bool, ErrorView>) -> Result<
    (),
    ErrorView,
> {
    match usable {
        Err(error) => Err(error),
        Ok(true) => Ok(()),
        Ok(false) => Err(
            ErrorView::Other(
                "Codex 官方 fork "@ + new_id + " 的 provider 可见性复核未通过"@,
            ),
        ),
    }
}

/// Refuses a fork that cannot be used under the provider once it was entered.
pub fn require_usable_fork(new_id: &str, usable: Result<bool, AppError>) -> (outcome: Result<
    (),
    AppError,
>)
    ensures
        unit_outcome(outcome) == fork_usable(new_id@, bool_outcome(usable)),
{
    match usable {
        Err(error) => Err(error),
        Ok(true) => Ok(()),
        Ok(false) => Err(
            AppError::Other(
                join3(
                    "Codex 官方 fork ",
                    new_id,
                    " 的 provider 可见性复核未通过",
                ),
            ),
        ),
    }
}

/// The error after a fork was deleted because of another error. `deleted` tells whether it
/// could be deleted.
pub open spec fn compensated(
    thread_id: Seq<char>,
    primary: ErrorView,
    deleted: Result<(), ErrorView>,
) -> ErrorView {
    match deleted {
        Ok(()) => primary,
        Err(error) => ErrorView::Other(
            error_text(primary) + "；清理 Codex 官方 fork "@ + thread_id + " 失败："@
                + error_text(error),
        ),
    }
}

/// The error after a fork was deleted because of another error.
pub fn compensate_official_provider_fork(
    thread_id: &str,
    primary_error: AppError,
    deleted: Result<(), AppError>,
) -> (error: AppError)
    ensures
        error@ == compensated(thread_id@, primary_error@, unit_outcome(deleted)),
{
    match deleted {
        Ok(()) => primary_error,
        Err(cleanup_error) => AppError::Other(
            join5(
                primary_error.message().as_str(),
                "；清理 Codex 官方 fork ",
                thread_id,
                " 失败：",
                cleanup_error.message().as_str(),
            ),
        ),
    }
}

// ---------------------------------------------------------------------------
// How much a fork inherits
// ---------------------------------------------------------------------------

/// Gives each line that is not blank.
pub open spec fn filled() -> spec_fn(Seq<char>) -> Option<Seq<char>> {
    |line: Seq<char>|
        if trimmed(line).len() == 0 {
            None
        } else {
            Some(line)
        }
}

/// The count of lines in the history that metadata refers to; none where it says nothing
/// proper.
pub open spec fn base_len(meta: JsonView) -> u64 {
    match member(meta, "payload"@) {
        Some(payload) => match member(payload, "history_base"@) {
            Some(base) => match member(base, "end_ordinal_exclusive"@) {
                Some(end) => match as_unsigned(end) {
                    Some(count) => count,
                    None => 0,
                },
                None => 0,
            },
            None => 0,
        },
        None => 0,
    }
}

/// The count of lines that a rollout inherits, after its first line that is not blank.
pub open spec fn inherited_lines(text: Seq<char>) -> Result<u64, ErrorView> {
    match first_found(lines_of(text), filled()) {
        None => Ok(0),
        Some(line) => match json_reading(line) {
            Err(error) => Err(ErrorView::Outside(error)),
            Ok(meta) => Ok(base_len(meta)),
        },
    }
}

/// The count of lines in the history that metadata refers to.
pub fn history_base_length(meta: &Json) -> (count: u64)
    ensures
        count == base_len(meta.model()),
{
    let payload = match meta.get("payload") {
        Some(payload) => payload,
        None => return 0,
    };
    let base = match payload.get("history_base") {
        Some(base) => base,
        None => return 0,
    };
    match base.get("end_ordinal_exclusive") {
        Some(end) => match end.as_u64() {
            Some(count) => count,
            None => 0,
        },
        None => 0,
    }
}

fn first_filled(lines: &Vec<String>) -> (found: Option<&String>)
    ensures
        match found {
            Some(line) => first_found(texts(lines@), filled()) == Some(line@),
            None => first_found(texts(lines@), filled()) is None,
        },
{
    let ghost all = texts(lines@);
    let mut at: usize = 0;
    while at < lines.len()
        invariant
            at <= lines@.len(),
            all == texts(lines@),
            first_found(all.take(at as int), filled()) is None,
        decreases lines.len() - at,
    {
        assert(all.take(at + 1).drop_last() =~= all.take(at as int));
        assert(all.take(at + 1).last() == lines@[at as int]@);
        if !is_blank(lines[at].as_str()) {
            proof {
                crate::rollout::lemma_first_found_extends(all, filled(), at + 1);
            }
            return Some(&lines[at]);
        }
        at = at + 1;
    }
    assert(all.take(at as int) =~= all);
    None
}

/// The count of lines that a rollout inherits from the session that it was forked from.
pub fn paginated_history_base_len(text: &str) -> (count: Result<u64, AppError>)
    ensures
        match count {
            Ok(count) => inherited_lines(text@) == Ok::<u64, ErrorView>(count),
            Err(error) => inherited_lines(text@) == Err::<u64, ErrorView>(error@),
        },
{
    let all = lines(text);
    let first = match first_filled(&all) {
        Some(first) => first,
        None => return Ok(0),
    };
    match parse_or_explain(first.as_str()) {
        Ok(meta) => Ok(history_base_length(&meta)),
        Err(error) => Err(AppError::Outside(error)),
    }
}

/// A fork that Codex made is taken just where it could be named, its rollout is said and can be
/// reached, lies where rollouts may lie, states the fork, belongs to the provider as said, where
/// one is wanted, and has its history in pages.
pub proof fn law_when_a_fork_is_taken(
    new_id: Seq<char>,
    provider: Option<Seq<char>>,
    facts: ForkFactsView,
)
    ensures
        fork_verdict(new_id, provider, facts) is Ok <==> facts.named is Ok && facts.answered_path
            && facts.reached is Ok && facts.place is Ok && (facts.brief matches Ok(Some(brief))
            && brief.id == new_id && brief.history_mode == "paginated"@ && (provider matches Some(
            wanted,
        ) ==> brief.model_provider == wanted && facts.answered_provider == Some(wanted))),
        fork_verdict(new_id, provider, facts) matches Ok(brief) ==> facts.brief == Ok::<
            Option<BriefView>,
            ErrorView,
        >(Some(brief)),
{
}

/// A fork has another id than the session that it was made of.
pub proof fn law_forks_have_their_own_id(fork_id: Seq<char>, session_id: Seq<char>)
    ensures
        fork_id_verdict(fork_id, session_id) is Ok <==> fork_id != session_id,
{
}

/// A fork for another provider is entered just where its rollout is in the Codex directory, the
/// family is there, and the databases and the threads row are.
pub proof fn law_when_a_fork_is_entered(
    relative: bool,
    path: Seq<char>,
    family_found: bool,
    family_id: Seq<char>,
    state_db: Result<(), ErrorView>,
    thread_row: Result<(), ErrorView>,
)
    ensures
        entry_verdict(relative, path, family_found, family_id, state_db, thread_row) is Ok
            <==> relative && family_found && state_db is Ok && thread_row is Ok,
        relative && family_found ==> (state_db matches Err(error) ==> entry_verdict(
            relative,
            path,
            family_found,
            family_id,
            state_db,
            thread_row,
        ) == Err::<(), ErrorView>(error)),
{
}

/// A fork that cannot be used is refused, and nothing else is.
pub proof fn law_forks_have_to_be_usable(new_id: Seq<char>, usable: Result<bool, ErrorView>)
    ensures
        fork_usable(new_id, usable) is Ok <==> usable == Ok::<bool, ErrorView>(true),
        usable matches Err(error) ==> fork_usable(new_id, usable) == Err::<(), ErrorView>(error),
{
}

/// The error that made a fork be deleted is told; where the fork could not be deleted either, both
/// errors are, with the fork that is left.
pub proof fn law_first_error_is_told(
    thread_id: Seq<char>,
    primary: ErrorView,
    deleted: Result<(), ErrorView>,
)
    ensures
        deleted is Ok ==> compensated(thread_id, primary, deleted) == primary,
        deleted matches Err(error) ==> {
            let told = error_text(compensated(thread_id, primary, deleted));
            let first = error_text(primary);
            let second = error_text(error);
            &&& told.len() >= first.len() + thread_id.len() + second.len()
            &&& told.take(first.len() as int) == first
            &&& told.skip(told.len() - second.len()) == second
            &&& exists|k: int|
                first.len() <= k && k + thread_id.len() <= told.len() && #[trigger] told.subrange(
                    k,
                    k + thread_id.len(),
                ) == thread_id
        },
{
    if let Err(error) = deleted {
        let first = error_text(primary);
        let second = error_text(error);
        let middle = "；清理 Codex 官方 fork "@;
        let failed = " 失败："@;
        let told = first + middle + thread_id + failed + second;
        assert(error_text(compensated(thread_id, primary, deleted)) == told);
        assert(told.take(first.len() as int) =~= first);
        assert(told.skip(told.len() - second.len()) =~= second);
        let k = (first.len() + middle.len()) as int;
        assert(told.subrange(k, k + thread_id.len()) =~= thread_id);
    }
}

/// A fork is given the name under which its source is shown, or else the first message of the
/// source, and none where that is empty.
pub proof fn law_which_name_a_fork_gets(display: Option<Seq<char>>, first_message: Seq<char>)
    ensures
        display is Some ==> source_name(display, first_message) == display,
        display is None && first_message.len() > 0 ==> source_name(display, first_message) == Some(
            first_message,
        ),
        display is None && first_message.len() == 0 ==> source_name(display, first_message) is None,
{
}

/// The lines that a session in pages inherits are those that its metadata counts: what
/// `history_base.end_ordinal_exclusive` of its payload says, and none where it says nothing.
pub proof fn law_what_is_inherited(meta: JsonView, payload: JsonView, base: JsonView, end: u64)
    requires
        member(meta, "payload"@) == Some(payload),
        member(payload, "history_base"@) == Some(base),
    ensures
        member(base, "end_ordinal_exclusive"@) == Some(JsonView::Unsigned(end)) ==> base_len(meta)
            == end,
        member(base, "end_ordinal_exclusive"@) is None ==> base_len(meta) == 0,
{
}

} // verus!
