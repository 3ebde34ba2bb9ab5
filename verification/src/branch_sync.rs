//! How far two branches of a family hold the same conversation, and bringing one level with
//! the other.

use vstd::prelude::*;

use crate::error::{unit_outcome, AppError, ErrorView};
use crate::json::{json_document, json_text, member, member_text, parse, Json, JsonView};
use crate::rollout_copy::lines_outcome;
use crate::session_meta::{line_meta, rewrite_session_meta_identity, rewritten, with_identity};
use crate::text::{decimal, decimal_text, join3, join5, same, texts};

verus! {

// ---------------------------------------------------------------------------
// The conversation of a rollout
// ---------------------------------------------------------------------------

/// Whether a record marks that its rollout was copied.
pub open spec fn is_trace(record: JsonView) -> bool {
    member_text(record, "type"@) == Some("event_msg"@) && (member(record, "payload"@) matches Some(
        payload,
    ) && member_text(payload, "type"@) == Some("session_cloned"@))
}

/// Whether a line marks that its rollout was copied.
pub open spec fn is_trace_line(line: Seq<char>) -> bool {
    json_document(line) matches Some(record) && is_trace(record)
}

/// The lines that are no marks of copies, in order.
pub open spec fn untraced(lines: Seq<Seq<char>>) -> Seq<Seq<char>>
    decreases lines.len(),
{
    if lines.len() == 0 {
        Seq::empty()
    } else if is_trace_line(lines.last()) {
        untraced(lines.drop_last())
    } else {
        untraced(lines.drop_last()).push(lines.last())
    }
}

/// The conversation of a rollout: its lines but for the first, which is its metadata, and
/// for marks of copies.
pub open spec fn body_of(lines: Seq<Seq<char>>) -> Seq<Seq<char>> {
    if lines.len() == 0 {
        Seq::empty()
    } else {
        untraced(lines.skip(1))
    }
}

/// Whether a record marks that its rollout was copied.
pub fn is_clone_trace(record: &Json) -> (trace: bool)
    ensures
        trace == is_trace(record.model()),
{
    if !record.has_str("type", "event_msg") {
        return false;
    }
    match record.get("payload") {
        Some(payload) => payload.has_str("type", "session_cloned"),
        None => false,
    }
}

/// Whether a line marks that its rollout was copied.
pub fn is_clone_trace_line(line: &str) -> (trace: bool)
    ensures
        trace == is_trace_line(line@),
{
    match parse(line) {
        Some(record) => is_clone_trace(&record),
        None => false,
    }
}

/// The conversation of a rollout.
pub fn comparable_body(lines: &Vec<String>) -> (body: Vec<String>)
    ensures
        texts(body@) == body_of(texts(lines@)),
{
    let ghost all = texts(lines@);
    let mut body: Vec<String> = Vec::new();
    assert(texts(body@) =~= Seq::empty());
    if lines.len() == 0 {
        return body;
    }
    let ghost rest = all.skip(1);
    let mut at: usize = 1;
    assert(rest.take(0) =~= Seq::empty());
    while at < lines.len()
        invariant
            1 <= at <= lines@.len(),
            all == texts(lines@),
            rest == all.skip(1),
            texts(body@) == untraced(rest.take(at - 1)),
        decreases lines.len() - at,
    {
        let ghost before = texts(body@);
        assert(rest.take(at as int).drop_last() =~= rest.take(at - 1));
        assert(rest.take(at as int).last() == lines@[at as int]@);
        if !is_clone_trace_line(lines[at].as_str()) {
            body.push(lines[at].clone());
            assert(texts(body@) =~= before.push(lines@[at as int]@));
        }
        at = at + 1;
    }
    assert(rest.take(at - 1) =~= rest);
    body
}

// ---------------------------------------------------------------------------
// Comparing
// ---------------------------------------------------------------------------

/// How many lines two conversations share from their start.
pub open spec fn common_lines(left: Seq<Seq<char>>, right: Seq<Seq<char>>) -> nat
    decreases left.len(),
{
    if left.len() > 0 && right.len() > 0 && left[0] == right[0] {
        1 + common_lines(left.drop_first(), right.drop_first())
    } else {
        0
    }
}

/// How the conversation of a branch relates to that of the active one, how many of its
/// lines the active one lacks, and how many of the active one it lacks.
pub open spec fn relation(active: Seq<Seq<char>>, branch: Seq<Seq<char>>) -> (Seq<char>, nat, nat) {
    if branch == active {
        ("same"@, 0, 0)
    } else if branch.len() > active.len() && active.is_prefix_of(branch) {
        ("branch_ahead"@, (branch.len() - active.len()) as nat, 0)
    } else if active.len() > branch.len() && branch.is_prefix_of(active) {
        ("active_ahead"@, 0, (active.len() - branch.len()) as nat)
    } else {
        ("diverged"@, 0, 0)
    }
}

fn count_common(left: &Vec<String>, right: &Vec<String>) -> (count: usize)
    ensures
        count == common_lines(texts(left@), texts(right@)),
        count <= left@.len(),
        count <= right@.len(),
        forall|i: int| 0 <= i < count ==> texts(left@)[i] == texts(right@)[i],
        count < left@.len() && count < right@.len() ==> texts(left@)[count as int] != texts(
            right@,
        )[count as int],
{
    let ghost a = texts(left@);
    let ghost b = texts(right@);
    let mut at: usize = 0;
    assert(a.skip(0) =~= a && b.skip(0) =~= b);
    while at < left.len() && at < right.len() && same(left[at].as_str(), right[at].as_str())
        invariant
            at <= left@.len(),
            at <= right@.len(),
            a == texts(left@),
            b == texts(right@),
            forall|i: int| 0 <= i < at ==> a[i] == b[i],
            common_lines(a, b) == at + common_lines(a.skip(at as int), b.skip(at as int)),
        decreases left.len() - at,
    {
        assert(a.skip(at as int)[0] == a[at as int]);
        assert(b.skip(at as int)[0] == b[at as int]);
        assert(a.skip(at as int).drop_first() =~= a.skip(at + 1));
        assert(b.skip(at as int).drop_first() =~= b.skip(at + 1));
        at = at + 1;
    }
    assert(common_lines(a.skip(at as int), b.skip(at as int)) == 0) by {
        if at < left@.len() && at < right@.len() {
            assert(a.skip(at as int)[0] == a[at as int]);
            assert(b.skip(at as int)[0] == b[at as int]);
        }
    }
    at
}

proof fn lemma_common_all(left: Seq<Seq<char>>, right: Seq<Seq<char>>, count: int)
    requires
        0 <= count <= left.len(),
        count <= right.len(),
        forall|i: int| 0 <= i < count ==> left[i] == right[i],
        count < left.len() && count < right.len() ==> left[count] != right[count],
    ensures
        (left == right) == (count == left.len() && count == right.len()),
        left.is_prefix_of(right) == (count == left.len()),
        right.is_prefix_of(left) == (count == right.len()),
{
    if count == left.len() {
        assert(right.subrange(0, count) =~= left);
        if count == right.len() {
            assert(left =~= right);
        }
    }
    if count == right.len() {
        assert(left.subrange(0, count) =~= right);
    }
    if left.is_prefix_of(right) && count < left.len() {
        assert(right.subrange(0, left.len() as int)[count] == right[count]);
    }
    if right.is_prefix_of(left) && count < right.len() {
        assert(left.subrange(0, right.len() as int)[count] == left[count]);
    }
}

/// How the conversation of a branch relates to that of the active one, and how many lines
/// either lacks.
pub fn compare_rollout_lines(active_lines: &Vec<String>, branch_lines: &Vec<String>) -> (outcome: (
    String,
    u32,
    u32,
))
    ensures
        ({
            let expected = relation(body_of(texts(active_lines@)), body_of(texts(branch_lines@)));
            &&& outcome.0@ == expected.0
            &&& outcome.1 == expected.1 as u32
            &&& outcome.2 == expected.2 as u32
        }),
{
    let active = comparable_body(active_lines);
    let branch = comparable_body(branch_lines);
    let common = count_common(&active, &branch);
    proof {
        lemma_common_all(texts(active@), texts(branch@), common as int);
    }
    if common == active.len() && common == branch.len() {
        ("same".to_owned(), 0, 0)
    } else if common == active.len() {
        ("branch_ahead".to_owned(), (branch.len() - active.len()) as u32, 0)
    } else if common == branch.len() {
        ("active_ahead".to_owned(), 0, (active.len() - branch.len()) as u32)
    } else {
        ("diverged".to_owned(), 0, 0)
    }
}

/// What is said of two conversations that went different ways.
pub open spec fn divergence_text(active: Seq<Seq<char>>, branch: Seq<Seq<char>>) -> Seq<char> {
    "两份 rollout 在共同前缀 "@ + decimal(common_lines(active, branch))
        + " 行后均有不同记录，无法安全做前缀同步；模型切换本身不会创建会话分支"@
}

/// What is said of two rollouts whose conversations went different ways.
pub fn describe_rollout_divergence(active_lines: &Vec<String>, branch_lines: &Vec<String>) -> (text:
    String)
    ensures
        text@ == divergence_text(body_of(texts(active_lines@)), body_of(texts(branch_lines@))),
{
    let active = comparable_body(active_lines);
    let branch = comparable_body(branch_lines);
    let common = count_common(&active, &branch);
    join3(
        "两份 rollout 在共同前缀 ",
        decimal_text(common as u64).as_str(),
        " 行后均有不同记录，无法安全做前缀同步；模型切换本身不会创建会话分支",
    )
}

/// Comparing the other way round gives the mirrored answer.
pub proof fn law_comparison_is_symmetric(active: Seq<Seq<char>>, branch: Seq<Seq<char>>)
    ensures
        ({
            let there = relation(active, branch);
            let back = relation(branch, active);
            &&& back.1 == there.2 && back.2 == there.1
            &&& back.0 == if there.0 == "branch_ahead"@ {
                "active_ahead"@
            } else if there.0 == "active_ahead"@ {
                "branch_ahead"@
            } else {
                there.0
            }
        }),
{
    reveal_strlit("same");
    reveal_strlit("branch_ahead");
    reveal_strlit("active_ahead");
    reveal_strlit("diverged");
    assert("same"@.len() == 4 && "diverged"@.len() == 8);
    assert("branch_ahead"@.len() == 12 && "active_ahead"@.len() == 12);
    assert("branch_ahead"@[0] == 'b' && "active_ahead"@[0] == 'a');
}

/// Two conversations are told to be the same just where they are.
pub proof fn law_same_means_equal(active: Seq<Seq<char>>, branch: Seq<Seq<char>>)
    ensures
        relation(active, branch).0 == "same"@ <==> active == branch,
{
    reveal_strlit("same");
    reveal_strlit("branch_ahead");
    reveal_strlit("active_ahead");
    reveal_strlit("diverged");
    assert("same"@.len() == 4 && "diverged"@.len() == 8);
    assert("branch_ahead"@.len() == 12 && "active_ahead"@.len() == 12);
}

/// A line that marks a copy never changes how two rollouts compare.
pub proof fn law_traces_do_not_count(lines: Seq<Seq<char>>, at: int, trace: Seq<char>)
    requires
        1 <= at <= lines.len(),
        is_trace_line(trace),
    ensures
        body_of(lines.insert(at, trace)) == body_of(lines),
    decreases lines.len(),
{
    let more = lines.insert(at, trace);
    assert(more.skip(1) =~= lines.skip(1).insert(at - 1, trace));
    lemma_untraced_insert(lines.skip(1), at - 1, trace);
}

proof fn lemma_untraced_insert(lines: Seq<Seq<char>>, at: int, trace: Seq<char>)
    requires
        0 <= at <= lines.len(),
        is_trace_line(trace),
    ensures
        untraced(lines.insert(at, trace)) == untraced(lines),
    decreases lines.len(),
{
    let more = lines.insert(at, trace);
    if at == lines.len() {
        assert(more.drop_last() =~= lines);
        assert(more.last() == trace);
    } else {
        assert(more.drop_last() =~= lines.drop_last().insert(at, trace));
        assert(more.last() == lines.last());
        lemma_untraced_insert(lines.drop_last(), at, trace);
    }
}

// ---------------------------------------------------------------------------
// Bringing a branch level
// ---------------------------------------------------------------------------

/// Whether the conversation of a source goes on where that of a target ends, or why it does
/// not.
pub open spec fn prefix_verdict(source: Seq<Seq<char>>, target: Seq<Seq<char>>) -> Result<
    (),
    ErrorView,
> {
    if source.len() == 0 || target.len() == 0 {
        Err(ErrorView::Other("源或目标分支为空 rollout"@))
    } else {
        let new = body_of(source);
        let old = body_of(target);
        if new.len() <= old.len() {
            Err(
                ErrorView::Other(
                    "源分支无新增内容（源 "@ + decimal(new.len()) + " 行，目标 "@ + decimal(old.len())
                        + " 行；不计 session_meta 与克隆痕迹）"@,
                ),
            )
        } else if !old.is_prefix_of(new) {
            Err(
                ErrorView::Other(
                    "两份内容从第 "@ + decimal(common_lines(old, new) + 1)
                        + " 行（不计 session_meta 与克隆痕迹）开始出现冲突，无法安全同步。请先切换分支后人工处理"@,
                ),
            )
        } else {
            Ok(())
        }
    }
}

/// Refuses a source whose conversation does not go on where that of the target ends.
pub fn validate_source_has_target_prefix(source_lines: &Vec<String>, target_lines: &Vec<String>) -> (outcome:
    Result<(), AppError>)
    ensures
        unit_outcome(outcome) == prefix_verdict(texts(source_lines@), texts(target_lines@)),
{
    if source_lines.len() == 0 || target_lines.len() == 0 {
        return Err(AppError::Other("源或目标分支为空 rollout".to_owned()));
    }
    let source = comparable_body(source_lines);
    let target = comparable_body(target_lines);
    if source.len() <= target.len() {
        return Err(
            AppError::Other(
                join5(
                    "源分支无新增内容（源 ",
                    decimal_text(source.len() as u64).as_str(),
                    " 行，目标 ",
                    decimal_text(target.len() as u64).as_str(),
                    " 行；不计 session_meta 与克隆痕迹）",
                ),
            ),
        );
    }
    let common = count_common(&target, &source);
    proof {
        lemma_common_all(texts(target@), texts(source@), common as int);
    }
    if common < target.len() {
        return Err(
            AppError::Other(
                join3(
                    "两份内容从第 ",
                    decimal_text(common as u64 + 1).as_str(),
                    " 行（不计 session_meta 与克隆痕迹）开始出现冲突，无法安全同步。请先切换分支后人工处理",
                ),
            ),
        );
    }
    Ok(())
}

/// A source that goes on where a target ends is ahead of it, and only such a source is.
pub proof fn law_only_sources_ahead_can_be_appended(
    source: Seq<Seq<char>>,
    target: Seq<Seq<char>>,
)
    requires
        source.len() > 0,
        target.len() > 0,
    ensures
        prefix_verdict(source, target) is Ok <==> relation(
            body_of(target),
            body_of(source),
        ).0 == "branch_ahead"@,
{
    reveal_strlit("same");
    reveal_strlit("branch_ahead");
    reveal_strlit("active_ahead");
    reveal_strlit("diverged");
    assert("same"@.len() == 4 && "diverged"@.len() == 8);
    assert("branch_ahead"@.len() == 12 && "active_ahead"@.len() == 12);
    assert("branch_ahead"@[0] == 'b' && "active_ahead"@[0] == 'a');
}

/// Lines with the metadata of a session given another identity.
pub open spec fn adopted(
    lines: Seq<Seq<char>>,
    source: Seq<char>,
    target: Seq<char>,
    provider: Seq<char>,
) -> Result<Seq<Seq<char>>, ErrorView>
    decreases lines.len(),
{
    if lines.len() == 0 {
        Ok(Seq::empty())
    } else {
        match adopted(lines.drop_last(), source, target, provider) {
            Err(error) => Err(error),
            Ok(before) => match rewritten(lines.last(), source, target, provider, None) {
                Err(error) => Err(error),
                Ok(Some(line)) => Ok(before.push(line)),
                Ok(None) => Ok(before.push(lines.last())),
            },
        }
    }
}

proof fn lemma_adopted_error(
    lines: Seq<Seq<char>>,
    source: Seq<char>,
    target: Seq<char>,
    provider: Seq<char>,
    at: int,
)
    requires
        0 <= at <= lines.len(),
        adopted(lines.take(at), source, target, provider) is Err,
    ensures
        adopted(lines, source, target, provider) == adopted(
            lines.take(at),
            source,
            target,
            provider,
        ),
    decreases lines.len(),
{
    if at < lines.len() {
        assert(lines.drop_last().take(at) =~= lines.take(at));
        lemma_adopted_error(lines.drop_last(), source, target, provider, at);
    } else {
        assert(lines.take(at) =~= lines);
    }
}

fn adopt_lines(
    lines: &Vec<String>,
    from: usize,
    source: &str,
    target: &str,
    provider: &str,
) -> (outcome: Result<Vec<String>, AppError>)
    requires
        from <= lines@.len(),
    ensures
        lines_outcome(outcome) == adopted(
            texts(lines@).skip(from as int),
            source@,
            target@,
            provider@,
        ),
        outcome matches Ok(kept) ==> kept@.len() == lines@.len() - from,
{
    let ghost all = texts(lines@).skip(from as int);
    let mut kept: Vec<String> = Vec::new();
    assert(texts(kept@) =~= Seq::empty());
    assert(all.take(0) =~= Seq::empty());
    let mut at: usize = from;
    while at < lines.len()
        invariant
            from <= at <= lines@.len(),
            all == texts(lines@).skip(from as int),
            kept@.len() == at - from,
            adopted(all.take(at - from), source@, target@, provider@) == Ok::<
                Seq<Seq<char>>,
                ErrorView,
            >(texts(kept@)),
        decreases lines.len() - at,
    {
        let ghost before = texts(kept@);
        assert(all.take(at + 1 - from).drop_last() =~= all.take(at - from));
        assert(all.take(at + 1 - from).last() == lines@[at as int]@);
        match rewrite_session_meta_identity(lines[at].as_str(), source, target, provider, None) {
            Err(error) => {
                proof {
                    lemma_adopted_error(all, source@, target@, provider@, at + 1 - from);
                }
                return Err(error);
            },
            Ok(Some(line)) => {
                kept.push(line);
                assert(texts(kept@) =~= before.push(line@));
            },
            Ok(None) => {
                kept.push(lines[at].clone());
                assert(texts(kept@) =~= before.push(lines@[at as int]@));
            },
        }
        at = at + 1;
    }
    assert(all.take(at - from) =~= all);
    Ok(kept)
}

/// The branch of a sync: its session and its provider.
pub struct SyncSide<'a> {
    pub id: &'a str,
    pub provider: &'a str,
}

/// What bringing a target level writes, and how many lines are new and in all.
pub struct SyncPlan {
    pub lines: Vec<String>,
    pub appended: u32,
    pub total: u32,
}

/// What a [`SyncPlan`] holds.
#[verifier::ext_equal]
pub struct SyncPlanView {
    pub lines: Seq<Seq<char>>,
    pub appended: nat,
    pub total: nat,
}

impl View for SyncPlan {
    type V = SyncPlanView;

    open spec fn view(&self) -> SyncPlanView {
        SyncPlanView {
            lines: texts(self.lines@),
            appended: self.appended as nat,
            total: self.total as nat,
        }
    }
}

/// What bringing a target level with a source writes: the metadata of the target, its
/// conversation, and what the source has beyond it, all in the name of the target. `ready`
/// tells whether the databases can take the change.
pub open spec fn sync_plan(
    source_id: Seq<char>,
    target_id: Seq<char>,
    provider: Seq<char>,
    source: Seq<Seq<char>>,
    target: Seq<Seq<char>>,
    ready: Result<(), ErrorView>,
) -> Result<SyncPlanView, ErrorView> {
    let new = body_of(source);
    let old = body_of(target);
    match prefix_verdict(source, target) {
        Err(error) => Err(error),
        Ok(()) => match adopted(new.skip(old.len() as int), source_id, target_id, provider) {
            Err(error) => Err(error),
            Ok(extras) => if extras.len() > u32::MAX {
                Err(ErrorView::Other("同步增量行数超过 u32 可表示范围"@))
            } else if 1 + old.len() + extras.len() > u32::MAX {
                Err(ErrorView::Other("同步后总行数超过 u32 可表示范围"@))
            } else if ready is Err {
                Err(ready->Err_0)
            } else {
                match adopted(old, target_id, target_id, provider) {
                    Err(error) => Err(error),
                    Ok(kept) => Ok(
                        SyncPlanView {
                            lines: seq![target[0]] + kept + extras,
                            appended: extras.len(),
                            total: 1 + old.len() + extras.len(),
                        },
                    ),
                }
            },
        },
    }
}

/// What the outcome of planning a sync holds.
pub open spec fn plan_outcome(outcome: Result<SyncPlan, AppError>) -> Result<
    SyncPlanView,
    ErrorView,
> {
    match outcome {
        Ok(plan) => Ok(plan@),
        Err(error) => Err(error@),
    }
}

/// Plans to bring a target level with a source. `ready` tells whether the databases can
/// take the change.
pub fn plan_branch_sync(
    source_id: &str,
    target: SyncSide,
    source_lines: &Vec<String>,
    target_lines: &Vec<String>,
    ready: &Result<(), AppError>,
) -> (plan: Result<SyncPlan, AppError>)
    ensures
        plan_outcome(plan) == sync_plan(
            source_id@,
            target.id@,
            target.provider@,
            texts(source_lines@),
            texts(target_lines@),
            unit_outcome(*ready),
        ),
{
    if let Err(error) = validate_source_has_target_prefix(source_lines, target_lines) {
        return Err(error);
    }
    let source_body = comparable_body(source_lines);
    let target_body = comparable_body(target_lines);
    let extras = match adopt_lines(
        &source_body,
        target_body.len(),
        source_id,
        target.id,
        target.provider,
    ) {
        Ok(extras) => extras,
        Err(error) => return Err(error),
    };
    if extras.len() > u32::MAX as usize {
        return Err(AppError::Other("同步增量行数超过 u32 可表示范围".to_owned()));
    }
    let appended = extras.len() as u32;
    let room: usize = (u32::MAX - appended) as usize;
    if target_body.len() >= room {
        return Err(AppError::Other("同步后总行数超过 u32 可表示范围".to_owned()));
    }
    let total = 1 + target_body.len() as u32 + appended;
    if let Err(error) = ready {
        return Err(error.copy());
    }
    let kept = match adopt_lines(&target_body, 0, target.id, target.id, target.provider) {
        Ok(kept) => kept,
        Err(error) => {
            assert(texts(target_body@).skip(0) =~= texts(target_body@));
            return Err(error);
        },
    };
    assert(texts(target_body@).skip(0) =~= texts(target_body@));
    let mut lines: Vec<String> = Vec::new();
    lines.push(target_lines[0].clone());
    let ghost first = lines@;
    let mut kept = kept;
    let mut extras = extras;
    let ghost second = kept@;
    let ghost third = extras@;
    lines.append(&mut kept);
    lines.append(&mut extras);
    assert(texts(first) =~= seq![texts(target_lines@)[0]]);
    assert(texts(first + second + third) =~= texts(first) + texts(second) + texts(third));
    Ok(SyncPlan { lines, appended, total })
}

proof fn lemma_adopted_plain(
    lines: Seq<Seq<char>>,
    source: Seq<char>,
    target: Seq<char>,
    provider: Seq<char>,
)
    requires
        forall|i: int|
            0 <= i < lines.len() ==> line_meta(#[trigger] lines[i], source) == Ok::<
                Option<JsonView>,
                ErrorView,
            >(None),
    ensures
        adopted(lines, source, target, provider) == Ok::<Seq<Seq<char>>, ErrorView>(lines),
    decreases lines.len(),
{
    if lines.len() > 0 {
        let rest = lines.drop_last();
        assert forall|i: int| 0 <= i < rest.len() implies line_meta(#[trigger] rest[i], source)
            == Ok::<Option<JsonView>, ErrorView>(None) by {
            assert(rest[i] == lines[i]);
        }
        lemma_adopted_plain(rest, source, target, provider);
        assert(line_meta(lines[lines.len() - 1], source) == Ok::<Option<JsonView>, ErrorView>(
            None,
        ));
        assert(rest.push(lines.last()) =~= lines);
    } else {
        assert(lines =~= Seq::empty());
    }
}

proof fn lemma_untraced_all(lines: Seq<Seq<char>>)
    ensures
        forall|i: int|
            0 <= i < untraced(lines).len() ==> !is_trace_line(#[trigger] untraced(lines)[i]),
        untraced(untraced(lines)) == untraced(lines),
    decreases lines.len(),
{
    if lines.len() > 0 {
        lemma_untraced_all(lines.drop_last());
        let before = untraced(lines.drop_last());
        assert(before.push(lines.last()).drop_last() =~= before);
    }
}

/// After a target was brought level with a source, both hold the same conversation, where
/// that has no further metadata of either session.
pub proof fn law_sync_brings_level(
    source_id: Seq<char>,
    target_id: Seq<char>,
    provider: Seq<char>,
    source: Seq<Seq<char>>,
    target: Seq<Seq<char>>,
    ready: Result<(), ErrorView>,
)
    requires
        forall|i: int|
            0 <= i < body_of(source).len() ==> line_meta(#[trigger] body_of(source)[i], source_id)
                == Ok::<Option<JsonView>, ErrorView>(None) && line_meta(
                body_of(source)[i],
                target_id,
            ) == Ok::<Option<JsonView>, ErrorView>(None),
    ensures
        sync_plan(source_id, target_id, provider, source, target, ready) matches Ok(plan)
            ==> body_of(plan.lines) == body_of(source) && plan.lines[0] == target[0] && plan.total == plan.lines.len()
            && plan.appended == body_of(source).len() - body_of(target).len(),
{
    let new = body_of(source);
    let old = body_of(target);
    if let Ok(plan) = sync_plan(source_id, target_id, provider, source, target, ready) {
        assert(old.is_prefix_of(new));
        let extras = new.skip(old.len() as int);
        assert forall|i: int| 0 <= i < old.len() implies line_meta(#[trigger] old[i], target_id)
            == Ok::<Option<JsonView>, ErrorView>(None) by {
            assert(old[i] == new.subrange(0, old.len() as int)[i]);
            assert(line_meta(new[i], target_id) == Ok::<Option<JsonView>, ErrorView>(None));
        }
        assert forall|i: int| 0 <= i < extras.len() implies line_meta(
            #[trigger] extras[i],
            source_id,
        ) == Ok::<Option<JsonView>, ErrorView>(None) by {
            assert(extras[i] == new[i + old.len()]);
        }
        lemma_adopted_plain(old, target_id, target_id, provider);
        lemma_adopted_plain(extras, source_id, target_id, provider);
        assert(plan.lines =~= seq![target[0]] + new);
        assert(plan.lines.skip(1) =~= new);
        lemma_untraced_all(source.skip(1));
    }
}

/// What is told of two conversations: a branch is ahead where it has all that the active one has,
/// in order and from the start, and more; how much more is told, for the one that lacks it. Where
/// neither starts the other they went different ways.
pub proof fn law_what_a_comparison_tells(active: Seq<Seq<char>>, branch: Seq<Seq<char>>)
    ensures
        ({
            let told = relation(active, branch);
            let branch_goes_on = active.len() < branch.len() && branch.take(active.len() as int)
                == active;
            let active_goes_on = branch.len() < active.len() && active.take(branch.len() as int)
                == branch;
            &&& active == branch ==> told == ("same"@, 0nat, 0nat)
            &&& branch_goes_on ==> told == (
                "branch_ahead"@,
                (branch.len() - active.len()) as nat,
                0nat,
            )
            &&& active_goes_on ==> told == (
                "active_ahead"@,
                0nat,
                (active.len() - branch.len()) as nat,
            )
            &&& active != branch && !branch_goes_on && !active_goes_on ==> told == (
                "diverged"@,
                0nat,
                0nat,
            )
        }),
{
    if active.is_prefix_of(branch) {
        assert(branch.take(active.len() as int) =~= active);
    }
    if branch.is_prefix_of(active) {
        assert(active.take(branch.len() as int) =~= branch);
    }
}

proof fn lemma_untraced_lines(lines: Seq<Seq<char>>, line: Seq<char>)
    ensures
        untraced(lines).contains(line) <==> lines.contains(line) && !is_trace_line(line),
    decreases lines.len(),
{
    if lines.len() > 0 {
        let rest = lines.drop_last();
        lemma_untraced_lines(rest, line);
        let all = lines;
        assert(all =~= rest.push(lines.last()));
        lemma_pushed(rest, lines.last(), line);
        lemma_pushed(untraced(rest), lines.last(), line);
    }
}

proof fn lemma_pushed(items: Seq<Seq<char>>, last: Seq<char>, text: Seq<char>)
    ensures
        items.push(last).contains(text) <==> items.contains(text) || text == last,
{
    let all = items.push(last);
    assert(all[items.len() as int] == last);
    if items.contains(text) {
        let k = choose|k: int| 0 <= k < items.len() && items[k] == text;
        assert(all[k] == text);
    }
    if all.contains(text) {
        let k = choose|k: int| 0 <= k < all.len() && all[k] == text;
        if k < items.len() {
            assert(items[k] == text);
        }
    }
}

/// The conversation of a rollout is all of its lines but the first, which is its metadata, and the
/// events that mark that it was copied.
pub proof fn law_what_belongs_to_a_conversation(lines: Seq<Seq<char>>, line: Seq<char>)
    requires
        lines.len() > 0,
    ensures
        body_of(lines).contains(line) <==> lines.skip(1).contains(line) && !(json_document(
            line,
        ) matches Some(record) && member_text(record, "type"@) == Some("event_msg"@) && (member(
            record,
            "payload"@,
        ) matches Some(payload) && member_text(payload, "type"@) == Some("session_cloned"@))),
{
    lemma_untraced_lines(lines.skip(1), line);
}

/// A conversation without marks of copies is all that follows the metadata, as it is.
pub proof fn law_conversations_keep_their_order(lines: Seq<Seq<char>>)
    requires
        lines.len() > 0,
        forall|i: int| 1 <= i < lines.len() ==> !is_trace_line(#[trigger] lines[i]),
    ensures
        body_of(lines) == lines.skip(1),
{
    let rest = lines.skip(1);
    assert forall|i: int| 0 <= i < rest.len() implies !is_trace_line(#[trigger] rest[i]) by {
        assert(rest[i] == lines[i + 1]);
    }
    lemma_untraced_whole(rest);
}

proof fn lemma_untraced_whole(lines: Seq<Seq<char>>)
    requires
        forall|i: int| 0 <= i < lines.len() ==> !is_trace_line(#[trigger] lines[i]),
    ensures
        untraced(lines) == lines,
    decreases lines.len(),
{
    if lines.len() > 0 {
        let rest = lines.drop_last();
        assert forall|i: int| 0 <= i < rest.len() implies !is_trace_line(#[trigger] rest[i]) by {
            assert(rest[i] == lines[i]);
        }
        lemma_untraced_whole(rest);
        assert(!is_trace_line(lines[lines.len() - 1]));
        assert(rest.push(lines.last()) =~= lines);
    } else {
        assert(untraced(lines) =~= lines);
    }
}

/// Lines that are taken over keep their order and their text, but that metadata of the source
/// becomes that of the target, under the provider of the target.
pub proof fn law_what_is_taken_over(
    lines: Seq<Seq<char>>,
    source: Seq<char>,
    target: Seq<char>,
    provider: Seq<char>,
)
    ensures
        adopted(lines, source, target, provider) matches Ok(taken) ==> taken.len() == lines.len()
            && forall|i: int|
            0 <= i < lines.len() ==> match line_meta(#[trigger] lines[i], source) {
                Ok(Some(meta)) => taken[i] == json_text(
                    with_identity(meta, target, provider, None),
                ),
                Ok(None) => taken[i] == lines[i],
                Err(_) => false,
            },
    decreases lines.len(),
{
    if lines.len() > 0 {
        law_what_is_taken_over(lines.drop_last(), source, target, provider);
        if let Ok(taken) = adopted(lines, source, target, provider) {
            let rest = lines.drop_last();
            let before = adopted(rest, source, target, provider)->Ok_0;
            assert forall|i: int| 0 <= i < lines.len() implies match line_meta(
                #[trigger] lines[i],
                source,
            ) {
                Ok(Some(meta)) => taken[i] == json_text(
                    with_identity(meta, target, provider, None),
                ),
                Ok(None) => taken[i] == lines[i],
                Err(_) => false,
            } by {
                if i < rest.len() {
                    assert(rest[i] == lines[i] && taken[i] == before[i]);
                }
            }
        }
    }
}

/// A branch is brought level just where it lacks something: both rollouts have lines, the
/// conversation of the target starts that of the source and is shorter, and the databases can be
/// had. No line of the conversations holds metadata, and they can be counted.
pub proof fn law_when_a_sync_is_planned(
    source_id: Seq<char>,
    target_id: Seq<char>,
    provider: Seq<char>,
    source: Seq<Seq<char>>,
    target: Seq<Seq<char>>,
    ready: Result<(), ErrorView>,
)
    requires
        body_of(source).len() < u32::MAX,
        forall|i: int|
            0 <= i < body_of(source).len() ==> line_meta(#[trigger] body_of(source)[i], source_id)
                == Ok::<Option<JsonView>, ErrorView>(None) && line_meta(
                body_of(source)[i],
                target_id,
            ) == Ok::<Option<JsonView>, ErrorView>(None),
    ensures
        sync_plan(source_id, target_id, provider, source, target, ready) is Ok <==> source.len() > 0
            && target.len() > 0 && body_of(target).len() < body_of(source).len() && body_of(
            source,
        ).take(body_of(target).len() as int) == body_of(target) && ready is Ok,
{
    let new = body_of(source);
    let old = body_of(target);
    if old.is_prefix_of(new) {
        assert(new.take(old.len() as int) =~= old);
        let extras = new.skip(old.len() as int);
        assert forall|i: int| 0 <= i < extras.len() implies line_meta(
            #[trigger] extras[i],
            source_id,
        ) == Ok::<Option<JsonView>, ErrorView>(None) by {
            assert(extras[i] == new[old.len() + i]);
        }
        assert forall|i: int| 0 <= i < old.len() implies line_meta(#[trigger] old[i], target_id)
            == Ok::<Option<JsonView>, ErrorView>(None) by {
            assert(old[i] == new[i]);
        }
        lemma_plain_lines_are_taken(extras, source_id, target_id, provider);
        lemma_plain_lines_are_taken(old, target_id, target_id, provider);
    }
}

proof fn lemma_plain_lines_are_taken(
    lines: Seq<Seq<char>>,
    source: Seq<char>,
    target: Seq<char>,
    provider: Seq<char>,
)
    requires
        forall|i: int|
            0 <= i < lines.len() ==> line_meta(#[trigger] lines[i], source) == Ok::<
                Option<JsonView>,
                ErrorView,
            >(None),
    ensures
        adopted(lines, source, target, provider) matches Ok(taken) && taken == lines,
    decreases lines.len(),
{
    if lines.len() > 0 {
        let rest = lines.drop_last();
        assert forall|i: int| 0 <= i < rest.len() implies line_meta(#[trigger] rest[i], source)
            == Ok::<Option<JsonView>, ErrorView>(None) by {
            assert(rest[i] == lines[i]);
        }
        lemma_plain_lines_are_taken(rest, source, target, provider);
        assert(line_meta(lines[lines.len() - 1], source) == Ok::<Option<JsonView>, ErrorView>(
            None,
        ));
        assert(rest.push(lines.last()) =~= lines);
    } else {
        assert(adopted(lines, source, target, provider)->Ok_0 =~= lines);
    }
}

/// Whatever lines it holds, a rollout that was brought level keeps its own metadata first, has as
/// many lines as it is told, and grew by as many as its conversation lacked.
pub proof fn law_sync_appends_what_is_missing(
    source_id: Seq<char>,
    target_id: Seq<char>,
    provider: Seq<char>,
    source: Seq<Seq<char>>,
    target: Seq<Seq<char>>,
    ready: Result<(), ErrorView>,
)
    ensures
        sync_plan(source_id, target_id, provider, source, target, ready) matches Ok(plan) ==> {
            &&& plan.lines[0] == target[0]
            &&& plan.lines.len() == plan.total
            &&& plan.total == 1 + body_of(source).len()
            &&& plan.appended == body_of(source).len() - body_of(target).len()
            &&& plan.appended > 0
            &&& ready is Ok
        },
{
    law_what_is_taken_over(
        body_of(source).skip(body_of(target).len() as int),
        source_id,
        target_id,
        provider,
    );
    law_what_is_taken_over(body_of(target), target_id, target_id, provider);
}

} // verus!
