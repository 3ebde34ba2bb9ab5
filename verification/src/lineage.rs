//! How copies of a session relate to it.

use vstd::prelude::*;

use crate::branch_sync::{body_of, is_trace_line, relation, untraced};
use crate::error::ErrorView;
use crate::json::JsonView;
use crate::rollout_copy::{
    cloned_lines, filled_lines, law_clone_keeps_the_conversation, CopyIdentityView,
};
use crate::rollout_fork::{copied_body, duplicated_rollout};
use crate::session_meta::line_meta;
use crate::stable_prefix::{
    forked_rollout, prefix_progress, stable_prefix, PrefixLineView, PrefixView,
};
use crate::text::trimmed;

verus! {

/// Whether no line of a rollout is blank.
pub open spec fn no_blanks(lines: Seq<Seq<char>>) -> bool {
    forall|i: int| 0 <= i < lines.len() ==> trimmed(#[trigger] lines[i]).len() > 0
}

/// Whether a rollout has the metadata of its session in its first line, and nowhere else.
pub open spec fn meta_comes_first(lines: Seq<Seq<char>>, id: Seq<char>) -> bool {
    &&& lines.len() > 0
    &&& line_meta(lines[0], id) matches Ok(Some(_))
    &&& forall|i: int|
        1 <= i < lines.len() ==> line_meta(#[trigger] lines[i], id) == Ok::<
            Option<JsonView>,
            ErrorView,
        >(None)
}

proof fn lemma_no_blanks(lines: Seq<Seq<char>>)
    requires
        no_blanks(lines),
    ensures
        filled_lines(lines) == lines,
    decreases lines.len(),
{
    if lines.len() > 0 {
        let rest = lines.drop_last();
        assert forall|i: int| 0 <= i < rest.len() implies trimmed(#[trigger] rest[i]).len()
            > 0 by {
            assert(rest[i] == lines[i]);
        }
        lemma_no_blanks(rest);
        assert(lines[lines.len() - 1] == lines.last());
        assert(rest.push(lines.last()) =~= lines);
    } else {
        assert(filled_lines(lines) =~= lines);
    }
}

proof fn lemma_untraced_take(lines: Seq<Seq<char>>, count: int)
    requires
        0 <= count <= lines.len(),
    ensures
        untraced(lines.take(count)).is_prefix_of(untraced(lines)),
    decreases lines.len(),
{
    if count < lines.len() {
        assert(lines.drop_last().take(count) =~= lines.take(count));
        lemma_untraced_take(lines.drop_last(), count);
        let shorter = untraced(lines.take(count));
        let rest = untraced(lines.drop_last());
        assert(rest.is_prefix_of(untraced(lines)));
        assert(shorter =~= rest.take(shorter.len() as int));
        assert(shorter =~= untraced(lines).take(shorter.len() as int));
    } else {
        assert(lines.take(count) =~= lines);
    }
}

/// A copy for another provider is level with its source. The source has no blank lines, and
/// the metadata of its session only in its first line.
pub proof fn law_clone_is_level(lines: Seq<Seq<char>>, copy: CopyIdentityView)
    requires
        no_blanks(lines),
        meta_comes_first(lines, copy.source_id),
    ensures
        cloned_lines(lines, copy) matches Ok((copied, _)) ==> relation(
            body_of(lines),
            body_of(copied),
        ) == ("same"@, 0nat, 0nat),
{
    law_clone_keeps_the_conversation(lines, copy);
    lemma_no_blanks(lines);
    if let Ok((copied, _)) = cloned_lines(lines, copy) {
        assert forall|i: int| 1 <= i < lines.len() implies #[trigger] copied[i] == lines[i] by {
            assert(filled_lines(lines)[i] == lines[i]);
        }
        assert(copied.skip(1) =~= lines.skip(1));
    }
}

proof fn lemma_copied_body(lines: Seq<Seq<char>>, id: Seq<char>)
    requires
        no_blanks(lines),
        lines.len() > 0,
        line_meta(lines[0], id) matches Ok(Some(_)),
    ensures
        copied_body(lines, id) matches Ok(body) && body.skipped && body.lines == lines.skip(1),
    decreases lines.len(),
{
    let rest = lines.drop_last();
    assert(lines[lines.len() - 1] == lines.last());
    if lines.len() == 1 {
        assert(rest.len() == 0);
        assert(copied_body(rest, id) is Ok);
        assert(lines.last() == lines[0]);
        assert(copied_body(lines, id)->Ok_0.lines =~= lines.skip(1));
    } else {
        assert(rest[0] == lines[0]);
        assert forall|i: int| 0 <= i < rest.len() implies trimmed(#[trigger] rest[i]).len()
            > 0 by {
            assert(rest[i] == lines[i]);
        }
        lemma_copied_body(rest, id);
        assert(rest.skip(1).push(lines.last()) =~= lines.skip(1));
    }
}

/// An independent copy is level with its source, or ahead of it where it was told that its
/// last turn was interrupted. The source starts with the metadata of its session and has no
/// blank lines.
pub proof fn law_duplicate_is_not_behind(
    lines: Seq<Seq<char>>,
    copy: CopyIdentityView,
    ended_at: Seq<char>,
    path: Seq<char>,
)
    requires
        no_blanks(lines),
        lines.len() > 0,
        line_meta(lines[0], copy.source_id) matches Ok(Some(_)),
    ensures
        duplicated_rollout(lines, copy, ended_at, path) matches Ok(copied) ==> body_of(
            lines,
        ).is_prefix_of(body_of(copied)) && (relation(body_of(lines), body_of(copied)).0 == "same"@
            || relation(body_of(lines), body_of(copied)).0 == "branch_ahead"@),
{
    lemma_copied_body(lines, copy.source_id);
    if let Ok(copied) = duplicated_rollout(lines, copy, ended_at, path) {
        let own = lines.skip(1);
        assert(copied.skip(1).take(own.len() as int) =~= own);
        lemma_untraced_take(copied.skip(1), own.len() as int);
        let left = body_of(lines);
        let right = body_of(copied);
        assert(left.is_prefix_of(right));
        if left.len() == right.len() {
            assert(left =~= right);
        }
    }
}

/// A prefix holds every line up to its message that is not blank.
pub proof fn law_prefix_is_complete(lines: Seq<Seq<char>>, event_index: int)
    requires
        0 <= event_index,
    ensures
        prefix_progress(lines, event_index) matches Ok(progress) ==> progress.lines.map_values(
            |line: PrefixLineView| line.raw,
        ) == filled_lines(
            lines.take(
                if event_index < lines.len() {
                    event_index + 1
                } else {
                    lines.len() as int
                },
            ),
        ),
    decreases lines.len(),
{
    let raw = |line: PrefixLineView| line.raw;
    if lines.len() == 0 {
        assert(lines.take(0) =~= lines);
        if let Ok(progress) = prefix_progress(lines, event_index) {
            assert(progress.lines.map_values(raw) =~= Seq::empty());
        }
    } else {
        let rest = lines.drop_last();
        law_prefix_is_complete(rest, event_index);
        if let Ok(progress) = prefix_progress(lines, event_index) {
            let before = prefix_progress(rest, event_index)->Ok_0;
            if event_index < lines.len() - 1 {
                assert(lines.take(event_index + 1) =~= rest.take(event_index + 1));
            } else {
                let upto = if event_index < lines.len() {
                    event_index + 1
                } else {
                    lines.len() as int
                };
                assert(lines.take(upto) =~= lines);
                assert(rest.take(rest.len() as int) =~= rest);
                if trimmed(lines.last()).len() > 0 {
                    assert(progress.lines.map_values(raw) =~= before.lines.map_values(raw).push(
                        lines.last(),
                    ));
                }
            }
        }
    }
}

/// A fork is never ahead of its source: what it holds of the conversation is what the source
/// starts with. The source has no blank lines.
pub proof fn law_fork_is_not_ahead(
    lines: Seq<Seq<char>>,
    event_index: int,
    prefix: PrefixView,
    new_id: Seq<char>,
    provider: Seq<char>,
    timestamp: Seq<char>,
)
    requires
        0 <= event_index < lines.len(),
        no_blanks(lines),
        stable_prefix(lines, event_index) == Ok::<PrefixView, ErrorView>(prefix),
    ensures
        forked_rollout(prefix.lines, new_id, provider, timestamp) matches Ok(forked) ==> body_of(
            forked,
        ).is_prefix_of(body_of(lines)) && (relation(body_of(lines), body_of(forked)).0 == "same"@
            || relation(body_of(lines), body_of(forked)).0 == "active_ahead"@),
{
    let raw = |line: PrefixLineView| line.raw;
    let start = lines.take(event_index + 1);
    law_prefix_is_complete(lines, event_index);
    assert forall|i: int| 0 <= i < start.len() implies trimmed(#[trigger] start[i]).len() > 0 by {
        assert(start[i] == lines[i]);
    }
    lemma_no_blanks(start);
    if let Ok(forked) = forked_rollout(prefix.lines, new_id, provider, timestamp) {
        let raws = prefix.lines.map_values(raw);
        assert(raws == start);
        assert(prefix.lines.skip(1).map_values(raw) =~= raws.skip(1));
        assert(forked.skip(1) =~= lines.skip(1).take(event_index));
        lemma_untraced_take(lines.skip(1), event_index);
        let left = body_of(lines);
        let right = body_of(forked);
        assert(right.is_prefix_of(left));
        if left.len() == right.len() {
            assert(left =~= right);
        }
    }
}

proof fn lemma_body_step(lines: Seq<Seq<char>>)
    requires
        lines.len() >= 2,
    ensures
        body_of(lines) == if is_trace_line(lines.last()) {
            body_of(lines.drop_last())
        } else {
            body_of(lines.drop_last()).push(lines.last())
        },
{
    assert(lines.skip(1).drop_last() =~= lines.drop_last().skip(1));
    assert(lines.skip(1).last() == lines.last());
}

proof fn lemma_metadata_is_no_trace(line: Seq<char>, id: Seq<char>)
    requires
        line_meta(line, id) matches Ok(Some(_)),
    ensures
        !is_trace_line(line),
{
    reveal_strlit("session_meta");
    reveal_strlit("event_msg");
    assert("session_meta"@.len() != "event_msg"@.len());
}

proof fn lemma_clone_has_no_more_lines(lines: Seq<Seq<char>>, copy: CopyIdentityView)
    ensures
        cloned_lines(lines, copy) matches Ok((copied, _)) ==> copied.len() <= lines.len()
            && body_of(copied).len() <= body_of(lines).len(),
    decreases lines.len(),
{
    if lines.len() > 0 {
        let rest = lines.drop_last();
        let last = lines.last();
        lemma_clone_has_no_more_lines(rest, copy);
        if let Ok((copied, _)) = cloned_lines(lines, copy) {
            let before = cloned_lines(rest, copy)->Ok_0.0;
            if copied.len() >= 2 {
                lemma_body_step(copied);
            } else if copied.len() == 1 {
                assert(copied.skip(1) =~= Seq::empty());
            }
            if lines.len() >= 2 {
                lemma_body_step(lines);
            }
            if trimmed(last).len() > 0 {
                assert(copied.drop_last() =~= before);
                if line_meta(last, copy.source_id) matches Ok(Some(_)) {
                    lemma_metadata_is_no_trace(last, copy.source_id);
                } else {
                    assert(copied.last() == last);
                }
            }
        }
    }
}

/// A copy for another provider never has more of a conversation than its source, whatever the
/// source holds.
pub proof fn law_clone_is_not_ahead(lines: Seq<Seq<char>>, copy: CopyIdentityView)
    ensures
        cloned_lines(lines, copy) matches Ok((copied, _)) ==> relation(
            body_of(copied),
            body_of(lines),
        ).0 != "active_ahead"@,
{
    lemma_clone_has_no_more_lines(lines, copy);
    reveal_strlit("same");
    reveal_strlit("branch_ahead");
    reveal_strlit("active_ahead");
    reveal_strlit("diverged");
    assert("same"@.len() == 4 && "diverged"@.len() == 8);
    assert("branch_ahead"@.len() == 12 && "active_ahead"@.len() == 12);
    assert("branch_ahead"@[0] == 'b' && "active_ahead"@[0] == 'a');
}

} // verus!
