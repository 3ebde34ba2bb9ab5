//! The prompt history of an assistant: rows of sessions that are gone.

use vstd::prelude::*;

use crate::seqs::{
    count_where, lemma_count_is_filter, lemma_count_where_bound, lemma_filter_map_has,
};
use crate::sorted::{
    insert_text, lemma_ascending_distinct, lemma_sorted_texts, sorted_texts, with_text,
};
use crate::text::{holds_text, is_blank, opt_text, texts, trimmed};

verus! {

/// A line of the history, with the session that it names, if any.
pub struct HistoryLine {
    pub text: String,
    pub session_id: Option<String>,
}

/// What a [`HistoryLine`] holds.
#[verifier::ext_equal]
pub struct HistoryLineView {
    pub text: Seq<char>,
    pub session_id: Option<Seq<char>>,
}

impl View for HistoryLine {
    type V = HistoryLineView;

    open spec fn view(&self) -> HistoryLineView {
        HistoryLineView { text: self.text@, session_id: opt_text(self.session_id) }
    }
}

/// What a list of lines holds.
pub open spec fn history_view(lines: Seq<HistoryLine>) -> Seq<HistoryLineView> {
    lines.map_values(|line: HistoryLine| line@)
}

/// Tells the lines that are not blank.
pub open spec fn is_row() -> spec_fn(HistoryLineView) -> bool {
    |line: HistoryLineView| trimmed(line.text).len() > 0
}

/// Tells the rows of sessions that exist.
pub open spec fn is_linked(sessions: Seq<Seq<char>>) -> spec_fn(HistoryLineView) -> bool {
    |line: HistoryLineView|
        trimmed(line.text).len() > 0 && (line.session_id matches Some(id) && sessions.contains(id))
}

/// Tells the rows of sessions that are gone.
pub open spec fn is_orphan_row(sessions: Seq<Seq<char>>) -> spec_fn(HistoryLineView) -> bool {
    |line: HistoryLineView|
        trimmed(line.text).len() > 0 && (line.session_id matches Some(id) && !sessions.contains(id))
}

/// Tells the rows that name no session.
pub open spec fn is_untracked() -> spec_fn(HistoryLineView) -> bool {
    |line: HistoryLineView| trimmed(line.text).len() > 0 && line.session_id is None
}

/// Whether a line names a session that is gone.
pub open spec fn line_is_orphan(line: HistoryLineView, sessions: Seq<Seq<char>>) -> bool {
    line.session_id matches Some(id) && !sessions.contains(id)
}

/// Tells the lines that name a session which is gone.
pub open spec fn names_gone(sessions: Seq<Seq<char>>) -> spec_fn(HistoryLineView) -> bool {
    |line: HistoryLineView| line_is_orphan(line, sessions)
}

/// The sessions of the lines that meet a condition, in order.
pub open spec fn sessions_where(holds: spec_fn(HistoryLineView) -> bool) -> spec_fn(
    HistoryLineView,
) -> Option<Seq<char>> {
    |line: HistoryLineView|
        if holds(line) {
            line.session_id
        } else {
            None
        }
}

/// What the history holds.
pub struct HistoryOrphanReport {
    pub provider: String,
    pub history_path: String,
    pub session_count: u32,
    pub history_rows: u32,
    pub linked_rows: u32,
    pub orphan_rows: u32,
    pub untracked_rows: u32,
    pub orphan_session_ids: Vec<String>,
}

/// Whether a report tells what the history holds.
pub open spec fn is_history_report(
    report: HistoryOrphanReport,
    provider: Seq<char>,
    path: Seq<char>,
    lines: Seq<HistoryLineView>,
    sessions: Seq<Seq<char>>,
) -> bool {
    &&& report.provider@ == provider
    &&& report.history_path@ == path
    &&& report.session_count == sessions.len() as u32
    &&& report.history_rows == count_where(lines, is_row())
    &&& report.linked_rows == count_where(lines, is_linked(sessions))
    &&& report.orphan_rows == count_where(lines, is_orphan_row(sessions))
    &&& report.untracked_rows == count_where(lines, is_untracked())
    &&& texts(report.orphan_session_ids@) == sorted_texts(
        lines.filter_map(sessions_where(is_orphan_row(sessions))),
    )
}

proof fn lemma_with_text_step(items: Seq<Seq<char>>, text: Seq<char>)
    ensures
        sorted_texts(items + seq![text]) == with_text(sorted_texts(items), text),
{
    assert((items + seq![text]).drop_last() =~= items);
    assert((items + seq![text]).last() == text);
}

/// Tells how many rows of the history belong to sessions that are gone. `provider` names the
/// assistant; `sessions` are the ids of its sessions that exist, each once.
pub fn diagnose_claude_history_orphans(
    provider: &str,
    history_path: &str,
    lines: &Vec<HistoryLine>,
    sessions: &Vec<String>,
) -> (report: HistoryOrphanReport)
    requires
        lines@.len() <= u32::MAX,
    ensures
        is_history_report(
            report,
            provider@,
            history_path@,
            history_view(lines@),
            texts(sessions@),
        ),
{
    let ghost all = history_view(lines@);
    let ghost known = texts(sessions@);
    let mut history_rows: u32 = 0;
    let mut linked_rows: u32 = 0;
    let mut orphan_rows: u32 = 0;
    let mut untracked_rows: u32 = 0;
    let mut orphan_ids: Vec<String> = Vec::new();
    let ghost pick = sessions_where(is_orphan_row(known));
    assert(texts(orphan_ids@) =~= Seq::empty());
    let mut at: usize = 0;
    while at < lines.len()
        invariant
            at <= lines@.len() <= u32::MAX,
            all == history_view(lines@),
            known == texts(sessions@),
            pick == sessions_where(is_orphan_row(known)),
            history_rows <= at,
            linked_rows <= at,
            orphan_rows <= at,
            untracked_rows <= at,
            history_rows == count_where(all.take(at as int), is_row()),
            linked_rows == count_where(all.take(at as int), is_linked(known)),
            orphan_rows == count_where(all.take(at as int), is_orphan_row(known)),
            untracked_rows == count_where(all.take(at as int), is_untracked()),
            texts(orphan_ids@) == sorted_texts(all.take(at as int).filter_map(pick)),
        decreases lines.len() - at,
    {
        let line = &lines[at];
        assert(all.take(at + 1).drop_last() =~= all.take(at as int));
        assert(all.take(at + 1).last() == line@);
        if !is_blank(line.text.as_str()) {
            history_rows = history_rows + 1;
            match &line.session_id {
                Some(id) => {
                    if holds_text(sessions, id.as_str()) {
                        linked_rows = linked_rows + 1;
                    } else {
                        orphan_rows = orphan_rows + 1;
                        proof {
                            lemma_with_text_step(all.take(at as int).filter_map(pick), id@);
                        }
                        insert_text(&mut orphan_ids, id.as_str());
                    }
                },
                None => {
                    untracked_rows = untracked_rows + 1;
                },
            }
        }
        at = at + 1;
    }
    assert(all.take(at as int) =~= all);
    HistoryOrphanReport {
        provider: provider.to_owned(),
        history_path: history_path.to_owned(),
        session_count: sessions.len() as u32,
        history_rows,
        linked_rows,
        orphan_rows,
        untracked_rows,
        orphan_session_ids: orphan_ids,
    }
}

/// Every row is linked, an orphan or untracked, and no two of these.
pub proof fn law_rows_fall_in_three(lines: Seq<HistoryLineView>, sessions: Seq<Seq<char>>)
    ensures
        count_where(lines, is_row()) == count_where(lines, is_linked(sessions)) + count_where(
            lines,
            is_orphan_row(sessions),
        ) + count_where(lines, is_untracked()),
    decreases lines.len(),
{
    if lines.len() > 0 {
        law_rows_fall_in_three(lines.drop_last(), sessions);
    }
}

/// What pruning the history removed, or would remove.
pub struct HistoryPruneReport {
    pub provider: String,
    pub history_path: String,
    pub removed_rows: u32,
    pub dry_run: bool,
    pub orphan_session_ids: Vec<String>,
}

/// The report of pruning the history, and the lines to write; `None` where nothing is
/// written.
pub struct HistoryPrune {
    pub report: HistoryPruneReport,
    pub kept_lines: Option<Vec<String>>,
}

/// The lines that do not name a session which is gone, in order.
pub open spec fn kept_history(
    lines: Seq<HistoryLineView>,
    sessions: Seq<Seq<char>>,
) -> Seq<Seq<char>>
    decreases lines.len(),
{
    if lines.len() == 0 {
        Seq::empty()
    } else if line_is_orphan(lines.last(), sessions) {
        kept_history(lines.drop_last(), sessions)
    } else {
        kept_history(lines.drop_last(), sessions).push(lines.last().text)
    }
}

/// Whether a prune removes the rows of sessions that are gone, and no others.
pub open spec fn is_history_prune(
    prune: HistoryPrune,
    provider: Seq<char>,
    path: Seq<char>,
    lines: Seq<HistoryLineView>,
    sessions: Seq<Seq<char>>,
    dry_run: bool,
) -> bool {
    let removed = count_where(lines, names_gone(sessions));
    &&& prune.report.provider@ == provider
    &&& prune.report.history_path@ == path
    &&& prune.report.removed_rows == removed
    &&& prune.report.dry_run == dry_run
    &&& texts(prune.report.orphan_session_ids@) == sorted_texts(
        lines.filter_map(sessions_where(names_gone(sessions))),
    )
    &&& match prune.kept_lines {
        Some(kept) => !dry_run && removed > 0 && texts(kept@) == kept_history(lines, sessions),
        None => dry_run || removed == 0,
    }
}

/// Removes the rows of sessions that are gone from the history.
pub fn prune_claude_history_orphans(
    provider: &str,
    history_path: &str,
    lines: &Vec<HistoryLine>,
    sessions: &Vec<String>,
    dry_run: bool,
) -> (prune: HistoryPrune)
    requires
        lines@.len() <= u32::MAX,
    ensures
        is_history_prune(
            prune,
            provider@,
            history_path@,
            history_view(lines@),
            texts(sessions@),
            dry_run,
        ),
{
    let ghost all = history_view(lines@);
    let ghost known = texts(sessions@);
    let ghost pick = sessions_where(names_gone(known));
    let mut removed_rows: u32 = 0;
    let mut orphan_ids: Vec<String> = Vec::new();
    let mut kept: Vec<String> = Vec::new();
    assert(texts(orphan_ids@) =~= Seq::empty());
    assert(texts(kept@) =~= Seq::empty());
    let mut at: usize = 0;
    while at < lines.len()
        invariant
            at <= lines@.len() <= u32::MAX,
            all == history_view(lines@),
            known == texts(sessions@),
            pick == sessions_where(names_gone(known)),
            removed_rows <= at,
            removed_rows == count_where(all.take(at as int), names_gone(known)),
            texts(orphan_ids@) == sorted_texts(all.take(at as int).filter_map(pick)),
            texts(kept@) == kept_history(all.take(at as int), known),
        decreases lines.len() - at,
    {
        let line = &lines[at];
        assert(all.take(at + 1).drop_last() =~= all.take(at as int));
        assert(all.take(at + 1).last() == line@);
        let gone = match &line.session_id {
            Some(id) => !holds_text(sessions, id.as_str()),
            None => false,
        };
        if gone {
            removed_rows = removed_rows + 1;
            if let Some(id) = &line.session_id {
                proof {
                    lemma_with_text_step(all.take(at as int).filter_map(pick), id@);
                }
                insert_text(&mut orphan_ids, id.as_str());
            }
        } else {
            let ghost before = texts(kept@);
            kept.push(line.text.clone());
            assert(texts(kept@) =~= before.push(line.text@));
        }
        at = at + 1;
    }
    assert(all.take(at as int) =~= all);
    HistoryPrune {
        report: HistoryPruneReport {
            provider: provider.to_owned(),
            history_path: history_path.to_owned(),
            removed_rows,
            dry_run,
            orphan_session_ids: orphan_ids,
        },
        kept_lines: if !dry_run && removed_rows > 0 {
            Some(kept)
        } else {
            None
        },
    }
}

/// Every line of the history is kept or counted as removed.
pub proof fn law_history_lines_are_kept_or_counted(
    lines: Seq<HistoryLineView>,
    sessions: Seq<Seq<char>>,
)
    ensures
        kept_history(lines, sessions).len() + count_where(lines, names_gone(sessions))
            == lines.len(),
    decreases lines.len(),
{
    if lines.len() > 0 {
        law_history_lines_are_kept_or_counted(lines.drop_last(), sessions);
    }
}

/// Where all sessions that the history names exist, nothing is removed.
pub proof fn law_nothing_to_prune(lines: Seq<HistoryLineView>, sessions: Seq<Seq<char>>)
    requires
        forall|i: int|
            0 <= i < lines.len() ==> !line_is_orphan(#[trigger] lines[i], sessions),
    ensures
        count_where(lines, names_gone(sessions)) == 0,
        kept_history(lines, sessions) == lines.map_values(|line: HistoryLineView| line.text),
    decreases lines.len(),
{
    let text_of = |line: HistoryLineView| line.text;
    if lines.len() > 0 {
        let rest = lines.drop_last();
        assert forall|i: int| 0 <= i < rest.len() implies !line_is_orphan(
            #[trigger] rest[i],
            sessions,
        ) by {
            assert(rest[i] == lines[i]);
        }
        law_nothing_to_prune(rest, sessions);
        assert(!line_is_orphan(lines[lines.len() - 1], sessions));
        assert(rest.map_values(text_of).push(lines.last().text) =~= lines.map_values(text_of));
    } else {
        assert(lines.map_values(text_of) =~= Seq::empty());
    }
}

/// The lines, with what they name, that a prune leaves.
pub open spec fn kept_rows(
    lines: Seq<HistoryLineView>,
    sessions: Seq<Seq<char>>,
) -> Seq<HistoryLineView>
    decreases lines.len(),
{
    if lines.len() == 0 {
        Seq::empty()
    } else if line_is_orphan(lines.last(), sessions) {
        kept_rows(lines.drop_last(), sessions)
    } else {
        kept_rows(lines.drop_last(), sessions).push(lines.last())
    }
}

/// Where no blank line names a session, a prune removes the rows that the diagnosis counts as
/// orphans, and tells the same sessions.
pub proof fn law_prune_agrees_with_the_diagnosis(
    lines: Seq<HistoryLineView>,
    sessions: Seq<Seq<char>>,
)
    requires
        forall|i: int|
            0 <= i < lines.len() && trimmed((#[trigger] lines[i]).text).len() == 0
                ==> lines[i].session_id is None,
    ensures
        count_where(lines, names_gone(sessions)) == count_where(lines, is_orphan_row(sessions)),
        lines.filter_map(sessions_where(names_gone(sessions))) == lines.filter_map(
            sessions_where(is_orphan_row(sessions)),
        ),
    decreases lines.len(),
{
    if lines.len() > 0 {
        let rest = lines.drop_last();
        assert forall|i: int|
            0 <= i < rest.len() && trimmed((#[trigger] rest[i]).text).len()
                == 0 implies rest[i].session_id is None by {
            assert(rest[i] == lines[i]);
        }
        law_prune_agrees_with_the_diagnosis(rest, sessions);
        assert(lines[lines.len() - 1] == lines.last());
    }
}

/// What a prune leaves are the lines that it writes, and a new diagnosis finds no orphan among
/// them: it counts the same linked and untracked rows.
pub proof fn law_pruned_history_has_no_orphans(
    lines: Seq<HistoryLineView>,
    sessions: Seq<Seq<char>>,
)
    ensures
        kept_history(lines, sessions) == kept_rows(lines, sessions).map_values(
            |line: HistoryLineView| line.text,
        ),
        count_where(kept_rows(lines, sessions), is_orphan_row(sessions)) == 0,
        kept_rows(lines, sessions).filter_map(sessions_where(is_orphan_row(sessions)))
            == Seq::<Seq<char>>::empty(),
        count_where(kept_rows(lines, sessions), is_linked(sessions)) == count_where(
            lines,
            is_linked(sessions),
        ),
        count_where(kept_rows(lines, sessions), is_untracked()) == count_where(
            lines,
            is_untracked(),
        ),
    decreases lines.len(),
{
    let text_of = |line: HistoryLineView| line.text;
    if lines.len() == 0 {
        assert(kept_rows(lines, sessions).map_values(text_of) =~= Seq::empty());
    } else {
        let rest = lines.drop_last();
        law_pruned_history_has_no_orphans(rest, sessions);
        if !line_is_orphan(lines.last(), sessions) {
            let before = kept_rows(rest, sessions);
            assert(kept_rows(lines, sessions).drop_last() =~= before);
            assert(kept_rows(lines, sessions).last() == lines.last());
            assert(before.map_values(text_of).push(lines.last().text) =~= before.push(
                lines.last(),
            ).map_values(text_of));
        }
    }
}

/// A prune removes as many rows as the diagnosis of the same history counts as orphans and names
/// the same sessions, where no blank line names a session.
pub proof fn law_prune_answers_the_diagnosis(
    report: HistoryOrphanReport,
    prune: HistoryPrune,
    provider: Seq<char>,
    path: Seq<char>,
    lines: Seq<HistoryLineView>,
    sessions: Seq<Seq<char>>,
    dry_run: bool,
)
    requires
        is_history_report(report, provider, path, lines, sessions),
        is_history_prune(prune, provider, path, lines, sessions, dry_run),
        forall|i: int|
            0 <= i < lines.len() && trimmed((#[trigger] lines[i]).text).len() == 0
                ==> lines[i].session_id is None,
    ensures
        prune.report.removed_rows == report.orphan_rows,
        texts(prune.report.orphan_session_ids@) == texts(report.orphan_session_ids@),
        dry_run ==> prune.kept_lines is None,
{
    law_prune_agrees_with_the_diagnosis(lines, sessions);
}

/// Just the lines that name a session which is gone leave the history; the others stay as they are
/// and in their order, those that name none among them.
pub proof fn law_only_lines_of_gone_sessions_leave(
    lines: Seq<HistoryLineView>,
    sessions: Seq<Seq<char>>,
)
    ensures
        kept_history(lines, sessions) == lines.filter(
            |line: HistoryLineView|
                line.session_id is None || sessions.contains(line.session_id->Some_0),
        ).map_values(|line: HistoryLineView| line.text),
    decreases lines.len(),
{
    reveal(Seq::filter);
    let stays = |line: HistoryLineView|
        line.session_id is None || sessions.contains(line.session_id->Some_0);
    let text = |line: HistoryLineView| line.text;
    if lines.len() > 0 {
        let rest = lines.drop_last();
        law_only_lines_of_gone_sessions_leave(rest, sessions);
        if stays(lines.last()) {
            assert(rest.filter(stays).push(lines.last()).map_values(text) =~= rest.filter(
                stays,
            ).map_values(text).push(lines.last().text));
        }
    } else {
        assert(lines.filter(stays).map_values(text) =~= kept_history(lines, sessions));
    }
}

/// A diagnosis tells of just those sessions which a line that is not blank names and which are gone,
/// each once.
pub proof fn law_diagnosis_names_gone_sessions(
    report: HistoryOrphanReport,
    provider: Seq<char>,
    path: Seq<char>,
    lines: Seq<HistoryLineView>,
    sessions: Seq<Seq<char>>,
    id: Seq<char>,
)
    requires
        is_history_report(report, provider, path, lines, sessions),
    ensures
        texts(report.orphan_session_ids@).contains(id) <==> !sessions.contains(id) && exists|i: int|
            0 <= i < lines.len() && trimmed((#[trigger] lines[i]).text).len() > 0
                && lines[i].session_id == Some(id),
        texts(report.orphan_session_ids@).no_duplicates(),
        report.history_rows == lines.filter(
            |line: HistoryLineView| trimmed(line.text).len() > 0,
        ).len(),
        report.untracked_rows == lines.filter(
            |line: HistoryLineView| trimmed(line.text).len() > 0 && line.session_id is None,
        ).len(),
        report.orphan_rows == lines.filter(
            |line: HistoryLineView|
                trimmed(line.text).len() > 0 && line.session_id is Some && !sessions.contains(
                    line.session_id->Some_0,
                ),
        ).len(),
{
    let pick = sessions_where(is_orphan_row(sessions));
    let named = lines.filter_map(pick);
    lemma_sorted_texts(named);
    lemma_ascending_distinct(sorted_texts(named));
    if named.contains(id) {
        lines.lemma_filter_map_contains(pick, id);
        let i = choose|i: int| 0 <= i < lines.len() && pick(lines[i]) == Some(id);
        assert(trimmed(lines[i].text).len() > 0);
    }
    if !sessions.contains(id) && exists|i: int|
        0 <= i < lines.len() && trimmed((#[trigger] lines[i]).text).len() > 0
            && lines[i].session_id == Some(id) {
        let i = choose|i: int|
            0 <= i < lines.len() && trimmed((#[trigger] lines[i]).text).len() > 0
                && lines[i].session_id == Some(id);
        lemma_filter_map_has(lines, pick, i);
    }
    lemma_count_is_filter(
        lines,
        is_row(),
        |line: HistoryLineView| trimmed(line.text).len() > 0,
    );
    lemma_count_is_filter(
        lines,
        is_untracked(),
        |line: HistoryLineView| trimmed(line.text).len() > 0 && line.session_id is None,
    );
    lemma_count_is_filter(
        lines,
        is_orphan_row(sessions),
        |line: HistoryLineView|
            trimmed(line.text).len() > 0 && line.session_id is Some && !sessions.contains(
                line.session_id->Some_0,
            ),
    );
}

/// A diagnosis says of which provider and file it is, how many sessions there are, and sorts every row
/// into one of three kinds.
pub proof fn law_diagnosis_accounts_for_all_rows(
    report: HistoryOrphanReport,
    provider: Seq<char>,
    path: Seq<char>,
    lines: Seq<HistoryLineView>,
    sessions: Seq<Seq<char>>,
)
    requires
        is_history_report(report, provider, path, lines, sessions),
        lines.len() <= u32::MAX,
        sessions.len() <= u32::MAX,
    ensures
        report.provider@ == provider,
        report.history_path@ == path,
        report.session_count == sessions.len(),
        report.linked_rows + report.orphan_rows + report.untracked_rows == report.history_rows,
        report.history_rows <= lines.len(),
{
    law_rows_fall_in_three(lines, sessions);
    lemma_count_where_bound(lines, is_row());
}

/// A prune says of which provider and file it is, whether it was a rehearsal, and how many rows
/// leave; the history is written anew just where rows leave and it is no rehearsal.
pub proof fn law_prune_writes_only_what_changes(
    prune: HistoryPrune,
    provider: Seq<char>,
    path: Seq<char>,
    lines: Seq<HistoryLineView>,
    sessions: Seq<Seq<char>>,
    dry_run: bool,
)
    requires
        is_history_prune(prune, provider, path, lines, sessions, dry_run),
    ensures
        prune.report.provider@ == provider,
        prune.report.history_path@ == path,
        prune.report.dry_run == dry_run,
        prune.report.removed_rows == lines.filter(
            |line: HistoryLineView|
                line.session_id is Some && !sessions.contains(line.session_id->Some_0),
        ).len(),
        prune.kept_lines is Some <==> !dry_run && prune.report.removed_rows > 0,
        prune.kept_lines matches Some(kept) ==> kept@.len() + prune.report.removed_rows
            == lines.len(),
{
    law_history_lines_are_kept_or_counted(lines, sessions);
    lemma_count_is_filter(
        lines,
        names_gone(sessions),
        |line: HistoryLineView|
            line.session_id is Some && !sessions.contains(line.session_id->Some_0),
    );
    if let Some(kept) = prune.kept_lines {
        assert(texts(kept@).len() == kept@.len());
    }
}

} // verus!
