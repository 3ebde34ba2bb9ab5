//! Rewriting the provider in a rollout.

use vstd::prelude::*;

use crate::error::{AppError, ErrorView};
use crate::json::{
    is_written, json_document, json_text, lemma_with_member_reads_back, member, member_text,
    opt_model, parse, reads_back, render, with_member, Json, JsonView,
};
use crate::rollout::{lemma_first_line_states, line_states, states_session};
use crate::rollout_copy::{filled_lines, lines_outcome};
use crate::session_meta::{is_meta, is_session_id, meta_object};
use crate::text::{is_blank, join2, opt_text, texts, trimmed};

verus! {

/// Session metadata with another provider; without a proper payload it stays as it is.
pub open spec fn with_provider(record: JsonView, provider: Seq<char>) -> JsonView {
    match meta_object(record) {
        Some(payload) => with_member(
            record,
            "payload"@,
            with_member(payload, "model_provider"@, JsonView::Text(provider)),
        ),
        None => record,
    }
}

/// A line of session metadata with another provider; `None` for any other line.
pub open spec fn reprovided_line(line: Seq<char>, provider: Seq<char>) -> Option<Seq<char>> {
    match json_document(line) {
        Some(record) => if is_meta(record) {
            Some(json_text(with_provider(record, provider)))
        } else {
            None
        },
        None => None,
    }
}

/// Lines with another provider in the first that is session metadata, and whether there is
/// one. Blank lines go.
pub open spec fn reprovided_lines(lines: Seq<Seq<char>>, provider: Seq<char>) -> (
    Seq<Seq<char>>,
    bool,
)
    decreases lines.len(),
{
    if lines.len() == 0 {
        (Seq::empty(), false)
    } else {
        let (before, found) = reprovided_lines(lines.drop_last(), provider);
        let line = lines.last();
        if trimmed(line).len() == 0 {
            (before, found)
        } else if found || reprovided_line(line, provider) is None {
            (before.push(line), found)
        } else {
            (before.push(reprovided_line(line, provider)->Some_0), true)
        }
    }
}

/// A rollout with another provider. Without session metadata there is none.
pub open spec fn reprovided_rollout(
    lines: Seq<Seq<char>>,
    provider: Seq<char>,
    path: Seq<char>,
) -> Result<Seq<Seq<char>>, ErrorView> {
    let (rewritten, found) = reprovided_lines(lines, provider);
    if found {
        Ok(rewritten)
    } else {
        Err(
            ErrorView::InvalidCodexDir(
                "rollout 缺少 session_meta，无法改写 provider: "@ + path,
            ),
        )
    }
}

fn set_provider(record: Json, provider: &str) -> (json: Json)
    ensures
        json.model() == with_provider(record.model(), provider@),
{
    let payload = match record.get("payload") {
        Some(payload) => match payload {
            Json::Object(_) => payload.copy(),
            _ => return record,
        },
        None => return record,
    };
    record.set("payload", payload.set_str("model_provider", provider))
}

/// Session metadata with another provider; `None` for any other record.
pub fn reprovide_record(record: Json, provider: &str) -> (rewritten: Option<Json>)
    ensures
        opt_model(rewritten) == if is_meta(record.model()) {
            Some(with_provider(record.model(), provider@))
        } else {
            None
        },
{
    if record.has_str("type", "session_meta") {
        Some(set_provider(record, provider))
    } else {
        None
    }
}

fn reprovide_line(line: &str, provider: &str) -> (rewritten: Option<String>)
    ensures
        opt_text(rewritten) == reprovided_line(line@, provider@),
        rewritten matches Some(text) ==> (json_document(line@) matches Some(record) && is_meta(
            record,
        ) && is_written(text@, with_provider(record, provider@))),
{
    match parse(line) {
        Some(record) => match reprovide_record(record, provider) {
            Some(changed) => Some(render(&changed)),
            None => None,
        },
        None => None,
    }
}

/// Whether the first line of a rollout is the metadata of a session, which is read back as it
/// is written.
pub open spec fn starts_with_session(lines: Seq<Seq<char>>, id: Seq<char>) -> bool {
    lines.len() > 0 && trimmed(lines[0]).len() > 0 && (json_document(lines[0]) matches Some(record)
        && is_meta(record) && (meta_object(record) matches Some(payload) && member_text(
        payload,
        "id"@,
    ) == Some(id)) && reads_back(record, 127))
}

proof fn lemma_provider_is_stated(
    text: Seq<char>,
    record: JsonView,
    provider: Seq<char>,
    id: Seq<char>,
)
    requires
        is_meta(record),
        meta_object(record) matches Some(payload) && member_text(payload, "id"@) == Some(id),
        reads_back(record, 127),
        is_session_id(id),
        is_written(text, with_provider(record, provider)),
    ensures
        line_states(text, id, provider),
{
    let payload = meta_object(record)->Some_0;
    let added = JsonView::Text(provider);
    assert(record->Object_0.contains_key("payload"@));
    assert(reads_back(payload, 126));
    lemma_with_member_reads_back(payload, "model_provider"@, added, 126);
    lemma_with_member_reads_back(
        record,
        "payload"@,
        with_member(payload, "model_provider"@, added),
        127,
    );
    reveal_strlit("type");
    reveal_strlit("payload");
    reveal_strlit("id");
    reveal_strlit("model_provider");
    assert("type"@.len() == 4 && "payload"@.len() == 7);
    assert("id"@.len() == 2 && "model_provider"@.len() == 14);
}

/// Rewrites the provider in the lines of a rollout. A rollout that starts with the metadata
/// of its session then states that session and the new provider.
pub fn rewrite_provider_inplace(lines: &Vec<String>, new_provider: &str, path: &str) -> (rewritten:
    Result<Vec<String>, AppError>)
    ensures
        lines_outcome(rewritten) == reprovided_rollout(texts(lines@), new_provider@, path@),
        forall|id: Seq<char>|
            is_session_id(id) && #[trigger] starts_with_session(texts(lines@), id) ==> (
            rewritten matches Ok(rewritten) ==> states_session(
                texts(rewritten@),
                id,
                new_provider@,
            )),
{
    let ghost all = texts(lines@);
    let ghost record = json_document(all[0])->Some_0;
    let ghost starts = all.len() > 0 && trimmed(all[0]).len() > 0 && (json_document(all[0]) matches Some(
        first,
    ) && is_meta(first));
    let mut output: Vec<String> = Vec::new();
    assert(texts(output@) =~= Seq::empty());
    let mut found = false;
    let mut at: usize = 0;
    while at < lines.len()
        invariant
            at <= lines@.len(),
            all == texts(lines@),
            reprovided_lines(all.take(at as int), new_provider@) == (texts(output@), found),
            at == 0 ==> !found,
            record == json_document(all[0])->Some_0,
            starts == (all.len() > 0 && trimmed(all[0]).len() > 0 && (json_document(
                all[0],
            ) matches Some(first) && is_meta(first))),
            at > 0 && starts ==> output@.len() > 0 && is_written(
                output@[0]@,
                with_provider(record, new_provider@),
            ),
        decreases lines.len() - at,
    {
        assert(all.take(at + 1).drop_last() =~= all.take(at as int));
        assert(all.take(at + 1).last() == lines@[at as int]@);
        let line = lines[at].as_str();
        let ghost before = texts(output@);
        if !is_blank(line) {
            let rewritten = if found {
                None
            } else {
                reprovide_line(line, new_provider)
            };
            match rewritten {
                Some(text) => {
                    output.push(text);
                    assert(texts(output@) =~= before.push(text@));
                    found = true;
                },
                None => {
                    output.push(line.to_owned());
                    assert(texts(output@) =~= before.push(line@));
                },
            }
        }
        at = at + 1;
    }
    assert(all.take(at as int) =~= all);
    if !found {
        return Err(
            AppError::InvalidCodexDir(
                join2("rollout 缺少 session_meta，无法改写 provider: ", path),
            ),
        );
    }
    proof {
        assert forall|id: Seq<char>|
            is_session_id(id) && #[trigger] starts_with_session(all, id) implies states_session(
            texts(output@),
            id,
            new_provider@,
        ) by {
            lemma_provider_is_stated(output@[0]@, record, new_provider@, id);
            lemma_first_line_states(texts(output@), id, new_provider@);
        }
    }
    Ok(output)
}

/// Rewriting the provider keeps every line that is not blank, in order, but for one at most.
pub proof fn law_rewrite_changes_one_line(lines: Seq<Seq<char>>, provider: Seq<char>)
    ensures
        reprovided_lines(lines, provider).0.len() == filled_lines(lines).len(),
        forall|i: int, j: int|
            0 <= i < filled_lines(lines).len() && 0 <= j < filled_lines(lines).len()
                && #[trigger] reprovided_lines(lines, provider).0[i] != filled_lines(lines)[i]
                && #[trigger] reprovided_lines(lines, provider).0[j] != filled_lines(lines)[j] ==> i
                == j,
        !reprovided_lines(lines, provider).1 ==> reprovided_lines(lines, provider).0
            == filled_lines(lines),
    decreases lines.len(),
{
    if lines.len() > 0 {
        let rest = lines.drop_last();
        law_rewrite_changes_one_line(rest, provider);
        let before = reprovided_lines(rest, provider).0;
        let after = reprovided_lines(lines, provider).0;
        if trimmed(lines.last()).len() > 0 {
            assert forall|i: int, j: int|
                0 <= i < after.len() && 0 <= j < after.len() && #[trigger] after[i] != filled_lines(
                    lines,
                )[i] && #[trigger] after[j] != filled_lines(lines)[j] implies i == j by {
                if i < before.len() {
                    assert(after[i] == before[i] && filled_lines(lines)[i] == filled_lines(rest)[i]);
                }
                if j < before.len() {
                    assert(after[j] == before[j] && filled_lines(lines)[j] == filled_lines(rest)[j]);
                }
            }
        }
    }
}

/// A record that gets another provider says the same in all else.
pub proof fn law_new_provider_changes_nothing_else(
    record: JsonView,
    provider: Seq<char>,
    name: Seq<char>,
)
    requires
        is_meta(record),
        meta_object(record) is Some,
    ensures
        ({
            let changed = with_provider(record, provider);
            &&& is_meta(changed)
            &&& name != "payload"@ ==> member(changed, name) == member(record, name)
            &&& meta_object(changed) matches Some(payload) && {
                &&& member_text(payload, "model_provider"@) == Some(provider)
                &&& name != "model_provider"@ ==> member(payload, name) == member(
                    meta_object(record)->Some_0,
                    name,
                )
            }
        }),
{
    reveal_strlit("payload");
    reveal_strlit("type");
    assert("payload"@.len() != "type"@.len());
}

/// Whether a line is the first metadata of a rollout, and stands rewritten in its place.
pub open spec fn is_rewritten_metadata(
    kept: Seq<Seq<char>>,
    lines: Seq<Seq<char>>,
    provider: Seq<char>,
    i: int,
) -> bool {
    &&& 0 <= i < kept.len()
    &&& lines.len() == kept.len()
    &&& json_document(kept[i]) matches Some(record) && is_meta(record) && lines[i] == json_text(
        with_provider(record, provider),
    )
    &&& forall|j: int| 0 <= j < i ==> !holds_metadata(#[trigger] kept[j])
    &&& forall|j: int| 0 <= j < kept.len() && j != i ==> lines[j] == #[trigger] kept[j]
}

/// Whether a line is metadata of some session.
pub open spec fn holds_metadata(line: Seq<char>) -> bool {
    json_document(line) matches Some(record) && is_meta(record)
}

/// The first metadata of a rollout gets the new provider, and no other line changes. A rollout
/// without metadata is refused, and only such a one.
pub proof fn law_first_metadata_gets_the_provider(
    lines: Seq<Seq<char>>,
    provider: Seq<char>,
    path: Seq<char>,
)
    ensures
        reprovided_rollout(lines, provider, path) is Err <==> forall|j: int|
            0 <= j < filled_lines(lines).len() ==> !holds_metadata(
                #[trigger] filled_lines(lines)[j],
            ),
        reprovided_rollout(lines, provider, path) matches Ok(rewritten) ==> exists|i: int| #[trigger]
            is_rewritten_metadata(filled_lines(lines), rewritten, provider, i),
{
    lemma_first_metadata(lines, provider);
    if let Ok(rewritten) = reprovided_rollout(lines, provider, path) {
        let i = choose|i: int| #[trigger]
            is_rewritten_metadata(filled_lines(lines), rewritten, provider, i);
        assert(holds_metadata(filled_lines(lines)[i]));
    }
}

proof fn lemma_first_metadata(lines: Seq<Seq<char>>, provider: Seq<char>)
    ensures
        ({
            let (rewritten, found) = reprovided_lines(lines, provider);
            if found {
                exists|i: int| #[trigger]
                    is_rewritten_metadata(filled_lines(lines), rewritten, provider, i)
            } else {
                rewritten == filled_lines(lines) && forall|j: int|
                    0 <= j < filled_lines(lines).len() ==> !holds_metadata(
                        #[trigger] filled_lines(lines)[j],
                    )
            }
        }),
    decreases lines.len(),
{
    if lines.len() > 0 {
        let rest = lines.drop_last();
        let line = lines.last();
        lemma_first_metadata(rest, provider);
        let (before, earlier) = reprovided_lines(rest, provider);
        let (rewritten, found) = reprovided_lines(lines, provider);
        let kept = filled_lines(rest);
        let all = filled_lines(lines);
        if trimmed(line).len() > 0 {
            assert(all == kept.push(line));
            assert forall|j: int| 0 <= j < kept.len() implies all[j] == kept[j] by {}
            if earlier {
                let i = choose|i: int| #[trigger] is_rewritten_metadata(kept, before, provider, i);
                assert forall|j: int| 0 <= j < i implies !holds_metadata(#[trigger] all[j]) by {
                    assert(all[j] == kept[j]);
                }
                assert forall|j: int| 0 <= j < all.len() && j != i implies rewritten[j]
                    == #[trigger] all[j] by {
                    if j < kept.len() {
                        assert(all[j] == kept[j] && rewritten[j] == before[j]);
                    }
                }
                assert(all[i] == kept[i] && rewritten[i] == before[i]);
                assert(is_rewritten_metadata(all, rewritten, provider, i));
            } else if found {
                let i = kept.len() as int;
                assert(all[i] == line);
                assert forall|j: int| 0 <= j < i implies !holds_metadata(#[trigger] all[j]) by {
                    assert(all[j] == kept[j]);
                }
                assert(is_rewritten_metadata(all, rewritten, provider, i));
            } else {
                assert forall|j: int| 0 <= j < all.len() implies !holds_metadata(
                    #[trigger] all[j],
                ) by {
                    if j < kept.len() {
                        assert(all[j] == kept[j]);
                    }
                }
            }
        }
    } else {
        assert(filled_lines(lines) =~= Seq::empty());
    }
}

} // verus!
