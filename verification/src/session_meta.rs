//! Session metadata: giving it to another session or another provider, and making that of
//! an independent copy.

use vstd::prelude::*;

use crate::error::{unit_outcome, AppError, ErrorView};
use crate::json::{
    is_written, json_document, json_text, lemma_with_member_reads_back,
    lemma_without_member_reads_back, member, member_text, opt_model, parse, reads_back, render,
    with_member, without_member, Json, JsonView,
};
use crate::rollout::{
    is_subagent_source, line_states, metadata_string_value, metadata_value, source_is_subagent,
};
use crate::text::{join2, join4, opt_str, opt_text, same, trimmed};

verus! {

/// The error on metadata without a proper payload.
pub open spec fn no_payload() -> ErrorView {
    ErrorView::Other("session_meta 缺少有效 payload"@)
}

/// Whether a record is session metadata.
pub open spec fn is_meta(record: JsonView) -> bool {
    member_text(record, "type"@) == Some("session_meta"@)
}

/// The payload of session metadata, where it is an object.
pub open spec fn meta_object(record: JsonView) -> Option<JsonView> {
    match member(record, "payload"@) {
        Some(payload) => if payload is Object {
            Some(payload)
        } else {
            None
        },
        None => None,
    }
}

/// Whether a record is the metadata of a session; metadata without a proper payload is an
/// error.
pub open spec fn is_meta_of(record: JsonView, id: Seq<char>) -> Result<bool, ErrorView> {
    if !is_meta(record) {
        Ok(false)
    } else {
        match meta_object(record) {
            None => Err(no_payload()),
            Some(payload) => Ok(member_text(payload, "id"@) == Some(id)),
        }
    }
}

/// Whether a record is the metadata of a session.
pub fn record_is_meta_of(record: &Json, id: &str) -> (outcome: Result<bool, AppError>)
    ensures
        crate::error::bool_outcome(outcome) == is_meta_of(record.model(), id@),
{
    if !record.has_str("type", "session_meta") {
        return Ok(false);
    }
    match record.get("payload") {
        Some(payload) => match payload {
            Json::Object(_) => Ok(payload.has_str("id", id)),
            _ => Err(AppError::Other("session_meta 缺少有效 payload".to_owned())),
        },
        None => Err(AppError::Other("session_meta 缺少有效 payload".to_owned())),
    }
}

/// The metadata of a session in a line; `None` where the line holds something else.
pub open spec fn line_meta(line: Seq<char>, id: Seq<char>) -> Result<Option<JsonView>, ErrorView> {
    match json_document(line) {
        None => Ok(None),
        Some(record) => match is_meta_of(record, id) {
            Err(error) => Err(error),
            Ok(true) => Ok(Some(record)),
            Ok(false) => Ok(None),
        },
    }
}

/// What the outcome of looking for metadata holds.
pub open spec fn meta_outcome(outcome: Result<Option<Json>, AppError>) -> Result<
    Option<JsonView>,
    ErrorView,
> {
    match outcome {
        Ok(meta) => Ok(opt_model(meta)),
        Err(error) => Err(error@),
    }
}

/// The metadata of a session in a line.
pub fn source_session_meta(line: &str, source_session_id: &str) -> (meta: Result<
    Option<Json>,
    AppError,
>)
    ensures
        meta_outcome(meta) == line_meta(line@, source_session_id@),
{
    match parse(line) {
        None => Ok(None),
        Some(record) => match record_is_meta_of(&record, source_session_id) {
            Err(error) => Err(error),
            Ok(true) => Ok(Some(record)),
            Ok(false) => Ok(None),
        },
    }
}

// ---------------------------------------------------------------------------
// Another identity
// ---------------------------------------------------------------------------

/// A payload with one more member, where there is a value for it.
pub open spec fn with_optional(
    value: JsonView,
    name: Seq<char>,
    text: Option<Seq<char>>,
) -> JsonView {
    match text {
        Some(text) => with_member(value, name, JsonView::Text(text)),
        None => value,
    }
}

/// The payload of session metadata with another identity.
pub open spec fn payload_with_identity(
    payload: JsonView,
    target: Seq<char>,
    provider: Seq<char>,
    timestamp: Option<Seq<char>>,
) -> JsonView {
    without_member(
        without_member(
            with_optional(
                with_member(
                    with_member(
                        with_member(payload, "id"@, JsonView::Text(target)),
                        "session_id"@,
                        JsonView::Text(target),
                    ),
                    "model_provider"@,
                    JsonView::Text(provider),
                ),
                "timestamp"@,
                timestamp,
            ),
            "clone_timestamp"@,
        ),
        "cloned_from"@,
    )
}

/// The metadata of a session with another identity: another id and provider and, where one
/// is given, another time stamp. Nothing else changes but that marks of earlier copies go.
pub open spec fn with_identity(
    record: JsonView,
    target: Seq<char>,
    provider: Seq<char>,
    timestamp: Option<Seq<char>>,
) -> JsonView {
    with_member(
        with_optional(record, "timestamp"@, timestamp),
        "payload"@,
        payload_with_identity(meta_object(record)->Some_0, target, provider, timestamp),
    )
}

fn set_optional(value: Json, name: &str, text: Option<&str>) -> (json: Json)
    ensures
        json.model() == with_optional(value.model(), name@, opt_str(text)),
{
    match text {
        Some(text) => value.set_str(name, text),
        None => value,
    }
}

/// Gives session metadata another identity.
pub fn give_identity(record: Json, target: &str, provider: &str, timestamp: Option<&str>) -> (json:
    Json)
    requires
        meta_object(record.model()) is Some,
    ensures
        json.model() == with_identity(record.model(), target@, provider@, opt_str(timestamp)),
{
    let payload = match record.get("payload") {
        Some(payload) => payload.copy(),
        None => Json::Null,
    };
    assert(meta_object(record.model()) == Some(payload.model()));
    let payload = payload.set_str("id", target).set_str("session_id", target).set_str(
        "model_provider",
        provider,
    );
    let payload = set_optional(payload, "timestamp", timestamp).without("clone_timestamp").without(
        "cloned_from",
    );
    set_optional(record, "timestamp", timestamp).set("payload", payload)
}

/// A line with the metadata of a session given another identity; `None` where the line
/// holds something else.
pub open spec fn rewritten(
    line: Seq<char>,
    source: Seq<char>,
    target: Seq<char>,
    provider: Seq<char>,
    timestamp: Option<Seq<char>>,
) -> Result<Option<Seq<char>>, ErrorView> {
    match line_meta(line, source) {
        Err(error) => Err(error),
        Ok(None) => Ok(None),
        Ok(Some(record)) => Ok(Some(json_text(with_identity(record, target, provider, timestamp)))),
    }
}

/// What the outcome of rewriting a line holds.
pub open spec fn line_outcome(outcome: Result<Option<String>, AppError>) -> Result<
    Option<Seq<char>>,
    ErrorView,
> {
    match outcome {
        Ok(line) => Ok(opt_text(line)),
        Err(error) => Err(error@),
    }
}

/// Gives the metadata of a session in a line another identity.
pub fn rewrite_session_meta_identity(
    line: &str,
    source_session_id: &str,
    target_session_id: &str,
    provider: &str,
    timestamp_override: Option<&str>,
) -> (rewritten_line: Result<Option<String>, AppError>)
    ensures
        line_outcome(rewritten_line) == rewritten(
            line@,
            source_session_id@,
            target_session_id@,
            provider@,
            opt_str(timestamp_override),
        ),
        rewritten_line matches Ok(Some(text)) ==> is_written(
            text@,
            with_identity(
                line_meta(line@, source_session_id@)->Ok_0->Some_0,
                target_session_id@,
                provider@,
                opt_str(timestamp_override),
            ),
        ),
{
    match source_session_meta(line, source_session_id) {
        Err(error) => Err(error),
        Ok(None) => Ok(None),
        Ok(Some(record)) => {
            let changed = give_identity(record, target_session_id, provider, timestamp_override);
            Ok(Some(render(&changed)))
        },
    }
}

/// Whether an id is not blank and has no white space round it.
pub open spec fn is_session_id(id: Seq<char>) -> bool {
    id.len() > 0 && trimmed(id) == id
}

/// A line that is written for metadata with another identity states that identity.
pub proof fn lemma_identity_is_stated(
    text: Seq<char>,
    record: JsonView,
    target: Seq<char>,
    provider: Seq<char>,
    timestamp: Option<Seq<char>>,
)
    requires
        is_meta(record),
        meta_object(record) is Some,
        reads_back(record, 127),
        is_session_id(target),
        is_written(text, with_identity(record, target, provider, timestamp)),
    ensures
        line_states(text, target, provider),
{
    let payload = meta_object(record)->Some_0;
    let members = record->Object_0;
    assert(members.contains_key("payload"@));
    assert(reads_back(payload, 126));
    let named = with_member(payload, "id"@, JsonView::Text(target));
    lemma_with_member_reads_back(payload, "id"@, JsonView::Text(target), 126);
    let twice = with_member(named, "session_id"@, JsonView::Text(target));
    lemma_with_member_reads_back(named, "session_id"@, JsonView::Text(target), 126);
    let provided = with_member(twice, "model_provider"@, JsonView::Text(provider));
    lemma_with_member_reads_back(twice, "model_provider"@, JsonView::Text(provider), 126);
    let stamped = with_optional(provided, "timestamp"@, timestamp);
    let outer = with_optional(record, "timestamp"@, timestamp);
    if timestamp is Some {
        let stamp = JsonView::Text(timestamp->Some_0);
        lemma_with_member_reads_back(provided, "timestamp"@, stamp, 126);
        lemma_with_member_reads_back(record, "timestamp"@, stamp, 127);
    }
    lemma_without_member_reads_back(stamped, "clone_timestamp"@, 126);
    lemma_without_member_reads_back(
        without_member(stamped, "clone_timestamp"@),
        "cloned_from"@,
        126,
    );
    lemma_with_member_reads_back(
        outer,
        "payload"@,
        payload_with_identity(payload, target, provider, timestamp),
        127,
    );
    law_identity_changes_nothing_else(record, target, provider, timestamp, "id"@);
}

/// Metadata with another identity names the other session and provider, and every member of
/// its payload that is not part of the identity is what it was.
pub proof fn law_identity_changes_nothing_else(
    record: JsonView,
    target: Seq<char>,
    provider: Seq<char>,
    timestamp: Option<Seq<char>>,
    name: Seq<char>,
)
    requires
        is_meta(record),
        meta_object(record) is Some,
    ensures
        ({
            let before = meta_object(record)->Some_0;
            let changed = with_identity(record, target, provider, timestamp);
            &&& is_meta(changed)
            &&& meta_object(changed) matches Some(payload) && {
                &&& member_text(payload, "id"@) == Some(target)
                &&& member_text(payload, "session_id"@) == Some(target)
                &&& member_text(payload, "model_provider"@) == Some(provider)
                &&& name != "id"@ && name != "session_id"@ && name != "model_provider"@ && name
                    != "timestamp"@ && name != "clone_timestamp"@ && name != "cloned_from"@
                    ==> member(payload, name) == member(before, name)
            }
        }),
{
    reveal_strlit("type");
    reveal_strlit("payload");
    reveal_strlit("timestamp");
    reveal_strlit("id");
    reveal_strlit("session_id");
    reveal_strlit("model_provider");
    reveal_strlit("clone_timestamp");
    reveal_strlit("cloned_from");
    assert("type"@.len() == 4 && "payload"@.len() == 7 && "timestamp"@.len() == 9);
    assert("id"@.len() == 2 && "session_id"@.len() == 10 && "model_provider"@.len() == 14);
    assert("clone_timestamp"@.len() == 15 && "cloned_from"@.len() == 11);
}

// ---------------------------------------------------------------------------
// History modes
// ---------------------------------------------------------------------------

/// The history mode that metadata states.
pub open spec fn history_mode(meta: JsonView) -> Option<JsonView> {
    match member(meta, "payload"@) {
        Some(payload) => member(payload, "history_mode"@),
        None => None,
    }
}

/// Whether an operation can work on a session with this metadata: only where its history
/// is in one file.
pub open spec fn legacy_verdict(meta: JsonView, operation: Seq<char>) -> Result<(), ErrorView> {
    match history_mode(meta) {
        None => Ok(()),
        Some(mode) => if mode == JsonView::Text("legacy"@) {
            Ok(())
        } else if mode == JsonView::Text("paginated"@) {
            Err(
                ErrorView::Other(
                    operation
                        + "暂不支持 history_mode=paginated；请使用 Codex 官方“在新任务中继续”完成派生"@,
                ),
            )
        } else {
            Err(
                ErrorView::Other(
                    operation + "遇到不支持的 history_mode="@ + json_text(mode)
                        + "；请升级工具或使用 Codex 官方派生功能"@,
                ),
            )
        },
    }
}

/// Refuses an operation on a session whose history is not in one file.
pub fn ensure_legacy_history_mode(meta: &Json, operation: &str) -> (outcome: Result<(), AppError>)
    ensures
        unit_outcome(outcome) == legacy_verdict(meta.model(), operation@),
{
    let mode = match meta.get("payload") {
        Some(payload) => payload.get("history_mode"),
        None => None,
    };
    match mode {
        None => Ok(()),
        Some(mode) => {
            if let Json::Text(text) = mode {
                if same(text.as_str(), "legacy") {
                    return Ok(());
                }
                if same(text.as_str(), "paginated") {
                    return Err(
                        AppError::Other(
                            join2(
                                operation,
                                "暂不支持 history_mode=paginated；请使用 Codex 官方“在新任务中继续”完成派生",
                            ),
                        ),
                    );
                }
            }
            Err(
                AppError::Other(
                    join4(
                        operation,
                        "遇到不支持的 history_mode=",
                        render(mode).as_str(),
                        "；请升级工具或使用 Codex 官方派生功能",
                    ),
                ),
            )
        },
    }
}

// ---------------------------------------------------------------------------
// An independent copy
// ---------------------------------------------------------------------------

/// The members that the payload of an independent copy does not have.
pub open spec fn dropped_members() -> Seq<Seq<char>> {
    seq![
        "parent_thread_id"@,
        "agent_nickname"@,
        "agent_role"@,
        "agent_type"@,
        "agent_path"@,
        "subagent_history_start_ordinal"@,
        "history_base"@,
        "context_window"@,
        "clone_timestamp"@,
        "cloned_from"@,
    ]
}

/// A value without members of these names.
pub open spec fn without_members(value: JsonView, names: Seq<Seq<char>>) -> JsonView
    decreases names.len(),
{
    if names.len() == 0 {
        value
    } else {
        without_member(without_members(value, names.drop_last()), names.last())
    }
}

/// Whether the payload of metadata marks the session of a sub-agent.
pub open spec fn payload_is_subagent(payload: JsonView) -> bool {
    match member(payload, "source"@) {
        Some(source) => match metadata_value(source) {
            Some(text) => source_is_subagent(Some(text)),
            None => false,
        },
        None => false,
    }
}

/// The payload of an independent copy with its identity set.
pub open spec fn copied_identity(
    payload: JsonView,
    new_id: Seq<char>,
    provider: Seq<char>,
    source_id: Seq<char>,
    timestamp: Seq<char>,
) -> JsonView {
    with_member(
        with_member(
            with_member(
                with_member(
                    with_member(
                        with_member(
                            with_member(payload, "id"@, JsonView::Text(new_id)),
                            "session_id"@,
                            JsonView::Text(new_id),
                        ),
                        "forked_from_id"@,
                        JsonView::Text(source_id),
                    ),
                    "timestamp"@,
                    JsonView::Text(timestamp),
                ),
                "model_provider"@,
                JsonView::Text(provider),
            ),
            "thread_source"@,
            JsonView::Text("user"@),
        ),
        "history_mode"@,
        JsonView::Text("legacy"@),
    )
}

/// The payload of an independent copy: it has its own identity, comes from a user, and has
/// nothing that ties it to a parent.
pub open spec fn copied_payload(
    payload: JsonView,
    new_id: Seq<char>,
    provider: Seq<char>,
    source_id: Seq<char>,
    timestamp: Seq<char>,
) -> JsonView {
    let identified = copied_identity(payload, new_id, provider, source_id, timestamp);
    let sourced = if payload_is_subagent(payload) || member(payload, "source"@) is None {
        with_member(identified, "source"@, JsonView::Text("cli"@))
    } else {
        identified
    };
    without_members(sourced, dropped_members())
}

/// The metadata of an independent copy of a session.
pub open spec fn copied_meta(
    meta: JsonView,
    new_id: Seq<char>,
    provider: Seq<char>,
    source_id: Seq<char>,
    timestamp: Seq<char>,
) -> Result<JsonView, ErrorView> {
    match legacy_verdict(meta, "完整 Fork"@) {
        Err(error) => Err(error),
        Ok(()) => match meta_object(meta) {
            None => Err(no_payload()),
            Some(payload) => Ok(
                with_member(
                    with_member(meta, "timestamp"@, JsonView::Text(timestamp)),
                    "payload"@,
                    copied_payload(payload, new_id, provider, source_id, timestamp),
                ),
            ),
        },
    }
}

fn drop_members(value: Json, names: &Vec<&'static str>, Ghost(all): Ghost<Seq<Seq<char>>>) -> (json:
    Json)
    requires
        names@.len() == all.len(),
        forall|i: int| 0 <= i < all.len() ==> (#[trigger] names@[i])@ == all[i],
    ensures
        json.model() == without_members(value.model(), all),
{
    let ghost before = value.model();
    let mut json = value;
    let mut at: usize = 0;
    assert(all.take(0) =~= Seq::empty());
    while at < names.len()
        invariant
            at <= names@.len() == all.len(),
            forall|i: int| 0 <= i < all.len() ==> (#[trigger] names@[i])@ == all[i],
            json.model() == without_members(before, all.take(at as int)),
        decreases names.len() - at,
    {
        assert(all.take(at + 1).drop_last() =~= all.take(at as int));
        assert(names@[at as int]@ == all[at as int]);
        json = json.without(names[at]);
        at = at + 1;
    }
    assert(all.take(at as int) =~= all);
    json
}

fn dropped_names() -> (names: Vec<&'static str>)
    ensures
        names@.len() == dropped_members().len(),
        forall|i: int| 0 <= i < names@.len() ==> (#[trigger] names@[i])@ == dropped_members()[i],
{
    let names: Vec<&'static str> = vec![
        "parent_thread_id",
        "agent_nickname",
        "agent_role",
        "agent_type",
        "agent_path",
        "subagent_history_start_ordinal",
        "history_base",
        "context_window",
        "clone_timestamp",
        "cloned_from",
    ];
    names
}

/// What the outcome of making metadata holds.
pub open spec fn json_outcome(outcome: Result<Json, AppError>) -> Result<JsonView, ErrorView> {
    match outcome {
        Ok(json) => Ok(json.model()),
        Err(error) => Err(error@),
    }
}

/// The metadata of an independent copy of a session.
pub fn independent_meta(
    source_meta: Json,
    new_id: &str,
    provider: &str,
    source_id: &str,
    timestamp: &str,
) -> (meta: Result<Json, AppError>)
    ensures
        json_outcome(meta) == copied_meta(
            source_meta.model(),
            new_id@,
            provider@,
            source_id@,
            timestamp@,
        ),
{
    if let Err(error) = ensure_legacy_history_mode(&source_meta, "完整 Fork") {
        return Err(error);
    }
    let payload = match source_meta.get("payload") {
        Some(payload) => match payload {
            Json::Object(_) => payload.copy(),
            _ => return Err(AppError::Other("session_meta 缺少有效 payload".to_owned())),
        },
        None => return Err(AppError::Other("session_meta 缺少有效 payload".to_owned())),
    };
    assert(meta_object(source_meta.model()) == Some(payload.model()));
    let (subagent, sourceless) = match payload.get("source") {
        Some(source) => {
            let subagent = match metadata_string_value(source) {
                Some(text) => is_subagent_source(Some(text.as_str())),
                None => false,
            };
            (subagent, false)
        },
        None => (false, true),
    };
    assert(subagent == payload_is_subagent(payload.model()));
    let payload = payload.set_str("id", new_id).set_str("session_id", new_id).set_str(
        "forked_from_id",
        source_id,
    ).set_str("timestamp", timestamp).set_str("model_provider", provider).set_str(
        "thread_source",
        "user",
    ).set_str("history_mode", "legacy");
    let payload = if subagent || sourceless {
        payload.set_str("source", "cli")
    } else {
        payload
    };
    let payload = drop_members(payload, &dropped_names(), Ghost(dropped_members()));
    Ok(source_meta.set_str("timestamp", timestamp).set("payload", payload))
}

/// The line of the metadata of an independent copy of a session.
pub fn build_independent_duplicate_meta(
    source_meta: Json,
    new_id: &str,
    provider: &str,
    source_id: &str,
    timestamp: &str,
) -> (line: Result<String, AppError>)
    ensures
        crate::error::text_outcome(line) == match copied_meta(
            source_meta.model(),
            new_id@,
            provider@,
            source_id@,
            timestamp@,
        ) {
            Ok(meta) => Ok::<Seq<char>, ErrorView>(json_text(meta)),
            Err(error) => Err(error),
        },
        line matches Ok(text) ==> is_written(
            text@,
            copied_meta(
                source_meta.model(),
                new_id@,
                provider@,
                source_id@,
                timestamp@,
            )->Ok_0,
        ),
{
    match independent_meta(source_meta, new_id, provider, source_id, timestamp) {
        Ok(meta) => Ok(render(&meta)),
        Err(error) => Err(error),
    }
}

proof fn lemma_without_members(value: JsonView, names: Seq<Seq<char>>, name: Seq<char>)
    requires
        value is Object,
    ensures
        without_members(value, names) is Object,
        member(without_members(value, names), name) == if names.contains(name) {
            None
        } else {
            member(value, name)
        },
    decreases names.len(),
{
    if names.len() > 0 {
        let rest = names.drop_last();
        lemma_without_members(value, rest, name);
        if names.contains(name) {
            let k = choose|k: int| 0 <= k < names.len() && names[k] == name;
            if k < rest.len() {
                assert(rest[k] == name);
                assert(rest.contains(name));
            }
        }
        if rest.contains(name) {
            let k = choose|k: int| 0 <= k < rest.len() && rest[k] == name;
            assert(names[k] == name);
        }
        assert(names[names.len() - 1] == names.last());
    }
}

/// The metadata of an independent copy names the new session, where it came from and the
/// user as its source, and has none of the members that tie a session to a parent.
pub proof fn law_copies_are_independent(
    meta: JsonView,
    new_id: Seq<char>,
    provider: Seq<char>,
    source_id: Seq<char>,
    timestamp: Seq<char>,
    name: Seq<char>,
)
    requires
        dropped_members().contains(name),
    ensures
        copied_meta(meta, new_id, provider, source_id, timestamp) matches Ok(copy) ==> {
            &&& meta_object(copy) matches Some(payload) && {
                &&& member_text(payload, "id"@) == Some(new_id)
                &&& member_text(payload, "session_id"@) == Some(new_id)
                &&& member_text(payload, "model_provider"@) == Some(provider)
                &&& member_text(payload, "forked_from_id"@) == Some(source_id)
                &&& member_text(payload, "thread_source"@) == Some("user"@)
                &&& member(payload, name) is None
            }
        },
{
    if let Some(payload) = meta_object(meta) {
        reveal_strlit("payload");
        reveal_strlit("timestamp");
        reveal_strlit("id");
        reveal_strlit("session_id");
        reveal_strlit("forked_from_id");
        reveal_strlit("model_provider");
        reveal_strlit("thread_source");
        reveal_strlit("history_mode");
        reveal_strlit("source");
        assert("payload"@.len() == 7 && "timestamp"@.len() == 9);
        assert("id"@.len() == 2 && "session_id"@.len() == 10 && "forked_from_id"@.len() == 14);
        assert("model_provider"@.len() == 14 && "thread_source"@.len() == 13);
        assert("history_mode"@.len() == 12 && "source"@.len() == 6);
        assert("forked_from_id"@[0] == 'f' && "model_provider"@[0] == 'm');
        let identified = copied_identity(payload, new_id, provider, source_id, timestamp);
        let sourced = if payload_is_subagent(payload) || member(payload, "source"@) is None {
            with_member(identified, "source"@, JsonView::Text("cli"@))
        } else {
            identified
        };
        lemma_without_members(sourced, dropped_members(), name);
        lemma_dropped_differ("id"@);
        lemma_dropped_differ("session_id"@);
        lemma_dropped_differ("model_provider"@);
        lemma_dropped_differ("forked_from_id"@);
        lemma_dropped_differ("thread_source"@);
        lemma_without_members(sourced, dropped_members(), "model_provider"@);
        lemma_without_members(sourced, dropped_members(), "id"@);
        lemma_without_members(sourced, dropped_members(), "session_id"@);
        lemma_without_members(sourced, dropped_members(), "forked_from_id"@);
        lemma_without_members(sourced, dropped_members(), "thread_source"@);
    }
}

proof fn lemma_dropped_differ(name: Seq<char>)
    requires
        name == "id"@ || name == "session_id"@ || name == "model_provider"@ || name
            == "forked_from_id"@ || name == "thread_source"@,
    ensures
        !dropped_members().contains(name),
{
    reveal_strlit("model_provider");
    reveal_strlit("id");
    reveal_strlit("session_id");
    reveal_strlit("forked_from_id");
    reveal_strlit("thread_source");
    reveal_strlit("parent_thread_id");
    reveal_strlit("agent_nickname");
    reveal_strlit("agent_role");
    reveal_strlit("agent_type");
    reveal_strlit("agent_path");
    reveal_strlit("subagent_history_start_ordinal");
    reveal_strlit("history_base");
    reveal_strlit("context_window");
    reveal_strlit("clone_timestamp");
    reveal_strlit("cloned_from");
    assert forall|k: int| 0 <= k < dropped_members().len() implies dropped_members()[k]
        != name by {
        let dropped = dropped_members()[k];
        assert(dropped.len() != name.len() || dropped[0] != name[0]);
    }
}

proof fn lemma_without_members_reads_back(value: JsonView, names: Seq<Seq<char>>, depth: nat)
    requires
        reads_back(value, depth),
    ensures
        reads_back(without_members(value, names), depth),
    decreases names.len(),
{
    if names.len() > 0 {
        lemma_without_members_reads_back(value, names.drop_last(), depth);
        lemma_without_member_reads_back(
            without_members(value, names.drop_last()),
            names.last(),
            depth,
        );
    }
}

proof fn lemma_copied_payload_reads_back(
    payload: JsonView,
    new_id: Seq<char>,
    provider: Seq<char>,
    source_id: Seq<char>,
    timestamp: Seq<char>,
)
    requires
        reads_back(payload, 126),
    ensures
        reads_back(copied_payload(payload, new_id, provider, source_id, timestamp), 126),
{
    let a = with_member(payload, "id"@, JsonView::Text(new_id));
    lemma_with_member_reads_back(payload, "id"@, JsonView::Text(new_id), 126);
    let b = with_member(a, "session_id"@, JsonView::Text(new_id));
    lemma_with_member_reads_back(a, "session_id"@, JsonView::Text(new_id), 126);
    let c = with_member(b, "forked_from_id"@, JsonView::Text(source_id));
    lemma_with_member_reads_back(b, "forked_from_id"@, JsonView::Text(source_id), 126);
    let d = with_member(c, "timestamp"@, JsonView::Text(timestamp));
    lemma_with_member_reads_back(c, "timestamp"@, JsonView::Text(timestamp), 126);
    let e = with_member(d, "model_provider"@, JsonView::Text(provider));
    lemma_with_member_reads_back(d, "model_provider"@, JsonView::Text(provider), 126);
    let f = with_member(e, "thread_source"@, JsonView::Text("user"@));
    lemma_with_member_reads_back(e, "thread_source"@, JsonView::Text("user"@), 126);
    let g = with_member(f, "history_mode"@, JsonView::Text("legacy"@));
    lemma_with_member_reads_back(f, "history_mode"@, JsonView::Text("legacy"@), 126);
    assert(g == copied_identity(payload, new_id, provider, source_id, timestamp));
    lemma_with_member_reads_back(g, "source"@, JsonView::Text("cli"@), 126);
    let sourced = if payload_is_subagent(payload) || member(payload, "source"@) is None {
        with_member(g, "source"@, JsonView::Text("cli"@))
    } else {
        g
    };
    lemma_without_members_reads_back(sourced, dropped_members(), 126);
}

/// A line that is written for the metadata of an independent copy states the copy.
pub proof fn lemma_copy_is_stated(
    text: Seq<char>,
    meta: JsonView,
    new_id: Seq<char>,
    provider: Seq<char>,
    source_id: Seq<char>,
    timestamp: Seq<char>,
)
    requires
        is_meta(meta),
        reads_back(meta, 127),
        is_session_id(new_id),
        copied_meta(meta, new_id, provider, source_id, timestamp) matches Ok(copy) && is_written(
            text,
            copy,
        ),
    ensures
        line_states(text, new_id, provider),
{
    let payload = meta_object(meta)->Some_0;
    assert(meta->Object_0.contains_key("payload"@));
    assert(reads_back(payload, 126));
    lemma_copied_payload_reads_back(payload, new_id, provider, source_id, timestamp);
    let stamped = with_member(meta, "timestamp"@, JsonView::Text(timestamp));
    lemma_with_member_reads_back(meta, "timestamp"@, JsonView::Text(timestamp), 127);
    lemma_with_member_reads_back(
        stamped,
        "payload"@,
        copied_payload(payload, new_id, provider, source_id, timestamp),
        127,
    );
    assert(dropped_members()[0] == "parent_thread_id"@);
    assert(dropped_members().contains("parent_thread_id"@));
    law_copies_are_independent(
        meta,
        new_id,
        provider,
        source_id,
        timestamp,
        "parent_thread_id"@,
    );
    reveal_strlit("type");
    reveal_strlit("payload");
    reveal_strlit("timestamp");
    assert("type"@.len() == 4 && "payload"@.len() == 7 && "timestamp"@.len() == 9);
}

/// The metadata of an independent copy keeps every member of the payload that is neither part of
/// what the copy is nor a tie to a parent or to an earlier copy. The ties are gone.
pub proof fn law_copies_keep_all_else(
    meta: JsonView,
    new_id: Seq<char>,
    provider: Seq<char>,
    source_id: Seq<char>,
    timestamp: Seq<char>,
    name: Seq<char>,
)
    ensures
        copied_meta(meta, new_id, provider, source_id, timestamp) matches Ok(copy) ==> {
            let before = member(meta, "payload"@)->Some_0;
            let after = member(copy, "payload"@)->Some_0;
            let is_tie = name == "parent_thread_id"@ || name == "agent_nickname"@ || name
                == "agent_role"@ || name == "agent_type"@ || name == "agent_path"@ || name
                == "subagent_history_start_ordinal"@ || name == "history_base"@ || name
                == "context_window"@ || name == "clone_timestamp"@ || name == "cloned_from"@;
            let is_own = name == "id"@ || name == "session_id"@ || name == "forked_from_id"@ || name
                == "timestamp"@ || name == "model_provider"@ || name == "thread_source"@ || name
                == "history_mode"@ || name == "source"@;
            &&& member(meta, "payload"@) is Some && member(copy, "payload"@) is Some
            &&& is_tie ==> member(after, name) is None
            &&& !is_tie && !is_own ==> member(after, name) == member(before, name)
        },
{
    if let Some(payload) = meta_object(meta) {
        reveal_strlit("payload");
        reveal_strlit("timestamp");
        assert("payload"@.len() == 7 && "timestamp"@.len() == 9);
        let identified = copied_identity(payload, new_id, provider, source_id, timestamp);
        let sourced = if payload_is_subagent(payload) || member(payload, "source"@) is None {
            with_member(identified, "source"@, JsonView::Text("cli"@))
        } else {
            identified
        };
        lemma_without_members(sourced, dropped_members(), name);
        let dropped = dropped_members();
        assert(dropped[0] == "parent_thread_id"@ && dropped[1] == "agent_nickname"@);
        assert(dropped[2] == "agent_role"@ && dropped[3] == "agent_type"@);
        assert(dropped[4] == "agent_path"@ && dropped[5] == "subagent_history_start_ordinal"@);
        assert(dropped[6] == "history_base"@ && dropped[7] == "context_window"@);
        assert(dropped[8] == "clone_timestamp"@ && dropped[9] == "cloned_from"@);
    }
}

/// The metadata of an independent copy stays metadata, and is as new as it is said to be. It is
/// that of a user with a history in one file, and comes from where its source comes from, or from
/// the command line where the source is a sub-agent or says nothing.
pub proof fn law_copies_are_sessions_of_a_user(
    meta: JsonView,
    new_id: Seq<char>,
    provider: Seq<char>,
    source_id: Seq<char>,
    timestamp: Seq<char>,
)
    ensures
        copied_meta(meta, new_id, provider, source_id, timestamp) matches Ok(copy) ==> {
            let before = member(meta, "payload"@)->Some_0;
            let after = member(copy, "payload"@)->Some_0;
            &&& member_text(copy, "timestamp"@) == Some(timestamp)
            &&& forall|name: Seq<char>|
                name != "timestamp"@ && name != "payload"@ ==> #[trigger] member(copy, name)
                    == member(meta, name)
            &&& member_text(after, "timestamp"@) == Some(timestamp)
            &&& member_text(after, "history_mode"@) == Some("legacy"@)
            &&& member_text(after, "thread_source"@) == Some("user"@)
            &&& match member(before, "source"@) {
                Some(source) => if metadata_value(source) matches Some(text) && source_is_subagent(
                    Some(text),
                ) {
                    member_text(after, "source"@) == Some("cli"@)
                } else {
                    member(after, "source"@) == Some(source)
                },
                None => member_text(after, "source"@) == Some("cli"@),
            }
        },
{
    if let Some(payload) = meta_object(meta) {
        reveal_strlit("payload");
        reveal_strlit("timestamp");
        reveal_strlit("id");
        reveal_strlit("session_id");
        reveal_strlit("forked_from_id");
        reveal_strlit("model_provider");
        reveal_strlit("thread_source");
        reveal_strlit("history_mode");
        reveal_strlit("source");
        assert("payload"@.len() == 7 && "timestamp"@.len() == 9);
        assert("id"@.len() == 2 && "session_id"@.len() == 10 && "forked_from_id"@.len() == 14);
        assert("model_provider"@.len() == 14 && "thread_source"@.len() == 13);
        assert("history_mode"@.len() == 12 && "source"@.len() == 6);
        let identified = copied_identity(payload, new_id, provider, source_id, timestamp);
        let sourced = if payload_is_subagent(payload) || member(payload, "source"@) is None {
            with_member(identified, "source"@, JsonView::Text("cli"@))
        } else {
            identified
        };
        lemma_kept_differ("timestamp"@);
        lemma_kept_differ("history_mode"@);
        lemma_kept_differ("source"@);
        lemma_dropped_differ("thread_source"@);
        lemma_without_members(sourced, dropped_members(), "timestamp"@);
        lemma_without_members(sourced, dropped_members(), "history_mode"@);
        lemma_without_members(sourced, dropped_members(), "thread_source"@);
        lemma_without_members(sourced, dropped_members(), "source"@);
    }
}

proof fn lemma_kept_differ(name: Seq<char>)
    requires
        name == "timestamp"@ || name == "history_mode"@ || name == "source"@,
    ensures
        !dropped_members().contains(name),
{
    reveal_strlit("timestamp");
    reveal_strlit("history_mode");
    reveal_strlit("source");
    reveal_strlit("parent_thread_id");
    reveal_strlit("agent_nickname");
    reveal_strlit("agent_role");
    reveal_strlit("agent_type");
    reveal_strlit("agent_path");
    reveal_strlit("subagent_history_start_ordinal");
    reveal_strlit("history_base");
    reveal_strlit("context_window");
    reveal_strlit("clone_timestamp");
    reveal_strlit("cloned_from");
    assert("history_mode"@[8] == 'm' && "history_base"@[8] == 'b');
    assert forall|k: int| 0 <= k < dropped_members().len() implies dropped_members()[k]
        != name by {
        let dropped = dropped_members()[k];
        assert(dropped.len() != name.len() || dropped[0] != name[0] || dropped[8] != name[8]);
    }
}

/// Metadata with another identity has the moment that is given, in the record and in its payload,
/// and none of the marks of an earlier copy; without a moment it keeps its own. Nothing else of the
/// record changes.
pub proof fn law_identity_sets_the_moment(
    record: JsonView,
    target: Seq<char>,
    provider: Seq<char>,
    timestamp: Option<Seq<char>>,
    name: Seq<char>,
)
    requires
        is_meta(record),
        meta_object(record) is Some,
    ensures
        ({
            let before = meta_object(record)->Some_0;
            let changed = with_identity(record, target, provider, timestamp);
            &&& meta_object(changed) matches Some(payload) && {
                &&& timestamp matches Some(moment) ==> member_text(changed, "timestamp"@) == Some(
                    moment,
                ) && member_text(payload, "timestamp"@) == Some(moment)
                &&& timestamp is None ==> member(changed, "timestamp"@) == member(
                    record,
                    "timestamp"@,
                ) && member(payload, "timestamp"@) == member(before, "timestamp"@)
                &&& member(payload, "clone_timestamp"@) is None
                &&& member(payload, "cloned_from"@) is None
            }
            &&& name != "timestamp"@ && name != "payload"@ ==> member(changed, name) == member(
                record,
                name,
            )
        }),
{
    reveal_strlit("payload");
    reveal_strlit("timestamp");
    reveal_strlit("id");
    reveal_strlit("session_id");
    reveal_strlit("model_provider");
    reveal_strlit("clone_timestamp");
    reveal_strlit("cloned_from");
    assert("payload"@.len() == 7 && "timestamp"@.len() == 9);
    assert("id"@.len() == 2 && "session_id"@.len() == 10 && "model_provider"@.len() == 14);
    assert("clone_timestamp"@.len() == 15 && "cloned_from"@.len() == 11);
}

/// An operation on a history in one file is allowed just where the metadata names no other mode of
/// history.
pub proof fn law_only_histories_in_one_file_are_handled(meta: JsonView, operation: Seq<char>)
    ensures
        legacy_verdict(meta, operation) is Ok <==> (member(meta, "payload"@) matches Some(payload)
            ==> (member(payload, "history_mode"@) matches Some(mode) ==> mode == JsonView::Text(
            "legacy"@,
        ))),
{
}

/// A line holds the metadata of a session just where it is a record of that kind whose payload names
/// the session; metadata without a proper payload is an error, and any other line holds none.
pub proof fn law_which_lines_hold_metadata(line: Seq<char>, id: Seq<char>, record: JsonView)
    requires
        json_document(line) == Some(record),
    ensures
        ({
            let kind = member_text(record, "type"@) == Some("session_meta"@);
            &&& line_meta(line, id) is Err <==> kind && !(member(record, "payload"@) matches Some(
                payload,
            ) && payload is Object)
            &&& line_meta(line, id) == Ok::<Option<JsonView>, ErrorView>(Some(record)) <==> kind && (
            member(record, "payload"@) matches Some(payload) && payload is Object && member_text(
                payload,
                "id"@,
            ) == Some(id))
        }),
{
}

} // verus!
