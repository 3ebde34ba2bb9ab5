//! What a rollout file says of its session: its identity, its origin, the settings
//! of its turns and the preview of its first user message.

use vstd::prelude::*;

use crate::error::{text_outcome, AppError, ErrorView};
use crate::json::{
    json_document, json_text, list_model, member, member_list, member_text, parse, render, Json,
    JsonView,
};
use crate::seqs::{
    first_found, greatest, last_found, lemma_first_at, lemma_first_found, lemma_greatest,
    lemma_last_at,
};
use crate::stamps::{millis_of, rfc3339_millis};
use crate::text::{
    chars_of, contains, cut_at, eq_ignore_ascii_case, find_in, find_part, has_part, head_of,
    is_blank, join, joined, lemma_find_from, lowered, occurs_at, opt_str, opt_text, same,
    split_once, take_chars, text_of, texts, to_ascii_lowercase, trim, trimmed,
};

verus! {

/// The provider that is in effect where none is named.
pub const DEFAULT_PROVIDER: &'static str = "openai";

/// What stands for a user message that holds only images.
pub const IMAGE_ONLY_USER_MESSAGE_PLACEHOLDER: &'static str = "[Image]";

// ---------------------------------------------------------------------------
// Metadata values
// ---------------------------------------------------------------------------

/// The text that a metadata value stands for: a text that is not blank as it is,
/// nothing for `null` and blank texts, and the JSON text of anything else.
pub open spec fn metadata_value(value: JsonView) -> Option<Seq<char>> {
    match value {
        JsonView::Null => None,
        JsonView::Text(text) => if trimmed(text).len() == 0 {
            None
        } else {
            Some(text)
        },
        _ => Some(json_text(value)),
    }
}

/// The metadata value of a member.
pub open spec fn metadata_field(payload: JsonView, field: Seq<char>) -> Option<Seq<char>> {
    match member(payload, field) {
        Some(value) => metadata_value(value),
        None => None,
    }
}

/// The metadata value of a member of `git`, or else of an older member.
pub open spec fn git_field(
    payload: JsonView,
    legacy_field: Seq<char>,
    git_field: Seq<char>,
) -> Option<Seq<char>> {
    let modern = match member(payload, "git"@) {
        Some(git) => metadata_field(git, git_field),
        None => None,
    };
    if modern is Some {
        modern
    } else {
        metadata_field(payload, legacy_field)
    }
}

/// The text that a metadata value stands for.
pub fn metadata_string_value(value: &Json) -> (text: Option<String>)
    ensures
        opt_text(text) == metadata_value(value.model()),
{
    match value {
        Json::Null => None,
        Json::Text(text) => if is_blank(text.as_str()) {
            None
        } else {
            Some(text.clone())
        },
        other => Some(render(other)),
    }
}

/// The metadata value of a member.
pub fn metadata_string_field(payload: &Json, field: &str) -> (text: Option<String>)
    ensures
        opt_text(text) == metadata_field(payload.model(), field@),
{
    match payload.get(field) {
        Some(value) => metadata_string_value(value),
        None => None,
    }
}

/// The metadata value of a member of `git`, or else of an older member.
pub fn metadata_git_field(payload: &Json, legacy_field: &str, git_member: &str) -> (text: Option<
    String,
>)
    ensures
        opt_text(text) == git_field(payload.model(), legacy_field@, git_member@),
{
    let modern = match payload.get("git") {
        Some(git) => metadata_string_field(git, git_member),
        None => None,
    };
    match modern {
        Some(text) => Some(text),
        None => metadata_string_field(payload, legacy_field),
    }
}

// ---------------------------------------------------------------------------
// Where a session comes from
// ---------------------------------------------------------------------------

/// Whether Desktop lists sessions of this source.
pub open spec fn source_is_visible(source: Option<Seq<char>>) -> bool {
    source == Some("cli"@) || source == Some("vscode"@)
}

/// Whether a source names a parent session, as in `parent:<id>`.
pub open spec fn names_parent(source: Seq<char>) -> bool {
    cut_at(source, ":"@) matches Some((kind, parent)) && lowered(kind) == lowered("parent"@)
        && trimmed(parent).len() > 0
}

/// Whether a source marks the session of a sub-agent, given what JSON it is.
pub open spec fn subagent_given(source: Seq<char>, value: Option<JsonView>) -> bool {
    let source = trimmed(source);
    source.len() > 0 && (lowered(source) == lowered("subagent"@) || names_parent(source) || (value
        matches Some(value) && member(value, "subagent"@) is Some))
}

/// Whether a source marks the session of a sub-agent.
pub open spec fn source_is_subagent(source: Option<Seq<char>>) -> bool {
    source matches Some(source) && subagent_given(source, json_document(trimmed(source)))
}

/// Whether Desktop lists sessions of this source.
pub fn is_desktop_visible_source(source: Option<&str>) -> (visible: bool)
    ensures
        visible == source_is_visible(opt_str(source)),
{
    match source {
        Some(source) => same(source, "cli") || same(source, "vscode"),
        None => false,
    }
}

/// Whether a source marks the session of a sub-agent, given the JSON value that its
/// text is.
pub fn is_subagent_given(source: &str, value: &Option<Json>) -> (subagent: bool)
    ensures
        subagent == subagent_given(
            source@,
            match value {
                Some(value) => Some(value.model()),
                None => None,
            },
        ),
{
    let source = trim(source);
    if source.as_str().is_empty() {
        return false;
    }
    if eq_ignore_ascii_case(source.as_str(), "subagent") {
        return true;
    }
    if let Some((kind, parent)) = split_once(source.as_str(), ":") {
        if eq_ignore_ascii_case(kind.as_str(), "parent") && !is_blank(parent.as_str()) {
            return true;
        }
    }
    match value {
        Some(value) => value.get("subagent").is_some(),
        None => false,
    }
}

/// Whether a source marks the session of a sub-agent.
pub fn is_subagent_source(source: Option<&str>) -> (subagent: bool)
    ensures
        subagent == source_is_subagent(opt_str(source)),
{
    match source {
        Some(source) => {
            let value = parse(trim(source).as_str());
            is_subagent_given(source, &value)
        },
        None => false,
    }
}

/// The source that an originator stands for.
pub open spec fn originator_source(originator: Seq<char>) -> Option<Seq<char>> {
    let name = lowered(originator);
    if has_part(name, "vscode"@) {
        Some("vscode"@)
    } else if has_part(name, "cli"@) || has_part(name, "codex"@) {
        Some("cli"@)
    } else {
        None
    }
}

/// The source that session metadata states or implies.
pub open spec fn stated_source(payload: JsonView) -> Option<Seq<char>> {
    match metadata_field(payload, "source"@) {
        Some(source) => Some(source),
        None => match metadata_field(payload, "originator"@) {
            Some(originator) => originator_source(originator),
            None => None,
        },
    }
}

/// The source under which Desktop lists a session: the stated one where it is that
/// of a sub-agent or one that Desktop lists, and else the default.
pub open spec fn visible_source(payload: JsonView) -> Seq<char> {
    match stated_source(payload) {
        Some(source) => if source_is_subagent(Some(source)) || source_is_visible(Some(source)) {
            source
        } else {
            "cli"@
        },
        None => "cli"@,
    }
}

/// The source under which Desktop lists a session.
pub fn desktop_visible_source(payload: &Json) -> (source: String)
    ensures
        source@ == visible_source(payload.model()),
{
    let stated = match metadata_string_field(payload, "source") {
        Some(source) => Some(source),
        None => match metadata_string_field(payload, "originator") {
            Some(originator) => {
                let name = to_ascii_lowercase(originator.as_str());
                if contains(name.as_str(), "vscode") {
                    Some("vscode".to_owned())
                } else if contains(name.as_str(), "cli") || contains(name.as_str(), "codex") {
                    Some("cli".to_owned())
                } else {
                    None
                }
            },
            None => None,
        },
    };
    if let Some(source) = stated {
        if is_subagent_source(Some(source.as_str())) {
            return source;
        }
        if is_desktop_visible_source(Some(source.as_str())) {
            return source;
        }
    }
    "cli".to_owned()
}

// ---------------------------------------------------------------------------
// Previews of user messages
// ---------------------------------------------------------------------------

/// A message without what precedes its request.
pub open spec fn request_text(message: Seq<char>) -> Seq<char> {
    match find_in(message, "## My request for Codex:"@) {
        Some(at) => trimmed(message.skip(at + "## My request for Codex:"@.len())),
        None => trimmed(message),
    }
}

/// The text of one part of a message, where it is a text part that is not blank.
pub open spec fn part_line(part: JsonView) -> Option<Seq<char>> {
    if member_text(part, "type"@) == Some("text"@) {
        match member_text(part, "text"@) {
            Some(text) => if trimmed(text).len() == 0 {
                None
            } else {
                Some(trimmed(text))
            },
            None => None,
        }
    } else {
        None
    }
}

/// Gives each part of a message its text.
pub open spec fn part_lines() -> spec_fn(JsonView) -> Option<Seq<char>> {
    |part: JsonView| part_line(part)
}

/// Whether a message has a part of this type.
pub open spec fn has_part_of_type(parts: Seq<JsonView>, kind: Seq<char>) -> bool {
    exists|i: int| 0 <= i < parts.len() && #[trigger] member_text(parts[i], "type"@) == Some(kind)
}

/// The preview of a user message that was kept in parts.
pub open spec fn parts_preview(item: JsonView) -> Option<Seq<char>> {
    match member_list(item, "content"@) {
        Some(parts) => {
            let message = trimmed(request_text(joined(parts.filter_map(part_lines()), "\n"@)));
            if message.len() > 0 {
                Some(message)
            } else if has_part_of_type(parts, "local_image"@) {
                Some("[Image]"@)
            } else {
                None
            }
        },
        None => None,
    }
}

/// Whether a member is a list that holds anything.
pub open spec fn has_items(value: JsonView, name: Seq<char>) -> bool {
    member_list(value, name) matches Some(items) && items.len() > 0
}

/// The preview of a user message that was kept as one text.
pub open spec fn message_preview(payload: JsonView) -> Option<Seq<char>> {
    let message = match member_text(payload, "message"@) {
        Some(message) => trimmed(request_text(message)),
        None => trimmed(Seq::empty()),
    };
    if message.len() > 0 {
        Some(message)
    } else if has_items(payload, "images"@) || has_items(payload, "local_images"@) {
        Some("[Image]"@)
    } else {
        None
    }
}

/// The preview of the user message that an event carries.
pub open spec fn event_preview(payload: JsonView) -> Option<Seq<char>> {
    let kind = member_text(payload, "type"@);
    if kind == Some("user_message"@) {
        message_preview(payload)
    } else if kind == Some("item_completed"@) {
        match member(payload, "item"@) {
            Some(item) => if member_text(item, "type"@) == Some("UserMessage"@) {
                parts_preview(item)
            } else {
                None
            },
            None => None,
        }
    } else {
        None
    }
}

/// Removes what precedes the request of a message.
pub fn strip_user_message_prefix(message: &str) -> (request: String)
    ensures
        request@ == request_text(message@),
{
    let begin = "## My request for Codex:";
    let chars = chars_of(message);
    let marker = chars_of(begin);
    let length: usize = chars.len();
    match find_part(&chars, &marker, 0) {
        Some(at) => {
            let rest = text_of(&chars, at + marker.len(), length);
            assert(rest@ =~= message@.skip(at + begin@.len()));
            trim(rest.as_str())
        },
        None => trim(message),
    }
}

/// The preview of a user message that was kept in parts.
pub fn paginated_user_message_preview(item: &Json) -> (preview: Option<String>)
    ensures
        opt_text(preview) == parts_preview(item.model()),
{
    let parts = match item.get_list("content") {
        Some(parts) => parts,
        None => return None,
    };
    let ghost views = list_model(parts@);
    let mut found: Vec<String> = Vec::new();
    let mut has_image = false;
    let mut at: usize = 0;
    while at < parts.len()
        invariant
            at <= parts@.len(),
            views == list_model(parts@),
            texts(found@) == views.take(at as int).filter_map(part_lines()),
            has_image == has_part_of_type(views.take(at as int), "local_image"@),
        decreases parts.len() - at,
    {
        let part = &parts[at];
        let ghost so_far = views.take(at as int);
        let ghost next = views.take(at + 1);
        assert(next.drop_last() =~= so_far);
        assert(next.last() == part.model());
        let ghost before = texts(found@);
        if part.has_str("type", "text") {
            if let Some(text) = part.get_str("text") {
                let line = trim(text.as_str());
                if !line.as_str().is_empty() {
                    found.push(line);
                    assert(texts(found@) =~= before + seq![trimmed(text@)]);
                }
            }
        }
        if part.has_str("type", "local_image") {
            assert(member_text(next[at as int], "type"@) == Some("local_image"@));
            has_image = true;
        }
        proof {
            if has_part_of_type(so_far, "local_image"@) {
                let i = choose|i: int|
                    0 <= i < so_far.len() && #[trigger] member_text(so_far[i], "type"@) == Some(
                        "local_image"@,
                    );
                assert(member_text(next[i], "type"@) == Some("local_image"@));
            }
            if has_part_of_type(next, "local_image"@) {
                let i = choose|i: int|
                    0 <= i < next.len() && #[trigger] member_text(next[i], "type"@) == Some(
                        "local_image"@,
                    );
                if i < at {
                    assert(member_text(so_far[i], "type"@) == Some("local_image"@));
                }
            }
        }
        at = at + 1;
    }
    assert(views.take(at as int) =~= views);
    let message = trim(strip_user_message_prefix(join(&found, "\n").as_str()).as_str());
    if !message.as_str().is_empty() {
        Some(message)
    } else if has_image {
        Some("[Image]".to_owned())
    } else {
        None
    }
}

/// The preview of a user message that was kept as one text.
pub fn user_message_preview(payload: &Json) -> (preview: Option<String>)
    ensures
        opt_text(preview) == message_preview(payload.model()),
{
    let message = match payload.get_str("message") {
        Some(message) => trim(strip_user_message_prefix(message.as_str()).as_str()),
        None => trim(String::new().as_str()),
    };
    if !message.as_str().is_empty() {
        return Some(message);
    }
    let has_remote_image = match payload.get_list("images") {
        Some(items) => items.len() > 0,
        None => false,
    };
    let has_local_image = match payload.get_list("local_images") {
        Some(items) => items.len() > 0,
        None => false,
    };
    if has_remote_image || has_local_image {
        return Some("[Image]".to_owned());
    }
    None
}

/// The preview of the user message that an event carries.
pub fn event_user_message_preview(payload: &Json) -> (preview: Option<String>)
    ensures
        opt_text(preview) == event_preview(payload.model()),
{
    proof {
        reveal_strlit("user_message");
        reveal_strlit("item_completed");
        assert("user_message"@.len() != "item_completed"@.len());
    }
    if payload.has_str("type", "user_message") {
        user_message_preview(payload)
    } else if payload.has_str("type", "item_completed") {
        match payload.get("item") {
            Some(item) => if item.has_str("type", "UserMessage") {
                paginated_user_message_preview(item)
            } else {
                None
            },
            None => None,
        }
    } else {
        None
    }
}


// ---------------------------------------------------------------------------
// The identity of a rollout
// ---------------------------------------------------------------------------

/// Who a rollout belongs to.
pub struct RolloutIdentity {
    pub id: String,
    pub model_provider: String,
    pub source: Option<String>,
}

/// What a [`RolloutIdentity`] holds.
#[verifier::ext_equal]
pub struct IdentityView {
    pub id: Seq<char>,
    pub model_provider: Seq<char>,
    pub source: Option<Seq<char>>,
}

impl View for RolloutIdentity {
    type V = IdentityView;

    open spec fn view(&self) -> IdentityView {
        IdentityView {
            id: self.id@,
            model_provider: self.model_provider@,
            source: opt_text(self.source),
        }
    }
}

/// What an optional identity holds.
pub open spec fn opt_identity(identity: Option<RolloutIdentity>) -> Option<IdentityView> {
    match identity {
        Some(identity) => Some(identity@),
        None => None,
    }
}

/// The payload of a session metadata record.
pub open spec fn meta_payload(record: JsonView) -> Option<JsonView> {
    if member_text(record, "type"@) == Some("session_meta"@) {
        member(record, "payload"@)
    } else {
        None
    }
}

/// A text, or another where there is none.
pub open spec fn text_or(text: Option<Seq<char>>, other: Seq<char>) -> Seq<char> {
    match text {
        Some(text) => text,
        None => other,
    }
}

/// The identity that a record states: that of a session metadata record whose id is
/// not blank.
pub open spec fn record_identity(record: JsonView) -> Option<IdentityView> {
    match meta_payload(record) {
        Some(payload) => match member_text(payload, "id"@) {
            Some(id) => if trimmed(id).len() == 0 {
                None
            } else {
                Some(
                    IdentityView {
                        id: trimmed(id),
                        model_provider: text_or(member_text(payload, "model_provider"@), "openai"@),
                        source: metadata_field(payload, "source"@),
                    },
                )
            },
            None => None,
        },
        None => None,
    }
}

/// The value that a line of a rollout holds; blank lines hold none.
pub open spec fn line_value(line: Seq<char>) -> Option<JsonView> {
    if trimmed(line).len() == 0 {
        None
    } else {
        json_document(line)
    }
}

/// The identity that a line states.
pub open spec fn line_identity(line: Seq<char>) -> Option<IdentityView> {
    match line_value(line) {
        Some(value) => record_identity(value),
        None => None,
    }
}

/// Gives each line the identity that it states.
pub open spec fn line_identities() -> spec_fn(Seq<char>) -> Option<IdentityView> {
    |line: Seq<char>| line_identity(line)
}

/// The value that a line of a rollout holds.
pub fn read_line_value(line: &str) -> (value: Option<Json>)
    ensures
        crate::json::opt_model(value) == line_value(line@),
{
    if is_blank(line) {
        None
    } else {
        parse(line)
    }
}

/// The payload of a session metadata record.
pub fn session_meta_payload(record: &Json) -> (payload: Option<&Json>)
    ensures
        match payload {
            Some(found) => meta_payload(record.model()) == Some(found.model()),
            None => meta_payload(record.model()) is None,
        },
{
    if record.has_str("type", "session_meta") {
        record.get("payload")
    } else {
        None
    }
}

/// The identity that a record states.
pub fn identity_of_record(record: &Json) -> (identity: Option<RolloutIdentity>)
    ensures
        opt_identity(identity) == record_identity(record.model()),
{
    let payload = match session_meta_payload(record) {
        Some(payload) => payload,
        None => return None,
    };
    let id = match payload.get_str("id") {
        Some(id) => trim(id.as_str()),
        None => return None,
    };
    if id.as_str().is_empty() {
        return None;
    }
    let model_provider = match payload.get_str("model_provider") {
        Some(provider) => provider.clone(),
        None => "openai".to_owned(),
    };
    Some(RolloutIdentity { id, model_provider, source: metadata_string_field(payload, "source") })
}

/// What reading each line of a rollout gave.
pub open spec fn readings_view(readings: Seq<Result<String, AppError>>) -> Seq<
    Result<Seq<char>, ErrorView>,
> {
    readings.map_values(|reading: Result<String, AppError>| text_outcome(reading))
}

/// Gives the readings that end the search for an identity: a line which states one, or one
/// that could not be read.
pub open spec fn identity_readings() -> spec_fn(Result<Seq<char>, ErrorView>) -> Option<
    Result<IdentityView, ErrorView>,
> {
    |reading: Result<Seq<char>, ErrorView>|
        match reading {
            Err(error) => Some(Err(error)),
            Ok(line) => match line_identity(line) {
                Some(identity) => Some(Ok(identity)),
                None => None,
            },
        }
}

/// The identity of a rollout, given what reading its lines gave: that of the first line which
/// states one. A line that could not be read matters only before that.
pub open spec fn identity_read(readings: Seq<Result<Seq<char>, ErrorView>>) -> Result<
    Option<IdentityView>,
    ErrorView,
> {
    match first_found(readings, identity_readings()) {
        Some(Ok(identity)) => Ok(Some(identity)),
        Some(Err(error)) => Err(error),
        None => Ok(None),
    }
}

/// The identity of a rollout, given what reading its lines gave: that of the first line which
/// states one.
pub fn read_rollout_identity(readings: &Vec<Result<String, AppError>>) -> (identity: Result<
    Option<RolloutIdentity>,
    AppError,
>)
    ensures
        match identity {
            Ok(identity) => identity_read(readings_view(readings@)) == Ok::<
                Option<IdentityView>,
                ErrorView,
            >(opt_identity(identity)),
            Err(error) => identity_read(readings_view(readings@)) == Err::<
                Option<IdentityView>,
                ErrorView,
            >(error@),
        },
{
    let ghost all = readings_view(readings@);
    let mut at: usize = 0;
    while at < readings.len()
        invariant
            at <= readings@.len(),
            all == readings_view(readings@),
            first_found(all.take(at as int), identity_readings()) is None,
        decreases readings.len() - at,
    {
        assert(all.take(at + 1).drop_last() =~= all.take(at as int));
        assert(all.take(at + 1).last() == text_outcome(readings@[at as int]));
        match &readings[at] {
            Err(error) => {
                proof {
                    lemma_first_found_extends(all, identity_readings(), at + 1);
                }
                return Err(error.copy());
            },
            Ok(line) => {
                if let Some(value) = read_line_value(line.as_str()) {
                    if let Some(identity) = identity_of_record(&value) {
                        proof {
                            lemma_first_found_extends(all, identity_readings(), at + 1);
                        }
                        return Ok(Some(identity));
                    }
                }
            },
        }
        at = at + 1;
    }
    assert(all.take(at as int) =~= all);
    Ok(None)
}

/// Where every line could be read, the identity is that of the first line which states one.
pub proof fn law_identity_of_lines(lines: Seq<Seq<char>>)
    ensures
        identity_read(lines.map_values(|line: Seq<char>| Ok::<Seq<char>, ErrorView>(line))) == Ok::<
            Option<IdentityView>,
            ErrorView,
        >(first_found(lines, line_identities())),
    decreases lines.len(),
{
    let read = |line: Seq<char>| Ok::<Seq<char>, ErrorView>(line);
    if lines.len() > 0 {
        law_identity_of_lines(lines.drop_last());
        assert(lines.map_values(read).drop_last() =~= lines.drop_last().map_values(read));
        assert(lines.map_values(read).last() == read(lines.last()));
    }
}

/// Once a line states an identity, or cannot be read, nothing that follows it matters, whether
/// it is text or not.
pub proof fn law_identity_ignores_what_follows(
    readings: Seq<Result<Seq<char>, ErrorView>>,
    rest: Seq<Result<Seq<char>, ErrorView>>,
)
    requires
        identity_read(readings) != Ok::<Option<IdentityView>, ErrorView>(None),
    ensures
        identity_read(readings + rest) == identity_read(readings),
{
    assert((readings + rest).take(readings.len() as int) =~= readings);
    lemma_first_found_extends(readings + rest, identity_readings(), readings.len() as int);
}

/// The payload of the metadata by which a line states a session.
pub open spec fn line_payload(line: Seq<char>) -> Option<JsonView> {
    match line_value(line) {
        Some(value) => if record_identity(value) is Some {
            meta_payload(value)
        } else {
            None
        },
        None => None,
    }
}

/// Gives each line the payload of the metadata by which it states a session.
pub open spec fn line_payloads() -> spec_fn(Seq<char>) -> Option<JsonView> {
    |line: Seq<char>| line_payload(line)
}

/// Whether the payload of metadata names a session and its provider.
pub open spec fn payload_names(payload: JsonView, id: Seq<char>, provider: Seq<char>) -> bool {
    member_text(payload, "model_provider"@) == Some(provider) && (member_text(
        payload,
        "id"@,
    ) matches Some(stated) && trimmed(stated) == id)
}

/// Whether a line states a session and names its provider.
pub open spec fn line_states(line: Seq<char>, id: Seq<char>, provider: Seq<char>) -> bool {
    line_payload(line) matches Some(payload) && payload_names(payload, id, provider)
}

/// Whether a rollout states a session and names its provider.
pub open spec fn states_session(
    lines: Seq<Seq<char>>,
    id: Seq<char>,
    provider: Seq<char>,
) -> bool {
    first_found(lines, line_payloads()) matches Some(payload) && payload_names(
        payload,
        id,
        provider,
    )
}

/// A rollout states what its first line states.
pub proof fn lemma_first_line_states(lines: Seq<Seq<char>>, id: Seq<char>, provider: Seq<char>)
    requires
        lines.len() > 0,
        line_states(lines[0], id, provider),
    ensures
        states_session(lines, id, provider),
{
    let first = lines.take(1);
    let none = first.drop_last();
    assert(none.len() == 0);
    assert(first_found(none, line_payloads()) is None);
    assert(first.last() == lines[0]);
    assert(first_found(first, line_payloads()) == line_payload(lines[0]));
    lemma_first_found_extends(lines, line_payloads(), 1);
}

/// The identity of a rollout is what the first payload that states a session says.
pub proof fn lemma_identity_of_payload(lines: Seq<Seq<char>>)
    ensures
        match first_found(lines, line_payloads()) {
            Some(payload) => first_found(lines, line_identities()) matches Some(identity)
                && identity == (IdentityView {
                id: trimmed(member_text(payload, "id"@)->Some_0),
                model_provider: text_or(member_text(payload, "model_provider"@), "openai"@),
                source: metadata_field(payload, "source"@),
            }),
            None => first_found(lines, line_identities()) is None,
        },
    decreases lines.len(),
{
    if lines.len() > 0 {
        lemma_identity_of_payload(lines.drop_last());
    }
}

/// What was found first among the first items is found first among all.
pub proof fn lemma_first_found_extends<A, B>(
    items: Seq<A>,
    pick: spec_fn(A) -> Option<B>,
    at: int,
)
    requires
        0 <= at <= items.len(),
        first_found(items.take(at), pick) is Some,
    ensures
        first_found(items, pick) == first_found(items.take(at), pick),
    decreases items.len(),
{
    if at < items.len() {
        assert(items.drop_last().take(at) =~= items.take(at));
        lemma_first_found_extends(items.drop_last(), pick, at);
    } else {
        assert(items.take(at) =~= items);
    }
}

// ---------------------------------------------------------------------------
// The brief of a rollout
// ---------------------------------------------------------------------------

/// One line of a rollout, with the running token total that it reports, if any.
pub struct RolloutLine {
    pub text: String,
    pub token_total: Option<i64>,
}

/// What a [`RolloutLine`] holds.
pub struct RolloutLineView {
    pub text: Seq<char>,
    pub token_total: Option<i64>,
}

impl View for RolloutLine {
    type V = RolloutLineView;

    open spec fn view(&self) -> RolloutLineView {
        RolloutLineView { text: self.text@, token_total: self.token_total }
    }
}

/// One record of a rollout: its value, its moment in milliseconds since 1970, and the
/// running token total that it reports.
pub struct Record {
    pub value: Json,
    pub at_ms: Option<i64>,
    pub token_total: Option<i64>,
}

/// What a [`Record`] holds.
#[verifier::ext_equal]
pub struct RecordView {
    pub value: JsonView,
    pub at_ms: Option<i64>,
    pub token_total: Option<i64>,
}

impl View for Record {
    type V = RecordView;

    open spec fn view(&self) -> RecordView {
        RecordView {
            value: self.value.model(),
            at_ms: self.at_ms,
            token_total: self.token_total,
        }
    }
}

/// What a list of records holds.
pub open spec fn records_view(records: Seq<Record>) -> Seq<RecordView> {
    records.map_values(|record: Record| record@)
}

/// What a list of lines holds.
pub open spec fn lines_view(lines: Seq<RolloutLine>) -> Seq<RolloutLineView> {
    lines.map_values(|line: RolloutLine| line@)
}

/// The moment that a record carries.
pub open spec fn value_moment(value: JsonView) -> Option<i64> {
    match member_text(value, "timestamp"@) {
        Some(stamp) => rfc3339_millis(stamp),
        None => None,
    }
}

/// The record that a line holds.
pub open spec fn line_record(line: RolloutLineView) -> Option<RecordView> {
    match line_value(line.text) {
        Some(value) => Some(
            RecordView { value, at_ms: value_moment(value), token_total: line.token_total },
        ),
        None => None,
    }
}

/// Gives each line the record that it holds.
pub open spec fn line_records() -> spec_fn(RolloutLineView) -> Option<RecordView> {
    |line: RolloutLineView| line_record(line)
}

/// The records of a rollout, in order; lines that hold none are left out.
pub fn read_records(lines: &Vec<RolloutLine>) -> (records: Vec<Record>)
    ensures
        records_view(records@) == lines_view(lines@).filter_map(line_records()),
{
    let ghost all = lines_view(lines@);
    let mut records: Vec<Record> = Vec::new();
    let mut at: usize = 0;
    while at < lines.len()
        invariant
            at <= lines@.len(),
            all == lines_view(lines@),
            records_view(records@) == all.take(at as int).filter_map(line_records()),
        decreases lines.len() - at,
    {
        assert(all.take(at + 1).drop_last() =~= all.take(at as int));
        let ghost before = records_view(records@);
        if let Some(value) = read_line_value(lines[at].text.as_str()) {
            let at_ms = match value.get_str("timestamp") {
                Some(stamp) => millis_of(stamp.as_str()),
                None => None,
            };
            let record = Record { value, at_ms, token_total: lines[at].token_total };
            records.push(record);
            assert(records_view(records@) =~= before + seq![record@]);
        }
        at = at + 1;
    }
    assert(all.take(at as int) =~= all);
    records
}

/// What a rollout says of its session.
pub struct RolloutBrief {
    pub path: String,
    pub relpath: String,
    pub id: String,
    pub model_provider: String,
    pub history_mode: String,
    pub source: Option<String>,
    pub cwd: Option<String>,
    pub sandbox_policy: Option<String>,
    pub approval_mode: Option<String>,
    pub memory_mode: Option<String>,
    pub model: Option<String>,
    pub reasoning_effort: Option<String>,
    pub first_user_message: String,
    pub tokens_used: i64,
    pub updated_at_ms: i64,
    pub created_at_ms: i64,
}

/// What a [`RolloutBrief`] holds.
#[verifier::ext_equal]
pub struct BriefView {
    pub path: Seq<char>,
    pub relpath: Seq<char>,
    pub id: Seq<char>,
    pub model_provider: Seq<char>,
    pub history_mode: Seq<char>,
    pub source: Option<Seq<char>>,
    pub cwd: Option<Seq<char>>,
    pub sandbox_policy: Option<Seq<char>>,
    pub approval_mode: Option<Seq<char>>,
    pub memory_mode: Option<Seq<char>>,
    pub model: Option<Seq<char>>,
    pub reasoning_effort: Option<Seq<char>>,
    pub first_user_message: Seq<char>,
    pub tokens_used: i64,
    pub updated_at_ms: int,
    pub created_at_ms: int,
}

impl View for RolloutBrief {
    type V = BriefView;

    open spec fn view(&self) -> BriefView {
        BriefView {
            path: self.path@,
            relpath: self.relpath@,
            id: self.id@,
            model_provider: self.model_provider@,
            history_mode: self.history_mode@,
            source: opt_text(self.source),
            cwd: opt_text(self.cwd),
            sandbox_policy: opt_text(self.sandbox_policy),
            approval_mode: opt_text(self.approval_mode),
            memory_mode: opt_text(self.memory_mode),
            model: opt_text(self.model),
            reasoning_effort: opt_text(self.reasoning_effort),
            first_user_message: self.first_user_message@,
            tokens_used: self.tokens_used,
            updated_at_ms: self.updated_at_ms as int,
            created_at_ms: self.created_at_ms as int,
        }
    }
}

/// What an optional brief holds.
pub open spec fn opt_brief(brief: Option<RolloutBrief>) -> Option<BriefView> {
    match brief {
        Some(brief) => Some(brief@),
        None => None,
    }
}

/// The text member of this name of session metadata.
pub open spec fn meta_text(name: Seq<char>) -> spec_fn(RecordView) -> Option<Seq<char>> {
    |record: RecordView|
        match meta_payload(record.value) {
            Some(payload) => member_text(payload, name),
            None => None,
        }
}

/// The metadata value of this name of session metadata.
pub open spec fn meta_value(name: Seq<char>) -> spec_fn(RecordView) -> Option<Seq<char>> {
    |record: RecordView|
        match meta_payload(record.value) {
            Some(payload) => metadata_field(payload, name),
            None => None,
        }
}

/// The settings that a turn record carries: its payload, or the record itself.
pub open spec fn turn_payload(record: JsonView) -> Option<JsonView> {
    if member_text(record, "type"@) == Some("turn_context"@) {
        match member(record, "payload"@) {
            Some(payload) => Some(payload),
            None => Some(record),
        }
    } else {
        None
    }
}

/// The text member of this name of the settings of a turn.
pub open spec fn turn_text(name: Seq<char>) -> spec_fn(RecordView) -> Option<Seq<char>> {
    |record: RecordView|
        match turn_payload(record.value) {
            Some(payload) => member_text(payload, name),
            None => None,
        }
}

/// The metadata value of this name of the settings of a turn.
pub open spec fn turn_metadata(name: Seq<char>) -> spec_fn(RecordView) -> Option<Seq<char>> {
    |record: RecordView|
        match turn_payload(record.value) {
            Some(payload) => metadata_field(payload, name),
            None => None,
        }
}

/// The first of two settings of a turn that has a metadata value.
pub open spec fn turn_value(first: Seq<char>, second: Seq<char>) -> spec_fn(RecordView) -> Option<
    Seq<char>,
> {
    |record: RecordView|
        match turn_payload(record.value) {
            Some(payload) => match metadata_field(payload, first) {
                Some(value) => Some(value),
                None => metadata_field(payload, second),
            },
            None => None,
        }
}

/// The preview of the user message that a record carries, cut to its first 200
/// characters.
pub open spec fn record_preview() -> spec_fn(RecordView) -> Option<Seq<char>> {
    |record: RecordView|
        if member_text(record.value, "type"@) == Some("event_msg"@) {
            match member(record.value, "payload"@) {
                Some(payload) => match event_preview(payload) {
                    Some(preview) => Some(head_of(preview, 200)),
                    None => None,
                },
                None => None,
            }
        } else {
            None
        }
}

/// The token total that a record reports.
pub open spec fn record_total() -> spec_fn(RecordView) -> Option<i64> {
    |record: RecordView| record.token_total
}

/// The moment of a record.
pub open spec fn record_moment() -> spec_fn(RecordView) -> Option<int> {
    |record: RecordView|
        match record.at_ms {
            Some(ms) => Some(ms as int),
            None => None,
        }
}

/// The moment of a record, where it is not the start of 1970.
pub open spec fn record_later_moment() -> spec_fn(RecordView) -> Option<int> {
    |record: RecordView|
        match record.at_ms {
            Some(ms) => if ms != 0 {
                Some(ms as int)
            } else {
                None
            },
            None => None,
        }
}

/// What records say of their session. The first record that states a thing counts,
/// but of token totals the last; without a session id there is no brief.
pub open spec fn brief_of(
    records: Seq<RecordView>,
    path: Seq<char>,
    relpath: Seq<char>,
    cwd: Option<Seq<char>>,
) -> Option<BriefView> {
    match first_found(records, meta_text("id"@)) {
        Some(id) => Some(
            BriefView {
                path,
                relpath,
                id,
                model_provider: text_or(
                    first_found(records, meta_text("model_provider"@)),
                    "openai"@,
                ),
                history_mode: text_or(first_found(records, meta_text("history_mode"@)), "legacy"@),
                source: first_found(records, meta_value("source"@)),
                cwd,
                sandbox_policy: first_found(records, turn_metadata("sandbox_policy"@)),
                approval_mode: first_found(
                    records,
                    turn_value("approval_policy"@, "approval_mode"@),
                ),
                memory_mode: first_found(records, meta_value("memory_mode"@)),
                model: first_found(records, turn_text("model"@)),
                reasoning_effort: first_found(records, turn_value("effort"@, "reasoning_effort"@)),
                first_user_message: text_or(first_found(records, record_preview()), Seq::empty()),
                tokens_used: match last_found(records, record_total()) {
                    Some(total) => total,
                    None => 0,
                },
                updated_at_ms: greatest(records, record_moment()),
                created_at_ms: match first_found(records, record_later_moment()) {
                    Some(ms) => ms,
                    None => 0,
                },
            },
        ),
        None => None,
    }
}

fn owned(text: Option<&String>) -> (copy: Option<String>)
    ensures
        opt_text(copy) == match text {
            Some(text) => Some(text@),
            None => None,
        },
{
    match text {
        Some(text) => Some(text.clone()),
        None => None,
    }
}

fn or_text(first: Option<String>, second: Option<String>) -> (text: Option<String>)
    ensures
        opt_text(text) == match opt_text(first) {
            Some(text) => Some(text),
            None => opt_text(second),
        },
{
    match first {
        Some(text) => Some(text),
        None => second,
    }
}

fn or_default(text: Option<String>, default: &str) -> (chosen: String)
    ensures
        chosen@ == text_or(opt_text(text), default@),
{
    match text {
        Some(text) => text,
        None => default.to_owned(),
    }
}

/// The settings that a turn record carries.
pub fn turn_context_payload(record: &Json) -> (payload: Option<&Json>)
    ensures
        match payload {
            Some(found) => turn_payload(record.model()) == Some(found.model()),
            None => turn_payload(record.model()) is None,
        },
{
    if record.has_str("type", "turn_context") {
        match record.get("payload") {
            Some(payload) => Some(payload),
            None => Some(record),
        }
    } else {
        None
    }
}

/// What records say of their session, given the working directory in effect.
#[verifier::rlimit(60)]
pub fn brief_from_records(
    records: &Vec<Record>,
    path: &str,
    relpath: &str,
    cwd: Option<String>,
) -> (brief: Option<RolloutBrief>)
    ensures
        opt_brief(brief) == brief_of(records_view(records@), path@, relpath@, opt_text(cwd)),
{
    let ghost all = records_view(records@);
    let mut id: Option<String> = None;
    let mut model_provider: Option<String> = None;
    let mut history_mode: Option<String> = None;
    let mut source: Option<String> = None;
    let mut sandbox_policy: Option<String> = None;
    let mut approval_mode: Option<String> = None;
    let mut memory_mode: Option<String> = None;
    let mut model: Option<String> = None;
    let mut reasoning_effort: Option<String> = None;
    let mut first_user: Option<String> = None;
    let mut tokens_used: i64 = 0;
    let mut created_ms: i64 = 0;
    let mut last_ms: i64 = 0;
    let mut at: usize = 0;
    while at < records.len()
        invariant
            at <= records@.len(),
            all == records_view(records@),
            opt_text(id) == first_found(all.take(at as int), meta_text("id"@)),
            opt_text(model_provider) == first_found(
                all.take(at as int),
                meta_text("model_provider"@),
            ),
            opt_text(history_mode) == first_found(all.take(at as int), meta_text("history_mode"@)),
            opt_text(source) == first_found(all.take(at as int), meta_value("source"@)),
            opt_text(memory_mode) == first_found(all.take(at as int), meta_value("memory_mode"@)),
            opt_text(sandbox_policy) == first_found(
                all.take(at as int),
                turn_metadata("sandbox_policy"@),
            ),
            opt_text(approval_mode) == first_found(
                all.take(at as int),
                turn_value("approval_policy"@, "approval_mode"@),
            ),
            opt_text(model) == first_found(all.take(at as int), turn_text("model"@)),
            opt_text(reasoning_effort) == first_found(
                all.take(at as int),
                turn_value("effort"@, "reasoning_effort"@),
            ),
            opt_text(first_user) == first_found(all.take(at as int), record_preview()),
            tokens_used == match last_found(all.take(at as int), record_total()) {
                Some(total) => total,
                None => 0,
            },
            created_ms == match first_found(all.take(at as int), record_later_moment()) {
                Some(ms) => ms,
                None => 0int,
            },
            created_ms == 0 ==> first_found(all.take(at as int), record_later_moment()) is None,
            last_ms == greatest(all.take(at as int), record_moment()),
        decreases records.len() - at,
    {
        let record = &records[at];
        assert(all.take(at + 1).drop_last() =~= all.take(at as int));
        assert(all.take(at + 1).last() == record@);
        if let Some(ms) = record.at_ms {
            if created_ms == 0 {
                created_ms = ms;
            }
            if ms > last_ms {
                last_ms = ms;
            }
        }
        if let Some(total) = record.token_total {
            tokens_used = total;
        }
        if let Some(payload) = session_meta_payload(&record.value) {
            id = or_text(id, owned(payload.get_str("id")));
            model_provider = or_text(model_provider, owned(payload.get_str("model_provider")));
            history_mode = or_text(history_mode, owned(payload.get_str("history_mode")));
            source = or_text(source, metadata_string_field(payload, "source"));
            memory_mode = or_text(memory_mode, metadata_string_field(payload, "memory_mode"));
        }
        if let Some(payload) = turn_context_payload(&record.value) {
            sandbox_policy = or_text(
                sandbox_policy,
                metadata_string_field(payload, "sandbox_policy"),
            );
            approval_mode = or_text(
                approval_mode,
                or_text(
                    metadata_string_field(payload, "approval_policy"),
                    metadata_string_field(payload, "approval_mode"),
                ),
            );
            model = or_text(model, owned(payload.get_str("model")));
            reasoning_effort = or_text(
                reasoning_effort,
                or_text(
                    metadata_string_field(payload, "effort"),
                    metadata_string_field(payload, "reasoning_effort"),
                ),
            );
        }
        if first_user.is_none() && record.value.has_str("type", "event_msg") {
            if let Some(payload) = record.value.get("payload") {
                first_user = match event_user_message_preview(payload) {
                    Some(preview) => Some(take_chars(preview.as_str(), 200)),
                    None => None,
                };
            }
        }
        at = at + 1;
    }
    assert(all.take(at as int) =~= all);
    let id = match id {
        Some(id) => id,
        None => return None,
    };
    Some(
        RolloutBrief {
            path: path.to_owned(),
            relpath: relpath.to_owned(),
            id,
            model_provider: or_default(model_provider, "openai"),
            history_mode: or_default(history_mode, "legacy"),
            source,
            cwd,
            sandbox_policy,
            approval_mode,
            memory_mode,
            model,
            reasoning_effort,
            first_user_message: match first_user {
                Some(text) => text,
                None => String::new(),
            },
            tokens_used,
            updated_at_ms: last_ms,
            created_at_ms: created_ms,
        },
    )
}

/// What the lines of a rollout say of its session, given the working directory in
/// effect.
pub fn read_rollout_brief(
    lines: &Vec<RolloutLine>,
    path: &str,
    relpath: &str,
    cwd: Option<String>,
) -> (brief: Option<RolloutBrief>)
    ensures
        opt_brief(brief) == brief_of(
            lines_view(lines@).filter_map(line_records()),
            path@,
            relpath@,
            opt_text(cwd),
        ),
{
    brief_from_records(&read_records(lines), path, relpath, cwd)
}

/// A session was last changed no earlier than it was created.
pub proof fn law_updated_not_before_created(
    records: Seq<RecordView>,
    path: Seq<char>,
    relpath: Seq<char>,
    cwd: Option<Seq<char>>,
)
    ensures
        brief_of(records, path, relpath, cwd) matches Some(brief) ==> brief.created_at_ms
            <= brief.updated_at_ms && 0 <= brief.updated_at_ms,
{
    lemma_first_found(records, record_later_moment());
    lemma_greatest(records, record_moment(), 0);
    if let Some(ms) = first_found(records, record_later_moment()) {
        let i = choose|i: int|
            0 <= i < records.len() && #[trigger] record_later_moment()(records[i]) == Some(ms);
        lemma_greatest(records, record_moment(), i);
    }
}

/// A session is visible on the desktop just where it comes from the command line or the editor.
pub proof fn law_which_sources_are_visible(source: Seq<char>)
    ensures
        source_is_visible(Some(source)) <==> source == "cli"@ || source == "vscode"@,
        !source_is_visible(None),
{
}

/// What tells that a session is one of a subagent: the word itself, a parent that is named, or a
/// record that has such a member. Blank sources tell nothing.
pub proof fn law_which_sources_are_subagents(
    source: Seq<char>,
    parent: Seq<char>,
    value: Option<JsonView>,
)
    ensures
        trimmed(source).len() == 0 ==> !subagent_given(source, value),
        trimmed(source).len() > 0 && lowered(trimmed(source)) == lowered("subagent"@)
            ==> subagent_given(source, value),
        trimmed(source) == "parent:"@ + parent && trimmed(parent).len() > 0 ==> subagent_given(
            source,
            value,
        ),
        trimmed(source).len() > 0 && (value matches Some(value) && member(value, "subagent"@) is Some)
            ==> subagent_given(source, value),
        subagent_given(source, value) ==> lowered(trimmed(source)) == lowered("subagent"@)
            || has_part(trimmed(source), ":"@) || (value matches Some(value) && member(
            value,
            "subagent"@,
        ) is Some),
{
    reveal_strlit("parent:");
    reveal_strlit("parent");
    reveal_strlit(":");
    let whole = trimmed(source);
    lemma_find_from(whole, ":"@, 0);
    if whole == "parent:"@ + parent && trimmed(parent).len() > 0 {
        assert(":"@ =~= seq![':'] && "parent:"@.len() == 7 && "parent"@.len() == 6);
        assert(whole.subrange(6, 7) =~= ":"@);
        assert(occurs_at(whole, ":"@, 6));
        let at = find_in(whole, ":"@)->Some_0;
        if at < 6 {
            assert(whole.subrange(at, at + 1)[0] == ':');
            assert(whole[at] == ':');
            assert("parent:"@[at] == ':');
        }
        assert(whole.take(6) =~= "parent"@);
        assert(whole.skip(7) =~= parent);
        assert(cut_at(whole, ":"@) == Some(("parent"@, parent)));
    }
    if names_parent(whole) {
        let at = find_in(whole, ":"@)->Some_0;
        assert(occurs_at(whole, ":"@, at));
    }
}

/// The source that is written for a session always lets it be seen, unless it is one of a subagent: a
/// source that does is kept, and any other becomes the command line.
pub proof fn law_written_sources_are_visible(payload: JsonView)
    ensures
        ({
            let written = Some(visible_source(payload));
            &&& source_is_visible(written) || source_is_subagent(written)
            &&& metadata_field(payload, "source"@) matches Some(source) ==> if source_is_visible(
                Some(source),
            ) || source_is_subagent(Some(source)) {
                written == Some(source)
            } else {
                written == Some("cli"@)
            }
            &&& metadata_field(payload, "source"@) is None && metadata_field(
                payload,
                "originator"@,
            ) is None ==> written == Some("cli"@)
            &&& metadata_field(payload, "source"@) is None ==> (metadata_field(
                payload,
                "originator"@,
            ) matches Some(originator) ==> (has_part(lowered(originator), "vscode"@) ==> written
                == Some("vscode"@)))
        }),
{
}

/// The request of a message is what follows the heading where it has one, and else the whole message,
/// without space around it.
pub proof fn law_what_the_request_is(before: Seq<char>, request: Seq<char>)
    ensures
        !has_part(before, "## My request for Codex:"@) ==> request_text(before) == trimmed(before),
        (forall|i: int|
            0 <= i < before.len() ==> !#[trigger] occurs_at(
                before + "## My request for Codex:"@ + request,
                "## My request for Codex:"@,
                i,
            )) ==> request_text(before + "## My request for Codex:"@ + request) == trimmed(request),
{
    let heading = "## My request for Codex:"@;
    let message = before + heading + request;
    lemma_find_from(before, heading, 0);
    lemma_find_from(message, heading, 0);
    assert(message.subrange(before.len() as int, (before.len() + heading.len()) as int) =~= heading);
    assert(occurs_at(message, heading, before.len() as int));
    assert(message.skip((before.len() + heading.len()) as int) =~= request);
}

/// What is shown of a message of the user: its request, or else that there are images.
pub proof fn law_what_is_shown_of_a_message(payload: JsonView)
    ensures
        ({
            let request = match member_text(payload, "message"@) {
                Some(message) => trimmed(request_text(message)),
                None => Seq::<char>::empty(),
            };
            let images = (member_list(payload, "images"@) matches Some(items) && items.len() > 0)
                || (member_list(payload, "local_images"@) matches Some(items) && items.len() > 0);
            &&& request.len() > 0 ==> message_preview(payload) == Some(request)
            &&& request.len() == 0 && images ==> message_preview(payload) == Some("[Image]"@)
            &&& request.len() == 0 && !images ==> message_preview(payload) is None
        }),
{
}

/// A record tells which session a rollout holds just where it is metadata with an id that is not
/// blank. The provider is the usual one where none is named.
pub proof fn law_what_tells_the_session(record: JsonView, payload: JsonView)
    requires
        member(record, "payload"@) == Some(payload),
    ensures
        record_identity(record) is Some <==> member_text(record, "type"@) == Some("session_meta"@)
            && (member_text(payload, "id"@) matches Some(id) && trimmed(id).len() > 0),
        record_identity(record) matches Some(identity) ==> {
            &&& member_text(payload, "id"@) matches Some(id) && identity.id == trimmed(id)
            &&& member_text(payload, "model_provider"@) matches Some(provider)
                ==> identity.model_provider == provider
            &&& member_text(payload, "model_provider"@) is None ==> identity.model_provider
                == "openai"@
            &&& identity.source == metadata_field(payload, "source"@)
        },
{
}

/// A member of metadata that is blank or null counts as missing; a text is taken as it is.
pub proof fn law_blank_metadata_is_missing(payload: JsonView, field: Seq<char>)
    ensures
        member(payload, field) is None ==> metadata_field(payload, field) is None,
        member(payload, field) == Some(JsonView::Null) ==> metadata_field(payload, field) is None,
        member_text(payload, field) matches Some(text) ==> if trimmed(text).len() > 0 {
            metadata_field(payload, field) == Some(text)
        } else {
            metadata_field(payload, field) is None
        },
{
}

/// The first metadata of a rollout tells what it says of the session.
pub proof fn law_first_metadata_counts(
    records: Seq<RecordView>,
    path: Seq<char>,
    relpath: Seq<char>,
    cwd: Option<Seq<char>>,
    payload: JsonView,
    k: int,
)
    requires
        0 <= k < records.len(),
        meta_payload(records[k].value) == Some(payload),
        forall|j: int| 0 <= j < k ==> meta_payload((#[trigger] records[j]).value) is None,
        member_text(payload, "id"@) is Some,
    ensures
        brief_of(records, path, relpath, cwd) matches Some(brief) && {
            &&& brief.path == path
            &&& brief.relpath == relpath
            &&& brief.cwd == cwd
            &&& Some(brief.id) == member_text(payload, "id"@)
            &&& member_text(payload, "model_provider"@) matches Some(provider)
                ==> brief.model_provider == provider
            &&& member_text(payload, "history_mode"@) matches Some(mode) ==> brief.history_mode
                == mode
            &&& metadata_field(payload, "source"@) matches Some(source) ==> brief.source == Some(
                source,
            )
            &&& metadata_field(payload, "memory_mode"@) matches Some(mode) ==> brief.memory_mode
                == Some(mode)
        },
{
    lemma_first_at(records, meta_text("id"@), k);
    if member_text(payload, "model_provider"@) is Some {
        lemma_first_at(records, meta_text("model_provider"@), k);
    }
    if member_text(payload, "history_mode"@) is Some {
        lemma_first_at(records, meta_text("history_mode"@), k);
    }
    if metadata_field(payload, "source"@) is Some {
        lemma_first_at(records, meta_value("source"@), k);
    }
    if metadata_field(payload, "memory_mode"@) is Some {
        lemma_first_at(records, meta_value("memory_mode"@), k);
    }
}

/// Without metadata that names it, the provider is the usual one and the history is in one file;
/// without any that names a session, there is nothing to tell.
pub proof fn law_what_is_taken_without_metadata(
    records: Seq<RecordView>,
    path: Seq<char>,
    relpath: Seq<char>,
    cwd: Option<Seq<char>>,
)
    ensures
        (forall|j: int|
            0 <= j < records.len() ==> (meta_payload((#[trigger] records[j]).value) matches Some(
                payload,
            ) ==> member_text(payload, "id"@) is None)) <==> brief_of(records, path, relpath, cwd) is None,
        brief_of(records, path, relpath, cwd) matches Some(brief) ==> {
            &&& (forall|j: int|
                0 <= j < records.len() ==> (meta_payload((#[trigger] records[j]).value) matches Some(
                    payload,
                ) ==> member_text(payload, "model_provider"@) is None)) ==> brief.model_provider
                == "openai"@
            &&& (forall|j: int|
                0 <= j < records.len() ==> (meta_payload((#[trigger] records[j]).value) matches Some(
                    payload,
                ) ==> member_text(payload, "history_mode"@) is None)) ==> brief.history_mode
                == "legacy"@
        },
{
    lemma_first_found(records, meta_text("id"@));
    lemma_first_found(records, meta_text("model_provider"@));
    lemma_first_found(records, meta_text("history_mode"@));
    if brief_of(records, path, relpath, cwd) is None {
        assert forall|j: int| 0 <= j < records.len() implies (meta_payload(
            (#[trigger] records[j]).value,
        ) matches Some(payload) ==> member_text(payload, "id"@) is None) by {
            assert(meta_text("id"@)(records[j]) is None);
        }
    }
}

/// The first settings of a turn tell the model, the effort, the policy and when to ask.
pub proof fn law_first_turn_counts(
    records: Seq<RecordView>,
    path: Seq<char>,
    relpath: Seq<char>,
    cwd: Option<Seq<char>>,
    payload: JsonView,
    k: int,
)
    requires
        0 <= k < records.len(),
        member_text(records[k].value, "type"@) == Some("turn_context"@),
        member(records[k].value, "payload"@) == Some(payload),
        forall|j: int|
            0 <= j < k ==> member_text((#[trigger] records[j]).value, "type"@) != Some(
                "turn_context"@,
            ),
    ensures
        brief_of(records, path, relpath, cwd) matches Some(brief) ==> {
            let policy = metadata_field(payload, "approval_policy"@);
            let mode = metadata_field(payload, "approval_mode"@);
            let effort = metadata_field(payload, "effort"@);
            let old_effort = metadata_field(payload, "reasoning_effort"@);
            &&& member_text(payload, "model"@) matches Some(model) ==> brief.model == Some(model)
            &&& metadata_field(payload, "sandbox_policy"@) matches Some(sandbox)
                ==> brief.sandbox_policy == Some(sandbox)
            &&& policy is Some ==> brief.approval_mode == policy
            &&& policy is None && mode is Some ==> brief.approval_mode == mode
            &&& effort is Some ==> brief.reasoning_effort == effort
            &&& effort is None && old_effort is Some ==> brief.reasoning_effort == old_effort
        },
{
    if member_text(payload, "model"@) is Some {
        lemma_first_at(records, turn_text("model"@), k);
    }
    if metadata_field(payload, "sandbox_policy"@) is Some {
        lemma_first_at(records, turn_metadata("sandbox_policy"@), k);
    }
    if metadata_field(payload, "approval_policy"@) is Some || metadata_field(
        payload,
        "approval_mode"@,
    ) is Some {
        lemma_first_at(records, turn_value("approval_policy"@, "approval_mode"@), k);
    }
    if metadata_field(payload, "effort"@) is Some || metadata_field(payload, "reasoning_effort"@)
        is Some {
        lemma_first_at(records, turn_value("effort"@, "reasoning_effort"@), k);
    }
}

/// The tokens of a session are those that the last count tells; its first message is the first that
/// shows anything, cut off where it is long.
pub proof fn law_last_count_and_first_message(
    records: Seq<RecordView>,
    path: Seq<char>,
    relpath: Seq<char>,
    cwd: Option<Seq<char>>,
    k: int,
)
    requires
        0 <= k < records.len(),
    ensures
        brief_of(records, path, relpath, cwd) matches Some(brief) ==> {
            &&& records[k].token_total matches Some(total) ==> ((forall|j: int|
                k < j < records.len() ==> (#[trigger] records[j]).token_total is None)
                ==> brief.tokens_used == total)
            &&& records[k].at_ms matches Some(moment) ==> moment <= brief.updated_at_ms
            &&& brief.first_user_message.len() <= 200
        },
{
    if let Some(brief) = brief_of(records, path, relpath, cwd) {
        if records[k].token_total is Some && (forall|j: int|
            k < j < records.len() ==> (#[trigger] records[j]).token_total is None) {
            lemma_last_at(records, record_total(), k);
        }
        lemma_greatest(records, record_moment(), k);
        lemma_first_found(records, record_preview());
    }
}

/// A session was last used when its latest record was written, and made when the first was.
pub proof fn law_moments_are_those_of_records(
    records: Seq<RecordView>,
    path: Seq<char>,
    relpath: Seq<char>,
    cwd: Option<Seq<char>>,
)
    ensures
        brief_of(records, path, relpath, cwd) matches Some(brief) ==> {
            &&& brief.updated_at_ms == 0 || exists|k: int|
                0 <= k < records.len() && ((#[trigger] records[k]).at_ms matches Some(moment)
                    && moment == brief.updated_at_ms)
            &&& forall|k: int|
                0 <= k < records.len() && ((#[trigger] records[k]).at_ms matches Some(moment)
                    && moment != 0) && (forall|j: int|
                    0 <= j < k ==> ((#[trigger] records[j]).at_ms matches Some(moment) ==> moment
                        == 0)) ==> brief.created_at_ms == records[k].at_ms->Some_0
        },
{
    if let Some(brief) = brief_of(records, path, relpath, cwd) {
        lemma_greatest_is_one(records);
        assert forall|k: int|
            0 <= k < records.len() && ((#[trigger] records[k]).at_ms matches Some(moment) && moment
                != 0) && (forall|j: int|
                0 <= j < k ==> ((#[trigger] records[j]).at_ms matches Some(moment) ==> moment
                    == 0)) implies brief.created_at_ms == records[k].at_ms->Some_0 by {
            lemma_first_at(records, record_later_moment(), k);
        }
    }
}

proof fn lemma_greatest_is_one(records: Seq<RecordView>)
    ensures
        greatest(records, record_moment()) == 0 || exists|k: int|
            0 <= k < records.len() && ((#[trigger] records[k]).at_ms matches Some(moment) && moment
                == greatest(records, record_moment())),
    decreases records.len(),
{
    if records.len() > 0 {
        let rest = records.drop_last();
        lemma_greatest_is_one(rest);
        let all = greatest(records, record_moment());
        if all != 0 && all == greatest(rest, record_moment()) {
            let k = choose|k: int|
                0 <= k < rest.len() && ((#[trigger] rest[k]).at_ms matches Some(moment) && moment
                    == all);
            assert(records[k] == rest[k]);
        } else if all != 0 {
            assert(records[records.len() - 1].at_ms matches Some(moment) && moment == all);
        }
    }
}

/// The first message of a session is what the first event shows that shows anything of the user, cut
/// off after two hundred characters.
pub proof fn law_which_message_is_first(
    records: Seq<RecordView>,
    path: Seq<char>,
    relpath: Seq<char>,
    cwd: Option<Seq<char>>,
    payload: JsonView,
    k: int,
)
    requires
        0 <= k < records.len(),
        member_text(records[k].value, "type"@) == Some("event_msg"@),
        member(records[k].value, "payload"@) == Some(payload),
        forall|j: int|
            0 <= j < k ==> member_text((#[trigger] records[j]).value, "type"@) != Some(
                "event_msg"@,
            ),
        event_preview(payload) is Some,
    ensures
        brief_of(records, path, relpath, cwd) matches Some(brief) ==> {
            let shown = event_preview(payload)->Some_0;
            &&& shown.len() <= 200 ==> brief.first_user_message == shown
            &&& shown.len() > 200 ==> brief.first_user_message == shown.take(200)
        },
{
    lemma_first_at(records, record_preview(), k);
}

/// Which events show something of the user: a message, and an item that is one.
pub proof fn law_which_events_show_a_message(payload: JsonView)
    ensures
        ({
            let kind = member_text(payload, "type"@);
            &&& kind == Some("user_message"@) ==> event_preview(payload) == message_preview(payload)
            &&& kind == Some("item_completed"@) ==> (member(payload, "item"@) matches Some(item)
                ==> (member_text(item, "type"@) == Some("UserMessage"@) ==> event_preview(payload)
                == parts_preview(item)) && (member_text(item, "type"@) != Some("UserMessage"@)
                ==> event_preview(payload) is None))
            &&& kind != Some("user_message"@) && kind != Some("item_completed"@) ==> event_preview(
                payload,
            ) is None
        }),
{
    reveal_strlit("user_message");
    reveal_strlit("item_completed");
    assert("user_message"@.len() != "item_completed"@.len());
}

/// Where the code of a session came from is told by its own record first, and else by the member that
/// older rollouts have.
pub proof fn law_where_the_code_came_from(
    payload: JsonView,
    legacy_field: Seq<char>,
    modern_field: Seq<char>,
)
    ensures
        member(payload, "git"@) matches Some(git) ==> (metadata_field(git, modern_field) is Some
            ==> git_field(payload, legacy_field, modern_field) == metadata_field(git, modern_field)),
        member(payload, "git"@) is None ==> git_field(payload, legacy_field, modern_field)
            == metadata_field(payload, legacy_field),
        member(payload, "git"@) matches Some(git) ==> (metadata_field(git, modern_field) is None
            ==> git_field(payload, legacy_field, modern_field) == metadata_field(
            payload,
            legacy_field,
        )),
{
}

} // verus!
