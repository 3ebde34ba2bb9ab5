//! JSON values: a model that contracts speak of, the values that hold it, and
//! reading and writing them with `serde_json`.
//!
//! `serde_json` is used with its default features: it keeps the members of an object in
//! ascending order of their names, numbers that are no integers as floats, and refuses texts
//! that are nested too deep.

use vstd::prelude::*;

use crate::sorted::ascending;
use crate::text::{joined, same, trimmed};

verus! {

/// The value type of `serde_json`.
#[verifier::external_type_specification]
#[verifier::external_body]
pub struct ExJsonValue(serde_json::Value);

/// The number type of `serde_json`.
#[verifier::external_type_specification]
#[verifier::external_body]
pub struct ExJsonNumber(serde_json::Number);

/// What a JSON value is. A number is kept by its integer value where it is one.
#[verifier::ext_equal]
pub enum JsonView {
    Null,
    Bool(bool),
    Unsigned(u64),
    Negative(i64),
    Fraction(serde_json::Number),
    Text(Seq<char>),
    List(Seq<JsonView>),
    Object(Map<Seq<char>, JsonView>),
}

/// A number that is no integer of 64 bits.
pub struct Fraction {
    number: serde_json::Number,
}

impl Fraction {
    #[verifier::type_invariant]
    closed spec fn is_fraction(self) -> bool {
        no_integer(self.number)
    }

    /// The number that this is.
    pub closed spec fn model(self) -> serde_json::Number {
        self.number
    }

    /// The number that this is.
    pub fn number(&self) -> (number: serde_json::Number)
        ensures
            number == self.model(),
    {
        self.number.clone()
    }

    /// The same number.
    pub fn copy(&self) -> (fraction: Fraction)
        ensures
            fraction.model() == self.model(),
    {
        proof {
            use_type_invariant(self);
        }
        Fraction { number: self.number.clone() }
    }
}

/// A JSON value.
pub enum Json {
    Null,
    Bool(bool),
    /// An integer that is not negative.
    Unsigned(u64),
    /// A negative integer.
    Negative(i64),
    /// Any other number.
    Fraction(Fraction),
    Text(String),
    List(Vec<Json>),
    /// The members of an object. Of two members with one name the later counts.
    Object(Vec<Member>),
}

/// A member of a JSON object.
pub struct Member {
    pub name: String,
    pub value: Json,
}

impl JsonView {
    /// Whether a value is the text without characters.
    pub open spec fn is_empty_text(self) -> bool {
        self matches JsonView::Text(text) && text.len() == 0
    }
}

impl Json {
    /// The value that this holds.
    pub open spec fn model(self) -> JsonView
        decreases self,
    {
        match self {
            Json::Null => JsonView::Null,
            Json::Bool(flag) => JsonView::Bool(flag),
            Json::Unsigned(number) => JsonView::Unsigned(number),
            Json::Negative(number) => if number < 0 {
                JsonView::Negative(number)
            } else {
                JsonView::Unsigned(number as u64)
            },
            Json::Fraction(fraction) => JsonView::Fraction(fraction.model()),
            Json::Text(text) => JsonView::Text(text@),
            Json::List(items) => JsonView::List(list_model(items@)),
            Json::Object(members) => JsonView::Object(object_model(members@)),
        }
    }
}

/// The values that a list holds.
pub open spec fn list_model(items: Seq<Json>) -> Seq<JsonView>
    decreases items,
{
    Seq::new(
        items.len(),
        |i: int|
            if 0 <= i < items.len() {
                items[i].model()
            } else {
                JsonView::Null
            },
    )
}

/// The names and values that the members of an object give.
pub open spec fn object_model(members: Seq<Member>) -> Map<Seq<char>, JsonView>
    decreases members,
{
    if members.len() == 0 {
        Map::empty()
    } else {
        object_model(members.drop_last()).insert(members.last().name@, members.last().value.model())
    }
}

// ---------------------------------------------------------------------------
// serde_json
// ---------------------------------------------------------------------------

/// What a value of `serde_json` holds.
pub uninterp spec fn json_of(value: serde_json::Value) -> JsonView;

/// Whether neither `Number::as_u64` nor `Number::as_i64` of `serde_json` gives a number.
pub uninterp spec fn no_integer(number: serde_json::Number) -> bool;

/// What `serde_json::from_str` reads from a text, or the text of the error with which
/// it refuses it.
pub uninterp spec fn json_reading(text: Seq<char>) -> Result<JsonView, Seq<char>>;

/// The value that a text is; `None` where it is no JSON text.
pub open spec fn json_document(text: Seq<char>) -> Option<JsonView> {
    match json_reading(text) {
        Ok(value) => Some(value),
        Err(_) => None,
    }
}

/// The compact text that `serde_json` writes for a value.
pub uninterp spec fn json_text(value: JsonView) -> Seq<char>;

/// One level of a value of `serde_json`.
enum Shape {
    Null,
    Bool(bool),
    Unsigned(u64),
    Negative(i64),
    Fraction(serde_json::Number),
    Text(String),
    List(Vec<serde_json::Value>),
    Object(Vec<(String, serde_json::Value)>),
}

spec fn value_map(members: Seq<(String, serde_json::Value)>) -> Map<Seq<char>, JsonView>
    decreases members.len(),
{
    if members.len() == 0 {
        Map::empty()
    } else {
        value_map(members.drop_last()).insert(members.last().0@, json_of(members.last().1))
    }
}

spec fn value_list(items: Seq<serde_json::Value>) -> Seq<JsonView> {
    items.map_values(|item: serde_json::Value| json_of(item))
}

spec fn shape_model(shape: Shape) -> JsonView {
    match shape {
        Shape::Null => JsonView::Null,
        Shape::Bool(flag) => JsonView::Bool(flag),
        Shape::Unsigned(number) => JsonView::Unsigned(number),
        Shape::Negative(number) => JsonView::Negative(number),
        Shape::Fraction(number) => JsonView::Fraction(number),
        Shape::Text(text) => JsonView::Text(text@),
        Shape::List(items) => JsonView::List(value_list(items@)),
        Shape::Object(members) => JsonView::Object(value_map(members@)),
    }
}

/// Whether a number is kept by the variant that fits it.
spec fn shape_fits(shape: Shape) -> bool {
    match shape {
        Shape::Negative(number) => number < 0,
        Shape::Fraction(number) => no_integer(number),
        _ => true,
    }
}

/// Tells the variants of `serde_json::Value` apart. A number is `Unsigned` where
/// `as_u64` gives it, `Negative` where only `as_i64` does, and else `Fraction`. No
/// two members of an object have one name.
#[verifier::external_body]
fn open_value(value: serde_json::Value) -> (shape: Shape)
    ensures
        shape_model(shape) == json_of(value),
        shape matches Shape::Object(members) ==> distinct_names(members@),
        shape matches Shape::Negative(number) ==> number < 0,
        shape matches Shape::Fraction(number) ==> no_integer(number),
{
    match value {
        serde_json::Value::Null => Shape::Null,
        serde_json::Value::Bool(flag) => Shape::Bool(flag),
        serde_json::Value::Number(number) => match (number.as_u64(), number.as_i64()) {
            (Some(unsigned), _) => Shape::Unsigned(unsigned),
            (None, Some(negative)) => Shape::Negative(negative),
            (None, None) => Shape::Fraction(number),
        },
        serde_json::Value::String(text) => Shape::Text(text),
        serde_json::Value::Array(items) => Shape::List(items),
        serde_json::Value::Object(map) => Shape::Object(map.into_iter().collect()),
    }
}

/// Builds a `serde_json::Value` from one level of it. Of two members with one name
/// the map keeps the later.
#[verifier::external_body]
fn close_value(shape: Shape) -> (value: serde_json::Value)
    requires
        shape_fits(shape),
    ensures
        json_of(value) == shape_model(shape),
{
    match shape {
        Shape::Null => serde_json::Value::Null,
        Shape::Bool(flag) => serde_json::Value::Bool(flag),
        Shape::Unsigned(number) => serde_json::Value::from(number),
        Shape::Negative(number) => serde_json::Value::from(number),
        Shape::Fraction(number) => serde_json::Value::Number(number),
        Shape::Text(text) => serde_json::Value::String(text),
        Shape::List(items) => serde_json::Value::Array(items),
        Shape::Object(members) => serde_json::Value::Object(members.into_iter().collect()),
    }
}

/// `serde_json::from_str` on a whole text; of the error its `Display` text is kept. Only two
/// quotes, with white space round them, are read as the empty text.
#[verifier::external_body]
fn parse_value(text: &str) -> (value: Result<serde_json::Value, String>)
    ensures
        match value {
            Ok(value) => json_reading(text@) == Ok::<JsonView, Seq<char>>(json_of(value)),
            Err(error) => json_reading(text@) == Err::<JsonView, Seq<char>>(error@),
        },
        value matches Ok(value) ==> !json_of(value).is_empty_text() || trimmed(text@) == quoted(
            Seq::empty(),
        ),
{
    serde_json::from_str::<serde_json::Value>(text).map_err(|error| error.to_string())
}

/// The `Display` text of a `serde_json::Value`, its compact form. It is never blank. A value
/// without fractions that is nested no deeper than `from_str` reads is read back from it as
/// it was; of fractions, which are read with a rounding error, nothing is said. An object of
/// texts is written member by member in ascending order of their names.
#[verifier::external_body]
fn value_text(value: &serde_json::Value) -> (text: String)
    ensures
        text@ == json_text(json_of(*value)),
        trimmed(text@).len() > 0,
        reads_back(json_of(*value), 127) ==> json_document(text@) == Some(json_of(*value)),
        forall|pairs: Seq<(Seq<char>, Seq<char>)>|
            ascending(names_of(pairs)) && #[trigger] object_of(pairs) == json_of(*value) ==> text@
                == object_text(pairs),
{
    value.to_string()
}

/// `Clone` of `serde_json::Number` gives the same number.
pub assume_specification[ <serde_json::Number as Clone>::clone ](
    number: &serde_json::Number,
) -> (copy: serde_json::Number)
    ensures
        copy == *number,
;

/// Whether a value has no fractions in it and is nested no deeper than `depth`.
pub open spec fn reads_back(value: JsonView, depth: nat) -> bool
    decreases depth,
{
    match value {
        JsonView::Fraction(_) => false,
        JsonView::List(items) => depth > 0 && forall|i: int|
            0 <= i < items.len() ==> reads_back(#[trigger] items[i], (depth - 1) as nat),
        JsonView::Object(members) => depth > 0 && forall|name: Seq<char>| #[trigger]
            members.contains_key(name) ==> reads_back(members[name], (depth - 1) as nat),
        _ => true,
    }
}

/// The digit of a number below 16.
pub open spec fn hex_digit(number: int) -> char {
    "0123456789abcdef"@[number]
}

/// How a character is written between quotes.
pub open spec fn escaped_char(ch: char) -> Seq<char> {
    if ch == '"' || ch == '\\' {
        seq!['\\', ch]
    } else if ch == '\n' {
        seq!['\\', 'n']
    } else if ch == '\r' {
        seq!['\\', 'r']
    } else if ch == '\t' {
        seq!['\\', 't']
    } else if ch == '\u{8}' {
        seq!['\\', 'b']
    } else if ch == '\u{c}' {
        seq!['\\', 'f']
    } else if ch <= '\u{1f}' {
        seq!['\\', 'u', '0', '0', hex_digit((ch as int) / 16), hex_digit((ch as int) % 16)]
    } else {
        seq![ch]
    }
}

/// How a text is written between quotes.
pub open spec fn escaped(text: Seq<char>) -> Seq<char>
    decreases text.len(),
{
    if text.len() == 0 {
        Seq::empty()
    } else {
        escaped(text.drop_last()) + escaped_char(text.last())
    }
}

/// A text between quotes.
pub open spec fn quoted(raw: Seq<char>) -> Seq<char> {
    "\""@ + raw + "\""@
}

/// How a member of an object of texts is written.
pub open spec fn pair_text(pair: (Seq<char>, Seq<char>)) -> Seq<char> {
    quoted(escaped(pair.0)) + ":"@ + quoted(escaped(pair.1))
}

/// How an object of texts with these members is written.
pub open spec fn object_text(pairs: Seq<(Seq<char>, Seq<char>)>) -> Seq<char> {
    "{"@ + joined(pairs.map_values(|pair: (Seq<char>, Seq<char>)| pair_text(pair)), ","@) + "}"@
}

/// The names of members.
pub open spec fn names_of(pairs: Seq<(Seq<char>, Seq<char>)>) -> Seq<Seq<char>> {
    pairs.map_values(|pair: (Seq<char>, Seq<char>)| pair.0)
}

/// The object of texts with these members.
pub open spec fn object_of(pairs: Seq<(Seq<char>, Seq<char>)>) -> JsonView
    decreases pairs.len(),
{
    if pairs.len() == 0 {
        JsonView::Object(Map::empty())
    } else {
        with_member(object_of(pairs.drop_last()), pairs.last().0, JsonView::Text(pairs.last().1))
    }
}

/// Whether a text is the one that is written for a value: it is not blank, and the value is
/// read back from it where it can be.
pub open spec fn is_written(text: Seq<char>, value: JsonView) -> bool {
    text == json_text(value) && trimmed(text).len() > 0 && (reads_back(value, 127)
        ==> json_document(text) == Some(value))
}

spec fn distinct_names(members: Seq<(String, serde_json::Value)>) -> bool {
    forall|i: int, j: int| 0 <= i < j < members.len() ==> members[i].0@ != members[j].0@
}

proof fn lemma_value_map_has(members: Seq<(String, serde_json::Value)>, i: int)
    requires
        0 <= i < members.len(),
        distinct_names(members),
    ensures
        value_map(members).contains_key(members[i].0@),
        value_map(members)[members[i].0@] == json_of(members[i].1),
        value_map(members).dom().finite(),
    decreases members.len(),
{
    if i < members.len() - 1 {
        assert(distinct_names(members.drop_last()));
        lemma_value_map_has(members.drop_last(), i);
        assert(members.drop_last()[i] == members[i]);
    } else if members.len() > 1 {
        assert(distinct_names(members.drop_last()));
        lemma_value_map_has(members.drop_last(), 0);
    } else {
        assert(members.drop_last() =~= Seq::empty());
    }
}

/// Reads one value of `serde_json` into one of this module.
fn from_value(value: serde_json::Value) -> (json: Json)
    ensures
        json.model() == json_of(value),
    decreases json_of(value),
{
    match open_value(value) {
        Shape::Null => Json::Null,
        Shape::Bool(flag) => Json::Bool(flag),
        Shape::Unsigned(number) => Json::Unsigned(number),
        Shape::Negative(number) => Json::Negative(number),
        Shape::Fraction(number) => Json::Fraction(Fraction { number }),
        Shape::Text(text) => Json::Text(text),
        Shape::List(items) => {
            let ghost all = items@;
            let mut out: Vec<Json> = Vec::new();
            for item in it: items
                invariant
                    it.seq() == all,
                    out@.len() == it.index(),
                    forall|i: int|
                        0 <= i < out@.len() ==> (#[trigger] out@[i]).model() == json_of(all[i]),
                    json_of(value) == JsonView::List(value_list(all)),
            {
                assert(json_of(value)->List_0[it.index() as int] == json_of(item));
                out.push(from_value(item));
            }
            assert(list_model(out@) =~= value_list(all));
            Json::List(out)
        },
        Shape::Object(members) => {
            let ghost all = members@;
            let mut out: Vec<Member> = Vec::new();
            for member in it: members
                invariant
                    it.seq() == all,
                    out@.len() == it.index(),
                    object_model(out@) == value_map(all.take(it.index())),
                    json_of(value) == JsonView::Object(value_map(all)),
                    distinct_names(all),
            {
                proof {
                    lemma_value_map_has(all, it.index() as int);
                    let map = json_of(value)->Object_0;
                    assert(decreases_to!(json_of(value) => map));
                    assert(decreases_to!(map => map[member.0@]));
                }
                assert(all.take(it.index() + 1).drop_last() =~= all.take(it.index()));
                let ghost before = out@;
                let entry = Member { name: member.0, value: from_value(member.1) };
                out.push(entry);
                assert(out@.drop_last() =~= before);
            }
            assert(all.take(all.len() as int) =~= all);
            Json::Object(out)
        },
    }
}


/// Writes one value of this module as a value of `serde_json`.
fn to_value(json: &Json) -> (value: serde_json::Value)
    ensures
        json_of(value) == json.model(),
    decreases json,
{
    match json {
        Json::Null => close_value(Shape::Null),
        Json::Bool(flag) => close_value(Shape::Bool(*flag)),
        Json::Unsigned(number) => close_value(Shape::Unsigned(*number)),
        Json::Negative(number) => if *number < 0 {
            close_value(Shape::Negative(*number))
        } else {
            close_value(Shape::Unsigned(*number as u64))
        },
        Json::Fraction(fraction) => {
            proof {
                use_type_invariant(fraction);
            }
            close_value(Shape::Fraction(fraction.number.clone()))
        },
        Json::Text(text) => close_value(Shape::Text(text.clone())),
        Json::List(items) => {
            let mut out: Vec<serde_json::Value> = Vec::new();
            let mut at: usize = 0;
            while at < items.len()
                invariant
                    *json == Json::List(*items),
                    at <= items@.len(),
                    out@.len() == at,
                    forall|i: int|
                        0 <= i < at ==> json_of(#[trigger] out@[i]) == items@[i].model(),
                decreases items.len() - at,
            {
                assert(decreases_to!(json => json->List_0));
                assert(decreases_to!(items => items@));
                assert(decreases_to!(items@ => items@[at as int]));
                out.push(to_value(&items[at]));
                at = at + 1;
            }
            assert(value_list(out@) =~= list_model(items@));
            close_value(Shape::List(out))
        },
        Json::Object(members) => {
            let mut out: Vec<(String, serde_json::Value)> = Vec::new();
            let mut at: usize = 0;
            while at < members.len()
                invariant
                    *json == Json::Object(*members),
                    at <= members@.len(),
                    out@.len() == at,
                    value_map(out@) == object_model(members@.take(at as int)),
                decreases members.len() - at,
            {
                assert(decreases_to!(json => json->Object_0));
                assert(decreases_to!(members => members@));
                assert(decreases_to!(members@ => members@[at as int]));
                assert(decreases_to!(members@[at as int] => members@[at as int].value));
                let ghost before = out@;
                out.push((members[at].name.clone(), to_value(&members[at].value)));
                assert(out@.drop_last() =~= before);
                assert(members@.take(at + 1).drop_last() =~= members@.take(at as int));
                at = at + 1;
            }
            assert(members@.take(at as int) =~= members@);
            close_value(Shape::Object(out))
        },
    }
}

/// The model of an optional value.
pub open spec fn opt_model(json: Option<Json>) -> Option<JsonView> {
    match json {
        Some(value) => Some(value.model()),
        None => None,
    }
}

/// Reads a JSON text; `None` where it is not one.
pub fn parse(text: &str) -> (json: Option<Json>)
    ensures
        opt_model(json) == json_document(text@),
        json matches Some(value) ==> !value.model().is_empty_text() || trimmed(text@) == quoted(
            Seq::empty(),
        ),
{
    match parse_value(text) {
        Ok(value) => Some(from_value(value)),
        Err(_) => None,
    }
}

/// Reads a JSON text, or tells why it is none.
pub fn parse_or_explain(text: &str) -> (json: Result<Json, String>)
    ensures
        match json {
            Ok(value) => json_reading(text@) == Ok::<JsonView, Seq<char>>(value.model()),
            Err(error) => json_reading(text@) == Err::<JsonView, Seq<char>>(error@),
        },
{
    match parse_value(text) {
        Ok(value) => Ok(from_value(value)),
        Err(error) => Err(error),
    }
}

/// Writes a value as compact JSON text.
pub fn render(json: &Json) -> (text: String)
    ensures
        is_written(text@, json.model()),
        forall|pairs: Seq<(Seq<char>, Seq<char>)>|
            ascending(names_of(pairs)) && #[trigger] object_of(pairs) == json.model() ==> text@
                == object_text(pairs),
{
    value_text(&to_value(json))
}

// ---------------------------------------------------------------------------
// Reading a value
// ---------------------------------------------------------------------------

/// The member of an object that has this name.
pub open spec fn member(value: JsonView, name: Seq<char>) -> Option<JsonView> {
    match value {
        JsonView::Object(members) => if members.contains_key(name) {
            Some(members[name])
        } else {
            None
        },
        _ => None,
    }
}

/// The integer that a value is, where it is one that is not negative.
pub open spec fn as_unsigned(value: JsonView) -> Option<u64> {
    match value {
        JsonView::Unsigned(number) => Some(number),
        _ => None,
    }
}

/// The text that a value is.
pub open spec fn as_text(value: JsonView) -> Option<Seq<char>> {
    match value {
        JsonView::Text(text) => Some(text),
        _ => None,
    }
}

/// The member of this name, where it is a text.
pub open spec fn member_text(value: JsonView, name: Seq<char>) -> Option<Seq<char>> {
    match member(value, name) {
        Some(found) => as_text(found),
        None => None,
    }
}

/// The list that a value is.
pub open spec fn as_list(value: JsonView) -> Option<Seq<JsonView>> {
    match value {
        JsonView::List(items) => Some(items),
        _ => None,
    }
}

/// The member of this name, where it is a list.
pub open spec fn member_list(value: JsonView, name: Seq<char>) -> Option<Seq<JsonView>> {
    match member(value, name) {
        Some(found) => as_list(found),
        None => None,
    }
}

proof fn lemma_object_model_skip(members: Seq<Member>, at: int, name: Seq<char>)
    requires
        0 <= at <= members.len(),
        forall|i: int| at <= i < members.len() ==> (#[trigger] members[i]).name@ != name,
    ensures
        object_model(members).contains_key(name) == object_model(members.take(at)).contains_key(
            name,
        ),
        object_model(members).contains_key(name) ==> object_model(members)[name] == object_model(
            members.take(at),
        )[name],
    decreases members.len(),
{
    if at < members.len() {
        lemma_object_model_skip(members.drop_last(), at, name);
        assert(members.drop_last().take(at) =~= members.take(at));
        assert(members.last() == members[members.len() - 1]);
    } else {
        assert(members.take(at) =~= members);
    }
}

impl Json {
    /// The member of this name.
    pub fn get(&self, name: &str) -> (found: Option<&Json>)
        ensures
            match found {
                Some(value) => member(self.model(), name@) == Some(value.model()),
                None => member(self.model(), name@) is None,
            },
    {
        match self {
            Json::Object(members) => {
                let mut at: usize = members.len();
                while at > 0
                    invariant
                        at <= members@.len(),
                        *self == Json::Object(*members),
                        forall|i: int|
                            at <= i < members@.len() ==> (#[trigger] members@[i]).name@ != name@,
                    decreases at,
                {
                    at = at - 1;
                    if same(members[at].name.as_str(), name) {
                        proof {
                            lemma_object_model_skip(members@, at + 1, name@);
                            assert(members@.take(at + 1).last() == members@[at as int]);
                        }
                        return Some(&members[at].value);
                    }
                }
                proof {
                    lemma_object_model_skip(members@, 0, name@);
                }
                None
            },
            _ => None,
        }
    }

    /// The integer that this is, where it is one that is not negative.
    pub fn as_u64(&self) -> (number: Option<u64>)
        ensures
            number == as_unsigned(self.model()),
    {
        match self {
            Json::Unsigned(number) => Some(*number),
            Json::Negative(number) => if *number < 0 {
                None
            } else {
                Some(*number as u64)
            },
            _ => None,
        }
    }

    /// The text that this is.
    pub fn as_str(&self) -> (text: Option<&String>)
        ensures
            match text {
                Some(found) => as_text(self.model()) == Some(found@),
                None => as_text(self.model()) is None,
            },
    {
        match self {
            Json::Text(text) => Some(text),
            _ => None,
        }
    }

    /// The member of this name, where it is a text.
    pub fn get_str(&self, name: &str) -> (text: Option<&String>)
        ensures
            match text {
                Some(found) => member_text(self.model(), name@) == Some(found@),
                None => member_text(self.model(), name@) is None,
            },
    {
        match self.get(name) {
            Some(value) => value.as_str(),
            None => None,
        }
    }

    /// The member of this name, where it is a list.
    pub fn get_list(&self, name: &str) -> (items: Option<&Vec<Json>>)
        ensures
            match items {
                Some(found) => member_list(self.model(), name@) == Some(list_model(found@)),
                None => member_list(self.model(), name@) is None,
            },
    {
        match self.get(name) {
            Some(Json::List(items)) => Some(items),
            _ => None,
        }
    }

    /// Whether the member of this name is this text.
    pub fn has_str(&self, name: &str, text: &str) -> (found: bool)
        ensures
            found == (member_text(self.model(), name@) == Some(text@)),
    {
        match self.get_str(name) {
            Some(value) => same(value.as_str(), text),
            None => false,
        }
    }
}

// ---------------------------------------------------------------------------
// Changing an object
// ---------------------------------------------------------------------------

/// An object with one member set; any other value as it is.
pub open spec fn with_member(value: JsonView, name: Seq<char>, member: JsonView) -> JsonView {
    match value {
        JsonView::Object(members) => JsonView::Object(members.insert(name, member)),
        _ => value,
    }
}

/// An object without the member of this name; any other value as it is.
pub open spec fn without_member(value: JsonView, name: Seq<char>) -> JsonView {
    match value {
        JsonView::Object(members) => JsonView::Object(members.remove(name)),
        _ => value,
    }
}

/// A value with a member set is read back where the value and the member are.
pub proof fn lemma_with_member_reads_back(
    value: JsonView,
    name: Seq<char>,
    added: JsonView,
    depth: nat,
)
    requires
        depth > 0,
        reads_back(value, depth),
        reads_back(added, (depth - 1) as nat),
    ensures
        reads_back(with_member(value, name, added), depth),
{
}

/// An object of texts is read back.
pub proof fn lemma_texts_read_back(value: JsonView)
    requires
        value matches JsonView::Object(members) && forall|name: Seq<char>| #[trigger]
            members.contains_key(name) ==> members[name] is Text,
    ensures
        reads_back(value, 127),
{
    let members = value->Object_0;
    assert forall|name: Seq<char>| #[trigger] members.contains_key(name) implies reads_back(
        members[name],
        126,
    ) by {}
}

/// A value without a member is read back where the value is.
pub proof fn lemma_without_member_reads_back(value: JsonView, name: Seq<char>, depth: nat)
    requires
        reads_back(value, depth),
    ensures
        reads_back(without_member(value, name), depth),
{
}

impl Json {
    /// Sets a member of an object.
    pub fn set(self, name: &str, value: Json) -> (json: Json)
        ensures
            json.model() == with_member(self.model(), name@, value.model()),
    {
        match self {
            Json::Object(members) => {
                let ghost before = members@;
                let mut members = members;
                members.push(Member { name: name.to_owned(), value });
                assert(members@.drop_last() =~= before);
                Json::Object(members)
            },
            other => other,
        }
    }

    /// Sets a member of an object to a text.
    pub fn set_str(self, name: &str, text: &str) -> (json: Json)
        ensures
            json.model() == with_member(self.model(), name@, JsonView::Text(text@)),
    {
        self.set(name, Json::Text(text.to_owned()))
    }

    /// Removes the member of this name.
    pub fn without(self, name: &str) -> (json: Json)
        ensures
            json.model() == without_member(self.model(), name@),
    {
        match self {
            Json::Object(members) => {
                let ghost all = members@;
                let mut kept: Vec<Member> = Vec::new();
                for member in it: members
                    invariant
                        it.seq() == all,
                        object_model(kept@) == object_model(all.take(it.index())).remove(name@),
                {
                    assert(all.take(it.index() + 1).drop_last() =~= all.take(it.index()));
                    let ghost before = kept@;
                    if !same(member.name.as_str(), name) {
                        kept.push(member);
                        assert(kept@.drop_last() =~= before);
                    }
                    assert(object_model(kept@) =~= object_model(all.take(it.index() + 1)).remove(
                        name@,
                    ));
                }
                assert(all.take(all.len() as int) =~= all);
                Json::Object(kept)
            },
            other => other,
        }
    }

    /// An object without members.
    pub fn object() -> (json: Json)
        ensures
            json.model() == JsonView::Object(Map::empty()),
    {
        Json::Object(Vec::new())
    }

    /// A text.
    pub fn text(text: &str) -> (json: Json)
        ensures
            json.model() == JsonView::Text(text@),
    {
        Json::Text(text.to_owned())
    }
}

impl Json {
    /// A value that holds the same.
    pub fn copy(&self) -> (json: Json)
        ensures
            json.model() == self.model(),
        decreases self,
    {
        match self {
            Json::Null => Json::Null,
            Json::Bool(flag) => Json::Bool(*flag),
            Json::Unsigned(number) => Json::Unsigned(*number),
            Json::Negative(number) => Json::Negative(*number),
            Json::Fraction(fraction) => Json::Fraction(fraction.copy()),
            Json::Text(text) => Json::Text(text.clone()),
            Json::List(items) => {
                let mut out: Vec<Json> = Vec::new();
                let mut at: usize = 0;
                while at < items.len()
                    invariant
                        *self == Json::List(*items),
                        at <= items@.len(),
                        out@.len() == at,
                        forall|i: int|
                            0 <= i < at ==> (#[trigger] out@[i]).model() == items@[i].model(),
                    decreases items.len() - at,
                {
                    assert(decreases_to!(self => self->List_0));
                    assert(decreases_to!(items => items@));
                    assert(decreases_to!(items@ => items@[at as int]));
                    out.push(items[at].copy());
                    at = at + 1;
                }
                assert(list_model(out@) =~= list_model(items@));
                Json::List(out)
            },
            Json::Object(members) => {
                let mut out: Vec<Member> = Vec::new();
                let mut at: usize = 0;
                while at < members.len()
                    invariant
                        *self == Json::Object(*members),
                        at <= members@.len(),
                        out@.len() == at,
                        object_model(out@) == object_model(members@.take(at as int)),
                    decreases members.len() - at,
                {
                    assert(decreases_to!(self => self->Object_0));
                    assert(decreases_to!(members => members@));
                    assert(decreases_to!(members@ => members@[at as int]));
                    assert(decreases_to!(members@[at as int] => members@[at as int].value));
                    let ghost before = out@;
                    let member = Member {
                        name: members[at].name.clone(),
                        value: members[at].value.copy(),
                    };
                    out.push(member);
                    assert(out@.drop_last() =~= before);
                    assert(members@.take(at + 1).drop_last() =~= members@.take(at as int));
                    at = at + 1;
                }
                assert(members@.take(at as int) =~= members@);
                Json::Object(out)
            },
        }
    }
}

// ---------------------------------------------------------------------------
// What holds of members
// ---------------------------------------------------------------------------

/// A member that was set is there with its value, one that was taken out is gone, and every other is
/// as it was.
pub proof fn law_members_are_set_one_by_one(
    members: Map<Seq<char>, JsonView>,
    name: Seq<char>,
    value: JsonView,
    other: Seq<char>,
)
    ensures
        ({
            let object = JsonView::Object(members);
            &&& member(with_member(object, name, value), name) == Some(value)
            &&& member(without_member(object, name), name) is None
            &&& other != name ==> member(with_member(object, name, value), other) == member(
                object,
                other,
            ) && member(without_member(object, name), other) == member(object, other)
            &&& member(object, name) is Some <==> members.contains_key(name)
        }),
{
}

/// Only objects have members: to set or take out one changes nothing of any other value.
pub proof fn law_only_objects_have_members(value: JsonView, name: Seq<char>, new: JsonView)
    ensures
        !(value is Object) ==> member(value, name) is None && with_member(value, name, new) == value
            && without_member(value, name) == value,
{
}

/// A member is read as a text or a list just where it is one.
pub proof fn law_members_are_read_as_they_are(value: JsonView, name: Seq<char>, found: JsonView)
    requires
        member(value, name) == Some(found),
    ensures
        found matches JsonView::Text(text) ==> member_text(value, name) == Some(text),
        !(found is Text) ==> member_text(value, name) is None,
        found matches JsonView::List(items) ==> member_list(value, name) == Some(items),
        !(found is List) ==> member_list(value, name) is None,
{
}

} // verus!
