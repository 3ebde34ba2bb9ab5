//! TOML tables: the part of a configuration file that the library reads, with `toml`
//! as the reader.

use vstd::prelude::*;

use crate::text::same;

verus! {

/// The value type of `toml`.
#[verifier::external_type_specification]
#[verifier::external_body]
pub struct ExTomlValue(toml::Value);

/// What a TOML value is, as far as it is read.
#[verifier::ext_equal]
pub enum TomlView {
    Text(Seq<char>),
    Integer(i64),
    Table(Map<Seq<char>, TomlView>),
    Other,
}

/// A TOML value, as far as it is read.
pub enum Toml {
    Text(String),
    Integer(i64),
    /// The entries of a table. Of two entries with one key the later counts.
    Table(Vec<TomlEntry>),
    /// A float, a boolean, a date or time, or an array.
    Other,
}

/// An entry of a TOML table.
pub struct TomlEntry {
    pub key: String,
    pub value: Toml,
}

impl Toml {
    /// The value that this holds.
    pub open spec fn model(self) -> TomlView
        decreases self,
    {
        match self {
            Toml::Text(text) => TomlView::Text(text@),
            Toml::Integer(number) => TomlView::Integer(number),
            Toml::Table(entries) => TomlView::Table(table_model(entries@)),
            Toml::Other => TomlView::Other,
        }
    }
}

/// The keys and values that the entries of a table give.
pub open spec fn table_model(entries: Seq<TomlEntry>) -> Map<Seq<char>, TomlView>
    decreases entries,
{
    if entries.len() == 0 {
        Map::empty()
    } else {
        table_model(entries.drop_last()).insert(entries.last().key@, entries.last().value.model())
    }
}

/// What a value of `toml` holds.
pub uninterp spec fn toml_of(value: toml::Value) -> TomlView;

/// The table that `toml` reads from a text, or the text of the error with which it refuses
/// it.
pub uninterp spec fn toml_reading(text: Seq<char>) -> Result<Map<Seq<char>, TomlView>, Seq<char>>;

/// The value that `toml` reads from a text, or the text of the error with which it refuses
/// it.
pub uninterp spec fn toml_value_reading(text: Seq<char>) -> Result<TomlView, Seq<char>>;

enum TomlShape {
    Text(String),
    Integer(i64),
    Table(Vec<(String, toml::Value)>),
    Other,
}

spec fn value_table(entries: Seq<(String, toml::Value)>) -> Map<Seq<char>, TomlView>
    decreases entries.len(),
{
    if entries.len() == 0 {
        Map::empty()
    } else {
        value_table(entries.drop_last()).insert(entries.last().0@, toml_of(entries.last().1))
    }
}

spec fn distinct_keys(entries: Seq<(String, toml::Value)>) -> bool {
    forall|i: int, j: int| 0 <= i < j < entries.len() ==> entries[i].0@ != entries[j].0@
}

spec fn shape_model(shape: TomlShape) -> TomlView {
    match shape {
        TomlShape::Text(text) => TomlView::Text(text@),
        TomlShape::Integer(number) => TomlView::Integer(number),
        TomlShape::Table(entries) => TomlView::Table(value_table(entries@)),
        TomlShape::Other => TomlView::Other,
    }
}

/// Tells the variants of `toml::Value` apart. No two entries of a table have one key.
#[verifier::external_body]
fn open_value(value: toml::Value) -> (shape: TomlShape)
    ensures
        shape_model(shape) == toml_of(value),
        shape matches TomlShape::Table(entries) ==> distinct_keys(entries@),
{
    match value {
        toml::Value::String(text) => TomlShape::Text(text),
        toml::Value::Integer(number) => TomlShape::Integer(number),
        toml::Value::Table(table) => TomlShape::Table(table.into_iter().collect()),
        toml::Value::Float(_) => TomlShape::Other,
        toml::Value::Boolean(_) => TomlShape::Other,
        toml::Value::Datetime(_) => TomlShape::Other,
        toml::Value::Array(_) => TomlShape::Other,
    }
}

/// `str::parse::<toml::Table>` on a whole text; of the error its `Display` text is kept. No
/// two entries of a table have one key.
#[verifier::external_body]
fn parse_document(text: &str) -> (table: Result<Vec<(String, toml::Value)>, String>)
    ensures
        match table {
            Ok(entries) => toml_reading(text@) == Ok::<Map<Seq<char>, TomlView>, Seq<char>>(
                value_table(entries@),
            ) && distinct_keys(entries@),
            Err(error) => toml_reading(text@) == Err::<Map<Seq<char>, TomlView>, Seq<char>>(error@),
        },
{
    match text.parse::<toml::Table>() {
        Ok(table) => Ok(table.into_iter().collect()),
        Err(error) => Err(error.to_string()),
    }
}

/// `str::parse::<toml::Value>` on a whole text; of the error its `Display` text is kept.
#[verifier::external_body]
fn parse_value(text: &str) -> (value: Result<toml::Value, String>)
    ensures
        match value {
            Ok(value) => toml_value_reading(text@) == Ok::<TomlView, Seq<char>>(toml_of(value)),
            Err(error) => toml_value_reading(text@) == Err::<TomlView, Seq<char>>(error@),
        },
{
    match text.parse::<toml::Value>() {
        Ok(value) => Ok(value),
        Err(error) => Err(error.to_string()),
    }
}

proof fn lemma_value_table_has(entries: Seq<(String, toml::Value)>, i: int)
    requires
        0 <= i < entries.len(),
        distinct_keys(entries),
    ensures
        value_table(entries).contains_key(entries[i].0@),
        value_table(entries)[entries[i].0@] == toml_of(entries[i].1),
        value_table(entries).dom().finite(),
    decreases entries.len(),
{
    if i < entries.len() - 1 {
        assert(distinct_keys(entries.drop_last()));
        lemma_value_table_has(entries.drop_last(), i);
        assert(entries.drop_last()[i] == entries[i]);
    } else if entries.len() > 1 {
        assert(distinct_keys(entries.drop_last()));
        lemma_value_table_has(entries.drop_last(), 0);
    } else {
        assert(entries.drop_last() =~= Seq::empty());
    }
}

fn from_value(value: toml::Value) -> (toml: Toml)
    ensures
        toml.model() == toml_of(value),
    decreases toml_of(value),
{
    match open_value(value) {
        TomlShape::Text(text) => Toml::Text(text),
        TomlShape::Integer(number) => Toml::Integer(number),
        TomlShape::Other => Toml::Other,
        TomlShape::Table(entries) => {
            let ghost all = entries@;
            let mut out: Vec<TomlEntry> = Vec::new();
            for entry in it: entries
                invariant
                    it.seq() == all,
                    out@.len() == it.index(),
                    table_model(out@) == value_table(all.take(it.index())),
                    toml_of(value) == TomlView::Table(value_table(all)),
                    distinct_keys(all),
            {
                proof {
                    lemma_value_table_has(all, it.index() as int);
                    let map = toml_of(value)->Table_0;
                    assert(decreases_to!(toml_of(value) => map));
                    assert(decreases_to!(map => map[entry.0@]));
                }
                assert(all.take(it.index() + 1).drop_last() =~= all.take(it.index()));
                let ghost before = out@;
                let converted = TomlEntry { key: entry.0, value: from_value(entry.1) };
                out.push(converted);
                assert(out@.drop_last() =~= before);
            }
            assert(all.take(all.len() as int) =~= all);
            Toml::Table(out)
        },
    }
}

/// Reads a TOML document, or tells why it is none.
pub fn parse_toml(text: &str) -> (document: Result<Toml, String>)
    ensures
        match document {
            Ok(toml) => toml_reading(text@) matches Ok(table) && toml.model() == TomlView::Table(
                table,
            ),
            Err(error) => toml_reading(text@) == Err::<Map<Seq<char>, TomlView>, Seq<char>>(error@),
        },
{
    match parse_document(text) {
        Ok(entries) => {
            let ghost all = entries@;
            let mut out: Vec<TomlEntry> = Vec::new();
            for entry in it: entries
                invariant
                    it.seq() == all,
                    out@.len() == it.index(),
                    table_model(out@) == value_table(all.take(it.index())),
            {
                assert(all.take(it.index() + 1).drop_last() =~= all.take(it.index()));
                let ghost before = out@;
                let converted = TomlEntry { key: entry.0, value: from_value(entry.1) };
                out.push(converted);
                assert(out@.drop_last() =~= before);
            }
            assert(all.take(all.len() as int) =~= all);
            Ok(Toml::Table(out))
        },
        Err(error) => Err(error),
    }
}

/// Reads a TOML value from a whole text, or tells why there is none.
pub fn parse_toml_value(text: &str) -> (value: Result<Toml, String>)
    ensures
        match value {
            Ok(toml) => toml_value_reading(text@) == Ok::<TomlView, Seq<char>>(toml.model()),
            Err(error) => toml_value_reading(text@) == Err::<TomlView, Seq<char>>(error@),
        },
{
    match parse_value(text) {
        Ok(value) => Ok(from_value(value)),
        Err(error) => Err(error),
    }
}

/// The value under a key of a table.
pub open spec fn entry(value: TomlView, key: Seq<char>) -> Option<TomlView> {
    match value {
        TomlView::Table(table) => if table.contains_key(key) {
            Some(table[key])
        } else {
            None
        },
        _ => None,
    }
}

/// The table under a key of a table.
pub open spec fn table_entry(value: TomlView, key: Seq<char>) -> Option<TomlView> {
    match entry(value, key) {
        Some(found) => if found is Table {
            Some(found)
        } else {
            None
        },
        None => None,
    }
}

proof fn lemma_table_model_skip(entries: Seq<TomlEntry>, at: int, key: Seq<char>)
    requires
        0 <= at <= entries.len(),
        forall|i: int| at <= i < entries.len() ==> (#[trigger] entries[i]).key@ != key,
    ensures
        table_model(entries).contains_key(key) == table_model(entries.take(at)).contains_key(key),
        table_model(entries).contains_key(key) ==> table_model(entries)[key] == table_model(
            entries.take(at),
        )[key],
    decreases entries.len(),
{
    if at < entries.len() {
        lemma_table_model_skip(entries.drop_last(), at, key);
        assert(entries.drop_last().take(at) =~= entries.take(at));
        assert(entries.last() == entries[entries.len() - 1]);
    } else {
        assert(entries.take(at) =~= entries);
    }
}

impl Toml {
    /// The value under a key.
    pub fn get(&self, key: &str) -> (found: Option<&Toml>)
        ensures
            match found {
                Some(value) => entry(self.model(), key@) == Some(value.model()),
                None => entry(self.model(), key@) is None,
            },
    {
        match self {
            Toml::Table(entries) => {
                let mut at: usize = entries.len();
                while at > 0
                    invariant
                        at <= entries@.len(),
                        *self == Toml::Table(*entries),
                        forall|i: int|
                            at <= i < entries@.len() ==> (#[trigger] entries@[i]).key@ != key@,
                    decreases at,
                {
                    at = at - 1;
                    if same(entries[at].key.as_str(), key) {
                        proof {
                            lemma_table_model_skip(entries@, at + 1, key@);
                            assert(entries@.take(at + 1).last() == entries@[at as int]);
                        }
                        return Some(&entries[at].value);
                    }
                }
                proof {
                    lemma_table_model_skip(entries@, 0, key@);
                }
                None
            },
            _ => None,
        }
    }

    /// The table under a key.
    pub fn get_table(&self, key: &str) -> (found: Option<&Toml>)
        ensures
            match found {
                Some(value) => table_entry(self.model(), key@) == Some(value.model()),
                None => table_entry(self.model(), key@) is None,
            },
    {
        match self.get(key) {
            Some(value) => match value {
                Toml::Table(_) => Some(value),
                _ => None,
            },
            None => None,
        }
    }
}

} // verus!
