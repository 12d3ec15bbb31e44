//! A parsed TOML document, as plain values.

use vstd::prelude::*;

verus! {

/// A TOML value. Tables keep the order in which the parser yielded their entries; keys are unique.
/// A float is held by its IEEE-754 bit pattern, a datetime by its text.
#[derive(Debug, PartialEq)]
pub enum TomlValue {
    String(String),
    Integer(i64),
    Float(u64),
    Boolean(bool),
    Datetime(String),
    Array(Vec<TomlValue>),
    Table(Vec<(String, TomlValue)>),
}

/// The value under `key` among table entries (the first entry with that key).
pub open spec fn entry_of(entries: Seq<(String, TomlValue)>, key: Seq<char>) -> Option<TomlValue>
    decreases entries.len(),
{
    if entries.len() == 0 {
        None
    } else if entries[0].0@ == key {
        Some(entries[0].1)
    } else {
        entry_of(entries.drop_first(), key)
    }
}

pub open spec fn opt_deref(o: Option<&TomlValue>) -> Option<TomlValue> {
    match o {
        Some(v) => Some(*v),
        None => None,
    }
}

impl TomlValue {
    /// The value under `key` of a table; `None` for a missing key or a value that is not a table.
    pub open spec fn get_spec(self, key: Seq<char>) -> Option<TomlValue> {
        match self {
            TomlValue::Table(t) => entry_of(t@, key),
            _ => None,
        }
    }

    pub open spec fn str_spec(self) -> Option<Seq<char>> {
        match self {
            TomlValue::String(s) => Some(s@),
            _ => None,
        }
    }

    pub open spec fn is_table(self) -> bool {
        self matches TomlValue::Table(_)
    }

    /// `toml::Value::get(key)`.
    pub fn get(&self, key: &str) -> (r: Option<&TomlValue>)
        ensures
            opt_deref(r) == self.get_spec(key@),
    {
        match self {
            TomlValue::Table(t) => {
                let mut i: usize = 0;
                assert(t@.subrange(0, t.len() as int) =~= t@);
                while i < t.len()
                    invariant
                        i <= t.len(),
                        entry_of(t@, key@) == entry_of(t@.subrange(i as int, t.len() as int), key@),
                        self.get_spec(key@) == entry_of(t@, key@),
                    decreases t.len() - i,
                {
                    assert(t@.subrange(i as int, t.len() as int).drop_first() =~= t@.subrange(i + 1, t.len() as int));
                    assert(t@.subrange(i as int, t.len() as int)[0] == t@[i as int]);
                    if crate::text::str_eq(t[i].0.as_str(), key) {
                        assert(entry_of(t@.subrange(i as int, t.len() as int), key@) == Some(t@[i as int].1));
                        let r = &t[i].1;
                        assert(*r == t@[i as int].1);
                        return Some(r);
                    }
                    i = i + 1;
                }
                assert(t@.subrange(i as int, t.len() as int).len() == 0);
                None
            },
            _ => None,
        }
    }

    /// `toml::Value::as_str`.
    pub fn as_str(&self) -> (r: Option<&str>)
        ensures
            match r {
                Some(s) => self.str_spec() == Some(s@),
                None => self.str_spec() is None,
            },
    {
        match self {
            TomlValue::String(s) => Some(s.as_str()),
            _ => None,
        }
    }
}

/// `toml::Value`, carried only through the conversion below.
#[verifier::external_type_specification]
#[verifier::external_body]
pub struct ExTomlValue(toml::Value);

/// What `toml::from_str` makes of a whole document (a table): the document, or the error's message.
pub uninterp spec fn toml_document(text: Seq<char>) -> Result<TomlValue, Seq<char>>;

/// Copies a `toml::Value` into a [`TomlValue`], entry for entry, keeping the order in which the
/// `toml` table yields its entries. Nothing is stated of it: it only changes the representation.
#[verifier::external_body]
fn toml_value_of(v: &toml::Value) -> TomlValue {
    match v {
        toml::Value::String(s) => TomlValue::String(s.clone()),
        toml::Value::Integer(i) => TomlValue::Integer(*i),
        toml::Value::Float(f) => TomlValue::Float(f.to_bits()),
        toml::Value::Boolean(b) => TomlValue::Boolean(*b),
        toml::Value::Datetime(d) => TomlValue::Datetime(d.to_string()),
        toml::Value::Array(a) => TomlValue::Array(a.iter().map(toml_value_of).collect()),
        toml::Value::Table(t) => TomlValue::Table(t.iter().map(|(k, e)| (k.clone(), toml_value_of(e))).collect()),
    }
}

/// Calls `toml::from_str::<toml::Table>` on a whole document.
///
/// Claims that the result is the named `toml_document` of the text, and that a parsed document
/// is a table (the type asked for is `toml::Table`).
#[verifier::external_body]
fn toml_from_str(text: &str) -> (r: Result<TomlValue, String>)
    ensures
        match r {
            Ok(d) => toml_document(text@) == Ok::<TomlValue, Seq<char>>(d) && d.is_table(),
            Err(e) => toml_document(text@) == Err::<TomlValue, Seq<char>>(e@),
        },
{
    match toml::from_str::<toml::Table>(text) {
        Ok(t) => Ok(toml_value_of(&toml::Value::Table(t))),
        Err(e) => Err(e.to_string()),
    }
}

/// What `<toml::Value as FromStr>::from_str` makes of a text (a single TOML value), if it parses.
pub uninterp spec fn toml_value_text(text: Seq<char>) -> Option<TomlValue>;

/// Calls `<toml::Value as FromStr>::from_str`, which parses one TOML value.
///
/// Claims that the result is the named `toml_value_text` of the text.
#[verifier::external_body]
pub(crate) fn toml_value_from_str(text: &str) -> (r: Option<TomlValue>)
    ensures
        r == toml_value_text(text@),
{
    text.parse::<toml::Value>().ok().map(|v| toml_value_of(&v))
}

/// Parses the text of a TOML document (such as `.crates.toml` or cargo's `config.toml`).
pub fn parse_toml(text: &str) -> (r: Result<TomlValue, String>)
    ensures
        match r {
            Ok(d) => toml_document(text@) == Ok::<TomlValue, Seq<char>>(d) && d.is_table(),
            Err(e) => toml_document(text@) == Err::<TomlValue, Seq<char>>(e@),
        },
{
    toml_from_str(text)
}

} // verus!
