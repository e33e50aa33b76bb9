//! A TOML document as the dictionary compiler reads it: strings, arrays and
//! tables, with every other kind of value kept only as present.

use vstd::prelude::*;
use crate::strmap::StrMap;
use crate::text::{str_chars, chars_eq, chars_eq_str};

verus! {

/// A value of the `toml` crate.
#[verifier::external_type_specification]
#[verifier::external_body]
pub struct ExTomlValue(toml::Value);

/// A TOML value.
pub enum TomlValue {
    /// A string.
    Str(String),
    /// An array.
    Array(Vec<TomlValue>),
    /// A table.
    Table(TomlTable),
    /// An integer, float, boolean or date-time.
    Other,
}

/// A TOML table: its keys and values, in the order the parser yields them.
pub struct TomlTable {
    pub entries: Vec<(String, TomlValue)>,
}

/// The table that the `toml` crate parses from a document, or its error
/// message.
pub uninterp spec fn toml_table_of(text: Seq<char>) -> Result<TomlTable, Seq<char>>;

/// Converts a parsed `toml` value, variant by variant.
#[verifier::external_body]
fn convert_value(v: &toml::Value) -> TomlValue {
    match v {
        toml::Value::String(s) => TomlValue::Str(s.clone()),
        toml::Value::Array(a) => TomlValue::Array(a.iter().map(convert_value).collect()),
        toml::Value::Table(t) => TomlValue::Table(
            TomlTable { entries: t.iter().map(|(k, x)| (k.clone(), convert_value(x))).collect() },
        ),
        _ => TomlValue::Other,
    }
}

/// Parses a TOML document into a table (`toml::from_str::<toml::Table>`).
/// The result, or the error's message, is the one the `toml` crate gives for
/// the text.
#[verifier::external_body]
pub(crate) fn parse_toml_table(text: &str) -> (r: Result<TomlTable, String>)
    ensures
        match r {
            Ok(t) => toml_table_of(text@) == Ok::<TomlTable, Seq<char>>(t),
            Err(e) => toml_table_of(text@) == Err::<TomlTable, Seq<char>>(e@),
        },
{
    match toml::from_str::<toml::Table>(text) {
        Ok(t) => match convert_value(&toml::Value::Table(t)) {
            TomlValue::Table(x) => Ok(x),
            _ => Ok(TomlTable { entries: Vec::new() }),
        },
        Err(e) => Err(e.to_string()),
    }
}

/// The value of the first entry of `t` with key `key`, from position `k` on.
pub open spec fn value_from(t: TomlTable, key: Seq<char>, k: int) -> Option<TomlValue>
    decreases t.entries@.len() - k,
{
    if k < 0 || k >= t.entries@.len() {
        None
    } else if t.entries@[k].0@ == key {
        Some(t.entries@[k].1)
    } else {
        value_from(t, key, k + 1)
    }
}

/// The value of key `key` in `t`.
pub open spec fn get_value(t: TomlTable, key: Seq<char>) -> Option<TomlValue> {
    value_from(t, key, 0)
}

/// The table under key `key` in `t`, if that value is a table.
pub open spec fn get_table(t: TomlTable, key: Seq<char>) -> Option<TomlTable> {
    match get_value(t, key) {
        Some(TomlValue::Table(x)) => Some(x),
        _ => None,
    }
}

/// The string under key `key` in `t`, if that value is a string.
pub open spec fn get_string(t: TomlTable, key: Seq<char>) -> Option<Seq<char>> {
    match get_value(t, key) {
        Some(TomlValue::Str(s)) => Some(s@),
        _ => None,
    }
}

/// The string entries of the first `n` entries of `t` as a map, leaving out
/// the keys in `skip`; a later entry wins.
pub open spec fn string_map_upto(t: TomlTable, skip: Seq<Seq<char>>, n: int) -> Map<Seq<char>, Seq<char>>
    decreases n,
{
    if n <= 0 || n > t.entries@.len() {
        Map::empty()
    } else {
        let prev = string_map_upto(t, skip, n - 1);
        let e = t.entries@[n - 1];
        match e.1 {
            TomlValue::Str(s) => if skip.contains(e.0@) { prev } else { prev.insert(e.0@, s@) },
            _ => prev,
        }
    }
}

/// The string entries of `t` as a map, leaving out the keys in `skip`.
pub open spec fn string_map(t: TomlTable, skip: Seq<Seq<char>>) -> Map<Seq<char>, Seq<char>> {
    string_map_upto(t, skip, t.entries@.len() as int)
}

/// Looks up a key.
pub fn table_get<'a>(t: &'a TomlTable, key: &str) -> (r: Option<&'a TomlValue>)
    ensures
        match get_value(*t, key@) {
            Some(v) => r == Some(&v),
            None => r is None,
        },
{
    let kc = str_chars(key);
    let mut k: usize = 0;
    while k < t.entries.len()
        invariant
            k <= t.entries@.len(),
            kc@ == key@,
            get_value(*t, key@) == value_from(*t, key@, k as int),
        decreases t.entries@.len() - k,
    {
        let ec = str_chars(t.entries[k].0.as_str());
        if chars_eq(&ec, &kc) {
            return Some(&t.entries[k].1);
        }
        k = k + 1;
    }
    None
}

fn skipped(skip: &Vec<&str>, key: &Vec<char>) -> (r: bool)
    ensures
        r == skip@.map_values(|s: &str| s@).contains(key@),
{
    let ghost sv = skip@.map_values(|s: &str| s@);
    let mut k: usize = 0;
    while k < skip.len()
        invariant
            k <= skip@.len(),
            sv == skip@.map_values(|s: &str| s@),
            forall|j: int| 0 <= j < k ==> sv[j] != key@,
        decreases skip@.len() - k,
    {
        if chars_eq_str(key, skip[k]) {
            assert(sv[k as int] == key@);
            return true;
        }
        k = k + 1;
    }
    false
}

/// The string entries of a table, leaving out the keys in `skip`.
pub fn string_entries(t: &TomlTable, skip: &Vec<&str>) -> (m: StrMap)
    ensures
        m.wf(),
        m@ == string_map(*t, skip@.map_values(|s: &str| s@)),
{
    let ghost sv = skip@.map_values(|s: &str| s@);
    let mut m = StrMap::new();
    let mut k: usize = 0;
    while k < t.entries.len()
        invariant
            k <= t.entries@.len(),
            m.wf(),
            sv == skip@.map_values(|s: &str| s@),
            m@ == string_map_upto(*t, sv, k as int),
        decreases t.entries@.len() - k,
    {
        let (key, value) = &t.entries[k];
        match value {
            TomlValue::Str(s) => {
                let kc = str_chars(key.as_str());
                if !skipped(skip, &kc) {
                    m.insert(key.clone(), s.clone());
                }
            },
            _ => {},
        }
        k = k + 1;
    }
    m
}

} // verus!
