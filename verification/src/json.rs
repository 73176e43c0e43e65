//! What a JSON text holds at a path of keys, and what a map of keys holds.
//!
//! Settings files are JSON once their comments are out, and deck wants one or
//! two strings from each. Reading the JSON is `serde_json`'s work; finding
//! what sits under a path of keys, and what deck does with it, is deck's. A theme's own
//! colours arrive as entries of a map, where a later entry for a key
//! overwrites an earlier one.

use vstd::prelude::*;

use crate::text::same_text;

verus! {

/// What a JSON text holds at a path of object keys.
#[derive(Debug, Clone, PartialEq, Eq)]
pub enum Found {
    /// The text is not JSON.
    Unparsed,
    /// Something on the way to the last key is not an object.
    NotObject,
    /// The last object has no such key.
    Absent,
    /// A string is there.
    Text(String),
    /// Something other than a string is there.
    Other,
}

/// What a JSON text holds at a path of object keys, as text.
pub enum Seen {
    /// The text is not JSON.
    Unparsed,
    /// Something on the way to the last key is not an object.
    NotObject,
    /// The last object has no such key.
    Absent,
    /// A string is there.
    Text(Seq<char>),
    /// Something other than a string is there.
    Other,
}

impl View for Found {
    type V = Seen;

    open spec fn view(&self) -> Seen {
        match self {
            Found::Unparsed => Seen::Unparsed,
            Found::NotObject => Seen::NotObject,
            Found::Absent => Seen::Absent,
            Found::Text(s) => Seen::Text(s@),
            Found::Other => Seen::Other,
        }
    }
}

/// Whether a key is there at all, whatever it holds.
pub open spec fn present(f: Seen) -> bool {
    f is Text || f is Other
}

/// The keys of a path, as text.
pub open spec fn keys(path: Seq<&str>) -> Seq<Seq<char>> {
    path.map_values(|k: &str| k@)
}

/// A JSON value, as deck reads it.
#[derive(Debug)]
pub enum Json {
    Null,
    Bool(bool),
    /// A number, as `serde_json` writes it out.
    Number(String),
    Text(String),
    List(Vec<Json>),
    /// An object's members, each key once, in the order `serde_json` keeps
    /// them.
    Object(Vec<(String, Json)>),
}

/// `serde_json`'s value type, carried through unopened.
#[verifier::external_type_specification]
#[verifier::external_body]
pub struct ExValue(serde_json::Value);

/// What `serde_json::from_str` reads `text` as, when it reads it as JSON.
pub uninterp spec fn parsed(text: Seq<char>) -> Option<Json>;

/// Parses `text` as JSON.
///
/// Calls `serde_json::from_str` for a `serde_json::Value` and hands the
/// value on as a [`Json`]. The contract claims only that the answer is
/// `parsed` of the text: which texts the parser accepts, and what it makes of
/// them, is `serde_json`'s and is not stated here.
#[verifier::external_body]
fn parse(text: &str) -> (r: Option<Json>)
    ensures
        r == parsed(text@),
{
    match serde_json::from_str::<serde_json::Value>(text) {
        Ok(value) => Some(json_of(value)),
        Err(_) => None,
    }
}

/// A `serde_json::Value` as a [`Json`], variant for variant: a number by the
/// text `serde_json` writes for it, an object by its members in the map's
/// own order. Used by [`parse`] alone, whose contract states the result.
#[verifier::external_body]
fn json_of(value: serde_json::Value) -> Json {
    match value {
        serde_json::Value::Null => Json::Null,
        serde_json::Value::Bool(b) => Json::Bool(b),
        serde_json::Value::Number(n) => Json::Number(n.to_string()),
        serde_json::Value::String(s) => Json::Text(s),
        serde_json::Value::Array(items) => Json::List(items.into_iter().map(json_of).collect()),
        serde_json::Value::Object(map) => Json::Object(map.into_iter().map(|(k, v)| (k, json_of(v))).collect()),
    }
}

/// The value under `key` among an object's members: the first member for it.
pub open spec fn member(entries: Seq<(String, Json)>, key: Seq<char>) -> Option<Json>
    decreases entries.len(),
{
    if entries.len() == 0 {
        None
    } else if entries[0].0@ == key {
        Some(entries[0].1)
    } else {
        member(entries.drop_first(), key)
    }
}

/// What the value `j` holds at a path of object keys: each key looked up in
/// turn in the object reached so far.
pub open spec fn json_at(j: Json, path: Seq<Seq<char>>) -> Seen
    decreases path.len(),
{
    if path.len() == 0 {
        match j {
            Json::Text(s) => Seen::Text(s@),
            _ => Seen::Other,
        }
    } else {
        match j {
            Json::Object(entries) => match member(entries@, path[0]) {
                Some(child) => json_at(child, path.drop_first()),
                None => Seen::Absent,
            },
            _ => Seen::NotObject,
        }
    }
}

/// What `text` holds at `path`: the text parsed as JSON, then each key looked
/// up in turn.
pub open spec fn found_at(text: Seq<char>, path: Seq<Seq<char>>) -> Seen {
    match parsed(text) {
        Some(j) => json_at(j, path),
        None => Seen::Unparsed,
    }
}

/// The member of an object under `key`, the first one for it.
fn member_of<'a>(entries: &'a Vec<(String, Json)>, key: &str) -> (r: Option<&'a Json>)
    ensures
        match r {
            Some(v) => member(entries@, key@) == Some(*v),
            None => member(entries@, key@) is None,
        },
{
    let mut i: usize = 0;
    assert(entries@.subrange(0, entries@.len() as int) =~= entries@);
    while i < entries.len()
        invariant
            i <= entries@.len(),
            member(entries@, key@) == member(entries@.subrange(i as int, entries@.len() as int), key@),
        decreases entries@.len() - i,
    {
        let ghost rest = entries@.subrange(i as int, entries@.len() as int);
        assert(rest[0] == entries@[i as int]);
        assert(rest.drop_first() =~= entries@.subrange(i + 1, entries@.len() as int));
        if same_text(entries[i].0.as_str(), key) {
            return Some(&entries[i].1);
        }
        i += 1;
    }
    None
}

/// What the value `j` holds at `path`.
fn at_path(j: &Json, path: &[&str]) -> (r: Found)
    ensures
        r@ == json_at(*j, keys(path@)),
{
    let ghost ks = keys(path@);
    let mut at: &Json = j;
    let mut i: usize = 0;
    assert(ks.subrange(0, ks.len() as int) =~= ks);
    while i < path.len()
        invariant
            i <= path@.len(),
            ks == keys(path@),
            ks.len() == path@.len(),
            json_at(*j, ks) == json_at(*at, ks.subrange(i as int, ks.len() as int)),
        decreases path@.len() - i,
    {
        let ghost rest = ks.subrange(i as int, ks.len() as int);
        assert(rest[0] == path@[i as int]@);
        assert(rest.drop_first() =~= ks.subrange(i + 1, ks.len() as int));
        match at {
            Json::Object(entries) => match member_of(entries, path[i]) {
                Some(next) => {
                    at = next;
                },
                None => {
                    return Found::Absent;
                },
            },
            _ => {
                return Found::NotObject;
            },
        }
        i += 1;
    }
    assert(ks.subrange(i as int, ks.len() as int).len() == 0);
    match at {
        Json::Text(s) => Found::Text(s.clone()),
        _ => Found::Other,
    }
}

/// What `text` holds at `path`.
pub(crate) fn lookup(text: &str, path: &[&str]) -> (r: Found)
    ensures
        r@ == found_at(text@, keys(path@)),
{
    let read = parse(text);
    match &read {
        None => Found::Unparsed,
        Some(j) => at_path(j, path),
    }
}

/// The text set for `key` among `entries`, as a map holds them: a later
/// entry for a key overwrites an earlier one. A value that is not text is
/// `None`.
pub open spec fn value_for(entries: Seq<(String, Option<String>)>, key: Seq<char>) -> Option<Seq<char>>
    decreases entries.len(),
{
    if entries.len() == 0 {
        None
    } else if entries.last().0@ == key {
        match entries.last().1 {
            Some(v) => Some(v@),
            None => None,
        }
    } else {
        value_for(entries.drop_last(), key)
    }
}

/// The text set for `key` among `entries`, the last entry for it winning.
pub fn value_of<'a>(entries: &'a Vec<(String, Option<String>)>, key: &str) -> (r: Option<&'a String>)
    ensures
        match r {
            Some(v) => value_for(entries@, key@) == Some(v@),
            None => value_for(entries@, key@) is None,
        },
{
    let mut i: usize = entries.len();
    assert(entries@.take(i as int) =~= entries@);
    while i > 0
        invariant
            i <= entries@.len(),
            value_for(entries@, key@) == value_for(entries@.take(i as int), key@),
        decreases i,
    {
        let ghost pre = entries@.take(i as int);
        assert(pre.last() == entries@[i - 1]);
        assert(pre.drop_last() =~= entries@.take(i - 1));
        if same_text(entries[i - 1].0.as_str(), key) {
            return entries[i - 1].1.as_ref();
        }
        i -= 1;
    }
    None
}

} // verus!
