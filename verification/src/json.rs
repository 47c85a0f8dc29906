//! JSON documents as trees of plain values.

use vstd::prelude::*;
use vstd::string::*;

use crate::text::same_text;

verus! {

/// A JSON value.
#[derive(Debug)]
pub enum Json {
    Null,
    Bool(bool),
    /// A number, as the parser shows it.
    Number(String),
    Text(String),
    List(Vec<Json>),
    /// An object, entry by entry.
    Object(Vec<(String, Json)>),
}

/// A value of the JSON parser.
#[verifier::external_type_specification]
#[verifier::external_body]
pub struct ExJsonValue(serde_json::Value);

/// What `serde_json::from_str` makes of a text: the value, or its error.
pub uninterp spec fn json_parsed(text: Seq<char>) -> Result<Json, String>;

/// A parsed value as a tree, one variant for each of `serde_json::Value`.
#[verifier::external_body]
fn tree_of(value: serde_json::Value) -> (r: Json) {
    match value {
        serde_json::Value::Null => Json::Null,
        serde_json::Value::Bool(b) => Json::Bool(b),
        serde_json::Value::Number(n) => Json::Number(n.to_string()),
        serde_json::Value::String(s) => Json::Text(s),
        serde_json::Value::Array(list) => Json::List(list.into_iter().map(tree_of).collect()),
        serde_json::Value::Object(map) => {
            Json::Object(map.into_iter().map(|(k, v)| (k, tree_of(v))).collect())
        },
    }
}

/// `serde_json::from_str` into a value; what it returns depends on the text
/// alone.
#[verifier::external_body]
pub(crate) fn parse_json(text: &str) -> (r: Result<Json, String>)
    ensures
        r == json_parsed(text@),
{
    serde_json::from_str(text).map(tree_of).map_err(|e| e.to_string())
}

/// The value of the first entry with the key `key`.
pub open spec fn entry_of(entries: Seq<(String, Json)>, key: Seq<char>) -> Option<Json>
    decreases entries.len(),
{
    if entries.len() == 0 {
        None
    } else if entries[0].0@ == key {
        Some(entries[0].1)
    } else {
        entry_of(entries.skip(1), key)
    }
}

impl Json {
    /// The value of the field `key` of an object.
    pub open spec fn field(self, key: Seq<char>) -> Option<Json> {
        match self {
            Json::Object(entries) => entry_of(entries@, key),
            _ => None,
        }
    }

    /// The text in the field `key` of an object.
    pub open spec fn text_field(self, key: Seq<char>) -> Option<Seq<char>> {
        match self.field(key) {
            Some(Json::Text(s)) => Some(s@),
            _ => None,
        }
    }

    /// The value of the field `key` of an object.
    pub fn get(&self, key: &str) -> (r: Option<&Json>)
        ensures
            match self.field(key@) {
                Some(v) => r matches Some(w) && *w == v,
                None => r is None,
            },
    {
        match self {
            Json::Object(entries) => {
                assert(entries@.skip(0) =~= entries@);
                for i in 0..entries.len()
                    invariant
                        *self == Json::Object(*entries),
                        entry_of(entries@, key@) == entry_of(entries@.skip(i as int), key@),
                {
                    assert(entries@.skip(i as int).skip(1) =~= entries@.skip(i + 1));
                    if same_text(entries[i].0.as_str(), key) {
                        return Some(&entries[i].1);
                    }
                }
                None
            },
            _ => None,
        }
    }

    /// The text in the field `key` of an object.
    pub fn get_text(&self, key: &str) -> (r: Option<String>)
        ensures
            match self.text_field(key@) {
                Some(s) => r matches Some(t) && t@ == s,
                None => r is None,
            },
    {
        match self.get(key) {
            Some(Json::Text(s)) => Some(s.clone()),
            _ => None,
        }
    }
}

/// A field is the value of the first entry with its key; only objects have
/// fields.
pub proof fn fields_are_first_entries(value: Json, entries: Vec<(String, Json)>, key: Seq<char>, k: int)
    requires
        0 <= k <= entries@.len(),
        forall|i: int| 0 <= i < k ==> (#[trigger] entries@[i]).0@ != key,
        k < entries@.len() ==> entries@[k].0@ == key,
    ensures
        value == Json::Object(entries) && k < entries@.len() ==> value.field(key) == Some(
            entries@[k].1,
        ),
        value == Json::Object(entries) && k == entries@.len() ==> value.field(key) is None,
        !(value is Object) ==> value.field(key) is None,
        value.field(key) matches Some(Json::Text(s)) ==> value.text_field(key) == Some(s@),
        !(value.field(key) matches Some(Json::Text(_))) ==> value.text_field(key) is None,
{
    lemma_first_entry(entries@, key, k);
}

proof fn lemma_first_entry(entries: Seq<(String, Json)>, key: Seq<char>, k: int)
    requires
        0 <= k <= entries.len(),
        forall|i: int| 0 <= i < k ==> (#[trigger] entries[i]).0@ != key,
        k < entries.len() ==> entries[k].0@ == key,
    ensures
        entry_of(entries, key) == if k < entries.len() {
            Some(entries[k].1)
        } else {
            None
        },
    decreases k,
{
    if k > 0 {
        let rest = entries.skip(1);
        assert forall|i: int| 0 <= i < k - 1 implies (#[trigger] rest[i]).0@ != key by {
            assert(rest[i] == entries[i + 1]);
        }
        lemma_first_entry(rest, key, k - 1);
    }
}

} // verus!
