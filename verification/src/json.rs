use vstd::prelude::*;
use crate::text::str_eq;

verus! {

/// A JSON document as plain values.
///
/// Numbers are held by their decimal text; object members keep the order in which the
/// parser hands them out.
#[derive(Debug)]
pub enum JsonValue {
    Null,
    Bool(bool),
    Number(String),
    Str(String),
    Array(Vec<JsonValue>),
    Object(Vec<(String, JsonValue)>),
}

/// The value stored under `key` among `entries`: the first member with that name.
pub open spec fn member_value(entries: Seq<(String, JsonValue)>, key: Seq<char>) -> Option<JsonValue>
    decreases entries.len(),
{
    if entries.len() == 0 {
        None
    } else if entries[0].0@ == key {
        Some(entries[0].1)
    } else {
        member_value(entries.drop_first(), key)
    }
}

/// A size measure of a document: one for each value in it.
pub open spec fn json_size(v: JsonValue) -> nat
    decreases v, 0nat,
{
    match v {
        JsonValue::Array(items) => 1 + items_size(items@),
        JsonValue::Object(entries) => 1 + entries_size(entries@),
        _ => 1,
    }
}

pub open spec fn items_size(items: Seq<JsonValue>) -> nat
    decreases items, items.len(),
{
    if items.len() == 0 {
        0
    } else {
        json_size(items[0]) + items_size(items.drop_first())
    }
}

pub open spec fn entries_size(entries: Seq<(String, JsonValue)>) -> nat
    decreases entries, entries.len(),
{
    if entries.len() == 0 {
        0
    } else {
        json_size(entries[0].1) + entries_size(entries.drop_first())
    }
}

/// A member of an object is smaller than the object.
pub proof fn lemma_member_smaller(entries: Seq<(String, JsonValue)>, key: Seq<char>)
    ensures
        member_value(entries, key) matches Some(v) ==> json_size(v) <= entries_size(entries),
    decreases entries.len(),
{
    if entries.len() > 0 {
        lemma_member_smaller(entries.drop_first(), key);
    }
}

/// An item of an array is smaller than the array.
pub proof fn lemma_item_smaller(items: Seq<JsonValue>, i: int)
    requires
        0 <= i < items.len(),
    ensures
        json_size(items[i]) <= items_size(items),
    decreases items.len(),
{
    if i > 0 {
        lemma_item_smaller(items.drop_first(), i - 1);
    }
}

/// The value of an entry is smaller than the entries.
pub proof fn lemma_entry_smaller(entries: Seq<(String, JsonValue)>, i: int)
    requires
        0 <= i < entries.len(),
    ensures
        json_size(entries[i].1) <= entries_size(entries),
    decreases entries.len(),
{
    if i > 0 {
        lemma_entry_smaller(entries.drop_first(), i - 1);
    }
}

impl JsonValue {
    /// A member of a value is smaller than the value.
    pub proof fn lemma_get_smaller(self, key: Seq<char>)
        ensures
            self.spec_get(key) matches Some(m) ==> json_size(m) < json_size(self),
    {
        if let JsonValue::Object(entries) = self {
            lemma_member_smaller(entries@, key);
        }
    }

    /// The items of an array, `None` for any other kind of value.
    pub open spec fn spec_as_array(self) -> Option<Seq<JsonValue>> {
        match self {
            JsonValue::Array(items) => Some(items@),
            _ => None,
        }
    }

    /// The members of an object, `None` for any other kind of value.
    pub open spec fn spec_as_object(self) -> Option<Seq<(String, JsonValue)>> {
        match self {
            JsonValue::Object(entries) => Some(entries@),
            _ => None,
        }
    }

    /// The items, where the value is an array.
    pub fn as_array(&self) -> (r: Option<&Vec<JsonValue>>)
        ensures
            match r {
                Some(items) => self.spec_as_array() == Some(items@),
                None => self.spec_as_array() is None,
            },
    {
        match self {
            JsonValue::Array(items) => Some(items),
            _ => None,
        }
    }

    /// The entries, where the value is an object.
    pub fn as_object(&self) -> (r: Option<&Vec<(String, JsonValue)>>)
        ensures
            match r {
                Some(entries) => self.spec_as_object() == Some(entries@),
                None => self.spec_as_object() is None,
            },
    {
        match self {
            JsonValue::Object(entries) => Some(entries),
            _ => None,
        }
    }

    /// Whether the value is `null`.
    pub fn is_null_value(&self) -> (r: bool)
        ensures
            r == (*self is Null),
    {
        match self {
            JsonValue::Null => true,
            _ => false,
        }
    }

    /// The member `key` of an object; `None` for any other kind of value.
    pub open spec fn spec_get(self, key: Seq<char>) -> Option<JsonValue> {
        match self {
            JsonValue::Object(entries) => member_value(entries@, key),
            _ => None,
        }
    }

    /// The text of a string value.
    pub open spec fn spec_as_str(self) -> Option<Seq<char>> {
        match self {
            JsonValue::Str(s) => Some(s@),
            _ => None,
        }
    }

    /// The text stored under `key` when that member is a string.
    pub open spec fn spec_get_str(self, key: Seq<char>) -> Option<Seq<char>> {
        match self.spec_get(key) {
            Some(v) => v.spec_as_str(),
            None => None,
        }
    }

    /// The value of `key`, where the value is an object that has it.
    pub fn get(&self, key: &str) -> (r: Option<&JsonValue>)
        ensures
            match r {
                Some(v) => self.spec_get(key@) == Some(*v),
                None => self.spec_get(key@) is None,
            },
    {
        match self {
            JsonValue::Object(entries) => {
                let mut i: usize = 0;
                assert(entries@.skip(0) =~= entries@);
                while i < entries.len()
                    invariant
                        0 <= i <= entries@.len(),
                        self.spec_get(key@) == member_value(entries@, key@),
                        member_value(entries@, key@) == member_value(entries@.skip(i as int), key@),
                    decreases entries@.len() - i,
                {
                    assert(entries@.skip(i as int).drop_first() =~= entries@.skip(i + 1));
                    if str_eq(entries[i].0.as_str(), key) {
                        assert(entries@.skip(i as int)[0] == entries@[i as int]);
                        assert(member_value(entries@.skip(i as int), key@) == Some(entries@[i as int].1));
                        return Some(&entries[i].1);
                    }
                    i = i + 1;
                }
                None
            },
            _ => None,
        }
    }

    /// The text, where the value is a string.
    pub fn as_str(&self) -> (r: Option<&str>)
        ensures
            match r {
                Some(s) => self.spec_as_str() == Some(s@),
                None => self.spec_as_str() is None,
            },
    {
        match self {
            JsonValue::Str(s) => Some(s.as_str()),
            _ => None,
        }
    }

    /// The text of `key`, where the value is an object whose member `key` is a string.
    pub fn get_str(&self, key: &str) -> (r: Option<&str>)
        ensures
            match r {
                Some(s) => self.spec_get_str(key@) == Some(s@),
                None => self.spec_get_str(key@) is None,
            },
    {
        match self.get(key) {
            Some(v) => v.as_str(),
            None => None,
        }
    }
}

/// The document that `serde_json` reads from `text`, or `None` where it rejects the text.
pub uninterp spec fn json_document(text: Seq<char>) -> Option<JsonValue>;

#[verifier::external_type_specification]
#[verifier::external_body]
pub struct ExSerdeJsonValue(serde_json::Value);

/// Parses `text` with `serde_json::from_str::<serde_json::Value>`.
///
/// Trusted: the document read is named `json_document(text)`; on a rejected text the error's
/// message is handed back, and nothing is stated of its wording.
#[verifier::external_body]
pub fn parse_json(text: &str) -> (r: Result<JsonValue, String>)
    ensures
        match r {
            Ok(v) => json_document(text@) == Some(v),
            Err(_) => json_document(text@) is None,
        },
{
    match serde_json::from_str::<serde_json::Value>(text) {
        Ok(value) => Ok(from_serde_value(value)),
        Err(error) => Err(error.to_string()),
    }
}

/// The text `serde_json::to_string_pretty` writes for the document `v`, or `None` where it
/// refuses it.
pub uninterp spec fn pretty_json_text(v: JsonValue) -> Option<Seq<char>>;

/// `serde_json::to_string_pretty` of the document `value`; its result is named
/// `pretty_json_text`.  The error is passed on as its message.
#[verifier::external_body]
pub fn pretty_json(value: &JsonValue) -> (r: Result<String, String>)
    ensures
        match pretty_json_text(*value) {
            Some(text) => r matches Ok(s) && s@ == text,
            None => r is Err,
        },
{
    let document = to_serde_value(value)?;
    serde_json::to_string_pretty(&document).map_err(|e| e.to_string())
}

/// Moves the library's document type into a `serde_json::Value`, variant for variant; the
/// conversion `pretty_json` applies.  A number is read back from its decimal text.
#[verifier::external_body]
fn to_serde_value(value: &JsonValue) -> Result<serde_json::Value, String> {
    Ok(match value {
        JsonValue::Null => serde_json::Value::Null,
        JsonValue::Bool(b) => serde_json::Value::Bool(*b),
        JsonValue::Number(n) => serde_json::Value::Number(n.parse::<serde_json::Number>().map_err(|e| e.to_string())?),
        JsonValue::Str(s) => serde_json::Value::String(s.clone()),
        JsonValue::Array(items) => serde_json::Value::Array(items.iter().map(to_serde_value).collect::<Result<_, _>>()?),
        JsonValue::Object(entries) => serde_json::Value::Object(
            entries.iter().map(|(k, v)| Ok((k.clone(), to_serde_value(v)?))).collect::<Result<_, String>>()?,
        ),
    })
}

/// Moves a `serde_json::Value` into the library's own document type, variant for variant; the
/// conversion `parse_json` applies.
#[verifier::external_body]
fn from_serde_value(value: serde_json::Value) -> JsonValue {
    match value {
        serde_json::Value::Null => JsonValue::Null,
        serde_json::Value::Bool(b) => JsonValue::Bool(b),
        serde_json::Value::Number(n) => JsonValue::Number(n.to_string()),
        serde_json::Value::String(s) => JsonValue::Str(s),
        serde_json::Value::Array(items) => JsonValue::Array(items.into_iter().map(from_serde_value).collect()),
        serde_json::Value::Object(map) => JsonValue::Object(map.into_iter().map(|(k, v)| (k, from_serde_value(v))).collect()),
    }
}

} // verus!
