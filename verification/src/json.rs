//! JSON documents: a mathematical model of them, and the operations of
//! `serde_json` that the proxy uses, stated over that model.

use serde_json::Value;
use vstd::prelude::*;

verus! {

/// A JSON number.
pub enum JsonNumber {
    /// A whole number that is not negative.
    PosInt(u64),
    /// A whole number below zero.
    NegInt(i64),
    /// Any other number, by the text it is written as.
    Float(Seq<char>),
}

/// A JSON document.
pub enum Json {
    Null,
    Bool(bool),
    Number(JsonNumber),
    Text(Seq<char>),
    Array(Seq<Json>),
    Object(Map<Seq<char>, Json>),
}

/// The members of an object, by name.
pub type Members = Map<Seq<char>, Json>;

impl Json {
    /// Whether the document is an object with a member `key`.
    pub open spec fn has(self, key: Seq<char>) -> bool {
        self matches Json::Object(members) && members.contains_key(key)
    }

    /// The member `key` of an object; null where there is none.
    pub open spec fn at(self, key: Seq<char>) -> Json {
        match self {
            Json::Object(members) => if members.contains_key(key) {
                members[key]
            } else {
                Json::Null
            },
            _ => Json::Null,
        }
    }

    /// The document as a text.
    pub open spec fn text(self) -> Option<Seq<char>> {
        match self {
            Json::Text(text) => Some(text),
            _ => None,
        }
    }

    /// The document as a list of documents.
    pub open spec fn items(self) -> Option<Seq<Json>> {
        match self {
            Json::Array(items) => Some(items),
            _ => None,
        }
    }

    /// The document as an unsigned whole number.
    pub open spec fn unsigned(self) -> Option<u64> {
        match self {
            Json::Number(JsonNumber::PosInt(n)) => Some(n),
            _ => None,
        }
    }

    /// The document as a signed whole number.
    pub open spec fn signed(self) -> Option<i64> {
        match self {
            Json::Number(JsonNumber::PosInt(n)) => if n <= i64::MAX {
                Some(n as i64)
            } else {
                None
            },
            Json::Number(JsonNumber::NegInt(n)) => Some(n),
            _ => None,
        }
    }
}

/// A whole number as a document.
pub open spec fn whole_number(n: int) -> Json {
    if n < 0 {
        Json::Number(JsonNumber::NegInt(n as i64))
    } else {
        Json::Number(JsonNumber::PosInt(n as u64))
    }
}

/// Whether a document has no numbers but whole ones and is nested no deeper
/// than `depth`.
pub open spec fn whole_and_shallow(document: Json, depth: nat) -> bool
    decreases depth,
{
    match document {
        Json::Number(JsonNumber::Float(_)) => false,
        Json::Array(items) => depth > 0 && forall|i: int|
            0 <= i < items.len() ==> whole_and_shallow(#[trigger] items[i], (depth - 1) as nat),
        Json::Object(members) => depth > 0 && forall|key: Seq<char>| #[trigger]
            members.contains_key(key) ==> whole_and_shallow(members[key], (depth - 1) as nat),
        _ => true,
    }
}

/// Whether two documents are the same up to the values of their floats.
pub open spec fn alike(a: Json, b: Json) -> bool
    decreases a,
{
    match (a, b) {
        (Json::Number(JsonNumber::Float(_)), Json::Number(JsonNumber::Float(_))) => true,
        (Json::Array(items), Json::Array(others)) => items.len() == others.len() && forall|i: int|
            0 <= i < items.len() ==> alike(#[trigger] items[i], others[i]),
        (Json::Object(members), Json::Object(others)) => members.dom() == others.dom() && forall|
            key: Seq<char>,
        | #[trigger]
            members.contains_key(key) ==> alike(members[key], others[key]),
        _ => a == b,
    }
}

/// A member that is shallow enough can be put into a shallow object.
pub(crate) proof fn lemma_insert_depth(members: Members, key: Seq<char>, value: Json, depth: nat)
    requires
        whole_and_shallow(Json::Object(members), depth + 1),
        whole_and_shallow(value, depth),
    ensures
        whole_and_shallow(Json::Object(members.insert(key, value)), depth + 1),
{
    let object = Json::Object(members);
    let more = members.insert(key, value);
    assert forall|k: Seq<char>| #[trigger] more.contains_key(k) implies whole_and_shallow(
        more[k],
        depth,
    ) by {
        if k != key {
            assert(object->Object_0.contains_key(k));
        }
    }
}

/// The depth to which `serde_json` reads nested documents.
pub const DEPTH_LIMIT: u8 = 127;

/// Whether a document is one that reads back as it was written: `serde_json`
/// may round a float, and does not read what is nested too deeply.
pub open spec fn reads_back(document: Json) -> bool {
    whole_and_shallow(document, DEPTH_LIMIT as nat)
}

/// Documents of `serde_json`; what one holds is `json_of`.
#[verifier::external_type_specification]
#[verifier::external_body]
pub struct ExValue(serde_json::Value);

/// Objects of `serde_json`; what one holds is `members_of`.
#[verifier::external_type_specification]
#[verifier::external_body]
#[verifier::reject_recursive_types(K)]
#[verifier::reject_recursive_types(V)]
pub struct ExObject<K, V>(serde_json::Map<K, V>);

/// Errors of `serde_json`.
#[verifier::external_type_specification]
#[verifier::external_body]
pub struct ExJsonError(serde_json::Error);

/// The document that a `Value` holds: the variants are those of `Value` and of
/// the number in it, with a float given by the text `serde_json` writes it as.
pub uninterp spec fn json_of(value: serde_json::Value) -> Json;

/// The members that an object holds.
pub uninterp spec fn members_of(object: serde_json::Map<String, serde_json::Value>) -> Members;

/// What `serde_json::from_slice` reads from bytes; none where it fails.
pub uninterp spec fn json_parsed(bytes: Seq<u8>) -> Option<Json>;

/// The bytes that `serde_json::to_vec` writes for a document.
pub uninterp spec fn json_written(document: Json) -> Seq<u8>;

/// `Value::as_str` gives the content of a text, and nothing for other documents.
pub assume_specification[ serde_json::Value::as_str ](value: &serde_json::Value) -> (text: Option<&str>)
    ensures
        match text {
            Some(text) => json_of(*value).text() == Some(text@),
            None => json_of(*value).text() is None,
        },
;

/// `Value::as_array` gives the items of an array, and nothing for other
/// documents.
pub assume_specification[ serde_json::Value::as_array ](value: &serde_json::Value) -> (items: Option<
    &Vec<serde_json::Value>,
>)
    ensures
        match items {
            Some(items) => json_of(*value).items() == Some(
                items@.map_values(|item: serde_json::Value| json_of(item)),
            ),
            None => json_of(*value).items() is None,
        },
;

/// `Value::as_u64` gives a whole number that is not negative, and nothing for
/// other documents.
pub assume_specification[ serde_json::Value::as_u64 ](value: &serde_json::Value) -> (number: Option<u64>)
    ensures
        number == json_of(*value).unsigned(),
;

/// `Value::as_i64` gives a whole number that fits, and nothing for other
/// documents.
pub assume_specification[ serde_json::Value::as_i64 ](value: &serde_json::Value) -> (number: Option<i64>)
    ensures
        number == json_of(*value).signed(),
;

/// `Value::is_number` tells numbers from other documents.
pub assume_specification[ serde_json::Value::is_number ](value: &serde_json::Value) -> (yes: bool)
    ensures
        yes == (json_of(*value) is Number),
;

/// `Value::is_null` tells the null document from others.
pub assume_specification[ serde_json::Value::is_null ](value: &serde_json::Value) -> (yes: bool)
    ensures
        yes == (json_of(*value) is Null),
;

/// `Value::as_object_mut` lends the members of an object, and nothing for
/// other documents; what becomes of the members becomes of the object.
pub assume_specification[ serde_json::Value::as_object_mut ](value: &mut serde_json::Value) -> (members: Option<
    &mut serde_json::Map<String, serde_json::Value>,
>)
    ensures
        match members {
            Some(members) => json_of(*old(value)) == Json::Object(members_of(*members)) && json_of(
                *final(value),
            ) == Json::Object(members_of(*final(members))),
            None => json_of(*old(value)) !is Object && *final(value) == *old(value),
        },
;

/// `Map::new` makes an object without members.
pub assume_specification[ serde_json::Map::<String, serde_json::Value>::new ]() -> (object: serde_json::Map<String, serde_json::Value>)
    ensures
        members_of(object) == Members::empty(),
;

/// `Map::insert` sets a member and returns the one it replaces.
pub assume_specification[ serde_json::Map::<String, serde_json::Value>::insert ](
    object: &mut serde_json::Map<String, serde_json::Value>,
    k: String,
    v: serde_json::Value,
) -> (former: Option<serde_json::Value>)
    ensures
        members_of(*final(object)) == members_of(*old(object)).insert(k@, json_of(v)),
        match former {
            Some(w) => members_of(*old(object)).contains_key(k@) && members_of(*old(object))[k@]
                == json_of(w),
            None => !members_of(*old(object)).contains_key(k@),
        },
;

/// `Map::remove` takes a member out and returns it.
#[verifier::external_body]
pub(crate) fn remove_member(
    object: &mut serde_json::Map<String, Value>,
    key: &str,
) -> (removed: Option<Value>)
    ensures
        members_of(*final(object)) == members_of(*old(object)).remove(key@),
        match removed {
            Some(v) => members_of(*old(object)).contains_key(key@) && members_of(*old(object))[key@]
                == json_of(v),
            None => !members_of(*old(object)).contains_key(key@),
        },
{
    object.remove(key)
}

/// Indexing a `Value` by a text gives the member of that name, or null.
#[verifier::external_body]
pub(crate) fn member<'a>(value: &'a Value, key: &str) -> (found: &'a Value)
    ensures
        json_of(*found) == json_of(*value).at(key@),
{
    &value[key]
}

/// `Value::get` by a text gives the member of that name, if there is one.
#[verifier::external_body]
pub(crate) fn get_member<'a>(value: &'a Value, key: &str) -> (found: Option<&'a Value>)
    ensures
        match found {
            Some(v) => json_of(*value).has(key@) && json_of(*v) == json_of(*value).at(key@),
            None => !json_of(*value).has(key@),
        },
{
    value.get(key)
}

/// Mutable indexing of an object by a text lends the member of that name,
/// which is made as null where it is missing; what becomes of the member
/// becomes of the object.
#[verifier::external_body]
pub(crate) fn member_mut<'a>(value: &'a mut Value, key: &str) -> (found: &'a mut Value)
    requires
        json_of(*old(value)) is Object,
    ensures
        json_of(*found) == json_of(*old(value)).at(key@),
        json_of(*final(value)) == Json::Object(
            json_of(*old(value))->Object_0.insert(key@, json_of(*final(found))),
        ),
{
    &mut value[key]
}

/// `Value::clone` makes a document that holds the same.
#[verifier::external_body]
pub(crate) fn copy_value(value: &Value) -> (copy: Value)
    ensures
        json_of(copy) == json_of(*value),
{
    value.clone()
}

/// `Value::Null` is the null document.
#[verifier::external_body]
pub(crate) fn null_value() -> (value: Value)
    ensures
        json_of(value) == Json::Null,
{
    Value::Null
}

/// `Value::from` makes a document of a text.
#[verifier::external_body]
pub(crate) fn text_value(text: &str) -> (value: Value)
    ensures
        json_of(value) == Json::Text(text@),
{
    Value::from(text)
}

/// `Value::from` makes a document of a whole number.
#[verifier::external_body]
pub(crate) fn number_value(number: i64) -> (value: Value)
    ensures
        json_of(value) == whole_number(number as int),
{
    Value::from(number)
}

/// `Value::from` makes an array of documents.
#[verifier::external_body]
pub(crate) fn array_value(items: Vec<Value>) -> (value: Value)
    ensures
        json_of(value) == Json::Array(items@.map_values(|item: Value| json_of(item))),
{
    Value::from(items)
}

/// `Value::from` makes a document of an object.
#[verifier::external_body]
pub(crate) fn object_value(object: serde_json::Map<String, Value>) -> (value: Value)
    ensures
        json_of(value) == Json::Object(members_of(object)),
{
    Value::from(object)
}

/// `serde_json::from_slice` reads a document from bytes. What it reads, and
/// on which bytes it fails, is a function of the bytes.
#[verifier::external_body]
pub(crate) fn parse_json(bytes: &[u8]) -> (parsed: Result<Value, serde_json::Error>)
    ensures
        match parsed {
            Ok(value) => json_parsed(bytes@) == Some(json_of(value)),
            Err(_) => json_parsed(bytes@) is None,
        },
{
    serde_json::from_slice(bytes)
}

/// `serde_json::to_vec` writes a document as bytes. On a `Value` it does not
/// fail, and what it writes is a function of what the value holds. If
/// `serde_json::from_slice` reads that back at all, it reads the same document
/// up to its floats, which it may round. It does read it back where no float
/// occurs and nothing is nested too deeply. Whether it reads back a float next
/// to the greatest, which it may round beyond that and then refuse, is not
/// stated.
#[verifier::external_body]
pub(crate) fn write_json(value: &Value) -> (written: Result<Vec<u8>, serde_json::Error>)
    ensures
        written is Ok,
        written->Ok_0@ == json_written(json_of(*value)),
        reads_back(json_of(*value)) ==> json_parsed(written->Ok_0@) == Some(json_of(*value)),
        json_parsed(written->Ok_0@) matches Some(read) ==> alike(read, json_of(*value)),
{
    serde_json::to_vec(value)
}

/// Reads a document from bytes.
pub fn read_document(bytes: &[u8]) -> (document: Option<Value>)
    ensures
        match document {
            Some(value) => json_parsed(bytes@) == Some(json_of(value)),
            None => json_parsed(bytes@) is None,
        },
{
    match parse_json(bytes) {
        Ok(value) => Some(value),
        Err(_) => None,
    }
}

/// Whether a document is the given text.
pub fn is_text(value: &Value, text: &str) -> (yes: bool)
    ensures
        yes == (json_of(*value) == Json::Text(text@)),
{
    match value.as_str() {
        Some(found) => crate::text::same_text(found, text),
        None => false,
    }
}

}
