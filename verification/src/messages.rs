//! The messages that the proxy itself sends.

use crate::framing::{frame, frame_round_trip, framed, reading, Reading};
use crate::json::{
    alike, copy_value, json_of, json_parsed, json_written, lemma_insert_depth, null_value, object_value,
    reads_back, text_value, whole_and_shallow, write_json, Json, Members,
};
use serde_json::Value;
use vstd::prelude::*;
use vstd::string::*;

verus! {

/// A notification.
pub open spec fn notification_json(method: Seq<char>, params: Json) -> Json {
    Json::Object(
        Members::empty().insert("jsonrpc"@, Json::Text("2.0"@)).insert(
            "method"@,
            Json::Text(method),
        ).insert("params"@, params),
    )
}

/// The answer to a request that there is nothing to say but that it was
/// carried out.
pub open spec fn reply_json(id: Json) -> Json {
    Json::Object(
        Members::empty().insert("jsonrpc"@, Json::Text("2.0"@)).insert("result"@, Json::Null).insert(
            "id"@,
            id,
        ),
    )
}

/// A document as it goes over the wire.
pub open spec fn on_the_wire(document: Json) -> Seq<u8> {
    framed(json_written(document))
}

/// Whether the receiver of a document that is written gets that document when
/// it parses the bytes.
pub open spec fn understood(document: Json) -> bool {
    json_parsed(json_written(document)) == Some(document)
}

/// Whether what a receiver gets of a document that is written, if it can parse
/// the bytes, is that document up to its floats.
pub open spec fn understood_but_floats(document: Json) -> bool {
    json_parsed(json_written(document)) matches Some(read) ==> alike(read, document)
}

/// Makes a notification.
pub fn notification(method: &str, params: Value) -> (message: Value)
    ensures
        json_of(message) == notification_json(method@, json_of(params)),
{
    let mut object: serde_json::Map<String, Value> = serde_json::Map::new();
    object.insert(String::from_str("jsonrpc"), text_value("2.0"));
    object.insert(String::from_str("method"), text_value(method));
    object.insert(String::from_str("params"), params);
    object_value(object)
}

/// Makes the answer to the request with the given id.
pub fn reply(id: &Value) -> (message: Value)
    ensures
        json_of(message) == reply_json(json_of(*id)),
{
    let mut object: serde_json::Map<String, Value> = serde_json::Map::new();
    object.insert(String::from_str("jsonrpc"), text_value("2.0"));
    object.insert(String::from_str("result"), null_value());
    object.insert(String::from_str("id"), copy_value(id));
    object_value(object)
}

/// Writes a document and frames it. As writing a document does not fail, there
/// is always a message.
pub fn encode(message: &Value) -> (bytes: Option<Vec<u8>>)
    ensures
        bytes is Some,
        bytes->Some_0@ == on_the_wire(json_of(*message)),
        reads_back(json_of(*message)) ==> understood(json_of(*message)),
        understood_but_floats(json_of(*message)),
{
    match write_json(message) {
        Ok(body) => Some(frame(body.as_slice())),
        Err(_) => None,
    }
}

/// A notification is nested one deeper than its parameters.
pub(crate) proof fn lemma_notification_depth(method: Seq<char>, params: Json, depth: nat)
    requires
        whole_and_shallow(params, depth),
    ensures
        whole_and_shallow(notification_json(method, params), depth + 1),
{
    let start = Members::empty();
    let versioned = start.insert("jsonrpc"@, Json::Text("2.0"@));
    lemma_insert_depth(start, "jsonrpc"@, Json::Text("2.0"@), depth);
    lemma_insert_depth(versioned, "method"@, Json::Text(method), depth);
    lemma_insert_depth(
        versioned.insert("method"@, Json::Text(method)),
        "params"@,
        params,
        depth,
    );
}

/// A reply is nested one deeper than the id in it.
pub(crate) proof fn lemma_reply_depth(id: Json, depth: nat)
    requires
        whole_and_shallow(id, depth),
    ensures
        whole_and_shallow(reply_json(id), depth + 1),
{
    let start = Members::empty();
    let versioned = start.insert("jsonrpc"@, Json::Text("2.0"@));
    lemma_insert_depth(start, "jsonrpc"@, Json::Text("2.0"@), depth);
    lemma_insert_depth(versioned, "result"@, Json::Null, depth);
    lemma_insert_depth(versioned.insert("result"@, Json::Null), "id"@, id, depth);
}

/// A document that is shallow to one depth is so to every greater depth.
pub(crate) proof fn lemma_deeper(document: Json, less: nat, more: nat)
    requires
        whole_and_shallow(document, less),
        less <= more,
    ensures
        whole_and_shallow(document, more),
    decreases less,
{
    match document {
        Json::Array(items) => {
            assert forall|i: int| 0 <= i < items.len() implies whole_and_shallow(
                #[trigger] items[i],
                (more - 1) as nat,
            ) by {
                lemma_deeper(items[i], (less - 1) as nat, (more - 1) as nat);
            }
        },
        Json::Object(members) => {
            assert forall|key: Seq<char>| #[trigger]
                members.contains_key(key) implies whole_and_shallow(
                members[key],
                (more - 1) as nat,
            ) by {
                lemma_deeper(members[key], (less - 1) as nat, (more - 1) as nat);
            }
        },
        _ => {},
    }
}

proof fn lemma_names_differ()
    ensures
        "jsonrpc"@ != "method"@,
        "jsonrpc"@ != "params"@,
        "method"@ != "params"@,
        "jsonrpc"@ != "result"@,
        "jsonrpc"@ != "id"@,
        "result"@ != "id"@,
{
    reveal_strlit("jsonrpc");
    reveal_strlit("method");
    reveal_strlit("params");
    reveal_strlit("result");
    reveal_strlit("id");
    assert("jsonrpc"@.len() == 7 && "method"@.len() == 6 && "params"@.len() == 6 && "result"@.len()
        == 6 && "id"@.len() == 2);
    assert("method"@[0] != "params"@[0]);
}

/// A notification has the version of the protocol, the method and the
/// parameters, and no other members: it has no id, so nobody answers it.
pub proof fn notifications_have_three_members(method: Seq<char>, params: Json, key: Seq<char>)
    ensures
        notification_json(method, params).at("jsonrpc"@) == Json::Text("2.0"@),
        notification_json(method, params).at("method"@) == Json::Text(method),
        notification_json(method, params).at("params"@) == params,
        notification_json(method, params).has(key) <==> key == "jsonrpc"@ || key == "method"@ || key
            == "params"@,
{
    lemma_names_differ();
}

/// A reply has the version of the protocol, the id of the request and a result
/// that is null, and no other members: no error is among them.
pub proof fn replies_have_the_id_and_no_error(id: Json, key: Seq<char>)
    ensures
        reply_json(id).at("jsonrpc"@) == Json::Text("2.0"@),
        reply_json(id).at("id"@) == id,
        reply_json(id).at("result"@) is Null,
        reply_json(id).has(key) <==> key == "jsonrpc"@ || key == "result"@ || key == "id"@,
{
    lemma_names_differ();
}

/// What goes over the wire is read back as the body that was written, and
/// nothing of what follows is used.
pub proof fn the_wire_carries_what_is_written(document: Json, rest: Seq<u8>, at_end: bool)
    requires
        json_written(document).len() <= usize::MAX,
    ensures
        reading(on_the_wire(document) + rest, at_end) == (Reading::Message {
            body: json_written(document),
            used: on_the_wire(document).len(),
        }),
        json_written(document).is_suffix_of(on_the_wire(document)),
{
    frame_round_trip(json_written(document), rest, at_end);
    let body = json_written(document);
    let wire = on_the_wire(document);
    assert(wire.subrange(wire.len() - body.len(), wire.len() as int) == body);
}

}
