//! What the proxy does with the messages that pass through it.

use crate::documents::{
    after_message, nudge_notification, nudge_open_files, nudged, track_open_file, Documents,
    OpenFiles,
};
use crate::framing::{frame, frame_round_trip, framed, reading, Reading};
use crate::globs::{glob_accepted, GlobStyle};
use crate::json::{
    alike, get_member, is_text, json_of, json_parsed, json_written, member, member_mut, read_document,
    reads_back, remove_member, whole_and_shallow, Json, DEPTH_LIMIT,
};
use crate::messages::{
    encode, lemma_reply_depth, on_the_wire, replies_have_the_id_and_no_error, reply, reply_json,
    understood, understood_but_floats,
};
use crate::registration::{
    come_of, compiled_from, optional_text, pattern_views, patterns_of, refused_of, refused_views,
    requests_in, short_patterns_are_all_watched, sort_patterns, Compiled, Extracted, RefusedPattern,
    WatchedPattern,
};
use crate::watching::{change_notification, path_views, ChangeKind, FilePath, WatchTable};
use serde_json::Value;
use vstd::prelude::*;
use vstd::string::*;

verus! {

/// Whether a message publishes diagnostics for a numbered version of a
/// document.
pub open spec fn has_numbered_diagnostics(message: Json) -> bool {
    message.at("method"@) == Json::Text("textDocument/publishDiagnostics"@) && message.at(
        "params"@,
    ).at("version"@) is Number
}

/// A message without the version among its parameters.
pub open spec fn without_version(message: Json) -> Json {
    Json::Object(
        message->Object_0.insert(
            "params"@,
            Json::Object(message.at("params"@)->Object_0.remove("version"@)),
        ),
    )
}

/// The body of what goes to the client for a message of the server, given the
/// document that the message is parsed to: the message as it is, or diagnostics
/// without their version.
pub open spec fn passed_body(parsed: Option<Json>, raw: Seq<u8>) -> Seq<u8> {
    match parsed {
        Some(message) => if has_numbered_diagnostics(message) {
            json_written(without_version(message))
        } else {
            raw
        },
        None => raw,
    }
}

/// What goes to the client for a message of the server.
pub open spec fn passed_on(parsed: Option<Json>, raw: Seq<u8>) -> Seq<u8> {
    framed(passed_body(parsed, raw))
}

/// Whether a body passes as it is.
pub open spec fn passes_unchanged(body: Seq<u8>) -> bool {
    passed_body(json_parsed(body), body) == body
}

/// Whether the client gets the diagnostics without their version when it parses
/// what is passed on to it. Those that may not read back just as they are
/// written it gets up to their floats, if it can parse them.
pub open spec fn strip_is_understood(message: Json) -> bool {
    has_numbered_diagnostics(message) ==> {
        &&& reads_back(without_version(message)) ==> understood(without_version(message))
        &&& understood_but_floats(without_version(message))
    }
}

/// The document in an optional value.
pub open spec fn optional_json(value: Option<Value>) -> Option<Json> {
    match value {
        Some(value) => Some(json_of(value)),
        None => None,
    }
}

/// Takes the version out of diagnostics and leaves any other message as it is.
pub fn maybe_strip_diagnostics_version(parsed: Option<Value>, raw: &[u8]) -> (message: Vec<u8>)
    ensures
        message@ == passed_on(optional_json(parsed), raw@),
        optional_json(parsed) matches Some(document) ==> strip_is_understood(document),
        optional_json(parsed) == json_parsed(raw@) ==> passes_unchanged(
            passed_body(optional_json(parsed), raw@),
        ),
{
    let mut value: Value = match parsed {
        Some(value) => value,
        None => {
            return frame(raw);
        },
    };
    if !is_text(member(&value, "method"), "textDocument/publishDiagnostics") {
        return frame(raw);
    }
    if !member(member(&value, "params"), "version").is_number() {
        return frame(raw);
    }
    let params: &mut Value = member_mut(&mut value, "params");
    match params.as_object_mut() {
        Some(members) => {
            remove_member(members, "version");
        },
        None => {},
    }
    proof {
        let document = without_version(optional_json(parsed)->Some_0);
        assert(json_of(value) == document);
        assert(understood_but_floats(document) ==> {
            json_parsed(json_written(document)) matches Some(read)
                ==> !has_numbered_diagnostics(read)
        }) by {
            if let Some(read) = json_parsed(json_written(document)) {
                if understood_but_floats(document) {
                    lemma_alike_member(read, document, "params"@);
                    lemma_alike_member(read.at("params"@), document.at("params"@), "version"@);
                }
            }
        }
    }
    match encode(&value) {
        Some(message) => message,
        None => frame(raw),
    }
}

/// The URI of the document whose diagnostics lose their version, or `unknown`
/// where they name none.
pub open spec fn stripped_document(parsed: Option<Json>) -> Option<Seq<char>> {
    match parsed {
        Some(message) => if has_numbered_diagnostics(message) {
            match message.at("params"@).at("uri"@).text() {
                Some(uri) => Some(uri),
                None => Some("unknown"@),
            }
        } else {
            None
        },
        None => None,
    }
}

/// The URI of the document whose diagnostics lose their version.
pub fn stripped_uri(parsed: &Option<Value>) -> (uri: Option<String>)
    ensures
        optional_text(uri) == stripped_document(optional_json(*parsed)),
{
    match parsed {
        Some(message) => {
            let params: &Value = member(message, "params");
            if is_text(member(message, "method"), "textDocument/publishDiagnostics") && member(
                params,
                "version",
            ).is_number() {
                match member(params, "uri").as_str() {
                    Some(uri) => Some(uri.to_owned()),
                    None => Some("unknown".to_owned()),
                }
            } else {
                None
            }
        },
        None => None,
    }
}

/// Whether a message asks the client to register capabilities.
pub open spec fn registers_capability(parsed: Option<Json>) -> bool {
    parsed matches Some(message) && message.at("method"@) == Json::Text("client/registerCapability"@)
}

/// What is to be done about a message of the server.
pub enum ServerAction {
    /// The message is kept back: the patterns are to be watched, those that are
    /// refused are not, and the reply, if there is one, goes back to the server.
    Register {
        patterns: Vec<WatchedPattern>,
        refused: Vec<RefusedPattern>,
        reply: Option<Vec<u8>>,
    },
    /// The message goes on to the client in this form. Where a version was
    /// taken out of it, `stripped` names the document.
    Forward { message: Vec<u8>, stripped: Option<String> },
}

/// The reply to a request; a message without an id gets none.
pub open spec fn reply_to(message: Json) -> Option<Seq<u8>> {
    if message.has("id"@) {
        Some(on_the_wire(reply_json(message.at("id"@))))
    } else {
        None
    }
}

/// Whether the server gets the reply to a message when it parses it; a message
/// whose id may not read back as it is written is left out.
pub open spec fn reply_is_understood(message: Json) -> bool {
    message.has("id"@) && whole_and_shallow(message.at("id"@), (DEPTH_LIMIT - 1) as nat)
        ==> understood(reply_json(message.at("id"@)))
}

/// Whether an action is the right one for a message of the server, given the
/// document that the message is parsed to.
pub open spec fn right_action(action: ServerAction, parsed: Option<Json>, raw: Seq<u8>) -> bool {
    match action {
        ServerAction::Register { patterns, refused, reply } => {
            &&& registers_capability(parsed)
            &&& come_of(patterns@, refused@, requests_in(parsed->Some_0))
            &&& match reply {
                Some(reply) => reply_to(parsed->Some_0) == Some(reply@),
                None => reply_to(parsed->Some_0) is None,
            }
            &&& reply_is_understood(parsed->Some_0)
        },
        ServerAction::Forward { message, stripped } => {
            &&& !registers_capability(parsed)
            &&& message@ == passed_on(parsed, raw)
            &&& optional_text(stripped) == stripped_document(parsed)
            &&& parsed matches Some(document) ==> strip_is_understood(document)
            &&& parsed == json_parsed(raw) ==> passes_unchanged(passed_body(parsed, raw))
        },
    }
}

/// What is to be done about a message of the server, given the document that
/// it is parsed to.
pub fn server_action(parsed: Option<Value>, raw: &[u8]) -> (action: ServerAction)
    ensures
        right_action(action, optional_json(parsed), raw@),
{
    if let Some(message) = &parsed {
        if is_text(member(message, "method"), "client/registerCapability") {
            let extracted: Extracted = sort_patterns(message);
            proof {
                let id = json_of(*message).at("id"@);
                if whole_and_shallow(id, (DEPTH_LIMIT - 1) as nat) {
                    lemma_reply_depth(id, (DEPTH_LIMIT - 1) as nat);
                }
            }
            let answer: Option<Vec<u8>> = match get_member(message, "id") {
                Some(id) => encode(&reply(id)),
                None => None,
            };
            return ServerAction::Register {
                patterns: extracted.patterns,
                refused: extracted.refused,
                reply: answer,
            };
        }
    }
    let stripped: Option<String> = stripped_uri(&parsed);
    ServerAction::Forward { message: maybe_strip_diagnostics_version(parsed, raw), stripped }
}

/// What is to be done about a message of the server.
pub fn on_server_message(raw: &[u8]) -> (action: ServerAction)
    ensures
        right_action(action, json_parsed(raw@), raw@),
{
    server_action(read_document(raw), raw)
}

/// The open documents after a message of the client, where they are followed
/// at all and the message can be parsed.
pub open spec fn followed(follow: bool, files: Documents, parsed: Option<Json>) -> Documents {
    match parsed {
        Some(message) => if follow {
            after_message(files, message)
        } else {
            files
        },
        None => files,
    }
}

/// Follows a message of the client in the record of open documents, if they
/// are to be followed, and makes the message that goes on to the server: the
/// same one.
pub fn on_client_message(raw: &[u8], follow: bool, files: &mut OpenFiles) -> (message: Vec<u8>)
    ensures
        message@ == framed(raw@),
        final(files)@ == followed(follow, old(files)@, json_parsed(raw@)),
{
    if follow {
        match read_document(raw) {
            Some(document) => {
                track_open_file(&document, files);
            },
            None => {},
        }
    }
    frame(raw)
}

/// What the server is to be told of a change of files: the notification, and
/// then, if open documents are to be nudged, a message for each of them. Where
/// there is no notification there is nothing to tell, and nothing changes.
pub fn on_file_event(
    table: &WatchTable,
    kind: &ChangeKind,
    paths: &Vec<FilePath>,
    notify_open_files: bool,
    files: &mut OpenFiles,
) -> (messages: Vec<Vec<u8>>)
    ensures
        match change_notification(table@, *kind, path_views(paths@)) {
            Some(notification) => {
                &&& messages@.len() == 1 + (if notify_open_files {
                    final(files).uris().len() as int
                } else {
                    0
                })
                &&& messages@[0]@ == on_the_wire(notification)
                &&& understood(notification)
                &&& forall|i: int|
                    1 <= i < messages@.len() ==> (#[trigger] messages@[i])@ == on_the_wire(
                        nudge_notification(
                            final(files).uris()[i - 1],
                            final(files)@[final(files).uris()[i - 1]],
                        ),
                    ) && understood(
                        nudge_notification(
                            final(files).uris()[i - 1],
                            final(files)@[final(files).uris()[i - 1]],
                        ),
                    )
                &&& final(files)@ == if notify_open_files {
                    nudged(old(files)@)
                } else {
                    old(files)@
                }
                &&& final(files).uris() == old(files).uris()
                &&& notify_open_files ==> final(files).uris().no_duplicates()
                    && final(files).uris().to_set() == final(files)@.dom()
            },
            None => messages@.len() == 0 && *final(files) == *old(files),
        },
{
    let mut messages: Vec<Vec<u8>> = Vec::new();
    match table.change_message(kind, paths) {
        Some(message) => {
            messages.push(message);
            if notify_open_files {
                let mut nudges: Vec<Vec<u8>> = nudge_open_files(files);
                messages.append(&mut nudges);
            }
        },
        None => {},
    }
    messages
}

/// Stripping takes the version out and nothing else: every other member of the
/// message, and every other parameter, is kept.
pub proof fn only_the_version_goes(message: Json, key: Seq<char>)
    requires
        has_numbered_diagnostics(message),
    ensures
        !without_version(message).at("params"@).has("version"@),
        key != "params"@ ==> without_version(message).has(key) == message.has(key)
            && without_version(message).at(key) == message.at(key),
        key != "version"@ ==> without_version(message).at("params"@).has(key) == message.at(
            "params"@,
        ).has(key) && without_version(message).at("params"@).at(key) == message.at("params"@).at(
            key,
        ),
{
}

/// What has been stripped once is not stripped again.
pub proof fn stripping_is_done_once(message: Json)
    requires
        has_numbered_diagnostics(message),
    ensures
        !has_numbered_diagnostics(without_version(message)),
{
}

/// A second pass changes nothing: what goes to the client for a message of the
/// server, sent through the proxy once more, is the same again.
pub proof fn a_second_pass_changes_nothing(
    first: ServerAction,
    second: ServerAction,
    raw: Seq<u8>,
)
    requires
        right_action(first, json_parsed(raw), raw),
        first is Forward,
        right_action(
            second,
            json_parsed(passed_body(json_parsed(raw), raw)),
            passed_body(json_parsed(raw), raw),
        ),
    ensures
        second is Forward,
        second->message@ == first->message@,
{
    let body = passed_body(json_parsed(raw), raw);
    reveal_strlit("client/registerCapability");
    reveal_strlit("textDocument/publishDiagnostics");
    assert("client/registerCapability"@.len() != "textDocument/publishDiagnostics"@.len());
    if let Some(message) = json_parsed(raw) {
        if has_numbered_diagnostics(message) {
            if let Some(read) = json_parsed(body) {
                lemma_alike_member(read, without_version(message), "method"@);
            }
        }
    }
}

/// Documents that are the same up to floats have such members.
proof fn lemma_alike_member(a: Json, b: Json, key: Seq<char>)
    requires
        alike(a, b),
    ensures
        alike(a.at(key), b.at(key)),
{
    if let (Json::Object(members), Json::Object(others)) = (a, b) {
        assert(members.contains_key(key) == others.contains_key(key)) by {
            assert(members.dom().contains(key) == others.dom().contains(key));
        }
    }
}

/// A request to register capabilities does not go on to the client. The server
/// gets a reply with the id of the request, if the request has one.
pub proof fn registration_is_kept_back(action: ServerAction, message: Json, raw: Seq<u8>)
    requires
        right_action(action, Some(message), raw),
        message.at("method"@) == Json::Text("client/registerCapability"@),
    ensures
        action is Register,
        action->reply is Some <==> message.has("id"@),
        action->reply matches Some(reply) ==> reply@ == on_the_wire(reply_json(message.at("id"@))),
{
}

/// The client reads from the proxy what the server sent, byte by byte, unless
/// it is a request to register capabilities or diagnostics for a numbered
/// version.
pub proof fn server_messages_pass_unchanged(
    action: ServerAction,
    parsed: Option<Json>,
    raw: Seq<u8>,
    rest: Seq<u8>,
    at_end: bool,
)
    requires
        right_action(action, parsed, raw),
        !registers_capability(parsed),
        parsed matches Some(message) ==> !has_numbered_diagnostics(message),
        raw.len() <= usize::MAX,
    ensures
        action is Forward,
        reading(action->message@ + rest, at_end) == (Reading::Message {
            body: raw,
            used: action->message@.len(),
        }),
{
    frame_round_trip(raw, rest, at_end);
}

/// The client reads diagnostics for a numbered version without the version.
pub proof fn diagnostics_pass_without_version(
    action: ServerAction,
    message: Json,
    raw: Seq<u8>,
    rest: Seq<u8>,
    at_end: bool,
)
    requires
        right_action(action, Some(message), raw),
        has_numbered_diagnostics(message),
    ensures
        action is Forward,
        reading(action->message@ + rest, at_end) == (Reading::Message {
            body: json_written(without_version(message)),
            used: action->message@.len(),
        }),
{
    reveal_strlit("client/registerCapability");
    reveal_strlit("textDocument/publishDiagnostics");
    assert("client/registerCapability"@.len() != "textDocument/publishDiagnostics"@.len());
    let body = json_written(without_version(message));
    assert(action->message.len() == action->message@.len());
    frame_round_trip(body, rest, at_end);
}

proof fn lemma_proxy_methods_differ()
    ensures
        "client/registerCapability"@ != "textDocument/publishDiagnostics"@,
{
    reveal_strlit("client/registerCapability");
    reveal_strlit("textDocument/publishDiagnostics");
    assert("client/registerCapability"@.len() != "textDocument/publishDiagnostics"@.len());
}

/// Diagnostics with a number for their version go to the client without it,
/// whatever else they hold: what the client reads is written from a document
/// whose parameters have no version and that is otherwise the same, and what the
/// client parses has no version among its parameters.
pub proof fn every_numbered_version_is_taken_out(
    action: ServerAction,
    message: Json,
    raw: Seq<u8>,
    rest: Seq<u8>,
    at_end: bool,
    key: Seq<char>,
)
    requires
        right_action(action, Some(message), raw),
        message.at("method"@) == Json::Text("textDocument/publishDiagnostics"@),
        message.at("params"@).at("version"@) is Number,
    ensures
        action is Forward,
        ({
            let document = without_version(message);
            let body = json_written(document);
            &&& reading(action->message@ + rest, at_end) == (Reading::Message {
                body,
                used: action->message@.len(),
            })
            &&& document is Object
            &&& document.at("params"@) is Object
            &&& !document.at("params"@).has("version"@)
            &&& key != "params"@ ==> document.has(key) == message.has(key) && document.at(key)
                == message.at(key)
            &&& key != "version"@ ==> document.at("params"@).has(key) == message.at("params"@).has(
                key,
            ) && document.at("params"@).at(key) == message.at("params"@).at(key)
            &&& json_parsed(body) matches Some(read) ==> !read.at("params"@).has("version"@)
            &&& message.at("params"@).at("uri"@) matches Json::Text(uri) ==> {
                &&& action->stripped is Some
                &&& action->stripped->Some_0@ == uri
            }
        }),
{
    lemma_proxy_methods_differ();
    let document = without_version(message);
    let body = json_written(document);
    diagnostics_pass_without_version(action, message, raw, rest, at_end);
    only_the_version_goes(message, key);
    if let Some(read) = json_parsed(body) {
        lemma_alike_member(read, document, "params"@);
        let left = read.at("params"@);
        let right = document.at("params"@);
        if left.has("version"@) {
            assert(left->Object_0.dom().contains("version"@));
            assert(right->Object_0.dom().contains("version"@));
        }
    }
}

/// What is passed on in place of diagnostics with a number for their version is
/// written from the message without that version, and does not depend on the
/// bytes that came.
pub proof fn stripped_diagnostics_are_written_anew(message: Json, raw: Seq<u8>)
    requires
        message.at("method"@) == Json::Text("textDocument/publishDiagnostics"@),
        message.at("params"@).at("version"@) is Number,
    ensures
        passed_on(Some(message), raw) == framed(
            json_written(
                Json::Object(
                    message->Object_0.insert(
                        "params"@,
                        Json::Object(message.at("params"@)->Object_0.remove("version"@)),
                    ),
                ),
            ),
        ),
{
}

/// Every other message is passed on byte by byte: what cannot be parsed, what
/// publishes no diagnostics, and diagnostics without a number for their version.
pub proof fn other_messages_are_passed_on(message: Json, raw: Seq<u8>)
    requires
        message.at("method"@) != Json::Text("textDocument/publishDiagnostics"@) || !(message.at(
            "params"@,
        ).at("version"@) is Number),
    ensures
        passed_on(Some(message), raw) == framed(raw),
        passed_on(None, raw) == framed(raw),
{
}

/// The client reads what the server sent, byte by byte, unless the method is
/// that of a registration, or that of diagnostics and the version is a number.
pub proof fn the_client_reads_what_was_sent(
    action: ServerAction,
    parsed: Option<Json>,
    raw: Seq<u8>,
    rest: Seq<u8>,
    at_end: bool,
)
    requires
        right_action(action, parsed, raw),
        parsed matches Some(message) ==> {
            &&& message.at("method"@) != Json::Text("client/registerCapability"@)
            &&& message.at("method"@) != Json::Text("textDocument/publishDiagnostics"@) || !(
            message.at("params"@).at("version"@) is Number)
        },
        raw.len() <= usize::MAX,
    ensures
        action is Forward,
        action->stripped is None,
        reading(action->message@ + rest, at_end) == (Reading::Message {
            body: raw,
            used: action->message@.len(),
        }),
{
    frame_round_trip(raw, rest, at_end);
}

/// A registration is kept back and answered as if it was accepted: the reply has
/// the id of the request and a null result. Without an id there is no reply.
pub proof fn registrations_are_accepted(
    action: ServerAction,
    message: Json,
    raw: Seq<u8>,
    rest: Seq<u8>,
    at_end: bool,
)
    requires
        right_action(action, Some(message), raw),
        message.at("method"@) == Json::Text("client/registerCapability"@),
    ensures
        action is Register,
        !message.has("id"@) ==> action->reply is None,
        message.has("id"@) ==> {
            let answer = reply_json(message.at("id"@));
            &&& action->reply is Some
            &&& reading(action->reply->Some_0@ + rest, at_end) == (Reading::Message {
                body: json_written(answer),
                used: action->reply->Some_0@.len(),
            })
            &&& answer.at("jsonrpc"@) == Json::Text("2.0"@)
            &&& answer.at("id"@) == message.at("id"@)
            &&& answer.has("result"@)
            &&& answer.at("result"@) is Null
            &&& !answer.has("error"@)
        },
{
    if message.has("id"@) {
        let id = message.at("id"@);
        let reply = action->reply->Some_0;
        assert(reply.len() == reply@.len());
        frame_round_trip(json_written(reply_json(id)), rest, at_end);
        replies_have_the_id_and_no_error(id, "result"@);
        replies_have_the_id_and_no_error(id, "error"@);
        reveal_strlit("error");
        reveal_strlit("jsonrpc");
        reveal_strlit("result");
        reveal_strlit("id");
        assert("error"@.len() == 5 && "jsonrpc"@.len() == 7 && "result"@.len() == 6 && "id"@.len()
            == 2);
    }
}

/// Each watcher that a registration asks for is handed out with its pattern, its
/// base and its mask, in order, where every pattern has at most 200 characters
/// and every platform accepts it.
pub proof fn what_is_asked_for_is_handed_out(
    action: ServerAction,
    message: Json,
    raw: Seq<u8>,
    i: int,
)
    requires
        right_action(action, Some(message), raw),
        message.at("method"@) == Json::Text("client/registerCapability"@),
        forall|j: int|
            0 <= j < requests_in(message).len() ==> {
                let pattern = (#[trigger] requests_in(message)[j]).pattern;
                pattern.len() <= 200 && glob_accepted(pattern, GlobStyle::SlashSeparates)
                    && glob_accepted(pattern, GlobStyle::BackslashSeparates)
            },
    ensures
        action is Register,
        action->patterns@.len() == requests_in(message).len(),
        action->refused@.len() == 0,
        0 <= i < requests_in(message).len() ==> {
            let pattern = action->patterns@[i]@;
            let request = requests_in(message)[i];
            pattern.glob.pattern == request.pattern && pattern.base == request.base
                && pattern.kind_mask == request.kind_mask
        },
{
    let requests = requests_in(message);
    let patterns = action->patterns@;
    let refused = action->refused@;
    let compiled = choose|compiled: Seq<Compiled>| #[trigger]
        compiled_from(compiled, requests) && pattern_views(patterns) == patterns_of(
            requests,
            compiled,
        ) && refused_views(refused) == refused_of(requests, compiled);
    short_patterns_are_all_watched(requests, compiled);
    assert(pattern_views(patterns).len() == patterns.len());
    assert(refused_views(refused).len() == refused.len());
    if 0 <= i < requests.len() {
        assert(pattern_views(patterns)[i] == patterns[i]@);
        assert(patterns_of(requests, compiled)[i].base == requests[i].base);
    }
}

/// The document whose diagnostics lose their version is named by its URI.
pub proof fn stripped_documents_are_named(message: Json, uri: Seq<char>)
    ensures
        message.at("method"@) == Json::Text("textDocument/publishDiagnostics"@) && message.at(
            "params"@,
        ).at("version"@) is Number ==> {
            &&& message.at("params"@).at("uri"@) == Json::Text(uri) ==> stripped_document(
                Some(message),
            ) == Some(uri)
            &&& !(message.at("params"@).at("uri"@) is Text) ==> stripped_document(Some(message))
                == Some("unknown"@)
        },
        message.at("method"@) != Json::Text("textDocument/publishDiagnostics"@) || !(message.at(
            "params"@,
        ).at("version"@) is Number) ==> stripped_document(Some(message)) is None,
        stripped_document(None) is None,
{
}

/// A value that was parsed stands for the document that it holds.
pub proof fn parsed_values_show_their_document(value: Value)
    ensures
        optional_json(Some(value)) == Some(json_of(value)),
        optional_json(None) is None,
{
}

/// The messages of a client are followed if and only if that is asked for and
/// they can be parsed.
pub proof fn clients_are_followed_if_asked(files: Documents, message: Json)
    ensures
        followed(true, files, Some(message)) == after_message(files, message),
        followed(false, files, Some(message)) == files,
        followed(true, files, None) == files,
        followed(false, files, None) == files,
{
}

}
