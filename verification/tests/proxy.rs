use notify_lsp_proxy::documents::{nudge_open_files, OpenFiles};
use notify_lsp_proxy::framing::{frame, read_message, ReadOutcome};
use notify_lsp_proxy::globs::GlobRefusal;
use notify_lsp_proxy::proxy::{
    maybe_strip_diagnostics_version, on_client_message, on_file_event, on_server_message,
    server_action, stripped_uri, ServerAction,
};
use notify_lsp_proxy::watching::{ChangeKind, FilePath, WatchTable};
use serde_json::Value;

fn forwarded(raw: &[u8]) -> Vec<u8> {
    match on_server_message(raw) {
        ServerAction::Forward { message, .. } => message,
        ServerAction::Register { .. } => panic!("not forwarded"),
    }
}

#[test]
fn other_messages_pass_unchanged() {
    for raw in [
        &b"{ \"method\" : \"x\" }"[..],
        b"not json",
        b"",
        b"\xff\x00",
        b"[1, 2]",
        b"{\"method\":\"textDocument/publishDiagnostics\",  \"params\":{\"uri\":\"a\"}}",
        b"{\"method\":\"textDocument/publishDiagnostics\",  \"params\":{\"version\":null}}",
        b"{\"method\":\"textDocument/publishDiagnostics\",  \"params\":{\"version\":\"1\"}}",
        b"{\"method\":\"textDocument/other\",  \"params\":{\"version\":1}}",
        b"{\"method\":1,\"params\":{\"version\":1}}",
    ] {
        let message = forwarded(raw);
        assert_eq!(message, frame(raw));
        match read_message(&message, false) {
            ReadOutcome::Message { body, used } => {
                assert_eq!(body, raw.to_vec());
                assert_eq!(used, message.len());
            }
            _ => panic!("no message"),
        }
    }
}

#[test]
fn diagnostics_lose_their_version() {
    let raw = br#"{"method":"textDocument/publishDiagnostics","jsonrpc":"2.0","params":{"version": 3,"uri":"file:///a","diagnostics":[{"x":1.5,"y":[true,null,-2]}]}}"#;
    let body = br#"{"jsonrpc":"2.0","method":"textDocument/publishDiagnostics","params":{"diagnostics":[{"x":1.5,"y":[true,null,-2]}],"uri":"file:///a"}}"#;
    assert_eq!(forwarded(raw), frame(body));
    assert_eq!(forwarded(body), frame(body));
}

#[test]
fn any_number_is_a_version() {
    for version in ["0", "-1", "1.5", "1e3", "18446744073709551615"] {
        let raw = format!(
            r#"{{"method":"textDocument/publishDiagnostics","params":{{"version":{version}}}}}"#
        );
        let body = br#"{"method":"textDocument/publishDiagnostics","params":{}}"#;
        assert_eq!(forwarded(raw.as_bytes()), frame(body));
    }
}

#[test]
fn a_second_pass_changes_nothing() {
    for raw in [
        r#"{"method":"textDocument/publishDiagnostics","params":{"version":2.5,"uri":"u","x":[1.5,1e300,-0.0]}}"#,
        r#"{"method":"textDocument/publishDiagnostics","params":{"version":1}}"#,
        r#"{"method" : "other"}"#,
        "not json",
    ] {
        let first = forwarded(raw.as_bytes());
        let body = match read_message(&first, true) {
            ReadOutcome::Message { body, .. } => body,
            _ => panic!("no message"),
        };
        assert_eq!(forwarded(&body), first);
    }
}

#[test]
fn stripped_documents_are_named() {
    let named = |params: &str| {
        let raw =
            format!(r#"{{"method":"textDocument/publishDiagnostics","params":{params}}}"#);
        match on_server_message(raw.as_bytes()) {
            ServerAction::Forward { stripped, .. } => stripped,
            ServerAction::Register { .. } => panic!("not forwarded"),
        }
    };
    assert_eq!(named(r#"{"version":1,"uri":"file:///a"}"#), Some(String::from("file:///a")));
    assert_eq!(named(r#"{"version":1.5}"#), Some(String::from("unknown")));
    assert_eq!(named(r#"{"uri":"file:///a"}"#), None);
    let parsed: Value = serde_json::from_str(r#"{"params":{"version":1}}"#).unwrap();
    assert_eq!(stripped_uri(&Some(parsed)), None);
    assert_eq!(stripped_uri(&None), None);
}

#[test]
fn what_was_not_parsed_is_passed_on() {
    assert_eq!(maybe_strip_diagnostics_version(None, b"abc"), frame(b"abc"));
    assert_eq!(maybe_strip_diagnostics_version(Some(Value::Null), b"abc"), frame(b"abc"));
}

#[test]
fn registrations_are_kept_back_and_answered() {
    for id in ["7", "\"x\"", "null", "{\"a\":[1]}"] {
        let raw = format!(
            r#"{{"id":{id},"method":"client/registerCapability","params":{{"registrations":[{{"method":"workspace/didChangeWatchedFiles","registerOptions":{{"watchers":[{{"globPattern":"**/*.cs"}}]}}}}]}}}}"#
        );
        match on_server_message(raw.as_bytes()) {
            ServerAction::Register { patterns, reply, .. } => {
                assert_eq!(patterns.len(), 1);
                assert!(patterns[0].glob_matches(b"a.cs"));
                let body = format!(r#"{{"id":{id},"jsonrpc":"2.0","result":null}}"#);
                assert_eq!(reply, Some(frame(body.as_bytes())));
            }
            ServerAction::Forward { .. } => panic!("forwarded"),
        }
    }
}

#[test]
fn refused_patterns_are_told() {
    let raw = br#"{"method":"client/registerCapability","params":{"registrations":[{"method":"workspace/didChangeWatchedFiles","registerOptions":{"watchers":[{"globPattern":"a{b"},{"globPattern":"**/*.{cs,csproj}"}]}}]}}"#;
    match on_server_message(raw) {
        ServerAction::Register { patterns, refused, reply } => {
            assert_eq!(patterns.len(), 1);
            assert!(patterns[0].glob_matches(b"x/y.csproj"));
            assert_eq!(refused.len(), 1);
            assert_eq!(refused[0].pattern, "a{b");
            assert_eq!(refused[0].failure.refusal, GlobRefusal::Invalid);
            assert_eq!(reply, None);
        }
        ServerAction::Forward { .. } => panic!("forwarded"),
    }
}

#[test]
fn without_id_there_is_no_answer() {
    match on_server_message(br#"{"method":"client/registerCapability"}"#) {
        ServerAction::Register { patterns, reply, .. } => {
            assert_eq!(patterns.len(), 0);
            assert_eq!(reply, None);
        }
        ServerAction::Forward { .. } => panic!("forwarded"),
    }
}

#[test]
fn the_action_follows_the_parsed_message() {
    let parsed: Value = serde_json::from_str(r#"{"id":1,"method":"client/registerCapability"}"#).unwrap();
    assert!(matches!(server_action(Some(parsed), b"raw"), ServerAction::Register { .. }));
    match server_action(None, b"raw") {
        ServerAction::Forward { message, .. } => assert_eq!(message, frame(b"raw")),
        ServerAction::Register { .. } => panic!("not forwarded"),
    }
}

const OPENING: &[u8] = br#"{"method":"textDocument/didOpen","params":{"textDocument":{"uri":"u","text":"t","version":1}}}"#;

#[test]
fn client_messages_pass_unchanged() {
    let mut files = OpenFiles::new();
    assert_eq!(on_client_message(OPENING, true, &mut files), frame(OPENING));
    assert_eq!(on_client_message(b"not json", true, &mut files), frame(b"not json"));
    assert_eq!(nudge_open_files(&mut files).len(), 1);
}

#[test]
fn documents_are_followed_only_if_asked() {
    let mut files = OpenFiles::new();
    assert_eq!(on_client_message(OPENING, false, &mut files), frame(OPENING));
    assert_eq!(nudge_open_files(&mut files).len(), 0);
}

fn plain_path(text: &str) -> FilePath {
    FilePath {
        text: String::from(text),
        bytes: text.as_bytes().to_vec(),
        start: text.as_bytes().to_vec(),
        parts: Vec::new(),
    }
}

fn watching_everything() -> WatchTable {
    let mut table = WatchTable::new(plain_path("/work"));
    let raw = br#"{"method":"client/registerCapability","params":{"registrations":[{"method":"workspace/didChangeWatchedFiles","registerOptions":{"watchers":[{"globPattern":"**"}]}}]}}"#;
    if let ServerAction::Register { patterns, .. } = on_server_message(raw) {
        for pattern in patterns {
            table.register(pattern, None);
        }
    }
    table
}

#[test]
fn file_events_are_told_and_documents_nudged() {
    let table = watching_everything();
    let paths = vec![plain_path("/work/a")];
    let mut files = OpenFiles::new();
    on_client_message(OPENING, true, &mut files);
    let change = table.change_message(&ChangeKind::Create, &paths).unwrap();

    let messages = on_file_event(&table, &ChangeKind::Create, &paths, false, &mut files);
    assert_eq!(messages, vec![change.clone()]);

    let messages = on_file_event(&table, &ChangeKind::Create, &paths, true, &mut files);
    assert_eq!(messages.len(), 2);
    assert_eq!(messages[0], change);
    let nudge = String::from_utf8(messages[1].clone()).unwrap();
    assert!(nudge.contains(r#""version":2"#));
}

#[test]
fn events_that_are_not_reported_nudge_nothing() {
    let table = watching_everything();
    let mut files = OpenFiles::new();
    on_client_message(OPENING, true, &mut files);
    let paths = vec![plain_path("/work/a")];
    assert_eq!(on_file_event(&table, &ChangeKind::Access, &paths, true, &mut files).len(), 0);
    assert_eq!(on_file_event(&table, &ChangeKind::Create, &Vec::new(), true, &mut files).len(), 0);
    let nudge = String::from_utf8(nudge_open_files(&mut files).pop().unwrap()).unwrap();
    assert!(nudge.contains(r#""version":2"#));
}
