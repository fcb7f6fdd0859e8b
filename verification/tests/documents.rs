use notify_lsp_proxy::documents::{nudge_open_files, track_open_file, OpenFiles};
use serde_json::Value;

fn json(text: &str) -> Value {
    serde_json::from_str(text).unwrap()
}

fn track(files: &mut OpenFiles, method: &str, params: &str) {
    let message = json(&format!(r#"{{"jsonrpc":"2.0","method":"{method}","params":{params}}}"#));
    track_open_file(&message, files);
}

fn open(files: &mut OpenFiles, uri: &str, text: &str, version: i64) {
    track(
        files,
        "textDocument/didOpen",
        &format!(r#"{{"textDocument":{{"uri":"{uri}","text":"{text}","version":{version}}}}}"#),
    );
}

fn close(files: &mut OpenFiles, uri: &str) {
    track(files, "textDocument/didClose", &format!(r#"{{"textDocument":{{"uri":"{uri}"}}}}"#));
}

fn nudge(files: &mut OpenFiles) -> Vec<(String, i64, String)> {
    let mut told: Vec<(String, i64, String)> = nudge_open_files(files)
        .into_iter()
        .map(|message| {
            let text = String::from_utf8(message).unwrap();
            let (header, body) = text.split_once("\r\n\r\n").unwrap();
            assert_eq!(header, format!("Content-Length: {}", body.len()));
            let value = json(body);
            assert_eq!(value["jsonrpc"], "2.0");
            assert_eq!(value["method"], "textDocument/didChange");
            let params = &value["params"];
            assert_eq!(params["contentChanges"].as_array().unwrap().len(), 1);
            (
                String::from(params["textDocument"]["uri"].as_str().unwrap()),
                params["textDocument"]["version"].as_i64().unwrap(),
                String::from(params["contentChanges"][0]["text"].as_str().unwrap()),
            )
        })
        .collect();
    told.sort();
    told
}

fn entry(uri: &str, version: i64, text: &str) -> (String, i64, String) {
    (String::from(uri), version, String::from(text))
}

#[test]
fn nothing_is_open_at_first() {
    assert_eq!(nudge(&mut OpenFiles::new()), Vec::new());
}

#[test]
fn a_nudge_is_written_like_this() {
    let mut files = OpenFiles::new();
    open(&mut files, "file:///a", "x", 4);
    let body = r#"{"jsonrpc":"2.0","method":"textDocument/didChange","params":{"contentChanges":[{"text":"x"}],"textDocument":{"uri":"file:///a","version":5}}}"#;
    assert_eq!(
        nudge_open_files(&mut files),
        vec![format!("Content-Length: {}\r\n\r\n{}", body.len(), body).into_bytes()]
    );
}

#[test]
fn nudges_increase_versions() {
    let mut files = OpenFiles::new();
    open(&mut files, "file:///a", "one", 1);
    open(&mut files, "file:///b", "two", -3);
    assert_eq!(nudge(&mut files), vec![entry("file:///a", 2, "one"), entry("file:///b", -2, "two")]);
    assert_eq!(nudge(&mut files), vec![entry("file:///a", 3, "one"), entry("file:///b", -1, "two")]);
}

#[test]
fn versions_wrap() {
    let mut files = OpenFiles::new();
    open(&mut files, "u", "", 2147483647);
    assert_eq!(nudge(&mut files), vec![entry("u", -2147483648, "")]);
    open(&mut files, "u", "", 4294967296);
    assert_eq!(nudge(&mut files), vec![entry("u", 1, "")]);
}

#[test]
fn closing_undoes_opening() {
    let mut files = OpenFiles::new();
    open(&mut files, "a", "one", 1);
    open(&mut files, "b", "two", 1);
    close(&mut files, "b");
    close(&mut files, "c");
    assert_eq!(nudge(&mut files), vec![entry("a", 2, "one")]);
    close(&mut files, "a");
    assert_eq!(nudge(&mut files), Vec::new());
}

#[test]
fn opening_again_replaces() {
    let mut files = OpenFiles::new();
    open(&mut files, "a", "one", 1);
    open(&mut files, "b", "two", 1);
    open(&mut files, "a", "three", 8);
    assert_eq!(nudge(&mut files), vec![entry("a", 9, "three"), entry("b", 2, "two")]);
}

#[test]
fn the_last_change_counts() {
    let mut files = OpenFiles::new();
    open(&mut files, "a", "one", 1);
    track(
        &mut files,
        "textDocument/didChange",
        r#"{"textDocument":{"uri":"a","version":6},"contentChanges":[{"text":"x"},{"text":"y"}]}"#,
    );
    assert_eq!(nudge(&mut files), vec![entry("a", 7, "y")]);
}

#[test]
fn a_change_can_open_and_needs_no_version() {
    let mut files = OpenFiles::new();
    track(
        &mut files,
        "textDocument/didChange",
        r#"{"textDocument":{"uri":"a"},"contentChanges":[{"text":"x"}]}"#,
    );
    assert_eq!(nudge(&mut files), vec![entry("a", 1, "x")]);
}

#[test]
fn incomplete_messages_change_nothing() {
    let mut files = OpenFiles::new();
    open(&mut files, "a", "one", 1);
    track(&mut files, "textDocument/didOpen", r#"{"textDocument":{"uri":"b","text":"t"}}"#);
    track(&mut files, "textDocument/didOpen", r#"{"textDocument":{"uri":"b","version":1}}"#);
    track(&mut files, "textDocument/didOpen", r#"{"textDocument":{"text":"t","version":1}}"#);
    track(&mut files, "textDocument/didOpen", r#"{"textDocument":{"uri":"b","text":"t","version":1.5}}"#);
    track(
        &mut files,
        "textDocument/didOpen",
        r#"{"textDocument":{"uri":"b","text":"t","version":9223372036854775808}}"#,
    );
    track(&mut files, "textDocument/didClose", r#"{"textDocument":{}}"#);
    track(&mut files, "textDocument/didChange", r#"{"textDocument":{"uri":"a"},"contentChanges":[]}"#);
    track(&mut files, "textDocument/didChange", r#"{"textDocument":{"uri":"a"}}"#);
    track(
        &mut files,
        "textDocument/didChange",
        r#"{"textDocument":{"uri":"a"},"contentChanges":[{"text":"x"},{"range":1}]}"#,
    );
    track(&mut files, "textDocument/didSave", r#"{"textDocument":{"uri":"a"}}"#);
    track_open_file(&json("[1,2]"), &mut files);
    assert_eq!(nudge(&mut files), vec![entry("a", 2, "one")]);
}

#[test]
fn following_a_nudge_changes_nothing() {
    let mut files = OpenFiles::new();
    open(&mut files, "a", "one", 1);
    let message = nudge_open_files(&mut files).pop().unwrap();
    let text = String::from_utf8(message).unwrap();
    track_open_file(&json(text.split_once("\r\n\r\n").unwrap().1), &mut files);
    assert_eq!(nudge(&mut files), vec![entry("a", 3, "one")]);
}

fn change(files: &mut OpenFiles, uri: &str, version: i64, changes: &str) {
    track(
        files,
        "textDocument/didChange",
        &format!(
            r#"{{"textDocument":{{"uri":"{uri}","version":{version}}},"contentChanges":{changes}}}"#
        ),
    );
}

#[test]
fn a_ranged_change_replaces_a_piece() {
    let mut files = OpenFiles::new();
    open(&mut files, "file:///a", "abc", 1);
    change(
        &mut files,
        "file:///a",
        2,
        r#"[{"range":{"start":{"line":0,"character":0},"end":{"line":0,"character":1}},"text":"X"}]"#,
    );
    assert_eq!(files.text("file:///a"), Some("Xbc"));
    assert_eq!(nudge(&mut files), vec![entry("file:///a", 3, "Xbc")]);
}

#[test]
fn changes_are_made_one_after_another() {
    let mut files = OpenFiles::new();
    open(&mut files, "a", "one\\ntwo", 1);
    change(
        &mut files,
        "a",
        2,
        r#"[{"range":{"start":{"line":1,"character":0},"end":{"line":1,"character":0}},"text":"1\n"},
            {"range":{"start":{"line":2,"character":3},"end":{"line":2,"character":3}},"text":"!"}]"#,
    );
    assert_eq!(files.text("a"), Some("one\n1\ntwo!"));
    change(
        &mut files,
        "a",
        3,
        r#"[{"text":"new"},{"range":{"start":{"line":0,"character":1},"end":{"line":0,"character":2}},"text":""}]"#,
    );
    assert_eq!(nudge(&mut files), vec![entry("a", 4, "nw")]);
}

#[test]
fn an_open_document_stays_recorded() {
    for (changes, text) in [
        (r#"[{"range":{"start":{"line":0,"character":0},"end":{"line":1,"character":0}},"text":"X"}]"#, "X"),
        (r#"[{"range":{"start":{"line":5,"character":0},"end":{"line":9,"character":2}},"text":"x"}]"#, "abcx"),
        (r#"[{"range":{"start":{"line":0,"character":2},"end":{"line":0,"character":1}},"text":"x"}]"#, "axc"),
        (r#"[{"range":{"start":{"line":0,"character":0}},"text":"x"}]"#, "x"),
        (r#"[{"range":7,"text":"x"}]"#, "x"),
        (
            r#"[{"range":7},{"range":{"start":{"line":0,"character":0},"end":{"line":0,"character":0}},"text":"x"}]"#,
            "xabc",
        ),
    ] {
        let mut files = OpenFiles::new();
        open(&mut files, "a", "abc", 1);
        open(&mut files, "b", "def", 1);
        change(&mut files, "a", 2, changes);
        assert_eq!(files.text("a"), Some(text));
        assert_eq!(nudge(&mut files), vec![entry("a", 3, text), entry("b", 2, "def")]);
    }
}

#[test]
fn the_record_holds_what_is_open() {
    let mut files = OpenFiles::new();
    open(&mut files, "a", "1", 1);
    open(&mut files, "b", "2", 1);
    close(&mut files, "a");
    change(&mut files, "b", 2, r#"[{"range":7,"text":"x"}]"#);
    open(&mut files, "c", "3", 1);
    open(&mut files, "a", "4", 1);
    close(&mut files, "c");
    let mut uris = files.uri_list();
    uris.sort();
    assert_eq!(uris, vec!["a", "b"]);
}

#[test]
fn a_change_of_an_unknown_document_starts_from_nothing() {
    let mut files = OpenFiles::new();
    change(
        &mut files,
        "a",
        2,
        r#"[{"range":{"start":{"line":3,"character":1},"end":{"line":3,"character":2}},"text":"x"}]"#,
    );
    assert_eq!(nudge(&mut files), vec![entry("a", 3, "x")]);
}
