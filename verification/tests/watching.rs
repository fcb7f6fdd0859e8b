use notify_lsp_proxy::registration::{extract_patterns, WatchedPattern};
use notify_lsp_proxy::watching::{
    notify_kind_to_lsp, ChangeKind, FilePath, PathPart, Registered, WatchTable,
};
use serde_json::Value;
use std::path::{Path, PathBuf};

fn bytes(path: &Path) -> Vec<u8> {
    path.as_os_str().as_encoded_bytes().to_vec()
}

fn file(text: &str) -> FilePath {
    let path = Path::new(text);
    let mut components = path.components();
    let start = bytes(components.as_path());
    let mut parts = Vec::new();
    while let Some(component) = components.next() {
        parts.push(PathPart {
            name: component.as_os_str().as_encoded_bytes().to_vec(),
            rest: bytes(components.as_path()),
        });
    }
    FilePath { text: String::from(text), bytes: bytes(path), start, parts }
}

fn pattern(entry: &str) -> WatchedPattern {
    let message: Value = serde_json::from_str(&format!(
        r#"{{"params":{{"registrations":[{{"method":"workspace/didChangeWatchedFiles","registerOptions":{{"watchers":[{entry}]}}}}]}}}}"#
    ))
    .unwrap();
    extract_patterns(&message).pop().unwrap()
}

fn register(table: &mut WatchTable, entry: &str) -> Registered {
    let pattern = pattern(entry);
    let base = pattern.base_path().map(|text| file(text));
    table.register(pattern, base)
}

fn table(entries: &[&str]) -> WatchTable {
    let mut table = WatchTable::new(file("/work"));
    for entry in entries {
        register(&mut table, entry);
    }
    table
}

#[test]
fn kinds_have_numbers() {
    assert_eq!(notify_kind_to_lsp(&ChangeKind::Create), Some(1));
    assert_eq!(notify_kind_to_lsp(&ChangeKind::Modify), Some(2));
    assert_eq!(notify_kind_to_lsp(&ChangeKind::Remove), Some(3));
    assert_eq!(notify_kind_to_lsp(&ChangeKind::Access), None);
    assert_eq!(notify_kind_to_lsp(&ChangeKind::Any), None);
    assert_eq!(notify_kind_to_lsp(&ChangeKind::Other), None);
}

#[test]
fn prefixes_are_taken_off_as_std_does() {
    let texts = [
        "", "/", ".", "/a", "/a/", "/a/b", "/a//b/./c", "/a/b/c/", "a", "a/b", "./a", "/ab", "../a", "/a/..",
    ];
    for path in texts {
        for dir in texts {
            let expected = Path::new(path).strip_prefix(dir).ok().map(bytes);
            assert_eq!(file(path).strip_prefix(&file(dir)).cloned(), expected, "{path} {dir}");
            assert_eq!(file(path).is_same_place(&file(dir)), PathBuf::from(path) == PathBuf::from(dir));
            assert_eq!(file(path).is_within(&file(dir)), Path::new(path).starts_with(dir));
        }
    }
}

#[test]
fn each_directory_is_watched_once() {
    let mut table = WatchTable::new(file("/work"));
    let based = |base: &str| format!(r#"{{"globPattern":{{"baseUri":"file://{base}","pattern":"*"}}}}"#);
    assert_eq!(register(&mut table, r#"{"globPattern":"a"}"#), Registered::WatchWorkingDir);
    assert_eq!(register(&mut table, r#"{"globPattern":"b"}"#), Registered::Known);
    assert_eq!(register(&mut table, &based("/x")), Registered::WatchBase);
    assert_eq!(register(&mut table, &based("/x/")), Registered::Known);
    assert_eq!(register(&mut table, &based("/x/y")), Registered::WatchBase);
    assert_eq!(register(&mut table, &based("/work")), Registered::Known);
    assert_eq!(register(&mut table, &based("/x/./y")), Registered::Known);
}

#[test]
fn a_base_can_be_the_working_directory() {
    let mut table = WatchTable::new(file("/work"));
    let based = r#"{"globPattern":{"baseUri":"file:///work","pattern":"*"}}"#;
    assert_eq!(register(&mut table, based), Registered::WatchBase);
    assert_eq!(register(&mut table, r#"{"globPattern":"a"}"#), Registered::Known);
}

#[test]
fn based_patterns_stay_in_their_base() {
    let table = table(&[r#"{"globPattern":{"baseUri":"file:///x","pattern":"*.cs"}}"#]);
    assert!(table.is_reported(1, &file("/x/a.cs")));
    assert!(table.is_reported(1, &file("/x/y/a.cs")));
    assert!(!table.is_reported(1, &file("/x/a.rs")));
    assert!(!table.is_reported(1, &file("/xy/a.cs")));
    assert!(!table.is_reported(1, &file("/work/a.cs")));
}

#[test]
fn patterns_without_base_match_either_way() {
    let table = table(&[r#"{"globPattern":"src/a.cs"}"#, r#"{"globPattern":"/etc/hosts"}"#]);
    assert!(table.is_reported(2, &file("/work/src/a.cs")));
    assert!(table.is_reported(2, &file("/etc/hosts")));
    assert!(!table.is_reported(2, &file("/other/src/a.cs")));
    assert!(!table.is_reported(2, &file("/work/etc/hosts")));
}

#[test]
fn masks_choose_the_kinds() {
    let only = |mask: u32| table(&[&format!(r#"{{"globPattern":"**/*.cs","kind":{mask}}}"#)]);
    let told = |mask: u32| {
        let table = only(mask);
        [1, 2, 3].map(|kind| table.is_reported(kind, &file("/work/a.cs")))
    };
    assert_eq!(told(0), [false, false, false]);
    assert_eq!(told(1), [true, false, true]);
    assert_eq!(told(2), [false, true, true]);
    assert_eq!(told(4), [false, false, false]);
    assert_eq!(told(7), [true, true, true]);
}

#[test]
fn registering_more_keeps_what_was_reported() {
    let mut table = table(&[r#"{"globPattern":"**/*.cs"}"#]);
    assert!(table.is_reported(1, &file("/work/a.cs")));
    assert!(!table.is_reported(1, &file("/work/a.rs")));
    register(&mut table, r#"{"globPattern":"**/*.rs"}"#);
    assert!(table.is_reported(1, &file("/work/a.cs")));
    assert!(table.is_reported(1, &file("/work/a.rs")));
}

#[test]
fn changes_are_told_in_order() {
    let table = table(&[r#"{"globPattern":"**/*.cs"}"#, r#"{"globPattern":"**/b.cs"}"#]);
    let paths = vec![file("/work/b.cs"), file("/work/x.rs"), file("/work/a b.cs")];
    let message = table.change_message(&ChangeKind::Modify, &paths).unwrap();
    let body = r#"{"jsonrpc":"2.0","method":"workspace/didChangeWatchedFiles","params":{"changes":[{"type":2,"uri":"file:///work/b.cs"},{"type":2,"uri":"file:///work/a b.cs"}]}}"#;
    assert_eq!(
        String::from_utf8(message).unwrap(),
        format!("Content-Length: {}\r\n\r\n{}", body.len(), body)
    );
}

#[test]
fn there_may_be_nothing_to_tell() {
    let table = table(&[r#"{"globPattern":"**/*.cs"}"#]);
    assert!(table.change_message(&ChangeKind::Create, &vec![file("/work/x.rs")]).is_none());
    assert!(table.change_message(&ChangeKind::Access, &vec![file("/work/x.cs")]).is_none());
    assert!(table.change_message(&ChangeKind::Create, &Vec::new()).is_none());
    assert!(table.change_message(&ChangeKind::Remove, &vec![file("/work/x.cs")]).is_some());
}

#[test]
fn paths_that_are_no_text_are_matched_by_their_bytes() {
    let table = table(&[r#"{"globPattern":"a?.cs"}"#]);
    let odd = |raw: &[u8]| FilePath {
        text: String::from("a\u{fffd}.cs"),
        bytes: raw.to_vec(),
        start: raw.to_vec(),
        parts: Vec::new(),
    };
    assert!(table.is_reported(1, &odd(b"a\xff.cs")));
    assert!(!table.is_reported(1, &odd(b"a\xff\xff.cs")));
}
