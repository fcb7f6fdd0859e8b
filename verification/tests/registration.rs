use notify_lsp_proxy::globs::{compile_glob, GlobRefusal};
use notify_lsp_proxy::registration::{
    extract_patterns, sort_patterns, watch_requests, watched_pattern, WatchRequest,
};
use serde_json::Value;

fn json(text: &str) -> Value {
    serde_json::from_str(text).unwrap()
}

fn registration(watchers: &str) -> Value {
    json(&format!(
        r#"{{"id":1,"method":"client/registerCapability","params":{{"registrations":[
            {{"id":"a","method":"workspace/didChangeWatchedFiles","registerOptions":{{"watchers":{watchers}}}}}
        ]}}}}"#
    ))
}

fn one(entry: &str) -> WatchRequest {
    let mut requests = watch_requests(&registration(&format!("[{entry}]")));
    assert_eq!(requests.len(), 1);
    requests.pop().unwrap()
}

#[test]
fn a_text_is_a_pattern_without_base() {
    let request = one(r#"{"globPattern":"**/*.cs"}"#);
    assert_eq!(request.base_path, None);
    assert_eq!(request.pattern, "**/*.cs");
    assert_eq!(request.kind_mask, 7);
}

#[test]
fn a_relative_pattern_has_a_base() {
    let request = one(
        r#"{"globPattern":{"baseUri":"file:///proj","pattern":"*.dll"},"kind":4}"#,
    );
    assert_eq!(request.base_path, Some(String::from("/proj")));
    assert_eq!(request.pattern, "*.dll");
    assert_eq!(request.kind_mask, 4);
}

#[test]
fn a_workspace_folder_can_be_the_base() {
    let request = one(
        r#"{"globPattern":{"baseUri":{"uri":"file:///C:/w","name":"w"},"pattern":"*"}}"#,
    );
    assert_eq!(request.base_path, Some(String::from("C:/w")));
}

#[test]
fn a_base_that_is_no_file_is_dropped() {
    let request = one(r#"{"globPattern":{"baseUri":"untitled:x","pattern":"*"}}"#);
    assert_eq!(request.base_path, None);
    let request = one(r#"{"globPattern":{"pattern":"*"}}"#);
    assert_eq!(request.base_path, None);
}

#[test]
fn kinds_are_taken_as_they_fit() {
    assert_eq!(one(r#"{"globPattern":"a","kind":0}"#).kind_mask, 0);
    assert_eq!(one(r#"{"globPattern":"a","kind":4294967299}"#).kind_mask, 3);
    assert_eq!(one(r#"{"globPattern":"a","kind":-1}"#).kind_mask, 7);
    assert_eq!(one(r#"{"globPattern":"a","kind":1.5}"#).kind_mask, 7);
    assert_eq!(one(r#"{"globPattern":"a","kind":"1"}"#).kind_mask, 7);
}

#[test]
fn entries_without_pattern_ask_for_nothing() {
    let requests = watch_requests(&registration(
        r#"[{"kind":1},{"globPattern":7},{"globPattern":{"baseUri":"file:///x"}},3,{"globPattern":"y"}]"#,
    ));
    assert_eq!(requests.len(), 1);
    assert_eq!(requests[0].pattern, "y");
}

#[test]
fn messages_without_registrations_ask_for_nothing() {
    for text in [
        "null",
        "[]",
        r#"{"params":{}}"#,
        r#"{"params":{"registrations":{}}}"#,
        r#"{"params":{"registrations":[{"method":"textDocument/hover","registerOptions":{"watchers":[{"globPattern":"a"}]}}]}}"#,
        r#"{"params":{"registrations":[{"method":"workspace/didChangeWatchedFiles"}]}}"#,
    ] {
        assert_eq!(watch_requests(&json(text)).len(), 0);
    }
}

#[test]
fn registrations_are_read_in_order() {
    let message = json(
        r#"{"params":{"registrations":[
            {"method":"workspace/didChangeWatchedFiles","registerOptions":{"watchers":[{"globPattern":"a"},{"globPattern":"b"}]}},
            {"method":"other"},
            {"method":"workspace/didChangeWatchedFiles","registerOptions":{"watchers":[{"globPattern":"c"}]}}
        ]}}"#,
    );
    let patterns: Vec<String> = watch_requests(&message).into_iter().map(|r| r.pattern).collect();
    assert_eq!(patterns, vec!["a", "b", "c"]);
}

#[test]
fn patterns_that_do_not_compile_are_left_out() {
    let message = registration(
        r#"[{"globPattern":"["},{"globPattern":"**/*.cs","kind":3},{"globPattern":"{a"},{"globPattern":{"baseUri":"file:///b","pattern":"x[0-9]"}}]"#,
    );
    let patterns = extract_patterns(&message);
    assert_eq!(patterns.len(), 2);
    assert_eq!(patterns[0].base_path(), None);
    assert_eq!(patterns[0].kind_mask(), 3);
    assert!(patterns[0].glob_matches(b"src/a.cs"));
    assert!(!patterns[0].glob_matches(b"src/a.rs"));
    assert_eq!(patterns[1].base_path(), Some(&String::from("/b")));
    assert_eq!(patterns[1].kind_mask(), 7);
    assert!(patterns[1].glob_matches(b"x7"));
    assert!(!patterns[1].glob_matches(b"xx"));
}

#[test]
fn simple_patterns_compile() {
    for pattern in [
        "a",
        "src/main.rs",
        "**/.editorconfig",
        "**/obj/a.json",
        "**/*.cs",
        "**/*.",
        "*.cs",
        "*//",
        "src/**",
        "/**",
        "!x",
        "a b/ü",
    ] {
        assert!(compile_glob(pattern).is_ok());
    }
    let long = "a".repeat(5000);
    for pattern in [
        long.clone(),
        format!("**/{long}"),
        format!("**/x/{long}"),
        format!("*{long}"),
        format!("{long}/**"),
        format!("**/*.{long}"),
    ] {
        assert!(compile_glob(&pattern).is_ok());
    }
}

fn refusal(pattern: &str) -> GlobRefusal {
    match compile_glob(pattern) {
        Ok(_) => panic!("not refused"),
        Err(failure) => failure.refusal,
    }
}

#[test]
fn other_patterns_compile_if_they_are_valid() {
    for pattern in ["**/*.{cs,csproj}", "**/*", "**/?.cs", "[a-z]x", "a]", "a,b", "***/", ""] {
        assert!(compile_glob(pattern).is_ok());
    }
    for pattern in ["a[", "{a", "a}", "[z-a]"] {
        assert_eq!(refusal(pattern), GlobRefusal::Invalid);
    }
}

#[test]
fn short_patterns_are_not_too_large() {
    let deep = |opening: &str, closing: &str, levels: usize| {
        format!("{}{}", opening.repeat(levels), closing.repeat(levels))
    };
    for pattern in [
        deep("{", "}", 100),
        deep("{a", "}", 66),
        deep("{?", "}", 66),
        deep("{a{b,", "},c}", 22),
        deep("{a,", "}", 50),
        "*".repeat(200),
        "?".repeat(200),
        "**/".repeat(66),
        "[\u{10000}-\u{10ffff}]".repeat(40),
        "\u{10ffff}?".repeat(100),
        format!("[{}]", "é-ÿ".repeat(66)),
        format!("{{{}}}", "a*b?,".repeat(39)),
    ] {
        assert!(pattern.chars().count() <= 200);
        assert!(compile_glob(&pattern).is_ok());
    }
}

#[test]
fn flat_patterns_are_not_too_large() {
    for pattern in [
        "?*".repeat(1000),
        "**/".repeat(666),
        "x/**/".repeat(400),
        "\u{10ffff}?".repeat(1000),
        "[a]".repeat(666),
        format!("?[{}]", "é-ÿ".repeat(665)),
    ] {
        assert!(pattern.chars().count() <= 2000);
        assert!(compile_glob(&pattern).is_ok());
    }
}

#[test]
fn patterns_can_be_too_large() {
    let pattern = format!("{}x{}", "{a".repeat(300), "}".repeat(300));
    assert_eq!(refusal(&pattern), GlobRefusal::TooLarge);
    let sorted = sort_patterns(&registration(&format!(
        r#"[{{"globPattern":"{pattern}"}},{{"globPattern":"["}},{{"globPattern":"a","kind":1}}]"#
    )));
    assert_eq!(sorted.patterns.len(), 1);
    assert_eq!(sorted.refused.len(), 2);
    assert_eq!(sorted.refused[0].pattern, pattern);
    assert_eq!(sorted.refused[0].failure.refusal, GlobRefusal::TooLarge);
    assert_eq!(sorted.refused[1].pattern, "[");
    assert_eq!(sorted.refused[1].failure.refusal, GlobRefusal::Invalid);
}

#[test]
fn a_request_becomes_a_pattern_if_it_compiled() {
    let request = |kind_mask| WatchRequest {
        base_path: Some(String::from("/b")),
        pattern: String::from("x"),
        kind_mask,
    };
    let refused = match watched_pattern(request(1), compile_glob("[")) {
        Ok(_) => panic!("not refused"),
        Err(refused) => refused,
    };
    assert_eq!(refused.pattern, "x");
    assert_eq!(refused.failure.refusal, GlobRefusal::Invalid);
    let pattern = match watched_pattern(request(2), compile_glob("x")) {
        Ok(pattern) => pattern,
        Err(_) => panic!("refused"),
    };
    assert_eq!(pattern.kind_mask(), 2);
    assert_eq!(pattern.base_path(), Some(&String::from("/b")));
    assert!(pattern.glob_matches(b"x"));
    assert!(!pattern.glob_matches(b"y"));
}

#[test]
fn globs_match_as_the_paths_do() {
    for pattern in ["*.cs", "**/*.cs", "src/**", "a?c", "{a,b}/*.x", "[!a]b", "**"] {
        let set = compile_glob(pattern).unwrap();
        let message = registration(&format!(r#"[{{"globPattern":"{pattern}"}}]"#));
        let watched = extract_patterns(&message);
        for path in ["a.cs", "x/y/a.cs", "src/a", "src", "abc", "a/c", "b/q.x", "cb", "", "/r/a.cs"] {
            assert_eq!(watched[0].glob_matches(path.as_bytes()), set.is_match(path));
        }
    }
}

#[test]
fn patterns_of_two_lists_add_up() {
    let first = r#"{"method":"workspace/didChangeWatchedFiles","registerOptions":{"watchers":[{"globPattern":"*.a"},{"globPattern":"["}]}}"#;
    let second = r#"{"method":"workspace/didChangeWatchedFiles","registerOptions":{"watchers":[{"globPattern":{"baseUri":"file:///b","pattern":"{x,y}"},"kind":2}]}}"#;
    let extracted = |registrations: &str| {
        let message = json(&format!(r#"{{"params":{{"registrations":[{registrations}]}}}}"#));
        let seen: Vec<(Option<String>, u32, Vec<bool>)> = extract_patterns(&message)
            .iter()
            .map(|pattern| {
                let matched = ["q.a", "x", "z"].iter().map(|p| pattern.glob_matches(p.as_bytes()));
                (pattern.base_path().cloned(), pattern.kind_mask(), matched.collect())
            })
            .collect();
        seen
    };
    let mut separate = extracted(first);
    separate.extend(extracted(second));
    assert_eq!(separate.len(), 2);
    assert_eq!(extracted(&format!("{first},{second}")), separate);
}
