use notify_lsp_proxy::documents::{nudge_open_files, OpenFiles};
use notify_lsp_proxy::framing::{read_message, ReadOutcome};
use notify_lsp_proxy::json::{is_text, read_document};
use notify_lsp_proxy::messages::{encode, notification, reply};
use notify_lsp_proxy::proxy::on_client_message;
use serde_json::Value;

fn body(message: &[u8]) -> Vec<u8> {
    match read_message(message, true) {
        ReadOutcome::Message { body, used } => {
            assert_eq!(used, message.len());
            body
        }
        _ => panic!("no message"),
    }
}

fn nested(depth: usize) -> String {
    format!("{}{}", "[".repeat(depth), "]".repeat(depth))
}

#[test]
fn documents_read_back_as_written() {
    for text in [
        "null",
        "[true,false,0,-1,18446744073709551615,-9223372036854775808]",
        r#"{"":"","a\"b":"\\ \n\u0000\u001f\u007f é 😀"}"#,
        r#"{"b":{"c":[[],{}]},"a":1}"#,
    ] {
        let document = read_document(text.as_bytes()).unwrap();
        let written = body(&encode(&document).unwrap());
        assert_eq!(read_document(&written), Some(document));
    }
}

#[test]
fn documents_with_floats_read_back_alike() {
    let text = r#"{"a":[1.5,-0.0,1e300,5e-324,0.1,123456789.125],"b":1}"#;
    let document = read_document(text.as_bytes()).unwrap();
    let again = read_document(&body(&encode(&document).unwrap())).unwrap();
    assert_eq!(again["b"], Value::from(1));
    let floats = again["a"].as_array().unwrap();
    assert_eq!(floats.len(), 6);
    for float in floats {
        assert!(float.is_f64());
    }
}

#[test]
fn documents_are_written_in_this_form() {
    let document = read_document(br#" { "b" : [ 1 , "x" ] , "a" : null } "#).unwrap();
    assert_eq!(body(&encode(&document).unwrap()), br#"{"a":null,"b":[1,"x"]}"#.to_vec());
}

#[test]
fn nesting_is_read_up_to_a_limit() {
    let deepest = read_document(nested(127).as_bytes()).unwrap();
    assert_eq!(body(&encode(&deepest).unwrap()), nested(127).into_bytes());
    assert!(read_document(nested(128).as_bytes()).is_none());
}

#[test]
fn what_is_no_document_is_not_read() {
    for text in [&b""[..], b"{", b"nul", b"{} {}", b"\"\xff\"", b"{'a':1}"] {
        assert!(read_document(text).is_none());
    }
}

#[test]
fn texts_are_told_apart() {
    assert!(is_text(&Value::from("a"), "a"));
    assert!(!is_text(&Value::from("a"), "b"));
    assert!(!is_text(&Value::from("a"), "ab"));
    assert!(!is_text(&Value::from(1), "1"));
    assert!(!is_text(&Value::Null, ""));
}

#[test]
fn own_messages_are_understood() {
    let told = notification("m", Value::from("\u{0}\""));
    assert_eq!(read_document(&body(&encode(&told).unwrap())), Some(told));
    let answer = reply(&Value::from(-7));
    assert_eq!(body(&encode(&answer).unwrap()), br#"{"id":-7,"jsonrpc":"2.0","result":null}"#.to_vec());
    assert_eq!(read_document(&body(&encode(&answer).unwrap())), Some(answer));
}

#[test]
fn nudges_are_understood() {
    let raw = br#"{"method":"textDocument/didOpen","params":{"textDocument":{"uri":"u","text":"a\n\"b\" \u20ac","version":-3}}}"#;
    let mut files = OpenFiles::new();
    on_client_message(raw, true, &mut files);
    let messages = nudge_open_files(&mut files);
    assert_eq!(messages.len(), 1);
    let nudge = read_document(&body(&messages[0])).unwrap();
    assert_eq!(nudge["params"]["textDocument"]["uri"], Value::from("u"));
    assert_eq!(nudge["params"]["textDocument"]["version"], Value::from(-2));
    assert_eq!(nudge["params"]["contentChanges"][0]["text"], Value::from("a\n\"b\" \u{20ac}"));
}
