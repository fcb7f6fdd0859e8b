use notify_lsp_proxy::edits::{apply_change, apply_changes, find_place};
use serde_json::Value;

fn json(text: &str) -> Value {
    serde_json::from_str(text).unwrap()
}

fn place(text: &str, line: u64, character: u64) -> Option<usize> {
    let chars: Vec<char> = text.chars().collect();
    find_place(&chars, &json(&format!(r#"{{"line":{line},"character":{character}}}"#)))
}

fn change(from: (u64, u64), to: (u64, u64), text: &str) -> Value {
    let mut value = json(&format!(
        r#"{{"range":{{"start":{{"line":{},"character":{}}},"end":{{"line":{},"character":{}}}}}}}"#,
        from.0, from.1, to.0, to.1
    ));
    value["text"] = Value::from(text);
    value
}

fn after(text: &str, change: &Value) -> String {
    let chars: Vec<char> = text.chars().collect();
    apply_change(&chars, change).into_iter().collect()
}

#[test]
fn lines_end_in_three_ways() {
    let text = "a\nbc\r\nd\re";
    assert_eq!(place(text, 0, 0), Some(0));
    assert_eq!(place(text, 0, 1), Some(1));
    assert_eq!(place(text, 1, 0), Some(2));
    assert_eq!(place(text, 1, 2), Some(4));
    assert_eq!(place(text, 2, 0), Some(6));
    assert_eq!(place(text, 3, 0), Some(8));
    assert_eq!(place(text, 3, 1), Some(9));
}

#[test]
fn behind_the_last_line_is_the_end() {
    assert_eq!(place("a\nb", 2, 0), Some(3));
    assert_eq!(place("a\nb", u64::MAX, 5), Some(3));
    assert_eq!(place("a\n", 1, 0), Some(2));
    assert_eq!(place("a\n", 2, 0), Some(2));
    assert_eq!(place("", 0, 0), Some(0));
    assert_eq!(place("", 4, 4), Some(0));
    assert_eq!(place("\n\r", 2, 9), Some(2));
    assert_eq!(place("\n\r", 1, 9), Some(1));
}

#[test]
fn behind_a_line_is_its_end() {
    assert_eq!(place("ab\r\nc", 0, 3), Some(2));
    assert_eq!(place("ab\r\nc", 0, u64::MAX), Some(2));
    assert_eq!(place("ab\r\nc", 1, 7), Some(5));
}

#[test]
fn units_are_those_of_utf_16() {
    assert_eq!(place("é😀x", 0, 1), Some(1));
    assert_eq!(place("é😀x", 0, 2), Some(1));
    assert_eq!(place("é😀x", 0, 3), Some(2));
    assert_eq!(place("é😀x", 0, 4), Some(3));
}

#[test]
fn positions_need_both_numbers() {
    let text = ['a'];
    for position in [
        "null",
        "{}",
        r#"{"line":0}"#,
        r#"{"character":0}"#,
        r#"{"line":0,"character":0.5}"#,
        r#"{"line":"0","character":0}"#,
    ] {
        assert_eq!(find_place(&text, &json(position)), None);
    }
}

#[test]
fn below_zero_is_zero() {
    let text = ['a', '\n', 'b'];
    assert_eq!(find_place(&text, &json(r#"{"line":-1,"character":-5}"#)), Some(0));
    assert_eq!(find_place(&text, &json(r#"{"line":1,"character":-5}"#)), Some(2));
}

#[test]
fn pieces_are_replaced() {
    assert_eq!(after("abc", &change((0, 0), (0, 1), "X")), "Xbc");
    assert_eq!(after("abc", &change((0, 3), (0, 3), "X")), "abcX");
    assert_eq!(after("a\nb\nc", &change((0, 1), (2, 0), "-")), "a-c");
    assert_eq!(after("a😀b", &change((0, 1), (0, 3), "")), "ab");
    assert_eq!(after("abc", &change((0, 1), (0, 2), "b")), "abc");
}

#[test]
fn every_range_applies() {
    assert_eq!(after("abc", &change((0, 0), (1, 0), "X")), "X");
    assert_eq!(after("abc", &change((0, 2), (0, 1), "X")), "aXc");
    assert_eq!(after("a😀", &change((0, 0), (0, 2), "X")), "X😀");
    assert_eq!(after("abc", &change((7, 0), (8, 0), "X")), "abcX");
}

#[test]
fn a_replacement_can_be_undone() {
    let changed = after("ab\ncd", &change((0, 1), (1, 1), "XY"));
    assert_eq!(changed, "aXYd");
    assert_eq!(after(&changed, &change((0, 1), (0, 3), "b\nc")), "ab\ncd");
}

#[test]
fn unreadable_ranges_give_the_text_of_the_change() {
    assert_eq!(after("abc", &json(r#"{"range":{},"text":"x"}"#)), "x");
    assert_eq!(after("abc", &json(r#"{"range":7,"text":"x"}"#)), "x");
}

#[test]
fn a_change_without_a_text_changes_nothing() {
    assert_eq!(after("abc", &json("{}")), "abc");
    assert_eq!(after("abc", &json(r#"{"text":7}"#)), "abc");
}

#[test]
fn without_a_range_the_text_is_whole() {
    assert_eq!(after("abc", &json(r#"{"text":"x"}"#)), "x");
    assert_eq!(after("abc", &json(r#"{"range":null,"text":"x"}"#)), "x");
}

#[test]
fn changes_follow_each_other() {
    let first = change((0, 1), (0, 1), "\n");
    let second = change((1, 0), (1, 1), "X");
    let both = vec![first.clone(), second.clone()];
    assert_eq!(apply_changes("abc", &both), "a\nXc");
    let middle = apply_changes("abc", &vec![first]);
    assert_eq!(apply_changes(&middle, &vec![second]), apply_changes("abc", &both));
    assert_eq!(apply_changes("abc", &Vec::new()), "abc");
    let whole = vec![change((0, 0), (0, 1), "?"), json(r#"{"text":"y"}"#)];
    assert_eq!(apply_changes("abc", &whole), "y");
}
