use notify_lsp_proxy::text::{
    characters, is_white_space, parse_usize, push_characters, same_bytes, same_text, starts_with,
    trim, trim_line_end, write_decimal,
};

fn chars(text: &str) -> Vec<char> {
    text.chars().collect()
}

#[test]
fn white_space_is_that_of_unicode() {
    for code in 0..=0x10ffffu32 {
        if let Some(c) = char::from_u32(code) {
            assert_eq!(is_white_space(c), c.is_whitespace(), "{code:x}");
        }
    }
}

#[test]
fn numbers_are_read_as_std_reads_them() {
    let max = format!("{}", usize::MAX);
    let over = format!("{}0", usize::MAX);
    for text in [
        "", "+", "-", "0", "7", "+7", "++7", "-7", "007", "12a", "a12", "1 2", " 1", "18446744073709551616",
        "18446744073709551615", "18446744073709551614", "+18446744073709551615", "00000000000000000000000001", "٣",
        max.as_str(), over.as_str(),
    ] {
        assert_eq!(parse_usize(&chars(text)), text.parse::<usize>().ok(), "{text}");
    }
}

#[test]
fn numbers_are_written_in_decimal() {
    for n in [0usize, 1, 9, 10, 99, 100, 65535, usize::MAX] {
        assert_eq!(write_decimal(n), format!("{n}").into_bytes());
    }
}

#[test]
fn trims_both_ends() {
    for text in ["", " ", "a", " a ", "\u{2003}a b\u{85}\n", "\t\t"] {
        let expected: Vec<char> = chars(text.trim());
        assert_eq!(trim(&chars(text)).to_vec(), expected);
    }
}

#[test]
fn trims_line_ends_only() {
    for text in ["", "\r\n", "a\r\n", "a\n\r\n\r", "a \r\n", "\r\na"] {
        let expected: Vec<char> = chars(text.trim_end_matches(['\r', '\n']));
        assert_eq!(trim_line_end(&chars(text)).to_vec(), expected);
    }
}

#[test]
fn compares_texts() {
    assert!(same_text("", ""));
    assert!(same_text("naïve", "naïve"));
    assert!(!same_text("naive", "naïve"));
    assert!(!same_text("a", "ab"));
    assert!(same_bytes(&[1, 2], &[1, 2]));
    assert!(!same_bytes(&[1, 2], &[1, 3]));
    assert!(!same_bytes(&[1, 2], &[1]));
}

#[test]
fn takes_texts_apart_and_puts_them_together() {
    assert_eq!(characters("aé😀"), vec!['a', 'é', '😀']);
    let mut text = String::from("x");
    push_characters(&mut text, &['a', 'é', '😀']);
    assert_eq!(text, "xaé😀");
    assert!(starts_with(&['a', 'b'], &['a']));
    assert!(starts_with(&['a', 'b'], &[]));
    assert!(!starts_with(&['a', 'b'], &['b']));
    assert!(!starts_with(&['a'], &['a', 'b']));
}
