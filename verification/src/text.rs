//! Small operations on text: comparing, trimming, and decimal numbers.

use vstd::prelude::*;
use vstd::slice::slice_subrange;
use vstd::string::*;
use vstd::utf8::*;

verus! {

/// `String::push` appends one character.
pub assume_specification[ String::push ](text: &mut String, c: char)
    ensures
        final(text)@ == old(text)@.push(c),
;

/// Reads bytes as text with `std::str::from_utf8`, which succeeds exactly on
/// valid UTF-8 and then yields the text whose encoding the bytes are.
#[verifier::external_body]
pub(crate) fn utf8_text(bytes: &[u8]) -> (text: Option<&str>)
    ensures
        text is Some == valid_utf8(bytes@),
        text matches Some(t) ==> t.spec_bytes() == bytes@,
{
    std::str::from_utf8(bytes).ok()
}

/// Whether two byte strings are equal.
pub fn same_bytes(a: &[u8], b: &[u8]) -> (same: bool)
    ensures
        same == (a@ == b@),
{
    if a.len() != b.len() {
        return false;
    }
    let mut i: usize = 0;
    while i < a.len()
        invariant
            i <= a@.len(),
            a@.len() == b@.len(),
            a@.take(i as int) == b@.take(i as int),
        decreases a@.len() - i,
    {
        if a[i] != b[i] {
            assert(a@[i as int] != b@[i as int]);
            return false;
        }
        assert(a@.take(i + 1) == a@.take(i as int).push(a@[i as int]));
        assert(b@.take(i + 1) == b@.take(i as int).push(b@[i as int]));
        i += 1;
    }
    assert(a@.take(i as int) == a@);
    assert(b@.take(i as int) == b@);
    true
}

/// Whether two texts are equal.
pub fn same_text(a: &str, b: &str) -> (same: bool)
    ensures
        same == (a@ == b@),
{
    proof {
        encode_utf8_decode_utf8(a@);
        encode_utf8_decode_utf8(b@);
    }
    same_bytes(a.as_bytes(), b.as_bytes())
}

/// The characters of a text.
pub fn characters(text: &str) -> (chars: Vec<char>)
    ensures
        chars@ == text@,
{
    let mut chars: Vec<char> = Vec::new();
    for c in it: text.chars()
        invariant
            it.seq() == text@,
            chars@ == text@.take(it.index() as int),
    {
        chars.push(c);
    }
    chars
}

/// Appends characters to a text.
pub fn push_characters(text: &mut String, chars: &[char])
    ensures
        final(text)@ == old(text)@ + chars@,
{
    let ghost start = text@;
    let mut i: usize = 0;
    while i < chars.len()
        invariant
            i <= chars@.len(),
            text@ == start + chars@.take(i as int),
        decreases chars@.len() - i,
    {
        text.push(chars[i]);
        assert(chars@.take(i + 1) == chars@.take(i as int).push(chars@[i as int]));
        i += 1;
    }
    assert(chars@.take(i as int) == chars@);
}

/// Whether a text begins with another.
pub fn starts_with(text: &[char], prefix: &[char]) -> (yes: bool)
    ensures
        yes == prefix@.is_prefix_of(text@),
{
    if text.len() < prefix.len() {
        return false;
    }
    let mut i: usize = 0;
    while i < prefix.len()
        invariant
            i <= prefix@.len() <= text@.len(),
            forall|j: int| 0 <= j < i ==> prefix@[j] == text@[j],
        decreases prefix@.len() - i,
    {
        if prefix[i] != text[i] {
            assert(prefix@[i as int] != text@.subrange(0, prefix@.len() as int)[i as int]);
            return false;
        }
        i += 1;
    }
    assert(prefix@ == text@.subrange(0, prefix@.len() as int));
    true
}

/// The characters with the property Unicode calls `White_Space`.
pub open spec fn white_space(c: char) -> bool {
    ||| '\u{9}' <= c <= '\u{d}'
    ||| c == ' '
    ||| c == '\u{85}'
    ||| c == '\u{a0}'
    ||| c == '\u{1680}'
    ||| '\u{2000}' <= c <= '\u{200a}'
    ||| c == '\u{2028}'
    ||| c == '\u{2029}'
    ||| c == '\u{202f}'
    ||| c == '\u{205f}'
    ||| c == '\u{3000}'
}

/// Whether a character is white space.
pub fn is_white_space(c: char) -> (yes: bool)
    ensures
        yes == white_space(c),
{
    ('\u{9}' <= c && c <= '\u{d}') || c == ' ' || c == '\u{85}' || c == '\u{a0}' || c == '\u{1680}'
        || ('\u{2000}' <= c && c <= '\u{200a}') || c == '\u{2028}' || c == '\u{2029}'
        || c == '\u{202f}' || c == '\u{205f}' || c == '\u{3000}'
}

/// A text without the line ending characters at its end.
pub open spec fn without_line_end(text: Seq<char>) -> Seq<char>
    decreases text.len(),
{
    if text.len() > 0 && (text.last() == '\r' || text.last() == '\n') {
        without_line_end(text.drop_last())
    } else {
        text
    }
}

/// A text without the white space at its start.
pub open spec fn without_leading_space(text: Seq<char>) -> Seq<char>
    decreases text.len(),
{
    if text.len() > 0 && white_space(text.first()) {
        without_leading_space(text.drop_first())
    } else {
        text
    }
}

/// A text without the white space at its end.
pub open spec fn without_trailing_space(text: Seq<char>) -> Seq<char>
    decreases text.len(),
{
    if text.len() > 0 && white_space(text.last()) {
        without_trailing_space(text.drop_last())
    } else {
        text
    }
}

/// A text without the white space at either end.
pub open spec fn trimmed(text: Seq<char>) -> Seq<char> {
    without_trailing_space(without_leading_space(text))
}

/// Cuts the line ending characters off the end of a text.
pub fn trim_line_end(text: &[char]) -> (rest: &[char])
    ensures
        rest@ == without_line_end(text@),
{
    let mut end: usize = text.len();
    assert(text@.take(end as int) == text@);
    while end > 0 && (text[end - 1] == '\r' || text[end - 1] == '\n')
        invariant
            end <= text@.len(),
            without_line_end(text@) == without_line_end(text@.take(end as int)),
        decreases end,
    {
        assert(text@.take(end as int).drop_last() == text@.take(end - 1));
        end -= 1;
    }
    slice_subrange(text, 0, end)
}

/// Cuts the white space off both ends of a text.
pub fn trim(text: &[char]) -> (rest: &[char])
    ensures
        rest@ == trimmed(text@),
{
    let mut start: usize = 0;
    assert(text@.skip(0) == text@);
    while start < text.len() && is_white_space(text[start])
        invariant
            start <= text@.len(),
            without_leading_space(text@) == without_leading_space(text@.skip(start as int)),
        decreases text@.len() - start,
    {
        assert(text@.skip(start as int).drop_first() == text@.skip(start + 1));
        start += 1;
    }
    let body: &[char] = slice_subrange(text, start, text.len());
    assert(body@ == text@.skip(start as int));
    let mut end: usize = body.len();
    assert(body@.take(end as int) == body@);
    while end > 0 && is_white_space(body[end - 1])
        invariant
            end <= body@.len(),
            without_trailing_space(body@) == without_trailing_space(body@.take(end as int)),
        decreases end,
    {
        assert(body@.take(end as int).drop_last() == body@.take(end - 1));
        end -= 1;
    }
    slice_subrange(body, 0, end)
}

/// Whether a character is a decimal digit.
pub open spec fn decimal_digit(c: char) -> bool {
    '0' <= c <= '9'
}

/// Whether a text consists of decimal digits, at least one.
pub open spec fn decimal_digits(text: Seq<char>) -> bool {
    text.len() > 0 && forall|i: int| 0 <= i < text.len() ==> decimal_digit(#[trigger] text[i])
}

/// The number that decimal digits stand for.
pub open spec fn decimal_value(digits: Seq<char>) -> nat
    decreases digits.len(),
{
    if digits.len() == 0 {
        0
    } else {
        10 * decimal_value(digits.drop_last()) + (digits.last() as nat - '0' as nat) as nat
    }
}

/// The digits of a number, without leading zeros.
pub open spec fn decimal_text(n: nat) -> Seq<char>
    decreases n,
{
    if n < 10 {
        seq![('0' as nat + n) as char]
    } else {
        decimal_text(n / 10).push(('0' as nat + n % 10) as char)
    }
}

/// The text behind an optional plus sign.
pub open spec fn unsigned_part(text: Seq<char>) -> Seq<char> {
    if text.len() > 0 && text[0] == '+' {
        text.skip(1)
    } else {
        text
    }
}

/// The machine number that a text stands for: decimal digits with an optional
/// plus sign before them, and no number that does not fit.
pub open spec fn parsed_usize(text: Seq<char>) -> Option<usize> {
    let digits = unsigned_part(text);
    if decimal_digits(digits) && decimal_value(digits) <= usize::MAX {
        Some(decimal_value(digits) as usize)
    } else {
        None
    }
}

proof fn lemma_prefix_value(digits: Seq<char>, n: int)
    requires
        0 <= n <= digits.len(),
        decimal_digits(digits),
    ensures
        decimal_value(digits.take(n)) <= decimal_value(digits),
    decreases digits.len() - n,
{
    if n == digits.len() {
        assert(digits.take(n) == digits);
    } else {
        lemma_prefix_value(digits, n + 1);
        assert(digits.take(n + 1).drop_last() == digits.take(n));
        assert(decimal_digit(digits[n]));
    }
}

/// Reads a machine number.
pub fn parse_usize(text: &[char]) -> (number: Option<usize>)
    ensures
        number == parsed_usize(text@),
{
    let digits: &[char] = if text.len() > 0 && text[0] == '+' {
        slice_subrange(text, 1, text.len())
    } else {
        text
    };
    assert(digits@ == unsigned_part(text@));
    if digits.len() == 0 {
        return None;
    }
    let mut value: usize = 0;
    let mut i: usize = 0;
    while i < digits.len()
        invariant
            i <= digits@.len(),
            digits@.len() > 0,
            digits@ == unsigned_part(text@),
            forall|j: int| 0 <= j < i ==> decimal_digit(#[trigger] digits@[j]),
            value == decimal_value(digits@.take(i as int)),
        decreases digits@.len() - i,
    {
        let c: char = digits[i];
        if c < '0' || '9' < c {
            assert(!decimal_digit(digits@[i as int]));
            return None;
        }
        assert(digits@.take(i + 1).drop_last() == digits@.take(i as int));
        let digit: usize = (c as u32 - '0' as u32) as usize;
        proof {
            if decimal_digits(digits@) {
                lemma_prefix_value(digits@, i + 1);
            }
        }
        if value > usize::MAX / 10 || value * 10 > usize::MAX - digit {
            return None;
        }
        value = value * 10 + digit;
        i += 1;
    }
    assert(digits@.take(i as int) == digits@);
    Some(value)
}

/// The digits of a number read back as that number.
pub proof fn decimal_round_trip(n: nat)
    ensures
        decimal_digits(decimal_text(n)),
        decimal_value(decimal_text(n)) == n,
    decreases n,
{
    let text = decimal_text(n);
    if n < 10 {
        assert(text.drop_last() == Seq::<char>::empty());
        assert(decimal_value(text.drop_last()) == 0);
    } else {
        decimal_round_trip(n / 10);
        assert(text.drop_last() == decimal_text(n / 10));
        assert forall|i: int| 0 <= i < text.len() implies decimal_digit(#[trigger] text[i]) by {
            if i < text.len() - 1 {
                assert(text[i] == decimal_text(n / 10)[i]);
            }
        }
    }
}

/// Writes the digits of a number.
pub fn write_decimal(number: usize) -> (digits: Vec<u8>)
    ensures
        digits@ == decimal_text(number as nat).map_values(|c: char| c as u8),
    decreases number,
{
    let mut digits: Vec<u8> = if number < 10 {
        Vec::new()
    } else {
        write_decimal(number / 10)
    };
    digits.push(48 + (number % 10) as u8);
    digits
}

/// White space is what Unicode counts as such, by the numbers of the characters.
pub proof fn white_space_by_number(c: char)
    ensures
        white_space(c) <==> {
            let n = c as u32;
            ||| 9 <= n <= 13
            ||| n == 32
            ||| n == 133
            ||| n == 160
            ||| n == 5760
            ||| 8192 <= n <= 8202
            ||| n == 8232
            ||| n == 8233
            ||| n == 8239
            ||| n == 8287
            ||| n == 12288
        },
{
}

/// Cutting off a line ending takes all carriage returns and newlines off the
/// end of a text, and nothing else.
pub proof fn only_line_ends_are_cut(text: Seq<char>)
    ensures
        without_line_end(text).is_prefix_of(text),
        forall|i: int|
            without_line_end(text).len() <= i < text.len() ==> #[trigger] text[i] == '\r' || text[i]
                == '\n',
        without_line_end(text).len() > 0 ==> without_line_end(text).last() != '\r'
            && without_line_end(text).last() != '\n',
    decreases text.len(),
{
    assert(text.subrange(0, text.len() as int) == text);
    if text.len() > 0 && (text.last() == '\r' || text.last() == '\n') {
        let fewer = text.drop_last();
        only_line_ends_are_cut(fewer);
        let rest = without_line_end(fewer);
        assert(fewer.subrange(0, rest.len() as int) == text.subrange(0, rest.len() as int));
        assert forall|i: int| rest.len() <= i < text.len() implies #[trigger] text[i] == '\r'
            || text[i] == '\n' by {
            if i < fewer.len() {
                assert(fewer[i] == text[i]);
            }
        }
    }
}

proof fn lemma_leading_space(text: Seq<char>) -> (start: int)
    ensures
        0 <= start <= text.len(),
        without_leading_space(text) == text.skip(start),
        forall|i: int| 0 <= i < start ==> white_space(#[trigger] text[i]),
        start < text.len() ==> !white_space(text[start]),
    decreases text.len(),
{
    assert(text.skip(0) == text);
    if text.len() > 0 && white_space(text.first()) {
        let fewer = text.drop_first();
        let start = lemma_leading_space(fewer);
        assert(fewer.skip(start) == text.skip(start + 1));
        assert forall|i: int| 0 <= i < start + 1 implies white_space(#[trigger] text[i]) by {
            if i > 0 {
                assert(fewer[i - 1] == text[i]);
            }
        }
        start + 1
    } else {
        0
    }
}

proof fn lemma_trailing_space(text: Seq<char>) -> (end: int)
    ensures
        0 <= end <= text.len(),
        without_trailing_space(text) == text.take(end),
        forall|i: int| end <= i < text.len() ==> white_space(#[trigger] text[i]),
        end > 0 ==> !white_space(text[end - 1]),
    decreases text.len(),
{
    assert(text.take(text.len() as int) == text);
    if text.len() > 0 && white_space(text.last()) {
        let fewer = text.drop_last();
        let end = lemma_trailing_space(fewer);
        assert(fewer.take(end) == text.take(end));
        assert forall|i: int| end <= i < text.len() implies white_space(#[trigger] text[i]) by {
            if i < fewer.len() {
                assert(fewer[i] == text[i]);
            }
        }
        end
    } else {
        text.len() as int
    }
}

/// Trimming takes all white space off both ends of a text, and nothing else.
pub proof fn only_white_space_is_trimmed(text: Seq<char>)
    ensures
        exists|start: int, end: int|
            0 <= start <= end <= text.len() && trimmed(text) == #[trigger] text.subrange(start, end)
                && (forall|i: int|
                0 <= i < text.len() && !(start <= i < end) ==> white_space(#[trigger] text[i])) && (
            start < end ==> !white_space(text[start]) && !white_space(text[end - 1])),
{
    let start = lemma_leading_space(text);
    let middle = text.skip(start);
    let length = lemma_trailing_space(middle);
    let end = start + length;
    assert(middle.take(length) == text.subrange(start, end));
    assert forall|i: int| 0 <= i < text.len() && !(start <= i < end) implies white_space(
        #[trigger] text[i],
    ) by {
        if i >= end {
            assert(middle[i - start] == text[i]);
        }
    }
    if start < end {
        assert(middle[0] == text[start]);
        assert(middle[length - 1] == text[end - 1]);
    }
}

/// Digits count by ten: one more digit makes a number ten times as large and
/// adds what the digit stands for.
pub proof fn digits_count_by_ten(digits: Seq<char>, c: char)
    requires
        '0' <= c <= '9',
    ensures
        decimal_value(Seq::empty()) == 0,
        decimal_value(digits.push(c)) == 10 * decimal_value(digits) + (c as int - '0' as int),
{
    assert(digits.push(c).drop_last() == digits);
}

/// A number is written in digits without leading zeros.
pub proof fn numbers_have_no_leading_zeros(n: nat)
    ensures
        forall|i: int|
            0 <= i < decimal_text(n).len() ==> '0' <= #[trigger] decimal_text(n)[i] <= '9',
        decimal_text(n).len() > 0,
        decimal_value(decimal_text(n)) == n,
        n > 0 ==> decimal_text(n)[0] != '0',
        n == 0 ==> decimal_text(n).len() == 1,
    decreases n,
{
    decimal_round_trip(n);
    assert forall|i: int| 0 <= i < decimal_text(n).len() implies '0' <= #[trigger] decimal_text(n)[i] <= '9' by {
        assert(decimal_digit(decimal_text(n)[i]));
    }
    if n >= 10 {
        numbers_have_no_leading_zeros(n / 10);
        assert(decimal_text(n)[0] == decimal_text(n / 10)[0]);
    }
}

/// A machine number is read from digits, with or without a plus sign before
/// them, if it fits.
pub proof fn digits_are_read(digits: Seq<char>)
    requires
        digits.len() > 0,
        forall|i: int| 0 <= i < digits.len() ==> '0' <= #[trigger] digits[i] <= '9',
    ensures
        decimal_value(digits) <= usize::MAX ==> parsed_usize(digits) == Some(
            decimal_value(digits) as usize,
        ) && parsed_usize(seq!['+'] + digits) == Some(decimal_value(digits) as usize),
        decimal_value(digits) > usize::MAX ==> parsed_usize(digits) is None && parsed_usize(
            seq!['+'] + digits,
        ) is None,
{
    assert(decimal_digit(digits[0]));
    assert forall|i: int| 0 <= i < digits.len() implies decimal_digit(#[trigger] digits[i]) by {}
    assert((seq!['+'] + digits).skip(1) == digits);
}

/// No machine number is read from a text with anything in it but digits and a
/// plus sign at its start, nor from one without digits.
pub proof fn nothing_else_is_read(text: Seq<char>, i: int)
    requires
        0 <= i < text.len() ==> !('0' <= text[i] <= '9') && !(i == 0 && text[i] == '+'),
        !(0 <= i < text.len()) ==> text.len() == 0 || text.len() == 1 && text[0] == '+',
    ensures
        parsed_usize(text) is None,
{
    if 0 <= i < text.len() {
        if text[0] == '+' {
            assert(text.skip(1)[i - 1] == text[i]);
            assert(!decimal_digit(text.skip(1)[i - 1]));
        } else {
            assert(!decimal_digit(text[i]));
        }
    }
}

}
