//! The base protocol of LSP: a header of text lines that names the length of
//! the body, an empty line, and the body.

use crate::text::{
    characters, decimal_digit, decimal_round_trip, decimal_text, only_line_ends_are_cut,
    parse_usize, parsed_usize, starts_with, trim, trim_line_end, trimmed, unsigned_part, utf8_text,
    without_leading_space, without_line_end, write_decimal,
};
use vstd::prelude::*;
use vstd::slice::{slice_subrange, slice_to_vec};
use vstd::string::*;
use vstd::utf8::*;

verus! {

/// The header that goes before a body of `length` bytes.
pub open spec fn header_text(length: nat) -> Seq<char> {
    "Content-Length: "@ + decimal_text(length) + "\r\n\r\n"@
}

/// A message as it goes over the wire.
pub open spec fn framed(body: Seq<u8>) -> Seq<u8> {
    encode_utf8(header_text(body.len())) + body
}

/// Digits and the header around them are plain ASCII.
proof fn lemma_header_ascii(length: nat)
    ensures
        is_ascii_chars(decimal_text(length)),
        is_ascii_chars(header_text(length)),
{
    reveal_strlit("Content-Length: ");
    reveal_strlit("\r\n\r\n");
    decimal_round_trip(length);
    assert forall|i: int| 0 <= i < decimal_text(length).len() implies '\0' <= #[trigger] decimal_text(
        length,
    )[i] <= '\u{7f}' by {
        assert(decimal_digit(decimal_text(length)[i]));
    }
}

/// Puts the header before a message body.
pub fn frame(body: &[u8]) -> (message: Vec<u8>)
    ensures
        message@ == framed(body@),
{
    let mut message: Vec<u8> = "Content-Length: ".as_bytes_vec();
    let mut digits: Vec<u8> = write_decimal(body.len());
    message.append(&mut digits);
    let mut blank: Vec<u8> = "\r\n\r\n".as_bytes_vec();
    message.append(&mut blank);
    proof {
        reveal_strlit("Content-Length: ");
        reveal_strlit("\r\n\r\n");
        lemma_header_ascii(body@.len());
        is_ascii_chars_encode_utf8(header_text(body@.len()));
        is_ascii_chars_encode_utf8("Content-Length: "@);
        is_ascii_chars_encode_utf8("\r\n\r\n"@);
    }
    assert(message@ == encode_utf8(header_text(body@.len())));
    message.extend_from_slice(body);
    assert(message@ == framed(body@));
    message
}

/// The length of the first line of the input with its newline, where the line
/// is complete.
pub open spec fn line_length(input: Seq<u8>) -> Option<nat>
    decreases input.len(),
{
    if input.len() == 0 {
        None
    } else if input[0] == '\n' as u8 {
        Some(1)
    } else {
        match line_length(input.drop_first()) {
            Some(n) => Some(n + 1),
            None => None,
        }
    }
}

/// The first line ends at the first newline.
pub proof fn lemma_line_length(input: Seq<u8>)
    ensures
        match line_length(input) {
            Some(n) => 0 < n <= input.len() && input[n - 1] == '\n' as u8 && forall|i: int|
                0 <= i < n - 1 ==> #[trigger] input[i] != '\n' as u8,
            None => forall|i: int| 0 <= i < input.len() ==> #[trigger] input[i] != '\n' as u8,
        },
    decreases input.len(),
{
    if input.len() > 0 && input[0] != '\n' as u8 {
        let rest = input.drop_first();
        lemma_line_length(rest);
        match line_length(rest) {
            Some(n) => {
                assert(input[n as int] == rest[n - 1]);
                assert forall|i: int| 0 <= i < n implies #[trigger] input[i] != '\n' as u8 by {
                    if i > 0 {
                        assert(input[i] == rest[i - 1]);
                    }
                }
            },
            None => {
                assert forall|i: int| 0 <= i < input.len() implies #[trigger] input[i]
                    != '\n' as u8 by {
                    if i > 0 {
                        assert(input[i] == rest[i - 1]);
                    }
                }
            },
        }
    }
}

proof fn lemma_line_length_is(input: Seq<u8>, n: nat)
    requires
        0 < n <= input.len(),
        input[n - 1] == '\n' as u8,
        forall|i: int| 0 <= i < n - 1 ==> #[trigger] input[i] != '\n' as u8,
    ensures
        line_length(input) == Some(n),
    decreases input.len(),
{
    if n > 1 {
        assert(input[0] != '\n' as u8);
        let rest = input.drop_first();
        assert(rest[n - 2] == input[n - 1]);
        assert forall|i: int| 0 <= i < n - 2 implies #[trigger] rest[i] != '\n' as u8 by {
            assert(rest[i] == input[i + 1]);
        }
        lemma_line_length_is(rest, (n - 1) as nat);
    }
}

/// The content of a header line.
pub open spec fn line_text(line: Seq<u8>) -> Seq<char> {
    without_line_end(decode_utf8(line))
}

/// The body length that a header line declares: the number behind the field
/// name, with white space around it ignored. A line that names another field,
/// or no number, declares nothing.
pub open spec fn declared_length(line: Seq<char>) -> Option<usize> {
    if "Content-Length:"@.is_prefix_of(line) {
        parsed_usize(trimmed(line.skip("Content-Length:"@.len() as int)))
    } else {
        None
    }
}

/// What the start of an input amounts to.
pub enum Reading {
    /// A whole message; `used` counts the bytes of its header and body.
    Message { body: Seq<u8>, used: nat },
    /// The input ends before a header is complete, or a header declares no
    /// length: nothing more is to be read. `used` counts the bytes of the
    /// header; what follows stays unread.
    End { used: nat },
    /// More input is needed to tell.
    NeedMore,
    /// A header line is not valid UTF-8.
    NotText,
    /// The input ends within a body.
    Truncated,
}

/// What an input amounts to that stands at the start of a body.
pub open spec fn reading_body(
    input: Seq<u8>,
    at_end: bool,
    declared: Option<usize>,
    used: nat,
) -> Reading {
    match declared {
        None => Reading::End { used },
        Some(length) => if input.len() >= length {
            Reading::Message { body: input.take(length as int), used: used + length as nat }
        } else if at_end {
            Reading::Truncated
        } else {
            Reading::NeedMore
        },
    }
}

/// What an input amounts to that stands at the start of a header line, where
/// `declared` is the length that the lines before it declare. Of several
/// declared lengths the last one counts.
pub open spec fn reading_header(
    input: Seq<u8>,
    at_end: bool,
    declared: Option<usize>,
    used: nat,
) -> Reading
    decreases input.len(),
{
    if line_length(input) is None && !at_end {
        Reading::NeedMore
    } else if input.len() == 0 {
        Reading::End { used }
    } else {
        let n: nat = match line_length(input) {
            Some(n) => n,
            None => input.len(),
        };
        let rest = input.skip(n as int);
        proof {
            lemma_line_length(input);
        }
        if !valid_utf8(input.take(n as int)) {
            Reading::NotText
        } else {
            let line = line_text(input.take(n as int));
            if line.len() == 0 {
                reading_body(rest, at_end, declared, used + n)
            } else {
                let latest = match declared_length(line) {
                    Some(length) => Some(length),
                    None => declared,
                };
                reading_header(rest, at_end, latest, used + n)
            }
        }
    }
}

/// What the bytes received so far amount to; `at_end` tells that no more come.
pub open spec fn reading(input: Seq<u8>, at_end: bool) -> Reading {
    reading_header(input, at_end, None, 0)
}

/// The outcome of reading a message.
pub enum ReadOutcome {
    /// A whole message; `used` counts the bytes of its header and body.
    Message { body: Vec<u8>, used: usize },
    /// Nothing more is to be read; `used` counts the bytes of the header.
    End { used: usize },
    /// More input is needed.
    NeedMore,
    /// A header line is not valid UTF-8.
    NotText,
    /// The input ends within a body.
    Truncated,
}

impl View for ReadOutcome {
    type V = Reading;

    open spec fn view(&self) -> Reading {
        match self {
            ReadOutcome::Message { body, used } => Reading::Message {
                body: body@,
                used: *used as nat,
            },
            ReadOutcome::End { used } => Reading::End { used: *used as nat },
            ReadOutcome::NeedMore => Reading::NeedMore,
            ReadOutcome::NotText => Reading::NotText,
            ReadOutcome::Truncated => Reading::Truncated,
        }
    }
}

/// The length of the first line, with its newline.
fn find_line(input: &[u8]) -> (length: Option<usize>)
    ensures
        match length {
            Some(n) => line_length(input@) == Some(n as nat),
            None => line_length(input@) is None,
        },
{
    let mut i: usize = 0;
    while i < input.len()
        invariant
            i <= input@.len(),
            forall|j: int| 0 <= j < i ==> #[trigger] input@[j] != 10u8,
        decreases input@.len() - i,
    {
        if input[i] == 10u8 {
            proof {
                lemma_line_length_is(input@, (i + 1) as nat);
            }
            return Some(i + 1);
        }
        i += 1;
    }
    proof {
        lemma_line_length(input@);
    }
    None
}

/// The body length that a header line declares.
pub fn header_length(line: &[char]) -> (length: Option<usize>)
    ensures
        length == declared_length(line@),
{
    let name: Vec<char> = characters("Content-Length:");
    if !starts_with(line, name.as_slice()) {
        return None;
    }
    let value: &[char] = slice_subrange(line, name.len(), line.len());
    assert(value@ == line@.skip(name@.len() as int));
    parse_usize(trim(value))
}

/// Reads one message from the bytes received so far. `at_end` tells that no
/// more bytes will come.
pub fn read_message(input: &[u8], at_end: bool) -> (outcome: ReadOutcome)
    ensures
        outcome@ == reading(input@, at_end),
{
    let mut declared: Option<usize> = None;
    let mut used: usize = 0;
    assert(input@.skip(0) == input@);
    loop
        invariant
            used <= input@.len(),
            reading(input@, at_end) == reading_header(
                input@.skip(used as int),
                at_end,
                declared,
                used as nat,
            ),
        decreases input@.len() - used,
    {
        let rest: &[u8] = slice_subrange(input, used, input.len());
        assert(rest@ == input@.skip(used as int));
        let found: Option<usize> = find_line(rest);
        proof {
            lemma_line_length(rest@);
        }
        let n: usize = match found {
            Some(n) => n,
            None => {
                if !at_end {
                    return ReadOutcome::NeedMore;
                }
                if rest.len() == 0 {
                    return ReadOutcome::End { used };
                }
                rest.len()
            },
        };
        let bytes: &[u8] = slice_subrange(rest, 0, n);
        assert(bytes@ == rest@.take(n as int));
        let text: &str = match utf8_text(bytes) {
            Some(text) => text,
            None => {
                return ReadOutcome::NotText;
            },
        };
        proof {
            encode_utf8_decode_utf8(text@);
        }
        let chars: Vec<char> = characters(text);
        let line: &[char] = trim_line_end(chars.as_slice());
        used += n;
        assert(rest@.skip(n as int) == input@.skip(used as int));
        if line.len() == 0 {
            let body: &[u8] = slice_subrange(input, used, input.len());
            assert(body@ == input@.skip(used as int));
            match declared {
                None => {
                    return ReadOutcome::End { used };
                },
                Some(length) => {
                    if body.len() >= length {
                        let message: Vec<u8> = slice_to_vec(slice_subrange(body, 0, length));
                        assert(message@ == body@.take(length as int));
                        return ReadOutcome::Message { body: message, used: used + length };
                    }
                    if at_end {
                        return ReadOutcome::Truncated;
                    }
                    return ReadOutcome::NeedMore;
                },
            }
        }
        match header_length(line) {
            Some(length) => {
                declared = Some(length);
            },
            None => {},
        }
    }
}

/// Once the whole input is known, reading never waits for more.
pub proof fn reading_decides_at_end(input: Seq<u8>)
    ensures
        reading(input, true) !is NeedMore,
{
    lemma_header_decides(input, None, 0);
}

proof fn lemma_header_decides(input: Seq<u8>, declared: Option<usize>, used: nat)
    ensures
        reading_header(input, true, declared, used) !is NeedMore,
    decreases input.len(),
{
    lemma_line_length(input);
    if input.len() > 0 {
        let n: nat = match line_length(input) {
            Some(n) => n,
            None => input.len(),
        };
        let line = line_text(input.take(n as int));
        let latest = match declared_length(line) {
            Some(length) => Some(length),
            None => declared,
        };
        lemma_header_decides(input.skip(n as int), latest, used + n);
    }
}

/// What is read does not depend on how the input was cut into pieces: once
/// the bytes received so far decide, bytes that come later change nothing.
pub proof fn reading_is_stable(input: Seq<u8>, more: Seq<u8>, at_end: bool)
    requires
        reading(input, false) !is NeedMore,
    ensures
        reading(input + more, at_end) == reading(input, false),
{
    lemma_header_stable(input, more, at_end, None, 0);
}

proof fn lemma_header_stable(
    input: Seq<u8>,
    more: Seq<u8>,
    at_end: bool,
    declared: Option<usize>,
    used: nat,
)
    requires
        reading_header(input, false, declared, used) !is NeedMore,
    ensures
        reading_header(input + more, at_end, declared, used) == reading_header(
            input,
            false,
            declared,
            used,
        ),
    decreases input.len(),
{
    lemma_line_length(input);
    let n = line_length(input)->Some_0;
    let all = input + more;
    assert(all[n - 1] == input[n - 1]);
    assert forall|i: int| 0 <= i < n - 1 implies #[trigger] all[i] != '\n' as u8 by {
        assert(all[i] == input[i]);
    }
    lemma_line_length_is(all, n);
    assert(all.take(n as int) == input.take(n as int));
    assert(all.skip(n as int) == input.skip(n as int) + more);
    if valid_utf8(input.take(n as int)) {
        let line = line_text(input.take(n as int));
        let rest = input.skip(n as int);
        if line.len() == 0 {
            if declared is Some && rest.len() >= declared->Some_0 {
                assert((rest + more).take(declared->Some_0 as int) == rest.take(
                    declared->Some_0 as int,
                ));
            }
        } else {
            let latest = match declared_length(line) {
                Some(length) => Some(length),
                None => declared,
            };
            lemma_header_stable(rest, more, at_end, latest, used + n);
        }
    }
}

/// A message that is read is a part of the input: its body ends where the
/// next message begins. Without a message no more is used than there is.
pub proof fn reading_takes_a_piece(input: Seq<u8>, at_end: bool)
    ensures
        reading(input, at_end) matches Reading::Message { body, used } ==> body.len() <= used
            <= input.len() && body == input.subrange(used - body.len(), used as int),
        reading(input, at_end) matches Reading::End { used } ==> used <= input.len(),
{
    assert(input.skip(0) == input);
    lemma_header_piece(input, at_end, None, 0);
}

proof fn lemma_header_piece(input: Seq<u8>, at_end: bool, declared: Option<usize>, used: nat)
    requires
        used <= input.len(),
    ensures
        reading_header(input.skip(used as int), at_end, declared, used) matches Reading::Message {
            body,
            used: end,
        } ==> used + body.len() <= end <= input.len() && body == input.subrange(
            end - body.len(),
            end as int,
        ),
        reading_header(input.skip(used as int), at_end, declared, used) matches Reading::End {
            used: end,
        } ==> used <= end <= input.len(),
    decreases input.len() - used,
{
    let here = input.skip(used as int);
    lemma_line_length(here);
    if !(line_length(here) is None && !at_end) && here.len() > 0 {
        let n: nat = match line_length(here) {
            Some(n) => n,
            None => here.len(),
        };
        assert(here.skip(n as int) == input.skip((used + n) as int));
        let line = line_text(here.take(n as int));
        let latest = match declared_length(line) {
            Some(length) => Some(length),
            None => declared,
        };
        lemma_header_piece(input, at_end, latest, used + n);
        if declared is Some && here.skip(n as int).len() >= declared->Some_0 {
            let length = declared->Some_0 as int;
            assert(here.skip(n as int).take(length) == input.subrange(
                (used + n) as int,
                used + n + length,
            ));
        }
    }
}

/// A framed message reads back as the body it was made from, and reading it
/// uses just the bytes of the frame, whatever follows.
pub proof fn frame_round_trip(body: Seq<u8>, rest: Seq<u8>, at_end: bool)
    requires
        body.len() <= usize::MAX,
    ensures
        reading(framed(body) + rest, at_end) == (Reading::Message { body, used: framed(body).len() }),
{
    let length = body.len();
    let header = header_text(length);
    let bytes = encode_utf8(header);
    let digits = decimal_text(length);
    let input = framed(body) + rest;
    reveal_strlit("Content-Length: ");
    reveal_strlit("Content-Length:");
    reveal_strlit("\r\n\r\n");
    lemma_header_ascii(length);
    is_ascii_chars_encode_utf8(header);
    decimal_round_trip(length);

    // The first line.
    let content = "Content-Length: "@ + digits;
    let first = content + seq!['\r', '\n'];
    let n: nat = first.len();
    assert(header == first + seq!['\r', '\n']);
    assert forall|i: int| 0 <= i < n - 1 implies #[trigger] input[i] != '\n' as u8 by {
        assert(input[i] == header[i] as u8);
        if 16 <= i < n - 2 {
            assert(header[i] == digits[i - 16]);
            assert(decimal_digit(digits[i - 16]));
        }
    }
    assert(input[n - 1] == header[n - 1] as u8);
    lemma_line_length_is(input, n);
    assert(is_ascii_chars(first)) by {
        is_ascii_chars_concat(header, first, seq!['\r', '\n']);
    }
    is_ascii_chars_encode_utf8(first);
    assert(input.take(n as int) == encode_utf8(first)) by {
        assert forall|i: int| 0 <= i < n implies input.take(n as int)[i] == encode_utf8(first)[i] by {
            assert(first[i] == header[i]);
        }
    }
    encode_utf8_valid_utf8(first);
    encode_utf8_decode_utf8(first);
    assert(without_line_end(first) == content) by {
        assert(first.drop_last().drop_last() == content);
        assert(without_line_end(first) == without_line_end(first.drop_last()));
        assert(without_line_end(first.drop_last()) == without_line_end(content));
        assert(decimal_digit(digits.last()));
        assert(content.last() == digits.last());
    }
    assert("Content-Length:"@ == content.subrange(0, 15));
    let value = content.skip(15);
    assert(value == seq![' '] + digits);
    assert(trimmed(value) == digits) by {
        assert(value.drop_first() == digits);
        assert(decimal_digit(digits.first()));
        assert(without_leading_space(value) == without_leading_space(digits));
        assert(decimal_digit(digits.last()));
    }
    assert(declared_length(content) == Some(length as usize)) by {
        assert(decimal_digit(digits[0]));
    }

    // The empty line.
    let after = input.skip(n as int);
    let second = seq!['\r', '\n'];
    assert(after[0] == header[n as int] as u8);
    assert(after[1] == header[n as int + 1] as u8);
    lemma_line_length_is(after, 2);
    is_ascii_chars_encode_utf8(second);
    assert(after.take(2) == encode_utf8(second));
    encode_utf8_valid_utf8(second);
    encode_utf8_decode_utf8(second);
    assert(without_line_end(second).len() == 0) by {
        assert(without_line_end(second) == without_line_end(second.drop_last()));
        assert(without_line_end(second.drop_last()) == without_line_end(
            second.drop_last().drop_last(),
        ));
    }

    // The body.
    let tail = after.skip(2);
    assert(tail == body + rest);
    assert(tail.take(length as int) == body);
    assert(reading_header(after, at_end, Some(length as usize), n) == reading_body(
        tail,
        at_end,
        Some(length as usize),
        n + 2,
    ));
}

/// Whether a text is a single line of a header that declares no length.
pub open spec fn undeclared_line(line: Seq<char>) -> bool {
    &&& line.len() > 0
    &&& line.last() == '\n'
    &&& forall|i: int| 0 <= i < line.len() - 1 ==> #[trigger] line[i] != '\n'
    &&& is_ascii_chars(line)
    &&& without_line_end(line).len() > 0
    &&& declared_length(without_line_end(line)) is None
}

/// Behind a header that declares no length nothing is read: it is the end, and
/// whatever follows the empty line stays unread.
pub proof fn nothing_is_read_without_a_length(line: Seq<char>, rest: Seq<u8>, at_end: bool)
    requires
        undeclared_line(line),
    ensures
        reading(encode_utf8(line + seq!['\r', '\n']) + rest, at_end) == (Reading::End {
            used: line.len() + 2,
        }),
{
    let second = seq!['\r', '\n'];
    let header = line + second;
    let input = encode_utf8(header) + rest;
    let n: nat = line.len();
    assert(is_ascii_chars(second));
    assert(is_ascii_chars(header)) by {
        is_ascii_chars_concat(header, line, second);
    }
    is_ascii_chars_encode_utf8(line);
    is_ascii_chars_encode_utf8(second);
    is_ascii_chars_encode_utf8(header);
    assert forall|i: int| 0 <= i < n - 1 implies #[trigger] input[i] != '\n' as u8 by {
        assert(input[i] == header[i] as u8);
        assert(header[i] == line[i]);
    }
    assert(input[n - 1] == header[n - 1] as u8);
    lemma_line_length_is(input, n);
    assert(input.take(n as int) == encode_utf8(line)) by {
        assert forall|i: int| 0 <= i < n implies input.take(n as int)[i] == encode_utf8(line)[i] by {
            assert(header[i] == line[i]);
        }
    }
    encode_utf8_valid_utf8(line);
    encode_utf8_decode_utf8(line);
    let after = input.skip(n as int);
    assert(after[0] == header[n as int] as u8);
    assert(after[1] == header[n as int + 1] as u8);
    lemma_line_length_is(after, 2);
    assert(after.take(2) == encode_utf8(second));
    encode_utf8_valid_utf8(second);
    encode_utf8_decode_utf8(second);
    assert(without_line_end(second).len() == 0) by {
        assert(without_line_end(second) == without_line_end(second.drop_last()));
        assert(without_line_end(second.drop_last()) == without_line_end(
            second.drop_last().drop_last(),
        ));
    }
    assert(reading_header(after, at_end, None, n) == reading_body(
        after.skip(2),
        at_end,
        None,
        n + 2,
    ));
}

/// Several messages as they go over the wire one after another.
pub open spec fn stream_of(bodies: Seq<Seq<u8>>) -> Seq<u8>
    decreases bodies.len(),
{
    if bodies.len() == 0 {
        Seq::empty()
    } else {
        framed(bodies.first()) + stream_of(bodies.drop_first())
    }
}

/// The messages that are read from a stream, one after another, until there is
/// none.
pub open spec fn messages_in(stream: Seq<u8>) -> Seq<Seq<u8>>
    decreases stream.len(),
{
    match reading(stream, true) {
        Reading::Message { body, used } => if 0 < used <= stream.len() {
            seq![body] + messages_in(stream.skip(used as int))
        } else {
            Seq::empty()
        },
        _ => Seq::empty(),
    }
}

/// Messages that are sent one after another are read one after another: the
/// same ones, in the same order.
pub proof fn stream_round_trip(bodies: Seq<Seq<u8>>)
    requires
        forall|i: int| 0 <= i < bodies.len() ==> (#[trigger] bodies[i]).len() <= usize::MAX,
    ensures
        messages_in(stream_of(bodies)) == bodies,
    decreases bodies.len(),
{
    let stream = stream_of(bodies);
    if bodies.len() == 0 {
        assert(line_length(stream) is None);
        assert(messages_in(stream) == bodies);
    } else {
        let body = bodies.first();
        let others = bodies.drop_first();
        assert(body == bodies[0]);
        assert forall|i: int| 0 <= i < others.len() implies (#[trigger] others[i]).len()
            <= usize::MAX by {
            assert(others[i] == bodies[i + 1]);
        }
        stream_round_trip(others);
        frame_round_trip(body, stream_of(others), true);
        assert(framed(body).len() > 0) by {
            lemma_header_ascii(body.len());
            is_ascii_chars_encode_utf8(header_text(body.len()));
            reveal_strlit("\r\n\r\n");
        }
        assert(stream.skip(framed(body).len() as int) == stream_of(others));
        assert(seq![body] + others == bodies);
    }
}

/// A framed message is the field name, the number of bytes of the body in
/// decimal, an empty line, and the body.
pub proof fn frames_name_the_length(body: Seq<u8>)
    ensures
        framed(body) == encode_utf8("Content-Length: "@) + encode_utf8(decimal_text(body.len()))
            + encode_utf8("\r\n\r\n"@) + body,
{
    let name = "Content-Length: "@;
    let digits = decimal_text(body.len());
    let blank = "\r\n\r\n"@;
    reveal_strlit("Content-Length: ");
    reveal_strlit("\r\n\r\n");
    lemma_header_ascii(body.len());
    is_ascii_chars_encode_utf8(header_text(body.len()));
    is_ascii_chars_encode_utf8(name);
    is_ascii_chars_encode_utf8(digits);
    is_ascii_chars_encode_utf8(blank);
    assert(encode_utf8(header_text(body.len())) == encode_utf8(name) + encode_utf8(digits)
        + encode_utf8(blank));
}

/// Lines, one after another.
pub open spec fn joined(lines: Seq<Seq<u8>>) -> Seq<u8>
    decreases lines.len(),
{
    if lines.len() == 0 {
        Seq::empty()
    } else {
        lines.first() + joined(lines.drop_first())
    }
}

/// Whether bytes are one line of text with its newline.
pub open spec fn text_line(line: Seq<u8>) -> bool {
    &&& line.len() > 0
    &&& line.last() == 10
    &&& forall|i: int| 0 <= i < line.len() - 1 ==> #[trigger] line[i] != 10
    &&& valid_utf8(line)
}

/// Whether a line is empty but for its line ending.
pub open spec fn empty_line(line: Seq<u8>) -> bool {
    text_line(line) && without_line_end(decode_utf8(line)).len() == 0
}

/// Whether lines can stand in a header: none of them is empty.
pub open spec fn header_lines(lines: Seq<Seq<u8>>) -> bool {
    forall|i: int|
        0 <= i < lines.len() ==> text_line(#[trigger] lines[i]) && without_line_end(
            decode_utf8(lines[i]),
        ).len() > 0
}

/// The number that a header line gives behind the field name of the length,
/// with white space around it ignored.
pub open spec fn length_in(line: Seq<u8>) -> Option<usize> {
    let content = without_line_end(decode_utf8(line));
    if "Content-Length:"@.is_prefix_of(content) {
        parsed_usize(trimmed(content.skip("Content-Length:"@.len() as int)))
    } else {
        None
    }
}

/// Whether none of several header lines gives a length.
pub open spec fn no_length_in(lines: Seq<Seq<u8>>) -> bool {
    forall|i: int| 0 <= i < lines.len() ==> length_in(#[trigger] lines[i]) is None
}

/// The length that header lines declare behind an earlier one.
spec fn latest_length(lines: Seq<Seq<u8>>, declared: Option<usize>) -> Option<usize>
    decreases lines.len(),
{
    if lines.len() == 0 {
        declared
    } else {
        latest_length(
            lines.drop_first(),
            match length_in(lines.first()) {
                Some(length) => Some(length),
                None => declared,
            },
        )
    }
}

proof fn lemma_one_line(
    line: Seq<u8>,
    rest: Seq<u8>,
    at_end: bool,
    declared: Option<usize>,
    used: nat,
)
    requires
        text_line(line),
    ensures
        reading_header(line + rest, at_end, declared, used) == (if empty_line(line) {
            reading_body(rest, at_end, declared, used + line.len())
        } else {
            reading_header(
                rest,
                at_end,
                match length_in(line) {
                    Some(length) => Some(length),
                    None => declared,
                },
                used + line.len(),
            )
        }),
{
    let input = line + rest;
    let n = line.len();
    assert forall|i: int| 0 <= i < n - 1 implies #[trigger] input[i] != '\n' as u8 by {
        assert(input[i] == line[i]);
    }
    assert(input[n - 1] == line[n - 1]);
    lemma_line_length_is(input, n);
    assert(input.take(n as int) == line);
    assert(input.skip(n as int) == rest);
}

proof fn lemma_lines(
    lines: Seq<Seq<u8>>,
    rest: Seq<u8>,
    at_end: bool,
    declared: Option<usize>,
    used: nat,
)
    requires
        header_lines(lines),
    ensures
        reading_header(joined(lines) + rest, at_end, declared, used) == reading_header(
            rest,
            at_end,
            latest_length(lines, declared),
            used + joined(lines).len(),
        ),
    decreases lines.len(),
{
    if lines.len() == 0 {
        assert(joined(lines) + rest == rest);
    } else {
        let line = lines.first();
        let others = lines.drop_first();
        assert(line == lines[0]);
        assert forall|i: int| 0 <= i < others.len() implies text_line(#[trigger] others[i])
            && without_line_end(decode_utf8(others[i])).len() > 0 by {
            assert(others[i] == lines[i + 1]);
        }
        let next = match length_in(line) {
            Some(length) => Some(length),
            None => declared,
        };
        lemma_one_line(line, joined(others) + rest, at_end, declared, used);
        lemma_lines(others, rest, at_end, next, used + line.len());
        assert(joined(lines) + rest == line + (joined(others) + rest));
    }
}

proof fn lemma_no_length(lines: Seq<Seq<u8>>, declared: Option<usize>)
    requires
        no_length_in(lines),
    ensures
        latest_length(lines, declared) == declared,
    decreases lines.len(),
{
    if lines.len() > 0 {
        let others = lines.drop_first();
        assert(lines.first() == lines[0]);
        assert forall|i: int| 0 <= i < others.len() implies length_in(#[trigger] others[i]) is None by {
            assert(others[i] == lines[i + 1]);
        }
        lemma_no_length(others, declared);
    }
}

/// A header line gives a length if and only if it begins with the name of the
/// field, just so written, and the rest is a number that fits, with white space
/// around it. Other fields give none.
pub proof fn only_the_length_field_gives_a_length(line: Seq<u8>)
    requires
        text_line(line),
    ensures
        !"Content-Length:"@.is_prefix_of(decode_utf8(line)) ==> length_in(line) is None,
        "Content-Length:"@.is_prefix_of(decode_utf8(line)) ==> length_in(line) == parsed_usize(
            trimmed(without_line_end(decode_utf8(line)).skip(15)),
        ),
{
    let text = decode_utf8(line);
    let content = without_line_end(text);
    reveal_strlit("Content-Length:");
    only_line_ends_are_cut(text);
    if "Content-Length:"@.is_prefix_of(content) {
        assert(content.subrange(0, 15) == text.subrange(0, 15));
    }
    if "Content-Length:"@.is_prefix_of(text) {
        assert(text[14] == text.subrange(0, 15)[14]);
        assert forall|i: int| 0 <= i < 15 implies text[i] != '\r' && text[i] != '\n' by {
            assert(text[i] == text.subrange(0, 15)[i]);
        }
        assert(content.len() >= 15) by {
            if content.len() < 15 {
                assert(text[content.len() as int] == '\r' || text[content.len() as int] == '\n');
            }
        }
        assert(content.subrange(0, 15) == text.subrange(0, 15));
    }
}

/// Behind a header without a length nothing is read, whatever lines it has:
/// what follows the empty line stays unread.
pub proof fn headers_without_length_end_the_input(
    lines: Seq<Seq<u8>>,
    blank: Seq<u8>,
    rest: Seq<u8>,
    at_end: bool,
)
    requires
        header_lines(lines),
        no_length_in(lines),
        empty_line(blank),
    ensures
        reading(joined(lines) + blank + rest, at_end) == (Reading::End {
            used: joined(lines).len() + blank.len(),
        }),
{
    assert(joined(lines) + blank + rest == joined(lines) + (blank + rest));
    lemma_lines(lines, blank + rest, at_end, None, 0);
    lemma_no_length(lines, None);
    lemma_one_line(blank, rest, at_end, None, joined(lines).len());
}

/// The last length that a header gives counts: the body is so many bytes behind
/// the empty line, whatever other lines stand before and behind the length.
/// Where fewer bytes have come, more are needed, or the body is cut off.
pub proof fn the_last_length_counts(
    before: Seq<Seq<u8>>,
    line: Seq<u8>,
    after: Seq<Seq<u8>>,
    blank: Seq<u8>,
    rest: Seq<u8>,
    at_end: bool,
)
    requires
        header_lines(before),
        text_line(line),
        length_in(line) is Some,
        header_lines(after),
        no_length_in(after),
        empty_line(blank),
    ensures
        ({
            let header = joined(before) + line + joined(after) + blank;
            let length = length_in(line)->Some_0;
            reading(header + rest, at_end) == (if rest.len() >= length {
                Reading::Message {
                    body: rest.take(length as int),
                    used: header.len() + length as nat,
                }
            } else if at_end {
                Reading::Truncated
            } else {
                Reading::NeedMore
            })
        }),
{
    let length = length_in(line)->Some_0;
    let content = without_line_end(decode_utf8(line));
    reveal_strlit("Content-Length:");
    assert(content.len() > 0);
    let a = joined(before);
    let c = joined(after);
    let n1 = a.len();
    let n2 = n1 + line.len();
    let n3 = n2 + c.len();
    assert(a + line + c + blank + rest == a + (line + (c + (blank + rest))));
    lemma_lines(before, line + (c + (blank + rest)), at_end, None, 0);
    lemma_one_line(line, c + (blank + rest), at_end, latest_length(before, None), n1);
    lemma_lines(after, blank + rest, at_end, Some(length), n2);
    lemma_no_length(after, Some(length));
    lemma_one_line(blank, rest, at_end, Some(length), n3);
}

/// Lines that name another field do not matter, before or behind the length: the
/// message is read as if they were not there.
pub proof fn other_fields_do_not_matter(
    before: Seq<Seq<u8>>,
    after: Seq<Seq<u8>>,
    body: Seq<u8>,
    rest: Seq<u8>,
    at_end: bool,
)
    requires
        header_lines(before),
        header_lines(after),
        forall|i: int|
            0 <= i < before.len() ==> !"Content-Length:"@.is_prefix_of(
                decode_utf8(#[trigger] before[i]),
            ),
        forall|i: int|
            0 <= i < after.len() ==> !"Content-Length:"@.is_prefix_of(
                decode_utf8(#[trigger] after[i]),
            ),
        body.len() <= usize::MAX,
    ensures
        ({
            let line = encode_utf8("Content-Length: "@ + decimal_text(body.len()) + "\r\n"@);
            let message = joined(before) + line + joined(after) + encode_utf8("\r\n"@) + body;
            reading(message + rest, at_end) == (Reading::Message { body, used: message.len() })
        }),
{
    let line = encode_utf8("Content-Length: "@ + decimal_text(body.len()) + "\r\n"@);
    let blank = encode_utf8("\r\n"@);
    lemma_length_line(body.len());
    lemma_blank_line();
    assert forall|i: int| 0 <= i < after.len() implies length_in(#[trigger] after[i]) is None by {
        only_the_length_field_gives_a_length(after[i]);
    }
    the_last_length_counts(before, line, after, blank, body + rest, at_end);
    let header = joined(before) + line + joined(after) + blank;
    assert(header + body + rest == header + (body + rest));
    assert((body + rest).take(body.len() as int) == body);
}

proof fn lemma_ascii_line(text: Seq<char>)
    requires
        is_ascii_chars(text),
        text.len() > 0,
        text.last() == '\n',
        forall|i: int| 0 <= i < text.len() - 1 ==> #[trigger] text[i] != '\n',
    ensures
        text_line(encode_utf8(text)),
        decode_utf8(encode_utf8(text)) == text,
{
    is_ascii_chars_encode_utf8(text);
    encode_utf8_valid_utf8(text);
    encode_utf8_decode_utf8(text);
    let line = encode_utf8(text);
    assert forall|i: int| 0 <= i < line.len() - 1 implies #[trigger] line[i] != 10 by {
        assert(line[i] == text[i] as u8);
    }
    assert(line[line.len() - 1] == text[text.len() - 1] as u8);
}

proof fn lemma_blank_line()
    ensures
        empty_line(encode_utf8("\r\n"@)),
{
    let text = "\r\n"@;
    reveal_strlit("\r\n");
    lemma_ascii_line(text);
    assert(without_line_end(text) == without_line_end(text.drop_last()));
    assert(without_line_end(text.drop_last()) == without_line_end(text.drop_last().drop_last()));
}

proof fn lemma_length_line(length: nat)
    requires
        length <= usize::MAX,
    ensures
        text_line(encode_utf8("Content-Length: "@ + decimal_text(length) + "\r\n"@)),
        length_in(encode_utf8("Content-Length: "@ + decimal_text(length) + "\r\n"@)) == Some(
            length as usize,
        ),
{
    let digits = decimal_text(length);
    let content = "Content-Length: "@ + digits;
    let text = content + "\r\n"@;
    let value = seq![' '] + digits;
    reveal_strlit("Content-Length:");
    reveal_strlit("Content-Length: ");
    reveal_strlit("\r\n");
    decimal_round_trip(length);
    lemma_header_ascii(length);
    assert(decimal_digit(digits[0]) && decimal_digit(digits.last()));
    assert forall|i: int| 0 <= i < text.len() implies '\0' <= #[trigger] text[i] <= '\u{7f}' && (i
        < text.len() - 1 ==> text[i] != '\n') by {
        if 16 <= i < 16 + digits.len() {
            assert(text[i] == digits[i - 16]);
            assert(decimal_digit(digits[i - 16]));
        }
    }
    lemma_ascii_line(text);
    assert(without_line_end(text) == content) by {
        assert(text.drop_last().drop_last() == content);
        assert(without_line_end(text) == without_line_end(text.drop_last()));
        assert(without_line_end(text.drop_last()) == without_line_end(content));
        assert(content.last() == digits.last());
    }
    assert(content.subrange(0, 15) == "Content-Length:"@);
    assert(content.skip(15) == value);
    assert(trimmed(value) == digits) by {
        assert(value.drop_first() == digits);
        assert(without_leading_space(value) == without_leading_space(digits));
    }
    assert(digits == unsigned_part(digits));
}

/// Before a header is complete more input is needed. Where none comes, it is the
/// end, and all of the input is used, unless what there is of the last line is
/// not text.
pub proof fn headers_have_to_be_complete(lines: Seq<Seq<u8>>, start: Seq<u8>)
    requires
        header_lines(lines),
        forall|i: int| 0 <= i < start.len() ==> #[trigger] start[i] != 10,
    ensures
        reading(joined(lines) + start, false) is NeedMore,
        start.len() > 0 && !valid_utf8(start) ==> reading(joined(lines) + start, true) is NotText,
        start.len() == 0 || valid_utf8(start) && without_line_end(decode_utf8(start)).len() > 0
            ==> reading(joined(lines) + start, true) == (Reading::End {
            used: joined(lines).len() + start.len(),
        }),
        start.len() > 0 && valid_utf8(start) && no_length_in(lines) ==> reading(
            joined(lines) + start,
            true,
        ) == (Reading::End { used: joined(lines).len() + start.len() }),
{
    let n = joined(lines).len();
    if no_length_in(lines) {
        lemma_no_length(lines, None);
    }
    assert(line_length(start) is None) by {
        lemma_line_length(start);
    }
    lemma_lines(lines, start, false, None, 0);
    lemma_lines(lines, start, true, None, 0);
    assert(start.take(start.len() as int) == start);
    if start.len() > 0 && valid_utf8(start) && without_line_end(decode_utf8(start)).len() > 0 {
        let rest = start.skip(start.len() as int);
        let declared = latest_length(lines, None);
        let latest = match declared_length(line_text(start)) {
            Some(length) => Some(length),
            None => declared,
        };
        assert(reading_header(start, true, declared, n) == reading_header(
            rest,
            true,
            latest,
            n + start.len(),
        ));
        assert(line_length(rest) is None);
    }
}

/// A header line that is not valid UTF-8 is told, whatever follows.
pub proof fn headers_have_to_be_text(
    lines: Seq<Seq<u8>>,
    line: Seq<u8>,
    rest: Seq<u8>,
    at_end: bool,
)
    requires
        header_lines(lines),
        line.len() > 0,
        line.last() == 10,
        forall|i: int| 0 <= i < line.len() - 1 ==> #[trigger] line[i] != 10,
        !valid_utf8(line),
    ensures
        reading(joined(lines) + line + rest, at_end) is NotText,
{
    let tail = line + rest;
    assert(joined(lines) + line + rest == joined(lines) + tail);
    lemma_lines(lines, tail, at_end, None, 0);
    assert(tail[line.len() - 1] == line[line.len() - 1]);
    assert forall|i: int| 0 <= i < line.len() - 1 implies #[trigger] tail[i] != '\n' as u8 by {
        assert(tail[i] == line[i]);
    }
    lemma_line_length_is(tail, line.len());
    assert(tail.take(line.len() as int) == line);
}

/// The outcome of reading a message shows what was read.
pub proof fn outcomes_show_what_was_read(outcome: ReadOutcome)
    ensures
        outcome matches ReadOutcome::Message { body, used } ==> outcome@ == (Reading::Message {
            body: body@,
            used: used as nat,
        }),
        outcome matches ReadOutcome::End { used } ==> outcome@ == (Reading::End {
            used: used as nat,
        }),
        outcome is NeedMore <==> outcome@ is NeedMore,
        outcome is NotText <==> outcome@ is NotText,
        outcome is Truncated <==> outcome@ is Truncated,
{
}

}
