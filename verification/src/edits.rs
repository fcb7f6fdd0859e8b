//! Changes of a text document: places in a text, and what becomes of the text
//! when a piece of it is replaced. LSP counts a place by its line and by the
//! UTF-16 units before it in that line.

use crate::json::{json_of, member, Json, JsonNumber};
use crate::text::{characters, push_characters};
use serde_json::Value;
use vstd::prelude::*;
use vstd::slice::{slice_subrange, slice_to_vec};
use vstd::string::*;

verus! {

/// How many UTF-16 units a character takes.
pub open spec fn utf16_width(c: char) -> nat {
    if c as u32 >= 0x10000 {
        2
    } else {
        1
    }
}

/// How many characters the line ending takes that a text begins with.
pub open spec fn line_end_length(text: Seq<char>) -> nat {
    if text.len() == 0 {
        0
    } else if text[0] == '\r' && text.len() > 1 && text[1] == '\n' {
        2
    } else if text[0] == '\n' || text[0] == '\r' {
        1
    } else {
        0
    }
}

/// How many lines a text has. Behind a line ending there is always another.
pub open spec fn line_count(text: Seq<char>) -> nat
    decreases text.len(),
{
    if text.len() == 0 {
        1
    } else if line_end_length(text) > 0 {
        1 + line_count(text.skip(line_end_length(text) as int))
    } else {
        line_count(text.skip(1))
    }
}

/// Where a line begins; the end of the text where it has fewer lines.
pub open spec fn line_start(text: Seq<char>, line: nat) -> nat
    decreases text.len(),
{
    if line == 0 || text.len() == 0 {
        0
    } else if line_end_length(text) > 0 {
        let n = line_end_length(text);
        n + line_start(text.skip(n as int), (line - 1) as nat)
    } else {
        1 + line_start(text.skip(1), line)
    }
}

/// The place in the first line of a text that lies behind so many UTF-16
/// units, or at the end of the line where it is shorter. Within a character it
/// is the place before the character.
pub open spec fn column_place(text: Seq<char>, units: nat) -> nat
    decreases text.len(),
{
    if text.len() == 0 || line_end_length(text) > 0 || units < utf16_width(text[0]) {
        0
    } else {
        1 + column_place(text.skip(1), (units - utf16_width(text[0])) as nat)
    }
}

/// The place in a text at a line and at so many UTF-16 units in that line.
pub open spec fn place(text: Seq<char>, line: nat, units: nat) -> nat {
    let start = line_start(text, line);
    start + column_place(text.skip(start as int), units)
}

/// A line or a number of units as a position gives it: a whole number, where
/// one below zero counts as zero.
pub open spec fn coordinate(number: Json) -> Option<u64> {
    match number {
        Json::Number(JsonNumber::PosInt(n)) => Some(n),
        Json::Number(JsonNumber::NegInt(_)) => Some(0),
        _ => None,
    }
}

/// The place in a text that a position names; none where it is no position.
pub open spec fn place_of(text: Seq<char>, position: Json) -> Option<nat> {
    match (coordinate(position.at("line"@)), coordinate(position.at("character"@))) {
        (Some(line), Some(units)) => Some(place(text, line as nat, units as nat)),
        _ => None,
    }
}

/// A text with what lies between two places replaced, whichever comes first.
pub open spec fn spliced(text: Seq<char>, a: nat, b: nat, new: Seq<char>) -> Seq<char> {
    let from = if a <= b {
        a
    } else {
        b
    };
    let to = if a <= b {
        b
    } else {
        a
    };
    text.take(from as int) + new + text.skip(to as int)
}

/// A text with what lies in a range replaced. Where the range does not hold two
/// positions, the new text stands for the whole.
pub open spec fn replaced(text: Seq<char>, range: Json, new: Seq<char>) -> Seq<char> {
    match (place_of(text, range.at("start"@)), place_of(text, range.at("end"@))) {
        (Some(a), Some(b)) => spliced(text, a, b, new),
        _ => new,
    }
}

/// A text after a change: the text of the change where it has no range, else
/// the text with what lies in the range replaced. A change without a text
/// changes nothing.
pub open spec fn applied(text: Seq<char>, change: Json) -> Seq<char> {
    match change.at("text"@).text() {
        Some(new) => if change.at("range"@) is Null {
            new
        } else {
            replaced(text, change.at("range"@), new)
        },
        None => text,
    }
}

/// A text after several changes, one after another.
pub open spec fn applied_all(text: Seq<char>, changes: Seq<Json>) -> Seq<char>
    decreases changes.len(),
{
    if changes.len() == 0 {
        text
    } else {
        applied(applied_all(text, changes.drop_last()), changes.last())
    }
}

proof fn lemma_line_start_bound(text: Seq<char>, line: nat)
    ensures
        line_start(text, line) <= text.len(),
    decreases text.len(),
{
    if line > 0 && text.len() > 0 {
        let n = line_end_length(text);
        if n > 0 {
            lemma_line_start_bound(text.skip(n as int), (line - 1) as nat);
        } else {
            lemma_line_start_bound(text.skip(1), line);
        }
    }
}

proof fn lemma_column_bound(text: Seq<char>, units: nat)
    ensures
        column_place(text, units) <= text.len(),
    decreases text.len(),
{
    if text.len() > 0 && units >= utf16_width(text[0]) {
        lemma_column_bound(text.skip(1), (units - utf16_width(text[0])) as nat);
    }
}

/// A place lies in the text.
pub proof fn places_lie_in_the_text(text: Seq<char>, line: nat, units: nat)
    ensures
        place(text, line, units) <= text.len(),
{
    lemma_line_start_bound(text, line);
    lemma_column_bound(text.skip(line_start(text, line) as int), units);
}

/// How many characters the line ending takes that begins at a place.
fn line_end_at(text: &[char], at: usize) -> (length: usize)
    requires
        at < text@.len(),
    ensures
        length == line_end_length(text@.skip(at as int)),
{
    if text[at] == '\r' && text.len() - at > 1 && text[at + 1] == '\n' {
        2
    } else if text[at] == '\n' || text[at] == '\r' {
        1
    } else {
        0
    }
}

/// Where a line begins.
fn find_line(text: &[char], line: u64) -> (start: usize)
    ensures
        start == line_start(text@, line as nat),
        start <= text@.len(),
{
    let mut at: usize = 0;
    let mut left: u64 = line;
    assert(text@.skip(0) == text@);
    while left > 0 && at < text.len()
        invariant
            at <= text@.len(),
            line_start(text@, line as nat) == at + line_start(text@.skip(at as int), left as nat),
        decreases text@.len() - at,
    {
        let n: usize = line_end_at(text, at);
        if n > 0 {
            assert(text@.skip(at as int).skip(n as int) == text@.skip(at + n));
            at += n;
            left -= 1;
        } else {
            assert(text@.skip(at as int).skip(1) == text@.skip(at + 1));
            at += 1;
        }
    }
    at
}

/// The place behind so many UTF-16 units in the line that begins at `start`.
fn find_column(text: &[char], start: usize, units: u64) -> (found: usize)
    requires
        start <= text@.len(),
    ensures
        found == start + column_place(text@.skip(start as int), units as nat),
{
    let mut at: usize = start;
    let mut left: u64 = units;
    while at < text.len() && line_end_at(text, at) == 0
        invariant
            start <= at <= text@.len(),
            start + column_place(text@.skip(start as int), units as nat) == at + column_place(
                text@.skip(at as int),
                left as nat,
            ),
        decreases text@.len() - at,
    {
        let width: u64 = if text[at] as u32 >= 0x10000 {
            2
        } else {
            1
        };
        if left < width {
            return at;
        }
        assert(text@.skip(at as int).skip(1) == text@.skip(at + 1));
        at += 1;
        left -= width;
    }
    at
}

/// A line or a number of units as a position gives it.
fn read_coordinate(number: &Value) -> (read: Option<u64>)
    ensures
        read == coordinate(json_of(*number)),
{
    match number.as_u64() {
        Some(n) => Some(n),
        None => match number.as_i64() {
            Some(_) => Some(0),
            None => None,
        },
    }
}

/// The place in a text that a position names.
pub fn find_place(text: &[char], position: &Value) -> (found: Option<usize>)
    ensures
        match found {
            Some(n) => place_of(text@, json_of(*position)) == Some(n as nat),
            None => place_of(text@, json_of(*position)) is None,
        },
{
    let line: Option<u64> = read_coordinate(member(position, "line"));
    let units: Option<u64> = read_coordinate(member(position, "character"));
    match (line, units) {
        (Some(line), Some(units)) => Some(find_column(text, find_line(text, line), units)),
        _ => None,
    }
}

/// The text after a change.
pub fn apply_change(text: &[char], change: &Value) -> (after: Vec<char>)
    ensures
        after@ == applied(text@, json_of(*change)),
{
    let new: Vec<char> = match member(change, "text").as_str() {
        Some(new) => characters(new),
        None => {
            return slice_to_vec(text);
        },
    };
    let range: &Value = member(change, "range");
    if range.is_null() {
        return new;
    }
    match (find_place(text, member(range, "start")), find_place(text, member(range, "end"))) {
        (Some(a), Some(b)) => {
            proof {
                lemma_place_of_bound(text@, json_of(*range).at("start"@));
                lemma_place_of_bound(text@, json_of(*range).at("end"@));
            }
            let (from, to): (usize, usize) = if a <= b {
                (a, b)
            } else {
                (b, a)
            };
            let mut after: Vec<char> = Vec::new();
            after.extend_from_slice(slice_subrange(text, 0, from));
            after.extend_from_slice(new.as_slice());
            after.extend_from_slice(slice_subrange(text, to, text.len()));
            assert(after@ == text@.take(from as int) + new@ + text@.skip(to as int));
            after
        },
        _ => new,
    }
}

proof fn lemma_place_of_bound(text: Seq<char>, position: Json)
    ensures
        place_of(text, position) matches Some(n) ==> n <= text.len(),
{
    if let (Some(line), Some(units)) = (
        coordinate(position.at("line"@)),
        coordinate(position.at("character"@)),
    ) {
        places_lie_in_the_text(text, line as nat, units as nat);
    }
}

/// The text after several changes, one after another.
pub fn apply_changes(text: &str, changes: &Vec<Value>) -> (after: String)
    ensures
        after@ == applied_all(text@, changes@.map_values(|item: Value| json_of(item))),
{
    let ghost documents = changes@.map_values(|item: Value| json_of(item));
    let mut chars: Vec<char> = characters(text);
    let mut i: usize = 0;
    assert(documents.take(0).len() == 0);
    while i < changes.len()
        invariant
            i <= changes@.len(),
            documents == changes@.map_values(|item: Value| json_of(item)),
            chars@ == applied_all(text@, documents.take(i as int)),
        decreases changes@.len() - i,
    {
        let change: &Value = &changes[i];
        assert(documents.take(i + 1).drop_last() == documents.take(i as int));
        assert(documents.take(i + 1).last() == json_of(*change));
        chars = apply_change(chars.as_slice(), change);
        i += 1;
    }
    assert(documents.take(i as int) == documents);
    let mut after: String = String::new();
    push_characters(&mut after, chars.as_slice());
    assert(after@ == chars@);
    after
}

/// Changes are made one after another: those of two lists do what the first
/// list does and then what the second does.
pub proof fn changes_add_up(text: Seq<char>, first: Seq<Json>, second: Seq<Json>)
    ensures
        applied_all(text, first + second) == applied_all(applied_all(text, first), second),
    decreases second.len(),
{
    if second.len() == 0 {
        assert(first + second == first);
    } else {
        assert((first + second).drop_last() == first + second.drop_last());
        assert((first + second).last() == second.last());
        changes_add_up(text, first, second.drop_last());
    }
}

/// What came before a change without a range does not matter.
pub proof fn whole_texts_replace_all(text: Seq<char>, changes: Seq<Json>)
    requires
        changes.len() > 0,
        changes.last().at("range"@) is Null,
        changes.last().at("text"@) is Text,
    ensures
        Some(applied_all(text, changes)) == changes.last().at("text"@).text(),
{
}

/// To replace a piece of a text by itself changes nothing.
pub proof fn replacing_by_itself_changes_nothing(text: Seq<char>, a: nat, b: nat)
    requires
        a <= b <= text.len(),
    ensures
        spliced(text, a, b, text.subrange(a as int, b as int)) == text,
        spliced(text, b, a, text.subrange(a as int, b as int)) == text,
{
    let piece = text.subrange(a as int, b as int);
    assert(text.take(a as int) + piece + text.skip(b as int) == text);
}

/// What is replaced comes back when the new text is replaced by the old.
pub proof fn a_replacement_can_be_undone(text: Seq<char>, a: nat, b: nat, new: Seq<char>)
    requires
        a <= b <= text.len(),
    ensures
        spliced(
            spliced(text, a, b, new),
            a,
            a + new.len(),
            text.subrange(a as int, b as int),
        ) == text,
{
    let after = spliced(text, a, b, new);
    let piece = text.subrange(a as int, b as int);
    assert(after.take(a as int) == text.take(a as int));
    assert(after.skip((a + new.len()) as int) == text.skip(b as int));
    assert(text.take(a as int) + piece + text.skip(b as int) == text);
}

/// A line that the text does not have is at its end.
pub proof fn behind_the_last_line_is_the_end(text: Seq<char>, line: nat, units: nat)
    requires
        line >= line_count(text),
    ensures
        place(text, line, units) == text.len(),
{
    lemma_no_such_line(text, line);
    assert(text.skip(text.len() as int).len() == 0);
}

proof fn lemma_no_such_line(text: Seq<char>, line: nat)
    requires
        line >= line_count(text),
    ensures
        line_start(text, line) == text.len(),
    decreases text.len(),
{
    if text.len() > 0 {
        let n = line_end_length(text);
        lemma_line_count(text);
        if n > 0 {
            lemma_line_count(text.skip(n as int));
            lemma_no_such_line(text.skip(n as int), (line - 1) as nat);
        } else {
            lemma_no_such_line(text.skip(1), line);
        }
    }
}

proof fn lemma_line_count(text: Seq<char>)
    ensures
        line_count(text) > 0,
    decreases text.len(),
{
    if text.len() > 0 && line_end_length(text) == 0 {
        lemma_line_count(text.skip(1));
    }
}

proof fn lemma_columns_ordered(text: Seq<char>, less: nat, more: nat)
    requires
        less <= more,
    ensures
        column_place(text, less) <= column_place(text, more),
    decreases text.len(),
{
    if text.len() > 0 && less >= utf16_width(text[0]) {
        let width = utf16_width(text[0]);
        lemma_columns_ordered(text.skip(1), (less - width) as nat, (more - width) as nat);
    }
}

proof fn lemma_column_before_next_line(text: Seq<char>, units: nat, line: nat)
    requires
        line > 0,
    ensures
        column_place(text, units) <= line_start(text, line),
    decreases text.len(),
{
    if text.len() > 0 && line_end_length(text) == 0 && units >= utf16_width(text[0]) {
        lemma_column_before_next_line(
            text.skip(1),
            (units - utf16_width(text[0])) as nat,
            line,
        );
    }
}

proof fn lemma_line_after_line(text: Seq<char>, first: nat, more: nat)
    ensures
        line_start(text, first + more) == line_start(text, first) + line_start(
            text.skip(line_start(text, first) as int),
            more,
        ),
    decreases text.len(),
{
    if first == 0 || text.len() == 0 {
        assert(text.skip(0) == text);
    } else {
        let n = if line_end_length(text) > 0 {
            line_end_length(text)
        } else {
            1
        };
        let left = if line_end_length(text) > 0 {
            (first - 1) as nat
        } else {
            first
        };
        let rest = text.skip(n as int);
        lemma_line_after_line(rest, left, more);
        let start = line_start(rest, left);
        lemma_line_start_bound(rest, left);
        assert(rest.skip(start as int) == text.skip((start + n) as int));
        if line_end_length(text) > 0 {
            assert((first + more - 1) as nat == left + more);
        }
    }
}

/// Places lie in the order of their positions: first by the line, then by the
/// units in it.
pub proof fn places_follow_positions(
    text: Seq<char>,
    line: nat,
    units: nat,
    later_line: nat,
    later_units: nat,
)
    requires
        line < later_line || line == later_line && units <= later_units,
    ensures
        place(text, line, units) <= place(text, later_line, later_units),
{
    let start = line_start(text, line);
    let here = text.skip(start as int);
    if line == later_line {
        lemma_columns_ordered(here, units, later_units);
    } else {
        let more = (later_line - line) as nat;
        lemma_line_after_line(text, line, more);
        assert(line + more == later_line);
        lemma_column_before_next_line(here, units, more);
    }
}

/// Every place in a text has a position, except one within a line ending of
/// two characters.
pub proof fn places_have_positions(text: Seq<char>, n: nat)
    requires
        n <= text.len(),
        0 < n < text.len() ==> !(text[n - 1] == '\r' && text[n as int] == '\n'),
    ensures
        exists|line: nat, units: nat| #[trigger] place(text, line, units) == n,
    decreases text.len(),
{
    assert(text.skip(0) == text);
    if n == 0 {
        assert(place(text, 0, 0) == n);
    } else {
        let k = if line_end_length(text) > 0 {
            line_end_length(text)
        } else {
            1
        };
        let rest = text.skip(k as int);
        places_have_positions(rest, (n - k) as nat);
        let (line, units) = choose|line: nat, units: nat| #[trigger]
            place(rest, line, units) == n - k;
        let start = line_start(rest, line);
        lemma_line_start_bound(rest, line);
        assert(rest.skip(start as int) == text.skip((start + k) as int));
        if line_end_length(text) > 0 {
            assert(line_start(text, line + 1) == start + k);
            assert(place(text, line + 1, units) == n);
        } else if line > 0 {
            assert(line_start(text, line) == start + k);
            assert(place(text, line, units) == n);
        } else {
            assert(rest.skip(0) == rest);
            assert(column_place(text, units + utf16_width(text[0])) == n);
            assert(place(text, 0, units + utf16_width(text[0])) == n);
        }
    }
}

/// Behind a line ending the next line begins, and counts one less. A newline, a
/// carriage return, and the two together each end a line.
pub proof fn places_count_line_endings(text: Seq<char>, line: nat, units: nat)
    ensures
        place(seq!['\n'] + text, line + 1, units) == 1 + place(text, line, units),
        place(seq!['\r', '\n'] + text, line + 1, units) == 2 + place(text, line, units),
        text.len() == 0 || text[0] != '\n' ==> place(seq!['\r'] + text, line + 1, units) == 1
            + place(text, line, units),
{
    let start = line_start(text, line);
    lemma_line_start_bound(text, line);
    let a = seq!['\n'] + text;
    assert(a.skip(1) == text);
    assert(a.skip((1 + start) as int) == text.skip(start as int));
    let b = seq!['\r', '\n'] + text;
    assert(b.skip(2) == text);
    assert(b.skip((2 + start) as int) == text.skip(start as int));
    let c = seq!['\r'] + text;
    assert(c.skip(1) == text);
    assert(c.skip((1 + start) as int) == text.skip(start as int));
}

/// A character of a line counts one unit in that line, or two if it lies beyond
/// the first 65536, and nothing for later lines. Within such a character is the
/// place before it.
pub proof fn places_count_characters(c: char, text: Seq<char>, line: nat, units: nat)
    requires
        c != '\n',
        c != '\r',
    ensures
        place(seq![c] + text, line + 1, units) == 1 + place(text, line + 1, units),
        place(seq![c] + text, 0, 0) == 0,
        c as u32 >= 65536 ==> place(seq![c] + text, 0, 1) == 0 && place(
            seq![c] + text,
            0,
            units + 2,
        ) == 1 + place(text, 0, units),
        (c as u32) < 65536 ==> place(seq![c] + text, 0, units + 1) == 1 + place(text, 0, units),
{
    let all = seq![c] + text;
    let start = line_start(text, line + 1);
    lemma_line_start_bound(text, line + 1);
    assert(all.skip(1) == text);
    assert(all.skip(0) == all);
    assert(text.skip(0) == text);
    assert(all.skip((1 + start) as int) == text.skip(start as int));
}

/// Nothing lies behind the end of a text, nor behind the end of its first line
/// in that line.
pub proof fn places_stop_at_ends(text: Seq<char>, line: nat, units: nat)
    ensures
        text.len() == 0 ==> place(text, line, units) == 0,
        text.len() > 0 && (text[0] == '\n' || text[0] == '\r') ==> place(text, 0, units) == 0,
{
    assert(text.skip(0) == text);
}

/// A position is read by its whole numbers, where one below zero counts as zero.
/// Without two whole numbers it names no place.
pub proof fn positions_are_whole_numbers(text: Seq<char>, position: Json)
    ensures
        ({
            let line: Option<u64> = match position.at("line"@) {
                Json::Number(JsonNumber::PosInt(n)) => Some(n),
                Json::Number(JsonNumber::NegInt(_)) => Some(0),
                _ => None,
            };
            let units: Option<u64> = match position.at("character"@) {
                Json::Number(JsonNumber::PosInt(n)) => Some(n),
                Json::Number(JsonNumber::NegInt(_)) => Some(0),
                _ => None,
            };
            &&& line is Some && units is Some ==> place_of(text, position) == Some(
                place(text, line->Some_0 as nat, units->Some_0 as nat),
            )
            &&& line is None || units is None ==> place_of(text, position) is None
        }),
{
}

/// A change without a range gives its text. One with a range replaces what lies
/// between the two places, whichever comes first, and keeps what lies before and
/// behind. Where the range cannot be read, the change gives its text, and one
/// without a text changes nothing.
pub proof fn changes_replace_what_they_name(
    text: Seq<char>,
    change: Json,
    new: Seq<char>,
    a: nat,
    b: nat,
)
    ensures
        !(change.at("text"@) is Text) ==> applied(text, change) == text,
        change.at("text"@) == Json::Text(new) && change.at("range"@) is Null ==> applied(
            text,
            change,
        ) == new,
        change.at("text"@) == Json::Text(new) && !(change.at("range"@) is Null) && (place_of(
            text,
            change.at("range"@).at("start"@),
        ) is None || place_of(text, change.at("range"@).at("end"@)) is None) ==> applied(
            text,
            change,
        ) == new,
        change.at("text"@) == Json::Text(new) && place_of(text, change.at("range"@).at("start"@))
            == Some(a) && place_of(text, change.at("range"@).at("end"@)) == Some(b) ==> applied(
            text,
            change,
        ) == (if a <= b {
            text.take(a as int) + new + text.skip(b as int)
        } else {
            text.take(b as int) + new + text.skip(a as int)
        }),
{
}

/// A single change is made once, and no change leaves a text as it is.
pub proof fn one_change_is_made_once(text: Seq<char>, change: Json)
    ensures
        applied_all(text, Seq::empty()) == text,
        applied_all(text, seq![change]) == applied(text, change),
{
    assert(seq![change].drop_last() == Seq::<Json>::empty());
}

/// Typing at a place keeps the text before and behind it: the new text stands
/// where the position is.
pub proof fn insertions_keep_the_rest(text: Seq<char>, change: Json, new: Seq<char>, n: nat)
    requires
        change.at("text"@) == Json::Text(new),
        place_of(text, change.at("range"@).at("start"@)) == Some(n),
        place_of(text, change.at("range"@).at("end"@)) == Some(n),
    ensures
        applied(text, change).len() == text.len() + new.len(),
        applied(text, change).take(n as int) == text.take(n as int),
        applied(text, change).subrange(n as int, (n + new.len()) as int) == new,
        applied(text, change).skip((n + new.len()) as int) == text.skip(n as int),
{
    lemma_place_of_bound(text, change.at("range"@).at("start"@));
    let after = applied(text, change);
    assert(after == text.take(n as int) + new + text.skip(n as int));
}

}
