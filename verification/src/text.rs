//! Text as a sequence of characters: lines, words, numbers, and slices that borrow.
use std::borrow::Cow;

use vstd::prelude::*;
use vstd::utf8::{encode_scalar, encode_utf8, is_char_boundary};

use crate::std_items::is_white_space;

verus! {

/// Encoding a concatenation in UTF-8 concatenates the encodings.
pub proof fn lemma_encode_concat(a: Seq<char>, b: Seq<char>)
    ensures
        encode_utf8(a + b) == encode_utf8(a) + encode_utf8(b),
    decreases a.len(),
{
    if a.len() == 0 {
        assert(a + b == b);
        assert(encode_utf8(a) + encode_utf8(b) == encode_utf8(b));
    } else {
        lemma_encode_concat(a.drop_first(), b);
        assert((a + b).drop_first() == a.drop_first() + b);
        assert(encode_utf8(a + b) == encode_utf8(a) + encode_utf8(b));
    }
}

/// The end of the encoding of a prefix is a character boundary.
proof fn lemma_prefix_boundary(a: Seq<char>, b: Seq<char>)
    ensures
        is_char_boundary(encode_utf8(a + b), encode_utf8(a).len() as int),
    decreases a.len(),
{
    vstd::utf8::encode_utf8_valid_utf8(a + b);
    if a.len() > 0 {
        let all = encode_utf8(a + b);
        vstd::utf8::encode_utf8_first_scalar(a + b);
        assert((a + b).drop_first() == a.drop_first() + b);
        assert(vstd::utf8::pop_first_scalar(all) == encode_utf8(a.drop_first() + b));
        lemma_prefix_boundary(a.drop_first(), b);
        lemma_encode_concat(a, b);
    }
}

/// Two texts with the same encoding are the same text.
pub proof fn lemma_encode_injective(a: Seq<char>, b: Seq<char>)
    requires
        encode_utf8(a) == encode_utf8(b),
    ensures
        a == b,
{
    vstd::utf8::encode_utf8_decode_utf8(a);
    vstd::utf8::encode_utf8_decode_utf8(b);
}

/// The characters of `text`, one by one.
pub fn chars_of(text: &str) -> (chars: Vec<char>)
    ensures
        chars@ == text@,
{
    let mut chars: Vec<char> = Vec::new();
    for ch in iter: text.chars()
        invariant
            iter.seq() == text@,
            chars@ == iter.seq().take(iter.index() as int),
    {
        chars.push(ch);
    }
    chars
}

/// Splits `text` after its first `count` characters. Both halves borrow from it.
pub fn split_text<'a>(text: &'a str, count: usize) -> (halves: (&'a str, &'a str))
    requires
        count <= text@.len(),
    ensures
        halves.0@ == text@.take(count as int),
        halves.1@ == text@.skip(count as int),
{
    let total: usize = text.as_bytes().len();
    let mut offset: usize = 0;
    let mut index: usize = 0;
    for ch in iter: text.chars()
        invariant_except_break
            index == iter.index(),
        invariant
            total == encode_utf8(text@).len(),
            iter.seq() == text@,
            index <= count <= text@.len(),
            offset == encode_utf8(text@.take(index as int)).len(),
        ensures
            index == count,
    {
        if index == count {
            break;
        }
        proof {
            let before = text@.take(index as int);
            let after = text@.take(index + 1);
            assert(after == before + seq![ch]);
            lemma_encode_concat(before, seq![ch]);
            assert(encode_utf8(seq![ch]) == encode_scalar(ch as u32)) by {
                reveal_with_fuel(encode_utf8, 2);
                assert(seq![ch].drop_first() == Seq::<char>::empty());
            }
            lemma_encode_concat(after, text@.skip(index + 1));
            assert(after + text@.skip(index + 1) == text@);
        }
        offset += ch.len_utf8();
        index += 1;
    }
    let ghost head = text@.take(count as int);
    let ghost tail = text@.skip(count as int);
    proof {
        assert(head + tail == text@);
        lemma_prefix_boundary(head, tail);
        lemma_encode_concat(head, tail);
    }
    let halves = text.split_at(offset);
    proof {
        assert(encode_utf8(halves.0@) == encode_utf8(head));
        assert(encode_utf8(halves.1@) == encode_utf8(tail));
        lemma_encode_injective(halves.0@, head);
        lemma_encode_injective(halves.1@, tail);
    }
    halves
}

/// The index of the first character that `stop` holds of, or the length if there is none.
pub open spec fn position(text: Seq<char>, stop: spec_fn(char) -> bool) -> nat
    decreases text.len(),
{
    if text.len() == 0 || stop(text[0]) {
        0
    } else {
        1 + position(text.drop_first(), stop)
    }
}

/// `position` is the one index before which `stop` never holds and at which it does.
pub proof fn lemma_position(text: Seq<char>, stop: spec_fn(char) -> bool, index: int)
    requires
        0 <= index <= text.len(),
        forall|j: int| 0 <= j < index ==> !stop(#[trigger] text[j]),
        index < text.len() ==> stop(text[index]),
    ensures
        position(text, stop) == index,
    decreases index,
{
    if index > 0 {
        assert(!stop(text[0]));
        assert forall|j: int| 0 <= j < index - 1 implies !stop(
            #[trigger] text.drop_first()[j],
        ) by {
            assert(!stop(text[j + 1]));
        }
        lemma_position(text.drop_first(), stop, index - 1);
    }
}

/// `position` is within the text, and `stop` holds nowhere before it.
pub proof fn lemma_position_bounds(text: Seq<char>, stop: spec_fn(char) -> bool)
    ensures
        position(text, stop) <= text.len(),
        forall|j: int| 0 <= j < position(text, stop) ==> !stop(#[trigger] text[j]),
        position(text, stop) < text.len() ==> stop(text[position(text, stop) as int]),
    decreases text.len(),
{
    if text.len() > 0 && !stop(text[0]) {
        let rest = text.drop_first();
        lemma_position_bounds(rest, stop);
        assert forall|j: int| 0 <= j < position(text, stop) implies !stop(#[trigger] text[j]) by {
            if j > 0 {
                assert(!stop(rest[j - 1]));
            }
        }
    }
}

/// The texts that a sequence of string slices holds.
pub open spec fn views(slices: Seq<&str>) -> Seq<Seq<char>> {
    slices.map_values(|slice: &str| slice@)
}

/// `line` without a carriage return at its end.
pub open spec fn without_carriage_return(line: Seq<char>) -> Seq<char> {
    if line.len() > 0 && line.last() == '\r' {
        line.drop_last()
    } else {
        line
    }
}

/// The lines of a text, without their line endings. A line ends with `\n` or `\r\n`; the
/// ending of the last line is optional.
pub open spec fn lines(text: Seq<char>) -> Seq<Seq<char>>
    decreases text.len(),
{
    if text.len() == 0 {
        seq![]
    } else {
        let end = position(text, |ch: char| ch == '\n');
        if end >= text.len() {
            seq![text]
        } else {
            seq![without_carriage_return(text.take(end as int))] + lines(text.skip(end as int + 1))
        }
    }
}

/// The index of the first `ch` in `text`, or its length in characters if there is none.
fn position_of(text: &str, ch: char) -> (index: usize)
    ensures
        index == position(text@, |other: char| other == ch),
        index <= text@.len(),
{
    let ghost stop = |other: char| other == ch;
    let total: usize = text.unicode_len();
    let mut index: usize = 0;
    for other in iter: text.chars()
        invariant_except_break
            index == iter.index(),
        invariant
            iter.seq() == text@,
            index <= text@.len() == total,
            forall|j: int| 0 <= j < index ==> #[trigger] text@[j] != ch,
        ensures
            index < text@.len() ==> text@[index as int] == ch,
    {
        if other == ch {
            break;
        }
        index += 1;
    }
    proof {
        lemma_position(text@, stop, index as int);
    }
    index
}

/// The lines of `text`, which borrow from it.
pub fn lines_of<'a>(text: &'a str) -> (result: Vec<&'a str>)
    ensures
        views(result@) == lines(text@),
{
    let mut result: Vec<&'a str> = Vec::new();
    let mut rest: &'a str = text;
    while !rest.is_empty()
        invariant
            views(result@) + lines(rest@) == lines(text@),
        decreases rest@.len(),
    {
        let end: usize = position_of(rest, '\n');
        let total: usize = rest.unicode_len();
        let ghost before = result@;
        let ghost whole = rest@;
        if end == total {
            result.push(rest);
            rest = "";
            proof {
                reveal_strlit("");
                assert(rest@ == Seq::<char>::empty());
                assert(views(result@) == views(before) + seq![whole]);
                assert(views(before) + seq![whole] + lines(rest@) == views(before) + lines(whole));
            }
        } else {
            let line: &'a str = split_text(rest, end).0;
            let tail: &'a str = split_text(rest, end + 1).1;
            let clean: &'a str = strip_carriage_return(line);
            result.push(clean);
            rest = tail;
            proof {
                assert(views(result@) == views(before) + seq![clean@]);
                assert(lines(whole) == seq![clean@] + lines(tail@));
                assert(views(before) + seq![clean@] + lines(tail@) == views(before) + lines(whole));
            }
        }
    }
    proof {
        assert(lines(rest@) == Seq::<Seq<char>>::empty());
        assert(views(result@) + lines(rest@) == views(result@));
    }
    result
}

fn strip_carriage_return<'a>(line: &'a str) -> (clean: &'a str)
    ensures
        clean@ == without_carriage_return(line@),
{
    let total: usize = line.unicode_len();
    if total > 0 && line.get_char(total - 1) == '\r' {
        split_text(line, total - 1).0
    } else {
        line
    }
}

/// `text` without the white space at its start.
pub open spec fn trim_start(text: Seq<char>) -> Seq<char> {
    text.skip(position(text, |ch: char| !is_white_space(ch)) as int)
}

/// `text` without the white space at its end.
pub open spec fn trim_end(text: Seq<char>) -> Seq<char>
    decreases text.len(),
{
    if text.len() > 0 && is_white_space(text.last()) {
        trim_end(text.drop_last())
    } else {
        text
    }
}

/// `text` without the white space around it.
pub open spec fn trim(text: Seq<char>) -> Seq<char> {
    trim_end(trim_start(text))
}

/// A text that is empty once trimmed is white space all through.
pub proof fn lemma_trim_empty(text: Seq<char>)
    ensures
        trim(text).len() == 0 <==> forall|j: int|
            0 <= j < text.len() ==> is_white_space(#[trigger] text[j]),
{
    let solid = |ch: char| !is_white_space(ch);
    lemma_position_bounds(text, solid);
    let start = position(text, solid) as int;
    let rest = trim_start(text);
    if start < text.len() {
        assert(rest[0] == text[start]);
        lemma_trim_end_keeps(rest, 0);
    } else {
        assert forall|j: int| 0 <= j < text.len() implies is_white_space(#[trigger] text[j]) by {
            assert(!solid(text[j]));
        }
    }
}

/// Trimming the end keeps everything up to a character that is not white space.
proof fn lemma_trim_end_keeps(text: Seq<char>, index: int)
    requires
        0 <= index < text.len(),
        !is_white_space(text[index]),
    ensures
        trim_end(text).len() > index,
    decreases text.len(),
{
    if is_white_space(text.last()) {
        assert(text.drop_last()[index] == text[index]);
        lemma_trim_end_keeps(text.drop_last(), index);
    }
}

/// The index of the first character that is white space, or of the first that is not, or the
/// length if there is none.
fn position_of_white_space(text: &str, wanted: bool) -> (index: usize)
    ensures
        wanted ==> index == position(text@, |ch: char| is_white_space(ch)),
        !wanted ==> index == position(text@, |ch: char| !is_white_space(ch)),
        index <= text@.len(),
{
    let total: usize = text.unicode_len();
    let mut index: usize = 0;
    for other in iter: text.chars()
        invariant_except_break
            index == iter.index(),
        invariant
            iter.seq() == text@,
            index <= text@.len() == total,
            forall|j: int| 0 <= j < index ==> is_white_space(#[trigger] text@[j]) != wanted,
        ensures
            index < text@.len() ==> is_white_space(text@[index as int]) == wanted,
    {
        if other.is_whitespace() == wanted {
            break;
        }
        index += 1;
    }
    proof {
        if wanted {
            lemma_position(text@, |ch: char| is_white_space(ch), index as int);
        } else {
            lemma_position(text@, |ch: char| !is_white_space(ch), index as int);
        }
    }
    index
}

/// `text` without the white space around it; the result borrows from `text`.
pub fn trim_of<'a>(text: &'a str) -> (trimmed: &'a str)
    ensures
        trimmed@ == trim(text@),
{
    let start: usize = position_of_white_space(text, false);
    let rest: &'a str = split_text(text, start).1;
    let chars: Vec<char> = chars_of(rest);
    let mut end: usize = chars.len();
    assert(rest@.take(end as int) == rest@);
    while end > 0 && chars[end - 1].is_whitespace()
        invariant
            chars@ == rest@,
            end <= chars.len(),
            trim_end(rest@.take(end as int)) == trim_end(rest@),
        decreases end,
    {
        assert(rest@.take(end as int).drop_last() == rest@.take(end - 1));
        end -= 1;
    }
    assert(trim_end(rest@.take(end as int)) == rest@.take(end as int)) by {
        if end > 0 {
            assert(rest@.take(end as int).last() == chars@[end - 1]);
        }
    }
    split_text(rest, end).0
}

/// The words of a text: its longest runs without white space.
pub open spec fn words(text: Seq<char>) -> Seq<Seq<char>>
    decreases text.len(),
{
    let rest = trim_start(text);
    if rest.len() == 0 {
        seq![]
    } else {
        proof {
            lemma_word_not_empty(text);
        }
        let end = position(rest, |ch: char| is_white_space(ch)) as int;
        seq![rest.take(end)] + words(rest.skip(end))
    }
}

/// The first word of a text that is more than white space has at least one character.
pub proof fn lemma_word_not_empty(text: Seq<char>)
    requires
        trim_start(text).len() > 0,
    ensures
        trim_start(text).len() <= text.len(),
        0 < position(trim_start(text), |ch: char| is_white_space(ch)) <= trim_start(text).len(),
{
    let solid = |ch: char| !is_white_space(ch);
    lemma_position_bounds(text, solid);
    let rest = trim_start(text);
    lemma_position_bounds(rest, |ch: char| is_white_space(ch));
    assert(rest[0] == text[position(text, solid) as int]);
}

/// The words of `text`, which borrow from it.
pub fn words_of<'a>(text: &'a str) -> (result: Vec<&'a str>)
    ensures
        views(result@) == words(text@),
{
    let mut result: Vec<&'a str> = Vec::new();
    let mut tail: &'a str = text;
    loop
        invariant
            views(result@) + words(tail@) == words(text@),
        ensures
            views(result@) == words(text@),
        decreases tail@.len(),
    {
        let start: usize = position_of_white_space(tail, false);
        let rest: &'a str = split_text(tail, start).1;
        if rest.is_empty() {
            assert(views(result@) + words(tail@) == views(result@));
            break;
        }
        let end: usize = position_of_white_space(rest, true);
        let (word, after) = split_text(rest, end);
        let ghost before = result@;
        result.push(word);
        proof {
            lemma_word_not_empty(tail@);
            assert(views(result@) == views(before) + seq![word@]);
            assert(words(tail@) == seq![word@] + words(after@));
            assert(views(before) + seq![word@] + words(after@) == views(before) + words(tail@));
        }
        tail = after;
    }
    result
}

/// The decimal digit of a number below ten.
pub open spec fn digit(value: nat) -> char {
    ('0' as u32 + value) as char
}

/// A number in decimal notation, without leading zeros.
pub open spec fn decimal(value: nat) -> Seq<char>
    decreases value,
{
    if value < 10 {
        seq![digit(value)]
    } else {
        decimal(value / 10).push(digit(value % 10))
    }
}

/// `value` in decimal notation.
pub fn decimal_of(value: u128) -> (text: String)
    ensures
        text@ == decimal(value as nat),
    decreases value,
{
    let mut text: String = if value < 10 {
        String::new()
    } else {
        decimal_of(value / 10)
    };
    let last: u8 = (value % 10) as u8;
    text.push((48u8 + last) as char);
    assert(text@ == decimal(value as nat));
    text
}

/// The number that a run of decimal digits stands for.
pub open spec fn digits_value(digits: Seq<char>) -> nat
    decreases digits.len(),
{
    if digits.len() == 0 {
        0
    } else {
        10 * digits_value(digits.drop_last()) + (digits.last() as u32 - '0' as u32) as nat
    }
}

pub open spec fn is_digit(ch: char) -> bool {
    '0' <= ch <= '9'
}

pub open spec fn all_digits(text: Seq<char>) -> bool {
    forall|j: int| 0 <= j < text.len() ==> is_digit(#[trigger] text[j])
}

/// The number a text stands for: decimal digits, with an optional `+` before them.
pub open spec fn number(text: Seq<char>) -> Option<nat> {
    let digits = if text.len() > 0 && text[0] == '+' {
        text.drop_first()
    } else {
        text
    };
    if digits.len() > 0 && all_digits(digits) {
        Some(digits_value(digits))
    } else {
        None
    }
}

/// What decimal notation stands for is the number itself.
pub proof fn decimal_reads_back(value: nat)
    ensures
        number(decimal(value)) == Some(value),
{
    lemma_decimal_digits(value);
    assert(is_digit(decimal(value)[0]));
}

proof fn lemma_decimal_digits(value: nat)
    ensures
        decimal(value).len() > 0,
        all_digits(decimal(value)),
        digits_value(decimal(value)) == value,
    decreases value,
{
    if value >= 10 {
        lemma_decimal_digits(value / 10);
        assert(decimal(value).drop_last() == decimal(value / 10));
    } else {
        assert(decimal(value).drop_last() == Seq::<char>::empty());
        assert(digits_value(Seq::<char>::empty()) == 0);
    }
}

/// Reads a number: decimal digits with an optional `+` before them. `None` if the text is
/// anything else, or the number does not fit in 64 bits.
pub fn parse_u64(text: &str) -> (value: Option<u64>)
    ensures
        value == match number(text@) {
            Some(value) if value <= u64::MAX => Some(value as u64),
            _ => None,
        },
{
    let chars: Vec<char> = chars_of(text);
    let start: usize = if chars.len() > 0 && chars[0] == '+' {
        1
    } else {
        0
    };
    let ghost digits = chars@.skip(start as int);
    assert(digits == if text@.len() > 0 && text@[0] == '+' {
        text@.drop_first()
    } else {
        text@
    });
    if start == chars.len() {
        return None;
    }
    let mut value: u64 = 0;
    let mut index: usize = start;
    let mut fits: bool = true;
    while index < chars.len()
        invariant
            start <= index <= chars.len(),
            digits == chars@.skip(start as int),
            number(text@) is Some ==> all_digits(digits),
            forall|j: int| 0 <= j < index - start ==> is_digit(#[trigger] digits[j]),
            fits ==> value == digits_value(digits.take(index - start)),
            !fits ==> digits_value(digits.take(index - start)) > u64::MAX,
        decreases chars.len() - index,
    {
        let ch: char = chars[index];
        assert(digits[index - start] == ch);
        if ch < '0' || ch > '9' {
            assert(!all_digits(digits));
            return None;
        }
        proof {
            let longer = digits.take(index - start + 1);
            assert(longer.drop_last() == digits.take(index - start));
            assert(longer.last() == ch);
        }
        let units: u64 = (ch as u32 - '0' as u32) as u64;
        if fits {
            match value.checked_mul(10) {
                Some(tens) => match tens.checked_add(units) {
                    Some(sum) => {
                        value = sum;
                    },
                    None => {
                        fits = false;
                    },
                },
                None => {
                    fits = false;
                },
            }
        }
        index += 1;
    }
    assert(digits.take(index - start) == digits);
    if fits {
        Some(value)
    } else {
        None
    }
}

/// How often `ch` occurs in a text.
pub open spec fn occurrences(text: Seq<char>, ch: char) -> nat
    decreases text.len(),
{
    if text.len() == 0 {
        0
    } else {
        occurrences(text.drop_last(), ch) + if text.last() == ch {
            1nat
        } else {
            0
        }
    }
}

/// The part of a text after its last `ch`, or all of it if there is none.
pub open spec fn after_last(text: Seq<char>, ch: char) -> Seq<char>
    decreases text.len(),
{
    if text.len() == 0 || text.last() == ch {
        seq![]
    } else {
        after_last(text.drop_last(), ch).push(text.last())
    }
}

/// How often `ch` occurs in `text`.
pub fn occurrences_of(text: &str, ch: char) -> (count: usize)
    ensures
        count == occurrences(text@, ch),
{
    let total: usize = text.unicode_len();
    let mut count: usize = 0;
    for other in iter: text.chars()
        invariant
            iter.seq() == text@,
            total == text@.len(),
            count == occurrences(text@.take(iter.index() as int), ch),
            count <= iter.index(),
    {
        proof {
            let longer = text@.take(iter.index() + 1);
            assert(longer.drop_last() == text@.take(iter.index() as int));
        }
        if other == ch {
            count += 1;
        }
    }
    assert(text@.take(text@.len() as int) == text@);
    count
}

/// The part of `text` after its last `ch`; it borrows from `text`.
pub fn after_last_of<'a>(text: &'a str, ch: char) -> (rest: &'a str)
    ensures
        rest@ == after_last(text@, ch),
{
    let chars: Vec<char> = chars_of(text);
    let mut start: usize = chars.len();
    assert(text@.take(start as int) == text@);
    assert(text@.skip(start as int) == Seq::<char>::empty());
    while start > 0 && chars[start - 1] != ch
        invariant
            chars@ == text@,
            start <= chars.len(),
            after_last(text@, ch) == after_last(text@.take(start as int), ch) + text@.skip(
                start as int,
            ),
        decreases start,
    {
        proof {
            let head = text@.take(start as int);
            assert(head.drop_last() == text@.take(start - 1));
            assert(after_last(head, ch) + text@.skip(start as int) == after_last(
                head.drop_last(),
                ch,
            ) + text@.skip(start - 1));
        }
        start -= 1;
    }
    proof {
        assert(after_last(text@.take(start as int), ch) == Seq::<char>::empty());
        assert(Seq::<char>::empty() + text@.skip(start as int) == text@.skip(start as int));
    }
    split_text(text, start).1
}

/// Whether `text` begins with `prefix`.
pub open spec fn starts_with(text: Seq<char>, prefix: Seq<char>) -> bool {
    prefix.is_prefix_of(text)
}

/// Whether `text` begins with `prefix`.
pub fn starts_with_text(text: &str, prefix: &str) -> (result: bool)
    ensures
        result == starts_with(text@, prefix@),
{
    let chars: Vec<char> = chars_of(text);
    let wanted: Vec<char> = chars_of(prefix);
    if wanted.len() > chars.len() {
        return false;
    }
    let mut index: usize = 0;
    while index < wanted.len()
        invariant
            index <= wanted.len() <= chars.len(),
            chars@ == text@,
            wanted@ == prefix@,
            forall|j: int| 0 <= j < index ==> chars@[j] == wanted@[j],
        decreases wanted.len() - index,
    {
        if chars[index] != wanted[index] {
            assert(text@.subrange(0, prefix@.len() as int)[index as int] != prefix@[index as int]);
            return false;
        }
        index += 1;
    }
    assert(text@.subrange(0, prefix@.len() as int) == prefix@);
    true
}

/// `text` without `suffix` at its end, if it ends with that.
pub open spec fn strip_suffix(text: Seq<char>, suffix: Seq<char>) -> Option<Seq<char>> {
    if suffix.is_suffix_of(text) {
        Some(text.take(text.len() - suffix.len()))
    } else {
        None
    }
}

/// `text` without `suffix` at its end, if it ends with that; the result borrows from `text`.
pub fn strip_suffix_of<'a>(text: &'a str, suffix: &str) -> (result: Option<&'a str>)
    ensures
        match result {
            Some(rest) => strip_suffix(text@, suffix@) == Some(rest@),
            None => strip_suffix(text@, suffix@) is None,
        },
{
    let total: usize = text.unicode_len();
    let length: usize = suffix.unicode_len();
    if length > total {
        return None;
    }
    let (head, tail) = split_text(text, total - length);
    assert(tail@ == text@.subrange(text@.len() - suffix@.len(), text@.len() as int));
    if same_text(tail, suffix) {
        Some(head)
    } else {
        None
    }
}

/// Whether two texts hold the same characters.
pub fn same_text(a: &str, b: &str) -> (same: bool)
    ensures
        same == (a@ == b@),
{
    let first: Vec<char> = chars_of(a);
    let second: Vec<char> = chars_of(b);
    if first.len() != second.len() {
        return false;
    }
    let mut index: usize = 0;
    while index < first.len()
        invariant
            index <= first.len() == second.len(),
            first@ == a@,
            second@ == b@,
            forall|j: int| 0 <= j < index ==> first@[j] == second@[j],
        decreases first.len() - index,
    {
        if first[index] != second[index] {
            return false;
        }
        index += 1;
    }
    assert(a@ == b@);
    true
}

/// Whether `a` comes before `b` in the order of their characters' code points, which is also
/// the order of their bytes in UTF-8.
pub open spec fn before(a: Seq<char>, b: Seq<char>) -> bool
    decreases a.len(),
{
    if b.len() == 0 {
        false
    } else if a.len() == 0 {
        true
    } else if a[0] == b[0] {
        before(a.drop_first(), b.drop_first())
    } else {
        a[0] < b[0]
    }
}

/// Of two texts, one comes before the other or they are the same.
pub proof fn lemma_before_total(a: Seq<char>, b: Seq<char>)
    ensures
        before(a, b) || before(b, a) || a == b,
        !(before(a, b) && before(b, a)),
        a == b ==> !before(a, b),
    decreases a.len(),
{
    if a.len() > 0 && b.len() > 0 && a[0] == b[0] {
        lemma_before_total(a.drop_first(), b.drop_first());
        if a.drop_first() == b.drop_first() {
            assert(a == seq![a[0]] + a.drop_first());
            assert(b == seq![b[0]] + b.drop_first());
        }
    } else if a.len() == 0 && b.len() == 0 {
        assert(a == b);
    }
}

/// The order of texts is transitive, also through texts that do not come before each other.
pub proof fn lemma_before_transitive(a: Seq<char>, b: Seq<char>, c: Seq<char>)
    requires
        !before(b, a),
        !before(c, b),
    ensures
        !before(c, a),
    decreases a.len(),
{
    if a.len() > 0 && b.len() > 0 && c.len() > 0 && a[0] == b[0] && b[0] == c[0] {
        lemma_before_transitive(a.drop_first(), b.drop_first(), c.drop_first());
    }
}

/// Whether `a` comes before `b` in the order of their characters.
pub fn comes_before(a: &str, b: &str) -> (result: bool)
    ensures
        result == before(a@, b@),
{
    let first: Vec<char> = chars_of(a);
    let second: Vec<char> = chars_of(b);
    let mut index: usize = 0;
    assert(a@.skip(0) == a@ && b@.skip(0) == b@);
    while index < first.len() && index < second.len() && first[index] == second[index]
        invariant
            first@ == a@,
            second@ == b@,
            index <= first.len(),
            index <= second.len(),
            before(a@, b@) == before(a@.skip(index as int), b@.skip(index as int)),
        decreases first.len() - index,
    {
        proof {
            let x = a@.skip(index as int);
            let y = b@.skip(index as int);
            assert(x[0] == y[0]);
            assert(x.drop_first() == a@.skip(index + 1));
            assert(y.drop_first() == b@.skip(index + 1));
        }
        index += 1;
    }
    if index == second.len() {
        false
    } else if index == first.len() {
        true
    } else {
        first[index] < second[index]
    }
}

/// The part of a text before its first comma or space.
pub open spec fn first_word(text: Seq<char>) -> Seq<char> {
    text.take(position(text, |ch: char| ch == ',' || ch == ' ') as int)
}

/// The part of `text` before its first comma or space; it borrows from `text`.
pub fn first_word_of<'a>(text: &'a str) -> (word: &'a str)
    ensures
        word@ == first_word(text@),
{
    let chars: Vec<char> = chars_of(text);
    let mut index: usize = 0;
    while index < chars.len() && chars[index] != ',' && chars[index] != ' '
        invariant
            chars@ == text@,
            index <= chars.len(),
            forall|j: int| 0 <= j < index ==> #[trigger] chars@[j] != ',' && chars@[j] != ' ',
        decreases chars.len() - index,
    {
        index += 1;
    }
    proof {
        lemma_position(text@, |ch: char| ch == ',' || ch == ' ', index as int);
    }
    split_text(text, index).0
}

/// A text that may be missing, as a mathematical value.
pub open spec fn optional_text(text: Option<String>) -> Option<Seq<char>> {
    match text {
        Some(text) => Some(text@),
        None => None,
    }
}

/// The views of some texts.
pub open spec fn cow_views(texts: Seq<Cow<'_, str>>) -> Seq<Seq<char>> {
    texts.map_values(|text: Cow<'_, str>| text@)
}

/// Splits text into lines, which borrow when the text does.
pub fn split_lines<'a>(text: Cow<'a, str>) -> (result: Vec<Cow<'a, str>>)
    ensures
        cow_views(result@) == lines(text@),
        text is Borrowed ==> forall|i: int|
            0 <= i < result@.len() ==> (#[trigger] result@[i]) is Borrowed,
{
    let mut result: Vec<Cow<'a, str>> = Vec::new();
    match text {
        Cow::Borrowed(text) => {
            let slices: Vec<&'a str> = lines_of(text);
            for index in 0..slices.len()
                invariant
                    result@.len() == index,
                    forall|i: int|
                        0 <= i < index ==> (#[trigger] result@[i])@ == slices@[i]@
                            && result@[i] is Borrowed,
            {
                result.push(Cow::Borrowed(slices[index]));
            }
            assert(cow_views(result@) =~= views(slices@));
        },
        Cow::Owned(text) => {
            let slices: Vec<&str> = lines_of(text.as_str());
            for index in 0..slices.len()
                invariant
                    result@.len() == index,
                    forall|i: int| 0 <= i < index ==> (#[trigger] result@[i])@ == slices@[i]@,
            {
                result.push(Cow::Owned(slices[index].to_owned()));
            }
            assert(cow_views(result@) =~= views(slices@));
        },
    }
    result
}

/// Lines end at line feeds: a text without one is a single line, or none where it is empty; and a
/// stretch without one, followed by a line feed and any rest, is one line before the lines of the
/// rest. One carriage return before the line feed belongs to the line's end.
pub proof fn lines_end_at_line_feeds(line: Seq<char>, rest: Seq<char>)
    requires
        !line.contains('\n'),
    ensures
        lines(line) == if line.len() == 0 {
            Seq::<Seq<char>>::empty()
        } else {
            seq![line]
        },
        lines(line + seq!['\n'] + rest) == seq![
            if line.len() > 0 && line.last() == '\r' {
                line.drop_last()
            } else {
                line
            },
        ] + lines(rest),
{
    let stop = |ch: char| ch == '\n';
    assert forall|j: int| 0 <= j < line.len() implies !stop(#[trigger] line[j]) by {
        assert(line.contains(line[j]));
    }
    lemma_position(line, stop, line.len() as int);
    let text = line + seq!['\n'] + rest;
    assert forall|j: int| 0 <= j < line.len() implies !stop(#[trigger] text[j]) by {
        assert(text[j] == line[j]);
    }
    assert(text[line.len() as int] == '\n');
    lemma_position(text, stop, line.len() as int);
    assert(text.take(line.len() as int) =~= line);
    assert(text.skip(line.len() as int + 1) =~= rest);
}

/// Trimming takes away all the white space around a text and nothing else: what is left begins and
/// ends with something else, and only white space stood before and after it.
pub proof fn trimming_takes_white_space_alone(text: Seq<char>)
    ensures
        exists|from: int, to: int|
            {
                &&& 0 <= from <= to <= text.len()
                &&& trim(text) == #[trigger] text.subrange(from, to)
                &&& forall|i: int| 0 <= i < from ==> is_white_space(#[trigger] text[i])
                &&& forall|i: int| to <= i < text.len() ==> is_white_space(#[trigger] text[i])
                &&& from < to ==> !is_white_space(text[from]) && !is_white_space(text[to - 1])
            },
{
    let solid = |ch: char| !is_white_space(ch);
    lemma_position_bounds(text, solid);
    let from = position(text, solid) as int;
    assert forall|i: int| 0 <= i < from implies is_white_space(#[trigger] text[i]) by {
        assert(!solid(text[i]));
    }
    let rest = trim_start(text);
    lemma_trim_end(rest);
    let to = from + trim_end(rest).len();
    assert(trim_end(rest) =~= text.subrange(from, to));
    assert forall|i: int| to <= i < text.len() implies is_white_space(#[trigger] text[i]) by {
        assert(rest[i - from] == text[i]);
    }
    if from < to {
        assert(trim_end(rest).last() == text[to - 1]);
    }
}

proof fn lemma_trim_end(text: Seq<char>)
    ensures
        trim_end(text).is_prefix_of(text),
        forall|i: int| trim_end(text).len() <= i < text.len() ==> is_white_space(#[trigger] text[i]),
        trim_end(text).len() > 0 ==> !is_white_space(trim_end(text).last()),
    decreases text.len(),
{
    if text.len() > 0 && is_white_space(text.last()) {
        let shorter = text.drop_last();
        lemma_trim_end(shorter);
        assert forall|i: int| trim_end(text).len() <= i < text.len() implies is_white_space(
            #[trigger] text[i],
        ) by {
            if i < shorter.len() {
                assert(shorter[i] == text[i]);
            }
        }
    }
}

/// Words are the runs between white space: a text of white space alone has none, and a run without
/// white space, with white space or nothing around it, is one word before the words of the rest.
pub proof fn words_are_between_white_space(gap: Seq<char>, word: Seq<char>, rest: Seq<char>)
    requires
        forall|i: int| 0 <= i < gap.len() ==> is_white_space(#[trigger] gap[i]),
        word.len() > 0,
        forall|i: int| 0 <= i < word.len() ==> !is_white_space(#[trigger] word[i]),
        rest.len() > 0 ==> is_white_space(rest[0]),
    ensures
        words(gap) == Seq::<Seq<char>>::empty(),
        words(gap + word + rest) == seq![word] + words(rest),
{
    let solid = |ch: char| !is_white_space(ch);
    let white = |ch: char| is_white_space(ch);
    lemma_position(gap, solid, gap.len() as int);
    assert(trim_start(gap) =~= Seq::empty());
    let text = gap + word + rest;
    assert forall|j: int| 0 <= j < gap.len() implies !solid(#[trigger] text[j]) by {
        assert(text[j] == gap[j]);
    }
    assert(text[gap.len() as int] == word[0]);
    lemma_position(text, solid, gap.len() as int);
    let tail = trim_start(text);
    assert(tail =~= word + rest);
    assert forall|j: int| 0 <= j < word.len() implies !white(#[trigger] tail[j]) by {
        assert(tail[j] == word[j]);
    }
    if rest.len() > 0 {
        assert(tail[word.len() as int] == rest[0]);
    }
    lemma_position(tail, white, word.len() as int);
    assert(tail.take(word.len() as int) =~= word);
    assert(tail.skip(word.len() as int) =~= rest);
    lemma_word_not_empty(text);
}

/// Decimal notation has one character from `0` to `9` for each digit, the highest first and never a
/// needless zero: ten times a number, and a digit more, is the number with that digit after it.
pub proof fn decimal_notation_is_positional(value: nat, units: nat)
    requires
        units < 10,
    ensures
        decimal(units) == seq![('0' as u32 + units) as char],
        value > 0 ==> decimal(10 * value + units) == decimal(value).push(
            ('0' as u32 + units) as char,
        ),
        decimal(value).len() > 0,
        value > 0 ==> decimal(value)[0] != '0',
    decreases value,
{
    if value >= 10 {
        decimal_notation_is_positional(value / 10, units);
    }
}

/// What a text stands for as a number: one digit stands for itself, a digit after a number for
/// ten times the number and the digit more, and a plus sign before the first digit changes
/// nothing. No other text stands for a number.
pub proof fn numbers_are_read_digit_by_digit(text: Seq<char>, last: char)
    ensures
        number(seq![last]) == if '0' <= last <= '9' {
            Some((last as u32 - '0' as u32) as nat)
        } else {
            None
        },
        number(text) is Some && '0' <= last <= '9' ==> number(text.push(last)) == Some(
            (10 * (number(text)->0) + (last as u32 - '0' as u32)) as nat,
        ),
        text.len() > 0 && '0' <= text[0] <= '9' ==> number(seq!['+'] + text) == number(text),
        number(text) is Some ==> text.len() > 0 && forall|i: int|
            0 <= i < text.len() ==> '0' <= #[trigger] text[i] <= '9' || (i == 0 && text[i] == '+'
                && text.len() > 1),
{
    let one = seq![last];
    assert(one.drop_last() =~= Seq::empty());
    assert(digits_value(one.drop_last()) == 0);
    assert(one[0] == last);
    if last == '+' {
        assert(one.drop_first() =~= Seq::empty());
    } else if '0' <= last <= '9' {
        assert(all_digits(one));
        assert(digits_value(one) == 10 * digits_value(one.drop_last()) + (one.last() as u32
            - '0' as u32) as nat);
    } else {
        assert(!is_digit(one[0]));
    }
    if number(text) is Some {
        let signed = text.len() > 0 && text[0] == '+';
        let digits = if signed {
            text.drop_first()
        } else {
            text
        };
        assert(text.len() > 0);
        assert forall|i: int| 0 <= i < text.len() implies '0' <= #[trigger] text[i] <= '9' || (i
            == 0 && text[i] == '+' && text.len() > 1) by {
            if signed {
                if i > 0 {
                    assert(digits[i - 1] == text[i]);
                    assert(is_digit(digits[i - 1]));
                }
            } else {
                assert(is_digit(digits[i]));
            }
        }
        if '0' <= last <= '9' {
            let longer = text.push(last);
            let more = digits.push(last);
            assert(longer[0] == text[0]);
            assert(if signed {
                longer.drop_first() =~= more
            } else {
                longer =~= more
            });
            assert(more.drop_last() =~= digits);
            assert forall|j: int| 0 <= j < more.len() implies is_digit(#[trigger] more[j]) by {
                if j < digits.len() {
                    assert(more[j] == digits[j]);
                    assert(is_digit(digits[j]));
                }
            }
        }
    }
    assert((seq!['+'] + text).drop_first() =~= text);
}

/// How often a character occurs: not at all in an empty text, and once more where it is added.
pub proof fn occurrences_are_counted(text: Seq<char>, added: char, ch: char)
    ensures
        occurrences(Seq::empty(), ch) == 0,
        occurrences(text.push(added), ch) == occurrences(text, ch) + if added == ch {
            1int
        } else {
            0int
        },
{
    assert(text.push(added).drop_last() =~= text);
}

/// What follows the last of a character is the end of the text that holds none of it, and that
/// character, or nothing at all, stands right before.
pub proof fn after_the_last_there_is_no_other(text: Seq<char>, ch: char)
    ensures
        after_last(text, ch).is_suffix_of(text),
        !after_last(text, ch).contains(ch),
        after_last(text, ch).len() < text.len() ==> text[text.len() - after_last(text, ch).len() - 1]
            == ch,
    decreases text.len(),
{
    if text.len() > 0 && text.last() != ch {
        let shorter = text.drop_last();
        after_the_last_there_is_no_other(shorter, ch);
        let end = after_last(shorter, ch);
        let whole = end.push(text.last());
        assert(whole =~= text.subrange(text.len() - whole.len(), text.len() as int));
        if whole.contains(ch) {
            let i = choose|i: int| 0 <= i < whole.len() && whole[i] == ch;
            assert(end[i] == ch);
        }
    } else {
        assert(after_last(text, ch) =~= text.subrange(text.len() as int, text.len() as int));
    }
}

/// One text comes before another where the two agree up to some place, and there the first one ends
/// while the other goes on, or has the character with the lower code point.
pub proof fn texts_are_ordered_at_their_first_difference(
    a: Seq<char>,
    b: Seq<char>,
    place: int,
)
    requires
        0 <= place <= a.len(),
        place <= b.len(),
        a.take(place) == b.take(place),
        place < a.len() && place < b.len() ==> a[place] != b[place],
    ensures
        before(a, b) <==> place < b.len() && (place == a.len() || a[place] < b[place]),
    decreases place,
{
    if place > 0 {
        assert(a.take(place)[0] == a[0] && b.take(place)[0] == b[0]);
        let x = a.drop_first();
        let y = b.drop_first();
        assert(x.take(place - 1) =~= a.take(place).drop_first());
        assert(y.take(place - 1) =~= b.take(place).drop_first());
        texts_are_ordered_at_their_first_difference(x, y, place - 1);
    }
}

/// The first word of a code block's info string is all that stands before its first comma or
/// space.
pub proof fn the_first_word_ends_at_a_comma_or_space(word: Seq<char>, end: char, rest: Seq<char>)
    requires
        !word.contains(','),
        !word.contains(' '),
        end == ',' || end == ' ',
    ensures
        first_word(word) == word,
        first_word(word + seq![end] + rest) == word,
{
    let stop = |ch: char| ch == ',' || ch == ' ';
    assert forall|j: int| 0 <= j < word.len() implies !stop(#[trigger] word[j]) by {
        assert(word.contains(word[j]));
    }
    lemma_position(word, stop, word.len() as int);
    assert(word.take(word.len() as int) =~= word);
    let text = word + seq![end] + rest;
    assert forall|j: int| 0 <= j < word.len() implies !stop(#[trigger] text[j]) by {
        assert(text[j] == word[j]);
    }
    assert(text[word.len() as int] == end);
    lemma_position(text, stop, word.len() as int);
    assert(text.take(word.len() as int) =~= word);
}

/// A suffix is stripped exactly from the texts that end with it, and nothing else goes.
pub proof fn a_suffix_is_stripped_from_its_end(text: Seq<char>, rest: Seq<char>, suffix: Seq<char>)
    ensures
        strip_suffix(rest + suffix, suffix) == Some(rest),
        strip_suffix(text, suffix) matches Some(left) ==> left + suffix == text,
{
    assert(suffix =~= (rest + suffix).subrange(rest.len() as int, (rest + suffix).len() as int));
    assert((rest + suffix).take(rest.len() as int) =~= rest);
    if strip_suffix(text, suffix) is Some {
        assert(text.take(text.len() - suffix.len()) + suffix =~= text);
    }
}

/// The views of texts are their characters, one text for one text.
pub proof fn texts_are_seen_as_they_are(
    slices: Seq<&str>,
    texts: Seq<Cow<'_, str>>,
    text: Option<String>,
)
    ensures
        views(slices).len() == slices.len(),
        forall|i: int| 0 <= i < slices.len() ==> #[trigger] views(slices)[i] == slices[i]@,
        cow_views(texts).len() == texts.len(),
        forall|i: int| 0 <= i < texts.len() ==> #[trigger] cow_views(texts)[i] == texts[i]@,
        text is Some <==> optional_text(text) is Some,
        text is Some ==> optional_text(text) == Some((text->0)@),
{
}

/// No line holds a line feed.
pub proof fn lines_hold_no_line_feed(text: Seq<char>, index: int)
    requires
        0 <= index < lines(text).len(),
    ensures
        !lines(text)[index].contains('\n'),
    decreases text.len(),
{
    let stop = |ch: char| ch == '\n';
    lemma_position_bounds(text, stop);
    let end = position(text, stop) as int;
    let line = text.take(end);
    assert(!line.contains('\n')) by {
        if line.contains('\n') {
            let i = choose|i: int| 0 <= i < line.len() && line[i] == '\n';
            assert(!stop(text[i]));
        }
    }
    if end >= text.len() {
        assert(line =~= text);
    } else {
        let clean = without_carriage_return(line);
        assert(!clean.contains('\n')) by {
            if clean.contains('\n') {
                let i = choose|i: int| 0 <= i < clean.len() && clean[i] == '\n';
                assert(line[i] == '\n');
            }
        }
        if index > 0 {
            lines_hold_no_line_feed(text.skip(end + 1), index - 1);
        }
    }
}

} // verus!
