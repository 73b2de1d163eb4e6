//! Searching, trimming and reading numbers in text.

use vstd::prelude::*;
use vstd::string::StrSliceExecFns;

verus! {

/// Whether a character is white space: one of the characters that Unicode
/// gives the property `White_Space`.
pub open spec fn is_whitespace(c: char) -> bool {
    let code = c as u32;
    ||| 0x09 <= code <= 0x0d
    ||| code == 0x20
    ||| code == 0x85
    ||| code == 0xa0
    ||| code == 0x1680
    ||| 0x2000 <= code <= 0x200a
    ||| code == 0x2028
    ||| code == 0x2029
    ||| code == 0x202f
    ||| code == 0x205f
    ||| code == 0x3000
}

/// Whether a character is white space.
pub fn char_is_whitespace(c: char) -> (r: bool)
    ensures
        r == is_whitespace(c),
{
    let code = c as u32;
    (0x09 <= code && code <= 0x0d) || code == 0x20 || code == 0x85 || code == 0xa0 || code
        == 0x1680 || (0x2000 <= code && code <= 0x200a) || code == 0x2028 || code == 0x2029
        || code == 0x202f || code == 0x205f || code == 0x3000
}

/// A text without the white space at its start.
pub open spec fn trim_start(text: Seq<char>) -> Seq<char>
    decreases text.len(),
{
    if text.len() > 0 && is_whitespace(text[0]) {
        trim_start(text.skip(1))
    } else {
        text
    }
}

/// A text without the white space at its end.
pub open spec fn trim_end(text: Seq<char>) -> Seq<char>
    decreases text.len(),
{
    if text.len() > 0 && is_whitespace(text.last()) {
        trim_end(text.drop_last())
    } else {
        text
    }
}

/// A text without the white space at its start and at its end.
pub open spec fn trimmed(text: Seq<char>) -> Seq<char> {
    trim_end(trim_start(text))
}

/// A text without the white space at its start and at its end.
pub fn trim(text: &str) -> (r: &str)
    ensures
        r@ == trimmed(text@),
{
    let len = text.unicode_len();
    let mut start: usize = 0;
    assert(text@.skip(0) =~= text@);
    while start < len && char_is_whitespace(text.get_char(start))
        invariant
            start <= len,
            len == text@.len(),
            trim_start(text@) == trim_start(text@.skip(start as int)),
        decreases len - start,
    {
        proof {
            assert(text@.skip(start as int)[0] == text@[start as int]);
            assert(text@.skip(start as int).skip(1) =~= text@.skip(start + 1));
        }
        start = start + 1;
    }
    proof {
        if start < len {
            assert(text@.skip(start as int)[0] == text@[start as int]);
        }
    }
    let ghost rest = text@.skip(start as int);
    assert(trim_start(text@) == rest);
    let mut end: usize = len;
    assert(rest.take(len - start) =~= rest);
    while end > start && char_is_whitespace(text.get_char(end - 1))
        invariant
            start <= end <= len,
            len == text@.len(),
            rest == text@.skip(start as int),
            trim_end(rest) == trim_end(rest.take(end - start)),
        decreases end,
    {
        proof {
            assert(rest.take(end - start).last() == text@[end - 1]);
            assert(rest.take(end - start).drop_last() =~= rest.take(end - start - 1));
        }
        end = end - 1;
    }
    proof {
        assert(rest.take(len - start) =~= rest);
        if end > start {
            assert(rest.take(end - start).last() == text@[end - 1]);
        }
        assert(rest.take(end - start) =~= text@.subrange(start as int, end as int));
    }
    text.substring_char(start, end)
}

/// The place of the first occurrence of a character in a text, or the
/// length of the text where the character is not in it.
pub open spec fn position(text: Seq<char>, c: char) -> int
    decreases text.len(),
{
    if text.len() == 0 || text[0] == c {
        0
    } else {
        1 + position(text.skip(1), c)
    }
}

/// The place of a character is within the text or at its end; the
/// character is at that place, and nowhere before it.
pub proof fn lemma_position(text: Seq<char>, c: char)
    ensures
        0 <= position(text, c) <= text.len(),
        position(text, c) < text.len() ==> text[position(text, c)] == c,
        forall|i: int| 0 <= i < position(text, c) ==> text[i] != c,
        position(text, c) < text.len() <==> text.contains(c),
    decreases text.len(),
{
    if text.len() == 0 || text[0] == c {
    } else {
        lemma_position(text.skip(1), c);
        let p = position(text.skip(1), c);
        assert forall|i: int| 0 <= i < p + 1 implies text[i] != c by {
            if i > 0 {
                assert(text.skip(1)[i - 1] == text[i]);
            }
        }
        if p < text.skip(1).len() {
            assert(text.skip(1)[p] == text[p + 1]);
        }
        if text.contains(c) {
            let i = choose|i: int| 0 <= i < text.len() && text[i] == c;
            assert(text.skip(1)[i - 1] == c);
        }
    }
}

/// The part of a text before the first occurrence of a character: the
/// whole text where the character is not in it.
pub open spec fn before(text: Seq<char>, c: char) -> Seq<char> {
    text.take(position(text, c))
}

/// The part of a text after the first occurrence of a character, if the
/// character is in it.
pub open spec fn after(text: Seq<char>, c: char) -> Option<Seq<char>> {
    if position(text, c) < text.len() {
        Some(text.skip(position(text, c) + 1))
    } else {
        None
    }
}

/// The place of the first occurrence of a character in a text, or the
/// length of the text.
pub fn find(text: &str, c: char) -> (place: usize)
    ensures
        place == position(text@, c),
        place <= text@.len(),
{
    let len = text.unicode_len();
    let mut i: usize = 0;
    assert(text@.skip(0) =~= text@);
    while i < len && text.get_char(i) != c
        invariant
            i <= len,
            len == text@.len(),
            position(text@, c) == i + position(text@.skip(i as int), c),
        decreases len - i,
    {
        proof {
            assert(text@.skip(i as int)[0] == text@[i as int]);
            assert(text@.skip(i as int).skip(1) =~= text@.skip(i + 1));
        }
        i = i + 1;
    }
    proof {
        if i < len {
            assert(text@.skip(i as int)[0] == text@[i as int]);
        }
    }
    i
}

/// Splits a text at the first occurrence of a character: the part before
/// it and, where the character is in the text, the part after it.
pub fn split_once(text: &str, c: char) -> (parts: (&str, Option<&str>))
    ensures
        parts.0@ == before(text@, c),
        match parts.1 {
            Some(rest) => after(text@, c) == Some(rest@),
            None => after(text@, c) is None,
        },
{
    let len = text.unicode_len();
    let place = find(text, c);
    let head = text.substring_char(0, place);
    if place < len {
        let rest = text.substring_char(place + 1, len);
        (head, Some(rest))
    } else {
        (head, None)
    }
}

/// Whether a character is a decimal digit.
pub open spec fn is_digit(c: char) -> bool {
    '0' <= c && c <= '9'
}

/// The number that a text of decimal digits stands for.
pub open spec fn digits_value(digits: Seq<char>) -> nat
    decreases digits.len(),
{
    if digits.len() == 0 {
        0
    } else {
        digits_value(digits.drop_last()) * 10 + (digits.last() as nat - '0' as nat) as nat
    }
}

/// The digits of a number in a text: the text without a plus sign at its
/// start.
pub open spec fn unsigned_part(text: Seq<char>) -> Seq<char> {
    if text.len() > 0 && text[0] == '+' {
        text.skip(1)
    } else {
        text
    }
}

/// The number below 2^64 that a text stands for: the text must be made of
/// decimal digits, one at least, after at most one plus sign.
pub open spec fn parsed_u64(text: Seq<char>) -> Option<u64> {
    let digits = unsigned_part(text);
    if digits.len() > 0 && (forall|i: int| 0 <= i < digits.len() ==> is_digit(#[trigger] digits[i]))
        && digits_value(digits) <= u64::MAX {
        Some(digits_value(digits) as u64)
    } else {
        None
    }
}

/// More digits stand for no smaller a number.
pub proof fn lemma_digits_grow(digits: Seq<char>, n: int)
    requires
        0 <= n <= digits.len(),
    ensures
        digits_value(digits.take(n)) <= digits_value(digits),
    decreases digits.len() - n,
{
    if n == digits.len() {
        assert(digits.take(n) =~= digits);
    } else {
        lemma_digits_grow(digits, n + 1);
        assert(digits.take(n + 1).drop_last() =~= digits.take(n));
    }
}

/// Reads a number below 2^64 in a text.
pub fn parse_u64(text: &str) -> (r: Option<u64>)
    ensures
        r == parsed_u64(text@),
{
    let len = text.unicode_len();
    let start: usize = if len > 0 && text.get_char(0) == '+' {
        1
    } else {
        0
    };
    let ghost digits = unsigned_part(text@);
    assert(digits =~= text@.skip(start as int));
    if start == len {
        return None;
    }
    let mut value: u64 = 0;
    let mut i: usize = start;
    while i < len
        invariant
            start <= i <= len,
            len == text@.len(),
            digits == text@.skip(start as int),
            digits == unsigned_part(text@),
            forall|j: int| 0 <= j < i - start ==> is_digit(#[trigger] digits[j]),
            value == digits_value(digits.take(i - start)),
        decreases len - i,
    {
        let c = text.get_char(i);
        assert(digits[i - start] == c);
        if !('0' <= c && c <= '9') {
            assert(!is_digit(digits[i - start]));
            return None;
        }
        let digit: u64 = (c as u32 - '0' as u32) as u64;
        proof {
            assert(digits.take(i - start + 1).drop_last() =~= digits.take(i - start));
            assert(digits.take(i - start + 1).last() == c);
            assert(digits_value(digits.take(i - start + 1)) == value * 10 + digit);
            lemma_digits_grow(digits, i - start + 1);
        }
        if value > (u64::MAX - digit) / 10 {
            assert(value * 10 + digit > u64::MAX);
            return None;
        }
        value = value * 10 + digit;
        i = i + 1;
    }
    proof {
        assert(digits.take(len - start) =~= digits);
    }
    Some(value)
}

} // verus!
