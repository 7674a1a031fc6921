//! Recognisers for the lexical units: whitespace, keywords, numbers, strings.
//!
//! Each works on the whole input and a position in it, and reports the
//! position just behind what it consumed.

use vstd::prelude::*;
use crate::error::{error_at, ErrorKind, ParseError};

verus! {

/// Space, tab, line feed and carriage return.
pub open spec fn is_whitespace(c: char) -> bool {
    c == ' ' || c == '\t' || c == '\n' || c == '\r'
}

/// The decimal digits.
pub open spec fn is_digit(c: char) -> bool {
    '0' <= c <= '9'
}

/// The end of the longest run of whitespace that starts at `pos`.
pub open spec fn whitespace_end(s: Seq<char>, pos: int) -> int
    decreases s.len() - pos,
{
    if 0 <= pos < s.len() && is_whitespace(s[pos]) {
        whitespace_end(s, pos + 1)
    } else {
        pos
    }
}

/// The end of the longest run of digits that starts at `pos`.
pub open spec fn digits_end(s: Seq<char>, pos: int) -> int
    decreases s.len() - pos,
{
    if 0 <= pos < s.len() && is_digit(s[pos]) {
        digits_end(s, pos + 1)
    } else {
        pos
    }
}

/// Whether the character `c` stands at `pos`.
pub open spec fn char_at(s: Seq<char>, pos: int, c: char) -> bool {
    0 <= pos < s.len() && s[pos] == c
}

/// Whether `keyword` stands at `pos`.
pub open spec fn literal_at(s: Seq<char>, pos: int, keyword: Seq<char>) -> bool {
    &&& 0 <= pos
    &&& pos + keyword.len() <= s.len()
    &&& s.subrange(pos, pos + keyword.len()) == keyword
}

/// The end of an optional sign at `pos`.
pub open spec fn sign_end(s: Seq<char>, pos: int) -> int {
    if char_at(s, pos, '-') {
        pos + 1
    } else {
        pos
    }
}

/// The end of an optional fraction at `pos`: a point and at least one digit.
pub open spec fn fraction_end(s: Seq<char>, pos: int) -> int {
    if char_at(s, pos, '.') && digits_end(s, pos + 1) > pos + 1 {
        digits_end(s, pos + 1)
    } else {
        pos
    }
}

/// The end of an optional exponent at `pos`: `e` or `E`, an optional sign
/// and at least one digit.
pub open spec fn exponent_end(s: Seq<char>, pos: int) -> int {
    if char_at(s, pos, 'e') || char_at(s, pos, 'E') {
        let digits = if char_at(s, pos + 1, '+') || char_at(s, pos + 1, '-') {
            pos + 2
        } else {
            pos + 1
        };
        if digits_end(s, digits) > digits {
            digits_end(s, digits)
        } else {
            pos
        }
    } else {
        pos
    }
}

/// The end of the number that starts at `pos`, if one does: an optional
/// minus, digits, an optional fraction and an optional exponent, each taken
/// as far as it goes.
pub open spec fn number_end(s: Seq<char>, pos: int) -> Option<int> {
    let digits = sign_end(s, pos);
    if digits_end(s, digits) > digits {
        Some(exponent_end(s, fraction_end(s, digits_end(s, digits))))
    } else {
        None
    }
}

/// A run of whitespace ends within the input, holds whitespace only, and
/// stops at the end of the input or before another character.
pub proof fn lemma_whitespace_end(s: Seq<char>, pos: int)
    requires
        0 <= pos <= s.len(),
    ensures
        pos <= whitespace_end(s, pos) <= s.len(),
        forall|i: int| pos <= i < whitespace_end(s, pos) ==> is_whitespace(#[trigger] s[i]),
        whitespace_end(s, pos) < s.len() ==> !is_whitespace(s[whitespace_end(s, pos)]),
    decreases s.len() - pos,
{
    if pos < s.len() && is_whitespace(s[pos]) {
        lemma_whitespace_end(s, pos + 1);
    }
}

/// A run of digits ends within the input, holds digits only, and stops at
/// the end of the input or before another character.
pub proof fn lemma_digits_end(s: Seq<char>, pos: int)
    requires
        0 <= pos <= s.len(),
    ensures
        pos <= digits_end(s, pos) <= s.len(),
        forall|i: int| pos <= i < digits_end(s, pos) ==> is_digit(#[trigger] s[i]),
        digits_end(s, pos) < s.len() ==> !is_digit(s[digits_end(s, pos)]),
    decreases s.len() - pos,
{
    if pos < s.len() && is_digit(s[pos]) {
        lemma_digits_end(s, pos + 1);
    }
}

/// A number that starts at `pos` ends behind `pos` and within the input.
pub proof fn lemma_number_end(s: Seq<char>, pos: int)
    requires
        0 <= pos <= s.len(),
    ensures
        number_end(s, pos) is Some ==> pos < number_end(s, pos).unwrap() <= s.len(),
{
    let d = sign_end(s, pos);
    lemma_digits_end(s, d);
    let i = digits_end(s, d);
    if i > d {
        if i + 1 <= s.len() {
            lemma_digits_end(s, i + 1);
        }
        let f = fraction_end(s, i);
        if f + 1 <= s.len() {
            lemma_digits_end(s, f + 1);
        }
        if f + 2 <= s.len() {
            lemma_digits_end(s, f + 2);
        }
    }
}

/// Skips the whitespace at `pos` and returns where it ends. Never fails;
/// the run may be empty.
pub fn skip_whitespace(input: &[char], pos: usize) -> (end: usize)
    requires
        pos <= input.len(),
    ensures
        end == whitespace_end(input@, pos as int),
        pos <= end <= input@.len(),
        forall|i: int| pos <= i < end ==> is_whitespace(#[trigger] input@[i]),
        end < input@.len() ==> !is_whitespace(input@[end as int]),
{
    let mut end: usize = pos;
    proof {
        lemma_whitespace_end(input@, pos as int);
    }
    while end < input.len() && (input[end] == ' ' || input[end] == '\t' || input[end] == '\n'
        || input[end] == '\r')
        invariant
            pos <= end <= input@.len(),
            whitespace_end(input@, pos as int) == whitespace_end(input@, end as int),
        decreases input@.len() - end,
    {
        end = end + 1;
    }
    end
}

/// Skips the digits at `pos` and returns where they end.
pub fn skip_digits(input: &[char], pos: usize) -> (end: usize)
    requires
        pos <= input.len(),
    ensures
        end == digits_end(input@, pos as int),
        pos <= end <= input@.len(),
{
    let mut end: usize = pos;
    proof {
        lemma_digits_end(input@, pos as int);
    }
    while end < input.len() && '0' <= input[end] && input[end] <= '9'
        invariant
            pos <= end <= input@.len(),
            digits_end(input@, pos as int) == digits_end(input@, end as int),
        decreases input@.len() - end,
    {
        end = end + 1;
    }
    end
}

/// Tells whether the character `c` stands at `pos`.
pub fn peek_is(input: &[char], pos: usize, c: char) -> (found: bool)
    ensures
        found == char_at(input@, pos as int, c),
{
    pos < input.len() && input[pos] == c
}

/// Consumes `keyword` at `pos` and returns where it ends; fails with
/// `NoMatch` at `pos` if the input there differs from it.
pub fn match_literal(input: &[char], pos: usize, keyword: &str) -> (result: Result<
    usize,
    ParseError,
>)
    requires
        pos <= input.len(),
    ensures
        literal_at(input@, pos as int, keyword@) ==> result == Ok::<usize, ParseError>(
            (pos + keyword@.len()) as usize,
        ),
        !literal_at(input@, pos as int, keyword@) ==> result == Err::<usize, ParseError>(
            error_at(ErrorKind::NoMatch, pos as int),
        ),
{
    let n: usize = keyword.unicode_len();
    if n > input.len() - pos {
        return Err(ParseError { kind: ErrorKind::NoMatch, offset: pos });
    }
    let mut i: usize = 0;
    while i < n
        invariant
            i <= n,
            n == keyword@.len(),
            pos + n <= input@.len() <= usize::MAX,
            forall|j: int| 0 <= j < i ==> input@[pos + j] == keyword@[j],
        decreases n - i,
    {
        if input[pos + i] != keyword.get_char(i) {
            proof {
                let sub = input@.subrange(pos as int, pos + n);
                assert(sub[i as int] == input@[pos + i]);
            }
            return Err(ParseError { kind: ErrorKind::NoMatch, offset: pos });
        }
        i = i + 1;
    }
    proof {
        assert(input@.subrange(pos as int, pos + n) =~= keyword@);
    }
    Ok(pos + n)
}

/// Copies the characters from `from` up to `to` into a string.
pub fn copy_text(input: &[char], from: usize, to: usize) -> (text: String)
    requires
        from <= to <= input.len(),
    ensures
        text@ == input@.subrange(from as int, to as int),
{
    let mut text = String::new();
    let mut i: usize = from;
    while i < to
        invariant
            from <= i <= to <= input@.len(),
            text@ == input@.subrange(from as int, i as int),
        decreases to - i,
    {
        text.push(input[i]);
        i = i + 1;
        proof {
            assert(text@ =~= input@.subrange(from as int, i as int));
        }
    }
    text
}

/// Consumes the number at `pos` and returns its text and where it ends;
/// fails with `NoMatch` at `pos` if no digit follows the optional sign.
pub fn scan_number(input: &[char], pos: usize) -> (result: Result<(String, usize), ParseError>)
    requires
        pos <= input.len(),
    ensures
        match number_end(input@, pos as int) {
            Some(end) => {
                &&& result is Ok
                &&& result.unwrap().0@ == input@.subrange(pos as int, end)
                &&& result.unwrap().1 == end
                &&& pos < end <= input@.len()
            },
            None => result is Err && result.unwrap_err() == error_at(ErrorKind::NoMatch, pos as int),
        },
{
    proof {
        lemma_number_end(input@, pos as int);
    }
    let digits: usize = if peek_is(input, pos, '-') {
        pos + 1
    } else {
        pos
    };
    let mut end: usize = skip_digits(input, digits);
    if end == digits {
        return Err(ParseError { kind: ErrorKind::NoMatch, offset: pos });
    }
    if peek_is(input, end, '.') {
        let fraction: usize = skip_digits(input, end + 1);
        if fraction > end + 1 {
            end = fraction;
        }
    }
    if peek_is(input, end, 'e') || peek_is(input, end, 'E') {
        let exponent: usize = if peek_is(input, end + 1, '+') || peek_is(input, end + 1, '-') {
            end + 2
        } else {
            end + 1
        };
        let last: usize = skip_digits(input, exponent);
        if last > exponent {
            end = last;
        }
    }
    let text = copy_text(input, pos, end);
    Ok((text, end))
}

} // verus!
