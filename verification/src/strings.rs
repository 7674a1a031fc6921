//! String literals and their escape sequences.

use vstd::prelude::*;
use crate::error::{error_at, ErrorKind, ParseError};
use crate::scanner::{char_at, peek_is};

verus! {

/// Specifies `char::from_u32`: a number is a character exactly when it is a
/// Unicode scalar value, that is below `0xD800` or from `0xE000` up to
/// `0x10FFFF`, and then it is the character with that number.
pub assume_specification[ char::from_u32 ](code: u32) -> (c: Option<char>)
    ensures
        c == if is_scalar(code as int) {
            Some(code as char)
        } else {
            None::<char>
        },
;

/// The Unicode scalar values: every code point but the surrogates.
pub open spec fn is_scalar(code: int) -> bool {
    0 <= code < 0xD800 || 0xE000 <= code <= 0x10FFFF
}

/// The hexadecimal digits, in either case.
pub open spec fn is_hex_digit(c: char) -> bool {
    ('0' <= c <= '9') || ('a' <= c <= 'f') || ('A' <= c <= 'F')
}

/// The number that a hexadecimal digit stands for.
pub open spec fn hex_value(c: char) -> int {
    if c <= '9' {
        c as int - 0x30
    } else if c <= 'F' {
        c as int - 0x41 + 10
    } else {
        c as int - 0x61 + 10
    }
}

/// Whether four hexadecimal digits stand at `pos`.
pub open spec fn hex4_at(s: Seq<char>, pos: int) -> bool {
    &&& 0 <= pos
    &&& pos + 4 <= s.len()
    &&& is_hex_digit(s[pos])
    &&& is_hex_digit(s[pos + 1])
    &&& is_hex_digit(s[pos + 2])
    &&& is_hex_digit(s[pos + 3])
}

/// The number that the four hexadecimal digits at `pos` stand for.
pub open spec fn hex4_value(s: Seq<char>, pos: int) -> int {
    hex_value(s[pos]) * 0x1000 + hex_value(s[pos + 1]) * 0x100 + hex_value(s[pos + 2]) * 0x10
        + hex_value(s[pos + 3])
}

/// The character that a one-letter escape stands for.
pub open spec fn simple_escape(c: char) -> Option<char> {
    if c == '"' {
        Some('"')
    } else if c == '\\' {
        Some('\\')
    } else if c == '/' {
        Some('/')
    } else if c == 'b' {
        Some('\u{8}')
    } else if c == 'f' {
        Some('\u{c}')
    } else if c == 'n' {
        Some('\n')
    } else if c == 'r' {
        Some('\r')
    } else if c == 't' {
        Some('\t')
    } else {
        None
    }
}

/// The code point that a high and a low surrogate stand for together.
pub open spec fn surrogate_pair(high: int, low: int) -> int {
    0x10000 + (high - 0xD800) * 0x400 + (low - 0xDC00)
}

/// The character that the escape at `pos` stands for, and where the escape
/// ends; `None` if it is malformed. A backslash stands at `pos` and at least
/// one more character follows it.
///
/// `\uXXXX` stands for the scalar value with that number. A high surrogate
/// must be followed by a second `\uXXXX` that holds a low surrogate, and the
/// two stand for one character; any other surrogate is malformed.
pub open spec fn escape_at(s: Seq<char>, pos: int) -> Option<(char, int)> {
    let c = s[pos + 1];
    if simple_escape(c) is Some {
        Some((simple_escape(c).unwrap(), pos + 2))
    } else if c == 'u' && hex4_at(s, pos + 2) {
        let high = hex4_value(s, pos + 2);
        if is_scalar(high) {
            Some((high as char, pos + 6))
        } else if high < 0xDC00 && char_at(s, pos + 6, '\\') && char_at(s, pos + 7, 'u')
            && hex4_at(s, pos + 8) && 0xDC00 <= hex4_value(s, pos + 8) < 0xE000 {
            Some((surrogate_pair(high, hex4_value(s, pos + 8)) as char, pos + 12))
        } else {
            None
        }
    } else {
        None
    }
}

/// What scanning a string gives: the decoded text and the position behind
/// the closing quote.
pub type Scanned = Result<(Seq<char>, int), ParseError>;

/// The outcome `rest`, with `c` put in front of its text.
pub open spec fn prepend_char(c: char, rest: Scanned) -> Scanned {
    match rest {
        Ok((text, end)) => Ok((seq![c] + text, end)),
        Err(e) => Err(e),
    }
}

/// The outcome `rest`, with `front` put in front of its text.
pub open spec fn prepend_text(front: Seq<char>, rest: Scanned) -> Scanned {
    match rest {
        Ok((text, end)) => Ok((front + text, end)),
        Err(e) => Err(e),
    }
}

/// The rest of a string from `pos`, which lies behind the opening quote:
/// the decoded text up to the first quote that no backslash escapes, and the
/// position behind that quote. The input ending before that quote is
/// `UnterminatedString`, reported at the end of the input; a malformed
/// escape is `InvalidEscape`, reported at its backslash.
pub open spec fn string_body(s: Seq<char>, pos: int) -> Scanned
    decreases s.len() - pos,
{
    if !(0 <= pos < s.len()) {
        Err(error_at(ErrorKind::UnterminatedString, s.len() as int))
    } else if s[pos] == '"' {
        Ok((Seq::empty(), pos + 1))
    } else if s[pos] == '\\' {
        if pos + 1 >= s.len() {
            Err(error_at(ErrorKind::UnterminatedString, s.len() as int))
        } else {
            match escape_at(s, pos) {
                Some((c, next)) => prepend_char(c, string_body(s, next)),
                None => Err(error_at(ErrorKind::InvalidEscape, pos)),
            }
        }
    } else {
        prepend_char(s[pos], string_body(s, pos + 1))
    }
}

/// The string that starts at `pos`: `NoMatch` unless a quote stands there.
pub open spec fn string_at(s: Seq<char>, pos: int) -> Scanned {
    if char_at(s, pos, '"') {
        string_body(s, pos + 1)
    } else {
        Err(error_at(ErrorKind::NoMatch, pos))
    }
}

/// Whether a failure is one of the two that the inside of a string gives,
/// with an offset within an input of length `len`.
pub open spec fn is_string_failure(e: ParseError, len: nat) -> bool {
    &&& e.kind == ErrorKind::UnterminatedString || e.kind == ErrorKind::InvalidEscape
    &&& e.offset <= len
}

/// A string that is scanned from within the input ends behind its start and
/// within the input, or fails as the inside of a string does.
pub proof fn lemma_string_body_end(s: Seq<char>, pos: int)
    requires
        0 <= pos <= s.len(),
    ensures
        match string_body(s, pos) {
            Ok((_, end)) => pos < end <= s.len(),
            Err(e) => s.len() <= usize::MAX ==> is_string_failure(e, s.len()),
        },
    decreases s.len() - pos,
{
    if pos < s.len() && s[pos] != '"' {
        if s[pos] == '\\' {
            if pos + 1 < s.len() {
                match escape_at(s, pos) {
                    Some((c, next)) => {
                        lemma_string_body_end(s, next);
                    },
                    None => {},
                }
            }
        } else {
            lemma_string_body_end(s, pos + 1);
        }
    }
}

/// The value of a hexadecimal digit, if `c` is one.
pub fn hex_digit(c: char) -> (value: Option<u32>)
    ensures
        value == if is_hex_digit(c) {
            Some(hex_value(c) as u32)
        } else {
            None::<u32>
        },
        is_hex_digit(c) ==> 0 <= hex_value(c) < 16,
{
    if '0' <= c && c <= '9' {
        Some(c as u32 - 0x30)
    } else if 'A' <= c && c <= 'F' {
        Some(c as u32 - 0x41 + 10)
    } else if 'a' <= c && c <= 'f' {
        Some(c as u32 - 0x61 + 10)
    } else {
        None
    }
}

/// The value of the four hexadecimal digits at `pos`, if they are there.
pub fn read_hex4(input: &[char], pos: usize) -> (value: Option<u32>)
    requires
        pos <= input.len(),
    ensures
        value == if hex4_at(input@, pos as int) {
            Some(hex4_value(input@, pos as int) as u32)
        } else {
            None::<u32>
        },
        hex4_at(input@, pos as int) ==> 0 <= hex4_value(input@, pos as int) <= 0xFFFF,
{
    if input.len() - pos < 4 {
        return None;
    }
    let d0 = hex_digit(input[pos]);
    let d1 = hex_digit(input[pos + 1]);
    let d2 = hex_digit(input[pos + 2]);
    let d3 = hex_digit(input[pos + 3]);
    match (d0, d1, d2, d3) {
        (Some(a), Some(b), Some(c), Some(d)) => Some(a * 0x1000 + b * 0x100 + c * 0x10 + d),
        _ => None,
    }
}

/// Decodes the escape whose backslash stands at `pos` and returns its
/// character and where the escape ends, or `None` if it is malformed.
pub fn decode_escape(input: &[char], pos: usize) -> (result: Option<(char, usize)>)
    requires
        pos + 1 < input.len(),
        input@[pos as int] == '\\',
    ensures
        match escape_at(input@, pos as int) {
            Some((c, next)) => result == Some((c, next as usize)) && pos < next <= input@.len(),
            None => result is None,
        },
{
    let c = input[pos + 1];
    if c == '"' || c == '\\' || c == '/' {
        Some((c, pos + 2))
    } else if c == 'b' {
        Some(('\u{8}', pos + 2))
    } else if c == 'f' {
        Some(('\u{c}', pos + 2))
    } else if c == 'n' {
        Some(('\n', pos + 2))
    } else if c == 'r' {
        Some(('\r', pos + 2))
    } else if c == 't' {
        Some(('\t', pos + 2))
    } else if c == 'u' {
        match read_hex4(input, pos + 2) {
            None => None,
            Some(high) => {
                match char::from_u32(high) {
                    Some(decoded) => Some((decoded, pos + 6)),
                    None => {
                        if high < 0xDC00 && peek_is(input, pos + 6, '\\') && peek_is(
                            input,
                            pos + 7,
                            'u',
                        ) {
                            match read_hex4(input, pos + 8) {
                                Some(low) => {
                                    if 0xDC00 <= low && low < 0xE000 {
                                        let code: u32 = 0x10000 + (high - 0xD800) * 0x400 + (low
                                            - 0xDC00);
                                        match char::from_u32(code) {
                                            Some(decoded) => Some((decoded, pos + 12)),
                                            None => None,
                                        }
                                    } else {
                                        None
                                    }
                                },
                                None => None,
                            }
                        } else {
                            None
                        }
                    },
                }
            },
        }
    } else {
        None
    }
}

/// Consumes the string at `pos` and returns its decoded text and the
/// position behind its closing quote. Without an opening quote at `pos` it
/// fails with `NoMatch`.
pub fn scan_string(input: &[char], pos: usize) -> (result: Result<(String, usize), ParseError>)
    requires
        pos <= input.len(),
    ensures
        match string_at(input@, pos as int) {
            Ok((text, end)) => {
                &&& result is Ok
                &&& result.unwrap().0@ == text
                &&& result.unwrap().1 == end
                &&& pos < end <= input@.len()
            },
            Err(e) => {
                &&& result is Err
                &&& result.unwrap_err() == e
                &&& char_at(input@, pos as int, '"') ==> is_string_failure(e, input@.len())
            },
        },
{
    if !peek_is(input, pos, '"') {
        return Err(ParseError { kind: ErrorKind::NoMatch, offset: pos });
    }
    let mut text = String::new();
    let mut cur: usize = pos + 1;
    proof {
        lemma_string_body_end(input@, pos + 1);
        lemma_prepend_nothing(string_body(input@, pos + 1));
    }
    loop
        invariant
            pos < cur <= input@.len() <= usize::MAX,
            char_at(input@, pos as int, '"'),
            match string_body(input@, pos + 1) {
                Ok((_, end)) => pos + 1 < end <= input@.len(),
                Err(e) => is_string_failure(e, input@.len()),
            },
            string_body(input@, pos + 1) == prepend_text(text@, string_body(input@, cur as int)),
        decreases input@.len() - cur,
    {
        if cur >= input.len() {
            return Err(ParseError { kind: ErrorKind::UnterminatedString, offset: input.len() });
        }
        let c = input[cur];
        if c == '"' {
            proof {
                assert(text@ + Seq::<char>::empty() =~= text@);
            }
            return Ok((text, cur + 1));
        }
        let ghost before = text@;
        let ghost here = cur as int;
        if c == '\\' {
            if cur + 1 >= input.len() {
                return Err(
                    ParseError { kind: ErrorKind::UnterminatedString, offset: input.len() },
                );
            }
            match decode_escape(input, cur) {
                None => {
                    return Err(ParseError { kind: ErrorKind::InvalidEscape, offset: cur });
                },
                Some((decoded, next)) => {
                    text.push(decoded);
                    cur = next;
                    proof {
                        lemma_prepend_push(before, decoded, string_body(input@, cur as int));
                    }
                },
            }
        } else {
            text.push(c);
            cur = cur + 1;
            proof {
                lemma_prepend_push(before, c, string_body(input@, cur as int));
            }
        }
    }
}

/// Putting nothing in front of a text leaves it as it is.
pub proof fn lemma_prepend_nothing(rest: Scanned)
    ensures
        prepend_text(Seq::empty(), rest) == rest,
{
    match rest {
        Ok((text, end)) => {
            assert(Seq::<char>::empty() + text =~= text);
        },
        Err(e) => {},
    }
}

/// Putting `front` and then `c` in front of a text is putting `c` in front
/// of it and then `front`.
pub proof fn lemma_prepend_push(front: Seq<char>, c: char, rest: Scanned)
    ensures
        prepend_text(front.push(c), rest) == prepend_text(front, prepend_char(c, rest)),
{
    match rest {
        Ok((text, end)) => {
            assert(front.push(c) + text =~= front + (seq![c] + text));
        },
        Err(e) => {},
    }
}

} // verus!
