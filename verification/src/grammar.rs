//! The grammar of JSON documents, as functions from the input and a position
//! to what stands there.
//!
//! Every rule gives either what it found with the position behind it, or
//! the failure with its offset. `NoMatch` means that the rule's leading token
//! is not at the position, so that another rule may be tried there; every
//! other failure is final.

use vstd::prelude::*;
use crate::error::{error_at, ErrorKind, ParseError};
use crate::scanner::{char_at, literal_at, number_end, whitespace_end};
use crate::strings::string_at;
use crate::value::ValueView;

verus! {

/// What a rule for a single value gives.
pub type Parsed = Result<(ValueView, int), ParseError>;

/// What the elements of an array give.
pub type ParsedItems = Result<(Seq<ValueView>, int), ParseError>;

/// What one member of an object gives.
pub type ParsedPair = Result<((Seq<char>, ValueView), int), ParseError>;

/// What the members of an object give.
pub type ParsedMembers = Result<(Seq<(Seq<char>, ValueView)>, int), ParseError>;

/// How deep arrays and objects may be nested in a document.
pub const MAX_DEPTH: usize = 128;

pub open spec fn keyword_null() -> Seq<char> {
    seq!['n', 'u', 'l', 'l']
}

pub open spec fn keyword_true() -> Seq<char> {
    seq!['t', 'r', 'u', 'e']
}

pub open spec fn keyword_false() -> Seq<char> {
    seq!['f', 'a', 'l', 's', 'e']
}

/// Whether the outcome is the failure `NoMatch`.
pub open spec fn is_no_match<T>(r: Result<T, ParseError>) -> bool {
    match r {
        Ok(_) => false,
        Err(e) => e.kind == ErrorKind::NoMatch,
    }
}

/// The first outcome unless it is `NoMatch`, else the second.
pub open spec fn first_match(first: Parsed, second: Parsed) -> Parsed {
    if is_no_match(first) {
        second
    } else {
        first
    }
}

/// The rule for `null`.
pub open spec fn null_rule(s: Seq<char>, pos: int) -> Parsed {
    if literal_at(s, pos, keyword_null()) {
        Ok((ValueView::Null, pos + 4))
    } else {
        Err(error_at(ErrorKind::NoMatch, pos))
    }
}

/// The rule for `true` and `false`.
pub open spec fn boolean_rule(s: Seq<char>, pos: int) -> Parsed {
    if literal_at(s, pos, keyword_true()) {
        Ok((ValueView::Boolean(true), pos + 4))
    } else if literal_at(s, pos, keyword_false()) {
        Ok((ValueView::Boolean(false), pos + 5))
    } else {
        Err(error_at(ErrorKind::NoMatch, pos))
    }
}

/// The rule for a number: its value is the text that was consumed.
pub open spec fn number_rule(s: Seq<char>, pos: int) -> Parsed {
    match number_end(s, pos) {
        Some(end) => Ok((ValueView::Number(s.subrange(pos, end)), end)),
        None => Err(error_at(ErrorKind::NoMatch, pos)),
    }
}

/// The rule for a string: its value is the decoded text.
pub open spec fn string_rule(s: Seq<char>, pos: int) -> Parsed {
    match string_at(s, pos) {
        Ok((text, end)) => Ok((ValueView::String(text), end)),
        Err(e) => Err(e),
    }
}

/// The elements `rest`, with `item` put in front of them.
pub open spec fn prepend_item(item: ValueView, rest: ParsedItems) -> ParsedItems {
    match rest {
        Ok((items, end)) => Ok((seq![item] + items, end)),
        Err(e) => Err(e),
    }
}

/// The members `rest`, with `pair` put in front of them.
pub open spec fn prepend_pair(pair: (Seq<char>, ValueView), rest: ParsedMembers) -> ParsedMembers {
    match rest {
        Ok((pairs, end)) => Ok((seq![pair] + pairs, end)),
        Err(e) => Err(e),
    }
}

/// The rule for a value: whitespace, then the first of string, number,
/// boolean, null, array and object whose leading token is there. Where none
/// is, the failure is `UnexpectedToken` at the first character behind the
/// whitespace. `depth` is how many levels of arrays and objects the value
/// may still hold.
pub open spec fn value_rule(s: Seq<char>, pos: int, depth: nat) -> Parsed
    decreases depth, 2int, 0int,
{
    let start = whitespace_end(s, pos);
    first_match(
        string_rule(s, start),
        first_match(
            number_rule(s, start),
            first_match(
                boolean_rule(s, start),
                first_match(
                    null_rule(s, start),
                    first_match(
                        array_rule(s, start, depth),
                        first_match(
                            object_rule(s, start, depth),
                            Err(error_at(ErrorKind::UnexpectedToken, start)),
                        ),
                    ),
                ),
            ),
        ),
    )
}

/// The rule for an array, whose opening bracket stands at `pos`: either the
/// closing bracket follows, or elements do. With no level left the failure
/// is `NestingTooDeep` at the bracket.
pub open spec fn array_rule(s: Seq<char>, pos: int, depth: nat) -> Parsed
    decreases depth, 1int, 0int,
{
    if !char_at(s, pos, '[') {
        Err(error_at(ErrorKind::NoMatch, pos))
    } else if depth == 0 {
        Err(error_at(ErrorKind::NestingTooDeep, pos))
    } else {
        let first = whitespace_end(s, pos + 1);
        if char_at(s, first, ']') {
            Ok((ValueView::Array(Seq::empty()), first + 1))
        } else {
            match elements_rule(s, first, (depth - 1) as nat) {
                Ok((items, end)) => Ok((ValueView::Array(items), end)),
                Err(e) => Err(e),
            }
        }
    }
}

/// One or more values with commas between them, up to and with the closing
/// bracket. After a value, anything but a comma or the bracket is
/// `ExpectedCommaOrBracket` there; a comma with the bracket next is
/// `TrailingComma` at the comma.
///
/// A value is never empty, so the next element always starts behind `pos`;
/// the test for it is there to show that the rule ends.
pub open spec fn elements_rule(s: Seq<char>, pos: int, depth: nat) -> ParsedItems
    decreases depth, 3int, s.len() - pos,
{
    match value_rule(s, pos, depth) {
        Err(e) => Err(e),
        Ok((item, end)) => {
            let mark = whitespace_end(s, end);
            let next = whitespace_end(s, mark + 1);
            if char_at(s, mark, ']') {
                Ok((seq![item], mark + 1))
            } else if !char_at(s, mark, ',') {
                Err(error_at(ErrorKind::ExpectedCommaOrBracket, mark))
            } else if char_at(s, next, ']') {
                Err(error_at(ErrorKind::TrailingComma, mark))
            } else if pos < next <= s.len() {
                prepend_item(item, elements_rule(s, next, depth))
            } else {
                Err(error_at(ErrorKind::UnexpectedToken, next))
            }
        },
    }
}

/// The rule for one member of an object: whitespace, a string, a colon and
/// a value. Anything but a string is `NonStringKey` where the key should
/// start; anything but a colon behind the key is `ExpectedColon` there.
pub open spec fn pair_rule(s: Seq<char>, pos: int, depth: nat) -> ParsedPair
    decreases depth, 3int, 0int,
{
    let start = whitespace_end(s, pos);
    if !char_at(s, start, '"') {
        Err(error_at(ErrorKind::NonStringKey, start))
    } else {
        match string_at(s, start) {
            Err(e) => Err(e),
            Ok((key, key_end)) => {
                let colon = whitespace_end(s, key_end);
                if !char_at(s, colon, ':') {
                    Err(error_at(ErrorKind::ExpectedColon, colon))
                } else {
                    match value_rule(s, colon + 1, depth) {
                        Err(e) => Err(e),
                        Ok((item, end)) => Ok(((key, item), end)),
                    }
                }
            },
        }
    }
}

/// The rule for an object, whose opening brace stands at `pos`: either the
/// closing brace follows, or members do. With no level left the failure is
/// `NestingTooDeep` at the brace.
pub open spec fn object_rule(s: Seq<char>, pos: int, depth: nat) -> Parsed
    decreases depth, 1int, 0int,
{
    if !char_at(s, pos, '{') {
        Err(error_at(ErrorKind::NoMatch, pos))
    } else if depth == 0 {
        Err(error_at(ErrorKind::NestingTooDeep, pos))
    } else {
        let first = whitespace_end(s, pos + 1);
        if char_at(s, first, '}') {
            Ok((ValueView::Object(Seq::empty()), first + 1))
        } else {
            match members_rule(s, first, (depth - 1) as nat) {
                Ok((pairs, end)) => Ok((ValueView::Object(pairs), end)),
                Err(e) => Err(e),
            }
        }
    }
}

/// One or more members with commas between them, up to and with the closing
/// brace; the failures are those of the elements of an array. Members stay
/// in the order of the input, and a key that occurs again is kept again.
///
/// A member is never empty, so the next one always starts behind `pos`; the
/// test for it is there to show that the rule ends.
pub open spec fn members_rule(s: Seq<char>, pos: int, depth: nat) -> ParsedMembers
    decreases depth, 4int, s.len() - pos,
{
    match pair_rule(s, pos, depth) {
        Err(e) => Err(e),
        Ok((pair, end)) => {
            let mark = whitespace_end(s, end);
            let next = whitespace_end(s, mark + 1);
            if char_at(s, mark, '}') {
                Ok((seq![pair], mark + 1))
            } else if !char_at(s, mark, ',') {
                Err(error_at(ErrorKind::ExpectedCommaOrBracket, mark))
            } else if char_at(s, next, '}') {
                Err(error_at(ErrorKind::TrailingComma, mark))
            } else if pos < next <= s.len() {
                prepend_pair(pair, members_rule(s, next, depth))
            } else {
                Err(error_at(ErrorKind::UnexpectedToken, next))
            }
        },
    }
}

/// A value and the whitespace behind it.
pub open spec fn json_rule(s: Seq<char>, pos: int, depth: nat) -> Parsed {
    match value_rule(s, pos, depth) {
        Ok((item, end)) => Ok((item, whitespace_end(s, end))),
        Err(e) => Err(e),
    }
}

/// The value of a whole document: one value with nothing but whitespace
/// round it, nested no deeper than `MAX_DEPTH`. Anything else behind the
/// value is `TrailingContent` at its first character.
pub open spec fn document(s: Seq<char>) -> Result<ValueView, ParseError> {
    match json_rule(s, 0, MAX_DEPTH as nat) {
        Ok((item, end)) => if end == s.len() {
            Ok(item)
        } else {
            Err(error_at(ErrorKind::TrailingContent, end))
        },
        Err(e) => Err(e),
    }
}

} // verus!
