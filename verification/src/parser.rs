//! The recursive-descent parser: one function for each rule of the grammar.

use vstd::prelude::*;
use crate::error::{ErrorKind, ParseError};
use crate::grammar::{
    array_rule, boolean_rule, document, elements_rule, is_no_match, json_rule, keyword_false,
    keyword_null, keyword_true, members_rule, null_rule, number_rule, object_rule, pair_rule,
    prepend_item, prepend_pair, string_rule, value_rule, Parsed, ParsedItems, ParsedMembers,
    ParsedPair, MAX_DEPTH,
};
use crate::scanner::{
    char_at, match_literal, peek_is, scan_number, skip_whitespace, whitespace_end,
};
use crate::rendering::well_formed;
use crate::round_trip::lemma_document_well_formed;
use crate::strings::scan_string;
use crate::text::chars_of;
use crate::value::{Value, ValueView};

verus! {

/// What a parsing function returned, with the value taken by its model.
pub open spec fn parsed_view(r: Result<(Value, usize), ParseError>) -> Parsed {
    match r {
        Ok((value, end)) => Ok((value@, end as int)),
        Err(e) => Err(e),
    }
}

/// What parsing one member returned, with key and value taken by their models.
pub open spec fn pair_view(r: Result<((String, Value), usize), ParseError>) -> ParsedPair {
    match r {
        Ok((pair, end)) => Ok(((pair.0@, pair.1@), end as int)),
        Err(e) => Err(e),
    }
}

/// What parsing a document returned, with the value taken by its model.
pub open spec fn document_view(r: Result<Value, ParseError>) -> Result<ValueView, ParseError> {
    match r {
        Ok(value) => Ok(value@),
        Err(e) => Err(e),
    }
}

/// Whether the outcome ends behind `pos` and within the input.
pub open spec fn advances(r: Result<(Value, usize), ParseError>, pos: usize, len: nat) -> bool {
    match r {
        Ok((_, end)) => pos < end <= len,
        Err(_) => true,
    }
}

/// Whether the failure, if the outcome is one, is of a kind that ends a
/// parse: neither `NoMatch` nor `NumberOutOfRange`.
pub open spec fn fails_for_good<T>(r: Result<T, ParseError>, len: nat) -> bool {
    match r {
        Ok(_) => true,
        Err(e) => e.kind != ErrorKind::NoMatch && e.kind != ErrorKind::NumberOutOfRange
            && e.offset <= len,
    }
}

/// Tells whether a rule did not find its leading token.
pub fn no_match(r: &Result<(Value, usize), ParseError>) -> (b: bool)
    ensures
        b == is_no_match(parsed_view(*r)),
        b == is_no_match(*r),
{
    match r {
        Ok(_) => false,
        Err(e) => e.kind == ErrorKind::NoMatch,
    }
}

/// Parses `null` at `pos`.
pub fn parse_null(input: &[char], pos: usize) -> (result: Result<(Value, usize), ParseError>)
    requires
        pos <= input.len(),
    ensures
        parsed_view(result) == null_rule(input@, pos as int),
        advances(result, pos, input@.len()),
{
    proof {
        reveal_strlit("null");
        assert("null"@ =~= keyword_null());
    }
    match match_literal(input, pos, "null") {
        Ok(end) => Ok((Value::Null, end)),
        Err(e) => Err(e),
    }
}

/// Parses `true` or `false` at `pos`.
pub fn parse_bool(input: &[char], pos: usize) -> (result: Result<(Value, usize), ParseError>)
    requires
        pos <= input.len(),
    ensures
        parsed_view(result) == boolean_rule(input@, pos as int),
        advances(result, pos, input@.len()),
{
    proof {
        reveal_strlit("true");
        reveal_strlit("false");
        assert("true"@ =~= keyword_true());
        assert("false"@ =~= keyword_false());
    }
    match match_literal(input, pos, "true") {
        Ok(end) => Ok((Value::Boolean(true), end)),
        Err(_) => match match_literal(input, pos, "false") {
            Ok(end) => Ok((Value::Boolean(false), end)),
            Err(e) => Err(e),
        },
    }
}

/// Parses a number at `pos`; the value holds its text.
pub fn parse_num(input: &[char], pos: usize) -> (result: Result<(Value, usize), ParseError>)
    requires
        pos <= input.len(),
    ensures
        parsed_view(result) == number_rule(input@, pos as int),
        advances(result, pos, input@.len()),
{
    match scan_number(input, pos) {
        Ok((text, end)) => Ok((Value::Number(text), end)),
        Err(e) => Err(e),
    }
}

/// Parses a string at `pos`; the value holds its decoded text.
pub fn parse_str(input: &[char], pos: usize) -> (result: Result<(Value, usize), ParseError>)
    requires
        pos <= input.len(),
    ensures
        parsed_view(result) == string_rule(input@, pos as int),
        advances(result, pos, input@.len()),
        is_no_match(result) || fails_for_good(result, input@.len()),
{
    match scan_string(input, pos) {
        Ok((text, end)) => Ok((Value::String(text), end)),
        Err(e) => Err(e),
    }
}

/// Parses the value at `pos`, which may hold `depth` levels of arrays and
/// objects, and returns it with the position behind it.
pub fn parse_value(input: &[char], pos: usize, depth: usize) -> (result: Result<
    (Value, usize),
    ParseError,
>)
    requires
        pos <= input.len(),
    ensures
        parsed_view(result) == value_rule(input@, pos as int, depth as nat),
        advances(result, pos, input@.len()),
        fails_for_good(result, input@.len()),
    decreases depth, 2int,
{
    let start: usize = skip_whitespace(input, pos);
    let found = parse_str(input, start);
    if !no_match(&found) {
        return found;
    }
    let found = parse_num(input, start);
    if !no_match(&found) {
        return found;
    }
    let found = parse_bool(input, start);
    if !no_match(&found) {
        return found;
    }
    let found = parse_null(input, start);
    if !no_match(&found) {
        return found;
    }
    let found = parse_array(input, start, depth);
    if !no_match(&found) {
        return found;
    }
    let found = parse_object(input, start, depth);
    if !no_match(&found) {
        return found;
    }
    Err(ParseError { kind: ErrorKind::UnexpectedToken, offset: start })
}

/// Parses the array at `pos`, which may hold `depth` levels of arrays and
/// objects, itself counted. Without an opening bracket at `pos` it fails
/// with `NoMatch`.
pub fn parse_array(input: &[char], pos: usize, depth: usize) -> (result: Result<
    (Value, usize),
    ParseError,
>)
    requires
        pos <= input.len(),
    ensures
        parsed_view(result) == array_rule(input@, pos as int, depth as nat),
        advances(result, pos, input@.len()),
        is_no_match(result) || fails_for_good(result, input@.len()),
    decreases depth, 1int,
{
    if !peek_is(input, pos, '[') {
        return Err(ParseError { kind: ErrorKind::NoMatch, offset: pos });
    }
    if depth == 0 {
        return Err(ParseError { kind: ErrorKind::NestingTooDeep, offset: pos });
    }
    let first: usize = skip_whitespace(input, pos + 1);
    let mut items: Vec<Value> = Vec::new();
    if peek_is(input, first, ']') {
        proof {
            assert(Value::Array(items)@ == ValueView::Array(Seq::empty())) by {
                assert(Value::Array(items)@->Array_0 =~= Seq::empty());
            }
        }
        return Ok((Value::Array(items), first + 1));
    }
    let ghost mut done: Seq<ValueView> = Seq::empty();
    let mut cur: usize = first;
    proof {
        lemma_prepend_no_items(elements_rule(input@, first as int, (depth - 1) as nat));
    }
    loop
        invariant
            pos < first <= cur <= input@.len() <= usize::MAX,
            depth > 0,
            char_at(input@, pos as int, '['),
            first == whitespace_end(input@, pos + 1),
            !char_at(input@, first as int, ']'),
            done.len() == items@.len(),
            forall|i: int| 0 <= i < done.len() ==> done[i] == (#[trigger] items@[i])@,
            elements_rule(input@, first as int, (depth - 1) as nat) == prepend_items(
                done,
                elements_rule(input@, cur as int, (depth - 1) as nat),
            ),
        decreases input@.len() - cur,
    {
        match parse_value(input, cur, depth - 1) {
            Err(e) => {
                return Err(e);
            },
            Ok((item, end)) => {
                let mark: usize = skip_whitespace(input, end);
                if peek_is(input, mark, ']') {
                    proof {
                        assert(done + seq![item@] =~= done.push(item@));
                    }
                    items.push(item);
                    proof {
                        assert(Value::Array(items)@->Array_0 =~= done.push(item@));
                    }
                    return Ok((Value::Array(items), mark + 1));
                }
                if !peek_is(input, mark, ',') {
                    return Err(
                        ParseError { kind: ErrorKind::ExpectedCommaOrBracket, offset: mark },
                    );
                }
                let next: usize = skip_whitespace(input, mark + 1);
                if peek_is(input, next, ']') {
                    return Err(ParseError { kind: ErrorKind::TrailingComma, offset: mark });
                }
                proof {
                    lemma_prepend_items_push(
                        done,
                        item@,
                        elements_rule(input@, next as int, (depth - 1) as nat),
                    );
                    done = done.push(item@);
                }
                items.push(item);
                cur = next;
            },
        }
    }
}

/// Parses one member of an object at `pos`: a key, a colon and a value.
pub fn parse_pair(input: &[char], pos: usize, depth: usize) -> (result: Result<
    ((String, Value), usize),
    ParseError,
>)
    requires
        pos <= input.len(),
    ensures
        pair_view(result) == pair_rule(input@, pos as int, depth as nat),
        result is Ok ==> pos < result.unwrap().1 <= input@.len(),
        fails_for_good(result, input@.len()),
    decreases depth, 3int,
{
    let start: usize = skip_whitespace(input, pos);
    if !peek_is(input, start, '"') {
        return Err(ParseError { kind: ErrorKind::NonStringKey, offset: start });
    }
    match scan_string(input, start) {
        Err(e) => Err(e),
        Ok((key, key_end)) => {
            let colon: usize = skip_whitespace(input, key_end);
            if !peek_is(input, colon, ':') {
                return Err(ParseError { kind: ErrorKind::ExpectedColon, offset: colon });
            }
            match parse_value(input, colon + 1, depth) {
                Err(e) => Err(e),
                Ok((item, end)) => Ok(((key, item), end)),
            }
        },
    }
}

/// Parses the object at `pos`, which may hold `depth` levels of arrays and
/// objects, itself counted. Without an opening brace at `pos` it fails with
/// `NoMatch`.
pub fn parse_object(input: &[char], pos: usize, depth: usize) -> (result: Result<
    (Value, usize),
    ParseError,
>)
    requires
        pos <= input.len(),
    ensures
        parsed_view(result) == object_rule(input@, pos as int, depth as nat),
        advances(result, pos, input@.len()),
        is_no_match(result) || fails_for_good(result, input@.len()),
    decreases depth, 1int,
{
    if !peek_is(input, pos, '{') {
        return Err(ParseError { kind: ErrorKind::NoMatch, offset: pos });
    }
    if depth == 0 {
        return Err(ParseError { kind: ErrorKind::NestingTooDeep, offset: pos });
    }
    let first: usize = skip_whitespace(input, pos + 1);
    let mut pairs: Vec<(String, Value)> = Vec::new();
    if peek_is(input, first, '}') {
        proof {
            assert(Value::Object(pairs)@->Object_0 =~= Seq::empty());
        }
        return Ok((Value::Object(pairs), first + 1));
    }
    let ghost mut done: Seq<(Seq<char>, ValueView)> = Seq::empty();
    let mut cur: usize = first;
    proof {
        lemma_prepend_no_pairs(members_rule(input@, first as int, (depth - 1) as nat));
    }
    loop
        invariant
            pos < first <= cur <= input@.len() <= usize::MAX,
            depth > 0,
            char_at(input@, pos as int, '{'),
            first == whitespace_end(input@, pos + 1),
            !char_at(input@, first as int, '}'),
            done.len() == pairs@.len(),
            forall|i: int|
                0 <= i < done.len() ==> done[i] == ((#[trigger] pairs@[i]).0@, pairs@[i].1@),
            members_rule(input@, first as int, (depth - 1) as nat) == prepend_pairs(
                done,
                members_rule(input@, cur as int, (depth - 1) as nat),
            ),
        decreases input@.len() - cur,
    {
        match parse_pair(input, cur, depth - 1) {
            Err(e) => {
                return Err(e);
            },
            Ok((pair, end)) => {
                let ghost pair_model = (pair.0@, pair.1@);
                let mark: usize = skip_whitespace(input, end);
                if peek_is(input, mark, '}') {
                    proof {
                        assert(done + seq![pair_model] =~= done.push(pair_model));
                    }
                    pairs.push(pair);
                    proof {
                        assert(Value::Object(pairs)@->Object_0 =~= done.push(pair_model));
                    }
                    return Ok((Value::Object(pairs), mark + 1));
                }
                if !peek_is(input, mark, ',') {
                    return Err(
                        ParseError { kind: ErrorKind::ExpectedCommaOrBracket, offset: mark },
                    );
                }
                let next: usize = skip_whitespace(input, mark + 1);
                if peek_is(input, next, '}') {
                    return Err(ParseError { kind: ErrorKind::TrailingComma, offset: mark });
                }
                proof {
                    lemma_prepend_pairs_push(
                        done,
                        pair_model,
                        members_rule(input@, next as int, (depth - 1) as nat),
                    );
                    done = done.push(pair_model);
                }
                pairs.push(pair);
                cur = next;
            },
        }
    }
}

/// Parses the value at `pos` and skips the whitespace behind it.
pub fn parse_json(input: &[char], pos: usize, depth: usize) -> (result: Result<
    (Value, usize),
    ParseError,
>)
    requires
        pos <= input.len(),
    ensures
        parsed_view(result) == json_rule(input@, pos as int, depth as nat),
        advances(result, pos, input@.len()),
        fails_for_good(result, input@.len()),
{
    match parse_value(input, pos, depth) {
        Ok((item, end)) => {
            let rest: usize = skip_whitespace(input, end);
            Ok((item, rest))
        },
        Err(e) => Err(e),
    }
}

/// Parses a whole document: one value, with nothing but whitespace before
/// and behind it. The value is well formed. The failure is never `NoMatch`
/// or `NumberOutOfRange`, and its offset lies within the input.
pub fn parse_document(input: &str) -> (result: Result<Value, ParseError>)
    ensures
        document_view(result) == document(input@),
        result is Ok ==> well_formed(result.unwrap()@, MAX_DEPTH as nat),
        fails_for_good(result, input@.len()),
{
    let chars = chars_of(input);
    proof {
        if document(input@) is Ok {
            lemma_document_well_formed(input@);
        }
    }
    match parse_json(chars.as_slice(), 0, MAX_DEPTH) {
        Ok((item, end)) => {
            if end == chars.len() {
                Ok(item)
            } else {
                Err(ParseError { kind: ErrorKind::TrailingContent, offset: end })
            }
        },
        Err(e) => Err(e),
    }
}

/// The elements `rest`, with `front` put in front of them.
pub open spec fn prepend_items(front: Seq<ValueView>, rest: ParsedItems) -> ParsedItems {
    match rest {
        Ok((items, end)) => Ok((front + items, end)),
        Err(e) => Err(e),
    }
}

/// The members `rest`, with `front` put in front of them.
pub open spec fn prepend_pairs(
    front: Seq<(Seq<char>, ValueView)>,
    rest: ParsedMembers,
) -> ParsedMembers {
    match rest {
        Ok((pairs, end)) => Ok((front + pairs, end)),
        Err(e) => Err(e),
    }
}

/// Putting no elements in front leaves the outcome as it is.
proof fn lemma_prepend_no_items(rest: ParsedItems)
    ensures
        prepend_items(Seq::empty(), rest) == rest,
{
    match rest {
        Ok((items, end)) => {
            assert(Seq::<ValueView>::empty() + items =~= items);
        },
        Err(e) => {},
    }
}

/// Putting `front` and then `item` in front is putting `item` in front and
/// then `front`.
proof fn lemma_prepend_items_push(front: Seq<ValueView>, item: ValueView, rest: ParsedItems)
    ensures
        prepend_items(front.push(item), rest) == prepend_items(front, prepend_item(item, rest)),
{
    match rest {
        Ok((items, end)) => {
            assert(front.push(item) + items =~= front + (seq![item] + items));
        },
        Err(e) => {},
    }
}

/// Putting no members in front leaves the outcome as it is.
proof fn lemma_prepend_no_pairs(rest: ParsedMembers)
    ensures
        prepend_pairs(Seq::empty(), rest) == rest,
{
    match rest {
        Ok((pairs, end)) => {
            assert(Seq::<(Seq<char>, ValueView)>::empty() + pairs =~= pairs);
        },
        Err(e) => {},
    }
}

/// Putting `front` and then `pair` in front is putting `pair` in front and
/// then `front`.
proof fn lemma_prepend_pairs_push(
    front: Seq<(Seq<char>, ValueView)>,
    pair: (Seq<char>, ValueView),
    rest: ParsedMembers,
)
    ensures
        prepend_pairs(front.push(pair), rest) == prepend_pairs(front, prepend_pair(pair, rest)),
{
    match rest {
        Ok((pairs, end)) => {
            assert(front.push(pair) + pairs =~= front + (seq![pair] + pairs));
        },
        Err(e) => {},
    }
}

} // verus!
