//! What the limit on nesting means for an input that goes beyond it.

use vstd::prelude::*;
use crate::error::{error_at, ErrorKind, ParseError};
use crate::grammar::{array_rule, document, elements_rule, value_rule, MAX_DEPTH};
use crate::rendering::lemma_keywords_start;
use crate::scanner::{char_at, digits_end, number_end, whitespace_end};
use crate::value::ValueView;

verus! {

/// Where more opening brackets follow each other than there are levels left,
/// the value fails with `NestingTooDeep` at the first bracket too many,
/// whatever stands behind the brackets.
pub proof fn lemma_nesting_too_deep(s: Seq<char>, pos: int, depth: nat)
    requires
        0 <= pos,
        pos + depth < s.len(),
        forall|i: int| pos <= i <= pos + depth ==> s[i] == '[',
    ensures
        value_rule(s, pos, depth) == Err::<(ValueView, int), ParseError>(
            error_at(ErrorKind::NestingTooDeep, pos + depth),
        ),
    decreases depth,
{
    assert(s[pos] == '[');
    assert(whitespace_end(s, pos) == pos);
    assert(digits_end(s, pos) == pos);
    assert(number_end(s, pos) is None);
    lemma_keywords_start(s, pos);
    assert(char_at(s, pos, '['));
    if depth > 0 {
        assert(s[pos + 1] == '[');
        assert(whitespace_end(s, pos + 1) == pos + 1);
        lemma_nesting_too_deep(s, pos + 1, (depth - 1) as nat);
        assert(elements_rule(s, pos + 1, (depth - 1) as nat) is Err);
    }
    assert(array_rule(s, pos, depth) == Err::<(ValueView, int), ParseError>(
        error_at(ErrorKind::NestingTooDeep, pos + depth),
    ));
}

/// A document that starts with more than `MAX_DEPTH` opening brackets fails
/// with `NestingTooDeep` at the first bracket too many.
pub proof fn lemma_document_too_deep(d: Seq<char>)
    requires
        d.len() > MAX_DEPTH,
        forall|i: int| 0 <= i <= MAX_DEPTH ==> d[i] == '[',
    ensures
        document(d) == Err::<ValueView, ParseError>(
            error_at(ErrorKind::NestingTooDeep, MAX_DEPTH as int),
        ),
{
    lemma_nesting_too_deep(d, 0, MAX_DEPTH as nat);
}

} // verus!
