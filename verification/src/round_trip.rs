//! What every parse gives is well formed, and parsing its text gives it
//! again.

use vstd::prelude::*;
use crate::grammar::{
    array_rule, document, elements_rule, members_rule, object_rule, pair_rule, value_rule,
    MAX_DEPTH,
};
use crate::rendering::{is_number_text, lemma_document_of_rendered, rendered, well_formed};
use crate::scanner::{
    char_at, digits_end, exponent_end, fraction_end, is_digit, lemma_digits_end,
    lemma_number_end, lemma_whitespace_end, number_end, sign_end, whitespace_end,
};
use crate::strings::{lemma_string_body_end, string_at};

verus! {

/// A run of digits in a part of the input ends where it ends in the whole
/// input, or where the part ends.
proof fn lemma_digits_cut(s: Seq<char>, from: int, to: int, i: int)
    requires
        0 <= from <= from + i <= to <= s.len(),
        0 <= i,
    ensures
        digits_end(s.subrange(from, to), i) == (if digits_end(s, from + i) <= to {
            digits_end(s, from + i)
        } else {
            to
        }) - from,
    decreases to - from - i,
{
    let t = s.subrange(from, to);
    lemma_digits_end(s, from + i);
    if from + i < to {
        assert(t[i] == s[from + i]);
        if is_digit(s[from + i]) {
            lemma_digits_cut(s, from, to, i + 1);
        }
    }
}

/// The text that the number rule consumes is, taken alone, one number.
pub proof fn lemma_number_text(s: Seq<char>, pos: int)
    requires
        0 <= pos <= s.len(),
        number_end(s, pos) is Some,
    ensures
        is_number_text(s.subrange(pos, number_end(s, pos).unwrap())),
{
    lemma_number_end(s, pos);
    let end = number_end(s, pos).unwrap();
    let t = s.subrange(pos, end);
    let n = end - pos;
    assert forall|i: int| 0 <= i <= n implies #[trigger] digits_end(t, i) == (if digits_end(
        s,
        pos + i,
    ) <= end {
        digits_end(s, pos + i)
    } else {
        end
    }) - pos && digits_end(s, pos + i) >= pos + i by {
        lemma_digits_cut(s, pos, end, i);
        lemma_digits_end(s, pos + i);
    }
    assert forall|i: int, c: char| 0 <= i <= n implies #[trigger] char_at(t, i, c) == (i < n
        && char_at(s, pos + i, c)) by {
        if i < n {
            assert(t[i] == s[pos + i]);
        }
    }
    let d = sign_end(s, pos);
    assert(char_at(t, 0, '-') == char_at(s, pos + 0, '-'));
    assert(sign_end(t, 0) == d - pos);
    let i1 = digits_end(s, d);
    let f = fraction_end(s, i1);
    lemma_digits_end(s, d);
    if i1 + 1 <= s.len() {
        lemma_digits_end(s, i1 + 1);
    }
    if f + 1 <= s.len() {
        lemma_digits_end(s, f + 1);
    }
    if f + 2 <= s.len() {
        lemma_digits_end(s, f + 2);
    }
    assert(d < i1 <= f <= end);
    assert(digits_end(t, d - pos) == i1 - pos);
    assert(char_at(t, i1 - pos, '.') == (i1 < end && char_at(s, pos + (i1 - pos), '.')));
    if i1 < end {
        assert(digits_end(t, (i1 + 1) - pos) == (if digits_end(s, pos + ((i1 + 1) - pos)) <= end {
            digits_end(s, pos + ((i1 + 1) - pos))
        } else {
            end
        }) - pos);
    }
    assert(fraction_end(t, i1 - pos) == f - pos);
    let x = f - pos;
    assert(char_at(t, x, 'e') == (f < end && char_at(s, pos + x, 'e')));
    assert(char_at(t, x, 'E') == (f < end && char_at(s, pos + x, 'E')));
    if f < end {
        assert(char_at(t, x + 1, '+') == (x + 1 < n && char_at(s, pos + (x + 1), '+')));
        assert(char_at(t, x + 1, '-') == (x + 1 < n && char_at(s, pos + (x + 1), '-')));
        if x + 1 <= n {
            assert(digits_end(t, x + 1) == (if digits_end(s, pos + (x + 1)) <= end {
                digits_end(s, pos + (x + 1))
            } else {
                end
            }) - pos);
        }
        if x + 2 <= n {
            assert(digits_end(t, x + 2) == (if digits_end(s, pos + (x + 2)) <= end {
                digits_end(s, pos + (x + 2))
            } else {
                end
            }) - pos);
        }
    }
    assert(exponent_end(t, x) == end - pos);
}

/// A value that the value rule gives is well formed, and the rule consumed
/// at least one character of the input for it.
pub proof fn lemma_value_well_formed(s: Seq<char>, pos: int, depth: nat)
    requires
        0 <= pos <= s.len(),
    ensures
        match value_rule(s, pos, depth) {
            Ok((v, end)) => well_formed(v, depth) && pos < end <= s.len(),
            Err(_) => true,
        },
    decreases depth, 2int, 0int,
{
    lemma_whitespace_end(s, pos);
    let start = whitespace_end(s, pos);
    if start < s.len() {
        lemma_string_body_end(s, start + 1);
    }
    lemma_number_end(s, start);
    if number_end(s, start) is Some {
        lemma_number_text(s, start);
    }
    lemma_array_well_formed(s, start, depth);
    lemma_object_well_formed(s, start, depth);
}

/// An array that the array rule gives is well formed.
proof fn lemma_array_well_formed(s: Seq<char>, pos: int, depth: nat)
    requires
        0 <= pos <= s.len(),
    ensures
        match array_rule(s, pos, depth) {
            Ok((v, end)) => well_formed(v, depth) && pos < end <= s.len(),
            Err(_) => true,
        },
    decreases depth, 1int, 0int,
{
    if char_at(s, pos, '[') && depth > 0 {
        lemma_whitespace_end(s, pos + 1);
        let first = whitespace_end(s, pos + 1);
        if !char_at(s, first, ']') {
            lemma_elements_well_formed(s, first, (depth - 1) as nat);
        }
    }
}

/// The elements that the rule for elements gives are well formed.
proof fn lemma_elements_well_formed(s: Seq<char>, pos: int, depth: nat)
    requires
        0 <= pos <= s.len(),
    ensures
        match elements_rule(s, pos, depth) {
            Ok((items, end)) => {
                &&& forall|k: int| 0 <= k < items.len() ==> well_formed(#[trigger] items[k], depth)
                &&& pos < end <= s.len()
            },
            Err(_) => true,
        },
    decreases depth, 3int, s.len() - pos,
{
    lemma_value_well_formed(s, pos, depth);
    match value_rule(s, pos, depth) {
        Ok((item, end)) => {
            lemma_whitespace_end(s, end);
            let mark = whitespace_end(s, end);
            if char_at(s, mark, ',') {
                lemma_whitespace_end(s, mark + 1);
                let next = whitespace_end(s, mark + 1);
                if !char_at(s, next, ']') {
                    lemma_elements_well_formed(s, next, depth);
                    match elements_rule(s, next, depth) {
                        Ok((items, _)) => {
                            let all = seq![item] + items;
                            assert forall|k: int| 0 <= k < all.len() implies well_formed(
                                #[trigger] all[k],
                                depth,
                            ) by {
                                if k > 0 {
                                    assert(all[k] == items[k - 1]);
                                }
                            }
                        },
                        Err(_) => {},
                    }
                }
            }
        },
        Err(_) => {},
    }
}

/// The value of a member that the pair rule gives is well formed.
proof fn lemma_pair_well_formed(s: Seq<char>, pos: int, depth: nat)
    requires
        0 <= pos <= s.len(),
    ensures
        match pair_rule(s, pos, depth) {
            Ok((pair, end)) => well_formed(pair.1, depth) && pos < end <= s.len(),
            Err(_) => true,
        },
    decreases depth, 3int, 0int,
{
    lemma_whitespace_end(s, pos);
    let start = whitespace_end(s, pos);
    if char_at(s, start, '"') {
        lemma_string_body_end(s, start + 1);
        match string_at(s, start) {
            Ok((_, key_end)) => {
                lemma_whitespace_end(s, key_end);
                let colon = whitespace_end(s, key_end);
                if char_at(s, colon, ':') {
                    lemma_value_well_formed(s, colon + 1, depth);
                }
            },
            Err(_) => {},
        }
    }
}

/// An object that the object rule gives is well formed.
proof fn lemma_object_well_formed(s: Seq<char>, pos: int, depth: nat)
    requires
        0 <= pos <= s.len(),
    ensures
        match object_rule(s, pos, depth) {
            Ok((v, end)) => well_formed(v, depth) && pos < end <= s.len(),
            Err(_) => true,
        },
    decreases depth, 1int, 0int,
{
    if char_at(s, pos, '{') && depth > 0 {
        lemma_whitespace_end(s, pos + 1);
        let first = whitespace_end(s, pos + 1);
        if !char_at(s, first, '}') {
            lemma_members_well_formed(s, first, (depth - 1) as nat);
        }
    }
}

/// The members that the rule for members gives are well formed.
proof fn lemma_members_well_formed(s: Seq<char>, pos: int, depth: nat)
    requires
        0 <= pos <= s.len(),
    ensures
        match members_rule(s, pos, depth) {
            Ok((pairs, end)) => {
                &&& forall|k: int|
                    0 <= k < pairs.len() ==> well_formed((#[trigger] pairs[k]).1, depth)
                &&& pos < end <= s.len()
            },
            Err(_) => true,
        },
    decreases depth, 4int, s.len() - pos,
{
    lemma_pair_well_formed(s, pos, depth);
    match pair_rule(s, pos, depth) {
        Ok((pair, end)) => {
            lemma_whitespace_end(s, end);
            let mark = whitespace_end(s, end);
            if char_at(s, mark, ',') {
                lemma_whitespace_end(s, mark + 1);
                let next = whitespace_end(s, mark + 1);
                if !char_at(s, next, '}') {
                    lemma_members_well_formed(s, next, depth);
                    match members_rule(s, next, depth) {
                        Ok((pairs, _)) => {
                            let all = seq![pair] + pairs;
                            assert forall|k: int| 0 <= k < all.len() implies well_formed(
                                (#[trigger] all[k]).1,
                                depth,
                            ) by {
                                if k > 0 {
                                    assert(all[k] == pairs[k - 1]);
                                }
                            }
                        },
                        Err(_) => {},
                    }
                }
            }
        },
        Err(_) => {},
    }
}

/// Behind an element and its comma the next element starts further on in
/// the input, so that the test for it in the rule for elements never fails.
pub proof fn lemma_next_element_is_behind(s: Seq<char>, pos: int, depth: nat)
    requires
        0 <= pos <= s.len(),
        value_rule(s, pos, depth) is Ok,
    ensures
        ({
            let mark = whitespace_end(s, value_rule(s, pos, depth).unwrap().1);
            char_at(s, mark, ',') ==> pos < whitespace_end(s, mark + 1) <= s.len()
        }),
{
    lemma_value_well_formed(s, pos, depth);
    let end = value_rule(s, pos, depth).unwrap().1;
    lemma_whitespace_end(s, end);
    let mark = whitespace_end(s, end);
    if char_at(s, mark, ',') {
        lemma_whitespace_end(s, mark + 1);
    }
}

/// Behind a member and its comma the next member starts further on in the
/// input, so that the test for it in the rule for members never fails.
pub proof fn lemma_next_member_is_behind(s: Seq<char>, pos: int, depth: nat)
    requires
        0 <= pos <= s.len(),
        pair_rule(s, pos, depth) is Ok,
    ensures
        ({
            let mark = whitespace_end(s, pair_rule(s, pos, depth).unwrap().1);
            char_at(s, mark, ',') ==> pos < whitespace_end(s, mark + 1) <= s.len()
        }),
{
    lemma_pair_well_formed(s, pos, depth);
    let end = pair_rule(s, pos, depth).unwrap().1;
    lemma_whitespace_end(s, end);
    let mark = whitespace_end(s, end);
    if char_at(s, mark, ',') {
        lemma_whitespace_end(s, mark + 1);
    }
}

/// The value of a document is well formed.
pub proof fn lemma_document_well_formed(d: Seq<char>)
    requires
        document(d) is Ok,
    ensures
        well_formed(document(d).unwrap(), MAX_DEPTH as nat),
{
    lemma_value_well_formed(d, 0, MAX_DEPTH as nat);
}

/// Round trip: the text of what a document parses to is a document again,
/// and it parses to the same value. This holds of every input that parses,
/// whatever whitespace and escapes it is written with.
pub proof fn lemma_round_trip(d: Seq<char>)
    requires
        document(d) is Ok,
    ensures
        document(rendered(document(d).unwrap())) == document(d),
{
    lemma_document_well_formed(d);
    lemma_document_of_rendered(document(d).unwrap());
}

} // verus!
