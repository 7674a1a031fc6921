//! The plain text of a value, and the proof that parsing it gives the value
//! back.

use vstd::prelude::*;
use crate::error::ParseError;
use crate::grammar::{
    array_rule, document, elements_rule, keyword_false, keyword_null, keyword_true,
    members_rule, object_rule, pair_rule, value_rule, MAX_DEPTH,
};
use crate::scanner::{
    char_at, digits_end, exponent_end, fraction_end, is_digit, is_whitespace, lemma_digits_end,
    literal_at, number_end, sign_end, whitespace_end,
};
use crate::strings::{escape_at, simple_escape, string_at, string_body};
use crate::value::ValueView;

verus! {

/// Whether `t` is, from its first character to its last, one number.
pub open spec fn is_number_text(t: Seq<char>) -> bool {
    number_end(t, 0) == Some(t.len() as int)
}

/// Whether a value is one that a parse can give: every number in it holds
/// the text of a number, and arrays and objects are nested at most `depth`
/// levels deep.
pub open spec fn well_formed(v: ValueView, depth: nat) -> bool
    decreases v,
{
    match v {
        ValueView::Null => true,
        ValueView::Boolean(_) => true,
        ValueView::Number(t) => is_number_text(t),
        ValueView::String(_) => true,
        ValueView::Array(items) => depth > 0 && forall|i: int|
            0 <= i < items.len() ==> well_formed(#[trigger] items[i], (depth - 1) as nat),
        ValueView::Object(pairs) => depth > 0 && forall|i: int|
            0 <= i < pairs.len() ==> well_formed((#[trigger] pairs[i]).1, (depth - 1) as nat),
    }
}

/// A character as it stands inside a string literal: a quote and a
/// backslash get a backslash in front, every other character stands for
/// itself.
pub open spec fn escaped_char(c: char) -> Seq<char> {
    if c == '"' || c == '\\' {
        seq!['\\', c]
    } else {
        seq![c]
    }
}

/// A text as it stands inside a string literal.
pub open spec fn escaped(t: Seq<char>) -> Seq<char>
    decreases t.len(),
{
    if t.len() == 0 {
        Seq::empty()
    } else {
        escaped_char(t[0]) + escaped(t.drop_first())
    }
}

/// The string literal for a text.
pub open spec fn quoted(t: Seq<char>) -> Seq<char> {
    seq!['"'] + escaped(t) + seq!['"']
}

/// The text of a value, without any whitespace: keywords and numbers as
/// they are, strings quoted, the elements of an array between brackets and
/// the members of an object between braces, with commas between them.
pub open spec fn rendered(v: ValueView) -> Seq<char>
    decreases v, 0int,
{
    match v {
        ValueView::Null => keyword_null(),
        ValueView::Boolean(b) => if b {
            keyword_true()
        } else {
            keyword_false()
        },
        ValueView::Number(t) => t,
        ValueView::String(t) => quoted(t),
        ValueView::Array(items) => seq!['['] + rendered_items(items, 0) + seq![']'],
        ValueView::Object(pairs) => seq!['{'] + rendered_pairs(pairs, 0) + seq!['}'],
    }
}

/// The text of the elements from the one at `i` on.
pub open spec fn rendered_items(items: Seq<ValueView>, i: int) -> Seq<char>
    decreases items, items.len() - i,
{
    if 0 <= i < items.len() {
        rendered(items[i]) + if i + 1 < items.len() {
            seq![','] + rendered_items(items, i + 1)
        } else {
            Seq::empty()
        }
    } else {
        Seq::empty()
    }
}

/// The text of the members from the one at `i` on.
pub open spec fn rendered_pairs(pairs: Seq<(Seq<char>, ValueView)>, i: int) -> Seq<char>
    decreases pairs, pairs.len() - i,
{
    if 0 <= i < pairs.len() {
        quoted(pairs[i].0) + seq![':'] + rendered(pairs[i].1) + if i + 1 < pairs.len() {
            seq![','] + rendered_pairs(pairs, i + 1)
        } else {
            Seq::empty()
        }
    } else {
        Seq::empty()
    }
}

/// Whether a value can end in front of `pos`: the input ends there, or a
/// comma or a closing bracket or brace stands there.
pub open spec fn value_may_end(s: Seq<char>, pos: int) -> bool {
    pos == s.len() || char_at(s, pos, ',') || char_at(s, pos, ']') || char_at(s, pos, '}')
}

/// The characters that the text of a value can start with.
pub open spec fn starts_value(c: char) -> bool {
    c == 'n' || c == 't' || c == 'f' || c == '"' || c == '[' || c == '{' || c == '-' || is_digit(c)
}

/// A text that stands at `pos` has each of its characters there.
proof fn lemma_literal_index(s: Seq<char>, pos: int, t: Seq<char>, i: int)
    requires
        literal_at(s, pos, t),
        0 <= i < t.len(),
    ensures
        s[pos + i] == t[i],
{
    assert(s.subrange(pos, pos + t.len())[i] == s[pos + i]);
}

/// Where two texts stand one behind the other, each of them stands.
proof fn lemma_literal_split(s: Seq<char>, pos: int, a: Seq<char>, b: Seq<char>)
    requires
        literal_at(s, pos, a + b),
    ensures
        literal_at(s, pos, a),
        literal_at(s, pos + a.len(), b),
{
    let whole = s.subrange(pos, pos + (a + b).len());
    assert(s.subrange(pos, pos + a.len()) =~= whole.subrange(0, a.len() as int));
    assert((a + b).subrange(0, a.len() as int) =~= a);
    assert(s.subrange(pos + a.len(), pos + a.len() + b.len()) =~= whole.subrange(
        a.len() as int,
        (a + b).len() as int,
    ));
    assert((a + b).subrange(a.len() as int, (a + b).len() as int) =~= b);
}

/// A text of one character that stands at `pos` is that character there.
proof fn lemma_literal_one(s: Seq<char>, pos: int, c: char)
    requires
        literal_at(s, pos, seq![c]),
    ensures
        char_at(s, pos, c),
{
    lemma_literal_index(s, pos, seq![c], 0);
}

/// The text of a well-formed value is not empty and starts with a character
/// that only a value starts with.
pub proof fn lemma_rendered_start(v: ValueView, depth: nat)
    requires
        well_formed(v, depth),
    ensures
        rendered(v).len() > 0,
        starts_value(rendered(v)[0]),
{
}

/// A run of digits inside a text that stands in a larger input ends in the
/// input where it ends in the text, if no digit follows the text.
proof fn lemma_digits_embedded(t: Seq<char>, i: int, s: Seq<char>, pos: int)
    requires
        literal_at(s, pos, t),
        0 <= i <= t.len(),
        pos + t.len() == s.len() || !is_digit(s[pos + t.len()]),
    ensures
        digits_end(s, pos + i) == pos + digits_end(t, i),
    decreases t.len() - i,
{
    if i < t.len() {
        lemma_literal_index(s, pos, t, i);
        if is_digit(t[i]) {
            lemma_digits_embedded(t, i + 1, s, pos);
        }
    }
}

/// A number that stands in a larger input, with the end of a value behind
/// it, is scanned there as it is alone.
proof fn lemma_number_embedded(t: Seq<char>, s: Seq<char>, pos: int)
    requires
        literal_at(s, pos, t),
        is_number_text(t),
        value_may_end(s, pos + t.len()),
    ensures
        number_end(s, pos) == Some(pos + t.len()),
{
    let n = t.len() as int;
    assert forall|i: int| 0 <= i <= n implies digits_end(s, pos + i) == pos + #[trigger] digits_end(
        t,
        i,
    ) && i <= digits_end(t, i) <= n by {
        lemma_digits_embedded(t, i, s, pos);
        lemma_digits_end(t, i);
    }
    assert forall|i: int, c: char|
        0 <= i <= n && (c == '-' || c == '+' || c == '.' || c == 'e' || c == 'E') implies char_at(
            s,
            pos + i,
            c,
        ) == #[trigger] char_at(t, i, c) by {
        if i < n {
            lemma_literal_index(s, pos, t, i);
        }
    }
    let d = sign_end(t, 0);
    assert(char_at(s, pos + 0, '-') == char_at(t, 0, '-'));
    assert(sign_end(s, pos) == pos + d);
    let i1 = digits_end(t, d);
    assert(digits_end(s, pos + d) == pos + i1);
    assert(i1 > d);
    assert(char_at(s, pos + i1, '.') == char_at(t, i1, '.'));
    if char_at(t, i1, '.') {
        assert(digits_end(s, pos + (i1 + 1)) == pos + digits_end(t, i1 + 1));
    }
    let f = fraction_end(t, i1);
    assert(fraction_end(s, pos + i1) == pos + f);
    assert(d <= i1 <= f <= n);
    assert(char_at(s, pos + f, 'e') == char_at(t, f, 'e'));
    assert(char_at(s, pos + f, 'E') == char_at(t, f, 'E'));
    if char_at(t, f, 'e') || char_at(t, f, 'E') {
        assert(char_at(s, pos + (f + 1), '+') == char_at(t, f + 1, '+'));
        assert(char_at(s, pos + (f + 1), '-') == char_at(t, f + 1, '-'));
        if char_at(t, f + 1, '+') || char_at(t, f + 1, '-') {
            assert(digits_end(s, pos + (f + 2)) == pos + digits_end(t, f + 2));
        } else {
            assert(digits_end(s, pos + (f + 1)) == pos + digits_end(t, f + 1));
        }
    }
    assert(exponent_end(s, pos + f) == pos + exponent_end(t, f));
}

/// The inside of a string literal, with its closing quote, is scanned back
/// to the text that it was made from.
proof fn lemma_string_of_escaped(t: Seq<char>, s: Seq<char>, pos: int)
    requires
        literal_at(s, pos, escaped(t) + seq!['"']),
    ensures
        string_body(s, pos) == Ok::<(Seq<char>, int), ParseError>(
            (t, pos + escaped(t).len() + 1),
        ),
    decreases t.len(),
{
    if t.len() == 0 {
        lemma_literal_index(s, pos, escaped(t) + seq!['"'], 0);
        assert(t =~= Seq::empty());
    } else {
        let c = t[0];
        let rest = t.drop_first();
        let head = escaped_char(c);
        let tail = escaped(rest) + seq!['"'];
        assert(escaped(t) + seq!['"'] =~= head + tail);
        lemma_literal_split(s, pos, head, tail);
        lemma_literal_index(s, pos, head, 0);
        lemma_string_of_escaped(rest, s, pos + head.len());
        assert(seq![c] + rest =~= t);
        if c == '"' || c == '\\' {
            lemma_literal_index(s, pos, head, 1);
            assert(simple_escape(c) == Some(c));
            assert(escape_at(s, pos) == Some((c, pos + 2)));
        }
    }
}

/// A string literal is scanned back to the text that it was made from.
proof fn lemma_quoted(t: Seq<char>, s: Seq<char>, pos: int)
    requires
        literal_at(s, pos, quoted(t)),
    ensures
        string_at(s, pos) == Ok::<(Seq<char>, int), ParseError>(
            (t, pos + quoted(t).len()),
        ),
{
    assert(quoted(t) =~= seq!['"'] + (escaped(t) + seq!['"']));
    lemma_literal_split(s, pos, seq!['"'], escaped(t) + seq!['"']);
    lemma_literal_one(s, pos, '"');
    lemma_string_of_escaped(t, s, pos + 1);
}

/// Where a character stands that is no whitespace, no whitespace is skipped.
proof fn lemma_no_whitespace(s: Seq<char>, pos: int)
    requires
        pos == s.len() || (0 <= pos < s.len() && !is_whitespace(s[pos])),
    ensures
        whitespace_end(s, pos) == pos,
{
}

/// Where the first character is that of another rule, no keyword stands.
pub proof fn lemma_keywords_start(s: Seq<char>, pos: int)
    requires
        0 <= pos < s.len(),
    ensures
        literal_at(s, pos, keyword_null()) ==> s[pos] == 'n',
        literal_at(s, pos, keyword_true()) ==> s[pos] == 't',
        literal_at(s, pos, keyword_false()) ==> s[pos] == 'f',
{
    if literal_at(s, pos, keyword_null()) {
        lemma_literal_index(s, pos, keyword_null(), 0);
    }
    if literal_at(s, pos, keyword_true()) {
        lemma_literal_index(s, pos, keyword_true(), 0);
    }
    if literal_at(s, pos, keyword_false()) {
        lemma_literal_index(s, pos, keyword_false(), 0);
    }
}

/// Parsing the text of a well-formed value, wherever it stands with the end
/// of a value behind it, gives the value and the position behind the text.
pub proof fn lemma_value_of_rendered(v: ValueView, s: Seq<char>, pos: int, depth: nat)
    requires
        well_formed(v, depth),
        literal_at(s, pos, rendered(v)),
        value_may_end(s, pos + rendered(v).len()),
    ensures
        value_rule(s, pos, depth) == Ok::<(ValueView, int), ParseError>(
            (v, pos + rendered(v).len()),
        ),
    decreases v, 0int,
{
    let text = rendered(v);
    lemma_rendered_start(v, depth);
    lemma_literal_index(s, pos, text, 0);
    lemma_no_whitespace(s, pos);
    lemma_keywords_start(s, pos);
    assert(digits_end(s, pos + 1) >= pos + 1) by {
        lemma_digits_end(s, pos + 1);
    }
    match v {
        ValueView::Null => {},
        ValueView::Boolean(b) => {},
        ValueView::Number(t) => {
            lemma_number_embedded(t, s, pos);
            assert(s.subrange(pos, pos + t.len()) == t);
        },
        ValueView::String(t) => {
            lemma_quoted(t, s, pos);
        },
        ValueView::Array(items) => {
            let inner = rendered_items(items, 0) + seq![']'];
            assert(text =~= seq!['['] + inner);
            lemma_literal_split(s, pos, seq!['['], inner);
            lemma_literal_index(s, pos + 1, inner, 0);
            assert(number_end(s, pos) is None);
            if items.len() == 0 {
                assert(items =~= Seq::empty());
                assert(char_at(s, pos + 1, ']'));
                lemma_no_whitespace(s, pos + 1);
            } else {
                lemma_rendered_start(items[0], (depth - 1) as nat);
                assert(inner[0] == rendered(items[0])[0]);
                lemma_no_whitespace(s, pos + 1);
                lemma_elements_of_rendered(items, 0, s, pos + 1, (depth - 1) as nat);
                assert(items.subrange(0, items.len() as int) =~= items);
            }
            assert(array_rule(s, pos, depth) == Ok::<(ValueView, int), ParseError>(
                (v, pos + text.len()),
            ));
        },
        ValueView::Object(pairs) => {
            let inner = rendered_pairs(pairs, 0) + seq!['}'];
            assert(text =~= seq!['{'] + inner);
            lemma_literal_split(s, pos, seq!['{'], inner);
            lemma_literal_index(s, pos + 1, inner, 0);
            assert(number_end(s, pos) is None);
            if pairs.len() == 0 {
                assert(pairs =~= Seq::empty());
                assert(char_at(s, pos + 1, '}'));
                lemma_no_whitespace(s, pos + 1);
            } else {
                assert(inner[0] == '"');
                lemma_no_whitespace(s, pos + 1);
                lemma_members_of_rendered(pairs, 0, s, pos + 1, (depth - 1) as nat);
                assert(pairs.subrange(0, pairs.len() as int) =~= pairs);
            }
            assert(object_rule(s, pos, depth) == Ok::<(ValueView, int), ParseError>(
                (v, pos + text.len()),
            ));
        },
    }
}

/// Parsing the text of the elements from `i` on, with the closing bracket
/// behind it, gives those elements.
proof fn lemma_elements_of_rendered(
    items: Seq<ValueView>,
    i: int,
    s: Seq<char>,
    pos: int,
    depth: nat,
)
    requires
        0 <= i < items.len(),
        forall|k: int| 0 <= k < items.len() ==> well_formed(#[trigger] items[k], depth),
        literal_at(s, pos, rendered_items(items, i) + seq![']']),
    ensures
        elements_rule(s, pos, depth) == Ok::<(Seq<ValueView>, int), ParseError>(
            (items.subrange(i, items.len() as int), pos + rendered_items(items, i).len() + 1),
        ),
    decreases items, items.len() - i,
{
    let item = rendered(items[i]);
    let more = if i + 1 < items.len() {
        seq![','] + rendered_items(items, i + 1)
    } else {
        Seq::empty()
    };
    let tail = more + seq![']'];
    assert(rendered_items(items, i) + seq![']'] =~= item + tail);
    lemma_literal_split(s, pos, item, tail);
    let end = pos + item.len();
    lemma_literal_index(s, end, tail, 0);
    lemma_value_of_rendered(items[i], s, pos, depth);
    lemma_no_whitespace(s, end);
    if i + 1 < items.len() {
        let rest = rendered_items(items, i + 1) + seq![']'];
        assert(tail =~= seq![','] + rest);
        lemma_literal_split(s, end, seq![','], rest);
        lemma_rendered_start(items[i + 1], depth);
        lemma_literal_index(s, end + 1, rest, 0);
        assert(rest[0] == rendered(items[i + 1])[0]);
        lemma_no_whitespace(s, end + 1);
        lemma_elements_of_rendered(items, i + 1, s, end + 1, depth);
        assert(seq![items[i]] + items.subrange(i + 1, items.len() as int) =~= items.subrange(
            i,
            items.len() as int,
        ));
    } else {
        assert(seq![items[i]] =~= items.subrange(i, items.len() as int));
    }
}

/// Parsing the text of the members from `i` on, with the closing brace
/// behind it, gives those members.
proof fn lemma_members_of_rendered(
    pairs: Seq<(Seq<char>, ValueView)>,
    i: int,
    s: Seq<char>,
    pos: int,
    depth: nat,
)
    requires
        0 <= i < pairs.len(),
        forall|k: int| 0 <= k < pairs.len() ==> well_formed((#[trigger] pairs[k]).1, depth),
        literal_at(s, pos, rendered_pairs(pairs, i) + seq!['}']),
    ensures
        members_rule(s, pos, depth) == Ok::<
            (Seq<(Seq<char>, ValueView)>, int),
            ParseError,
        >((pairs.subrange(i, pairs.len() as int), pos + rendered_pairs(pairs, i).len() + 1)),
    decreases pairs, pairs.len() - i,
{
    let key = quoted(pairs[i].0);
    let item = rendered(pairs[i].1);
    let more = if i + 1 < pairs.len() {
        seq![','] + rendered_pairs(pairs, i + 1)
    } else {
        Seq::empty()
    };
    let tail = more + seq!['}'];
    let behind_key = seq![':'] + (item + tail);
    assert(rendered_pairs(pairs, i) + seq!['}'] =~= key + behind_key);
    lemma_literal_split(s, pos, key, behind_key);
    lemma_literal_index(s, pos, key, 0);
    lemma_no_whitespace(s, pos);
    lemma_quoted(pairs[i].0, s, pos);
    let colon = pos + key.len();
    lemma_literal_split(s, colon, seq![':'], item + tail);
    lemma_literal_one(s, colon, ':');
    lemma_no_whitespace(s, colon);
    lemma_literal_split(s, colon + 1, item, tail);
    let end = colon + 1 + item.len();
    lemma_literal_index(s, end, tail, 0);
    lemma_value_of_rendered(pairs[i].1, s, colon + 1, depth);
    assert(pair_rule(s, pos, depth) == Ok::<
        ((Seq<char>, ValueView), int),
        ParseError,
    >((pairs[i], end)));
    lemma_no_whitespace(s, end);
    if i + 1 < pairs.len() {
        let rest = rendered_pairs(pairs, i + 1) + seq!['}'];
        assert(tail =~= seq![','] + rest);
        lemma_literal_split(s, end, seq![','], rest);
        lemma_literal_index(s, end + 1, rest, 0);
        assert(rest[0] == '"');
        lemma_no_whitespace(s, end + 1);
        lemma_members_of_rendered(pairs, i + 1, s, end + 1, depth);
        assert(seq![pairs[i]] + pairs.subrange(i + 1, pairs.len() as int) =~= pairs.subrange(
            i,
            pairs.len() as int,
        ));
    } else {
        assert(seq![pairs[i]] =~= pairs.subrange(i, pairs.len() as int));
    }
}

/// Parsing the text of a well-formed value as a document gives the value.
pub proof fn lemma_document_of_rendered(v: ValueView)
    requires
        well_formed(v, MAX_DEPTH as nat),
    ensures
        document(rendered(v)) == Ok::<ValueView, ParseError>(v),
{
    let s = rendered(v);
    assert(s.subrange(0, s.len() as int) =~= s);
    lemma_value_of_rendered(v, s, 0, MAX_DEPTH as nat);
    lemma_no_whitespace(s, s.len() as int);
}

} // verus!
