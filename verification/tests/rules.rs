use json::error::{ErrorKind, ParseError};
use json::parser::{
    parse_array, parse_bool, parse_json, parse_null, parse_num, parse_object, parse_pair,
    parse_str, parse_value,
};
use json::scanner::{match_literal, scan_number, skip_digits, skip_whitespace};
use json::strings::{decode_escape, hex_digit, read_hex4, scan_string};
use json::text::chars_of;
use json::value::Value;

fn no_match(offset: usize) -> ParseError {
    ParseError { kind: ErrorKind::NoMatch, offset }
}

#[test]
fn chars_of_counts_scalar_values() {
    assert_eq!(chars_of("a张\u{1F600}"), vec!['a', '张', '\u{1F600}']);
    assert_eq!(chars_of(""), Vec::<char>::new());
}

#[test]
fn whitespace_is_skipped_to_its_end() {
    let input = chars_of(" \t\r\n x ");
    assert_eq!(skip_whitespace(&input, 0), 5);
    assert_eq!(skip_whitespace(&input, 5), 5);
    assert_eq!(skip_whitespace(&input, 6), 7);
    assert_eq!(skip_whitespace(&input, 7), 7);
    let other = chars_of("\u{a0}x");
    assert_eq!(skip_whitespace(&other, 0), 0);
}

#[test]
fn digits_are_skipped_to_their_end() {
    let input = chars_of("123a");
    assert_eq!(skip_digits(&input, 0), 3);
    assert_eq!(skip_digits(&input, 3), 3);
}

#[test]
fn literal_must_match_exactly() {
    let input = chars_of("xnull");
    assert_eq!(match_literal(&input, 1, "null"), Ok(5));
    assert_eq!(match_literal(&input, 0, "null"), Err(no_match(0)));
    assert_eq!(match_literal(&input, 2, "null"), Err(no_match(2)));
    assert_eq!(match_literal(&chars_of("nul"), 0, "null"), Err(no_match(0)));
    assert_eq!(match_literal(&chars_of("nulL"), 0, "null"), Err(no_match(0)));
}

#[test]
fn number_is_taken_as_far_as_it_goes() {
    let scan = |text: &str| scan_number(&chars_of(text), 0);
    assert_eq!(scan("12,"), Ok(("12".to_string(), 2)));
    assert_eq!(scan("-12.5e2]"), Ok(("-12.5e2".to_string(), 7)));
    assert_eq!(scan("1.x"), Ok(("1".to_string(), 1)));
    assert_eq!(scan("1.5e"), Ok(("1.5".to_string(), 3)));
    assert_eq!(scan("1e-"), Ok(("1".to_string(), 1)));
    assert_eq!(scan("1E+07x"), Ok(("1E+07".to_string(), 5)));
    assert_eq!(scan("--1"), Err(no_match(0)));
    assert_eq!(scan("-"), Err(no_match(0)));
    assert_eq!(scan("+1"), Err(no_match(0)));
    assert_eq!(scan(""), Err(no_match(0)));
    assert_eq!(scan_number(&chars_of("a-3b"), 1), Ok(("-3".to_string(), 3)));
}

#[test]
fn string_needs_its_opening_quote() {
    assert_eq!(scan_string(&chars_of("abc\""), 0), Err(no_match(0)));
    assert_eq!(scan_string(&chars_of(""), 0), Err(no_match(0)));
    assert_eq!(scan_string(&chars_of("x\"ab\"y"), 1), Ok(("ab".to_string(), 5)));
}

#[test]
fn hex_digits_have_their_values() {
    assert_eq!(hex_digit('0'), Some(0));
    assert_eq!(hex_digit('9'), Some(9));
    assert_eq!(hex_digit('a'), Some(10));
    assert_eq!(hex_digit('F'), Some(15));
    assert_eq!(hex_digit('g'), None);
    assert_eq!(hex_digit('/'), None);
    assert_eq!(hex_digit(':'), None);
    assert_eq!(hex_digit('@'), None);
    assert_eq!(hex_digit('`'), None);
    assert_eq!(read_hex4(&chars_of("1aF0"), 0), Some(0x1af0));
    assert_eq!(read_hex4(&chars_of("1aF"), 0), None);
    assert_eq!(read_hex4(&chars_of("1aFx"), 0), None);
}

#[test]
fn escapes_decode_to_one_character() {
    assert_eq!(decode_escape(&chars_of("\\n"), 0), Some(('\n', 2)));
    assert_eq!(decode_escape(&chars_of("\\u0041"), 0), Some(('A', 6)));
    assert_eq!(decode_escape(&chars_of("\\uD83D\\uDE00"), 0), Some(('\u{1F600}', 12)));
    assert_eq!(decode_escape(&chars_of("\\q"), 0), None);
}

#[test]
fn single_rules_report_no_match() {
    let input = chars_of("x");
    assert_eq!(parse_null(&input, 0), Err(no_match(0)));
    assert_eq!(parse_bool(&input, 0), Err(no_match(0)));
    assert_eq!(parse_num(&input, 0), Err(no_match(0)));
    assert_eq!(parse_str(&input, 0), Err(no_match(0)));
    assert_eq!(parse_array(&input, 0, 4), Err(no_match(0)));
    assert_eq!(parse_object(&input, 0, 4), Err(no_match(0)));
    assert_eq!(
        parse_value(&input, 0, 4),
        Err(ParseError { kind: ErrorKind::UnexpectedToken, offset: 0 })
    );
}

#[test]
fn single_rules_give_value_and_end() {
    assert_eq!(parse_null(&chars_of("null,"), 0), Ok((Value::Null, 4)));
    assert_eq!(parse_bool(&chars_of("true,"), 0), Ok((Value::Boolean(true), 4)));
    assert_eq!(parse_bool(&chars_of("false"), 0), Ok((Value::Boolean(false), 5)));
    assert_eq!(parse_num(&chars_of("123"), 0), Ok((Value::Number("123".to_string()), 3)));
    assert_eq!(
        parse_str(&chars_of("\"hello\""), 0),
        Ok((Value::String("hello".to_string()), 7))
    );
    assert_eq!(
        parse_array(&chars_of("[200,\"300\",600] "), 0, 1),
        Ok((
            Value::Array(vec![
                Value::Number("200".to_string()),
                Value::String("300".to_string()),
                Value::Number("600".to_string()),
            ]),
            15
        ))
    );
    assert_eq!(
        parse_object(&chars_of("{\"key\": 200}"), 0, 1),
        Ok((Value::Object(vec![("key".to_string(), Value::Number("200".to_string()))]), 12))
    );
    assert_eq!(
        parse_pair(&chars_of("  \"k\" : [ ] ,"), 0, 1),
        Ok((("k".to_string(), Value::Array(vec![])), 11))
    );
}

#[test]
fn depth_counts_levels_of_containers() {
    let nested = chars_of("[[1]]");
    assert_eq!(
        parse_value(&nested, 0, 1),
        Err(ParseError { kind: ErrorKind::NestingTooDeep, offset: 1 })
    );
    assert!(parse_value(&nested, 0, 2).is_ok());
    assert_eq!(
        parse_value(&chars_of("[]"), 0, 0),
        Err(ParseError { kind: ErrorKind::NestingTooDeep, offset: 0 })
    );
    assert_eq!(parse_value(&chars_of("7"), 0, 0), Ok((Value::Number("7".to_string()), 1)));
}

#[test]
fn value_and_the_whitespace_behind_it() {
    assert_eq!(parse_json(&chars_of(" true \n x"), 0, 8), Ok((Value::Boolean(true), 8)));
    assert_eq!(parse_value(&chars_of(" true \n x"), 0, 8), Ok((Value::Boolean(true), 5)));
}
