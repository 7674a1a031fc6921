use json::error::{ErrorKind, ParseError};
use json::grammar::MAX_DEPTH;
use json::parser::parse_document;
use json::value::Value;

fn fails(input: &str, kind: ErrorKind, offset: usize) {
    assert_eq!(parse_document(input), Err(ParseError { kind, offset }));
}

fn number(text: &str) -> Value {
    Value::Number(text.to_string())
}

fn string(text: &str) -> Value {
    Value::String(text.to_string())
}

#[test]
fn null_document() {
    assert_eq!(parse_document("null"), Ok(Value::Null));
}

#[test]
fn boolean_documents() {
    assert_eq!(parse_document("true"), Ok(Value::Boolean(true)));
    assert_eq!(parse_document("false"), Ok(Value::Boolean(false)));
}

#[test]
fn number_with_fraction_and_exponent() {
    let parsed = parse_document("-12.5e2");
    assert_eq!(parsed, Ok(number("-12.5e2")));
    match parsed {
        Ok(Value::Number(text)) => {
            let x: f64 = text.parse().unwrap();
            assert!((x - (-1250.0)).abs() < 1e-9);
        }
        _ => panic!("not a number"),
    }
}

#[test]
fn string_escape_is_decoded() {
    assert_eq!(parse_document("\"a\\nb\""), Ok(string("a\nb")));
}

#[test]
fn empty_array_and_empty_object() {
    assert_eq!(parse_document("[]"), Ok(Value::Array(vec![])));
    assert_eq!(parse_document("{}"), Ok(Value::Object(vec![])));
    assert_eq!(parse_document(" [ \n ] "), Ok(Value::Array(vec![])));
    assert_eq!(parse_document("\t{\r\n}\n"), Ok(Value::Object(vec![])));
}

#[test]
fn trailing_comma_in_array() {
    fails("[1,2,]", ErrorKind::TrailingComma, 4);
}

#[test]
fn trailing_comma_in_object() {
    fails("{\"a\":1 , }", ErrorKind::TrailingComma, 7);
}

#[test]
fn trailing_content() {
    fails("{\"a\":1} x", ErrorKind::TrailingContent, 8);
    fails("null null", ErrorKind::TrailingContent, 5);
    fails("1.", ErrorKind::TrailingContent, 1);
    fails("1e", ErrorKind::TrailingContent, 1);
    fails("1e+", ErrorKind::TrailingContent, 1);
}

#[test]
fn ten_thousand_nested_arrays() {
    let input = "[".repeat(10_000);
    fails(&input, ErrorKind::NestingTooDeep, MAX_DEPTH);
}

#[test]
fn nesting_at_the_limit_and_one_beyond() {
    let ok = format!("{}{}", "[".repeat(MAX_DEPTH), "]".repeat(MAX_DEPTH));
    let mut expected = Value::Array(vec![]);
    for _ in 1..MAX_DEPTH {
        expected = Value::Array(vec![expected]);
    }
    assert_eq!(parse_document(&ok), Ok(expected));
    let deep = format!("{}{}", "[".repeat(MAX_DEPTH + 1), "]".repeat(MAX_DEPTH + 1));
    fails(&deep, ErrorKind::NestingTooDeep, MAX_DEPTH);
    let objects = format!("{}1{}", "{\"k\":".repeat(MAX_DEPTH + 1), "}".repeat(MAX_DEPTH + 1));
    fails(&objects, ErrorKind::NestingTooDeep, 5 * MAX_DEPTH);
}

#[test]
fn non_string_key() {
    fails("{1:2}", ErrorKind::NonStringKey, 1);
    fails("{\"a\":1, b:2}", ErrorKind::NonStringKey, 8);
    fails("{", ErrorKind::NonStringKey, 1);
}

#[test]
fn expected_colon() {
    fails("{\"a\" 1}", ErrorKind::ExpectedColon, 5);
    fails("{\"a\"", ErrorKind::ExpectedColon, 4);
}

#[test]
fn expected_comma_or_bracket() {
    fails("[1 2]", ErrorKind::ExpectedCommaOrBracket, 3);
    fails("[1", ErrorKind::ExpectedCommaOrBracket, 2);
    fails("{\"a\":1 \"b\":2}", ErrorKind::ExpectedCommaOrBracket, 7);
    fails("[1.]", ErrorKind::ExpectedCommaOrBracket, 2);
}

#[test]
fn unexpected_token() {
    fails("", ErrorKind::UnexpectedToken, 0);
    fails("   ", ErrorKind::UnexpectedToken, 3);
    fails("tru", ErrorKind::UnexpectedToken, 0);
    fails(" nul", ErrorKind::UnexpectedToken, 1);
    fails("-", ErrorKind::UnexpectedToken, 0);
    fails("-x", ErrorKind::UnexpectedToken, 0);
    fails(".5", ErrorKind::UnexpectedToken, 0);
    fails("[,]", ErrorKind::UnexpectedToken, 1);
    fails("[1,,2]", ErrorKind::UnexpectedToken, 3);
    fails("[", ErrorKind::UnexpectedToken, 1);
    fails("{\"a\":}", ErrorKind::UnexpectedToken, 5);
    fails("]", ErrorKind::UnexpectedToken, 0);
}

#[test]
fn unterminated_string() {
    fails("\"abc", ErrorKind::UnterminatedString, 4);
    fails("\"abc\\", ErrorKind::UnterminatedString, 5);
    fails("\"abc\\\"", ErrorKind::UnterminatedString, 6);
    fails("[\"a", ErrorKind::UnterminatedString, 3);
    fails("{\"a", ErrorKind::UnterminatedString, 3);
}

#[test]
fn invalid_escape() {
    fails("\"a\\x\"", ErrorKind::InvalidEscape, 2);
    fails("\"\\u12\"", ErrorKind::InvalidEscape, 1);
    fails("\"\\u12G4\"", ErrorKind::InvalidEscape, 1);
    fails("\"\\uD83D\"", ErrorKind::InvalidEscape, 1);
    fails("\"\\uD83Dx\"", ErrorKind::InvalidEscape, 1);
    fails("\"\\uD83D\\u0041\"", ErrorKind::InvalidEscape, 1);
    fails("\"\\uDE00\"", ErrorKind::InvalidEscape, 1);
    fails("\"\\u", ErrorKind::InvalidEscape, 1);
}

#[test]
fn every_escape() {
    assert_eq!(
        parse_document("\"\\\"\\\\\\/\\b\\f\\n\\r\\t\""),
        Ok(string("\"\\/\u{8}\u{c}\n\r\t"))
    );
}

#[test]
fn unicode_escapes() {
    assert_eq!(parse_document("\"\\u0041\""), Ok(string("A")));
    assert_eq!(parse_document("\"\\u00e9\\u00E9\""), Ok(string("\u{e9}\u{e9}")));
    assert_eq!(parse_document("\"\\u4e2d\""), Ok(string("\u{4e2d}")));
    assert_eq!(parse_document("\"\\uFFFF\""), Ok(string("\u{ffff}")));
    assert_eq!(parse_document("\"\\uD83D\\uDE00\""), Ok(string("\u{1F600}")));
    assert_eq!(parse_document("\"\\uD800\\uDC00\""), Ok(string("\u{10000}")));
    assert_eq!(parse_document("\"\\uDBFF\\uDFFF\""), Ok(string("\u{10FFFF}")));
    assert_eq!(parse_document("\"x\\u0000y\""), Ok(string("x\u{0}y")));
}

#[test]
fn raw_text_is_kept() {
    assert_eq!(parse_document("\"\u{5f20}\u{4e09} \u{1F600}\""), Ok(string("\u{5f20}\u{4e09} \u{1F600}")));
    assert_eq!(parse_document("\"\""), Ok(string("")));
}

#[test]
fn numbers_keep_their_text() {
    for text in ["0", "-0", "7", "007", "123456789012345678901234567890", "1.5", "-0.25", "1e5",
        "1E5", "1e+5", "1e-5", "2.5E-3", "1e999"]
    {
        assert_eq!(parse_document(text), Ok(number(text)));
    }
}

#[test]
fn arrays_keep_order() {
    assert_eq!(
        parse_document("[1, \"two\" ,true,null,[ ],{}]"),
        Ok(Value::Array(vec![
            number("1"),
            string("two"),
            Value::Boolean(true),
            Value::Null,
            Value::Array(vec![]),
            Value::Object(vec![]),
        ]))
    );
}

#[test]
fn objects_keep_order_and_repeated_keys() {
    assert_eq!(
        parse_document("{\"b\":1,\"a\":2,\"b\":3}"),
        Ok(Value::Object(vec![
            ("b".to_string(), number("1")),
            ("a".to_string(), number("2")),
            ("b".to_string(), number("3")),
        ]))
    );
}

#[test]
fn nested_sample_document() {
    let input = r#"
        {
            "nickname":"张三",
            "age": 30,
            "is teacher": false,
            "scores":[90,85,95],
            "address":{
                "city":"北京",
                "street":"中关村大街",
                "code":[200,2000]
        }
    }
    "#;
    let expected = Value::Object(vec![
        ("nickname".to_string(), string("张三")),
        ("age".to_string(), number("30")),
        ("is teacher".to_string(), Value::Boolean(false)),
        ("scores".to_string(), Value::Array(vec![number("90"), number("85"), number("95")])),
        (
            "address".to_string(),
            Value::Object(vec![
                ("city".to_string(), string("北京")),
                ("street".to_string(), string("中关村大街")),
                ("code".to_string(), Value::Array(vec![number("200"), number("2000")])),
            ]),
        ),
    ]);
    assert_eq!(parse_document(input), Ok(expected));
}

#[test]
fn offsets_count_characters() {
    fails("[\"张三\" x]", ErrorKind::ExpectedCommaOrBracket, 6);
}

#[test]
fn reasons_are_sentences() {
    let e = ParseError { kind: ErrorKind::TrailingComma, offset: 4 };
    assert_eq!(e.reason(), "a comma stands before the closing bracket");
    let e = ParseError { kind: ErrorKind::NestingTooDeep, offset: 0 };
    assert_eq!(e.reason(), "arrays and objects are nested too deeply");
}

#[test]
fn root_names_the_main_items() {
    assert_eq!(json::parse_document("[null]"), Ok(json::Value::Array(vec![json::Value::Null])));
    assert_eq!(
        json::parse_document("nul"),
        Err(json::ParseError { kind: json::ErrorKind::UnexpectedToken, offset: 0 })
    );
}

#[test]
fn whitespace_round_the_document() {
    assert_eq!(parse_document(" \t\r\n 1 \t\r\n "), Ok(number("1")));
    fails("\u{b}1", ErrorKind::UnexpectedToken, 0);
    fails("1\u{c}", ErrorKind::TrailingContent, 1);
}

#[test]
fn brackets_beyond_the_limit_fail_at_the_first_too_many() {
    let input = format!("{}7", "[".repeat(MAX_DEPTH + 1));
    fails(&input, ErrorKind::NestingTooDeep, MAX_DEPTH);
    let mixed = format!("{}{}", "[{\"a\":".repeat(MAX_DEPTH / 2), "[");
    fails(&mixed, ErrorKind::NestingTooDeep, 6 * (MAX_DEPTH / 2));
}
