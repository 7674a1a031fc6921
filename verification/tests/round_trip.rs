use json::parser::parse_document;
use json::value::Value;

fn quote(text: &str, out: &mut String) {
    out.push('"');
    for c in text.chars() {
        if c == '"' || c == '\\' {
            out.push('\\');
        }
        out.push(c);
    }
    out.push('"');
}

fn render(value: &Value, out: &mut String) {
    match value {
        Value::Null => out.push_str("null"),
        Value::Boolean(true) => out.push_str("true"),
        Value::Boolean(false) => out.push_str("false"),
        Value::Number(text) => out.push_str(text),
        Value::String(text) => quote(text, out),
        Value::Array(items) => {
            out.push('[');
            for (i, item) in items.iter().enumerate() {
                if i > 0 {
                    out.push(',');
                }
                render(item, out);
            }
            out.push(']');
        }
        Value::Object(pairs) => {
            out.push('{');
            for (i, (key, item)) in pairs.iter().enumerate() {
                if i > 0 {
                    out.push(',');
                }
                quote(key, out);
                out.push(':');
                render(item, out);
            }
            out.push('}');
        }
    }
}

fn round_trip(document: &str) {
    let first = parse_document(document).unwrap();
    let mut text = String::new();
    render(&first, &mut text);
    assert_eq!(parse_document(&text), Ok(first));
}

#[test]
fn round_trip_of_scalars() {
    round_trip("null");
    round_trip(" true ");
    round_trip("false");
    round_trip("-12.5e2");
    round_trip("0");
    round_trip("1E+7");
    round_trip("\"\"");
    round_trip("\"a\\nb\\t\\\"c\\\\ \\/ \\u00e9 \\uD83D\\uDE00\"");
}

#[test]
fn round_trip_of_containers() {
    round_trip("[]");
    round_trip("{}");
    round_trip(" [ 1 , [ 2 , [ ] ] , { } ] ");
    round_trip("{ \"a\" : [ true , null ] , \"a\" : { \"b\\\"\" : -0.5 } }");
    round_trip("[[[[[[[[\"deep\"]]]]]]]]");
}

#[test]
fn rendered_text_is_as_expected() {
    let value = parse_document(" { \"k\\\\\" : [ 1 , \"\\\"\" ] } ").unwrap();
    let mut text = String::new();
    render(&value, &mut text);
    assert_eq!(text, "{\"k\\\\\":[1,\"\\\"\"]}");
}
