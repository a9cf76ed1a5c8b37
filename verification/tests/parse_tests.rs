use sr_json::grammar::TerminalKind;
use sr_json::lexer::TokenError;
use sr_json::parse::parse;
use sr_json::parse::ParseError;
use sr_json::unmarshal::JsonValue;

fn num_f64(v: &JsonValue) -> f64 {
    match v {
        JsonValue::Number(t) => String::from_utf8(t.clone()).unwrap().parse::<f64>().unwrap(),
        _ => panic!("not a number: {:?}", v),
    }
}

fn num(text: &str) -> JsonValue {
    JsonValue::Number(text.as_bytes().to_vec())
}

#[test]
fn parses_plain_integer() {
    let v = parse(b"12").unwrap();
    assert_eq!(v, num("+12"));
    assert_eq!(num_f64(&v), 12.0);
}

#[test]
fn parses_signed_fraction_exponent() {
    let v = parse(b"-12.5e2").unwrap();
    assert_eq!(v, num("-12.5e+2"));
    assert_eq!(num_f64(&v), -1250.0);
}

#[test]
fn parses_empty_object() {
    assert_eq!(parse(b"{}").unwrap(), JsonValue::Object(vec![]));
}

#[test]
fn parses_empty_array() {
    assert_eq!(parse(b"[]").unwrap(), JsonValue::Array(vec![]));
}

#[test]
fn parses_nested_document() {
    let v = parse(b"{\"a\":[1,2,{\"b\":true}]}").unwrap();
    let inner = JsonValue::Object(vec![(b"b".to_vec(), JsonValue::Bool(true))]);
    let arr = JsonValue::Array(vec![num("+1"), num("+2"), inner]);
    let expected = JsonValue::Object(vec![(b"a".to_vec(), arr)]);
    assert_eq!(v, expected);
}

#[test]
fn reports_missing_value_after_colon() {
    let r = parse(b"{\"a\":}");
    assert_eq!(r, Err(ParseError::UnexpectedToken(TerminalKind::ObjectEnd)));
}

#[test]
fn reports_unterminated_string() {
    let r = parse(b"\"abc");
    assert_eq!(r, Err(ParseError::LexingError(TokenError::StringLexFailure(4))));
}

#[test]
fn keeps_duplicate_keys_in_source_order() {
    let v = parse(b"{\"a\":1,\"a\":2}").unwrap();
    let expected = JsonValue::Object(vec![
        (b"a".to_vec(), num("+1")),
        (b"a".to_vec(), num("+2")),
    ]);
    assert_eq!(v, expected);
}

#[test]
fn whitespace_between_tokens_changes_nothing() {
    let compact = parse(b"{\"a\":1}").unwrap();
    let spaced = parse(b" {\t\"a\"\n: 1 } ").unwrap();
    assert_eq!(compact, spaced);
}

#[test]
fn parses_boolean_literals() {
    assert_eq!(parse(b"true").unwrap(), JsonValue::Bool(true));
    assert_eq!(parse(b"false").unwrap(), JsonValue::Bool(false));
}

#[test]
fn parses_null_literal() {
    assert_eq!(parse(b"null").unwrap(), JsonValue::Null);
}

#[test]
fn parses_string_with_escapes() {
    let v = parse(b"\"a\\nb\\t\\\"c\\\\\"").unwrap();
    assert_eq!(v, JsonValue::Text(b"a\nb\t\"c\\".to_vec()));
}

#[test]
fn reports_invalid_escape() {
    let r = parse(b"\"a\\qb\"");
    assert_eq!(r, Err(ParseError::LexingError(TokenError::StringLexFailure(3))));
}

#[test]
fn reports_unrecognized_byte() {
    let r = parse(b"@");
    assert_eq!(r, Err(ParseError::LexingError(TokenError::UnrecognizedTokenError)));
}

#[test]
fn reports_truncated_keyword() {
    let r = parse(b"tru");
    assert_eq!(r, Err(ParseError::LexingError(TokenError::UnrecognizedTokenError)));
}

#[test]
fn reports_empty_input() {
    assert_eq!(parse(b""), Err(ParseError::ParsingError));
}

#[test]
fn reports_dangling_fraction_dot() {
    assert_eq!(parse(b"12."), Err(ParseError::ParsingError));
}

#[test]
fn rejects_two_top_level_values() {
    assert!(parse(b"1,2").is_err());
}

#[test]
fn parses_array_of_arrays() {
    let v = parse(b"[[]]").unwrap();
    assert_eq!(v, JsonValue::Array(vec![JsonValue::Array(vec![])]));
}

#[test]
fn parses_array_with_mixed_values() {
    let v = parse(b"[true,null,\"x\"]").unwrap();
    let expected = JsonValue::Array(vec![
        JsonValue::Bool(true),
        JsonValue::Null,
        JsonValue::Text(b"x".to_vec()),
    ]);
    assert_eq!(v, expected);
}

#[test]
fn parses_number_with_fraction_only() {
    let v = parse(b"3.25").unwrap();
    assert_eq!(v, num("+3.25"));
    assert_eq!(num_f64(&v), 3.25);
}

#[test]
fn parses_number_with_exponent_only() {
    let v = parse(b"2e3").unwrap();
    assert_eq!(v, num("+2e+3"));
    assert_eq!(num_f64(&v), 2000.0);
}

#[test]
fn parses_number_with_negative_exponent() {
    let v = parse(b"5e-1").unwrap();
    assert_eq!(v, num("+5e-1"));
    assert_eq!(num_f64(&v), 0.5);
}
