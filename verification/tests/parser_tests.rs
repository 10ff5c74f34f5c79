use jsonp::element_stream::{Duplicable, ElementStream};
use jsonp::location::{LocatedError, Location};
use jsonp::parser::error::ParserError;
use jsonp::parser::value::JsonValue;
use jsonp::parser::Parser;
use jsonp::tokenizer::token::Token;
use jsonp::tokenizer::Tokenizer;

fn parse_object_of(input: &str) -> Result<JsonValue, ParserError> {
    let mut tokenizer = Tokenizer::new(input.to_string());
    let tokens = tokenizer.process().expect("tokenizing should succeed");
    let mut parser = Parser::new(tokens);
    parser.parse_object()
}

fn parse_value_of(input: &str) -> Result<JsonValue, ParserError> {
    let mut tokenizer = Tokenizer::new(input.to_string());
    let tokens = tokenizer.process().expect("tokenizing should succeed");
    let mut parser = Parser::new(tokens);
    parser.try_parse_value()
}

fn value_eq(a: &JsonValue, b: &JsonValue) -> bool {
    match (a, b) {
        (JsonValue::String(x), JsonValue::String(y)) => x == y,
        (JsonValue::Number(x), JsonValue::Number(y)) => x == y,
        (JsonValue::Boolean(x), JsonValue::Boolean(y)) => x == y,
        (JsonValue::Null, JsonValue::Null) => true,
        (JsonValue::Array(xs), JsonValue::Array(ys)) => {
            xs.len() == ys.len() && xs.iter().zip(ys.iter()).all(|(x, y)| value_eq(x, y))
        }
        (JsonValue::Object(xs), JsonValue::Object(ys)) => {
            xs.len() == ys.len()
                && xs
                    .iter()
                    .zip(ys.iter())
                    .all(|((xk, xv), (yk, yv))| xk == yk && value_eq(xv, yv))
        }
        _ => false,
    }
}

fn render(v: &JsonValue) -> String {
    match v {
        JsonValue::String(s) => format!("\"{}\"", s),
        JsonValue::Number(t) => t.clone(),
        JsonValue::Boolean(true) => "true".to_string(),
        JsonValue::Boolean(false) => "false".to_string(),
        JsonValue::Null => "null".to_string(),
        JsonValue::Array(vs) => {
            let inner: Vec<String> = vs.iter().map(render).collect();
            format!("[{}]", inner.join(","))
        }
        JsonValue::Object(ps) => {
            let inner: Vec<String> = ps
                .iter()
                .map(|(k, v)| format!("\"{}\":{}", k, render(v)))
                .collect();
            format!("{{{}}}", inner.join(","))
        }
    }
}

#[test]
fn empty_object_is_accepted() {
    let v = parse_object_of("{}").expect("an empty object parses");
    match v {
        JsonValue::Object(ps) => assert_eq!(ps.len(), 0),
        other => panic!("expected an object, got {:?}", other),
    }
}

#[test]
fn empty_array_is_accepted() {
    let v = parse_value_of("[]").expect("an empty array parses");
    match v {
        JsonValue::Array(vs) => assert_eq!(vs.len(), 0),
        other => panic!("expected an array, got {:?}", other),
    }
}

#[test]
fn trailing_comma_in_object_is_rejected() {
    let e = parse_object_of("{\"a\":1,}").expect_err("a trailing comma is invalid");
    match e {
        ParserError::UnexpectedToken(Token::Comma, _) => {}
        other => panic!("expected an unexpected comma, got {:?}", other),
    }
}

#[test]
fn trailing_comma_in_array_is_rejected() {
    let e = parse_value_of("[1,]").expect_err("a trailing comma is invalid");
    match e {
        ParserError::UnexpectedToken(Token::Comma, _) => {}
        other => panic!("expected an unexpected comma, got {:?}", other),
    }
}

#[test]
fn mismatched_delimiter_is_rejected() {
    let e = parse_object_of("{\"a\": 1]").expect_err("a mismatched delimiter is invalid");
    match e {
        ParserError::UnexpectedToken(Token::CloseSquareBracket, _) => {}
        other => panic!("expected an unexpected bracket, got {:?}", other),
    }
}

#[test]
fn identifier_literals_are_case_sensitive() {
    let e = parse_value_of("True").expect_err("True is not a literal");
    match e {
        ParserError::UnexpectedToken(Token::Identifier(s), _) => assert_eq!(s, "True"),
        other => panic!("expected an unexpected identifier, got {:?}", other),
    }
    assert!(value_eq(
        &parse_value_of("true").unwrap(),
        &JsonValue::Boolean(true)
    ));
    assert!(value_eq(
        &parse_value_of("false").unwrap(),
        &JsonValue::Boolean(false)
    ));
    assert!(value_eq(&parse_value_of("null").unwrap(), &JsonValue::Null));
}

#[test]
fn comment_is_excluded_from_tokens() {
    let with_comment = parse_object_of("{\"a\": 1 /comment\n}").expect("comments vanish");
    let without = parse_object_of("{\"a\": 1}").expect("plain object parses");
    assert!(value_eq(&with_comment, &without));
}

#[test]
fn value_position_error_reports_line_and_column() {
    let e = parse_object_of("{\n  \"a\": }").expect_err("an object needs a value");
    match e {
        ParserError::UnexpectedToken(Token::CloseBrace, l) => {
            assert_eq!(l.line, 1);
            assert_eq!(l.column, 8);
        }
        other => panic!("expected an unexpected brace, got {:?}", other),
    }
}

#[test]
fn duplicate_keys_keep_the_last_value() {
    let v = parse_object_of("{\"a\":1,\"a\":2}").expect("duplicate keys are allowed");
    match v {
        JsonValue::Object(ps) => {
            assert_eq!(ps.len(), 1);
            assert_eq!(ps[0].0, "a");
            match &ps[0].1 {
                JsonValue::Number(t) => assert_eq!(t, "2"),
                other => panic!("expected the later number, got {:?}", other),
            }
        }
        other => panic!("expected an object, got {:?}", other),
    }
}

#[test]
fn missing_comma_between_pairs_is_tolerated() {
    let v = parse_object_of("{\"a\":1 \"b\":2}").expect("pairs need no separator");
    match v {
        JsonValue::Object(ps) => assert_eq!(ps.len(), 2),
        other => panic!("expected an object, got {:?}", other),
    }
}

#[test]
fn unterminated_object_is_an_error() {
    let e = parse_object_of("{\"a\":1").expect_err("an object must be closed");
    assert!(matches!(e, ParserError::UnexpectedEOF));
}

#[test]
fn unterminated_array_is_an_error() {
    let e = parse_value_of("[1,2").expect_err("an array must be closed");
    assert!(matches!(e, ParserError::UnexpectedEOF));
}

#[test]
fn array_elements_need_separators() {
    let e = parse_value_of("[1 2]").expect_err("array values need commas");
    assert!(matches!(e, ParserError::UnexpectedToken(Token::Number(_), _)));
}

#[test]
fn nested_values_parse() {
    let v = parse_object_of("{\"xs\": [1, {\"y\": true}, null], \"s\": \"txt\"}")
        .expect("nesting parses");
    let expected = JsonValue::Object(vec![
        (
            "xs".to_string(),
            JsonValue::Array(vec![
                JsonValue::Number("1".to_string()),
                JsonValue::Object(vec![("y".to_string(), JsonValue::Boolean(true))]),
                JsonValue::Null,
            ]),
        ),
        ("s".to_string(), JsonValue::String("txt".to_string())),
    ]);
    assert!(value_eq(&v, &expected));
}

#[test]
fn render_then_parse_returns_the_same_tree() {
    let original = JsonValue::Object(vec![
        ("name".to_string(), JsonValue::String("ada".to_string())),
        ("age".to_string(), JsonValue::Number("36.5".to_string())),
        ("tags".to_string(), JsonValue::Array(vec![
            JsonValue::Boolean(false),
            JsonValue::Null,
            JsonValue::Array(vec![]),
            JsonValue::Object(vec![]),
        ])),
    ]);
    let text = render(&original);
    let reparsed = parse_value_of(&text).expect("rendered text parses");
    assert!(value_eq(&reparsed, &original));
}

#[test]
fn parse_error_location_is_optional() {
    let e = parse_object_of("").expect_err("nothing to parse");
    assert!(matches!(e, ParserError::UnexpectedEOF));
    assert!(e.location().is_none());
    let e2 = parse_object_of("[]").expect_err("an object must start with a brace");
    assert!(e2.location().is_some());
    match e2 {
        ParserError::ExpectedToken(Token::OpenBrace, Token::OpenSquareBracket, _) => {}
        other => panic!("expected a brace mismatch, got {:?}", other),
    }
}

#[test]
fn element_stream_walks_its_elements() {
    let mut stream = ElementStream::new(vec!['a', 'b', 'c']);
    assert_eq!(stream.peek(), Some('a'));
    assert_eq!(stream.consume(), Some('a'));
    assert_eq!(stream.previous(1), Some('a'));
    assert_eq!(stream.previous(0), Some('b'));
    assert_eq!(stream.previous(2), None);
    stream.skip();
    assert_eq!(stream.consume(), Some('c'));
    assert_eq!(stream.peek(), None);
    assert_eq!(stream.consume(), None);
    stream.skip();
    assert_eq!(stream.previous(1), Some('c'));
}

#[test]
fn duplicate_copies_an_element() {
    let pair = (Token::Comma, Location { line: 3, column: 7 });
    let copy = pair.duplicate();
    assert!(copy.0.same_token(&pair.0));
    assert_eq!(copy.1, pair.1);
}

#[test]
fn values_may_spread_over_lines() {
    let v = parse_value_of("[\n1,\n2\n]").expect("newlines separate nothing");
    let expected = JsonValue::Array(vec![
        JsonValue::Number("1".to_string()),
        JsonValue::Number("2".to_string()),
    ]);
    assert!(value_eq(&v, &expected));
}

#[test]
fn object_key_must_be_a_string() {
    let e = parse_object_of("{1: 2}").expect_err("a key must be a string");
    assert!(matches!(e, ParserError::UnexpectedToken(Token::Number(_), _)));
}

#[test]
fn colon_is_required_after_a_key() {
    let e = parse_object_of("{\"a\" 1}").expect_err("a key needs a colon");
    match e {
        ParserError::ExpectedToken(Token::Colon, Token::Number(_), _) => {}
        other => panic!("expected a colon mismatch, got {:?}", other),
    }
}
