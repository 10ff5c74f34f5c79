use jsonp::location::{LocatedError, Location};
use jsonp::tokenizer::error::TokenizerError;
use jsonp::tokenizer::token::{Token, TokenAndLocation};
use jsonp::tokenizer::Tokenizer;

fn toks(input: &str) -> Vec<TokenAndLocation> {
    let mut tokenizer = Tokenizer::new(input.to_string());
    tokenizer.process().expect("tokenizing should succeed")
}

fn toks_err(input: &str) -> TokenizerError {
    let mut tokenizer = Tokenizer::new(input.to_string());
    tokenizer.process().expect_err("tokenizing should fail")
}

#[test]
fn punctuation_tokens_and_locations() {
    let ts = toks("{}");
    assert_eq!(ts.len(), 2);
    assert!(matches!(ts[0].0, Token::OpenBrace));
    assert_eq!(ts[0].1, Location { line: 0, column: 1 });
    assert!(matches!(ts[1].0, Token::CloseBrace));
    assert_eq!(ts[1].1, Location { line: 0, column: 2 });
}

#[test]
fn all_punctuation_kinds() {
    let ts = toks("[]{},:");
    assert!(matches!(ts[0].0, Token::OpenSquareBracket));
    assert!(matches!(ts[1].0, Token::CloseSquareBracket));
    assert!(matches!(ts[2].0, Token::OpenBrace));
    assert!(matches!(ts[3].0, Token::CloseBrace));
    assert!(matches!(ts[4].0, Token::Comma));
    assert!(matches!(ts[5].0, Token::Colon));
}

#[test]
fn string_token_excludes_quotes() {
    let ts = toks("\"hello\"");
    assert_eq!(ts.len(), 1);
    match &ts[0].0 {
        Token::String(s) => assert_eq!(s, "hello"),
        other => panic!("expected a string token, got {:?}", other),
    }
}

#[test]
fn unterminated_string_at_newline() {
    let e = toks_err("\"ab\ncd\"");
    match e {
        TokenizerError::ExpectedCharacter(c, _) => assert_eq!(c, '"'),
        other => panic!("expected a missing quote error, got {:?}", other),
    }
}

#[test]
fn unterminated_string_at_end_of_input() {
    let e = toks_err("{\"a\": \"b");
    match e {
        TokenizerError::ExpectedCharacter(c, _) => assert_eq!(c, '"'),
        other => panic!("expected a missing quote error, got {:?}", other),
    }
}

#[test]
fn unexpected_character_reported_with_location() {
    let e = toks_err("@");
    match e {
        TokenizerError::UnexpectedCharacter(c, l) => {
            assert_eq!(c, '@');
            assert_eq!(l, Location { line: 0, column: 1 });
        }
        other => panic!("expected an unexpected character error, got {:?}", other),
    }
}

#[test]
fn newline_advances_line_and_resets_column() {
    let ts = toks("{\n}");
    assert_eq!(ts[0].1, Location { line: 0, column: 1 });
    assert_eq!(ts[1].1, Location { line: 1, column: 1 });
}

#[test]
fn carriage_return_newline_is_normalized() {
    let ts = toks("{\r\n}");
    assert_eq!(ts.len(), 2);
    assert_eq!(ts[1].1, Location { line: 1, column: 1 });
}

#[test]
fn comment_runs_to_end_of_line() {
    let ts = toks("/all of this vanishes\n{}");
    assert_eq!(ts.len(), 2);
    assert!(matches!(ts[0].0, Token::OpenBrace));
    assert!(matches!(ts[1].0, Token::CloseBrace));
}

#[test]
fn identifier_tokens_keep_exact_text() {
    let ts = toks("true False");
    match &ts[0].0 {
        Token::Identifier(s) => assert_eq!(s, "true"),
        other => panic!("expected an identifier token, got {:?}", other),
    }
    match &ts[1].0 {
        Token::Identifier(s) => assert_eq!(s, "False"),
        other => panic!("expected an identifier token, got {:?}", other),
    }
}

#[test]
fn number_token_keeps_exact_text() {
    let ts = toks("-1.5e-3");
    assert_eq!(ts.len(), 1);
    match &ts[0].0 {
        Token::Number(s) => assert_eq!(s, "-1.5e-3"),
        other => panic!("expected a number token, got {:?}", other),
    }
}

#[test]
fn valid_number_forms_are_kept() {
    for text in ["0", "5.", ".5", "1e5", "1E-5", "-2", "-.5", "12.25"] {
        let ts = toks(text);
        assert_eq!(ts.len(), 1, "{} should give one token", text);
        match &ts[0].0 {
            Token::Number(s) => assert_eq!(s, text),
            other => panic!("expected a number token for {}, got {:?}", text, other),
        }
    }
}

#[test]
fn malformed_number_yields_no_token() {
    for text in ["1.2.3", ".", "-", "1e", "e5", "--1", "1e-"] {
        let ts = toks(text);
        assert_eq!(ts.len(), 0, "{} should give no token", text);
    }
}

#[test]
fn blanks_produce_no_tokens() {
    assert_eq!(toks("   \n  \n").len(), 0);
    assert_eq!(toks("").len(), 0);
}

#[test]
fn tokenizer_error_exposes_its_location() {
    let e = toks_err("#");
    let l = e.location().expect("a tokenizer error has a location");
    assert_eq!(l, Location { line: 0, column: 1 });
}

#[test]
fn same_token_compares_structurally() {
    let ts = toks("\"a\" \"a\" \"b\"");
    assert!(ts[0].0.same_token(&ts[1].0));
    assert!(!ts[0].0.same_token(&ts[2].0));
    assert!(!ts[0].0.same_token(&Token::Comma));
    assert!(Token::Comma.same_token(&Token::Comma));
}

#[test]
fn numeric_characters_beyond_ascii_join_a_numeric_scan() {
    // a superscript two is numeric but no valid literal, so the scan drops it
    let ts = toks("\u{B2}");
    assert_eq!(ts.len(), 0);
}

#[test]
fn alphanumeric_characters_beyond_ascii_join_an_identifier() {
    let ts = toks("\u{E9}1");
    assert_eq!(ts.len(), 1);
    match &ts[0].0 {
        Token::Identifier(s) => assert_eq!(s, "\u{E9}1"),
        other => panic!("expected an identifier token, got {:?}", other),
    }
}

#[test]
fn token_equality_is_structural() {
    let ts = toks("\"a\" \"a\" 1 1");
    assert_eq!(ts[0].0, ts[1].0);
    assert_eq!(ts[2].0, ts[3].0);
    assert_ne!(ts[0].0, ts[2].0);
    assert_ne!(Token::OpenBrace, Token::CloseBrace);
    assert_eq!(Token::Colon, Token::Colon);
}

#[test]
fn string_contents_are_not_tokenized() {
    let ts = toks("\"{a,b}:[1]\"");
    assert_eq!(ts.len(), 1);
    match &ts[0].0 {
        Token::String(s) => assert_eq!(s, "{a,b}:[1]"),
        other => panic!("expected a string token, got {:?}", other),
    }
}
