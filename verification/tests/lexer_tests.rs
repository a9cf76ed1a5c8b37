use sr_json::grammar::TerminalKind;
use sr_json::lexer::lex;
use sr_json::lexer::Token;
use sr_json::lexer::TokenError;

fn kinds(tokens: &[Token]) -> Vec<TerminalKind> {
    tokens.iter().map(|t| t.kind).collect()
}

#[test]
fn lexes_structural_symbols() {
    let tokens = lex(b"{}[],:.").unwrap();
    assert_eq!(
        kinds(&tokens),
        vec![
            TerminalKind::ObjectStart,
            TerminalKind::ObjectEnd,
            TerminalKind::ArrayStart,
            TerminalKind::ArrayEnd,
            TerminalKind::Comma,
            TerminalKind::Colon,
            TerminalKind::FractionSymbol,
        ]
    );
}

#[test]
fn lexes_number_fragments() {
    let tokens = lex(b"-12.5e2").unwrap();
    assert_eq!(
        kinds(&tokens),
        vec![
            TerminalKind::Sign,
            TerminalKind::Digits,
            TerminalKind::FractionSymbol,
            TerminalKind::Digits,
            TerminalKind::ExponentMarker,
            TerminalKind::Digits,
        ]
    );
    assert_eq!(tokens[0].lexeme, Some(b"-".to_vec()));
    assert_eq!(tokens[1].lexeme, Some(b"12".to_vec()));
    assert_eq!(tokens[3].lexeme, Some(b"5".to_vec()));
    assert_eq!(tokens[5].lexeme, Some(b"2".to_vec()));
}

#[test]
fn lexes_string_with_escapes() {
    let tokens = lex(b"\"x\\ty\"").unwrap();
    assert_eq!(tokens.len(), 1);
    assert_eq!(tokens[0].kind, TerminalKind::StringLiteral);
    assert_eq!(tokens[0].lexeme, Some(b"x\ty".to_vec()));
}

#[test]
fn lexes_keywords() {
    let tokens = lex(b"true false null").unwrap();
    assert_eq!(
        kinds(&tokens),
        vec![
            TerminalKind::BoolLiteral,
            TerminalKind::BoolLiteral,
            TerminalKind::NullLiteral,
        ]
    );
    assert_eq!(tokens[0].lexeme, Some(b"true".to_vec()));
    assert_eq!(tokens[1].lexeme, Some(b"false".to_vec()));
    assert_eq!(tokens[2].lexeme, None);
}

#[test]
fn skips_only_whitespace() {
    let tokens = lex(b" \t\n").unwrap();
    assert!(tokens.is_empty());
}

#[test]
fn fails_on_unterminated_string() {
    assert_eq!(lex(b"\"abc"), Err(TokenError::StringLexFailure(4)));
}

#[test]
fn fails_on_carriage_return_between_tokens() {
    assert_eq!(lex(b"1\r2"), Err(TokenError::UnrecognizedTokenError));
}

#[test]
fn token_exposes_its_payload() {
    let tokens = lex(b"7").unwrap();
    assert_eq!(tokens[0].value(), &Some(b"7".to_vec()));
}

#[test]
fn lexes_maximal_digit_runs() {
    let tokens = lex(b"007 42").unwrap();
    assert_eq!(tokens.len(), 2);
    assert_eq!(tokens[0].lexeme, Some(b"007".to_vec()));
    assert_eq!(tokens[1].lexeme, Some(b"42".to_vec()));
}
