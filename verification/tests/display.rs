use ppl::source_location::SourceSpan;
use ppl::syntax::error::{
    ExtraToken, InvalidToken, LexerError, MissingExpression, MissingStatement, MissingToken,
    ParseError, UnexpectedToken,
};
use ppl::syntax::token::{OperatorKind, Token};

#[test]
fn token_display() {
    assert_eq!(Token::Id.to_string(), "id");
    assert_eq!(Token::NoneLiteral.to_string(), "none");
    assert_eq!(Token::Newline.to_string(), "newline");
    assert_eq!(Token::LBrace.to_string(), "{");
    assert_eq!(Token::RBrace.to_string(), "}");
    assert_eq!(Token::Arrow.to_string(), "->");
    assert_eq!(Token::Operator(OperatorKind::Infix).to_string(), "operator(infix)");
    assert_eq!(Token::EscapedId("AbC".to_string()).to_string(), "escapedid(\"abc\")");
}

#[test]
fn token_debug_text() {
    assert_eq!(Token::NoneLiteral.debug_text(), "None");
    assert_eq!(Token::Operator(OperatorKind::Prefix).debug_text(), "Operator(Prefix)");
    assert_eq!(Token::EscapedId("a\"b".to_string()).debug_text(), "EscapedId(\"a\\\"b\")");
}

#[test]
fn lexer_error_messages() {
    let at = SourceSpan::at_offset(0);
    assert_eq!(InvalidToken { at }.to_string(), "invalid token");
    assert_eq!(ExtraToken { token: Token::Id, at }.to_string(), "extra Id");
    assert_eq!(
        MissingToken { expected: vec![Token::Newline], at }.to_string(),
        "missing newline"
    );
    assert_eq!(
        MissingToken { expected: vec![Token::Id, Token::Integer], at }.to_string(),
        "missing tokens: id | integer"
    );
    assert_eq!(
        UnexpectedToken {
            expected: vec![Token::NoneLiteral, Token::Integer],
            got: Token::Comma,
            at
        }
        .to_string(),
        "expected none | integer, got ,"
    );
}

#[test]
fn parse_error_messages() {
    let at = SourceSpan::at_offset(3);
    assert_eq!(
        ParseError::MissingExpression(MissingExpression { at }).to_string(),
        "missing expression"
    );
    assert_eq!(
        ParseError::LexerError(LexerError::InvalidToken(InvalidToken { at })).to_string(),
        "invalid token"
    );
}

#[test]
fn errors_convert_into_parse_errors() {
    let at = SourceSpan::at_offset(1);
    let e: ParseError = InvalidToken { at }.into();
    assert_eq!(e, ParseError::LexerError(LexerError::InvalidToken(InvalidToken { at })));
    let e: LexerError = ExtraToken { token: Token::Id, at }.into();
    assert_eq!(e, LexerError::ExtraToken(ExtraToken { token: Token::Id, at }));
    let e: ParseError = MissingStatement { at }.into();
    assert_eq!(e, ParseError::MissingStatement(MissingStatement { at }));
    assert_eq!(e.to_string(), "missing statement");
}

#[test]
fn token_names_show_in_lowercase() {
    assert_eq!(Token::Integer.to_string(), "integer");
    assert_eq!(Token::Rational.to_string(), "rational");
}
