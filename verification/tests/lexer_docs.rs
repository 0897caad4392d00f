use ppl::source_location::SourceSpan;
use ppl::syntax::error::{LexerError, UnexpectedToken};
use ppl::syntax::lexer::{FullSourceLexer, Lexer};
use ppl::syntax::token::{OperatorKind, Token};
use ppl::syntax::with_offset::StringWithOffset;

fn unexpected(expected: Vec<Token>, got: Token, span: std::ops::Range<usize>) -> LexerError {
    LexerError::UnexpectedToken(UnexpectedToken {
        expected,
        got,
        at: SourceSpan::from_range(span.start, span.end),
    })
}

#[test]
fn new_lexer_has_empty_span() {
    let lexer = FullSourceLexer::new("42");
    assert_eq!(lexer.span(), 0..0);
    assert_eq!(lexer.slice(), "");
    assert_eq!(lexer.token(), None);
}

#[test]
fn peeking_does_not_move() {
    let mut lexer = FullSourceLexer::new("42");
    assert_eq!(lexer.peek_span(), 0..2);
    assert_eq!(lexer.peek_slice(), "42");
    assert_eq!(lexer.span(), 0..0);
    assert_eq!(lexer.next(), Some(Token::Integer));
    assert_eq!(lexer.token(), Some(Token::Integer));
    assert_eq!(lexer.span(), 0..2);
    assert_eq!(lexer.slice(), "42");
}

#[test]
fn string_with_offset_of_current_token() {
    let mut lexer = FullSourceLexer::new("42");
    assert_eq!(lexer.next(), Some(Token::Integer));
    assert_eq!(lexer.string_with_offset(), StringWithOffset::from("42").at(0));
}

#[test]
fn try_match_examples() {
    let mut lexer = FullSourceLexer::new("42");
    assert_eq!(lexer.try_match(Token::Integer), Ok(()));

    let mut lexer = FullSourceLexer::new("42");
    assert_eq!(
        lexer.try_match(Token::Id),
        Err(unexpected(vec![Token::Id], Token::Integer, 0..2))
    );
}

#[test]
fn try_match_one_of_examples() {
    let mut lexer = FullSourceLexer::new("42");
    assert_eq!(lexer.try_match_one_of(&[Token::Integer, Token::Id]), Ok(Token::Integer));
    assert_eq!(lexer.span(), 0..0);

    let mut lexer = FullSourceLexer::new("42");
    assert_eq!(
        lexer.try_match_one_of(&[Token::NoneLiteral, Token::Id]),
        Err(unexpected(vec![Token::NoneLiteral, Token::Id], Token::Integer, 0..2))
    );
    assert_eq!(lexer.span(), 0..0);
}

#[test]
fn consume_examples() {
    let mut lexer = FullSourceLexer::new("42");
    assert_eq!(lexer.consume(Token::Integer), Ok(StringWithOffset::from("42")));

    let mut lexer = FullSourceLexer::new("42");
    assert_eq!(
        lexer.consume(Token::Id),
        Err(unexpected(vec![Token::Id], Token::Integer, 0..2))
    );
}

#[test]
fn consume_one_of_examples() {
    let mut lexer = FullSourceLexer::new("42");
    assert_eq!(lexer.consume_one_of(&[Token::Integer, Token::Id]), Ok(Token::Integer));

    let mut lexer = FullSourceLexer::new("42");
    assert_eq!(
        lexer.consume_one_of(&[Token::NoneLiteral, Token::Id]),
        Err(unexpected(vec![Token::NoneLiteral, Token::Id], Token::Integer, 0..2))
    );
}

#[test]
fn consume_operator_examples() {
    let mut lexer = FullSourceLexer::new("+");
    assert_eq!(lexer.consume_operator(), Ok(StringWithOffset::from("+")));

    let mut lexer = FullSourceLexer::new("42");
    assert_eq!(
        lexer.consume_operator(),
        Err(unexpected(
            vec![
                Token::Operator(OperatorKind::Prefix),
                Token::Operator(OperatorKind::Infix),
                Token::Operator(OperatorKind::Postfix),
                Token::Less,
                Token::Greater,
            ],
            Token::Integer,
            0..2
        ))
    );
}

#[test]
fn skip_spaces_example() {
    let mut lexer = FullSourceLexer::new("\n  \n42");
    assert_eq!(lexer.peek(), Some(Token::Newline));
    lexer.skip_spaces();
    assert_eq!(lexer.peek(), Some(Token::Integer));
}

#[test]
fn invalid_token_error() {
    let mut lexer = FullSourceLexer::new("?x");
    let r = lexer.try_match(Token::Id);
    assert!(matches!(r, Err(LexerError::UnexpectedToken(_))));
    let mut lexer = FullSourceLexer::new("\u{1}");
    let r = lexer.try_match(Token::Id);
    assert!(matches!(r, Err(LexerError::InvalidToken(_))));
}
