use ppl::syntax::lexer::{FullSourceLexer, Lexer};
use ppl::syntax::token::{OperatorKind, Token};

#[test]
fn lexes_integer() {
    let mut lexer = FullSourceLexer::new("42");
    assert_eq!(lexer.span(), 0..0);
    assert_eq!(lexer.peek(), Some(Token::Integer));
    assert_eq!(lexer.span(), 0..0);
    assert_eq!(lexer.next(), Some(Token::Integer));
    assert_eq!(lexer.span(), 0..2);
    assert_eq!(lexer.slice(), "42");
    assert_eq!(lexer.next(), None);
}

#[test]
fn lexes_statement() {
    let mut lexer = FullSourceLexer::new("let x = 1 + 2 // comment\n\n\tnone");
    let mut tokens = vec![];
    while let Some(t) = lexer.next() {
        tokens.push(t);
    }
    assert_eq!(
        tokens,
        vec![
            Token::Let,
            Token::Id,
            Token::Assign,
            Token::Integer,
            Token::Operator(OperatorKind::Infix),
            Token::Integer,
            Token::Newline,
            Token::Tab,
            Token::NoneLiteral,
        ]
    );
}
