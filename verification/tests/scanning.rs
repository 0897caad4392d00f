use ppl::source_location::SourceSpan;
use ppl::syntax::error::{LexerError, MissingToken, UnexpectedToken};
use ppl::syntax::lexer::{FullSourceLexer, Lexer};
use ppl::syntax::token::{OperatorKind, Token};

fn tokens(source: &str) -> Vec<Token> {
    let mut lexer = FullSourceLexer::new(source);
    let mut out = vec![];
    while let Some(t) = lexer.next() {
        out.push(t);
    }
    out
}

#[test]
fn keyword_needs_whole_word() {
    assert_eq!(tokens("none"), vec![Token::NoneLiteral]);
    assert_eq!(tokens("nonex"), vec![Token::Id]);
    assert_eq!(tokens("letter"), vec![Token::Id]);
    assert_eq!(tokens("let"), vec![Token::Let]);
}

#[test]
fn longest_operator_wins() {
    assert_eq!(tokens("a = b"), vec![Token::Id, Token::Assign, Token::Id]);
    assert_eq!(
        tokens("a == b"),
        vec![Token::Id, Token::Operator(OperatorKind::Infix), Token::Id]
    );
    assert_eq!(tokens("->"), vec![Token::Arrow]);
    assert_eq!(tokens("=>"), vec![Token::FatArrow]);
    assert_eq!(tokens("<"), vec![Token::Less]);
}

#[test]
fn operator_kinds_follow_spaces() {
    assert_eq!(
        tokens("-x"),
        vec![Token::Operator(OperatorKind::Prefix), Token::Id]
    );
    assert_eq!(
        tokens("x!"),
        vec![Token::Id, Token::Operator(OperatorKind::Postfix)]
    );
    assert_eq!(
        tokens("x+y"),
        vec![Token::Id, Token::Operator(OperatorKind::Infix), Token::Id]
    );
    assert_eq!(
        tokens("x +y"),
        vec![Token::Id, Token::Operator(OperatorKind::Prefix), Token::Id]
    );
}

#[test]
fn numbers() {
    assert_eq!(tokens("15"), vec![Token::Integer]);
    assert_eq!(tokens("1.5"), vec![Token::Rational]);
    assert_eq!(tokens(".5"), vec![Token::Rational]);
    assert_eq!(tokens("1."), vec![Token::Integer, Token::Dot]);
}

#[test]
fn comments_and_spaces_are_skipped() {
    assert_eq!(tokens("// comment"), vec![]);
    assert_eq!(tokens("x // y\ny"), vec![Token::Id, Token::Newline, Token::Id]);
    assert_eq!(tokens("   x   "), vec![Token::Id]);
}

#[test]
fn strings_and_escaped_identifiers() {
    assert_eq!(tokens("\"a b\""), vec![Token::String]);
    assert_eq!(
        tokens("`my var`"),
        vec![Token::EscapedId("my var".to_string())]
    );
    let mut lexer = FullSourceLexer::new("\"open");
    assert_eq!(lexer.next(), Some(Token::Error));
    assert_eq!(lexer.span(), 0..5);
}

#[test]
fn newlines_after_a_newline_are_skipped() {
    assert_eq!(
        tokens("a\n\n\nb"),
        vec![Token::Id, Token::Newline, Token::Id]
    );
}

#[test]
fn spans_are_in_bytes() {
    let mut lexer = FullSourceLexer::new("é x");
    assert_eq!(lexer.next(), Some(Token::Error));
    assert_eq!(lexer.span(), 0..2);
    assert_eq!(lexer.next(), Some(Token::Id));
    assert_eq!(lexer.span(), 3..4);
    assert_eq!(lexer.slice(), "x");
}

#[test]
fn indentation_counts_tabs() {
    let mut lexer = FullSourceLexer::new("\n\t\tx");
    assert_eq!(lexer.next(), Some(Token::Newline));
    assert_eq!(lexer.indentation(), 0);
    lexer.skip_indentation();
    assert_eq!(lexer.indentation(), 2);
    assert_eq!(lexer.next(), Some(Token::Id));
}

#[test]
fn consume_reports_errors() {
    let mut lexer = FullSourceLexer::new("x");
    assert_eq!(
        lexer.consume(Token::Let),
        Err(LexerError::UnexpectedToken(UnexpectedToken {
            expected: vec![Token::Let],
            got: Token::Id,
            at: SourceSpan::from_range(0, 1),
        }))
    );
    assert!(lexer.consume(Token::Id).is_ok());
    assert_eq!(
        lexer.consume(Token::Let),
        Err(LexerError::MissingToken(MissingToken {
            expected: vec![Token::Let],
            at: SourceSpan::at_offset(1),
        }))
    );
}
