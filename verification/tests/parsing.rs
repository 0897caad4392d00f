use ppl::syntax::ast::{Expression, Literal, Statement, VariableReference};
use ppl::syntax::error::{LexerError, ParseError};
use ppl::syntax::lexer::{FullSourceLexer, Lexer};
use ppl::syntax::parse::Context;
use ppl::syntax::token::Token;
use ppl::syntax::with_offset::WithOffset;

#[test]
fn context_uses_default_precedence() {
    let context = Context::new(FullSourceLexer::new("x"));
    assert!(context.precedence_groups.has_greater_precedence("*", "+"));
    assert!(!context.precedence_groups.has_greater_precedence("+", "*"));
}

#[test]
fn consume_eol_takes_newline_or_end() {
    let mut context = Context::new(FullSourceLexer::new("\n"));
    let first = context.consume_eol().unwrap().unwrap();
    assert_eq!(first.as_str(), "\n");
    assert_eq!(context.consume_eol(), Ok(None));

    let mut context = Context::new(FullSourceLexer::new("x"));
    assert!(matches!(
        context.consume_eol(),
        Err(LexerError::UnexpectedToken(_))
    ));
}

#[test]
fn consume_id_takes_plain_and_escaped() {
    let mut context = Context::new(FullSourceLexer::new("name `my var` 1"));
    let id = context.consume_id().unwrap();
    assert_eq!(id.as_str(), "name");
    let id = context.consume_id().unwrap();
    assert_eq!(id.as_str(), "my var");
    assert!(id.eq_str("my var"));
    assert!(matches!(
        context.consume_id(),
        Err(LexerError::UnexpectedToken(_))
    ));
}

#[test]
fn comma_separated_literals() {
    let mut context = Context::new(FullSourceLexer::new("1, 2, none"));
    let items: Vec<Literal> = context.parse_comma_separated();
    assert_eq!(
        items,
        vec![
            Literal::Integer { offset: 0, value: "1".to_string() },
            Literal::Integer { offset: 3, value: "2".to_string() },
            Literal::NoneLiteral { offset: 6 },
        ]
    );
    assert_eq!(context.lexer.peek(), None);
}

#[test]
fn separated_stops_without_separator() {
    let mut context = Context::new(FullSourceLexer::new("1 2"));
    let items: Vec<Literal> = context.parse_comma_separated();
    assert_eq!(items, vec![Literal::Integer { offset: 0, value: "1".to_string() }]);
    assert_eq!(context.lexer.peek(), Some(Token::Integer));
}

#[test]
fn separated_stops_at_failing_item() {
    let mut context = Context::new(FullSourceLexer::new("x; y"));
    let items: Vec<VariableReference> = context.parse_separated(Token::Colon);
    assert_eq!(items.len(), 1);
    let mut context = Context::new(FullSourceLexer::new("1,"));
    let items: Vec<Literal> = context.parse_comma_separated();
    assert_eq!(items.len(), 1);
    assert_eq!(context.lexer.peek(), None);
}

#[test]
fn block_of_one_statement() {
    let mut context = Context::new(FullSourceLexer::new("\n\tx"));
    let block: Vec<Statement> = context.parse_block().unwrap();
    assert_eq!(
        block,
        vec![Statement::Expression(Expression::VariableReference(VariableReference {
            name: WithOffset { offset: 2, value: "x".to_string() },
        }))]
    );
}

#[test]
fn block_stops_at_lower_indentation() {
    let mut context = Context::new(FullSourceLexer::new("\nx"));
    let block: Vec<Statement> = context.parse_block().unwrap();
    assert!(block.is_empty());
    assert_eq!(context.lexer.peek(), Some(Token::Id));
}

#[test]
fn block_needs_newline() {
    let mut context = Context::new(FullSourceLexer::new("x"));
    let block: Result<Vec<Statement>, ParseError> = context.parse_block();
    assert!(matches!(
        block,
        Err(ParseError::LexerError(LexerError::UnexpectedToken(_)))
    ));
}

#[test]
fn block_item_error_is_reported() {
    let mut context = Context::new(FullSourceLexer::new("\n\t="));
    let block: Result<Vec<Statement>, ParseError> = context.parse_block();
    assert!(matches!(
        block,
        Err(ParseError::LexerError(LexerError::UnexpectedToken(_)))
    ));
}
