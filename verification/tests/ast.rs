use ppl::syntax::ast::{Expression, Literal, Statement, VariableDeclaration, VariableReference};
use ppl::syntax::error::{LexerError, ParseError};
use ppl::syntax::token::Token;
use ppl::syntax::with_offset::WithOffset;

#[test]
fn test_none() {
    let literal = "none".parse::<Literal>().unwrap();
    assert_eq!(literal, Literal::NoneLiteral { offset: 0 });
}

#[test]
fn test_integer() {
    let literal = "123".parse::<Literal>().unwrap();
    assert_eq!(literal, Literal::Integer { offset: 0, value: "123".to_string() });
}

#[test]
fn test_variable_declaration() {
    let var = "let x = 1".parse::<VariableDeclaration>().unwrap();
    assert_eq!(
        var,
        VariableDeclaration {
            name: WithOffset { offset: 4, value: "x".to_string() },
            initializer: Expression::Literal(Literal::Integer { offset: 8, value: "1".to_string() }),
            mutable: false,
        }
    );
}

#[test]
fn test_error() {
    let literal = "123a".parse::<Literal>();
    assert!(literal.is_err());
}

#[test]
fn extra_token_is_reported() {
    match "123a".parse::<Literal>() {
        Err(ParseError::LexerError(LexerError::ExtraToken(e))) => {
            assert_eq!(e.token, Token::Id);
            assert_eq!(e.at.offset, 3);
            assert_eq!(e.at.length, 1);
        }
        other => panic!("unexpected {:?}", other),
    }
}

#[test]
fn statement_assignment() {
    let stmt = "x = none".parse::<Statement>().unwrap();
    match stmt {
        Statement::Assignment(a) => {
            assert_eq!(
                a.target,
                Expression::VariableReference(VariableReference {
                    name: WithOffset { offset: 0, value: "x".to_string() }
                })
            );
            assert_eq!(a.value, Expression::Literal(Literal::NoneLiteral { offset: 4 }));
        }
        other => panic!("unexpected {:?}", other),
    }
}

#[test]
fn statement_expression_and_missing_expression() {
    assert_eq!(
        "42".parse::<Statement>().unwrap(),
        Statement::Expression(Expression::Literal(Literal::Integer {
            offset: 0,
            value: "42".to_string()
        }))
    );
    match "let x =".parse::<Statement>() {
        Err(ParseError::MissingExpression(e)) => assert_eq!(e.at.offset, 5),
        other => panic!("unexpected {:?}", other),
    }
}

#[test]
fn literal_unexpected_token() {
    match "x".parse::<Literal>() {
        Err(ParseError::LexerError(LexerError::UnexpectedToken(e))) => {
            assert_eq!(e.expected, vec![Token::NoneLiteral, Token::Integer]);
            assert_eq!(e.got, Token::Id);
        }
        other => panic!("unexpected {:?}", other),
    }
    match "".parse::<Literal>() {
        Err(ParseError::LexerError(LexerError::MissingToken(e))) => {
            assert_eq!(e.expected, vec![Token::NoneLiteral, Token::Integer]);
            assert_eq!(e.at.offset, 0);
        }
        other => panic!("unexpected {:?}", other),
    }
}
