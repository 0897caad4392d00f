use ppl::syntax::interactive::InteractiveLexer;
use ppl::syntax::lexer::Lexer;
use ppl::syntax::token::Token;

#[test]
fn prompts() {
    let mut lexer = InteractiveLexer::new();
    assert_eq!(lexer.take_prompt(), "... ");
    lexer.override_next_prompt(">>> ");
    assert_eq!(lexer.take_prompt(), ">>> ");
    assert_eq!(lexer.take_prompt(), "... ");
}

#[test]
fn lines_are_lexed_as_they_come() {
    let mut lexer = InteractiveLexer::new();
    assert!(lexer.needs_line());
    lexer.push_line("x = 1\n");
    assert!(!lexer.needs_line());
    assert_eq!(lexer.next(), Some(Token::Id));
    assert_eq!(lexer.next(), Some(Token::Assign));
    assert_eq!(lexer.next(), Some(Token::Integer));
    assert_eq!(lexer.next(), Some(Token::Newline));
    assert!(lexer.needs_line());
    lexer.push_line("\n\ty\n");
    assert_eq!(lexer.peek(), Some(Token::Tab));
    lexer.skip_indentation();
    assert_eq!(lexer.indentation(), 1);
    assert_eq!(lexer.next(), Some(Token::Id));
    assert_eq!(lexer.slice(), "y");
    assert_eq!(lexer.span(), 8..9);
    assert_eq!(lexer.source(), "x = 1\n\n\ty\n");
}
