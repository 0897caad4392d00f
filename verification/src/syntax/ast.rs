use vstd::prelude::*;
use vstd::string::StringExecFns;

use super::error::{ExtraToken, LexerError, MissingExpression, ParseError};
use super::lexer::{
    byte_span, contains_token, lemma_byte_spans, match_result, token_of, FullSourceLexer, Lexer,
};
use super::scan::Rule;
use super::stream::{
    advance, after_newline, byte_offset, initial_state, token_is, lemma_advance_valid, lemma_byte_offset_mono, lemma_byte_offset_step,
    lemma_lookahead_bounds, lookahead, lookahead_span, valid_state, Lexeme, LexerState,
};
use super::token::{same_token, Token};
use super::with_offset::WithOffset;
use crate::source_location::SourceSpan;

verus! {

/// AST for compile time known values
#[derive(Debug, PartialEq, Eq)]
pub enum Literal {
    /// None literal
    NoneLiteral { offset: usize },
    /// Any precision decimal integer literal
    Integer { offset: usize, value: String },
}

/// AST for variable reference
#[derive(Debug, PartialEq, Eq)]
pub struct VariableReference {
    /// Referenced variable name
    pub name: WithOffset<String>,
}

/// Any PPL expression
#[derive(Debug, PartialEq, Eq)]
pub enum Expression {
    Literal(Literal),
    VariableReference(VariableReference),
}

/// Declaration of the variable
#[derive(Debug, PartialEq, Eq)]
pub struct VariableDeclaration {
    /// Name of variable
    pub name: WithOffset<String>,
    /// Initializer for variable
    pub initializer: Expression,
    /// Is this variable mutable
    pub mutable: bool,
}

/// Any PPL declaration
#[derive(Debug, PartialEq, Eq)]
pub enum Declaration {
    Variable(VariableDeclaration),
}

/// AST for assignment
#[derive(Debug, PartialEq, Eq)]
pub struct Assignment {
    /// Target to assign to
    pub target: Expression,
    /// Expression to assign
    pub value: Expression,
}

/// Any PPL statement
#[derive(Debug, PartialEq, Eq)]
pub enum Statement {
    Declaration(Declaration),
    Expression(Expression),
    Assignment(Assignment),
}

/// The lexeme is the token `t`
pub open spec fn lexeme_is(l: Option<Lexeme>, t: Token) -> bool {
    l matches Some(l) && l.rule == Some(Rule::Literal(t))
}

/// The lexeme is of the rule `r`
pub open spec fn lexeme_rule(l: Option<Lexeme>, r: Rule) -> bool {
    l matches Some(l) && l.rule == Some(r)
}

/// `name` is the text and byte offset of the lexeme `l` of `s`
pub open spec fn name_is(name: WithOffset<String>, s: Seq<char>, l: Lexeme) -> bool {
    name.offset == byte_offset(s, l.start as int) && name.value@ == s.subrange(
        l.start as int,
        l.end as int,
    )
}

/// The lexer error of a failed match, as a parse error
pub open spec fn lexer_error(
    r: Result<Token, LexerError>,
    tokens: Seq<Token>,
    s: Seq<char>,
    st: LexerState,
) -> bool {
    r is Err && match_result(r, tokens, s, st)
}

/// Parsing a literal from `st` gives `r` and ends in `st2`
pub open spec fn parses_literal(
    s: Seq<char>,
    st: LexerState,
    r: Result<Literal, ParseError>,
    st2: LexerState,
) -> bool {
    let l = lookahead(s, st);
    if lexeme_is(l, Token::NoneLiteral) {
        r == Ok::<Literal, ParseError>(
            Literal::NoneLiteral { offset: byte_offset(s, l.unwrap().start as int) as usize },
        ) && st2 == advance(s, st)
    } else if lexeme_rule(l, Rule::Integer) {
        r matches Ok(Literal::Integer { offset, value }) && offset == byte_offset(
            s,
            l.unwrap().start as int,
        ) && value@ == s.subrange(l.unwrap().start as int, l.unwrap().end as int) && st2 == advance(
            s,
            st,
        )
    } else {
        r matches Err(ParseError::LexerError(e)) && lexer_error(
            Err(e),
            seq![Token::NoneLiteral, Token::Integer],
            s,
            st,
        ) && st2 == st
    }
}

/// Parsing a variable reference from `st` gives `r` and ends in `st2`
pub open spec fn parses_variable_reference(
    s: Seq<char>,
    st: LexerState,
    r: Result<VariableReference, ParseError>,
    st2: LexerState,
) -> bool {
    let l = lookahead(s, st);
    if lexeme_rule(l, Rule::Id) {
        r matches Ok(v) && name_is(v.name, s, l.unwrap()) && st2 == advance(s, st)
    } else {
        r matches Err(ParseError::LexerError(e)) && lexer_error(Err(e), seq![Token::Id], s, st)
            && st2 == st
    }
}

/// The next token can start an expression
pub open spec fn starts_expression(s: Seq<char>, st: LexerState) -> bool {
    let l = lookahead(s, st);
    lexeme_is(l, Token::NoneLiteral) || lexeme_rule(l, Rule::Integer) || lexeme_rule(l, Rule::Id)
}

/// Parsing an expression from `st` gives `r` and ends in `st2`
pub open spec fn parses_expression(
    s: Seq<char>,
    st: LexerState,
    r: Result<Expression, ParseError>,
    st2: LexerState,
) -> bool {
    let l = lookahead(s, st);
    if lexeme_is(l, Token::NoneLiteral) || lexeme_rule(l, Rule::Integer) {
        exists|lr: Result<Literal, ParseError>|
            parses_literal(s, st, lr, st2) && match lr {
                Ok(lit) => r == Ok::<Expression, ParseError>(Expression::Literal(lit)),
                Err(e) => r == Err::<Expression, ParseError>(e),
            }
    } else if lexeme_rule(l, Rule::Id) {
        exists|vr: Result<VariableReference, ParseError>|
            parses_variable_reference(s, st, vr, st2) && match vr {
                Ok(v) => r == Ok::<Expression, ParseError>(Expression::VariableReference(v)),
                Err(e) => r == Err::<Expression, ParseError>(e),
            }
    } else {
        r == Err::<Expression, ParseError>(
            ParseError::MissingExpression(
                MissingExpression {
                    at: SourceSpan { offset: (byte_offset(s, st.span.0 as int) - 1) as usize, length: 0 },
                },
            ),
        ) && st2 == st
    }
}

/// Parsing can report a missing expression at this state without going
/// before the start of the source
pub open spec fn can_parse_expression(s: Seq<char>, st: LexerState) -> bool {
    starts_expression(s, st) || byte_offset(s, st.span.0 as int) >= 1
}

/// A token that was taken after another one lies after the start of the
/// source, so parsing an expression there is always possible
pub proof fn lemma_after_token(s: Seq<char>, st: LexerState)
    requires
        valid_state(s, st),
        st.current is Some,
        lookahead(s, st) is Some,
    ensures
        can_parse_expression(s, advance(s, st)),
{
    lemma_lookahead_bounds(s, st.pos as int, after_newline(st));
    let n = advance(s, st);
    lemma_byte_offset_step(s, 0);
    lemma_byte_offset_mono(s, 1, n.span.0 as int);
}

/// Parsing a variable declaration (`let <id> = <expression>`) from `st`
/// gives `r` and ends in `st2`
pub open spec fn parses_variable_declaration(
    s: Seq<char>,
    st: LexerState,
    r: Result<VariableDeclaration, ParseError>,
    st2: LexerState,
) -> bool {
    let l0 = lookahead(s, st);
    if !lexeme_is(l0, Token::Let) {
        r matches Err(ParseError::LexerError(e)) && lexer_error(Err(e), seq![Token::Let], s, st)
            && st2 == st
    } else {
        let st1 = advance(s, st);
        let l1 = lookahead(s, st1);
        if !lexeme_rule(l1, Rule::Id) {
            r matches Err(ParseError::LexerError(e)) && lexer_error(Err(e), seq![Token::Id], s, st1)
                && st2 == st1
        } else {
            let st_name = advance(s, st1);
            let l2 = lookahead(s, st_name);
            if !lexeme_is(l2, Token::Assign) {
                r matches Err(ParseError::LexerError(e)) && lexer_error(
                    Err(e),
                    seq![Token::Assign],
                    s,
                    st_name,
                ) && st2 == st_name
            } else {
                exists|er: Result<Expression, ParseError>|
                    parses_expression(s, advance(s, st_name), er, st2) && match er {
                        Ok(e) => r matches Ok(d) && name_is(d.name, s, l1.unwrap()) && d.initializer
                            == e && !d.mutable,
                        Err(e) => r == Err::<VariableDeclaration, ParseError>(e),
                    }
            }
        }
    }
}

/// Parsing an assignment (`<expression> = <expression>`) from `st` gives `r`
/// and ends in `st2`
pub open spec fn parses_assignment(
    s: Seq<char>,
    st: LexerState,
    r: Result<Assignment, ParseError>,
    st2: LexerState,
) -> bool {
    exists|er: Result<Expression, ParseError>, st1: LexerState|
        parses_expression(s, st, er, st1) && match er {
            Err(e) => r == Err::<Assignment, ParseError>(e) && st2 == st1,
            Ok(target) => if lexeme_is(lookahead(s, st1), Token::Assign) {
                exists|vr: Result<Expression, ParseError>|
                    parses_expression(s, advance(s, st1), vr, st2) && match vr {
                        Ok(v) => r == Ok::<Assignment, ParseError>(
                            Assignment { target, value: v },
                        ),
                        Err(e) => r == Err::<Assignment, ParseError>(e),
                    }
            } else {
                r matches Err(ParseError::LexerError(e)) && lexer_error(
                    Err(e),
                    seq![Token::Assign],
                    s,
                    st1,
                ) && st2 == st1
            },
        }
}

/// Parsing a statement from `st` gives `r` and ends in `st2`: a declaration
/// when the next token is `let`, else an expression, followed by `=` and a
/// second expression for an assignment
pub open spec fn parses_statement(
    s: Seq<char>,
    st: LexerState,
    r: Result<Statement, ParseError>,
    st2: LexerState,
) -> bool {
    if lexeme_is(lookahead(s, st), Token::Let) {
        exists|dr: Result<VariableDeclaration, ParseError>|
            parses_variable_declaration(s, st, dr, st2) && match dr {
                Ok(d) => r == Ok::<Statement, ParseError>(
                    Statement::Declaration(Declaration::Variable(d)),
                ),
                Err(e) => r == Err::<Statement, ParseError>(e),
            }
    } else if starts_expression(s, st) {
        exists|er: Result<Expression, ParseError>, st1: LexerState|
            parses_expression(s, st, er, st1) && match er {
                Err(e) => r == Err::<Statement, ParseError>(e) && st2 == st1,
                Ok(target) => if lexeme_is(lookahead(s, st1), Token::Assign) {
                    exists|vr: Result<Expression, ParseError>|
                        parses_expression(s, advance(s, st1), vr, st2) && match vr {
                            Ok(v) => r == Ok::<Statement, ParseError>(
                                Statement::Assignment(Assignment { target, value: v }),
                            ),
                            Err(e) => r == Err::<Statement, ParseError>(e),
                        }
                } else {
                    r == Ok::<Statement, ParseError>(Statement::Expression(target)) && st2 == st1
                },
            }
    } else {
        r matches Err(ParseError::LexerError(e)) && lexer_error(
            Err(e),
            seq![Token::NoneLiteral, Token::Integer, Token::Id, Token::Let],
            s,
            st,
        ) && st2 == st
    }
}

/// Parsing the whole source: the item, then nothing more. A token left over
/// is reported as an extra token.
pub open spec fn parses_whole<T>(s: Seq<char>, first: Result<T, ParseError>, st: LexerState, r: Result<T, ParseError>) -> bool {
    match first {
        Err(e) => r == Err::<T, ParseError>(e),
        Ok(v) => match lookahead(s, st) {
            Some(l) => r matches Err(ParseError::LexerError(LexerError::ExtraToken(x))) && token_is(
                x.token,
                s,
                l,
            ) && x.at == byte_span(s, lookahead_span(s, st)),
            Option::None => r == Ok::<T, ParseError>(v),
        },
    }
}

impl Literal {
    /// Parse literal using lexer
    pub fn parse<L: Lexer>(lexer: &mut L) -> (r: Result<Self, ParseError>)
        requires
            old(lexer).wf(),
        ensures
            final(lexer).wf(),
            final(lexer).text() == old(lexer).text(),
            old(lexer).state().pos <= final(lexer).state().pos,
            r is Ok ==> old(lexer).state().pos < final(lexer).state().pos,
            parses_literal(old(lexer).text(), old(lexer).state(), r, final(lexer).state()),
    {
        let tokens = vec![Token::NoneLiteral, Token::Integer];
        proof {
            assert(tokens@ =~= seq![Token::NoneLiteral, Token::Integer]);
            lexer.lemma_wf();
            lemma_lookahead_bounds(lexer.text(), lexer.state().pos as int, after_newline(lexer.state()));
            lemma_advance_valid(lexer.text(), lexer.state());
        }
        let token = match lexer.consume_one_of(tokens.as_slice()) {
            Ok(t) => t,
            Err(e) => {
                return Err(ParseError::LexerError(e));
            },
        };
        let offset = lexer.span().start;
        match token {
            Token::NoneLiteral => Ok(Literal::NoneLiteral { offset }),
            _ => Ok(Literal::Integer { offset, value: String::from_str(lexer.slice()) }),
        }
    }
}

impl VariableReference {
    /// Parse variable reference using lexer
    pub fn parse<L: Lexer>(lexer: &mut L) -> (r: Result<Self, ParseError>)
        requires
            old(lexer).wf(),
        ensures
            final(lexer).wf(),
            final(lexer).text() == old(lexer).text(),
            old(lexer).state().pos <= final(lexer).state().pos,
            r is Ok ==> old(lexer).state().pos < final(lexer).state().pos,
            parses_variable_reference(
                old(lexer).text(),
                old(lexer).state(),
                r,
                final(lexer).state(),
            ),
    {
        proof {
            lexer.lemma_wf();
            lemma_lookahead_bounds(lexer.text(), lexer.state().pos as int, after_newline(lexer.state()));
            lemma_advance_valid(lexer.text(), lexer.state());
        }
        match lexer.consume(Token::Id) {
            Ok(_) => {},
            Err(e) => {
                proof {
                    assert(same_token(seq![Token::Id][0], Token::Id));
                    assert(contains_token(seq![Token::Id], Token::Id));
                }
                return Err(ParseError::LexerError(e));
            },
        }
        let offset = lexer.span().start;
        let name = String::from_str(lexer.slice());
        Ok(VariableReference { name: WithOffset { offset, value: name } })
    }
}

impl Expression {
    /// Parse expression using lexer
    pub fn parse<L: Lexer>(lexer: &mut L) -> (r: Result<Self, ParseError>)
        requires
            old(lexer).wf(),
            can_parse_expression(old(lexer).text(), old(lexer).state()),
        ensures
            final(lexer).wf(),
            final(lexer).text() == old(lexer).text(),
            old(lexer).state().pos <= final(lexer).state().pos,
            r is Ok ==> old(lexer).state().pos < final(lexer).state().pos,
            parses_expression(old(lexer).text(), old(lexer).state(), r, final(lexer).state()),
    {
        proof {
            lexer.lemma_wf();
            lemma_lookahead_bounds(lexer.text(), lexer.state().pos as int, after_newline(lexer.state()));
            lemma_advance_valid(lexer.text(), lexer.state());
        }
        let tokens = vec![Token::NoneLiteral, Token::Integer, Token::Id];
        let token = match lexer.try_match_one_of(tokens.as_slice()) {
            Ok(t) => t,
            Err(_) => {
                let at = SourceSpan::at_offset(lexer.span().start - 1);
                return Err(ParseError::MissingExpression(MissingExpression { at }));
            },
        };
        match token {
            Token::Id => {
                let r = VariableReference::parse(lexer);
                match r {
                    Ok(v) => Ok(Expression::VariableReference(v)),
                    Err(e) => Err(e),
                }
            },
            _ => {
                let r = Literal::parse(lexer);
                match r {
                    Ok(lit) => Ok(Expression::Literal(lit)),
                    Err(e) => Err(e),
                }
            },
        }
    }
}

impl VariableDeclaration {
    /// Is this a mutable variable?
    pub fn is_mutable(&self) -> (b: bool)
        ensures
            b == self.mutable,
    {
        self.mutable
    }

    /// Is this an immutable variable?
    pub fn is_immutable(&self) -> (b: bool)
        ensures
            b == !self.mutable,
    {
        !self.is_mutable()
    }

    /// Parse variable declaration using lexer
    #[verifier::rlimit(60)]
    pub fn parse<L: Lexer>(lexer: &mut L) -> (r: Result<Self, ParseError>)
        requires
            old(lexer).wf(),
        ensures
            final(lexer).wf(),
            final(lexer).text() == old(lexer).text(),
            old(lexer).state().pos <= final(lexer).state().pos,
            r is Ok ==> old(lexer).state().pos < final(lexer).state().pos,
            parses_variable_declaration(
                old(lexer).text(),
                old(lexer).state(),
                r,
                final(lexer).state(),
            ),
    {
        let ghost s = lexer.text();
        proof {
            lexer.lemma_wf();
            lemma_lookahead_bounds(s, lexer.state().pos as int, after_newline(lexer.state()));
            assert(same_token(seq![Token::Let][0], Token::Let));
            assert(same_token(seq![Token::Id][0], Token::Id));
            assert(same_token(seq![Token::Assign][0], Token::Assign));
        }
        match lexer.consume(Token::Let) {
            Ok(_) => {},
            Err(e) => {
                return Err(ParseError::LexerError(e));
            },
        }
        let ghost st1 = lexer.state();
        proof {
            lexer.lemma_wf();
            lemma_lookahead_bounds(s, st1.pos as int, after_newline(st1));
        }
        match lexer.consume(Token::Id) {
            Ok(_) => {},
            Err(e) => {
                return Err(ParseError::LexerError(e));
            },
        }
        let name = WithOffset { value: String::from_str(lexer.slice()), offset: lexer.span().start };
        let ghost st_name = lexer.state();
        proof {
            lexer.lemma_wf();
            lemma_lookahead_bounds(s, st_name.pos as int, after_newline(st_name));
        }
        match lexer.consume(Token::Assign) {
            Ok(_) => {},
            Err(e) => {
                return Err(ParseError::LexerError(e));
            },
        }
        proof {
            lemma_after_token(s, st_name);
        }
        let ghost st3 = lexer.state();
        let initializer = Expression::parse(lexer);
        let ghost er = initializer;
        match initializer {
            Ok(initializer) => {
                let d = VariableDeclaration { name, initializer, mutable: false };
                proof {
                    assert(parses_expression(s, st3, er, lexer.state()));
                }
                Ok(d)
            },
            Err(e) => {
                proof {
                    assert(parses_expression(s, st3, er, lexer.state()));
                }
                Err(e)
            },
        }
    }
}

impl Declaration {
    /// Parse declaration using lexer
    pub fn parse<L: Lexer>(lexer: &mut L) -> (r: Result<Self, ParseError>)
        requires
            old(lexer).wf(),
        ensures
            final(lexer).wf(),
            final(lexer).text() == old(lexer).text(),
            old(lexer).state().pos <= final(lexer).state().pos,
            r is Ok ==> old(lexer).state().pos < final(lexer).state().pos,
            exists|dr: Result<VariableDeclaration, ParseError>|
                parses_variable_declaration(
                    old(lexer).text(),
                    old(lexer).state(),
                    dr,
                    final(lexer).state(),
                ) && match dr {
                    Ok(d) => r == Ok::<Declaration, ParseError>(Declaration::Variable(d)),
                    Err(e) => r == Err::<Declaration, ParseError>(e),
                },
    {
        let ghost s = lexer.text();
        let ghost st = lexer.state();
        let dr = VariableDeclaration::parse(lexer);
        let ghost g = dr;
        proof {
            assert(parses_variable_declaration(s, st, g, lexer.state()));
        }
        match dr {
            Ok(d) => Ok(Declaration::Variable(d)),
            Err(e) => Err(e),
        }
    }
}

impl Assignment {
    /// Parse assignment using lexer
    pub fn parse<L: Lexer>(lexer: &mut L) -> (r: Result<Self, ParseError>)
        requires
            old(lexer).wf(),
            can_parse_expression(old(lexer).text(), old(lexer).state()),
        ensures
            final(lexer).wf(),
            final(lexer).text() == old(lexer).text(),
            old(lexer).state().pos <= final(lexer).state().pos,
            r is Ok ==> old(lexer).state().pos < final(lexer).state().pos,
            parses_assignment(old(lexer).text(), old(lexer).state(), r, final(lexer).state()),
    {
        let ghost s = lexer.text();
        let ghost st = lexer.state();
        let target = Expression::parse(lexer);
        let ghost er = target;
        let ghost st1 = lexer.state();
        proof {
            assert(parses_expression(s, st, er, st1));
            lexer.lemma_wf();
            lemma_lookahead_bounds(s, st1.pos as int, after_newline(st1));
            assert(same_token(seq![Token::Assign][0], Token::Assign));
        }
        let target = match target {
            Ok(t) => t,
            Err(e) => {
                return Err(e);
            },
        };
        match lexer.consume(Token::Assign) {
            Ok(_) => {},
            Err(e) => {
                return Err(ParseError::LexerError(e));
            },
        }
        proof {
            lemma_after_token(s, st1);
        }
        let ghost st2 = lexer.state();
        let value = Expression::parse(lexer);
        let ghost vr = value;
        proof {
            assert(parses_expression(s, st2, vr, lexer.state()));
        }
        match value {
            Ok(value) => Ok(Assignment { target, value }),
            Err(e) => Err(e),
        }
    }
}

impl Statement {
    /// Parse statement using lexer
    pub fn parse<L: Lexer>(lexer: &mut L) -> (r: Result<Self, ParseError>)
        requires
            old(lexer).wf(),
        ensures
            final(lexer).wf(),
            final(lexer).text() == old(lexer).text(),
            old(lexer).state().pos <= final(lexer).state().pos,
            r is Ok ==> old(lexer).state().pos < final(lexer).state().pos,
            parses_statement(old(lexer).text(), old(lexer).state(), r, final(lexer).state()),
    {
        let ghost s = lexer.text();
        let ghost st = lexer.state();
        proof {
            lexer.lemma_wf();
            lemma_lookahead_bounds(s, st.pos as int, after_newline(st));
        }
        let tokens = vec![Token::NoneLiteral, Token::Integer, Token::Id, Token::Let];
        proof {
            assert(tokens@ =~= seq![Token::NoneLiteral, Token::Integer, Token::Id, Token::Let]);
        }
        let token = match lexer.try_match_one_of(tokens.as_slice()) {
            Ok(t) => t,
            Err(e) => {
                return Err(ParseError::LexerError(e));
            },
        };
        match token {
            Token::Let => {
                let dr = VariableDeclaration::parse(lexer);
                let ghost g = dr;
                proof {
                    assert(parses_variable_declaration(s, st, g, lexer.state()));
                }
                match dr {
                    Ok(d) => Ok(Statement::Declaration(Declaration::Variable(d))),
                    Err(e) => Err(e),
                }
            },
            _ => {
                let target = Expression::parse(lexer);
                let ghost er = target;
                let ghost st1 = lexer.state();
                proof {
                    assert(parses_expression(s, st, er, st1));
                    lexer.lemma_wf();
                    lemma_lookahead_bounds(s, st1.pos as int, after_newline(st1));
                }
                let target = match target {
                    Ok(t) => t,
                    Err(e) => {
                        return Err(e);
                    },
                };
                let next = lexer.peek();
                let assign = match next {
                    Some(Token::Assign) => true,
                    _ => false,
                };
                if !assign {
                    return Ok(Statement::Expression(target));
                }
                lexer.next();
                proof {
                    lemma_after_token(s, st1);
                }
                let ghost st2 = lexer.state();
                let value = Expression::parse(lexer);
                let ghost vr = value;
                proof {
                    assert(parses_expression(s, st2, vr, lexer.state()));
                }
                match value {
                    Ok(value) => Ok(Statement::Assignment(Assignment { target, value })),
                    Err(e) => Err(e),
                }
            },
        }
    }
}

/// The error for a token left over after a whole item was parsed
fn check_end<L: Lexer>(lexer: &mut L) -> (r: Option<ParseError>)
    requires
        old(lexer).wf(),
    ensures
        final(lexer).wf(),
        final(lexer).text() == old(lexer).text(),
        final(lexer).state() == old(lexer).state(),
        match lookahead(old(lexer).text(), old(lexer).state()) {
            Some(l) => r matches Some(ParseError::LexerError(LexerError::ExtraToken(x))) && token_is(
                x.token,
                old(lexer).text(),
                l,
            ) && x.at == byte_span(old(lexer).text(), lookahead_span(old(lexer).text(), old(lexer).state())),
            Option::None => r is None,
        },
{
    proof {
        lexer.lemma_wf();
        lemma_byte_spans(lexer.text(), lexer.state());
    }
    match lexer.peek() {
        Some(token) => {
            let span = lexer.peek_span();
            let at = SourceSpan::from_range(span.start, span.end);
            Some(ParseError::LexerError(LexerError::ExtraToken(ExtraToken { token, at })))
        },
        Option::None => Option::None,
    }
}

impl Literal {
    /// Parse the whole `source` as one item
    pub fn from_source(source: &str) -> (r: Result<Self, ParseError>)
        ensures
            exists|first: Result<Literal, ParseError>, st: LexerState|
                parses_literal(source@, initial_state(), first, st) && parses_whole(
                    source@,
                    first,
                    st,
                    r,
                ),
    {
        let mut lexer = FullSourceLexer::new(source);
        proof {
            lexer.lemma_wf();
            assert(byte_offset(source@, 0) == 0) by {
                assert(source@.take(0) =~= Seq::<char>::empty());
            }
        }
        let first = Literal::parse(&mut lexer);
        let ghost g = first;
        let ghost st = lexer.state();
        let r = match first {
            Err(e) => Err(e),
            Ok(v) => match check_end(&mut lexer) {
                Some(e) => Err(e),
                Option::None => Ok(v),
            },
        };
        proof {
            assert(parses_literal(source@, initial_state(), g, st) && parses_whole(source@, g, st, r));
        }
        r
    }
}

impl std::str::FromStr for Literal {
    type Err = ParseError;

    /// Parse the whole `s` as one item
    fn from_str(s: &str) -> (r: Result<Self, Self::Err>)
        ensures
            exists|first: Result<Literal, ParseError>, st: LexerState|
                parses_literal(s@, initial_state(), first, st) && parses_whole(s@, first, st, r),
    {
        Literal::from_source(s)
    }
}

impl VariableReference {
    /// Parse the whole `source` as one item
    pub fn from_source(source: &str) -> (r: Result<Self, ParseError>)
        ensures
            exists|first: Result<VariableReference, ParseError>, st: LexerState|
                parses_variable_reference(source@, initial_state(), first, st) && parses_whole(
                    source@,
                    first,
                    st,
                    r,
                ),
    {
        let mut lexer = FullSourceLexer::new(source);
        proof {
            lexer.lemma_wf();
            assert(byte_offset(source@, 0) == 0) by {
                assert(source@.take(0) =~= Seq::<char>::empty());
            }
        }
        let first = VariableReference::parse(&mut lexer);
        let ghost g = first;
        let ghost st = lexer.state();
        let r = match first {
            Err(e) => Err(e),
            Ok(v) => match check_end(&mut lexer) {
                Some(e) => Err(e),
                Option::None => Ok(v),
            },
        };
        proof {
            assert(parses_variable_reference(source@, initial_state(), g, st) && parses_whole(source@, g, st, r));
        }
        r
    }
}

impl std::str::FromStr for VariableReference {
    type Err = ParseError;

    /// Parse the whole `s` as one item
    fn from_str(s: &str) -> (r: Result<Self, Self::Err>)
        ensures
            exists|first: Result<VariableReference, ParseError>, st: LexerState|
                parses_variable_reference(s@, initial_state(), first, st) && parses_whole(s@, first, st, r),
    {
        VariableReference::from_source(s)
    }
}

impl Expression {
    /// Parse the whole `source` as one item
    pub fn from_source(source: &str) -> (r: Result<Self, ParseError>)
        requires
            starts_expression(source@, initial_state()),
        ensures
            exists|first: Result<Expression, ParseError>, st: LexerState|
                parses_expression(source@, initial_state(), first, st) && parses_whole(
                    source@,
                    first,
                    st,
                    r,
                ),
    {
        let mut lexer = FullSourceLexer::new(source);
        proof {
            lexer.lemma_wf();
            assert(byte_offset(source@, 0) == 0) by {
                assert(source@.take(0) =~= Seq::<char>::empty());
            }
        }
        let first = Expression::parse(&mut lexer);
        let ghost g = first;
        let ghost st = lexer.state();
        let r = match first {
            Err(e) => Err(e),
            Ok(v) => match check_end(&mut lexer) {
                Some(e) => Err(e),
                Option::None => Ok(v),
            },
        };
        proof {
            assert(parses_expression(source@, initial_state(), g, st) && parses_whole(source@, g, st, r));
        }
        r
    }
}

impl VariableDeclaration {
    /// Parse the whole `source` as one item
    pub fn from_source(source: &str) -> (r: Result<Self, ParseError>)
        ensures
            exists|first: Result<VariableDeclaration, ParseError>, st: LexerState|
                parses_variable_declaration(source@, initial_state(), first, st) && parses_whole(
                    source@,
                    first,
                    st,
                    r,
                ),
    {
        let mut lexer = FullSourceLexer::new(source);
        proof {
            lexer.lemma_wf();
            assert(byte_offset(source@, 0) == 0) by {
                assert(source@.take(0) =~= Seq::<char>::empty());
            }
        }
        let first = VariableDeclaration::parse(&mut lexer);
        let ghost g = first;
        let ghost st = lexer.state();
        let r = match first {
            Err(e) => Err(e),
            Ok(v) => match check_end(&mut lexer) {
                Some(e) => Err(e),
                Option::None => Ok(v),
            },
        };
        proof {
            assert(parses_variable_declaration(source@, initial_state(), g, st) && parses_whole(source@, g, st, r));
        }
        r
    }
}

impl std::str::FromStr for VariableDeclaration {
    type Err = ParseError;

    /// Parse the whole `s` as one item
    fn from_str(s: &str) -> (r: Result<Self, Self::Err>)
        ensures
            exists|first: Result<VariableDeclaration, ParseError>, st: LexerState|
                parses_variable_declaration(s@, initial_state(), first, st) && parses_whole(s@, first, st, r),
    {
        VariableDeclaration::from_source(s)
    }
}

impl Assignment {
    /// Parse the whole `source` as one item
    pub fn from_source(source: &str) -> (r: Result<Self, ParseError>)
        requires
            starts_expression(source@, initial_state()),
        ensures
            exists|first: Result<Assignment, ParseError>, st: LexerState|
                parses_assignment(source@, initial_state(), first, st) && parses_whole(
                    source@,
                    first,
                    st,
                    r,
                ),
    {
        let mut lexer = FullSourceLexer::new(source);
        proof {
            lexer.lemma_wf();
            assert(byte_offset(source@, 0) == 0) by {
                assert(source@.take(0) =~= Seq::<char>::empty());
            }
        }
        let first = Assignment::parse(&mut lexer);
        let ghost g = first;
        let ghost st = lexer.state();
        let r = match first {
            Err(e) => Err(e),
            Ok(v) => match check_end(&mut lexer) {
                Some(e) => Err(e),
                Option::None => Ok(v),
            },
        };
        proof {
            assert(parses_assignment(source@, initial_state(), g, st) && parses_whole(source@, g, st, r));
        }
        r
    }
}

impl Statement {
    /// Parse the whole `source` as one item
    pub fn from_source(source: &str) -> (r: Result<Self, ParseError>)
        ensures
            exists|first: Result<Statement, ParseError>, st: LexerState|
                parses_statement(source@, initial_state(), first, st) && parses_whole(
                    source@,
                    first,
                    st,
                    r,
                ),
    {
        let mut lexer = FullSourceLexer::new(source);
        proof {
            lexer.lemma_wf();
            assert(byte_offset(source@, 0) == 0) by {
                assert(source@.take(0) =~= Seq::<char>::empty());
            }
        }
        let first = Statement::parse(&mut lexer);
        let ghost g = first;
        let ghost st = lexer.state();
        let r = match first {
            Err(e) => Err(e),
            Ok(v) => match check_end(&mut lexer) {
                Some(e) => Err(e),
                Option::None => Ok(v),
            },
        };
        proof {
            assert(parses_statement(source@, initial_state(), g, st) && parses_whole(source@, g, st, r));
        }
        r
    }
}

impl std::str::FromStr for Statement {
    type Err = ParseError;

    /// Parse the whole `s` as one item
    fn from_str(s: &str) -> (r: Result<Self, Self::Err>)
        ensures
            exists|first: Result<Statement, ParseError>, st: LexerState|
                parses_statement(s@, initial_state(), first, st) && parses_whole(s@, first, st, r),
    {
        Statement::from_source(s)
    }
}

} // verus!
