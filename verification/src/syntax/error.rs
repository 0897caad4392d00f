use vstd::prelude::*;

use super::token::Token;
use crate::source_location::SourceSpan;
use vstd::std_specs::convert::FromSpecImpl;

verus! {

/// Diagnostic for invalid tokens: "invalid token"
#[derive(Debug, PartialEq, Eq)]
pub struct InvalidToken {
    /// Span of the token
    pub at: SourceSpan,
}

/// Diagnostic for unwanted extra tokens: "extra {token:?}"
#[derive(Debug, PartialEq, Eq)]
pub struct ExtraToken {
    /// Extra token
    pub token: Token,
    /// Span of the token
    pub at: SourceSpan,
}

/// Diagnostic for missing token
#[derive(Debug, PartialEq, Eq)]
pub struct MissingToken {
    /// Expected alternatives
    pub expected: Vec<Token>,
    /// Span of the token
    pub at: SourceSpan,
}

/// Diagnostic for unexpected token
#[derive(Debug, PartialEq, Eq)]
pub struct UnexpectedToken {
    /// Expected alternatives
    pub expected: Vec<Token>,
    /// Actual token
    pub got: Token,
    /// Span of the token
    pub at: SourceSpan,
}

/// Possible lexer errors
#[derive(Debug, PartialEq, Eq)]
pub enum LexerError {
    InvalidToken(InvalidToken),
    ExtraToken(ExtraToken),
    MissingToken(MissingToken),
    UnexpectedToken(UnexpectedToken),
}

/// Diagnostic for missing expressions: "missing expression"
#[derive(Debug, PartialEq, Eq)]
pub struct MissingExpression {
    /// Location, where expression was expected
    pub at: SourceSpan,
}

/// Diagnostic for missing declaration: "missing declaration"
#[derive(Debug, PartialEq, Eq)]
pub struct MissingDeclaration {
    /// Location, where declaration was expected
    pub at: SourceSpan,
}

/// Diagnostic for missing statement: "missing statement"
#[derive(Debug, PartialEq, Eq)]
pub struct MissingStatement {
    /// Location, where statement was expected
    pub at: SourceSpan,
}

/// Diagnostic for missing variable's name: "missing variable's name"
#[derive(Debug, PartialEq, Eq)]
pub struct MissingVariableName {
    /// Location, where name was expected
    pub at: SourceSpan,
}

/// Possible parser errors
#[derive(Debug, PartialEq, Eq)]
pub enum ParseError {
    LexerError(LexerError),
    MissingExpression(MissingExpression),
    MissingDeclaration(MissingDeclaration),
    MissingStatement(MissingStatement),
    MissingVariableName(MissingVariableName),
}

impl From<InvalidToken> for LexerError {
    fn from(v: InvalidToken) -> (r: Self) {
        LexerError::InvalidToken(v)
    }
}

impl FromSpecImpl<InvalidToken> for LexerError {
    open spec fn obeys_from_spec() -> bool {
        true
    }

    open spec fn from_spec(v: InvalidToken) -> Self {
        LexerError::InvalidToken(v)
    }
}

impl From<ExtraToken> for LexerError {
    fn from(v: ExtraToken) -> (r: Self) {
        LexerError::ExtraToken(v)
    }
}

impl FromSpecImpl<ExtraToken> for LexerError {
    open spec fn obeys_from_spec() -> bool {
        true
    }

    open spec fn from_spec(v: ExtraToken) -> Self {
        LexerError::ExtraToken(v)
    }
}

impl From<MissingToken> for LexerError {
    fn from(v: MissingToken) -> (r: Self) {
        LexerError::MissingToken(v)
    }
}

impl FromSpecImpl<MissingToken> for LexerError {
    open spec fn obeys_from_spec() -> bool {
        true
    }

    open spec fn from_spec(v: MissingToken) -> Self {
        LexerError::MissingToken(v)
    }
}

impl From<UnexpectedToken> for LexerError {
    fn from(v: UnexpectedToken) -> (r: Self) {
        LexerError::UnexpectedToken(v)
    }
}

impl FromSpecImpl<UnexpectedToken> for LexerError {
    open spec fn obeys_from_spec() -> bool {
        true
    }

    open spec fn from_spec(v: UnexpectedToken) -> Self {
        LexerError::UnexpectedToken(v)
    }
}

impl From<LexerError> for ParseError {
    fn from(v: LexerError) -> (r: Self) {
        ParseError::LexerError(v)
    }
}

impl FromSpecImpl<LexerError> for ParseError {
    open spec fn obeys_from_spec() -> bool {
        true
    }

    open spec fn from_spec(v: LexerError) -> Self {
        ParseError::LexerError(v)
    }
}

impl From<MissingExpression> for ParseError {
    fn from(v: MissingExpression) -> (r: Self) {
        ParseError::MissingExpression(v)
    }
}

impl FromSpecImpl<MissingExpression> for ParseError {
    open spec fn obeys_from_spec() -> bool {
        true
    }

    open spec fn from_spec(v: MissingExpression) -> Self {
        ParseError::MissingExpression(v)
    }
}

impl From<MissingDeclaration> for ParseError {
    fn from(v: MissingDeclaration) -> (r: Self) {
        ParseError::MissingDeclaration(v)
    }
}

impl FromSpecImpl<MissingDeclaration> for ParseError {
    open spec fn obeys_from_spec() -> bool {
        true
    }

    open spec fn from_spec(v: MissingDeclaration) -> Self {
        ParseError::MissingDeclaration(v)
    }
}

impl From<MissingStatement> for ParseError {
    fn from(v: MissingStatement) -> (r: Self) {
        ParseError::MissingStatement(v)
    }
}

impl FromSpecImpl<MissingStatement> for ParseError {
    open spec fn obeys_from_spec() -> bool {
        true
    }

    open spec fn from_spec(v: MissingStatement) -> Self {
        ParseError::MissingStatement(v)
    }
}

impl From<MissingVariableName> for ParseError {
    fn from(v: MissingVariableName) -> (r: Self) {
        ParseError::MissingVariableName(v)
    }
}

impl FromSpecImpl<MissingVariableName> for ParseError {
    open spec fn obeys_from_spec() -> bool {
        true
    }

    open spec fn from_spec(v: MissingVariableName) -> Self {
        ParseError::MissingVariableName(v)
    }
}

impl From<InvalidToken> for ParseError {
    fn from(v: InvalidToken) -> (r: Self) {
        ParseError::LexerError(LexerError::InvalidToken(v))
    }
}

impl FromSpecImpl<InvalidToken> for ParseError {
    open spec fn obeys_from_spec() -> bool {
        true
    }

    open spec fn from_spec(v: InvalidToken) -> Self {
        ParseError::LexerError(LexerError::InvalidToken(v))
    }
}

impl From<ExtraToken> for ParseError {
    fn from(v: ExtraToken) -> (r: Self) {
        ParseError::LexerError(LexerError::ExtraToken(v))
    }
}

impl FromSpecImpl<ExtraToken> for ParseError {
    open spec fn obeys_from_spec() -> bool {
        true
    }

    open spec fn from_spec(v: ExtraToken) -> Self {
        ParseError::LexerError(LexerError::ExtraToken(v))
    }
}

impl From<MissingToken> for ParseError {
    fn from(v: MissingToken) -> (r: Self) {
        ParseError::LexerError(LexerError::MissingToken(v))
    }
}

impl FromSpecImpl<MissingToken> for ParseError {
    open spec fn obeys_from_spec() -> bool {
        true
    }

    open spec fn from_spec(v: MissingToken) -> Self {
        ParseError::LexerError(LexerError::MissingToken(v))
    }
}

impl From<UnexpectedToken> for ParseError {
    fn from(v: UnexpectedToken) -> (r: Self) {
        ParseError::LexerError(LexerError::UnexpectedToken(v))
    }
}

impl FromSpecImpl<UnexpectedToken> for ParseError {
    open spec fn obeys_from_spec() -> bool {
        true
    }

    open spec fn from_spec(v: UnexpectedToken) -> Self {
        ParseError::LexerError(LexerError::UnexpectedToken(v))
    }
}
} // verus!
