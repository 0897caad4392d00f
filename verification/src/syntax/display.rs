use vstd::prelude::*;
use vstd::string::StringExecFns;

use super::error::{
    ExtraToken, InvalidToken, LexerError, MissingToken, ParseError, UnexpectedToken,
};
use super::lexer::match_result;
use super::stream::LexerState;
use super::keyword::is_keyword;
use super::token::{literal_text, OperatorKind, Token};

verus! {

/// The text that debug formatting gives for a string: the string in double
/// quotes, with its special characters escaped
pub uninterp spec fn debug_str(s: Seq<char>) -> Seq<char>;

/// The lowercase form of a string, by the Unicode rules
pub uninterp spec fn lowercase(s: Seq<char>) -> Seq<char>;

/// Debug formatting of a string slice (`format!("{:?}", s)`): the result is
/// `debug_str` of the text, which nothing here spells out.
#[verifier::external_body]
fn str_debug(s: &str) -> (r: String)
    ensures
        r@ == debug_str(s@),
{
    format!("{:?}", s)
}

/// A character in lowercase by the ASCII rule: `A`..`Z` become `a`..`z`
pub open spec fn ascii_lower_char(c: char) -> char {
    if 'A' <= c <= 'Z' {
        ((c as u32) + 32) as char
    } else {
        c
    }
}

/// Text in lowercase by the ASCII rule
pub open spec fn ascii_lower(s: Seq<char>) -> Seq<char> {
    s.map_values(|c: char| ascii_lower_char(c))
}

/// `str::to_lowercase`: the result is `lowercase` of the text, which nothing
/// here spells out beyond ASCII text, whose letters `A`..`Z` become `a`..`z`
/// and whose other characters stay.
#[verifier::external_body]
fn str_to_lowercase(s: &str) -> (r: String)
    ensures
        r@ == lowercase(s@),
        vstd::utf8::is_ascii_chars(s@) ==> r@ == ascii_lower(s@),
{
    s.to_lowercase()
}

/// Name of an operator kind
pub open spec fn kind_name(k: OperatorKind) -> Seq<char> {
    match k {
        OperatorKind::Prefix => "Prefix"@,
        OperatorKind::Infix => "Infix"@,
        OperatorKind::Postfix => "Postfix"@,
    }
}

/// Debug text of a token: its name, with the operator kind or the escaped
/// identifier's text in brackets
pub open spec fn debug_text_of(t: Token) -> Seq<char> {
    match t {
        Token::NoneLiteral => "None"@,
        Token::Integer => "Integer"@,
        Token::Assign => "Assign"@,
        Token::Id => "Id"@,
        Token::Let => "Let"@,
        Token::Mut => "Mut"@,
        Token::Type => "Type"@,
        Token::Newline => "Newline"@,
        Token::Colon => "Colon"@,
        Token::Less => "Less"@,
        Token::Greater => "Greater"@,
        Token::Fn => "Fn"@,
        Token::Arrow => "Arrow"@,
        Token::FatArrow => "FatArrow"@,
        Token::String => "String"@,
        Token::At => "At"@,
        Token::LParen => "LParen"@,
        Token::RParen => "RParen"@,
        Token::Comma => "Comma"@,
        Token::Tab => "Tab"@,
        Token::Return => "Return"@,
        Token::If => "If"@,
        Token::Else => "Else"@,
        Token::True => "True"@,
        Token::False => "False"@,
        Token::Loop => "Loop"@,
        Token::While => "While"@,
        Token::Trait => "Trait"@,
        Token::Dot => "Dot"@,
        Token::LBrace => "LBrace"@,
        Token::RBrace => "RBrace"@,
        Token::Rational => "Rational"@,
        Token::Use => "Use"@,
        Token::Error => "Error"@,
        Token::Operator(k) => "Operator("@ + kind_name(k) + ")"@,
        Token::EscapedId(x) => "EscapedId("@ + debug_str(x@) + ")"@,
    }
}

/// Display text of a token: punctuation as written, anything else as its
/// debug text in lowercase
pub open spec fn display_text_of(t: Token) -> Seq<char> {
    match t {
        Token::Assign => "="@,
        Token::Colon => ":"@,
        Token::Less => "<"@,
        Token::Greater => ">"@,
        Token::Arrow => "->"@,
        Token::FatArrow => "=>"@,
        Token::At => "@"@,
        Token::LParen => "("@,
        Token::RParen => ")"@,
        Token::LBrace => "{"@,
        Token::RBrace => "}"@,
        Token::Dot => "."@,
        Token::Comma => ","@,
        _ => lowercase(debug_text_of(t)),
    }
}

/// The token is shown by its debug name in lowercase, not as punctuation
pub open spec fn shown_by_name(t: Token) -> bool {
    !(t is Assign || t is Colon || t is Less || t is Greater || t is Arrow || t is FatArrow || t is At
        || t is LParen || t is RParen || t is LBrace || t is RBrace || t is Dot || t is Comma)
}

/// The debug name of a keyword token is ASCII, and in lowercase it is the
/// keyword's text
pub proof fn lemma_keyword_debug_text(t: Token)
    requires
        is_keyword(t),
    ensures
        vstd::utf8::is_ascii_chars(debug_text_of(t)),
        ascii_lower(debug_text_of(t)) == literal_text(t).unwrap(),
{
    let d = debug_text_of(t);
    match t {
        Token::NoneLiteral => { reveal_strlit("None"); },
        Token::Let => { reveal_strlit("Let"); },
        Token::Mut => { reveal_strlit("Mut"); },
        Token::Type => { reveal_strlit("Type"); },
        Token::Fn => { reveal_strlit("Fn"); },
        Token::Return => { reveal_strlit("Return"); },
        Token::If => { reveal_strlit("If"); },
        Token::Else => { reveal_strlit("Else"); },
        Token::True => { reveal_strlit("True"); },
        Token::False => { reveal_strlit("False"); },
        Token::Loop => { reveal_strlit("Loop"); },
        Token::While => { reveal_strlit("While"); },
        Token::Trait => { reveal_strlit("Trait"); },
        Token::Use => { reveal_strlit("Use"); },
        _ => {},
    }
    assert(ascii_lower(d) =~= literal_text(t).unwrap());
}

impl Token {
    /// Debug text of the token
    pub fn debug_text(&self) -> (s: String)
        ensures
            s@ == debug_text_of(*self),
    {
        match self {
            Token::NoneLiteral => String::from_str("None"),
            Token::Integer => String::from_str("Integer"),
            Token::Assign => String::from_str("Assign"),
            Token::Id => String::from_str("Id"),
            Token::Let => String::from_str("Let"),
            Token::Mut => String::from_str("Mut"),
            Token::Type => String::from_str("Type"),
            Token::Newline => String::from_str("Newline"),
            Token::Colon => String::from_str("Colon"),
            Token::Less => String::from_str("Less"),
            Token::Greater => String::from_str("Greater"),
            Token::Fn => String::from_str("Fn"),
            Token::Arrow => String::from_str("Arrow"),
            Token::FatArrow => String::from_str("FatArrow"),
            Token::String => String::from_str("String"),
            Token::At => String::from_str("At"),
            Token::LParen => String::from_str("LParen"),
            Token::RParen => String::from_str("RParen"),
            Token::Comma => String::from_str("Comma"),
            Token::Tab => String::from_str("Tab"),
            Token::Return => String::from_str("Return"),
            Token::If => String::from_str("If"),
            Token::Else => String::from_str("Else"),
            Token::True => String::from_str("True"),
            Token::False => String::from_str("False"),
            Token::Loop => String::from_str("Loop"),
            Token::While => String::from_str("While"),
            Token::Trait => String::from_str("Trait"),
            Token::Dot => String::from_str("Dot"),
            Token::LBrace => String::from_str("LBrace"),
            Token::RBrace => String::from_str("RBrace"),
            Token::Rational => String::from_str("Rational"),
            Token::Use => String::from_str("Use"),
            Token::Error => String::from_str("Error"),
            Token::Operator(k) => {
                let mut s = String::from_str("Operator(");
                match k {
                    OperatorKind::Prefix => s.append("Prefix"),
                    OperatorKind::Infix => s.append("Infix"),
                    OperatorKind::Postfix => s.append("Postfix"),
                }
                s.append(")");
                s
            },
            Token::EscapedId(x) => {
                let mut s = String::from_str("EscapedId(");
                let d = str_debug(x.as_str());
                s.append(d.as_str());
                s.append(")");
                s
            },
        }
    }

    /// Display text of the token
    pub fn to_string(&self) -> (s: String)
        ensures
            s@ == display_text_of(*self),
            is_keyword(*self) ==> s@ == literal_text(*self).unwrap(),
            shown_by_name(*self) && vstd::utf8::is_ascii_chars(debug_text_of(*self)) ==> s@ == ascii_lower(
                debug_text_of(*self),
            ),
    {
        match self {
            Token::Assign => String::from_str("="),
            Token::Colon => String::from_str(":"),
            Token::Less => String::from_str("<"),
            Token::Greater => String::from_str(">"),
            Token::Arrow => String::from_str("->"),
            Token::FatArrow => String::from_str("=>"),
            Token::At => String::from_str("@"),
            Token::LParen => String::from_str("("),
            Token::RParen => String::from_str(")"),
            Token::LBrace => String::from_str("{"),
            Token::RBrace => String::from_str("}"),
            Token::Dot => String::from_str("."),
            Token::Comma => String::from_str(","),
            _ => {
                let d = self.debug_text();
                proof {
                    if is_keyword(*self) {
                        lemma_keyword_debug_text(*self);
                    }
                }
                str_to_lowercase(d.as_str())
            },
        }
    }
}

/// Display texts of the tokens, joined by " | "
pub open spec fn joined(ts: Seq<Token>) -> Seq<char>
    decreases ts.len(),
{
    if ts.len() == 0 {
        Seq::empty()
    } else if ts.len() == 1 {
        display_text_of(ts[0])
    } else {
        joined(ts.drop_last()) + " | "@ + display_text_of(ts.last())
    }
}

/// Join the display texts of the tokens by " | "
fn join_tokens(ts: &Vec<Token>) -> (s: String)
    ensures
        s@ == joined(ts@),
{
    let mut s = String::new();
    let mut k: usize = 0;
    while k < ts.len()
        invariant
            k <= ts@.len(),
            s@ == joined(ts@.subrange(0, k as int)),
        decreases ts@.len() - k,
    {
        let t = ts[k].to_string();
        if k > 0 {
            s.append(" | ");
        }
        s.append(t.as_str());
        proof {
            let p = ts@.subrange(0, k + 1);
            assert(p.drop_last() =~= ts@.subrange(0, k as int));
            assert(p.last() == ts@[k as int]);
        }
        k = k + 1;
    }
    assert(ts@.subrange(0, ts@.len() as int) =~= ts@);
    s
}

/// Message of an invalid token
pub open spec fn invalid_token_message() -> Seq<char> {
    "invalid token"@
}

/// Message of an extra token
pub open spec fn extra_token_message(t: Token) -> Seq<char> {
    "extra "@ + debug_text_of(t)
}

/// Message of a missing token: the one expected, or all of them
pub open spec fn missing_token_message(expected: Seq<Token>) -> Seq<char> {
    if expected.len() == 1 {
        "missing "@ + display_text_of(expected[0])
    } else {
        "missing tokens: "@ + joined(expected)
    }
}

/// Message of an unexpected token
pub open spec fn unexpected_token_message(expected: Seq<Token>, got: Token) -> Seq<char> {
    "expected "@ + joined(expected) + ", got "@ + display_text_of(got)
}

impl InvalidToken {
    /// Message of the diagnostic
    pub fn to_string(&self) -> (s: String)
        ensures
            s@ == invalid_token_message(),
    {
        String::from_str("invalid token")
    }
}

impl ExtraToken {
    /// Message of the diagnostic
    pub fn to_string(&self) -> (s: String)
        ensures
            s@ == extra_token_message(self.token),
    {
        let mut s = String::from_str("extra ");
        let d = self.token.debug_text();
        s.append(d.as_str());
        s
    }
}

impl MissingToken {
    /// Message of the diagnostic
    pub fn to_string(&self) -> (s: String)
        requires
            self.expected@.len() > 0,
        ensures
            s@ == missing_token_message(self.expected@),
    {
        if self.expected.len() == 1 {
            let mut s = String::from_str("missing ");
            let t = self.expected[0].to_string();
            s.append(t.as_str());
            s
        } else {
            let mut s = String::from_str("missing tokens: ");
            let j = join_tokens(&self.expected);
            s.append(j.as_str());
            s
        }
    }
}

impl UnexpectedToken {
    /// Message of the diagnostic
    pub fn to_string(&self) -> (s: String)
        requires
            self.expected@.len() > 0,
        ensures
            s@ == unexpected_token_message(self.expected@, self.got),
    {
        let mut s = String::from_str("expected ");
        let j = join_tokens(&self.expected);
        s.append(j.as_str());
        s.append(", got ");
        let g = self.got.to_string();
        s.append(g.as_str());
        s
    }
}

impl LexerError {
    /// Every alternative list that the error holds is not empty
    pub open spec fn wf(&self) -> bool {
        match self {
            LexerError::MissingToken(e) => e.expected@.len() > 0,
            LexerError::UnexpectedToken(e) => e.expected@.len() > 0,
            _ => true,
        }
    }

    /// Message of the error
    pub open spec fn message(&self) -> Seq<char> {
        match self {
            LexerError::InvalidToken(_) => invalid_token_message(),
            LexerError::ExtraToken(e) => extra_token_message(e.token),
            LexerError::MissingToken(e) => missing_token_message(e.expected@),
            LexerError::UnexpectedToken(e) => unexpected_token_message(e.expected@, e.got),
        }
    }

    /// Message of the error
    pub fn to_string(&self) -> (s: String)
        requires
            self.wf(),
        ensures
            s@ == self.message(),
    {
        match self {
            LexerError::InvalidToken(e) => e.to_string(),
            LexerError::ExtraToken(e) => e.to_string(),
            LexerError::MissingToken(e) => e.to_string(),
            LexerError::UnexpectedToken(e) => e.to_string(),
        }
    }
}

impl ParseError {
    /// A lexer error in it is well formed
    pub open spec fn wf(&self) -> bool {
        match self {
            ParseError::LexerError(e) => e.wf(),
            _ => true,
        }
    }

    /// Message of the error
    pub open spec fn message(&self) -> Seq<char> {
        match self {
            ParseError::LexerError(e) => e.message(),
            ParseError::MissingExpression(_) => "missing expression"@,
            ParseError::MissingDeclaration(_) => "missing declaration"@,
            ParseError::MissingStatement(_) => "missing statement"@,
            ParseError::MissingVariableName(_) => "missing variable's name"@,
        }
    }

    /// Message of the error
    pub fn to_string(&self) -> (s: String)
        requires
            self.wf(),
        ensures
            s@ == self.message(),
    {
        match self {
            ParseError::LexerError(e) => e.to_string(),
            ParseError::MissingExpression(_) => String::from_str("missing expression"),
            ParseError::MissingDeclaration(_) => String::from_str("missing declaration"),
            ParseError::MissingStatement(_) => String::from_str("missing statement"),
            ParseError::MissingVariableName(_) => String::from_str("missing variable's name"),
        }
    }
}

/// Every error that matching tokens reports can be shown: the alternatives
/// it lists are the ones asked for, and there is at least one
pub proof fn lemma_match_errors_wf(
    r: Result<Token, LexerError>,
    tokens: Seq<Token>,
    s: Seq<char>,
    st: LexerState,
)
    requires
        match_result(r, tokens, s, st),
        tokens.len() > 0,
    ensures
        r matches Err(e) ==> e.wf(),
{
}

} // verus!
