use vstd::prelude::*;

verus! {

/// Kind of operator
#[derive(Debug, PartialEq, Eq, Structural, Clone, Copy)]
pub enum OperatorKind {
    Prefix,
    Infix,
    Postfix,
}

/// The different kinds of tokens that can be lexed.
#[derive(Debug, PartialEq, Eq)]
pub enum Token {
    /// None literal
    NoneLiteral,
    /// Integer literal
    Integer,
    /// Assign token
    Assign,
    /// Token for operator
    Operator(OperatorKind),
    /// Identifier
    Id,
    /// Escaped identifier (its text without the backquotes)
    EscapedId(String),
    /// "let" token
    Let,
    /// "mut" token
    Mut,
    /// "type" token
    Type,
    /// '\n' token
    Newline,
    /// ':' token
    Colon,
    /// '<' token
    Less,
    /// '>' token
    Greater,
    /// "fn" token
    Fn,
    /// "->" token
    Arrow,
    /// "=>" token
    FatArrow,
    /// String literal
    String,
    /// '@' token
    At,
    /// '(' token
    LParen,
    /// ')' token
    RParen,
    /// ',' comma
    Comma,
    /// '\t' token
    Tab,
    /// "return" token
    Return,
    /// "if" token
    If,
    /// "else" token
    Else,
    /// "true" token
    True,
    /// "false" token
    False,
    /// "loop" token
    Loop,
    /// "while" token
    While,
    /// "trait" token
    Trait,
    /// '.' token
    Dot,
    /// '{' token
    LBrace,
    /// '}' token
    RBrace,
    /// Rational literal
    Rational,
    /// "use" token
    Use,
    /// Error token
    Error,
}

impl Clone for Token {
    fn clone(&self) -> (t: Self)
        ensures
            t == *self,
    {
        match self {
            Token::NoneLiteral => Token::NoneLiteral,
            Token::Integer => Token::Integer,
            Token::Assign => Token::Assign,
            Token::Operator(k) => Token::Operator(*k),
            Token::Id => Token::Id,
            Token::EscapedId(s) => Token::EscapedId(s.clone()),
            Token::Let => Token::Let,
            Token::Mut => Token::Mut,
            Token::Type => Token::Type,
            Token::Newline => Token::Newline,
            Token::Colon => Token::Colon,
            Token::Less => Token::Less,
            Token::Greater => Token::Greater,
            Token::Fn => Token::Fn,
            Token::Arrow => Token::Arrow,
            Token::FatArrow => Token::FatArrow,
            Token::String => Token::String,
            Token::At => Token::At,
            Token::LParen => Token::LParen,
            Token::RParen => Token::RParen,
            Token::Comma => Token::Comma,
            Token::Tab => Token::Tab,
            Token::Return => Token::Return,
            Token::If => Token::If,
            Token::Else => Token::Else,
            Token::True => Token::True,
            Token::False => Token::False,
            Token::Loop => Token::Loop,
            Token::While => Token::While,
            Token::Trait => Token::Trait,
            Token::Dot => Token::Dot,
            Token::LBrace => Token::LBrace,
            Token::RBrace => Token::RBrace,
            Token::Rational => Token::Rational,
            Token::Use => Token::Use,
            Token::Error => Token::Error,
        }
    }
}

/// Two tokens are the same token: same variant, same operator kind, and
/// escaped identifiers with the same text.
pub open spec fn same_token(a: Token, b: Token) -> bool {
    match (a, b) {
        (Token::EscapedId(x), Token::EscapedId(y)) => x@ == y@,
        (Token::EscapedId(_), _) => false,
        (_, Token::EscapedId(_)) => false,
        _ => a == b,
    }
}

/// Text of the tokens that the grammar writes as a fixed string
pub open spec fn literal_text(t: Token) -> Option<Seq<char>> {
    match t {
        Token::NoneLiteral => Some(seq!['n', 'o', 'n', 'e']),
        Token::Assign => Some(seq!['=']),
        Token::Let => Some(seq!['l', 'e', 't']),
        Token::Mut => Some(seq!['m', 'u', 't']),
        Token::Type => Some(seq!['t', 'y', 'p', 'e']),
        Token::Newline => Some(seq!['\n']),
        Token::Colon => Some(seq![':']),
        Token::Less => Some(seq!['<']),
        Token::Greater => Some(seq!['>']),
        Token::Fn => Some(seq!['f', 'n']),
        Token::Arrow => Some(seq!['-', '>']),
        Token::FatArrow => Some(seq!['=', '>']),
        Token::At => Some(seq!['@']),
        Token::LParen => Some(seq!['(']),
        Token::RParen => Some(seq![')']),
        Token::Comma => Some(seq![',']),
        Token::Tab => Some(seq!['\t']),
        Token::Return => Some(seq!['r', 'e', 't', 'u', 'r', 'n']),
        Token::If => Some(seq!['i', 'f']),
        Token::Else => Some(seq!['e', 'l', 's', 'e']),
        Token::True => Some(seq!['t', 'r', 'u', 'e']),
        Token::False => Some(seq!['f', 'a', 'l', 's', 'e']),
        Token::Loop => Some(seq!['l', 'o', 'o', 'p']),
        Token::While => Some(seq!['w', 'h', 'i', 'l', 'e']),
        Token::Trait => Some(seq!['t', 'r', 'a', 'i', 't']),
        Token::Dot => Some(seq!['.']),
        Token::LBrace => Some(seq!['{']),
        Token::RBrace => Some(seq!['}']),
        Token::Use => Some(seq!['u', 's', 'e']),
        _ => Option::None,
    }
}

/// Tokens without data are equal exactly when their variants are
pub proof fn lemma_same_variant(a: Token, b: Token)
    requires
        !(a is EscapedId) && !(b is EscapedId) && !(a is Operator && b is Operator),
    ensures
        a == b <==> a.spec_variant_index() == b.spec_variant_index(),
{
    match a {
        Token::NoneLiteral => {},
        Token::Integer => {},
        Token::Assign => {},
        Token::Id => {},
        Token::Let => {},
        Token::Mut => {},
        Token::Type => {},
        Token::Newline => {},
        Token::Colon => {},
        Token::Less => {},
        Token::Greater => {},
        Token::Fn => {},
        Token::Arrow => {},
        Token::FatArrow => {},
        Token::String => {},
        Token::At => {},
        Token::LParen => {},
        Token::RParen => {},
        Token::Comma => {},
        Token::Tab => {},
        Token::Return => {},
        Token::If => {},
        Token::Else => {},
        Token::True => {},
        Token::False => {},
        Token::Loop => {},
        Token::While => {},
        Token::Trait => {},
        Token::Dot => {},
        Token::LBrace => {},
        Token::RBrace => {},
        Token::Rational => {},
        Token::Use => {},
        Token::Error => {},
        _ => {},
    }
}

/// Every infix operator is an operator, and a whitespace token ends an
/// expression
pub proof fn lemma_token_classes(t: Token)
    ensures
        t.spec_is_infix_operator() ==> t.spec_is_operator(),
        t.spec_is_whitespace() ==> t.spec_ends_expression(),
{
}

impl Token {
    /// Is this token an operator?
    pub open spec fn spec_is_operator(self) -> bool {
        match self {
            Token::Less | Token::Greater | Token::Operator(_) => true,
            _ => false,
        }
    }

    /// Is this token an infix operator?
    pub open spec fn spec_is_infix_operator(self) -> bool {
        match self {
            Token::Less | Token::Greater | Token::Operator(OperatorKind::Infix) => true,
            _ => false,
        }
    }

    /// Is this token a whitespace token?
    pub open spec fn spec_is_whitespace(self) -> bool {
        self is Newline
    }

    /// Does this token end an expression?
    pub open spec fn spec_ends_expression(self) -> bool {
        match self {
            Token::Newline | Token::RParen | Token::Colon | Token::Comma | Token::Assign
            | Token::RBrace => true,
            _ => false,
        }
    }

    /// Check if token is an operator
    pub fn is_operator(&self) -> (b: bool)
        ensures
            b == self.spec_is_operator(),
    {
        matches!(self, Token::Less | Token::Greater | Token::Operator(_))
    }

    /// Check if token is an infix operator
    pub fn is_infix_operator(&self) -> (b: bool)
        ensures
            b == self.spec_is_infix_operator(),
    {
        matches!(self, Token::Less | Token::Greater | Token::Operator(OperatorKind::Infix))
    }

    /// Check if token is a whitespace token
    pub fn is_whitespace(&self) -> (b: bool)
        ensures
            b == self.spec_is_whitespace(),
    {
        match self {
            Token::Newline => true,
            _ => false,
        }
    }

    /// Check if token ends expression
    pub fn ends_expression(&self) -> (b: bool)
        ensures
            b == self.spec_ends_expression(),
    {
        matches!(
            self,
            Token::Newline | Token::RParen | Token::Colon | Token::Comma | Token::Assign
                | Token::RBrace
        )
    }

    /// Is this the same token as `other`?
    pub fn same_as(&self, other: &Token) -> (b: bool)
        ensures
            b == same_token(*self, *other),
    {
        match self {
            Token::EscapedId(x) => match other {
                Token::EscapedId(y) => x.eq(y),
                _ => false,
            },
            Token::Operator(x) => match other {
                Token::Operator(y) => *x == *y,
                _ => false,
            },
            _ => {
                if other.variant_index() == 5 {
                    return false;
                }
                proof {
                    lemma_same_variant(*self, *other);
                }
                self.variant_index() == other.variant_index()
            },
        }
    }

    /// Position of the variant in the declaration of [`Token`]
    pub open spec fn spec_variant_index(self) -> nat {
        match self {
            Token::NoneLiteral => 0,
            Token::Integer => 1,
            Token::Assign => 2,
            Token::Operator(_) => 3,
            Token::Id => 4,
            Token::EscapedId(_) => 5,
            Token::Let => 6,
            Token::Mut => 7,
            Token::Type => 8,
            Token::Newline => 9,
            Token::Colon => 10,
            Token::Less => 11,
            Token::Greater => 12,
            Token::Fn => 13,
            Token::Arrow => 14,
            Token::FatArrow => 15,
            Token::String => 16,
            Token::At => 17,
            Token::LParen => 18,
            Token::RParen => 19,
            Token::Comma => 20,
            Token::Tab => 21,
            Token::Return => 22,
            Token::If => 23,
            Token::Else => 24,
            Token::True => 25,
            Token::False => 26,
            Token::Loop => 27,
            Token::While => 28,
            Token::Trait => 29,
            Token::Dot => 30,
            Token::LBrace => 31,
            Token::RBrace => 32,
            Token::Rational => 33,
            Token::Use => 34,
            Token::Error => 35,
        }
    }

    /// Position of the variant in the declaration of [`Token`]
    pub fn variant_index(&self) -> (i: u8)
        ensures
            i == self.spec_variant_index(),
    {
        match self {
            Token::NoneLiteral => 0,
            Token::Integer => 1,
            Token::Assign => 2,
            Token::Operator(_) => 3,
            Token::Id => 4,
            Token::EscapedId(_) => 5,
            Token::Let => 6,
            Token::Mut => 7,
            Token::Type => 8,
            Token::Newline => 9,
            Token::Colon => 10,
            Token::Less => 11,
            Token::Greater => 12,
            Token::Fn => 13,
            Token::Arrow => 14,
            Token::FatArrow => 15,
            Token::String => 16,
            Token::At => 17,
            Token::LParen => 18,
            Token::RParen => 19,
            Token::Comma => 20,
            Token::Tab => 21,
            Token::Return => 22,
            Token::If => 23,
            Token::Else => 24,
            Token::True => 25,
            Token::False => 26,
            Token::Loop => 27,
            Token::While => 28,
            Token::Trait => 29,
            Token::Dot => 30,
            Token::LBrace => 31,
            Token::RBrace => 32,
            Token::Rational => 33,
            Token::Use => 34,
            Token::Error => 35,
        }
    }
}

} // verus!
