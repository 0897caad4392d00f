use vstd::prelude::*;
use vstd::string::StrSliceExecFns;
use vstd::utf8::encode_utf8;

use super::ranged::Ranged;
use super::scan::{
    all_in, is_id_start, lemma_literal_inverse, lemma_literal_shape, lemma_run, lemma_run_bound,
    scan_at, CharClass, Rule,
};
use super::stream::{
    initial_state, lemma_next_lexeme_bounds, lookahead, token_is, Lexeme,
};
use super::token::{literal_text, Token};

verus! {

/// The tokens that are keywords of the language
pub open spec fn is_keyword(t: Token) -> bool {
    t is NoneLiteral || t is Let || t is Mut || t is Type || t is Fn || t is Return || t is If || t is Else || t is True || t is False || t is Loop || t is While || t is Trait || t is Use
}

/// A keyword's text lexes, as a whole, to the keyword's token: the scanner
/// takes all of it by the keyword's rule, and a fresh lexer over it shows
/// that token first
pub proof fn lemma_keyword_lexes(t: Token)
    requires
        is_keyword(t),
    ensures
        scan_at(literal_text(t).unwrap(), 0) == (
            Some(Rule::Literal(t)),
            literal_text(t).unwrap().len(),
        ),
        lookahead(literal_text(t).unwrap(), initial_state()) == Some(
            Lexeme { rule: Some(Rule::Literal(t)), start: 0, end: literal_text(t).unwrap().len() },
        ),
        token_is(
            t,
            literal_text(t).unwrap(),
            Lexeme { rule: Some(Rule::Literal(t)), start: 0, end: literal_text(t).unwrap().len() },
        ),
{
    let w = literal_text(t).unwrap();
    lemma_literal_shape(t, w);
    assert(is_id_start(w[0]));
    assert(all_in(w, 0, CharClass::IdContinue));
    lemma_run(w, 0, CharClass::IdContinue);
    lemma_run_bound(w, 0, w.len() as int, CharClass::IdContinue);
    assert(w.subrange(0, w.len() as int) =~= w);
    lemma_literal_inverse(w, t);
    assert(scan_at(w, 0) == (Some(Rule::Literal(t)), w.len()));
    lemma_next_lexeme_bounds(w, 0);
}

/// The token of a keyword's text, for the words that are keywords
pub open spec fn keyword_token(w: Seq<char>) -> Option<Token> {
    if w == "none"@ {
        Some(Token::NoneLiteral)
    } else if w == "let"@ {
        Some(Token::Let)
    } else if w == "mut"@ {
        Some(Token::Mut)
    } else if w == "type"@ {
        Some(Token::Type)
    } else if w == "fn"@ {
        Some(Token::Fn)
    } else if w == "return"@ {
        Some(Token::Return)
    } else if w == "if"@ {
        Some(Token::If)
    } else if w == "else"@ {
        Some(Token::Else)
    } else if w == "true"@ {
        Some(Token::True)
    } else if w == "false"@ {
        Some(Token::False)
    } else if w == "loop"@ {
        Some(Token::Loop)
    } else if w == "while"@ {
        Some(Token::While)
    } else if w == "trait"@ {
        Some(Token::Trait)
    } else if w == "use"@ {
        Some(Token::Use)
    } else {
        Option::None
    }
}

/// Do the texts agree?
fn same_text(a: &str, b: &str) -> (r: bool)
    ensures
        r == (a@ == b@),
{
    let n = a.unicode_len();
    if n != b.unicode_len() {
        return false;
    }
    let mut k: usize = 0;
    while k < n
        invariant
            n == a@.len(),
            n == b@.len(),
            k <= n,
            a@.subrange(0, k as int) == b@.subrange(0, k as int),
        decreases n - k,
    {
        if a.get_char(k) != b.get_char(k) {
            return false;
        }
        assert(a@.subrange(0, k + 1) =~= a@.subrange(0, k as int).push(a@[k as int]));
        assert(b@.subrange(0, k + 1) =~= b@.subrange(0, k as int).push(b@[k as int]));
        k = k + 1;
    }
    assert(a@ =~= a@.subrange(0, n as int));
    assert(b@ =~= b@.subrange(0, n as int));
    true
}

/// The word of a keyword token is that keyword's text, and lexing the word
/// gives that token back
pub proof fn lemma_keyword_token(w: Seq<char>)
    ensures
        keyword_token(w) matches Some(t) ==> is_keyword(t) && literal_text(t) == Some(w)
            && lookahead(w, initial_state()) == Some(
            Lexeme { rule: Some(Rule::Literal(t)), start: 0, end: w.len() },
        ),
{
        reveal_strlit("none");
        reveal_strlit("let");
        reveal_strlit("mut");
        reveal_strlit("type");
        reveal_strlit("fn");
        reveal_strlit("return");
        reveal_strlit("if");
        reveal_strlit("else");
        reveal_strlit("true");
        reveal_strlit("false");
        reveal_strlit("loop");
        reveal_strlit("while");
        reveal_strlit("trait");
        reveal_strlit("use");
    if let Some(t) = keyword_token(w) {
        assert(literal_text(t).unwrap() =~= w);
        lemma_keyword_lexes(t);
    }
}

/// A keyword in the language: its word and its position
#[derive(Debug, PartialEq, Eq, Clone, Copy)]
pub struct Keyword {
    /// The keyword's text
    word: &'static str,
    /// Position of the keyword in the source code
    pub offset: usize,
}

impl Keyword {
    /// The keyword's text
    pub closed spec fn word(&self) -> Seq<char> {
        self.word@
    }

    /// The keyword's position
    pub closed spec fn position(&self) -> nat {
        self.offset as nat
    }

    /// Create a new keyword
    pub fn at(word: &'static str, offset: usize) -> (k: Self)
        ensures
            k.word() == word@,
            k.position() == offset,
    {
        Self { word, offset }
    }

    /// Get the length of the keyword in bytes
    pub fn len(&self) -> (n: usize)
        ensures
            n == encode_utf8(self.word()).len(),
    {
        self.word.as_bytes().len()
    }

    /// Convert the keyword to a token; only the language's keywords have one
    pub fn as_token(&self) -> (t: Token)
        requires
            keyword_token(self.word()) is Some,
        ensures
            Some(t) == keyword_token(self.word()),
    {
        if same_text(self.word, "none") {
            Token::NoneLiteral
        } else if same_text(self.word, "let") {
            Token::Let
        } else if same_text(self.word, "mut") {
            Token::Mut
        } else if same_text(self.word, "type") {
            Token::Type
        } else if same_text(self.word, "fn") {
            Token::Fn
        } else if same_text(self.word, "return") {
            Token::Return
        } else if same_text(self.word, "if") {
            Token::If
        } else if same_text(self.word, "else") {
            Token::Else
        } else if same_text(self.word, "true") {
            Token::True
        } else if same_text(self.word, "false") {
            Token::False
        } else if same_text(self.word, "loop") {
            Token::Loop
        } else if same_text(self.word, "while") {
            Token::While
        } else if same_text(self.word, "trait") {
            Token::Trait
        } else if same_text(self.word, "use") {
            Token::Use
        } else {
            Token::Use
        }
    }

    /// The keyword's text
    pub fn as_str(&self) -> (s: &'static str)
        ensures
            s@ == self.word(),
    {
        self.word
    }

    /// A keyword covers its offset and the bytes of its text
    pub proof fn lemma_range(&self)
        ensures
            self.spec_start() == self.position(),
            self.spec_end() == self.position() + encode_utf8(self.word()).len(),
            self.has_range() == (self.position() + encode_utf8(self.word()).len() <= usize::MAX),
    {
    }
}

impl Ranged for Keyword {
    /// The offset
    closed spec fn spec_start(&self) -> nat {
        self.offset as nat
    }

    /// The offset plus the length of the keyword in bytes
    closed spec fn spec_end(&self) -> nat {
        (self.offset + encode_utf8(self.word@).len()) as nat
    }

    closed spec fn has_range(&self) -> bool {
        self.offset + encode_utf8(self.word@).len() <= usize::MAX
    }

    fn start(&self) -> (s: usize) {
        self.offset
    }

    fn end(&self) -> (e: usize) {
        self.offset + self.len()
    }
}

} // verus!
