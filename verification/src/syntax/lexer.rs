use vstd::prelude::*;
use vstd::string::StrSliceExecFns;

use super::error::{InvalidToken, LexerError, MissingToken, UnexpectedToken};
use super::scan::Rule;
use super::stream::{
    advance, after_newline, byte_offset, initial_state, is_newline, is_tab, lemma_advance_valid,
    lemma_lookahead_bounds, lookahead, lookahead_span, skip_newlines, skip_tabs, token_is,
    valid_state, Lexeme, LexerState, TokenStream,
};
use super::token::{literal_text, same_token, OperatorKind, Token};
use super::with_offset::StringWithOffset;
use crate::source_location::SourceSpan;

verus! {

/// `t` is the token of the lexeme `l` (`None` at the end)
pub open spec fn token_of(t: Option<Token>, s: Seq<char>, l: Option<Lexeme>) -> bool {
    match l {
        Some(l) => t matches Some(t) && token_is(t, s, l),
        Option::None => t is None,
    }
}

/// Does `ts` hold the token `t`?
pub open spec fn contains_token(ts: Seq<Token>, t: Token) -> bool {
    exists|k: int| 0 <= k < ts.len() && same_token(#[trigger] ts[k], t)
}

/// The span of bytes of the character range `r` of `s`
pub open spec fn byte_span(s: Seq<char>, r: (nat, nat)) -> SourceSpan {
    SourceSpan {
        offset: byte_offset(s, r.0 as int) as usize,
        length: (byte_offset(s, r.1 as int) - byte_offset(s, r.0 as int)) as usize,
    }
}

/// What `try_match_one_of(tokens)` answers in state `st` of `s`
pub open spec fn match_result(
    res: Result<Token, LexerError>,
    tokens: Seq<Token>,
    s: Seq<char>,
    st: LexerState,
) -> bool {
    match lookahead(s, st) {
        Option::None => res matches Err(LexerError::MissingToken(e)) && e.expected@ == tokens
            && e.at == SourceSpan { offset: byte_offset(s, st.span.1 as int) as usize, length: 0 },
        Some(l) => if l.rule is None {
            ||| res matches Err(LexerError::InvalidToken(e)) && e.at == byte_span(
                s,
                lookahead_span(s, st),
            ) && !contains_token(tokens, Token::Error)
            ||| res matches Ok(t) && t == Token::Error && contains_token(tokens, Token::Error)
        } else {
            ||| res matches Ok(t) && token_is(t, s, l) && contains_token(tokens, t)
            ||| res matches Err(LexerError::UnexpectedToken(e)) && e.expected@ == tokens
                && token_is(e.got, s, l) && !contains_token(tokens, e.got) && e.at == byte_span(
                s,
                lookahead_span(s, st),
            )
        },
    }
}

/// Trait for PPL's lexers
///
/// A lexer is a state machine over its source: `peek` shows the next token
/// without moving, `next` takes it. After a newline, further newlines are
/// skipped. Taking a newline resets the indentation level.
pub trait Lexer {
    /// The source text
    spec fn text(&self) -> Seq<char>;

    /// The abstract state of the lexer
    spec fn state(&self) -> LexerState;

    /// The lexer's own invariant
    spec fn wf(&self) -> bool;

    /// The invariant keeps the abstract state valid
    proof fn lemma_wf(&self)
        requires
            self.wf(),
        ensures
            valid_state(self.text(), self.state()),
            byte_offset(self.text(), self.text().len() as int) <= usize::MAX,
    ;

    /// Get source code of lexer
    fn source(&self) -> (s: &str)
        requires
            self.wf(),
        ensures
            s@ == self.text(),
    ;

    /// Get current token
    fn token(&self) -> (t: Option<Token>)
        requires
            self.wf(),
        ensures
            token_of(t, self.text(), self.state().current),
    ;

    /// Peek next token
    fn peek(&mut self) -> (t: Option<Token>)
        requires
            old(self).wf(),
        ensures
            final(self).wf(),
            final(self).text() == old(self).text(),
            final(self).state() == old(self).state(),
            token_of(t, old(self).text(), lookahead(old(self).text(), old(self).state())),
    ;

    /// Get span of peeked token
    fn peek_span(&mut self) -> (r: std::ops::Range<usize>)
        requires
            old(self).wf(),
        ensures
            final(self).wf(),
            final(self).text() == old(self).text(),
            final(self).state() == old(self).state(),
            r.start == byte_offset(
                old(self).text(),
                lookahead_span(old(self).text(), old(self).state()).0 as int,
            ),
            r.end == byte_offset(
                old(self).text(),
                lookahead_span(old(self).text(), old(self).state()).1 as int,
            ),
    ;

    /// Get slice of peeked token
    fn peek_slice(&mut self) -> (r: &str)
        requires
            old(self).wf(),
        ensures
            final(self).wf(),
            final(self).text() == old(self).text(),
            final(self).state() == old(self).state(),
            r@ == old(self).text().subrange(
                lookahead_span(old(self).text(), old(self).state()).0 as int,
                lookahead_span(old(self).text(), old(self).state()).1 as int,
            ),
    ;

    /// Get span of current token
    fn span(&self) -> (r: std::ops::Range<usize>)
        requires
            self.wf(),
        ensures
            r.start == byte_offset(self.text(), self.state().span.0 as int),
            r.end == byte_offset(self.text(), self.state().span.1 as int),
    ;

    /// Get slice of current token
    fn slice(&self) -> (r: &str)
        requires
            self.wf(),
        ensures
            r@ == self.text().subrange(self.state().span.0 as int, self.state().span.1 as int),
    ;

    /// Lex next token
    fn next(&mut self) -> (t: Option<Token>)
        requires
            old(self).wf(),
        ensures
            final(self).wf(),
            final(self).text() == old(self).text(),
            final(self).state() == advance(old(self).text(), old(self).state()),
            token_of(t, old(self).text(), final(self).state().current),
    ;

    /// Get current indentation level
    fn indentation(&self) -> (n: usize)
        requires
            self.wf(),
        ensures
            n == self.state().indentation,
    ;

    /// Skip indentation.
    /// Changes current indentation level to the amount of tabs skipped
    fn skip_indentation(&mut self)
        requires
            old(self).wf(),
        ensures
            final(self).wf(),
            final(self).text() == old(self).text(),
            final(self).state() == skip_tabs(old(self).text(), old(self).state()),
    ;

    /// Get string with offset of current token
    fn string_with_offset(&self) -> (s: StringWithOffset)
        requires
            self.wf(),
        ensures
            s@ == (
                byte_offset(self.text(), self.state().span.0 as int),
                self.text().subrange(self.state().span.0 as int, self.state().span.1 as int),
            ),
    {
        let r = self.span();
        StringWithOffset::from(self.slice()).at(r.start)
    }

    /// Try match next token with one of specified types.
    /// Doesn't lex.
    fn try_match_one_of(&mut self, tokens: &[Token]) -> (res: Result<Token, LexerError>)
        requires
            old(self).wf(),
            tokens@.len() > 0,
        ensures
            final(self).wf(),
            final(self).text() == old(self).text(),
            final(self).state() == old(self).state(),
            match_result(res, tokens@, old(self).text(), old(self).state()),
    {
        proof {
            self.lemma_wf();
            lemma_lookahead_bounds(self.text(), self.state().pos as int, after_newline(self.state()));
        }
        let token = self.peek();
        match token {
            Option::None => {
                let at = SourceSpan::at_offset(self.span().end);
                Err(LexerError::MissingToken(MissingToken { expected: tokens_to_vec(tokens), at }))
            },
            Some(token) => {
                if !contains(tokens, &token) {
                    let span = self.peek_span();
                    let at = SourceSpan::from_range(span.start, span.end);
                    proof {
                        lemma_byte_spans(self.text(), self.state());
                    }
                    if let Token::Error = token {
                        return Err(LexerError::InvalidToken(InvalidToken { at }));
                    }
                    return Err(
                        LexerError::UnexpectedToken(
                            UnexpectedToken { expected: tokens_to_vec(tokens), got: token, at },
                        ),
                    );
                }
                Ok(token)
            },
        }
    }

    /// Try match next token with given type.
    /// Doesn't lex.
    fn try_match(&mut self, token: Token) -> (res: Result<(), LexerError>)
        requires
            old(self).wf(),
        ensures
            final(self).wf(),
            final(self).text() == old(self).text(),
            final(self).state() == old(self).state(),
            exists|r: Result<Token, LexerError>|
                match_result(r, seq![token], old(self).text(), old(self).state()) && (match r {
                    Ok(_) => res is Ok,
                    Err(e) => res == Err::<(), LexerError>(e),
                }),
    {
        let tokens = vec![token];
        proof {
            assert(tokens@ =~= seq![token]);
        }
        match self.try_match_one_of(tokens.as_slice()) {
            Ok(t) => Ok(()),
            Err(e) => Err(e),
        }
    }

    /// Lex next token if it has one of specified types.
    /// Doesn't lex, on failure.
    fn consume_one_of(&mut self, tokens: &[Token]) -> (res: Result<Token, LexerError>)
        requires
            old(self).wf(),
            tokens@.len() > 0,
        ensures
            final(self).wf(),
            final(self).text() == old(self).text(),
            match_result(res, tokens@, old(self).text(), old(self).state()),
            res is Ok ==> final(self).state() == advance(old(self).text(), old(self).state()),
            res is Err ==> final(self).state() == old(self).state(),
    {
        let token = self.try_match_one_of(tokens)?;
        self.next();
        Ok(token)
    }

    /// Lex next token if it has specified type.
    /// Doesn't lex, on failure.
    fn consume(&mut self, token: Token) -> (res: Result<StringWithOffset, LexerError>)
        requires
            old(self).wf(),
        ensures
            final(self).wf(),
            final(self).text() == old(self).text(),
            exists|r: Result<Token, LexerError>|
                match_result(r, seq![token], old(self).text(), old(self).state()) && (match r {
                    Ok(_) => res is Ok,
                    Err(e) => res == Err::<StringWithOffset, LexerError>(e),
                }),
            res is Ok ==> final(self).state() == advance(old(self).text(), old(self).state()),
            res is Err ==> final(self).state() == old(self).state(),
            res matches Ok(s) ==> s@ == (
                byte_offset(final(self).text(), final(self).state().span.0 as int),
                final(self).text().subrange(
                    final(self).state().span.0 as int,
                    final(self).state().span.1 as int,
                ),
            ),
    {
        let tokens = vec![token];
        proof {
            assert(tokens@ =~= seq![token]);
        }
        match self.consume_one_of(tokens.as_slice()) {
            Ok(_) => Ok(self.string_with_offset()),
            Err(e) => Err(e),
        }
    }

    /// Lex next token if it's an operator.
    /// Doesn't lex, on failure.
    fn consume_operator(&mut self) -> (res: Result<StringWithOffset, LexerError>)
        requires
            old(self).wf(),
        ensures
            final(self).wf(),
            final(self).text() == old(self).text(),
            res matches Err(e) ==> match_result(
                Err(e),
                operator_tokens(),
                old(self).text(),
                old(self).state(),
            ),
            res is Ok <==> (token_of_is_operator(old(self).text(), old(self).state())),
            res is Ok ==> final(self).state() == advance(old(self).text(), old(self).state()),
            res is Err ==> final(self).state() == old(self).state(),
            res matches Ok(s) ==> s@ == (
                byte_offset(final(self).text(), final(self).state().span.0 as int),
                final(self).text().subrange(
                    final(self).state().span.0 as int,
                    final(self).state().span.1 as int,
                ),
            ),
    {
        proof {
            self.lemma_wf();
        }
        let tokens = vec![
            Token::Operator(OperatorKind::Prefix),
            Token::Operator(OperatorKind::Infix),
            Token::Operator(OperatorKind::Postfix),
            Token::Less,
            Token::Greater,
        ];
        proof {
            assert(tokens@ =~= operator_tokens());
        }
        match self.consume_one_of(tokens.as_slice()) {
            Ok(t) => {
                proof {
                    lemma_operator_tokens(t);
                    lemma_not_operator(old(self).text(), old(self).state());
                }
                Ok(self.string_with_offset())
            },
            Err(e) => {
                proof {
                    self.lemma_wf();
                    lemma_not_operator(self.text(), self.state());
                    lemma_operator_tokens(Token::Error);
                }
                Err(e)
            },
        }
    }

    /// Skip space tokens
    fn skip_spaces(&mut self)
        requires
            old(self).wf(),
        ensures
            final(self).wf(),
            final(self).text() == old(self).text(),
            final(self).state() == skip_newlines(old(self).text(), old(self).state()),
    {
        loop
            invariant
                self.wf(),
                self.text() == old(self).text(),
                skip_newlines(self.text(), self.state()) == skip_newlines(
                    old(self).text(),
                    old(self).state(),
                ),
            decreases self.text().len() - self.state().pos,
        {
            proof {
                self.lemma_wf();
                lemma_advance_valid(self.text(), self.state());
                lemma_lookahead_bounds(
                    self.text(),
                    self.state().pos as int,
                    after_newline(self.state()),
                );
            }
            let t = self.peek();
            let newline = match t {
                Some(Token::Newline) => true,
                _ => false,
            };
            if !newline {
                return;
            }
            self.next();
        }
    }
}

/// The next token is `t`
pub open spec fn next_is(s: Seq<char>, st: LexerState, t: Token) -> bool {
    lookahead(s, st) matches Some(l) && token_is(t, s, l)
}

/// Matching a single token succeeds exactly when it is the next one
pub proof fn lemma_match_single(r: Result<Token, LexerError>, t: Token, s: Seq<char>, st: LexerState)
    requires
        match_result(r, seq![t], s, st),
    ensures
        r is Ok <==> next_is(s, st, t),
{
    let ts = seq![t];
    assert forall|x: Token| contains_token(ts, x) <==> same_token(t, x) by {
        if same_token(t, x) {
            assert(same_token(ts[0], x));
        }
    }
    if let Some(l) = lookahead(s, st) {
        lemma_lookahead_bounds(s, st.pos as int, after_newline(st));
        if l.rule is Some {
            super::scan::lemma_scan_rule_matches(s, l.start as int);
        }
        match r {
            Ok(x) => {
                lemma_token_is_same(t, x, s, l);
            },
            Err(e) => {
                if l.rule is Some {
                    if let LexerError::UnexpectedToken(u) = e {
                        lemma_token_is_same(t, u.got, s, l);
                    }
                }
            },
        }
    }
}

/// Two tokens that stand for one lexeme are the same token, and a token that
/// is the same as one that stands for a lexeme stands for it too
pub proof fn lemma_token_is_same(a: Token, b: Token, s: Seq<char>, l: Lexeme)
    requires
        l.rule matches Some(Rule::Literal(x)) ==> literal_text(x) is Some,
    ensures
        token_is(a, s, l) && token_is(b, s, l) ==> same_token(a, b),
        token_is(b, s, l) && same_token(a, b) ==> token_is(a, s, l),
{
    match (a, b) {
        (Token::EscapedId(x), Token::EscapedId(y)) => {},
        (Token::EscapedId(_), _) => {},
        (_, Token::EscapedId(_)) => {},
        _ => {
            if same_token(a, b) {
                assert(a == b);
            }
        },
    }
}

/// The token that `peek` shows is the one that `next` takes: taking a token
/// makes the lexeme ahead the current one, and any two tokens standing for it
/// are the same token
pub proof fn lemma_peek_then_next(
    s: Seq<char>,
    st: LexerState,
    peeked: Option<Token>,
    taken: Option<Token>,
)
    requires
        valid_state(s, st),
        token_of(peeked, s, lookahead(s, st)),
        token_of(taken, s, advance(s, st).current),
    ensures
        advance(s, st).current == lookahead(s, st),
        peeked is None <==> taken is None,
        peeked matches Some(a) ==> taken matches Some(b) && same_token(a, b),
{
    lemma_lookahead_bounds(s, st.pos as int, after_newline(st));
    if let Some(l) = lookahead(s, st) {
        if l.rule is Some {
            super::scan::lemma_scan_rule_matches(s, l.start as int);
        }
        lemma_token_is_same(peeked.unwrap(), taken.unwrap(), s, l);
    }
}

/// The tokens that count as operators
pub open spec fn operator_tokens() -> Seq<Token> {
    seq![
        Token::Operator(OperatorKind::Prefix),
        Token::Operator(OperatorKind::Infix),
        Token::Operator(OperatorKind::Postfix),
        Token::Less,
        Token::Greater,
    ]
}

/// The next token is an operator
pub open spec fn token_of_is_operator(s: Seq<char>, st: LexerState) -> bool {
    lookahead(s, st) matches Some(l) && (l.rule == Some(Rule::Operator) || l.rule == Some(
        Rule::Literal(Token::Less),
    ) || l.rule == Some(Rule::Literal(Token::Greater)))
}

/// A token is among the operator tokens exactly when it is an operator
pub proof fn lemma_operator_tokens(t: Token)
    ensures
        contains_token(operator_tokens(), t) <==> t.spec_is_operator(),
{
    if t.spec_is_operator() {
        match t {
            Token::Operator(OperatorKind::Prefix) => {
                assert(same_token(operator_tokens()[0], t));
            },
            Token::Operator(OperatorKind::Infix) => {
                assert(same_token(operator_tokens()[1], t));
            },
            Token::Operator(OperatorKind::Postfix) => {
                assert(same_token(operator_tokens()[2], t));
            },
            Token::Less => {
                assert(same_token(operator_tokens()[3], t));
            },
            _ => {
                assert(same_token(operator_tokens()[4], t));
            },
        }
    }
}

/// The tokens of a lexeme are operators exactly when its rule is
pub proof fn lemma_not_operator(s: Seq<char>, st: LexerState)
    requires
        valid_state(s, st),
    ensures
        forall|t: Token|
            lookahead(s, st) matches Some(l) && token_is(t, s, l) ==> (t.spec_is_operator()
                <==> token_of_is_operator(s, st)),
{
    assert forall|t: Token|
        lookahead(s, st) matches Some(l) && token_is(t, s, l) implies (t.spec_is_operator()
        <==> token_of_is_operator(s, st)) by {
        lemma_operator_tokens(t);
        lemma_lookahead_bounds(s, st.pos as int, after_newline(st));
        let l = lookahead(s, st).unwrap();
        if l.rule is Some {
            super::scan::lemma_scan_rule_matches(s, l.start as int);
        }
    }
}

/// Byte offsets of the spans of a valid state fit in `usize` and are ordered
pub proof fn lemma_byte_spans(s: Seq<char>, st: LexerState)
    requires
        valid_state(s, st),
        byte_offset(s, s.len() as int) <= usize::MAX,
    ensures
        byte_offset(s, st.span.0 as int) <= byte_offset(s, st.span.1 as int) <= usize::MAX,
        byte_offset(s, lookahead_span(s, st).0 as int) <= byte_offset(
            s,
            lookahead_span(s, st).1 as int,
        ) <= usize::MAX,
        lookahead_span(s, st).0 <= lookahead_span(s, st).1 <= s.len(),
{
    lemma_lookahead_bounds(s, st.pos as int, after_newline(st));
    super::stream::lemma_byte_offset_mono(s, st.span.0 as int, st.span.1 as int);
    super::stream::lemma_byte_offset_mono(s, st.span.1 as int, s.len() as int);
    let ls = lookahead_span(s, st);
    super::stream::lemma_byte_offset_mono(s, ls.0 as int, ls.1 as int);
    super::stream::lemma_byte_offset_mono(s, ls.1 as int, s.len() as int);
}

/// A vector holding the tokens of the slice
pub fn tokens_to_vec(tokens: &[Token]) -> (v: Vec<Token>)
    ensures
        v@ == tokens@,
{
    let mut v: Vec<Token> = Vec::new();
    let mut k: usize = 0;
    while k < tokens.len()
        invariant
            k <= tokens@.len(),
            v@ == tokens@.take(k as int),
        decreases tokens@.len() - k,
    {
        v.push(tokens[k].clone());
        proof {
            assert(tokens@.take(k + 1) =~= tokens@.take(k as int).push(tokens@[k as int]));
        }
        k = k + 1;
    }
    proof {
        assert(tokens@.take(tokens@.len() as int) =~= tokens@);
    }
    v
}

/// Does `tokens` hold `token`?
pub fn contains(tokens: &[Token], token: &Token) -> (b: bool)
    ensures
        b == contains_token(tokens@, *token),
{
    let mut k: usize = 0;
    while k < tokens.len()
        invariant
            k <= tokens@.len(),
            forall|j: int| 0 <= j < k ==> !same_token(#[trigger] tokens@[j], *token),
        decreases tokens@.len() - k,
    {
        if tokens[k].same_as(token) {
            return true;
        }
        k = k + 1;
    }
    false
}


/// Lexer for full source code of PPL
pub struct FullSourceLexer<'source> {
    /// Source code
    source: &'source str,
    /// Characters of the source and their byte offsets
    stream: TokenStream,
    /// Position (in characters) after the current token
    pos: usize,
    /// Lexeme of the current token
    current: Ghost<Option<Lexeme>>,
    /// Current token
    token: Option<Token>,
    /// Character range of current token
    span: (usize, usize),
    /// Peeked token and its character range
    peeked: Option<(Token, usize, usize)>,
    /// Lexeme of the peeked token
    peeked_lexeme: Ghost<Option<Lexeme>>,
    /// Current indentation level
    indentation: usize,
}

impl<'source> FullSourceLexer<'source> {
    /// Create new lexer
    pub fn new(source: &'source str) -> (l: Self)
        ensures
            l.wf(),
            l.text() == source@,
            l.state() == initial_state(),
    {
        let stream = TokenStream::new(source);
        FullSourceLexer {
            source,
            stream,
            pos: 0,
            current: Ghost(Option::None),
            token: Option::None,
            span: (0, 0),
            peeked: Option::None,
            peeked_lexeme: Ghost(Option::None),
            indentation: 0,
        }
    }

    /// Lex the next token into the cache, unless it is there already
    fn fill(&mut self)
        requires
            old(self).wf(),
        ensures
            final(self).wf(),
            final(self).text() == old(self).text(),
            final(self).state() == old(self).state(),
            final(self).peeked is Some <==> lookahead(old(self).text(), old(self).state()) is Some,
    {
        if self.peeked.is_none() {
            proof {
                lemma_lookahead_bounds(self.text(), self.pos as int, after_newline(self.state()));
            }
            let after_nl = match &self.token {
                Some(Token::Newline) => true,
                _ => false,
            };
            match self.stream.lookahead(self.pos, after_nl) {
                Some((rule, a, b)) => {
                    proof {
                        if rule is Some {
                            super::scan::lemma_scan_rule_matches(self.text(), a as int);
                        }
                    }
                    let t = self.stream.make_token(self.source, &rule, a, b);
                    self.peeked = Some((t, a, b));
                    self.peeked_lexeme = Ghost(Some(Lexeme { rule, start: a as nat, end: b as nat }));
                },
                Option::None => {},
            }
        }
    }
}

impl<'source> Lexer for FullSourceLexer<'source> {
    closed spec fn text(&self) -> Seq<char> {
        self.stream.text()
    }

    closed spec fn state(&self) -> LexerState {
        LexerState {
            pos: self.pos as nat,
            current: self.current@,
            span: (self.span.0 as nat, self.span.1 as nat),
            indentation: self.indentation as nat,
        }
    }

    closed spec fn wf(&self) -> bool {
        &&& self.source@ == self.stream.text()
        &&& self.stream.wf()
        &&& valid_state(self.text(), self.state())
        &&& token_of(self.token, self.text(), self.current@)
        &&& match self.peeked {
            Some((t, a, b)) => self.peeked_lexeme@ matches Some(l) && lookahead(
                self.text(),
                self.state(),
            ) == Some(l) && a == l.start && b == l.end && token_is(t, self.text(), l),
            Option::None => true,
        }
    }

    proof fn lemma_wf(&self) {
        assert(self.stream.offsets@[self.text().len() as int] == byte_offset(
            self.text(),
            self.text().len() as int,
        ));
    }

    fn source(&self) -> (s: &str) {
        self.source
    }

    fn token(&self) -> (t: Option<Token>) {
        match &self.token {
            Some(t) => Some(t.clone()),
            Option::None => Option::None,
        }
    }

    fn peek(&mut self) -> (t: Option<Token>) {
        self.fill();
        match &self.peeked {
            Some((t, _, _)) => Some(t.clone()),
            Option::None => Option::None,
        }
    }

    fn peek_span(&mut self) -> (r: std::ops::Range<usize>) {
        self.fill();
        proof {
            lemma_lookahead_bounds(self.text(), self.pos as int, after_newline(self.state()));
        }
        match &self.peeked {
            Some((_, a, b)) => self.stream.byte(*a)..self.stream.byte(*b),
            Option::None => {
                let n = self.stream.byte(self.stream.chars.len());
                n..n
            },
        }
    }

    fn peek_slice(&mut self) -> (r: &str) {
        self.fill();
        proof {
            lemma_lookahead_bounds(self.text(), self.pos as int, after_newline(self.state()));
        }
        match &self.peeked {
            Some((_, a, b)) => self.source.substring_char(*a, *b),
            Option::None => {
                let n = self.stream.chars.len();
                self.source.substring_char(n, n)
            },
        }
    }

    fn span(&self) -> (r: std::ops::Range<usize>) {
        self.stream.byte(self.span.0)..self.stream.byte(self.span.1)
    }

    fn slice(&self) -> (r: &str) {
        self.source.substring_char(self.span.0, self.span.1)
    }

    fn next(&mut self) -> (t: Option<Token>) {
        self.fill();
        proof {
            lemma_lookahead_bounds(self.text(), self.pos as int, after_newline(self.state()));
        }
        match self.peeked.take() {
            Some((t, a, b)) => {
                let newline = match &t {
                    Token::Newline => true,
                    _ => false,
                };
                if newline {
                    self.indentation = 0;
                }
                self.span = (a, b);
                self.pos = b;
                self.current = Ghost(self.peeked_lexeme@);
                self.token = Some(t.clone());
                Some(t)
            },
            Option::None => {
                let n = self.stream.chars.len();
                self.span = (n, n);
                self.pos = n;
                self.current = Ghost(Option::None);
                self.token = Option::None;
                Option::None
            },
        }
    }

    fn indentation(&self) -> (n: usize) {
        self.indentation
    }

    fn skip_indentation(&mut self) {
        loop
            invariant
                self.wf(),
                self.text() == old(self).text(),
                skip_tabs(self.text(), self.state()) == skip_tabs(old(self).text(), old(self).state()),
            decreases self.text().len() - self.state().pos,
        {
            proof {
                lemma_advance_valid(self.text(), self.state());
                lemma_lookahead_bounds(self.text(), self.pos as int, after_newline(self.state()));
            }
            let t = self.peek();
            let tab = match t {
                Some(Token::Tab) => true,
                _ => false,
            };
            if !tab {
                return;
            }
            self.next();
            self.indentation = self.indentation + 1;
        }
    }
}

} // verus!
