use vstd::prelude::*;
use vstd::string::StrSliceExecFns;
use vstd::string::StringExecFns;

use super::lexer::{token_of, Lexer};
use super::scan::Rule;
use super::stream::{
    advance, after_newline, byte_offset, initial_state, lemma_advance_valid, lemma_lookahead_bounds,
    lookahead, lookahead_span, skip_tabs, token_is, valid_state, Lexeme, LexerState, TokenStream,
};
use super::token::Token;

verus! {

/// Lexer for source code that arrives line by line (an interactive stream).
///
/// The lexer itself does no input: whoever drives it asks `needs_line`
/// before each request, reads a line when it is `true` (showing
/// `take_prompt`), and hands the line to `push_line`.
pub struct InteractiveLexer {
    /// Prompt to display before reading next line
    pub prompt: String,
    /// Used to override next prompt
    next_prompt: Option<String>,
    /// Current source code of lexer
    source: String,
    /// Characters of the source and their byte offsets
    stream: TokenStream,
    /// Position (in characters) after the current token
    pos: usize,
    /// Lexeme of the current token
    current: Ghost<Option<Lexeme>>,
    /// Rule and character range of the current token
    current_lexeme: Option<(Option<Rule>, usize, usize)>,
    /// Current token
    token: Option<Token>,
    /// Character range of current token
    span: (usize, usize),
    /// Current indentation level
    indentation: usize,
}

impl InteractiveLexer {
    /// The usual prompt, as text
    pub closed spec fn prompt_view(&self) -> Seq<char> {
        self.prompt@
    }

    /// The prompt that overrides the next one, if any
    pub closed spec fn spec_next_prompt(&self) -> Option<Seq<char>> {
        match self.next_prompt {
            Some(p) => Some(p@),
            Option::None => Option::None,
        }
    }

    /// Create new interactive lexer
    pub fn new() -> (l: Self)
        ensures
            l.wf(),
            l.text() == Seq::<char>::empty(),
            l.state() == initial_state(),
            l.prompt_view() == "... "@,
            l.spec_next_prompt() is None,
    {
        let source = String::new();
        let stream = TokenStream::new(source.as_str());
        InteractiveLexer {
            prompt: String::from_str("... "),
            next_prompt: Option::None,
            source,
            stream,
            pos: 0,
            current: Ghost(Option::None),
            current_lexeme: Option::None,
            token: Option::None,
            span: (0, 0),
            indentation: 0,
        }
    }

    /// Override next prompt
    pub fn override_next_prompt(&mut self, prompt: &str)
        ensures
            final(self).spec_next_prompt() == Some(prompt@),
            final(self).prompt_view() == old(self).prompt_view(),
            final(self).text() == old(self).text(),
            final(self).state() == old(self).state(),
            final(self).wf() == old(self).wf(),
    {
        self.next_prompt = Some(String::from_str(prompt));
    }

    /// The prompt to show before reading the next line: the overriding one,
    /// which is then used up, or the usual one
    pub fn take_prompt(&mut self) -> (p: String)
        ensures
            p@ == match old(self).spec_next_prompt() {
                Some(q) => q,
                Option::None => old(self).prompt_view(),
            },
            final(self).spec_next_prompt() is None,
            final(self).prompt_view() == old(self).prompt_view(),
            final(self).text() == old(self).text(),
            final(self).state() == old(self).state(),
            final(self).wf() == old(self).wf(),
    {
        match self.next_prompt.take() {
            Some(p) => p,
            Option::None => self.prompt.clone(),
        }
    }

    /// Is the lexer at the end of the source code, so that a line must be
    /// read before the next request?
    pub fn needs_line(&self) -> (b: bool)
        requires
            self.wf(),
        ensures
            b == (self.state().span.1 == self.text().len()),
    {
        self.span.1 == self.stream.chars.len()
    }

    /// Append a line to the source code
    pub fn push_line(&mut self, line: &str)
        requires
            old(self).wf(),
        ensures
            final(self).wf(),
            final(self).text() == old(self).text() + line@,
            final(self).state() == old(self).state(),
            final(self).prompt_view() == old(self).prompt_view(),
            final(self).spec_next_prompt() == old(self).spec_next_prompt(),
    {
        self.source.append(line);
        let total = self.source.as_str().as_bytes().len();
        self.stream.push_str(line);
        let lexeme = &self.current_lexeme;
        match lexeme {
            Some((rule, a, b)) => {
                self.token = Some(self.stream.make_token(self.source.as_str(), rule, *a, *b));
            },
            Option::None => {},
        }
    }

    /// The lexeme that comes next, with its token
    fn lookahead_token(&self) -> (r: Option<(Token, Option<Rule>, usize, usize)>)
        requires
            self.wf(),
        ensures
            match lookahead(self.text(), self.state()) {
                Some(l) => r matches Some((t, rule, a, b)) && rule == l.rule && a == l.start && b
                    == l.end && token_is(t, self.text(), l),
                Option::None => r is None,
            },
    {
        proof {
            lemma_lookahead_bounds(self.text(), self.pos as int, after_newline(self.state()));
        }
        let after_nl = match &self.token {
            Some(Token::Newline) => true,
            _ => false,
        };
        match self.stream.lookahead(self.pos, after_nl) {
            Some((rule, a, b)) => {
                proof {
                    if rule is Some {
                        super::scan::lemma_scan_rule_matches(self.text(), a as int);
                    }
                }
                let t = self.stream.make_token(self.source.as_str(), &rule, a, b);
                Some((t, rule, a, b))
            },
            Option::None => Option::None,
        }
    }
}

impl Lexer for InteractiveLexer {
    closed spec fn text(&self) -> Seq<char> {
        self.stream.text()
    }

    closed spec fn state(&self) -> LexerState {
        LexerState {
            pos: self.pos as nat,
            current: self.current@,
            span: (self.span.0 as nat, self.span.1 as nat),
            indentation: self.indentation as nat,
        }
    }

    closed spec fn wf(&self) -> bool {
        &&& self.source@ == self.stream.text()
        &&& self.stream.wf()
        &&& valid_state(self.text(), self.state())
        &&& token_of(self.token, self.text(), self.current@)
        &&& match self.current@ {
            Some(l) => self.current_lexeme matches Some((rule, a, b)) && rule == l.rule && a
                == l.start && b == l.end,
            Option::None => self.current_lexeme is None,
        }
    }

    proof fn lemma_wf(&self) {
        assert(self.stream.offsets@[self.text().len() as int] == byte_offset(
            self.text(),
            self.text().len() as int,
        ));
    }

    fn source(&self) -> (s: &str) {
        self.source.as_str()
    }

    fn token(&self) -> (t: Option<Token>) {
        match &self.token {
            Some(t) => Some(t.clone()),
            Option::None => Option::None,
        }
    }

    fn peek(&mut self) -> (t: Option<Token>) {
        match self.lookahead_token() {
            Some((t, _, _, _)) => Some(t),
            Option::None => Option::None,
        }
    }

    fn peek_span(&mut self) -> (r: std::ops::Range<usize>) {
        proof {
            lemma_lookahead_bounds(self.text(), self.pos as int, after_newline(self.state()));
        }
        match self.lookahead_token() {
            Some((_, _, a, b)) => self.stream.byte(a)..self.stream.byte(b),
            Option::None => {
                let n = self.stream.byte(self.stream.chars.len());
                n..n
            },
        }
    }

    fn peek_slice(&mut self) -> (r: &str) {
        proof {
            lemma_lookahead_bounds(self.text(), self.pos as int, after_newline(self.state()));
        }
        match self.lookahead_token() {
            Some((_, _, a, b)) => self.source.as_str().substring_char(a, b),
            Option::None => {
                let n = self.stream.chars.len();
                self.source.as_str().substring_char(n, n)
            },
        }
    }

    fn span(&self) -> (r: std::ops::Range<usize>) {
        self.stream.byte(self.span.0)..self.stream.byte(self.span.1)
    }

    fn slice(&self) -> (r: &str) {
        self.source.as_str().substring_char(self.span.0, self.span.1)
    }

    fn next(&mut self) -> (t: Option<Token>) {
        proof {
            lemma_lookahead_bounds(self.text(), self.pos as int, after_newline(self.state()));
            lemma_advance_valid(self.text(), self.state());
        }
        match self.lookahead_token() {
            Some((t, rule, a, b)) => {
                let newline = match &t {
                    Token::Newline => true,
                    _ => false,
                };
                if newline {
                    self.indentation = 0;
                }
                let ghost l = Lexeme { rule, start: a as nat, end: b as nat };
                self.span = (a, b);
                self.pos = b;
                self.current = Ghost(Some(l));
                self.current_lexeme = Some((rule, a, b));
                self.token = Some(t.clone());
                Some(t)
            },
            Option::None => {
                let n = self.stream.chars.len();
                self.span = (n, n);
                self.pos = n;
                self.current = Ghost(Option::None);
                self.current_lexeme = Option::None;
                self.token = Option::None;
                Option::None
            },
        }
    }

    fn indentation(&self) -> (n: usize) {
        self.indentation
    }

    fn skip_indentation(&mut self) {
        loop
            invariant
                self.wf(),
                self.text() == old(self).text(),
                skip_tabs(self.text(), self.state()) == skip_tabs(old(self).text(), old(self).state()),
            decreases self.text().len() - self.state().pos,
        {
            proof {
                lemma_advance_valid(self.text(), self.state());
                lemma_lookahead_bounds(self.text(), self.pos as int, after_newline(self.state()));
            }
            let t = self.peek();
            let tab = match t {
                Some(Token::Tab) => true,
                _ => false,
            };
            if !tab {
                return;
            }
            self.next();
            self.indentation = self.indentation + 1;
        }
    }
}

} // verus!
