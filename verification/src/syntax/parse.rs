use vstd::prelude::*;

use super::ast::{
    parses_literal, parses_statement, parses_variable_declaration, parses_variable_reference,
    Declaration, Literal, Statement, VariableDeclaration, VariableReference,
};
use super::error::{LexerError, ParseError};
use super::identifier::Identifier;
use super::lexer::{contains_token, lemma_match_single, match_result, next_is, Lexer};
use super::scan::{lemma_scan_rule_matches, Rule};
use super::precedence::PrecedenceGroups;
use super::stream::{
    advance, after_newline, byte_offset, lemma_advance_valid, lemma_lookahead_bounds,
    lemma_skip_tabs_valid, lookahead, skip_tabs, token_is, LexerState,
};
use super::token::{same_token, Token};
use super::with_offset::StringWithOffset;

verus! {

/// Context for parsing
pub struct Context<L: Lexer> {
    /// Lexer to use for parsing
    pub lexer: L,
    /// Currently active precedence groups for operators
    pub precedence_groups: PrecedenceGroups,
}

/// Trait for parsing using context.lexer
///
/// `parses` says what parsing gives and where it leaves the lexer. Parsing
/// never moves the lexer back, and moves it forward when it succeeds.
pub trait Parse: Sized {
    type Err;

    /// Parsing from state `st` of `s` gives `r` and ends in `st2`
    spec fn parses(s: Seq<char>, st: LexerState, r: Result<Self, Self::Err>, st2: LexerState) -> bool;

    /// Parse starting from current context.lexer state
    fn parse<L: Lexer>(context: &mut Context<L>) -> (r: Result<Self, Self::Err>)
        requires
            old(context).lexer.wf(),
        ensures
            final(context).lexer.wf(),
            final(context).lexer.text() == old(context).lexer.text(),
            final(context).precedence_groups == old(context).precedence_groups,
            Self::parses(
                old(context).lexer.text(),
                old(context).lexer.state(),
                r,
                final(context).lexer.state(),
            ),
            old(context).lexer.state().pos <= final(context).lexer.state().pos,
            r is Ok ==> old(context).lexer.state().pos < final(context).lexer.state().pos,
    ;
}

/// Trait for checking that current context.lexer state is 100% start of a node
pub trait StartsHere {
    /// Check if current context.lexer state is 100% start of this node
    fn starts_here<L: Lexer>(context: &mut Context<L>) -> bool
        requires
            old(context).lexer.wf(),
    ;
}

/// The text and byte offset of the current token of state `st`
pub open spec fn current_text(s: Seq<char>, st: LexerState) -> (nat, Seq<char>) {
    (byte_offset(s, st.span.0 as int), s.subrange(st.span.0 as int, st.span.1 as int))
}

/// A block goes on in state `st`: the indentation is the block's and a token
/// comes next
pub open spec fn in_block(s: Seq<char>, st: LexerState, indentation: nat) -> bool {
    st.indentation == indentation && lookahead(s, st) is Some
}

/// One item of a block: in state `st`, which is in the block, the item `x`
/// is parsed and ends in `m`; the tabs after it are skipped, which gives
/// `next`
pub open spec fn block_step<T: Parse>(
    s: Seq<char>,
    indentation: nat,
    x: T,
    st: LexerState,
    m: LexerState,
    next: LexerState,
) -> bool {
    &&& in_block(s, st, indentation)
    &&& T::parses(s, st, Ok(x), m)
    &&& next == skip_tabs(s, m)
}

/// The items of a block as far as they were parsed: item `i` is parsed from
/// `sts[i]` and ends in `ms[i]`, and `sts[i + 1]` follows
pub open spec fn block_trace<T: Parse>(
    s: Seq<char>,
    indentation: nat,
    items: Seq<T>,
    sts: Seq<LexerState>,
    ms: Seq<LexerState>,
) -> bool {
    &&& sts.len() == items.len() + 1
    &&& ms.len() == items.len()
    &&& forall|i: int|
        0 <= i < items.len() ==> #[trigger] block_step(s, indentation, items[i], sts[i], ms[i], sts[i + 1])
}

/// The items of a block at `indentation`, parsed from `st`, give `r` and end
/// in `st2`: the block stops with `Ok` where it no longer goes on, and with the
/// error of the first item that fails
pub open spec fn parses_block_items<T: Parse>(
    s: Seq<char>,
    st: LexerState,
    indentation: nat,
    r: Result<Seq<T>, T::Err>,
    st2: LexerState,
) -> bool {
    exists|items: Seq<T>, sts: Seq<LexerState>, ms: Seq<LexerState>|
        #[trigger] block_trace(s, indentation, items, sts, ms) && sts[0] == st && match r {
            Ok(v) => v == items && !in_block(s, sts.last(), indentation) && st2 == sts.last(),
            Err(e) => in_block(s, sts.last(), indentation) && T::parses(
                s,
                sts.last(),
                Err(e),
                st2,
            ),
        }
}

/// One item of a sequence with separators: in state `st` the item `x` is
/// parsed and ends in `m`, where the separator comes next; taking it gives
/// `next`
pub open spec fn separated_step<T: Parse>(
    s: Seq<char>,
    separator: Token,
    x: T,
    st: LexerState,
    m: LexerState,
    next: LexerState,
) -> bool {
    &&& T::parses(s, st, Ok(x), m)
    &&& next_is(s, m, separator)
    &&& next == advance(s, m)
}

/// The items of a sequence with separators as far as they were parsed: item
/// `i` is parsed from `sts[i]` and ends in `ms[i]`, and each is followed by
/// the separator, which is taken and gives `sts[i + 1]`
pub open spec fn separated_trace<T: Parse>(
    s: Seq<char>,
    separator: Token,
    items: Seq<T>,
    sts: Seq<LexerState>,
    ms: Seq<LexerState>,
) -> bool {
    &&& sts.len() == items.len() + 1
    &&& ms.len() == items.len()
    &&& forall|i: int|
        0 <= i < items.len() ==> #[trigger] separated_step(
            s,
            separator,
            items[i],
            sts[i],
            ms[i],
            sts[i + 1],
        )
}

/// Parsing items separated by `separator` from `st` gives `items` and ends in
/// `st2`: either an item fails, and the lexer stays where that item left it,
/// or the separator is missing after the last item
pub open spec fn parses_separated<T: Parse>(
    s: Seq<char>,
    st: LexerState,
    separator: Token,
    items: Seq<T>,
    st2: LexerState,
) -> bool {
    ||| exists|sts: Seq<LexerState>, ms: Seq<LexerState>, e: T::Err|
        #![trigger separated_trace(s, separator, items, sts, ms), T::parses(s, sts.last(), Err(e), st2)]
        separated_trace(s, separator, items, sts, ms) && sts[0] == st && T::parses(
            s,
            sts.last(),
            Err(e),
            st2,
        )
    ||| exists|sts: Seq<LexerState>, ms: Seq<LexerState>|
        #![trigger separated_trace(s, separator, items.drop_last(), sts, ms)]
        separated_trace(s, separator, items.drop_last(), sts, ms) && sts[0] == st
            && items.len() > 0 && T::parses(s, sts.last(), Ok(items.last()), st2)
            && !next_is(s, st2, separator)
}

/// The items of a vector result
pub open spec fn seq_result<T, E>(r: Result<Vec<T>, E>) -> Result<Seq<T>, E> {
    match r {
        Ok(v) => Ok(v@),
        Err(e) => Err(e),
    }
}

impl<L: Lexer> Context<L> {
    /// Create new context with default precedence groups
    pub fn new(lexer: L) -> (c: Self)
        ensures
            c.lexer == lexer,
            c.precedence_groups.is_default(),
    {
        Context { lexer, precedence_groups: PrecedenceGroups::default() }
    }

    /// Consume end of line (newline or eof)
    pub fn consume_eol(&mut self) -> (r: Result<Option<StringWithOffset>, LexerError>)
        requires
            old(self).lexer.wf(),
        ensures
            final(self).lexer.wf(),
            final(self).lexer.text() == old(self).lexer.text(),
            final(self).precedence_groups == old(self).precedence_groups,
            lookahead(old(self).lexer.text(), old(self).lexer.state()) is None ==> r == Ok::<
                Option<StringWithOffset>,
                LexerError,
            >(Option::None) && final(self).lexer.state() == old(self).lexer.state(),
            lookahead(old(self).lexer.text(), old(self).lexer.state()) is Some ==> exists|
                m: Result<Token, LexerError>,
            |
                match_result(
                    m,
                    seq![Token::Newline],
                    old(self).lexer.text(),
                    old(self).lexer.state(),
                ) && match m {
                    Ok(_) => r matches Ok(Some(w)) && final(self).lexer.state() == advance(
                        old(self).lexer.text(),
                        old(self).lexer.state(),
                    ) && w@ == current_text(final(self).lexer.text(), final(self).lexer.state()),
                    Err(e) => r == Err::<Option<StringWithOffset>, LexerError>(e)
                        && final(self).lexer.state() == old(self).lexer.state(),
                },
    {
        if self.lexer.peek().is_some() {
            return match self.lexer.consume(Token::Newline) {
                Ok(w) => Ok(Some(w)),
                Err(e) => Err(e),
            };
        }
        Ok(Option::None)
    }

    /// Consume id or escaped id
    pub fn consume_id(&mut self) -> (r: Result<Identifier, LexerError>)
        requires
            old(self).lexer.wf(),
        ensures
            final(self).lexer.wf(),
            final(self).lexer.text() == old(self).lexer.text(),
            final(self).precedence_groups == old(self).precedence_groups,
            next_is_id(old(self).lexer.text(), old(self).lexer.state()) ==> (r matches Ok(id)
                && final(self).lexer.state() == advance(
                old(self).lexer.text(),
                old(self).lexer.state(),
            ) && id@ == current_text(final(self).lexer.text(), final(self).lexer.state())),
            !next_is_id(old(self).lexer.text(), old(self).lexer.state()) ==> exists|
                m: Result<Token, LexerError>,
                ts: Seq<Token>,
            |
                id_tokens(ts) && match_result(
                    m,
                    ts,
                    old(self).lexer.text(),
                    old(self).lexer.state(),
                ) && (m matches Err(e) && r == Err::<Identifier, LexerError>(e)
                    && final(self).lexer.state() == old(self).lexer.state()),
    {
        proof {
            self.lexer.lemma_wf();
        }
        let escaped = match self.lexer.peek() {
            Some(Token::EscapedId(name)) => Token::EscapedId(name),
            _ => Token::EscapedId(String::new()),
        };
        let tokens = vec![Token::Id, escaped];
        let ghost ts = tokens@;
        let ghost s = self.lexer.text();
        let ghost st = self.lexer.state();
        proof {
            if let Some(l) = lookahead(s, st) {
                lemma_lookahead_bounds(s, st.pos as int, after_newline(st));
                if l.rule is Some {
                    lemma_scan_rule_matches(s, l.start as int);
                }
                if next_is_id(s, st) {
                    assert(same_token(ts[0], Token::Id));
                } else {
                    assert forall|t: Token| token_is(t, s, l) implies !contains_token(ts, t) by {
                        if contains_token(ts, t) {
                            let k = choose|k: int| 0 <= k < ts.len() && same_token(#[trigger] ts[k], t);
                            assert(k == 0 || k == 1);
                        }
                    }
                }
            }
        }
        match self.lexer.consume_one_of(tokens.as_slice()) {
            Ok(_) => Ok(Identifier::from(self.lexer.string_with_offset())),
            Err(e) => Err(e),
        }
    }
}

impl<L: Lexer> Context<L> {
    /// Parse block of items: a newline, then the items, one per line, at one
    /// level of indentation more than the current one
    pub fn parse_block<T: Parse<Err = ParseError>>(&mut self) -> (r: Result<Vec<T>, ParseError>)
        requires
            old(self).lexer.wf(),
            old(self).lexer.state().indentation < usize::MAX,
        ensures
            final(self).lexer.wf(),
            final(self).lexer.text() == old(self).lexer.text(),
            final(self).precedence_groups == old(self).precedence_groups,
            exists|m: Result<Token, LexerError>|
                match_result(
                    m,
                    seq![Token::Newline],
                    old(self).lexer.text(),
                    old(self).lexer.state(),
                ) && match m {
                    Ok(_) => parses_block_items::<T>(
                        old(self).lexer.text(),
                        skip_tabs(
                            old(self).lexer.text(),
                            advance(old(self).lexer.text(), old(self).lexer.state()),
                        ),
                        old(self).lexer.state().indentation + 1,
                        seq_result(r),
                        final(self).lexer.state(),
                    ),
                    Err(e) => r == Err::<Vec<T>, ParseError>(ParseError::LexerError(e))
                        && final(self).lexer.state() == old(self).lexer.state(),
                },
    {
        let ghost s = self.lexer.text();
        let ghost st0 = self.lexer.state();
        let indentation = self.lexer.indentation() + 1;
        let newline = self.lexer.consume(Token::Newline);
        let ghost m0 = choose|m: Result<Token, LexerError>|
            match_result(m, seq![Token::Newline], s, st0) && match m {
                Ok(_) => newline is Ok,
                Err(e) => newline == Err::<StringWithOffset, LexerError>(e),
            };
        match newline {
            Ok(_) => {},
            Err(e) => {
                return Err(ParseError::LexerError(e));
            },
        }
        proof {
            self.lexer.lemma_wf();
        }
        self.lexer.skip_indentation();
        let mut items: Vec<T> = Vec::new();
        let ghost mut sts: Seq<LexerState> = seq![self.lexer.state()];
        let ghost mut ms: Seq<LexerState> = Seq::empty();
        let ghost start = self.lexer.state();
        loop
            invariant
                self.lexer.wf(),
                self.lexer.text() == s,
                self.precedence_groups == old(self).precedence_groups,
                s == old(self).lexer.text(),
                st0 == old(self).lexer.state(),
                match_result(m0, seq![Token::Newline], s, st0) && m0 is Ok,
                start == skip_tabs(s, advance(s, st0)),
                indentation == st0.indentation + 1,
                block_trace::<T>(s, indentation as nat, items@, sts, ms),
                sts[0] == start,
                sts.last() == self.lexer.state(),
            decreases s.len() - self.lexer.state().pos,
        {
            proof {
                self.lexer.lemma_wf();
            }
            let at_indentation = self.lexer.indentation() == indentation;
            let more = at_indentation && self.lexer.peek().is_some();
            if !more {
                proof {
                    assert(!in_block(s, sts.last(), indentation as nat));
                    assert(block_trace::<T>(s, indentation as nat, items@, sts, ms));
                    assert(match_result(m0, seq![Token::Newline], s, st0) && m0 is Ok);
                }
                return Ok(items);
            }
            let ghost before = self.lexer.state();
            assert(in_block(s, before, indentation as nat));
            let item = T::parse(self);
            match item {
                Ok(x) => {
                    let ghost m = self.lexer.state();
                    assert(T::parses(s, before, Ok(x), m));
                    proof {
                        self.lexer.lemma_wf();
                        lemma_skip_tabs_valid(s, m);
                    }
                    self.lexer.skip_indentation();
                    let ghost old_items = items@;
                    items.push(x);
                    proof {
                        lemma_block_trace_push::<T>(
                            s,
                            indentation as nat,
                            old_items,
                            sts,
                            ms,
                            x,
                            m,
                            self.lexer.state(),
                        );
                        sts = sts.push(self.lexer.state());
                        ms = ms.push(m);
                    }
                },
                Err(e) => {
                    proof {
                        assert(block_trace::<T>(s, indentation as nat, items@, sts, ms));
                        assert(match_result(m0, seq![Token::Newline], s, st0) && m0 is Ok);
                    }
                    return Err(e);
                },
            }
        }
    }
}

/// A trace of separated items grows by an item followed by the separator
proof fn lemma_separated_trace_push<T: Parse>(
    s: Seq<char>,
    separator: Token,
    items: Seq<T>,
    sts: Seq<LexerState>,
    ms: Seq<LexerState>,
    x: T,
    m: LexerState,
    next: LexerState,
)
    requires
        separated_trace(s, separator, items, sts, ms),
        separated_step(s, separator, x, sts.last(), m, next),
    ensures
        separated_trace(s, separator, items.push(x), sts.push(next), ms.push(m)),
{
    let items2 = items.push(x);
    let sts2 = sts.push(next);
    let ms2 = ms.push(m);
    assert forall|i: int| 0 <= i < items2.len() implies #[trigger] separated_step(
        s,
        separator,
        items2[i],
        sts2[i],
        ms2[i],
        sts2[i + 1],
    ) by {
        if i < items.len() {
            assert(separated_step(s, separator, items[i], sts[i], ms[i], sts[i + 1]));
            assert(items2[i] == items[i]);
            assert(sts2[i] == sts[i]);
            assert(ms2[i] == ms[i]);
            assert(sts2[i + 1] == sts[i + 1]);
        }
    }
}

/// A block's trace grows by an item parsed in the block
proof fn lemma_block_trace_push<T: Parse>(
    s: Seq<char>,
    indentation: nat,
    items: Seq<T>,
    sts: Seq<LexerState>,
    ms: Seq<LexerState>,
    x: T,
    m: LexerState,
    next: LexerState,
)
    requires
        block_trace(s, indentation, items, sts, ms),
        in_block(s, sts.last(), indentation),
        T::parses(s, sts.last(), Ok(x), m),
        next == skip_tabs(s, m),
    ensures
        block_trace(s, indentation, items.push(x), sts.push(next), ms.push(m)),
{
    let items2 = items.push(x);
    let sts2 = sts.push(next);
    let ms2 = ms.push(m);
    assert forall|i: int| 0 <= i < items2.len() implies #[trigger] block_step(s, indentation, items2[i], sts2[i], ms2[i], sts2[i + 1]) by {
        if i < items.len() {
            assert(block_step(s, indentation, items[i], sts[i], ms[i], sts[i + 1]));
            assert(items2[i] == items[i]);
            assert(sts2[i] == sts[i]);
            assert(ms2[i] == ms[i]);
            assert(sts2[i + 1] == sts[i + 1]);
        }
    }
}

impl<L: Lexer> Context<L> {
    /// Parse items separated by separator: items are parsed while they
    /// parse, each followed by the separator; the lexer stays where the
    /// failing item or the missing separator left it
    pub fn parse_separated<T: Parse>(&mut self, separator: Token) -> (items: Vec<T>)
        requires
            old(self).lexer.wf(),
        ensures
            final(self).lexer.wf(),
            final(self).lexer.text() == old(self).lexer.text(),
            final(self).precedence_groups == old(self).precedence_groups,
            parses_separated(
                old(self).lexer.text(),
                old(self).lexer.state(),
                separator,
                items@,
                final(self).lexer.state(),
            ),
    {
        let ghost s = self.lexer.text();
        let ghost start = self.lexer.state();
        let mut items: Vec<T> = Vec::new();
        let ghost mut sts: Seq<LexerState> = seq![start];
        let ghost mut ms: Seq<LexerState> = Seq::empty();
        loop
            invariant
                self.lexer.wf(),
                self.lexer.text() == s,
                s == old(self).lexer.text(),
                start == old(self).lexer.state(),
                self.precedence_groups == old(self).precedence_groups,
                separated_trace::<T>(s, separator, items@, sts, ms),
                sts[0] == start,
                sts.last() == self.lexer.state(),
            decreases s.len() - self.lexer.state().pos,
        {
            proof {
                self.lexer.lemma_wf();
            }
            let ghost before = self.lexer.state();
            let item = T::parse(self);
            match item {
                Ok(x) => {
                    let ghost m = self.lexer.state();
                    let ghost old_items = items@;
                    proof {
                        self.lexer.lemma_wf();
                        lemma_advance_valid(s, m);
                    }
                    items.push(x);
                    let taken = self.lexer.consume(separator.clone());
                    let ghost mr = choose|r: Result<Token, LexerError>|
                        match_result(r, seq![separator], s, m) && match r {
                            Ok(_) => taken is Ok,
                            Err(e) => taken == Err::<StringWithOffset, LexerError>(e),
                        };
                    proof {
                        lemma_match_single(mr, separator, s, m);
                    }
                    match taken {
                        Ok(_) => {
                            proof {
                                lemma_separated_trace_push::<T>(
                                    s,
                                    separator,
                                    old_items,
                                    sts,
                                    ms,
                                    x,
                                    m,
                                    self.lexer.state(),
                                );
                                sts = sts.push(self.lexer.state());
                                ms = ms.push(m);
                            }
                        },
                        Err(_) => {
                            proof {
                                assert(old_items == items@.drop_last());
                                assert(separated_trace::<T>(s, separator, items@.drop_last(), sts, ms));
                            }
                            return items;
                        },
                    }
                },
                Err(e) => {
                    proof {
                        assert(separated_trace::<T>(s, separator, items@, sts, ms));
                    }
                    return items;
                },
            }
        }
    }

    /// Parse items separated by comma
    pub fn parse_comma_separated<T: Parse>(&mut self) -> (items: Vec<T>)
        requires
            old(self).lexer.wf(),
        ensures
            final(self).lexer.wf(),
            final(self).lexer.text() == old(self).lexer.text(),
            final(self).precedence_groups == old(self).precedence_groups,
            parses_separated(
                old(self).lexer.text(),
                old(self).lexer.state(),
                Token::Comma,
                items@,
                final(self).lexer.state(),
            ),
    {
        self.parse_separated(Token::Comma)
    }
}

/// The next token is an identifier, escaped or not
pub open spec fn next_is_id(s: Seq<char>, st: LexerState) -> bool {
    lookahead(s, st) matches Some(l) && (l.rule == Some(Rule::Id) || l.rule == Some(
        Rule::EscapedId,
    ))
}

/// The tokens that an identifier is expected as: `Id` and an empty `EscapedId`
pub open spec fn id_tokens(ts: Seq<Token>) -> bool {
    &&& ts.len() == 2
    &&& ts[0] == Token::Id
    &&& (ts[1] matches Token::EscapedId(x) && x@.len() == 0)
}

impl Parse for Literal {
    type Err = ParseError;

    open spec fn parses(
        s: Seq<char>,
        st: LexerState,
        r: Result<Self, ParseError>,
        st2: LexerState,
    ) -> bool {
        parses_literal(s, st, r, st2)
    }

    /// Parse literal using lexer
    fn parse<L: Lexer>(context: &mut Context<L>) -> (r: Result<Self, ParseError>) {
        Literal::parse(&mut context.lexer)
    }
}

impl Parse for VariableReference {
    type Err = ParseError;

    open spec fn parses(
        s: Seq<char>,
        st: LexerState,
        r: Result<Self, ParseError>,
        st2: LexerState,
    ) -> bool {
        parses_variable_reference(s, st, r, st2)
    }

    /// Parse variable reference using lexer
    fn parse<L: Lexer>(context: &mut Context<L>) -> (r: Result<Self, ParseError>) {
        VariableReference::parse(&mut context.lexer)
    }
}

impl Parse for VariableDeclaration {
    type Err = ParseError;

    open spec fn parses(
        s: Seq<char>,
        st: LexerState,
        r: Result<Self, ParseError>,
        st2: LexerState,
    ) -> bool {
        parses_variable_declaration(s, st, r, st2)
    }

    /// Parse variable declaration using lexer
    fn parse<L: Lexer>(context: &mut Context<L>) -> (r: Result<Self, ParseError>) {
        VariableDeclaration::parse(&mut context.lexer)
    }
}

impl Parse for Declaration {
    type Err = ParseError;

    open spec fn parses(
        s: Seq<char>,
        st: LexerState,
        r: Result<Self, ParseError>,
        st2: LexerState,
    ) -> bool {
        exists|dr: Result<VariableDeclaration, ParseError>|
            parses_variable_declaration(s, st, dr, st2) && match dr {
                Ok(d) => r == Ok::<Declaration, ParseError>(Declaration::Variable(d)),
                Err(e) => r == Err::<Declaration, ParseError>(e),
            }
    }

    /// Parse declaration using lexer
    fn parse<L: Lexer>(context: &mut Context<L>) -> (r: Result<Self, ParseError>) {
        Declaration::parse(&mut context.lexer)
    }
}

impl Parse for Statement {
    type Err = ParseError;

    open spec fn parses(
        s: Seq<char>,
        st: LexerState,
        r: Result<Self, ParseError>,
        st2: LexerState,
    ) -> bool {
        parses_statement(s, st, r, st2)
    }

    /// Parse statement using lexer
    fn parse<L: Lexer>(context: &mut Context<L>) -> (r: Result<Self, ParseError>) {
        Statement::parse(&mut context.lexer)
    }
}

} // verus!
