use vstd::prelude::*;
use vstd::string::StrSliceExecFns;
use vstd::string::StringExecFns;
use vstd::utf8::*;

use super::scan::{
    lemma_scan_at_bounds, lemma_scan_is_longest_match, longest_match, no_match, scan, scan_at,
    Rule,
};
use super::token::{OperatorKind, Token};

verus! {

/// Byte offset (in UTF-8) of the character at index `k` of `s`
pub open spec fn byte_offset(s: Seq<char>, k: int) -> nat {
    encode_utf8(s.take(k)).len()
}

/// UTF-8 encoding distributes over concatenation
pub proof fn lemma_encode_utf8_concat(a: Seq<char>, b: Seq<char>)
    ensures
        encode_utf8(a + b) == encode_utf8(a) + encode_utf8(b),
    decreases a.len(),
{
    if a.len() == 0 {
        assert(a + b =~= b);
        assert(encode_utf8(a) + encode_utf8(b) =~= encode_utf8(b));
    } else {
        lemma_encode_utf8_concat(a.drop_first(), b);
        assert((a + b).drop_first() =~= a.drop_first() + b);
        assert(encode_utf8(a + b) =~= encode_scalar(a[0] as u32) + encode_utf8(a.drop_first() + b));
    }
}

/// Number of bytes in the UTF-8 encoding of `c`
pub open spec fn char_width(c: char) -> nat {
    encode_scalar(c as u32).len()
}

/// Offsets grow by the width of each character
pub proof fn lemma_byte_offset_step(s: Seq<char>, k: int)
    requires
        0 <= k < s.len(),
    ensures
        byte_offset(s, k + 1) == byte_offset(s, k) + char_width(s[k]),
{
    let one = seq![s[k]];
    assert(s.take(k + 1) =~= s.take(k) + one);
    lemma_encode_utf8_concat(s.take(k), one);
    assert(one.drop_first() =~= Seq::<char>::empty());
    assert(encode_utf8(one) == encode_scalar(one[0] as u32) + encode_utf8(one.drop_first()));
    assert(encode_utf8(one) =~= encode_scalar(s[k] as u32));
}

/// Offsets never decrease
pub proof fn lemma_byte_offset_mono(s: Seq<char>, j: int, k: int)
    requires
        0 <= j <= k <= s.len(),
    ensures
        byte_offset(s, j) <= byte_offset(s, k),
    decreases k - j,
{
    if j < k {
        lemma_byte_offset_step(s, k - 1);
        lemma_byte_offset_mono(s, j, k - 1);
    }
}

/// No offset is past the end of the encoding
pub proof fn lemma_byte_offset_total(s: Seq<char>, k: int)
    requires
        0 <= k <= s.len(),
    ensures
        byte_offset(s, k) <= encode_utf8(s).len(),
        byte_offset(s, s.len() as int) == encode_utf8(s).len(),
{
    lemma_byte_offset_mono(s, k, s.len() as int);
    assert(s.take(s.len() as int) =~= s);
}

/// Offsets depend only on the characters before them
pub proof fn lemma_byte_offset_prefix(s: Seq<char>, t: Seq<char>, k: int)
    requires
        0 <= k <= s.len(),
        s.len() <= t.len(),
        s == t.take(s.len() as int),
    ensures
        byte_offset(s, k) == byte_offset(t, k),
{
    assert(s.take(k) =~= t.take(k));
}

/// Number of bytes in the UTF-8 encoding of `c`
pub fn utf8_width(c: char) -> (n: usize)
    ensures
        n == char_width(c),
        1 <= n <= 4,
{
    proof {
        char_is_scalar(c);
    }
    let v = c as u32;
    if v <= 0x7F {
        1
    } else if v <= 0x7FF {
        2
    } else if v <= 0xFFFF {
        3
    } else {
        4
    }
}

/// `c` has the Unicode `White_Space` property (what `char::is_whitespace` tests)
pub open spec fn is_unicode_whitespace(c: char) -> bool {
    ('\u{9}' <= c && c <= '\u{D}') || c == ' ' || c == '\u{85}' || c == '\u{A0}' || c == '\u{1680}'
        || ('\u{2000}' <= c && c <= '\u{200A}') || c == '\u{2028}' || c == '\u{2029}' || c
        == '\u{202F}' || c == '\u{205F}' || c == '\u{3000}'
}

/// Does `c` have the Unicode `White_Space` property?
pub fn is_whitespace_char(c: char) -> (b: bool)
    ensures
        b == is_unicode_whitespace(c),
{
    ('\u{9}' <= c && c <= '\u{D}') || c == ' ' || c == '\u{85}' || c == '\u{A0}' || c == '\u{1680}'
        || ('\u{2000}' <= c && c <= '\u{200A}') || c == '\u{2028}' || c == '\u{2029}' || c
        == '\u{202F}' || c == '\u{205F}' || c == '\u{3000}'
}

/// Kind of the operator whose text is `s[start..end]`: prefix at the start
/// of the source, postfix at its end; otherwise infix when the characters
/// around it are both whitespace or both not, postfix when only the one
/// after it is whitespace, prefix when only the one before it is.
pub open spec fn operator_kind(s: Seq<char>, start: int, end: int) -> OperatorKind {
    if start == 0 {
        OperatorKind::Prefix
    } else if end == s.len() {
        OperatorKind::Postfix
    } else if is_unicode_whitespace(s[start - 1]) == is_unicode_whitespace(s[end]) {
        OperatorKind::Infix
    } else if is_unicode_whitespace(s[end]) {
        OperatorKind::Postfix
    } else {
        OperatorKind::Prefix
    }
}

/// A piece of the source that the tokenizer took: its rule (`None` for
/// invalid text) and its character range
pub struct Lexeme {
    pub rule: Option<Rule>,
    pub start: nat,
    pub end: nat,
}

/// Does `t` stand for the lexeme `l` of `s`?
pub open spec fn token_is(t: Token, s: Seq<char>, l: Lexeme) -> bool {
    match l.rule {
        Some(Rule::Literal(x)) => t == x,
        Some(Rule::Integer) => t == Token::Integer,
        Some(Rule::Operator) => t == Token::Operator(operator_kind(s, l.start as int, l.end as int)),
        Some(Rule::Id) => t == Token::Id,
        Some(Rule::EscapedId) => t matches Token::EscapedId(x) && x@ == s.subrange(
            l.start + 1 as int,
            l.end - 1 as int,
        ),
        Some(Rule::Str) => t == Token::String,
        Some(Rule::Rational) => t == Token::Rational,
        Some(Rule::Spaces) | Some(Rule::Comment) => false,
        Option::None => t == Token::Error,
    }
}

/// Is the lexeme skipped (spaces and comments)?
pub open spec fn is_skipped(r: Option<Rule>) -> bool {
    r == Some(Rule::Spaces) || r == Some(Rule::Comment)
}

/// Is the lexeme a newline?
pub open spec fn is_newline(l: Lexeme) -> bool {
    l.rule == Some(Rule::Literal(Token::Newline))
}

/// Is the lexeme a tab?
pub open spec fn is_tab(l: Lexeme) -> bool {
    l.rule == Some(Rule::Literal(Token::Tab))
}

/// The next lexeme of `s` at or after `pos` that is not skipped
pub open spec fn next_lexeme(s: Seq<char>, pos: int) -> Option<Lexeme>
    decreases s.len() - pos,
{
    if pos < 0 || pos >= s.len() {
        Option::None
    } else {
        let (r, len) = scan_at(s, pos);
        proof {
            lemma_scan_at_bounds(s, pos);
        }
        if is_skipped(r) {
            next_lexeme(s, pos + len)
        } else {
            Some(Lexeme { rule: r, start: pos as nat, end: (pos + len) as nat })
        }
    }
}

/// The next lexeme lies after `pos`, is not empty and ends within `s`
pub proof fn lemma_next_lexeme_bounds(s: Seq<char>, pos: int)
    requires
        0 <= pos,
    ensures
        next_lexeme(s, pos) matches Some(l) ==> pos <= l.start < l.end <= s.len() && !is_skipped(
            l.rule,
        ) && (l.rule, (l.end - l.start) as nat) == scan_at(s, l.start as int),
    decreases s.len() - pos,
{
    if 0 <= pos < s.len() {
        lemma_scan_at_bounds(s, pos);
        let (r, len) = scan_at(s, pos);
        if is_skipped(r) {
            lemma_next_lexeme_bounds(s, pos + len);
        }
    }
}

/// The lexeme that comes next: after a newline, further newlines are skipped
pub open spec fn lookahead_from(s: Seq<char>, pos: int, after_newline: bool) -> Option<Lexeme>
    decreases s.len() - pos,
{
    if pos < 0 {
        Option::None
    } else {
        let l = next_lexeme(s, pos);
        proof {
            lemma_next_lexeme_bounds(s, pos);
        }
        match l {
            Some(l) => if after_newline && is_newline(l) {
                lookahead_from(s, l.end as int, true)
            } else {
                Some(l)
            },
            Option::None => Option::None,
        }
    }
}

/// The lexeme that comes next lies after `pos`
pub proof fn lemma_lookahead_bounds(s: Seq<char>, pos: int, after_newline: bool)
    requires
        0 <= pos,
    ensures
        lookahead_from(s, pos, after_newline) matches Some(l) ==> pos <= l.start < l.end <= s.len()
            && !is_skipped(l.rule) && (l.rule, (l.end - l.start) as nat) == scan_at(
            s,
            l.start as int,
        ) && !(after_newline && is_newline(l)),
    decreases s.len() - pos,
{
    lemma_next_lexeme_bounds(s, pos);
    if let Some(l) = next_lexeme(s, pos) {
        if after_newline && is_newline(l) {
            lemma_lookahead_bounds(s, l.end as int, true);
        }
    }
}

/// Abstract state of a lexer: the position after the current token, the
/// current token's lexeme (`None` before the first token and at the end),
/// its character range, and the current indentation level.
pub struct LexerState {
    pub pos: nat,
    pub current: Option<Lexeme>,
    pub span: (nat, nat),
    pub indentation: nat,
}

/// State of a fresh lexer
pub open spec fn initial_state() -> LexerState {
    LexerState { pos: 0, current: Option::None, span: (0, 0), indentation: 0 }
}

/// Is the current token a newline?
pub open spec fn after_newline(st: LexerState) -> bool {
    st.current matches Some(l) && is_newline(l)
}

/// The lexeme of the token that `peek` shows and `next` takes
pub open spec fn lookahead(s: Seq<char>, st: LexerState) -> Option<Lexeme> {
    lookahead_from(s, st.pos as int, after_newline(st))
}

/// Character range of the token that `peek` shows (the end of `s` at the end)
pub open spec fn lookahead_span(s: Seq<char>, st: LexerState) -> (nat, nat) {
    match lookahead(s, st) {
        Some(l) => (l.start, l.end),
        Option::None => (s.len(), s.len()),
    }
}

/// The state after taking the next token; a newline resets the indentation
pub open spec fn advance(s: Seq<char>, st: LexerState) -> LexerState {
    match lookahead(s, st) {
        Some(l) => LexerState {
            pos: l.end,
            current: Some(l),
            span: (l.start, l.end),
            indentation: if is_newline(l) {
                0
            } else {
                st.indentation
            },
        },
        Option::None => LexerState {
            pos: s.len(),
            current: Option::None,
            span: (s.len(), s.len()),
            indentation: st.indentation,
        },
    }
}

/// The state after taking all the tabs that come next, each adding a level of
/// indentation
pub open spec fn skip_tabs(s: Seq<char>, st: LexerState) -> LexerState
    decreases s.len() - st.pos,
{
    let l = lookahead(s, st);
    proof {
        lemma_lookahead_bounds(s, st.pos as int, after_newline(st));
    }
    match l {
        Some(l) => if is_tab(l) {
            let n = advance(s, st);
            skip_tabs(s, LexerState { indentation: n.indentation + 1, ..n })
        } else {
            st
        },
        Option::None => st,
    }
}

/// The state after taking all the newlines that come next
pub open spec fn skip_newlines(s: Seq<char>, st: LexerState) -> LexerState
    decreases s.len() - st.pos,
{
    let l = lookahead(s, st);
    proof {
        lemma_lookahead_bounds(s, st.pos as int, after_newline(st));
    }
    match l {
        Some(l) => if is_newline(l) {
            skip_newlines(s, advance(s, st))
        } else {
            st
        },
        Option::None => st,
    }
}

/// A state that a lexer over `s` can be in
pub open spec fn valid_state(s: Seq<char>, st: LexerState) -> bool {
    &&& st.pos <= s.len()
    &&& st.span.0 <= st.span.1 <= st.pos
    &&& st.indentation <= st.pos
    &&& match st.current {
        Some(l) => l.start == st.span.0 && l.end == st.span.1 && l.end == st.pos && !is_skipped(
            l.rule,
        ) && l.start < l.end && (l.rule == Some(Rule::EscapedId) ==> l.start + 2 <= l.end),
        Option::None => true,
    }
}

/// Taking a token keeps the state valid and moves forward
pub proof fn lemma_advance_valid(s: Seq<char>, st: LexerState)
    requires
        valid_state(s, st),
    ensures
        valid_state(s, advance(s, st)),
        st.pos <= advance(s, st).pos,
        lookahead(s, st) is Some ==> st.pos < advance(s, st).pos,
{
    lemma_lookahead_bounds(s, st.pos as int, after_newline(st));
    if let Some(l) = lookahead(s, st) {
        if l.rule is Some {
            super::scan::lemma_scan_rule_matches(s, l.start as int);
        }
    }
}

/// Skipping tabs keeps the state valid and does not move back
pub proof fn lemma_skip_tabs_valid(s: Seq<char>, st: LexerState)
    requires
        valid_state(s, st),
    ensures
        valid_state(s, skip_tabs(s, st)),
        st.pos <= skip_tabs(s, st).pos,
    decreases s.len() - st.pos,
{
    lemma_lookahead_bounds(s, st.pos as int, after_newline(st));
    if let Some(l) = lookahead(s, st) {
        if is_tab(l) {
            lemma_advance_valid(s, st);
            let n = advance(s, st);
            lemma_skip_tabs_valid(s, LexerState { indentation: n.indentation + 1, ..n });
        }
    }
}

/// Characters of the source and their byte offsets, with the tokenizer
/// running over them
pub struct TokenStream {
    /// The characters of the source
    pub chars: Vec<char>,
    /// `offsets[k]` is the byte offset of `chars[k]`; one more entry holds the
    /// total length
    pub offsets: Vec<usize>,
}

impl TokenStream {
    /// The characters of the source
    pub open spec fn text(&self) -> Seq<char> {
        self.chars@
    }

    /// Offsets are those of the UTF-8 encoding
    pub open spec fn wf(&self) -> bool {
        &&& self.offsets@.len() == self.chars@.len() + 1
        &&& forall|k: int|
            0 <= k <= self.chars@.len() ==> #[trigger] self.offsets@[k] == byte_offset(
                self.chars@,
                k,
            )
    }

    /// A stream over the characters of `source`
    pub fn new(source: &str) -> (ts: Self)
        ensures
            ts.wf(),
            ts.text() == source@,
    {
        let mut ts = TokenStream { chars: Vec::new(), offsets: Vec::new() };
        ts.offsets.push(0);
        proof {
            assert(ts.chars@.take(0) =~= Seq::<char>::empty());
            assert(Seq::<char>::empty() + source@ =~= source@);
        }
        let n = source.as_bytes().len();
        ts.push_str(source);
        ts
    }

    /// Append `more` to the characters
    pub fn push_str(&mut self, more: &str)
        requires
            old(self).wf(),
            encode_utf8(old(self).text() + more@).len() <= usize::MAX,
        ensures
            final(self).wf(),
            final(self).text() == old(self).text() + more@,
    {
        let ghost start = self.chars@;
        let ghost total = start + more@;
        proof {
            assert(total.take(start.len() as int) =~= start);
            lemma_byte_offset_prefix(start, total, start.len() as int);
        }
        let mut last = self.offsets[self.chars.len()];
        for c in it: more.chars()
            invariant
                self.wf(),
                it.seq() == more@,
                total == start + more@,
                encode_utf8(total).len() <= usize::MAX,
                self.chars@.len() == start.len() + it.index(),
                self.chars@ == total.take(self.chars@.len() as int),
                last == byte_offset(total, self.chars@.len() as int),
        {
            let ghost k = self.chars@.len() as int;
            let ghost before = self.chars@;
            proof {
                assert(total[k] == c);
                lemma_byte_offset_step(total, k);
                lemma_byte_offset_total(total, k + 1);
            }
            let w = utf8_width(c);
            last = last + w;
            self.chars.push(c);
            self.offsets.push(last);
            proof {
                assert(self.chars@ =~= total.take(k + 1));
                assert forall|j: int| 0 <= j <= self.chars@.len() implies #[trigger] self.offsets@[j]
                    == byte_offset(self.chars@, j) by {
                    lemma_byte_offset_prefix(self.chars@, total, j);
                    if j <= k {
                        lemma_byte_offset_prefix(before, total, j);
                    }
                }
            }
        }
        proof {
            assert(self.chars@ =~= total);
        }
    }

    /// Byte offset of the character at index `k`
    pub fn byte(&self, k: usize) -> (b: usize)
        requires
            self.wf(),
            k <= self.text().len(),
        ensures
            b == byte_offset(self.text(), k as int),
    {
        self.offsets[k]
    }

    /// The next lexeme at or after `pos` that is not skipped:
    /// its rule, start and end
    pub fn next_lexeme(&self, pos: usize) -> (r: Option<(Option<Rule>, usize, usize)>)
        requires
            pos <= self.text().len(),
        ensures
            match next_lexeme(self.text(), pos as int) {
                Some(l) => r matches Some((rule, a, b)) && rule == l.rule && a == l.start && b
                    == l.end,
                Option::None => r is None,
            },
    {
        let mut p = pos;
        while p < self.chars.len()
            invariant
                pos <= p <= self.text().len(),
                next_lexeme(self.text(), pos as int) == next_lexeme(self.text(), p as int),
            decreases self.text().len() - p,
        {
            let (rule, len) = scan(&self.chars, p);
            let skipped = match &rule {
                Some(Rule::Spaces) => true,
                Some(Rule::Comment) => true,
                _ => false,
            };
            if !skipped {
                return Some((rule, p, p + len));
            }
            p = p + len;
        }
        Option::None
    }

    /// The lexeme that comes next at `pos`; after a newline, further newlines
    /// are skipped
    pub fn lookahead(&self, pos: usize, after_newline: bool) -> (r: Option<(Option<Rule>, usize, usize)>)
        requires
            pos <= self.text().len(),
        ensures
            match lookahead_from(self.text(), pos as int, after_newline) {
                Some(l) => r matches Some((rule, a, b)) && rule == l.rule && a == l.start && b
                    == l.end,
                Option::None => r is None,
            },
    {
        let mut p = pos;
        loop
            invariant
                pos <= p <= self.text().len(),
                lookahead_from(self.text(), pos as int, after_newline) == lookahead_from(
                    self.text(),
                    p as int,
                    after_newline,
                ),
            decreases self.text().len() - p,
        {
            proof {
                lemma_next_lexeme_bounds(self.text(), p as int);
            }
            match self.next_lexeme(p) {
                Some((rule, a, b)) => {
                    let newline = match &rule {
                        Some(Rule::Literal(Token::Newline)) => true,
                        _ => false,
                    };
                    if after_newline && newline {
                        p = b;
                    } else {
                        return Some((rule, a, b));
                    }
                },
                Option::None => {
                    return Option::None;
                },
            }
        }
    }

    /// The token that stands for the lexeme `rule` at `start..end` of `source`
    pub fn make_token(&self, source: &str, rule: &Option<Rule>, start: usize, end: usize) -> (t:
        Token)
        requires
            source@ == self.text(),
            start < end <= self.text().len(),
            !is_skipped(*rule),
            *rule == Some(Rule::EscapedId) ==> start + 2 <= end,
        ensures
            token_is(t, self.text(), Lexeme { rule: *rule, start: start as nat, end: end as nat }),
    {
        match rule {
            Some(Rule::Literal(t)) => t.clone(),
            Some(Rule::Integer) => Token::Integer,
            Some(Rule::Operator) => Token::Operator(self.operator_kind(start, end)),
            Some(Rule::Id) => Token::Id,
            Some(Rule::EscapedId) => {
                let text = source.substring_char(start + 1, end - 1);
                Token::EscapedId(String::from_str(text))
            },
            Some(Rule::Str) => Token::String,
            Some(Rule::Rational) => Token::Rational,
            Some(Rule::Spaces) => Token::Error,
            Some(Rule::Comment) => Token::Error,
            Option::None => Token::Error,
        }
    }

    /// Kind of the operator at `start..end`
    pub fn operator_kind(&self, start: usize, end: usize) -> (k: OperatorKind)
        requires
            start < end <= self.text().len(),
        ensures
            k == operator_kind(self.text(), start as int, end as int),
    {
        if start == 0 {
            return OperatorKind::Prefix;
        }
        if end == self.chars.len() {
            return OperatorKind::Postfix;
        }
        let before = is_whitespace_char(self.chars[start - 1]);
        let after = is_whitespace_char(self.chars[end]);
        if before == after {
            OperatorKind::Infix
        } else if after {
            OperatorKind::Postfix
        } else {
            OperatorKind::Prefix
        }
    }
}

} // verus!
