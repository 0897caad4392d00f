use vstd::prelude::*;

use super::token::{literal_text, Token};

verus! {

/// Classes of characters that the token grammar repeats
#[derive(Debug, Clone, Copy, PartialEq, Eq, Structural)]
pub enum CharClass {
    /// `[ ]`
    Space,
    /// `[0-9]`
    Digit,
    /// `[_a-zA-Z0-9]`
    IdContinue,
    /// `[-+*/=<>?!~|&^%$#\\]`
    OperatorChar,
    /// `[^\n]`
    NotNewline,
    /// `` [^`] ``
    NotBacktick,
}

/// `[0-9]`
pub open spec fn is_digit(c: char) -> bool {
    '0' <= c && c <= '9'
}

/// `[_a-zA-Z]`
pub open spec fn is_id_start(c: char) -> bool {
    c == '_' || ('a' <= c && c <= 'z') || ('A' <= c && c <= 'Z')
}

/// `[_a-zA-Z0-9]`
pub open spec fn is_id_continue(c: char) -> bool {
    is_id_start(c) || is_digit(c)
}

/// `[-+*/=<>?!~|&^%$#\\]`
pub open spec fn is_operator_char(c: char) -> bool {
    c == '-' || c == '+' || c == '*' || c == '/' || c == '=' || c == '<' || c == '>' || c == '?'
        || c == '!' || c == '~' || c == '|' || c == '&' || c == '^' || c == '%' || c == '$' || c
        == '#' || c == '\\'
}

/// Does `c` belong to the class?
pub open spec fn in_class(cls: CharClass, c: char) -> bool {
    match cls {
        CharClass::Space => c == ' ',
        CharClass::Digit => is_digit(c),
        CharClass::IdContinue => is_id_continue(c),
        CharClass::OperatorChar => is_operator_char(c),
        CharClass::NotNewline => c != '\n',
        CharClass::NotBacktick => c != '`',
    }
}

/// Length of the longest run of characters of the class starting at `i`
pub open spec fn run_len(s: Seq<char>, i: int, cls: CharClass) -> nat
    decreases s.len() - i,
{
    if 0 <= i < s.len() && in_class(cls, s[i]) {
        1 + run_len(s, i + 1, cls)
    } else {
        0
    }
}

/// Every character of `w` from index `from` on belongs to the class
pub open spec fn all_in(w: Seq<char>, from: int, cls: CharClass) -> bool {
    forall|k: int| from <= k < w.len() ==> in_class(cls, #[trigger] w[k])
}

/// Contents of a string literal: `(?:[^"\\]|\\.)*`
pub open spec fn string_body(b: Seq<char>) -> bool
    decreases b.len(),
{
    if b.len() == 0 {
        true
    } else if b[0] == '\\' {
        b.len() >= 2 && b[1] != '\n' && string_body(b.subrange(2, b.len() as int))
    } else {
        b[0] != '"' && string_body(b.subrange(1, b.len() as int))
    }
}

/// The token whose fixed text is `w`, if any
pub open spec fn literal_token(w: Seq<char>) -> Option<Token> {
    if w == seq!['n', 'o', 'n', 'e'] {
        Some(Token::NoneLiteral)
    } else if w == seq!['='] {
        Some(Token::Assign)
    } else if w == seq!['l', 'e', 't'] {
        Some(Token::Let)
    } else if w == seq!['m', 'u', 't'] {
        Some(Token::Mut)
    } else if w == seq!['t', 'y', 'p', 'e'] {
        Some(Token::Type)
    } else if w == seq!['\n'] {
        Some(Token::Newline)
    } else if w == seq![':'] {
        Some(Token::Colon)
    } else if w == seq!['<'] {
        Some(Token::Less)
    } else if w == seq!['>'] {
        Some(Token::Greater)
    } else if w == seq!['f', 'n'] {
        Some(Token::Fn)
    } else if w == seq!['-', '>'] {
        Some(Token::Arrow)
    } else if w == seq!['=', '>'] {
        Some(Token::FatArrow)
    } else if w == seq!['@'] {
        Some(Token::At)
    } else if w == seq!['('] {
        Some(Token::LParen)
    } else if w == seq![')'] {
        Some(Token::RParen)
    } else if w == seq![','] {
        Some(Token::Comma)
    } else if w == seq!['\t'] {
        Some(Token::Tab)
    } else if w == seq!['r', 'e', 't', 'u', 'r', 'n'] {
        Some(Token::Return)
    } else if w == seq!['i', 'f'] {
        Some(Token::If)
    } else if w == seq!['e', 'l', 's', 'e'] {
        Some(Token::Else)
    } else if w == seq!['t', 'r', 'u', 'e'] {
        Some(Token::True)
    } else if w == seq!['f', 'a', 'l', 's', 'e'] {
        Some(Token::False)
    } else if w == seq!['l', 'o', 'o', 'p'] {
        Some(Token::Loop)
    } else if w == seq!['w', 'h', 'i', 'l', 'e'] {
        Some(Token::While)
    } else if w == seq!['t', 'r', 'a', 'i', 't'] {
        Some(Token::Trait)
    } else if w == seq!['.'] {
        Some(Token::Dot)
    } else if w == seq!['{'] {
        Some(Token::LBrace)
    } else if w == seq!['}'] {
        Some(Token::RBrace)
    } else if w == seq!['u', 's', 'e'] {
        Some(Token::Use)
    } else {
        Option::None
    }
}

/// The rules of the token grammar. `Spaces` and `Comment` are skipped.
pub enum Rule {
    /// `[ ]+`, skipped
    Spaces,
    /// `//[^\n]*`, skipped
    Comment,
    /// A token written as a fixed string
    Literal(Token),
    /// `[0-9]+`
    Integer,
    /// `[-+*/=<>?!~|&^%$#\\]+`
    Operator,
    /// `[_a-zA-Z][_a-zA-Z0-9]*`
    Id,
    /// `` [`][^`]*[`] ``
    EscapedId,
    /// `"(?:[^"\\]|\\.)*"`
    Str,
    /// `[0-9]*[.][0-9]+`
    Rational,
}

/// Does the rule match the whole word `w`?
pub open spec fn rule_matches(r: Rule, w: Seq<char>) -> bool {
    match r {
        Rule::Spaces => w.len() >= 1 && all_in(w, 0, CharClass::Space),
        Rule::Comment => w.len() >= 2 && w[0] == '/' && w[1] == '/' && all_in(
            w,
            2,
            CharClass::NotNewline,
        ),
        Rule::Literal(t) => literal_text(t) == Some(w),
        Rule::Integer => w.len() >= 1 && all_in(w, 0, CharClass::Digit),
        Rule::Operator => w.len() >= 1 && all_in(w, 0, CharClass::OperatorChar),
        Rule::Id => w.len() >= 1 && is_id_start(w[0]) && all_in(w, 1, CharClass::IdContinue),
        Rule::EscapedId => w.len() >= 2 && w[0] == '`' && w.last() == '`' && all_in(
            w.drop_last(),
            1,
            CharClass::NotBacktick,
        ),
        Rule::Str => w.len() >= 2 && w[0] == '"' && w.last() == '"' && string_body(
            w.subrange(1, w.len() - 1),
        ),
        Rule::Rational => {
            let d = run_len(w, 0, CharClass::Digit);
            d + 1 < w.len() && w[d as int] == '.' && all_in(w, (d + 1) as int, CharClass::Digit)
        },
    }
}

/// Priority of a rule among matches of equal length: a fixed character
/// counts 2, a character class 1, a repetition 0, a sequence the sum.
pub open spec fn priority(r: Rule) -> nat {
    match r {
        Rule::Spaces => 2,
        Rule::Comment => 4,
        Rule::Literal(t) => match literal_text(t) {
            Some(w) => 2 * w.len(),
            Option::None => 0,
        },
        Rule::Integer => 1,
        Rule::Operator => 1,
        Rule::Id => 1,
        Rule::EscapedId => 4,
        Rule::Str => 4,
        Rule::Rational => 3,
    }
}

/// Rule `r` matches the `len` characters at `i`, and no rule matches more of
/// them, nor as many with a priority as high.
pub open spec fn longest_match(s: Seq<char>, i: int, r: Rule, len: nat) -> bool {
    &&& 0 <= i
    &&& 1 <= len
    &&& i + len <= s.len()
    &&& rule_matches(r, s.subrange(i, i + len))
    &&& forall|q: Rule, e: int|
        i < e <= s.len() && #[trigger] rule_matches(q, s.subrange(i, e)) ==> e < i + len || (e
            == i + len && (q == r || priority(q) < priority(r)))
}

/// No rule matches any text that starts at `i`
pub open spec fn no_match(s: Seq<char>, i: int) -> bool {
    forall|q: Rule, e: int| i < e <= s.len() ==> !#[trigger] rule_matches(q, s.subrange(i, e))
}

/// Scan the body of a string literal from `j`: whether a closing quote was
/// found, and the index just past the text the body could still take
/// (past the closing quote when there is one).
pub open spec fn str_end(s: Seq<char>, j: int) -> (bool, nat)
    decreases s.len() - j,
{
    if j < 0 || j >= s.len() {
        (false, s.len())
    } else if s[j] == '"' {
        (true, (j + 1) as nat)
    } else if s[j] == '\\' {
        if j + 1 < s.len() && s[j + 1] != '\n' {
            str_end(s, j + 2)
        } else {
            (false, (j + 1) as nat)
        }
    } else {
        str_end(s, j + 1)
    }
}

/// What the tokenizer takes at `i` (`i < s.len()`): the rule and the number
/// of characters, or `None` and the length of the invalid text.
///
/// Invalid text is the longest text that could still start a token: an
/// unterminated string or escaped identifier as far as it goes, otherwise a
/// single character.
pub open spec fn scan_at(s: Seq<char>, i: int) -> (Option<Rule>, nat) {
    let c = s[i];
    if c == ' ' {
        (Some(Rule::Spaces), run_len(s, i, CharClass::Space))
    } else if c == '/' && i + 1 < s.len() && s[i + 1] == '/' {
        (Some(Rule::Comment), 2 + run_len(s, i + 2, CharClass::NotNewline))
    } else if is_id_start(c) {
        let l = run_len(s, i, CharClass::IdContinue);
        match literal_token(s.subrange(i, i + l)) {
            Some(t) => (Some(Rule::Literal(t)), l),
            Option::None => (Some(Rule::Id), l),
        }
    } else if is_digit(c) {
        let d = run_len(s, i, CharClass::Digit);
        if i + d + 1 < s.len() && s[i + d] == '.' && is_digit(s[i + d + 1]) {
            (Some(Rule::Rational), d + 1 + run_len(s, i + d + 1, CharClass::Digit))
        } else {
            (Some(Rule::Integer), d)
        }
    } else if c == '.' {
        if i + 1 < s.len() && is_digit(s[i + 1]) {
            (Some(Rule::Rational), 1 + run_len(s, i + 1, CharClass::Digit))
        } else {
            (Some(Rule::Literal(Token::Dot)), 1)
        }
    } else if is_operator_char(c) {
        let r = run_len(s, i, CharClass::OperatorChar);
        match literal_token(s.subrange(i, i + r)) {
            Some(t) => (Some(Rule::Literal(t)), r),
            Option::None => (Some(Rule::Operator), r),
        }
    } else if c == '"' {
        let (closed, end) = str_end(s, i + 1);
        if closed {
            (Some(Rule::Str), (end - i) as nat)
        } else {
            (Option::None, (end - i) as nat)
        }
    } else if c == '`' {
        let e = i + 1 + run_len(s, i + 1, CharClass::NotBacktick);
        if e < s.len() {
            (Some(Rule::EscapedId), (e + 1 - i) as nat)
        } else {
            (Option::None, (e - i) as nat)
        }
    } else {
        match literal_token(seq![c]) {
            Some(t) => (Some(Rule::Literal(t)), 1),
            Option::None => (Option::None, 1),
        }
    }
}

/// Exec form of [`in_class`]
pub fn char_in_class(cls: CharClass, c: char) -> (b: bool)
    ensures
        b == in_class(cls, c),
{
    match cls {
        CharClass::Space => c == ' ',
        CharClass::Digit => '0' <= c && c <= '9',
        CharClass::IdContinue => c == '_' || ('a' <= c && c <= 'z') || ('A' <= c && c <= 'Z') || (
        '0' <= c && c <= '9'),
        CharClass::OperatorChar => c == '-' || c == '+' || c == '*' || c == '/' || c == '=' || c
            == '<' || c == '>' || c == '?' || c == '!' || c == '~' || c == '|' || c == '&' || c
            == '^' || c == '%' || c == '$' || c == '#' || c == '\\',
        CharClass::NotNewline => c != '\n',
        CharClass::NotBacktick => c != '`',
    }
}

/// Length of the run of characters of the class starting at `i`
pub fn run(chars: &Vec<char>, i: usize, cls: CharClass) -> (n: usize)
    requires
        i <= chars.len(),
    ensures
        n == run_len(chars@, i as int, cls),
        i + n <= chars.len(),
{
    let mut j = i;
    while j < chars.len() && char_in_class(cls, chars[j])
        invariant
            i <= j <= chars.len(),
            run_len(chars@, i as int, cls) == (j - i) + run_len(chars@, j as int, cls),
        decreases chars.len() - j,
    {
        j = j + 1;
    }
    j - i
}

/// Are the `len` characters at `i` exactly `lit`?
pub fn eq_word(chars: &Vec<char>, i: usize, len: usize, lit: &[char]) -> (b: bool)
    requires
        i + len <= chars.len(),
    ensures
        b == (chars@.subrange(i as int, i + len) == lit@),
{
    if len != lit.len() {
        return false;
    }
    let mut k: usize = 0;
    while k < len
        invariant
            k <= len,
            len == lit@.len(),
            i + len <= chars.len(),
            forall|j: int| 0 <= j < k ==> chars@[i + j] == lit@[j],
        decreases len - k,
    {
        if chars[i + k] != lit[k] {
            assert(chars@.subrange(i as int, i + len)[k as int] != lit@[k as int]);
            return false;
        }
        k = k + 1;
    }
    assert(chars@.subrange(i as int, i + len) =~= lit@);
    true
}

/// The token whose fixed text is the `len` characters at `i`, if any
#[verifier::rlimit(30)]
pub fn lookup_literal(chars: &Vec<char>, i: usize, len: usize) -> (t: Option<Token>)
    requires
        i + len <= chars.len(),
    ensures
        t == literal_token(chars@.subrange(i as int, i + len)),
{
    if eq_word(chars, i, len, &['n', 'o', 'n', 'e']) {
        assert(['n', 'o', 'n', 'e']@ =~= seq!['n', 'o', 'n', 'e']);
        return Some(Token::NoneLiteral);
    }
    assert(['n', 'o', 'n', 'e']@ =~= seq!['n', 'o', 'n', 'e']);
    if eq_word(chars, i, len, &['=']) {
        assert(['=']@ =~= seq!['=']);
        return Some(Token::Assign);
    }
    assert(['=']@ =~= seq!['=']);
    if eq_word(chars, i, len, &['l', 'e', 't']) {
        assert(['l', 'e', 't']@ =~= seq!['l', 'e', 't']);
        return Some(Token::Let);
    }
    assert(['l', 'e', 't']@ =~= seq!['l', 'e', 't']);
    if eq_word(chars, i, len, &['m', 'u', 't']) {
        assert(['m', 'u', 't']@ =~= seq!['m', 'u', 't']);
        return Some(Token::Mut);
    }
    assert(['m', 'u', 't']@ =~= seq!['m', 'u', 't']);
    if eq_word(chars, i, len, &['t', 'y', 'p', 'e']) {
        assert(['t', 'y', 'p', 'e']@ =~= seq!['t', 'y', 'p', 'e']);
        return Some(Token::Type);
    }
    assert(['t', 'y', 'p', 'e']@ =~= seq!['t', 'y', 'p', 'e']);
    if eq_word(chars, i, len, &['\n']) {
        assert(['\n']@ =~= seq!['\n']);
        return Some(Token::Newline);
    }
    assert(['\n']@ =~= seq!['\n']);
    if eq_word(chars, i, len, &[':']) {
        assert([':']@ =~= seq![':']);
        return Some(Token::Colon);
    }
    assert([':']@ =~= seq![':']);
    if eq_word(chars, i, len, &['<']) {
        assert(['<']@ =~= seq!['<']);
        return Some(Token::Less);
    }
    assert(['<']@ =~= seq!['<']);
    if eq_word(chars, i, len, &['>']) {
        assert(['>']@ =~= seq!['>']);
        return Some(Token::Greater);
    }
    assert(['>']@ =~= seq!['>']);
    if eq_word(chars, i, len, &['f', 'n']) {
        assert(['f', 'n']@ =~= seq!['f', 'n']);
        return Some(Token::Fn);
    }
    assert(['f', 'n']@ =~= seq!['f', 'n']);
    if eq_word(chars, i, len, &['-', '>']) {
        assert(['-', '>']@ =~= seq!['-', '>']);
        return Some(Token::Arrow);
    }
    assert(['-', '>']@ =~= seq!['-', '>']);
    if eq_word(chars, i, len, &['=', '>']) {
        assert(['=', '>']@ =~= seq!['=', '>']);
        return Some(Token::FatArrow);
    }
    assert(['=', '>']@ =~= seq!['=', '>']);
    if eq_word(chars, i, len, &['@']) {
        assert(['@']@ =~= seq!['@']);
        return Some(Token::At);
    }
    assert(['@']@ =~= seq!['@']);
    if eq_word(chars, i, len, &['(']) {
        assert(['(']@ =~= seq!['(']);
        return Some(Token::LParen);
    }
    assert(['(']@ =~= seq!['(']);
    if eq_word(chars, i, len, &[')']) {
        assert([')']@ =~= seq![')']);
        return Some(Token::RParen);
    }
    assert([')']@ =~= seq![')']);
    if eq_word(chars, i, len, &[',']) {
        assert([',']@ =~= seq![',']);
        return Some(Token::Comma);
    }
    assert([',']@ =~= seq![',']);
    if eq_word(chars, i, len, &['\t']) {
        assert(['\t']@ =~= seq!['\t']);
        return Some(Token::Tab);
    }
    assert(['\t']@ =~= seq!['\t']);
    if eq_word(chars, i, len, &['r', 'e', 't', 'u', 'r', 'n']) {
        assert(['r', 'e', 't', 'u', 'r', 'n']@ =~= seq!['r', 'e', 't', 'u', 'r', 'n']);
        return Some(Token::Return);
    }
    assert(['r', 'e', 't', 'u', 'r', 'n']@ =~= seq!['r', 'e', 't', 'u', 'r', 'n']);
    if eq_word(chars, i, len, &['i', 'f']) {
        assert(['i', 'f']@ =~= seq!['i', 'f']);
        return Some(Token::If);
    }
    assert(['i', 'f']@ =~= seq!['i', 'f']);
    if eq_word(chars, i, len, &['e', 'l', 's', 'e']) {
        assert(['e', 'l', 's', 'e']@ =~= seq!['e', 'l', 's', 'e']);
        return Some(Token::Else);
    }
    assert(['e', 'l', 's', 'e']@ =~= seq!['e', 'l', 's', 'e']);
    if eq_word(chars, i, len, &['t', 'r', 'u', 'e']) {
        assert(['t', 'r', 'u', 'e']@ =~= seq!['t', 'r', 'u', 'e']);
        return Some(Token::True);
    }
    assert(['t', 'r', 'u', 'e']@ =~= seq!['t', 'r', 'u', 'e']);
    if eq_word(chars, i, len, &['f', 'a', 'l', 's', 'e']) {
        assert(['f', 'a', 'l', 's', 'e']@ =~= seq!['f', 'a', 'l', 's', 'e']);
        return Some(Token::False);
    }
    assert(['f', 'a', 'l', 's', 'e']@ =~= seq!['f', 'a', 'l', 's', 'e']);
    if eq_word(chars, i, len, &['l', 'o', 'o', 'p']) {
        assert(['l', 'o', 'o', 'p']@ =~= seq!['l', 'o', 'o', 'p']);
        return Some(Token::Loop);
    }
    assert(['l', 'o', 'o', 'p']@ =~= seq!['l', 'o', 'o', 'p']);
    if eq_word(chars, i, len, &['w', 'h', 'i', 'l', 'e']) {
        assert(['w', 'h', 'i', 'l', 'e']@ =~= seq!['w', 'h', 'i', 'l', 'e']);
        return Some(Token::While);
    }
    assert(['w', 'h', 'i', 'l', 'e']@ =~= seq!['w', 'h', 'i', 'l', 'e']);
    if eq_word(chars, i, len, &['t', 'r', 'a', 'i', 't']) {
        assert(['t', 'r', 'a', 'i', 't']@ =~= seq!['t', 'r', 'a', 'i', 't']);
        return Some(Token::Trait);
    }
    assert(['t', 'r', 'a', 'i', 't']@ =~= seq!['t', 'r', 'a', 'i', 't']);
    if eq_word(chars, i, len, &['.']) {
        assert(['.']@ =~= seq!['.']);
        return Some(Token::Dot);
    }
    assert(['.']@ =~= seq!['.']);
    if eq_word(chars, i, len, &['{']) {
        assert(['{']@ =~= seq!['{']);
        return Some(Token::LBrace);
    }
    assert(['{']@ =~= seq!['{']);
    if eq_word(chars, i, len, &['}']) {
        assert(['}']@ =~= seq!['}']);
        return Some(Token::RBrace);
    }
    assert(['}']@ =~= seq!['}']);
    if eq_word(chars, i, len, &['u', 's', 'e']) {
        assert(['u', 's', 'e']@ =~= seq!['u', 's', 'e']);
        return Some(Token::Use);
    }
    assert(['u', 's', 'e']@ =~= seq!['u', 's', 'e']);
    Option::None
}

/// Exec form of [`str_end`]
pub fn string_end(chars: &Vec<char>, j: usize) -> (r: (bool, usize))
    requires
        j <= chars.len(),
    ensures
        r.0 == str_end(chars@, j as int).0,
        r.1 == str_end(chars@, j as int).1,
{
    let mut k = j;
    while k < chars.len()
        invariant
            j <= k <= chars.len() + 1,
            str_end(chars@, j as int) == str_end(chars@, k as int),
        decreases chars.len() + 1 - k,
    {
        if chars[k] == '"' {
            return (true, k + 1);
        } else if chars[k] == '\\' {
            if k + 1 < chars.len() && chars[k + 1] != '\n' {
                k = k + 2;
            } else {
                return (false, k + 1);
            }
        } else {
            k = k + 1;
        }
    }
    (false, chars.len())
}

/// What the tokenizer takes at `i`: the rule (or `None` for invalid text)
/// and the number of characters taken
pub fn scan(chars: &Vec<char>, i: usize) -> (r: (Option<Rule>, usize))
    requires
        i < chars.len(),
    ensures
        r.0 == scan_at(chars@, i as int).0,
        r.1 == scan_at(chars@, i as int).1,
        1 <= r.1,
        i + r.1 <= chars.len(),
        match r.0 {
            Some(rule) => longest_match(chars@, i as int, rule, r.1 as nat),
            Option::None => no_match(chars@, i as int),
        },
{
    proof {
        lemma_scan_at_bounds(chars@, i as int);
        lemma_scan_is_longest_match(chars@, i as int);
    }
    let c = chars[i];
    if c == ' ' {
        (Some(Rule::Spaces), run(chars, i, CharClass::Space))
    } else if c == '/' && i + 1 < chars.len() && chars[i + 1] == '/' {
        (Some(Rule::Comment), 2 + run(chars, i + 2, CharClass::NotNewline))
    } else if char_in_class(CharClass::IdContinue, c) && !char_in_class(CharClass::Digit, c) {
        let l = run(chars, i, CharClass::IdContinue);
        match lookup_literal(chars, i, l) {
            Some(t) => (Some(Rule::Literal(t)), l),
            Option::None => (Some(Rule::Id), l),
        }
    } else if char_in_class(CharClass::Digit, c) {
        let d = run(chars, i, CharClass::Digit);
        if i + d < chars.len() && i + d + 1 < chars.len() && chars[i + d] == '.' && char_in_class(
            CharClass::Digit,
            chars[i + d + 1],
        ) {
            (Some(Rule::Rational), d + 1 + run(chars, i + d + 1, CharClass::Digit))
        } else {
            (Some(Rule::Integer), d)
        }
    } else if c == '.' {
        if i + 1 < chars.len() && char_in_class(CharClass::Digit, chars[i + 1]) {
            (Some(Rule::Rational), 1 + run(chars, i + 1, CharClass::Digit))
        } else {
            (Some(Rule::Literal(Token::Dot)), 1)
        }
    } else if char_in_class(CharClass::OperatorChar, c) {
        let r = run(chars, i, CharClass::OperatorChar);
        match lookup_literal(chars, i, r) {
            Some(t) => (Some(Rule::Literal(t)), r),
            Option::None => (Some(Rule::Operator), r),
        }
    } else if c == '"' {
        let (closed, end) = string_end(chars, i + 1);
        proof {
            lemma_str_end_bounds(chars@, i + 1);
        }
        if closed {
            (Some(Rule::Str), end - i)
        } else {
            (Option::None, end - i)
        }
    } else if c == '`' {
        let e = i + 1 + run(chars, i + 1, CharClass::NotBacktick);
        if e < chars.len() {
            (Some(Rule::EscapedId), e + 1 - i)
        } else {
            (Option::None, e - i)
        }
    } else {
        let t = lookup_literal(chars, i, 1);
        proof {
            assert(chars@.subrange(i as int, i + 1) =~= seq![c]);
        }
        match t {
            Some(t) => (Some(Rule::Literal(t)), 1),
            Option::None => (Option::None, 1),
        }
    }
}

/// The run starting at `i` stays in `s`, its characters are in the class,
/// and the character after it is not
pub proof fn lemma_run(s: Seq<char>, i: int, cls: CharClass)
    requires
        0 <= i <= s.len(),
    ensures
        i + run_len(s, i, cls) <= s.len(),
        forall|k: int| i <= k < i + run_len(s, i, cls) ==> in_class(cls, #[trigger] s[k]),
        i + run_len(s, i, cls) < s.len() ==> !in_class(cls, s[i + run_len(s, i, cls)]),
    decreases s.len() - i,
{
    if i < s.len() && in_class(cls, s[i]) {
        lemma_run(s, i + 1, cls);
    }
}

/// A stretch of characters of the class is no longer than the run
pub proof fn lemma_run_bound(s: Seq<char>, i: int, e: int, cls: CharClass)
    requires
        0 <= i <= e <= s.len(),
        forall|k: int| i <= k < e ==> in_class(cls, #[trigger] s[k]),
    ensures
        e - i <= run_len(s, i, cls),
    decreases e - i,
{
    if i < e {
        lemma_run_bound(s, i + 1, e, cls);
    }
}

/// A stretch of characters of the class followed by one outside it is the run
pub proof fn lemma_run_exact(s: Seq<char>, i: int, e: int, cls: CharClass)
    requires
        0 <= i <= e < s.len(),
        forall|k: int| i <= k < e ==> in_class(cls, #[trigger] s[k]),
        !in_class(cls, s[e]),
    ensures
        run_len(s, i, cls) == e - i,
    decreases e - i,
{
    if i < e {
        lemma_run_exact(s, i + 1, e, cls);
    }
}

/// `str_end` never moves backwards and stays within `s`
pub proof fn lemma_str_end_bounds(s: Seq<char>, j: int)
    requires
        0 <= j <= s.len(),
    ensures
        j <= str_end(s, j).1 <= s.len(),
        str_end(s, j).0 ==> j < str_end(s, j).1,
    decreases s.len() - j,
{
    if j < s.len() && s[j] != '"' {
        if s[j] == '\\' {
            if j + 1 < s.len() && s[j + 1] != '\n' {
                lemma_str_end_bounds(s, j + 2);
            }
        } else {
            lemma_str_end_bounds(s, j + 1);
        }
    }
}

/// The tokenizer always takes at least one character, and never more than
/// there are
pub proof fn lemma_scan_at_bounds(s: Seq<char>, i: int)
    requires
        0 <= i < s.len(),
    ensures
        1 <= scan_at(s, i).1,
        i + scan_at(s, i).1 <= s.len(),
{
    lemma_run(s, i, CharClass::Space);
    lemma_run(s, i, CharClass::IdContinue);
    lemma_run(s, i, CharClass::Digit);
    lemma_run(s, i, CharClass::OperatorChar);
    if i + 2 <= s.len() {
        lemma_run(s, i + 2, CharClass::NotNewline);
    }
    lemma_run(s, i + 1, CharClass::NotBacktick);
    lemma_run(s, i + 1, CharClass::Digit);
    lemma_str_end_bounds(s, i + 1);
    let d = run_len(s, i, CharClass::Digit);
    if i + d + 1 < s.len() {
        lemma_run(s, i + d + 1, CharClass::Digit);
    }
}

/// Characters that are tokens by themselves and belong to no repeated class
pub open spec fn is_punctuation(c: char) -> bool {
    c == '\n' || c == ':' || c == '@' || c == '(' || c == ')' || c == ',' || c == '\t' || c == '.'
        || c == '{' || c == '}'
}

/// `literal_text` and `literal_token` are inverse to each other
pub proof fn lemma_literal_inverse(w: Seq<char>, t: Token)
    ensures
        literal_text(t) == Some(w) <==> literal_token(w) == Some(t),
{
    if literal_token(w) == Some(t) {
        assert(literal_text(t) == Some(w));
    }
    if literal_text(t) == Some(w) {
        match t {
            Token::NoneLiteral => {
                assert(w.len() == 4 && w[0] == 'n' && w[1] == 'o' && w[2] == 'n' && w[3] == 'e');
            },
            Token::Assign => {
                assert(w.len() == 1 && w[0] == '=');
            },
            Token::Let => {
                assert(w.len() == 3 && w[0] == 'l' && w[1] == 'e' && w[2] == 't');
            },
            Token::Mut => {
                assert(w.len() == 3 && w[0] == 'm' && w[1] == 'u' && w[2] == 't');
            },
            Token::Type => {
                assert(w.len() == 4 && w[0] == 't' && w[1] == 'y' && w[2] == 'p' && w[3] == 'e');
            },
            Token::Newline => {
                assert(w.len() == 1 && w[0] == '\n');
            },
            Token::Colon => {
                assert(w.len() == 1 && w[0] == ':');
            },
            Token::Less => {
                assert(w.len() == 1 && w[0] == '<');
            },
            Token::Greater => {
                assert(w.len() == 1 && w[0] == '>');
            },
            Token::Fn => {
                assert(w.len() == 2 && w[0] == 'f' && w[1] == 'n');
            },
            Token::Arrow => {
                assert(w.len() == 2 && w[0] == '-' && w[1] == '>');
            },
            Token::FatArrow => {
                assert(w.len() == 2 && w[0] == '=' && w[1] == '>');
            },
            Token::At => {
                assert(w.len() == 1 && w[0] == '@');
            },
            Token::LParen => {
                assert(w.len() == 1 && w[0] == '(');
            },
            Token::RParen => {
                assert(w.len() == 1 && w[0] == ')');
            },
            Token::Comma => {
                assert(w.len() == 1 && w[0] == ',');
            },
            Token::Tab => {
                assert(w.len() == 1 && w[0] == '\t');
            },
            Token::Return => {
                assert(w.len() == 6 && w[0] == 'r' && w[1] == 'e' && w[2] == 't' && w[3] == 'u' && w[4] == 'r' && w[5] == 'n');
            },
            Token::If => {
                assert(w.len() == 2 && w[0] == 'i' && w[1] == 'f');
            },
            Token::Else => {
                assert(w.len() == 4 && w[0] == 'e' && w[1] == 'l' && w[2] == 's' && w[3] == 'e');
            },
            Token::True => {
                assert(w.len() == 4 && w[0] == 't' && w[1] == 'r' && w[2] == 'u' && w[3] == 'e');
            },
            Token::False => {
                assert(w.len() == 5 && w[0] == 'f' && w[1] == 'a' && w[2] == 'l' && w[3] == 's' && w[4] == 'e');
            },
            Token::Loop => {
                assert(w.len() == 4 && w[0] == 'l' && w[1] == 'o' && w[2] == 'o' && w[3] == 'p');
            },
            Token::While => {
                assert(w.len() == 5 && w[0] == 'w' && w[1] == 'h' && w[2] == 'i' && w[3] == 'l' && w[4] == 'e');
            },
            Token::Trait => {
                assert(w.len() == 5 && w[0] == 't' && w[1] == 'r' && w[2] == 'a' && w[3] == 'i' && w[4] == 't');
            },
            Token::Dot => {
                assert(w.len() == 1 && w[0] == '.');
            },
            Token::LBrace => {
                assert(w.len() == 1 && w[0] == '{');
            },
            Token::RBrace => {
                assert(w.len() == 1 && w[0] == '}');
            },
            Token::Use => {
                assert(w.len() == 3 && w[0] == 'u' && w[1] == 's' && w[2] == 'e');
            },
            _ => {},
        }
    }
}

/// The fixed texts of tokens are words of letters, words of operator
/// characters starting with `=`, `<`, `>` or `-`, or a single punctuation
/// character
pub proof fn lemma_literal_shape(t: Token, w: Seq<char>)
    requires
        literal_text(t) == Some(w),
    ensures
        w.len() >= 1,
        (is_id_start(w[0]) && all_in(w, 0, CharClass::IdContinue)) || ((w[0] == '=' || w[0] == '<'
            || w[0] == '>' || w[0] == '-') && all_in(w, 0, CharClass::OperatorChar)) || (w.len()
            == 1 && is_punctuation(w[0])),
{
    match t {
        Token::NoneLiteral => {},
        Token::Assign => {},
        Token::Let => {},
        Token::Mut => {},
        Token::Type => {},
        Token::Newline => {},
        Token::Colon => {},
        Token::Less => {},
        Token::Greater => {},
        Token::Fn => {},
        Token::Arrow => {},
        Token::FatArrow => {},
        Token::At => {},
        Token::LParen => {},
        Token::RParen => {},
        Token::Comma => {},
        Token::Tab => {},
        Token::Return => {},
        Token::If => {},
        Token::Else => {},
        Token::True => {},
        Token::False => {},
        Token::Loop => {},
        Token::While => {},
        Token::Trait => {},
        Token::Dot => {},
        Token::LBrace => {},
        Token::RBrace => {},
        Token::Use => {},
        _ => {},
    }
}

/// A string literal that ends at `e` is what `str_end` finds
pub proof fn lemma_str_body_end(s: Seq<char>, j: int, e: int)
    requires
        0 <= j < e <= s.len(),
        s[e - 1] == '"',
        string_body(s.subrange(j, e - 1)),
    ensures
        str_end(s, j) == (true, e as nat),
    decreases e - j,
{
    let b = s.subrange(j, e - 1);
    if j == e - 1 {
    } else if b[0] == '\\' {
        assert(b.subrange(2, b.len() as int) =~= s.subrange(j + 2, e - 1));
        lemma_str_body_end(s, j + 2, e);
    } else {
        assert(b.subrange(1, b.len() as int) =~= s.subrange(j + 1, e - 1));
        lemma_str_body_end(s, j + 1, e);
    }
}

/// What `str_end` finds closed is a string literal body and its quote
pub proof fn lemma_str_end_body(s: Seq<char>, j: int)
    requires
        0 <= j <= s.len(),
        str_end(s, j).0,
    ensures
        j < str_end(s, j).1,
        s[str_end(s, j).1 - 1] == '"',
        string_body(s.subrange(j, str_end(s, j).1 - 1)),
    decreases s.len() - j,
{
    let e = str_end(s, j).1 as int;
    lemma_str_end_bounds(s, j);
    if s[j] == '"' {
        assert(s.subrange(j, e - 1) =~= Seq::<char>::empty());
    } else if s[j] == '\\' {
        lemma_str_end_body(s, j + 2);
        let b = s.subrange(j, e - 1);
        assert(b.subrange(2, b.len() as int) =~= s.subrange(j + 2, e - 1));
    } else {
        lemma_str_end_body(s, j + 1);
        let b = s.subrange(j, e - 1);
        assert(b.subrange(1, b.len() as int) =~= s.subrange(j + 1, e - 1));
    }
}

/// What a rule that matches the text `s[i..e]` says of `s` at `i`
pub proof fn lemma_match_facts(s: Seq<char>, i: int, q: Rule, e: int)
    requires
        0 <= i < e <= s.len(),
        rule_matches(q, s.subrange(i, e)),
    ensures
        match q {
            Rule::Spaces => s[i] == ' ' && e - i <= run_len(s, i, CharClass::Space),
            Rule::Comment => s[i] == '/' && i + 1 < s.len() && s[i + 1] == '/' && e - i <= 2
                + run_len(s, i + 2, CharClass::NotNewline),
            Rule::Literal(t) => literal_token(s.subrange(i, e)) == Some(t) && ((is_id_start(s[i])
                && e - i <= run_len(s, i, CharClass::IdContinue)) || ((s[i] == '=' || s[i] == '<'
                || s[i] == '>' || s[i] == '-') && e - i <= run_len(s, i, CharClass::OperatorChar))
                || (e == i + 1 && is_punctuation(s[i]))),
            Rule::Integer => is_digit(s[i]) && e - i <= run_len(s, i, CharClass::Digit),
            Rule::Operator => is_operator_char(s[i]) && e - i <= run_len(
                s,
                i,
                CharClass::OperatorChar,
            ),
            Rule::Id => is_id_start(s[i]) && e - i <= run_len(s, i, CharClass::IdContinue),
            Rule::EscapedId => s[i] == '`' && e - 1 < s.len() && e - 1 == i + 1 + run_len(
                s,
                i + 1,
                CharClass::NotBacktick,
            ),
            Rule::Str => s[i] == '"' && str_end(s, i + 1) == (true, e as nat),
            Rule::Rational => {
                let d = run_len(s, i, CharClass::Digit);
                &&& i + d + 1 < e
                &&& s[i + d] == '.'
                &&& is_digit(s[i + d + 1])
                &&& e - (i + d + 1) <= run_len(s, i + d + 1, CharClass::Digit)
            },
        },
{
    let w = s.subrange(i, e);
    match q {
        Rule::Spaces => {
            assert forall|k: int| i <= k < e implies in_class(CharClass::Space, #[trigger] s[k]) by {
                assert(w[k - i] == s[k]);
            }
            lemma_run_bound(s, i, e, CharClass::Space);
        },
        Rule::Comment => {
            assert forall|k: int| i + 2 <= k < e implies in_class(
                CharClass::NotNewline,
                #[trigger] s[k],
            ) by {
                assert(w[k - i] == s[k]);
            }
            lemma_run_bound(s, i + 2, e, CharClass::NotNewline);
        },
        Rule::Literal(t) => {
            lemma_literal_inverse(w, t);
            lemma_literal_shape(t, w);
            if is_id_start(w[0]) && all_in(w, 0, CharClass::IdContinue) {
                assert forall|k: int| i <= k < e implies in_class(
                    CharClass::IdContinue,
                    #[trigger] s[k],
                ) by {
                    assert(w[k - i] == s[k]);
                }
                lemma_run_bound(s, i, e, CharClass::IdContinue);
            } else if (w[0] == '=' || w[0] == '<' || w[0] == '>' || w[0] == '-') && all_in(
                w,
                0,
                CharClass::OperatorChar,
            ) {
                assert forall|k: int| i <= k < e implies in_class(
                    CharClass::OperatorChar,
                    #[trigger] s[k],
                ) by {
                    assert(w[k - i] == s[k]);
                }
                lemma_run_bound(s, i, e, CharClass::OperatorChar);
            }
        },
        Rule::Integer => {
            assert forall|k: int| i <= k < e implies in_class(CharClass::Digit, #[trigger] s[k]) by {
                assert(w[k - i] == s[k]);
            }
            lemma_run_bound(s, i, e, CharClass::Digit);
        },
        Rule::Operator => {
            assert forall|k: int| i <= k < e implies in_class(
                CharClass::OperatorChar,
                #[trigger] s[k],
            ) by {
                assert(w[k - i] == s[k]);
            }
            lemma_run_bound(s, i, e, CharClass::OperatorChar);
        },
        Rule::Id => {
            assert forall|k: int| i <= k < e implies in_class(
                CharClass::IdContinue,
                #[trigger] s[k],
            ) by {
                assert(w[k - i] == s[k]);
                if k == i {
                    assert(is_id_start(w[0]));
                } else {
                    assert(in_class(CharClass::IdContinue, w[k - i]));
                }
            }
            lemma_run_bound(s, i, e, CharClass::IdContinue);
        },
        Rule::EscapedId => {
            assert forall|k: int| i + 1 <= k < e - 1 implies in_class(
                CharClass::NotBacktick,
                #[trigger] s[k],
            ) by {
                assert(w.drop_last()[k - i] == s[k]);
            }
            assert(s[e - 1] == w.last());
            lemma_run_exact(s, i + 1, e - 1, CharClass::NotBacktick);
        },
        Rule::Str => {
            assert(s.subrange(i + 1, e - 1) =~= w.subrange(1, w.len() - 1));
            lemma_str_body_end(s, i + 1, e);
        },
        Rule::Rational => {
            let dw = run_len(w, 0, CharClass::Digit);
            lemma_run(w, 0, CharClass::Digit);
            assert forall|k: int| i <= k < i + dw implies in_class(
                CharClass::Digit,
                #[trigger] s[k],
            ) by {
                assert(w[k - i] == s[k]);
            }
            assert(s[i + dw] == w[dw as int]);
            lemma_run_exact(s, i, i + dw, CharClass::Digit);
            assert forall|k: int| i + dw + 1 <= k < e implies in_class(
                CharClass::Digit,
                #[trigger] s[k],
            ) by {
                assert(w[k - i] == s[k]);
            }
            assert(s[i + dw + 1] == w[(dw + 1) as int]);
            lemma_run_bound(s, i + dw + 1, e, CharClass::Digit);
        },
    }
}

/// The rule that the tokenizer chooses matches the text it takes
pub proof fn lemma_scan_rule_matches(s: Seq<char>, i: int)
    requires
        0 <= i < s.len(),
        scan_at(s, i).0 is Some,
    ensures
        rule_matches(scan_at(s, i).0.unwrap(), s.subrange(i, i + scan_at(s, i).1)),
{
    lemma_scan_at_bounds(s, i);
    let (r, len) = scan_at(s, i);
    let r = r.unwrap();
    let w = s.subrange(i, i + len);
    let c = s[i];
    if c == ' ' {
        lemma_run(s, i, CharClass::Space);
        assert(all_in(w, 0, CharClass::Space));
    } else if c == '/' && i + 1 < s.len() && s[i + 1] == '/' {
        lemma_run(s, i + 2, CharClass::NotNewline);
        assert forall|k: int| 2 <= k < w.len() implies in_class(
            CharClass::NotNewline,
            #[trigger] w[k],
        ) by {
            assert(w[k] == s[i + k]);
        }
    } else if is_id_start(c) {
        lemma_run(s, i, CharClass::IdContinue);
        if let Rule::Literal(t) = r {
            lemma_literal_inverse(w, t);
        } else {
            assert(all_in(w, 1, CharClass::IdContinue));
        }
    } else if is_digit(c) {
        let d = run_len(s, i, CharClass::Digit);
        lemma_run(s, i, CharClass::Digit);
        if r is Rational {
            lemma_run(s, i + d + 1, CharClass::Digit);
            assert forall|k: int| 0 <= k < d implies in_class(CharClass::Digit, #[trigger] w[k]) by {
                assert(w[k] == s[i + k]);
            }
            assert(w[d as int] == s[i + d]);
            lemma_run_exact(w, 0, d as int, CharClass::Digit);
            assert forall|k: int| d + 1 <= k < w.len() implies in_class(
                CharClass::Digit,
                #[trigger] w[k],
            ) by {
                assert(w[k] == s[i + k]);
            }
        } else {
            assert(all_in(w, 0, CharClass::Digit));
        }
    } else if c == '.' {
        if r is Rational {
            lemma_run(s, i + 1, CharClass::Digit);
            assert(w[0] == '.');
            lemma_run_exact(w, 0, 0, CharClass::Digit);
            assert forall|k: int| 1 <= k < w.len() implies in_class(
                CharClass::Digit,
                #[trigger] w[k],
            ) by {
                assert(w[k] == s[i + k]);
            }
        } else {
            assert(w =~= seq!['.']);
        }
    } else if is_operator_char(c) {
        lemma_run(s, i, CharClass::OperatorChar);
        if let Rule::Literal(t) = r {
            lemma_literal_inverse(w, t);
        } else {
            assert(all_in(w, 0, CharClass::OperatorChar));
        }
    } else if c == '"' {
        lemma_str_end_body(s, i + 1);
        assert(w.subrange(1, w.len() - 1) =~= s.subrange(i + 1, i + len - 1));
    } else if c == '`' {
        lemma_run(s, i + 1, CharClass::NotBacktick);
        assert forall|k: int| 1 <= k < w.drop_last().len() implies in_class(
            CharClass::NotBacktick,
            #[trigger] w.drop_last()[k],
        ) by {
            assert(w.drop_last()[k] == s[i + k]);
        }
    } else {
        assert(w =~= seq![c]);
        if let Rule::Literal(t) = r {
            lemma_literal_inverse(w, t);
        }
    }
}

/// The tokenizer takes the longest text that any rule matches, and of the
/// rules that match it, the one with the highest priority; where it reports
/// invalid text, no rule matches any text at all.
pub proof fn lemma_scan_is_longest_match(s: Seq<char>, i: int)
    requires
        0 <= i < s.len(),
    ensures
        match scan_at(s, i).0 {
            Some(r) => longest_match(s, i, r, scan_at(s, i).1),
            Option::None => no_match(s, i),
        },
{
    lemma_scan_at_bounds(s, i);
    let (r, len) = scan_at(s, i);
    if r is Some {
        lemma_scan_rule_matches(s, i);
    }
    assert forall|q: Rule, e: int|
        i < e <= s.len() && #[trigger] rule_matches(q, s.subrange(i, e)) implies match r {
        Some(r) => e < i + len || (e == i + len && (q == r || priority(q) < priority(r))),
        Option::None => false,
    } by {
        lemma_match_facts(s, i, q, e);
        lemma_scan_facts(s, i, q, e);
    }
}

/// There is only one longest match at a position
pub proof fn lemma_longest_match_unique(s: Seq<char>, i: int, r1: Rule, l1: nat, r2: Rule, l2: nat)
    requires
        longest_match(s, i, r1, l1),
        longest_match(s, i, r2, l2),
    ensures
        r1 == r2,
        l1 == l2,
{
    assert(rule_matches(r2, s.subrange(i, i + l2)));
    assert(rule_matches(r1, s.subrange(i, i + l1)));
}

/// One matching rule against the tokenizer's choice
proof fn lemma_scan_facts(s: Seq<char>, i: int, q: Rule, e: int)
    requires
        0 <= i < e <= s.len(),
        rule_matches(q, s.subrange(i, e)),
    ensures
        match scan_at(s, i).0 {
            Some(r) => e < i + scan_at(s, i).1 || (e == i + scan_at(s, i).1 && (q == r || priority(q)
                < priority(r))),
            Option::None => false,
        },
{
    lemma_match_facts(s, i, q, e);
    lemma_scan_at_bounds(s, i);
    let (r, len) = scan_at(s, i);
    let c = s[i];
    lemma_run(s, i, CharClass::OperatorChar);
    lemma_run(s, i, CharClass::IdContinue);
    if c == '/' && i + 1 < s.len() && s[i + 1] == '/' {
        if q is Operator && e >= i + 2 {
            assert forall|k: int| i + 2 <= k < e implies in_class(
                CharClass::NotNewline,
                #[trigger] s[k],
            ) by {}
            lemma_run_bound(s, i + 2, e, CharClass::NotNewline);
        }
    }
    if len == 1 {
        assert(s.subrange(i, i + 1) =~= seq![c]);
    }
    if let Some(Rule::Literal(t)) = r {
        lemma_literal_inverse(s.subrange(i, i + len), t);
        lemma_literal_shape(t, s.subrange(i, i + len));
    }
    if let Rule::Literal(t) = q {
        lemma_literal_inverse(s.subrange(i, e), t);
        lemma_literal_shape(t, s.subrange(i, e));
        if e == i + 1 {
            assert(s.subrange(i, e) =~= seq![c]);
        }
    }
    if c == '.' && q is Rational {
        assert(run_len(s, i, CharClass::Digit) == 0);
    }
}

} // verus!
