use vstd::prelude::*;
use vstd::string::StrSliceExecFns;
use vstd::string::StringExecFns;

use super::ranged::Ranged;
use super::with_offset::StringWithOffset;

verus! {

/// Number of backquotes at the start of `w[i..]`
pub open spec fn leading_backquotes(w: Seq<char>, i: int) -> nat
    decreases w.len() - i,
{
    if 0 <= i < w.len() && w[i] == '`' {
        1 + leading_backquotes(w, i + 1)
    } else {
        0
    }
}

/// Number of backquotes at the end of `w[..j]`
pub open spec fn trailing_backquotes(w: Seq<char>, j: int) -> nat
    decreases j,
{
    if 0 < j <= w.len() && w[j - 1] == '`' {
        1 + trailing_backquotes(w, j - 1)
    } else {
        0
    }
}

/// `w` without the backquotes at its start and then without those at its end
pub open spec fn trim_backquotes(w: Seq<char>) -> Seq<char> {
    let a = leading_backquotes(w, 0);
    if a == w.len() {
        Seq::empty()
    } else {
        w.subrange(a as int, w.len() - trailing_backquotes(w, w.len() as int))
    }
}

/// Escaped or unescaped identifier
#[derive(Debug, PartialEq, Eq)]
pub struct Identifier(StringWithOffset);

impl View for Identifier {
    type V = (nat, Seq<char>);

    /// The offset and the text, backquotes included
    closed spec fn view(&self) -> (nat, Seq<char>) {
        self.0@
    }
}

impl Identifier {
    /// Identifier with the text and offset of `s`
    pub fn from(s: StringWithOffset) -> (id: Self)
        ensures
            id@ == s@,
    {
        Identifier(s)
    }

    /// The text and offset of the identifier
    pub fn into_inner(self) -> (s: StringWithOffset)
        ensures
            s@ == self@,
    {
        self.0
    }

    /// Get identifier as string slice, without the backquotes around it
    pub fn as_str(&self) -> (s: &str)
        ensures
            s@ == trim_backquotes(self@.1),
    {
        let text = self.0.as_str();
        let n = text.unicode_len();
        let mut a: usize = 0;
        while a < n && text.get_char(a) == '`'
            invariant
                n == text@.len(),
                a <= n,
                leading_backquotes(text@, 0) == a + leading_backquotes(text@, a as int),
            decreases n - a,
        {
            a = a + 1;
        }
        if a == n {
            return text.substring_char(n, n);
        }
        let mut b: usize = n;
        assert(leading_backquotes(text@, a as int) == 0);
        while b > a + 1 && text.get_char(b - 1) == '`'
            invariant
                n == text@.len(),
                a < n,
                text@[a as int] != '`',
                a < b <= n,
                trailing_backquotes(text@, n as int) == (n - b) + trailing_backquotes(
                    text@,
                    b as int,
                ),
            decreases b,
        {
            b = b - 1;
        }
        assert(trailing_backquotes(text@, b as int) == 0);
        text.substring_char(a, b)
    }

    /// Is the identifier (without backquotes) `other`?
    pub fn eq_str(&self, other: &str) -> (b: bool)
        ensures
            b == (trim_backquotes(self@.1) == other@),
    {
        let mine = String::from_str(self.as_str());
        let theirs = String::from_str(other);
        mine == theirs
    }
}

impl Ranged for Identifier {
    /// The start of the text
    closed spec fn spec_start(&self) -> nat {
        self.0.spec_start()
    }

    /// The end of the text
    closed spec fn spec_end(&self) -> nat {
        self.0.spec_end()
    }

    closed spec fn has_range(&self) -> bool {
        self.0.has_range()
    }

    fn start(&self) -> (s: usize) {
        self.0.start()
    }

    fn end(&self) -> (e: usize) {
        self.0.end()
    }
}

impl Identifier {
    /// An identifier covers the range of its text, backquotes included
    pub proof fn lemma_range(&self)
        ensures
            self.spec_start() == self@.0,
            self.spec_end() == self@.0 + vstd::utf8::encode_utf8(self@.1).len(),
            self.has_range() == (self@.0 + vstd::utf8::encode_utf8(self@.1).len() <= usize::MAX),
    {
        self.0.lemma_range();
    }
}

} // verus!
