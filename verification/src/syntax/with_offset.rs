use vstd::prelude::*;
use vstd::string::StringExecFns;
use vstd::utf8::encode_utf8;

use super::ranged::Ranged;

verus! {

/// Value with starting offset
#[derive(Debug, PartialEq, Eq, Clone)]
pub struct WithOffset<T> {
    /// Offset of the start of the value
    pub offset: usize,
    /// Value at an offset
    pub value: T,
}

/// String at some offset
#[derive(Debug, PartialEq, Eq)]
pub struct StringWithOffset {
    /// Offset of the start of the string
    offset: usize,
    /// String value
    value: String,
}

impl View for StringWithOffset {
    type V = (nat, Seq<char>);

    /// The offset and the text
    closed spec fn view(&self) -> (nat, Seq<char>) {
        (self.offset as nat, self.value@)
    }
}

impl Clone for StringWithOffset {
    fn clone(&self) -> (s: Self)
        ensures
            s@ == self@,
    {
        StringWithOffset { offset: self.offset, value: self.value.clone() }
    }
}

impl StringWithOffset {
    /// Reposition string at some offset
    pub fn at(self, offset: usize) -> (s: Self)
        ensures
            s@ == (offset as nat, self@.1),
    {
        Self { offset, ..self }
    }

    /// Create string at offset 0
    pub fn from(value: &str) -> (s: Self)
        ensures
            s@ == (0nat, value@),
    {
        Self { offset: 0, value: String::from_str(value) }
    }

    /// Create string at offset 0
    pub fn from_string(value: String) -> (s: Self)
        ensures
            s@ == (0nat, value@),
    {
        Self { offset: 0, value }
    }

    /// The string (what the value dereferences to)
    pub fn as_str(&self) -> (s: &str)
        ensures
            s@ == self@.1,
    {
        self.value.as_str()
    }

    /// The string as it is displayed
    pub fn to_string(&self) -> (s: String)
        ensures
            s@ == self@.1,
    {
        self.value.clone()
    }

    /// The string, without its offset
    pub fn into_string(self) -> (s: String)
        ensures
            s@ == self@.1,
    {
        self.value
    }

    /// Is the string equal to `other`?
    pub fn eq_str(&self, other: &str) -> (b: bool)
        ensures
            b == (self@.1 == other@),
    {
        let other = String::from_str(other);
        self.value == other
    }
}

impl Ranged for StringWithOffset {
    /// The offset of the string
    closed spec fn spec_start(&self) -> nat {
        self.offset as nat
    }

    /// The offset plus the string's length in bytes
    closed spec fn spec_end(&self) -> nat {
        (self.offset + encode_utf8(self.value@).len()) as nat
    }

    /// The end fits in `usize`
    closed spec fn has_range(&self) -> bool {
        self.offset + encode_utf8(self.value@).len() <= usize::MAX
    }

    fn start(&self) -> (s: usize) {
        self.offset
    }

    fn end(&self) -> (e: usize) {
        self.offset + self.value.as_str().len()
    }
}

impl StringWithOffset {
    /// The range is the offset and the offset plus the length in bytes
    pub proof fn lemma_range(&self)
        ensures
            self.spec_start() == self@.0,
            self.spec_end() == self@.0 + encode_utf8(self@.1).len(),
            self.has_range() == (self@.0 + encode_utf8(self@.1).len() <= usize::MAX),
    {
    }
}

} // verus!
