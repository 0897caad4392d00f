use vstd::prelude::*;

verus! {

/// Trait for things that cover a range of bytes in the source
pub trait Ranged {
    /// Start of the range
    spec fn spec_start(&self) -> nat;

    /// End of the range
    spec fn spec_end(&self) -> nat;

    /// The range can be computed (its end fits in `usize`)
    spec fn has_range(&self) -> bool;

    /// Get start of range
    fn start(&self) -> (s: usize)
        requires
            self.has_range(),
        ensures
            s == self.spec_start(),
    ;

    /// Get end of range
    fn end(&self) -> (e: usize)
        requires
            self.has_range(),
        ensures
            e == self.spec_end(),
    ;

    /// Get range
    fn range(&self) -> (r: std::ops::Range<usize>)
        requires
            self.has_range(),
        ensures
            r.start == self.spec_start(),
            r.end == self.spec_end(),
    {
        let start = self.start();
        let end = self.end();
        start..end
    }
}

/// A sequence of ranged things covers from the start of the first to the end
/// of the last; an empty one covers `0..0`
impl<T: Ranged> Ranged for Vec<T> {
    open spec fn spec_start(&self) -> nat {
        if self@.len() == 0 {
            0
        } else {
            self@[0].spec_start()
        }
    }

    open spec fn spec_end(&self) -> nat {
        if self@.len() == 0 {
            0
        } else {
            self@.last().spec_end()
        }
    }

    open spec fn has_range(&self) -> bool {
        self@.len() == 0 || (self@[0].has_range() && self@.last().has_range())
    }

    fn start(&self) -> (s: usize) {
        if self.len() == 0 {
            0
        } else {
            self[0].start()
        }
    }

    fn end(&self) -> (e: usize) {
        if self.len() == 0 {
            0
        } else {
            self[self.len() - 1].end()
        }
    }
}

} // verus!
