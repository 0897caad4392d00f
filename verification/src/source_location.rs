use vstd::prelude::*;

use crate::source_file::SourceFile;

verus! {

/// A span of bytes in a source: its offset and length
#[derive(Debug, Clone, Copy, PartialEq, Eq, Structural)]
pub struct SourceSpan {
    /// Byte offset of the start of the span
    pub offset: usize,
    /// Number of bytes in the span
    pub length: usize,
}

impl SourceSpan {
    /// The empty span at `offset`
    pub fn at_offset(offset: usize) -> (s: Self)
        ensures
            s.offset == offset,
            s.length == 0,
    {
        SourceSpan { offset, length: 0 }
    }

    /// The span of the byte range `start..end` (empty when `end <= start`)
    pub fn from_range(start: usize, end: usize) -> (s: Self)
        ensures
            s.offset == start,
            s.length == if start < end {
                end - start
            } else {
                0
            },
    {
        SourceSpan { offset: start, length: if start < end { end - start } else { 0 } }
    }
}

/// Location inside a source file
pub struct SourceLocation {
    /// Source file this location is in. `None` means current file
    pub source_file: Option<SourceFile>,
    /// Span of the source file
    pub at: SourceSpan,
}

impl SourceLocation {
    /// A location in the current file
    pub fn from_span(at: SourceSpan) -> (l: Self)
        ensures
            l.source_file is None,
            l.at == at,
    {
        SourceLocation { source_file: None, at }
    }
}

impl Clone for SourceLocation {
    fn clone(&self) -> (l: Self)
        ensures
            l == *self,
    {
        let source_file = match &self.source_file {
            Some(f) => Some(f.clone()),
            Option::None => Option::None,
        };
        SourceLocation { source_file, at: self.at }
    }
}

/// Some value with a source location
pub struct WithSourceLocation<T> {
    /// The value itself
    pub value: T,
    /// Source location of the value
    pub source_location: SourceLocation,
}

impl<T: Clone> Clone for WithSourceLocation<T> {
    /// The value cloned, at the same location
    fn clone(&self) -> (w: Self)
        ensures
            cloned(self.value, w.value),
            w.source_location == self.source_location,
    {
        WithSourceLocation { value: self.value.clone(), source_location: self.source_location.clone() }
    }
}

/// Trait to add source location to a value
pub trait AddSourceLocation: Sized {
    /// This value at `source_location`
    fn at(self, source_location: SourceLocation) -> (w: WithSourceLocation<Self>)
        ensures
            w.value == self,
            w.source_location == source_location,
    {
        WithSourceLocation { value: self, source_location }
    }
}

} // verus!
