use vstd::prelude::*;
use vstd::utf8::*;

verus! {

/// Number of newline bytes (`b'\n'`) in `bytes`.
pub open spec fn count_newlines(bytes: Seq<u8>) -> nat
    decreases bytes.len(),
{
    if bytes.len() == 0 {
        0
    } else {
        count_newlines(bytes.drop_last()) + if bytes.last() == 10u8 { 1nat } else { 0nat }
    }
}

/// Index of the first byte of the last line of `bytes`:
/// one past the last newline byte, or `0` when there is none.
pub open spec fn line_start(bytes: Seq<u8>) -> nat
    decreases bytes.len(),
{
    if bytes.len() == 0 {
        0
    } else if bytes.last() == 10u8 {
        bytes.len()
    } else {
        line_start(bytes.drop_last())
    }
}

/// The byte offset of every character of a text, and so the end of the text,
/// is a character boundary of its UTF-8 encoding
pub proof fn lemma_char_offset_is_boundary(s: Seq<char>, k: int)
    requires
        0 <= k <= s.len(),
    ensures
        is_char_boundary(encode_utf8(s), encode_utf8(s.take(k)).len() as int),
    decreases k,
{
    encode_utf8_valid_utf8(s);
    if k > 0 {
        let bytes = encode_utf8(s);
        encode_utf8_first_scalar(s);
        assert(pop_first_scalar(bytes) =~= encode_utf8(s.drop_first()));
        assert(s.take(k).drop_first() =~= s.drop_first().take(k - 1));
        assert(s.take(k)[0] == s[0]);
        lemma_char_offset_is_boundary(s.drop_first(), k - 1);
    }
}

/// The end of a text's UTF-8 encoding is a character boundary
pub proof fn lemma_end_is_boundary(s: Seq<char>)
    ensures
        is_char_boundary(encode_utf8(s), encode_utf8(s).len() as int),
{
    lemma_char_offset_is_boundary(s, s.len() as int);
    assert(s.take(s.len() as int) =~= s);
}

/// A source file: where it comes from, its name and its contents.
pub struct SourceFile {
    /// Path to file
    path: String,
    /// Name of the file
    name: String,
    /// File contents
    source: String,
}

impl SourceFile {
    /// Path of the file, as text
    pub closed spec fn spec_path(&self) -> Seq<char> {
        self.path@
    }

    /// Name of the file
    pub closed spec fn spec_name(&self) -> Seq<char> {
        self.name@
    }

    /// Contents of the file
    pub closed spec fn spec_source(&self) -> Seq<char> {
        self.source@
    }

    /// UTF-8 bytes of the contents; byte offsets index into these
    pub open spec fn source_bytes(&self) -> Seq<u8> {
        encode_utf8(self.spec_source())
    }

    /// The byte offset clamped to the end of the contents
    pub open spec fn clamp(&self, offset: usize) -> nat {
        if offset < self.source_bytes().len() {
            offset as nat
        } else {
            self.source_bytes().len()
        }
    }

    /// An offset at or past the end of the contents, or at the start of one
    /// of its characters, can be given to `line_number` and `column_number`
    pub proof fn lemma_offset_allowed(&self, offset: usize)
        requires
            offset >= self.source_bytes().len() || exists|k: int|
                0 <= k <= self.spec_source().len() && offset == encode_utf8(
                    self.spec_source().take(k),
                ).len(),
        ensures
            is_char_boundary(self.source_bytes(), self.clamp(offset) as int),
    {
        if offset >= self.source_bytes().len() {
            lemma_end_is_boundary(self.spec_source());
        } else {
            let k = choose|k: int|
                0 <= k <= self.spec_source().len() && offset == encode_utf8(
                    self.spec_source().take(k),
                ).len();
            lemma_char_offset_is_boundary(self.spec_source(), k);
        }
    }

    /// Get virtual source file
    pub fn in_memory(name: String, source: String) -> (file: Self)
        ensures
            file.spec_path() == "<memory>"@,
            file.spec_name() == name@,
            file.spec_source() == source@,
    {
        let path = String::from_str("<memory>");
        Self { path, name, source }
    }

    /// A source file read from `path`, whose file name is `name`
    pub fn from_contents(path: String, name: String, source: String) -> (file: Self)
        ensures
            file.spec_path() == path@,
            file.spec_name() == name@,
            file.spec_source() == source@,
    {
        Self { path, name, source }
    }

    /// Get path to the source file
    pub fn path(&self) -> (p: &str)
        ensures
            p@ == self.spec_path(),
    {
        self.path.as_str()
    }

    /// Name of the source file
    pub fn name(&self) -> (n: &str)
        ensures
            n@ == self.spec_name(),
    {
        self.name.as_str()
    }

    /// Contents of the source file
    pub fn source(&self) -> (s: &str)
        ensures
            s@ == self.spec_source(),
    {
        self.source.as_str()
    }

    /// Two source files are the same when their paths and names are
    pub fn same_file(&self, other: &Self) -> (b: bool)
        ensures
            b == (self.spec_path() == other.spec_path() && self.spec_name() == other.spec_name()),
    {
        self.path == other.path && self.name == other.name
    }

    /// Line number for byte index
    ///
    /// The line holding the byte at `offset` (offsets past the end count as
    /// the end); a `'\n'` belongs to the line it ends.
    pub fn line_number(&self, offset: usize) -> (line: LineNumber)
        requires
            is_char_boundary(self.source_bytes(), self.clamp(offset) as int),
        ensures
            line@ == count_newlines(self.source_bytes().take(self.clamp(offset) as int)),
    {
        let bytes = self.source.as_str().as_bytes();
        let end = if offset < bytes.len() { offset } else { bytes.len() };
        let mut lines: usize = 0;
        let mut i: usize = 0;
        while i < end
            invariant
                bytes@ == self.source_bytes(),
                end == self.clamp(offset),
                end <= bytes@.len(),
                i <= end,
                lines == count_newlines(bytes@.take(i as int)),
                lines <= i,
            decreases end - i,
        {
            assert(bytes@.take(i + 1).drop_last() == bytes@.take(i as int));
            if bytes[i] == 10u8 {
                lines = lines + 1;
            }
            i = i + 1;
        }
        LineNumber::from_zero_based(lines)
    }

    /// Column number for byte index
    ///
    /// The distance in bytes from the start of the line holding `offset`
    /// (offsets past the end count as the end).
    pub fn column_number(&self, offset: usize) -> (column: ColumnNumber)
        requires
            is_char_boundary(self.source_bytes(), self.clamp(offset) as int),
        ensures
            column@ == self.clamp(offset) - line_start(
                self.source_bytes().take(self.clamp(offset) as int),
            ),
    {
        let bytes = self.source.as_str().as_bytes();
        let end = if offset < bytes.len() { offset } else { bytes.len() };
        let mut last_line: usize = 0;
        let mut i: usize = 0;
        while i < end
            invariant
                bytes@ == self.source_bytes(),
                end == self.clamp(offset),
                end <= bytes@.len(),
                i <= end,
                last_line == line_start(bytes@.take(i as int)),
                last_line <= i,
            decreases end - i,
        {
            assert(bytes@.take(i + 1).drop_last() == bytes@.take(i as int));
            if bytes[i] == 10u8 {
                last_line = i + 1;
            }
            i = i + 1;
        }
        ColumnNumber::from_zero_based(end - last_line)
    }
}

impl Clone for SourceFile {
    fn clone(&self) -> (file: Self)
        ensures
            file == *self,
    {
        SourceFile { path: self.path.clone(), name: self.name.clone(), source: self.source.clone() }
    }
}

/// A line number
pub struct LineNumber(usize);

impl View for LineNumber {
    type V = nat;

    /// The 0-based index of the line
    closed spec fn view(&self) -> nat {
        self.0 as nat
    }
}

impl LineNumber {
    /// Create a new `LineNumber` from a 0-based index
    pub fn from_zero_based(n: usize) -> (line: Self)
        ensures
            line@ == n,
    {
        Self(n)
    }

    /// Create a new `LineNumber` from a 1-based index
    pub fn from_one_based(n: usize) -> (res: Result<Self, ZeroAsOneBased>)
        ensures
            n == 0 <==> res is Err,
            res matches Ok(line) ==> line@ == n - 1,
    {
        if n == 0 {
            return Err(ZeroAsOneBased);
        }
        Ok(Self(n - 1))
    }

    /// Get the 0-based index
    pub fn zero_based(&self) -> (n: usize)
        ensures
            n == self@,
    {
        self.0
    }

    /// Get the 1-based index
    pub fn one_based(&self) -> (n: usize)
        requires
            self@ < usize::MAX,
        ensures
            n == self@ + 1,
    {
        self.0 + 1
    }
}

/// A column number
pub struct ColumnNumber(usize);

impl View for ColumnNumber {
    type V = nat;

    /// The 0-based index of the column
    closed spec fn view(&self) -> nat {
        self.0 as nat
    }
}

impl ColumnNumber {
    /// Create a new `ColumnNumber` from a 0-based index
    pub fn from_zero_based(n: usize) -> (column: Self)
        ensures
            column@ == n,
    {
        Self(n)
    }

    /// Create a new `ColumnNumber` from a 1-based index
    pub fn from_one_based(n: usize) -> (res: Result<Self, ZeroAsOneBased>)
        ensures
            n == 0 <==> res is Err,
            res matches Ok(column) ==> column@ == n - 1,
    {
        if n == 0 {
            return Err(ZeroAsOneBased);
        }
        Ok(Self(n - 1))
    }

    /// Get the 0-based index
    pub fn zero_based(&self) -> (n: usize)
        ensures
            n == self@,
    {
        self.0
    }

    /// Get the 1-based index
    pub fn one_based(&self) -> (n: usize)
        requires
            self@ < usize::MAX,
        ensures
            n == self@ + 1,
    {
        self.0 + 1
    }
}

/// Diagnostic for invalid 1-based line/column number:
/// "'0' is not a valid 1-based number"
#[derive(Debug, Clone, Copy, PartialEq, Eq)]
pub struct ZeroAsOneBased;

} // verus!
