//! PPL: the Pseudo-Programming Language front end.
//!
//! The library holds the parts of the compiler front end that work on plain
//! values: the tokenizer and its token grammar, the lexer state machine, the
//! parser of the small statement language, source positions, operator
//! precedence, the typed tree and its types, the names that the semantic
//! passes give, and the text of the runtime's numbers.

pub mod source_file;
pub mod source_location;
pub mod syntax;
pub mod semantics;
pub mod runtime;
