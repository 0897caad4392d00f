//! The runtime's arithmetic on machine integers and the text forms of its
//! numbers.

pub mod integer;
pub mod rational;
