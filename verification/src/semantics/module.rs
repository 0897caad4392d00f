use vstd::prelude::*;

use super::hir::{Statement, VariableDeclaration};
use super::types::TypeDeclaration;

verus! {

/// Module with PPL code
pub struct Module {
    /// Variables declared in this module, by name
    pub variables: Vec<(String, VariableDeclaration)>,
    /// Types declared in this module, by name
    pub types: Vec<(String, TypeDeclaration)>,
    /// Statements in this module
    pub statements: Vec<Statement>,
}

impl Module {
    /// Create an empty module
    pub fn new() -> (m: Self)
        ensures
            m.variables@.len() == 0,
            m.types@.len() == 0,
            m.statements@.len() == 0,
    {
        Module { variables: Vec::new(), types: Vec::new(), statements: Vec::new() }
    }
}

} // verus!
