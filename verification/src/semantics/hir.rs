use vstd::prelude::*;

use super::types::Type;
use crate::syntax::ranged::Ranged;
use crate::syntax::with_offset::WithOffset;

verus! {

/// Mutability of a variable
#[derive(Debug, PartialEq, Eq, Structural, Clone, Copy)]
pub enum Mutability {
    Immutable,
    Mutable,
}

impl Mutability {
    /// Is it mutable?
    pub fn is_mutable(&self) -> (b: bool)
        ensures
            b == (*self == Mutability::Mutable),
    {
        match self {
            Mutability::Mutable => true,
            Mutability::Immutable => false,
        }
    }
}

/// Trait for things that may be mutable
pub trait Mutable {
    /// Is it mutable?
    spec fn spec_is_mutable(&self) -> bool;

    /// Is it mutable?
    fn is_mutable(&self) -> (b: bool)
        ensures
            b == self.spec_is_mutable(),
    ;
}

/// Trait for values with a type
pub trait Typed {
    /// Type of the value
    spec fn type_of(&self) -> Type;

    /// Get type of value
    fn get_type(&self) -> (t: Type)
        ensures
            t == self.type_of(),
    ;
}

/// HIR for compile time known values
pub enum Literal {
    /// None literal
    NoneLiteral { offset: usize },
    /// Any precision decimal integer literal, with its decimal text
    Integer { span: std::ops::Range<usize>, value: String },
}

/// HIR for variable reference
pub struct VariableReference {
    /// Range of variable reference
    pub span: std::ops::Range<usize>,
    /// Referenced variable
    pub variable: Box<VariableDeclaration>,
}

/// Any PPL expression
pub enum Expression {
    Literal(Literal),
    VariableReference(VariableReference),
}

/// Declaration of a variable
pub struct VariableDeclaration {
    /// Variable's name
    pub name: WithOffset<String>,
    /// Initializer for variable
    pub initializer: Expression,
    /// Mutability of variable
    pub mutability: Mutability,
}

/// Any PPL declaration
pub enum Declaration {
    VariableDeclaration(VariableDeclaration),
}

/// Assignment of a value to a target
pub struct Assignment {
    /// Variable to assign to
    pub target: Expression,
    /// Value to assign
    pub value: Expression,
}

/// Any PPL statement
pub enum Statement {
    Declaration(Declaration),
    Expression(Expression),
    Assignment(Assignment),
}

/// Type of a literal: `None` or `Integer`
pub open spec fn literal_type(l: Literal) -> Type {
    match l {
        Literal::NoneLiteral { .. } => Type::NoneType,
        Literal::Integer { .. } => Type::Integer,
    }
}

/// Type of an expression: of its literal, or of the referenced variable
pub open spec fn expression_type(e: Expression) -> Type
    decreases e,
{
    match e {
        Expression::Literal(l) => literal_type(l),
        Expression::VariableReference(v) => declaration_type(*v.variable),
    }
}

/// Type of a variable: the type of its initializer
pub open spec fn declaration_type(d: VariableDeclaration) -> Type
    decreases d,
{
    expression_type(d.initializer)
}

/// Type of an expression
fn get_expression_type(e: &Expression) -> (t: Type)
    ensures
        t == expression_type(*e),
    decreases e,
{
    match e {
        Expression::Literal(l) => l.get_type(),
        Expression::VariableReference(v) => get_declaration_type(&v.variable),
    }
}

/// Type of a variable
fn get_declaration_type(d: &VariableDeclaration) -> (t: Type)
    ensures
        t == declaration_type(*d),
    decreases d,
{
    get_expression_type(&d.initializer)
}

impl Typed for Literal {
    open spec fn type_of(&self) -> Type {
        literal_type(*self)
    }

    /// Get type of literal
    fn get_type(&self) -> (t: Type) {
        match self {
            Literal::NoneLiteral { .. } => Type::NoneType,
            Literal::Integer { .. } => Type::Integer,
        }
    }
}

impl Typed for VariableReference {
    open spec fn type_of(&self) -> Type {
        declaration_type(*self.variable)
    }

    /// Get type of variable reference
    fn get_type(&self) -> (t: Type) {
        get_declaration_type(&self.variable)
    }
}

impl Typed for Expression {
    open spec fn type_of(&self) -> Type {
        expression_type(*self)
    }

    /// Get type of expression
    fn get_type(&self) -> (t: Type) {
        get_expression_type(self)
    }
}

impl Typed for VariableDeclaration {
    open spec fn type_of(&self) -> Type {
        declaration_type(*self)
    }

    /// Get type of variable
    fn get_type(&self) -> (t: Type) {
        get_declaration_type(self)
    }
}

impl Mutable for VariableDeclaration {
    open spec fn spec_is_mutable(&self) -> bool {
        self.mutability == Mutability::Mutable
    }

    /// Is variable declared as mutable?
    fn is_mutable(&self) -> (b: bool) {
        self.mutability.is_mutable()
    }
}

impl Mutable for VariableReference {
    open spec fn spec_is_mutable(&self) -> bool {
        self.variable.mutability == Mutability::Mutable
    }

    /// Check if referenced variable is mutable
    fn is_mutable(&self) -> (b: bool) {
        self.variable.is_mutable()
    }
}

impl Mutable for Expression {
    open spec fn spec_is_mutable(&self) -> bool {
        match self {
            Expression::Literal(_) => false,
            Expression::VariableReference(v) => v.spec_is_mutable(),
        }
    }

    /// Is result of expression mutable?
    fn is_mutable(&self) -> (b: bool) {
        match self {
            Expression::Literal(_) => false,
            Expression::VariableReference(v) => v.is_mutable(),
        }
    }
}

impl Ranged for Literal {
    /// A `none` literal covers its four bytes; an integer its span
    open spec fn spec_start(&self) -> nat {
        match self {
            Literal::NoneLiteral { offset } => *offset as nat,
            Literal::Integer { span, .. } => span.start as nat,
        }
    }

    open spec fn spec_end(&self) -> nat {
        match self {
            Literal::NoneLiteral { offset } => (*offset + 4) as nat,
            Literal::Integer { span, .. } => span.end as nat,
        }
    }

    open spec fn has_range(&self) -> bool {
        match self {
            Literal::NoneLiteral { offset } => *offset + 4 <= usize::MAX,
            Literal::Integer { .. } => true,
        }
    }

    fn start(&self) -> (s: usize) {
        match self {
            Literal::NoneLiteral { offset } => *offset,
            Literal::Integer { span, .. } => span.start,
        }
    }

    fn end(&self) -> (e: usize) {
        match self {
            Literal::NoneLiteral { offset } => *offset + 4,
            Literal::Integer { span, .. } => span.end,
        }
    }
}

impl Ranged for VariableReference {
    /// The span of the reference
    open spec fn spec_start(&self) -> nat {
        self.span.start as nat
    }

    open spec fn spec_end(&self) -> nat {
        self.span.end as nat
    }

    open spec fn has_range(&self) -> bool {
        true
    }

    fn start(&self) -> (s: usize) {
        self.span.start
    }

    fn end(&self) -> (e: usize) {
        self.span.end
    }
}

impl Ranged for Expression {
    /// The range of the literal or of the variable reference
    open spec fn spec_start(&self) -> nat {
        match self {
            Expression::Literal(l) => l.spec_start(),
            Expression::VariableReference(v) => v.spec_start(),
        }
    }

    open spec fn spec_end(&self) -> nat {
        match self {
            Expression::Literal(l) => l.spec_end(),
            Expression::VariableReference(v) => v.spec_end(),
        }
    }

    open spec fn has_range(&self) -> bool {
        match self {
            Expression::Literal(l) => l.has_range(),
            Expression::VariableReference(v) => v.has_range(),
        }
    }

    fn start(&self) -> (s: usize) {
        match self {
            Expression::Literal(l) => l.start(),
            Expression::VariableReference(v) => v.start(),
        }
    }

    fn end(&self) -> (e: usize) {
        match self {
            Expression::Literal(l) => l.end(),
            Expression::VariableReference(v) => v.end(),
        }
    }
}

} // verus!
