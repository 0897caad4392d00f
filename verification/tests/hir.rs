use ppl::semantics::hir::{
    Expression, Literal, Mutability, Mutable, Typed, VariableDeclaration, VariableReference,
};
use ppl::semantics::types::{Type, TypeDeclaration};
use ppl::syntax::ranged::Ranged;
use ppl::syntax::with_offset::WithOffset;

fn class(name: &str) -> Type {
    Type::Class(TypeDeclaration { name: WithOffset { offset: 0, value: name.to_string() } })
}

#[test]
fn type_texts() {
    assert_eq!(Type::NoneType.to_string(), "None");
    assert_eq!(Type::Integer.to_string(), "Integer");
    assert_eq!(class("Point").to_string(), "Point");
    let f = Type::Function {
        parameters: vec![Type::Integer, class("Point")],
        return_type: Box::new(Type::NoneType),
    };
    assert_eq!(f.to_string(), "(Integer, Point) -> None");
    let g = Type::Function { parameters: vec![], return_type: Box::new(f) };
    assert_eq!(g.to_string(), "() -> (Integer, Point) -> None");
}

fn variable(name: &str, initializer: Expression, mutability: Mutability) -> VariableDeclaration {
    VariableDeclaration {
        name: WithOffset { offset: 0, value: name.to_string() },
        initializer,
        mutability,
    }
}

#[test]
fn literal_ranges_and_types() {
    let none = Literal::NoneLiteral { offset: 3 };
    assert_eq!(none.range(), 3..7);
    assert!(matches!(none.get_type(), Type::NoneType));
    let int = Literal::Integer { span: 5..8, value: "123".to_string() };
    assert_eq!(int.range(), 5..8);
    assert!(matches!(int.get_type(), Type::Integer));
}

#[test]
fn references_take_the_variable_type() {
    let x = variable(
        "x",
        Expression::Literal(Literal::Integer { span: 8..9, value: "1".to_string() }),
        Mutability::Mutable,
    );
    let y = variable(
        "y",
        Expression::VariableReference(VariableReference { span: 20..21, variable: Box::new(x) }),
        Mutability::Immutable,
    );
    assert!(matches!(y.get_type(), Type::Integer));
    assert!(!y.is_mutable());
    let reference = Expression::VariableReference(VariableReference {
        span: 30..31,
        variable: Box::new(y),
    });
    assert_eq!(reference.range(), 30..31);
    assert!(matches!(reference.get_type(), Type::Integer));
    assert!(!reference.is_mutable());
}

#[test]
fn mutability_of_expressions() {
    let x = variable(
        "x",
        Expression::Literal(Literal::NoneLiteral { offset: 8 }),
        Mutability::Mutable,
    );
    assert!(x.is_mutable());
    let reference = Expression::VariableReference(VariableReference {
        span: 0..1,
        variable: Box::new(x),
    });
    assert!(reference.is_mutable());
    assert!(!Expression::Literal(Literal::NoneLiteral { offset: 0 }).is_mutable());
    assert!(Mutability::Mutable.is_mutable());
    assert!(!Mutability::Immutable.is_mutable());
}

#[test]
fn new_module_is_empty() {
    let module = ppl::semantics::module::Module::new();
    assert!(module.variables.is_empty());
    assert!(module.types.is_empty());
    assert!(module.statements.is_empty());
}
