use ppl::semantics::temporaries::{
    module_with_temporaries, ConversionKind, Expression, Statement, TemporariesInserter,
};

fn call(start: usize) -> Expression {
    Expression::Call { function: 1, arguments: vec![], ty: 7, start, end: start + 5 }
}

fn reference_to(e: Expression) -> Expression {
    Expression::Conversion { kind: ConversionKind::Reference, expression: Box::new(e), ty: 8, start: 0, end: 9 }
}

#[test]
fn returned_value_is_kept_in_a_temporary() {
    let r = module_with_temporaries(vec![Statement::Return { value: Some(call(3)) }]);
    assert_eq!(r.len(), 1);
    match &r[0] {
        Statement::Block { statements } => {
            assert_eq!(statements.len(), 2);
            match &statements[0] {
                Statement::Temporary(t) => {
                    assert_eq!(t.offset, 3);
                    assert_eq!(t.name, "$tmp@3");
                    assert!(!t.mutable);
                    assert!(matches!(t.initializer, Expression::Call { start: 3, end: 8, .. }));
                }
                _ => panic!("expected the temporary first"),
            }
            assert!(matches!(
                statements[1],
                Statement::Return { value: Some(Expression::Temporary { offset: 3, ty: 7, mutable: false, start: 3, end: 8 }) }
            ));
        }
        _ => panic!("expected a block"),
    }
}

#[test]
fn returned_literal_is_left_as_it_is() {
    let r = module_with_temporaries(vec![Statement::Return {
        value: Some(Expression::Literal { ty: 2, start: 7, end: 8 }),
    }]);
    assert!(matches!(r[0], Statement::Return { value: Some(Expression::Literal { start: 7, .. }) }));
    let r = module_with_temporaries(vec![Statement::Return { value: None }]);
    assert!(matches!(r[0], Statement::Return { value: None }));
}

#[test]
fn reference_to_a_value_goes_through_a_temporary() {
    let r = module_with_temporaries(vec![Statement::Expression(reference_to(call(4)))]);
    match &r[0] {
        Statement::Block { statements } => {
            assert!(matches!(&statements[0], Statement::Temporary(t) if t.offset == 4));
            assert!(matches!(
                &statements[1],
                Statement::Expression(Expression::Conversion { expression, .. })
                    if matches!(**expression, Expression::Temporary { offset: 4, .. })
            ));
        }
        _ => panic!("expected a block"),
    }
}

#[test]
fn reference_to_a_variable_needs_no_temporary() {
    let variable = Expression::Variable { variable: 1, ty: 2, mutable: true, start: 5, end: 6 };
    let r = module_with_temporaries(vec![Statement::Expression(reference_to(variable))]);
    assert!(matches!(&r[0], Statement::Expression(Expression::Conversion { .. })));
}

#[test]
fn temporaries_of_a_condition_precede_the_first_inner_statement() {
    let r = module_with_temporaries(vec![Statement::If {
        condition: reference_to(call(2)),
        body: vec![Statement::Expression(Expression::Other { ty: 1, mutable: false, start: 20, end: 21 })],
        else_block: None,
    }]);
    match &r[0] {
        Statement::If { body, .. } => match &body[0] {
            Statement::Block { statements } => {
                assert!(matches!(&statements[0], Statement::Temporary(t) if t.offset == 2));
                assert!(matches!(statements[1], Statement::Expression(Expression::Other { start: 20, .. })));
            }
            _ => panic!("expected the temporary before the inner statement"),
        },
        _ => panic!("expected the if statement itself"),
    }
}

#[test]
fn inserter_works_statement_by_statement() {
    let mut inserter = TemporariesInserter::new();
    let s = inserter.statement(Statement::Return { value: Some(call(9)) });
    assert!(matches!(s, Statement::Block { .. }));
    let s = inserter.statement(Statement::Expression(Expression::Other { ty: 1, mutable: false, start: 0, end: 1 }));
    assert!(matches!(s, Statement::Expression(_)));
}

#[test]
fn temporary_keeps_mutability_and_is_named_after_its_offset() {
    let value = Expression::Other { ty: 4, mutable: true, start: 12, end: 15 };
    let r = module_with_temporaries(vec![Statement::Return { value: Some(value) }]);
    match &r[0] {
        Statement::Block { statements } => match &statements[0] {
            Statement::Temporary(t) => {
                assert_eq!(t.name, "$tmp@12");
                assert!(t.mutable);
            }
            _ => panic!("expected the temporary"),
        },
        _ => panic!("expected a block"),
    }
}

#[test]
fn exit_statement_declares_pending_temporaries_once() {
    let mut inserter = TemporariesInserter::new();
    let plain = inserter.exit_statement(Statement::Return { value: None });
    assert!(matches!(plain, Statement::Return { value: None }));
    let e = inserter.expression(Expression::Conversion {
        kind: ConversionKind::Reference,
        expression: Box::new(call(1)),
        ty: 8,
        start: 0,
        end: 9,
    });
    assert!(matches!(e, Expression::Conversion { .. }));
    let s = inserter.exit_statement(Statement::Expression(e));
    match s {
        Statement::Block { statements } => {
            assert_eq!(statements.len(), 2);
            assert!(matches!(&statements[0], Statement::Temporary(t) if t.name == "$tmp@1"));
        }
        _ => panic!("expected a block"),
    }
    let again = inserter.exit_statement(Statement::Return { value: None });
    assert!(matches!(again, Statement::Return { value: None }));
}

#[test]
fn constructor_values_are_visited_and_literals_get_no_temporary() {
    let literal = Expression::Literal { ty: 2, start: 3, end: 4 };
    let constructed = Expression::Constructor { initializers: vec![literal, reference_to(call(6))], ty: 9, start: 0, end: 12 };
    let r = module_with_temporaries(vec![Statement::Expression(constructed)]);
    match &r[0] {
        Statement::Block { statements } => {
            assert_eq!(statements.len(), 2);
            assert!(matches!(&statements[0], Statement::Temporary(t) if t.offset == 6));
            match &statements[1] {
                Statement::Expression(Expression::Constructor { initializers, .. }) => {
                    assert!(matches!(initializers[0], Expression::Literal { start: 3, .. }));
                }
                _ => panic!("expected the constructor"),
            }
        }
        _ => panic!("expected a block"),
    }
    let plain = Expression::Constructor {
        initializers: vec![Expression::Literal { ty: 2, start: 3, end: 4 }],
        ty: 9,
        start: 0,
        end: 5,
    };
    let r = module_with_temporaries(vec![Statement::Expression(plain)]);
    assert!(matches!(&r[0], Statement::Expression(Expression::Constructor { .. })));
}

#[test]
fn member_of_mutable_variable_keeps_mutability_in_temporary() {
    let base = Expression::Variable { variable: 1, ty: 2, mutable: true, start: 0, end: 1 };
    let member = Expression::MemberReference { base: Box::new(base), member: 0, ty: 3, start: 0, end: 3 };
    let r = module_with_temporaries(vec![Statement::Return { value: Some(member) }]);
    match &r[0] {
        Statement::Block { statements } => {
            assert!(matches!(&statements[0], Statement::Temporary(t) if t.mutable && t.name == "$tmp@0"));
        }
        _ => panic!("expected a block"),
    }
}
