use ppl::semantics::destructors::{
    module_with_destructors, with_destructors, Destructors, ElseIf, Expression, Function,
    Statement, Variable,
};

fn table() -> Destructors {
    // Type 1 has destructor function 7, whose calls have type 0
    Destructors { by_type: vec![None, Some((7, 0))] }
}

fn var(id: usize, ty: usize, start: usize) -> Variable {
    Variable { id, ty, start, end: start + 1 }
}

fn reference(v: Variable) -> Expression {
    Expression::VariableReference { variable: v, start: v.start, end: v.end }
}

fn destroy(v: Variable) -> Statement {
    Statement::Expression(Expression::Call {
        function: 7,
        argument: Box::new(reference(v)),
        start: v.start,
        end: v.end,
        ty: 0,
    })
}

fn other(ty: usize) -> Expression {
    Expression::Other { ty, start: 0, end: 1 }
}

fn declare(v: Variable) -> Statement {
    Statement::VariableDeclaration { variable: v, initializer: other(v.ty) }
}

#[test]
fn variables_are_destroyed_at_the_end_in_order() {
    let x = var(1, 1, 4);
    let y = var(2, 1, 9);
    let n = var(3, 0, 14);
    let out = module_with_destructors(
        vec![declare(x), declare(y), declare(n), Statement::Expression(other(0))],
        &table(),
    );
    assert_eq!(
        out,
        vec![
            declare(x),
            declare(y),
            declare(n),
            Statement::Expression(other(0)),
            destroy(x),
            destroy(y),
        ]
    );
}

#[test]
fn assignment_destroys_old_value_first() {
    let x = var(1, 1, 4);
    let out = module_with_destructors(
        vec![
            declare(x),
            Statement::Assignment { target: reference(x), value: other(1) },
        ],
        &table(),
    );
    assert_eq!(
        out,
        vec![
            declare(x),
            destroy(x),
            Statement::Assignment { target: reference(x), value: other(1) },
            destroy(x),
        ]
    );
}

#[test]
fn return_destroys_all_but_the_returned_variable_and_ends_the_list() {
    let x = var(1, 1, 4);
    let y = var(2, 1, 9);
    let out = with_destructors(
        vec![
            declare(x),
            declare(y),
            Statement::Return { value: Some(reference(x)) },
            Statement::Expression(other(0)),
        ],
        vec![],
        &table(),
    );
    assert_eq!(
        out,
        vec![
            declare(x),
            declare(y),
            destroy(y),
            Statement::Return { value: Some(reference(x)) },
        ]
    );
}

#[test]
fn blocks_are_taken_in_place() {
    let x = var(1, 1, 4);
    let out = module_with_destructors(
        vec![Statement::Block { statements: vec![declare(x)] }, Statement::Use],
        &table(),
    );
    assert_eq!(out, vec![declare(x), Statement::Use, destroy(x)]);
}

#[test]
fn function_parameters_are_destroyed_at_returns() {
    let p = var(5, 1, 2);
    let x = var(6, 1, 20);
    let mut f = Function {
        parameters: vec![p],
        body: vec![
            Statement::If {
                condition: other(0),
                body: vec![declare(x), Statement::Return { value: None }],
                else_ifs: vec![ElseIf {
                    condition: other(0),
                    body: vec![Statement::Return { value: Some(reference(p)) }],
                }],
                else_block: Some(vec![Statement::Expression(other(0))]),
            },
            Statement::Return { value: None },
        ],
        is_definition: true,
    };
    f.insert_destructors(&table());
    assert_eq!(
        f.body,
        vec![
            Statement::If {
                condition: other(0),
                body: vec![declare(x), destroy(p), destroy(x), Statement::Return { value: None }],
                else_ifs: vec![ElseIf {
                    condition: other(0),
                    body: vec![Statement::Return { value: Some(reference(p)) }],
                }],
                else_block: Some(vec![Statement::Expression(other(0))]),
            },
            destroy(p),
            Statement::Return { value: None },
        ]
    );
}

#[test]
fn declared_functions_keep_their_bodies() {
    let p = var(5, 1, 2);
    let mut f = Function {
        parameters: vec![p],
        body: vec![Statement::Use],
        is_definition: false,
    };
    f.insert_destructors(&table());
    assert_eq!(f.body, vec![Statement::Use]);
}
