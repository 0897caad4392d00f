use ppl::semantics::order::{ModuleBuilder, Outcome, 
    for_each_declaration_in_order, module_building_steps, module_lowering_steps, StatementKind,
    Step,
};
use ppl::semantics::order::StatementKind::{
    FunctionDeclaration, Other, TraitDeclaration, TypeDeclaration, Use, VariableDeclaration,
};
use ppl::semantics::order::Step::{Declare, Define};

fn kinds() -> Vec<StatementKind> {
    vec![FunctionDeclaration, Other, TraitDeclaration, Use, TypeDeclaration, VariableDeclaration]
}

#[test]
fn declarations_go_types_traits_then_functions() {
    assert_eq!(for_each_declaration_in_order(&kinds()), vec![4, 2, 0, 5]);
}

#[test]
fn lowering_steps_in_phases() {
    assert_eq!(
        module_lowering_steps(&kinds()),
        vec![
            Define(3),
            Declare(4),
            Declare(2),
            Declare(0),
            Declare(5),
            Define(4),
            Define(2),
            Define(0),
            Define(5),
            Define(1),
        ]
    );
}

#[test]
fn building_steps_in_phases() {
    assert_eq!(
        module_building_steps(&kinds()),
        vec![
            Define(3),
            Declare(2),
            Declare(4),
            Define(4),
            Declare(0),
            Declare(5),
            Define(2),
            Define(0),
            Define(5),
            Define(1),
        ]
    );
}

fn build(kinds: Vec<StatementKind>, fail_declarations: bool) -> Result<Vec<String>, Vec<String>> {
    let mut b: ModuleBuilder<String, String> = ModuleBuilder::new(&kinds, vec!["before".to_string()]);
    while let Some(step) = b.next_step() {
        let outcome = match step {
            Define(i) => Outcome::Defined(format!("defined {i}")),
            Declare(i) => {
                if fail_declarations {
                    Outcome::Failed(format!("declaration {i} failed"))
                } else {
                    Outcome::Declared
                }
            }
        };
        b.record(outcome);
    }
    b.finish()
}

#[test]
fn module_keeps_defined_statements_in_step_order() {
    let r = build(vec![Other, TypeDeclaration, Use], false).unwrap();
    assert_eq!(r, vec!["before", "defined 2", "defined 1", "defined 0"]);
}

#[test]
fn module_reports_every_error_in_step_order() {
    let r = build(vec![FunctionDeclaration, TypeDeclaration, TraitDeclaration], true).unwrap_err();
    assert_eq!(r, vec!["declaration 1 failed", "declaration 2 failed", "declaration 0 failed"]);
}
