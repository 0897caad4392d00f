use ppl::semantics::conversion::{Declarations, NotConvertible, Span, Ty};
use ppl::semantics::convertible::{Adjustment, Value};
use ppl::semantics::statements::{lower_assignment, lower_condition, lower_return, StatementError};

fn span(start: usize, end: usize) -> Span {
    Span { start, end }
}

fn class(id: usize) -> Ty {
    Ty::Class { class: id, specialized: false, generics: vec![] }
}

fn value(ty: Ty, at: Span, mutable: bool) -> Value {
    Value { ty, at, mutable }
}

fn no_declarations() -> Declarations {
    Declarations { traits: vec![], implementations: vec![] }
}

const BOOL: usize = 1;
const INTEGER: usize = 2;
const NONE: usize = 3;

#[test]
fn boolean_condition_is_accepted() {
    assert!(lower_condition(&value(class(BOOL), span(3, 7), false), &class(BOOL)).is_ok());
}

#[test]
fn other_condition_is_a_mismatch() {
    match lower_condition(&value(class(INTEGER), span(3, 4), false), &class(BOOL)) {
        Err(StatementError::ConditionTypeMismatch { got, at }) => {
            assert!(got.same_as(&class(INTEGER)));
            assert_eq!(at, span(3, 4));
        }
        _ => panic!("expected a condition mismatch"),
    }
}

#[test]
fn assignment_to_immutable_is_refused() {
    let mut contexts = vec![];
    let target = value(class(INTEGER), span(0, 1), false);
    let v = value(class(INTEGER), span(4, 5), false);
    match lower_assignment(&target, &v, &mut contexts, &no_declarations()) {
        Err(StatementError::AssignmentToImmutable { at }) => assert_eq!(at, span(0, 1)),
        _ => panic!("expected an assignment to an immutable value"),
    }
}

#[test]
fn assignment_of_same_type_clones() {
    let mut contexts = vec![];
    let target = value(class(INTEGER), span(0, 1), true);
    let v = value(class(INTEGER), span(4, 5), false);
    let r = lower_assignment(&target, &v, &mut contexts, &no_declarations());
    assert_eq!(r.unwrap(), Adjustment::CloneIfNeeded);
}

#[test]
fn assignment_through_reference_converts_to_its_value() {
    let mut contexts = vec![];
    let target = value(Ty::Reference { mutable: true, to: Box::new(class(INTEGER)) }, span(0, 1), true);
    let v = value(class(INTEGER), span(4, 5), false);
    let r = lower_assignment(&target, &v, &mut contexts, &no_declarations());
    assert_eq!(r.unwrap(), Adjustment::CloneIfNeeded);
}

#[test]
fn assignment_of_other_type_is_a_mismatch() {
    let mut contexts = vec![];
    let target = value(class(INTEGER), span(0, 1), true);
    let v = value(class(BOOL), span(4, 8), false);
    match lower_assignment(&target, &v, &mut contexts, &no_declarations()) {
        Err(StatementError::NotConvertible(NotConvertible::TypeMismatch { expected, got })) => {
            assert!(expected.ty.same_as(&class(INTEGER)));
            assert_eq!(expected.at, span(0, 1));
            assert!(got.ty.same_as(&class(BOOL)));
            assert_eq!(got.at, span(4, 8));
        }
        _ => panic!("expected a type mismatch"),
    }
}

#[test]
fn return_outside_function_is_refused() {
    let mut contexts = vec![];
    match lower_return(&None, &None, &class(NONE), span(10, 16), &mut contexts, &no_declarations()) {
        Err(StatementError::ReturnOutsideFunction { at }) => assert_eq!(at, span(10, 16)),
        _ => panic!("expected a return outside of a function"),
    }
}

#[test]
fn bare_return_from_function_returning_a_value() {
    let mut contexts = vec![];
    match lower_return(&None, &Some(class(INTEGER)), &class(NONE), span(10, 16), &mut contexts, &no_declarations()) {
        Err(StatementError::MissingReturnValue { ty, at }) => {
            assert!(ty.same_as(&class(INTEGER)));
            assert_eq!(at, 16);
        }
        _ => panic!("expected a missing return value"),
    }
}

#[test]
fn bare_return_from_function_returning_nothing() {
    let mut contexts = vec![];
    assert!(lower_return(&None, &Some(class(NONE)), &class(NONE), span(10, 16), &mut contexts, &no_declarations()).is_ok());
}

#[test]
fn return_of_matching_value() {
    let mut contexts = vec![];
    let v = Some(value(class(INTEGER), span(17, 18), false));
    assert!(lower_return(&v, &Some(class(INTEGER)), &class(NONE), span(10, 18), &mut contexts, &no_declarations()).is_ok());
}

#[test]
fn return_of_other_value_is_a_mismatch() {
    let mut contexts = vec![];
    let v = Some(value(class(BOOL), span(17, 21), false));
    match lower_return(&v, &Some(class(INTEGER)), &class(NONE), span(10, 21), &mut contexts, &no_declarations()) {
        Err(StatementError::ReturnTypeMismatch { got, got_span, expected }) => {
            assert!(got.same_as(&class(BOOL)));
            assert_eq!(got_span, span(17, 21));
            assert!(expected.same_as(&class(INTEGER)));
        }
        _ => panic!("expected a return type mismatch"),
    }
}

use ppl::semantics::annotations::{Annotation, AnnotationSite};

fn annotation(name: &str, arguments: usize, first_string: Option<&str>) -> AnnotationSite {
    AnnotationSite {
        name: name.to_string(),
        at: span(1, 1 + name.len()),
        arguments,
        first_string: first_string.map(|s| s.to_string()),
    }
}

#[test]
fn mangle_as_names_the_function() {
    let r = annotation("mangle_as", 1, Some("integer_from_i64")).to_hir();
    assert_eq!(r.unwrap(), Annotation::MangleAs("integer_from_i64".to_string()));
}

#[test]
fn builtin_without_arguments() {
    assert_eq!(annotation("builtin", 0, None).to_hir().unwrap(), Annotation::Builtin);
}

#[test]
fn builtin_with_arguments_is_unknown() {
    let e = annotation("builtin", 1, Some("x")).to_hir().unwrap_err();
    assert_eq!(e.name, "builtin");
    assert_eq!(e.at, span(1, 8));
}

#[test]
fn mangle_as_without_string_is_unknown() {
    let e = annotation("mangle_as", 1, None).to_hir().unwrap_err();
    assert_eq!(e.name, "mangle_as");
}

#[test]
fn other_annotation_is_unknown() {
    let e = annotation("inline", 0, None).to_hir().unwrap_err();
    assert_eq!(e.name, "inline");
    assert_eq!(e.at, span(1, 7));
}

use ppl::semantics::generic_context::GenericContext;

#[test]
fn trait_parameter_becomes_a_new_generic() {
    let mut context = GenericContext::for_generics(vec![Ty::Generic { param: 0, constraint: None }]);
    let mut names = vec!["T".to_string()];
    let r = context.lower_parameter_type(Ty::Trait(4), &mut names, 1);
    assert!(r.same_as(&Ty::Generic { param: 1, constraint: Some(4) }));
    assert_eq!(names, vec!["T".to_string(), "U".to_string()]);
    assert_eq!(context.generic_parameters.len(), 2);
    assert!(context.generic_parameters[1].same_as(&Ty::Generic { param: 1, constraint: Some(4) }));
    assert!(context.generics_mapping[1].is_none());
}

#[test]
fn other_parameter_type_stays() {
    let mut context = GenericContext::for_generics(vec![]);
    let mut names: Vec<String> = vec![];
    let r = context.lower_parameter_type(class(INTEGER), &mut names, 0);
    assert!(r.same_as(&class(INTEGER)));
    assert!(names.is_empty());
    assert!(context.generic_parameters.is_empty());
}
