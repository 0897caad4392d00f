use ppl::semantics::error::DisplayVec;
use ppl::semantics::generic::new_unique_name;
use ppl::semantics::unnamed::ParameterNamer;
use ppl::semantics::conversion::{Span, Ty};
use ppl::semantics::references::{lower_member_reference, lower_type_reference, lower_variable_reference, MemberAccess};
use ppl::semantics::imports::{resolve_use, use_in, ImportedItem, ModuleExports};

#[test]
fn unnamed_parameters_get_index_names() {
    let mut namer = ParameterNamer::new();
    let mut a = String::new();
    namer.enter_parameter(&mut a);
    assert_eq!(a, "$arg0");
    let mut b = "x".to_string();
    namer.enter_parameter(&mut b);
    assert_eq!(b, "x");
    let mut c = String::new();
    namer.enter_parameter(&mut c);
    assert_eq!(c, "$arg2");
    namer.enter_function();
    let mut d = String::new();
    namer.enter_parameter(&mut d);
    assert_eq!(d, "$arg0");
}

#[test]
fn parameter_names_count_past_nine() {
    let mut namer = ParameterNamer::new();
    for _ in 0..12 {
        let mut named = "p".to_string();
        namer.enter_parameter(&mut named);
    }
    let mut name = String::new();
    namer.enter_parameter(&mut name);
    assert_eq!(name, "$arg12");
}

#[test]
fn unique_generic_names_start_at_t() {
    assert_eq!(new_unique_name(&vec![]), "T");
    assert_eq!(new_unique_name(&vec!["T".to_string()]), "U");
    assert_eq!(
        new_unique_name(&vec!["T".to_string(), "U".to_string(), "Other".to_string()]),
        "V"
    );
}

#[test]
fn unique_generic_names_wrap_around() {
    let names: Vec<String> = ["T", "U", "V", "W", "X", "Y", "Z"]
        .iter()
        .map(|s| s.to_string())
        .collect();
    assert_eq!(new_unique_name(&names), "A");
}

#[test]
fn display_vec() {
    assert_eq!(DisplayVec(vec!["a".to_string(), "b".to_string()]).to_string(), "[`a`, `b`]");
    assert_eq!(DisplayVec(Vec::<String>::new()).to_string(), "[]");
    assert_eq!(DisplayVec(vec!["x".to_string()]).to_string(), "[`x`]");
}

fn exports() -> ModuleExports {
    ModuleExports {
        variables: vec!["x".to_string()],
        types: vec!["Point".to_string(), "x".to_string()],
        functions: vec!["print <>".to_string(), "Point".to_string()],
    }
}

fn use_path(name: &str) -> Vec<(String, Span)> {
    vec![
        ("geometry".to_string(), Span { start: 4, end: 12 }),
        (name.to_string(), Span { start: 13, end: 13 + name.len() }),
    ]
}

#[test]
fn use_resolves_variables_then_types_then_functions() {
    let m = exports();
    let r = resolve_use(&use_path("*"), &m);
    assert_eq!(r.unwrap(), ImportedItem::All);
    let r = resolve_use(&use_path("x"), &m);
    assert_eq!(r.unwrap(), ImportedItem::Variable(0));
    let r = resolve_use(&use_path("Point"), &m);
    assert_eq!(r.unwrap(), ImportedItem::Type(0));
    let r = resolve_use(&use_path("print <>"), &m);
    assert_eq!(r.unwrap(), ImportedItem::Function(0));
    let e = resolve_use(&use_path("missing"), &m).unwrap_err();
    assert_eq!(e.name, "missing");
    assert_eq!(e.at, Span { start: 13, end: 20 });
}

#[test]
fn references_resolve_innermost_first() {
    let scopes = vec![vec![("x".to_string(), 1usize)], vec![("y".to_string(), 2usize), ("x".to_string(), 3usize)]];
    assert_eq!(lower_variable_reference(&scopes, &"x".to_string(), Span { start: 0, end: 1 }).unwrap(), 3);
    let e = lower_variable_reference(&scopes, &"z".to_string(), Span { start: 5, end: 6 }).unwrap_err();
    assert_eq!(e.name, "z");
    let members = vec!["a".to_string(), "b".to_string()];
    let base = Ty::Reference { mutable: false, to: Box::new(Ty::Class { class: 1, specialized: false, generics: vec![] }) };
    let m = lower_member_reference(&base, Span { start: 0, end: 1 }, &members, &"b".to_string(), Span { start: 2, end: 3 }).unwrap();
    assert_eq!(m, MemberAccess { index: 1, dereferenced: true });
    let e = lower_member_reference(&base, Span { start: 0, end: 1 }, &members, &"c".to_string(), Span { start: 2, end: 3 }).unwrap_err();
    assert_eq!(e.base_span, Span { start: 0, end: 1 });
    let array = Ty::Class { class: 5, specialized: false, generics: vec![Ty::Generic { param: 0, constraint: None }] };
    let types = vec![vec![("Array".to_string(), array)]];
    let t = lower_type_reference(&types, &"Array".to_string(), Span { start: 0, end: 5 }, &vec![Ty::Class { class: 2, specialized: false, generics: vec![] }]).unwrap();
    assert!(t.same_as(&Ty::Class { class: 5, specialized: true, generics: vec![Ty::Class { class: 2, specialized: false, generics: vec![] }] }));
    assert!(lower_type_reference(&types, &"Nothing".to_string(), Span { start: 0, end: 7 }, &vec![]).is_err());
}

fn main_module() -> ModuleExports {
    ModuleExports { variables: vec!["y".to_string()], types: vec![], functions: vec!["print <>".to_string()] }
}

#[test]
fn use_of_one_name_brings_only_it() {
    let mut m = main_module();
    let r = use_in(&use_path("Point"), &exports(), &mut m);
    assert_eq!(r.unwrap(), ImportedItem::Type(0));
    assert_eq!(m.variables, vec!["y".to_string()]);
    assert_eq!(m.types, vec!["Point".to_string()]);
    assert_eq!(m.functions, vec!["print <>".to_string()]);
}

#[test]
fn use_of_everything_brings_each_name_once() {
    let mut m = main_module();
    let r = use_in(&use_path("*"), &exports(), &mut m);
    assert_eq!(r.unwrap(), ImportedItem::All);
    assert_eq!(m.variables, vec!["y".to_string(), "x".to_string()]);
    assert_eq!(m.types, vec!["Point".to_string(), "x".to_string()]);
    assert_eq!(m.functions, vec!["print <>".to_string(), "Point".to_string()]);
}

#[test]
fn unresolved_use_leaves_the_module() {
    let mut m = main_module();
    let e = use_in(&use_path("missing"), &exports(), &mut m).unwrap_err();
    assert_eq!(e.name, "missing");
    assert_eq!(m.variables, vec!["y".to_string()]);
    assert!(m.types.is_empty());
    assert_eq!(m.functions, vec!["print <>".to_string()]);
}
