use ppl::semantics::call::{Argument, CallPart, CallSite, Candidate, FnKind, FunctionName, NamePart, Parameter};
use ppl::semantics::convertible::{
    Adjustment, CallError, ClassImplementsCheck, ConversionRequest as ValueConversion, ConvertibleToRequest, Value,
};
use ppl::semantics::monomorphize::{monomorphized_type, FunctionData, FunctionNamePart};
use ppl::semantics::generic_context::{get_specialized, map_generic, GenericContext};
use ppl::semantics::constructor::{ConstructorError, ConstructorSite, Initializer, Member};
use ppl::semantics::conversion::{
    ConversionRequest, Declarations, Implementation, ImplementsCheck, NotConvertible, Span,
    TraitDeclaration, TraitFunction, Ty,
};

fn span(start: usize, end: usize) -> Span {
    Span { start, end }
}

fn class(id: usize) -> Ty {
    Ty::Class { class: id, specialized: false, generics: vec![] }
}

/// Trait 0 declares functions 10 and 11 and defines 12; class 1 implements
/// both declared functions, class 2 only function 11
fn declarations() -> Declarations {
    Declarations {
        traits: vec![TraitDeclaration {
            supertraits: vec![],
            functions: vec![
                TraitFunction { function: 10, is_definition: false },
                TraitFunction { function: 11, is_definition: false },
                TraitFunction { function: 12, is_definition: true },
            ],
        }],
        implementations: vec![
            Implementation { function: 10, for_type: class(1), implementation: 100 },
            Implementation { function: 11, for_type: class(1), implementation: 101 },
            Implementation { function: 11, for_type: class(2), implementation: 102 },
        ],
    }
}

fn convert(from: Ty, to: Ty) -> Result<Ty, NotConvertible> {
    ConversionRequest { from, from_at: span(0, 1), to, to_at: span(5, 6) }.within(&declarations())
}

#[test]
fn same_class_converts() {
    let r = convert(class(1), class(1)).unwrap();
    assert!(r.same_as(&class(1)));
}

#[test]
fn other_class_is_a_mismatch() {
    match convert(class(1), class(2)) {
        Err(NotConvertible::TypeMismatch { expected, got }) => {
            assert!(expected.ty.same_as(&class(2)));
            assert_eq!(expected.at, span(5, 6));
            assert!(got.ty.same_as(&class(1)));
            assert_eq!(got.at, span(0, 1));
        }
        _ => panic!("expected a type mismatch"),
    }
}

#[test]
fn reference_converts_as_its_value() {
    let from = Ty::Reference { mutable: false, to: Box::new(class(1)) };
    assert!(convert(from, class(1)).unwrap().same_as(&class(1)));
}

#[test]
fn class_converts_to_trait_it_implements() {
    assert!(convert(class(1), Ty::Trait(0)).unwrap().same_as(&Ty::Trait(0)));
    assert!(convert(class(1), Ty::SelfType(0)).unwrap().same_as(&Ty::SelfType(0)));
}

#[test]
fn class_lists_unimplemented_functions() {
    match convert(class(2), Ty::Trait(0)) {
        Err(NotConvertible::NotImplemented(e)) => {
            assert!(e.ty.same_as(&class(2)));
            assert_eq!(e.tr, 0);
            assert_eq!(e.unimplemented, vec![10]);
        }
        _ => panic!("expected unimplemented functions"),
    }
    match convert(class(3), Ty::Trait(0)) {
        Err(NotConvertible::NotImplemented(e)) => assert_eq!(e.unimplemented, vec![10, 11]),
        _ => panic!("expected unimplemented functions"),
    }
}

#[test]
fn implements_check_on_its_own() {
    let d = declarations();
    assert!(ImplementsCheck { ty: class(1), tr: 0 }.within(&d).is_ok());
    let e = ImplementsCheck { ty: class(2), tr: 0 }.within(&d).unwrap_err();
    assert_eq!(e.unimplemented, vec![10]);
}

#[test]
fn trait_converts_to_its_own_self() {
    assert!(convert(Ty::Trait(0), Ty::SelfType(0)).is_ok());
    assert!(matches!(
        convert(Ty::Trait(0), Ty::SelfType(1)),
        Err(NotConvertible::TypeMismatch { .. })
    ));
}

#[test]
fn generic_parameters_take_what_their_constraint_takes() {
    let free = Ty::Generic { param: 0, constraint: None };
    assert!(convert(class(7), free).unwrap().same_as(&Ty::Generic { param: 0, constraint: None }));
    let bound = Ty::Generic { param: 1, constraint: Some(0) };
    assert!(convert(class(1), bound).is_ok());
    let bound = Ty::Generic { param: 1, constraint: Some(0) };
    match convert(class(2), bound) {
        Err(NotConvertible::NotImplemented(e)) => assert_eq!(e.unimplemented, vec![10]),
        _ => panic!("expected unimplemented functions"),
    }
}

#[test]
fn specialization_converts_argument_by_argument() {
    let from = Ty::Class { class: 5, specialized: false, generics: vec![class(1)] };
    let to = Ty::Class {
        class: 5,
        specialized: true,
        generics: vec![Ty::Generic { param: 0, constraint: None }],
    };
    assert!(convert(from, to).is_ok());
    let from = Ty::Class { class: 5, specialized: false, generics: vec![class(1)] };
    let to = Ty::Class { class: 5, specialized: true, generics: vec![class(2)] };
    assert!(matches!(convert(from, to), Err(NotConvertible::TypeMismatch { .. })));
}

fn argument(ty: Ty, start: usize) -> CallPart {
    CallPart {
        at: span(start, start + 1),
        text: String::new(),
        is_argument: true,
        value: Some(Argument { ty, at: span(start, start + 1), mutable: false, type_text: format!("T{start}") }),
    }
}

fn word(start: usize) -> CallPart {
    CallPart { at: span(start, start + 3), text: "add".to_string(), is_argument: false, value: None }
}

fn candidate(function: usize, is_generic: bool, parameters: Vec<Option<Parameter>>) -> Candidate {
    Candidate { function, is_generic, parameters, generic_parameters: vec![], return_type: class(0) }
}

fn parameter(ty: Ty) -> Option<Parameter> {
    Some(Parameter { ty, at: span(50, 51) })
}

#[test]
fn call_binds_to_first_viable_candidate() {
    let call = CallSite {
        kind: FnKind::Function,
        name_format: "<> add <>".to_string(), at: span(0, 10), parts: vec![word(0), argument(class(1), 4)] };
    let candidates = vec![
        candidate(20, false, vec![None, parameter(class(2))]),
        candidate(21, false, vec![None, parameter(class(1))]),
        candidate(22, false, vec![None, parameter(class(1))]),
    ];
    let bound = call.lower_to_hir_within_context(&declarations(), &candidates).ok().unwrap();
    assert_eq!(bound.function, 21);
    assert_eq!(bound.generic, None);
    assert_eq!(bound.arguments, vec![1]);
    assert_eq!(bound.argument_types.len(), 1);
    assert!(bound.argument_types[0].same_as(&class(1)));
}

#[test]
fn generic_candidate_keeps_argument_type() {
    let call = CallSite {
        kind: FnKind::Function,
        name_format: "<> add <>".to_string(), at: span(0, 10), parts: vec![word(0), argument(class(3), 4)] };
    let candidates = vec![candidate(30, true, vec![None, parameter(Ty::Generic { param: 0, constraint: None })])];
    let bound = call.lower_to_hir_within_context(&declarations(), &candidates).ok().unwrap();
    assert_eq!(bound.generic, Some(30));
    assert!(bound.argument_types[0].same_as(&class(3)));
}

#[test]
fn no_function_lists_arguments_and_failures_in_order() {
    let call = CallSite {
        kind: FnKind::Operator,
        name_format: "<> add <>".to_string(),
        at: span(0, 10),
        parts: vec![argument(class(1), 0), word(2), argument(class(2), 6)],
    };
    let candidates = vec![
        candidate(40, false, vec![parameter(class(2)), None, parameter(class(2))]),
        candidate(41, false, vec![parameter(class(1)), None, parameter(Ty::Trait(0))]),
    ];
    match call.lower_to_hir_within_context(&declarations(), &candidates) {
        Err(e) => {
            assert_eq!(e.kind, FnKind::Operator);
            assert_eq!(e.name, "<:T0> add <:T6>");
            assert_eq!(e.at, span(2, 5));
            assert_eq!(e.arguments.len(), 2);
            assert!(e.arguments[0].ty.same_as(&class(1)));
            assert!(e.arguments[1].ty.same_as(&class(2)));
            assert_eq!(e.candidates.len(), 2);
            assert!(matches!(e.candidates[0].reason, NotConvertible::TypeMismatch { .. }));
            match &e.candidates[1].reason {
                NotConvertible::NotImplemented(n) => assert_eq!(n.unimplemented, vec![10]),
                _ => panic!("expected unimplemented functions"),
            }
        }
        Ok(_) => panic!("expected no function"),
    }
}

fn member(name: &str, ty: Ty) -> Member {
    Member { name: name.to_string(), ty, at: span(60, 61) }
}

fn init(name: &str, ty: Ty, start: usize) -> Initializer {
    Initializer {
        name: name.to_string(),
        name_at: span(start, start + 1),
        value: Argument { ty, at: span(start + 3, start + 4), mutable: false, type_text: String::new() },
        at: span(start, start + 4),
    }
}

fn point(initializers: Vec<Initializer>) -> ConstructorSite {
    ConstructorSite {
        ty: class(9),
        ty_at: span(0, 5),
        name_at: span(0, 5),
        generic_parameters: vec![],
        members: vec![member("x", class(1)), member("y", class(1)), member("z", class(2))],
        initializers,
    }
}

#[test]
fn constructor_maps_initializers_to_members() {
    let c = point(vec![init("y", class(1), 10), init("x", class(1), 20), init("z", class(2), 30)]);
    let made = c.lower_to_hir_within_context(&declarations()).ok().unwrap();
    assert_eq!(made.initializers, vec![1, 0, 2]);
    assert!(made.ty.same_as(&class(9)));
}

#[test]
fn constructor_reports_missing_fields_in_member_order() {
    let c = point(vec![init("y", class(1), 10)]);
    match c.lower_to_hir_within_context(&declarations()) {
        Err(ConstructorError::MissingFields { at, fields, .. }) => {
            assert_eq!(at, span(0, 5));
            assert_eq!(fields, vec!["x".to_string(), "z".to_string()]);
        }
        _ => panic!("expected missing fields"),
    }
}

#[test]
fn constructor_reports_repeated_member() {
    let c = point(vec![init("x", class(1), 10), init("x", class(1), 20)]);
    match c.lower_to_hir_within_context(&declarations()) {
        Err(ConstructorError::MultipleInitialization { name, first_at, repeated_at }) => {
            assert_eq!(name, "x");
            assert_eq!(first_at, span(10, 14));
            assert_eq!(repeated_at, span(20, 24));
        }
        _ => panic!("expected multiple initialization"),
    }
}

#[test]
fn constructor_reports_unknown_member_and_bad_value() {
    let c = point(vec![init("w", class(1), 10)]);
    match c.lower_to_hir_within_context(&declarations()) {
        Err(ConstructorError::NoMember { name, at, base_span, .. }) => {
            assert_eq!(name, "w");
            assert_eq!(at, span(10, 11));
            assert_eq!(base_span, span(0, 5));
        }
        _ => panic!("expected no member"),
    }
    let c = point(vec![init("z", class(1), 10)]);
    assert!(matches!(
        c.lower_to_hir_within_context(&declarations()),
        Err(ConstructorError::NotConvertible(NotConvertible::TypeMismatch { .. }))
    ));
}

#[test]
fn constructor_of_a_trait_is_refused() {
    let mut c = point(vec![]);
    c.ty = Ty::Trait(0);
    assert!(matches!(
        c.lower_to_hir_within_context(&declarations()),
        Err(ConstructorError::NonClassConstructor { .. })
    ));
}

fn generic(param: usize) -> Ty {
    Ty::Generic { param, constraint: None }
}

/// Trait 1 extends trait 0 and declares nothing of its own
fn declarations_with_supertrait() -> Declarations {
    let mut d = declarations();
    d.traits.push(TraitDeclaration { supertraits: vec![0], functions: vec![] });
    d
}

#[test]
fn class_binds_generic_parameter_of_its_context() {
    let d = declarations();
    let mut contexts = vec![GenericContext::for_generics(vec![generic(0)])];
    let r = ConvertibleToRequest { from: class(4), to: generic(0) }.within(&mut contexts, &d);
    assert!(matches!(r, Ok(true)));
    assert!(get_specialized(&contexts, &generic(0)).unwrap().same_as(&class(4)));
    let r = ConvertibleToRequest { from: class(5), to: generic(0) }.within(&mut contexts, &d);
    assert!(matches!(r, Ok(false)));
    let r = ConvertibleToRequest { from: class(4), to: generic(0) }.within(&mut contexts, &d);
    assert!(matches!(r, Ok(true)));
}

#[test]
fn mapping_a_generic_gives_back_what_it_stood_for() {
    let mut contexts = vec![
        GenericContext::for_generics(vec![generic(0)]),
        GenericContext::for_generics(vec![generic(1)]),
    ];
    assert!(map_generic(&mut contexts, &generic(0), class(1)).is_none());
    assert!(map_generic(&mut contexts, &generic(0), class(2)).unwrap().same_as(&class(1)));
    assert!(get_specialized(&contexts, &generic(0)).unwrap().same_as(&class(2)));
    assert!(get_specialized(&contexts, &generic(1)).is_none());
    assert!(map_generic(&mut contexts, &generic(7), class(2)).is_none());
    assert!(get_specialized(&contexts, &generic(7)).is_none());
}

#[test]
fn trait_converts_to_the_traits_it_extends() {
    let d = declarations_with_supertrait();
    let mut contexts = vec![];
    assert!(matches!(ConvertibleToRequest { from: Ty::Trait(1), to: Ty::Trait(0) }.within(&mut contexts, &d), Ok(true)));
    assert!(matches!(ConvertibleToRequest { from: Ty::Trait(0), to: Ty::Trait(1) }.within(&mut contexts, &d), Ok(false)));
    assert!(matches!(ConvertibleToRequest { from: class(1), to: Ty::Trait(1) }.within(&mut contexts, &d), Ok(true)));
    match (ConvertibleToRequest { from: class(2), to: Ty::Trait(1) }).within(&mut contexts, &d) {
        Err(NotConvertible::NotImplemented(e)) => {
            assert_eq!(e.tr, 0);
            assert_eq!(e.unimplemented, vec![10]);
        }
        _ => panic!("expected unimplemented functions of the supertrait"),
    }
}

#[test]
fn unconstrained_generic_implements_nothing() {
    let d = declarations();
    let mut contexts = vec![];
    match (ConvertibleToRequest { from: generic(3), to: Ty::Trait(0) }).within(&mut contexts, &d) {
        Err(NotConvertible::NotImplemented(e)) => {
            assert_eq!(e.tr, 0);
            assert!(e.unimplemented.is_empty());
        }
        _ => panic!("expected not implemented"),
    }
}

fn value(ty: Ty, mutable: bool) -> Value {
    Value { ty, at: span(1, 2), mutable }
}

fn reference(mutable: bool, ty: Ty) -> Ty {
    Ty::Reference { mutable, to: Box::new(ty) }
}

fn adjust(from: Value, to: Ty) -> Result<Adjustment, NotConvertible> {
    let d = declarations();
    let mut contexts = vec![];
    ValueConversion { from, to, to_at: span(8, 9) }.within(&mut contexts, &d)
}

#[test]
fn conversion_says_what_to_do_to_the_value() {
    assert_eq!(adjust(value(class(1), false), class(1)).unwrap(), Adjustment::CloneIfNeeded);
    assert_eq!(adjust(value(reference(false, class(1)), false), reference(false, class(1))).unwrap(), Adjustment::AsIs);
    assert_eq!(adjust(value(reference(false, class(1)), false), class(1)).unwrap(), Adjustment::Dereference);
    assert_eq!(adjust(value(class(1), false), reference(false, class(1))).unwrap(), Adjustment::Reference);
    assert_eq!(adjust(value(class(1), true), reference(true, class(1))).unwrap(), Adjustment::ReferenceMut);
}

#[test]
fn conversion_refuses_mutable_reference_to_fixed_value() {
    match adjust(value(class(1), false), reference(true, class(1))) {
        Err(NotConvertible::ReferenceMutToImmutable { at }) => assert_eq!(at, span(1, 2)),
        _ => panic!("expected a mutable reference to an immutable value"),
    }
    match adjust(value(class(1), false), class(2)) {
        Err(NotConvertible::TypeMismatch { expected, got }) => {
            assert!(expected.ty.same_as(&class(2)));
            assert_eq!(expected.at, span(8, 9));
            assert!(got.ty.same_as(&class(1)));
        }
        _ => panic!("expected a type mismatch"),
    }
}

#[test]
fn generic_call_binds_parameter_once_per_candidate() {
    let d = declarations();
    let call = CallSite {
        kind: FnKind::Function,
        name_format: "<> add <>".to_string(),
        at: span(0, 20),
        parts: vec![word(0), argument(class(1), 4), argument(class(2), 8)],
    };
    let mut same = candidate(50, true, vec![None, parameter(generic(9)), parameter(generic(9))]);
    same.generic_parameters = vec![generic(9)];
    let mut any = candidate(51, true, vec![None, parameter(generic(8)), parameter(generic(7))]);
    any.generic_parameters = vec![generic(8), generic(7)];
    let mut contexts = vec![];
    let bound = call.to_hir(&mut contexts, &d, &vec![same, any]).ok().unwrap();
    assert_eq!(bound.function, 51);
    assert_eq!(bound.generic, Some(51));
    assert_eq!(bound.arguments, vec![(1, Adjustment::CloneIfNeeded), (2, Adjustment::CloneIfNeeded)]);
    assert!(contexts.is_empty());
}

#[test]
fn call_to_function_without_inferred_return_type() {
    let d = declarations();
    let call = CallSite {
        kind: FnKind::Function,
        name_format: "<> add <>".to_string(), at: span(0, 10), parts: vec![word(0), argument(class(1), 4)] };
    let mut f = candidate(60, false, vec![None, parameter(class(1))]);
    f.return_type = Ty::Unknown;
    let mut contexts = vec![];
    match call.to_hir(&mut contexts, &d, &vec![f]) {
        Err(CallError::CantDeduceType { at }) => assert_eq!(at, span(0, 10)),
        _ => panic!("expected a type that cannot be deduced"),
    }
}

fn pair(initializers: Vec<Initializer>) -> ConstructorSite {
    ConstructorSite {
        ty: Ty::Class { class: 11, specialized: false, generics: vec![generic(3)] },
        ty_at: span(0, 4),
        name_at: span(0, 4),
        generic_parameters: vec![generic(3)],
        members: vec![member("first", generic(3)), member("second", generic(3))],
        initializers,
    }
}

#[test]
fn generic_constructor_binds_its_parameter_once() {
    let d = declarations();
    let mut contexts = vec![];
    let c = pair(vec![init("second", class(1), 10), init("first", class(1), 20)]);
    let made = c.to_hir(&d, &mut contexts).ok().unwrap();
    assert_eq!(made.initializers, vec![(1, Adjustment::CloneIfNeeded), (0, Adjustment::CloneIfNeeded)]);
    assert!(made.ty.same_as(&Ty::Class { class: 11, specialized: true, generics: vec![class(1)] }));
    assert!(contexts.is_empty());
    let c = pair(vec![init("first", class(1), 10), init("second", class(2), 20)]);
    match c.to_hir(&d, &mut contexts) {
        Err(ConstructorError::NotConvertible(NotConvertible::TypeMismatch { expected, got })) => {
            assert!(expected.ty.same_as(&generic(3)));
            assert!(got.ty.same_as(&class(2)));
        }
        _ => panic!("expected a type mismatch"),
    }
    assert!(contexts.is_empty());
}

#[test]
fn generic_constructor_reports_missing_and_repeated_members() {
    let d = declarations();
    let mut contexts = vec![];
    match pair(vec![init("second", class(1), 10)]).to_hir(&d, &mut contexts) {
        Err(ConstructorError::MissingFields { fields, .. }) => assert_eq!(fields, vec!["first".to_string()]),
        _ => panic!("expected missing fields"),
    }
    match pair(vec![init("first", class(1), 10), init("first", class(1), 20)]).to_hir(&d, &mut contexts) {
        Err(ConstructorError::MultipleInitialization { name, first_at, repeated_at }) => {
            assert_eq!(name, "first");
            assert_eq!(first_at, span(10, 14));
            assert_eq!(repeated_at, span(20, 24));
        }
        _ => panic!("expected multiple initialization"),
    }
}

#[test]
fn monomorphized_type_replaces_bound_generics() {
    let mut contexts = vec![GenericContext::for_generics(vec![generic(0), generic(1)])];
    map_generic(&mut contexts, &generic(0), class(4));
    let t = Ty::Class { class: 6, specialized: false, generics: vec![generic(0), generic(1)] };
    let r = monomorphized_type(&contexts, &t);
    let expected = Ty::Class { class: 6, specialized: false, generics: vec![class(4), generic(1)] };
    assert!(r.same_as(&expected));
    assert!(monomorphized_type(&contexts, &class(2)).same_as(&class(2)));
}

fn function(id: usize, generic_types: Vec<Ty>, parts: Vec<FunctionNamePart>, return_type: Ty, is_definition: bool) -> FunctionData {
    FunctionData {
        function: id,
        generic_types,
        name_parts: parts,
        return_type,
        mangled_name: Some(format!("f{id}")),
        is_definition,
        body: vec![],
    }
}

fn param(ty: Ty) -> FunctionNamePart {
    FunctionNamePart::Parameter(Parameter { ty, at: span(50, 51) })
}

fn text(t: &str) -> FunctionNamePart {
    FunctionNamePart::Text(t.to_string())
}

#[test]
fn monomorphized_signature_of_generic_function() {
    let d = declarations();
    let mut contexts = vec![GenericContext::for_generics(vec![generic(0)])];
    map_generic(&mut contexts, &generic(0), class(4));
    let mut f = function(70, vec![generic(0)], vec![text("show"), param(generic(0))], generic(0), true);
    f.body = vec![generic(0), class(2)];
    assert!(f.is_generic());
    let g = f.monomorphized(&mut contexts, &d, &vec![]);
    assert_eq!(g.function, 70);
    assert!(g.generic_types[0].same_as(&class(4)));
    assert!(matches!(&g.name_parts[0], FunctionNamePart::Text(t) if t == "show"));
    match &g.name_parts[1] {
        FunctionNamePart::Parameter(p) => {
            assert!(p.ty.same_as(&class(4)));
            assert_eq!(p.at, span(50, 51));
        }
        _ => panic!("expected a parameter"),
    }
    assert!(g.return_type.same_as(&class(4)));
    assert!(g.body[0].same_as(&class(4)));
    assert_eq!(g.mangled_name, Some("f70".to_string()));
    let plain = function(71, vec![], vec![param(class(1))], Ty::Unknown, true);
    assert!(!plain.is_generic());
    let same = plain.monomorphized(&mut contexts, &d, &vec![]);
    assert!(same.return_type.same_as(&Ty::Unknown));
}

#[test]
fn monomorphized_function_takes_link_name_of_existing_one() {
    let d = declarations();
    let mut contexts = vec![GenericContext::for_generics(vec![generic(0)])];
    map_generic(&mut contexts, &generic(0), class(4));
    let f = function(72, vec![generic(0)], vec![text("show"), param(generic(0))], class(0), true);
    let existing = function(73, vec![], vec![text("show"), param(class(4))], class(0), true);
    let g = f.monomorphize(&mut contexts, &d, &vec![existing]);
    assert_eq!(g.mangled_name, Some("f73".to_string()));
}

#[test]
fn monomorphize_uses_implementation_for_self() {
    let d = declarations();
    let declared = function(10, vec![Ty::SelfType(0)], vec![param(Ty::SelfType(0)), text("go")], class(0), false);
    let implementation = function(100, vec![], vec![param(class(1)), text("go")], class(0), true);
    let mut contexts = vec![GenericContext::for_generics(vec![Ty::SelfType(0)])];
    map_generic(&mut contexts, &Ty::SelfType(0), class(1));
    let g = declared.monomorphize(&mut contexts, &d, &vec![implementation]);
    assert_eq!(g.function, 100);
    assert_eq!(contexts.len(), 1);
    let mut other = vec![GenericContext::for_generics(vec![Ty::SelfType(0)])];
    map_generic(&mut other, &Ty::SelfType(0), class(3));
    let g = declared.monomorphize(&mut other, &d, &vec![]);
    assert_eq!(g.function, 10);
    assert!(matches!(&g.name_parts[0], FunctionNamePart::Parameter(p) if p.ty.same_as(&class(3))));
}

#[test]
fn called_function_is_specialized_by_its_arguments() {
    let d = declarations();
    let f = function(80, vec![generic(5)], vec![text("id"), param(generic(5))], reference(false, generic(5)), true);
    let mut contexts = vec![];
    let g = f.monomorphized_call(&mut contexts, &d, &vec![], &vec![class(2)]);
    assert!(contexts.is_empty());
    assert_eq!(g.function, 80);
    assert!(matches!(&g.name_parts[1], FunctionNamePart::Parameter(p) if p.ty.same_as(&class(2))));
    assert!(g.return_type.same_as(&reference(false, class(2))));
}

#[test]
fn mixfix_candidates_fit_word_by_word() {
    let call = CallSite {
        kind: FnKind::Operator,
        name_format: "<> add <>".to_string(),
        at: span(0, 9),
        parts: vec![argument(class(1), 0), word(2), argument(class(1), 6)],
    };
    let functions = vec![
        FunctionName { function: 1, parts: vec![NamePart::Parameter, NamePart::Text("add".to_string()), NamePart::Parameter] },
        FunctionName { function: 2, parts: vec![NamePart::Parameter, NamePart::Text("sub".to_string()), NamePart::Parameter] },
        FunctionName { function: 3, parts: vec![NamePart::Parameter, NamePart::Text("add".to_string())] },
        FunctionName { function: 4, parts: vec![NamePart::Text("add".to_string()), NamePart::Text("add".to_string()), NamePart::Parameter] },
        FunctionName { function: 5, parts: vec![NamePart::Parameter, NamePart::Text("add".to_string()), NamePart::Parameter] },
    ];
    assert_eq!(call.candidates(&functions, &vec![], &vec![]), vec![1, 5]);
    let trait_functions = vec![
        vec![FunctionName { function: 20, parts: vec![NamePart::Parameter, NamePart::Text("add".to_string()), NamePart::Parameter] }],
        vec![FunctionName { function: 30, parts: vec![NamePart::Parameter, NamePart::Text("add".to_string()), NamePart::Parameter] }],
    ];
    let by_class = vec![(1, 1), (2, 0), (1, 0)];
    assert_eq!(call.candidates(&functions, &trait_functions, &by_class), vec![1, 5, 30, 20, 30, 20]);
    let generic_call = CallSite {
        kind: FnKind::Operator,
        name_format: "<> add <>".to_string(),
        at: span(0, 9),
        parts: vec![argument(Ty::Generic { param: 0, constraint: Some(1) }, 0), word(2), argument(Ty::Trait(0), 6)],
    };
    assert_eq!(generic_call.candidates(&vec![], &trait_functions, &by_class), vec![30, 20]);
}

#[test]
fn generic_constructor_is_specialized_by_its_values() {
    let c = pair(vec![init("first", class(1), 10), init("second", class(1), 20)]);
    let made = c.lower_to_hir_within_context(&declarations()).ok().unwrap();
    assert_eq!(made.initializers, vec![0, 1]);
    assert!(made.ty.same_as(&Ty::Class { class: 11, specialized: true, generics: vec![class(1)] }));
    let nested = ConstructorSite {
        ty: Ty::Class { class: 12, specialized: false, generics: vec![generic(3)] },
        ty_at: span(0, 4),
        name_at: span(0, 4),
        generic_parameters: vec![generic(3)],
        members: vec![member("item", reference(false, generic(3)))],
        initializers: vec![init("item", reference(false, class(2)), 10)],
    };
    let made = nested.lower_to_hir_within_context(&declarations()).ok().unwrap();
    assert!(made.ty.same_as(&Ty::Class { class: 12, specialized: true, generics: vec![class(2)] }));
}

#[test]
fn implements_check_lists_implementing_functions() {
    let d = declarations_with_supertrait();
    let r = ClassImplementsCheck { ty: class(1), tr: 0 }.within(&d).unwrap();
    assert_eq!(r, vec![100, 101, 12]);
    let r = ClassImplementsCheck { ty: class(1), tr: 1 }.within(&d).unwrap();
    assert_eq!(r, vec![100, 101, 12]);
    let e = ClassImplementsCheck { ty: class(2), tr: 1 }.within(&d).unwrap_err();
    assert_eq!(e.tr, 0);
    assert_eq!(e.unimplemented, vec![10]);
}
