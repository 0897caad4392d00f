use vstd::prelude::*;

use crate::semantics::call::{Parameter, is_generic, type_is_generic};
use crate::semantics::conversion::{Declarations, Span, Ty, TyView, first_implementation, lemma_tys_view, tys_view};
use crate::semantics::convertible::{
    ConvertibleToRequest, all_well_formed, convertible_outcome, copy_types, finishes, fresh_context,
};
use crate::semantics::generic_context::{ContextView, GenericContext, contexts_view, get_specialized, specialized, well_formed};

verus! {

/// A type can be specialized: it is inferred, and no function type stands
/// where specializing would have to look into it
pub open spec fn specializable(t: TyView) -> bool
    decreases t, 0nat,
{
    match t {
        TyView::Unknown => false,
        TyView::Function(_) => false,
        TyView::Class { generics, .. } => !is_generic(t) || all_specializable(generics, generics.len()),
        TyView::Reference { to, .. } => specializable(*to),
        _ => true,
    }
}

/// Each of the first `n` types can be specialized
pub open spec fn all_specializable(ts: Seq<TyView>, n: nat) -> bool
    decreases ts, n,
{
    if n == 0 || n > ts.len() {
        true
    } else {
        all_specializable(ts, (n - 1) as nat) && specializable(ts[n - 1])
    }
}

/// The type with each generic parameter, `Self` and trait replaced by what
/// it stands for in the contexts, where it stands for something; a class
/// that mentions none is left as it is
pub open spec fn specialized_type(cs: Seq<ContextView>, t: TyView) -> TyView
    decreases t, 0nat,
{
    match t {
        TyView::Class { class, specialized: s, generics } => if !is_generic(t) {
            t
        } else {
            TyView::Class { class, specialized: s, generics: specialized_types(cs, generics, generics.len()) }
        },
        TyView::Reference { mutable, to } => TyView::Reference { mutable, to: Box::new(specialized_type(cs, *to)) },
        TyView::Generic { .. } => match specialized(cs, t) {
            Some(s) => s,
            None => t,
        },
        TyView::SelfType(_) => match specialized(cs, t) {
            Some(s) => s,
            None => t,
        },
        TyView::Trait(_) => match specialized(cs, t) {
            Some(s) => s,
            None => t,
        },
        _ => t,
    }
}

/// The first `n` types specialized
pub open spec fn specialized_types(cs: Seq<ContextView>, ts: Seq<TyView>, n: nat) -> Seq<TyView>
    decreases ts, n,
{
    if n == 0 || n > ts.len() {
        Seq::empty()
    } else {
        specialized_types(cs, ts, (n - 1) as nat).push(specialized_type(cs, ts[n - 1]))
    }
}

/// Specialize a type within the generic contexts
pub fn monomorphized_type(contexts: &Vec<GenericContext>, t: &Ty) -> (r: Ty)
    requires
        all_well_formed(contexts@),
        specializable(t@),
    ensures
        r@ == specialized_type(contexts_view(contexts@), t@),
    decreases t,
{
    match t {
        Ty::Class { class, specialized: s, generics } => {
            if !type_is_generic(t) {
                return t.clone();
            }
            proof {
                lemma_tys_view(generics@, generics@.len());
            }
            let ghost gv = tys_view(generics@, generics@.len());
            let mut out: Vec<Ty> = Vec::new();
            let mut k: usize = 0;
            while k < generics.len()
                invariant
                    k <= generics@.len(),
                    t is Class,
                    *generics == t->Class_generics,
                    all_well_formed(contexts@),
                    gv == tys_view(generics@, generics@.len()),
                    gv.len() == generics@.len(),
                    forall|j: int| 0 <= j < generics@.len() ==> #[trigger] gv[j] == generics@[j]@,
                    all_specializable(gv, gv.len()),
                    out@.len() == k,
                    forall|j: int| 0 <= j < k ==> #[trigger] out@[j]@ == specialized_type(contexts_view(contexts@), gv[j]),
                decreases generics@.len() - k,
            {
                proof {
                    assert(decreases_to!(*t => t->Class_generics));
                    assert(decreases_to!(t->Class_generics => t->Class_generics@));
                    assert(decreases_to!(t->Class_generics@ => t->Class_generics@[k as int]));
                    assert(gv[k as int] == generics@[k as int]@);
                    lemma_all_specializable(gv, k as nat, gv.len());
                }
                out.push(monomorphized_type(contexts, &generics[k]));
                k = k + 1;
            }
            proof {
                lemma_tys_view(out@, out@.len());
                lemma_specialized_types(contexts_view(contexts@), gv, gv.len());
                let ghost a = tys_view(out@, out@.len());
                let ghost b = specialized_types(contexts_view(contexts@), gv, gv.len());
                assert forall|j: int| 0 <= j < a.len() implies #[trigger] a[j] == b[j] by {
                    assert(out@[j]@ == specialized_type(contexts_view(contexts@), gv[j]));
                }
                assert(a =~= b);
            }
            Ty::Class { class: *class, specialized: *s, generics: out }
        },
        Ty::Reference { mutable, to } => {
            let inner: &Ty = to;
            Ty::Reference { mutable: *mutable, to: Box::new(monomorphized_type(contexts, inner)) }
        },
        Ty::Generic { .. } | Ty::SelfType(_) | Ty::Trait(_) => match get_specialized(contexts, t) {
            Some(s) => s,
            None => t.clone(),
        },
        _ => t.clone(),
    }
}

/// Each of the first `n` can be specialized, so each single one can
pub proof fn lemma_all_specializable(ts: Seq<TyView>, k: nat, n: nat)
    requires
        k < n <= ts.len(),
        all_specializable(ts, n),
    ensures
        specializable(ts[k as int]),
    decreases n,
{
    if k < n - 1 {
        lemma_all_specializable(ts, k, (n - 1) as nat);
    }
}

/// The first `n` specialized are the specializations of each
pub proof fn lemma_specialized_types(cs: Seq<ContextView>, ts: Seq<TyView>, n: nat)
    requires
        n <= ts.len(),
    ensures
        specialized_types(cs, ts, n).len() == n,
        forall|j: int| 0 <= j < n ==> #[trigger] specialized_types(cs, ts, n)[j] == specialized_type(cs, ts[j]),
    decreases n,
{
    if n > 0 {
        lemma_specialized_types(cs, ts, (n - 1) as nat);
    }
}

/// A class that mentions no generic parameter is its own specialization,
/// whatever the contexts
pub proof fn lemma_specialized_plain(cs: Seq<ContextView>, t: TyView)
    requires
        t is Class,
        !is_generic(t),
    ensures
        specialized_type(cs, t) == t,
{
}

/// The type is a trait, or a reference to one, at any depth of references
pub open spec fn trait_behind_references(t: TyView) -> bool
    decreases t,
{
    match t {
        TyView::Trait(_) => true,
        TyView::Reference { to, .. } => trait_behind_references(*to),
        _ => false,
    }
}

/// Specializing only replaces generic parameters, `Self` and traits: a type
/// that mentions no generic parameter or `Self`, and is no trait or
/// reference to one, is its own specialization, whatever the contexts; a
/// reference keeps its mutability as well
pub proof fn lemma_specialization_replaces_only_parameters(cs: Seq<ContextView>, t: TyView)
    requires
        !is_generic(t),
        !trait_behind_references(t),
    ensures
        specialized_type(cs, t) == t,
    decreases t,
{
    match t {
        TyView::Reference { to, .. } => {
            lemma_specialization_replaces_only_parameters(cs, *to);
        },
        _ => {},
    }
}

/// Specializing keeps the form of a type: a reference stays a reference
/// with the same mutability, a class the same class, as specialized as
/// before and with as many generic arguments, and any other type that is no
/// generic parameter, `Self` or trait stays as it is
pub proof fn lemma_specialization_keeps_form(cs: Seq<ContextView>, t: TyView)
    ensures
        match t {
            TyView::Reference { mutable, .. } => specialized_type(cs, t) matches TyView::Reference { mutable: m, .. }
                && m == mutable,
            TyView::Class { class, specialized, generics } => specialized_type(cs, t) matches TyView::Class {
                class: c,
                specialized: s,
                generics: g,
            } && c == class && s == specialized && g.len() == generics.len(),
            TyView::Unknown => specialized_type(cs, t) == t,
            TyView::Function(_) => specialized_type(cs, t) == t,
            _ => true,
        },
{
    match t {
        TyView::Class { generics, .. } => {
            lemma_specialized_types(cs, generics, generics.len());
        },
        _ => {},
    }
}

/// A part of a function's name: a word, or a parameter
#[derive(Debug)]
pub enum FunctionNamePart {
    Text(String),
    Parameter(Parameter),
}

/// A function: the generic parameters it introduces, the parts of its
/// name, its return type, the name it is linked by, whether it is defined
/// here, and the types that its body carries, in order
#[derive(Debug)]
pub struct FunctionData {
    pub function: usize,
    pub generic_types: Vec<Ty>,
    pub name_parts: Vec<FunctionNamePart>,
    pub return_type: Ty,
    pub mangled_name: Option<String>,
    pub is_definition: bool,
    pub body: Vec<Ty>,
}

/// A part of a function's name as a mathematical value
pub enum PartView {
    Text(Seq<char>),
    Parameter(TyView, Span),
}

/// A function as a mathematical value
pub struct DataView {
    pub function: usize,
    pub generic_types: Seq<TyView>,
    pub parts: Seq<PartView>,
    pub return_type: TyView,
    pub mangled_name: Option<Seq<char>>,
    pub is_definition: bool,
    pub body: Seq<TyView>,
}

/// The value of a part of a name
pub open spec fn part_view(p: FunctionNamePart) -> PartView {
    match p {
        FunctionNamePart::Text(t) => PartView::Text(t@),
        FunctionNamePart::Parameter(q) => PartView::Parameter(q.ty@, q.at),
    }
}

/// The value of a function
pub open spec fn data_view(f: FunctionData) -> DataView {
    DataView {
        function: f.function,
        generic_types: f.generic_types@.map_values(|t: Ty| t@),
        parts: f.name_parts@.map_values(|p: FunctionNamePart| part_view(p)),
        return_type: f.return_type@,
        mangled_name: match f.mangled_name {
            Some(m) => Some(m@),
            None => None,
        },
        is_definition: f.is_definition,
        body: f.body@.map_values(|t: Ty| t@),
    }
}

impl View for FunctionData {
    type V = DataView;

    open spec fn view(&self) -> DataView {
        data_view(*self)
    }
}

/// A part that is a parameter whose type is generic
pub open spec fn generic_part(p: PartView) -> bool {
    p matches PartView::Parameter(t, _) && is_generic(t)
}

/// A part whose type, if any, can be specialized
pub open spec fn specializable_part(p: PartView) -> bool {
    match p {
        PartView::Parameter(t, _) => specializable(t),
        PartView::Text(_) => true,
    }
}

/// A function is generic when it introduces generic parameters, or a
/// parameter's type or its return type mentions one
pub open spec fn data_is_generic(v: DataView) -> bool {
    v.generic_types.len() > 0 || is_generic(v.return_type) || exists|i: int|
        0 <= i < v.parts.len() && generic_part(#[trigger] v.parts[i])
}

/// Each type of the function can be specialized
pub open spec fn data_specializable(v: DataView) -> bool {
    &&& forall|i: int| 0 <= i < v.generic_types.len() ==> specializable(#[trigger] v.generic_types[i])
    &&& forall|i: int| 0 <= i < v.parts.len() ==> specializable_part(#[trigger] v.parts[i])
    &&& specializable(v.return_type)
    &&& forall|i: int| 0 <= i < v.body.len() ==> specializable(#[trigger] v.body[i])
}

/// A part specialized within the contexts; a word stays, a parameter keeps
/// its range
pub open spec fn specialize_part(cs: Seq<ContextView>, p: PartView) -> PartView {
    match p {
        PartView::Parameter(t, at) => PartView::Parameter(specialized_type(cs, t), at),
        PartView::Text(t) => PartView::Text(t),
    }
}

/// What makes a name: a word, or the type of a parameter
pub enum NameKey {
    Word(Seq<char>),
    Type(TyView),
}

/// The name that the parts make
pub open spec fn name_of(parts: Seq<PartView>) -> Seq<NameKey> {
    parts.map_values(|p: PartView| match p {
        PartView::Text(t) => NameKey::Word(t),
        PartView::Parameter(t, _) => NameKey::Type(t),
    })
}

/// The first function, from the `from`-th on, whose name is `name`
pub open spec fn named(fs: Seq<FunctionData>, name: Seq<NameKey>, from: int) -> Option<int>
    decreases fs.len() - from,
{
    if from < 0 || from >= fs.len() {
        None
    } else if name_of(fs[from]@.parts) == name {
        Some(from)
    } else {
        named(fs, name, from + 1)
    }
}

/// The function with the given identity, from the `from`-th on
pub open spec fn function_index(fs: Seq<FunctionData>, id: usize, from: int) -> Option<int>
    decreases fs.len() - from,
{
    if from < 0 || from >= fs.len() {
        None
    } else if fs[from].function == id {
        Some(from)
    } else {
        function_index(fs, id, from + 1)
    }
}

/// A generic function specialized within the contexts: each of its types
/// specialized, its words, ranges and body kept in place, and linked by
/// the name of the function that already has its new name, where that one
/// has a link name, else by its own; a function that is not generic is
/// left as it is
pub open spec fn specialized_data(cs: Seq<ContextView>, fs: Seq<FunctionData>, v: DataView) -> DataView {
    if !data_is_generic(v) {
        v
    } else {
        let parts = v.parts.map_values(|p: PartView| specialize_part(cs, p));
        DataView {
            function: v.function,
            generic_types: v.generic_types.map_values(|t: TyView| specialized_type(cs, t)),
            parts,
            return_type: specialized_type(cs, v.return_type),
            mangled_name: match named(fs, name_of(parts), 0) {
                Some(i) => match fs[i].mangled_name {
                    Some(m) => Some(m@),
                    None => v.mangled_name,
                },
                None => v.mangled_name,
            },
            is_definition: v.is_definition,
            body: v.body.map_values(|t: TyView| specialized_type(cs, t)),
        }
    }
}

/// The types of the parameters among the first `n` parts
pub open spec fn parameter_types_of(parts: Seq<PartView>, n: nat) -> Seq<TyView>
    decreases n,
{
    if n == 0 || n > parts.len() {
        Seq::empty()
    } else {
        match parts[n - 1] {
            PartView::Parameter(t, _) => parameter_types_of(parts, (n - 1) as nat).push(t),
            PartView::Text(_) => parameter_types_of(parts, (n - 1) as nat),
        }
    }
}

/// The type that `Self` stands for once the function is specialized: from
/// the `i`-th part on, the specialized type of the first parameter declared
/// as `Self` whose specialized type mentions no generic parameter
pub open spec fn self_type_after(declared: Seq<PartView>, specialized: Seq<PartView>, i: int) -> Option<TyView>
    decreases declared.len() - i,
{
    if i < 0 || i >= declared.len() || i >= specialized.len() {
        None
    } else {
        match (declared[i], specialized[i]) {
            (PartView::Parameter(TyView::SelfType(_), _), PartView::Parameter(t, _)) => if !is_generic(t) {
                Some(t)
            } else {
                self_type_after(declared, specialized, i + 1)
            },
            _ => self_type_after(declared, specialized, i + 1),
        }
    }
}

/// Binding the generic parameters of a function by types: each of the
/// first `k` types checked, in order, against the parameter type at the
/// same place, the contexts changing as they go. `None` where a check does
/// not finish or fails.
pub open spec fn binding(
    d: Declarations,
    cs: Seq<ContextView>,
    args: Seq<TyView>,
    params: Seq<TyView>,
    k: nat,
) -> Option<Seq<ContextView>>
    decreases k,
{
    if k == 0 || k > args.len() || k > params.len() {
        Some(cs)
    } else {
        match binding(d, cs, args, params, (k - 1) as nat) {
            None => None,
            Some(s) => if !finishes(d, s, args[k - 1], params[k - 1]) {
                None
            } else {
                match convertible_outcome(d, s, args[k - 1], params[k - 1])->Some_0 {
                    (Err(_), _) => None,
                    (Ok(_), after) => Some(after),
                }
            },
        }
    }
}

/// The shorter of two lengths
pub open spec fn shorter(a: nat, b: nat) -> nat {
    if a <= b {
        a
    } else {
        b
    }
}

/// Specializing a function within the contexts: a function that is not
/// generic stays as it is. A generic one is specialized; where a trait only
/// declares it and `Self` then stands for a type with an implementation of
/// it, the first such implementation is specialized instead, within a
/// generic context of its own where the specialized parameter types bind
/// its parameters. The contexts after. `None` where a type cannot be
/// specialized, the implementation is not among the functions or is not
/// defined, or a binding does not finish or fails.
pub open spec fn monomorphization(
    d: Declarations,
    cs: Seq<ContextView>,
    fs: Seq<FunctionData>,
    v: DataView,
) -> Option<(DataView, Seq<ContextView>)> {
    if !data_is_generic(v) {
        Some((v, cs))
    } else if !data_specializable(v) {
        None
    } else {
        let m = specialized_data(cs, fs, v);
        let st = if v.is_definition {
            None
        } else {
            self_type_after(v.parts, m.parts, 0)
        };
        match st {
            None => Some((m, cs)),
            Some(t) => match first_implementation(d, v.function, t, 0) {
                None => Some((m, cs)),
                Some(k) => match function_index(fs, d.implementations@[k].implementation, 0) {
                    None => None,
                    Some(j) => {
                        let imp = fs[j]@;
                        let ps = parameter_types_of(m.parts, m.parts.len());
                        let rs = parameter_types_of(imp.parts, imp.parts.len());
                        match binding(d, cs.push(fresh_context(imp.generic_types)), ps, rs, shorter(ps.len(), rs.len())) {
                            None => None,
                            Some(after) => if !imp.is_definition || (data_is_generic(imp) && !data_specializable(imp)) {
                                None
                            } else {
                                Some((specialized_data(after, fs, imp), after.drop_last()))
                            },
                        }
                    },
                },
            },
        }
    }
}

/// Specializing a called function by the types of its arguments: within a
/// generic context of the function's own, on top of `cs`, each argument
/// binds the parameter at its place; the function is specialized there;
/// and the contexts after, the function's own taken away
pub open spec fn call_specialization(
    d: Declarations,
    cs: Seq<ContextView>,
    fs: Seq<FunctionData>,
    v: DataView,
    args: Seq<TyView>,
) -> Option<(DataView, Seq<ContextView>)> {
    let params = parameter_types_of(v.parts, v.parts.len());
    match binding(d, cs.push(fresh_context(v.generic_types)), args, params, shorter(args.len(), params.len())) {
        None => None,
        Some(after) => match monomorphization(d, after, fs, v) {
            None => None,
            Some((r, s)) => Some((r, s.drop_last())),
        },
    }
}

/// A finished binding finished each of its steps
pub proof fn lemma_binding_prefix(d: Declarations, cs: Seq<ContextView>, args: Seq<TyView>, params: Seq<TyView>, k: nat, n: nat)
    requires
        k <= n <= args.len(),
        n <= params.len(),
        binding(d, cs, args, params, n) is Some,
    ensures
        binding(d, cs, args, params, k) is Some,
    decreases n,
{
    if k < n {
        lemma_binding_prefix(d, cs, args, params, k, (n - 1) as nat);
    }
}

/// Specialize each of the types
fn monomorphized_types(contexts: &Vec<GenericContext>, ts: &Vec<Ty>) -> (r: Vec<Ty>)
    requires
        all_well_formed(contexts@),
        forall|i: int| 0 <= i < ts@.len() ==> specializable(#[trigger] ts@[i]@),
    ensures
        r@.map_values(|t: Ty| t@) == ts@.map_values(|t: Ty| t@).map_values(|t: TyView| specialized_type(contexts_view(contexts@), t)),
{
    let mut r: Vec<Ty> = Vec::new();
    let mut k: usize = 0;
    while k < ts.len()
        invariant
            k <= ts@.len(),
            all_well_formed(contexts@),
            forall|i: int| 0 <= i < ts@.len() ==> specializable(#[trigger] ts@[i]@),
            r@.len() == k,
            forall|j: int| 0 <= j < k ==> #[trigger] r@[j]@ == specialized_type(contexts_view(contexts@), ts@[j]@),
        decreases ts@.len() - k,
    {
        r.push(monomorphized_type(contexts, &ts[k]));
        k = k + 1;
    }
    let ghost a = r@.map_values(|t: Ty| t@);
    let ghost b = ts@.map_values(|t: Ty| t@).map_values(|t: TyView| specialized_type(contexts_view(contexts@), t));
    assert(a =~= b) by {
        assert forall|j: int| 0 <= j < a.len() implies #[trigger] a[j] == b[j] by {
            assert(r@[j]@ == specialized_type(contexts_view(contexts@), ts@[j]@));
        }
    }
    r
}

/// Is there a function of this name among the first ones?
fn same_name(a: &Vec<FunctionNamePart>, b: &Vec<FunctionNamePart>) -> (r: bool)
    ensures
        r == (name_of(a@.map_values(|p: FunctionNamePart| part_view(p))) == name_of(
            b@.map_values(|p: FunctionNamePart| part_view(p)),
        )),
{
    let ghost x = name_of(a@.map_values(|p: FunctionNamePart| part_view(p)));
    let ghost y = name_of(b@.map_values(|p: FunctionNamePart| part_view(p)));
    if a.len() != b.len() {
        assert(x.len() != y.len());
        return false;
    }
    let mut i: usize = 0;
    while i < a.len()
        invariant
            i <= a@.len(),
            a@.len() == b@.len(),
            x == name_of(a@.map_values(|p: FunctionNamePart| part_view(p))),
            y == name_of(b@.map_values(|p: FunctionNamePart| part_view(p))),
            forall|j: int| 0 <= j < i ==> #[trigger] x[j] == y[j],
        decreases a@.len() - i,
    {
        let ok = match (&a[i], &b[i]) {
            (FunctionNamePart::Text(s), FunctionNamePart::Text(t)) => *s == *t,
            (FunctionNamePart::Parameter(p), FunctionNamePart::Parameter(q)) => p.ty.same_as(&q.ty),
            _ => false,
        };
        if !ok {
            assert(x[i as int] != y[i as int]);
            return false;
        }
        i = i + 1;
    }
    assert(x =~= y);
    true
}

/// The first function named as the parts are
fn named_in(functions: &Vec<FunctionData>, parts: &Vec<FunctionNamePart>) -> (r: Option<usize>)
    ensures
        match r {
            Some(i) => i < functions@.len() && named(functions@, name_of(parts@.map_values(|p: FunctionNamePart| part_view(p))), 0) == Some(i as int),
            None => named(functions@, name_of(parts@.map_values(|p: FunctionNamePart| part_view(p))), 0) is None,
        },
{
    let ghost name = name_of(parts@.map_values(|p: FunctionNamePart| part_view(p)));
    let mut i: usize = 0;
    while i < functions.len()
        invariant
            i <= functions@.len(),
            name == name_of(parts@.map_values(|p: FunctionNamePart| part_view(p))),
            named(functions@, name, 0) == named(functions@, name, i as int),
        decreases functions@.len() - i,
    {
        if same_name(&functions[i].name_parts, parts) {
            return Some(i);
        }
        i = i + 1;
    }
    None
}

/// The function with the given identity
fn index_of_function(functions: &Vec<FunctionData>, id: usize) -> (r: Option<usize>)
    ensures
        match r {
            Some(i) => i < functions@.len() && function_index(functions@, id, 0) == Some(i as int),
            None => function_index(functions@, id, 0) is None,
        },
{
    let mut i: usize = 0;
    while i < functions.len()
        invariant
            i <= functions@.len(),
            function_index(functions@, id, 0) == function_index(functions@, id, i as int),
        decreases functions@.len() - i,
    {
        if functions[i].function == id {
            return Some(i);
        }
        i = i + 1;
    }
    None
}

impl FunctionData {
    /// A copy of the function
    pub fn copy(&self) -> (r: FunctionData)
        ensures
            r@ == self@,
    {
        let mut parts: Vec<FunctionNamePart> = Vec::new();
        let mut i: usize = 0;
        while i < self.name_parts.len()
            invariant
                i <= self.name_parts@.len(),
                parts@.len() == i,
                forall|j: int| 0 <= j < i ==> #[trigger] part_view(parts@[j]) == part_view(self.name_parts@[j]),
            decreases self.name_parts@.len() - i,
        {
            let p = match &self.name_parts[i] {
                FunctionNamePart::Text(t) => FunctionNamePart::Text(t.clone()),
                FunctionNamePart::Parameter(q) => FunctionNamePart::Parameter(Parameter { ty: q.ty.clone(), at: q.at }),
            };
            parts.push(p);
            i = i + 1;
        }
        let generic_types = copy_types(&self.generic_types);
        let body = copy_types(&self.body);
        let mangled_name = match &self.mangled_name {
            Some(m) => Some(m.clone()),
            None => None,
        };
        let r = FunctionData {
            function: self.function,
            generic_types,
            name_parts: parts,
            return_type: self.return_type.clone(),
            mangled_name,
            is_definition: self.is_definition,
            body,
        };
        assert(r@.parts =~= self@.parts);
        r
    }

    /// Is the function generic?
    pub fn is_generic(&self) -> (b: bool)
        ensures
            b == data_is_generic(self@),
    {
        if self.generic_types.len() > 0 || type_is_generic(&self.return_type) {
            return true;
        }
        let ghost v = self@;
        let mut i: usize = 0;
        while i < self.name_parts.len()
            invariant
                i <= self.name_parts@.len(),
                v == self@,
                forall|j: int| 0 <= j < i ==> !generic_part(#[trigger] v.parts[j]),
            decreases self.name_parts@.len() - i,
        {
            match &self.name_parts[i] {
                FunctionNamePart::Parameter(p) => {
                    if type_is_generic(&p.ty) {
                        assert(generic_part(v.parts[i as int]));
                        return true;
                    }
                },
                FunctionNamePart::Text(_) => {},
            }
            i = i + 1;
        }
        false
    }

    /// The function specialized within the generic contexts, looking up
    /// among the functions the one that already has its new name
    pub fn specialized(&self, contexts: &Vec<GenericContext>, functions: &Vec<FunctionData>) -> (r: FunctionData)
        requires
            all_well_formed(contexts@),
            data_is_generic(self@) ==> data_specializable(self@),
        ensures
            r@ == specialized_data(contexts_view(contexts@), functions@, self@),
    {
        if !self.is_generic() {
            return self.copy();
        }
        let ghost v = self@;
        let ghost cs = contexts_view(contexts@);
        let mut parts: Vec<FunctionNamePart> = Vec::new();
        let mut i: usize = 0;
        while i < self.name_parts.len()
            invariant
                i <= self.name_parts@.len(),
                v == self@,
                data_specializable(v),
                all_well_formed(contexts@),
                cs == contexts_view(contexts@),
                parts@.len() == i,
                forall|j: int| 0 <= j < i ==> #[trigger] part_view(parts@[j]) == specialize_part(cs, v.parts[j]),
            decreases self.name_parts@.len() - i,
        {
            assert(specializable_part(v.parts[i as int]));
            let p = match &self.name_parts[i] {
                FunctionNamePart::Text(t) => FunctionNamePart::Text(t.clone()),
                FunctionNamePart::Parameter(q) => FunctionNamePart::Parameter(
                    Parameter { ty: monomorphized_type(contexts, &q.ty), at: q.at },
                ),
            };
            parts.push(p);
            i = i + 1;
        }
        proof {
            assert(parts@.map_values(|p: FunctionNamePart| part_view(p)) =~= v.parts.map_values(|p: PartView| specialize_part(cs, p)));
            assert forall|i: int| 0 <= i < self.generic_types@.len() implies specializable(#[trigger] self.generic_types@[i]@) by {
                assert(v.generic_types[i] == self.generic_types@[i]@);
            }
            assert forall|i: int| 0 <= i < self.body@.len() implies specializable(#[trigger] self.body@[i]@) by {
                assert(v.body[i] == self.body@[i]@);
            }
        }
        let generic_types = monomorphized_types(contexts, &self.generic_types);
        let body = monomorphized_types(contexts, &self.body);
        let return_type = monomorphized_type(contexts, &self.return_type);
        let mangled_name = match named_in(functions, &parts) {
            Some(k) => match &functions[k].mangled_name {
                Some(m) => Some(m.clone()),
                None => match &self.mangled_name {
                    Some(m) => Some(m.clone()),
                    None => None,
                },
            },
            None => match &self.mangled_name {
                Some(m) => Some(m.clone()),
                None => None,
            },
        };
        let r = FunctionData {
            function: self.function,
            generic_types,
            name_parts: parts,
            return_type,
            mangled_name,
            is_definition: self.is_definition,
            body,
        };
        proof {
            assert(r@.generic_types =~= specialized_data(cs, functions@, v).generic_types);
            assert(r@.body =~= specialized_data(cs, functions@, v).body);
        }
        r
    }

    /// The types of the parameters, in order
    fn parameter_types(&self) -> (r: Vec<Ty>)
        ensures
            r@.map_values(|t: Ty| t@) == parameter_types_of(self@.parts, self@.parts.len()),
    {
        let ghost ps = self@.parts;
        let mut r: Vec<Ty> = Vec::new();
        let mut i: usize = 0;
        assert(r@.map_values(|t: Ty| t@) =~= Seq::empty());
        while i < self.name_parts.len()
            invariant
                i <= self.name_parts@.len(),
                ps == self@.parts,
                r@.map_values(|t: Ty| t@) == parameter_types_of(ps, i as nat),
            decreases self.name_parts@.len() - i,
        {
            match &self.name_parts[i] {
                FunctionNamePart::Parameter(p) => {
                    assert(ps[i as int] == PartView::Parameter(p.ty@, p.at));
                    let ghost before = r@;
                    r.push(p.ty.clone());
                    assert(r@.map_values(|t: Ty| t@) =~= before.map_values(|t: Ty| t@).push(p.ty@));
                },
                FunctionNamePart::Text(t) => {
                    assert(ps[i as int] == PartView::Text(t@));
                },
            }
            i = i + 1;
        }
        r
    }

    /// The type that `Self` stands for in the specialized function
    fn self_type_in(&self, specialized: &FunctionData) -> (r: Option<Ty>)
        ensures
            match r {
                Some(t) => self_type_after(self@.parts, specialized@.parts, 0) == Some(t@),
                None => self_type_after(self@.parts, specialized@.parts, 0) is None,
            },
    {
        let ghost a = self@.parts;
        let ghost b = specialized@.parts;
        let mut i: usize = 0;
        while i < self.name_parts.len() && i < specialized.name_parts.len()
            invariant
                a == self@.parts,
                b == specialized@.parts,
                i <= a.len(),
                self_type_after(a, b, 0) == self_type_after(a, b, i as int),
            decreases self.name_parts@.len() - i,
        {
            assert(a[i as int] == part_view(self.name_parts@[i as int]));
            assert(b[i as int] == part_view(specialized.name_parts@[i as int]));
            match (&self.name_parts[i], &specialized.name_parts[i]) {
                (FunctionNamePart::Parameter(p), FunctionNamePart::Parameter(q)) => {
                    if matches!(p.ty, Ty::SelfType(_)) && !type_is_generic(&q.ty) {
                        return Some(q.ty.clone());
                    }
                },
                _ => {},
            }
            i = i + 1;
        }
        None
    }

    /// Bind the parameters of `imp`, within a generic context of its own
    /// pushed on the contexts, by the given types
    fn bind(
        imp: &FunctionData,
        types: &Vec<Ty>,
        contexts: &mut Vec<GenericContext>,
        declarations: &Declarations,
    )
        requires
            all_well_formed(old(contexts)@),
            binding(
                *declarations,
                contexts_view(old(contexts)@).push(fresh_context(imp@.generic_types)),
                types@.map_values(|t: Ty| t@),
                parameter_types_of(imp@.parts, imp@.parts.len()),
                shorter(types@.len(), parameter_types_of(imp@.parts, imp@.parts.len()).len()),
            ) is Some,
        ensures
            all_well_formed(final(contexts)@),
            final(contexts)@.len() == old(contexts)@.len() + 1,
            binding(
                *declarations,
                contexts_view(old(contexts)@).push(fresh_context(imp@.generic_types)),
                types@.map_values(|t: Ty| t@),
                parameter_types_of(imp@.parts, imp@.parts.len()),
                shorter(types@.len(), parameter_types_of(imp@.parts, imp@.parts.len()).len()),
            ) == Some(contexts_view(final(contexts)@)),
    {
        let ghost av = types@.map_values(|t: Ty| t@);
        let params = imp.parameter_types();
        let ghost pv = params@.map_values(|t: Ty| t@);
        let ghost inner = contexts_view(contexts@).push(fresh_context(imp@.generic_types));
        let scope = GenericContext::for_generics(copy_types(&imp.generic_types));
        proof {
            assert(scope@.mapping =~= Seq::new(scope@.parameters.len(), |i: int| None::<TyView>));
        }
        contexts.push(scope);
        proof {
            assert(contexts_view(contexts@) =~= inner);
            assert forall|j: int| 0 <= j < contexts@.len() implies well_formed(#[trigger] contexts@[j]@) by {
                if j < contexts@.len() - 1 {
                    assert(contexts@[j] == old(contexts)@[j]);
                }
            }
        }
        let n = if types.len() <= params.len() {
            types.len()
        } else {
            params.len()
        };
        let mut k: usize = 0;
        while k < n
            invariant
                k <= n,
                n == shorter(av.len(), pv.len()),
                av == types@.map_values(|t: Ty| t@),
                pv == params@.map_values(|t: Ty| t@),
                all_well_formed(contexts@),
                contexts@.len() == old(contexts)@.len() + 1,
                binding(*declarations, inner, av, pv, n as nat) is Some,
                binding(*declarations, inner, av, pv, k as nat) == Some(contexts_view(contexts@)),
            decreases n - k,
        {
            proof {
                lemma_binding_prefix(*declarations, inner, av, pv, (k + 1) as nat, n as nat);
                assert(av[k as int] == types@[k as int]@);
                assert(pv[k as int] == params@[k as int]@);
            }
            let request = ConvertibleToRequest { from: types[k].clone(), to: params[k].clone() };
            let _ = request.within(contexts, declarations);
            k = k + 1;
        }
    }

    /// Specialize the function within the generic contexts. A function that
    /// is not generic stays as it is; a generic one has its types
    /// specialized and is linked by the name of the function that already
    /// has its new name. Where a trait only declares it and `Self` then
    /// stands for a type with an implementation of it, that implementation
    /// is specialized instead, within a generic context of its own where the
    /// specialized parameter types bind its parameters.
    pub fn monomorphize(
        &self,
        contexts: &mut Vec<GenericContext>,
        declarations: &Declarations,
        functions: &Vec<FunctionData>,
    ) -> (r: FunctionData)
        requires
            all_well_formed(old(contexts)@),
            monomorphization(*declarations, contexts_view(old(contexts)@), functions@, self@) is Some,
        ensures
            all_well_formed(final(contexts)@),
            final(contexts)@.len() == old(contexts)@.len(),
            monomorphization(*declarations, contexts_view(old(contexts)@), functions@, self@) == Some((r@, contexts_view(final(contexts)@))),
    {
        if !self.is_generic() {
            return self.copy();
        }
        let m = self.specialized(contexts, functions);
        if self.is_definition {
            return m;
        }
        let t = match self.self_type_in(&m) {
            Some(t) => t,
            None => {
                return m;
            },
        };
        let k = match declarations.find_implementation(self.function, &t) {
            Some(k) => k,
            None => {
                return m;
            },
        };
        let j = match index_of_function(functions, declarations.implementations[k].implementation) {
            Some(j) => j,
            None => {
                proof {
                    assert(false);
                }
                return m;
            },
        };
        let imp = &functions[j];
        let types = m.parameter_types();
        Self::bind(imp, &types, contexts, declarations);
        let r = imp.specialized(contexts, functions);
        let ghost before_pop = contexts_view(contexts@);
        contexts.pop();
        proof {
            assert(contexts_view(contexts@) =~= before_pop.drop_last());
        }
        r
    }

    /// Specialize the function within the generic contexts, as
    /// [`FunctionData::monomorphize`] does
    pub fn monomorphized(
        &self,
        contexts: &mut Vec<GenericContext>,
        declarations: &Declarations,
        functions: &Vec<FunctionData>,
    ) -> (r: FunctionData)
        requires
            all_well_formed(old(contexts)@),
            monomorphization(*declarations, contexts_view(old(contexts)@), functions@, self@) is Some,
        ensures
            all_well_formed(final(contexts)@),
            final(contexts)@.len() == old(contexts)@.len(),
            monomorphization(*declarations, contexts_view(old(contexts)@), functions@, self@) == Some((r@, contexts_view(final(contexts)@))),
    {
        self.monomorphize(contexts, declarations, functions)
    }

    /// Specialize the called function by the types of its arguments: a
    /// generic context of its own is put on top, each argument binds the
    /// parameter at its place, the function is specialized within it, and
    /// the context is taken away
    pub fn monomorphized_call(
        &self,
        contexts: &mut Vec<GenericContext>,
        declarations: &Declarations,
        functions: &Vec<FunctionData>,
        args: &Vec<Ty>,
    ) -> (r: FunctionData)
        requires
            all_well_formed(old(contexts)@),
            call_specialization(*declarations, contexts_view(old(contexts)@), functions@, self@, args@.map_values(|t: Ty| t@)) is Some,
        ensures
            all_well_formed(final(contexts)@),
            call_specialization(*declarations, contexts_view(old(contexts)@), functions@, self@, args@.map_values(|t: Ty| t@))
                == Some((r@, contexts_view(final(contexts)@))),
    {
        Self::bind(self, args, contexts, declarations);
        let r = self.monomorphize(contexts, declarations, functions);
        let ghost before_pop = contexts_view(contexts@);
        contexts.pop();
        proof {
            assert(contexts_view(contexts@) =~= before_pop.drop_last());
        }
        r
    }
}

} // verus!
