use vstd::prelude::*;

verus! {

/// A range of the source text
#[derive(Debug, Clone, Copy, PartialEq, Eq, Structural)]
pub struct Span {
    pub start: usize,
    pub end: usize,
}

/// Type of a value, as the checks of conversion read it. Declarations are
/// named by their index in the tables of [`Declarations`].
#[derive(Debug)]
pub enum Ty {
    /// Type that is not inferred yet
    Unknown,
    /// A class: its declaration, whether it is a specialization of a generic
    /// class, and its generic arguments (its parameters where it is not)
    Class { class: usize, specialized: bool, generics: Vec<Ty> },
    /// Type of a function
    Function(usize),
    /// A generic parameter and the trait that constrains it
    Generic { param: usize, constraint: Option<usize> },
    /// `Self` type of a trait
    SelfType(usize),
    /// A trait used as a type
    Trait(usize),
    /// Reference to a value of the inner type
    Reference { mutable: bool, to: Box<Ty> },
}

/// A type as a mathematical value: generic arguments are a sequence
pub enum TyView {
    Unknown,
    Class { class: usize, specialized: bool, generics: Seq<TyView> },
    Function(usize),
    Generic { param: usize, constraint: Option<usize> },
    SelfType(usize),
    Trait(usize),
    Reference { mutable: bool, to: Box<TyView> },
}

/// The mathematical value of a type
pub open spec fn ty_view(t: Ty) -> TyView
    decreases t, 0nat,
{
    match t {
        Ty::Unknown => TyView::Unknown,
        Ty::Class { class, specialized, generics } => TyView::Class {
            class,
            specialized,
            generics: tys_view(generics@, generics@.len()),
        },
        Ty::Function(f) => TyView::Function(f),
        Ty::Generic { param, constraint } => TyView::Generic { param, constraint },
        Ty::SelfType(t) => TyView::SelfType(t),
        Ty::Trait(t) => TyView::Trait(t),
        Ty::Reference { mutable, to } => TyView::Reference { mutable, to: Box::new(ty_view(*to)) },
    }
}

/// The mathematical values of the first `n` types
pub open spec fn tys_view(ts: Seq<Ty>, n: nat) -> Seq<TyView>
    decreases ts, n,
{
    if n == 0 || n > ts.len() {
        Seq::empty()
    } else {
        tys_view(ts, (n - 1) as nat).push(ty_view(ts[n - 1]))
    }
}

/// The values of the first `n` types are the values of each of them
pub proof fn lemma_tys_view(ts: Seq<Ty>, n: nat)
    requires
        n <= ts.len(),
    ensures
        tys_view(ts, n).len() == n,
        forall|j: int| 0 <= j < n ==> #[trigger] tys_view(ts, n)[j] == ty_view(ts[j]),
    decreases n,
{
    if n > 0 {
        lemma_tys_view(ts, (n - 1) as nat);
    }
}

impl View for Ty {
    type V = TyView;

    open spec fn view(&self) -> TyView {
        ty_view(*self)
    }
}

/// Number of nodes of a type, a constrained generic parameter counting twice
pub open spec fn size(t: TyView) -> nat
    decreases t, 0nat,
{
    match t {
        TyView::Class { generics, .. } => 1 + sizes(generics, generics.len()),
        TyView::Generic { constraint: Some(_), .. } => 2,
        TyView::Reference { to, .. } => 1 + size(*to),
        _ => 1,
    }
}

/// Sum of the sizes of the first `n` types
pub open spec fn sizes(ts: Seq<TyView>, n: nat) -> nat
    decreases ts, n,
{
    if n == 0 || n > ts.len() {
        0
    } else {
        sizes(ts, (n - 1) as nat) + size(ts[n - 1])
    }
}

/// Every type has a positive size
pub proof fn lemma_size_positive(t: TyView)
    ensures
        size(t) >= 1,
{
}

/// The sum of the sizes grows with the number of types summed, and holds
/// each of them
pub proof fn lemma_sizes(ts: Seq<TyView>, m: nat, n: nat)
    requires
        m <= n <= ts.len(),
    ensures
        sizes(ts, m) <= sizes(ts, n),
        m < n ==> sizes(ts, m) + size(ts[m as int]) <= sizes(ts, n),
    decreases n,
{
    if m < n {
        lemma_sizes(ts, m, (n - 1) as nat);
        lemma_size_positive(ts[n - 1]);
        if m < n - 1 {
            lemma_sizes(ts, (m + 1) as nat, (n - 1) as nat);
        }
    }
}

/// The type without one level of reference
pub open spec fn stripped(t: TyView) -> TyView {
    match t {
        TyView::Reference { to, .. } => *to,
        _ => t,
    }
}

/// Taking the reference away makes a type no larger
pub proof fn lemma_stripped_size(t: TyView)
    ensures
        size(stripped(t)) <= size(t),
{
}

impl Ty {
    /// The type without one level of reference
    pub fn without_ref(&self) -> (t: &Ty)
        ensures
            t@ == stripped(self@),
    {
        match self {
            Ty::Reference { to, .. } => {
                let t: &Ty = to;
                t
            },
            _ => self,
        }
    }

    /// Is this type equal to `other`?
    #[verifier::loop_isolation(false)]
    pub fn same_as(&self, other: &Ty) -> (b: bool)
        ensures
            b == (self@ == other@),
        decreases self,
    {
        match self {
            Ty::Class { class, specialized, generics } => match other {
                Ty::Class { class: c, specialized: s, generics: g } => {
                    proof {
                        lemma_tys_view(generics@, generics@.len());
                        lemma_tys_view(g@, g@.len());
                    }
                    if *class != *c || *specialized != *s || generics.len() != g.len() {
                        return false;
                    }
                    let mut k: usize = 0;
                    while k < generics.len()
                        invariant
                            k <= generics@.len(),
                            forall|j: int| 0 <= j < k ==> #[trigger] generics@[j]@ == g@[j]@,
                        decreases generics@.len() - k,
                    {
                        proof {
                            assert(decreases_to!(*self => self->Class_generics));
                            assert(decreases_to!(self->Class_generics => self->Class_generics@));
                            assert(decreases_to!(self->Class_generics@ => self->Class_generics@[k as int]));
                        }
                        if !generics[k].same_as(&g[k]) {
                            proof {
                                assert(tys_view(generics@, generics@.len())[k as int] != tys_view(g@, g@.len())[k as int]);
                            }
                            return false;
                        }
                        k = k + 1;
                    }
                    proof {
                        assert forall|j: int| 0 <= j < g@.len() implies tys_view(g@, g@.len())[j]
                            == tys_view(generics@, generics@.len())[j] by {
                            assert(generics@[j]@ == g@[j]@);
                        }
                        assert(tys_view(generics@, generics@.len()) =~= tys_view(g@, g@.len()));
                    }
                    true
                },
                _ => false,
            },
            Ty::Reference { mutable, to } => match other {
                Ty::Reference { mutable: m, to: t } => {
                    let a: &Ty = to;
                    let b: &Ty = t;
                    *mutable == *m && a.same_as(b)
                },
                _ => false,
            },
            Ty::Unknown => matches!(other, Ty::Unknown),
            Ty::Function(f) => match other {
                Ty::Function(g) => *f == *g,
                _ => false,
            },
            Ty::Generic { param, constraint } => match other {
                Ty::Generic { param: p, constraint: c } => *param == *p && match (constraint, c) {
                    (Some(x), Some(y)) => *x == *y,
                    (None, None) => true,
                    _ => false,
                },
                _ => false,
            },
            Ty::SelfType(t) => match other {
                Ty::SelfType(u) => *t == *u,
                _ => false,
            },
            Ty::Trait(t) => match other {
                Ty::Trait(u) => *t == *u,
                _ => false,
            },
        }
    }
}

impl Clone for Ty {
    #[verifier::loop_isolation(false)]
    fn clone(&self) -> (t: Self)
        ensures
            t@ == self@,
        decreases self,
    {
        match self {
            Ty::Unknown => Ty::Unknown,
            Ty::Class { class, specialized, generics } => {
                let mut g: Vec<Ty> = Vec::new();
                let mut k: usize = 0;
                proof {
                    lemma_tys_view(generics@, generics@.len());
                }
                while k < generics.len()
                    invariant
                        k <= generics@.len(),
                        g@.len() == k,
                        forall|j: int| 0 <= j < k ==> #[trigger] g@[j]@ == generics@[j]@,
                    decreases generics@.len() - k,
                {
                    proof {
                        assert(decreases_to!(*self => self->Class_generics));
                        assert(decreases_to!(self->Class_generics => self->Class_generics@));
                        assert(decreases_to!(self->Class_generics@ => self->Class_generics@[k as int]));
                    }
                    g.push(generics[k].clone());
                    k = k + 1;
                }
                proof {
                    lemma_tys_view(g@, g@.len());
                    assert forall|j: int| 0 <= j < g@.len() implies tys_view(g@, g@.len())[j]
                        == tys_view(generics@, generics@.len())[j] by {
                        assert(g@[j]@ == generics@[j]@);
                    }
                    assert(tys_view(g@, g@.len()) =~= tys_view(generics@, generics@.len()));
                }
                Ty::Class { class: *class, specialized: *specialized, generics: g }
            },
            Ty::Function(f) => Ty::Function(*f),
            Ty::Generic { param, constraint } => Ty::Generic { param: *param, constraint: *constraint },
            Ty::SelfType(t) => Ty::SelfType(*t),
            Ty::Trait(t) => Ty::Trait(*t),
            Ty::Reference { mutable, to } => {
                let t: &Ty = to;
                Ty::Reference { mutable: *mutable, to: Box::new(t.clone()) }
            },
        }
    }
}

/// A function of a trait: its identity, and whether the trait defines it
/// or only declares it
#[derive(Debug, Clone, Copy, PartialEq, Eq, Structural)]
pub struct TraitFunction {
    pub function: usize,
    pub is_definition: bool,
}

/// Declaration of a trait: the traits it extends and its functions, in order
#[derive(Debug)]
pub struct TraitDeclaration {
    pub supertraits: Vec<usize>,
    pub functions: Vec<TraitFunction>,
}

/// Implementation of a trait's function for a type
#[derive(Debug)]
pub struct Implementation {
    /// The function of the trait
    pub function: usize,
    /// The type it is implemented for
    pub for_type: Ty,
    /// The function that implements it
    pub implementation: usize,
}

/// The declarations that the checks look up: the traits, and the
/// implementations of their functions
#[derive(Debug)]
pub struct Declarations {
    pub traits: Vec<TraitDeclaration>,
    pub implementations: Vec<Implementation>,
}

/// The functions of a trait; an unknown trait has none
pub open spec fn trait_functions(d: Declarations, tr: usize) -> Seq<TraitFunction> {
    if tr < d.traits@.len() {
        d.traits@[tr as int].functions@
    } else {
        Seq::empty()
    }
}

/// The traits that a trait extends; an unknown trait extends none
pub open spec fn supertraits(d: Declarations, tr: usize) -> Seq<usize> {
    if tr < d.traits@.len() {
        d.traits@[tr as int].supertraits@
    } else {
        Seq::empty()
    }
}

/// The `k`-th implementation implements `f` for `ty`
pub open spec fn implements_at(d: Declarations, k: int, f: usize, ty: TyView) -> bool {
    0 <= k < d.implementations@.len() && d.implementations@[k].function == f
        && d.implementations@[k].for_type@ == ty
}

/// The first implementation of `f` for `ty`, from the `from`-th on
pub open spec fn first_implementation(d: Declarations, f: usize, ty: TyView, from: int) -> Option<int>
    decreases d.implementations@.len() - from,
{
    if from < 0 || from >= d.implementations@.len() {
        None
    } else if implements_at(d, from, f, ty) {
        Some(from)
    } else {
        first_implementation(d, f, ty, from + 1)
    }
}

/// Some implementation implements `f` for `ty`
pub open spec fn implemented(d: Declarations, f: usize, ty: TyView) -> bool {
    exists|k: int| #[trigger] implements_at(d, k, f, ty)
}

/// The functions among `fs` that are only declared and that nothing
/// implements for `ty`, in order
pub open spec fn unimplemented(d: Declarations, fs: Seq<TraitFunction>, ty: TyView) -> Seq<usize>
    decreases fs.len(),
{
    if fs.len() == 0 {
        Seq::empty()
    } else {
        let rest = unimplemented(d, fs.drop_last(), ty);
        if !fs.last().is_definition && !implemented(d, fs.last().function, ty) {
            rest.push(fs.last().function)
        } else {
            rest
        }
    }
}

/// Why a type could not be converted to another, as a mathematical value
pub enum Failure {
    /// The types do not fit
    Mismatch { expected: TyView, expected_at: Span, got: TyView, got_at: Span },
    /// The type does not implement the functions of the trait
    Unimplemented { ty: TyView, tr: usize, functions: Seq<usize> },
    /// A value that cannot change is handed where a mutable reference is asked
    MutToImmutable { at: Span },
}

/// Does the class `ty` implement the trait `tr`? `true`, or the functions
/// that it leaves unimplemented
pub open spec fn implements_verdict(d: Declarations, ty: TyView, tr: usize) -> Result<bool, Failure> {
    let u = unimplemented(d, trait_functions(d, tr), ty);
    if u.len() == 0 {
        Ok(true)
    } else {
        Err(Failure::Unimplemented { ty, tr, functions: u })
    }
}

/// Conversion of a value of type `from` to type `to`: the target type
/// without reference, or why it fails. A trait converts to its own `Self`;
/// a class to a trait or a `Self` that it implements; anything to an
/// unconstrained generic parameter, and to a constrained one what converts
/// to the constraint; a constrained generic parameter as its constraint; a
/// class to a specialization of its own generic class when each pair of
/// generic arguments converts; otherwise only equal types.
pub open spec fn conversion(d: Declarations, from: TyView, from_at: Span, to: TyView, to_at: Span) -> Result<TyView, Failure>
    decreases size(from) + size(to), 0nat,
{
    let f = stripped(from);
    let t = stripped(to);
    let verdict: Result<bool, Failure> = if f is Trait && t is SelfType {
        Ok(f->Trait_0 == t->SelfType_0)
    } else if f is Class && t is SelfType {
        implements_verdict(d, f, t->SelfType_0)
    } else if f is Class && t is Trait {
        implements_verdict(d, f, t->Trait_0)
    } else if t is Generic {
        match t->constraint {
            Some(c) => match {
                proof {
                    lemma_stripped_size(to);
                    assert(size(t) == 2);
                }
                conversion(d, from, from_at, TyView::Trait(c), to_at)
            } {
                Ok(_) => Ok(true),
                Err(e) => Err(e),
            },
            None => Ok(true),
        }
    } else if f is Generic && f->constraint is Some {
        match {
            proof {
                lemma_stripped_size(from);
                assert(size(f) == 2);
            }
            conversion(d, TyView::Trait(f->constraint->0), from_at, to, to_at)
        } {
            Ok(_) => Ok(true),
            Err(e) => Err(e),
        }
    } else if f is Class && t is Class {
        if t->specialized && f->class == t->class {
            let n = if f->generics.len() <= t->generics.len() {
                f->generics.len()
            } else {
                t->generics.len()
            };
            proof {
                lemma_sizes(f->generics, n, f->generics.len());
                lemma_sizes(t->generics, n, t->generics.len());
                lemma_stripped_size(from);
                lemma_stripped_size(to);
                assert(size(f) == 1 + sizes(f->generics, f->generics.len()));
                assert(size(t) == 1 + sizes(t->generics, t->generics.len()));
            }
            Ok(arguments_convert(d, f->generics, from_at, t->generics, to_at, n))
        } else {
            Ok(f == t)
        }
    } else {
        Ok(f == t)
    };
    match verdict {
        Err(e) => Err(e),
        Ok(true) => Ok(t),
        Ok(false) => Err(Failure::Mismatch { expected: to, expected_at: to_at, got: from, got_at: from_at }),
    }
}

/// Each of the first `n` generic arguments of one class converts to the one
/// of the other at the same place
pub open spec fn arguments_convert(
    d: Declarations,
    fs: Seq<TyView>,
    from_at: Span,
    ts: Seq<TyView>,
    to_at: Span,
    n: nat,
) -> bool
    decreases sizes(fs, n) + sizes(ts, n), 1nat,
{
    if n == 0 || n > fs.len() || n > ts.len() {
        true
    } else {
        proof {
            lemma_sizes(fs, (n - 1) as nat, n);
            lemma_sizes(ts, (n - 1) as nat, n);
            lemma_size_positive(fs[n - 1]);
        }
        arguments_convert(d, fs, from_at, ts, to_at, (n - 1) as nat) && conversion(
            d,
            fs[n - 1],
            from_at,
            ts[n - 1],
            to_at,
        ) is Ok
    }
}

/// Every type converts to itself: a value can always be handed where its
/// own type is expected, and the conversion gives that type back without
/// reference
pub proof fn lemma_conversion_reflexive(d: Declarations, t: TyView, from_at: Span, to_at: Span)
    ensures
        conversion(d, t, from_at, t, to_at) == Ok::<TyView, Failure>(stripped(t)),
    decreases size(t) + size(t), 0nat,
{
    let s = stripped(t);
    lemma_stripped_size(t);
    match s {
        TyView::Generic { constraint: Some(c), .. } => {
            assert(size(s) == 2);
            lemma_trait_to_itself(d, c, from_at, to_at);
            assert(conversion(d, TyView::Trait(c), from_at, TyView::Trait(c), to_at) is Ok);
            lemma_generic_to_constraint(d, t, c, from_at, to_at);
        },
        TyView::Class { class, specialized, generics } => {
            if specialized {
                lemma_arguments_reflexive(d, generics, from_at, to_at, generics.len());
            }
        },
        _ => {},
    }
}

/// A trait converts to itself
proof fn lemma_trait_to_itself(d: Declarations, c: usize, from_at: Span, to_at: Span)
    ensures
        conversion(d, TyView::Trait(c), from_at, TyView::Trait(c), to_at) is Ok,
{
}

/// A type constrained by the trait `c` converts to that trait
proof fn lemma_generic_to_constraint(d: Declarations, t: TyView, c: usize, from_at: Span, to_at: Span)
    requires
        stripped(t) matches TyView::Generic { constraint: Some(k), .. } && k == c,
        conversion(d, TyView::Trait(c), from_at, TyView::Trait(c), to_at) is Ok,
    ensures
        conversion(d, t, from_at, TyView::Trait(c), to_at) is Ok,
{
}

/// Each of the first `n` arguments converts to itself
proof fn lemma_arguments_reflexive(d: Declarations, ts: Seq<TyView>, from_at: Span, to_at: Span, n: nat)
    requires
        n <= ts.len(),
    ensures
        arguments_convert(d, ts, from_at, ts, to_at, n),
    decreases sizes(ts, n) + sizes(ts, n), 1nat,
{
    if n > 0 {
        lemma_sizes(ts, (n - 1) as nat, n);
        lemma_size_positive(ts[n - 1]);
        lemma_arguments_reflexive(d, ts, from_at, to_at, (n - 1) as nat);
        lemma_conversion_reflexive(d, ts[n - 1], from_at, to_at);
    }
}

/// The first `n` generic arguments convert pairwise exactly when each pair
/// at a place below `n` converts
proof fn lemma_arguments_convert_each(d: Declarations, fs: Seq<TyView>, from_at: Span, ts: Seq<TyView>, to_at: Span, n: nat)
    requires
        n <= fs.len(),
        n <= ts.len(),
    ensures
        arguments_convert(d, fs, from_at, ts, to_at, n) <==> forall|j: int|
            0 <= j < n ==> (#[trigger] conversion(d, fs[j], from_at, ts[j], to_at)) is Ok,
    decreases n,
{
    if n > 0 {
        let m = (n - 1) as nat;
        lemma_arguments_convert_each(d, fs, from_at, ts, to_at, m);
        assert(arguments_convert(d, fs, from_at, ts, to_at, n) == (arguments_convert(d, fs, from_at, ts, to_at, m)
            && conversion(d, fs[n - 1], from_at, ts[n - 1], to_at) is Ok));
        if arguments_convert(d, fs, from_at, ts, to_at, n) {
            assert forall|j: int| 0 <= j < n implies (#[trigger] conversion(d, fs[j], from_at, ts[j], to_at)) is Ok by {
                if j < m {
                    assert(conversion(d, fs[j], from_at, ts[j], to_at) is Ok);
                }
            }
        } else if forall|j: int| 0 <= j < n ==> (#[trigger] conversion(d, fs[j], from_at, ts[j], to_at)) is Ok {
            assert(conversion(d, fs[n - 1], from_at, ts[n - 1], to_at) is Ok);
            assert forall|j: int| 0 <= j < m implies (#[trigger] conversion(d, fs[j], from_at, ts[j], to_at)) is Ok by {
                assert(conversion(d, fs[j], from_at, ts[j], to_at) is Ok);
            }
        }
    }
}

/// A class converts to a specialization of its own generic class exactly
/// when each generic argument converts to the one at the same place of the
/// specialization, as far as both have arguments; and then the conversion
/// gives the specialization
pub proof fn lemma_specialization_checks_each_argument(
    d: Declarations,
    class: usize,
    specialized: bool,
    fs: Seq<TyView>,
    from_at: Span,
    ts: Seq<TyView>,
    to_at: Span,
)
    ensures
        ({
            let from = TyView::Class { class, specialized, generics: fs };
            let to = TyView::Class { class, specialized: true, generics: ts };
            &&& conversion(d, from, from_at, to, to_at) is Ok <==> forall|j: int|
                0 <= j < fs.len() && j < ts.len() ==> (#[trigger] conversion(d, fs[j], from_at, ts[j], to_at)) is Ok
            &&& conversion(d, from, from_at, to, to_at) is Ok ==> conversion(d, from, from_at, to, to_at) == Ok::<TyView, Failure>(to)
        }),
{
    let n = if fs.len() <= ts.len() { fs.len() } else { ts.len() };
    lemma_arguments_convert_each(d, fs, from_at, ts, to_at, n);
}

/// Type shown in a diagnostic, with the range it stands at
#[derive(Debug)]
pub struct TypeWithSpan {
    pub ty: Ty,
    pub at: Span,
}

/// The type does not implement the functions of the trait
#[derive(Debug)]
pub struct NotImplemented {
    pub ty: Ty,
    pub tr: usize,
    pub unimplemented: Vec<usize>,
}

impl View for NotImplemented {
    type V = Failure;

    open spec fn view(&self) -> Failure {
        Failure::Unimplemented { ty: self.ty@, tr: self.tr, functions: self.unimplemented@ }
    }
}

/// Why a value could not be converted to another type
#[derive(Debug)]
pub enum NotConvertible {
    TypeMismatch { expected: TypeWithSpan, got: TypeWithSpan },
    NotImplemented(NotImplemented),
    ReferenceMutToImmutable { at: Span },
}

impl View for NotConvertible {
    type V = Failure;

    open spec fn view(&self) -> Failure {
        match self {
            NotConvertible::TypeMismatch { expected, got } => Failure::Mismatch {
                expected: expected.ty@,
                expected_at: expected.at,
                got: got.ty@,
                got_at: got.at,
            },
            NotConvertible::NotImplemented(n) => n@,
            NotConvertible::ReferenceMutToImmutable { at } => Failure::MutToImmutable { at: *at },
        }
    }
}

/// A result of a conversion as a mathematical value
pub open spec fn result_view(r: Result<Ty, NotConvertible>) -> Result<TyView, Failure> {
    match r {
        Ok(t) => Ok(t@),
        Err(e) => Err(e@),
    }
}

impl Declarations {
    /// The first implementation of the function `f` for the type `ty`
    pub fn find_implementation(&self, f: usize, ty: &Ty) -> (k: Option<usize>)
        ensures
            match k {
                Some(k) => implements_at(*self, k as int, f, ty@),
                None => !implemented(*self, f, ty@),
            },
            match k {
                Some(k) => first_implementation(*self, f, ty@, 0) == Some(k as int),
                None => first_implementation(*self, f, ty@, 0) is None,
            },
    {
        let mut k: usize = 0;
        while k < self.implementations.len()
            invariant
                k <= self.implementations@.len(),
                forall|j: int| 0 <= j < k ==> !#[trigger] implements_at(*self, j, f, ty@),
                first_implementation(*self, f, ty@, 0) == first_implementation(*self, f, ty@, k as int),
            decreases self.implementations@.len() - k,
        {
            if self.implementations[k].function == f && self.implementations[k].for_type.same_as(ty) {
                return Some(k);
            }
            k = k + 1;
        }
        None
    }
}

/// Check that a class implements a trait
pub struct ImplementsCheck {
    pub ty: Ty,
    pub tr: usize,
}

impl ImplementsCheck {
    /// Does the class implement every function that the trait only
    /// declares? Else the ones it does not, in the trait's order
    pub fn within(&self, context: &Declarations) -> (r: Result<(), NotImplemented>)
        ensures
            match r {
                Ok(_) => implements_verdict(*context, self.ty@, self.tr) == Ok::<bool, Failure>(true),
                Err(e) => implements_verdict(*context, self.ty@, self.tr) == Err::<bool, Failure>(e@),
            },
    {
        let mut missing: Vec<usize> = Vec::new();
        if self.tr < context.traits.len() {
            let fs = &context.traits[self.tr].functions;
            let mut k: usize = 0;
            while k < fs.len()
                invariant
                    k <= fs@.len(),
                    *fs == context.traits@[self.tr as int].functions,
                    missing@ == unimplemented(*context, fs@.subrange(0, k as int), self.ty@),
                decreases fs@.len() - k,
            {
                let f = fs[k];
                proof {
                    assert(fs@.subrange(0, k + 1).drop_last() =~= fs@.subrange(0, k as int));
                }
                if !f.is_definition && context.find_implementation(f.function, &self.ty).is_none() {
                    missing.push(f.function);
                }
                k = k + 1;
            }
            assert(fs@.subrange(0, fs@.len() as int) =~= fs@);
        }
        if missing.len() == 0 {
            Ok(())
        } else {
            Err(NotImplemented { ty: self.ty.clone(), tr: self.tr, unimplemented: missing })
        }
    }
}

/// Request to convert a value of one type, standing at one range, to a
/// type declared at another
pub struct ConversionRequest {
    pub from: Ty,
    pub from_at: Span,
    pub to: Ty,
    pub to_at: Span,
}

impl ConversionRequest {
    /// Convert the type within the declarations: the target type without
    /// reference, or why it does not convert
    pub fn within(&self, context: &Declarations) -> (r: Result<Ty, NotConvertible>)
        ensures
            result_view(r) == conversion(*context, self.from@, self.from_at, self.to@, self.to_at),
    {
        convert_type(context, &self.from, self.from_at, &self.to, self.to_at)
    }
}

/// Does the class `ty` implement the trait `tr`?
fn implements_trait(d: &Declarations, ty: &Ty, tr: usize) -> (r: Result<bool, NotConvertible>)
    ensures
        match r {
            Ok(b) => implements_verdict(*d, ty@, tr) == Ok::<bool, Failure>(b),
            Err(e) => implements_verdict(*d, ty@, tr) == Err::<bool, Failure>(e@),
        },
{
    let check = ImplementsCheck { ty: ty.clone(), tr };
    match check.within(d) {
        Ok(_) => Ok(true),
        Err(e) => Err(NotConvertible::NotImplemented(e)),
    }
}

/// Conversion of a value of type `from` to type `to`
fn convert_type(d: &Declarations, from: &Ty, from_at: Span, to: &Ty, to_at: Span) -> (r: Result<Ty, NotConvertible>)
    ensures
        result_view(r) == conversion(*d, from@, from_at, to@, to_at),
    decreases size(from@) + size(to@), 0nat,
{
    let f = from.without_ref();
    let t = to.without_ref();
    proof {
        lemma_stripped_size(from@);
        lemma_stripped_size(to@);
    }
    let verdict: Result<bool, NotConvertible> = match (f, t) {
        (Ty::Trait(a), Ty::SelfType(b)) => Ok(*a == *b),
        (Ty::Class { .. }, Ty::SelfType(tr)) => implements_trait(d, f, *tr),
        (Ty::Class { .. }, Ty::Trait(tr)) => implements_trait(d, f, *tr),
        (_, Ty::Generic { constraint, .. }) => match constraint {
            Some(c) => {
                let target = Ty::Trait(*c);
                match convert_type(d, from, from_at, &target, to_at) {
                    Ok(_) => Ok(true),
                    Err(e) => Err(e),
                }
            },
            None => Ok(true),
        },
        (Ty::Generic { constraint: Some(c), .. }, _) => {
            let source = Ty::Trait(*c);
            match convert_type(d, &source, from_at, to, to_at) {
                Ok(_) => Ok(true),
                Err(e) => Err(e),
            }
        },
        (Ty::Class { class: a, generics: fg, .. }, Ty::Class { class: b, specialized: sp, generics: tg }) => {
            if *sp && *a == *b {
                let ghost fv = f@->generics;
                let ghost tv = t@->generics;
                let n = if fg.len() <= tg.len() {
                    fg.len()
                } else {
                    tg.len()
                };
                proof {
                    lemma_tys_view(fg@, fg@.len());
                    lemma_tys_view(tg@, tg@.len());
                }
                let mut ok = true;
                let mut k: usize = 0;
                while k < n
                    invariant
                        k <= n,
                        n <= fg@.len(),
                        n <= tg@.len(),
                        fv == tys_view(fg@, fg@.len()),
                        tv == tys_view(tg@, tg@.len()),
                        fv.len() == fg@.len(),
                        tv.len() == tg@.len(),
                        forall|j: int| 0 <= j < fg@.len() ==> #[trigger] fv[j] == fg@[j]@,
                        forall|j: int| 0 <= j < tg@.len() ==> #[trigger] tv[j] == tg@[j]@,
                        size(f@) == 1 + sizes(fv, fv.len()),
                        size(t@) == 1 + sizes(tv, tv.len()),
                        size(f@) <= size(from@),
                        size(t@) <= size(to@),
                        ok == arguments_convert(*d, fv, from_at, tv, to_at, k as nat),
                    decreases n - k,
                {
                    if ok {
                        proof {
                            lemma_sizes(fv, k as nat, fv.len());
                            lemma_sizes(tv, k as nat, tv.len());
                            assert(fv[k as int] == fg@[k as int]@);
                            assert(tv[k as int] == tg@[k as int]@);
                        }
                        let r = convert_type(d, &fg[k], from_at, &tg[k], to_at);
                        ok = r.is_ok();
                    }
                    k = k + 1;
                }
                Ok(ok)
            } else {
                Ok(f.same_as(t))
            }
        },
        _ => Ok(f.same_as(t)),
    };
    match verdict {
        Err(e) => Err(e),
        Ok(true) => Ok(t.clone()),
        Ok(false) => Err(
            NotConvertible::TypeMismatch {
                expected: TypeWithSpan { ty: to.clone(), at: to_at },
                got: TypeWithSpan { ty: from.clone(), at: from_at },
            },
        ),
    }
}

} // verus!
