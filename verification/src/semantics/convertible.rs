use vstd::prelude::*;

use crate::semantics::conversion::{
    Declarations, Failure, NotConvertible, NotImplemented, Span, Ty, TyView, TypeWithSpan,
    TraitFunction, first_implementation, stripped, supertraits, trait_functions, unimplemented,
};
use crate::semantics::call::{
    CallPart, CallSite, Candidate, CandidateNotViable, FnKind, NoFunction, call_arguments,
    failure_place, fits_shape, well_formed as call_well_formed,
};
use crate::semantics::generic_context::{
    ContextView, GenericContext, contexts_view, get_specialized, lemma_specialized_after_mapping,
    map_generic, mapped, owner, specialized, well_formed,
};

verus! {

/// Outcome of a check that may change the generic contexts: the verdict
/// and the contexts after. `None` where the check does not finish within
/// `fuel` steps, or meets a type that it cannot check.
pub type Outcome = Option<(Result<bool, Failure>, Seq<ContextView>)>;

/// The functions that implement the first `n` of `fs` for `ty`, in order:
/// a function the trait defines is its own; one it only declares, the
/// first implementation of it for `ty`, where there is one
pub open spec fn implementing(d: Declarations, fs: Seq<TraitFunction>, ty: TyView) -> Seq<usize>
    decreases fs.len(),
{
    if fs.len() == 0 {
        Seq::empty()
    } else {
        let rest = implementing(d, fs.drop_last(), ty);
        let f = fs.last();
        if f.is_definition {
            rest.push(f.function)
        } else {
            match first_implementation(d, f.function, ty, 0) {
                Some(k) => rest.push(d.implementations@[k].implementation),
                None => rest,
            }
        }
    }
}

/// Does the class `ty` implement the trait `tr` and each trait that `tr`
/// extends? The functions that implement them, those of the traits it
/// extends first; or the first trait whose functions it leaves
/// unimplemented, the traits it extends first.
pub open spec fn implements_all(d: Declarations, ty: TyView, tr: usize, fuel: nat) -> Option<Result<Seq<usize>, Failure>>
    decreases fuel, 0nat,
{
    if fuel == 0 {
        None
    } else {
        match supertraits_implemented(d, ty, supertraits(d, tr), supertraits(d, tr).len(), (fuel - 1) as nat) {
            None => None,
            Some(Err(e)) => Some(Err(e)),
            Some(Ok(before)) => {
                let u = unimplemented(d, trait_functions(d, tr), ty);
                if u.len() == 0 {
                    Some(Ok(before + implementing(d, trait_functions(d, tr), ty)))
                } else {
                    Some(Err(Failure::Unimplemented { ty, tr, functions: u }))
                }
            },
        }
    }
}

/// The class implements the first `k` traits of `ss`: their implementing
/// functions, in order; or the first failure
pub open spec fn supertraits_implemented(d: Declarations, ty: TyView, ss: Seq<usize>, k: nat, fuel: nat) -> Option<Result<Seq<usize>, Failure>>
    decreases fuel, k,
{
    if k == 0 || k > ss.len() {
        Some(Ok(Seq::empty()))
    } else {
        match supertraits_implemented(d, ty, ss, (k - 1) as nat, fuel) {
            None => None,
            Some(Err(e)) => Some(Err(e)),
            Some(Ok(before)) => match implements_all(d, ty, ss[k - 1], fuel) {
                None => None,
                Some(Err(e)) => Some(Err(e)),
                Some(Ok(fs)) => Some(Ok(before + fs)),
            },
        }
    }
}

/// A verdict of `true` for a trait check that passed, or its failure
pub open spec fn verdict(r: Result<Seq<usize>, Failure>) -> Result<bool, Failure> {
    match r {
        Ok(_) => Ok(true),
        Err(e) => Err(e),
    }
}

/// Is a value of type `from` convertible to type `to`, within the generic
/// contexts `cs`? Each type is first taken without reference and as what
/// it stands for where it is a mapped generic parameter. A class converts
/// to itself, to a specialization of its generic class whose arguments each
/// take its own, to a trait or a `Self` it implements, and to a generic
/// parameter whose constraint it meets, which then stands for the class;
/// a trait to itself, to a trait it extends, and to a generic parameter
/// whose constraint it meets; a generic parameter as its constraint; `Self`
/// as its trait; anything to a type not inferred yet.
pub open spec fn convertible(d: Declarations, cs: Seq<ContextView>, from: TyView, to: TyView, fuel: nat) -> Outcome
    decreases fuel, 0nat,
{
    if fuel == 0 {
        None
    } else {
        let f = stripped(from);
        let t = stripped(to);
        match specialized(cs, f) {
            Some(s) => convertible(d, cs, s, t, (fuel - 1) as nat),
            None => match specialized(cs, t) {
                Some(s) => convertible(d, cs, f, s, (fuel - 1) as nat),
                None => match f {
                    TyView::Class { .. } => class_convertible(d, cs, f, t, (fuel - 1) as nat),
                    TyView::Trait(tr) => trait_convertible(d, cs, tr, t, (fuel - 1) as nat),
                    TyView::Generic { constraint, .. } => generic_convertible(d, cs, f, constraint, t, (fuel - 1) as nat),
                    TyView::SelfType(tr) => convertible(d, cs, TyView::Trait(tr), t, (fuel - 1) as nat),
                    TyView::Function(_) => match t {
                        TyView::Unknown => Some((Ok(true), cs)),
                        TyView::Function(_) => None,
                        TyView::Reference { .. } => None,
                        _ => Some((Ok(false), cs)),
                    },
                    _ => None,
                },
            },
        }
    }
}

/// Conversion of the class `f`
pub open spec fn class_convertible(d: Declarations, cs: Seq<ContextView>, f: TyView, t: TyView, fuel: nat) -> Outcome
    decreases fuel, 0nat,
{
    if fuel == 0 {
        None
    } else {
        let fuel = (fuel - 1) as nat;
        match t {
        TyView::Class { class, specialized: s, generics } => if s && f->Class_class == class {
            match arguments_convertible(d, cs, f->Class_generics, generics, min_len(f->Class_generics, generics), fuel) {
                None => None,
                Some((ok, after)) => Some((Ok(ok), after)),
            }
        } else {
            Some((Ok(f == t), cs))
        },
        TyView::Trait(tr) => match implements_all(d, f, tr, fuel) {
            None => None,
            Some(r) => Some((verdict(r), cs)),
        },
        TyView::SelfType(tr) => match implements_all(d, f, tr, fuel) {
            None => None,
            Some(Err(e)) => Some((Err(e), cs)),
            Some(Ok(_)) => Some((Ok(true), mapped(cs, t, f).0)),
        },
        TyView::Generic { constraint, .. } => match constraint {
            Some(c) => match convertible(d, cs, f, TyView::Trait(c), fuel) {
                None => None,
                Some((Err(e), after)) => Some((Err(e), after)),
                Some((Ok(false), after)) => Some((Ok(false), after)),
                Some((Ok(true), after)) => Some((Ok(true), mapped(after, t, f).0)),
            },
            None => Some((Ok(true), mapped(cs, t, f).0)),
        },
        TyView::Function(_) => Some((Ok(false), cs)),
        TyView::Unknown => Some((Ok(true), cs)),
        TyView::Reference { .. } => None,
        }
    }
}

/// The shorter of two lengths
pub open spec fn min_len(a: Seq<TyView>, b: Seq<TyView>) -> nat {
    if a.len() <= b.len() {
        a.len()
    } else {
        b.len()
    }
}

/// Each of the first `k` generic arguments converts, in order, the contexts
/// changing as they go; the first that does not, or fails, stops the rest
pub open spec fn arguments_convertible(
    d: Declarations,
    cs: Seq<ContextView>,
    fs: Seq<TyView>,
    ts: Seq<TyView>,
    k: nat,
    fuel: nat,
) -> Option<(bool, Seq<ContextView>)>
    decreases fuel, k,
{
    if k == 0 || k > fs.len() || k > ts.len() {
        Some((true, cs))
    } else {
        match arguments_convertible(d, cs, fs, ts, (k - 1) as nat, fuel) {
            None => None,
            Some((false, after)) => Some((false, after)),
            Some((true, after)) => match convertible(d, after, fs[k - 1], ts[k - 1], fuel) {
                None => None,
                Some((r, next)) => Some((r == Ok::<bool, Failure>(true), next)),
            },
        }
    }
}

/// Conversion of the trait `tr`
pub open spec fn trait_convertible(d: Declarations, cs: Seq<ContextView>, tr: usize, t: TyView, fuel: nat) -> Outcome
    decreases fuel, 0nat,
{
    if fuel == 0 {
        None
    } else {
        let fuel = (fuel - 1) as nat;
        match t {
        TyView::Unknown => Some((Ok(true), cs)),
        TyView::Class { .. } => Some((Ok(false), cs)),
        TyView::Function(_) => Some((Ok(false), cs)),
        TyView::Generic { constraint, .. } => match constraint {
            Some(c) => convertible(d, cs, TyView::Trait(tr), TyView::Trait(c), fuel),
            None => Some((Ok(true), cs)),
        },
        TyView::Trait(other) => if tr == other {
            Some((Ok(true), cs))
        } else if supertraits(d, tr).len() == 0 {
            Some((Ok(false), cs))
        } else {
            match supertraits_convertible(d, cs, supertraits(d, tr), other, supertraits(d, tr).len(), fuel) {
                None => None,
                Some((results, after)) => if results.contains(Ok::<bool, Failure>(true)) {
                    Some((Ok(true), after))
                } else {
                    Some((results[0], after))
                },
            }
        },
        TyView::SelfType(other) => convertible(d, cs, TyView::Trait(tr), TyView::Trait(other), fuel),
        TyView::Reference { .. } => None,
        }
    }
}

/// Whether each of the first `k` traits of `ss` converts to the trait
/// `other`, in order, the contexts changing as they go
pub open spec fn supertraits_convertible(
    d: Declarations,
    cs: Seq<ContextView>,
    ss: Seq<usize>,
    other: usize,
    k: nat,
    fuel: nat,
) -> Option<(Seq<Result<bool, Failure>>, Seq<ContextView>)>
    decreases fuel, k,
{
    if k == 0 || k > ss.len() {
        Some((Seq::empty(), cs))
    } else {
        match supertraits_convertible(d, cs, ss, other, (k - 1) as nat, fuel) {
            None => None,
            Some((results, after)) => match convertible(d, after, TyView::Trait(ss[k - 1]), TyView::Trait(other), fuel) {
                None => None,
                Some((r, next)) => Some((results.push(r), next)),
            },
        }
    }
}

/// Conversion of the generic parameter `f`, constrained by `constraint`
pub open spec fn generic_convertible(
    d: Declarations,
    cs: Seq<ContextView>,
    f: TyView,
    constraint: Option<usize>,
    t: TyView,
    fuel: nat,
) -> Outcome
    decreases fuel, 0nat,
{
    if fuel == 0 {
        None
    } else {
        let fuel = (fuel - 1) as nat;
        match t {
        TyView::Unknown => Some((Ok(true), cs)),
        TyView::Class { .. } => Some((Ok(false), cs)),
        TyView::Function(_) => Some((Ok(false), cs)),
        TyView::SelfType(tr) => generic_to_trait(d, cs, f, constraint, tr, fuel),
        TyView::Trait(tr) => generic_to_trait(d, cs, f, constraint, tr, fuel),
        TyView::Generic { constraint: other, .. } => match constraint {
            Some(c) => convertible(d, cs, TyView::Trait(c), t, fuel),
            None => Some((Ok(other is None), cs)),
        },
        TyView::Reference { .. } => None,
        }
    }
}

/// A generic parameter converts to a trait as its constraint does; an
/// unconstrained one implements nothing
pub open spec fn generic_to_trait(
    d: Declarations,
    cs: Seq<ContextView>,
    f: TyView,
    constraint: Option<usize>,
    tr: usize,
    fuel: nat,
) -> Outcome
    decreases fuel, 0nat,
{
    if fuel == 0 {
        None
    } else {
        match constraint {
            Some(c) => convertible(d, cs, TyView::Trait(c), TyView::Trait(tr), (fuel - 1) as nat),
            None => Some((Err(Failure::Unimplemented { ty: f, tr, functions: Seq::empty() }), cs)),
        }
    }
}

/// A verdict as a mathematical value
pub open spec fn verdict_view(r: Result<bool, NotConvertible>) -> Result<bool, Failure> {
    match r {
        Ok(b) => Ok(b),
        Err(e) => Err(e@),
    }
}

/// Every context has a place in its mapping for each of its parameters
pub open spec fn all_well_formed(cs: Seq<GenericContext>) -> bool {
    forall|j: int| 0 <= j < cs.len() ==> well_formed(#[trigger] cs[j]@)
}

/// A finished fold over traits finished each of its steps
pub proof fn lemma_supertraits_implemented_prefix(d: Declarations, ty: TyView, ss: Seq<usize>, k: nat, n: nat, fuel: nat)
    requires
        k <= n <= ss.len(),
        supertraits_implemented(d, ty, ss, n, fuel) is Some,
    ensures
        supertraits_implemented(d, ty, ss, k, fuel) is Some,
        supertraits_implemented(d, ty, ss, k, fuel) matches Some(Err(e)) ==> supertraits_implemented(d, ty, ss, n, fuel) == Some(Err::<Seq<usize>, Failure>(e)),
    decreases n,
{
    if k < n {
        lemma_supertraits_implemented_prefix(d, ty, ss, k, (n - 1) as nat, fuel);
    }
}

/// A finished fold over arguments finished each of its steps, and once an
/// argument does not convert, the fold stays as it is
pub proof fn lemma_arguments_prefix(d: Declarations, cs: Seq<ContextView>, fs: Seq<TyView>, ts: Seq<TyView>, k: nat, n: nat, fuel: nat)
    requires
        k <= n <= fs.len(),
        n <= ts.len(),
        arguments_convertible(d, cs, fs, ts, n, fuel) is Some,
    ensures
        arguments_convertible(d, cs, fs, ts, k, fuel) is Some,
        arguments_convertible(d, cs, fs, ts, k, fuel) matches Some((false, after)) ==> arguments_convertible(d, cs, fs, ts, n, fuel) == Some((false, after)),
    decreases n,
{
    if k < n {
        lemma_arguments_prefix(d, cs, fs, ts, k, (n - 1) as nat, fuel);
    }
}

/// A finished fold over supertraits finished each of its steps
pub proof fn lemma_supertraits_convertible_prefix(d: Declarations, cs: Seq<ContextView>, ss: Seq<usize>, other: usize, k: nat, n: nat, fuel: nat)
    requires
        k <= n <= ss.len(),
        supertraits_convertible(d, cs, ss, other, n, fuel) is Some,
    ensures
        supertraits_convertible(d, cs, ss, other, k, fuel) is Some,
        supertraits_convertible(d, cs, ss, other, k, fuel)->Some_0.0.len() == k,
    decreases n,
{
    if k < n {
        lemma_supertraits_convertible_prefix(d, cs, ss, other, k, (n - 1) as nat, fuel);
    } else if k > 0 {
        lemma_supertraits_convertible_prefix(d, cs, ss, other, (k - 1) as nat, (n - 1) as nat, fuel);
    }
}

/// Does the class `ty` implement the trait `tr` and the traits it extends?
fn implements_all_exec(d: &Declarations, ty: &Ty, tr: usize, Ghost(fuel): Ghost<nat>) -> (r: Result<Vec<usize>, NotImplemented>)
    requires
        implements_all(*d, ty@, tr, fuel) is Some,
    ensures
        implements_all(*d, ty@, tr, fuel) == Some(
            match r {
                Ok(fs) => Ok::<Seq<usize>, Failure>(fs@),
                Err(e) => Err::<Seq<usize>, Failure>(e@),
            },
        ),
    decreases fuel, 0nat,
{
    let ghost f1 = (fuel - 1) as nat;
    let ghost ss = supertraits(*d, tr);
    let n = if tr < d.traits.len() {
        d.traits[tr].supertraits.len()
    } else {
        0
    };
    let mut found: Vec<usize> = Vec::new();
    let mut k: usize = 0;
    while k < n
        invariant
            k <= n,
            n == ss.len(),
            fuel > 0,
            f1 == fuel - 1,
            ss == supertraits(*d, tr),
            supertraits_implemented(*d, ty@, ss, n as nat, f1) is Some,
            supertraits_implemented(*d, ty@, ss, k as nat, f1) == Some(Ok::<Seq<usize>, Failure>(found@)),
        decreases n - k,
    {
        let s = d.traits[tr].supertraits[k];
        proof {
            lemma_supertraits_implemented_prefix(*d, ty@, ss, (k + 1) as nat, n as nat, f1);
        }
        match implements_all_exec(d, ty, s, Ghost(f1)) {
            Err(e) => {
                proof {
                    lemma_supertraits_implemented_prefix(*d, ty@, ss, (k + 1) as nat, n as nat, f1);
                }
                return Err(e);
            },
            Ok(fs) => {
                let ghost before = found@;
                let mut i: usize = 0;
                while i < fs.len()
                    invariant
                        i <= fs@.len(),
                        found@ == before + fs@.subrange(0, i as int),
                    decreases fs@.len() - i,
                {
                    found.push(fs[i]);
                    i = i + 1;
                    assert(found@ =~= before + fs@.subrange(0, i as int));
                }
                assert(fs@.subrange(0, fs@.len() as int) =~= fs@);
            },
        }
        k = k + 1;
    }
    let ghost fs0 = trait_functions(*d, tr);
    let ghost before = found@;
    let mut missing: Vec<usize> = Vec::new();
    if tr < d.traits.len() {
        let fs = &d.traits[tr].functions;
        let mut i: usize = 0;
        assert(before + implementing(*d, fs@.subrange(0, 0), ty@) =~= before);
        while i < fs.len()
            invariant
                i <= fs@.len(),
                *fs == d.traits@[tr as int].functions,
                fs0 == fs@,
                missing@ == unimplemented(*d, fs@.subrange(0, i as int), ty@),
                found@ == before + implementing(*d, fs@.subrange(0, i as int), ty@),
            decreases fs@.len() - i,
        {
            let f = fs[i];
            proof {
                assert(fs@.subrange(0, i + 1).drop_last() =~= fs@.subrange(0, i as int));
            }
            if f.is_definition {
                found.push(f.function);
            } else {
                match d.find_implementation(f.function, ty) {
                    Some(j) => {
                        found.push(d.implementations[j].implementation);
                    },
                    None => {
                        missing.push(f.function);
                    },
                }
            }
            proof {
                assert(found@ =~= before + implementing(*d, fs@.subrange(0, i + 1), ty@));
            }
            i = i + 1;
        }
        assert(fs@.subrange(0, fs@.len() as int) =~= fs@);
    } else {
        assert(fs0 =~= Seq::<TraitFunction>::empty());
        assert(found@ =~= before + implementing(*d, fs0, ty@));
    }
    if missing.len() == 0 {
        Ok(found)
    } else {
        Err(NotImplemented { ty: ty.clone(), tr, unimplemented: missing })
    }
}

/// Check that a class implements a trait and the traits it extends
#[derive(Debug)]
pub struct ClassImplementsCheck {
    pub ty: Ty,
    pub tr: usize,
}

impl ClassImplementsCheck {
    /// The functions that implement the traits that it extends, in order,
    /// and then those of the trait: a function the trait defines is its
    /// own, one it only declares is the first implementation of it for the
    /// class. The first trait, those it extends first, whose functions the
    /// class leaves unimplemented is reported with them, in the trait's
    /// order.
    pub fn within(&self, declarations: &Declarations) -> (r: Result<Vec<usize>, NotImplemented>)
        requires
            exists|fuel: nat| (#[trigger] implements_all(*declarations, self.ty@, self.tr, fuel)) is Some,
        ensures
            implements_all(
                *declarations,
                self.ty@,
                self.tr,
                choose|fuel: nat| (#[trigger] implements_all(*declarations, self.ty@, self.tr, fuel)) is Some,
            ) == Some(
                match r {
                    Ok(fs) => Ok::<Seq<usize>, Failure>(fs@),
                    Err(e) => Err::<Seq<usize>, Failure>(e@),
                },
            ),
    {
        let ghost fuel = choose|fuel: nat| (#[trigger] implements_all(*declarations, self.ty@, self.tr, fuel)) is Some;
        implements_all_exec(declarations, &self.ty, self.tr, Ghost(fuel))
    }
}

/// Is a value of type `from` convertible to type `to` within the generic
/// contexts?
fn convertible_exec(d: &Declarations, contexts: &mut Vec<GenericContext>, from: &Ty, to: &Ty, Ghost(fuel): Ghost<nat>) -> (r: Result<bool, NotConvertible>)
    requires
        convertible(*d, contexts_view(old(contexts)@), from@, to@, fuel) is Some,
        all_well_formed(old(contexts)@),
    ensures
        convertible(*d, contexts_view(old(contexts)@), from@, to@, fuel) == Some(
            (verdict_view(r), contexts_view(final(contexts)@)),
        ),
        all_well_formed(final(contexts)@),
        final(contexts)@.len() == old(contexts)@.len(),
    decreases fuel, 0nat,
{
    let ghost f1 = (fuel - 1) as nat;
    let f = from.without_ref();
    let t = to.without_ref();
    match get_specialized(contexts, f) {
        Some(s) => {
            return convertible_exec(d, contexts, &s, t, Ghost(f1));
        },
        None => {},
    }
    match get_specialized(contexts, t) {
        Some(s) => {
            return convertible_exec(d, contexts, f, &s, Ghost(f1));
        },
        None => {},
    }
    match f {
        Ty::Class { .. } => class_exec(d, contexts, f, t, Ghost(f1)),
        Ty::Trait(tr) => trait_exec(d, contexts, *tr, t, Ghost(f1)),
        Ty::Generic { constraint, .. } => generic_exec(d, contexts, f, *constraint, t, Ghost(f1)),
        Ty::SelfType(tr) => {
            let tt = Ty::Trait(*tr);
            convertible_exec(d, contexts, &tt, t, Ghost(f1))
        },
        Ty::Function(_) => match t {
            Ty::Unknown => Ok(true),
            Ty::Function(_) => {
                proof {
                    assert(false);
                }
                Ok(false)
            },
            Ty::Reference { .. } => {
                proof {
                    assert(false);
                }
                Ok(false)
            },
            _ => Ok(false),
        },
        _ => {
            proof {
                assert(false);
            }
            Ok(false)
        },
    }
}

/// Conversion of a class
fn class_exec(d: &Declarations, contexts: &mut Vec<GenericContext>, f: &Ty, t: &Ty, Ghost(fuel): Ghost<nat>) -> (r: Result<bool, NotConvertible>)
    requires
        f@ is Class,
        class_convertible(*d, contexts_view(old(contexts)@), f@, t@, fuel) is Some,
        all_well_formed(old(contexts)@),
    ensures
        class_convertible(*d, contexts_view(old(contexts)@), f@, t@, fuel) == Some(
            (verdict_view(r), contexts_view(final(contexts)@)),
        ),
        all_well_formed(final(contexts)@),
        final(contexts)@.len() == old(contexts)@.len(),
    decreases fuel, 0nat,
{
    let ghost f1 = (fuel - 1) as nat;
    let ghost cs0 = contexts_view(contexts@);
    match t {
        Ty::Class { class, specialized: s, generics: tg } => {
            let (c, fg) = match f {
                Ty::Class { class: c, generics: fg, .. } => (*c, fg),
                _ => {
                    proof {
                        assert(false);
                    }
                    return Ok(false);
                },
            };
            if *s && c == *class {
                let ghost fv = f@->Class_generics;
                let ghost tv = t@->Class_generics;
                proof {
                    crate::semantics::conversion::lemma_tys_view(fg@, fg@.len());
                    crate::semantics::conversion::lemma_tys_view(tg@, tg@.len());
                }
                let n = if fg.len() <= tg.len() {
                    fg.len()
                } else {
                    tg.len()
                };
                let mut ok = true;
                let mut k: usize = 0;
                while k < n
                    invariant
                        k <= n,
                        n <= fg@.len(),
                        n <= tg@.len(),
                        n == min_len(fv, tv),
                        fv.len() == fg@.len(),
                        tv.len() == tg@.len(),
                        forall|j: int| 0 <= j < fg@.len() ==> #[trigger] fv[j] == fg@[j]@,
                        forall|j: int| 0 <= j < tg@.len() ==> #[trigger] tv[j] == tg@[j]@,
                        fuel > 0,
                        f1 == fuel - 1,
                        arguments_convertible(*d, cs0, fv, tv, n as nat, f1) is Some,
                        arguments_convertible(*d, cs0, fv, tv, k as nat, f1) == Some((ok, contexts_view(contexts@))),
                        all_well_formed(contexts@),
                        contexts@.len() == old(contexts)@.len(),
                    decreases n - k,
                {
                    proof {
                        lemma_arguments_prefix(*d, cs0, fv, tv, (k + 1) as nat, n as nat, f1);
                        assert(fv[k as int] == fg@[k as int]@);
                        assert(tv[k as int] == tg@[k as int]@);
                    }
                    if ok {
                        let r = convertible_exec(d, contexts, &fg[k], &tg[k], Ghost(f1));
                        ok = match r {
                            Ok(b) => b,
                            Err(_) => false,
                        };
                    }
                    k = k + 1;
                }
                Ok(ok)
            } else {
                Ok(f.same_as(t))
            }
        },
        Ty::Trait(tr) => match implements_all_exec(d, f, *tr, Ghost(f1)) {
            Ok(_) => Ok(true),
            Err(e) => Err(NotConvertible::NotImplemented(e)),
        },
        Ty::SelfType(tr) => match implements_all_exec(d, f, *tr, Ghost(f1)) {
            Ok(_) => {
                map_generic(contexts, t, f.clone());
                Ok(true)
            },
            Err(e) => Err(NotConvertible::NotImplemented(e)),
        },
        Ty::Generic { constraint, .. } => match constraint {
            Some(c) => {
                let tt = Ty::Trait(*c);
                match convertible_exec(d, contexts, f, &tt, Ghost(f1)) {
                    Err(e) => Err(e),
                    Ok(false) => Ok(false),
                    Ok(true) => {
                        map_generic(contexts, t, f.clone());
                        Ok(true)
                    },
                }
            },
            None => {
                map_generic(contexts, t, f.clone());
                Ok(true)
            },
        },
        Ty::Function(_) => Ok(false),
        Ty::Unknown => Ok(true),
        Ty::Reference { .. } => {
            proof {
                assert(false);
            }
            Ok(false)
        },
    }
}

/// Conversion of a trait
#[verifier::loop_isolation(false)]
fn trait_exec(d: &Declarations, contexts: &mut Vec<GenericContext>, tr: usize, t: &Ty, Ghost(fuel): Ghost<nat>) -> (r: Result<bool, NotConvertible>)
    requires
        trait_convertible(*d, contexts_view(old(contexts)@), tr, t@, fuel) is Some,
        all_well_formed(old(contexts)@),
    ensures
        trait_convertible(*d, contexts_view(old(contexts)@), tr, t@, fuel) == Some(
            (verdict_view(r), contexts_view(final(contexts)@)),
        ),
        all_well_formed(final(contexts)@),
        final(contexts)@.len() == old(contexts)@.len(),
    decreases fuel, 0nat,
{
    let ghost f1 = (fuel - 1) as nat;
    let ghost cs0 = contexts_view(contexts@);
    match t {
        Ty::Unknown => Ok(true),
        Ty::Class { .. } => Ok(false),
        Ty::Function(_) => Ok(false),
        Ty::Generic { constraint, .. } => match constraint {
            Some(c) => {
                let a = Ty::Trait(tr);
                let b = Ty::Trait(*c);
                convertible_exec(d, contexts, &a, &b, Ghost(f1))
            },
            None => Ok(true),
        },
        Ty::Trait(other) => {
            if tr == *other {
                return Ok(true);
            }
            let n = if tr < d.traits.len() {
                d.traits[tr].supertraits.len()
            } else {
                0
            };
            if n == 0 {
                return Ok(false);
            }
            let ghost ss = supertraits(*d, tr);
            let mut results: Vec<Result<bool, NotConvertible>> = Vec::new();
            let mut k: usize = 0;
            proof {
                assert(results@.map_values(|r: Result<bool, NotConvertible>| verdict_view(r)) =~= Seq::empty());
            }
            while k < n
                invariant
                    k <= n,
                    0 < n,
                    results@.len() == k,
                    n == ss.len(),
                    ss == supertraits(*d, tr),
                    tr < d.traits@.len(),
                    fuel > 0,
                    f1 == fuel - 1,
                    supertraits_convertible(*d, cs0, ss, *other, n as nat, f1) is Some,
                    supertraits_convertible(*d, cs0, ss, *other, k as nat, f1) == Some((
                        results@.map_values(|r: Result<bool, NotConvertible>| verdict_view(r)),
                        contexts_view(contexts@),
                    )),
                    all_well_formed(contexts@),
                    contexts@.len() == old(contexts)@.len(),
                decreases n - k,
            {
                proof {
                    lemma_supertraits_convertible_prefix(*d, cs0, ss, *other, (k + 1) as nat, n as nat, f1);
                }
                let a = Ty::Trait(d.traits[tr].supertraits[k]);
                let b = Ty::Trait(*other);
                let r = convertible_exec(d, contexts, &a, &b, Ghost(f1));
                results.push(r);
                proof {
                    assert(results@.map_values(|r: Result<bool, NotConvertible>| verdict_view(r)) =~= supertraits_convertible(
                        *d,
                        cs0,
                        ss,
                        *other,
                        k as nat,
                        f1,
                    )->Some_0.0.push(verdict_view(results@.last())));
                }
                k = k + 1;
            }
            let ghost views = results@.map_values(|r: Result<bool, NotConvertible>| verdict_view(r));
            let mut j: usize = 0;
            while j < results.len()
                invariant
                    j <= results@.len(),
                    views == results@.map_values(|r: Result<bool, NotConvertible>| verdict_view(r)),
                    forall|i: int| 0 <= i < j ==> views[i] != Ok::<bool, Failure>(true),
                decreases results@.len() - j,
            {
                if matches!(results[j], Ok(true)) {
                    proof {
                        assert(views[j as int] == Ok::<bool, Failure>(true));
                        assert(views.contains(Ok::<bool, Failure>(true)));
                    }
                    return Ok(true);
                }
                j = j + 1;
            }
            proof {
                assert(!views.contains(Ok::<bool, Failure>(true))) by {
                    if views.contains(Ok::<bool, Failure>(true)) {
                        let i = choose|i: int| 0 <= i < views.len() && views[i] == Ok::<bool, Failure>(true);
                        assert(views[i] != Ok::<bool, Failure>(true));
                    }
                }
                assert(results@.len() > 0);
            }
            results.remove(0)
        },
        Ty::SelfType(other) => {
            let a = Ty::Trait(tr);
            let b = Ty::Trait(*other);
            convertible_exec(d, contexts, &a, &b, Ghost(f1))
        },
        Ty::Reference { .. } => {
            proof {
                assert(false);
            }
            Ok(false)
        },
    }
}

/// Conversion of a generic parameter
fn generic_exec(
    d: &Declarations,
    contexts: &mut Vec<GenericContext>,
    f: &Ty,
    constraint: Option<usize>,
    t: &Ty,
    Ghost(fuel): Ghost<nat>,
) -> (r: Result<bool, NotConvertible>)
    requires
        generic_convertible(*d, contexts_view(old(contexts)@), f@, constraint, t@, fuel) is Some,
        all_well_formed(old(contexts)@),
    ensures
        generic_convertible(*d, contexts_view(old(contexts)@), f@, constraint, t@, fuel) == Some(
            (verdict_view(r), contexts_view(final(contexts)@)),
        ),
        all_well_formed(final(contexts)@),
        final(contexts)@.len() == old(contexts)@.len(),
    decreases fuel, 0nat,
{
    let ghost f1 = (fuel - 1) as nat;
    match t {
        Ty::Unknown => Ok(true),
        Ty::Class { .. } => Ok(false),
        Ty::Function(_) => Ok(false),
        Ty::SelfType(tr) => generic_to_trait_exec(d, contexts, f, constraint, *tr, Ghost(f1)),
        Ty::Trait(tr) => generic_to_trait_exec(d, contexts, f, constraint, *tr, Ghost(f1)),
        Ty::Generic { constraint: other, .. } => match constraint {
            Some(c) => {
                let a = Ty::Trait(c);
                convertible_exec(d, contexts, &a, t, Ghost(f1))
            },
            None => Ok(other.is_none()),
        },
        Ty::Reference { .. } => {
            proof {
                assert(false);
            }
            Ok(false)
        },
    }
}

/// Conversion of a generic parameter to a trait
fn generic_to_trait_exec(
    d: &Declarations,
    contexts: &mut Vec<GenericContext>,
    f: &Ty,
    constraint: Option<usize>,
    tr: usize,
    Ghost(fuel): Ghost<nat>,
) -> (r: Result<bool, NotConvertible>)
    requires
        generic_to_trait(*d, contexts_view(old(contexts)@), f@, constraint, tr, fuel) is Some,
        all_well_formed(old(contexts)@),
    ensures
        generic_to_trait(*d, contexts_view(old(contexts)@), f@, constraint, tr, fuel) == Some(
            (verdict_view(r), contexts_view(final(contexts)@)),
        ),
        all_well_formed(final(contexts)@),
        final(contexts)@.len() == old(contexts)@.len(),
    decreases fuel, 0nat,
{
    match constraint {
        Some(c) => {
            let a = Ty::Trait(c);
            let b = Ty::Trait(tr);
            convertible_exec(d, contexts, &a, &b, Ghost((fuel - 1) as nat))
        },
        None => {
            let e = NotImplemented { ty: f.clone(), tr, unimplemented: Vec::new() };
            assert(e.unimplemented@ =~= Seq::empty());
            Err(NotConvertible::NotImplemented(e))
        },
    }
}

/// The check of `from` against `to` finishes: it meets no type it cannot
/// check and no cycle of generic parameters that stand for each other
pub open spec fn finishes(d: Declarations, cs: Seq<ContextView>, from: TyView, to: TyView) -> bool {
    exists|fuel: nat| (#[trigger] convertible(d, cs, from, to, fuel)) is Some
}

/// The outcome of a check that finishes
pub open spec fn convertible_outcome(d: Declarations, cs: Seq<ContextView>, from: TyView, to: TyView) -> Outcome {
    convertible(d, cs, from, to, choose|fuel: nat| (#[trigger] convertible(d, cs, from, to, fuel)) is Some)
}

/// Request to check whether one type converts to another
#[derive(Debug)]
pub struct ConvertibleToRequest {
    pub from: Ty,
    pub to: Ty,
}

impl ConvertibleToRequest {
    /// Check within the generic contexts, innermost last, whether the type
    /// converts; generic parameters that the check binds stand, after it,
    /// for the classes they were bound to
    pub fn within(&self, contexts: &mut Vec<GenericContext>, declarations: &Declarations) -> (r: Result<bool, NotConvertible>)
        requires
            all_well_formed(old(contexts)@),
            finishes(*declarations, contexts_view(old(contexts)@), self.from@, self.to@),
        ensures
            convertible_outcome(*declarations, contexts_view(old(contexts)@), self.from@, self.to@) == Some(
                (verdict_view(r), contexts_view(final(contexts)@)),
            ),
            all_well_formed(final(contexts)@),
            final(contexts)@.len() == old(contexts)@.len(),
    {
        let ghost fuel = choose|fuel: nat| (#[trigger] convertible(*declarations, contexts_view(contexts@), self.from@, self.to@, fuel)) is Some;
        convertible_exec(declarations, contexts, &self.from, &self.to, Ghost(fuel))
    }
}

/// A value of the typed tree, as conversion reads it: its type, its range,
/// and whether it may change
#[derive(Debug)]
pub struct Value {
    pub ty: Ty,
    pub at: Span,
    pub mutable: bool,
}

/// What a conversion does to the value
#[derive(Debug, Clone, Copy, PartialEq, Eq, Structural)]
pub enum Adjustment {
    /// Hand the value on as it is
    AsIs,
    /// Copy the value where its type asks for it
    CloneIfNeeded,
    /// Read the value behind the reference
    Dereference,
    /// Take a reference to the value
    Reference,
    /// Take a mutable reference to the value
    ReferenceMut,
}

/// A type is a reference
pub open spec fn is_reference(t: TyView) -> bool {
    t is Reference
}

/// A type is a mutable reference
pub open spec fn is_mutable(t: TyView) -> bool {
    t matches TyView::Reference { mutable: true, .. }
}

/// Conversion of a value to the type `to` declared at `to_at`, given the
/// verdict of the check: the verdict's failure; a mismatch where the types
/// do not convert; a value that may not change handed to a mutable
/// reference; otherwise the value as it is where both or neither are
/// references, read through the reference, or referred to
pub open spec fn adjustment(v: Value, to: TyView, to_at: Span, verdict: Result<bool, Failure>) -> Result<Adjustment, Failure> {
    match verdict {
        Err(e) => Err(e),
        Ok(false) => Err(Failure::Mismatch { expected: to, expected_at: to_at, got: v.ty@, got_at: v.at }),
        Ok(true) => if !v.mutable && is_mutable(to) {
            Err(Failure::MutToImmutable { at: v.at })
        } else if is_reference(v.ty@) && is_reference(to) {
            Ok(Adjustment::AsIs)
        } else if !is_reference(v.ty@) && !is_reference(to) {
            Ok(Adjustment::CloneIfNeeded)
        } else if is_reference(v.ty@) {
            Ok(Adjustment::Dereference)
        } else if !is_mutable(to) {
            Ok(Adjustment::Reference)
        } else {
            Ok(Adjustment::ReferenceMut)
        },
    }
}

/// A result of a conversion as a mathematical value
pub open spec fn adjustment_view(r: Result<Adjustment, NotConvertible>) -> Result<Adjustment, Failure> {
    match r {
        Ok(a) => Ok(a),
        Err(e) => Err(e@),
    }
}

/// Request to convert a value to a type declared at a range
#[derive(Debug)]
pub struct ConversionRequest {
    pub from: Value,
    pub to: Ty,
    pub to_at: Span,
}

impl ConversionRequest {
    /// Convert the value within the generic contexts: what to do to it, or
    /// why it does not convert
    pub fn within(&self, contexts: &mut Vec<GenericContext>, declarations: &Declarations) -> (r: Result<Adjustment, NotConvertible>)
        requires
            all_well_formed(old(contexts)@),
            finishes(*declarations, contexts_view(old(contexts)@), self.from.ty@, self.to@),
        ensures
            convertible_outcome(*declarations, contexts_view(old(contexts)@), self.from.ty@, self.to@) matches Some(
                (verdict, after),
            ) && after == contexts_view(final(contexts)@) && adjustment_view(r) == adjustment(
                self.from,
                self.to@,
                self.to_at,
                verdict,
            ),
            all_well_formed(final(contexts)@),
            final(contexts)@.len() == old(contexts)@.len(),
    {
        let request = ConvertibleToRequest { from: self.from.ty.clone(), to: self.to.clone() };
        let convertible = match request.within(contexts, declarations) {
            Ok(b) => b,
            Err(e) => {
                return Err(e);
            },
        };
        if !convertible {
            return Err(
                NotConvertible::TypeMismatch {
                    got: TypeWithSpan { ty: self.from.ty.clone(), at: self.from.at },
                    expected: TypeWithSpan { ty: self.to.clone(), at: self.to_at },
                },
            );
        }
        let from_reference = matches!(self.from.ty, Ty::Reference { .. });
        let to_reference = matches!(self.to, Ty::Reference { .. });
        let to_mutable = matches!(self.to, Ty::Reference { mutable: true, .. });
        if !self.from.mutable && to_mutable {
            return Err(NotConvertible::ReferenceMutToImmutable { at: self.from.at });
        }
        if from_reference && to_reference {
            return Ok(Adjustment::AsIs);
        }
        if !from_reference && !to_reference {
            return Ok(Adjustment::CloneIfNeeded);
        }
        if from_reference {
            return Ok(Adjustment::Dereference);
        }
        if !to_mutable {
            Ok(Adjustment::Reference)
        } else {
            Ok(Adjustment::ReferenceMut)
        }
    }
}

/// A generic context that introduces the parameters and maps none of them
pub open spec fn fresh_context(ps: Seq<TyView>) -> ContextView {
    ContextView { parameters: ps, mapping: Seq::new(ps.len(), |i: int| None::<TyView>) }
}

/// A copy of the types
pub(crate) fn copy_types(ts: &Vec<Ty>) -> (r: Vec<Ty>)
    ensures
        r@.map_values(|t: Ty| t@) == ts@.map_values(|t: Ty| t@),
{
    let mut r: Vec<Ty> = Vec::new();
    let mut i: usize = 0;
    while i < ts.len()
        invariant
            i <= ts@.len(),
            r@.len() == i,
            forall|j: int| 0 <= j < i ==> #[trigger] r@[j]@ == ts@[j]@,
        decreases ts@.len() - i,
    {
        r.push(ts[i].clone());
        i = i + 1;
    }
    let ghost a = r@.map_values(|t: Ty| t@);
    let ghost b = ts@.map_values(|t: Ty| t@);
    assert(a =~= b) by {
        assert forall|j: int| 0 <= j < a.len() implies #[trigger] a[j] == b[j] by {
            assert(r@[j]@ == ts@[j]@);
        }
    }
    r
}

/// The value of the `n`-th part of a call
pub open spec fn part_value(parts: Seq<CallPart>, n: int) -> Value {
    Value { ty: parts[n].value->0.ty, at: parts[n].value->0.at, mutable: parts[n].value->0.mutable }
}

/// Trying the first `n` parts of a candidate, within its own generic
/// context on top of `cs`: for each parameter so far, its place and what
/// converting the argument does, or the first failure; and the contexts
/// after, the candidate's own on top. `None` where a check does not finish.
pub open spec fn trial_in(
    d: Declarations,
    cs: Seq<ContextView>,
    parts: Seq<CallPart>,
    c: Candidate,
    n: nat,
) -> Option<(Result<Seq<(usize, Adjustment)>, Failure>, Seq<ContextView>)>
    decreases n,
{
    if n == 0 || n > c.parameters@.len() {
        Some((Ok(Seq::empty()), cs.push(fresh_context(c.generic_parameters@.map_values(|t: Ty| t@)))))
    } else {
        match trial_in(d, cs, parts, c, (n - 1) as nat) {
            None => None,
            Some((Err(e), s)) => Some((Err(e), s)),
            Some((Ok(done), s)) => match c.parameters@[n - 1] {
                None => Some((Ok(done), s)),
                Some(p) => {
                    let v = part_value(parts, n - 1);
                    if !finishes(d, s, v.ty@, p.ty@) {
                        None
                    } else {
                        let (verdict, after) = convertible_outcome(d, s, v.ty@, p.ty@)->Some_0;
                        match adjustment(v, p.ty@, p.at, verdict) {
                            Ok(a) => Some((Ok(done.push(((n - 1) as usize, a))), after)),
                            Err(e) => Some((Err(e), after)),
                        }
                    }
                },
            },
        }
    }
}

/// Outcome of a candidate, its own generic context dropped after
pub open spec fn candidate_outcome(d: Declarations, cs: Seq<ContextView>, parts: Seq<CallPart>, c: Candidate) -> Option<(Result<Seq<(usize, Adjustment)>, Failure>, Seq<ContextView>)> {
    match trial_in(d, cs, parts, c, c.parameters@.len()) {
        None => None,
        Some((r, s)) => Some((r, s.drop_last())),
    }
}

/// Trying the first `k` candidates in order: the first that fits, with the
/// places and adjustments of its arguments; why those before it failed;
/// and the contexts after
pub open spec fn selection(
    d: Declarations,
    cs: Seq<ContextView>,
    parts: Seq<CallPart>,
    cands: Seq<Candidate>,
    k: nat,
) -> Option<(Option<(int, Seq<(usize, Adjustment)>)>, Seq<Failure>, Seq<ContextView>)>
    decreases k,
{
    if k == 0 || k > cands.len() {
        Some((None, Seq::empty(), cs))
    } else {
        match selection(d, cs, parts, cands, (k - 1) as nat) {
            None => None,
            Some((Some(found), fs, s)) => Some((Some(found), fs, s)),
            Some((None, fs, s)) => match candidate_outcome(d, s, parts, cands[k - 1]) {
                None => None,
                Some((Ok(done), after)) => Some((Some((k - 1, done)), fs, after)),
                Some((Err(e), after)) => Some((None, fs.push(e), after)),
            },
        }
    }
}

/// The call bound to a function
#[derive(Debug)]
pub struct BoundCall {
    pub function: usize,
    /// The function again, where it is generic
    pub generic: Option<usize>,
    /// The place of each argument among the call's parts, and what
    /// converting it to its parameter does
    pub arguments: Vec<(usize, Adjustment)>,
}

/// Why a call cannot be lowered
#[derive(Debug)]
pub enum CallError {
    /// No candidate fits
    NoFunction(NoFunction),
    /// The function that fits has a return type that is not inferred yet
    CantDeduceType { at: Span },
}

/// Try a candidate within its own generic context, pushed on top of the
/// contexts for the trial and dropped after it
fn try_in_context(
    d: &Declarations,
    contexts: &mut Vec<GenericContext>,
    parts: &Vec<CallPart>,
    c: &Candidate,
) -> (r: Result<Vec<(usize, Adjustment)>, NotConvertible>)
    requires
        fits_shape(parts@, *c),
        all_well_formed(old(contexts)@),
        candidate_outcome(*d, contexts_view(old(contexts)@), parts@, *c) is Some,
    ensures
        candidate_outcome(*d, contexts_view(old(contexts)@), parts@, *c) == Some((
            match r {
                Ok(done) => Ok::<Seq<(usize, Adjustment)>, Failure>(done@),
                Err(e) => Err::<Seq<(usize, Adjustment)>, Failure>(e@),
            },
            contexts_view(final(contexts)@),
        )),
        all_well_formed(final(contexts)@),
{
    let ghost cs0 = contexts_view(contexts@);
    let ghost n = c.parameters@.len();
    let scope = GenericContext::for_generics(copy_types(&c.generic_parameters));
    proof {
        assert(scope@.mapping =~= Seq::new(scope@.parameters.len(), |i: int| None::<TyView>));
    }
    contexts.push(scope);
    proof {
        assert(contexts_view(contexts@) =~= cs0.push(fresh_context(c.generic_parameters@.map_values(|t: Ty| t@))));
        assert(all_well_formed(contexts@)) by {
            assert forall|j: int| 0 <= j < contexts@.len() implies well_formed(#[trigger] contexts@[j]@) by {
                if j < contexts@.len() - 1 {
                    assert(contexts@[j] == old(contexts)@[j]);
                }
            }
        }
    }
    let mut done: Vec<(usize, Adjustment)> = Vec::new();
    let mut i: usize = 0;
    let mut failure: Option<NotConvertible> = None;
    while i < c.parameters.len() && failure.is_none()
        invariant
            i <= c.parameters@.len(),
            n == c.parameters@.len(),
            cs0 == contexts_view(old(contexts)@),
            fits_shape(parts@, *c),
            all_well_formed(contexts@),
            contexts@.len() == cs0.len() + 1,
            trial_in(*d, cs0, parts@, *c, n) is Some,
            failure is None ==> trial_in(*d, cs0, parts@, *c, i as nat) == Some((
                Ok::<Seq<(usize, Adjustment)>, Failure>(done@),
                contexts_view(contexts@),
            )),
            failure matches Some(e) ==> trial_in(*d, cs0, parts@, *c, n) == Some((
                Err::<Seq<(usize, Adjustment)>, Failure>(e@),
                contexts_view(contexts@),
            )),
        decreases c.parameters@.len() - i,
    {
        proof {
            lemma_trial_in_prefix(*d, cs0, parts@, *c, (i + 1) as nat, n);
        }
        match &c.parameters[i] {
            None => {},
            Some(p) => {
                assert(c.parameters@[i as int] is Some);
                let arg = parts[i].value.as_ref().unwrap();
                let request = ConversionRequest {
                    from: Value { ty: arg.ty.clone(), at: arg.at, mutable: arg.mutable },
                    to: p.ty.clone(),
                    to_at: p.at,
                };
                match request.within(contexts, d) {
                    Ok(a) => {
                        done.push((i, a));
                    },
                    Err(e) => {
                        proof {
                            lemma_trial_in_prefix(*d, cs0, parts@, *c, (i + 1) as nat, n);
                        }
                        failure = Some(e);
                    },
                }
            },
        }
        i = i + 1;
    }
    let ghost before_pop = contexts_view(contexts@);
    contexts.pop();
    proof {
        assert(contexts_view(contexts@) =~= before_pop.drop_last());
    }
    match failure {
        Some(e) => Err(e),
        None => Ok(done),
    }
}

/// A finished trial finished each of its steps, and keeps its first failure
pub proof fn lemma_trial_in_prefix(d: Declarations, cs: Seq<ContextView>, parts: Seq<CallPart>, c: Candidate, k: nat, n: nat)
    requires
        k <= n <= c.parameters@.len(),
        trial_in(d, cs, parts, c, n) is Some,
    ensures
        trial_in(d, cs, parts, c, k) is Some,
        trial_in(d, cs, parts, c, k) matches Some((Err(e), s)) ==> trial_in(d, cs, parts, c, n) == Some((Err::<Seq<(usize, Adjustment)>, Failure>(e), s)),
    decreases n,
{
    if k < n {
        lemma_trial_in_prefix(d, cs, parts, c, k, (n - 1) as nat);
    }
}

/// A finished selection finished each of its steps, and keeps the first
/// candidate that fits
pub proof fn lemma_selection_prefix(d: Declarations, cs: Seq<ContextView>, parts: Seq<CallPart>, cands: Seq<Candidate>, k: nat, n: nat)
    requires
        k <= n <= cands.len(),
        selection(d, cs, parts, cands, n) is Some,
    ensures
        selection(d, cs, parts, cands, k) is Some,
        selection(d, cs, parts, cands, k) matches Some((Some(found), fs, s)) ==> selection(d, cs, parts, cands, n) == Some((Some(found), fs, s)),
    decreases n,
{
    if k < n {
        lemma_selection_prefix(d, cs, parts, cands, k, (n - 1) as nat);
    }
}

impl CallSite {
    /// Bind the call within the generic contexts: each candidate in order
    /// is tried within a generic context of its own, its arguments
    /// converted to its parameters; the first that fits is the function
    /// called, unless its return type is not inferred yet. Where none fits,
    /// the call's arguments and why each candidate failed, in order.
    pub fn to_hir(
        &self,
        contexts: &mut Vec<GenericContext>,
        declarations: &Declarations,
        candidates: &Vec<Candidate>,
    ) -> (r: Result<BoundCall, CallError>)
        requires
            call_well_formed(*self),
            forall|k: int| 0 <= k < candidates@.len() ==> fits_shape(self.parts@, #[trigger] candidates@[k]),
            all_well_formed(old(contexts)@),
            selection(*declarations, contexts_view(old(contexts)@), self.parts@, candidates@, candidates@.len()) is Some,
        ensures
            all_well_formed(final(contexts)@),
            selection(*declarations, contexts_view(old(contexts)@), self.parts@, candidates@, candidates@.len()) matches Some((found, fs, after))
                && after == contexts_view(final(contexts)@)
                && match r {
                Ok(call) => found matches Some((i, done)) && !(candidates@[i].return_type@ is Unknown)
                    && call.function == candidates@[i].function
                    && call.generic == (if candidates@[i].is_generic { Some(candidates@[i].function) } else { None::<usize> })
                    && call.arguments@ == done,
                Err(CallError::CantDeduceType { at }) => found matches Some((i, _)) && candidates@[i].return_type@ is Unknown
                    && at == self.at,
                Err(CallError::NoFunction(e)) => found is None && e.kind == self.kind
                    && e.name@ == crate::semantics::call::call_name(*self) && e.at == failure_place(*self)
                    && e.arguments@.map_values(|a: TypeWithSpan| (a.ty@, a.at)) == call_arguments(self.parts@, self.parts@.len())
                    && e.candidates@.map_values(|c: CandidateNotViable| c.reason@) == fs,
            },
    {
        let ghost cs0 = contexts_view(contexts@);
        let ghost total = candidates@.len();
        let mut not_viable: Vec<CandidateNotViable> = Vec::new();
        let mut k: usize = 0;
        assert(not_viable@.map_values(|c: CandidateNotViable| c.reason@) =~= Seq::empty());
        while k < candidates.len()
            invariant
                k <= candidates@.len(),
                total == candidates@.len(),
                cs0 == contexts_view(old(contexts)@),
                forall|j: int| 0 <= j < candidates@.len() ==> fits_shape(self.parts@, #[trigger] candidates@[j]),
                all_well_formed(contexts@),
                selection(*declarations, cs0, self.parts@, candidates@, total) is Some,
                selection(*declarations, cs0, self.parts@, candidates@, k as nat) == Some((
                    None::<(int, Seq<(usize, Adjustment)>)>,
                    not_viable@.map_values(|c: CandidateNotViable| c.reason@),
                    contexts_view(contexts@),
                )),
            decreases candidates@.len() - k,
        {
            let c = &candidates[k];
            proof {
                lemma_selection_prefix(*declarations, cs0, self.parts@, candidates@, (k + 1) as nat, total);
                assert(fits_shape(self.parts@, candidates@[k as int]));
            }
            match try_in_context(declarations, contexts, &self.parts, c) {
                Ok(done) => {
                    proof {
                        assert(selection(*declarations, cs0, self.parts@, candidates@, (k + 1) as nat) == Some((
                            Some(((k as int), done@)),
                            not_viable@.map_values(|c: CandidateNotViable| c.reason@),
                            contexts_view(contexts@),
                        )));
                        lemma_selection_prefix(*declarations, cs0, self.parts@, candidates@, (k + 1) as nat, total);
                    }
                    if matches!(c.return_type, Ty::Unknown) {
                        return Err(CallError::CantDeduceType { at: self.at });
                    }
                    let generic = if c.is_generic {
                        Some(c.function)
                    } else {
                        None
                    };
                    return Ok(BoundCall { function: c.function, generic, arguments: done });
                },
                Err(e) => {
                    not_viable.push(CandidateNotViable { reason: e });
                    assert(not_viable@.map_values(|c: CandidateNotViable| c.reason@) =~= selection(
                        *declarations,
                        cs0,
                        self.parts@,
                        candidates@,
                        k as nat,
                    )->Some_0.1.push(not_viable@.last().reason@));
                },
            }
            k = k + 1;
        }
        let arguments = crate::semantics::call::arguments_of(self);
        let at = match self.kind {
            FnKind::Function => self.at,
            FnKind::Operator => if !self.parts[0].is_argument {
                self.parts[0].at
            } else {
                self.parts[1].at
            },
        };
        let name = self.name_with_types();
        Err(CallError::NoFunction(NoFunction { kind: self.kind, name, arguments, candidates: not_viable, at }))
    }
}

/// A class binds an unconstrained generic parameter that a context
/// introduces and that stands for nothing yet: the check passes, and after
/// it the parameter stands for the class
pub proof fn lemma_class_binds_generic(d: Declarations, cs: Seq<ContextView>, c: TyView, g: TyView)
    requires
        c is Class,
        g matches TyView::Generic { constraint: None, .. },
        forall|j: int| 0 <= j < cs.len() ==> well_formed(#[trigger] cs[j]),
        owner(cs, c, cs.len()) is None,
        owner(cs, g, cs.len()) is Some,
        specialized(cs, g) is None,
    ensures
        finishes(d, cs, c, g),
        convertible_outcome(d, cs, c, g) == Some((Ok::<bool, Failure>(true), mapped(cs, g, c).0)),
        specialized(mapped(cs, g, c).0, g) == Some(c),
{
    lemma_specialized_after_mapping(cs, g, c);
    assert(stripped(c) == c);
    assert(stripped(g) == g);
    assert(specialized(cs, c) is None);
    assert(class_convertible(d, cs, c, g, 1) == Some((Ok::<bool, Failure>(true), mapped(cs, g, c).0)));
    assert(class_convertible(d, cs, c, g, 0) is None);
    assert(convertible(d, cs, c, g, 2) == Some((Ok::<bool, Failure>(true), mapped(cs, g, c).0)));
    let fuel = choose|fuel: nat| (#[trigger] convertible(d, cs, c, g, fuel)) is Some;
    assert(convertible(d, cs, c, g, fuel) is Some);
    assert(fuel >= 2) by {
        if fuel == 0 {
            assert(convertible(d, cs, c, g, fuel) is None);
        } else if fuel == 1 {
            assert(convertible(d, cs, c, g, 1) == class_convertible(d, cs, c, g, 0));
        }
    }
    assert(convertible(d, cs, c, g, fuel) == class_convertible(d, cs, c, g, (fuel - 1) as nat));
    assert(class_convertible(d, cs, c, g, (fuel - 1) as nat) == Some((Ok::<bool, Failure>(true), mapped(cs, g, c).0)));
}

/// No mutable reference to a value that may not change: where the types
/// convert, a value that may not change handed where a mutable reference is
/// expected is refused at the value's range, whatever the value's own type,
/// reference or not; and a conversion that succeeds never hands such a
/// value to a mutable reference. Where the types do not convert, the
/// mismatch is reported first.
pub proof fn lemma_no_mutable_reference_to_fixed_value(v: Value, to: TyView, to_at: Span, verdict: Result<bool, Failure>)
    ensures
        verdict == Ok::<bool, Failure>(true) && !v.mutable && is_mutable(to) ==> adjustment(v, to, to_at, verdict)
            == Err::<Adjustment, Failure>(Failure::MutToImmutable { at: v.at }),
        adjustment(v, to, to_at, verdict) is Ok ==> verdict == Ok::<bool, Failure>(true) && (v.mutable || !is_mutable(to)),
        verdict == Ok::<bool, Failure>(false) ==> adjustment(v, to, to_at, verdict) is Err
            && adjustment(v, to, to_at, verdict)->Err_0 is Mismatch,
        adjustment(v, to, to_at, verdict) matches Ok(a) ==> (a == Adjustment::ReferenceMut ==> is_mutable(to) && v.mutable),
{
}

} // verus!
