use vstd::prelude::*;
use vstd::string::{StrSliceExecFns, StringExecFns};

use crate::semantics::conversion::{
    conversion, ConversionRequest, Declarations, Failure, NotConvertible, Span, Ty, TyView,
    TypeWithSpan, lemma_tys_view, tys_view,
};

verus! {

/// Kind of a call: of a function or of an operator
#[derive(Debug, Clone, Copy, PartialEq, Eq, Structural)]
pub enum FnKind {
    Function,
    Operator,
}

/// A lowered argument of a call: its type, its range, and whether it may
/// change
#[derive(Debug)]
pub struct Argument {
    pub ty: Ty,
    pub at: Span,
    pub mutable: bool,
    /// The text its type is shown by
    pub type_text: String,
}

/// A part of a call's name: an argument, or a word, which may name a
/// variable or a type and then stands as an argument too
#[derive(Debug)]
pub struct CallPart {
    pub at: Span,
    pub text: String,
    pub is_argument: bool,
    pub value: Option<Argument>,
}

/// A call whose parts are lowered
#[derive(Debug)]
pub struct CallSite {
    pub kind: FnKind,
    /// The call's name with `<>` at the place of each argument
    pub name_format: String,
    pub at: Span,
    pub parts: Vec<CallPart>,
}

/// A parameter of a function: its type and the range of its name
#[derive(Debug)]
pub struct Parameter {
    pub ty: Ty,
    pub at: Span,
}

/// A function that the call may bind to: at each part of its name, a
/// parameter or a word; the generic parameters it introduces, `Self` of its
/// trait among them; and its return type
#[derive(Debug)]
pub struct Candidate {
    pub function: usize,
    pub is_generic: bool,
    pub parameters: Vec<Option<Parameter>>,
    pub generic_parameters: Vec<Ty>,
    pub return_type: Ty,
}

/// The call bound to a function
#[derive(Debug)]
pub struct Call {
    /// The function called
    pub function: usize,
    /// The function again, where it is generic and is still to be specialized
    pub generic: Option<usize>,
    /// The places of the call's parts that are handed as arguments
    pub arguments: Vec<usize>,
    /// The type of each argument that specializes the function
    pub argument_types: Vec<Ty>,
}

/// Why a candidate does not fit the call
#[derive(Debug)]
pub struct CandidateNotViable {
    pub reason: NotConvertible,
}

/// No function fits the call
#[derive(Debug)]
pub struct NoFunction {
    pub kind: FnKind,
    /// The call's name, each `<>` in turn replaced by `<:T>`, `T` the type
    /// of the next argument
    pub name: String,
    /// Types of the call's arguments, with their ranges
    pub arguments: Vec<TypeWithSpan>,
    /// Why each candidate failed, in the order they were tried
    pub candidates: Vec<CandidateNotViable>,
    pub at: Span,
}

/// A type is generic when it is a generic parameter or `Self`, or mentions one
pub open spec fn is_generic(t: TyView) -> bool
    decreases t, 0nat,
{
    match t {
        TyView::Generic { .. } => true,
        TyView::SelfType(_) => true,
        TyView::Class { generics, .. } => any_generic(generics, generics.len()),
        TyView::Reference { to, .. } => is_generic(*to),
        _ => false,
    }
}

/// One of the first `n` types is generic
pub open spec fn any_generic(ts: Seq<TyView>, n: nat) -> bool
    decreases ts, n,
{
    if n == 0 || n > ts.len() {
        false
    } else {
        any_generic(ts, (n - 1) as nat) || is_generic(ts[n - 1])
    }
}

/// Each parameter of the candidate has an argument at its place
pub open spec fn fits_shape(parts: Seq<CallPart>, c: Candidate) -> bool {
    c.parameters@.len() <= parts.len() && forall|i: int|
        0 <= i < c.parameters@.len() && (#[trigger] c.parameters@[i]) is Some ==> parts[i].value is Some
}

/// The call is well formed: its arguments are lowered, and an operator has
/// the part that names it
pub open spec fn well_formed(call: CallSite) -> bool {
    &&& forall|i: int| 0 <= i < call.parts@.len() && (#[trigger] call.parts@[i]).is_argument ==> call.parts@[i].value is Some
    &&& call.kind is Operator ==> call.parts@.len() >= 2 || (call.parts@.len() == 1 && !call.parts@[0].is_argument)
}

/// Trying the first `n` parts of a candidate: the types that specialize it
/// so far, or why an argument does not convert to its parameter
pub open spec fn trial(d: Declarations, parts: Seq<CallPart>, ps: Seq<Option<Parameter>>, n: nat) -> Result<Seq<TyView>, Failure>
    decreases n,
{
    if n == 0 || n > ps.len() {
        Ok(Seq::empty())
    } else {
        match trial(d, parts, ps, (n - 1) as nat) {
            Err(e) => Err(e),
            Ok(types) => match ps[n - 1] {
                None => Ok(types),
                Some(p) => {
                    let arg = parts[n - 1].value.unwrap();
                    match conversion(d, arg.ty@, arg.at, p.ty@, p.at) {
                        Ok(t) => Ok(types.push(if is_generic(t) { arg.ty@ } else { t })),
                        Err(e) => Err(e),
                    }
                },
            },
        }
    }
}

/// Outcome of a candidate
pub open spec fn candidate_trial(d: Declarations, parts: Seq<CallPart>, c: Candidate) -> Result<Seq<TyView>, Failure> {
    trial(d, parts, c.parameters@, c.parameters@.len())
}

/// Among the first `k` candidates, the first that fits
pub open spec fn first_viable(d: Declarations, parts: Seq<CallPart>, cs: Seq<Candidate>, k: nat) -> Option<int>
    decreases k,
{
    if k == 0 || k > cs.len() {
        None
    } else {
        match first_viable(d, parts, cs, (k - 1) as nat) {
            Some(i) => Some(i),
            None => if candidate_trial(d, parts, cs[k - 1]) is Ok {
                Some(k - 1)
            } else {
                None
            },
        }
    }
}

/// Why the candidates among the first `k` failed, up to the first that fits
pub open spec fn failures(d: Declarations, parts: Seq<CallPart>, cs: Seq<Candidate>, k: nat) -> Seq<Failure>
    decreases k,
{
    if k == 0 || k > cs.len() {
        Seq::empty()
    } else {
        let before = failures(d, parts, cs, (k - 1) as nat);
        if first_viable(d, parts, cs, (k - 1) as nat) is Some {
            before
        } else {
            match candidate_trial(d, parts, cs[k - 1]) {
                Err(e) => before.push(e),
                Ok(_) => before,
            }
        }
    }
}

/// The places of the parameters among the first `n` parts
pub open spec fn parameter_places(ps: Seq<Option<Parameter>>, n: nat) -> Seq<usize>
    decreases n,
{
    if n == 0 || n > ps.len() {
        Seq::empty()
    } else if ps[n - 1] is Some {
        parameter_places(ps, (n - 1) as nat).push((n - 1) as usize)
    } else {
        parameter_places(ps, (n - 1) as nat)
    }
}

/// The call's arguments among its first `n` parts, with their ranges
pub open spec fn call_arguments(parts: Seq<CallPart>, n: nat) -> Seq<(TyView, Span)>
    decreases n,
{
    if n == 0 || n > parts.len() {
        Seq::empty()
    } else if parts[n - 1].is_argument {
        call_arguments(parts, (n - 1) as nat).push(
            (parts[n - 1].value.unwrap().ty@, parts[n - 1].value.unwrap().at),
        )
    } else {
        call_arguments(parts, (n - 1) as nat)
    }
}

/// Where a failed call is shown: a function call as a whole, an operator
/// at the word that names it
pub open spec fn failure_place(call: CallSite) -> Span {
    if call.kind is Function {
        call.at
    } else if !call.parts@[0].is_argument {
        call.parts@[0].at
    } else {
        call.parts@[1].at
    }
}

/// Is the type generic?
pub fn type_is_generic(t: &Ty) -> (b: bool)
    ensures
        b == is_generic(t@),
    decreases t,
{
    match t {
        Ty::Generic { .. } => true,
        Ty::SelfType(_) => true,
        Ty::Class { generics, .. } => {
            proof {
                lemma_tys_view(generics@, generics@.len());
            }
            let ghost gv = tys_view(generics@, generics@.len());
            let mut k: usize = 0;
            while k < generics.len()
                invariant
                    k <= generics@.len(),
                    t is Class,
                    *generics == t->Class_generics,
                    gv == tys_view(generics@, generics@.len()),
                    gv.len() == generics@.len(),
                    forall|j: int| 0 <= j < generics@.len() ==> #[trigger] gv[j] == generics@[j]@,
                    !any_generic(gv, k as nat),
                decreases generics@.len() - k,
            {
                proof {
                    assert(decreases_to!(*t => t->Class_generics));
                    assert(decreases_to!(t->Class_generics => t->Class_generics@));
                    assert(decreases_to!(t->Class_generics@ => t->Class_generics@[k as int]));
                    assert(gv[k as int] == generics@[k as int]@);
                }
                if type_is_generic(&generics[k]) {
                    proof {
                        lemma_any_generic(gv, (k + 1) as nat, gv.len());
                    }
                    return true;
                }
                k = k + 1;
            }
            false
        },
        Ty::Reference { to, .. } => {
            let inner: &Ty = to;
            type_is_generic(inner)
        },
        _ => false,
    }
}

/// A generic type among the first `m` is among the first `n` for `n >= m`
pub proof fn lemma_any_generic(ts: Seq<TyView>, m: nat, n: nat)
    requires
        m <= n <= ts.len(),
        any_generic(ts, m),
    ensures
        any_generic(ts, n),
    decreases n,
{
    if m < n {
        lemma_any_generic(ts, m, (n - 1) as nat);
    }
}

/// Try a candidate: convert each argument to the parameter at its place,
/// in order; the types that specialize it, or the first failure
fn try_candidate(d: &Declarations, parts: &Vec<CallPart>, c: &Candidate) -> (r: Result<Vec<Ty>, NotConvertible>)
    requires
        fits_shape(parts@, *c),
    ensures
        match r {
            Ok(types) => candidate_trial(*d, parts@, *c) == Ok::<Seq<TyView>, Failure>(
                types@.map_values(|t: Ty| t@),
            ),
            Err(e) => candidate_trial(*d, parts@, *c) == Err::<Seq<TyView>, Failure>(e@),
        },
{
    let mut types: Vec<Ty> = Vec::new();
    let mut i: usize = 0;
    assert(types@.map_values(|t: Ty| t@) =~= Seq::empty());
    while i < c.parameters.len()
        invariant
            i <= c.parameters@.len(),
            fits_shape(parts@, *c),
            trial(*d, parts@, c.parameters@, i as nat) == Ok::<Seq<TyView>, Failure>(
                types@.map_values(|t: Ty| t@),
            ),
        decreases c.parameters@.len() - i,
    {
        match &c.parameters[i] {
            None => {},
            Some(p) => {
                assert(c.parameters@[i as int] is Some);
                let arg = parts[i].value.as_ref().unwrap();
                let request = ConversionRequest { from: arg.ty.clone(), from_at: arg.at, to: p.ty.clone(), to_at: p.at };
                match request.within(d) {
                    Ok(t) => {
                        if type_is_generic(&t) {
                            types.push(arg.ty.clone());
                        } else {
                            types.push(t);
                        }
                        assert(types@.map_values(|t: Ty| t@) =~= trial(*d, parts@, c.parameters@, i as nat)->Ok_0.push(
                            types@.last()@,
                        ));
                    },
                    Err(e) => {
                        proof {
                            lemma_trial_failed(*d, parts@, c.parameters@, (i + 1) as nat, c.parameters@.len());
                        }
                        return Err(e);
                    },
                }
            },
        }
        i = i + 1;
    }
    Ok(types)
}

/// Once a trial fails, it stays failed with the same reason
pub proof fn lemma_trial_failed(d: Declarations, parts: Seq<CallPart>, ps: Seq<Option<Parameter>>, m: nat, n: nat)
    requires
        m <= n <= ps.len(),
        trial(d, parts, ps, m) is Err,
    ensures
        trial(d, parts, ps, n) == trial(d, parts, ps, m),
    decreases n,
{
    if m < n {
        lemma_trial_failed(d, parts, ps, m, (n - 1) as nat);
    }
}

/// The places of the candidate's parameters, in order
fn places_of(c: &Candidate) -> (places: Vec<usize>)
    ensures
        places@ == parameter_places(c.parameters@, c.parameters@.len()),
{
    let mut places: Vec<usize> = Vec::new();
    let mut i: usize = 0;
    while i < c.parameters.len()
        invariant
            i <= c.parameters@.len(),
            places@ == parameter_places(c.parameters@, i as nat),
        decreases c.parameters@.len() - i,
    {
        if c.parameters[i].is_some() {
            places.push(i);
        }
        i = i + 1;
    }
    places
}

/// The call's arguments with their types and ranges, in order
pub(crate) fn arguments_of(call: &CallSite) -> (arguments: Vec<TypeWithSpan>)
    requires
        well_formed(*call),
    ensures
        arguments@.map_values(|a: TypeWithSpan| (a.ty@, a.at)) == call_arguments(call.parts@, call.parts@.len()),
{
    let mut arguments: Vec<TypeWithSpan> = Vec::new();
    let mut i: usize = 0;
    assert(arguments@.map_values(|a: TypeWithSpan| (a.ty@, a.at)) =~= Seq::empty());
    while i < call.parts.len()
        invariant
            i <= call.parts@.len(),
            well_formed(*call),
            arguments@.map_values(|a: TypeWithSpan| (a.ty@, a.at)) == call_arguments(call.parts@, i as nat),
        decreases call.parts@.len() - i,
    {
        if call.parts[i].is_argument {
            assert(call.parts@[i as int].value is Some);
            let a = call.parts[i].value.as_ref().unwrap();
            arguments.push(TypeWithSpan { ty: a.ty.clone(), at: a.at });
            assert(arguments@.map_values(|a: TypeWithSpan| (a.ty@, a.at)) =~= call_arguments(call.parts@, i as nat).push(
                (call.parts@[i as int].value.unwrap().ty@, call.parts@[i as int].value.unwrap().at),
            ));
        }
        i = i + 1;
    }
    arguments
}

impl CallSite {
    /// Bind the call to the first candidate, in the candidates' order, whose
    /// parameters each take the argument at its place. Where none does, the
    /// call's arguments and why each candidate failed, in order.
    pub fn lower_to_hir_within_context(&self, context: &Declarations, candidates: &Vec<Candidate>) -> (r: Result<Call, NoFunction>)
        requires
            well_formed(*self),
            forall|k: int| 0 <= k < candidates@.len() ==> fits_shape(self.parts@, #[trigger] candidates@[k]),
        ensures
            match r {
                Ok(call) => first_viable(*context, self.parts@, candidates@, candidates@.len()) matches Some(i)
                    && call.function == candidates@[i].function
                    && call.generic == (if candidates@[i].is_generic { Some(candidates@[i].function) } else { None::<usize> })
                    && call.arguments@ == parameter_places(candidates@[i].parameters@, candidates@[i].parameters@.len())
                    && candidate_trial(*context, self.parts@, candidates@[i]) == Ok::<Seq<TyView>, Failure>(
                        call.argument_types@.map_values(|t: Ty| t@),
                    ),
                Err(e) => first_viable(*context, self.parts@, candidates@, candidates@.len()) is None
                    && e.kind == self.kind
                    && e.name@ == call_name(*self)
                    && e.at == failure_place(*self)
                    && e.arguments@.map_values(|a: TypeWithSpan| (a.ty@, a.at)) == call_arguments(self.parts@, self.parts@.len())
                    && e.candidates@.map_values(|c: CandidateNotViable| c.reason@) == failures(
                        *context,
                        self.parts@,
                        candidates@,
                        candidates@.len(),
                    ),
            },
    {
        let mut not_viable: Vec<CandidateNotViable> = Vec::new();
        let mut k: usize = 0;
        assert(not_viable@.map_values(|c: CandidateNotViable| c.reason@) =~= Seq::empty());
        while k < candidates.len()
            invariant
                k <= candidates@.len(),
                forall|j: int| 0 <= j < candidates@.len() ==> fits_shape(self.parts@, #[trigger] candidates@[j]),
                first_viable(*context, self.parts@, candidates@, k as nat) is None,
                not_viable@.map_values(|c: CandidateNotViable| c.reason@) == failures(*context, self.parts@, candidates@, k as nat),
            decreases candidates@.len() - k,
        {
            let c = &candidates[k];
            assert(fits_shape(self.parts@, candidates@[k as int]));
            match try_candidate(context, &self.parts, c) {
                Ok(types) => {
                    proof {
                        lemma_first_viable_stays(*context, self.parts@, candidates@, (k + 1) as nat, candidates@.len());
                    }
                    let places = places_of(c);
                    let generic = if c.is_generic {
                        Some(c.function)
                    } else {
                        None
                    };
                    return Ok(Call { function: c.function, generic, arguments: places, argument_types: types });
                },
                Err(e) => {
                    not_viable.push(CandidateNotViable { reason: e });
                    assert(not_viable@.map_values(|c: CandidateNotViable| c.reason@) =~= failures(
                        *context,
                        self.parts@,
                        candidates@,
                        k as nat,
                    ).push(not_viable@.last().reason@));
                },
            }
            k = k + 1;
        }
        let arguments = arguments_of(self);
        let at = match self.kind {
            FnKind::Function => self.at,
            FnKind::Operator => if !self.parts[0].is_argument {
                self.parts[0].at
            } else {
                self.parts[1].at
            },
        };
        let name = self.name_with_types();
        Err(NoFunction { kind: self.kind, name, arguments, candidates: not_viable, at })
    }
}

/// Once a candidate fits, it stays the first that fits
pub proof fn lemma_first_viable_stays(d: Declarations, parts: Seq<CallPart>, cs: Seq<Candidate>, m: nat, n: nat)
    requires
        m <= n <= cs.len(),
        first_viable(d, parts, cs, m) is Some,
    ensures
        first_viable(d, parts, cs, n) == first_viable(d, parts, cs, m),
    decreases n,
{
    if m < n {
        lemma_first_viable_stays(d, parts, cs, m, (n - 1) as nat);
    }
}

/// A part of a function's name: a word, or a parameter
#[derive(Debug)]
pub enum NamePart {
    Text(String),
    Parameter,
}

/// A function by the parts of its name
#[derive(Debug)]
pub struct FunctionName {
    pub function: usize,
    pub parts: Vec<NamePart>,
}

/// The part of a function's name fits the part of the call at the same
/// place: the same word, or a parameter where the call has an argument or a
/// word that names a value
pub open spec fn part_fits(f: NamePart, c: CallPart) -> bool {
    match f {
        NamePart::Text(t) => !c.is_argument && t@ == c.text@,
        NamePart::Parameter => c.is_argument || c.value is Some,
    }
}

/// The function's name fits the call: as many parts, each fitting
pub open spec fn name_fits(f: FunctionName, parts: Seq<CallPart>) -> bool {
    f.parts@.len() == parts.len() && forall|i: int| 0 <= i < parts.len() ==> part_fits(#[trigger] f.parts@[i], parts[i])
}

/// The functions among the first `n` whose names fit the call, in order
pub open spec fn fitting(fs: Seq<FunctionName>, parts: Seq<CallPart>, n: nat) -> Seq<usize>
    decreases n,
{
    if n == 0 || n > fs.len() {
        Seq::empty()
    } else if name_fits(fs[n - 1], parts) {
        fitting(fs, parts, (n - 1) as nat).push(fs[n - 1].function)
    } else {
        fitting(fs, parts, (n - 1) as nat)
    }
}

/// Does the function's name fit the call?
fn fits(f: &FunctionName, parts: &Vec<CallPart>) -> (b: bool)
    ensures
        b == name_fits(*f, parts@),
{
    if f.parts.len() != parts.len() {
        return false;
    }
    let mut i: usize = 0;
    while i < parts.len()
        invariant
            i <= parts@.len(),
            f.parts@.len() == parts@.len(),
            forall|j: int| 0 <= j < i ==> part_fits(#[trigger] f.parts@[j], parts@[j]),
        decreases parts@.len() - i,
    {
        let ok = match &f.parts[i] {
            NamePart::Text(t) => !parts[i].is_argument && *t == parts[i].text,
            NamePart::Parameter => parts[i].is_argument || parts[i].value.is_some(),
        };
        if !ok {
            assert(!part_fits(f.parts@[i as int], parts@[i as int]));
            return false;
        }
        i = i + 1;
    }
    true
}

/// The traits whose functions an argument of this type brings: a trait's
/// own; the traits that a class has, in the order they are listed; the
/// trait that constrains a generic parameter
pub open spec fn argument_traits(t: TyView, traits_for: Seq<(usize, usize)>) -> Seq<usize> {
    match t {
        TyView::Trait(tr) => seq![tr],
        TyView::Class { class, .. } => traits_of_class(traits_for, class, traits_for.len()),
        TyView::Generic { constraint: Some(c), .. } => seq![c],
        _ => Seq::empty(),
    }
}

/// The traits listed for the class among the first `n` pairs, in order
pub open spec fn traits_of_class(traits_for: Seq<(usize, usize)>, class: usize, n: nat) -> Seq<usize>
    decreases n,
{
    if n == 0 || n > traits_for.len() {
        Seq::empty()
    } else if traits_for[n - 1].0 == class {
        traits_of_class(traits_for, class, (n - 1) as nat).push(traits_for[n - 1].1)
    } else {
        traits_of_class(traits_for, class, (n - 1) as nat)
    }
}

/// The functions of the first `k` of the traits whose names fit the call,
/// trait by trait
pub open spec fn from_traits(traits: Seq<Vec<FunctionName>>, trs: Seq<usize>, parts: Seq<CallPart>, k: nat) -> Seq<usize>
    decreases k,
{
    if k == 0 || k > trs.len() {
        Seq::empty()
    } else {
        from_traits(traits, trs, parts, (k - 1) as nat) + if trs[k - 1] < traits.len() {
            fitting(traits[trs[k - 1] as int]@, parts, traits[trs[k - 1] as int]@.len())
        } else {
            Seq::empty()
        }
    }
}

/// The functions brought by the values among the first `k` parts of the
/// call whose names fit it, value by value
pub open spec fn from_arguments(
    traits: Seq<Vec<FunctionName>>,
    traits_for: Seq<(usize, usize)>,
    parts: Seq<CallPart>,
    k: nat,
) -> Seq<usize>
    decreases k,
{
    if k == 0 || k > parts.len() {
        Seq::empty()
    } else {
        from_arguments(traits, traits_for, parts, (k - 1) as nat) + match parts[k - 1].value {
            Some(a) => {
                let trs = argument_traits(a.ty@, traits_for);
                from_traits(traits, trs, parts, trs.len())
            },
            None => Seq::empty(),
        }
    }
}

/// The functions whose names fit the call, in order
fn fitting_of(functions: &Vec<FunctionName>, parts: &Vec<CallPart>) -> (r: Vec<usize>)
    ensures
        r@ == fitting(functions@, parts@, functions@.len()),
{
    let mut r: Vec<usize> = Vec::new();
    let mut k: usize = 0;
    while k < functions.len()
        invariant
            k <= functions@.len(),
            r@ == fitting(functions@, parts@, k as nat),
        decreases functions@.len() - k,
    {
        if fits(&functions[k], parts) {
            r.push(functions[k].function);
        }
        k = k + 1;
    }
    r
}

/// Add the items at the end
fn append_all(out: &mut Vec<usize>, more: &Vec<usize>)
    ensures
        final(out)@ == old(out)@ + more@,
{
    let ghost start = out@;
    let mut i: usize = 0;
    while i < more.len()
        invariant
            i <= more@.len(),
            out@ == start + more@.subrange(0, i as int),
        decreases more@.len() - i,
    {
        out.push(more[i]);
        i = i + 1;
        assert(out@ =~= start + more@.subrange(0, i as int));
    }
    assert(more@.subrange(0, more@.len() as int) =~= more@);
}

/// The traits whose functions an argument of this type brings
fn traits_of(t: &Ty, traits_for: &Vec<(usize, usize)>) -> (r: Vec<usize>)
    ensures
        r@ == argument_traits(t@, traits_for@),
{
    match t {
        Ty::Trait(tr) => {
            let mut r: Vec<usize> = Vec::new();
            r.push(*tr);
            assert(r@ =~= seq![*tr]);
            r
        },
        Ty::Class { class, .. } => {
            let mut r: Vec<usize> = Vec::new();
            let mut k: usize = 0;
            while k < traits_for.len()
                invariant
                    k <= traits_for@.len(),
                    r@ == traits_of_class(traits_for@, *class, k as nat),
                decreases traits_for@.len() - k,
            {
                if traits_for[k].0 == *class {
                    r.push(traits_for[k].1);
                }
                k = k + 1;
            }
            r
        },
        Ty::Generic { constraint: Some(c), .. } => {
            let mut r: Vec<usize> = Vec::new();
            r.push(*c);
            assert(r@ =~= seq![*c]);
            r
        },
        _ => Vec::new(),
    }
}

impl CallSite {
    /// The candidates for the call, in order and with repetitions: the
    /// module's functions, and then, for each value among the call's parts
    /// in order, the functions of the traits its type brings, trait by
    /// trait; of these, those whose names have as many parts as the call
    /// and fit it part by part, words matching words and parameters taking
    /// values
    pub fn candidates(
        &self,
        functions: &Vec<FunctionName>,
        traits: &Vec<Vec<FunctionName>>,
        traits_for: &Vec<(usize, usize)>,
    ) -> (r: Vec<usize>)
        ensures
            r@ == fitting(functions@, self.parts@, functions@.len()) + from_arguments(
                traits@,
                traits_for@,
                self.parts@,
                self.parts@.len(),
            ),
    {
        let mut r = fitting_of(functions, &self.parts);
        let ghost start = r@;
        let mut k: usize = 0;
        assert(start + from_arguments(traits@, traits_for@, self.parts@, 0) =~= start);
        while k < self.parts.len()
            invariant
                k <= self.parts@.len(),
                r@ == start + from_arguments(traits@, traits_for@, self.parts@, k as nat),
            decreases self.parts@.len() - k,
        {
            let ghost before = r@;
            match &self.parts[k].value {
                Some(a) => {
                    let trs = traits_of(&a.ty, traits_for);
                    let mut j: usize = 0;
                    let ghost mid = r@;
                    assert(mid + from_traits(traits@, trs@, self.parts@, 0) =~= mid);
                    while j < trs.len()
                        invariant
                            j <= trs@.len(),
                            r@ == mid + from_traits(traits@, trs@, self.parts@, j as nat),
                        decreases trs@.len() - j,
                    {
                        let ghost b2 = r@;
                        if trs[j] < traits.len() {
                            let more = fitting_of(&traits[trs[j]], &self.parts);
                            append_all(&mut r, &more);
                        }
                        assert(r@ =~= mid + from_traits(traits@, trs@, self.parts@, (j + 1) as nat));
                        j = j + 1;
                    }
                    assert(r@ =~= start + from_arguments(traits@, traits_for@, self.parts@, (k + 1) as nat));
                },
                None => {
                    assert(r@ =~= start + from_arguments(traits@, traits_for@, self.parts@, (k + 1) as nat));
                },
            }
            k = k + 1;
        }
        r
    }
}

/// A `<>` stands at `i`
pub open spec fn hole_at(s: Seq<char>, i: int) -> bool {
    0 <= i && i + 1 < s.len() && s[i] == '<' && s[i + 1] == '>'
}

/// The first `<>`, from `from` on
pub open spec fn first_hole(s: Seq<char>, from: int) -> Option<int>
    decreases s.len() - from,
{
    if from < 0 || from + 1 >= s.len() {
        None
    } else if hole_at(s, from) {
        Some(from)
    } else {
        first_hole(s, from + 1)
    }
}

/// The text with its first `<>` replaced by `r`
pub open spec fn replace_first(s: Seq<char>, r: Seq<char>) -> Seq<char> {
    match first_hole(s, 0) {
        Some(i) => s.subrange(0, i) + r + s.subrange(i + 2, s.len() as int),
        None => s,
    }
}

/// The texts of the types of the call's arguments among its first `n`
/// parts, in order
pub open spec fn argument_texts(parts: Seq<CallPart>, n: nat) -> Seq<Seq<char>>
    decreases n,
{
    if n == 0 || n > parts.len() {
        Seq::empty()
    } else if parts[n - 1].is_argument {
        argument_texts(parts, (n - 1) as nat).push(parts[n - 1].value->0.type_text@)
    } else {
        argument_texts(parts, (n - 1) as nat)
    }
}

/// The format with its `<>` replaced, one after the other, by `<:T>` for
/// the first `n` texts
pub open spec fn filled(format: Seq<char>, texts: Seq<Seq<char>>, n: nat) -> Seq<char>
    decreases n,
{
    if n == 0 || n > texts.len() {
        format
    } else {
        replace_first(filled(format, texts, (n - 1) as nat), "<:"@ + texts[n - 1] + ">"@)
    }
}

/// The name of a call in a diagnostic: its format, each `<>` in turn
/// replaced by `<:T>`, `T` the type of the next argument
pub open spec fn call_name(call: CallSite) -> Seq<char> {
    let texts = argument_texts(call.parts@, call.parts@.len());
    filled(call.name_format@, texts, texts.len())
}

/// The text with its first `<>` replaced by `r`
fn replace_first_hole(s: &String, r: &String) -> (t: String)
    ensures
        t@ == replace_first(s@, r@),
{
    let n = s.as_str().unicode_len();
    let mut i: usize = 0;
    while n > 0 && i < n - 1
        invariant
            n == s@.len(),
            first_hole(s@, 0) == first_hole(s@, i as int),
        decreases n - i,
    {
        if s.as_str().get_char(i) == '<' && s.as_str().get_char(i + 1) == '>' {
            let mut t = String::from_str(s.as_str().substring_char(0, i));
            t.append(r.as_str());
            t.append(s.as_str().substring_char(i + 2, n));
            return t;
        }
        i = i + 1;
    }
    s.clone()
}

impl CallSite {
    /// The name of the call in a diagnostic
    pub fn name_with_types(&self) -> (name: String)
        requires
            well_formed(*self),
        ensures
            name@ == call_name(*self),
    {
        let ghost texts = argument_texts(self.parts@, self.parts@.len());
        let mut name = self.name_format.clone();
        let mut i: usize = 0;
        let ghost mut k: nat = 0;
        while i < self.parts.len()
            invariant
                i <= self.parts@.len(),
                well_formed(*self),
                texts == argument_texts(self.parts@, self.parts@.len()),
                k == argument_texts(self.parts@, i as nat).len(),
                argument_texts(self.parts@, i as nat) == texts.subrange(0, k as int),
                k <= texts.len(),
                name@ == filled(self.name_format@, texts, k),
            decreases self.parts@.len() - i,
        {
            proof {
                lemma_argument_texts_prefix(self.parts@, (i + 1) as nat, self.parts@.len());
            }
            if self.parts[i].is_argument {
                assert(self.parts@[i as int].value is Some);
                let a = self.parts[i].value.as_ref().unwrap();
                let mut r = String::from_str("<:");
                r.append(a.type_text.as_str());
                r.append(">");
                proof {
                    reveal_strlit("<:");
                    reveal_strlit(">");
                    assert(argument_texts(self.parts@, (i + 1) as nat) == argument_texts(self.parts@, i as nat).push(
                        a.type_text@,
                    ));
                    assert(argument_texts(self.parts@, (i + 1) as nat)[k as int] == a.type_text@);
                    assert(texts.subrange(0, (k + 1) as int)[k as int] == texts[k as int]);
                    assert(texts[k as int] == a.type_text@);
                    assert(r@ == "<:"@ + texts[k as int] + ">"@);
                }
                name = replace_first_hole(&name, &r);
                proof {
                    k = k + 1;
                    assert(argument_texts(self.parts@, (i + 1) as nat) =~= texts.subrange(0, k as int));
                }
            } else {
                proof {
                    assert(argument_texts(self.parts@, (i + 1) as nat) == argument_texts(self.parts@, i as nat));
                }
            }
            i = i + 1;
        }
        name
    }
}

/// The texts of a prefix of the parts start the texts of all of them
pub proof fn lemma_argument_texts_prefix(parts: Seq<CallPart>, m: nat, n: nat)
    requires
        m <= n <= parts.len(),
    ensures
        argument_texts(parts, m).len() <= argument_texts(parts, n).len(),
        argument_texts(parts, m) == argument_texts(parts, n).subrange(0, argument_texts(parts, m).len() as int),
    decreases n,
{
    if m < n {
        lemma_argument_texts_prefix(parts, m, (n - 1) as nat);
        assert(argument_texts(parts, (n - 1) as nat) =~= argument_texts(parts, n).subrange(
            0,
            argument_texts(parts, (n - 1) as nat).len() as int,
        ));
    } else {
        assert(argument_texts(parts, m) =~= argument_texts(parts, n).subrange(0, argument_texts(parts, m).len() as int));
    }
}

} // verus!
