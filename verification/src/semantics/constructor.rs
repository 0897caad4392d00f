use vstd::prelude::*;

use crate::semantics::call::{Argument, is_generic, type_is_generic};
use crate::semantics::convertible::{
    Adjustment, ConversionRequest as ValueConversion, Value, adjustment, all_well_formed,
    convertible_outcome, copy_types, finishes, fresh_context,
};
use crate::semantics::generic_context::{ContextView, GenericContext, contexts_view, own_mapping, well_formed};
use crate::semantics::convertible::min_len;
use crate::semantics::conversion::{lemma_tys_view, tys_view,
    conversion, ConversionRequest, Declarations, Failure, NotConvertible, Span, Ty, TyView,
    TypeWithSpan,
};

verus! {

/// A member of a class: its name, its type and the range of its name
#[derive(Debug)]
pub struct Member {
    pub name: String,
    pub ty: Ty,
    pub at: Span,
}

/// An initializer of a constructor: the member it names, and its lowered value
#[derive(Debug)]
pub struct Initializer {
    pub name: String,
    pub name_at: Span,
    pub value: Argument,
    pub at: Span,
}

/// A constructor whose type and values are lowered: the type constructed,
/// the range of the type and of its name, the generic parameters of its
/// class, the members of the type, and the initializers in source order
#[derive(Debug)]
pub struct ConstructorSite {
    pub ty: Ty,
    pub ty_at: Span,
    pub name_at: Span,
    pub generic_parameters: Vec<Ty>,
    pub members: Vec<Member>,
    pub initializers: Vec<Initializer>,
}

/// A lowered constructor: the type it makes, and for each initializer, in
/// source order, what lowering it gives
#[derive(Debug)]
pub struct Constructed<I> {
    pub ty: Ty,
    pub initializers: Vec<I>,
}

/// Why a constructor is wrong
#[derive(Debug)]
pub enum ConstructorError {
    /// The type constructed is not a class
    NonClassConstructor { ty: TypeWithSpan },
    /// A value does not convert to its member's type
    NotConvertible(NotConvertible),
    /// The type has no member of that name
    NoMember { name: String, at: Span, ty: Ty, base_span: Span },
    /// A member is initialized twice
    MultipleInitialization { name: String, first_at: Span, repeated_at: Span },
    /// Members that no initializer names, in the order of the members
    MissingFields { ty: Ty, at: Span, fields: Vec<String> },
}

/// Why a constructor is wrong, as a mathematical value
pub enum ConstructorFailure {
    NonClass { ty: TyView, at: Span },
    Conversion(Failure),
    NoMember { name: Seq<char>, at: Span, ty: TyView, base_span: Span },
    Repeated { name: Seq<char>, first_at: Span, repeated_at: Span },
    Missing { ty: TyView, at: Span, fields: Seq<Seq<char>> },
}

impl View for ConstructorError {
    type V = ConstructorFailure;

    open spec fn view(&self) -> ConstructorFailure {
        match self {
            ConstructorError::NonClassConstructor { ty } => ConstructorFailure::NonClass { ty: ty.ty@, at: ty.at },
            ConstructorError::NotConvertible(e) => ConstructorFailure::Conversion(e@),
            ConstructorError::NoMember { name, at, ty, base_span } => ConstructorFailure::NoMember {
                name: name@,
                at: *at,
                ty: ty@,
                base_span: *base_span,
            },
            ConstructorError::MultipleInitialization { name, first_at, repeated_at } => ConstructorFailure::Repeated {
                name: name@,
                first_at: *first_at,
                repeated_at: *repeated_at,
            },
            ConstructorError::MissingFields { ty, at, fields } => ConstructorFailure::Missing {
                ty: ty@,
                at: *at,
                fields: fields@.map_values(|f: String| f@),
            },
        }
    }
}

/// The first member named `name`, from the `from`-th on
pub open spec fn member_index(members: Seq<Member>, name: Seq<char>, from: int) -> Option<int>
    decreases members.len() - from,
{
    if from < 0 || from >= members.len() {
        None
    } else if members[from].name@ == name {
        Some(from)
    } else {
        member_index(members, name, from + 1)
    }
}

/// The first place of `i` in `done`, from the `from`-th on
pub open spec fn position(done: Seq<int>, i: int, from: int) -> Option<int>
    decreases done.len() - from,
{
    if from < 0 || from >= done.len() {
        None
    } else if done[from] == i {
        Some(from)
    } else {
        position(done, i, from + 1)
    }
}

/// Initializing with the first `n` initializers: the members they
/// initialize, in order, or the first error
pub open spec fn initialization(d: Declarations, c: ConstructorSite, n: nat) -> Result<Seq<int>, ConstructorFailure>
    decreases n,
{
    if n == 0 || n > c.initializers@.len() {
        Ok(Seq::empty())
    } else {
        match initialization(d, c, (n - 1) as nat) {
            Err(e) => Err(e),
            Ok(done) => {
                let init = c.initializers@[n - 1];
                match member_index(c.members@, init.name@, 0) {
                    None => Err(ConstructorFailure::NoMember {
                        name: init.name@,
                        at: init.name_at,
                        ty: c.ty@,
                        base_span: c.ty_at,
                    }),
                    Some(i) => {
                        let m = c.members@[i];
                        match conversion(d, init.value.ty@, init.value.at, m.ty@, m.at) {
                            Err(e) => Err(ConstructorFailure::Conversion(e)),
                            Ok(_) => match position(done, i, 0) {
                                Some(p) => Err(ConstructorFailure::Repeated {
                                    name: m.name@,
                                    first_at: c.initializers@[p].at,
                                    repeated_at: init.at,
                                }),
                                None => Ok(done.push(i)),
                            },
                        }
                    },
                }
            },
        }
    }
}

/// Names of the members among the first `n` that are not initialized
pub open spec fn missing_fields(members: Seq<Member>, done: Seq<int>, n: nat) -> Seq<Seq<char>>
    decreases n,
{
    if n == 0 || n > members.len() {
        Seq::empty()
    } else if position(done, n - 1, 0) is Some {
        missing_fields(members, done, (n - 1) as nat)
    } else {
        missing_fields(members, done, (n - 1) as nat).push(members[n - 1].name@)
    }
}

/// The outcome of a constructor: for each initializer, the member it
/// initializes; or the first error in source order, and at the end the
/// members left uninitialized
pub open spec fn construction(d: Declarations, c: ConstructorSite) -> Result<Seq<int>, ConstructorFailure> {
    if !(c.ty@ is Class) {
        Err(ConstructorFailure::NonClass { ty: c.ty@, at: c.ty_at })
    } else {
        match initialization(d, c, c.initializers@.len()) {
            Err(e) => Err(e),
            Ok(done) => if done.len() != c.members@.len() {
                Err(ConstructorFailure::Missing {
                    ty: c.ty@,
                    at: c.name_at,
                    fields: missing_fields(c.members@, done, c.members@.len()),
                })
            } else {
                Ok(done)
            },
        }
    }
}

/// The first member named `name`
fn find_member(members: &Vec<Member>, name: &String) -> (r: Option<usize>)
    ensures
        match r {
            Some(i) => i < members@.len() && member_index(members@, name@, 0) == Some(i as int),
            None => member_index(members@, name@, 0) is None,
        },
{
    let mut i: usize = 0;
    while i < members.len()
        invariant
            i <= members@.len(),
            member_index(members@, name@, 0) == member_index(members@, name@, i as int),
        decreases members@.len() - i,
    {
        if members[i].name == *name {
            return Some(i);
        }
        i = i + 1;
    }
    None
}

/// The first place of the member `i` among those initialized
fn position_of(done: &Vec<usize>, i: usize) -> (r: Option<usize>)
    ensures
        match r {
            Some(p) => p < done@.len() && position(done@.map_values(|x: usize| x as int), i as int, 0) == Some(p as int),
            None => position(done@.map_values(|x: usize| x as int), i as int, 0) is None,
        },
{
    let ghost seen = done@.map_values(|x: usize| x as int);
    let mut p: usize = 0;
    while p < done.len()
        invariant
            p <= done@.len(),
            seen == done@.map_values(|x: usize| x as int),
            position(seen, i as int, 0) == position(seen, i as int, p as int),
        decreases done@.len() - p,
    {
        assert(seen[p as int] == done@[p as int] as int);
        if done[p] == i {
            return Some(p);
        }
        p = p + 1;
    }
    None
}

/// What a member's type says of the generic parameters, given the type of
/// the value it is initialized with: a generic parameter stands for the
/// value's type; a class, argument by argument, for the same class; a
/// reference, for what it refers to
pub open spec fn diff(a: TyView, b: TyView) -> Seq<(TyView, TyView)>
    decreases a, 0nat,
{
    match a {
        TyView::Generic { .. } => seq![(a, b)],
        TyView::Class { class, generics, .. } => match b {
            TyView::Class { class: c, generics: g, .. } => if class == c {
                diffs(generics, g, min_len(generics, g))
            } else {
                Seq::empty()
            },
            _ => Seq::empty(),
        },
        TyView::Reference { to, .. } => match b {
            TyView::Reference { to: t, .. } => diff(*to, *t),
            _ => Seq::empty(),
        },
        _ => Seq::empty(),
    }
}

/// The differences of the first `n` pairs of types, in order
pub open spec fn diffs(a: Seq<TyView>, b: Seq<TyView>, n: nat) -> Seq<(TyView, TyView)>
    decreases a, n,
{
    if n == 0 || n > a.len() || n > b.len() {
        Seq::empty()
    } else {
        diffs(a, b, (n - 1) as nat) + diff(a[n - 1], b[n - 1])
    }
}

/// The generic parameters deduced from the first `n` initializers: for each
/// that names a member whose type is generic, the differences of the
/// member's type and the value's, in order
pub open spec fn deduced(c: ConstructorSite, n: nat) -> Seq<(TyView, TyView)>
    decreases n,
{
    if n == 0 || n > c.initializers@.len() {
        Seq::empty()
    } else {
        let init = c.initializers@[n - 1];
        match member_index(c.members@, init.name@, 0) {
            Some(i) => if is_generic(c.members@[i].ty@) {
                deduced(c, (n - 1) as nat) + diff(c.members@[i].ty@, init.value.ty@)
            } else {
                deduced(c, (n - 1) as nat)
            },
            None => deduced(c, (n - 1) as nat),
        }
    }
}

/// What `g` stands for in the mapping: the last entry for it among the
/// first `n`, a later entry replacing an earlier one
pub open spec fn lookup(map: Seq<(TyView, TyView)>, g: TyView, n: nat) -> Option<TyView>
    decreases n,
{
    if n == 0 || n > map.len() {
        None
    } else if map[n - 1].0 == g {
        Some(map[n - 1].1)
    } else {
        lookup(map, g, (n - 1) as nat)
    }
}

/// A generic argument replaced by what the mapping says it stands for
pub open spec fn replaced(map: Seq<(TyView, TyView)>, g: TyView) -> TyView {
    match lookup(map, g, map.len()) {
        Some(v) => v,
        None => g,
    }
}

/// The class specialized with the mapping: each generic argument replaced
/// by what it stands for
pub open spec fn specialize_class(t: TyView, map: Seq<(TyView, TyView)>) -> TyView {
    match t {
        TyView::Class { class, generics, .. } => TyView::Class {
            class,
            specialized: true,
            generics: generics.map_values(|g: TyView| replaced(map, g)),
        },
        _ => t,
    }
}

/// The type a constructor makes: a generic class specialized with the
/// generic parameters that its initializers deduce; any other as it is
pub open spec fn constructed_type(c: ConstructorSite) -> TyView {
    if is_generic(c.ty@) {
        specialize_class(c.ty@, deduced(c, c.initializers@.len()))
    } else {
        c.ty@
    }
}

/// The pairs of types as mathematical values
pub open spec fn pairs_of(v: Seq<(Ty, Ty)>) -> Seq<(TyView, TyView)> {
    v.map_values(|p: (Ty, Ty)| (p.0@, p.1@))
}

/// Add the differences of `a` against `b`
fn diff_into(a: &Ty, b: &Ty, out: &mut Vec<(Ty, Ty)>)
    ensures
        pairs_of(final(out)@) == pairs_of(old(out)@) + diff(a@, b@),
    decreases a,
{
    let ghost start = pairs_of(out@);
    match a {
        Ty::Generic { .. } => {
            out.push((a.clone(), b.clone()));
            assert(pairs_of(out@) =~= start + diff(a@, b@));
        },
        Ty::Class { class, generics: ag, .. } => match b {
            Ty::Class { class: c, generics: bg, .. } => {
                if *class != *c {
                    assert(pairs_of(out@) =~= start + diff(a@, b@));
                    return;
                }
                proof {
                    lemma_tys_view(ag@, ag@.len());
                    lemma_tys_view(bg@, bg@.len());
                }
                let ghost av = tys_view(ag@, ag@.len());
                let ghost bv = tys_view(bg@, bg@.len());
                let n = if ag.len() <= bg.len() {
                    ag.len()
                } else {
                    bg.len()
                };
                let mut k: usize = 0;
                assert(start + diffs(av, bv, 0) =~= start);
                while k < n
                    invariant
                        k <= n,
                        n == min_len(av, bv),
                        a is Class,
                        *ag == a->Class_generics,
                        av == tys_view(ag@, ag@.len()),
                        bv == tys_view(bg@, bg@.len()),
                        av.len() == ag@.len(),
                        bv.len() == bg@.len(),
                        forall|j: int| 0 <= j < ag@.len() ==> #[trigger] av[j] == ag@[j]@,
                        forall|j: int| 0 <= j < bg@.len() ==> #[trigger] bv[j] == bg@[j]@,
                        pairs_of(out@) == start + diffs(av, bv, k as nat),
                    decreases n - k,
                {
                    proof {
                        assert(decreases_to!(*a => a->Class_generics));
                        assert(decreases_to!(a->Class_generics => a->Class_generics@));
                        assert(decreases_to!(a->Class_generics@ => a->Class_generics@[k as int]));
                        assert(av[k as int] == ag@[k as int]@);
                        assert(bv[k as int] == bg@[k as int]@);
                    }
                    diff_into(&ag[k], &bg[k], out);
                    proof {
                        assert(start + diffs(av, bv, (k + 1) as nat) =~= start + diffs(av, bv, k as nat) + diff(
                            av[k as int],
                            bv[k as int],
                        ));
                    }
                    k = k + 1;
                }
            },
            _ => {
                assert(pairs_of(out@) =~= start + diff(a@, b@));
            },
        },
        Ty::Reference { to, .. } => match b {
            Ty::Reference { to: t, .. } => {
                let x: &Ty = to;
                let y: &Ty = t;
                diff_into(x, y, out);
            },
            _ => {
                assert(pairs_of(out@) =~= start + diff(a@, b@));
            },
        },
        _ => {
            assert(pairs_of(out@) =~= start + diff(a@, b@));
        },
    }
}

/// What `g` stands for in the mapping
fn lookup_in(map: &Vec<(Ty, Ty)>, g: &Ty) -> (r: Option<Ty>)
    ensures
        match r {
            Some(v) => lookup(pairs_of(map@), g@, map@.len()) == Some(v@),
            None => lookup(pairs_of(map@), g@, map@.len()) is None,
        },
{
    let ghost m = pairs_of(map@);
    let mut n: usize = map.len();
    while n > 0
        invariant
            n <= map@.len(),
            m == pairs_of(map@),
            lookup(m, g@, map@.len()) == lookup(m, g@, n as nat),
        decreases n,
    {
        assert(m[n - 1] == (map@[n - 1].0@, map@[n - 1].1@));
        if map[n - 1].0.same_as(g) {
            return Some(map[n - 1].1.clone());
        }
        n = n - 1;
    }
    None
}

/// The class specialized with the mapping
pub(crate) fn specialize_with(t: &Ty, map: &Vec<(Ty, Ty)>) -> (r: Ty)
    ensures
        r@ == specialize_class(t@, pairs_of(map@)),
{
    match t {
        Ty::Class { class, generics, .. } => {
            proof {
                lemma_tys_view(generics@, generics@.len());
            }
            let ghost gv = tys_view(generics@, generics@.len());
            let mut out: Vec<Ty> = Vec::new();
            let mut k: usize = 0;
            while k < generics.len()
                invariant
                    k <= generics@.len(),
                    gv == tys_view(generics@, generics@.len()),
                    gv.len() == generics@.len(),
                    forall|j: int| 0 <= j < generics@.len() ==> #[trigger] gv[j] == generics@[j]@,
                    out@.len() == k,
                    forall|j: int| 0 <= j < k ==> #[trigger] out@[j]@ == replaced(pairs_of(map@), gv[j]),
                decreases generics@.len() - k,
            {
                assert(gv[k as int] == generics@[k as int]@);
                let g = match lookup_in(map, &generics[k]) {
                    Some(v) => v,
                    None => generics[k].clone(),
                };
                out.push(g);
                k = k + 1;
            }
            proof {
                lemma_tys_view(out@, out@.len());
                let ghost a = tys_view(out@, out@.len());
                let ghost b = gv.map_values(|g: TyView| replaced(pairs_of(map@), g));
                assert forall|j: int| 0 <= j < a.len() implies #[trigger] a[j] == b[j] by {
                    assert(out@[j]@ == replaced(pairs_of(map@), gv[j]));
                }
                assert(a =~= b);
            }
            Ty::Class { class: *class, specialized: true, generics: out }
        },
        _ => t.clone(),
    }
}

impl ConstructorSite {
    /// The generic parameters that the initializers deduce
    fn deduce(&self) -> (map: Vec<(Ty, Ty)>)
        ensures
            pairs_of(map@) == deduced(*self, self.initializers@.len()),
    {
        let mut map: Vec<(Ty, Ty)> = Vec::new();
        let mut k: usize = 0;
        assert(pairs_of(map@) =~= Seq::empty());
        while k < self.initializers.len()
            invariant
                k <= self.initializers@.len(),
                pairs_of(map@) == deduced(*self, k as nat),
            decreases self.initializers@.len() - k,
        {
            let init = &self.initializers[k];
            match find_member(&self.members, &init.name) {
                Some(i) => {
                    if type_is_generic(&self.members[i].ty) {
                        diff_into(&self.members[i].ty, &init.value.ty, &mut map);
                    }
                },
                None => {},
            }
            k = k + 1;
        }
        map
    }

    /// The type the constructor makes
    pub fn constructed_type(&self) -> (t: Ty)
        ensures
            t@ == constructed_type(*self),
    {
        if type_is_generic(&self.ty) {
            let map = self.deduce();
            specialize_with(&self.ty, &map)
        } else {
            self.ty.clone()
        }
    }
}

impl ConstructorSite {
    /// Initialize with the `k`-th initializer
    fn initialize(&self, context: &Declarations, done: &mut Vec<usize>, k: usize) -> (r: Result<(), ConstructorError>)
        requires
            k < self.initializers@.len(),
            old(done)@.len() == k,
            initialization(*context, *self, k as nat) == Ok::<Seq<int>, ConstructorFailure>(
                old(done)@.map_values(|i: usize| i as int),
            ),
        ensures
            match r {
                Ok(_) => final(done)@.len() == k + 1 && initialization(*context, *self, (k + 1) as nat) == Ok::<Seq<int>, ConstructorFailure>(
                    final(done)@.map_values(|i: usize| i as int),
                ),
                Err(e) => initialization(*context, *self, (k + 1) as nat) == Err::<Seq<int>, ConstructorFailure>(e@),
            },
    {
        let ghost before = done@.map_values(|i: usize| i as int);
        let init = &self.initializers[k];
        match find_member(&self.members, &init.name) {
            None => Err(ConstructorError::NoMember {
                name: init.name.clone(),
                at: init.name_at,
                ty: self.ty.clone(),
                base_span: self.ty_at,
            }),
            Some(i) => {
                let m = &self.members[i];
                let request = ConversionRequest {
                    from: init.value.ty.clone(),
                    from_at: init.value.at,
                    to: m.ty.clone(),
                    to_at: m.at,
                };
                match request.within(context) {
                    Err(e) => {
                        return Err(ConstructorError::NotConvertible(e));
                    },
                    Ok(_) => {},
                }
                match position_of(done, i) {
                    Some(p) => Err(ConstructorError::MultipleInitialization {
                        name: m.name.clone(),
                        first_at: self.initializers[p].at,
                        repeated_at: init.at,
                    }),
                    None => {
                        done.push(i);
                        assert(done@.map_values(|i: usize| i as int) =~= before.push(i as int));
                        Ok(())
                    },
                }
            },
        }
    }

    /// Names of the members that `done` leaves uninitialized, in order
    fn missing(&self, done: &Vec<usize>) -> (fields: Vec<String>)
        ensures
            fields@.map_values(|f: String| f@) == missing_fields(
                self.members@,
                done@.map_values(|i: usize| i as int),
                self.members@.len(),
            ),
    {
        let mut fields: Vec<String> = Vec::new();
        let mut j: usize = 0;
        let ghost seen = done@.map_values(|i: usize| i as int);
        assert(fields@.map_values(|f: String| f@) =~= Seq::empty());
        while j < self.members.len()
            invariant
                j <= self.members@.len(),
                seen == done@.map_values(|i: usize| i as int),
                fields@.map_values(|f: String| f@) == missing_fields(self.members@, seen, j as nat),
            decreases self.members@.len() - j,
        {
            let found = position_of(done, j);
            if found.is_none() {
                fields.push(self.members[j].name.clone());
                assert(fields@.map_values(|f: String| f@) =~= missing_fields(self.members@, seen, j as nat).push(
                    self.members@[j as int].name@,
                ));
            }
            j = j + 1;
        }
        fields
    }

    /// Lower the constructor: for each initializer, in source order, the
    /// member it initializes, after its value converts to the member's type;
    /// or the first error, and at the end the members left uninitialized
    pub fn lower_to_hir_within_context(&self, context: &Declarations) -> (r: Result<Constructed<usize>, ConstructorError>)
        ensures
            match r {
                Ok(c) => construction(*context, *self) == Ok::<Seq<int>, ConstructorFailure>(
                    c.initializers@.map_values(|i: usize| i as int),
                ) && c.ty@ == constructed_type(*self),
                Err(e) => construction(*context, *self) == Err::<Seq<int>, ConstructorFailure>(e@),
            },
    {
        if !matches!(self.ty, Ty::Class { .. }) {
            return Err(ConstructorError::NonClassConstructor { ty: TypeWithSpan { ty: self.ty.clone(), at: self.ty_at } });
        }
        let mut done: Vec<usize> = Vec::new();
        let mut k: usize = 0;
        assert(done@.map_values(|i: usize| i as int) =~= Seq::empty());
        while k < self.initializers.len()
            invariant
                k <= self.initializers@.len(),
                done@.len() == k,
                self.ty@ is Class,
                initialization(*context, *self, k as nat) == Ok::<Seq<int>, ConstructorFailure>(
                    done@.map_values(|i: usize| i as int),
                ),
            decreases self.initializers@.len() - k,
        {
            match self.initialize(context, &mut done, k) {
                Ok(_) => {},
                Err(e) => {
                    proof {
                        lemma_initialization_failed(*context, *self, (k + 1) as nat, self.initializers@.len());
                    }
                    return Err(e);
                },
            }
            k = k + 1;
        }
        if done.len() != self.members.len() {
            let fields = self.missing(&done);
            return Err(ConstructorError::MissingFields { ty: self.ty.clone(), at: self.name_at, fields });
        }
        Ok(Constructed { ty: self.constructed_type(), initializers: done })
    }
}

/// Once initializing fails, it stays failed with the same error
pub proof fn lemma_initialization_failed(d: Declarations, c: ConstructorSite, m: nat, n: nat)
    requires
        m <= n <= c.initializers@.len(),
        initialization(d, c, m) is Err,
    ensures
        initialization(d, c, n) == initialization(d, c, m),
    decreases n,
{
    if m < n {
        lemma_initialization_failed(d, c, m, (n - 1) as nat);
    }
}

/// The first member of a name is one of the members, and has that name
pub proof fn lemma_member_index(members: Seq<Member>, name: Seq<char>, from: int)
    requires
        0 <= from,
    ensures
        member_index(members, name, from) matches Some(i) ==> from <= i < members.len() && members[i].name@ == name,
    decreases members.len() - from,
{
    if from < members.len() && members[from].name@ != name {
        lemma_member_index(members, name, from + 1);
    }
}

/// Where `position` finds nothing, `i` is not there
pub proof fn lemma_position_none(done: Seq<int>, i: int, from: int)
    requires
        0 <= from,
        position(done, i, from) is None,
    ensures
        forall|j: int| from <= j < done.len() ==> done[j] != i,
    decreases done.len() - from,
{
    if from < done.len() {
        lemma_position_none(done, i, from + 1);
    }
}

/// Initializing names each member at most once, and only members of the class
pub proof fn lemma_initialization_distinct(d: Declarations, c: ConstructorSite, n: nat)
    requires
        initialization(d, c, n) is Ok,
        n <= c.initializers@.len(),
    ensures
        initialization(d, c, n)->Ok_0.len() == n,
        initialization(d, c, n)->Ok_0.no_duplicates(),
        forall|j: int| 0 <= j < n ==> 0 <= #[trigger] initialization(d, c, n)->Ok_0[j] < c.members@.len(),
    decreases n,
{
    if n > 0 {
        lemma_initialization_distinct(d, c, (n - 1) as nat);
        let done = initialization(d, c, (n - 1) as nat)->Ok_0;
        let init = c.initializers@[n - 1];
        lemma_member_index(c.members@, init.name@, 0);
        let i = member_index(c.members@, init.name@, 0)->Some_0;
        lemma_position_none(done, i, 0);
    }
}

/// A constructor that lowers initializes every member of its class exactly
/// once: its initializers name the members in some order, each one once
pub proof fn lemma_construction_initializes_each_member_once(d: Declarations, c: ConstructorSite)
    requires
        construction(d, c) is Ok,
    ensures
        construction(d, c)->Ok_0.len() == c.members@.len(),
        construction(d, c)->Ok_0.no_duplicates(),
        forall|m: int| 0 <= m < c.members@.len() ==> construction(d, c)->Ok_0.contains(m),
{
    let done = construction(d, c)->Ok_0;
    lemma_initialization_distinct(d, c, c.initializers@.len());
    let all = vstd::set_lib::set_int_range(0, c.members@.len() as int);
    vstd::set_lib::lemma_int_range(0, c.members@.len() as int);
    done.unique_seq_to_set();
    assert(done.to_set().subset_of(all)) by {
        assert forall|x: int| done.to_set().contains(x) implies all.contains(x) by {
            let j = choose|j: int| 0 <= j < done.len() && done[j] == x;
            assert(0 <= done[j] < c.members@.len());
        }
    }
    vstd::set_lib::lemma_subset_equality(done.to_set(), all);
    assert forall|m: int| 0 <= m < c.members@.len() implies done.contains(m) by {
        assert(all.contains(m));
        assert(done.to_set().contains(m));
    }
}

/// The value of the `n`-th initializer
pub open spec fn initializer_value(c: ConstructorSite, n: int) -> Value {
    Value { ty: c.initializers@[n].value.ty, at: c.initializers@[n].value.at, mutable: c.initializers@[n].value.mutable }
}

/// The members initialized so far
pub open spec fn members_of(done: Seq<(int, Adjustment)>) -> Seq<int> {
    done.map_values(|x: (int, Adjustment)| x.0)
}

/// Initializing with the first `n` initializers within the generic
/// contexts `cs`, the constructor's own on top: for each, the member it
/// initializes and what converting its value does; or the first error; and
/// the contexts after. `None` where a check does not finish.
pub open spec fn initialization_in(
    d: Declarations,
    cs: Seq<ContextView>,
    c: ConstructorSite,
    n: nat,
) -> Option<(Result<Seq<(int, Adjustment)>, ConstructorFailure>, Seq<ContextView>)>
    decreases n,
{
    if n == 0 || n > c.initializers@.len() {
        Some((Ok(Seq::empty()), cs))
    } else {
        match initialization_in(d, cs, c, (n - 1) as nat) {
            None => None,
            Some((Err(e), s)) => Some((Err(e), s)),
            Some((Ok(done), s)) => {
                let init = c.initializers@[n - 1];
                match member_index(c.members@, init.name@, 0) {
                    None => Some((
                        Err(ConstructorFailure::NoMember { name: init.name@, at: init.name_at, ty: c.ty@, base_span: c.ty_at }),
                        s,
                    )),
                    Some(i) => {
                        let m = c.members@[i];
                        let v = initializer_value(c, n - 1);
                        if !finishes(d, s, v.ty@, m.ty@) {
                            None
                        } else {
                            let (verdict, after) = convertible_outcome(d, s, v.ty@, m.ty@)->Some_0;
                            match adjustment(v, m.ty@, m.at, verdict) {
                                Err(e) => Some((Err(ConstructorFailure::Conversion(e)), after)),
                                Ok(a) => match position(members_of(done), i, 0) {
                                    Some(p) => Some((
                                        Err(ConstructorFailure::Repeated {
                                            name: m.name@,
                                            first_at: c.initializers@[p].at,
                                            repeated_at: init.at,
                                        }),
                                        after,
                                    )),
                                    None => Some((Ok(done.push((i, a))), after)),
                                },
                            }
                        }
                    },
                }
            },
        }
    }
}

/// The outcome of a constructor within the generic contexts `cs`: the
/// class's own generic context is put on top while the initializers are
/// checked, and taken away after
pub open spec fn construction_in(d: Declarations, cs: Seq<ContextView>, c: ConstructorSite) -> Option<(Result<Seq<(int, Adjustment)>, ConstructorFailure>, Seq<ContextView>)> {
    if !(c.ty@ is Class) {
        Some((Err(ConstructorFailure::NonClass { ty: c.ty@, at: c.ty_at }), cs))
    } else {
        let inner = cs.push(fresh_context(c.generic_parameters@.map_values(|t: Ty| t@)));
        match initialization_in(d, inner, c, c.initializers@.len()) {
            None => None,
            Some((Err(e), s)) => Some((Err(e), s.drop_last())),
            Some((Ok(done), s)) => if done.len() != c.members@.len() {
                Some((
                    Err(ConstructorFailure::Missing {
                        ty: c.ty@,
                        at: c.name_at,
                        fields: missing_fields(c.members@, members_of(done), c.members@.len()),
                    }),
                    s.drop_last(),
                ))
            } else {
                Some((Ok(done), s.drop_last()))
            },
        }
    }
}

/// The type a constructor makes within its own generic context `top`: a
/// generic class with each generic argument replaced by what it stands for
/// there; any other type as it is
pub open spec fn type_in_context(c: ConstructorSite, top: ContextView) -> TyView {
    if is_generic(c.ty@) {
        match c.ty@ {
            TyView::Class { class, generics, .. } => TyView::Class {
                class,
                specialized: true,
                generics: generics.map_values(|g: TyView| match own_mapping(top, g) {
                    Some(v) => v,
                    None => g,
                }),
            },
            _ => c.ty@,
        }
    } else {
        c.ty@
    }
}

/// The type a lowered constructor makes: taken in its own generic context
/// as the last initializer leaves it
pub open spec fn constructed_in(d: Declarations, cs: Seq<ContextView>, c: ConstructorSite) -> TyView {
    let inner = cs.push(fresh_context(c.generic_parameters@.map_values(|t: Ty| t@)));
    type_in_context(c, initialization_in(d, inner, c, c.initializers@.len())->Some_0.1.last())
}

/// The type made in the generic context
fn type_in(c: &ConstructorSite, scope: &GenericContext) -> (t: Ty)
    requires
        well_formed(scope@),
    ensures
        t@ == type_in_context(*c, scope@),
{
    if !type_is_generic(&c.ty) {
        return c.ty.clone();
    }
    match &c.ty {
        Ty::Class { class, generics, .. } => {
            proof {
                lemma_tys_view(generics@, generics@.len());
            }
            let ghost gv = tys_view(generics@, generics@.len());
            let mut out: Vec<Ty> = Vec::new();
            let mut k: usize = 0;
            while k < generics.len()
                invariant
                    k <= generics@.len(),
                    well_formed(scope@),
                    gv == tys_view(generics@, generics@.len()),
                    gv.len() == generics@.len(),
                    forall|j: int| 0 <= j < generics@.len() ==> #[trigger] gv[j] == generics@[j]@,
                    out@.len() == k,
                    forall|j: int| 0 <= j < k ==> #[trigger] out@[j]@ == (match own_mapping(scope@, gv[j]) {
                        Some(v) => v,
                        None => gv[j],
                    }),
                decreases generics@.len() - k,
            {
                assert(gv[k as int] == generics@[k as int]@);
                let g = match scope.find_parameter(&generics[k]) {
                    Some(p) => match &scope.generics_mapping[p] {
                        Some(v) => v.clone(),
                        None => generics[k].clone(),
                    },
                    None => generics[k].clone(),
                };
                out.push(g);
                k = k + 1;
            }
            proof {
                lemma_tys_view(out@, out@.len());
                let ghost a = tys_view(out@, out@.len());
                let ghost b = gv.map_values(|g: TyView| match own_mapping(scope@, g) {
                    Some(v) => v,
                    None => g,
                });
                assert forall|j: int| 0 <= j < a.len() implies #[trigger] a[j] == b[j] by {
                    assert(out@[j]@ == (match own_mapping(scope@, gv[j]) {
                        Some(v) => v,
                        None => gv[j],
                    }));
                }
                assert(a =~= b);
            }
            Ty::Class { class: *class, specialized: true, generics: out }
        },
        _ => c.ty.clone(),
    }
}

/// A finished initialization finished each of its steps, and keeps its
/// first error
pub proof fn lemma_initialization_in_prefix(d: Declarations, cs: Seq<ContextView>, c: ConstructorSite, k: nat, n: nat)
    requires
        k <= n <= c.initializers@.len(),
        initialization_in(d, cs, c, n) is Some,
    ensures
        initialization_in(d, cs, c, k) is Some,
        initialization_in(d, cs, c, k) matches Some((Err(e), s)) ==> initialization_in(d, cs, c, n) == Some((Err::<Seq<(int, Adjustment)>, ConstructorFailure>(e), s)),
    decreases n,
{
    if k < n {
        lemma_initialization_in_prefix(d, cs, c, k, (n - 1) as nat);
    }
}

/// The pairs of members and adjustments as mathematical values
pub open spec fn pairs_view(done: Seq<(usize, Adjustment)>) -> Seq<(int, Adjustment)> {
    done.map_values(|x: (usize, Adjustment)| (x.0 as int, x.1))
}

impl ConstructorSite {
    /// Initialize with the `k`-th initializer within the generic contexts
    fn initialize_in(
        &self,
        context: &Declarations,
        contexts: &mut Vec<GenericContext>,
        done: &mut Vec<(usize, Adjustment)>,
        members: &mut Vec<usize>,
        k: usize,
        Ghost(cs0): Ghost<Seq<ContextView>>,
    ) -> (r: Result<(), ConstructorError>)
        requires
            k < self.initializers@.len(),
            old(done)@.len() == k,
            old(members)@.map_values(|i: usize| i as int) == members_of(pairs_view(old(done)@)),
            all_well_formed(old(contexts)@),
            initialization_in(*context, cs0, *self, (k + 1) as nat) is Some,
            initialization_in(*context, cs0, *self, k as nat) == Some((
                Ok::<Seq<(int, Adjustment)>, ConstructorFailure>(pairs_view(old(done)@)),
                contexts_view(old(contexts)@),
            )),
        ensures
            all_well_formed(final(contexts)@),
            final(contexts)@.len() == old(contexts)@.len(),
            initialization_in(*context, cs0, *self, (k + 1) as nat) == Some((
                match r {
                    Ok(_) => Ok::<Seq<(int, Adjustment)>, ConstructorFailure>(pairs_view(final(done)@)),
                    Err(e) => Err::<Seq<(int, Adjustment)>, ConstructorFailure>(e@),
                },
                contexts_view(final(contexts)@),
            )),
            r is Ok ==> final(done)@.len() == k + 1
                && final(members)@.map_values(|i: usize| i as int) == members_of(pairs_view(final(done)@)),
    {
        let ghost before = pairs_view(done@);
        let init = &self.initializers[k];
        match find_member(&self.members, &init.name) {
            None => Err(ConstructorError::NoMember {
                name: init.name.clone(),
                at: init.name_at,
                ty: self.ty.clone(),
                base_span: self.ty_at,
            }),
            Some(i) => {
                let m = &self.members[i];
                let request = ValueConversion {
                    from: Value { ty: init.value.ty.clone(), at: init.value.at, mutable: init.value.mutable },
                    to: m.ty.clone(),
                    to_at: m.at,
                };
                let a = match request.within(contexts, context) {
                    Err(e) => {
                        return Err(ConstructorError::NotConvertible(e));
                    },
                    Ok(a) => a,
                };
                proof {
                    assert(members@.map_values(|i: usize| i as int) == members_of(before));
                }
                match position_of(members, i) {
                    Some(p) => Err(ConstructorError::MultipleInitialization {
                        name: m.name.clone(),
                        first_at: self.initializers[p].at,
                        repeated_at: init.at,
                    }),
                    None => {
                        let ghost old_members = members@.map_values(|i: usize| i as int);
                        done.push((i, a));
                        members.push(i);
                        proof {
                            assert(pairs_view(done@) =~= before.push((i as int, a)));
                            assert(members_of(before.push((i as int, a))) =~= members_of(before).push(i as int));
                            assert(members@.map_values(|i: usize| i as int) =~= old_members.push(i as int));
                        }
                        Ok(())
                    },
                }
            },
        }
    }

    /// Lower the constructor within the generic contexts: the class's own
    /// generic context is put on top while each initializer, in source
    /// order, names its member and its value converts to the member's type;
    /// the first error stops it, and at the end the members left
    /// uninitialized are reported. For each initializer, the member it
    /// initializes and what converting its value does.
    pub fn to_hir(&self, context: &Declarations, contexts: &mut Vec<GenericContext>) -> (r: Result<Constructed<(usize, Adjustment)>, ConstructorError>)
        requires
            all_well_formed(old(contexts)@),
            construction_in(*context, contexts_view(old(contexts)@), *self) is Some,
        ensures
            all_well_formed(final(contexts)@),
            r matches Ok(c) ==> c.ty@ == constructed_in(*context, contexts_view(old(contexts)@), *self),
            construction_in(*context, contexts_view(old(contexts)@), *self) == Some((
                match r {
                    Ok(c) => Ok::<Seq<(int, Adjustment)>, ConstructorFailure>(pairs_view(c.initializers@)),
                    Err(e) => Err::<Seq<(int, Adjustment)>, ConstructorFailure>(e@),
                },
                contexts_view(final(contexts)@),
            )),
    {
        if !matches!(self.ty, Ty::Class { .. }) {
            return Err(ConstructorError::NonClassConstructor { ty: TypeWithSpan { ty: self.ty.clone(), at: self.ty_at } });
        }
        let ghost outer = contexts_view(contexts@);
        let ghost inner = outer.push(fresh_context(self.generic_parameters@.map_values(|t: Ty| t@)));
        let scope = GenericContext::for_generics(copy_types(&self.generic_parameters));
        proof {
            assert(scope@.mapping =~= Seq::new(scope@.parameters.len(), |i: int| None::<TyView>));
        }
        contexts.push(scope);
        proof {
            assert(contexts_view(contexts@) =~= inner);
            assert forall|j: int| 0 <= j < contexts@.len() implies crate::semantics::generic_context::well_formed(#[trigger] contexts@[j]@) by {
                if j < contexts@.len() - 1 {
                    assert(contexts@[j] == old(contexts)@[j]);
                }
            }
        }
        let ghost total = self.initializers@.len();
        let mut done: Vec<(usize, Adjustment)> = Vec::new();
        let mut members: Vec<usize> = Vec::new();
        let mut k: usize = 0;
        proof {
            assert(pairs_view(done@) =~= Seq::empty());
            assert(members@.map_values(|i: usize| i as int) =~= members_of(pairs_view(done@)));
        }
        while k < self.initializers.len()
            invariant
                k <= self.initializers@.len(),
                total == self.initializers@.len(),
                done@.len() == k,
                contexts@.len() == outer.len() + 1,
                outer == contexts_view(old(contexts)@),
                inner == outer.push(fresh_context(self.generic_parameters@.map_values(|t: Ty| t@))),
                self.ty@ is Class,
                all_well_formed(contexts@),
                members@.map_values(|i: usize| i as int) == members_of(pairs_view(done@)),
                initialization_in(*context, inner, *self, total) is Some,
                initialization_in(*context, inner, *self, k as nat) == Some((
                    Ok::<Seq<(int, Adjustment)>, ConstructorFailure>(pairs_view(done@)),
                    contexts_view(contexts@),
                )),
            decreases self.initializers@.len() - k,
        {
            proof {
                lemma_initialization_in_prefix(*context, inner, *self, (k + 1) as nat, total);
            }
            match self.initialize_in(context, contexts, &mut done, &mut members, k, Ghost(inner)) {
                Ok(_) => {},
                Err(e) => {
                    proof {
                        lemma_initialization_in_prefix(*context, inner, *self, (k + 1) as nat, total);
                    }
                    let ghost before_pop = contexts_view(contexts@);
                    contexts.pop();
                    proof {
                        assert(contexts_view(contexts@) =~= before_pop.drop_last());
                    }
                    return Err(e);
                },
            }
            k = k + 1;
        }
        let ghost before_pop = contexts_view(contexts@);
        let last = contexts.len() - 1;
        proof {
            assert(well_formed(contexts@[last as int]@));
            assert(before_pop.last() == contexts@[last as int]@);
        }
        let made = type_in(self, &contexts[last]);
        contexts.pop();
        proof {
            assert(contexts_view(contexts@) =~= before_pop.drop_last());
        }
        if done.len() != self.members.len() {
            let fields = self.missing(&members);
            return Err(ConstructorError::MissingFields { ty: self.ty.clone(), at: self.name_at, fields });
        }
        Ok(Constructed { ty: made, initializers: done })
    }
}

} // verus!
