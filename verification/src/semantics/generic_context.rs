use vstd::prelude::*;

use crate::semantics::conversion::{Ty, TyView};
use crate::semantics::generic::{first_free_name, new_unique_name};

verus! {

/// Context that introduces generic parameters, with the types that they
/// have been found to stand for: the mapping holds, for each parameter at
/// the same place, its type once known
#[derive(Debug)]
pub struct GenericContext {
    pub generic_parameters: Vec<Ty>,
    pub generics_mapping: Vec<Option<Ty>>,
}

/// A generic context as a mathematical value
pub struct ContextView {
    pub parameters: Seq<TyView>,
    pub mapping: Seq<Option<TyView>>,
}

/// The value of a type that may be absent
pub open spec fn option_view(t: Option<Ty>) -> Option<TyView> {
    match t {
        Some(t) => Some(t@),
        None => None,
    }
}

impl View for GenericContext {
    type V = ContextView;

    open spec fn view(&self) -> ContextView {
        ContextView {
            parameters: self.generic_parameters@.map_values(|t: Ty| t@),
            mapping: self.generics_mapping@.map_values(|t: Option<Ty>| option_view(t)),
        }
    }
}

/// Each parameter has its place in the mapping
pub open spec fn well_formed(c: ContextView) -> bool {
    c.mapping.len() == c.parameters.len()
}

/// The contexts, innermost last, as mathematical values
pub open spec fn contexts_view(cs: Seq<GenericContext>) -> Seq<ContextView> {
    cs.map_values(|c: GenericContext| c@)
}

/// The first place of `g` among the parameters, from `from` on
pub open spec fn parameter_index(ps: Seq<TyView>, g: TyView, from: int) -> Option<int>
    decreases ps.len() - from,
{
    if from < 0 || from >= ps.len() {
        None
    } else if ps[from] == g {
        Some(from)
    } else {
        parameter_index(ps, g, from + 1)
    }
}

/// The innermost of the first `k` contexts that introduces `g`
pub open spec fn owner(cs: Seq<ContextView>, g: TyView, k: nat) -> Option<int>
    decreases k,
{
    if k == 0 || k > cs.len() {
        None
    } else if parameter_index(cs[k - 1].parameters, g, 0) is Some {
        Some(k - 1)
    } else {
        owner(cs, g, (k - 1) as nat)
    }
}

/// The type that `g` stands for in the context that introduces it
pub open spec fn own_mapping(c: ContextView, g: TyView) -> Option<TyView> {
    match parameter_index(c.parameters, g, 0) {
        Some(i) => c.mapping[i],
        None => None,
    }
}

/// The type that `g` stands for, in the innermost context that introduces it
pub open spec fn specialized(cs: Seq<ContextView>, g: TyView) -> Option<TyView> {
    match owner(cs, g, cs.len()) {
        Some(i) => own_mapping(cs[i], g),
        None => None,
    }
}

/// Map `g` to `c` in the innermost context that introduces it: the contexts
/// after, and the type that `g` stood for before. Where no context
/// introduces `g`, nothing changes.
pub open spec fn mapped(cs: Seq<ContextView>, g: TyView, c: TyView) -> (Seq<ContextView>, Option<TyView>) {
    match owner(cs, g, cs.len()) {
        Some(i) => {
            let p = parameter_index(cs[i].parameters, g, 0)->Some_0;
            (
                cs.update(i, ContextView { parameters: cs[i].parameters, mapping: cs[i].mapping.update(p, Some(c)) }),
                cs[i].mapping[p],
            )
        },
        None => (cs, None),
    }
}

/// The first place of `g` is one of the parameters, and is `g`
pub proof fn lemma_parameter_index(ps: Seq<TyView>, g: TyView, from: int)
    requires
        0 <= from,
    ensures
        parameter_index(ps, g, from) matches Some(i) ==> from <= i < ps.len() && ps[i] == g,
    decreases ps.len() - from,
{
    if from < ps.len() && ps[from] != g {
        lemma_parameter_index(ps, g, from + 1);
    }
}

/// The owner is one of the contexts, and introduces `g`
pub proof fn lemma_owner(cs: Seq<ContextView>, g: TyView, k: nat)
    requires
        k <= cs.len(),
    ensures
        owner(cs, g, k) matches Some(i) ==> 0 <= i < k && parameter_index(cs[i].parameters, g, 0) is Some,
        owner(cs, g, k) is None ==> forall|j: int| 0 <= j < k ==> parameter_index(#[trigger] cs[j].parameters, g, 0) is None,
    decreases k,
{
    if k > 0 {
        lemma_owner(cs, g, (k - 1) as nat);
    }
}

/// Contexts with the same parameters have the same owner
pub proof fn lemma_owner_same_parameters(a: Seq<ContextView>, b: Seq<ContextView>, g: TyView, k: nat)
    requires
        a.len() == b.len(),
        k <= a.len(),
        forall|j: int| 0 <= j < a.len() ==> (#[trigger] a[j]).parameters == b[j].parameters,
    ensures
        owner(a, g, k) == owner(b, g, k),
    decreases k,
{
    if k > 0 {
        lemma_owner_same_parameters(a, b, g, (k - 1) as nat);
    }
}

/// A read gives back what a write wrote: once `g` is mapped to `c` in the
/// context that introduces it, `g` stands for `c`; and mapping a type that
/// no context introduces changes nothing
pub proof fn lemma_specialized_after_mapping(cs: Seq<ContextView>, g: TyView, c: TyView)
    requires
        forall|j: int| 0 <= j < cs.len() ==> well_formed(#[trigger] cs[j]),
    ensures
        owner(cs, g, cs.len()) is Some ==> specialized(mapped(cs, g, c).0, g) == Some(c),
        owner(cs, g, cs.len()) is None ==> mapped(cs, g, c).0 == cs && specialized(cs, g) is None,
{
    let after = mapped(cs, g, c).0;
    lemma_owner(cs, g, cs.len());
    if owner(cs, g, cs.len()) is Some {
        let i = owner(cs, g, cs.len())->Some_0;
        lemma_parameter_index(cs[i].parameters, g, 0);
        assert forall|j: int| 0 <= j < cs.len() implies (#[trigger] cs[j]).parameters == after[j].parameters by {}
        lemma_owner_same_parameters(cs, after, g, cs.len());
    }
}

impl GenericContext {
    /// A new generic parameter for a parameter whose type is the trait
    /// `tr`: the context takes it as its last parameter, not mapped, and
    /// its name, the first capital letter that no parameter of the context
    /// has, follows the names of the others
    pub fn new_generic_for_trait(&mut self, names: &mut Vec<String>, param: usize, tr: usize) -> (g: Ty)
        requires
            old(names)@.len() == old(self).generic_parameters@.len(),
            old(names)@.len() < 26,
            well_formed(old(self)@),
        ensures
            g@ == (TyView::Generic { param, constraint: Some(tr) }),
            final(self)@.parameters == old(self)@.parameters.push(g@),
            final(self)@.mapping == old(self)@.mapping.push(None),
            final(names)@.len() == old(names)@.len() + 1,
            final(names)@.drop_last() == old(names)@,
            first_free_name(old(names)@, final(names)@.last()@),
    {
        let name = new_unique_name(names);
        names.push(name);
        let g = Ty::Generic { param, constraint: Some(tr) };
        let ghost before = self@;
        self.generic_parameters.push(Ty::Generic { param, constraint: Some(tr) });
        self.generics_mapping.push(None);
        proof {
            assert(self@.parameters =~= before.parameters.push(g@));
            assert(self@.mapping =~= before.mapping.push(None));
            assert(names@.drop_last() =~= old(names)@);
        }
        g
    }

    /// The type of a parameter, lowered: a trait becomes a new generic
    /// parameter of the context constrained by it; any other type stays
    pub fn lower_parameter_type(&mut self, ty: Ty, names: &mut Vec<String>, param: usize) -> (r: Ty)
        requires
            old(names)@.len() == old(self).generic_parameters@.len(),
            old(names)@.len() < 26,
            well_formed(old(self)@),
        ensures
            match ty@ {
                TyView::Trait(tr) => r@ == (TyView::Generic { param, constraint: Some(tr) })
                    && final(self)@.parameters == old(self)@.parameters.push(r@)
                    && final(self)@.mapping == old(self)@.mapping.push(None)
                    && final(names)@.drop_last() == old(names)@
                    && final(names)@.len() == old(names)@.len() + 1
                    && first_free_name(old(names)@, final(names)@.last()@),
                _ => r@ == ty@ && final(self)@ == old(self)@ && final(names)@ == old(names)@,
            },
    {
        match ty {
            Ty::Trait(tr) => self.new_generic_for_trait(names, param, tr),
            _ => ty,
        }
    }

    /// Context that introduces the given parameters, none of them mapped yet
    pub fn for_generics(generic_parameters: Vec<Ty>) -> (c: Self)
        ensures
            c.generic_parameters@ == generic_parameters@,
            c.generics_mapping@.len() == generic_parameters@.len(),
            forall|i: int| 0 <= i < generic_parameters@.len() ==> c.generics_mapping@[i] is None,
    {
        let mut generics_mapping: Vec<Option<Ty>> = Vec::new();
        let mut i: usize = 0;
        while i < generic_parameters.len()
            invariant
                i <= generic_parameters@.len(),
                generics_mapping@.len() == i,
                forall|j: int| 0 <= j < i ==> generics_mapping@[j] is None,
            decreases generic_parameters@.len() - i,
        {
            generics_mapping.push(None);
            i = i + 1;
        }
        GenericContext { generic_parameters, generics_mapping }
    }

    /// The first place of `g` among the parameters
    pub(crate) fn find_parameter(&self, g: &Ty) -> (r: Option<usize>)
        ensures
            match r {
                Some(i) => i < self.generic_parameters@.len() && parameter_index(self@.parameters, g@, 0) == Some(i as int),
                None => parameter_index(self@.parameters, g@, 0) is None,
            },
    {
        let ghost ps = self@.parameters;
        let mut i: usize = 0;
        while i < self.generic_parameters.len()
            invariant
                i <= self.generic_parameters@.len(),
                ps == self.generic_parameters@.map_values(|t: Ty| t@),
                parameter_index(ps, g@, 0) == parameter_index(ps, g@, i as int),
            decreases self.generic_parameters@.len() - i,
        {
            if self.generic_parameters[i].same_as(g) {
                return Some(i);
            }
            i = i + 1;
        }
        None
    }
}

/// The innermost context that introduces `g`
fn owner_of(contexts: &Vec<GenericContext>, g: &Ty) -> (r: Option<usize>)
    ensures
        match r {
            Some(i) => i < contexts@.len() && owner(contexts_view(contexts@), g@, contexts@.len()) == Some(i as int),
            None => owner(contexts_view(contexts@), g@, contexts@.len()) is None,
        },
{
    let ghost cs = contexts_view(contexts@);
    let mut k: usize = contexts.len();
    while k > 0
        invariant
            k <= contexts@.len(),
            cs == contexts_view(contexts@),
            owner(cs, g@, contexts@.len()) == owner(cs, g@, k as nat),
        decreases k,
    {
        if contexts[k - 1].find_parameter(g).is_some() {
            return Some(k - 1);
        }
        k = k - 1;
    }
    None
}

/// The type that `generic` stands for, in the innermost context that
/// introduces it
pub fn get_specialized(contexts: &Vec<GenericContext>, generic: &Ty) -> (r: Option<Ty>)
    requires
        forall|j: int| 0 <= j < contexts@.len() ==> well_formed(#[trigger] contexts@[j]@),
    ensures
        option_view(r) == specialized(contexts_view(contexts@), generic@),
{
    match owner_of(contexts, generic) {
        Some(i) => {
            let c = &contexts[i];
            assert(well_formed(contexts@[i as int]@));
            match c.find_parameter(generic) {
                Some(p) => match &c.generics_mapping[p] {
                    Some(t) => Some(t.clone()),
                    None => None,
                },
                None => None,
            }
        },
        None => None,
    }
}

/// Map `generic` to `concrete` in the innermost context that introduces
/// it, and give back the type that it stood for before; where no context
/// introduces it, nothing changes
pub fn map_generic(contexts: &mut Vec<GenericContext>, generic: &Ty, concrete: Ty) -> (r: Option<Ty>)
    requires
        forall|j: int| 0 <= j < old(contexts)@.len() ==> well_formed(#[trigger] old(contexts)@[j]@),
    ensures
        contexts_view(final(contexts)@) == mapped(contexts_view(old(contexts)@), generic@, concrete@).0,
        option_view(r) == mapped(contexts_view(old(contexts)@), generic@, concrete@).1,
        final(contexts)@.len() == old(contexts)@.len(),
        forall|j: int| 0 <= j < final(contexts)@.len() ==> well_formed(#[trigger] final(contexts)@[j]@),
{
    let ghost before = contexts_view(contexts@);
    match owner_of(contexts, generic) {
        Some(i) => {
            proof {
                lemma_owner(before, generic@, before.len());
            }
            let mut scope = contexts.remove(i);
            assert(scope@ == before[i as int]);
            assert(well_formed(scope@));
            let p = scope.find_parameter(generic).unwrap();
            let ghost scope_before = scope@;
            let previous = scope.generics_mapping.remove(p);
            scope.generics_mapping.insert(p, Some(concrete));
            proof {
                assert(scope@.parameters == scope_before.parameters);
                assert(scope@.mapping =~= scope_before.mapping.update(p as int, Some(concrete@)));
            }
            contexts.insert(i, scope);
            proof {
                let after = mapped(before, generic@, concrete@).0;
                assert(contexts_view(contexts@) =~= after);
                assert forall|j: int| 0 <= j < contexts@.len() implies well_formed(#[trigger] contexts@[j]@) by {
                    if j != i {
                        assert(contexts@[j]@ == before[j]);
                    }
                }
            }
            previous
        },
        None => None,
    }
}

} // verus!
