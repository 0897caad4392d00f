use vstd::prelude::*;

verus! {

/// What a top-level statement of a module is, as the order of lowering sees
/// it
#[derive(Debug, Clone, Copy, PartialEq, Eq, Structural)]
pub enum StatementKind {
    Use,
    TypeDeclaration,
    TraitDeclaration,
    FunctionDeclaration,
    VariableDeclaration,
    /// Any other statement
    Other,
}

/// A step of lowering a module: declare or define the statement at an index
#[derive(Debug, Clone, Copy, PartialEq, Eq, Structural)]
pub enum Step {
    Declare(usize),
    Define(usize),
}

/// Kinds that a step selects
#[derive(Debug, Clone, Copy, PartialEq, Eq, Structural)]
pub enum Selection {
    /// `use` statements
    Uses,
    /// Type declarations
    Types,
    /// Trait declarations
    Traits,
    /// Type and trait declarations
    TypesAndTraits,
    /// Function and global variable declarations
    FunctionsAndVariables,
    /// Statements that are neither `use` statements nor declarations
    Rest,
}

/// Does the selection take statements of this kind?
pub open spec fn selects(sel: Selection, k: StatementKind) -> bool {
    match sel {
        Selection::Uses => k == StatementKind::Use,
        Selection::Types => k == StatementKind::TypeDeclaration,
        Selection::Traits => k == StatementKind::TraitDeclaration,
        Selection::TypesAndTraits => k == StatementKind::TypeDeclaration || k
            == StatementKind::TraitDeclaration,
        Selection::FunctionsAndVariables => k == StatementKind::FunctionDeclaration || k
            == StatementKind::VariableDeclaration,
        Selection::Rest => k == StatementKind::Other,
    }
}

/// The indices of the statements that the selection takes, in order
pub open spec fn selected(kinds: Seq<StatementKind>, sel: Selection) -> Seq<usize>
    decreases kinds.len(),
{
    if kinds.len() == 0 {
        Seq::empty()
    } else if selects(sel, kinds.last()) {
        selected(kinds.drop_last(), sel).push((kinds.len() - 1) as usize)
    } else {
        selected(kinds.drop_last(), sel)
    }
}

/// The declarations in the order they are processed: types, then traits, then
/// functions and global variables, each in source order
pub open spec fn declarations_order(kinds: Seq<StatementKind>) -> Seq<usize> {
    selected(kinds, Selection::Types) + selected(kinds, Selection::Traits) + selected(
        kinds,
        Selection::FunctionsAndVariables,
    )
}

/// Steps that declare the statements at the indices
pub open spec fn declare_all(ix: Seq<usize>) -> Seq<Step> {
    ix.map_values(|i: usize| Step::Declare(i))
}

/// Steps that define the statements at the indices
pub open spec fn define_all(ix: Seq<usize>) -> Seq<Step> {
    ix.map_values(|i: usize| Step::Define(i))
}

/// The steps of lowering a module to the typed tree: `use` statements,
/// then every declaration declared, then every declaration defined (both in
/// declaration order), then the rest of the statements
pub open spec fn lowering_steps(kinds: Seq<StatementKind>) -> Seq<Step> {
    define_all(selected(kinds, Selection::Uses)) + declare_all(declarations_order(kinds))
        + define_all(declarations_order(kinds)) + define_all(selected(kinds, Selection::Rest))
}

/// The steps of building a module's typed tree: `use` statements, types and
/// traits declared, types defined, functions and global variables declared,
/// traits defined, functions and global variables defined, then the rest of
/// the statements
pub open spec fn building_steps(kinds: Seq<StatementKind>) -> Seq<Step> {
    define_all(selected(kinds, Selection::Uses)) + declare_all(
        selected(kinds, Selection::TypesAndTraits),
    ) + define_all(selected(kinds, Selection::Types)) + declare_all(
        selected(kinds, Selection::FunctionsAndVariables),
    ) + define_all(selected(kinds, Selection::Traits)) + define_all(
        selected(kinds, Selection::FunctionsAndVariables),
    ) + define_all(selected(kinds, Selection::Rest))
}

/// Indices of the statements that the selection takes, in order
pub fn select(kinds: &Vec<StatementKind>, sel: Selection) -> (r: Vec<usize>)
    ensures
        r@ == selected(kinds@, sel),
{
    let mut r: Vec<usize> = Vec::new();
    let mut k: usize = 0;
    while k < kinds.len()
        invariant
            k <= kinds@.len(),
            r@ == selected(kinds@.subrange(0, k as int), sel),
        decreases kinds@.len() - k,
    {
        let kind = kinds[k];
        let take = match sel {
            Selection::Uses => kind == StatementKind::Use,
            Selection::Types => kind == StatementKind::TypeDeclaration,
            Selection::Traits => kind == StatementKind::TraitDeclaration,
            Selection::TypesAndTraits => kind == StatementKind::TypeDeclaration || kind
                == StatementKind::TraitDeclaration,
            Selection::FunctionsAndVariables => kind == StatementKind::FunctionDeclaration || kind
                == StatementKind::VariableDeclaration,
            Selection::Rest => kind == StatementKind::Other,
        };
        if take {
            r.push(k);
        }
        proof {
            let p = kinds@.subrange(0, k + 1);
            assert(p.drop_last() =~= kinds@.subrange(0, k as int));
            assert(p.last() == kind);
        }
        k = k + 1;
    }
    assert(kinds@.subrange(0, kinds@.len() as int) =~= kinds@);
    r
}

/// The declarations in the order they are processed: types, then traits,
/// then functions and global variables
pub fn for_each_declaration_in_order(kinds: &Vec<StatementKind>) -> (r: Vec<usize>)
    ensures
        r@ == declarations_order(kinds@),
{
    let mut r = select(kinds, Selection::Types);
    let mut traits = select(kinds, Selection::Traits);
    let mut rest = select(kinds, Selection::FunctionsAndVariables);
    r.append(&mut traits);
    r.append(&mut rest);
    r
}

/// Append steps for the indices
fn push_steps(steps: &mut Vec<Step>, ix: &Vec<usize>, define: bool)
    ensures
        final(steps)@ == old(steps)@ + if define {
            define_all(ix@)
        } else {
            declare_all(ix@)
        },
{
    let mut k: usize = 0;
    while k < ix.len()
        invariant
            k <= ix@.len(),
            steps@ == old(steps)@ + if define {
                define_all(ix@.subrange(0, k as int))
            } else {
                declare_all(ix@.subrange(0, k as int))
            },
        decreases ix@.len() - k,
    {
        if define {
            steps.push(Step::Define(ix[k]));
        } else {
            steps.push(Step::Declare(ix[k]));
        }
        k = k + 1;
        proof {
            if define {
                assert(define_all(ix@.subrange(0, k as int)) =~= define_all(
                    ix@.subrange(0, k - 1),
                ).push(Step::Define(ix@[k - 1])));
            } else {
                assert(declare_all(ix@.subrange(0, k as int)) =~= declare_all(
                    ix@.subrange(0, k - 1),
                ).push(Step::Declare(ix@[k - 1])));
            }
        }
    }
    assert(ix@.subrange(0, ix@.len() as int) =~= ix@);
}

/// The steps of lowering a module, in order
pub fn module_lowering_steps(kinds: &Vec<StatementKind>) -> (steps: Vec<Step>)
    ensures
        steps@ == lowering_steps(kinds@),
{
    let mut steps: Vec<Step> = Vec::new();
    let order = for_each_declaration_in_order(kinds);
    push_steps(&mut steps, &select(kinds, Selection::Uses), true);
    push_steps(&mut steps, &order, false);
    push_steps(&mut steps, &order, true);
    push_steps(&mut steps, &select(kinds, Selection::Rest), true);
    assert(steps@ =~= lowering_steps(kinds@));
    steps
}

/// The steps of building a module's typed tree, in order
pub fn module_building_steps(kinds: &Vec<StatementKind>) -> (steps: Vec<Step>)
    ensures
        steps@ == building_steps(kinds@),
{
    let mut steps: Vec<Step> = Vec::new();
    push_steps(&mut steps, &select(kinds, Selection::Uses), true);
    push_steps(&mut steps, &select(kinds, Selection::TypesAndTraits), false);
    push_steps(&mut steps, &select(kinds, Selection::Types), true);
    push_steps(&mut steps, &select(kinds, Selection::FunctionsAndVariables), false);
    push_steps(&mut steps, &select(kinds, Selection::Traits), true);
    push_steps(&mut steps, &select(kinds, Selection::FunctionsAndVariables), true);
    push_steps(&mut steps, &select(kinds, Selection::Rest), true);
    assert(steps@ =~= building_steps(kinds@));
    steps
}

/// The statements that a selection takes: each in range and of a kind it
/// takes, in increasing order, and each statement of such a kind among them
pub proof fn lemma_selected(kinds: Seq<StatementKind>, sel: Selection)
    requires
        kinds.len() <= usize::MAX,
    ensures
        forall|j: int| 0 <= j < selected(kinds, sel).len() ==> (#[trigger] selected(kinds, sel)[j]) < kinds.len()
            && selects(sel, kinds[selected(kinds, sel)[j] as int]),
        forall|a: int, b: int| 0 <= a < b < selected(kinds, sel).len() ==> selected(kinds, sel)[a] < selected(kinds, sel)[b],
        forall|i: int| 0 <= i < kinds.len() && selects(sel, #[trigger] kinds[i]) ==> selected(kinds, sel).contains(i as usize),
    decreases kinds.len(),
{
    if kinds.len() > 0 {
        let rest = kinds.drop_last();
        lemma_selected(rest, sel);
        let r = selected(rest, sel);
        assert forall|i: int| 0 <= i < kinds.len() && selects(sel, #[trigger] kinds[i]) implies selected(kinds, sel).contains(i as usize) by {
            if i < kinds.len() - 1 {
                assert(rest[i] == kinds[i]);
                let j = choose|j: int| 0 <= j < r.len() && r[j] == i as usize;
                if selects(sel, kinds.last()) {
                    assert(selected(kinds, sel)[j] == i as usize);
                }
            } else {
                assert(selected(kinds, sel).last() == i as usize);
            }
        }
        assert forall|j: int| 0 <= j < selected(kinds, sel).len() implies (#[trigger] selected(kinds, sel)[j]) < kinds.len()
            && selects(sel, kinds[selected(kinds, sel)[j] as int]) by {
            if j < r.len() {
                assert(selected(kinds, sel)[j] == r[j]);
                assert(rest[r[j] as int] == kinds[r[j] as int]);
            }
        }
    }
}

/// A statement is a declaration: of a type, a trait, a function or a
/// global variable
pub open spec fn is_declaration(k: StatementKind) -> bool {
    k == StatementKind::TypeDeclaration || k == StatementKind::TraitDeclaration || k
        == StatementKind::FunctionDeclaration || k == StatementKind::VariableDeclaration
}

/// Each declaration of a module is visited exactly once, and only the
/// declarations are: types first, then traits, then functions and global
/// variables
pub proof fn lemma_each_declaration_once(kinds: Seq<StatementKind>)
    requires
        kinds.len() <= usize::MAX,
    ensures
        declarations_order(kinds).no_duplicates(),
        forall|i: int| 0 <= i < kinds.len() ==> (declarations_order(kinds).contains(i as usize) <==> is_declaration(#[trigger] kinds[i])),
{
    let t = selected(kinds, Selection::Types);
    let r = selected(kinds, Selection::Traits);
    let f = selected(kinds, Selection::FunctionsAndVariables);
    lemma_selected(kinds, Selection::Types);
    lemma_selected(kinds, Selection::Traits);
    lemma_selected(kinds, Selection::FunctionsAndVariables);
    let all = declarations_order(kinds);
    assert(all == t + r + f);
    assert forall|a: int, b: int| 0 <= a < all.len() && 0 <= b < all.len() && a != b implies all[a] != all[b] by {
        if a < t.len() && b < t.len() {
        } else if t.len() <= a < t.len() + r.len() && t.len() <= b < t.len() + r.len() {
            assert(all[a] == r[a - t.len()]);
            assert(all[b] == r[b - t.len()]);
        } else if a >= t.len() + r.len() && b >= t.len() + r.len() {
            assert(all[a] == f[a - t.len() - r.len()]);
            assert(all[b] == f[b - t.len() - r.len()]);
        } else {
            if a < t.len() {
                assert(all[a] == t[a]);
            } else if a < t.len() + r.len() {
                assert(all[a] == r[a - t.len()]);
            } else {
                assert(all[a] == f[a - t.len() - r.len()]);
            }
            if b < t.len() {
                assert(all[b] == t[b]);
            } else if b < t.len() + r.len() {
                assert(all[b] == r[b - t.len()]);
            } else {
                assert(all[b] == f[b - t.len() - r.len()]);
            }
        }
    }
    assert forall|i: int| 0 <= i < kinds.len() implies (all.contains(i as usize) <==> is_declaration(#[trigger] kinds[i])) by {
        if all.contains(i as usize) {
            let j = choose|j: int| 0 <= j < all.len() && all[j] == i as usize;
            if j < t.len() {
                assert(all[j] == t[j]);
            } else if j < t.len() + r.len() {
                assert(all[j] == r[j - t.len()]);
            } else {
                assert(all[j] == f[j - t.len() - r.len()]);
            }
        }
        if is_declaration(kinds[i]) {
            if kinds[i] == StatementKind::TypeDeclaration {
                let j = choose|j: int| 0 <= j < t.len() && t[j] == i as usize;
                assert(all[j] == t[j]);
            } else if kinds[i] == StatementKind::TraitDeclaration {
                let j = choose|j: int| 0 <= j < r.len() && r[j] == i as usize;
                assert(all[t.len() + j] == r[j]);
            } else {
                let j = choose|j: int| 0 <= j < f.len() && f[j] == i as usize;
                assert(all[t.len() + r.len() + j] == f[j]);
            }
        }
    }
}

/// What doing one step of building a module gave: a lowered statement for
/// a definition, nothing for a declaration, or an error
#[derive(Debug)]
pub enum Outcome<S, E> {
    Defined(S),
    Declared,
    Failed(E),
}

/// The outcome fits the step: a definition gives a statement or an error,
/// a declaration nothing or an error
pub open spec fn fits_step<S, E>(step: Step, o: Outcome<S, E>) -> bool {
    match step {
        Step::Define(_) => !(o is Declared),
        Step::Declare(_) => !(o is Defined),
    }
}

/// The statements that the outcomes define, in order
pub open spec fn defined<S, E>(os: Seq<Outcome<S, E>>) -> Seq<S>
    decreases os.len(),
{
    if os.len() == 0 {
        Seq::empty()
    } else {
        match os.last() {
            Outcome::Defined(s) => defined(os.drop_last()).push(s),
            _ => defined(os.drop_last()),
        }
    }
}

/// The errors of the outcomes, in order
pub open spec fn failures<S, E>(os: Seq<Outcome<S, E>>) -> Seq<E>
    decreases os.len(),
{
    if os.len() == 0 {
        Seq::empty()
    } else {
        match os.last() {
            Outcome::Failed(e) => failures(os.drop_last()).push(e),
            _ => failures(os.drop_last()),
        }
    }
}

/// Building a module's typed tree: the steps in their order, which of
/// them are done, the statements of the module so far, and the errors met
pub struct ModuleBuilder<S, E> {
    steps: Vec<Step>,
    done: usize,
    statements: Vec<S>,
    errors: Vec<E>,
    initial: Ghost<Seq<S>>,
    outcomes: Ghost<Seq<Outcome<S, E>>>,
}

impl<S, E> ModuleBuilder<S, E> {
    /// The steps in their order
    pub closed spec fn steps(&self) -> Seq<Step> {
        self.steps@
    }

    /// The outcomes of the steps done, in order
    pub closed spec fn outcomes(&self) -> Seq<Outcome<S, E>> {
        self.outcomes@
    }

    /// The statements the module had before
    pub closed spec fn initial(&self) -> Seq<S> {
        self.initial@
    }

    /// The state is consistent: as many outcomes as steps done, each
    /// fitting its step; the statements those before and those defined; the
    /// errors those met
    pub closed spec fn wf(&self) -> bool {
        &&& self.done <= self.steps@.len()
        &&& self.outcomes@.len() == self.done
        &&& forall|i: int| 0 <= i < self.done ==> fits_step(self.steps@[i], #[trigger] self.outcomes@[i])
        &&& self.statements@ == self.initial@ + defined(self.outcomes@)
        &&& self.errors@ == failures(self.outcomes@)
    }

    /// Start building a module of statements of these kinds, on top of the
    /// statements the module already has
    pub fn new(kinds: &Vec<StatementKind>, statements: Vec<S>) -> (b: Self)
        ensures
            b.wf(),
            b.steps() == building_steps(kinds@),
            b.outcomes() == Seq::<Outcome<S, E>>::empty(),
            b.initial() == statements@,
    {
        let b = ModuleBuilder {
            steps: module_building_steps(kinds),
            done: 0,
            initial: Ghost(statements@),
            statements,
            errors: Vec::new(),
            outcomes: Ghost(Seq::empty()),
        };
        assert(b.statements@ =~= b.initial@ + defined(b.outcomes@));
        b
    }

    /// The next step to do, if any is left
    pub fn next_step(&self) -> (s: Option<Step>)
        requires
            self.wf(),
        ensures
            match s {
                Some(step) => self.outcomes().len() < self.steps().len() && step == self.steps()[self.outcomes().len() as int],
                None => self.outcomes().len() == self.steps().len(),
            },
    {
        if self.done < self.steps.len() {
            Some(self.steps[self.done])
        } else {
            None
        }
    }

    /// Record what the next step gave: a statement it defines joins the
    /// module, an error joins the errors, and building goes on either way
    pub fn record(&mut self, outcome: Outcome<S, E>)
        requires
            old(self).wf(),
            old(self).outcomes().len() < old(self).steps().len(),
            fits_step(old(self).steps()[old(self).outcomes().len() as int], outcome),
        ensures
            final(self).wf(),
            final(self).steps() == old(self).steps(),
            final(self).initial() == old(self).initial(),
            final(self).outcomes() == old(self).outcomes().push(outcome),
    {
        let ghost before = self.outcomes@;
        let n = self.steps.len();
        assert(self.done < n);
        let next = self.done + 1;
        proof {
            let after = before.push(outcome);
            assert(after.drop_last() =~= before);
        }
        self.outcomes = Ghost(self.outcomes@.push(outcome));
        match outcome {
            Outcome::Defined(s) => {
                self.statements.push(s);
            },
            Outcome::Failed(e) => {
                self.errors.push(e);
            },
            Outcome::Declared => {},
        }
        self.done = next;
        proof {
            assert(self.statements@ =~= self.initial@ + defined(self.outcomes@));
            assert(self.errors@ =~= failures(self.outcomes@));
        }
    }

    /// The module once every step is done: its statements, those before
    /// and then those defined in the order of the steps; or, where any step
    /// failed, every error in the order they were met
    pub fn finish(self) -> (r: Result<Vec<S>, Vec<E>>)
        requires
            self.wf(),
            self.outcomes().len() == self.steps().len(),
        ensures
            match r {
                Ok(statements) => failures(self.outcomes()).len() == 0 && statements@ == self.initial() + defined(self.outcomes()),
                Err(errors) => failures(self.outcomes()).len() > 0 && errors@ == failures(self.outcomes()),
            },
    {
        if self.errors.len() > 0 {
            Err(self.errors)
        } else {
            Ok(self.statements)
        }
    }
}

/// A step that fails does not stop the building: every error of every
/// step is reported, in the order of the steps, and only where no step
/// failed are the statements defined kept
pub proof fn lemma_failures_kept<S, E>(os: Seq<Outcome<S, E>>, o: Outcome<S, E>)
    ensures
        failures(os.push(o)) == (match o {
            Outcome::Failed(e) => failures(os).push(e),
            _ => failures(os),
        }),
        defined(os.push(o)) == (match o {
            Outcome::Defined(s) => defined(os).push(s),
            _ => defined(os),
        }),
{
    assert(os.push(o).drop_last() =~= os);
}

} // verus!
