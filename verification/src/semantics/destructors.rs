use vstd::prelude::*;

verus! {

/// A parameter or a variable of the typed tree: its identity, its type and
/// the range of its declaration
#[derive(Debug, Clone, Copy, PartialEq, Eq, Structural)]
pub struct Variable {
    pub id: usize,
    pub ty: usize,
    pub start: usize,
    pub end: usize,
}

/// An expression of the typed tree, as far as the destructor pass reads it
#[derive(Debug, PartialEq, Eq)]
pub enum Expression {
    /// Reference to a parameter or a variable
    VariableReference { variable: Variable, start: usize, end: usize },
    /// Call of a function on one argument, with the call's type
    Call { function: usize, argument: Box<Expression>, start: usize, end: usize, ty: usize },
    /// Any other expression: its type and its range
    Other { ty: usize, start: usize, end: usize },
}

/// `else if` branch of an `if`
#[derive(Debug, PartialEq, Eq)]
pub struct ElseIf {
    pub condition: Expression,
    pub body: Vec<Statement>,
}

/// Declaration of a function: its parameters, its body, and whether it is
/// defined here
#[derive(Debug, PartialEq, Eq)]
pub struct Function {
    pub parameters: Vec<Variable>,
    pub body: Vec<Statement>,
    pub is_definition: bool,
}

/// A statement of the typed tree
#[derive(Debug, PartialEq, Eq)]
pub enum Statement {
    Block { statements: Vec<Statement> },
    Assignment { target: Expression, value: Expression },
    If {
        condition: Expression,
        body: Vec<Statement>,
        else_ifs: Vec<ElseIf>,
        else_block: Option<Vec<Statement>>,
    },
    Loop { body: Vec<Statement> },
    While { condition: Expression, body: Vec<Statement> },
    VariableDeclaration { variable: Variable, initializer: Expression },
    FunctionDeclaration(Function),
    /// Declaration of a type or a trait
    OtherDeclaration,
    Return { value: Option<Expression> },
    Expression(Expression),
    Use,
}

/// Destructors of types: entry `ty` holds the destructor function of that
/// type and the type of a call of it, if the type has one
pub struct Destructors {
    pub by_type: Vec<Option<(usize, usize)>>,
}

/// A statement as a mathematical value: bodies are sequences
pub enum StatementView {
    Block(Seq<StatementView>),
    Assignment(Expression, Expression),
    If(Expression, Seq<StatementView>, Seq<(Expression, Seq<StatementView>)>, Option<Seq<StatementView>>),
    Loop(Seq<StatementView>),
    While(Expression, Seq<StatementView>),
    VariableDeclaration(Variable, Expression),
    FunctionDeclaration(Seq<Variable>, Seq<StatementView>, bool),
    OtherDeclaration,
    Return(Option<Expression>),
    Expression(Expression),
    Use,
}

/// The value of a statement
pub open spec fn view_statement(st: Statement) -> StatementView
    decreases st, 0nat,
{
    match st {
        Statement::Block { statements } => StatementView::Block(view_statements(statements@)),
        Statement::Assignment { target, value } => StatementView::Assignment(target, value),
        Statement::If { condition, body, else_ifs, else_block } => StatementView::If(
            condition,
            view_statements(body@),
            view_else_ifs(else_ifs@),
            match else_block {
                Some(b) => Some(view_statements(b@)),
                Option::None => Option::None,
            },
        ),
        Statement::Loop { body } => StatementView::Loop(view_statements(body@)),
        Statement::While { condition, body } => StatementView::While(
            condition,
            view_statements(body@),
        ),
        Statement::VariableDeclaration { variable, initializer } => StatementView::VariableDeclaration(
            variable,
            initializer,
        ),
        Statement::FunctionDeclaration(f) => StatementView::FunctionDeclaration(
            f.parameters@,
            view_statements(f.body@),
            f.is_definition,
        ),
        Statement::OtherDeclaration => StatementView::OtherDeclaration,
        Statement::Return { value } => StatementView::Return(value),
        Statement::Expression(e) => StatementView::Expression(e),
        Statement::Use => StatementView::Use,
    }
}

/// The values of statements
pub open spec fn view_statements(s: Seq<Statement>) -> Seq<StatementView>
    decreases s, 0nat,
{
    if s.len() == 0 {
        Seq::empty()
    } else {
        view_statements(s.drop_last()).push(view_statement(s.last()))
    }
}

/// The values of `else if` branches
pub open spec fn view_else_ifs(s: Seq<ElseIf>) -> Seq<(Expression, Seq<StatementView>)>
    decreases s, 0nat,
{
    if s.len() == 0 {
        Seq::empty()
    } else {
        view_else_ifs(s.drop_last()).push((s.last().condition, view_statements(s.last().body@)))
    }
}

/// Type of an expression
pub open spec fn expression_type(e: Expression) -> usize {
    match e {
        Expression::VariableReference { variable, .. } => variable.ty,
        Expression::Call { ty, .. } => ty,
        Expression::Other { ty, .. } => ty,
    }
}

/// Start of an expression's range
pub open spec fn expression_start(e: Expression) -> usize {
    match e {
        Expression::VariableReference { start, .. } => start,
        Expression::Call { start, .. } => start,
        Expression::Other { start, .. } => start,
    }
}

/// End of an expression's range
pub open spec fn expression_end(e: Expression) -> usize {
    match e {
        Expression::VariableReference { end, .. } => end,
        Expression::Call { end, .. } => end,
        Expression::Other { end, .. } => end,
    }
}

/// The destructor of a type, with the type of its call
pub open spec fn destructor_for(table: Seq<Option<(usize, usize)>>, ty: usize) -> Option<(usize, usize)> {
    if ty < table.len() {
        table[ty as int]
    } else {
        Option::None
    }
}

/// Reference to a variable at its declaration's range
pub open spec fn reference_to(v: Variable) -> Expression {
    Expression::VariableReference { variable: v, start: v.start, end: v.end }
}

/// `out` followed by the call of the destructor of `e`'s type on `e`, where
/// the type has a destructor
pub open spec fn destroy(
    out: Seq<StatementView>,
    e: Expression,
    table: Seq<Option<(usize, usize)>>,
) -> Seq<StatementView> {
    match destructor_for(table, expression_type(e)) {
        Some((function, ty)) => out.push(
            StatementView::Expression(
                Expression::Call {
                    function,
                    argument: Box::new(e),
                    start: expression_start(e),
                    end: expression_end(e),
                    ty,
                },
            ),
        ),
        Option::None => out,
    }
}

/// `out` followed by the destruction of the variables, in order
pub open spec fn destroy_all(
    out: Seq<StatementView>,
    vs: Seq<Variable>,
    table: Seq<Option<(usize, usize)>>,
) -> Seq<StatementView>
    decreases vs.len(),
{
    if vs.len() == 0 {
        out
    } else {
        destroy(destroy_all(out, vs.drop_last(), table), reference_to(vs.last()), table)
    }
}

/// The variables without `v`
pub open spec fn without(vs: Seq<Variable>, v: Variable) -> Seq<Variable>
    decreases vs.len(),
{
    if vs.len() == 0 {
        vs
    } else if vs.last() == v {
        without(vs.drop_last(), v)
    } else {
        without(vs.drop_last(), v).push(vs.last())
    }
}

/// State of the pass over a list of statements: the variables to destroy
/// at a return, those declared in the list, the statements so far, and
/// whether a return ended the list
pub struct PassState {
    pub kill: Seq<Variable>,
    pub decls: Seq<Variable>,
    pub out: Seq<StatementView>,
    pub stopped: bool,
}

/// The statements with destructor calls: each list is taken with the
/// statements of its blocks in place; an assignment destroys the old value of
/// its target first; a variable declaration is to be destroyed at a return
/// and at the end of its list; a return destroys what is to be destroyed
/// (but the variable it returns) and ends the list; the bodies of `if`,
/// `else if`, `else`, loops and defined functions get the same treatment,
/// with what is to be destroyed at that point (a function: its parameters).
/// At the end of a list that no return ended, its variables are destroyed in
/// the order of their declarations.
pub open spec fn destructed(
    ms: Seq<StatementView>,
    kill: Seq<Variable>,
    table: Seq<Option<(usize, usize)>>,
) -> Seq<StatementView>
    decreases ms, ms.len() + 1,
{
    let s = pass(ms, 0, PassState { kill, decls: Seq::empty(), out: Seq::empty(), stopped: false }, table);
    destroy_all(s.out, s.decls, table)
}

/// The pass over the statements from index `i` on, from state `s`
pub open spec fn pass(
    ms: Seq<StatementView>,
    i: nat,
    s: PassState,
    table: Seq<Option<(usize, usize)>>,
) -> PassState
    decreases ms, ms.len() - i,
{
    if s.stopped || i >= ms.len() {
        s
    } else {
        let next = match ms[i as int] {
            StatementView::Block(inner) => pass(inner, 0, s, table),
            _ => step(ms[i as int], s, table),
        };
        pass(ms, i + 1, next, table)
    }
}

/// The `else if` branches with destructor calls in their bodies
pub open spec fn else_ifs_destructed(
    es: Seq<(Expression, Seq<StatementView>)>,
    kill: Seq<Variable>,
    table: Seq<Option<(usize, usize)>>,
) -> Seq<(Expression, Seq<StatementView>)>
    decreases es, 0nat,
{
    if es.len() == 0 {
        Seq::empty()
    } else {
        else_ifs_destructed(es.drop_last(), kill, table).push(
            (es.last().0, destructed(es.last().1, kill, table)),
        )
    }
}

/// The pass over one statement that is not a block
pub open spec fn step(
    st: StatementView,
    s: PassState,
    table: Seq<Option<(usize, usize)>>,
) -> PassState
    decreases st, 0nat,
{
    match st {
        StatementView::Assignment(target, _) => PassState {
            out: destroy(s.out, target, table).push(st),
            ..s
        },
        StatementView::If(condition, body, else_ifs, else_block) => PassState {
            out: s.out.push(
                StatementView::If(
                    condition,
                    destructed(body, s.kill, table),
                    else_ifs_destructed(else_ifs, s.kill, table),
                    match else_block {
                        Some(b) => Some(destructed(b, s.kill, table)),
                        Option::None => Option::None,
                    },
                ),
            ),
            ..s
        },
        StatementView::Loop(body) => PassState {
            out: s.out.push(StatementView::Loop(destructed(body, s.kill, table))),
            ..s
        },
        StatementView::While(condition, body) => PassState {
            out: s.out.push(StatementView::While(condition, destructed(body, s.kill, table))),
            ..s
        },
        StatementView::VariableDeclaration(v, _) => PassState {
            kill: s.kill.push(v),
            decls: s.decls.push(v),
            out: s.out.push(st),
            stopped: false,
        },
        StatementView::FunctionDeclaration(parameters, body, is_definition) => PassState {
            out: s.out.push(
                StatementView::FunctionDeclaration(
                    parameters,
                    if is_definition {
                        destructed(body, parameters, table)
                    } else {
                        body
                    },
                    is_definition,
                ),
            ),
            ..s
        },
        StatementView::Return(value) => {
            let kill = match value {
                Some(Expression::VariableReference { variable, .. }) => without(s.kill, variable),
                _ => s.kill,
            };
            PassState {
                kill,
                decls: Seq::empty(),
                out: destroy_all(s.out, kill, table).push(st),
                stopped: true,
            }
        },
        _ => PassState { out: s.out.push(st), ..s },
    }
}


impl Clone for Expression {
    fn clone(&self) -> (e: Self)
        ensures
            e == *self,
        decreases self,
    {
        match self {
            Expression::VariableReference { variable, start, end } => Expression::VariableReference {
                variable: *variable,
                start: *start,
                end: *end,
            },
            Expression::Call { function, argument, start, end, ty } => {
                let a: &Expression = argument;
                Expression::Call {
                    function: *function,
                    argument: Box::new(a.clone()),
                    start: *start,
                    end: *end,
                    ty: *ty,
                }
            },
            Expression::Other { ty, start, end } => Expression::Other {
                ty: *ty,
                start: *start,
                end: *end,
            },
        }
    }
}

impl Expression {
    /// Type of the expression
    pub fn ty(&self) -> (t: usize)
        ensures
            t == expression_type(*self),
    {
        match self {
            Expression::VariableReference { variable, .. } => variable.ty,
            Expression::Call { ty, .. } => *ty,
            Expression::Other { ty, .. } => *ty,
        }
    }

    /// Range of the expression
    pub fn range(&self) -> (r: std::ops::Range<usize>)
        ensures
            r.start == expression_start(*self),
            r.end == expression_end(*self),
    {
        match self {
            Expression::VariableReference { start, end, .. } => *start..*end,
            Expression::Call { start, end, .. } => *start..*end,
            Expression::Other { start, end, .. } => *start..*end,
        }
    }
}

/// No block holds a block directly, in any list that the pass takes: a
/// block's statements are taken in place, and one of them that is a block
/// again cannot be
pub open spec fn blocks_flat(ms: Seq<StatementView>) -> bool
    decreases ms, 0nat,
{
    if ms.len() == 0 {
        true
    } else {
        blocks_flat(ms.drop_last()) && statement_blocks_flat(ms.last())
    }
}

/// The lists inside the statement have flat blocks
pub open spec fn statement_blocks_flat(st: StatementView) -> bool
    decreases st, 0nat,
{
    match st {
        StatementView::Block(inner) => block_statements_flat(inner),
        StatementView::If(_, body, else_ifs, else_block) => blocks_flat(body) && else_ifs_blocks_flat(
            else_ifs,
        ) && match else_block {
            Some(b) => blocks_flat(b),
            Option::None => true,
        },
        StatementView::Loop(body) => blocks_flat(body),
        StatementView::While(_, body) => blocks_flat(body),
        StatementView::FunctionDeclaration(_, body, is_definition) => is_definition ==> blocks_flat(
            body,
        ),
        _ => true,
    }
}

/// The statements of a block are no blocks, and the lists inside them have
/// flat blocks
pub open spec fn block_statements_flat(ms: Seq<StatementView>) -> bool
    decreases ms, 0nat,
{
    if ms.len() == 0 {
        true
    } else {
        block_statements_flat(ms.drop_last()) && !(ms.last() is Block) && statement_blocks_flat(
            ms.last(),
        )
    }
}

/// The bodies of the `else if` branches have flat blocks
pub open spec fn else_ifs_blocks_flat(es: Seq<(Expression, Seq<StatementView>)>) -> bool
    decreases es, 0nat,
{
    if es.len() == 0 {
        true
    } else {
        else_ifs_blocks_flat(es.drop_last()) && blocks_flat(es.last().1)
    }
}

/// Every statement of a list with flat blocks has flat blocks; those of a
/// block's statements are no blocks either, and such a list has flat blocks
pub proof fn lemma_blocks_flat(ms: Seq<StatementView>)
    ensures
        blocks_flat(ms) ==> forall|i: int|
            0 <= i < ms.len() ==> #[trigger] statement_blocks_flat(ms[i]),
        block_statements_flat(ms) ==> blocks_flat(ms) && forall|i: int|
            0 <= i < ms.len() ==> !(#[trigger] ms[i] is Block),
    decreases ms.len(),
{
    if ms.len() > 0 {
        lemma_blocks_flat(ms.drop_last());
        assert forall|i: int| 0 <= i < ms.len() - 1 implies ms.drop_last()[i] == ms[i] by {}
    }
}

/// The bodies of the `else if` branches with flat blocks have flat blocks
pub proof fn lemma_else_ifs_blocks_flat(es: Seq<(Expression, Seq<StatementView>)>)
    requires
        else_ifs_blocks_flat(es),
    ensures
        forall|i: int| 0 <= i < es.len() ==> blocks_flat(#[trigger] es[i].1),
    decreases es.len(),
{
    if es.len() > 0 {
        lemma_else_ifs_blocks_flat(es.drop_last());
        assert forall|i: int| 0 <= i < es.len() - 1 implies es.drop_last()[i] == es[i] by {}
    }
}

/// The values of `else if` branches are the values of each branch
pub proof fn lemma_view_else_ifs(s: Seq<ElseIf>)
    ensures
        view_else_ifs(s).len() == s.len(),
        forall|i: int|
            0 <= i < s.len() ==> #[trigger] view_else_ifs(s)[i] == (
                s[i].condition,
                view_statements(s[i].body@),
            ),
    decreases s.len(),
{
    if s.len() > 0 {
        lemma_view_else_ifs(s.drop_last());
    }
}

/// The pass state held by the executable pass
pub open spec fn state_of(
    kill: Seq<Variable>,
    decls: Seq<Variable>,
    out: Seq<Statement>,
    stopped: bool,
) -> PassState {
    PassState { kill, decls, out: view_statements(out), stopped }
}

/// The values of statements are the values of each statement
pub proof fn lemma_view_statements(s: Seq<Statement>)
    ensures
        view_statements(s).len() == s.len(),
        forall|i: int| 0 <= i < s.len() ==> #[trigger] view_statements(s)[i] == view_statement(s[i]),
    decreases s.len(),
{
    if s.len() > 0 {
        lemma_view_statements(s.drop_last());
    }
}

/// A copy of the variables
fn copy_variables(vs: &Vec<Variable>) -> (r: Vec<Variable>)
    ensures
        r@ == vs@,
{
    let mut r: Vec<Variable> = Vec::new();
    let mut k: usize = 0;
    while k < vs.len()
        invariant
            k <= vs@.len(),
            r@ == vs@.subrange(0, k as int),
        decreases vs@.len() - k,
    {
        r.push(vs[k]);
        k = k + 1;
        assert(r@ =~= vs@.subrange(0, k as int));
    }
    assert(vs@.subrange(0, vs@.len() as int) =~= vs@);
    r
}

/// Add the call of the destructor of `e`'s type on `e`, if it has one
fn destroy_into(out: &mut Vec<Statement>, e: Expression, table: &Destructors)
    ensures
        view_statements(final(out)@) == destroy(view_statements(old(out)@), e, table.by_type@),
{
    let ty = e.ty();
    if ty < table.by_type.len() {
        match table.by_type[ty] {
            Some((function, call_type)) => {
                assert(destructor_for(table.by_type@, expression_type(e)) == Some((function, call_type)));
                let ghost e0 = e;
                let r = e.range();
                out.push(
                    Statement::Expression(
                        Expression::Call {
                            function,
                            argument: Box::new(e),
                            start: r.start,
                            end: r.end,
                            ty: call_type,
                        },
                    ),
                );
                proof {
                    assert(old(out)@ =~= out@.drop_last());
                    assert(view_statements(out@) == view_statements(old(out)@).push(view_statement(out@.last())));
                    assert(view_statement(out@.last()) == StatementView::Expression(
                        Expression::Call {
                            function,
                            argument: Box::new(e0),
                            start: expression_start(e0),
                            end: expression_end(e0),
                            ty: call_type,
                        },
                    ));
                }
            },
            Option::None => {},
        }
    }
}

/// Add the destruction of the variables, in order
fn destroy_all_into(out: &mut Vec<Statement>, vs: &Vec<Variable>, table: &Destructors)
    ensures
        view_statements(final(out)@) == destroy_all(view_statements(old(out)@), vs@, table.by_type@),
{
    let mut k: usize = 0;
    while k < vs.len()
        invariant
            k <= vs@.len(),
            view_statements(out@) == destroy_all(
                view_statements(old(out)@),
                vs@.subrange(0, k as int),
                table.by_type@,
            ),
        decreases vs@.len() - k,
    {
        let v = vs[k];
        destroy_into(out, Expression::VariableReference { variable: v, start: v.start, end: v.end }, table);
        proof {
            let p = vs@.subrange(0, k + 1);
            assert(p.drop_last() =~= vs@.subrange(0, k as int));
        }
        k = k + 1;
    }
    assert(vs@.subrange(0, vs@.len() as int) =~= vs@);
}

/// The variables without `v`
fn remove_variable(vs: &Vec<Variable>, v: Variable) -> (r: Vec<Variable>)
    ensures
        r@ == without(vs@, v),
{
    let mut r: Vec<Variable> = Vec::new();
    let mut k: usize = 0;
    while k < vs.len()
        invariant
            k <= vs@.len(),
            r@ == without(vs@.subrange(0, k as int), v),
        decreases vs@.len() - k,
    {
        if vs[k] != v {
            r.push(vs[k]);
        }
        proof {
            let p = vs@.subrange(0, k + 1);
            assert(p.drop_last() =~= vs@.subrange(0, k as int));
        }
        k = k + 1;
    }
    assert(vs@.subrange(0, vs@.len() as int) =~= vs@);
    r
}

/// Add a statement
fn push_statement(out: &mut Vec<Statement>, st: Statement)
    ensures
        view_statements(final(out)@) == view_statements(old(out)@).push(view_statement(st)),
{
    let ghost st0 = st;
    out.push(st);
    proof {
        assert(out@.drop_last() =~= old(out)@);
        assert(out@.last() == st0);
    }
}

/// Add an assignment, after the destruction of its target's old value
fn assign_into(out: &mut Vec<Statement>, target: &Expression, value: &Expression, table: &Destructors)
    ensures
        view_statements(final(out)@) == destroy(view_statements(old(out)@), *target, table.by_type@).push(
            StatementView::Assignment(*target, *value),
        ),
{
    let t = target.clone();
    destroy_into(out, t, table);
    let ghost mid = out@;
    out.push(Statement::Assignment { target: target.clone(), value: value.clone() });
    proof {
        assert(mid =~= out@.drop_last());
        assert(view_statement(out@.last()) == StatementView::Assignment(*target, *value));
        assert(view_statements(out@) == view_statements(out@.drop_last()).push(view_statement(out@.last())));
    }
}

/// The pass over one statement
#[verifier::loop_isolation(false)]
fn step_into(
    st: Statement,
    kill: &mut Vec<Variable>,
    decls: &mut Vec<Variable>,
    out: &mut Vec<Statement>,
    stopped: &mut bool,
    table: &Destructors,
)
    requires
        !*old(stopped),
        statement_blocks_flat(view_statement(st)),
    ensures
        state_of(final(kill)@, final(decls)@, final(out)@, *final(stopped)) == step(
            view_statement(st),
            state_of(old(kill)@, old(decls)@, old(out)@, *old(stopped)),
            table.by_type@,
        ),
    decreases st, 0nat,
{
    let ghost st0 = st;
    let ghost out0 = out@;
    match st {
        Statement::If { condition, body, else_ifs, else_block } => {
            proof {
                assert(decreases_to!(st0 => st0->If_body));
            }
            let body = with_destructors(body, copy_variables(kill), table);
            let mut done: Vec<ElseIf> = Vec::new();
            let mut rest = else_ifs;
            let ghost all = rest@;
            proof {
                lemma_view_else_ifs(all);
                assert(statement_blocks_flat(view_statement(st0)));
                assert(else_ifs_blocks_flat(view_else_ifs(all)));
                lemma_else_ifs_blocks_flat(view_else_ifs(all));
                assert forall|i: int| 0 <= i < all.len() implies blocks_flat(
                    view_statements(#[trigger] all[i].body@),
                ) by {
                    assert(view_else_ifs(all)[i].1 == view_statements(all[i].body@));
                }
            }
            let _ = rest.len();
            assert(all.len() <= usize::MAX);
            let mut k: usize = 0;
            while rest.len() > 0
                invariant
                    st0 is If,
                    all == st0->else_ifs@,
                    k + rest@.len() == all.len(),
                    all.len() <= usize::MAX,
                    forall|i: int| 0 <= i < all.len() ==> blocks_flat(view_statements(#[trigger] all[i].body@)),
                    rest@ == all.subrange(k as int, all.len() as int),
                    view_else_ifs(done@) == else_ifs_destructed(
                        view_else_ifs(all.subrange(0, k as int)),
                        kill@,
                        table.by_type@,
                    ),
                decreases rest@.len(),
            {
                let e = rest.remove(0);
                proof {
                    assert(e == all[k as int]);
                    assert(decreases_to!(st0 => st0->else_ifs));
                    assert(decreases_to!(st0->else_ifs => st0->else_ifs@));
                    assert(decreases_to!(st0->else_ifs@ => st0->else_ifs@[k as int]));
                    assert(decreases_to!(all[k as int] => all[k as int].body));
                }
                let ElseIf { condition: c, body: b } = e;
                let b = with_destructors(b, copy_variables(kill), table);
                let ghost before = done@;
                done.push(ElseIf { condition: c, body: b });
                proof {
                    assert(before =~= done@.drop_last());
                    let p = all.subrange(0, k + 1);
                    assert(p.drop_last() =~= all.subrange(0, k as int));
                    assert(p.last() == all[k as int]);
                    let vp = view_else_ifs(p);
                    assert(vp == view_else_ifs(p.drop_last()).push(
                        (p.last().condition, view_statements(p.last().body@)),
                    ));
                    assert(vp.drop_last() =~= view_else_ifs(p.drop_last()));
                    assert(view_else_ifs(done@) == view_else_ifs(before).push(
                        (c, view_statements(b@)),
                    ));
                }
                k = k + 1;
            }
            proof {
                assert(all.subrange(0, all.len() as int) =~= all);
            }
            let else_block = match else_block {
                Some(b) => {
                    proof {
                        assert(decreases_to!(st0 => st0->else_block));
                    }
                    Some(with_destructors(b, copy_variables(kill), table))
                },
                Option::None => Option::None,
            };
            push_statement(out, Statement::If { condition, body, else_ifs: done, else_block });
        },
        Statement::Loop { body } => {
            let body = with_destructors(body, copy_variables(kill), table);
            push_statement(out, Statement::Loop { body });
        },
        Statement::While { condition, body } => {
            let body = with_destructors(body, copy_variables(kill), table);
            push_statement(out, Statement::While { condition, body });
        },
        Statement::VariableDeclaration { variable, initializer } => {
            kill.push(variable);
            decls.push(variable);
            push_statement(out, Statement::VariableDeclaration { variable, initializer });
        },
        Statement::FunctionDeclaration(f) => {
            let Function { parameters, body, is_definition } = f;
            let body = if is_definition {
                proof {
                    assert(decreases_to!(st0 => st0->FunctionDeclaration_0));
                }
                let params = copy_variables(&parameters);
                with_destructors(body, params, table)
            } else {
                body
            };
            push_statement(out, Statement::FunctionDeclaration(Function { parameters, body, is_definition }));
        },
        Statement::Return { value } => {
            let left = match &value {
                Some(Expression::VariableReference { variable, .. }) => remove_variable(kill, *variable),
                _ => copy_variables(kill),
            };
            destroy_all_into(out, &left, table);
            push_statement(out, Statement::Return { value });
            *kill = left;
            *decls = Vec::new();
            *stopped = true;
        },
        Statement::Block { statements } => {
            push_statement(out, Statement::Block { statements });
        },
        Statement::OtherDeclaration => {
            push_statement(out, Statement::OtherDeclaration);
        },
        Statement::Expression(e) => {
            push_statement(out, Statement::Expression(e));
        },
        Statement::Assignment { target, value } => {
            assign_into(out, &target, &value, table);
        },
        Statement::Use => {
            push_statement(out, Statement::Use);
        },
    }
}

/// The pass over a list of statements, blocks taken in place
fn pass_into(
    statements: Vec<Statement>,
    kill: &mut Vec<Variable>,
    decls: &mut Vec<Variable>,
    out: &mut Vec<Statement>,
    stopped: &mut bool,
    table: &Destructors,
)
    requires
        blocks_flat(view_statements(statements@)),
    ensures
        state_of(final(kill)@, final(decls)@, final(out)@, *final(stopped)) == pass(
            view_statements(statements@),
            0,
            state_of(old(kill)@, old(decls)@, old(out)@, *old(stopped)),
            table.by_type@,
        ),
    decreases statements, 0nat,
{
    let ghost all = statements@;
    let ghost ms = view_statements(all);
    let ghost s0 = state_of(kill@, decls@, out@, *stopped);
    proof {
        lemma_view_statements(all);
        lemma_blocks_flat(ms);
    }
    let mut rest = statements;
    let _ = rest.len();
    let mut k: usize = 0;
    while rest.len() > 0
        invariant
            all.len() <= usize::MAX,
            all == statements@,
            s0 == state_of(old(kill)@, old(decls)@, old(out)@, *old(stopped)),
            ms == view_statements(all),
            ms.len() == all.len(),
            forall|i: int| 0 <= i < all.len() ==> #[trigger] ms[i] == view_statement(all[i]),
            forall|i: int| 0 <= i < ms.len() ==> #[trigger] statement_blocks_flat(ms[i]),
            k + rest@.len() == all.len(),
            rest@ == all.subrange(k as int, all.len() as int),
            pass(ms, 0, s0, table.by_type@) == pass(
                ms,
                k as nat,
                state_of(kill@, decls@, out@, *stopped),
                table.by_type@,
            ),
        decreases rest@.len(),
    {
        if *stopped {
            return;
        }
        let ghost before = state_of(kill@, decls@, out@, *stopped);
        let st = rest.remove(0);
        proof {
            assert(st == all[k as int]);
            assert(decreases_to!(statements => statements@));
            assert(decreases_to!(statements@ => statements@[k as int]));
        }
        match st {
            Statement::Block { statements: inner } => {
                proof {
                    assert(decreases_to!(all[k as int] => all[k as int]->Block_statements));
                    assert(statement_blocks_flat(ms[k as int]));
                    lemma_blocks_flat(view_statements(inner@));
                }
                pass_into(inner, kill, decls, out, stopped, table);
            },
            other => {
                proof {
                    assert(statement_blocks_flat(ms[k as int]));
                }
                step_into(other, kill, decls, out, stopped, table);
            },
        }
        k = k + 1;
    }
}

/// Insert destructors calls into statements: `kill` holds what is to be
/// destroyed at a return (for a function body, its parameters)
pub fn with_destructors(statements: Vec<Statement>, kill: Vec<Variable>, table: &Destructors) -> (r: Vec<
    Statement,
>)
    requires
        blocks_flat(view_statements(statements@)),
    ensures
        view_statements(r@) == destructed(view_statements(statements@), kill@, table.by_type@),
    decreases statements, 1nat,
{
    let mut kill = kill;
    let mut decls: Vec<Variable> = Vec::new();
    let mut out: Vec<Statement> = Vec::new();
    let mut stopped = false;
    proof {
        assert(view_statements(out@) =~= Seq::<StatementView>::empty());
    }
    pass_into(statements, &mut kill, &mut decls, &mut out, &mut stopped, table);
    destroy_all_into(&mut out, &decls, table);
    out
}

impl Function {
    /// Insert destructors calls into the body of a defined function, its
    /// parameters to be destroyed at a return
    pub fn insert_destructors(&mut self, table: &Destructors)
        requires
            old(self).is_definition ==> blocks_flat(view_statements(old(self).body@)),
        ensures
            final(self).parameters@ == old(self).parameters@,
            final(self).is_definition == old(self).is_definition,
            old(self).is_definition ==> view_statements(final(self).body@) == destructed(
                view_statements(old(self).body@),
                old(self).parameters@,
                table.by_type@,
            ),
            !old(self).is_definition ==> final(self).body@ == old(self).body@,
    {
        if !self.is_definition {
            return;
        }
        let mut body: Vec<Statement> = Vec::new();
        std::mem::swap(&mut body, &mut self.body);
        let kill = copy_variables(&self.parameters);
        self.body = with_destructors(body, kill, table);
    }
}

/// Insert destructors calls into the statements of a module
pub fn module_with_destructors(statements: Vec<Statement>, table: &Destructors) -> (r: Vec<Statement>)
    requires
        blocks_flat(view_statements(statements@)),
    ensures
        view_statements(r@) == destructed(view_statements(statements@), Seq::empty(), table.by_type@),
{
    let kill: Vec<Variable> = Vec::new();
    with_destructors(statements, kill, table)
}

/// The call of the destructor of `v`'s type on `v`, where the type has one
pub open spec fn destructor_call(v: Variable, table: Seq<Option<(usize, usize)>>) -> Option<StatementView> {
    match destructor_for(table, v.ty) {
        Some((function, ty)) => Some(
            StatementView::Expression(
                Expression::Call { function, argument: Box::new(reference_to(v)), start: v.start, end: v.end, ty },
            ),
        ),
        Option::None => Option::None,
    }
}

/// A `return` of `value` hands `v` itself back
pub open spec fn returns_variable(value: Option<Expression>, v: Variable) -> bool {
    value matches Some(Expression::VariableReference { variable, .. }) && variable == v
}

/// Before a `return` of `value`, among the statements `before` it, stands
/// the destructor call of each of the variables that has one, but the one
/// returned
pub open spec fn destroyed_before_return(
    value: Option<Expression>,
    before: Seq<StatementView>,
    vs: Seq<Variable>,
    table: Seq<Option<(usize, usize)>>,
) -> bool {
    forall|j: int|
        0 <= j < vs.len() && !returns_variable(value, vs[j]) && (#[trigger] destructor_call(vs[j], table)) is Some
            ==> before.contains(destructor_call(vs[j], table)->Some_0)
}

/// Each `return` of the list, also inside the bodies of `if`, `else if`,
/// `else`, loops and blocks (not of nested functions, which have their own
/// variables), comes after the destructor calls of the variables `vs` in
/// its own list
pub open spec fn returns_destroy(
    l: Seq<StatementView>,
    vs: Seq<Variable>,
    table: Seq<Option<(usize, usize)>>,
) -> bool
    decreases l, 0nat,
{
    if l.len() == 0 {
        true
    } else {
        returns_destroy(l.drop_last(), vs, table) && statement_destroys(l.last(), l.drop_last(), vs, table)
    }
}

/// The statement, after `before` in its list, keeps to [`returns_destroy`]
pub open spec fn statement_destroys(
    st: StatementView,
    before: Seq<StatementView>,
    vs: Seq<Variable>,
    table: Seq<Option<(usize, usize)>>,
) -> bool
    decreases st, 0nat,
{
    match st {
        StatementView::Return(value) => destroyed_before_return(value, before, vs, table),
        StatementView::Block(b) => returns_destroy(b, vs, table),
        StatementView::Loop(b) => returns_destroy(b, vs, table),
        StatementView::While(_, b) => returns_destroy(b, vs, table),
        StatementView::If(_, b, es, eb) => returns_destroy(b, vs, table) && else_ifs_destroy(es, vs, table) && match eb {
            Some(e) => returns_destroy(e, vs, table),
            Option::None => true,
        },
        _ => true,
    }
}

/// The bodies of the `else if` branches keep to [`returns_destroy`]
pub open spec fn else_ifs_destroy(
    es: Seq<(Expression, Seq<StatementView>)>,
    vs: Seq<Variable>,
    table: Seq<Option<(usize, usize)>>,
) -> bool
    decreases es, 0nat,
{
    if es.len() == 0 {
        true
    } else {
        else_ifs_destroy(es.drop_last(), vs, table) && returns_destroy(es.last().1, vs, table)
    }
}

/// The variables `vs` are among `kill`
pub open spec fn among(vs: Seq<Variable>, kill: Seq<Variable>) -> bool {
    forall|j: int| 0 <= j < vs.len() ==> kill.contains(#[trigger] vs[j])
}

proof fn lemma_returns_destroy_push(l: Seq<StatementView>, x: StatementView, vs: Seq<Variable>, table: Seq<Option<(usize, usize)>>)
    ensures
        returns_destroy(l.push(x), vs, table) == (returns_destroy(l, vs, table) && statement_destroys(x, l, vs, table)),
{
    assert(l.push(x).drop_last() =~= l);
}

/// Destroying variables adds only destructor calls, so a list that keeps
/// to [`returns_destroy`] still does
proof fn lemma_destroy_all_keeps(out: Seq<StatementView>, ks: Seq<Variable>, vs: Seq<Variable>, table: Seq<Option<(usize, usize)>>)
    requires
        returns_destroy(out, vs, table),
    ensures
        returns_destroy(destroy_all(out, ks, table), vs, table),
    decreases ks.len(),
{
    if ks.len() > 0 {
        lemma_destroy_all_keeps(out, ks.drop_last(), vs, table);
        let before = destroy_all(out, ks.drop_last(), table);
        let e = reference_to(ks.last());
        match destructor_for(table, expression_type(e)) {
            Some((function, ty)) => {
                lemma_returns_destroy_push(
                    before,
                    StatementView::Expression(
                        Expression::Call { function, argument: Box::new(e), start: expression_start(e), end: expression_end(e), ty },
                    ),
                    vs,
                    table,
                );
            },
            Option::None => {},
        }
    }
}

/// Destroying variables calls the destructor of each of them that has one
proof fn lemma_destroy_all_calls(out: Seq<StatementView>, ks: Seq<Variable>, v: Variable, table: Seq<Option<(usize, usize)>>)
    requires
        ks.contains(v),
        destructor_call(v, table) is Some,
    ensures
        destroy_all(out, ks, table).contains(destructor_call(v, table)->Some_0),
    decreases ks.len(),
{
    let before = destroy_all(out, ks.drop_last(), table);
    let r = destroy_all(out, ks, table);
    if ks.last() == v {
        assert(r == before.push(destructor_call(v, table)->Some_0));
        assert(r[r.len() - 1] == destructor_call(v, table)->Some_0);
    } else {
        let i = choose|i: int| 0 <= i < ks.len() && ks[i] == v;
        assert(ks.drop_last()[i] == v);
        lemma_destroy_all_calls(out, ks.drop_last(), v, table);
        let j = choose|j: int| 0 <= j < before.len() && before[j] == destructor_call(v, table)->Some_0;
        assert(r.subrange(0, before.len() as int) =~= before) by {
            let e = reference_to(ks.last());
            match destructor_for(table, expression_type(e)) {
                Some(_) => {},
                Option::None => {},
            }
        }
        assert(r[j] == before[j]);
    }
}

/// A variable other than `w` stays among the variables without `w`
proof fn lemma_without_keeps(ks: Seq<Variable>, w: Variable, v: Variable)
    requires
        ks.contains(v),
        v != w,
    ensures
        without(ks, w).contains(v),
    decreases ks.len(),
{
    let r = without(ks, w);
    if ks.last() == v {
        assert(r[r.len() - 1] == v);
    } else {
        let i = choose|i: int| 0 <= i < ks.len() && ks[i] == v;
        assert(ks.drop_last()[i] == v);
        lemma_without_keeps(ks.drop_last(), w, v);
        let j = choose|j: int| 0 <= j < without(ks.drop_last(), w).len() && without(ks.drop_last(), w)[j] == v;
        if ks.last() != w {
            assert(r[j] == v);
        }
    }
}

/// The pass over a list keeps to [`returns_destroy`] for variables that are
/// to be destroyed at its start
proof fn lemma_pass_destroys(ms: Seq<StatementView>, i: nat, s: PassState, vs: Seq<Variable>, table: Seq<Option<(usize, usize)>>)
    requires
        returns_destroy(s.out, vs, table),
        !s.stopped ==> among(vs, s.kill),
    ensures
        returns_destroy(pass(ms, i, s, table).out, vs, table),
        !pass(ms, i, s, table).stopped ==> among(vs, pass(ms, i, s, table).kill),
        s.stopped ==> pass(ms, i, s, table) == s,
    decreases ms, ms.len() - i,
{
    if s.stopped || i >= ms.len() {
    } else {
        let next = match ms[i as int] {
            StatementView::Block(inner) => pass(inner, 0, s, table),
            _ => step(ms[i as int], s, table),
        };
        match ms[i as int] {
            StatementView::Block(inner) => {
                assert(decreases_to!(ms => ms[i as int]));
                lemma_pass_destroys(inner, 0, s, vs, table);
            },
            _ => {
                lemma_step_destroys(ms[i as int], s, vs, table);
            },
        }
        lemma_pass_destroys(ms, i + 1, next, vs, table);
    }
}

/// One statement keeps to [`returns_destroy`] for the variables that are to
/// be destroyed before it
proof fn lemma_step_destroys(st: StatementView, s: PassState, vs: Seq<Variable>, table: Seq<Option<(usize, usize)>>)
    requires
        returns_destroy(s.out, vs, table),
        among(vs, s.kill),
        !s.stopped,
        !(st is Block),
    ensures
        returns_destroy(step(st, s, table).out, vs, table),
        !step(st, s, table).stopped ==> among(vs, step(st, s, table).kill),
    decreases st, 0nat,
{
    let r = step(st, s, table);
    match st {
        StatementView::Assignment(target, _) => {
            match destructor_for(table, expression_type(target)) {
                Some((function, ty)) => {
                    lemma_returns_destroy_push(
                        s.out,
                        StatementView::Expression(
                            Expression::Call {
                                function,
                                argument: Box::new(target),
                                start: expression_start(target),
                                end: expression_end(target),
                                ty,
                            },
                        ),
                        vs,
                        table,
                    );
                },
                Option::None => {},
            }
            lemma_returns_destroy_push(destroy(s.out, target, table), st, vs, table);
        },
        StatementView::If(condition, body, else_ifs, else_block) => {
            lemma_destructed_destroys(body, s.kill, vs, table);
            lemma_else_ifs_destroy(else_ifs, s.kill, vs, table);
            match else_block {
                Some(b) => lemma_destructed_destroys(b, s.kill, vs, table),
                Option::None => {},
            }
            lemma_returns_destroy_push(s.out, r.out.last(), vs, table);
            assert(r.out == s.out.push(r.out.last()));
        },
        StatementView::Loop(body) => {
            lemma_destructed_destroys(body, s.kill, vs, table);
            lemma_returns_destroy_push(s.out, StatementView::Loop(destructed(body, s.kill, table)), vs, table);
        },
        StatementView::While(condition, body) => {
            lemma_destructed_destroys(body, s.kill, vs, table);
            lemma_returns_destroy_push(s.out, StatementView::While(condition, destructed(body, s.kill, table)), vs, table);
        },
        StatementView::VariableDeclaration(v, _) => {
            lemma_returns_destroy_push(s.out, st, vs, table);
            assert forall|j: int| 0 <= j < vs.len() implies r.kill.contains(#[trigger] vs[j]) by {
                let k = choose|k: int| 0 <= k < s.kill.len() && s.kill[k] == vs[j];
                assert(r.kill[k] == vs[j]);
            }
        },
        StatementView::FunctionDeclaration(parameters, body, is_definition) => {
            lemma_returns_destroy_push(s.out, r.out.last(), vs, table);
            assert(r.out == s.out.push(r.out.last()));
        },
        StatementView::Return(value) => {
            let kill = match value {
                Some(Expression::VariableReference { variable, .. }) => without(s.kill, variable),
                _ => s.kill,
            };
            let before = destroy_all(s.out, kill, table);
            lemma_destroy_all_keeps(s.out, kill, vs, table);
            assert forall|j: int|
                0 <= j < vs.len() && !returns_variable(value, vs[j]) && (#[trigger] destructor_call(vs[j], table)) is Some
                    implies before.contains(destructor_call(vs[j], table)->Some_0) by {
                assert(s.kill.contains(vs[j]));
                match value {
                    Some(Expression::VariableReference { variable, .. }) => {
                        lemma_without_keeps(s.kill, variable, vs[j]);
                    },
                    _ => {},
                }
                lemma_destroy_all_calls(s.out, kill, vs[j], table);
            }
            lemma_returns_destroy_push(before, st, vs, table);
        },
        _ => {
            lemma_returns_destroy_push(s.out, st, vs, table);
        },
    }
}

/// The bodies of `else if` branches, destructed with `kill`, keep to
/// [`returns_destroy`] for variables among `kill`
proof fn lemma_else_ifs_destroy(es: Seq<(Expression, Seq<StatementView>)>, kill: Seq<Variable>, vs: Seq<Variable>, table: Seq<Option<(usize, usize)>>)
    requires
        among(vs, kill),
    ensures
        else_ifs_destroy(else_ifs_destructed(es, kill, table), vs, table),
    decreases es, 0nat,
{
    if es.len() > 0 {
        lemma_else_ifs_destroy(es.drop_last(), kill, vs, table);
        lemma_destructed_destroys(es.last().1, kill, vs, table);
        let r = else_ifs_destructed(es, kill, table);
        assert(r.drop_last() =~= else_ifs_destructed(es.drop_last(), kill, table));
    }
}

/// Destructors before returns: in a list of statements with destructor
/// calls, every `return`, however deep inside `if`, `else if`, `else`,
/// loops and blocks it stands, comes after the destructor call of each
/// variable that was to be destroyed where the list begins (the returned
/// variable aside): for a function body, each of its parameters
pub proof fn lemma_returns_destroy_what_is_in_scope(
    ms: Seq<StatementView>,
    kill: Seq<Variable>,
    vs: Seq<Variable>,
    table: Seq<Option<(usize, usize)>>,
)
    requires
        among(vs, kill),
    ensures
        returns_destroy(destructed(ms, kill, table), vs, table),
{
    lemma_destructed_destroys(ms, kill, vs, table);
}

proof fn lemma_destructed_destroys(ms: Seq<StatementView>, kill: Seq<Variable>, vs: Seq<Variable>, table: Seq<Option<(usize, usize)>>)
    requires
        among(vs, kill),
    ensures
        returns_destroy(destructed(ms, kill, table), vs, table),
    decreases ms, ms.len() + 1,
{
    let s0 = PassState { kill, decls: Seq::empty(), out: Seq::empty(), stopped: false };
    lemma_pass_destroys(ms, 0, s0, vs, table);
    let s = pass(ms, 0, s0, table);
    lemma_destroy_all_keeps(s.out, s.decls, vs, table);
}

} // verus!
