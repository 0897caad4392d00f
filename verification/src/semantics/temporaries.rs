use vstd::prelude::*;
use vstd::string::StringExecFns;

use crate::semantics::unnamed::{append_decimal, decimal};

verus! {

/// Kind of an implicit conversion
#[derive(Debug, Clone, Copy, PartialEq, Eq, Structural)]
pub enum ConversionKind {
    /// Take a reference to the value
    Reference,
    /// Read the value behind a reference
    Dereference,
    /// Copy the value
    Copy,
}

/// An expression of the typed tree, as the pass that brings in temporaries
/// reads it
#[derive(Debug)]
pub enum Expression {
    Literal { ty: usize, start: usize, end: usize },
    /// Reference to a declared variable
    Variable { variable: usize, ty: usize, mutable: bool, start: usize, end: usize },
    /// Reference to the temporary brought in at `offset`
    Temporary { offset: usize, ty: usize, mutable: bool, start: usize, end: usize },
    /// Implicit conversion of an expression
    Conversion { kind: ConversionKind, expression: Box<Expression>, ty: usize, start: usize, end: usize },
    Call { function: usize, arguments: Vec<Expression>, ty: usize, start: usize, end: usize },
    /// Construction of a value of a class from the values of its members
    Constructor { initializers: Vec<Expression>, ty: usize, start: usize, end: usize },
    /// A member of the value of an expression
    MemberReference { base: Box<Expression>, member: usize, ty: usize, start: usize, end: usize },
    /// Any other expression: its type, whether it may change, and its range
    Other { ty: usize, mutable: bool, start: usize, end: usize },
}

/// A temporary: the offset it is named after, its name, whether it may
/// change, and the expression it holds
#[derive(Debug)]
pub struct Temporary {
    pub offset: usize,
    pub name: String,
    pub mutable: bool,
    pub initializer: Expression,
}

/// A statement of the typed tree
#[derive(Debug)]
pub enum Statement {
    /// Declaration of a temporary
    Temporary(Temporary),
    VariableDeclaration { variable: usize, initializer: Option<Expression> },
    Expression(Expression),
    Assignment { target: Expression, value: Expression },
    Return { value: Option<Expression> },
    Block { statements: Vec<Statement> },
    If { condition: Expression, body: Vec<Statement>, else_block: Option<Vec<Statement>> },
    Loop { body: Vec<Statement> },
    While { condition: Expression, body: Vec<Statement> },
    /// Declaration of a function with its body
    Function { function: usize, body: Vec<Statement> },
}

/// An expression as a mathematical value
pub enum ExprView {
    Literal { ty: usize, start: usize, end: usize },
    Variable { variable: usize, ty: usize, mutable: bool, start: usize, end: usize },
    Temporary { offset: usize, ty: usize, mutable: bool, start: usize, end: usize },
    Conversion { kind: ConversionKind, expression: Box<ExprView>, ty: usize, start: usize, end: usize },
    Call { function: usize, arguments: Seq<ExprView>, ty: usize, start: usize, end: usize },
    Constructor { initializers: Seq<ExprView>, ty: usize, start: usize, end: usize },
    MemberReference { base: Box<ExprView>, member: usize, ty: usize, start: usize, end: usize },
    Other { ty: usize, mutable: bool, start: usize, end: usize },
}

/// A temporary as a mathematical value: the offset it is named after, its
/// name, whether it may change, and the expression it holds
pub struct TempView {
    pub offset: usize,
    pub name: Seq<char>,
    pub mutable: bool,
    pub initializer: ExprView,
}

/// A statement as a mathematical value
pub enum StmtView {
    Temporary(TempView),
    VariableDeclaration(usize, Option<ExprView>),
    Expression(ExprView),
    Assignment(ExprView, ExprView),
    Return(Option<ExprView>),
    Block(Seq<StmtView>),
    If(ExprView, Seq<StmtView>, Option<Seq<StmtView>>),
    Loop(Seq<StmtView>),
    While(ExprView, Seq<StmtView>),
    Function(usize, Seq<StmtView>),
}

/// The mathematical value of an expression
pub open spec fn expr_view(e: Expression) -> ExprView
    decreases e, 0nat,
{
    match e {
        Expression::Literal { ty, start, end } => ExprView::Literal { ty, start, end },
        Expression::Variable { variable, ty, mutable, start, end } => ExprView::Variable { variable, ty, mutable, start, end },
        Expression::Temporary { offset, ty, mutable, start, end } => ExprView::Temporary { offset, ty, mutable, start, end },
        Expression::Conversion { kind, expression, ty, start, end } => ExprView::Conversion {
            kind,
            expression: Box::new(expr_view(*expression)),
            ty,
            start,
            end,
        },
        Expression::Call { function, arguments, ty, start, end } => ExprView::Call {
            function,
            arguments: exprs_view(arguments@, arguments@.len()),
            ty,
            start,
            end,
        },
        Expression::Constructor { initializers, ty, start, end } => ExprView::Constructor {
            initializers: exprs_view(initializers@, initializers@.len()),
            ty,
            start,
            end,
        },
        Expression::MemberReference { base, member, ty, start, end } => ExprView::MemberReference {
            base: Box::new(expr_view(*base)),
            member,
            ty,
            start,
            end,
        },
        Expression::Other { ty, mutable, start, end } => ExprView::Other { ty, mutable, start, end },
    }
}

/// The values of the first `n` expressions
pub open spec fn exprs_view(es: Seq<Expression>, n: nat) -> Seq<ExprView>
    decreases es, n,
{
    if n == 0 || n > es.len() {
        Seq::empty()
    } else {
        exprs_view(es, (n - 1) as nat).push(expr_view(es[n - 1]))
    }
}

/// The value of an expression that may be absent
pub open spec fn option_expr_view(e: Option<Expression>) -> Option<ExprView> {
    match e {
        Some(e) => Some(expr_view(e)),
        None => None,
    }
}

/// The mathematical value of a statement
pub open spec fn stmt_view(s: Statement) -> StmtView
    decreases s, 0nat,
{
    match s {
        Statement::Temporary(t) => StmtView::Temporary(temp_view(t)),
        Statement::VariableDeclaration { variable, initializer } => StmtView::VariableDeclaration(
            variable,
            option_expr_view(initializer),
        ),
        Statement::Expression(e) => StmtView::Expression(expr_view(e)),
        Statement::Assignment { target, value } => StmtView::Assignment(expr_view(target), expr_view(value)),
        Statement::Return { value } => StmtView::Return(option_expr_view(value)),
        Statement::Block { statements } => StmtView::Block(stmts_view(statements@, statements@.len())),
        Statement::If { condition, body, else_block } => StmtView::If(
            expr_view(condition),
            stmts_view(body@, body@.len()),
            match else_block {
                Some(b) => Some(stmts_view(b@, b@.len())),
                None => None,
            },
        ),
        Statement::Loop { body } => StmtView::Loop(stmts_view(body@, body@.len())),
        Statement::While { condition, body } => StmtView::While(expr_view(condition), stmts_view(body@, body@.len())),
        Statement::Function { function, body } => StmtView::Function(function, stmts_view(body@, body@.len())),
    }
}

/// The values of the first `n` statements
pub open spec fn stmts_view(ss: Seq<Statement>, n: nat) -> Seq<StmtView>
    decreases ss, n,
{
    if n == 0 || n > ss.len() {
        Seq::empty()
    } else {
        stmts_view(ss, (n - 1) as nat).push(stmt_view(ss[n - 1]))
    }
}

/// Temporaries waiting to be declared: the offset each is named after and
/// the expression it holds, in the order they were brought in
pub type Pending = Seq<TempView>;

/// The value of a temporary
pub open spec fn temp_view(t: Temporary) -> TempView {
    TempView { offset: t.offset, name: t.name@, mutable: t.mutable, initializer: expr_view(t.initializer) }
}

/// Whether the value of an expression may change: that of a variable, a
/// temporary or another expression as it says, a member as the value it
/// is a member of; a literal, a call, a constructor and a conversion give
/// values that may not
pub open spec fn mutability_of(e: ExprView) -> bool
    decreases e,
{
    match e {
        ExprView::MemberReference { base, .. } => mutability_of(*base),
        ExprView::Variable { mutable, .. } => mutable,
        ExprView::Temporary { mutable, .. } => mutable,
        ExprView::Other { mutable, .. } => mutable,
        _ => false,
    }
}

/// The name of the temporary brought in at `offset`
pub open spec fn temporary_name(offset: usize) -> Seq<char> {
    "$tmp@"@ + decimal(offset as nat)
}

/// Where an expression starts
pub open spec fn start_of(e: ExprView) -> usize {
    match e {
        ExprView::Literal { start, .. } => start,
        ExprView::Variable { start, .. } => start,
        ExprView::Temporary { start, .. } => start,
        ExprView::Conversion { start, .. } => start,
        ExprView::Call { start, .. } => start,
        ExprView::Constructor { start, .. } => start,
        ExprView::MemberReference { start, .. } => start,
        ExprView::Other { start, .. } => start,
    }
}

/// Where an expression ends
pub open spec fn end_of(e: ExprView) -> usize {
    match e {
        ExprView::Literal { end, .. } => end,
        ExprView::Variable { end, .. } => end,
        ExprView::Temporary { end, .. } => end,
        ExprView::Conversion { end, .. } => end,
        ExprView::Call { end, .. } => end,
        ExprView::Constructor { end, .. } => end,
        ExprView::MemberReference { end, .. } => end,
        ExprView::Other { end, .. } => end,
    }
}

/// Type of an expression
pub open spec fn type_of(e: ExprView) -> usize {
    match e {
        ExprView::Literal { ty, .. } => ty,
        ExprView::Variable { ty, .. } => ty,
        ExprView::Temporary { ty, .. } => ty,
        ExprView::Conversion { ty, .. } => ty,
        ExprView::Call { ty, .. } => ty,
        ExprView::Constructor { ty, .. } => ty,
        ExprView::MemberReference { ty, .. } => ty,
        ExprView::Other { ty, .. } => ty,
    }
}

/// An expression names a place that can be referred to: a variable or a
/// temporary
pub open spec fn is_place(e: ExprView) -> bool {
    e is Variable || e is Temporary
}

/// The expression kept in a temporary named after where it starts, which
/// may change as the expression may: a reference to the temporary over the
/// expression's range, with its type, and the temporaries with it brought in
pub open spec fn kept(e: ExprView, pending: Pending) -> (ExprView, Pending) {
    (
        ExprView::Temporary {
            offset: start_of(e),
            ty: type_of(e),
            mutable: mutability_of(e),
            start: start_of(e),
            end: end_of(e),
        },
        pending.push(
            TempView {
                offset: start_of(e),
                name: temporary_name(start_of(e)),
                mutable: mutability_of(e),
                initializer: e,
            },
        ),
    )
}

/// The pass over an expression, inner expressions first: a value that a
/// reference is taken of, and that names no place, is kept in a temporary
pub open spec fn pass_expr(e: ExprView, pending: Pending) -> (ExprView, Pending)
    decreases e, 0nat,
{
    match e {
        ExprView::Conversion { kind, expression, ty, start, end } => {
            let (inner, p) = pass_expr(*expression, pending);
            if kind is Reference && !is_place(inner) {
                let (r, p2) = kept(inner, p);
                (ExprView::Conversion { kind, expression: Box::new(r), ty, start, end }, p2)
            } else {
                (ExprView::Conversion { kind, expression: Box::new(inner), ty, start, end }, p)
            }
        },
        ExprView::Call { function, arguments, ty, start, end } => {
            let (args, p) = pass_exprs(arguments, arguments.len(), pending);
            (ExprView::Call { function, arguments: args, ty, start, end }, p)
        },
        ExprView::Constructor { initializers, ty, start, end } => {
            let (inits, p) = pass_exprs(initializers, initializers.len(), pending);
            (ExprView::Constructor { initializers: inits, ty, start, end }, p)
        },
        ExprView::MemberReference { base, member, ty, start, end } => {
            let (b, p) = pass_expr(*base, pending);
            (ExprView::MemberReference { base: Box::new(b), member, ty, start, end }, p)
        },
        _ => (e, pending),
    }
}

/// The pass over the first `n` expressions, in order
pub open spec fn pass_exprs(es: Seq<ExprView>, n: nat, pending: Pending) -> (Seq<ExprView>, Pending)
    decreases es, n,
{
    if n == 0 || n > es.len() {
        (Seq::empty(), pending)
    } else {
        let (done, p) = pass_exprs(es, (n - 1) as nat, pending);
        let (e, p2) = pass_expr(es[n - 1], p);
        (done.push(e), p2)
    }
}

/// The pass over an expression that may be absent
pub open spec fn pass_option(e: Option<ExprView>, pending: Pending) -> (Option<ExprView>, Pending) {
    match e {
        Some(e) => {
            let (r, p) = pass_expr(e, pending);
            (Some(r), p)
        },
        None => (None, pending),
    }
}

/// The declarations of the pending temporaries
pub open spec fn declarations(pending: Pending) -> Seq<StmtView> {
    pending.map_values(|t: TempView| StmtView::Temporary(t))
}

/// After a statement, the temporaries brought in so far are declared before
/// it, in a block with it
pub open spec fn settled(s: StmtView, pending: Pending) -> (StmtView, Pending) {
    if pending.len() == 0 {
        (s, pending)
    } else {
        (StmtView::Block(declarations(pending).push(s)), Seq::empty())
    }
}

/// The pass over a statement, in the order of its parts; after the
/// statement, the temporaries brought in so far are declared before it
pub open spec fn pass_stmt(s: StmtView, pending: Pending) -> (StmtView, Pending)
    decreases s, 1nat,
{
    let rp = pass_parts(s, pending);
    settled(rp.0, rp.1)
}

/// The pass over the parts of a statement, in order: a returned value
/// other than a literal is kept in a temporary
pub open spec fn pass_parts(s: StmtView, pending: Pending) -> (StmtView, Pending)
    decreases s, 0nat,
{
    match s {
        StmtView::Temporary(t) => {
            let (e2, p) = pass_expr(t.initializer, pending);
            (StmtView::Temporary(TempView { initializer: e2, ..t }), p)
        },
        StmtView::VariableDeclaration(v, e) => {
            let (e2, p) = pass_option(e, pending);
            (StmtView::VariableDeclaration(v, e2), p)
        },
        StmtView::Expression(e) => {
            let (e2, p) = pass_expr(e, pending);
            (StmtView::Expression(e2), p)
        },
        StmtView::Assignment(t, v) => {
            let (t2, p) = pass_expr(t, pending);
            let (v2, p2) = pass_expr(v, p);
            (StmtView::Assignment(t2, v2), p2)
        },
        StmtView::Return(v) => {
            let (v2, p) = pass_option(v, pending);
            match v2 {
                Some(e) => if e is Literal {
                    (StmtView::Return(Some(e)), p)
                } else {
                    let (r, p2) = kept(e, p);
                    (StmtView::Return(Some(r)), p2)
                },
                None => (StmtView::Return(None), p),
            }
        },
        StmtView::Block(b) => {
            let (b2, p) = pass_stmts(b, b.len(), pending);
            (StmtView::Block(b2), p)
        },
        StmtView::If(c, b, e) => {
            let (c2, p) = pass_expr(c, pending);
            let (b2, p2) = pass_stmts(b, b.len(), p);
            match e {
                Some(eb) => {
                    let (e2, p3) = pass_stmts(eb, eb.len(), p2);
                    (StmtView::If(c2, b2, Some(e2)), p3)
                },
                None => (StmtView::If(c2, b2, None), p2),
            }
        },
        StmtView::Loop(b) => {
            let (b2, p) = pass_stmts(b, b.len(), pending);
            (StmtView::Loop(b2), p)
        },
        StmtView::While(c, b) => {
            let (c2, p) = pass_expr(c, pending);
            let (b2, p2) = pass_stmts(b, b.len(), p);
            (StmtView::While(c2, b2), p2)
        },
        StmtView::Function(f, b) => {
            let (b2, p) = pass_stmts(b, b.len(), pending);
            (StmtView::Function(f, b2), p)
        },
    }
}

/// The pass over the first `n` statements, in order
pub open spec fn pass_stmts(ss: Seq<StmtView>, n: nat, pending: Pending) -> (Seq<StmtView>, Pending)
    decreases ss, n,
{
    if n == 0 || n > ss.len() {
        (Seq::empty(), pending)
    } else {
        let (done, p) = pass_stmts(ss, (n - 1) as nat, pending);
        let (s, p2) = pass_stmt(ss[n - 1], p);
        (done.push(s), p2)
    }
}

/// The values of the first `n` expressions are the values of each
pub proof fn lemma_exprs_view(es: Seq<Expression>, n: nat)
    requires
        n <= es.len(),
    ensures
        exprs_view(es, n).len() == n,
        forall|j: int| 0 <= j < n ==> #[trigger] exprs_view(es, n)[j] == expr_view(es[j]),
    decreases n,
{
    if n > 0 {
        lemma_exprs_view(es, (n - 1) as nat);
    }
}

/// The values of the first `n` statements are the values of each
pub proof fn lemma_stmts_view(ss: Seq<Statement>, n: nat)
    requires
        n <= ss.len(),
    ensures
        stmts_view(ss, n).len() == n,
        forall|j: int| 0 <= j < n ==> #[trigger] stmts_view(ss, n)[j] == stmt_view(ss[j]),
    decreases n,
{
    if n > 0 {
        lemma_stmts_view(ss, (n - 1) as nat);
    }
}

/// Whether the value of an expression may change
fn mutability(e: &Expression) -> (m: bool)
    ensures
        m == mutability_of(expr_view(*e)),
    decreases e,
{
    match e {
        Expression::Variable { mutable, .. } => *mutable,
        Expression::Temporary { mutable, .. } => *mutable,
        Expression::Other { mutable, .. } => *mutable,
        Expression::MemberReference { base, .. } => {
            let b: &Expression = base;
            mutability(b)
        },
        _ => false,
    }
}

/// The pass that brings in temporaries: a value that a reference is taken
/// of, and a returned value other than a literal, are kept in a temporary
/// named after where the value starts, declared just before the statement
/// it occurs in
#[derive(Debug)]
pub struct TemporariesInserter {
    temporaries: Vec<Temporary>,
}

impl TemporariesInserter {
    /// The temporaries waiting to be declared
    pub closed spec fn pending(&self) -> Pending {
        self.temporaries@.map_values(|t: Temporary| temp_view(t))
    }

    /// A pass with no temporary waiting
    pub fn new() -> (p: Self)
        ensures
            p.pending() == Seq::<TempView>::empty(),
    {
        let p = TemporariesInserter { temporaries: Vec::new() };
        assert(p.pending() =~= Seq::<TempView>::empty());
        p
    }

    /// Keep the expression in a temporary named after where it starts
    fn keep(&mut self, e: Expression) -> (r: Expression)
        ensures
            (expr_view(r), final(self).pending()) == kept(expr_view(e), old(self).pending()),
    {
        let (ty, mutable, start, end) = match &e {
            Expression::Literal { ty, start, end } => (*ty, false, *start, *end),
            Expression::Variable { ty, mutable, start, end, .. } => (*ty, *mutable, *start, *end),
            Expression::Temporary { ty, mutable, start, end, .. } => (*ty, *mutable, *start, *end),
            Expression::Conversion { ty, start, end, .. } => (*ty, false, *start, *end),
            Expression::Call { ty, start, end, .. } => (*ty, false, *start, *end),
            Expression::Constructor { ty, start, end, .. } => (*ty, false, *start, *end),
            Expression::MemberReference { ty, start, end, .. } => (*ty, mutability(&e), *start, *end),
            Expression::Other { ty, mutable, start, end } => (*ty, *mutable, *start, *end),
        };
        let mut name = String::from_str("$tmp@");
        proof {
            reveal_strlit("$tmp@");
        }
        append_decimal(&mut name, start);
        let ghost before = self.pending();
        let t = Temporary { offset: start, name, mutable, initializer: e };
        self.temporaries.push(t);
        proof {
            assert(self.pending() =~= before.push(temp_view(t)));
        }
        Expression::Temporary { offset: start, ty, mutable, start, end }
    }

    /// The pass over an expression
    #[verifier::loop_isolation(false)]
    pub fn expression(&mut self, e: Expression) -> (r: Expression)
        ensures
            (expr_view(r), final(self).pending()) == pass_expr(expr_view(e), old(self).pending()),
        decreases e,
    {
        let ghost e0 = e;
        match e {
            Expression::Conversion { kind, expression, ty, start, end } => {
                proof {
                    assert(decreases_to!(e0 => *expression));
                }
                let inner = self.expression(*expression);
                let place = matches!(inner, Expression::Variable { .. }) || matches!(inner, Expression::Temporary { .. });
                if kind == ConversionKind::Reference && !place {
                    let r = self.keep(inner);
                    Expression::Conversion { kind, expression: Box::new(r), ty, start, end }
                } else {
                    Expression::Conversion { kind, expression: Box::new(inner), ty, start, end }
                }
            },
            Expression::Call { function, arguments, ty, start, end } => {
                let ghost args0 = arguments@;
                let ghost vs = exprs_view(args0, args0.len());
                let ghost p0 = self.pending();
                proof {
                    lemma_exprs_view(args0, args0.len());
                }
                let mut rest = arguments;
                let mut out: Vec<Expression> = Vec::new();
                let ghost mut k: int = 0;
                proof {
                    assert(exprs_view(out@, 0) =~= Seq::empty());
                    assert(rest@ =~= args0.subrange(0, args0.len() as int));
                }
                while rest.len() > 0
                    invariant
                        0 <= k <= args0.len(),
                        rest@ == args0.subrange(k, args0.len() as int),
                        out@.len() == k,
                        e0 matches Expression::Call { arguments: a, .. } && a@ == args0,
                        vs == exprs_view(args0, args0.len()),
                        vs.len() == args0.len(),
                        forall|j: int| 0 <= j < args0.len() ==> #[trigger] vs[j] == expr_view(args0[j]),
                        (exprs_view(out@, out@.len()), self.pending()) == pass_exprs(vs, k as nat, p0),
                    decreases rest@.len(),
                {
                    let a = rest.remove(0);
                    proof {
                        assert(a == args0[k]);
                        assert(decreases_to!(e0 => e0->Call_arguments));
                        assert(decreases_to!(e0->Call_arguments => e0->Call_arguments@));
                        assert(decreases_to!(e0->Call_arguments@ => e0->Call_arguments@[k]));
                        lemma_exprs_view(out@, out@.len());
                    }
                    let r = self.expression(a);
                    let ghost before_out = out@;
                    out.push(r);
                    proof {
                        lemma_exprs_view(out@, out@.len());
                        assert(exprs_view(out@, out@.len()) =~= exprs_view(before_out, before_out.len()).push(expr_view(r))) by {
                            lemma_exprs_view(before_out, before_out.len());
                        }
                        assert(vs[k] == expr_view(args0[k]));
                        k = k + 1;
                        assert(rest@ =~= args0.subrange(k, args0.len() as int));
                    }
                }
                proof {
                    assert(k == args0.len());
                }
                Expression::Call { function, arguments: out, ty, start, end }
            },
            Expression::Constructor { initializers, ty, start, end } => {
                let ghost args0 = initializers@;
                let ghost vs = exprs_view(args0, args0.len());
                let ghost p0 = self.pending();
                proof {
                    lemma_exprs_view(args0, args0.len());
                }
                let mut rest = initializers;
                let mut out: Vec<Expression> = Vec::new();
                let ghost mut k: int = 0;
                proof {
                    assert(exprs_view(out@, 0) =~= Seq::empty());
                    assert(rest@ =~= args0.subrange(0, args0.len() as int));
                }
                while rest.len() > 0
                    invariant
                        0 <= k <= args0.len(),
                        rest@ == args0.subrange(k, args0.len() as int),
                        out@.len() == k,
                        e0 matches Expression::Constructor { initializers: a, .. } && a@ == args0,
                        vs == exprs_view(args0, args0.len()),
                        vs.len() == args0.len(),
                        forall|j: int| 0 <= j < args0.len() ==> #[trigger] vs[j] == expr_view(args0[j]),
                        (exprs_view(out@, out@.len()), self.pending()) == pass_exprs(vs, k as nat, p0),
                    decreases rest@.len(),
                {
                    let a = rest.remove(0);
                    proof {
                        assert(a == args0[k]);
                        assert(decreases_to!(e0 => e0->Constructor_initializers));
                        assert(decreases_to!(e0->Constructor_initializers => e0->Constructor_initializers@));
                        assert(decreases_to!(e0->Constructor_initializers@ => e0->Constructor_initializers@[k]));
                        lemma_exprs_view(out@, out@.len());
                    }
                    let r = self.expression(a);
                    let ghost before_out = out@;
                    out.push(r);
                    proof {
                        lemma_exprs_view(out@, out@.len());
                        assert(exprs_view(out@, out@.len()) =~= exprs_view(before_out, before_out.len()).push(expr_view(r))) by {
                            lemma_exprs_view(before_out, before_out.len());
                        }
                        assert(vs[k] == expr_view(args0[k]));
                        k = k + 1;
                        assert(rest@ =~= args0.subrange(k, args0.len() as int));
                    }
                }
                proof {
                    assert(k == args0.len());
                }
                Expression::Constructor { initializers: out, ty, start, end }
            },
            Expression::MemberReference { base, member, ty, start, end } => {
                proof {
                    assert(decreases_to!(e0 => *base));
                }
                let b = self.expression(*base);
                Expression::MemberReference { base: Box::new(b), member, ty, start, end }
            },
            other => other,
        }
    }

    /// The pass over an expression that may be absent
    fn option_expression(&mut self, e: Option<Expression>) -> (r: Option<Expression>)
        ensures
            (option_expr_view(r), final(self).pending()) == pass_option(option_expr_view(e), old(self).pending()),
    {
        match e {
            Some(e) => Some(self.expression(e)),
            None => None,
        }
    }

    /// After a statement: with no temporary waiting, the statement as it
    /// is; else a block of the declarations of the temporaries brought in
    /// since, in the order they were brought in, and then the statement.
    /// Afterwards none waits, so each temporary is declared once, just before
    /// the statement that uses it.
    pub fn exit_statement(&mut self, s: Statement) -> (r: Statement)
        ensures
            (stmt_view(r), final(self).pending()) == settled(stmt_view(s), old(self).pending()),
            final(self).pending() == Seq::<TempView>::empty(),
    {
        if self.temporaries.len() == 0 {
            return s;
        }
        let ghost p0 = self.pending();
        let mut temps: Vec<Temporary> = Vec::new();
        std::mem::swap(&mut temps, &mut self.temporaries);
        let ghost t0 = temps@;
        let mut out: Vec<Statement> = Vec::new();
        let ghost mut k: int = 0;
        proof {
            assert(p0 == t0.map_values(|t: Temporary| temp_view(t)));
            assert(temps@ =~= t0.subrange(0, t0.len() as int));
        }
        while temps.len() > 0
            invariant
                0 <= k <= t0.len(),
                temps@ == t0.subrange(k, t0.len() as int),
                out@.len() == k,
                p0 == t0.map_values(|t: Temporary| temp_view(t)),
                forall|j: int| 0 <= j < k ==> #[trigger] stmt_view(out@[j]) == declarations(p0)[j],
            decreases temps@.len(),
        {
            let t = temps.remove(0);
            proof {
                assert(t == t0[k]);
            }
            out.push(Statement::Temporary(t));
            proof {
                k = k + 1;
                assert(temps@ =~= t0.subrange(k, t0.len() as int));
            }
        }
        out.push(s);
        proof {
            lemma_stmts_view(out@, out@.len());
            assert(stmts_view(out@, out@.len()) =~= declarations(p0).push(stmt_view(s)));
            assert(self.pending() =~= Seq::<TempView>::empty());
        }
        Statement::Block { statements: out }
    }

    /// The pass over statements, in order
    #[verifier::loop_isolation(false)]
    pub fn statements(&mut self, ss: Vec<Statement>) -> (r: Vec<Statement>)
        ensures
            (stmts_view(r@, r@.len()), final(self).pending()) == pass_stmts(
                stmts_view(ss@, ss@.len()),
                stmts_view(ss@, ss@.len()).len(),
                old(self).pending(),
            ),
        decreases ss, 2nat,
    {
        let ghost ss0 = ss@;
        let ghost vs = stmts_view(ss0, ss0.len());
        let ghost p0 = self.pending();
        proof {
            lemma_stmts_view(ss0, ss0.len());
        }
        let mut rest = ss;
        let mut out: Vec<Statement> = Vec::new();
        let ghost mut k: int = 0;
        proof {
            assert(stmts_view(out@, 0) =~= Seq::empty());
            assert(rest@ =~= ss0.subrange(0, ss0.len() as int));
        }
        while rest.len() > 0
            invariant
                0 <= k <= ss0.len(),
                rest@ == ss0.subrange(k, ss0.len() as int),
                out@.len() == k,
                vs == stmts_view(ss0, ss0.len()),
                vs.len() == ss0.len(),
                forall|j: int| 0 <= j < ss0.len() ==> #[trigger] vs[j] == stmt_view(ss0[j]),
                (stmts_view(out@, out@.len()), self.pending()) == pass_stmts(vs, k as nat, p0),
            decreases rest@.len(),
        {
            let a = rest.remove(0);
            proof {
                assert(a == ss0[k]);
                assert(decreases_to!(ss => ss@));
                assert(decreases_to!(ss@ => ss@[k]));
            }
            let r = self.statement(a);
            let ghost before_out = out@;
            out.push(r);
            proof {
                lemma_stmts_view(out@, out@.len());
                assert(stmts_view(out@, out@.len()) =~= stmts_view(before_out, before_out.len()).push(stmt_view(r))) by {
                    lemma_stmts_view(before_out, before_out.len());
                }
                assert(vs[k] == stmt_view(ss0[k]));
                k = k + 1;
                assert(rest@ =~= ss0.subrange(k, ss0.len() as int));
            }
        }
        out
    }

    /// The pass over a statement: its parts in order, a returned value
    /// other than a literal kept in a temporary, and then the temporaries
    /// brought in so far declared before it
    pub fn statement(&mut self, s: Statement) -> (r: Statement)
        ensures
            (stmt_view(r), final(self).pending()) == pass_stmt(stmt_view(s), old(self).pending()),
        decreases s, 1nat,
    {
        let r = self.parts(s);
        self.exit_statement(r)
    }

    /// The pass over the parts of a statement
    fn parts(&mut self, s: Statement) -> (r: Statement)
        ensures
            (stmt_view(r), final(self).pending()) == pass_parts(stmt_view(s), old(self).pending()),
        decreases s, 0nat,
    {
        let ghost s0 = s;
        match s {
            Statement::Temporary(t) => {
                let e = self.expression(t.initializer);
                Statement::Temporary(Temporary { offset: t.offset, name: t.name, mutable: t.mutable, initializer: e })
            },
            Statement::VariableDeclaration { variable, initializer } => {
                let e = self.option_expression(initializer);
                Statement::VariableDeclaration { variable, initializer: e }
            },
            Statement::Expression(e) => Statement::Expression(self.expression(e)),
            Statement::Assignment { target, value } => {
                let t = self.expression(target);
                let v = self.expression(value);
                Statement::Assignment { target: t, value: v }
            },
            Statement::Return { value } => {
                let v = self.option_expression(value);
                match v {
                    Some(e) => if matches!(e, Expression::Literal { .. }) {
                        Statement::Return { value: Some(e) }
                    } else {
                        let r = self.keep(e);
                        Statement::Return { value: Some(r) }
                    },
                    None => Statement::Return { value: None },
                }
            },
            Statement::Block { statements } => {
                proof {
                    assert(decreases_to!(s0 => statements));
                }
                Statement::Block { statements: self.statements(statements) }
            },
            Statement::If { condition, body, else_block } => {
                let c = self.expression(condition);
                proof {
                    assert(decreases_to!(s0 => body));
                }
                let b = self.statements(body);
                match else_block {
                    Some(eb) => {
                        proof {
                            assert(decreases_to!(s0 => s0->else_block));
                            assert(decreases_to!(s0->else_block => eb));
                        }
                        let e = self.statements(eb);
                        Statement::If { condition: c, body: b, else_block: Some(e) }
                    },
                    None => Statement::If { condition: c, body: b, else_block: None },
                }
            },
            Statement::Loop { body } => {
                proof {
                    assert(decreases_to!(s0 => body));
                }
                Statement::Loop { body: self.statements(body) }
            },
            Statement::While { condition, body } => {
                let c = self.expression(condition);
                proof {
                    assert(decreases_to!(s0 => body));
                }
                Statement::While { condition: c, body: self.statements(body) }
            },
            Statement::Function { function, body } => {
                proof {
                    assert(decreases_to!(s0 => body));
                }
                Statement::Function { function, body: self.statements(body) }
            },
        }
    }
}

/// After a statement the pass leaves no temporary waiting: each temporary
/// brought in is declared just before the statement it occurs in
pub proof fn lemma_no_temporary_left(s: StmtView, pending: Pending)
    ensures
        pass_stmt(s, pending).1 == Seq::<TempView>::empty(),
{
}

/// Every reference taken inside the expression, at any depth, is taken of a
/// place: a variable or a temporary
pub open spec fn references_places(e: ExprView) -> bool
    decreases e, 0nat,
{
    match e {
        ExprView::Conversion { kind, expression, .. } => (kind is Reference ==> is_place(*expression))
            && references_places(*expression),
        ExprView::Call { arguments, .. } => all_reference_places(arguments, arguments.len()),
        ExprView::Constructor { initializers, .. } => all_reference_places(initializers, initializers.len()),
        ExprView::MemberReference { base, .. } => references_places(*base),
        _ => true,
    }
}

/// Each of the first `n` expressions takes references of places only
pub open spec fn all_reference_places(es: Seq<ExprView>, n: nat) -> bool
    decreases es, n,
{
    if n == 0 || n > es.len() {
        true
    } else {
        all_reference_places(es, (n - 1) as nat) && references_places(es[n - 1])
    }
}

/// The temporaries hold expressions that take references of places only
pub open spec fn temporaries_reference_places(p: Pending) -> bool {
    forall|i: int| 0 <= i < p.len() ==> references_places(#[trigger] p[i].initializer)
}

/// Every reference taken in the statement, in its expressions, in the
/// temporaries it declares and in the statements inside it, is taken of a
/// place
pub open spec fn statement_references_places(s: StmtView) -> bool
    decreases s, 0nat,
{
    match s {
        StmtView::Temporary(t) => references_places(t.initializer),
        StmtView::VariableDeclaration(_, e) => match e {
            Some(e) => references_places(e),
            None => true,
        },
        StmtView::Expression(e) => references_places(e),
        StmtView::Assignment(t, v) => references_places(t) && references_places(v),
        StmtView::Return(v) => match v {
            Some(e) => references_places(e),
            None => true,
        },
        StmtView::Block(b) => statements_reference_places(b, b.len()),
        StmtView::If(c, b, e) => references_places(c) && statements_reference_places(b, b.len()) && match e {
            Some(eb) => statements_reference_places(eb, eb.len()),
            None => true,
        },
        StmtView::Loop(b) => statements_reference_places(b, b.len()),
        StmtView::While(c, b) => references_places(c) && statements_reference_places(b, b.len()),
        StmtView::Function(_, b) => statements_reference_places(b, b.len()),
    }
}

/// Each of the first `n` statements takes references of places only
pub open spec fn statements_reference_places(ss: Seq<StmtView>, n: nat) -> bool
    decreases ss, n,
{
    if n == 0 || n > ss.len() {
        true
    } else {
        statements_reference_places(ss, (n - 1) as nat) && statement_references_places(ss[n - 1])
    }
}

proof fn lemma_all_reference_places(es: Seq<ExprView>, n: nat)
    requires
        n <= es.len(),
    ensures
        all_reference_places(es, n) <==> forall|j: int| 0 <= j < n ==> references_places(#[trigger] es[j]),
    decreases n,
{
    if n > 0 {
        lemma_all_reference_places(es, (n - 1) as nat);
    }
}

proof fn lemma_statements_reference_places(ss: Seq<StmtView>, n: nat)
    requires
        n <= ss.len(),
    ensures
        statements_reference_places(ss, n) <==> forall|j: int| 0 <= j < n ==> statement_references_places(#[trigger] ss[j]),
    decreases n,
{
    if n > 0 {
        lemma_statements_reference_places(ss, (n - 1) as nat);
    }
}

/// The pass over the first `n` expressions gives `n` of them
proof fn lemma_pass_exprs_len(es: Seq<ExprView>, n: nat, pending: Pending)
    requires
        n <= es.len(),
    ensures
        pass_exprs(es, n, pending).0.len() == n,
    decreases n,
{
    if n > 0 {
        lemma_pass_exprs_len(es, (n - 1) as nat, pending);
    }
}

/// The pass over the first `n` statements gives `n` of them
proof fn lemma_pass_stmts_len(ss: Seq<StmtView>, n: nat, pending: Pending)
    requires
        n <= ss.len(),
    ensures
        pass_stmts(ss, n, pending).0.len() == n,
    decreases n,
{
    if n > 0 {
        lemma_pass_stmts_len(ss, (n - 1) as nat, pending);
    }
}

/// References of places only: after the pass, every reference taken inside
/// the expression, at any depth (in call arguments, initializers, members
/// and nested conversions), is taken of a variable or a temporary, and so
/// is every reference inside the temporaries brought in
pub proof fn lemma_pass_references_places(e: ExprView, pending: Pending)
    requires
        temporaries_reference_places(pending),
    ensures
        references_places(pass_expr(e, pending).0),
        temporaries_reference_places(pass_expr(e, pending).1),
    decreases e, 0nat,
{
    match e {
        ExprView::Conversion { kind, expression, ty, start, end } => {
            lemma_pass_references_places(*expression, pending);
            let (inner, p) = pass_expr(*expression, pending);
            if kind is Reference && !is_place(inner) {
                let (r, p2) = kept(inner, p);
                assert(is_place(r));
                assert(references_places(r));
                assert(pass_expr(e, pending).0 == ExprView::Conversion { kind, expression: Box::new(r), ty, start, end });
                assert forall|i: int| 0 <= i < p2.len() implies references_places(#[trigger] p2[i].initializer) by {
                    if i < p.len() {
                        assert(p2[i] == p[i]);
                    }
                }
            } else {
                assert(pass_expr(e, pending).0 == ExprView::Conversion { kind, expression: Box::new(inner), ty, start, end });
            }
        },
        ExprView::Call { arguments, .. } => {
            lemma_pass_exprs_references_places(arguments, arguments.len(), pending);
            lemma_pass_exprs_len(arguments, arguments.len(), pending);
        },
        ExprView::Constructor { initializers, .. } => {
            lemma_pass_exprs_references_places(initializers, initializers.len(), pending);
            lemma_pass_exprs_len(initializers, initializers.len(), pending);
        },
        ExprView::MemberReference { base, .. } => {
            lemma_pass_references_places(*base, pending);
        },
        _ => {},
    }
}

proof fn lemma_pass_exprs_references_places(es: Seq<ExprView>, n: nat, pending: Pending)
    requires
        temporaries_reference_places(pending),
        n <= es.len(),
    ensures
        all_reference_places(pass_exprs(es, n, pending).0, n),
        temporaries_reference_places(pass_exprs(es, n, pending).1),
    decreases es, n,
{
    if n > 0 {
        let m = (n - 1) as nat;
        lemma_pass_exprs_references_places(es, m, pending);
        let (done, p) = pass_exprs(es, m, pending);
        lemma_pass_references_places(es[n - 1], p);
        let out = pass_exprs(es, n, pending).0;
        lemma_pass_exprs_len(es, m, pending);
        lemma_all_reference_places(done, m);
        lemma_all_reference_places(out, n);
        assert forall|j: int| 0 <= j < n implies references_places(#[trigger] out[j]) by {
            if j < m {
                assert(out[j] == done[j]);
            }
        }
    }
}

proof fn lemma_pass_option_references_places(e: Option<ExprView>, pending: Pending)
    requires
        temporaries_reference_places(pending),
    ensures
        match pass_option(e, pending).0 {
            Some(r) => references_places(r),
            None => true,
        },
        temporaries_reference_places(pass_option(e, pending).1),
{
    if let Some(x) = e {
        lemma_pass_references_places(x, pending);
    }
}

/// After the pass, every reference taken in the statement, at any depth,
/// in the temporaries declared before it and in the statements inside it,
/// is taken of a variable or a temporary
pub proof fn lemma_pass_statement_references_places(s: StmtView, pending: Pending)
    requires
        temporaries_reference_places(pending),
    ensures
        statement_references_places(pass_stmt(s, pending).0),
        temporaries_reference_places(pass_stmt(s, pending).1),
    decreases s, 1nat,
{
    lemma_pass_parts_references_places(s, pending);
    let (r, p) = pass_parts(s, pending);
    if p.len() > 0 {
        let ds = declarations(p).push(r);
        lemma_statements_reference_places(ds, ds.len());
        assert forall|j: int| 0 <= j < ds.len() implies statement_references_places(#[trigger] ds[j]) by {
            if j < p.len() {
                assert(ds[j] == StmtView::Temporary(p[j]));
            }
        }
    }
}

proof fn lemma_pass_parts_references_places(s: StmtView, pending: Pending)
    requires
        temporaries_reference_places(pending),
    ensures
        statement_references_places(pass_parts(s, pending).0),
        temporaries_reference_places(pass_parts(s, pending).1),
    decreases s, 0nat,
{
    match s {
        StmtView::Temporary(t) => {
            lemma_pass_references_places(t.initializer, pending);
        },
        StmtView::VariableDeclaration(v, e) => {
            lemma_pass_option_references_places(e, pending);
        },
        StmtView::Expression(e) => {
            lemma_pass_references_places(e, pending);
        },
        StmtView::Assignment(t, v) => {
            lemma_pass_references_places(t, pending);
            lemma_pass_references_places(v, pass_expr(t, pending).1);
        },
        StmtView::Return(v) => {
            lemma_pass_option_references_places(v, pending);
            let (v2, p) = pass_option(v, pending);
            if let Some(e) = v2 {
                if !(e is Literal) {
                    let p2 = kept(e, p).1;
                    assert forall|i: int| 0 <= i < p2.len() implies references_places(#[trigger] p2[i].initializer) by {
                        if i < p.len() {
                            assert(p2[i] == p[i]);
                        }
                    }
                }
            }
        },
        StmtView::Block(b) => {
            lemma_pass_stmts_references_places(b, b.len(), pending);
            lemma_pass_stmts_len(b, b.len(), pending);
        },
        StmtView::If(c, b, e) => {
            lemma_pass_references_places(c, pending);
            let p = pass_expr(c, pending).1;
            lemma_pass_stmts_references_places(b, b.len(), p);
            lemma_pass_stmts_len(b, b.len(), p);
            if let Some(eb) = e {
                let p2 = pass_stmts(b, b.len(), p).1;
                lemma_pass_stmts_references_places(eb, eb.len(), p2);
                lemma_pass_stmts_len(eb, eb.len(), p2);
            }
        },
        StmtView::Loop(b) => {
            lemma_pass_stmts_references_places(b, b.len(), pending);
            lemma_pass_stmts_len(b, b.len(), pending);
        },
        StmtView::While(c, b) => {
            lemma_pass_references_places(c, pending);
            let p = pass_expr(c, pending).1;
            lemma_pass_stmts_references_places(b, b.len(), p);
            lemma_pass_stmts_len(b, b.len(), p);
        },
        StmtView::Function(f, b) => {
            lemma_pass_stmts_references_places(b, b.len(), pending);
            lemma_pass_stmts_len(b, b.len(), pending);
        },
    }
}

proof fn lemma_pass_stmts_references_places(ss: Seq<StmtView>, n: nat, pending: Pending)
    requires
        temporaries_reference_places(pending),
        n <= ss.len(),
    ensures
        statements_reference_places(pass_stmts(ss, n, pending).0, n),
        temporaries_reference_places(pass_stmts(ss, n, pending).1),
    decreases ss, n,
{
    if n > 0 {
        let m = (n - 1) as nat;
        lemma_pass_stmts_references_places(ss, m, pending);
        let (done, p) = pass_stmts(ss, m, pending);
        lemma_pass_statement_references_places(ss[n - 1], p);
        let out = pass_stmts(ss, n, pending).0;
        lemma_pass_stmts_len(ss, m, pending);
        lemma_statements_reference_places(done, m);
        lemma_statements_reference_places(out, n);
        assert forall|j: int| 0 <= j < n implies statement_references_places(#[trigger] out[j]) by {
            if j < m {
                assert(out[j] == done[j]);
            }
        }
    }
}

/// In a module with its temporaries brought in, every reference taken
/// anywhere, also inside call arguments and in the bodies of functions, is
/// taken of a variable or a temporary
pub proof fn lemma_module_references_places(ss: Seq<StmtView>)
    ensures
        statements_reference_places(pass_stmts(ss, ss.len(), Seq::empty()).0, ss.len()),
{
    lemma_pass_stmts_references_places(ss, ss.len(), Seq::empty());
}

/// Bring in the temporaries of the statements of a module, and of the
/// bodies of its functions
pub fn module_with_temporaries(statements: Vec<Statement>) -> (r: Vec<Statement>)
    ensures
        stmts_view(r@, r@.len()) == pass_stmts(
            stmts_view(statements@, statements@.len()),
            stmts_view(statements@, statements@.len()).len(),
            Seq::empty(),
        ).0,
{
    let mut inserter = TemporariesInserter::new();
    inserter.statements(statements)
}

} // verus!
