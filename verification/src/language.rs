//! The abstract syntax tree of the language, together with its mathematical
//! model: each syntactic category has a spec-level mirror in which vectors
//! become sequences and strings become character sequences.  Contracts of the
//! parser and the evaluator are stated over these models.

use vstd::prelude::*;

verus! {

/// A whole program: one top-level block of statements.
#[derive(Debug, PartialEq)]
pub struct Program {
    pub program: Block,
}

impl Program {
    /// An empty program.
    pub fn new() -> (p: Self)
        ensures
            p@ =~= Seq::<StmtModel>::empty(),
    {
        Self { program: Block { statements: Vec::new() } }
    }
}

/// An ordered sequence of statements: the body of a program, an `if` branch,
/// or a `repeat` loop.
#[derive(Debug, PartialEq)]
pub struct Block {
    pub statements: Vec<Statement>,
}

/// One statement.
#[derive(Debug, PartialEq)]
pub enum Statement {
    AssignStatement { var: String, exp: Expression },
    IfStatement {
        condition: Expression,
        body: Block,
        else_if: Vec<(Expression, Block)>,
        else_body: Block,
    },
    RepeatStatement { times: Expression, body: Block },
    OutputStatement { to_output: Expression },
}

/// One expression: an integer literal, a variable reference, or a binary
/// operation over two sub-expressions.
#[derive(Debug, PartialEq)]
pub enum Expression {
    Val(i32),
    Var(String),
    BinOp(Op, Box<Expression>, Box<Expression>),
}

/// The binary operators of the language.
#[derive(Debug, Copy, Clone, PartialEq, Eq, Structural)]
pub enum Op {
    Add,
    Sub,
    Multiply,
    Divide,
    Remainder,
    And,
    Or,
    Equal,
    NotEqual,
    LessThanOrEqual,
    LessThan,
    GreaterThanOrEqual,
    GreaterThan,
}

/// Model of an expression.
pub enum ExprModel {
    Val(i32),
    Var(Seq<char>),
    BinOp(Op, Box<ExprModel>, Box<ExprModel>),
}

/// Model of a statement; a block is modelled as the sequence of the models of
/// its statements.
pub enum StmtModel {
    Assign { var: Seq<char>, exp: ExprModel },
    If {
        condition: ExprModel,
        body: Seq<StmtModel>,
        else_if: Seq<(ExprModel, Seq<StmtModel>)>,
        else_body: Seq<StmtModel>,
    },
    Repeat { times: ExprModel, body: Seq<StmtModel> },
    Output { to_output: ExprModel },
}

/// The model of an expression.
pub open spec fn expr_view(e: Expression) -> ExprModel
    decreases e,
{
    match e {
        Expression::Val(n) => ExprModel::Val(n),
        Expression::Var(s) => ExprModel::Var(s@),
        Expression::BinOp(op, l, r) => ExprModel::BinOp(
            op,
            Box::new(expr_view(*l)),
            Box::new(expr_view(*r)),
        ),
    }
}

/// The model of a statement.
pub open spec fn stmt_view(s: Statement) -> StmtModel
    decreases s,
{
    match s {
        Statement::AssignStatement { var, exp } => StmtModel::Assign {
            var: var@,
            exp: expr_view(exp),
        },
        Statement::IfStatement { condition, body, else_if, else_body } => StmtModel::If {
            condition: expr_view(condition),
            body: stmts_view(body.statements@),
            else_if: elifs_view(else_if@),
            else_body: stmts_view(else_body.statements@),
        },
        Statement::RepeatStatement { times, body } => StmtModel::Repeat {
            times: expr_view(times),
            body: stmts_view(body.statements@),
        },
        Statement::OutputStatement { to_output } => StmtModel::Output {
            to_output: expr_view(to_output),
        },
    }
}

/// The model of a sequence of statements.
pub open spec fn stmts_view(ss: Seq<Statement>) -> Seq<StmtModel>
    decreases ss,
{
    if ss.len() == 0 {
        Seq::empty()
    } else {
        seq![stmt_view(ss[0])] + stmts_view(ss.drop_first())
    }
}

/// The model of a sequence of `elseif` branches.
pub open spec fn elifs_view(es: Seq<(Expression, Block)>) -> Seq<(ExprModel, Seq<StmtModel>)>
    decreases es,
{
    if es.len() == 0 {
        Seq::empty()
    } else {
        seq![(expr_view(es[0].0), stmts_view(es[0].1.statements@))] + elifs_view(es.drop_first())
    }
}

impl View for Expression {
    type V = ExprModel;

    open spec fn view(&self) -> ExprModel {
        expr_view(*self)
    }
}

impl View for Statement {
    type V = StmtModel;

    open spec fn view(&self) -> StmtModel {
        stmt_view(*self)
    }
}

impl View for Block {
    type V = Seq<StmtModel>;

    open spec fn view(&self) -> Seq<StmtModel> {
        stmts_view(self.statements@)
    }
}

impl View for Program {
    type V = Seq<StmtModel>;

    open spec fn view(&self) -> Seq<StmtModel> {
        stmts_view(self.program.statements@)
    }
}

/// The model of a statement sequence has one entry per statement.
pub proof fn lemma_stmts_view_len(ss: Seq<Statement>)
    ensures
        stmts_view(ss).len() == ss.len(),
    decreases ss,
{
    if ss.len() > 0 {
        lemma_stmts_view_len(ss.drop_first());
    }
}

/// The model of a statement sequence is the sequence of the statements'
/// models, index by index.
pub proof fn lemma_stmts_view_index(ss: Seq<Statement>, i: int)
    requires
        0 <= i < ss.len(),
    ensures
        stmts_view(ss).len() == ss.len(),
        stmts_view(ss)[i] == stmt_view(ss[i]),
    decreases ss,
{
    lemma_stmts_view_len(ss);
    if i > 0 {
        lemma_stmts_view_index(ss.drop_first(), i - 1);
    }
}

/// The model of an `elseif` sequence has one entry per branch.
pub proof fn lemma_elifs_view_len(es: Seq<(Expression, Block)>)
    ensures
        elifs_view(es).len() == es.len(),
    decreases es,
{
    if es.len() > 0 {
        lemma_elifs_view_len(es.drop_first());
    }
}

/// The model of an `elseif` sequence is the branch models, index by index.
pub proof fn lemma_elifs_view_index(es: Seq<(Expression, Block)>, i: int)
    requires
        0 <= i < es.len(),
    ensures
        elifs_view(es).len() == es.len(),
        elifs_view(es)[i] == (expr_view(es[i].0), stmts_view(es[i].1.statements@)),
    decreases es,
{
    lemma_elifs_view_len(es);
    if i > 0 {
        lemma_elifs_view_index(es.drop_first(), i - 1);
    }
}

/// Appending a statement appends its model.
pub proof fn lemma_stmts_view_push(ss: Seq<Statement>, s: Statement)
    ensures
        stmts_view(ss.push(s)) =~= stmts_view(ss).push(stmt_view(s)),
    decreases ss,
{
    if ss.len() == 0 {
        assert(ss.push(s)[0] == s);
        assert(ss.push(s).drop_first() =~= Seq::<Statement>::empty());
        assert(stmts_view(ss.push(s)) =~= seq![stmt_view(s)] + stmts_view(Seq::<Statement>::empty()));
        assert(stmts_view(ss.push(s)) =~= seq![stmt_view(s)]);
        assert(stmts_view(ss) =~= Seq::<StmtModel>::empty());
    } else {
        assert(ss.push(s)[0] == ss[0]);
        assert(ss.push(s).drop_first() =~= ss.drop_first().push(s));
        lemma_stmts_view_push(ss.drop_first(), s);
        lemma_stmts_view_len(ss);
        assert(stmts_view(ss.push(s)) =~= seq![stmt_view(ss[0])] + stmts_view(ss.drop_first().push(s)));
        assert(stmts_view(ss.push(s)) =~= seq![stmt_view(ss[0])] + stmts_view(ss.drop_first()).push(stmt_view(s)));
        assert(stmts_view(ss) =~= seq![stmt_view(ss[0])] + stmts_view(ss.drop_first()));
    }
}

/// Appending an `elseif` branch appends its model.
pub proof fn lemma_elifs_view_push(es: Seq<(Expression, Block)>, e: (Expression, Block))
    ensures
        elifs_view(es.push(e)) =~= elifs_view(es).push(
            (expr_view(e.0), stmts_view(e.1.statements@)),
        ),
    decreases es,
{
    let ev = (expr_view(e.0), stmts_view(e.1.statements@));
    if es.len() == 0 {
        assert(es.push(e)[0] == e);
        assert(es.push(e).drop_first() =~= Seq::<(Expression, Block)>::empty());
        assert(elifs_view(es.push(e)) =~= seq![ev] + elifs_view(Seq::<(Expression, Block)>::empty()));
        assert(elifs_view(es.push(e)) =~= seq![ev]);
        assert(elifs_view(es) =~= Seq::<(ExprModel, Seq<StmtModel>)>::empty());
    } else {
        let hv = (expr_view(es[0].0), stmts_view(es[0].1.statements@));
        assert(es.push(e)[0] == es[0]);
        assert(es.push(e).drop_first() =~= es.drop_first().push(e));
        lemma_elifs_view_push(es.drop_first(), e);
        assert(elifs_view(es.push(e)) =~= seq![hv] + elifs_view(es.drop_first().push(e)));
        assert(elifs_view(es.push(e)) =~= seq![hv] + elifs_view(es.drop_first()).push(ev));
        assert(elifs_view(es) =~= seq![hv] + elifs_view(es.drop_first()));
    }
}

} // verus!
