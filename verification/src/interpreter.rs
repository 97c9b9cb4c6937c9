//! Tree-walking evaluator: executes a parsed program against a flat variable
//! store and an append-only output sequence.
//!
//! The intended meaning of every construct is given by the spec-level
//! evaluator (`sp_eval`, `sp_run_stmt`, `sp_run_stmts`, `sp_run_elifs`,
//! `sp_run_repeat`, `sp_interpret`); each executable function is proved to
//! return exactly what the spec-level evaluator says, including the state the
//! store and the output have reached when a run stops at its first error.
//!
//! Two deliberate policy choices, recorded here because the language leaves
//! them open: `Add` and `Sub` use two's-complement 32-bit wrapping
//! arithmetic, and the operators beyond `Add`, `Sub` and `Equal` are declared
//! in the data model but evaluate to the dedicated unimplemented-operator
//! error.

use vstd::prelude::*;

use vstd::hash_map::StringHashMap;
use vstd::string::StringExecFns;
use vstd::wrapping::i32_specs;

use crate::language::{
    elifs_view, expr_view, lemma_elifs_view_index, lemma_stmts_view_index, stmts_view, Block,
    ExprModel, Expression, Op, Program, Statement, StmtModel,
};

verus! {

/// A runtime failure: the evaluator stops at the first one.  The
/// uninitialized-variable error carries a message naming the variable.
#[derive(PartialEq, Debug)]
pub enum ErrorType {
    NegativeRepeateError,
    UninitialisedMemory(String),
    NotImplimented,
}

/// Model of a runtime failure.
pub enum ErrorModel {
    NegativeRepeateError,
    UninitialisedMemory(Seq<char>),
    NotImplimented,
}

impl View for ErrorType {
    type V = ErrorModel;

    open spec fn view(&self) -> ErrorModel {
        match *self {
            ErrorType::NegativeRepeateError => ErrorModel::NegativeRepeateError,
            ErrorType::UninitialisedMemory(s) => ErrorModel::UninitialisedMemory(s@),
            ErrorType::NotImplimented => ErrorModel::NotImplimented,
        }
    }
}

/// The message carried by the uninitialized-variable error: it quotes the
/// name of the variable that was read before any assignment to it.
pub open spec fn uninit_msg(name: Seq<char>) -> Seq<char> {
    "Variable \""@ + name + "\" has not been assigned"@
}

/// The variable store model: a partial map from variable name to value.
pub type MemModel = Map<Seq<char>, i32>;

/// The result of running statements: the error if the run stopped at one,
/// and the store and output as they stand when the run ends either way.
pub type RunModel = (Option<ErrorModel>, MemModel, Seq<i32>);

/// The variable store: a flat name-to-integer mapping with no scoping.
/// Assignment creates or overwrites an entry; entries are never removed.
pub struct Memory {
    pub mem: StringHashMap<i32>,
}

impl View for Memory {
    type V = MemModel;

    open spec fn view(&self) -> MemModel {
        self.mem@
    }
}

impl Memory {
    /// An empty store.
    pub fn new() -> (m: Self)
        ensures
            m@ =~= MemModel::empty(),
    {
        Self { mem: StringHashMap::new() }
    }
}

/// What one binary operator yields on two operand values: `Add` and `Sub`
/// wrap around the 32-bit signed range, `Equal` yields 1 on equal operands
/// and 0 otherwise, and every other operator yields the
/// unimplemented-operator error.
pub open spec fn sp_apply_op(op: Op, a: i32, b: i32) -> Result<i32, ErrorModel> {
    match op {
        Op::Add => Ok(i32_specs::wrapping_add(a, b)),
        Op::Sub => Ok(i32_specs::wrapping_sub(a, b)),
        Op::Equal => Ok(if a == b { 1i32 } else { 0i32 }),
        _ => Err(ErrorModel::NotImplimented),
    }
}

/// What an expression evaluates to against a store: a literal yields its
/// value; a variable reference yields the stored value, or the
/// uninitialized-variable error when the store has no entry; a binary
/// operation evaluates its left operand fully, then its right operand fully,
/// then combines the two values.  Evaluation never changes the store.
pub open spec fn sp_eval(e: ExprModel, mem: MemModel) -> Result<i32, ErrorModel>
    decreases e,
{
    match e {
        ExprModel::Val(n) => Ok(n),
        ExprModel::Var(name) => if mem.dom().contains(name) {
            Ok(mem[name])
        } else {
            Err(ErrorModel::UninitialisedMemory(uninit_msg(name)))
        },
        ExprModel::BinOp(op, l, r) => match sp_eval(*l, mem) {
            Err(err) => Err(err),
            Ok(a) => match sp_eval(*r, mem) {
                Err(err) => Err(err),
                Ok(b) => sp_apply_op(op, a, b),
            },
        },
    }
}

/// Runs a sequence of statements in order, stopping at the first error;
/// effects already applied stay applied.
pub open spec fn sp_run_stmts(ss: Seq<StmtModel>, mem: MemModel, out: Seq<i32>) -> RunModel
    decreases ss, 0int,
{
    if ss.len() == 0 {
        (None, mem, out)
    } else {
        let (e, m1, o1) = sp_run_stmt(ss[0], mem, out);
        match e {
            Some(err) => (Some(err), m1, o1),
            None => sp_run_stmts(ss.drop_first(), m1, o1),
        }
    }
}

/// Runs one statement.
pub open spec fn sp_run_stmt(s: StmtModel, mem: MemModel, out: Seq<i32>) -> RunModel
    decreases s, 0int,
{
    match s {
        StmtModel::Assign { var, exp } => match sp_eval(exp, mem) {
            Err(err) => (Some(err), mem, out),
            Ok(v) => (None, mem.insert(var, v), out),
        },
        StmtModel::Output { to_output } => match sp_eval(to_output, mem) {
            Err(err) => (Some(err), mem, out),
            Ok(v) => (None, mem, out.push(v)),
        },
        StmtModel::Repeat { times, body } => match sp_eval(times, mem) {
            Err(err) => (Some(err), mem, out),
            Ok(k) => if k < 0 {
                (Some(ErrorModel::NegativeRepeateError), mem, out)
            } else {
                sp_run_repeat(body, k as nat, mem, out)
            },
        },
        StmtModel::If { condition, body, else_if, else_body } => match sp_eval(condition, mem) {
            Err(err) => (Some(err), mem, out),
            Ok(c) => if c != 0 {
                sp_run_stmts(body, mem, out)
            } else {
                let (e, ran, m1, o1) = sp_run_elifs(else_if, mem, out);
                match e {
                    Some(err) => (Some(err), m1, o1),
                    None => if ran {
                        (None, m1, o1)
                    } else {
                        sp_run_stmts(else_body, m1, o1)
                    },
                }
            },
        },
    }
}

/// Runs the `elseif` branches in source order: evaluates each condition until
/// one is nonzero, runs only that branch's body, and reports whether some
/// branch ran.  Conditions after the first nonzero one are not evaluated.
pub open spec fn sp_run_elifs(
    es: Seq<(ExprModel, Seq<StmtModel>)>,
    mem: MemModel,
    out: Seq<i32>,
) -> (Option<ErrorModel>, bool, MemModel, Seq<i32>)
    decreases es, 0int,
{
    if es.len() == 0 {
        (None, false, mem, out)
    } else {
        match sp_eval(es[0].0, mem) {
            Err(err) => (Some(err), false, mem, out),
            Ok(c) => if c != 0 {
                let (e, m1, o1) = sp_run_stmts(es[0].1, mem, out);
                (e, true, m1, o1)
            } else {
                sp_run_elifs(es.drop_first(), mem, out)
            },
        }
    }
}

/// Runs a repeat body `n` times in sequence; each round sees the effects of
/// the rounds before it.
pub open spec fn sp_run_repeat(body: Seq<StmtModel>, n: nat, mem: MemModel, out: Seq<i32>) -> RunModel
    decreases body, n + 1,
{
    if n == 0 {
        (None, mem, out)
    } else {
        let (e, m1, o1) = sp_run_stmts(body, mem, out);
        match e {
            Some(err) => (Some(err), m1, o1),
            None => sp_run_repeat(body, (n - 1) as nat, m1, o1),
        }
    }
}

/// Runs a whole program from an empty store and an empty output: the output
/// sequence on success, the first error otherwise.
pub open spec fn sp_interpret(ss: Seq<StmtModel>) -> Result<Seq<i32>, ErrorModel> {
    let (e, m, o) = sp_run_stmts(ss, MemModel::empty(), Seq::empty());
    match e {
        Some(err) => Err(err),
        None => Ok(o),
    }
}

/// How an executable evaluation result realizes a spec-level one.
pub open spec fn eval_matches(r: Result<i32, ErrorType>, sp: Result<i32, ErrorModel>) -> bool {
    match r {
        Ok(v) => sp == Ok::<i32, ErrorModel>(v),
        Err(err) => sp == Err::<i32, ErrorModel>(err@),
    }
}

/// How an executable run result and the states reached realize a spec-level
/// run result.
pub open spec fn run_matches(
    r: Result<(), ErrorType>,
    m1: MemModel,
    o1: Seq<i32>,
    sp: RunModel,
) -> bool {
    let (e, m2, o2) = sp;
    &&& m1 == m2
    &&& o1 == o2
    &&& match r {
        Ok(_) => e is None,
        Err(err) => e == Some(err@),
    }
}

/// Assigning a value to a name and then reading that name yields exactly
/// that value, whatever the store held before the assignment.
pub proof fn lemma_assign_then_read(m: MemModel, name: Seq<char>, v: i32)
    ensures
        sp_eval(ExprModel::Var(name), m.insert(name, v)) == Ok::<i32, ErrorModel>(v),
{
}

/// Reading a name that the store has no entry for always fails with the
/// uninitialized-variable error naming it, regardless of the other entries.
pub proof fn lemma_read_unassigned(m: MemModel, name: Seq<char>)
    requires
        !m.dom().contains(name),
    ensures
        sp_eval(ExprModel::Var(name), m) == Err::<i32, ErrorModel>(
            ErrorModel::UninitialisedMemory(uninit_msg(name)),
        ),
{
}

/// A repeat statement whose count evaluates to a negative value fails with
/// the dedicated negative-repeat-count error before any effect of the body
/// can be observed: the store and the output are exactly what they were
/// before the statement.
pub proof fn lemma_negative_repeat(
    times: ExprModel,
    body: Seq<StmtModel>,
    m: MemModel,
    o: Seq<i32>,
    k: i32,
)
    requires
        sp_eval(times, m) == Ok::<i32, ErrorModel>(k),
        k < 0,
    ensures
        sp_run_stmt(StmtModel::Repeat { times, body }, m, o) == (
            Some(ErrorModel::NegativeRepeateError),
            m,
            o,
        ),
{
}

/// The body that increments variable `x` by one.
pub open spec fn incr_body(x: Seq<char>) -> Seq<StmtModel> {
    seq![
        StmtModel::Assign {
            var: x,
            exp: ExprModel::BinOp(
                Op::Add,
                Box::new(ExprModel::Var(x)),
                Box::new(ExprModel::Val(1)),
            ),
        },
    ]
}

/// Running the increment body `n` times from a store where `x` holds `i`
/// leaves `x` holding `i + n`, and changes nothing else.
proof fn lemma_repeat_increments_from(x: Seq<char>, n: nat, i: i32, m: MemModel, o: Seq<i32>)
    requires
        i + n <= i32::MAX,
        0 <= i,
    ensures
        sp_run_repeat(incr_body(x), n, m.insert(x, i), o) == (
            None::<ErrorModel>,
            m.insert(x, (i + n) as i32),
            o,
        ),
    decreases n,
{
    reveal_with_fuel(sp_run_stmts, 3);
    reveal_with_fuel(sp_eval, 3);
    let m0 = m.insert(x, i);
    if n == 0 {
        assert(m.insert(x, (i + n) as i32) =~= m0);
    } else {
        let body = incr_body(x);
        assert(body[0] == StmtModel::Assign {
            var: x,
            exp: ExprModel::BinOp(
                Op::Add,
                Box::new(ExprModel::Var(x)),
                Box::new(ExprModel::Val(1)),
            ),
        });
        assert(sp_eval(ExprModel::Var(x), m0) == Ok::<i32, ErrorModel>(i));
        assert(i32_specs::wrapping_add(i, 1) == i + 1);
        let m1 = m0.insert(x, (i + 1) as i32);
        assert(body.drop_first() =~= Seq::<StmtModel>::empty());
        assert(sp_run_stmts(body, m0, o) == (None::<ErrorModel>, m1, o));
        assert(m1 =~= m.insert(x, (i + 1) as i32));
        lemma_repeat_increments_from(x, (n - 1) as nat, (i + 1) as i32, m, o);
    }
}

/// A repeat with count `k >= 0` applied to a body that increments `x` by
/// one, starting from `x = 0`, leaves `x = k` and changes nothing else.
pub proof fn lemma_repeat_increments(x: Seq<char>, k: i32, m: MemModel, o: Seq<i32>)
    requires
        0 <= k,
    ensures
        sp_run_stmt(StmtModel::Repeat { times: ExprModel::Val(k), body: incr_body(x) }, m.insert(
            x,
            0,
        ), o) == (None::<ErrorModel>, m.insert(x, k), o),
{
    lemma_repeat_increments_from(x, k as nat, 0, m, o);
}

/// An `if` whose primary condition is false and whose first `elseif`
/// condition is true does exactly what that branch's body does — even when a
/// later `elseif` condition would also have been true, that branch's
/// condition is not evaluated again and its body does not run.
pub proof fn lemma_elif_short_circuit(
    c0: ExprModel,
    b0: Seq<StmtModel>,
    e1: (ExprModel, Seq<StmtModel>),
    e2: (ExprModel, Seq<StmtModel>),
    eb: Seq<StmtModel>,
    m: MemModel,
    o: Seq<i32>,
    v1: i32,
)
    requires
        sp_eval(c0, m) == Ok::<i32, ErrorModel>(0),
        sp_eval(e1.0, m) == Ok::<i32, ErrorModel>(v1),
        v1 != 0,
    ensures
        sp_run_stmt(
            StmtModel::If { condition: c0, body: b0, else_if: seq![e1, e2], else_body: eb },
            m,
            o,
        ) == sp_run_stmts(e1.1, m, o),
{
    let es = seq![e1, e2];
    assert(es[0] == e1);
}

/// When no `elseif` condition holds, the chain runs nothing and changes
/// nothing.
proof fn lemma_elifs_all_false(es: Seq<(ExprModel, Seq<StmtModel>)>, m: MemModel, o: Seq<i32>)
    requires
        forall|i: int| 0 <= i < es.len() ==> sp_eval(#[trigger] es[i].0, m) == Ok::<
            i32,
            ErrorModel,
        >(0),
    ensures
        sp_run_elifs(es, m, o) == (None::<ErrorModel>, false, m, o),
    decreases es,
{
    if es.len() > 0 {
        assert(sp_eval(es[0].0, m) == Ok::<i32, ErrorModel>(0));
        assert forall|i: int| 0 <= i < es.drop_first().len() implies sp_eval(
            #[trigger] es.drop_first()[i].0,
            m,
        ) == Ok::<i32, ErrorModel>(0) by {
            assert(es.drop_first()[i] == es[i + 1]);
        }
        lemma_elifs_all_false(es.drop_first(), m, o);
    }
}

/// An `if` whose primary condition and all `elseif` conditions are false
/// does exactly what the else-body does — and so has no effect at all when
/// the else-body is empty.
pub proof fn lemma_if_all_false(
    c0: ExprModel,
    b0: Seq<StmtModel>,
    es: Seq<(ExprModel, Seq<StmtModel>)>,
    eb: Seq<StmtModel>,
    m: MemModel,
    o: Seq<i32>,
)
    requires
        sp_eval(c0, m) == Ok::<i32, ErrorModel>(0),
        forall|i: int| 0 <= i < es.len() ==> sp_eval(#[trigger] es[i].0, m) == Ok::<
            i32,
            ErrorModel,
        >(0),
    ensures
        sp_run_stmt(StmtModel::If { condition: c0, body: b0, else_if: es, else_body: eb }, m, o)
            == sp_run_stmts(eb, m, o),
{
    lemma_elifs_all_false(es, m, o);
}

/// Creates or overwrites the entry for `var`; no other entry changes.
fn assign(var: &str, val: i32, memory: &mut Memory)
    ensures
        final(memory)@ == old(memory)@.insert(var@, val),
{
    memory.mem.insert(var.to_owned(), val);
}

/// Reads the entry for `var`: its value if one has been assigned, and the
/// uninitialized-variable error naming `var` otherwise.  The store is never
/// changed; in particular a failed read creates no entry.
fn access(var: &str, memory: &mut Memory) -> (r: Result<i32, ErrorType>)
    ensures
        final(memory)@ == old(memory)@,
        match r {
            Ok(v) => old(memory)@.dom().contains(var@) && v == old(memory)@[var@],
            Err(err) => !old(memory)@.dom().contains(var@) && err@ == ErrorModel::UninitialisedMemory(
                uninit_msg(var@),
            ),
        },
{
    match memory.mem.get(var) {
        Some(v) => Ok(*v),
        None => {
            let mut msg: String = "Variable \"".to_owned();
            msg.append(var);
            msg.append("\" has not been assigned");
            Err(ErrorType::UninitialisedMemory(msg))
        },
    }
}

/// The size of an expression tree, the measure for evaluation recursion.
pub open spec fn expr_size(e: Expression) -> nat
    decreases e,
{
    match e {
        Expression::Val(_) => 1,
        Expression::Var(_) => 1,
        Expression::BinOp(_, l, r) => 1 + expr_size(*l) + expr_size(*r),
    }
}

/// Evaluates an expression against the current store.
fn eval_exp(exp: &Expression, memory: &mut Memory) -> (r: Result<i32, ErrorType>)
    ensures
        final(memory)@ == old(memory)@,
        eval_matches(r, sp_eval(expr_view(*exp), old(memory)@)),
    decreases expr_size(*exp),
{
    match exp {
        Expression::Val(num) => Ok(*num),
        Expression::Var(var) => access(var.as_str(), memory),
        Expression::BinOp(op, lhs, rhs) => eval_bin_op(op, lhs, rhs, memory),
    }
}

/// Evaluates a binary operation: the left operand fully, then the right
/// operand fully (both are always evaluated; `And`/`Or` do not
/// short-circuit), then the operator on the two values.
fn eval_bin_op(op: &Op, lhs: &Expression, rhs: &Expression, memory: &mut Memory) -> (r: Result<
    i32,
    ErrorType,
>)
    ensures
        final(memory)@ == old(memory)@,
        eval_matches(
            r,
            sp_eval(
                ExprModel::BinOp(*op, Box::new(expr_view(*lhs)), Box::new(expr_view(*rhs))),
                old(memory)@,
            ),
        ),
    decreases expr_size(*lhs) + expr_size(*rhs),
{
    proof {
        assert(expr_size(*lhs) >= 1);
        assert(expr_size(*rhs) >= 1);
    }
    let lhs_eval = match eval_exp(lhs, memory) {
        Ok(v) => v,
        Err(err) => return Err(err),
    };
    let rhs_eval = match eval_exp(rhs, memory) {
        Ok(v) => v,
        Err(err) => return Err(err),
    };
    match op {
        Op::Add => Ok(lhs_eval.wrapping_add(rhs_eval)),
        Op::Sub => Ok(lhs_eval.wrapping_sub(rhs_eval)),
        Op::Equal => Ok(if lhs_eval == rhs_eval { 1 } else { 0 }),
        _ => Err(ErrorType::NotImplimented),
    }
}

/// Runs one statement against the current store and output.
#[verifier::loop_isolation(false)]
fn run_stmt(stmt: &Statement, memory: &mut Memory, output_vec: &mut Vec<i32>) -> (r: Result<
    (),
    ErrorType,
>)
    ensures
        run_matches(
            r,
            final(memory)@,
            final(output_vec)@,
            sp_run_stmt(stmt@, old(memory)@, old(output_vec)@),
        ),
    decreases *stmt,
{
    match stmt {
        Statement::AssignStatement { var, exp } => {
            let eval = match eval_exp(exp, memory) {
                Ok(v) => v,
                Err(err) => return Err(err),
            };
            assign(var.as_str(), eval, memory);
            Ok(())
        },
        Statement::OutputStatement { to_output } => {
            let eval = match eval_exp(to_output, memory) {
                Ok(v) => v,
                Err(err) => return Err(err),
            };
            output_vec.push(eval);
            Ok(())
        },
        Statement::RepeatStatement { times, body } => {
            let eval = match eval_exp(times, memory) {
                Ok(v) => v,
                Err(err) => return Err(err),
            };
            if eval < 0 {
                return Err(ErrorType::NegativeRepeateError);
            }
            let ghost m0 = memory@;
            let ghost o0 = output_vec@;
            let ghost bodyv = stmts_view(body.statements@);
            let mut idx: i32 = 0;
            while idx < eval
                invariant
                    0 <= idx <= eval,
                    sp_run_repeat(bodyv, (eval - idx) as nat, memory@, output_vec@)
                        == sp_run_repeat(bodyv, eval as nat, m0, o0),
                decreases eval - idx,
            {
                match run_block(body, memory, output_vec) {
                    Ok(_) => {},
                    Err(err) => {
                        return Err(err);
                    },
                }
                idx = idx + 1;
            }
            Ok(())
        },
        Statement::IfStatement { condition, body, else_if, else_body } => {
            let eval = match eval_exp(condition, memory) {
                Ok(v) => v,
                Err(err) => return Err(err),
            };
            if eval != 0 {
                run_block(body, memory, output_vec)
            } else {
                let ran = match run_elifs(else_if, memory, output_vec) {
                    Ok(b) => b,
                    Err(err) => return Err(err),
                };
                if !ran {
                    run_block(else_body, memory, output_vec)
                } else {
                    Ok(())
                }
            }
        },
    }
}

/// Runs the `elseif` branches in source order; reports whether one ran.
#[verifier::loop_isolation(false)]
fn run_elifs(
    elifs: &Vec<(Expression, Block)>,
    memory: &mut Memory,
    output_vec: &mut Vec<i32>,
) -> (r: Result<bool, ErrorType>)
    ensures
        ({
            let (e, ran, m2, o2) = sp_run_elifs(
                elifs_view(elifs@),
                old(memory)@,
                old(output_vec)@,
            );
            &&& final(memory)@ == m2
            &&& final(output_vec)@ == o2
            &&& match r {
                Ok(b) => e is None && b == ran,
                Err(err) => e == Some(err@),
            }
        }),
    decreases *elifs,
{
    let ghost esv = elifs_view(elifs@);
    let ghost m0 = memory@;
    let ghost o0 = output_vec@;
    proof {
        crate::language::lemma_elifs_view_len(elifs@);
        assert(esv.skip(0) =~= esv);
    }
    let n = elifs.len();
    let mut j: usize = 0;
    while j < n
        invariant
            0 <= j <= n,
            memory@ == m0,
            output_vec@ == o0,
            sp_run_elifs(esv, m0, o0) == sp_run_elifs(esv.skip(j as int), m0, o0),
        decreases n - j,
    {
        proof {
            lemma_elifs_view_index(elifs@, j as int);
            assert(esv.skip(j as int)[0] == esv[j as int]);
            assert(esv.skip(j as int).drop_first() =~= esv.skip(j as int + 1));
        }
        let pair = &elifs[j];
        let eval = match eval_exp(&pair.0, memory) {
            Ok(v) => v,
            Err(err) => return Err(err),
        };
        if eval != 0 {
            match run_block(&pair.1, memory, output_vec) {
                Ok(_) => {
                    return Ok(true);
                },
                Err(err) => {
                    return Err(err);
                },
            }
        }
        j = j + 1;
    }
    Ok(false)
}

/// Runs the statements of a block strictly in sequence, stopping at the
/// first error; effects already applied stay applied.
#[verifier::loop_isolation(false)]
fn run_block(block: &Block, memory: &mut Memory, output_vec: &mut Vec<i32>) -> (r: Result<
    (),
    ErrorType,
>)
    ensures
        run_matches(
            r,
            final(memory)@,
            final(output_vec)@,
            sp_run_stmts(block@, old(memory)@, old(output_vec)@),
        ),
    decreases *block,
{
    let ghost svs = stmts_view(block.statements@);
    let ghost m0 = memory@;
    let ghost o0 = output_vec@;
    proof {
        crate::language::lemma_stmts_view_len(block.statements@);
        assert(svs.skip(0) =~= svs);
    }
    let n = block.statements.len();
    let mut i: usize = 0;
    while i < n
        invariant
            0 <= i <= n,
            sp_run_stmts(svs, m0, o0) == sp_run_stmts(svs.skip(i as int), memory@, output_vec@),
        decreases n - i,
    {
        proof {
            lemma_stmts_view_index(block.statements@, i as int);
            assert(svs.skip(i as int)[0] == svs[i as int]);
            assert(svs.skip(i as int).drop_first() =~= svs.skip(i as int + 1));
        }
        let stmt = &block.statements[i];
        match run_stmt(stmt, memory, output_vec) {
            Ok(_) => {},
            Err(err) => {
                return Err(err);
            },
        }
        i = i + 1;
    }
    Ok(())
}

/// Runs a whole program from a fresh, empty store: the full output sequence
/// on success, the first runtime error otherwise (with no partial output
/// reported).
pub fn interpret(program: Program) -> (r: Result<Vec<i32>, ErrorType>)
    ensures
        match r {
            Ok(v) => sp_interpret(program@) == Ok::<Seq<i32>, ErrorModel>(v@),
            Err(err) => sp_interpret(program@) == Err::<Seq<i32>, ErrorModel>(err@),
        },
{
    let mut memory = Memory::new();
    let mut output_vec: Vec<i32> = Vec::new();
    proof {
        assert(memory@ =~= MemModel::empty());
        assert(output_vec@ =~= Seq::<i32>::empty());
    }
    match run_block(&program.program, &mut memory, &mut output_vec) {
        Err(err) => Err(err),
        Ok(_) => Ok(output_vec),
    }
}

/// Runs the statements of a block in sequence against the given store and
/// output.
pub fn pub_run_block(block: &Block, memory: &mut Memory, output_vec: &mut Vec<i32>) -> (r: Result<
    (),
    ErrorType,
>)
    ensures
        run_matches(
            r,
            final(memory)@,
            final(output_vec)@,
            sp_run_stmts(block@, old(memory)@, old(output_vec)@),
        ),
{
    run_block(block, memory, output_vec)
}

/// Creates or overwrites the entry for `var`; no other entry changes.
pub fn pub_assign_test(var: &str, val: i32, memory: &mut Memory)
    ensures
        final(memory)@ == old(memory)@.insert(var@, val),
{
    assign(var, val, memory);
}

/// Reads the entry for `var` without changing the store.
pub fn pub_access_test(var: &str, memory: &mut Memory) -> (r: Result<i32, ErrorType>)
    ensures
        final(memory)@ == old(memory)@,
        match r {
            Ok(v) => old(memory)@.dom().contains(var@) && v == old(memory)@[var@],
            Err(err) => !old(memory)@.dom().contains(var@) && err@ == ErrorModel::UninitialisedMemory(
                uninit_msg(var@),
            ),
        },
{
    access(var, memory)
}

/// Evaluates an expression against the current store.
pub fn pub_eval_test(exp: &Expression, memory: &mut Memory) -> (r: Result<i32, ErrorType>)
    ensures
        final(memory)@ == old(memory)@,
        eval_matches(r, sp_eval(expr_view(*exp), old(memory)@)),
{
    eval_exp(exp, memory)
}

/// Evaluates a binary operation on two operand expressions.
pub fn pub_eval_binop_test(op: &Op, lhs: &Expression, rhs: &Expression, memory: &mut Memory) -> (r:
    Result<i32, ErrorType>)
    ensures
        final(memory)@ == old(memory)@,
        eval_matches(
            r,
            sp_eval(
                ExprModel::BinOp(*op, Box::new(expr_view(*lhs)), Box::new(expr_view(*rhs))),
                old(memory)@,
            ),
        ),
{
    eval_bin_op(op, lhs, rhs, memory)
}

} // verus!
