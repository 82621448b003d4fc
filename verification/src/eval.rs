//! The evaluator: tree-walks statements and expressions against the
//! chained scope environment, producing print output and environment
//! mutations, to completion or first runtime fault.
//!
//! Expression evaluation is structural recursion and its model
//! [`sp_eval_expr`] is a total function.  Statement execution can loop
//! forever by design (`while` has no iteration bound), so its model
//! [`sp_exec_stmt`] and the executable walker take a step budget: a run
//! that exhausts the budget reports so distinctly, and any sufficient
//! budget yields the one real outcome.
//!
//! Arithmetic saturates at the representable 64-bit bounds; division
//! truncates toward zero and a zero divisor is a runtime fault.

use vstd::prelude::*;
use crate::environ::{EnvV, Environment, env_assign, env_define, env_lookup};
use crate::error::{RuntimeError, RuntimeErrorKind, RuntimeErrorKindV, RuntimeErrorV};
use crate::expr::{Expr, ExprV};
use crate::stmt::{Stmt, StmtV, stmt_view, stmts_view, lemma_stmts_view};
use crate::token::{
    B_NL, Object, TokenType, TokenV, Value, display, kind_of, push_all, sat64, truthy,
};

verus! {

/// Equality of runtime values: total, with no coercion — null equals only
/// null, values of the same kind compare by value, and values of
/// different kinds are never equal.
pub open spec fn val_eq(a: Value, b: Value) -> bool {
    match (a, b) {
        (Value::Null, Value::Null) => true,
        (Value::Num(x), Value::Num(y)) => x == y,
        (Value::Bool(x), Value::Bool(y)) => x == y,
        (Value::Str(x), Value::Str(y)) => x == y,
        _ => false,
    }
}

/// Lexicographic byte order, scanning from position `i`.
pub open spec fn str_lt_from(a: Seq<u8>, b: Seq<u8>, i: int) -> bool
    decreases b.len() - i,
{
    if i >= b.len() {
        false
    } else if i >= a.len() {
        true
    } else if a[i] < b[i] {
        true
    } else if a[i] > b[i] {
        false
    } else {
        str_lt_from(a, b, i + 1)
    }
}

/// Lexicographic byte order on strings.
pub open spec fn str_lt(a: Seq<u8>, b: Seq<u8>) -> bool {
    str_lt_from(a, b, 0)
}

/// The absolute value.
pub open spec fn iabs(a: int) -> int {
    if a < 0 {
        -a
    } else {
        a
    }
}

/// Division truncated toward zero.
pub open spec fn tdiv(a: int, b: int) -> int {
    if (a < 0) != (b < 0) {
        -(iabs(a) / iabs(b))
    } else {
        iabs(a) / iabs(b)
    }
}

/// `s` repeated `n` times (empty when `n` is not positive).
pub open spec fn sp_repeat(s: Seq<u8>, n: int) -> Seq<u8>
    decreases (if n > 0 {
        n
    } else {
        0
    }),
{
    if n <= 0 {
        Seq::empty()
    } else {
        sp_repeat(s, n - 1) + s
    }
}

/// A type-mismatch fault for a binary operator.
pub open spec fn mismatch(t: TokenV, a: Value, b: Value) -> RuntimeErrorV {
    RuntimeErrorV {
        kind: RuntimeErrorKindV::TypeMismatch { op: t.kind, left: kind_of(a), right: kind_of(b) },
        line: t.line,
    }
}

/// What a binary operator yields on two evaluated operands.  `+` is
/// numeric addition or string concatenation, never a coercion between the
/// two; `*` additionally repeats a string by a count; comparisons accept
/// two numbers or two strings (lexicographic); `==`/`!=` are total.
pub open spec fn sp_binary(t: TokenV, a: Value, b: Value) -> Result<Value, RuntimeErrorV> {
    let k = t.kind;
    if k == TokenType::Plus {
        match (a, b) {
            (Value::Num(x), Value::Num(y)) => Ok(Value::Num(sat64(x + y))),
            (Value::Str(x), Value::Str(y)) => Ok(Value::Str(x + y)),
            _ => Err(mismatch(t, a, b)),
        }
    } else if k == TokenType::Minus {
        match (a, b) {
            (Value::Num(x), Value::Num(y)) => Ok(Value::Num(sat64(x - y))),
            _ => Err(mismatch(t, a, b)),
        }
    } else if k == TokenType::Star {
        match (a, b) {
            (Value::Num(x), Value::Num(y)) => Ok(Value::Num(sat64(x * y))),
            (Value::Str(x), Value::Num(y)) => Ok(Value::Str(sp_repeat(x, y))),
            (Value::Num(x), Value::Str(y)) => Ok(Value::Str(sp_repeat(y, x))),
            _ => Err(mismatch(t, a, b)),
        }
    } else if k == TokenType::Slash {
        match (a, b) {
            (Value::Num(x), Value::Num(y)) => if y == 0 {
                Err(RuntimeErrorV { kind: RuntimeErrorKindV::DivisionByZero, line: t.line })
            } else {
                Ok(Value::Num(sat64(tdiv(x, y))))
            },
            _ => Err(mismatch(t, a, b)),
        }
    } else if k == TokenType::Greater {
        match (a, b) {
            (Value::Num(x), Value::Num(y)) => Ok(Value::Bool(x > y)),
            (Value::Str(x), Value::Str(y)) => Ok(Value::Bool(str_lt(y, x))),
            _ => Err(mismatch(t, a, b)),
        }
    } else if k == TokenType::GreaterEqual {
        match (a, b) {
            (Value::Num(x), Value::Num(y)) => Ok(Value::Bool(x >= y)),
            (Value::Str(x), Value::Str(y)) => Ok(Value::Bool(!str_lt(x, y))),
            _ => Err(mismatch(t, a, b)),
        }
    } else if k == TokenType::Less {
        match (a, b) {
            (Value::Num(x), Value::Num(y)) => Ok(Value::Bool(x < y)),
            (Value::Str(x), Value::Str(y)) => Ok(Value::Bool(str_lt(x, y))),
            _ => Err(mismatch(t, a, b)),
        }
    } else if k == TokenType::LessEqual {
        match (a, b) {
            (Value::Num(x), Value::Num(y)) => Ok(Value::Bool(x <= y)),
            (Value::Str(x), Value::Str(y)) => Ok(Value::Bool(!str_lt(y, x))),
            _ => Err(mismatch(t, a, b)),
        }
    } else if k == TokenType::EqualEqual {
        Ok(Value::Bool(val_eq(a, b)))
    } else if k == TokenType::BangEqual {
        Ok(Value::Bool(!val_eq(a, b)))
    } else {
        // the parser never builds a binary node with another operator
        Err(mismatch(t, a, b))
    }
}

/// The outcome of evaluating one expression: the environment after it
/// (assignments mutate), and its value or the first fault.
pub ghost struct EvalOut {
    pub env: EnvV,
    pub res: Result<Value, RuntimeErrorV>,
}

/// Evaluates an expression against an environment.  Logical `and`/`or`
/// short-circuit: the right operand is evaluated only when the left's
/// truthiness does not already settle the result, and the value is the
/// last evaluated operand's value, not a coerced boolean.
pub open spec fn sp_eval_expr(e: ExprV, env: EnvV) -> EvalOut
    decreases e,
{
    match e {
        ExprV::Literal(v) => EvalOut { env, res: Ok(v) },
        ExprV::Grouping(x) => sp_eval_expr(*x, env),
        ExprV::Unary(t, x) => {
            let r = sp_eval_expr(*x, env);
            match r.res {
                Err(er) => r,
                Ok(v) => if t.kind == TokenType::Minus {
                    match v {
                        Value::Num(n) => EvalOut { env: r.env, res: Ok(Value::Num(sat64(-n))) },
                        _ => EvalOut {
                            env: r.env,
                            res: Err(
                                RuntimeErrorV {
                                    kind: RuntimeErrorKindV::TypeMismatchUnary {
                                        op: t.kind,
                                        operand: kind_of(v),
                                    },
                                    line: t.line,
                                },
                            ),
                        },
                    }
                } else if t.kind == TokenType::Bang {
                    EvalOut { env: r.env, res: Ok(Value::Bool(!truthy(v))) }
                } else {
                    // the parser never builds another unary operator
                    EvalOut {
                        env: r.env,
                        res: Err(
                            RuntimeErrorV {
                                kind: RuntimeErrorKindV::TypeMismatchUnary {
                                    op: t.kind,
                                    operand: kind_of(v),
                                },
                                line: t.line,
                            },
                        ),
                    }
                },
            }
        },
        ExprV::Binary(l, t, r0) => {
            let a = sp_eval_expr(*l, env);
            match a.res {
                Err(er) => a,
                Ok(va) => {
                    let b = sp_eval_expr(*r0, a.env);
                    match b.res {
                        Err(er) => b,
                        Ok(vb) => EvalOut { env: b.env, res: sp_binary(t, va, vb) },
                    }
                },
            }
        },
        ExprV::Logical(l, t, r0) => {
            let a = sp_eval_expr(*l, env);
            match a.res {
                Err(er) => a,
                Ok(va) => if t.kind == TokenType::And {
                    if !truthy(va) {
                        a
                    } else {
                        sp_eval_expr(*r0, a.env)
                    }
                } else {
                    // the parser builds only `and` and `or` logical nodes
                    if truthy(va) {
                        a
                    } else {
                        sp_eval_expr(*r0, a.env)
                    }
                },
            }
        },
        ExprV::Variable(t) => match env_lookup(env, t.lexeme) {
            Some(v) => EvalOut { env, res: Ok(v) },
            None => EvalOut {
                env,
                res: Err(
                    RuntimeErrorV {
                        kind: RuntimeErrorKindV::UndefinedVariable { name: t.lexeme },
                        line: t.line,
                    },
                ),
            },
        },
        ExprV::Assign(t, x) => {
            let r = sp_eval_expr(*x, env);
            match r.res {
                Err(er) => r,
                Ok(v) => match env_assign(r.env, t.lexeme, v) {
                    Some(e2) => EvalOut { env: e2, res: Ok(v) },
                    None => EvalOut {
                        env: r.env,
                        res: Err(
                            RuntimeErrorV {
                                kind: RuntimeErrorKindV::UndefinedVariable { name: t.lexeme },
                                line: t.line,
                            },
                        ),
                    },
                },
            }
        },
    }
}

/// A successful assignment keeps the number of scopes.
pub proof fn lemma_env_assign_len(env: EnvV, name: Seq<u8>, v: Value)
    ensures
        match env_assign(env, name, v) {
            Some(e2) => e2.len() == env.len(),
            None => true,
        },
    decreases env.len(),
{
    if env.len() > 0 && !(crate::environ::scope_index(env.last(), name) >= 0) {
        lemma_env_assign_len(env.drop_last(), name, v);
    }
}

/// Evaluating an expression keeps the number of scopes.
pub proof fn lemma_eval_env_len(e: ExprV, env: EnvV)
    ensures
        sp_eval_expr(e, env).env.len() == env.len(),
    decreases e,
{
    match e {
        ExprV::Literal(_) => {},
        ExprV::Grouping(x) => {
            lemma_eval_env_len(*x, env);
        },
        ExprV::Unary(t, x) => {
            lemma_eval_env_len(*x, env);
        },
        ExprV::Binary(l, t, r0) => {
            lemma_eval_env_len(*l, env);
            lemma_eval_env_len(*r0, sp_eval_expr(*l, env).env);
        },
        ExprV::Logical(l, t, r0) => {
            lemma_eval_env_len(*l, env);
            lemma_eval_env_len(*r0, sp_eval_expr(*l, env).env);
        },
        ExprV::Variable(_) => {},
        ExprV::Assign(t, x) => {
            lemma_eval_env_len(*x, env);
            match sp_eval_expr(*x, env).res {
                Ok(v) => {
                    lemma_env_assign_len(sp_eval_expr(*x, env).env, t.lexeme, v);
                },
                Err(_) => {},
            }
        },
    }
}

/// The running state of a unit: the scope chain and the print bytes
/// written so far.
pub ghost struct RunState {
    pub env: EnvV,
    pub out: Seq<u8>,
}

/// The outcome of executing statements with a step budget: ran to
/// completion, stopped at a runtime fault (the state keeps the effects up
/// to it), or exhausted the budget.
pub ghost enum StepOut {
    Done(RunState),
    Fault(RunState, RuntimeErrorV),
    Spent,
}

/// Executes one statement with a step budget.  A print statement appends
/// the value's display bytes and a newline; a variable declaration
/// defaults its initializer to null and defines in the current scope; a
/// block pushes a child scope and pops it again whatever happens inside;
/// a while statement loops as long as its condition is truthy.
pub open spec fn sp_exec_stmt(s: StmtV, st: RunState, fuel: nat) -> StepOut
    decreases fuel,
{
    if fuel == 0 {
        StepOut::Spent
    } else {
        match s {
            StmtV::ExprStmt(e) => {
                let r = sp_eval_expr(e, st.env);
                match r.res {
                    Ok(_) => StepOut::Done(RunState { env: r.env, out: st.out }),
                    Err(er) => StepOut::Fault(RunState { env: r.env, out: st.out }, er),
                }
            },
            StmtV::PrintStmt(e) => {
                let r = sp_eval_expr(e, st.env);
                match r.res {
                    Ok(v) => StepOut::Done(
                        RunState { env: r.env, out: st.out + display(v) + seq![B_NL] },
                    ),
                    Err(er) => StepOut::Fault(RunState { env: r.env, out: st.out }, er),
                }
            },
            StmtV::VarStmt(t, init) => {
                match init {
                    None => StepOut::Done(
                        RunState { env: env_define(st.env, t.lexeme, Value::Null), out: st.out },
                    ),
                    Some(e) => {
                        let r = sp_eval_expr(e, st.env);
                        match r.res {
                            Ok(v) => StepOut::Done(
                                RunState { env: env_define(r.env, t.lexeme, v), out: st.out },
                            ),
                            Err(er) => StepOut::Fault(RunState { env: r.env, out: st.out }, er),
                        }
                    },
                }
            },
            StmtV::BlockStmt(ss) => {
                let inner = sp_exec_stmts(
                    ss,
                    RunState {
                        env: st.env.push(Seq::<(Seq<u8>, Value)>::empty()),
                        out: st.out,
                    },
                    (fuel - 1) as nat,
                );
                match inner {
                    StepOut::Spent => StepOut::Spent,
                    StepOut::Done(st2) => StepOut::Done(
                        RunState { env: st2.env.drop_last(), out: st2.out },
                    ),
                    StepOut::Fault(st2, er) => StepOut::Fault(
                        RunState { env: st2.env.drop_last(), out: st2.out },
                        er,
                    ),
                }
            },
            StmtV::IfStmt(c, th, el) => {
                let r = sp_eval_expr(c, st.env);
                match r.res {
                    Err(er) => StepOut::Fault(RunState { env: r.env, out: st.out }, er),
                    Ok(v) => if truthy(v) {
                        sp_exec_stmt(*th, RunState { env: r.env, out: st.out }, (fuel - 1) as nat)
                    } else {
                        match el {
                            Some(b) => sp_exec_stmt(
                                *b,
                                RunState { env: r.env, out: st.out },
                                (fuel - 1) as nat,
                            ),
                            None => StepOut::Done(RunState { env: r.env, out: st.out }),
                        }
                    },
                }
            },
            StmtV::WhileStmt(c, b) => {
                let r = sp_eval_expr(c, st.env);
                match r.res {
                    Err(er) => StepOut::Fault(RunState { env: r.env, out: st.out }, er),
                    Ok(v) => if !truthy(v) {
                        StepOut::Done(RunState { env: r.env, out: st.out })
                    } else {
                        match sp_exec_stmt(
                            *b,
                            RunState { env: r.env, out: st.out },
                            (fuel - 1) as nat,
                        ) {
                            StepOut::Spent => StepOut::Spent,
                            StepOut::Fault(st2, er) => StepOut::Fault(st2, er),
                            StepOut::Done(st2) => sp_exec_stmt(s, st2, (fuel - 1) as nat),
                        }
                    },
                }
            },
        }
    }
}

/// Executes a statement list in order, stopping at the first fault or
/// when the budget runs out.
pub open spec fn sp_exec_stmts(ss: Seq<StmtV>, st: RunState, fuel: nat) -> StepOut
    decreases fuel,
{
    if fuel == 0 {
        StepOut::Spent
    } else if ss.len() == 0 {
        StepOut::Done(st)
    } else {
        match sp_exec_stmt(ss[0], st, (fuel - 1) as nat) {
            StepOut::Spent => StepOut::Spent,
            StepOut::Fault(st2, er) => StepOut::Fault(st2, er),
            StepOut::Done(st2) => sp_exec_stmts(ss.drop_first(), st2, (fuel - 1) as nat),
        }
    }
}

/// Equality never coerces: values of different kinds are never equal,
/// and null equals only null.
pub proof fn lemma_equality_no_coercion(a: Value, b: Value)
    ensures
        kind_of(a) != kind_of(b) ==> !val_eq(a, b),
        val_eq(Value::Null, Value::Null),
{
}

/// Short-circuit for `and`: when the left operand comes out falsy, the
/// outcome of the whole expression is the left outcome, whatever the
/// right expression is — even one that would fault, such as a division by
/// zero.
pub proof fn lemma_and_short_circuit(l: ExprV, t: TokenV, r: ExprV, env: EnvV)
    requires
        t.kind == TokenType::And,
        ({
            let o = sp_eval_expr(l, env);
            o.res matches Ok(v) && !truthy(v)
        }),
    ensures
        sp_eval_expr(ExprV::Logical(Box::new(l), t, Box::new(r)), env) == sp_eval_expr(l, env),
{
}

/// Short-circuit for `or`: when the left operand comes out truthy, the
/// outcome of the whole expression is the left outcome, whatever the
/// right expression is.
pub proof fn lemma_or_short_circuit(l: ExprV, t: TokenV, r: ExprV, env: EnvV)
    requires
        t.kind == TokenType::Or,
        ({
            let o = sp_eval_expr(l, env);
            o.res matches Ok(v) && truthy(v)
        }),
    ensures
        sp_eval_expr(ExprV::Logical(Box::new(l), t, Box::new(r)), env) == sp_eval_expr(l, env),
{
}

/// String concatenation is associative left-to-right: folding `+` over
/// three strings concatenates them in order, and the grouping does not
/// matter.
pub proof fn lemma_concat_assoc(t: TokenV, a: Seq<u8>, b: Seq<u8>, c: Seq<u8>)
    requires
        t.kind == TokenType::Plus,
    ensures
        sp_binary(t, Value::Str(a), Value::Str(b)) == Ok::<Value, RuntimeErrorV>(Value::Str(a + b)),
        sp_binary(t, Value::Str(a + b), Value::Str(c)) == Ok::<Value, RuntimeErrorV>(
            Value::Str(a + b + c),
        ),
        a + b + c == a + (b + c),
{
    assert(a + b + c =~= a + (b + c));
}

/// String repetition accepts the count on either side: a string times a
/// number and a number times a string repeat the same way.
pub proof fn lemma_repeat_symmetric(t: TokenV, s: Seq<u8>, n: int)
    requires
        t.kind == TokenType::Star,
    ensures
        sp_binary(t, Value::Str(s), Value::Num(n)) == sp_binary(t, Value::Num(n), Value::Str(s)),
        sp_binary(t, Value::Str(s), Value::Num(n)) == Ok::<Value, RuntimeErrorV>(
            Value::Str(sp_repeat(s, n)),
        ),
{
}

/// One more repetition appends one more copy.
pub proof fn lemma_repeat_unfold(s: Seq<u8>, n: int)
    requires
        n >= 0,
    ensures
        sp_repeat(s, n + 1) == sp_repeat(s, n) + s,
        sp_repeat(s, 0) == Seq::<u8>::empty(),
{
}

/// Saturating 64-bit addition.
fn sat_add(x: i64, y: i64) -> (r: i64)
    ensures
        r as int == sat64(x + y),
{
    let s: i128 = x as i128 + y as i128;
    if s > i64::MAX as i128 {
        i64::MAX
    } else if s < i64::MIN as i128 {
        i64::MIN
    } else {
        s as i64
    }
}

/// Saturating 64-bit subtraction.
fn sat_sub(x: i64, y: i64) -> (r: i64)
    ensures
        r as int == sat64(x - y),
{
    let s: i128 = x as i128 - y as i128;
    if s > i64::MAX as i128 {
        i64::MAX
    } else if s < i64::MIN as i128 {
        i64::MIN
    } else {
        s as i64
    }
}

/// Saturating 64-bit multiplication.
fn sat_mul(x: i64, y: i64) -> (r: i64)
    ensures
        r as int == sat64(x * y),
{
    let xi: i128 = x as i128;
    let yi: i128 = y as i128;
    proof {
        assert(xi * yi <= 0x40000000000000000000000000000000i128 && xi * yi
            >= -0x40000000000000000000000000000000i128) by (nonlinear_arith)
            requires
                -0x8000000000000000i128 <= xi <= 0x7fffffffffffffffi128,
                -0x8000000000000000i128 <= yi <= 0x7fffffffffffffffi128,
        ;
    }
    let s: i128 = xi * yi;
    if s > i64::MAX as i128 {
        i64::MAX
    } else if s < i64::MIN as i128 {
        i64::MIN
    } else {
        s as i64
    }
}

/// Saturating 64-bit negation.
fn sat_neg(x: i64) -> (r: i64)
    ensures
        r as int == sat64(-x),
{
    if x == i64::MIN {
        i64::MAX
    } else {
        -x
    }
}

/// The magnitude of a 64-bit integer, as an unsigned value.
fn magnitude(x: i64) -> (r: u64)
    ensures
        r as int == iabs(x as int),
{
    if x == i64::MIN {
        9223372036854775808u64
    } else if x < 0 {
        (-x) as u64
    } else {
        x as u64
    }
}

/// Saturating truncated 64-bit division.
fn div_trunc(x: i64, y: i64) -> (r: i64)
    requires
        y != 0,
    ensures
        r as int == sat64(tdiv(x as int, y as int)),
{
    let xm = magnitude(x);
    let ym = magnitude(y);
    let q: u64 = xm / ym;
    if (x < 0) != (y < 0) {
        if q >= 9223372036854775808u64 {
            i64::MIN
        } else {
            -(q as i64)
        }
    } else {
        if q > i64::MAX as u64 {
            i64::MAX
        } else {
            q as i64
        }
    }
}

/// Lexicographic byte comparison.
fn bytes_lt(a: &Vec<u8>, b: &Vec<u8>) -> (r: bool)
    ensures
        r == str_lt(a@, b@),
{
    let mut i: usize = 0;
    loop
        invariant
            i <= a@.len(),
            i <= b@.len(),
            str_lt(a@, b@) == str_lt_from(a@, b@, i as int),
        decreases b@.len() - i,
    {
        if i >= b.len() {
            return false;
        }
        if i >= a.len() {
            return true;
        }
        if a[i] < b[i] {
            return true;
        }
        if a[i] > b[i] {
            return false;
        }
        i = i + 1;
    }
}

/// `s` repeated `n` times (empty when `n` is not positive): string
/// repetition by a truncated integer count.
fn repeat_bytes(s: &Vec<u8>, n: i64) -> (r: Vec<u8>)
    ensures
        r@ == sp_repeat(s@, n as int),
{
    let mut out: Vec<u8> = Vec::new();
    if n <= 0 {
        proof {
            assert(out@ =~= sp_repeat(s@, n as int));
        }
        return out;
    }
    let mut k: i64 = 0;
    proof {
        assert(out@ =~= sp_repeat(s@, 0));
    }
    while k < n
        invariant
            0 <= k <= n,
            out@ == sp_repeat(s@, k as int),
        decreases n - k,
    {
        push_all(&mut out, s);
        k = k + 1;
        proof {
            assert(sp_repeat(s@, k as int) == sp_repeat(s@, k - 1) + s@);
        }
    }
    out
}

/// Equality of runtime values.
pub fn obj_eq(a: &Object, b: &Object) -> (r: bool)
    ensures
        r == val_eq(a@, b@),
{
    match (a, b) {
        (Object::Null, Object::Null) => true,
        (Object::Num(x), Object::Num(y)) => x == y,
        (Object::Bool(x), Object::Bool(y)) => x == y,
        (Object::Str(x), Object::Str(y)) => crate::token::bytes_eq(x, y),
        _ => false,
    }
}

/// Applies a binary operator to two evaluated operands.
#[verifier::spinoff_prover]
#[verifier::rlimit(100)]
fn binary_op(op: &crate::token::Token, a: Object, b: Object) -> (r: Result<Object, RuntimeError>)
    ensures
        match r {
            Ok(v) => sp_binary(op@, a@, b@) == Ok::<Value, RuntimeErrorV>(v@),
            Err(er) => sp_binary(op@, a@, b@) == Err::<Value, RuntimeErrorV>(er@),
        },
{
    let ka = a.kind();
    let kb = b.kind();
    let k = op.token_type;
    if k == TokenType::Plus {
        match (a, b) {
            (Object::Num(x), Object::Num(y)) => Ok(Object::Num(sat_add(x, y))),
            (Object::Str(x), Object::Str(y)) => {
                let mut o = x;
                push_all(&mut o, &y);
                Ok(Object::Str(o))
            },
            _ => Err(
                RuntimeError {
                    kind: RuntimeErrorKind::TypeMismatch { op: k, left: ka, right: kb },
                    line: op.line,
                },
            ),
        }
    } else if k == TokenType::Minus {
        match (a, b) {
            (Object::Num(x), Object::Num(y)) => Ok(Object::Num(sat_sub(x, y))),
            _ => Err(
                RuntimeError {
                    kind: RuntimeErrorKind::TypeMismatch { op: k, left: ka, right: kb },
                    line: op.line,
                },
            ),
        }
    } else if k == TokenType::Star {
        match (a, b) {
            (Object::Num(x), Object::Num(y)) => Ok(Object::Num(sat_mul(x, y))),
            (Object::Str(x), Object::Num(y)) => Ok(Object::Str(repeat_bytes(&x, y))),
            (Object::Num(x), Object::Str(y)) => Ok(Object::Str(repeat_bytes(&y, x))),
            _ => Err(
                RuntimeError {
                    kind: RuntimeErrorKind::TypeMismatch { op: k, left: ka, right: kb },
                    line: op.line,
                },
            ),
        }
    } else if k == TokenType::Slash {
        match (a, b) {
            (Object::Num(x), Object::Num(y)) => {
                if y == 0 {
                    Err(RuntimeError { kind: RuntimeErrorKind::DivisionByZero, line: op.line })
                } else {
                    Ok(Object::Num(div_trunc(x, y)))
                }
            },
            _ => Err(
                RuntimeError {
                    kind: RuntimeErrorKind::TypeMismatch { op: k, left: ka, right: kb },
                    line: op.line,
                },
            ),
        }
    } else if k == TokenType::Greater {
        match (a, b) {
            (Object::Num(x), Object::Num(y)) => Ok(Object::Bool(x > y)),
            (Object::Str(x), Object::Str(y)) => Ok(Object::Bool(bytes_lt(&y, &x))),
            _ => Err(
                RuntimeError {
                    kind: RuntimeErrorKind::TypeMismatch { op: k, left: ka, right: kb },
                    line: op.line,
                },
            ),
        }
    } else if k == TokenType::GreaterEqual {
        match (a, b) {
            (Object::Num(x), Object::Num(y)) => Ok(Object::Bool(x >= y)),
            (Object::Str(x), Object::Str(y)) => Ok(Object::Bool(!bytes_lt(&x, &y))),
            _ => Err(
                RuntimeError {
                    kind: RuntimeErrorKind::TypeMismatch { op: k, left: ka, right: kb },
                    line: op.line,
                },
            ),
        }
    } else if k == TokenType::Less {
        match (a, b) {
            (Object::Num(x), Object::Num(y)) => Ok(Object::Bool(x < y)),
            (Object::Str(x), Object::Str(y)) => Ok(Object::Bool(bytes_lt(&x, &y))),
            _ => Err(
                RuntimeError {
                    kind: RuntimeErrorKind::TypeMismatch { op: k, left: ka, right: kb },
                    line: op.line,
                },
            ),
        }
    } else if k == TokenType::LessEqual {
        match (a, b) {
            (Object::Num(x), Object::Num(y)) => Ok(Object::Bool(x <= y)),
            (Object::Str(x), Object::Str(y)) => Ok(Object::Bool(!bytes_lt(&y, &x))),
            _ => Err(
                RuntimeError {
                    kind: RuntimeErrorKind::TypeMismatch { op: k, left: ka, right: kb },
                    line: op.line,
                },
            ),
        }
    } else if k == TokenType::EqualEqual {
        Ok(Object::Bool(obj_eq(&a, &b)))
    } else if k == TokenType::BangEqual {
        Ok(Object::Bool(!obj_eq(&a, &b)))
    } else {
        Err(
            RuntimeError {
                kind: RuntimeErrorKind::TypeMismatch { op: k, left: ka, right: kb },
                line: op.line,
            },
        )
    }
}

/// Evaluates an expression against the environment, which assignment
/// expressions mutate; the result is the expression's value or the first
/// runtime fault.
#[verifier::spinoff_prover]
#[verifier::rlimit(100)]
pub fn eval_expr(e: &Expr, env: &mut Environment) -> (r: Result<Object, RuntimeError>)
    ensures
        final(env)@.len() == old(env)@.len(),
        ({
            let o = sp_eval_expr(e@, old(env)@);
            &&& final(env)@ == o.env
            &&& match r {
                Ok(v) => o.res == Ok::<Value, RuntimeErrorV>(v@),
                Err(er) => o.res == Err::<Value, RuntimeErrorV>(er@),
            }
        }),
    decreases e,
{
    proof {
        lemma_eval_env_len(e@, old(env)@);
    }
    match e {
        Expr::Literal(o) => Ok(o.dup()),
        Expr::Grouping(x) => eval_expr(x, env),
        Expr::Unary(t, x) => {
            match eval_expr(x, env) {
                Err(er) => Err(er),
                Ok(v) => {
                    if t.token_type == TokenType::Minus {
                        match v {
                            Object::Num(n) => Ok(Object::Num(sat_neg(n))),
                            _ => Err(
                                RuntimeError {
                                    kind: RuntimeErrorKind::TypeMismatchUnary {
                                        op: t.token_type,
                                        operand: v.kind(),
                                    },
                                    line: t.line,
                                },
                            ),
                        }
                    } else if t.token_type == TokenType::Bang {
                        Ok(Object::Bool(!v.is_true()))
                    } else {
                        Err(
                            RuntimeError {
                                kind: RuntimeErrorKind::TypeMismatchUnary {
                                    op: t.token_type,
                                    operand: v.kind(),
                                },
                                line: t.line,
                            },
                        )
                    }
                },
            }
        },
        Expr::Binary(l, t, r0) => {
            match eval_expr(l, env) {
                Err(er) => Err(er),
                Ok(va) => {
                    match eval_expr(r0, env) {
                        Err(er) => Err(er),
                        Ok(vb) => binary_op(t, va, vb),
                    }
                },
            }
        },
        Expr::Logical(l, t, r0) => {
            match eval_expr(l, env) {
                Err(er) => Err(er),
                Ok(va) => {
                    if t.token_type == TokenType::And {
                        if !va.is_true() {
                            Ok(va)
                        } else {
                            eval_expr(r0, env)
                        }
                    } else {
                        if va.is_true() {
                            Ok(va)
                        } else {
                            eval_expr(r0, env)
                        }
                    }
                },
            }
        },
        Expr::Variable(t) => env.get(t),
        Expr::Assign(t, x) => {
            match eval_expr(x, env) {
                Err(er) => Err(er),
                Ok(v) => {
                    let kept = v.dup();
                    match env.assign(t, v) {
                        Ok(_) => Ok(kept),
                        Err(er) => Err(er),
                    }
                },
            }
        },
    }
}

/// The executable outcome of running statements with a step budget.
#[derive(Debug)]
pub enum StepResult {
    /// Ran to completion.
    Done,
    /// Stopped at a runtime fault; effects up to it remain applied.
    Fault(RuntimeError),
    /// The step budget ran out before the unit finished.
    Spent,
}

/// Executes one statement against the environment and the print sink,
/// with a step budget bounding the depth of nested and repeated work.
#[verifier::spinoff_prover]
#[verifier::rlimit(100)]
pub fn exec_stmt(s: &Stmt, env: &mut Environment, out: &mut Vec<u8>, fuel: u64) -> (r: StepResult)
    requires
        old(env)@.len() >= 1,
    ensures
        final(env)@.len() == old(env)@.len(),
        ({
            let o = sp_exec_stmt(s@, RunState { env: old(env)@, out: old(out)@ }, fuel as nat);
            match r {
                StepResult::Done => o == StepOut::Done(
                    RunState { env: final(env)@, out: final(out)@ },
                ),
                StepResult::Fault(er) => o == StepOut::Fault(
                    RunState { env: final(env)@, out: final(out)@ },
                    er@,
                ),
                StepResult::Spent => o is Spent,
            }
        }),
    decreases fuel, 1int,
{
    let ghost st0 = RunState { env: env@, out: out@ };
    if fuel == 0 {
        return StepResult::Spent;
    }
    match s {
        Stmt::ExprStmt(e) => {
            match eval_expr(e, env) {
                Ok(_) => {
                    proof {
                        assert(sp_exec_stmt(s@, st0, fuel as nat) == StepOut::Done(
                            RunState { env: env@, out: out@ },
                        ));
                    }
                    StepResult::Done
                },
                Err(er) => {
                    proof {
                        assert(sp_exec_stmt(s@, st0, fuel as nat) == StepOut::Fault(
                            RunState { env: env@, out: out@ },
                            er@,
                        ));
                    }
                    StepResult::Fault(er)
                },
            }
        },
        Stmt::PrintStmt(e) => {
            match eval_expr(e, env) {
                Err(er) => {
                    proof {
                        assert(sp_exec_stmt(s@, st0, fuel as nat) == StepOut::Fault(
                            RunState { env: env@, out: out@ },
                            er@,
                        ));
                    }
                    StepResult::Fault(er)
                },
                Ok(v) => {
                    let ghost vv = v@;
                    let d = v.to_string();
                    push_all(out, &d);
                    out.push(B_NL);
                    proof {
                        assert(out@ =~= st0.out + display(vv) + seq![B_NL]);
                        assert(sp_exec_stmt(s@, st0, fuel as nat) == StepOut::Done(
                            RunState { env: env@, out: out@ },
                        ));
                    }
                    StepResult::Done
                },
            }
        },
        Stmt::VarStmt(t, init) => {
            let value: Object = match init {
                Some(e) => {
                    match eval_expr(e, env) {
                        Err(er) => {
                            proof {
                                assert(sp_exec_stmt(s@, st0, fuel as nat) == StepOut::Fault(
                                    RunState { env: env@, out: out@ },
                                    er@,
                                ));
                            }
                            return StepResult::Fault(er);
                        },
                        Ok(v) => v,
                    }
                },
                None => Object::Null,
            };
            env.define(&t.lexeme, value);
            proof {
                assert(sp_exec_stmt(s@, st0, fuel as nat) == StepOut::Done(
                    RunState { env: env@, out: out@ },
                ));
            }
            StepResult::Done
        },
        Stmt::BlockStmt(ss) => {
            env.push_scope();
            let r = exec_stmts(ss, env, out, fuel - 1);
            let ghost inner_env = env@;
            env.pop_scope();
            match r {
                StepResult::Done => {
                    proof {
                        assert(env@ == inner_env.drop_last());
                        assert(sp_exec_stmt(s@, st0, fuel as nat) == StepOut::Done(
                            RunState { env: env@, out: out@ },
                        ));
                    }
                    StepResult::Done
                },
                StepResult::Fault(er) => {
                    proof {
                        assert(sp_exec_stmt(s@, st0, fuel as nat) == StepOut::Fault(
                            RunState { env: env@, out: out@ },
                            er@,
                        ));
                    }
                    StepResult::Fault(er)
                },
                StepResult::Spent => {
                    proof {
                        assert(sp_exec_stmt(s@, st0, fuel as nat) is Spent);
                    }
                    StepResult::Spent
                },
            }
        },
        Stmt::IfStmt(c, th, el) => {
            match eval_expr(c, env) {
                Err(er) => {
                    proof {
                        assert(sp_exec_stmt(s@, st0, fuel as nat) == StepOut::Fault(
                            RunState { env: env@, out: out@ },
                            er@,
                        ));
                    }
                    StepResult::Fault(er)
                },
                Ok(v) => {
                    if v.is_true() {
                        proof {
                            assert(sp_exec_stmt(s@, st0, fuel as nat) == sp_exec_stmt(
                                stmt_view(**th),
                                RunState { env: env@, out: out@ },
                                (fuel - 1) as nat,
                            ));
                        }
                        exec_stmt(th, env, out, fuel - 1)
                    } else {
                        match el {
                            Some(b) => {
                                proof {
                                    assert(sp_exec_stmt(s@, st0, fuel as nat) == sp_exec_stmt(
                                        stmt_view(**b),
                                        RunState { env: env@, out: out@ },
                                        (fuel - 1) as nat,
                                    ));
                                }
                                exec_stmt(b, env, out, fuel - 1)
                            },
                            None => {
                                proof {
                                    assert(sp_exec_stmt(s@, st0, fuel as nat) == StepOut::Done(
                                        RunState { env: env@, out: out@ },
                                    ));
                                }
                                StepResult::Done
                            },
                        }
                    }
                },
            }
        },
        Stmt::WhileStmt(c, b) => {
            let mut f = fuel;
            loop
                invariant
                    1 <= f <= fuel,
                    env@.len() == old(env)@.len() >= 1,
                    s@ == StmtV::WhileStmt(c@, Box::new(stmt_view(**b))),
                    st0 == (RunState { env: old(env)@, out: old(out)@ }),
                    sp_exec_stmt(s@, st0, fuel as nat) == sp_exec_stmt(
                        s@,
                        RunState { env: env@, out: out@ },
                        f as nat,
                    ),
                decreases f,
            {
                match eval_expr(c, env) {
                    Err(er) => {
                        proof {
                            assert(sp_exec_stmt(s@, st0, fuel as nat) == StepOut::Fault(
                                RunState { env: env@, out: out@ },
                                er@,
                            ));
                        }
                        return StepResult::Fault(er);
                    },
                    Ok(v) => {
                        if !v.is_true() {
                            proof {
                                assert(sp_exec_stmt(s@, st0, fuel as nat) == StepOut::Done(
                                    RunState { env: env@, out: out@ },
                                ));
                            }
                            return StepResult::Done;
                        }
                        let ghost mid = RunState { env: env@, out: out@ };
                        let rb = exec_stmt(b, env, out, f - 1);
                        match rb {
                            StepResult::Spent => {
                                proof {
                                    assert(sp_exec_stmt(stmt_view(**b), mid, (f - 1) as nat)
                                        is Spent);
                                    assert(sp_exec_stmt(s@, st0, fuel as nat) is Spent);
                                }
                                return StepResult::Spent;
                            },
                            StepResult::Fault(er) => {
                                proof {
                                    assert(sp_exec_stmt(s@, st0, fuel as nat) == StepOut::Fault(
                                        RunState { env: env@, out: out@ },
                                        er@,
                                    ));
                                }
                                return StepResult::Fault(er);
                            },
                            StepResult::Done => {
                                if f == 1 {
                                    proof {
                                        assert(sp_exec_stmt(
                                            s@,
                                            RunState { env: env@, out: out@ },
                                            0,
                                        ) is Spent);
                                    }
                                    return StepResult::Spent;
                                }
                                f = f - 1;
                            },
                        }
                    },
                }
            }
        },
    }
}

/// Executes a statement list in program order, stopping at the first
/// fault or when the step budget runs out.
#[verifier::spinoff_prover]
#[verifier::rlimit(100)]
pub fn exec_stmts(stmts: &Vec<Stmt>, env: &mut Environment, out: &mut Vec<u8>, fuel: u64) -> (r:
    StepResult)
    requires
        old(env)@.len() >= 1,
    ensures
        final(env)@.len() == old(env)@.len(),
        ({
            let o = sp_exec_stmts(
                stmts_view(stmts@),
                RunState { env: old(env)@, out: old(out)@ },
                fuel as nat,
            );
            match r {
                StepResult::Done => o == StepOut::Done(
                    RunState { env: final(env)@, out: final(out)@ },
                ),
                StepResult::Fault(er) => o == StepOut::Fault(
                    RunState { env: final(env)@, out: final(out)@ },
                    er@,
                ),
                StepResult::Spent => o is Spent,
            }
        }),
    decreases fuel, 0int,
{
    let ghost ssv = stmts_view(stmts@);
    let ghost st0 = RunState { env: env@, out: out@ };
    proof {
        lemma_stmts_view(stmts@);
    }
    let mut i: usize = 0;
    let mut f: u64 = fuel;
    proof {
        assert(ssv.skip(0) =~= ssv);
    }
    loop
        invariant
            i <= stmts@.len(),
            f <= fuel,
            fuel - f == i,
            env@.len() == old(env)@.len() >= 1,
            st0 == (RunState { env: old(env)@, out: old(out)@ }),
            ssv == stmts_view(stmts@),
            ssv.len() == stmts@.len(),
            forall|k: int| 0 <= k < stmts@.len() ==> ssv[k] == #[trigger] stmts@[k]@,
            sp_exec_stmts(ssv, st0, fuel as nat) == sp_exec_stmts(
                ssv.skip(i as int),
                RunState { env: env@, out: out@ },
                f as nat,
            ),
        decreases f,
    {
        if f == 0 {
            return StepResult::Spent;
        }
        if i == stmts.len() {
            proof {
                assert(ssv.skip(i as int) =~= Seq::<StmtV>::empty());
            }
            return StepResult::Done;
        }
        let r = exec_stmt(&stmts[i], env, out, f - 1);
        proof {
            assert(ssv.skip(i as int)[0] == ssv[i as int]);
        }
        match r {
            StepResult::Spent => {
                return StepResult::Spent;
            },
            StepResult::Fault(er) => {
                return StepResult::Fault(er);
            },
            StepResult::Done => {
                proof {
                    assert(ssv.skip(i as int).drop_first() =~= ssv.skip(i as int + 1));
                }
                i = i + 1;
                f = f - 1;
            },
        }
    }
}

} // verus!
