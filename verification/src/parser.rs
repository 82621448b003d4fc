//! The parser: consumes the token sequence by recursive descent and builds
//! a statement list, with panic-mode recovery at statement boundaries.
//!
//! The grammar, highest to lowest precedence:
//! `unary (!, -) -> factor (*, /) -> term (+, -) -> comparison (>, >=, <,
//! <=) -> equality (==, !=) -> logic_and (and) -> logic_or (or) ->
//! assignment (=, right-associative) -> expression`.  Each binary tier
//! folds left-associatively.  `for` desugars at parse time into `while`
//! plus blocks; it is the single desugaring rule in the grammar.
//!
//! The mathematical model is the family of `sp_*` functions below: a
//! recursive-descent parser over token views.  Each executable expression
//! method is proved to compute exactly its spec counterpart; the statement
//! grammar and panic-mode recovery are stated by the remaining spec
//! functions.  The spec functions
//! guard their recursion with [`padv`], which clamps a sub-parse's
//! reported position back into range; the executable parser is proved to
//! land exactly on the clamped positions, so the clamp never actually
//! moves a position.

use vstd::prelude::*;
use crate::error::{ParseError, ParseIssue, ParseIssueKind, ParseIssueV};
use crate::expr::{Expr, ExprV};
use crate::scanner::toks_view;
use crate::stmt::{Stmt, StmtV, stmts_view, lemma_stmts_view_push};
use crate::token::{Object, Token, TokenType, TokenV, Value};

verus! {

/// The token at position `p`, or a synthetic end-of-input token when `p`
/// is out of range.
pub open spec fn at(toks: Seq<TokenV>, p: int) -> TokenV {
    if 0 <= p < toks.len() {
        toks[p]
    } else {
        TokenV { kind: TokenType::Eof, lexeme: Seq::empty(), literal: Value::Null, line: 0 }
    }
}

/// The token category at position `p`.
pub open spec fn pk(toks: Seq<TokenV>, p: int) -> TokenType {
    at(toks, p).kind
}

/// Whether parsing is finished at `p`.
pub open spec fn at_end(toks: Seq<TokenV>, p: int) -> bool {
    pk(toks, p) == TokenType::Eof
}

/// A parse fault of kind `k` blaming the token at `p`.
pub open spec fn sp_issue(toks: Seq<TokenV>, p: int, k: ParseIssueKind) -> ParseIssueV {
    ParseIssueV {
        kind: k,
        line: at(toks, p).line,
        lexeme: at(toks, p).lexeme,
        token_type: at(toks, p).kind,
    }
}

/// Clamps a sub-parse's reported position into `[lo, len]`, keeping the
/// spec functions' recursion plainly well-founded.
pub open spec fn padv(len: int, lo: int, p: int) -> int {
    if p < lo {
        if lo > len {
            len
        } else {
            lo
        }
    } else if p > len {
        len
    } else {
        p
    }
}

/// Tokens remaining at `pos`: the well-founded measure of the descent.
pub open spec fn rem(len: int, pos: int) -> int {
    if pos > len {
        0
    } else {
        len - pos
    }
}

/// The outcome of parsing one expression: the result and the position
/// where parsing resumed.
pub ghost struct PRes {
    pub res: Result<ExprV, ParseIssueV>,
    pub pos: int,
}

/// The outcome of parsing one statement.
pub ghost struct SRes {
    pub res: Result<StmtV, ParseIssueV>,
    pub pos: int,
}

/// Consuming one required token: succeeds and advances when the category
/// matches, fails in place otherwise.
pub open spec fn sp_consume(toks: Seq<TokenV>, p: int, kind: TokenType) -> (Result<
    TokenV,
    ParseIssueV,
>, int) {
    if pk(toks, p) == kind {
        (Ok(at(toks, p)), p + 1)
    } else {
        (Err(sp_issue(toks, p, ParseIssueKind::Expected(kind))), p)
    }
}

/// primary := `false` | `true` | `null` | number | string | `(`
/// expression `)` | identifier.
pub open spec fn sp_primary(toks: Seq<TokenV>, pos: int) -> PRes
    decreases rem(toks.len() as int, pos), 1int,
{
    let k = pk(toks, pos);
    if k == TokenType::False {
        PRes { res: Ok(ExprV::Literal(Value::Bool(false))), pos: pos + 1 }
    } else if k == TokenType::True {
        PRes { res: Ok(ExprV::Literal(Value::Bool(true))), pos: pos + 1 }
    } else if k == TokenType::Null {
        PRes { res: Ok(ExprV::Literal(Value::Null)), pos: pos + 1 }
    } else if k == TokenType::Number || k == TokenType::StringLit {
        PRes { res: Ok(ExprV::Literal(at(toks, pos).literal)), pos: pos + 1 }
    } else if k == TokenType::LeftParen {
        let inner = sp_expression(toks, pos + 1);
        match inner.res {
            Err(i) => PRes { res: Err(i), pos: inner.pos },
            Ok(e) => {
                let q = padv(toks.len() as int, pos + 2, inner.pos);
                let c = sp_consume(toks, q, TokenType::RightParen);
                match c.0 {
                    Err(i) => PRes { res: Err(i), pos: c.1 },
                    Ok(_) => PRes { res: Ok(ExprV::Grouping(Box::new(e))), pos: c.1 },
                }
            },
        }
    } else if k == TokenType::Identifier {
        PRes { res: Ok(ExprV::Variable(at(toks, pos))), pos: pos + 1 }
    } else {
        PRes { res: Err(sp_issue(toks, pos, ParseIssueKind::ExpectExpression)), pos }
    }
}

/// unary := (`!` | `-`) unary | primary.
pub open spec fn sp_unary(toks: Seq<TokenV>, pos: int) -> PRes
    decreases rem(toks.len() as int, pos), 2int,
{
    let k = pk(toks, pos);
    if k == TokenType::Bang || k == TokenType::Minus {
        let op = at(toks, pos);
        let r = sp_unary(toks, pos + 1);
        match r.res {
            Err(i) => PRes { res: Err(i), pos: r.pos },
            Ok(e) => PRes { res: Ok(ExprV::Unary(op, Box::new(e))), pos: r.pos },
        }
    } else {
        sp_primary(toks, pos)
    }
}

/// The left-associative fold of `factor` over `*` and `/`.
pub open spec fn sp_factor_rest(toks: Seq<TokenV>, pos: int, acc: ExprV) -> PRes
    decreases rem(toks.len() as int, pos), 3int,
{
    let k = pk(toks, pos);
    if k == TokenType::Slash || k == TokenType::Star {
        let op = at(toks, pos);
        let r = sp_unary(toks, pos + 1);
        match r.res {
            Err(i) => PRes { res: Err(i), pos: r.pos },
            Ok(e) => sp_factor_rest(
                toks,
                padv(toks.len() as int, pos + 2, r.pos),
                ExprV::Binary(Box::new(acc), op, Box::new(e)),
            ),
        }
    } else {
        PRes { res: Ok(acc), pos }
    }
}

/// factor := unary ((`*` | `/`) unary)*.
pub open spec fn sp_factor(toks: Seq<TokenV>, pos: int) -> PRes
    decreases rem(toks.len() as int, pos), 4int,
{
    let r = sp_unary(toks, pos);
    match r.res {
        Err(i) => PRes { res: Err(i), pos: r.pos },
        Ok(e) => sp_factor_rest(toks, padv(toks.len() as int, pos, r.pos), e),
    }
}

/// The left-associative fold of `term` over `+` and `-`.
pub open spec fn sp_term_rest(toks: Seq<TokenV>, pos: int, acc: ExprV) -> PRes
    decreases rem(toks.len() as int, pos), 5int,
{
    let k = pk(toks, pos);
    if k == TokenType::Plus || k == TokenType::Minus {
        let op = at(toks, pos);
        let r = sp_factor(toks, pos + 1);
        match r.res {
            Err(i) => PRes { res: Err(i), pos: r.pos },
            Ok(e) => sp_term_rest(
                toks,
                padv(toks.len() as int, pos + 2, r.pos),
                ExprV::Binary(Box::new(acc), op, Box::new(e)),
            ),
        }
    } else {
        PRes { res: Ok(acc), pos }
    }
}

/// term := factor ((`+` | `-`) factor)*.
pub open spec fn sp_term(toks: Seq<TokenV>, pos: int) -> PRes
    decreases rem(toks.len() as int, pos), 6int,
{
    let r = sp_factor(toks, pos);
    match r.res {
        Err(i) => PRes { res: Err(i), pos: r.pos },
        Ok(e) => sp_term_rest(toks, padv(toks.len() as int, pos, r.pos), e),
    }
}

/// The left-associative fold of `comparison` over `>`, `>=`, `<`, `<=`.
pub open spec fn sp_comparison_rest(toks: Seq<TokenV>, pos: int, acc: ExprV) -> PRes
    decreases rem(toks.len() as int, pos), 7int,
{
    let k = pk(toks, pos);
    if k == TokenType::Greater || k == TokenType::GreaterEqual || k == TokenType::Less || k
        == TokenType::LessEqual {
        let op = at(toks, pos);
        let r = sp_term(toks, pos + 1);
        match r.res {
            Err(i) => PRes { res: Err(i), pos: r.pos },
            Ok(e) => sp_comparison_rest(
                toks,
                padv(toks.len() as int, pos + 2, r.pos),
                ExprV::Binary(Box::new(acc), op, Box::new(e)),
            ),
        }
    } else {
        PRes { res: Ok(acc), pos }
    }
}

/// comparison := term ((`>` | `>=` | `<` | `<=`) term)*.
pub open spec fn sp_comparison(toks: Seq<TokenV>, pos: int) -> PRes
    decreases rem(toks.len() as int, pos), 8int,
{
    let r = sp_term(toks, pos);
    match r.res {
        Err(i) => PRes { res: Err(i), pos: r.pos },
        Ok(e) => sp_comparison_rest(toks, padv(toks.len() as int, pos, r.pos), e),
    }
}

/// The left-associative fold of `equality` over `==` and `!=`.
pub open spec fn sp_equality_rest(toks: Seq<TokenV>, pos: int, acc: ExprV) -> PRes
    decreases rem(toks.len() as int, pos), 9int,
{
    let k = pk(toks, pos);
    if k == TokenType::BangEqual || k == TokenType::EqualEqual {
        let op = at(toks, pos);
        let r = sp_comparison(toks, pos + 1);
        match r.res {
            Err(i) => PRes { res: Err(i), pos: r.pos },
            Ok(e) => sp_equality_rest(
                toks,
                padv(toks.len() as int, pos + 2, r.pos),
                ExprV::Binary(Box::new(acc), op, Box::new(e)),
            ),
        }
    } else {
        PRes { res: Ok(acc), pos }
    }
}

/// equality := comparison ((`==` | `!=`) comparison)*.
pub open spec fn sp_equality(toks: Seq<TokenV>, pos: int) -> PRes
    decreases rem(toks.len() as int, pos), 10int,
{
    let r = sp_comparison(toks, pos);
    match r.res {
        Err(i) => PRes { res: Err(i), pos: r.pos },
        Ok(e) => sp_equality_rest(toks, padv(toks.len() as int, pos, r.pos), e),
    }
}

/// The left-associative fold of `logic_and` over `and`.
pub open spec fn sp_and_rest(toks: Seq<TokenV>, pos: int, acc: ExprV) -> PRes
    decreases rem(toks.len() as int, pos), 11int,
{
    if pk(toks, pos) == TokenType::And {
        let op = at(toks, pos);
        let r = sp_equality(toks, pos + 1);
        match r.res {
            Err(i) => PRes { res: Err(i), pos: r.pos },
            Ok(e) => sp_and_rest(
                toks,
                padv(toks.len() as int, pos + 2, r.pos),
                ExprV::Logical(Box::new(acc), op, Box::new(e)),
            ),
        }
    } else {
        PRes { res: Ok(acc), pos }
    }
}

/// logic_and := equality (`and` equality)*.
pub open spec fn sp_logic_and(toks: Seq<TokenV>, pos: int) -> PRes
    decreases rem(toks.len() as int, pos), 12int,
{
    let r = sp_equality(toks, pos);
    match r.res {
        Err(i) => PRes { res: Err(i), pos: r.pos },
        Ok(e) => sp_and_rest(toks, padv(toks.len() as int, pos, r.pos), e),
    }
}

/// The left-associative fold of `logic_or` over `or`.
pub open spec fn sp_or_rest(toks: Seq<TokenV>, pos: int, acc: ExprV) -> PRes
    decreases rem(toks.len() as int, pos), 13int,
{
    if pk(toks, pos) == TokenType::Or {
        let op = at(toks, pos);
        let r = sp_logic_and(toks, pos + 1);
        match r.res {
            Err(i) => PRes { res: Err(i), pos: r.pos },
            Ok(e) => sp_or_rest(
                toks,
                padv(toks.len() as int, pos + 2, r.pos),
                ExprV::Logical(Box::new(acc), op, Box::new(e)),
            ),
        }
    } else {
        PRes { res: Ok(acc), pos }
    }
}

/// logic_or := logic_and (`or` logic_and)*.
pub open spec fn sp_logic_or(toks: Seq<TokenV>, pos: int) -> PRes
    decreases rem(toks.len() as int, pos), 14int,
{
    let r = sp_logic_and(toks, pos);
    match r.res {
        Err(i) => PRes { res: Err(i), pos: r.pos },
        Ok(e) => sp_or_rest(toks, padv(toks.len() as int, pos, r.pos), e),
    }
}

/// The optional `=` tail of an assignment: right-associative, and the
/// already-parsed left side must reduce to a variable, else the fault is
/// an invalid assignment target.
pub open spec fn sp_assign_tail(toks: Seq<TokenV>, pos: int, e: ExprV) -> PRes
    decreases rem(toks.len() as int, pos), 15int,
{
    if pk(toks, pos) == TokenType::Equal {
        let v = sp_assignment(toks, pos + 1);
        match v.res {
            Err(i) => PRes { res: Err(i), pos: v.pos },
            Ok(value) => match e {
                ExprV::Variable(t) => PRes { res: Ok(ExprV::Assign(t, Box::new(value))), pos: v.pos },
                _ => PRes {
                    res: Err(sp_issue(toks, pos, ParseIssueKind::InvalidAssignmentTarget)),
                    pos: v.pos,
                },
            },
        }
    } else {
        PRes { res: Ok(e), pos }
    }
}

/// assignment := logic_or (`=` assignment)?.
pub open spec fn sp_assignment(toks: Seq<TokenV>, pos: int) -> PRes
    decreases rem(toks.len() as int, pos), 16int,
{
    let r = sp_logic_or(toks, pos);
    match r.res {
        Err(i) => PRes { res: Err(i), pos: r.pos },
        Ok(e) => sp_assign_tail(toks, padv(toks.len() as int, pos, r.pos), e),
    }
}

/// expression := assignment.
pub open spec fn sp_expression(toks: Seq<TokenV>, pos: int) -> PRes
    decreases rem(toks.len() as int, pos), 17int,
{
    sp_assignment(toks, pos)
}

/// printStmt := `print` expression `;` (the keyword is already consumed).
pub open spec fn sp_print_stmt(toks: Seq<TokenV>, pos: int) -> SRes
    decreases rem(toks.len() as int, pos), 18int,
{
    let r = sp_expression(toks, pos);
    match r.res {
        Err(i) => SRes { res: Err(i), pos: r.pos },
        Ok(e) => {
            let c = sp_consume(toks, r.pos, TokenType::Semicolon);
            match c.0 {
                Err(i) => SRes { res: Err(i), pos: c.1 },
                Ok(_) => SRes { res: Ok(StmtV::PrintStmt(e)), pos: c.1 },
            }
        },
    }
}

/// exprStmt := expression `;`.
pub open spec fn sp_expr_stmt(toks: Seq<TokenV>, pos: int) -> SRes
    decreases rem(toks.len() as int, pos), 18int,
{
    let r = sp_expression(toks, pos);
    match r.res {
        Err(i) => SRes { res: Err(i), pos: r.pos },
        Ok(e) => {
            let c = sp_consume(toks, r.pos, TokenType::Semicolon);
            match c.0 {
                Err(i) => SRes { res: Err(i), pos: c.1 },
                Ok(_) => SRes { res: Ok(StmtV::ExprStmt(e)), pos: c.1 },
            }
        },
    }
}

/// varDecl := identifier (`=` expression)? `;` (the `var` keyword is
/// already consumed).
pub open spec fn sp_var_decl(toks: Seq<TokenV>, pos: int) -> SRes
    decreases rem(toks.len() as int, pos), 18int,
{
    if pk(toks, pos) != TokenType::Identifier {
        SRes { res: Err(sp_issue(toks, pos, ParseIssueKind::Expected(TokenType::Identifier))), pos }
    } else {
        let name = at(toks, pos);
        if pk(toks, pos + 1) == TokenType::Equal {
            let r = sp_expression(toks, pos + 2);
            match r.res {
                Err(i) => SRes { res: Err(i), pos: r.pos },
                Ok(e) => {
                    let c = sp_consume(toks, r.pos, TokenType::Semicolon);
                    match c.0 {
                        Err(i) => SRes { res: Err(i), pos: c.1 },
                        Ok(_) => SRes { res: Ok(StmtV::VarStmt(name, Some(e))), pos: c.1 },
                    }
                },
            }
        } else {
            let c = sp_consume(toks, pos + 1, TokenType::Semicolon);
            match c.0 {
                Err(i) => SRes { res: Err(i), pos: c.1 },
                Ok(_) => SRes { res: Ok(StmtV::VarStmt(name, None)), pos: c.1 },
            }
        }
    }
}

/// ifStmt := `(` expression `)` statement (`else` statement)?.
pub open spec fn sp_if_stmt(toks: Seq<TokenV>, pos: int) -> SRes
    decreases rem(toks.len() as int, pos), 18int,
{
    let lp = sp_consume(toks, pos, TokenType::LeftParen);
    match lp.0 {
        Err(i) => SRes { res: Err(i), pos: lp.1 },
        Ok(_) => {
            let r = sp_expression(toks, pos + 1);
            match r.res {
                Err(i) => SRes { res: Err(i), pos: r.pos },
                Ok(cond) => {
                    let q = padv(toks.len() as int, pos + 2, r.pos);
                    let rp = sp_consume(toks, q, TokenType::RightParen);
                    match rp.0 {
                        Err(i) => SRes { res: Err(i), pos: rp.1 },
                        Ok(_) => {
                            let t = sp_statement(toks, q + 1);
                            match t.res {
                                Err(i) => SRes { res: Err(i), pos: t.pos },
                                Ok(then_b) => {
                                    let pt = padv(toks.len() as int, q + 2, t.pos);
                                    if pk(toks, pt) == TokenType::Else {
                                        let eb = sp_statement(toks, pt + 1);
                                        match eb.res {
                                            Err(i) => SRes { res: Err(i), pos: eb.pos },
                                            Ok(else_b) => SRes {
                                                res: Ok(
                                                    StmtV::IfStmt(
                                                        cond,
                                                        Box::new(then_b),
                                                        Some(Box::new(else_b)),
                                                    ),
                                                ),
                                                pos: eb.pos,
                                            },
                                        }
                                    } else {
                                        SRes {
                                            res: Ok(StmtV::IfStmt(cond, Box::new(then_b), None)),
                                            pos: pt,
                                        }
                                    }
                                },
                            }
                        },
                    }
                },
            }
        },
    }
}

/// whileStmt := `(` expression `)` statement.
pub open spec fn sp_while_stmt(toks: Seq<TokenV>, pos: int) -> SRes
    decreases rem(toks.len() as int, pos), 18int,
{
    let lp = sp_consume(toks, pos, TokenType::LeftParen);
    match lp.0 {
        Err(i) => SRes { res: Err(i), pos: lp.1 },
        Ok(_) => {
            let r = sp_expression(toks, pos + 1);
            match r.res {
                Err(i) => SRes { res: Err(i), pos: r.pos },
                Ok(cond) => {
                    let q = padv(toks.len() as int, pos + 2, r.pos);
                    let rp = sp_consume(toks, q, TokenType::RightParen);
                    match rp.0 {
                        Err(i) => SRes { res: Err(i), pos: rp.1 },
                        Ok(_) => {
                            let b = sp_statement(toks, q + 1);
                            match b.res {
                                Err(i) => SRes { res: Err(i), pos: b.pos },
                                Ok(body) => SRes {
                                    res: Ok(StmtV::WhileStmt(cond, Box::new(body))),
                                    pos: b.pos,
                                },
                            }
                        },
                    }
                },
            }
        },
    }
}

/// The initializer, condition and increment of a `for` statement.
pub type ForClausesV = (Option<StmtV>, Option<ExprV>, Option<ExprV>);

/// The head of a forStmt: `(` (varDecl | exprStmt | `;`) expression? `;`
/// expression? `)`, yielding the three optional clauses.
pub open spec fn sp_for_clauses(toks: Seq<TokenV>, pos: int) -> (Result<ForClausesV, ParseIssueV>,
    int)
    decreases rem(toks.len() as int, pos), 17int,
{
    let lp = sp_consume(toks, pos, TokenType::LeftParen);
    match lp.0 {
        Err(i) => (Err(i), lp.1),
        Ok(_) => {
            // initializer
            let init_r: (Result<Option<StmtV>, ParseIssueV>, int) = if pk(toks, pos + 1)
                == TokenType::Semicolon {
                (Ok(None), pos + 2)
            } else if pk(toks, pos + 1) == TokenType::Var {
                let r = sp_var_decl(toks, pos + 2);
                match r.res {
                    Err(i) => (Err(i), r.pos),
                    Ok(st) => (Ok(Some(st)), r.pos),
                }
            } else {
                let r = sp_expr_stmt(toks, pos + 1);
                match r.res {
                    Err(i) => (Err(i), r.pos),
                    Ok(st) => (Ok(Some(st)), r.pos),
                }
            };
            match init_r.0 {
                Err(i) => (Err(i), init_r.1),
                Ok(init) => {
                    let pi = padv(toks.len() as int, pos + 2, init_r.1);
                    // condition
                    let cond_r: (Result<Option<ExprV>, ParseIssueV>, int) = if pk(toks, pi)
                        != TokenType::Semicolon {
                        let r = sp_expression(toks, pi);
                        match r.res {
                            Err(i) => (Err(i), r.pos),
                            Ok(e) => (Ok(Some(e)), padv(toks.len() as int, pi + 1, r.pos)),
                        }
                    } else {
                        (Ok(None), pi)
                    };
                    match cond_r.0 {
                        Err(i) => (Err(i), cond_r.1),
                        Ok(cond) => {
                            let c1 = sp_consume(toks, cond_r.1, TokenType::Semicolon);
                            match c1.0 {
                                Err(i) => (Err(i), c1.1),
                                Ok(_) => {
                                    // increment
                                    let incr_r: (Result<Option<ExprV>, ParseIssueV>, int) = if pk(
                                        toks,
                                        c1.1,
                                    ) != TokenType::RightParen {
                                        let r = sp_expression(toks, c1.1);
                                        match r.res {
                                            Err(i) => (Err(i), r.pos),
                                            Ok(e) => (
                                                Ok(Some(e)),
                                                padv(toks.len() as int, c1.1 + 1, r.pos),
                                            ),
                                        }
                                    } else {
                                        (Ok(None), c1.1)
                                    };
                                    match incr_r.0 {
                                        Err(i) => (Err(i), incr_r.1),
                                        Ok(incr) => {
                                            let c2 = sp_consume(
                                                toks,
                                                incr_r.1,
                                                TokenType::RightParen,
                                            );
                                            match c2.0 {
                                                Err(i) => (Err(i), c2.1),
                                                Ok(_) => (Ok((init, cond, incr)), c2.1),
                                            }
                                        },
                                    }
                                },
                            }
                        },
                    }
                },
            }
        },
    }
}

/// forStmt := the clauses, then the body statement, desugared at parse
/// time: the body is wrapped in a block appending the increment when
/// present, that goes under a `while` whose condition defaults to literal
/// `true`, and the whole construct is wrapped again in a block with the
/// initializer when present — so a loop variable declared in the
/// initializer is scoped to the synthetic enclosing block, not re-declared
/// per iteration.
pub open spec fn sp_for_stmt(toks: Seq<TokenV>, pos: int) -> SRes
    decreases rem(toks.len() as int, pos), 18int,
{
    let c = sp_for_clauses(toks, pos);
    match c.0 {
        Err(i) => SRes { res: Err(i), pos: c.1 },
        Ok(t) => {
            let pb = padv(toks.len() as int, pos + 1, c.1);
            let b = sp_statement(toks, pb);
            match b.res {
                Err(i) => SRes { res: Err(i), pos: b.pos },
                Ok(body) => SRes { res: Ok(sp_for_desugar(t.0, t.1, t.2, body)), pos: b.pos },
            }
        },
    }
}

/// The desugaring rule of `for`.
pub open spec fn sp_for_desugar(
    init: Option<StmtV>,
    cond: Option<ExprV>,
    incr: Option<ExprV>,
    body: StmtV,
) -> StmtV {
    let body1 = match incr {
        Some(e) => StmtV::BlockStmt(seq![body, StmtV::ExprStmt(e)]),
        None => body,
    };
    let cond1 = match cond {
        Some(e) => e,
        None => ExprV::Literal(Value::Bool(true)),
    };
    let w = StmtV::WhileStmt(cond1, Box::new(body1));
    match init {
        Some(s) => StmtV::BlockStmt(seq![s, w]),
        None => w,
    }
}

/// The statements of a block, parsed until the closing brace.
pub open spec fn sp_block_rest(toks: Seq<TokenV>, pos: int, acc: Seq<StmtV>) -> SRes
    decreases rem(toks.len() as int, pos), 21int,
{
    if pk(toks, pos) == TokenType::RightBrace {
        SRes { res: Ok(StmtV::BlockStmt(acc)), pos: pos + 1 }
    } else if at_end(toks, pos) {
        SRes {
            res: Err(sp_issue(toks, pos, ParseIssueKind::Expected(TokenType::RightBrace))),
            pos,
        }
    } else {
        let r = sp_declaration(toks, pos);
        match r.res {
            Err(i) => SRes { res: Err(i), pos: r.pos },
            Ok(s) => sp_block_rest(toks, padv(toks.len() as int, pos + 1, r.pos), acc.push(s)),
        }
    }
}

/// block := declaration* `}` (the opening brace is already consumed).
pub open spec fn sp_block(toks: Seq<TokenV>, pos: int) -> SRes
    decreases rem(toks.len() as int, pos), 22int,
{
    sp_block_rest(toks, pos, Seq::empty())
}

/// statement := ifStmt | whileStmt | forStmt | printStmt | block |
/// exprStmt.
pub open spec fn sp_statement(toks: Seq<TokenV>, pos: int) -> SRes
    decreases rem(toks.len() as int, pos), 19int,
{
    let k = pk(toks, pos);
    if k == TokenType::For {
        sp_for_stmt(toks, pos + 1)
    } else if k == TokenType::If {
        sp_if_stmt(toks, pos + 1)
    } else if k == TokenType::Print {
        sp_print_stmt(toks, pos + 1)
    } else if k == TokenType::While {
        sp_while_stmt(toks, pos + 1)
    } else if k == TokenType::LeftBrace {
        sp_block(toks, pos + 1)
    } else {
        sp_expr_stmt(toks, pos)
    }
}

/// declaration := `var` varDecl | statement.
pub open spec fn sp_declaration(toks: Seq<TokenV>, pos: int) -> SRes
    decreases rem(toks.len() as int, pos), 20int,
{
    if pk(toks, pos) == TokenType::Var {
        sp_var_decl(toks, pos + 1)
    } else {
        sp_statement(toks, pos)
    }
}

/// Token categories that begin a new declaration or statement: the
/// boundaries panic-mode recovery resynchronizes at.
pub open spec fn is_boundary(k: TokenType) -> bool {
    k == TokenType::Class || k == TokenType::Fun || k == TokenType::Var || k == TokenType::For || k
        == TokenType::If || k == TokenType::While || k == TokenType::Print || k
        == TokenType::Return
}

/// The scan of panic-mode recovery: stops at end of input, right after a
/// semicolon, or right before a boundary keyword.
pub open spec fn sp_sync_loop(toks: Seq<TokenV>, p: int) -> int
    decreases rem(toks.len() as int, p),
{
    if p >= toks.len() {
        toks.len() as int
    } else if pk(toks, p) == TokenType::Eof {
        p
    } else if pk(toks, p - 1) == TokenType::Semicolon {
        p
    } else if is_boundary(pk(toks, p)) {
        p
    } else {
        sp_sync_loop(toks, p + 1)
    }
}

/// Panic-mode recovery from `pos`: skip the offending token, then scan to
/// the next statement boundary.
pub open spec fn sp_sync(toks: Seq<TokenV>, pos: int) -> int {
    sp_sync_loop(toks, pos + 1)
}

/// The outcome of parsing a whole unit: the successfully built statements
/// and every fault collected along the way.
pub ghost struct ProgOut {
    pub stmts: Seq<StmtV>,
    pub issues: Seq<ParseIssueV>,
}

/// program := declaration* end-of-input, with panic-mode recovery: a
/// failed declaration records its fault, resynchronizes, and parsing
/// resumes, so one malformed statement does not prevent parsing the rest.
#[verifier::opaque]
pub open spec fn sp_program(toks: Seq<TokenV>, pos: int) -> ProgOut
    decreases rem(toks.len() as int, pos),
{
    if at_end(toks, pos) {
        ProgOut { stmts: Seq::empty(), issues: Seq::empty() }
    } else {
        let r = sp_declaration(toks, pos);
        match r.res {
            Ok(s) => {
                let rest = sp_program(toks, padv(toks.len() as int, pos + 1, r.pos));
                ProgOut { stmts: seq![s] + rest.stmts, issues: rest.issues }
            },
            Err(i) => {
                let rest = sp_program(
                    toks,
                    padv(toks.len() as int, pos + 1, sp_sync(toks, r.pos)),
                );
                ProgOut { stmts: rest.stmts, issues: seq![i] + rest.issues }
            },
        }
    }
}

/// The views of an issue list.
pub open spec fn issues_view(s: Seq<ParseIssue>) -> Seq<ParseIssueV> {
    s.map_values(|i: ParseIssue| i@)
}

/// Builds the desugared form of a `for` statement: the body wrapped in a
/// block appending the increment when present, under a `while` whose
/// condition defaults to literal `true`, wrapped again in a block with the
/// initializer when present.
#[verifier::spinoff_prover]
fn build_for_desugar(init: Option<Stmt>, cond: Option<Expr>, incr: Option<Expr>, body: Stmt) -> (r:
    Stmt)
    ensures
        r@ == sp_for_desugar(
            match init {
                Some(s) => Some(s@),
                None => None,
            },
            match cond {
                Some(e) => Some(e@),
                None => None,
            },
            match incr {
                Some(e) => Some(e@),
                None => None,
            },
            body@,
        ),
{
    let ghost bodyv = body@;
    let ghost initv: Option<StmtV> = match &init {
        Some(st) => Some(st@),
        None => None,
    };
    let ghost condv: Option<ExprV> = match &cond {
        Some(e) => Some(e@),
        None => None,
    };
    let ghost incrv: Option<ExprV> = match &incr {
        Some(e) => Some(e@),
        None => None,
    };
    let body1: Stmt = match incr {
        Some(e) => {
            let ghost iv = e@;
            let mut v: Vec<Stmt> = Vec::new();
            v.push(body);
            v.push(Stmt::ExprStmt(e));
            proof {
                assert(v@.len() == 2);
                assert(v@[0]@ == bodyv);
                assert(v@[1]@ == StmtV::ExprStmt(iv));
                crate::stmt::lemma_stmts_view(v@);
                assert(stmts_view(v@) =~= seq![bodyv, StmtV::ExprStmt(iv)]);
            }
            Stmt::BlockStmt(v)
        },
        None => body,
    };
    let ghost body1v = body1@;
    let cond1: Expr = match cond {
        Some(e) => e,
        None => Expr::Literal(Object::Bool(true)),
    };
    let ghost cond1v = cond1@;
    let w = Stmt::WhileStmt(cond1, Box::new(body1));
    let ghost wv = w@;
    let res: Stmt = match init {
        Some(st) => {
            let ghost sv = st@;
            let mut v: Vec<Stmt> = Vec::new();
            v.push(st);
            v.push(w);
            proof {
                assert(v@.len() == 2);
                assert(v@[0]@ == sv);
                assert(v@[1]@ == wv);
                crate::stmt::lemma_stmts_view(v@);
                assert(stmts_view(v@) =~= seq![sv, wv]);
            }
            Stmt::BlockStmt(v)
        },
        None => w,
    };
    proof {
        assert(body1v == (match incrv {
            Some(e) => StmtV::BlockStmt(seq![bodyv, StmtV::ExprStmt(e)]),
            None => bodyv,
        }));
        assert(cond1v == (match condv {
            Some(e) => e,
            None => ExprV::Literal(Value::Bool(true)),
        }));
        assert(wv == StmtV::WhileStmt(cond1v, Box::new(body1v)));
        assert(res@ == (match initv {
            Some(st) => StmtV::BlockStmt(seq![st, wv]),
            None => wv,
        }));
        assert(res@ == sp_for_desugar(initv, condv, incrv, bodyv));
    }
    res
}

/// One successful step of the unit parse: a parsed declaration contributes
/// its statement and parsing resumes where it stopped.
proof fn lemma_program_step_ok(toks: Seq<TokenV>, pos: int, sv: StmtV, p2: int)
    requires
        !at_end(toks, pos),
        sp_declaration(toks, pos).res == Ok::<StmtV, ParseIssueV>(sv),
        sp_declaration(toks, pos).pos == p2,
        pos + 1 <= p2 <= toks.len(),
    ensures
        sp_program(toks, pos).stmts == seq![sv] + sp_program(toks, p2).stmts,
        sp_program(toks, pos).issues == sp_program(toks, p2).issues,
{
    reveal(sp_program);
    assert(padv(toks.len() as int, pos + 1, p2) == p2);
    assert(sp_program(toks, pos).stmts == seq![sv] + sp_program(toks, p2).stmts);
    assert(sp_program(toks, pos).issues == sp_program(toks, p2).issues);
}

/// One failed step of the unit parse: the fault is recorded and parsing
/// resumes at the next statement boundary.
proof fn lemma_program_step_err(toks: Seq<TokenV>, pos: int, iv: ParseIssueV, p2: int)
    requires
        !at_end(toks, pos),
        sp_declaration(toks, pos).res == Err::<StmtV, ParseIssueV>(iv),
        sp_declaration(toks, pos).pos == p2,
        pos <= p2 <= toks.len(),
    ensures
        sp_program(toks, pos).stmts == sp_program(
            toks,
            padv(toks.len() as int, pos + 1, sp_sync(toks, p2)),
        ).stmts,
        sp_program(toks, pos).issues == seq![iv] + sp_program(
            toks,
            padv(toks.len() as int, pos + 1, sp_sync(toks, p2)),
        ).issues,
{
    reveal(sp_program);
    assert(sp_program(toks, pos).stmts == sp_program(
        toks,
        padv(toks.len() as int, pos + 1, sp_sync(toks, p2)),
    ).stmts);
    assert(sp_program(toks, pos).issues == seq![iv] + sp_program(
        toks,
        padv(toks.len() as int, pos + 1, sp_sync(toks, p2)),
    ).issues);
}

/// At the end of input the unit parse yields nothing further.
proof fn lemma_program_end(toks: Seq<TokenV>, pos: int)
    requires
        at_end(toks, pos),
    ensures
        sp_program(toks, pos).stmts == Seq::<StmtV>::empty(),
        sp_program(toks, pos).issues == Seq::<ParseIssueV>::empty(),
{
    reveal(sp_program);
    assert(sp_program(toks, pos).stmts == Seq::<StmtV>::empty());
    assert(sp_program(toks, pos).issues == Seq::<ParseIssueV>::empty());
}

/// Rearranging a pushed element as a singleton concatenation.
proof fn lemma_push_assoc_stmt(a: Seq<StmtV>, x: StmtV, b: Seq<StmtV>)
    ensures
        a.push(x) + b == a + (seq![x] + b),
{
    assert(a.push(x) + b =~= a + (seq![x] + b));
}

/// Rearranging a pushed fault as a singleton concatenation.
proof fn lemma_push_assoc_issue(a: Seq<ParseIssueV>, x: ParseIssueV, b: Seq<ParseIssueV>)
    ensures
        a.push(x) + b == a + (seq![x] + b),
{
    assert(a.push(x) + b =~= a + (seq![x] + b));
}

/// Pushing one fault extends the view list by its view.
proof fn lemma_issues_view_push(s: Seq<ParseIssue>, i: ParseIssue)
    ensures
        issues_view(s.push(i)) == issues_view(s).push(i@),
{
    assert(issues_view(s.push(i)) =~= issues_view(s).push(i@));
}

/// The parser: holds the token sequence and the position of the token
/// currently being considered, and collects parse faults.
pub struct Parser {
    /// The tokens of the unit, as the scanner produced them.
    pub tokens: Vec<Token>,
    /// The position of the token currently being considered.
    pub current: usize,
    /// The parse faults recorded so far.
    pub error: ParseError,
}

impl Parser {
    /// The views of the parser's tokens.
    pub open spec fn toks(&self) -> Seq<TokenV> {
        toks_view(self.tokens@)
    }

    /// A parser at the beginning of `tokens`, with no faults recorded.
    pub fn new(tokens: Vec<Token>) -> (p: Parser)
        ensures
            p.tokens@ == tokens@,
            p.current == 0,
            !p.error.had_err,
            p.error.issues@ == Seq::<ParseIssue>::empty(),
    {
        Parser { tokens, current: 0, error: ParseError::new(false) }
    }

    /// The category of the token being considered (end-of-input when past
    /// the end).
    fn peek_kind(&self) -> (k: TokenType)
        ensures
            k == pk(self.toks(), self.current as int),
    {
        if self.current < self.tokens.len() {
            proof {
                assert(self.toks()[self.current as int] == self.tokens@[self.current as int]@);
            }
            self.tokens[self.current].token_type
        } else {
            TokenType::Eof
        }
    }

    /// A copy of the token being considered (a synthetic end-of-input
    /// token when past the end).
    fn peek_tok(&self) -> (t: Token)
        ensures
            t@ == at(self.toks(), self.current as int),
    {
        if self.current < self.tokens.len() {
            proof {
                assert(self.toks()[self.current as int] == self.tokens@[self.current as int]@);
            }
            self.tokens[self.current].dup()
        } else {
            let t = Token::new(TokenType::Eof, Vec::new(), Object::Null, 0);
            proof {
                assert(t@ =~~= at(self.toks(), self.current as int));
            }
            t
        }
    }

    /// Whether parsing is finished.
    fn is_at_end(&self) -> (r: bool)
        ensures
            r == at_end(self.toks(), self.current as int),
    {
        self.peek_kind() == TokenType::Eof
    }

    /// A parse fault of kind `k` blaming the token being considered.
    fn make_issue(&self, k: ParseIssueKind) -> (r: ParseIssue)
        ensures
            r@ == sp_issue(self.toks(), self.current as int, k),
    {
        let t = self.peek_tok();
        let r = ParseIssue { kind: k, line: t.line, lexeme: t.lexeme, token_type: t.token_type };
        proof {
            assert(r@ =~~= sp_issue(self.toks(), self.current as int, k));
        }
        r
    }

    /// Requires the token being considered to be of category `kind`:
    /// consumes and returns it, or fails in place.
    fn consume(&mut self, kind: TokenType) -> (r: Result<Token, ParseIssue>)
        requires
            old(self).current <= old(self).tokens@.len(),
            kind != TokenType::Eof,
        ensures
            final(self).tokens == old(self).tokens,
            final(self).error == old(self).error,
            old(self).current <= final(self).current <= old(self).tokens@.len(),
            ({
                let c = sp_consume(old(self).toks(), old(self).current as int, kind);
                &&& final(self).current as int == c.1
                &&& match r {
                    Ok(t) => c.0 == Ok::<TokenV, ParseIssueV>(t@),
                    Err(i) => c.0 == Err::<TokenV, ParseIssueV>(i@),
                }
            }),
    {
        proof {
            assert(self.toks().len() == self.tokens.len());
        }
        let k = self.peek_kind();
        if k == kind {
            let t = self.peek_tok();
            self.current = self.current + 1;
            Ok(t)
        } else {
            Err(self.make_issue(ParseIssueKind::Expected(kind)))
        }
    }

    /// primary := `false` | `true` | `null` | number | string | `(`
    /// expression `)` | identifier.
    #[verifier::spinoff_prover]
    #[verifier::rlimit(100)]
    fn primary(&mut self) -> (r: Result<Expr, ParseIssue>)
        requires
            old(self).current <= old(self).tokens@.len(),
        ensures
            final(self).tokens == old(self).tokens,
            final(self).error == old(self).error,
            old(self).current <= final(self).current <= old(self).tokens@.len(),
            r matches Ok(_) ==> old(self).current < final(self).current,
            ({
                let s = sp_primary(old(self).toks(), old(self).current as int);
                &&& final(self).current as int == s.pos
                &&& match r {
                    Ok(e) => s.res == Ok::<ExprV, ParseIssueV>(e@),
                    Err(i) => s.res == Err::<ExprV, ParseIssueV>(i@),
                }
            }),
        decreases old(self).tokens@.len() - old(self).current, 1int,
    {
        let ghost toks = self.toks();
        let ghost pos0 = self.current as int;
        proof {
            assert(toks.len() == self.tokens.len());
        }
        let k = self.peek_kind();
        if k == TokenType::False {
            self.current = self.current + 1;
            let res = Expr::Literal(Object::Bool(false));
            proof {
                assert(sp_primary(toks, pos0) == (PRes {
                    res: Ok::<ExprV, ParseIssueV>(res@),
                    pos: pos0 + 1,
                }));
            }
            Ok(res)
        } else if k == TokenType::True {
            self.current = self.current + 1;
            let res = Expr::Literal(Object::Bool(true));
            proof {
                assert(sp_primary(toks, pos0) == (PRes {
                    res: Ok::<ExprV, ParseIssueV>(res@),
                    pos: pos0 + 1,
                }));
            }
            Ok(res)
        } else if k == TokenType::Null {
            self.current = self.current + 1;
            let res = Expr::Literal(Object::Null);
            proof {
                assert(sp_primary(toks, pos0) == (PRes {
                    res: Ok::<ExprV, ParseIssueV>(res@),
                    pos: pos0 + 1,
                }));
            }
            Ok(res)
        } else if k == TokenType::Number || k == TokenType::StringLit {
            let t = self.peek_tok();
            let ghost tv = t@;
            self.current = self.current + 1;
            let res = Expr::Literal(t.literal);
            proof {
                assert(res@ == ExprV::Literal(tv.literal));
                assert(sp_primary(toks, pos0) == (PRes {
                    res: Ok::<ExprV, ParseIssueV>(res@),
                    pos: pos0 + 1,
                }));
            }
            Ok(res)
        } else if k == TokenType::LeftParen {
            self.current = self.current + 1;
            match self.expression() {
                Err(i) => {
                    proof {
                        assert(toks_view(self.tokens@) == toks);
                        assert(sp_expression(toks, pos0 + 1).res == Err::<ExprV, ParseIssueV>(i@));
                        assert(sp_primary(toks, pos0) == (PRes {
                            res: Err::<ExprV, ParseIssueV>(i@),
                            pos: self.current as int,
                        }));
                    }
                    Err(i)
                },
                Ok(e) => {
                    let ghost ev = e@;
                    let ghost cur2 = self.current as int;
                    proof {
                        assert(toks_view(self.tokens@) == toks);
                        assert(sp_expression(toks, pos0 + 1).pos == cur2);
                        assert(sp_expression(toks, pos0 + 1).res == Ok::<ExprV, ParseIssueV>(ev));
                        assert(padv(toks.len() as int, pos0 + 2, cur2) == cur2);
                    }
                    match self.consume(TokenType::RightParen) {
                        Err(i) => {
                            proof {
                                assert(toks_view(self.tokens@) == toks);
                                assert(sp_primary(toks, pos0) == (PRes {
                                    res: Err::<ExprV, ParseIssueV>(i@),
                                    pos: self.current as int,
                                }));
                            }
                            Err(i)
                        },
                        Ok(_) => {
                            let res = Expr::Grouping(Box::new(e));
                            proof {
                                assert(toks_view(self.tokens@) == toks);
                                assert(res@ == ExprV::Grouping(Box::new(ev)));
                                assert(sp_primary(toks, pos0) == (PRes {
                                    res: Ok::<ExprV, ParseIssueV>(res@),
                                    pos: self.current as int,
                                }));
                            }
                            Ok(res)
                        },
                    }
                },
            }
        } else if k == TokenType::Identifier {
            let t = self.peek_tok();
            let ghost tv = t@;
            self.current = self.current + 1;
            let res = Expr::Variable(t);
            proof {
                assert(res@ == ExprV::Variable(tv));
                assert(sp_primary(toks, pos0) == (PRes {
                    res: Ok::<ExprV, ParseIssueV>(res@),
                    pos: pos0 + 1,
                }));
            }
            Ok(res)
        } else {
            let i = self.make_issue(ParseIssueKind::ExpectExpression);
            proof {
                assert(sp_primary(toks, pos0) == (PRes {
                    res: Err::<ExprV, ParseIssueV>(i@),
                    pos: pos0,
                }));
            }
            Err(i)
        }
    }

    /// unary := (`!` | `-`) unary | primary.
    #[verifier::spinoff_prover]
    #[verifier::rlimit(100)]
    fn unary(&mut self) -> (r: Result<Expr, ParseIssue>)
        requires
            old(self).current <= old(self).tokens@.len(),
        ensures
            final(self).tokens == old(self).tokens,
            final(self).error == old(self).error,
            old(self).current <= final(self).current <= old(self).tokens@.len(),
            r matches Ok(_) ==> old(self).current < final(self).current,
            ({
                let s = sp_unary(old(self).toks(), old(self).current as int);
                &&& final(self).current as int == s.pos
                &&& match r {
                    Ok(e) => s.res == Ok::<ExprV, ParseIssueV>(e@),
                    Err(i) => s.res == Err::<ExprV, ParseIssueV>(i@),
                }
            }),
        decreases old(self).tokens@.len() - old(self).current, 2int,
    {
        let ghost toks = self.toks();
        let ghost pos0 = self.current as int;
        proof {
            assert(toks.len() == self.tokens.len());
        }
        let k = self.peek_kind();
        if k == TokenType::Bang || k == TokenType::Minus {
            let op = self.peek_tok();
            let ghost opv = op@;
            self.current = self.current + 1;
            match self.unary() {
                Err(i) => {
                    proof {
                        assert(toks_view(self.tokens@) == toks);
                        assert(sp_unary(toks, pos0 + 1).res == Err::<ExprV, ParseIssueV>(i@));
                        assert(sp_unary(toks, pos0) == (PRes {
                            res: Err::<ExprV, ParseIssueV>(i@),
                            pos: self.current as int,
                        }));
                    }
                    Err(i)
                },
                Ok(e) => {
                    let ghost ev = e@;
                    let res = Expr::Unary(op, Box::new(e));
                    proof {
                        assert(toks_view(self.tokens@) == toks);
                        assert(sp_unary(toks, pos0 + 1).res == Ok::<ExprV, ParseIssueV>(ev));
                        assert(res@ == ExprV::Unary(opv, Box::new(ev)));
                        assert(sp_unary(toks, pos0) == (PRes {
                            res: Ok::<ExprV, ParseIssueV>(res@),
                            pos: self.current as int,
                        }));
                    }
                    Ok(res)
                },
            }
        } else {
            proof {
                assert(sp_unary(toks, pos0) == sp_primary(toks, pos0));
            }
            self.primary()
        }
    }

    /// The left-associative fold of `factor` over `*` and `/`.
    #[verifier::spinoff_prover]
    #[verifier::rlimit(100)]
    fn factor_rest(&mut self, acc: Expr) -> (r: Result<Expr, ParseIssue>)
        requires
            old(self).current <= old(self).tokens@.len(),
        ensures
            final(self).tokens == old(self).tokens,
            final(self).error == old(self).error,
            old(self).current <= final(self).current <= old(self).tokens@.len(),
            ({
                let s = sp_factor_rest(old(self).toks(), old(self).current as int, acc@);
                &&& final(self).current as int == s.pos
                &&& match r {
                    Ok(e) => s.res == Ok::<ExprV, ParseIssueV>(e@),
                    Err(i) => s.res == Err::<ExprV, ParseIssueV>(i@),
                }
            }),
        decreases old(self).tokens@.len() - old(self).current, 3int,
    {
        let ghost toks = self.toks();
        let ghost pos0 = self.current as int;
        let ghost accv = acc@;
        proof {
            assert(toks.len() == self.tokens.len());
        }
        let k = self.peek_kind();
        if k == TokenType::Slash || k == TokenType::Star {
            let op = self.peek_tok();
            let ghost opv = op@;
            self.current = self.current + 1;
            match self.unary() {
                Err(i) => {
                    proof {
                        assert(toks_view(self.tokens@) == toks);
                        assert(sp_unary(toks, pos0 + 1).res == Err::<ExprV, ParseIssueV>(i@));
                        assert(sp_unary(toks, pos0 + 1).pos == self.current as int);
                        assert(sp_factor_rest(toks, pos0, accv).res == Err::<ExprV, ParseIssueV>(
                            i@,
                        ));
                        assert(sp_factor_rest(toks, pos0, accv).pos == self.current as int);
                    }
                    Err(i)
                },
                Ok(e) => {
                    let ghost ev = e@;
                    let ghost cur2 = self.current as int;
                    let newe = Expr::Binary(Box::new(acc), op, Box::new(e));
                    proof {
                        assert(toks_view(self.tokens@) == toks);
                        assert(sp_unary(toks, pos0 + 1).pos == cur2);
                        assert(sp_unary(toks, pos0 + 1).res == Ok::<ExprV, ParseIssueV>(ev));
                        assert(newe@ == ExprV::Binary(Box::new(accv), opv, Box::new(ev)));
                        assert(padv(toks.len() as int, pos0 + 2, cur2) == cur2);
                        assert(sp_factor_rest(toks, pos0, accv) == sp_factor_rest(toks, cur2, newe@));
                    }
                    self.factor_rest(newe)
                },
            }
        } else {
            proof {
                assert(sp_factor_rest(toks, pos0, accv) == (PRes {
                    res: Ok::<ExprV, ParseIssueV>(accv),
                    pos: pos0,
                }));
            }
            Ok(acc)
        }
    }

    /// factor := unary ((`*` | `/`) unary)*.
    #[verifier::spinoff_prover]
    #[verifier::rlimit(100)]
    fn factor(&mut self) -> (r: Result<Expr, ParseIssue>)
        requires
            old(self).current <= old(self).tokens@.len(),
        ensures
            final(self).tokens == old(self).tokens,
            final(self).error == old(self).error,
            old(self).current <= final(self).current <= old(self).tokens@.len(),
            r matches Ok(_) ==> old(self).current < final(self).current,
            ({
                let s = sp_factor(old(self).toks(), old(self).current as int);
                &&& final(self).current as int == s.pos
                &&& match r {
                    Ok(e) => s.res == Ok::<ExprV, ParseIssueV>(e@),
                    Err(i) => s.res == Err::<ExprV, ParseIssueV>(i@),
                }
            }),
        decreases old(self).tokens@.len() - old(self).current, 4int,
    {
        let ghost toks = self.toks();
        let ghost pos0 = self.current as int;
        proof {
            assert(toks.len() == self.tokens.len());
        }
        match self.unary() {
            Err(i) => {
                proof {
                    assert(toks_view(self.tokens@) == toks);
                    assert(sp_factor(toks, pos0) == (PRes {
                        res: Err::<ExprV, ParseIssueV>(i@),
                        pos: self.current as int,
                    }));
                }
                Err(i)
            },
            Ok(e) => {
                let ghost ev = e@;
                let ghost cur2 = self.current as int;
                proof {
                    assert(toks_view(self.tokens@) == toks);
                    assert(sp_unary(toks, pos0).pos == cur2);
                    assert(sp_unary(toks, pos0).res == Ok::<ExprV, ParseIssueV>(ev));
                    assert(padv(toks.len() as int, pos0, cur2) == cur2);
                    assert(sp_factor(toks, pos0) == sp_factor_rest(toks, cur2, ev));
                }
                self.factor_rest(e)
            },
        }
    }

    /// The left-associative fold of `term` over `+` and `-`.
    #[verifier::spinoff_prover]
    #[verifier::rlimit(100)]
    fn term_rest(&mut self, acc: Expr) -> (r: Result<Expr, ParseIssue>)
        requires
            old(self).current <= old(self).tokens@.len(),
        ensures
            final(self).tokens == old(self).tokens,
            final(self).error == old(self).error,
            old(self).current <= final(self).current <= old(self).tokens@.len(),
            ({
                let s = sp_term_rest(old(self).toks(), old(self).current as int, acc@);
                &&& final(self).current as int == s.pos
                &&& match r {
                    Ok(e) => s.res == Ok::<ExprV, ParseIssueV>(e@),
                    Err(i) => s.res == Err::<ExprV, ParseIssueV>(i@),
                }
            }),
        decreases old(self).tokens@.len() - old(self).current, 5int,
    {
        let ghost toks = self.toks();
        let ghost pos0 = self.current as int;
        let ghost accv = acc@;
        proof {
            assert(toks.len() == self.tokens.len());
        }
        let k = self.peek_kind();
        if k == TokenType::Plus || k == TokenType::Minus {
            let op = self.peek_tok();
            let ghost opv = op@;
            self.current = self.current + 1;
            match self.factor() {
                Err(i) => {
                    proof {
                        assert(toks_view(self.tokens@) == toks);
                        assert(sp_factor(toks, pos0 + 1).res == Err::<ExprV, ParseIssueV>(i@));
                        assert(sp_term_rest(toks, pos0, accv) == (PRes {
                            res: Err::<ExprV, ParseIssueV>(i@),
                            pos: self.current as int,
                        }));
                    }
                    Err(i)
                },
                Ok(e) => {
                    let ghost ev = e@;
                    let ghost cur2 = self.current as int;
                    let newe = Expr::Binary(Box::new(acc), op, Box::new(e));
                    proof {
                        assert(toks_view(self.tokens@) == toks);
                        assert(sp_factor(toks, pos0 + 1).pos == cur2);
                        assert(sp_factor(toks, pos0 + 1).res == Ok::<ExprV, ParseIssueV>(ev));
                        assert(newe@ == ExprV::Binary(Box::new(accv), opv, Box::new(ev)));
                        assert(padv(toks.len() as int, pos0 + 2, cur2) == cur2);
                        assert(sp_term_rest(toks, pos0, accv) == sp_term_rest(toks, cur2, newe@));
                    }
                    self.term_rest(newe)
                },
            }
        } else {
            proof {
                assert(sp_term_rest(toks, pos0, accv) == (PRes {
                    res: Ok::<ExprV, ParseIssueV>(accv),
                    pos: pos0,
                }));
            }
            Ok(acc)
        }
    }

    /// term := factor ((`+` | `-`) factor)*.
    #[verifier::spinoff_prover]
    #[verifier::rlimit(100)]
    fn term(&mut self) -> (r: Result<Expr, ParseIssue>)
        requires
            old(self).current <= old(self).tokens@.len(),
        ensures
            final(self).tokens == old(self).tokens,
            final(self).error == old(self).error,
            old(self).current <= final(self).current <= old(self).tokens@.len(),
            r matches Ok(_) ==> old(self).current < final(self).current,
            ({
                let s = sp_term(old(self).toks(), old(self).current as int);
                &&& final(self).current as int == s.pos
                &&& match r {
                    Ok(e) => s.res == Ok::<ExprV, ParseIssueV>(e@),
                    Err(i) => s.res == Err::<ExprV, ParseIssueV>(i@),
                }
            }),
        decreases old(self).tokens@.len() - old(self).current, 6int,
    {
        let ghost toks = self.toks();
        let ghost pos0 = self.current as int;
        proof {
            assert(toks.len() == self.tokens.len());
        }
        match self.factor() {
            Err(i) => {
                proof {
                    assert(toks_view(self.tokens@) == toks);
                    assert(sp_term(toks, pos0) == (PRes {
                        res: Err::<ExprV, ParseIssueV>(i@),
                        pos: self.current as int,
                    }));
                }
                Err(i)
            },
            Ok(e) => {
                let ghost ev = e@;
                let ghost cur2 = self.current as int;
                proof {
                    assert(toks_view(self.tokens@) == toks);
                    assert(sp_factor(toks, pos0).pos == cur2);
                    assert(sp_factor(toks, pos0).res == Ok::<ExprV, ParseIssueV>(ev));
                    assert(padv(toks.len() as int, pos0, cur2) == cur2);
                    assert(sp_term(toks, pos0) == sp_term_rest(toks, cur2, ev));
                }
                self.term_rest(e)
            },
        }
    }

    /// The left-associative fold of `comparison` over `>`, `>=`, `<`, `<=`.
    #[verifier::spinoff_prover]
    #[verifier::rlimit(100)]
    fn comparison_rest(&mut self, acc: Expr) -> (r: Result<Expr, ParseIssue>)
        requires
            old(self).current <= old(self).tokens@.len(),
        ensures
            final(self).tokens == old(self).tokens,
            final(self).error == old(self).error,
            old(self).current <= final(self).current <= old(self).tokens@.len(),
            ({
                let s = sp_comparison_rest(old(self).toks(), old(self).current as int, acc@);
                &&& final(self).current as int == s.pos
                &&& match r {
                    Ok(e) => s.res == Ok::<ExprV, ParseIssueV>(e@),
                    Err(i) => s.res == Err::<ExprV, ParseIssueV>(i@),
                }
            }),
        decreases old(self).tokens@.len() - old(self).current, 7int,
    {
        let ghost toks = self.toks();
        let ghost pos0 = self.current as int;
        let ghost accv = acc@;
        proof {
            assert(toks.len() == self.tokens.len());
        }
        let k = self.peek_kind();
        if k == TokenType::Greater || k == TokenType::GreaterEqual || k == TokenType::Less || k == TokenType::LessEqual {
            let op = self.peek_tok();
            let ghost opv = op@;
            self.current = self.current + 1;
            match self.term() {
                Err(i) => {
                    proof {
                        assert(toks_view(self.tokens@) == toks);
                        assert(sp_term(toks, pos0 + 1).res == Err::<ExprV, ParseIssueV>(i@));
                        assert(sp_comparison_rest(toks, pos0, accv) == (PRes {
                            res: Err::<ExprV, ParseIssueV>(i@),
                            pos: self.current as int,
                        }));
                    }
                    Err(i)
                },
                Ok(e) => {
                    let ghost ev = e@;
                    let ghost cur2 = self.current as int;
                    let newe = Expr::Binary(Box::new(acc), op, Box::new(e));
                    proof {
                        assert(toks_view(self.tokens@) == toks);
                        assert(sp_term(toks, pos0 + 1).pos == cur2);
                        assert(sp_term(toks, pos0 + 1).res == Ok::<ExprV, ParseIssueV>(ev));
                        assert(newe@ == ExprV::Binary(Box::new(accv), opv, Box::new(ev)));
                        assert(padv(toks.len() as int, pos0 + 2, cur2) == cur2);
                        assert(sp_comparison_rest(toks, pos0, accv) == sp_comparison_rest(toks, cur2, newe@));
                    }
                    self.comparison_rest(newe)
                },
            }
        } else {
            proof {
                assert(sp_comparison_rest(toks, pos0, accv) == (PRes {
                    res: Ok::<ExprV, ParseIssueV>(accv),
                    pos: pos0,
                }));
            }
            Ok(acc)
        }
    }

    /// comparison := term ((`>` | `>=` | `<` | `<=`) term)*.
    #[verifier::spinoff_prover]
    #[verifier::rlimit(100)]
    fn comparison(&mut self) -> (r: Result<Expr, ParseIssue>)
        requires
            old(self).current <= old(self).tokens@.len(),
        ensures
            final(self).tokens == old(self).tokens,
            final(self).error == old(self).error,
            old(self).current <= final(self).current <= old(self).tokens@.len(),
            r matches Ok(_) ==> old(self).current < final(self).current,
            ({
                let s = sp_comparison(old(self).toks(), old(self).current as int);
                &&& final(self).current as int == s.pos
                &&& match r {
                    Ok(e) => s.res == Ok::<ExprV, ParseIssueV>(e@),
                    Err(i) => s.res == Err::<ExprV, ParseIssueV>(i@),
                }
            }),
        decreases old(self).tokens@.len() - old(self).current, 8int,
    {
        let ghost toks = self.toks();
        let ghost pos0 = self.current as int;
        proof {
            assert(toks.len() == self.tokens.len());
        }
        match self.term() {
            Err(i) => {
                proof {
                    assert(toks_view(self.tokens@) == toks);
                    assert(sp_comparison(toks, pos0) == (PRes {
                        res: Err::<ExprV, ParseIssueV>(i@),
                        pos: self.current as int,
                    }));
                }
                Err(i)
            },
            Ok(e) => {
                let ghost ev = e@;
                let ghost cur2 = self.current as int;
                proof {
                    assert(toks_view(self.tokens@) == toks);
                    assert(sp_term(toks, pos0).pos == cur2);
                    assert(sp_term(toks, pos0).res == Ok::<ExprV, ParseIssueV>(ev));
                    assert(padv(toks.len() as int, pos0, cur2) == cur2);
                    assert(sp_comparison(toks, pos0) == sp_comparison_rest(toks, cur2, ev));
                }
                self.comparison_rest(e)
            },
        }
    }

    /// The left-associative fold of `equality` over `==` and `!=`.
    #[verifier::spinoff_prover]
    #[verifier::rlimit(100)]
    fn equality_rest(&mut self, acc: Expr) -> (r: Result<Expr, ParseIssue>)
        requires
            old(self).current <= old(self).tokens@.len(),
        ensures
            final(self).tokens == old(self).tokens,
            final(self).error == old(self).error,
            old(self).current <= final(self).current <= old(self).tokens@.len(),
            ({
                let s = sp_equality_rest(old(self).toks(), old(self).current as int, acc@);
                &&& final(self).current as int == s.pos
                &&& match r {
                    Ok(e) => s.res == Ok::<ExprV, ParseIssueV>(e@),
                    Err(i) => s.res == Err::<ExprV, ParseIssueV>(i@),
                }
            }),
        decreases old(self).tokens@.len() - old(self).current, 9int,
    {
        let ghost toks = self.toks();
        let ghost pos0 = self.current as int;
        let ghost accv = acc@;
        proof {
            assert(toks.len() == self.tokens.len());
        }
        let k = self.peek_kind();
        if k == TokenType::BangEqual || k == TokenType::EqualEqual {
            let op = self.peek_tok();
            let ghost opv = op@;
            self.current = self.current + 1;
            match self.comparison() {
                Err(i) => {
                    proof {
                        assert(toks_view(self.tokens@) == toks);
                        assert(sp_comparison(toks, pos0 + 1).res == Err::<ExprV, ParseIssueV>(i@));
                        assert(sp_equality_rest(toks, pos0, accv) == (PRes {
                            res: Err::<ExprV, ParseIssueV>(i@),
                            pos: self.current as int,
                        }));
                    }
                    Err(i)
                },
                Ok(e) => {
                    let ghost ev = e@;
                    let ghost cur2 = self.current as int;
                    let newe = Expr::Binary(Box::new(acc), op, Box::new(e));
                    proof {
                        assert(toks_view(self.tokens@) == toks);
                        assert(sp_comparison(toks, pos0 + 1).pos == cur2);
                        assert(sp_comparison(toks, pos0 + 1).res == Ok::<ExprV, ParseIssueV>(ev));
                        assert(newe@ == ExprV::Binary(Box::new(accv), opv, Box::new(ev)));
                        assert(padv(toks.len() as int, pos0 + 2, cur2) == cur2);
                        assert(sp_equality_rest(toks, pos0, accv) == sp_equality_rest(toks, cur2, newe@));
                    }
                    self.equality_rest(newe)
                },
            }
        } else {
            proof {
                assert(sp_equality_rest(toks, pos0, accv) == (PRes {
                    res: Ok::<ExprV, ParseIssueV>(accv),
                    pos: pos0,
                }));
            }
            Ok(acc)
        }
    }

    /// equality := comparison ((`==` | `!=`) comparison)*.
    #[verifier::spinoff_prover]
    #[verifier::rlimit(100)]
    fn equality(&mut self) -> (r: Result<Expr, ParseIssue>)
        requires
            old(self).current <= old(self).tokens@.len(),
        ensures
            final(self).tokens == old(self).tokens,
            final(self).error == old(self).error,
            old(self).current <= final(self).current <= old(self).tokens@.len(),
            r matches Ok(_) ==> old(self).current < final(self).current,
            ({
                let s = sp_equality(old(self).toks(), old(self).current as int);
                &&& final(self).current as int == s.pos
                &&& match r {
                    Ok(e) => s.res == Ok::<ExprV, ParseIssueV>(e@),
                    Err(i) => s.res == Err::<ExprV, ParseIssueV>(i@),
                }
            }),
        decreases old(self).tokens@.len() - old(self).current, 10int,
    {
        let ghost toks = self.toks();
        let ghost pos0 = self.current as int;
        proof {
            assert(toks.len() == self.tokens.len());
        }
        match self.comparison() {
            Err(i) => {
                proof {
                    assert(toks_view(self.tokens@) == toks);
                    assert(sp_equality(toks, pos0) == (PRes {
                        res: Err::<ExprV, ParseIssueV>(i@),
                        pos: self.current as int,
                    }));
                }
                Err(i)
            },
            Ok(e) => {
                let ghost ev = e@;
                let ghost cur2 = self.current as int;
                proof {
                    assert(toks_view(self.tokens@) == toks);
                    assert(sp_comparison(toks, pos0).pos == cur2);
                    assert(sp_comparison(toks, pos0).res == Ok::<ExprV, ParseIssueV>(ev));
                    assert(padv(toks.len() as int, pos0, cur2) == cur2);
                    assert(sp_equality(toks, pos0) == sp_equality_rest(toks, cur2, ev));
                }
                self.equality_rest(e)
            },
        }
    }

    /// The left-associative fold of `logic_and` over `and`.
    #[verifier::spinoff_prover]
    #[verifier::rlimit(100)]
    fn and_rest(&mut self, acc: Expr) -> (r: Result<Expr, ParseIssue>)
        requires
            old(self).current <= old(self).tokens@.len(),
        ensures
            final(self).tokens == old(self).tokens,
            final(self).error == old(self).error,
            old(self).current <= final(self).current <= old(self).tokens@.len(),
            ({
                let s = sp_and_rest(old(self).toks(), old(self).current as int, acc@);
                &&& final(self).current as int == s.pos
                &&& match r {
                    Ok(e) => s.res == Ok::<ExprV, ParseIssueV>(e@),
                    Err(i) => s.res == Err::<ExprV, ParseIssueV>(i@),
                }
            }),
        decreases old(self).tokens@.len() - old(self).current, 11int,
    {
        let ghost toks = self.toks();
        let ghost pos0 = self.current as int;
        let ghost accv = acc@;
        proof {
            assert(toks.len() == self.tokens.len());
        }
        let k = self.peek_kind();
        if k == TokenType::And {
            let op = self.peek_tok();
            let ghost opv = op@;
            self.current = self.current + 1;
            match self.equality() {
                Err(i) => {
                    proof {
                        assert(toks_view(self.tokens@) == toks);
                        assert(sp_equality(toks, pos0 + 1).res == Err::<ExprV, ParseIssueV>(i@));
                        assert(sp_and_rest(toks, pos0, accv) == (PRes {
                            res: Err::<ExprV, ParseIssueV>(i@),
                            pos: self.current as int,
                        }));
                    }
                    Err(i)
                },
                Ok(e) => {
                    let ghost ev = e@;
                    let ghost cur2 = self.current as int;
                    let newe = Expr::Logical(Box::new(acc), op, Box::new(e));
                    proof {
                        assert(toks_view(self.tokens@) == toks);
                        assert(sp_equality(toks, pos0 + 1).pos == cur2);
                        assert(sp_equality(toks, pos0 + 1).res == Ok::<ExprV, ParseIssueV>(ev));
                        assert(newe@ == ExprV::Logical(Box::new(accv), opv, Box::new(ev)));
                        assert(padv(toks.len() as int, pos0 + 2, cur2) == cur2);
                        assert(sp_and_rest(toks, pos0, accv) == sp_and_rest(toks, cur2, newe@));
                    }
                    self.and_rest(newe)
                },
            }
        } else {
            proof {
                assert(sp_and_rest(toks, pos0, accv) == (PRes {
                    res: Ok::<ExprV, ParseIssueV>(accv),
                    pos: pos0,
                }));
            }
            Ok(acc)
        }
    }

    /// logic_and := equality (`and` equality)*.
    #[verifier::spinoff_prover]
    #[verifier::rlimit(100)]
    fn logic_and(&mut self) -> (r: Result<Expr, ParseIssue>)
        requires
            old(self).current <= old(self).tokens@.len(),
        ensures
            final(self).tokens == old(self).tokens,
            final(self).error == old(self).error,
            old(self).current <= final(self).current <= old(self).tokens@.len(),
            r matches Ok(_) ==> old(self).current < final(self).current,
            ({
                let s = sp_logic_and(old(self).toks(), old(self).current as int);
                &&& final(self).current as int == s.pos
                &&& match r {
                    Ok(e) => s.res == Ok::<ExprV, ParseIssueV>(e@),
                    Err(i) => s.res == Err::<ExprV, ParseIssueV>(i@),
                }
            }),
        decreases old(self).tokens@.len() - old(self).current, 12int,
    {
        let ghost toks = self.toks();
        let ghost pos0 = self.current as int;
        proof {
            assert(toks.len() == self.tokens.len());
        }
        match self.equality() {
            Err(i) => {
                proof {
                    assert(toks_view(self.tokens@) == toks);
                    assert(sp_logic_and(toks, pos0) == (PRes {
                        res: Err::<ExprV, ParseIssueV>(i@),
                        pos: self.current as int,
                    }));
                }
                Err(i)
            },
            Ok(e) => {
                let ghost ev = e@;
                let ghost cur2 = self.current as int;
                proof {
                    assert(toks_view(self.tokens@) == toks);
                    assert(sp_equality(toks, pos0).pos == cur2);
                    assert(sp_equality(toks, pos0).res == Ok::<ExprV, ParseIssueV>(ev));
                    assert(padv(toks.len() as int, pos0, cur2) == cur2);
                    assert(sp_logic_and(toks, pos0) == sp_and_rest(toks, cur2, ev));
                }
                self.and_rest(e)
            },
        }
    }

    /// The left-associative fold of `logic_or` over `or`.
    #[verifier::spinoff_prover]
    #[verifier::rlimit(100)]
    fn or_rest(&mut self, acc: Expr) -> (r: Result<Expr, ParseIssue>)
        requires
            old(self).current <= old(self).tokens@.len(),
        ensures
            final(self).tokens == old(self).tokens,
            final(self).error == old(self).error,
            old(self).current <= final(self).current <= old(self).tokens@.len(),
            ({
                let s = sp_or_rest(old(self).toks(), old(self).current as int, acc@);
                &&& final(self).current as int == s.pos
                &&& match r {
                    Ok(e) => s.res == Ok::<ExprV, ParseIssueV>(e@),
                    Err(i) => s.res == Err::<ExprV, ParseIssueV>(i@),
                }
            }),
        decreases old(self).tokens@.len() - old(self).current, 13int,
    {
        let ghost toks = self.toks();
        let ghost pos0 = self.current as int;
        let ghost accv = acc@;
        proof {
            assert(toks.len() == self.tokens.len());
        }
        let k = self.peek_kind();
        if k == TokenType::Or {
            let op = self.peek_tok();
            let ghost opv = op@;
            self.current = self.current + 1;
            match self.logic_and() {
                Err(i) => {
                    proof {
                        assert(toks_view(self.tokens@) == toks);
                        assert(sp_logic_and(toks, pos0 + 1).res == Err::<ExprV, ParseIssueV>(i@));
                        assert(sp_or_rest(toks, pos0, accv) == (PRes {
                            res: Err::<ExprV, ParseIssueV>(i@),
                            pos: self.current as int,
                        }));
                    }
                    Err(i)
                },
                Ok(e) => {
                    let ghost ev = e@;
                    let ghost cur2 = self.current as int;
                    let newe = Expr::Logical(Box::new(acc), op, Box::new(e));
                    proof {
                        assert(toks_view(self.tokens@) == toks);
                        assert(sp_logic_and(toks, pos0 + 1).pos == cur2);
                        assert(sp_logic_and(toks, pos0 + 1).res == Ok::<ExprV, ParseIssueV>(ev));
                        assert(newe@ == ExprV::Logical(Box::new(accv), opv, Box::new(ev)));
                        assert(padv(toks.len() as int, pos0 + 2, cur2) == cur2);
                        assert(sp_or_rest(toks, pos0, accv) == sp_or_rest(toks, cur2, newe@));
                    }
                    self.or_rest(newe)
                },
            }
        } else {
            proof {
                assert(sp_or_rest(toks, pos0, accv) == (PRes {
                    res: Ok::<ExprV, ParseIssueV>(accv),
                    pos: pos0,
                }));
            }
            Ok(acc)
        }
    }

    /// logic_or := logic_and (`or` logic_and)*.
    #[verifier::spinoff_prover]
    #[verifier::rlimit(100)]
    fn logic_or(&mut self) -> (r: Result<Expr, ParseIssue>)
        requires
            old(self).current <= old(self).tokens@.len(),
        ensures
            final(self).tokens == old(self).tokens,
            final(self).error == old(self).error,
            old(self).current <= final(self).current <= old(self).tokens@.len(),
            r matches Ok(_) ==> old(self).current < final(self).current,
            ({
                let s = sp_logic_or(old(self).toks(), old(self).current as int);
                &&& final(self).current as int == s.pos
                &&& match r {
                    Ok(e) => s.res == Ok::<ExprV, ParseIssueV>(e@),
                    Err(i) => s.res == Err::<ExprV, ParseIssueV>(i@),
                }
            }),
        decreases old(self).tokens@.len() - old(self).current, 14int,
    {
        let ghost toks = self.toks();
        let ghost pos0 = self.current as int;
        proof {
            assert(toks.len() == self.tokens.len());
        }
        match self.logic_and() {
            Err(i) => {
                proof {
                    assert(toks_view(self.tokens@) == toks);
                    assert(sp_logic_or(toks, pos0) == (PRes {
                        res: Err::<ExprV, ParseIssueV>(i@),
                        pos: self.current as int,
                    }));
                }
                Err(i)
            },
            Ok(e) => {
                let ghost ev = e@;
                let ghost cur2 = self.current as int;
                proof {
                    assert(toks_view(self.tokens@) == toks);
                    assert(sp_logic_and(toks, pos0).pos == cur2);
                    assert(sp_logic_and(toks, pos0).res == Ok::<ExprV, ParseIssueV>(ev));
                    assert(padv(toks.len() as int, pos0, cur2) == cur2);
                    assert(sp_logic_or(toks, pos0) == sp_or_rest(toks, cur2, ev));
                }
                self.or_rest(e)
            },
        }
    }

    /// The optional `=` tail of an assignment.
    #[verifier::spinoff_prover]
    #[verifier::rlimit(100)]
    fn assign_tail(&mut self, e: Expr) -> (r: Result<Expr, ParseIssue>)
        requires
            old(self).current <= old(self).tokens@.len(),
        ensures
            final(self).tokens == old(self).tokens,
            final(self).error == old(self).error,
            old(self).current <= final(self).current <= old(self).tokens@.len(),
            ({
                let s = sp_assign_tail(old(self).toks(), old(self).current as int, e@);
                &&& final(self).current as int == s.pos
                &&& match r {
                    Ok(e2) => s.res == Ok::<ExprV, ParseIssueV>(e2@),
                    Err(i) => s.res == Err::<ExprV, ParseIssueV>(i@),
                }
            }),
        decreases old(self).tokens@.len() - old(self).current, 15int,
    {
        let ghost toks = self.toks();
        let ghost pos0 = self.current as int;
        let ghost ev = e@;
        proof {
            assert(toks.len() == self.tokens.len());
        }
        if self.peek_kind() == TokenType::Equal {
            let eq = self.peek_tok();
            let ghost eqv = eq@;
            self.current = self.current + 1;
            match self.assignment() {
                Err(i) => {
                    proof {
                        assert(toks_view(self.tokens@) == toks);
                        assert(sp_assignment(toks, pos0 + 1).res == Err::<ExprV, ParseIssueV>(i@));
                        assert(sp_assign_tail(toks, pos0, ev) == (PRes {
                            res: Err::<ExprV, ParseIssueV>(i@),
                            pos: self.current as int,
                        }));
                    }
                    Err(i)
                },
                Ok(value) => {
                    let ghost vv = value@;
                    let ghost cur2 = self.current as int;
                    proof {
                        assert(toks_view(self.tokens@) == toks);
                        assert(sp_assignment(toks, pos0 + 1).pos == cur2);
                        assert(sp_assignment(toks, pos0 + 1).res == Ok::<ExprV, ParseIssueV>(vv));
                    }
                    match e {
                        Expr::Variable(t) => {
                            let ghost tv = t@;
                            let res = Expr::Assign(t, Box::new(value));
                            proof {
                                assert(ev == ExprV::Variable(tv));
                                assert(res@ == ExprV::Assign(tv, Box::new(vv)));
                                assert(sp_assign_tail(toks, pos0, ev) == (PRes {
                                    res: Ok::<ExprV, ParseIssueV>(res@),
                                    pos: cur2,
                                }));
                            }
                            Ok(res)
                        },
                        _ => {
                            let i = ParseIssue {
                                kind: ParseIssueKind::InvalidAssignmentTarget,
                                line: eq.line,
                                lexeme: eq.lexeme,
                                token_type: eq.token_type,
                            };
                            proof {
                                assert(!(ev is Variable));
                                assert(i@ =~~= sp_issue(
                                    toks,
                                    pos0,
                                    ParseIssueKind::InvalidAssignmentTarget,
                                ));
                                assert(sp_assign_tail(toks, pos0, ev) == (PRes {
                                    res: Err::<ExprV, ParseIssueV>(i@),
                                    pos: cur2,
                                }));
                            }
                            Err(i)
                        },
                    }
                },
            }
        } else {
            proof {
                assert(sp_assign_tail(toks, pos0, ev) == (PRes {
                    res: Ok::<ExprV, ParseIssueV>(ev),
                    pos: pos0,
                }));
            }
            Ok(e)
        }
    }

    /// assignment := logic_or (`=` assignment)?; right-associative, and
    /// the left side must reduce to a variable.
    #[verifier::spinoff_prover]
    #[verifier::rlimit(100)]
    fn assignment(&mut self) -> (r: Result<Expr, ParseIssue>)
        requires
            old(self).current <= old(self).tokens@.len(),
        ensures
            final(self).tokens == old(self).tokens,
            final(self).error == old(self).error,
            old(self).current <= final(self).current <= old(self).tokens@.len(),
            r matches Ok(_) ==> old(self).current < final(self).current,
            ({
                let s = sp_assignment(old(self).toks(), old(self).current as int);
                &&& final(self).current as int == s.pos
                &&& match r {
                    Ok(e) => s.res == Ok::<ExprV, ParseIssueV>(e@),
                    Err(i) => s.res == Err::<ExprV, ParseIssueV>(i@),
                }
            }),
        decreases old(self).tokens@.len() - old(self).current, 16int,
    {
        let ghost toks = self.toks();
        let ghost pos0 = self.current as int;
        proof {
            assert(toks.len() == self.tokens.len());
        }
        match self.logic_or() {
            Err(i) => {
                proof {
                    assert(toks_view(self.tokens@) == toks);
                    assert(sp_assignment(toks, pos0) == (PRes {
                        res: Err::<ExprV, ParseIssueV>(i@),
                        pos: self.current as int,
                    }));
                }
                Err(i)
            },
            Ok(e) => {
                let ghost ev = e@;
                let ghost cur2 = self.current as int;
                proof {
                    assert(toks_view(self.tokens@) == toks);
                    assert(sp_logic_or(toks, pos0).pos == cur2);
                    assert(sp_logic_or(toks, pos0).res == Ok::<ExprV, ParseIssueV>(ev));
                    assert(padv(toks.len() as int, pos0, cur2) == cur2);
                    assert(sp_assignment(toks, pos0) == sp_assign_tail(toks, cur2, ev));
                }
                self.assign_tail(e)
            },
        }
    }

    /// expression := assignment.
    #[verifier::spinoff_prover]
    #[verifier::rlimit(100)]
    fn expression(&mut self) -> (r: Result<Expr, ParseIssue>)
        requires
            old(self).current <= old(self).tokens@.len(),
        ensures
            final(self).tokens == old(self).tokens,
            final(self).error == old(self).error,
            old(self).current <= final(self).current <= old(self).tokens@.len(),
            r matches Ok(_) ==> old(self).current < final(self).current,
            ({
                let s = sp_expression(old(self).toks(), old(self).current as int);
                &&& final(self).current as int == s.pos
                &&& match r {
                    Ok(e) => s.res == Ok::<ExprV, ParseIssueV>(e@),
                    Err(i) => s.res == Err::<ExprV, ParseIssueV>(i@),
                }
            }),
        decreases old(self).tokens@.len() - old(self).current, 17int,
    {
        proof {
            assert(sp_expression(self.toks(), self.current as int) == sp_assignment(
                self.toks(),
                self.current as int,
            ));
        }
        self.assignment()
    }

    /// printStmt := expression `;` (the `print` keyword is already
    /// consumed).
    #[verifier::spinoff_prover]
    #[verifier::rlimit(100)]
    fn print_statement(&mut self) -> (r: Result<Stmt, ParseIssue>)
        requires
            old(self).current <= old(self).tokens@.len(),
        ensures
            final(self).tokens == old(self).tokens,
            final(self).error == old(self).error,
            old(self).current <= final(self).current <= old(self).tokens@.len(),
            r matches Ok(_) ==> old(self).current < final(self).current,
            ({
                let s = sp_print_stmt(old(self).toks(), old(self).current as int);
                &&& final(self).current as int == s.pos
                &&& match r {
                    Ok(st) => s.res == Ok::<StmtV, ParseIssueV>(st@),
                    Err(i) => s.res == Err::<StmtV, ParseIssueV>(i@),
                }
            }),
        decreases old(self).tokens@.len() - old(self).current, 18int,
    {
        let ghost toks = self.toks();
        let ghost pos0 = self.current as int;
        proof {
            assert(toks.len() == self.tokens.len());
        }
        match self.expression() {
            Err(i) => {
                proof {
                    assert(toks_view(self.tokens@) == toks);
                    assert(sp_print_stmt(toks, pos0).res == Err::<StmtV, ParseIssueV>(i@));
                    assert(sp_print_stmt(toks, pos0).pos == self.current as int);
                }
                Err(i)
            },
            Ok(e) => {
                let ghost ev = e@;
                let ghost cur2 = self.current as int;
                proof {
                    assert(toks_view(self.tokens@) == toks);
                    assert(sp_expression(toks, pos0).pos == cur2);
                    assert(sp_expression(toks, pos0).res == Ok::<ExprV, ParseIssueV>(ev));
                }
                match self.consume(TokenType::Semicolon) {
                    Err(i) => {
                    proof {
                        assert(toks_view(self.tokens@) == toks);
                        assert(sp_print_stmt(toks, pos0).res == Err::<StmtV, ParseIssueV>(i@));
                        assert(sp_print_stmt(toks, pos0).pos == self.current as int);
                    }
                    Err(i)
                    },
                    Ok(_) => {
                        let res = Stmt::PrintStmt(e);
                        proof {
                            assert(toks_view(self.tokens@) == toks);
                            assert(res@ == StmtV::PrintStmt(ev));
                            assert(sp_print_stmt(toks, pos0).res == Ok::<StmtV, ParseIssueV>(res@));
                            assert(sp_print_stmt(toks, pos0).pos == self.current as int);
                        }
                        Ok(res)
                    },
                }
            },
        }
    }

    /// exprStmt := expression `;`.
    #[verifier::spinoff_prover]
    #[verifier::rlimit(100)]
    fn expr_statement(&mut self) -> (r: Result<Stmt, ParseIssue>)
        requires
            old(self).current <= old(self).tokens@.len(),
        ensures
            final(self).tokens == old(self).tokens,
            final(self).error == old(self).error,
            old(self).current <= final(self).current <= old(self).tokens@.len(),
            r matches Ok(_) ==> old(self).current < final(self).current,
            ({
                let s = sp_expr_stmt(old(self).toks(), old(self).current as int);
                &&& final(self).current as int == s.pos
                &&& match r {
                    Ok(st) => s.res == Ok::<StmtV, ParseIssueV>(st@),
                    Err(i) => s.res == Err::<StmtV, ParseIssueV>(i@),
                }
            }),
        decreases old(self).tokens@.len() - old(self).current, 18int,
    {
        let ghost toks = self.toks();
        let ghost pos0 = self.current as int;
        proof {
            assert(toks.len() == self.tokens.len());
        }
        match self.expression() {
            Err(i) => {
                proof {
                    assert(toks_view(self.tokens@) == toks);
                    assert(sp_expr_stmt(toks, pos0).res == Err::<StmtV, ParseIssueV>(i@));
                    assert(sp_expr_stmt(toks, pos0).pos == self.current as int);
                }
                Err(i)
            },
            Ok(e) => {
                let ghost ev = e@;
                let ghost cur2 = self.current as int;
                proof {
                    assert(toks_view(self.tokens@) == toks);
                    assert(sp_expression(toks, pos0).pos == cur2);
                    assert(sp_expression(toks, pos0).res == Ok::<ExprV, ParseIssueV>(ev));
                }
                match self.consume(TokenType::Semicolon) {
                    Err(i) => {
                    proof {
                        assert(toks_view(self.tokens@) == toks);
                        assert(sp_expr_stmt(toks, pos0).res == Err::<StmtV, ParseIssueV>(i@));
                        assert(sp_expr_stmt(toks, pos0).pos == self.current as int);
                    }
                    Err(i)
                    },
                    Ok(_) => {
                        let res = Stmt::ExprStmt(e);
                        proof {
                            assert(toks_view(self.tokens@) == toks);
                            assert(res@ == StmtV::ExprStmt(ev));
                            assert(sp_expr_stmt(toks, pos0).res == Ok::<StmtV, ParseIssueV>(res@));
                            assert(sp_expr_stmt(toks, pos0).pos == self.current as int);
                        }
                        Ok(res)
                    },
                }
            },
        }
    }

    /// varDecl := identifier (`=` expression)? `;` (the `var` keyword is
    /// already consumed).
    #[verifier::spinoff_prover]
    #[verifier::rlimit(100)]
    fn var_declaration(&mut self) -> (r: Result<Stmt, ParseIssue>)
        requires
            old(self).current <= old(self).tokens@.len(),
        ensures
            final(self).tokens == old(self).tokens,
            final(self).error == old(self).error,
            old(self).current <= final(self).current <= old(self).tokens@.len(),
            r matches Ok(_) ==> old(self).current < final(self).current,
            ({
                let s = sp_var_decl(old(self).toks(), old(self).current as int);
                &&& final(self).current as int == s.pos
                &&& match r {
                    Ok(st) => s.res == Ok::<StmtV, ParseIssueV>(st@),
                    Err(i) => s.res == Err::<StmtV, ParseIssueV>(i@),
                }
            }),
        decreases old(self).tokens@.len() - old(self).current, 18int,
    {
        let ghost toks = self.toks();
        let ghost pos0 = self.current as int;
        proof {
            assert(toks.len() == self.tokens.len());
        }
        let k = self.peek_kind();
        if k != TokenType::Identifier {
            let i = self.make_issue(ParseIssueKind::Expected(TokenType::Identifier));
            proof {
                assert(sp_var_decl(toks, pos0).res == Err::<StmtV, ParseIssueV>(i@));
                assert(sp_var_decl(toks, pos0).pos == pos0);
            }
            Err(i)
        } else {
            let name = self.peek_tok();
            let ghost namev = name@;
            self.current = self.current + 1;
            if self.peek_kind() == TokenType::Equal {
                self.current = self.current + 1;
                match self.expression() {
                    Err(i) => {
                        proof {
                            assert(toks_view(self.tokens@) == toks);
                            assert(sp_expression(toks, pos0 + 2).res == Err::<ExprV, ParseIssueV>(
                                i@,
                            ));
                            assert(sp_var_decl(toks, pos0).res == Err::<StmtV, ParseIssueV>(i@));
                            assert(sp_var_decl(toks, pos0).pos == self.current as int);
                        }
                        Err(i)
                    },
                    Ok(e) => {
                        let ghost ev = e@;
                        let ghost cur2 = self.current as int;
                        proof {
                            assert(toks_view(self.tokens@) == toks);
                            assert(sp_expression(toks, pos0 + 2).pos == cur2);
                            assert(sp_expression(toks, pos0 + 2).res == Ok::<ExprV, ParseIssueV>(
                                ev,
                            ));
                        }
                        match self.consume(TokenType::Semicolon) {
                            Err(i) => {
                                proof {
                                    assert(toks_view(self.tokens@) == toks);
                                    assert(sp_var_decl(toks, pos0).res == Err::<
                                        StmtV,
                                        ParseIssueV,
                                    >(i@));
                                    assert(sp_var_decl(toks, pos0).pos == self.current as int);
                                }
                                Err(i)
                            },
                            Ok(_) => {
                                let res = Stmt::VarStmt(name, Some(e));
                                proof {
                                    assert(toks_view(self.tokens@) == toks);
                                    assert(res@ == StmtV::VarStmt(namev, Some(ev)));
                                    assert(sp_var_decl(toks, pos0).res == Ok::<
                                        StmtV,
                                        ParseIssueV,
                                    >(res@));
                                    assert(sp_var_decl(toks, pos0).pos == self.current as int);
                                }
                                Ok(res)
                            },
                        }
                    },
                }
            } else {
                match self.consume(TokenType::Semicolon) {
                    Err(i) => {
                        proof {
                            assert(toks_view(self.tokens@) == toks);
                            assert(sp_var_decl(toks, pos0).res == Err::<StmtV, ParseIssueV>(i@));
                            assert(sp_var_decl(toks, pos0).pos == self.current as int);
                        }
                        Err(i)
                    },
                    Ok(_) => {
                        let res = Stmt::VarStmt(name, None);
                        proof {
                            assert(toks_view(self.tokens@) == toks);
                            assert(res@ == StmtV::VarStmt(namev, None));
                            assert(sp_var_decl(toks, pos0).res == Ok::<StmtV, ParseIssueV>(res@));
                            assert(sp_var_decl(toks, pos0).pos == self.current as int);
                        }
                        Ok(res)
                    },
                }
            }
        }
    }

    /// ifStmt := `(` expression `)` statement (`else` statement)? (the
    /// `if` keyword is already consumed).
    #[verifier::spinoff_prover]
    #[verifier::rlimit(100)]
    fn if_statement(&mut self) -> (r: Result<Stmt, ParseIssue>)
        requires
            old(self).current <= old(self).tokens@.len(),
        ensures
            final(self).tokens == old(self).tokens,
            final(self).error == old(self).error,
            old(self).current <= final(self).current <= old(self).tokens@.len(),
            r matches Ok(_) ==> old(self).current < final(self).current,
            ({
                let s = sp_if_stmt(old(self).toks(), old(self).current as int);
                &&& final(self).current as int == s.pos
                &&& match r {
                    Ok(st) => s.res == Ok::<StmtV, ParseIssueV>(st@),
                    Err(i) => s.res == Err::<StmtV, ParseIssueV>(i@),
                }
            }),
        decreases old(self).tokens@.len() - old(self).current, 18int,
    {
        let ghost toks = self.toks();
        let ghost pos0 = self.current as int;
        proof {
            assert(toks.len() == self.tokens.len());
        }
        match self.consume(TokenType::LeftParen) {
            Err(i) => {
                proof {
                    assert(toks_view(self.tokens@) == toks);
                    assert(sp_if_stmt(toks, pos0).res == Err::<StmtV, ParseIssueV>(i@));
                    assert(sp_if_stmt(toks, pos0).pos == self.current as int);
                }
                Err(i)
            },
            Ok(_) => {
                match self.expression() {
                    Err(i) => {
                    proof {
                    assert(toks_view(self.tokens@) == toks);
                    assert(sp_if_stmt(toks, pos0).res == Err::<StmtV, ParseIssueV>(i@));
                    assert(sp_if_stmt(toks, pos0).pos == self.current as int);
                }
                Err(i)
                    },
                    Ok(cond) => {
                        let ghost condv = cond@;
                        let ghost q = self.current as int;
                        proof {
                            assert(toks_view(self.tokens@) == toks);
                            assert(sp_expression(toks, pos0 + 1).pos == q);
                            assert(sp_expression(toks, pos0 + 1).res == Ok::<ExprV, ParseIssueV>(
                                condv,
                            ));
                            assert(padv(toks.len() as int, pos0 + 2, q) == q);
                        }
                        match self.consume(TokenType::RightParen) {
                            Err(i) => {
                            proof {
                    assert(toks_view(self.tokens@) == toks);
                    assert(sp_if_stmt(toks, pos0).res == Err::<StmtV, ParseIssueV>(i@));
                    assert(sp_if_stmt(toks, pos0).pos == self.current as int);
                }
                Err(i)
                            },
                            Ok(_) => {
                                match self.statement() {
                                    Err(i) => {
                                    proof {
                    assert(toks_view(self.tokens@) == toks);
                    assert(sp_if_stmt(toks, pos0).res == Err::<StmtV, ParseIssueV>(i@));
                    assert(sp_if_stmt(toks, pos0).pos == self.current as int);
                }
                Err(i)
                                    },
                                    Ok(thenb) => {
                                        let ghost thenv = thenb@;
                                        let ghost pt = self.current as int;
                                        proof {
                                            assert(toks_view(self.tokens@) == toks);
                                            assert(sp_statement(toks, q + 1).pos == pt);
                                            assert(sp_statement(toks, q + 1).res == Ok::<
                                                StmtV,
                                                ParseIssueV,
                                            >(thenv));
                                            assert(padv(toks.len() as int, q + 2, pt) == pt);
                                        }
                                        if self.peek_kind() == TokenType::Else {
                                            self.current = self.current + 1;
                                            match self.statement() {
                                                Err(i) => {
                                                    proof {
                    assert(toks_view(self.tokens@) == toks);
                    assert(sp_if_stmt(toks, pos0).res == Err::<StmtV, ParseIssueV>(i@));
                    assert(sp_if_stmt(toks, pos0).pos == self.current as int);
                }
                Err(i)
                                                },
                                                Ok(elseb) => {
                                                    let ghost elsev = elseb@;
                                                    let res = Stmt::IfStmt(
                                                        cond,
                                                        Box::new(thenb),
                                                        Some(Box::new(elseb)),
                                                    );
                                                    proof {
                                                        assert(toks_view(self.tokens@) == toks);
                                                        assert(res@ == StmtV::IfStmt(
                                                            condv,
                                                            Box::new(thenv),
                                                            Some(Box::new(elsev)),
                                                        ));
                                                        assert(sp_if_stmt(toks, pos0).res == Ok::<
                                                            StmtV,
                                                            ParseIssueV,
                                                        >(res@));
                                                        assert(sp_if_stmt(toks, pos0).pos
                                                            == self.current as int);
                                                    }
                                                    Ok(res)
                                                },
                                            }
                                        } else {
                                            let res = Stmt::IfStmt(cond, Box::new(thenb), None);
                                            proof {
                                                assert(res@ == StmtV::IfStmt(
                                                    condv,
                                                    Box::new(thenv),
                                                    None,
                                                ));
                                                assert(sp_if_stmt(toks, pos0).res == Ok::<
                                                    StmtV,
                                                    ParseIssueV,
                                                >(res@));
                                                assert(sp_if_stmt(toks, pos0).pos == pt);
                                            }
                                            Ok(res)
                                        }
                                    },
                                }
                            },
                        }
                    },
                }
            },
        }
    }

    /// whileStmt := `(` expression `)` statement (the `while` keyword is
    /// already consumed).
    #[verifier::spinoff_prover]
    #[verifier::rlimit(100)]
    fn while_statement(&mut self) -> (r: Result<Stmt, ParseIssue>)
        requires
            old(self).current <= old(self).tokens@.len(),
        ensures
            final(self).tokens == old(self).tokens,
            final(self).error == old(self).error,
            old(self).current <= final(self).current <= old(self).tokens@.len(),
            r matches Ok(_) ==> old(self).current < final(self).current,
            ({
                let s = sp_while_stmt(old(self).toks(), old(self).current as int);
                &&& final(self).current as int == s.pos
                &&& match r {
                    Ok(st) => s.res == Ok::<StmtV, ParseIssueV>(st@),
                    Err(i) => s.res == Err::<StmtV, ParseIssueV>(i@),
                }
            }),
        decreases old(self).tokens@.len() - old(self).current, 18int,
    {
        let ghost toks = self.toks();
        let ghost pos0 = self.current as int;
        proof {
            assert(toks.len() == self.tokens.len());
        }
        match self.consume(TokenType::LeftParen) {
            Err(i) => {
                proof {
                    assert(toks_view(self.tokens@) == toks);
                    assert(sp_while_stmt(toks, pos0).res == Err::<StmtV, ParseIssueV>(i@));
                    assert(sp_while_stmt(toks, pos0).pos == self.current as int);
                }
                Err(i)
            },
            Ok(_) => {
                match self.expression() {
                    Err(i) => {
                    proof {
                    assert(toks_view(self.tokens@) == toks);
                    assert(sp_while_stmt(toks, pos0).res == Err::<StmtV, ParseIssueV>(i@));
                    assert(sp_while_stmt(toks, pos0).pos == self.current as int);
                }
                Err(i)
                    },
                    Ok(cond) => {
                        let ghost condv = cond@;
                        let ghost q = self.current as int;
                        proof {
                            assert(toks_view(self.tokens@) == toks);
                            assert(sp_expression(toks, pos0 + 1).pos == q);
                            assert(sp_expression(toks, pos0 + 1).res == Ok::<ExprV, ParseIssueV>(
                                condv,
                            ));
                            assert(padv(toks.len() as int, pos0 + 2, q) == q);
                        }
                        match self.consume(TokenType::RightParen) {
                            Err(i) => {
                            proof {
                    assert(toks_view(self.tokens@) == toks);
                    assert(sp_while_stmt(toks, pos0).res == Err::<StmtV, ParseIssueV>(i@));
                    assert(sp_while_stmt(toks, pos0).pos == self.current as int);
                }
                Err(i)
                            },
                            Ok(_) => {
                                match self.statement() {
                                    Err(i) => {
                                    proof {
                    assert(toks_view(self.tokens@) == toks);
                    assert(sp_while_stmt(toks, pos0).res == Err::<StmtV, ParseIssueV>(i@));
                    assert(sp_while_stmt(toks, pos0).pos == self.current as int);
                }
                Err(i)
                                    },
                                    Ok(body) => {
                                        let ghost bodyv = body@;
                                        let res = Stmt::WhileStmt(cond, Box::new(body));
                                        proof {
                                            assert(toks_view(self.tokens@) == toks);
                                            assert(sp_statement(toks, q + 1).res == Ok::<
                                                StmtV,
                                                ParseIssueV,
                                            >(bodyv));
                                            assert(res@ == StmtV::WhileStmt(
                                                condv,
                                                Box::new(bodyv),
                                            ));
                                            assert(sp_while_stmt(toks, pos0).res == Ok::<
                                                StmtV,
                                                ParseIssueV,
                                            >(res@));
                                            assert(sp_while_stmt(toks, pos0).pos
                                                == self.current as int);
                                        }
                                        Ok(res)
                                    },
                                }
                            },
                        }
                    },
                }
            },
        }
    }

    /// The head of a forStmt: its three optional clauses (the `for`
    /// keyword is already consumed).
    #[verifier::spinoff_prover]
    #[verifier::rlimit(100)]
    fn for_clauses(&mut self) -> (r: Result<(Option<Stmt>, Option<Expr>, Option<Expr>),
        ParseIssue>)
        requires
            old(self).current <= old(self).tokens@.len(),
        ensures
            final(self).tokens == old(self).tokens,
            final(self).error == old(self).error,
            old(self).current <= final(self).current <= old(self).tokens@.len(),
            r matches Ok(_) ==> old(self).current < final(self).current,
            ({
                let c = sp_for_clauses(old(self).toks(), old(self).current as int);
                &&& final(self).current as int == c.1
                &&& match r {
                    Ok(t) => c.0 == Ok::<ForClausesV, ParseIssueV>(
                        (
                            match t.0 {
                                Some(st) => Some(st@),
                                None => None,
                            },
                            match t.1 {
                                Some(e) => Some(e@),
                                None => None,
                            },
                            match t.2 {
                                Some(e) => Some(e@),
                                None => None,
                            },
                        ),
                    ),
                    Err(i) => c.0 == Err::<ForClausesV, ParseIssueV>(i@),
                }
            }),
        decreases old(self).tokens@.len() - old(self).current, 17int,
    {
        let ghost toks = self.toks();
        let ghost pos0 = self.current as int;
        proof {
            assert(toks.len() == self.tokens.len());
        }
        match self.consume(TokenType::LeftParen) {
            Err(i) => {
                proof {
                    assert(sp_for_clauses(toks, pos0).0 == Err::<ForClausesV, ParseIssueV>(i@));
                    assert(sp_for_clauses(toks, pos0).1 == self.current as int);
                }
                return Err(i);
            },
            Ok(_) => {},
        }
        // initializer
        let k1 = self.peek_kind();
        let init: Option<Stmt>;
        if k1 == TokenType::Semicolon {
            self.current = self.current + 1;
            init = None;
        } else if k1 == TokenType::Var {
            self.current = self.current + 1;
            match self.var_declaration() {
                Err(i) => {
                    proof {
                        assert(toks_view(self.tokens@) == toks);
                        assert(sp_var_decl(toks, pos0 + 2).res == Err::<StmtV, ParseIssueV>(i@));
                        assert(sp_for_clauses(toks, pos0).0 == Err::<ForClausesV, ParseIssueV>(
                            i@,
                        ));
                        assert(sp_for_clauses(toks, pos0).1 == self.current as int);
                    }
                    return Err(i);
                },
                Ok(st) => {
                    init = Some(st);
                },
            }
        } else {
            match self.expr_statement() {
                Err(i) => {
                    proof {
                        assert(toks_view(self.tokens@) == toks);
                        assert(sp_expr_stmt(toks, pos0 + 1).res == Err::<StmtV, ParseIssueV>(i@));
                        assert(sp_for_clauses(toks, pos0).0 == Err::<ForClausesV, ParseIssueV>(
                            i@,
                        ));
                        assert(sp_for_clauses(toks, pos0).1 == self.current as int);
                    }
                    return Err(i);
                },
                Ok(st) => {
                    init = Some(st);
                },
            }
        }
        let ghost pi = self.current as int;
        proof {
            assert(toks_view(self.tokens@) == toks);
            assert(padv(toks.len() as int, pos0 + 2, pi) == pi);
        }
        // condition
        let cond: Option<Expr>;
        if self.peek_kind() != TokenType::Semicolon {
            match self.expression() {
                Err(i) => {
                    proof {
                        assert(toks_view(self.tokens@) == toks);
                        assert(sp_expression(toks, pi).res == Err::<ExprV, ParseIssueV>(i@));
                        assert(sp_for_clauses(toks, pos0).0 == Err::<ForClausesV, ParseIssueV>(
                            i@,
                        ));
                        assert(sp_for_clauses(toks, pos0).1 == self.current as int);
                    }
                    return Err(i);
                },
                Ok(e) => {
                    proof {
                        assert(toks_view(self.tokens@) == toks);
                        assert(padv(toks.len() as int, pi + 1, self.current as int)
                            == self.current as int);
                    }
                    cond = Some(e);
                },
            }
        } else {
            cond = None;
        }
        let ghost pc = self.current as int;
        match self.consume(TokenType::Semicolon) {
            Err(i) => {
                proof {
                    assert(toks_view(self.tokens@) == toks);
                    assert(sp_for_clauses(toks, pos0).0 == Err::<ForClausesV, ParseIssueV>(i@));
                    assert(sp_for_clauses(toks, pos0).1 == self.current as int);
                }
                return Err(i);
            },
            Ok(_) => {},
        }
        // increment
        let incr: Option<Expr>;
        if self.peek_kind() != TokenType::RightParen {
            match self.expression() {
                Err(i) => {
                    proof {
                        assert(toks_view(self.tokens@) == toks);
                        assert(sp_expression(toks, pc + 1).res == Err::<ExprV, ParseIssueV>(i@));
                        assert(sp_for_clauses(toks, pos0).0 == Err::<ForClausesV, ParseIssueV>(
                            i@,
                        ));
                        assert(sp_for_clauses(toks, pos0).1 == self.current as int);
                    }
                    return Err(i);
                },
                Ok(e) => {
                    proof {
                        assert(toks_view(self.tokens@) == toks);
                        assert(padv(toks.len() as int, pc + 2, self.current as int)
                            == self.current as int);
                    }
                    incr = Some(e);
                },
            }
        } else {
            incr = None;
        }
        match self.consume(TokenType::RightParen) {
            Err(i) => {
                proof {
                    assert(toks_view(self.tokens@) == toks);
                    assert(sp_for_clauses(toks, pos0).0 == Err::<ForClausesV, ParseIssueV>(i@));
                    assert(sp_for_clauses(toks, pos0).1 == self.current as int);
                }
                return Err(i);
            },
            Ok(_) => {},
        }
        proof {
            assert(toks_view(self.tokens@) == toks);
            assert(sp_for_clauses(toks, pos0).1 == self.current as int);
        }
        Ok((init, cond, incr))
    }

    /// forStmt := the clauses, then the body statement, desugared at parse
    /// time into `while` plus blocks (the `for` keyword is already
    /// consumed).
    #[verifier::spinoff_prover]
    #[verifier::rlimit(100)]
    fn for_statement(&mut self) -> (r: Result<Stmt, ParseIssue>)
        requires
            old(self).current <= old(self).tokens@.len(),
        ensures
            final(self).tokens == old(self).tokens,
            final(self).error == old(self).error,
            old(self).current <= final(self).current <= old(self).tokens@.len(),
            r matches Ok(_) ==> old(self).current < final(self).current,
            ({
                let s = sp_for_stmt(old(self).toks(), old(self).current as int);
                &&& final(self).current as int == s.pos
                &&& match r {
                    Ok(st) => s.res == Ok::<StmtV, ParseIssueV>(st@),
                    Err(i) => s.res == Err::<StmtV, ParseIssueV>(i@),
                }
            }),
        decreases old(self).tokens@.len() - old(self).current, 18int,
    {
        let ghost toks = self.toks();
        let ghost pos0 = self.current as int;
        proof {
            assert(toks.len() == self.tokens.len());
        }
        match self.for_clauses() {
            Err(i) => {
                proof {
                    assert(toks_view(self.tokens@) == toks);
                    assert(sp_for_stmt(toks, pos0).res == Err::<StmtV, ParseIssueV>(i@));
                    assert(sp_for_stmt(toks, pos0).pos == self.current as int);
                }
                Err(i)
            },
            Ok(t) => {
                let (init, cond, incr) = t;
                let ghost initv: Option<StmtV> = match &init {
                    Some(st) => Some(st@),
                    None => None,
                };
                let ghost condv: Option<ExprV> = match &cond {
                    Some(e) => Some(e@),
                    None => None,
                };
                let ghost incrv: Option<ExprV> = match &incr {
                    Some(e) => Some(e@),
                    None => None,
                };
                let ghost pb = self.current as int;
                proof {
                    assert(toks_view(self.tokens@) == toks);
                    assert(padv(toks.len() as int, pos0 + 1, pb) == pb);
                }
                match self.statement() {
                    Err(i) => {
                        proof {
                            assert(toks_view(self.tokens@) == toks);
                            assert(sp_statement(toks, pb).res == Err::<StmtV, ParseIssueV>(i@));
                            assert(sp_for_stmt(toks, pos0).res == Err::<StmtV, ParseIssueV>(i@));
                            assert(sp_for_stmt(toks, pos0).pos == self.current as int);
                        }
                        Err(i)
                    },
                    Ok(body) => {
                        let ghost bodyv = body@;
                        let res = build_for_desugar(init, cond, incr, body);
                        proof {
                            assert(toks_view(self.tokens@) == toks);
                            assert(sp_statement(toks, pb).res == Ok::<StmtV, ParseIssueV>(bodyv));
                            assert(res@ == sp_for_desugar(initv, condv, incrv, bodyv));
                            assert(sp_for_stmt(toks, pos0).res == Ok::<StmtV, ParseIssueV>(res@));
                            assert(sp_for_stmt(toks, pos0).pos == self.current as int);
                        }
                        Ok(res)
                    },
                }
            },
        }
    }

    /// The statements of a block, parsed until the closing brace.
    #[verifier::spinoff_prover]
    #[verifier::rlimit(100)]
    fn block_rest(&mut self, acc: Vec<Stmt>) -> (r: Result<Stmt, ParseIssue>)
        requires
            old(self).current <= old(self).tokens@.len(),
        ensures
            final(self).tokens == old(self).tokens,
            final(self).error == old(self).error,
            old(self).current <= final(self).current <= old(self).tokens@.len(),
            r matches Ok(_) ==> old(self).current < final(self).current,
            ({
                let s = sp_block_rest(old(self).toks(), old(self).current as int, stmts_view(acc@));
                &&& final(self).current as int == s.pos
                &&& match r {
                    Ok(st) => s.res == Ok::<StmtV, ParseIssueV>(st@),
                    Err(i) => s.res == Err::<StmtV, ParseIssueV>(i@),
                }
            }),
        decreases old(self).tokens@.len() - old(self).current, 21int,
    {
        let ghost toks = self.toks();
        let ghost pos0 = self.current as int;
        proof {
            assert(toks.len() == self.tokens.len());
        }
        let ghost accv = stmts_view(acc@);
        let k = self.peek_kind();
        if k == TokenType::RightBrace {
            self.current = self.current + 1;
            let res = Stmt::BlockStmt(acc);
            proof {
                assert(res@ == StmtV::BlockStmt(accv));
                assert(sp_block_rest(toks, pos0, accv).res == Ok::<StmtV, ParseIssueV>(res@));
                assert(sp_block_rest(toks, pos0, accv).pos == pos0 + 1);
            }
            Ok(res)
        } else if k == TokenType::Eof {
            let i = self.make_issue(ParseIssueKind::Expected(TokenType::RightBrace));
            proof {
                assert(sp_block_rest(toks, pos0, accv).res == Err::<StmtV, ParseIssueV>(i@));
                assert(sp_block_rest(toks, pos0, accv).pos == pos0);
            }
            Err(i)
        } else {
            match self.declaration() {
                Err(i) => {
                    proof {
                        assert(toks_view(self.tokens@) == toks);
                        assert(sp_declaration(toks, pos0).res == Err::<StmtV, ParseIssueV>(i@));
                        assert(sp_block_rest(toks, pos0, accv).res == Err::<StmtV, ParseIssueV>(
                            i@,
                        ));
                        assert(sp_block_rest(toks, pos0, accv).pos == self.current as int);
                    }
                    Err(i)
                },
                Ok(st) => {
                    let ghost sv = st@;
                    let ghost cur2 = self.current as int;
                    let mut acc2 = acc;
                    acc2.push(st);
                    proof {
                        assert(toks_view(self.tokens@) == toks);
                        assert(sp_declaration(toks, pos0).pos == cur2);
                        assert(sp_declaration(toks, pos0).res == Ok::<StmtV, ParseIssueV>(sv));
                        assert(padv(toks.len() as int, pos0 + 1, cur2) == cur2);
                        lemma_stmts_view_push(acc@, st);
                        assert(stmts_view(acc2@) == accv.push(sv));
                        assert(sp_block_rest(toks, pos0, accv) == sp_block_rest(
                            toks,
                            cur2,
                            stmts_view(acc2@),
                        ));
                    }
                    self.block_rest(acc2)
                },
            }
        }
    }

    /// block := declaration* `}` (the opening brace is already consumed).
    #[verifier::spinoff_prover]
    #[verifier::rlimit(100)]
    fn block(&mut self) -> (r: Result<Stmt, ParseIssue>)
        requires
            old(self).current <= old(self).tokens@.len(),
        ensures
            final(self).tokens == old(self).tokens,
            final(self).error == old(self).error,
            old(self).current <= final(self).current <= old(self).tokens@.len(),
            r matches Ok(_) ==> old(self).current < final(self).current,
            ({
                let s = sp_block(old(self).toks(), old(self).current as int);
                &&& final(self).current as int == s.pos
                &&& match r {
                    Ok(st) => s.res == Ok::<StmtV, ParseIssueV>(st@),
                    Err(i) => s.res == Err::<StmtV, ParseIssueV>(i@),
                }
            }),
        decreases old(self).tokens@.len() - old(self).current, 22int,
    {
        let ghost toks = self.toks();
        let ghost pos0 = self.current as int;
        proof {
            assert(toks.len() == self.tokens.len());
        }
        let acc: Vec<Stmt> = Vec::new();
        proof {
            assert(stmts_view(acc@) =~= Seq::<StmtV>::empty());
            assert(sp_block(toks, pos0) == sp_block_rest(toks, pos0, stmts_view(acc@)));
        }
        self.block_rest(acc)
    }

    /// statement := ifStmt | whileStmt | forStmt | printStmt | block |
    /// exprStmt.
    #[verifier::spinoff_prover]
    #[verifier::rlimit(100)]
    fn statement(&mut self) -> (r: Result<Stmt, ParseIssue>)
        requires
            old(self).current <= old(self).tokens@.len(),
        ensures
            final(self).tokens == old(self).tokens,
            final(self).error == old(self).error,
            old(self).current <= final(self).current <= old(self).tokens@.len(),
            r matches Ok(_) ==> old(self).current < final(self).current,
            ({
                let s = sp_statement(old(self).toks(), old(self).current as int);
                &&& final(self).current as int == s.pos
                &&& match r {
                    Ok(st) => s.res == Ok::<StmtV, ParseIssueV>(st@),
                    Err(i) => s.res == Err::<StmtV, ParseIssueV>(i@),
                }
            }),
        decreases old(self).tokens@.len() - old(self).current, 19int,
    {
        let ghost toks = self.toks();
        let ghost pos0 = self.current as int;
        proof {
            assert(toks.len() == self.tokens.len());
        }
        let k = self.peek_kind();
        if k == TokenType::For {
            self.current = self.current + 1;
            proof {
                assert(sp_statement(toks, pos0) == sp_for_stmt(toks, pos0 + 1));
            }
            self.for_statement()
        } else if k == TokenType::If {
            self.current = self.current + 1;
            proof {
                assert(sp_statement(toks, pos0) == sp_if_stmt(toks, pos0 + 1));
            }
            self.if_statement()
        } else if k == TokenType::Print {
            self.current = self.current + 1;
            proof {
                assert(sp_statement(toks, pos0) == sp_print_stmt(toks, pos0 + 1));
            }
            self.print_statement()
        } else if k == TokenType::While {
            self.current = self.current + 1;
            proof {
                assert(sp_statement(toks, pos0) == sp_while_stmt(toks, pos0 + 1));
            }
            self.while_statement()
        } else if k == TokenType::LeftBrace {
            self.current = self.current + 1;
            proof {
                assert(sp_statement(toks, pos0) == sp_block(toks, pos0 + 1));
            }
            self.block()
        } else {
            proof {
                assert(sp_statement(toks, pos0) == sp_expr_stmt(toks, pos0));
            }
            self.expr_statement()
        }
    }

    /// declaration := `var` varDecl | statement.
    #[verifier::spinoff_prover]
    #[verifier::rlimit(100)]
    fn declaration(&mut self) -> (r: Result<Stmt, ParseIssue>)
        requires
            old(self).current <= old(self).tokens@.len(),
        ensures
            final(self).tokens == old(self).tokens,
            final(self).error == old(self).error,
            old(self).current <= final(self).current <= old(self).tokens@.len(),
            r matches Ok(_) ==> old(self).current < final(self).current,
            ({
                let s = sp_declaration(old(self).toks(), old(self).current as int);
                &&& final(self).current as int == s.pos
                &&& match r {
                    Ok(st) => s.res == Ok::<StmtV, ParseIssueV>(st@),
                    Err(i) => s.res == Err::<StmtV, ParseIssueV>(i@),
                }
            }),
        decreases old(self).tokens@.len() - old(self).current, 20int,
    {
        let ghost toks = self.toks();
        let ghost pos0 = self.current as int;
        proof {
            assert(toks.len() == self.tokens.len());
        }
        let k = self.peek_kind();
        if k == TokenType::Var {
            self.current = self.current + 1;
            proof {
                assert(sp_declaration(toks, pos0) == sp_var_decl(toks, pos0 + 1));
            }
            self.var_declaration()
        } else {
            proof {
                assert(sp_declaration(toks, pos0) == sp_statement(toks, pos0));
            }
            self.statement()
        }
    }

    /// Panic-mode recovery: skips the offending token, then advances to the
    /// next statement boundary (right after a semicolon, right before a
    /// boundary keyword, or the end of input), so one malformed statement
    /// does not prevent parsing the rest of the unit.
    #[verifier::spinoff_prover]
    #[verifier::rlimit(100)]
    fn synchronize(&mut self)
        requires
            old(self).current <= old(self).tokens@.len(),
        ensures
            final(self).tokens == old(self).tokens,
            final(self).error == old(self).error,
            old(self).current <= final(self).current <= old(self).tokens@.len(),
            old(self).current < old(self).tokens@.len() ==> old(self).current < final(self).current,
            final(self).current as int == sp_sync(old(self).toks(), old(self).current as int),
    {
        let ghost toks = self.toks();
        let ghost pos0 = self.current as int;
        proof {
            assert(toks.len() == self.tokens.len());
        }
        if self.current < self.tokens.len() {
            self.current = self.current + 1;
        }
        proof {
            if pos0 == toks.len() {
                assert(sp_sync_loop(toks, pos0 + 1) == toks.len() as int);
                assert(sp_sync_loop(toks, self.current as int) == toks.len() as int);
            }
        }
        loop
            invariant
                self.tokens == old(self).tokens,
                self.error == old(self).error,
                toks_view(self.tokens@) == toks,
                toks.len() == self.tokens@.len(),
                self.current <= self.tokens@.len(),
                pos0 < self.current as int || (pos0 == toks.len() && self.current as int == pos0),
                sp_sync(toks, pos0) == sp_sync_loop(toks, self.current as int),
            ensures
                self.tokens == old(self).tokens,
                self.error == old(self).error,
                self.current <= self.tokens@.len(),
                pos0 < self.current as int || (pos0 == toks.len() && self.current as int == pos0),
                sp_sync(toks, pos0) == self.current as int,
            decreases self.tokens@.len() - self.current,
        {
            if self.current >= self.tokens.len() {
                proof {
                    assert(sp_sync_loop(toks, self.current as int) == toks.len() as int);
                }
                break;
            }
            let k = self.tokens[self.current].token_type;
            proof {
                assert(toks[self.current as int] == self.tokens@[self.current as int]@);
            }
            if k == TokenType::Eof {
                proof {
                    assert(sp_sync_loop(toks, self.current as int) == self.current as int);
                }
                break;
            }
            let prev_semi = if self.current == 0 {
                false
            } else {
                proof {
                    assert(toks[self.current - 1] == self.tokens@[self.current - 1]@);
                }
                self.tokens[self.current - 1].token_type == TokenType::Semicolon
            };
            if prev_semi {
                proof {
                    assert(sp_sync_loop(toks, self.current as int) == self.current as int);
                }
                break;
            }
            if k == TokenType::Class || k == TokenType::Fun || k == TokenType::Var || k
                == TokenType::For || k == TokenType::If || k == TokenType::While || k
                == TokenType::Print || k == TokenType::Return {
                proof {
                    assert(sp_sync_loop(toks, self.current as int) == self.current as int);
                }
                break;
            }
            proof {
                assert(pk(toks, self.current as int - 1) != TokenType::Semicolon);
                assert(sp_sync_loop(toks, self.current as int) == sp_sync_loop(
                    toks,
                    self.current as int + 1,
                ));
            }
            self.current = self.current + 1;
        }
    }

    /// One step of the unit parse: parses one declaration, appending the
    /// statement on success, and on a fault recording it and
    /// resynchronizing at the next statement boundary.
    #[verifier::spinoff_prover]
    #[verifier::rlimit(100)]
    fn parse_step(&mut self, stmts: &mut Vec<Stmt>)
        requires
            old(self).current <= old(self).tokens@.len(),
            !at_end(old(self).toks(), old(self).current as int),
        ensures
            final(self).tokens == old(self).tokens,
            old(self).current < final(self).current <= old(self).tokens@.len(),
            old(self).error.issues@.len() <= final(self).error.issues@.len(),
            final(self).error.had_err == (old(self).error.had_err
                || final(self).error.issues@.len() > old(self).error.issues@.len()),
            stmts_view(old(stmts)@) + sp_program(old(self).toks(), old(self).current as int).stmts
                == stmts_view(final(stmts)@) + sp_program(
                old(self).toks(),
                final(self).current as int,
            ).stmts,
            issues_view(old(self).error.issues@) + sp_program(
                old(self).toks(),
                old(self).current as int,
            ).issues == issues_view(final(self).error.issues@) + sp_program(
                old(self).toks(),
                final(self).current as int,
            ).issues,
    {
        let ghost toks = self.toks();
        let ghost cur0 = self.current as int;
        proof {
            assert(toks.len() == self.tokens.len());
        }
        match self.declaration() {
            Ok(st) => {
                let ghost sv = st@;
                let ghost cur2 = self.current as int;
                let ghost pre = stmts@;
                stmts.push(st);
                proof {
                    lemma_program_step_ok(toks, cur0, sv, cur2);
                    lemma_stmts_view_push(pre, st);
                    lemma_push_assoc_stmt(stmts_view(pre), sv, sp_program(toks, cur2).stmts);
                }
            },
            Err(i) => {
                let ghost iv = i@;
                let ghost errpos = self.current as int;
                let ghost pre = self.error.issues@;
                self.error.send(i);
                self.synchronize();
                proof {
                    lemma_program_step_err(toks, cur0, iv, errpos);
                    assert(padv(toks.len() as int, cur0 + 1, sp_sync(toks, errpos))
                        == self.current as int);
                    lemma_issues_view_push(pre, i);
                    lemma_push_assoc_issue(
                        issues_view(pre),
                        iv,
                        sp_program(toks, self.current as int).issues,
                    );
                }
            },
        }
    }

    /// Parses the whole unit: the successfully built statements, in order,
    /// with panic-mode recovery at statement boundaries.  Afterwards
    /// `error` holds exactly the unit's parse faults; any fault must block
    /// evaluation of the unit.
    #[verifier::spinoff_prover]
    #[verifier::rlimit(100)]
    pub fn parse(&mut self) -> (r: Vec<Stmt>)
        requires
            old(self).current == 0,
            !old(self).error.had_err,
            old(self).error.issues@.len() == 0,
        ensures
            final(self).tokens == old(self).tokens,
            stmts_view(r@) == sp_program(old(self).toks(), 0).stmts,
            issues_view(final(self).error.issues@) == sp_program(old(self).toks(), 0).issues,
            final(self).error.had_err == (sp_program(old(self).toks(), 0).issues.len() > 0),
    {
        let ghost toks = self.toks();
        proof {
            assert(toks.len() == self.tokens.len());
        }
        let mut stmts: Vec<Stmt> = Vec::new();
        proof {
            assert(stmts_view(stmts@) =~= Seq::<StmtV>::empty());
            assert(issues_view(self.error.issues@) =~= Seq::<ParseIssueV>::empty());
            assert(stmts_view(stmts@) + sp_program(toks, 0).stmts =~= sp_program(toks, 0).stmts);
            assert(issues_view(self.error.issues@) + sp_program(toks, 0).issues =~= sp_program(
                toks,
                0,
            ).issues);
        }
        loop
            invariant
                self.tokens == old(self).tokens,
                toks_view(self.tokens@) == toks,
                toks.len() == self.tokens@.len(),
                self.current <= self.tokens@.len(),
                sp_program(toks, 0).stmts == stmts_view(stmts@) + sp_program(
                    toks,
                    self.current as int,
                ).stmts,
                sp_program(toks, 0).issues == issues_view(self.error.issues@) + sp_program(
                    toks,
                    self.current as int,
                ).issues,
                self.error.had_err == (self.error.issues@.len() > 0),
            ensures
                self.tokens == old(self).tokens,
                at_end(toks, self.current as int),
                sp_program(toks, 0).stmts == stmts_view(stmts@) + sp_program(
                    toks,
                    self.current as int,
                ).stmts,
                sp_program(toks, 0).issues == issues_view(self.error.issues@) + sp_program(
                    toks,
                    self.current as int,
                ).issues,
                self.error.had_err == (self.error.issues@.len() > 0),
            decreases self.tokens@.len() - self.current,
        {
            if self.is_at_end() {
                break;
            }
            self.parse_step(&mut stmts);
        }
        proof {
            lemma_program_end(toks, self.current as int);
            assert(stmts_view(stmts@) + sp_program(toks, self.current as int).stmts =~= stmts_view(
                stmts@,
            ));
            assert(issues_view(self.error.issues@) + sp_program(toks, self.current as int).issues
                =~= issues_view(self.error.issues@));
        }
        stmts
    }

}

} // verus!
