//! Statement nodes, and the view of a statement list.

use vstd::prelude::*;
use crate::expr::{Expr, ExprV};
use crate::token::{Token, TokenV};

verus! {

/// The mathematical model of a statement: the view of a [`Stmt`].
pub ghost enum StmtV {
    ExprStmt(ExprV),
    PrintStmt(ExprV),
    VarStmt(TokenV, Option<ExprV>),
    BlockStmt(Seq<StmtV>),
    IfStmt(ExprV, Box<StmtV>, Option<Box<StmtV>>),
    WhileStmt(ExprV, Box<StmtV>),
}

/// A statement node.
#[derive(Debug)]
pub enum Stmt {
    /// An expression evaluated for its effects; the value is discarded.
    ExprStmt(Expr),
    /// Evaluates and writes the value's display string and a newline.
    PrintStmt(Expr),
    /// Declares a name in the current scope, with an optional initializer.
    VarStmt(Token, Option<Expr>),
    /// A braced sequence of statements run in a fresh child scope.
    BlockStmt(Vec<Stmt>),
    /// Condition, then-branch, optional else-branch.
    IfStmt(Expr, Box<Stmt>, Option<Box<Stmt>>),
    /// Condition and body.
    WhileStmt(Expr, Box<Stmt>),
}

/// The views of a statement list.
pub open spec fn stmts_view(ss: Seq<Stmt>) -> Seq<StmtV>
    decreases ss,
{
    if ss.len() == 0 {
        Seq::empty()
    } else {
        seq![stmt_view(ss[0])] + stmts_view(ss.drop_first())
    }
}

/// The view of a statement, written as a free function so that the mutual
/// recursion with [`stmts_view`] is plainly well-founded.
pub open spec fn stmt_view(s: Stmt) -> StmtV
    decreases s,
{
    match s {
        Stmt::ExprStmt(e) => StmtV::ExprStmt(e@),
        Stmt::PrintStmt(e) => StmtV::PrintStmt(e@),
        Stmt::VarStmt(t, i) => StmtV::VarStmt(
            t@,
            match i {
                Some(e) => Some(e@),
                None => None,
            },
        ),
        Stmt::BlockStmt(v) => StmtV::BlockStmt(stmts_view(v@)),
        Stmt::IfStmt(c, t, e) => StmtV::IfStmt(
            c@,
            Box::new(stmt_view(*t)),
            match e {
                Some(b) => Some(Box::new(stmt_view(*b))),
                None => None,
            },
        ),
        Stmt::WhileStmt(c, b) => StmtV::WhileStmt(c@, Box::new(stmt_view(*b))),
    }
}

impl View for Stmt {
    type V = StmtV;

    open spec fn view(&self) -> StmtV {
        stmt_view(*self)
    }
}

/// `stmts_view` maps the list elementwise.
pub proof fn lemma_stmts_view(ss: Seq<Stmt>)
    ensures
        stmts_view(ss).len() == ss.len(),
        forall|i: int| 0 <= i < ss.len() ==> stmts_view(ss)[i] == #[trigger] ss[i]@,
    decreases ss.len(),
{
    if ss.len() > 0 {
        lemma_stmts_view(ss.drop_first());
        assert forall|i: int| 0 <= i < ss.len() implies stmts_view(ss)[i] == #[trigger] ss[i]@ by {
            if i > 0 {
                assert(ss.drop_first()[i - 1] == ss[i]);
                assert(stmts_view(ss)[i] == stmts_view(ss.drop_first())[i - 1]);
            }
        }
    }
}

/// Pushing one statement extends the view list by its view.
pub proof fn lemma_stmts_view_push(ss: Seq<Stmt>, s: Stmt)
    ensures
        stmts_view(ss.push(s)) == stmts_view(ss).push(s@),
{
    lemma_stmts_view(ss);
    lemma_stmts_view(ss.push(s));
    assert forall|i: int| 0 <= i < ss.len() + 1 implies stmts_view(ss.push(s))[i] == stmts_view(
        ss,
    ).push(s@)[i] by {
        if i < ss.len() {
            assert(ss.push(s)[i] == ss[i]);
            assert(stmts_view(ss.push(s))[i] == ss[i]@);
        } else {
            assert(ss.push(s)[i] == s);
            assert(stmts_view(ss.push(s))[i] == s@);
        }
    }
    assert(stmts_view(ss.push(s)) =~= stmts_view(ss).push(s@));
}

} // verus!
