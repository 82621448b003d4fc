//! Expression nodes.  The tree is a pure value type: each child is owned
//! outright by its parent, and the grammar cannot produce cycles.

use vstd::prelude::*;
use crate::token::{
    Object, Token, TokenType, TokenV, Value, display, push_all, clone_bytes, B_LPAREN, B_RPAREN,
    B_SPACE, B_EQ, B_G, B_R, B_O, B_U, B_P, B_STAR, B_SLASH, B_PLUS, B_MINUS, B_QMARK,
};

verus! {

/// The mathematical model of an expression: the view of an [`Expr`].
pub ghost enum ExprV {
    Literal(Value),
    Grouping(Box<ExprV>),
    Unary(TokenV, Box<ExprV>),
    Binary(Box<ExprV>, TokenV, Box<ExprV>),
    Logical(Box<ExprV>, TokenV, Box<ExprV>),
    Variable(TokenV),
    Assign(TokenV, Box<ExprV>),
}

/// An expression node.  `Logical` is kept apart from `Binary` because its
/// operators short-circuit.
#[derive(Debug)]
pub enum Expr {
    Literal(Object),
    Grouping(Box<Expr>),
    Unary(Token, Box<Expr>),
    Binary(Box<Expr>, Token, Box<Expr>),
    Logical(Box<Expr>, Token, Box<Expr>),
    Variable(Token),
    Assign(Token, Box<Expr>),
}

/// The view of an expression, written as a free function so that the
/// recursion through boxed children is plainly well-founded.
pub open spec fn expr_view(e: Expr) -> ExprV
    decreases e,
{
    match e {
        Expr::Literal(o) => ExprV::Literal(o@),
        Expr::Grouping(x) => ExprV::Grouping(Box::new(expr_view(*x))),
        Expr::Unary(t, x) => ExprV::Unary(t@, Box::new(expr_view(*x))),
        Expr::Binary(l, t, r) => ExprV::Binary(Box::new(expr_view(*l)), t@, Box::new(expr_view(*r))),
        Expr::Logical(l, t, r) => ExprV::Logical(
            Box::new(expr_view(*l)),
            t@,
            Box::new(expr_view(*r)),
        ),
        Expr::Variable(t) => ExprV::Variable(t@),
        Expr::Assign(t, x) => ExprV::Assign(t@, Box::new(expr_view(*x))),
    }
}

impl View for Expr {
    type V = ExprV;

    open spec fn view(&self) -> ExprV {
        expr_view(*self)
    }
}

/// The symbol printed for a binary operator in the parenthesized rendering.
pub open spec fn op_symbol(k: TokenType) -> Seq<u8> {
    if k == TokenType::Star {
        seq![B_STAR]
    } else if k == TokenType::Slash {
        seq![B_SLASH]
    } else if k == TokenType::Plus {
        seq![B_PLUS]
    } else if k == TokenType::Minus {
        seq![B_MINUS]
    } else {
        seq![B_QMARK, B_QMARK]
    }
}

/// The parenthesized prefix rendering of an expression.
pub open spec fn expr_display(e: ExprV) -> Seq<u8>
    decreases e,
{
    match e {
        ExprV::Literal(v) => display(v),
        ExprV::Grouping(x) => seq![B_LPAREN, B_G, B_R, B_O, B_U, B_P, B_SPACE] + expr_display(*x)
            + seq![B_RPAREN],
        ExprV::Unary(t, x) => seq![B_LPAREN] + t.lexeme + seq![B_SPACE] + expr_display(*x)
            + seq![B_RPAREN],
        ExprV::Binary(l, t, r) => seq![B_LPAREN] + op_symbol(t.kind) + seq![B_SPACE]
            + expr_display(*l) + seq![B_SPACE] + expr_display(*r) + seq![B_RPAREN],
        ExprV::Logical(l, t, r) => seq![B_LPAREN] + t.lexeme + seq![B_SPACE] + expr_display(*l)
            + seq![B_SPACE] + expr_display(*r) + seq![B_RPAREN],
        ExprV::Variable(t) => t.lexeme,
        ExprV::Assign(t, x) => seq![B_LPAREN, B_EQ, B_SPACE] + t.lexeme + seq![B_SPACE]
            + expr_display(*x) + seq![B_RPAREN],
    }
}

impl Expr {
    /// The parenthesized prefix rendering of this expression.
    pub fn to_string(&self) -> (r: Vec<u8>)
        ensures
            r@ == expr_display(self@),
        decreases self,
    {
        match self {
            Expr::Literal(o) => o.to_string(),
            Expr::Grouping(x) => {
                let mut r: Vec<u8> = Vec::new();
                r.push(B_LPAREN);
                r.push(B_G);
                r.push(B_R);
                r.push(B_O);
                r.push(B_U);
                r.push(B_P);
                r.push(B_SPACE);
                let inner = x.to_string();
                push_all(&mut r, &inner);
                r.push(B_RPAREN);
                proof {
                    assert(r@ =~= expr_display(self@));
                }
                r
            },
            Expr::Unary(t, x) => {
                let mut r: Vec<u8> = Vec::new();
                r.push(B_LPAREN);
                push_all(&mut r, &t.lexeme);
                r.push(B_SPACE);
                let inner = x.to_string();
                push_all(&mut r, &inner);
                r.push(B_RPAREN);
                proof {
                    assert(r@ =~= expr_display(self@));
                }
                r
            },
            Expr::Binary(l, t, r0) => {
                let mut r: Vec<u8> = Vec::new();
                r.push(B_LPAREN);
                match t.token_type {
                    TokenType::Star => r.push(B_STAR),
                    TokenType::Slash => r.push(B_SLASH),
                    TokenType::Plus => r.push(B_PLUS),
                    TokenType::Minus => r.push(B_MINUS),
                    _ => {
                        r.push(B_QMARK);
                        r.push(B_QMARK);
                    },
                }
                r.push(B_SPACE);
                let left = l.to_string();
                push_all(&mut r, &left);
                r.push(B_SPACE);
                let right = r0.to_string();
                push_all(&mut r, &right);
                r.push(B_RPAREN);
                proof {
                    assert(r@ =~= expr_display(self@));
                }
                r
            },
            Expr::Logical(l, t, r0) => {
                let mut r: Vec<u8> = Vec::new();
                r.push(B_LPAREN);
                push_all(&mut r, &t.lexeme);
                r.push(B_SPACE);
                let left = l.to_string();
                push_all(&mut r, &left);
                r.push(B_SPACE);
                let right = r0.to_string();
                push_all(&mut r, &right);
                r.push(B_RPAREN);
                proof {
                    assert(r@ =~= expr_display(self@));
                }
                r
            },
            Expr::Variable(t) => clone_bytes(&t.lexeme),
            Expr::Assign(t, x) => {
                let mut r: Vec<u8> = Vec::new();
                r.push(B_LPAREN);
                r.push(B_EQ);
                r.push(B_SPACE);
                push_all(&mut r, &t.lexeme);
                r.push(B_SPACE);
                let inner = x.to_string();
                push_all(&mut r, &inner);
                r.push(B_RPAREN);
                proof {
                    assert(r@ =~= expr_display(self@));
                }
                r
            },
        }
    }
}

} // verus!
