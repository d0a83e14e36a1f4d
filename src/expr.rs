//! Expression trees and their views.
use vstd::prelude::*;
use crate::token::{Literal, LiteralView, Token, TokenView};

verus! {

/// An expression tree. Each node owns its children.
#[derive(Debug)]
pub enum Expr {
    Binary(Box<Expr>, Token, Box<Expr>),
    Unary(Token, Box<Expr>),
    Literal(Literal),
    Grouping(Box<Expr>),
}

/// The mathematical value of an [`Expr`].
pub enum ExprView {
    Binary(Box<ExprView>, TokenView, Box<ExprView>),
    Unary(TokenView, Box<ExprView>),
    Literal(LiteralView),
    Grouping(Box<ExprView>),
}

pub open spec fn expr_view(e: Expr) -> ExprView
    decreases e,
{
    match e {
        Expr::Binary(l, op, r) => ExprView::Binary(Box::new(expr_view(*l)), op@, Box::new(expr_view(*r))),
        Expr::Unary(op, x) => ExprView::Unary(op@, Box::new(expr_view(*x))),
        Expr::Literal(v) => ExprView::Literal(v@),
        Expr::Grouping(x) => ExprView::Grouping(Box::new(expr_view(*x))),
    }
}

impl View for Expr {
    type V = ExprView;

    open spec fn view(&self) -> ExprView {
        expr_view(*self)
    }
}

} // verus!
