//! The expression tree the parser builds, and its fully parenthesized
//! textual rendering.
//!
//! Every node owns its children; a tree is built bottom-up and never
//! mutated afterwards.  Rendering is prefix-style for operators — a binary
//! `+` renders as `(+ 1 2)`, a grouping as `(grp …)` — and a literal
//! renders as its textual form, with `nil` for the absent value.

use vstd::prelude::*;
use vstd::string::*;

use crate::token::{Literal, LiteralModel, Token, TokenModel};

verus! {

/// An expression: one of the closed set of node shapes.
#[derive(Debug)]
pub enum Expr {
    Bin(Box<Bin>),
    Un(Box<Un>),
    Grp(Box<Grp>),
    Lit(Lit),
    Cond(Box<Cond>),
}

/// A binary operation.
#[derive(Debug)]
pub struct Bin {
    pub left: Expr,
    pub operator: Token,
    pub right: Expr,
}

/// A prefix operation.
#[derive(Debug)]
pub struct Un {
    pub operator: Token,
    pub right: Expr,
}

/// A parenthesized grouping.
#[derive(Debug)]
pub struct Grp {
    pub expression: Expr,
}

/// A literal; `None` is the `nil` literal.  The boolean literals carry
/// their keyword text as an identifier-shaped value.
#[derive(Debug)]
pub struct Lit {
    pub value: Option<Literal>,
}

/// A ternary conditional.
#[derive(Debug)]
pub struct Cond {
    pub cond: Expr,
    pub cons: Expr,
    pub alt: Expr,
}

/// The mathematical value of an expression tree.
pub enum ExprModel {
    Bin { left: Box<ExprModel>, operator: TokenModel, right: Box<ExprModel> },
    Un { operator: TokenModel, right: Box<ExprModel> },
    Grp { inner: Box<ExprModel> },
    Lit { value: Option<LiteralModel> },
    Cond { cond: Box<ExprModel>, cons: Box<ExprModel>, alt: Box<ExprModel> },
}

/// The model of an expression tree, node by node.
pub open spec fn expr_model(e: Expr) -> ExprModel
    decreases e,
{
    match e {
        Expr::Bin(b) => ExprModel::Bin {
            left: Box::new(expr_model(b.left)),
            operator: b.operator@,
            right: Box::new(expr_model(b.right)),
        },
        Expr::Un(u) => ExprModel::Un {
            operator: u.operator@,
            right: Box::new(expr_model(u.right)),
        },
        Expr::Grp(g) => ExprModel::Grp { inner: Box::new(expr_model(g.expression)) },
        Expr::Lit(l) => ExprModel::Lit {
            value: match l.value {
                Some(v) => Some(v@),
                None => None,
            },
        },
        Expr::Cond(c) => ExprModel::Cond {
            cond: Box::new(expr_model(c.cond)),
            cons: Box::new(expr_model(c.cons)),
            alt: Box::new(expr_model(c.alt)),
        },
    }
}

impl View for Expr {
    type V = ExprModel;

    open spec fn view(&self) -> ExprModel {
        expr_model(*self)
    }
}

/// The textual form of a literal value; the absent value renders as `nil`.
pub open spec fn lit_text(v: Option<LiteralModel>) -> Seq<char> {
    match v {
        None => "nil"@,
        Some(LiteralModel::Identifier(t)) => t,
        Some(LiteralModel::Str(t)) => t,
        Some(LiteralModel::Number(t)) => t,
    }
}

/// The fully parenthesized rendering of an expression tree.
pub open spec fn render_of(e: ExprModel) -> Seq<char>
    decreases e,
{
    match e {
        ExprModel::Bin { left, operator, right } => "("@ + operator.lexeme + " "@ + render_of(
            *left,
        ) + " "@ + render_of(*right) + ")"@,
        ExprModel::Un { operator, right } => "("@ + operator.lexeme + " "@ + render_of(*right)
            + ")"@,
        ExprModel::Grp { inner } => "(grp "@ + render_of(*inner) + ")"@,
        ExprModel::Lit { value } => lit_text(value),
        ExprModel::Cond { cond, cons, alt } => "("@ + render_of(*cond) + " ? "@ + render_of(*cons)
            + " : "@ + render_of(*alt) + ")"@,
    }
}

impl Expr {
    /// Renders the tree as its fully parenthesized textual form.
    pub fn render(&self) -> (r: String)
        ensures
            r@ == render_of(self@),
        decreases *self,
    {
        match self {
            Expr::Bin(b) => {
                let mut out = String::from_str("(");
                out.append(b.operator.lexeme.as_str());
                out.append(" ");
                let left = b.left.render();
                out.append(left.as_str());
                out.append(" ");
                let right = b.right.render();
                out.append(right.as_str());
                out.append(")");
                out
            },
            Expr::Un(u) => {
                let mut out = String::from_str("(");
                out.append(u.operator.lexeme.as_str());
                out.append(" ");
                let right = u.right.render();
                out.append(right.as_str());
                out.append(")");
                out
            },
            Expr::Grp(g) => {
                let mut out = String::from_str("(grp ");
                let inner = g.expression.render();
                out.append(inner.as_str());
                out.append(")");
                out
            },
            Expr::Lit(l) => {
                match &l.value {
                    None => String::from_str("nil"),
                    Some(Literal::Identifier(t)) => t.clone(),
                    Some(Literal::Str(t)) => t.clone(),
                    Some(Literal::Number(t)) => t.clone(),
                }
            },
            Expr::Cond(c) => {
                let mut out = String::from_str("(");
                let cond = c.cond.render();
                out.append(cond.as_str());
                out.append(" ? ");
                let cons = c.cons.render();
                out.append(cons.as_str());
                out.append(" : ");
                let alt = c.alt.render();
                out.append(alt.as_str());
                out.append(")");
                out
            },
        }
    }
}

} // verus!
