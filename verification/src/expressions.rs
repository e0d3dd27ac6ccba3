//! Expression trees: the output of the parser, their mathematical view,
//! the constructors, the canonical diagnostic rendering, and the token
//! rendering of a tree.

use vstd::prelude::*;
use vstd::string::*;

use crate::tokens::{Token, TokenView, spec_token_text, token_text};

verus! {

/// A literal leaf carrying its decoded payload.
#[derive(Debug, Clone, PartialEq)]
pub struct Literal<T> {
    pub value: T,
}

/// A prefix operator applied to one operand.
#[derive(Debug)]
pub struct Unary {
    pub operator: Token,
    pub right: Box<Expression>,
}

/// An infix operator applied to two operands.
#[derive(Debug)]
pub struct Binary {
    pub left: Box<Expression>,
    pub operator: Token,
    pub right: Box<Expression>,
}

/// A parenthesized expression.
#[derive(Debug)]
pub struct Grouping {
    pub expression: Box<Expression>,
}

/// One node of the expression tree. Each non-leaf node exclusively owns
/// its children; a numeric literal carries its source lexeme.
#[derive(Debug)]
pub enum Expression {
    LiteralStr(Literal<String>),
    LiteralNum(Literal<String>),
    LiteralBool(Literal<bool>),
    Unary(Unary),
    Binary(Binary),
    Grouping(Grouping),
}

/// The mathematical view of an expression tree.
pub enum ExprView {
    LiteralStr(Seq<char>),
    LiteralNum(Seq<char>),
    LiteralBool(bool),
    Unary(TokenView, Box<ExprView>),
    Binary(Box<ExprView>, TokenView, Box<ExprView>),
    Grouping(Box<ExprView>),
}

/// The view of an expression tree.
pub open spec fn expr_view(e: &Expression) -> ExprView
    decreases e,
{
    match e {
        Expression::LiteralStr(l) => ExprView::LiteralStr(l.value@),
        Expression::LiteralNum(l) => ExprView::LiteralNum(l.value@),
        Expression::LiteralBool(l) => ExprView::LiteralBool(l.value),
        Expression::Unary(u) => ExprView::Unary(u.operator@, Box::new(expr_view(&u.right))),
        Expression::Binary(b) => ExprView::Binary(
            Box::new(expr_view(&b.left)),
            b.operator@,
            Box::new(expr_view(&b.right)),
        ),
        Expression::Grouping(g) => ExprView::Grouping(Box::new(expr_view(&g.expression))),
    }
}

impl View for Expression {
    type V = ExprView;

    open spec fn view(&self) -> ExprView {
        expr_view(self)
    }
}

impl Expression {
    /// A string literal leaf.
    pub fn literal_str(value: String) -> (e: Expression)
        ensures
            e@ == ExprView::LiteralStr(value@),
    {
        Expression::LiteralStr(Literal { value })
    }

    /// A numeric literal leaf carrying its lexeme.
    pub fn literal_num(value: String) -> (e: Expression)
        ensures
            e@ == ExprView::LiteralNum(value@),
    {
        Expression::LiteralNum(Literal { value })
    }

    /// A boolean literal leaf.
    pub fn literal_bool(value: bool) -> (e: Expression)
        ensures
            e@ == ExprView::LiteralBool(value),
    {
        Expression::LiteralBool(Literal { value })
    }

    /// A unary node.
    pub fn unary(operator: Token, right: Expression) -> (e: Expression)
        ensures
            e@ == ExprView::Unary(operator@, Box::new(right@)),
    {
        Expression::Unary(Unary { operator, right: Box::new(right) })
    }

    /// A binary node.
    pub fn binary(left: Expression, operator: Token, right: Expression) -> (e: Expression)
        ensures
            e@ == ExprView::Binary(Box::new(left@), operator@, Box::new(right@)),
    {
        Expression::Binary(Binary { left: Box::new(left), operator, right: Box::new(right) })
    }

    /// A grouping node.
    pub fn grouping(expression: Expression) -> (e: Expression)
        ensures
            e@ == ExprView::Grouping(Box::new(expression@)),
    {
        Expression::Grouping(Grouping { expression: Box::new(expression) })
    }
}

/// The canonical diagnostic rendering of a tree: unary as
/// `(operator operand)` without a space, binary as `(operator left right)`,
/// grouping as `(inner)`, literals as their literal text. Meant for
/// tracing and error messages, not as a parseable serialization.
pub open spec fn spec_expression_text(e: ExprView) -> Seq<char>
    decreases e,
{
    match e {
        ExprView::LiteralStr(s) => s,
        ExprView::LiteralNum(s) => s,
        ExprView::LiteralBool(b) => if b {
            "true"@
        } else {
            "false"@
        },
        ExprView::Unary(op, r) => seq!['('] + spec_token_text(op) + spec_expression_text(*r)
            + seq![')'],
        ExprView::Binary(l, op, r) => seq!['('] + spec_token_text(op) + seq![' ']
            + spec_expression_text(*l) + seq![' '] + spec_expression_text(*r) + seq![')'],
        ExprView::Grouping(i) => seq!['('] + spec_expression_text(*i) + seq![')'],
    }
}

/// Renders a tree in the canonical fully parenthesized form.
pub fn expression_text(e: &Expression) -> (r: String)
    ensures
        r@ == spec_expression_text(e@),
    decreases e,
{
    match e {
        Expression::LiteralStr(l) => l.value.clone(),
        Expression::LiteralNum(l) => l.value.clone(),
        Expression::LiteralBool(l) => {
            if l.value {
                String::from_str("true")
            } else {
                String::from_str("false")
            }
        },
        Expression::Unary(u) => {
            let mut s = String::from_str("(");
            let op = token_text(&u.operator);
            s.append(op.as_str());
            let inner = expression_text(&u.right);
            s.append(inner.as_str());
            s.append(")");
            proof {
                reveal_strlit("(");
                reveal_strlit(")");
                reveal_strlit(" ");
                assert(s@ =~= spec_expression_text(e@));
            }
            s
        },
        Expression::Binary(b) => {
            let mut s = String::from_str("(");
            let op = token_text(&b.operator);
            s.append(op.as_str());
            s.append(" ");
            let left = expression_text(&b.left);
            s.append(left.as_str());
            s.append(" ");
            let right = expression_text(&b.right);
            s.append(right.as_str());
            s.append(")");
            proof {
                reveal_strlit("(");
                reveal_strlit(")");
                reveal_strlit(" ");
                assert(s@ =~= spec_expression_text(e@));
            }
            s
        },
        Expression::Grouping(g) => {
            let mut s = String::from_str("(");
            let inner = expression_text(&g.expression);
            s.append(inner.as_str());
            s.append(")");
            proof {
                reveal_strlit("(");
                reveal_strlit(")");
                reveal_strlit(" ");
                assert(s@ =~= spec_expression_text(e@));
            }
            s
        },
    }
}

/// The tokens a tree stands for, in source order: the tokens the parser
/// consumed to build it.
pub open spec fn toks_of(e: ExprView) -> Seq<TokenView>
    decreases e,
{
    match e {
        ExprView::LiteralStr(s) => seq![TokenView::Str(s)],
        ExprView::LiteralNum(s) => seq![TokenView::Number(s)],
        ExprView::LiteralBool(b) => seq![
            if b {
                TokenView::True
            } else {
                TokenView::False
            },
        ],
        ExprView::Unary(op, r) => seq![op] + toks_of(*r),
        ExprView::Binary(l, op, r) => toks_of(*l) + seq![op] + toks_of(*r),
        ExprView::Grouping(i) => seq![TokenView::LeftParen] + toks_of(*i) + seq![
            TokenView::RightParen,
        ],
    }
}

} // verus!
