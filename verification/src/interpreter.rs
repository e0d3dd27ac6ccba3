//! Type-directed evaluation: an expression tree to a runtime value.
//!
//! There is one evaluation entry point returning the closed `Value`
//! variant; all kind checks live inside it. Double-precision arithmetic
//! is delegated to a `NumberOps` port supplied by the caller: the library
//! carries a number as an opaque 64-bit pattern chosen by that port and
//! never inspects it, so everything except the floating-point arithmetic
//! itself is verified.

use vstd::prelude::*;
use vstd::string::*;

use crate::tokens::{Token, TokenView};
use crate::expressions::{Expression, ExprView, expr_view};

verus! {

/// A runtime value: produced only by evaluation.
#[derive(Debug, Clone, PartialEq)]
pub enum Value {
    Boolean(bool),
    /// A double, as the 64-bit pattern the `NumberOps` port chose for it.
    Number(u64),
    Str(String),
}

/// The mathematical view of a runtime value.
pub enum ValueView {
    Boolean(bool),
    Number(u64),
    Str(Seq<char>),
}

impl View for Value {
    type V = ValueView;

    open spec fn view(&self) -> ValueView {
        match self {
            Value::Boolean(b) => ValueView::Boolean(*b),
            Value::Number(n) => ValueView::Number(*n),
            Value::Str(s) => ValueView::Str(s@),
        }
    }
}

/// A fatal evaluation error.
#[derive(Debug, Clone, PartialEq)]
pub enum EvalError {
    /// An operand evaluated to a kind its operator does not accept, or
    /// an operator token that no evaluation rule covers.
    TypeMismatch,
    /// The `NumberOps` port refused a numeric literal's lexeme.
    InvalidNumberLiteral,
}

/// The port for double-precision arithmetic. An implementation decodes a
/// numeric lexeme into a 64-bit pattern and combines such patterns with
/// IEEE double semantics; the library treats the patterns as opaque.
pub trait NumberOps {
    /// Decodes a numeric literal's lexeme.
    fn parse_num(&self, lexeme: &str) -> Option<u64>;

    /// Arithmetic negation.
    fn neg_num(&self, a: u64) -> u64;

    /// Addition.
    fn add_num(&self, a: u64, b: u64) -> u64;

    /// Subtraction.
    fn sub_num(&self, a: u64, b: u64) -> u64;

    /// Multiplication.
    fn mul_num(&self, a: u64, b: u64) -> u64;

    /// Division.
    fn div_num(&self, a: u64, b: u64) -> u64;
}

/// The kind of a runtime value.
pub enum Kind {
    Bool,
    Num,
    Str,
}

/// The kind an expression evaluates to, or `None` on any type mismatch:
/// `!` demands a boolean operand, unary `-` a number; `-`, `*`, `/`
/// demand numbers; `+` demands two numbers or two strings; a grouping is
/// transparent; no other operator is accepted. There is no implicit
/// coercion.
pub open spec fn kind_of(e: ExprView) -> Option<Kind>
    decreases e,
{
    match e {
        ExprView::LiteralBool(_) => Some(Kind::Bool),
        ExprView::LiteralNum(_) => Some(Kind::Num),
        ExprView::LiteralStr(_) => Some(Kind::Str),
        ExprView::Grouping(i) => kind_of(*i),
        ExprView::Unary(op, r) => {
            if op == TokenView::Bang {
                if kind_of(*r) == Some(Kind::Bool) {
                    Some(Kind::Bool)
                } else {
                    None
                }
            } else if op == TokenView::Minus {
                if kind_of(*r) == Some(Kind::Num) {
                    Some(Kind::Num)
                } else {
                    None
                }
            } else {
                None
            }
        },
        ExprView::Binary(l, op, r) => {
            if op == TokenView::Minus || op == TokenView::Star || op == TokenView::Slash {
                if kind_of(*l) == Some(Kind::Num) && kind_of(*r) == Some(Kind::Num) {
                    Some(Kind::Num)
                } else {
                    None
                }
            } else if op == TokenView::Plus {
                if kind_of(*l) == Some(Kind::Num) && kind_of(*r) == Some(Kind::Num) {
                    Some(Kind::Num)
                } else if kind_of(*l) == Some(Kind::Str) && kind_of(*r) == Some(Kind::Str) {
                    Some(Kind::Str)
                } else {
                    None
                }
            } else {
                None
            }
        },
    }
}

/// The boolean a boolean-kinded expression evaluates to.
pub open spec fn bool_val(e: ExprView) -> bool
    decreases e,
{
    match e {
        ExprView::LiteralBool(b) => b,
        ExprView::Grouping(i) => bool_val(*i),
        ExprView::Unary(_, r) => !bool_val(*r),
        _ => arbitrary(),
    }
}

/// The string a string-kinded expression evaluates to.
pub open spec fn str_val(e: ExprView) -> Seq<char>
    decreases e,
{
    match e {
        ExprView::LiteralStr(s) => s,
        ExprView::Grouping(i) => str_val(*i),
        ExprView::Binary(l, _, r) => str_val(*l) + str_val(*r),
        _ => arbitrary(),
    }
}

/// Evaluates an expression to a runtime value, or fails: with
/// `TypeMismatch` exactly when the tree is ill-kinded, and with
/// `InvalidNumberLiteral` only when the port refuses a numeric lexeme.
/// Boolean and string results are pinned down exactly; a numeric result
/// is whatever patterns the port handed back.
pub fn evaluate<O: NumberOps>(e: &Expression, ops: &O) -> (r: Result<Value, EvalError>)
    ensures
        r == Err::<Value, EvalError>(EvalError::TypeMismatch) ==> kind_of(e@) is None,
        kind_of(e@) is None ==> r is Err,
        kind_of(e@) == Some(Kind::Bool) ==> r == Ok::<Value, EvalError>(
            Value::Boolean(bool_val(e@)),
        ),
        kind_of(e@) == Some(Kind::Str) ==> (r matches Ok(v) && v@ == ValueView::Str(
            str_val(e@),
        )),
        kind_of(e@) == Some(Kind::Num) ==> ((r matches Ok(v) && v@ matches ValueView::Number(_))
            || r == Err::<Value, EvalError>(EvalError::InvalidNumberLiteral)),
    decreases e,
{
    match e {
        Expression::LiteralBool(l) => Ok(Value::Boolean(l.value)),
        Expression::LiteralNum(l) => {
            match ops.parse_num(l.value.as_str()) {
                Some(bits) => Ok(Value::Number(bits)),
                None => Err(EvalError::InvalidNumberLiteral),
            }
        },
        Expression::LiteralStr(l) => Ok(Value::Str(l.value.clone())),
        Expression::Grouping(g) => evaluate(&g.expression, ops),
        Expression::Unary(u) => {
            match u.operator {
                Token::Bang => {
                    let rv = evaluate(&u.right, ops);
                    match rv {
                        Ok(Value::Boolean(b)) => {
                            proof {
                                assert(kind_of(expr_view(&u.right)) == Some(Kind::Bool));
                            }
                            Ok(Value::Boolean(!b))
                        },
                        Ok(_) => Err(EvalError::TypeMismatch),
                        Err(err) => Err(err),
                    }
                },
                Token::Minus => {
                    let rv = evaluate(&u.right, ops);
                    match rv {
                        Ok(Value::Number(a)) => {
                            proof {
                                assert(kind_of(expr_view(&u.right)) == Some(Kind::Num));
                            }
                            Ok(Value::Number(ops.neg_num(a)))
                        },
                        Ok(_) => Err(EvalError::TypeMismatch),
                        Err(err) => Err(err),
                    }
                },
                _ => Err(EvalError::TypeMismatch),
            }
        },
        Expression::Binary(b) => {
            match b.operator {
                Token::Minus => {
                    let lv = evaluate(&b.left, ops);
                    let rv = evaluate(&b.right, ops);
                    match (lv, rv) {
                        (Ok(Value::Number(x)), Ok(Value::Number(y))) => {
                            proof {
                                assert(kind_of(expr_view(&b.left)) == Some(Kind::Num));
                                assert(kind_of(expr_view(&b.right)) == Some(Kind::Num));
                            }
                            Ok(Value::Number(ops.sub_num(x, y)))
                        },
                        (Err(err), _) => Err(err),
                        (_, Err(err)) => Err(err),
                        _ => Err(EvalError::TypeMismatch),
                    }
                },
                Token::Star => {
                    let lv = evaluate(&b.left, ops);
                    let rv = evaluate(&b.right, ops);
                    match (lv, rv) {
                        (Ok(Value::Number(x)), Ok(Value::Number(y))) => {
                            proof {
                                assert(kind_of(expr_view(&b.left)) == Some(Kind::Num));
                                assert(kind_of(expr_view(&b.right)) == Some(Kind::Num));
                            }
                            Ok(Value::Number(ops.mul_num(x, y)))
                        },
                        (Err(err), _) => Err(err),
                        (_, Err(err)) => Err(err),
                        _ => Err(EvalError::TypeMismatch),
                    }
                },
                Token::Slash => {
                    let lv = evaluate(&b.left, ops);
                    let rv = evaluate(&b.right, ops);
                    match (lv, rv) {
                        (Ok(Value::Number(x)), Ok(Value::Number(y))) => {
                            proof {
                                assert(kind_of(expr_view(&b.left)) == Some(Kind::Num));
                                assert(kind_of(expr_view(&b.right)) == Some(Kind::Num));
                            }
                            Ok(Value::Number(ops.div_num(x, y)))
                        },
                        (Err(err), _) => Err(err),
                        (_, Err(err)) => Err(err),
                        _ => Err(EvalError::TypeMismatch),
                    }
                },
                Token::Plus => {
                    let lv = evaluate(&b.left, ops);
                    let rv = evaluate(&b.right, ops);
                    match (lv, rv) {
                        (Ok(Value::Number(x)), Ok(Value::Number(y))) => {
                            proof {
                                assert(kind_of(expr_view(&b.left)) == Some(Kind::Num));
                                assert(kind_of(expr_view(&b.right)) == Some(Kind::Num));
                            }
                            Ok(Value::Number(ops.add_num(x, y)))
                        },
                        (Ok(Value::Str(x)), Ok(Value::Str(y))) => {
                            proof {
                                assert(kind_of(expr_view(&b.left)) == Some(Kind::Str));
                                assert(kind_of(expr_view(&b.right)) == Some(Kind::Str));
                            }
                            Ok(Value::Str(x.concat(y.as_str())))
                        },
                        (Err(err), _) => Err(err),
                        (_, Err(err)) => Err(err),
                        _ => Err(EvalError::TypeMismatch),
                    }
                },
                _ => Err(EvalError::TypeMismatch),
            }
        },
    }
}

} // verus!
