//! Recursive-descent parsing: tokens to an expression tree.
//!
//! The grammar has fixed precedence, lowest to highest: equality,
//! comparison, term, factor, unary, primary. Binary levels fold
//! left-associatively; unary is right-associative; primary matches a
//! literal or a parenthesized expression. The token list is consumed as
//! a stack (front of the list on top, so the list is reversed first).
//! The exact behaviour is the spec function `sp_parse`.

use vstd::prelude::*;

use crate::tokens::{Token, TokenView, toks_view};
use crate::expressions::{Expression, ExprView};

verus! {

/// A syntactic error.
#[derive(Debug, Clone, PartialEq)]
pub enum ParseError {
    /// The token stream was exhausted where a token was required.
    PopFailed,
    /// A grouping was opened and never closed.
    MissingRightParen,
    /// No primary production matched the token at hand.
    ExpectedExpression,
}

/// A parser state: the outcome for one production, the remaining token
/// stack, and the errors this production recorded. An `Err(Some(e))`
/// carries a best-effort partial tree for the caller's recovery.
pub struct ParserState {
    pub res: Result<ExprView, Option<ExprView>>,
    pub stk: Seq<TokenView>,
    pub errs: Seq<ParseError>,
}

/// The operators of one binary precedence level, lowest first.
pub open spec fn is_level_op(lvl: int, t: TokenView) -> bool {
    if lvl == 0 {
        t == TokenView::BangEqual || t == TokenView::EqualEqual
    } else if lvl == 1 {
        t == TokenView::Greater || t == TokenView::GreaterEqual || t == TokenView::Less || t
            == TokenView::LessEqual
    } else if lvl == 2 {
        t == TokenView::Minus || t == TokenView::Plus
    } else if lvl == 3 {
        t == TokenView::Slash || t == TokenView::Star
    } else {
        false
    }
}

/// The primary production: a literal leaf, or a parenthesized expression.
/// A missing closing parenthesis records `MissingRightParen` and hands
/// the inner expression back as recovery context; an exhausted stack
/// records `PopFailed`; any other token records `ExpectedExpression`.
pub open spec fn sp_primary(stk: Seq<TokenView>) -> ParserState
    decreases stk.len(), 0int, 1int,
{
    if stk.len() == 0 {
        ParserState { res: Err(None), stk, errs: seq![ParseError::PopFailed] }
    } else {
        let t = stk.last();
        let stk1 = stk.drop_last();
        match t {
            TokenView::False => ParserState {
                res: Ok(ExprView::LiteralBool(false)),
                stk: stk1,
                errs: seq![],
            },
            TokenView::True => ParserState {
                res: Ok(ExprView::LiteralBool(true)),
                stk: stk1,
                errs: seq![],
            },
            TokenView::Number(s) => ParserState {
                res: Ok(ExprView::LiteralNum(s)),
                stk: stk1,
                errs: seq![],
            },
            TokenView::Str(s) => ParserState {
                res: Ok(ExprView::LiteralStr(s)),
                stk: stk1,
                errs: seq![],
            },
            TokenView::LeftParen => {
                let inner = sp_level(0, stk1);
                match inner.res {
                    Ok(e) => {
                        if inner.stk.len() > 0 && inner.stk.last() == TokenView::RightParen {
                            ParserState {
                                res: Ok(ExprView::Grouping(Box::new(e))),
                                stk: inner.stk.drop_last(),
                                errs: inner.errs,
                            }
                        } else if inner.stk.len() > 0 {
                            // whatever token stood there is consumed and discarded
                            ParserState {
                                res: Err(Some(e)),
                                stk: inner.stk.drop_last(),
                                errs: inner.errs + seq![ParseError::MissingRightParen],
                            }
                        } else {
                            ParserState {
                                res: Err(Some(e)),
                                stk: inner.stk,
                                errs: inner.errs + seq![ParseError::MissingRightParen],
                            }
                        }
                    },
                    Err(opt) => ParserState { res: Err(opt), stk: inner.stk, errs: inner.errs },
                }
            },
            _ => ParserState {
                res: Err(None),
                stk: stk1,
                errs: seq![ParseError::ExpectedExpression],
            },
        }
    }
}

/// The unary production: a leading `!` or `-` applies to a unary operand,
/// allowing arbitrary prefix chains; otherwise primary.
pub open spec fn sp_unary(stk: Seq<TokenView>) -> ParserState
    decreases stk.len(), 1int, 1int,
{
    if stk.len() > 0 && (stk.last() == TokenView::Bang || stk.last() == TokenView::Minus) {
        let op = stk.last();
        let r = sp_unary(stk.drop_last());
        match r.res {
            Ok(e) => ParserState {
                res: Ok(ExprView::Unary(op, Box::new(e))),
                stk: r.stk,
                errs: r.errs,
            },
            Err(opt) => ParserState { res: Err(opt), stk: r.stk, errs: r.errs },
        }
    } else {
        sp_primary(stk)
    }
}

/// One binary precedence level: parse a next-higher operand, then fold
/// further operands left-associatively while this level's operators come.
pub open spec fn sp_level(lvl: int, stk: Seq<TokenView>) -> ParserState
    decreases stk.len(), (if lvl >= 3 { 2int } else { 5 - lvl }), 1int,
{
    let first = if lvl >= 3 {
        sp_unary(stk)
    } else {
        sp_level(lvl + 1, stk)
    };
    match first.res {
        Ok(e) => if first.stk.len() <= stk.len() {
            let lp = sp_level_loop(lvl, e, first.stk);
            ParserState { res: lp.res, stk: lp.stk, errs: first.errs + lp.errs }
        } else {
            first
        },
        Err(_) => first,
    }
}

/// The folding loop of one binary level, with `acc` parsed so far.
pub open spec fn sp_level_loop(lvl: int, acc: ExprView, stk: Seq<TokenView>) -> ParserState
    decreases stk.len(), (if lvl >= 3 { 2int } else { 5 - lvl }), 0int,
{
    if stk.len() > 0 && is_level_op(lvl, stk.last()) {
        let op = stk.last();
        let next = if lvl >= 3 {
            sp_unary(stk.drop_last())
        } else {
            sp_level(lvl + 1, stk.drop_last())
        };
        match next.res {
            Ok(right) => {
                let acc2 = ExprView::Binary(Box::new(acc), op, Box::new(right));
                if next.stk.len() < stk.len() {
                    let lp = sp_level_loop(lvl, acc2, next.stk);
                    ParserState { res: lp.res, stk: lp.stk, errs: next.errs + lp.errs }
                } else {
                    ParserState { res: Ok(acc2), stk: next.stk, errs: next.errs }
                }
            },
            Err(opt) => ParserState { res: Err(opt), stk: next.stk, errs: next.errs },
        }
    } else {
        ParserState { res: Ok(acc), stk, errs: seq![] }
    }
}

/// The full expression production: the lowest binary level.
pub open spec fn sp_expression(stk: Seq<TokenView>) -> ParserState {
    sp_level(0, stk)
}

/// Synchronization: discard tokens until a statement-boundary keyword is
/// on top (left there) or a semicolon is found (consumed).
pub open spec fn sp_sync(stk: Seq<TokenView>) -> Seq<TokenView>
    decreases stk.len(),
{
    if stk.len() == 0 {
        stk
    } else {
        match stk.last() {
            TokenView::Semicolon => stk.drop_last(),
            TokenView::Class => stk,
            TokenView::Fun => stk,
            TokenView::Var => stk,
            TokenView::For => stk,
            TokenView::If => stk,
            TokenView::While => stk,
            TokenView::Print => stk,
            TokenView::Return => stk,
            _ => sp_sync(stk.drop_last()),
        }
    }
}

/// The whole parse of a token list: the outcome, the remaining stack
/// after synchronization on failure, and the recorded errors.
pub open spec fn sp_parse(tokens: Seq<TokenView>) -> (Result<ExprView, Option<ExprView>>, Seq<
    TokenView,
>, Seq<ParseError>) {
    let st = sp_expression(tokens.reverse());
    match st.res {
        Ok(e) => (Ok(e), st.stk, st.errs),
        Err(opt) => (Err(opt), sp_sync(st.stk), st.errs),
    }
}

/// The view of a parse outcome.
pub open spec fn res_view(r: Result<Expression, Option<Expression>>) -> Result<
    ExprView,
    Option<ExprView>,
> {
    match r {
        Ok(e) => Ok(e@),
        Err(Some(e)) => Err(Some(e@)),
        Err(None) => Err(None),
    }
}

proof fn lemma_toks_view_drop_last(s: Seq<Token>)
    requires
        s.len() > 0,
    ensures
        toks_view(s.subrange(0, s.len() - 1)) == toks_view(s).drop_last(),
        toks_view(s).len() == s.len(),
        toks_view(s).last() == s.last()@,
{
    assert(toks_view(s.subrange(0, s.len() - 1)) =~= toks_view(s).drop_last());
}

/// Pops the next token, recording `PopFailed` if none is left.
fn pop_val(tokens: &mut Vec<Token>, errors: &mut Vec<ParseError>) -> (r: Result<Token, ()>)
    ensures
        old(tokens)@.len() > 0 ==> r == Ok::<Token, ()>(old(tokens)@.last()) && final(tokens)@
            == old(tokens)@.drop_last() && final(errors)@ == old(errors)@,
        old(tokens)@.len() == 0 ==> r is Err && final(tokens)@ == old(tokens)@ && final(errors)@
            == old(errors)@.push(ParseError::PopFailed),
{
    match tokens.pop() {
        Some(t) => {
            proof {
                assert(old(tokens)@.subrange(0, old(tokens)@.len() - 1) =~= old(
                    tokens,
                )@.drop_last());
            }
            Ok(t)
        },
        None => {
            errors.push(ParseError::PopFailed);
            Err(())
        },
    }
}

/// Whether the token on top of the stack is an operator of level `lvl`.
fn top_is_op(lvl: u8, tokens: &Vec<Token>) -> (r: bool)
    requires
        lvl <= 3,
    ensures
        r == (toks_view(tokens@).len() > 0 && is_level_op(
            lvl as int,
            toks_view(tokens@).last(),
        )),
{
    if tokens.len() == 0 {
        return false;
    }
    let t = &tokens[tokens.len() - 1];
    proof {
        assert(toks_view(tokens@).last() == tokens@.last()@);
    }
    if lvl == 0 {
        matches!(t, Token::BangEqual | Token::EqualEqual)
    } else if lvl == 1 {
        matches!(t, Token::Greater | Token::GreaterEqual | Token::Less | Token::LessEqual)
    } else if lvl == 2 {
        matches!(t, Token::Minus | Token::Plus)
    } else {
        matches!(t, Token::Slash | Token::Star)
    }
}

/// The primary production; see `sp_primary`.
fn primary(tokens: &mut Vec<Token>, errors: &mut Vec<ParseError>) -> (r: Result<
    Expression,
    Option<Expression>,
>)
    ensures
        ({
            let st = sp_primary(toks_view(old(tokens)@));
            &&& res_view(r) == st.res
            &&& toks_view(final(tokens)@) == st.stk
            &&& final(errors)@ == old(errors)@ + st.errs
            &&& final(tokens)@.len() <= old(tokens)@.len()
            &&& (r is Ok ==> final(tokens)@.len() < old(tokens)@.len())
        }),
    decreases tokens@.len(), 0int, 1int,
{
    let ghost stk0 = toks_view(old(tokens)@);
    if tokens.len() == 0 {
        // the stack is exhausted where a token is required
        errors.push(ParseError::PopFailed);
        proof {
            assert(old(errors)@ + seq![ParseError::PopFailed] =~= old(errors)@.push(
                ParseError::PopFailed,
            ));
        }
        return Err(None);
    }
    proof {
        lemma_toks_view_drop_last(tokens@);
    }
    let t = match tokens.pop() {
        Some(t) => t,
        None => {
            proof {
                assert(false);
            }
            return Err(None);
        },
    };
    proof {
        assert(toks_view(tokens@) =~= stk0.drop_last());
    }
    match t {
        Token::False => Ok(Expression::literal_bool(false)),
        Token::True => Ok(Expression::literal_bool(true)),
        Token::Number(s) => Ok(Expression::literal_num(s)),
        Token::Str(s) => Ok(Expression::literal_str(s)),
        Token::LeftParen => {
            let inner = expression(tokens, errors);
            match inner {
                Ok(e) => {
                    if tokens.len() > 0 {
                        proof {
                            lemma_toks_view_drop_last(tokens@);
                        }
                        let t2 = match tokens.pop() {
                            Some(t2) => t2,
                            None => {
                                proof {
                                    assert(false);
                                }
                                return Err(None);
                            },
                        };
                        match t2 {
                            Token::RightParen => Ok(Expression::grouping(e)),
                            _ => {
                                errors.push(ParseError::MissingRightParen);
                                Err(Some(e))
                            },
                        }
                    } else {
                        errors.push(ParseError::MissingRightParen);
                        Err(Some(e))
                    }
                },
                Err(opt) => Err(opt),
            }
        },
        _ => {
            errors.push(ParseError::ExpectedExpression);
            Err(None)
        },
    }
}

/// The unary production; see `sp_unary`.
fn unary(tokens: &mut Vec<Token>, errors: &mut Vec<ParseError>) -> (r: Result<
    Expression,
    Option<Expression>,
>)
    ensures
        ({
            let st = sp_unary(toks_view(old(tokens)@));
            &&& res_view(r) == st.res
            &&& toks_view(final(tokens)@) == st.stk
            &&& final(errors)@ == old(errors)@ + st.errs
            &&& final(tokens)@.len() <= old(tokens)@.len()
            &&& (r is Ok ==> final(tokens)@.len() < old(tokens)@.len())
        }),
    decreases tokens@.len(), 1int, 1int,
{
    let take = if tokens.len() == 0 {
        false
    } else {
        matches!(&tokens[tokens.len() - 1], Token::Bang | Token::Minus)
    };
    proof {
        if tokens@.len() > 0 {
            lemma_toks_view_drop_last(tokens@);
        }
    }
    if take {
        let op = match pop_val(tokens, errors) {
            Ok(op) => op,
            Err(_) => {
                proof {
                    assert(false);
                }
                return Err(None);
            },
        };
        let right = match unary(tokens, errors) {
            Ok(e) => e,
            Err(opt) => {
                return Err(opt);
            },
        };
        Ok(Expression::unary(op, right))
    } else {
        primary(tokens, errors)
    }
}

/// One binary precedence level; see `sp_level`.
#[verifier::loop_isolation(false)]
fn binary_level(lvl: u8, tokens: &mut Vec<Token>, errors: &mut Vec<ParseError>) -> (r: Result<
    Expression,
    Option<Expression>,
>)
    requires
        lvl <= 3,
    ensures
        ({
            let st = sp_level(lvl as int, toks_view(old(tokens)@));
            &&& res_view(r) == st.res
            &&& toks_view(final(tokens)@) == st.stk
            &&& final(errors)@ == old(errors)@ + st.errs
            &&& final(tokens)@.len() <= old(tokens)@.len()
            &&& (r is Ok ==> final(tokens)@.len() < old(tokens)@.len())
        }),
    decreases tokens@.len(), 5 - lvl, 1int,
{
    let ghost stk0 = toks_view(old(tokens)@);
    let ghost st = sp_level(lvl as int, stk0);
    let ghost len0 = old(tokens)@.len();
    let first = if lvl >= 3 {
        unary(tokens, errors)
    } else {
        binary_level(lvl + 1, tokens, errors)
    };
    let ghost fst = if lvl >= 3 {
        sp_unary(stk0)
    } else {
        sp_level(lvl as int + 1, stk0)
    };
    let mut expr = match first {
        Ok(e) => e,
        Err(opt) => {
            return Err(opt);
        },
    };
    let ghost errs_before_loop = errors@;
    let ghost lp_target = sp_level_loop(lvl as int, expr@, toks_view(tokens@));
    proof {
        assert(st == ParserState {
            res: lp_target.res,
            stk: lp_target.stk,
            errs: fst.errs + lp_target.errs,
        });
    }
    let mut go = top_is_op(lvl, tokens);
    while go
        invariant
            lvl <= 3,
            go == (toks_view(tokens@).len() > 0 && is_level_op(
                lvl as int,
                toks_view(tokens@).last(),
            )),
            tokens@.len() < len0,
            sp_level_loop(lvl as int, expr@, toks_view(tokens@)).res == lp_target.res,
            sp_level_loop(lvl as int, expr@, toks_view(tokens@)).stk == lp_target.stk,
            errors@ + sp_level_loop(lvl as int, expr@, toks_view(tokens@)).errs == errs_before_loop
                + lp_target.errs,
        decreases tokens@.len(), 0int, 0int,
    {
        let ghost stk_i = toks_view(tokens@);
        proof {
            lemma_toks_view_drop_last(tokens@);
        }
        let op = match pop_val(tokens, errors) {
            Ok(op) => op,
            Err(_) => {
                proof {
                    assert(false);
                }
                return Err(None);
            },
        };
        let ghost next = if lvl >= 3 {
            sp_unary(stk_i.drop_last())
        } else {
            sp_level(lvl as int + 1, stk_i.drop_last())
        };
        let rres = if lvl >= 3 {
            unary(tokens, errors)
        } else {
            binary_level(lvl + 1, tokens, errors)
        };
        let right = match rres {
            Ok(e) => e,
            Err(opt) => {
                return Err(opt);
            },
        };
        expr = Expression::binary(expr, op, right);
        go = top_is_op(lvl, tokens);
    }
    Ok(expr)
}

/// The full expression production.
fn expression(tokens: &mut Vec<Token>, errors: &mut Vec<ParseError>) -> (r: Result<
    Expression,
    Option<Expression>,
>)
    ensures
        ({
            let st = sp_expression(toks_view(old(tokens)@));
            &&& res_view(r) == st.res
            &&& toks_view(final(tokens)@) == st.stk
            &&& final(errors)@ == old(errors)@ + st.errs
            &&& final(tokens)@.len() <= old(tokens)@.len()
            &&& (r is Ok ==> final(tokens)@.len() < old(tokens)@.len())
        }),
    decreases tokens@.len(), 6int, 1int,
{
    binary_level(0, tokens, errors)
}

/// Discards tokens up to a statement boundary; see `sp_sync`.
fn synchronize(tokens: &mut Vec<Token>)
    ensures
        toks_view(final(tokens)@) == sp_sync(toks_view(old(tokens)@)),
{
    loop
        invariant
            sp_sync(toks_view(tokens@)) == sp_sync(toks_view(old(tokens)@)),
        decreases tokens@.len(),
    {
        if tokens.len() == 0 {
            return ;
        }
        proof {
            lemma_toks_view_drop_last(tokens@);
        }
        let stop = matches!(
            &tokens[tokens.len() - 1],
            Token::Class
                | Token::Fun
                | Token::Var
                | Token::For
                | Token::If
                | Token::While
                | Token::Print
                | Token::Return
        );
        if stop {
            return ;
        }
        let semi = matches!(&tokens[tokens.len() - 1], Token::Semicolon);
        tokens.pop();
        if semi {
            return ;
        }
    }
}

proof fn lemma_toks_view_reverse(s: Seq<Token>)
    ensures
        toks_view(s.reverse()) == toks_view(s).reverse(),
{
    assert(toks_view(s.reverse()) =~= toks_view(s).reverse());
}

/// Parses one expression from a token list. Returns the outcome (with a
/// best-effort partial tree on a `MissingRightParen` failure) and the
/// recorded errors; on failure the stream is synchronized to the next
/// statement boundary. The list is left holding the unconsumed remainder
/// as a stack, front on top.
pub fn parse(tokens: &mut Vec<Token>) -> (r: (Result<Expression, Option<Expression>>, Vec<
    ParseError,
>))
    ensures
        ({
            let (res, stk, errs) = sp_parse(toks_view(old(tokens)@));
            &&& res_view(r.0) == res
            &&& toks_view(final(tokens)@) == stk
            &&& r.1@ == errs
        }),
{
    let ghost toks0 = tokens@;
    let mut rev: Vec<Token> = Vec::new();
    while tokens.len() > 0
        invariant
            rev@.len() + tokens@.len() == toks0.len(),
            tokens@ == toks0.subrange(0, tokens@.len() as int),
            forall|i: int| 0 <= i < rev@.len() ==> rev@[i] == toks0[toks0.len() - 1 - i],
        decreases tokens@.len(),
    {
        let ghost pre = tokens@;
        let t = match tokens.pop() {
            Some(t) => t,
            None => {
                proof {
                    assert(false);
                }
                return (Err(None), Vec::new());
            },
        };
        rev.push(t);
        proof {
            assert(tokens@ =~= toks0.subrange(0, tokens@.len() as int));
        }
    }
    proof {
        assert(rev@ =~= toks0.reverse());
        lemma_toks_view_reverse(toks0);
    }
    let mut errors: Vec<ParseError> = Vec::new();
    let res = expression(&mut rev, &mut errors);
    proof {
        assert(Seq::<ParseError>::empty() + sp_expression(toks_view(toks0).reverse()).errs
            =~= sp_expression(toks_view(toks0).reverse()).errs);
    }
    match res {
        Ok(e) => {
            *tokens = rev;
            (Ok(e), errors)
        },
        Err(opt) => {
            synchronize(&mut rev);
            *tokens = rev;
            (Err(opt), errors)
        },
    }
}

} // verus!
