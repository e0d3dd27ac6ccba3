//! Laws of the pipeline, proved against the spec functions that the
//! executable scanner, parser and evaluator are verified to implement.

use vstd::prelude::*;

use crate::tokens::TokenView;
use crate::expressions::{ExprView, toks_of};
use crate::parser::{
    ParseError, ParserState, sp_level, sp_level_loop, sp_unary, sp_primary, sp_parse, is_level_op,
};
use crate::scanner::{
    ScanModel, ScanErrorView, scan_from, scan_string, scan_spec, lines_of, graphemes_of, g1,
    spec_is_digit, spec_is_alpha, is_ascii_digit_char, digit_run_end, alnum_run_end, number_end,
    concat_range, plain_number, lemma_digit_run_end, lemma_alnum_run_end,
};

verus! {

// ---------------------------------------------------------------------
// Scanning sources that hold only whitespace and line comments
// ---------------------------------------------------------------------
/// The graphemes of one line from position `i` on are spaces up to the
/// end of the line or up to a `//` comment.
pub open spec fn blank_or_comment_from(gs: Seq<Seq<char>>, i: int) -> bool
    decreases gs.len() - i,
{
    if i < 0 || i >= gs.len() {
        true
    } else if gs[i] == g1(' ') {
        blank_or_comment_from(gs, i + 1)
    } else {
        gs[i] == g1('/') && i + 1 < gs.len() && gs[i + 1] == g1('/')
    }
}

/// The whole line is blank or a comment.
pub open spec fn blank_or_comment(gs: Seq<Seq<char>>) -> bool {
    blank_or_comment_from(gs, 0)
}

/// Two distinct characters make two distinct singleton graphemes.
proof fn lemma_g1_all(c: char)
    ensures
        forall|d: char| d != c ==> g1(c) != g1(d),
{
    assert forall|d: char| d != c implies g1(c) != g1(d) by {
        assert(g1(c)[0] == c);
        assert(g1(d)[0] == d);
    }
}

proof fn lemma_blank_line_scan(lines: Seq<Seq<char>>, li: nat, gi: nat)
    requires
        li < lines.len(),
        blank_or_comment_from(graphemes_of(lines[li as int]), gi as int),
    ensures
        scan_from(lines, li, gi) == scan_from(lines, li + 1, 0),
    decreases graphemes_of(lines[li as int]).len() - gi,
{
    let gs = graphemes_of(lines[li as int]);
    if gi >= gs.len() {
        // the scan moves to the next line by definition
    } else if gs[gi as int] == g1(' ') {
        lemma_g1_all(' ');
        lemma_blank_line_scan(lines, li, gi + 1);
    } else {
        // a line comment: the rest of the line is discarded
        lemma_g1_all('/');
        assert(gs[gi as int] == g1('/') && gi + 1 < gs.len() && gs[gi + 1int] == g1('/'));
    }
}

proof fn lemma_blank_lines_scan(lines: Seq<Seq<char>>, li: nat)
    requires
        forall|j: int|
            li <= j < lines.len() ==> blank_or_comment(graphemes_of(#[trigger] lines[j])),
    ensures
        scan_from(lines, li, 0) == (ScanModel { toks: Seq::<TokenView>::empty(), errs: Seq::<
            ScanErrorView,
        >::empty() }),
    decreases lines.len() - li,
{
    if li < lines.len() {
        lemma_blank_line_scan(lines, li, 0);
        lemma_blank_lines_scan(lines, li + 1);
    }
}

/// A source whose every line holds only spaces and at most one trailing
/// `//` comment scans without error to the end marker alone.
pub proof fn lemma_blank_source_scan(src: Seq<char>)
    requires
        forall|j: int|
            0 <= j < lines_of(src).len() ==> blank_or_comment(
                graphemes_of(#[trigger] lines_of(src)[j]),
            ),
    ensures
        scan_spec(src).toks == seq![TokenView::Eof],
        scan_spec(src).errs == Seq::<ScanErrorView>::empty(),
{
    lemma_blank_lines_scan(lines_of(src), 0);
    assert(Seq::<TokenView>::empty() + seq![TokenView::Eof] =~= seq![TokenView::Eof]);
}

proof fn lemma_scan_from_no_end_marker(lines: Seq<Seq<char>>, li: nat, gi: nat)
    ensures
        forall|i: int|
            0 <= i < scan_from(lines, li, gi).toks.len() ==> #[trigger] scan_from(
                lines,
                li,
                gi,
            ).toks[i] != TokenView::Eof,
    decreases lines.len() - li, graphemes_of(lines[li as int]).len() - gi, 1int,
{
    if li >= lines.len() {
    } else {
        let gs = graphemes_of(lines[li as int]);
        if gi >= gs.len() {
            lemma_scan_from_no_end_marker(lines, li + 1, 0);
        } else {
            let g = gs[gi as int];
            lemma_scan_from_no_end_marker(lines, li, gi + 1);
            if gi + 1 < gs.len() {
                lemma_scan_from_no_end_marker(lines, li, gi + 2);
            }
            lemma_scan_from_no_end_marker(lines, li + 1, 0);
            lemma_scan_string_no_end_marker(lines, li, gi + 1, Seq::empty(), gi);
            lemma_digit_run_end(gs, gi + 1);
            lemma_alnum_run_end(gs, gi + 1);
            let d1 = digit_run_end(gs, gi + 1);
            if d1 + 2 <= gs.len() {
                lemma_digit_run_end(gs, d1 + 2);
            }
            if spec_is_digit(g) {
                lemma_scan_from_no_end_marker(lines, li, number_end(gs, gi));
            }
            if spec_is_alpha(g) {
                lemma_scan_from_no_end_marker(lines, li, alnum_run_end(gs, gi + 1));
            }
        }
    }
}

proof fn lemma_scan_string_no_end_marker(
    lines: Seq<Seq<char>>,
    li: nat,
    gi: nat,
    acc: Seq<char>,
    scol: nat,
)
    ensures
        forall|i: int|
            0 <= i < scan_string(lines, li, gi, acc, scol).toks.len() ==> #[trigger] scan_string(
                lines,
                li,
                gi,
                acc,
                scol,
            ).toks[i] != TokenView::Eof,
    decreases lines.len() - li, graphemes_of(lines[li as int]).len() - gi, 0int,
{
    if li >= lines.len() {
    } else {
        let gs = graphemes_of(lines[li as int]);
        if gi < gs.len() {
            if gs[gi as int] == g1('"') {
                lemma_scan_from_no_end_marker(lines, li, gi + 1);
            } else {
                lemma_scan_string_no_end_marker(lines, li, gi + 1, acc + gs[gi as int], scol);
            }
        } else if li + 1 < lines.len() {
            lemma_scan_string_no_end_marker(lines, li + 1, 0, acc, scol);
        } else {
        }
    }
}

/// The scanned token list is never empty and holds the end marker
/// exactly once, as its last element.
pub proof fn lemma_scan_single_end_marker(src: Seq<char>)
    ensures
        scan_spec(src).toks.len() >= 1,
        scan_spec(src).toks.last() == TokenView::Eof,
        forall|i: int|
            0 <= i < scan_spec(src).toks.len() - 1 ==> #[trigger] scan_spec(src).toks[i]
                != TokenView::Eof,
{
    lemma_scan_from_no_end_marker(lines_of(src), 0, 0);
}

// ---------------------------------------------------------------------
// Scanning and parsing a numeric lexeme
// ---------------------------------------------------------------------
/// Every character is an ASCII digit.
pub open spec fn all_ascii_digits(s: Seq<char>) -> bool {
    forall|k: int| 0 <= k < s.len() ==> is_ascii_digit_char(#[trigger] s[k])
}

/// A numeric lexeme: digits, optionally a dot followed by further digits.
pub open spec fn numeric_lexeme(s: Seq<char>) -> bool {
    s.len() > 0 && (all_ascii_digits(s) || (exists|d: int|
        1 <= d && d + 1 < s.len() && s[d] == '.' && all_ascii_digits(#[trigger] s.subrange(0, d))
            && all_ascii_digits(s.subrange(d + 1, s.len() as int))))
}

/// The grapheme clusters of a text of printable ASCII: its characters.
pub open spec fn singleton_graphemes(s: Seq<char>) -> Seq<Seq<char>> {
    Seq::new(s.len(), |i: int| seq![s[i]])
}

proof fn lemma_digit_run(gs: Seq<Seq<char>>, i: nat, j: nat)
    requires
        i <= j <= gs.len(),
        forall|k: int| i <= k < j ==> spec_is_digit(#[trigger] gs[k]),
        j == gs.len() || !spec_is_digit(gs[j as int]),
    ensures
        digit_run_end(gs, i) == j,
    decreases j - i,
{
    if i < j {
        lemma_digit_run(gs, i + 1, j);
    }
}

proof fn lemma_concat_singletons(s: Seq<char>, i: nat, j: nat)
    requires
        i <= j <= s.len(),
    ensures
        concat_range(singleton_graphemes(s), i, j) == s.subrange(i as int, j as int),
    decreases j - i,
{
    if i < j {
        lemma_concat_singletons(s, i, (j - 1) as nat);
        assert(concat_range(singleton_graphemes(s), i, j) =~= s.subrange(i as int, j as int));
    } else {
        assert(concat_range(singleton_graphemes(s), i, j) =~= s.subrange(i as int, j as int));
    }
}

/// Scanning a source that is exactly one numeric lexeme yields exactly
/// the number token carrying that lexeme, and the end marker. The two
/// grapheme premises state what the scanner's helpers establish for any
/// single-line printable-ASCII source.
pub proof fn lemma_numeric_lexeme_scan(src: Seq<char>)
    requires
        numeric_lexeme(src),
        lines_of(src) == seq![src],
        graphemes_of(src) == singleton_graphemes(src),
    ensures
        scan_spec(src).toks == seq![TokenView::Number(src), TokenView::Eof],
        scan_spec(src).errs == Seq::<ScanErrorView>::empty(),
{
    let lines = lines_of(src);
    let gs = graphemes_of(src);
    let n = src.len();
    assert(lines[0] == src);
    assert(gs.len() == n);
    assert forall|k: int| 0 <= k < n implies #[trigger] gs[k] == seq![s_at(src, k)] by {
        assert(gs[k] == singleton_graphemes(src)[k]);
    }
    if all_ascii_digits(src) {
        assert forall|k: int| 0 <= k < n implies spec_is_digit(#[trigger] gs[k]) by {
            assert(is_ascii_digit_char(s_at(src, k)));
            assert(gs[k][0] == s_at(src, k));
        }
        lemma_digit_run(gs, 1, n as nat);
        assert(number_end(gs, 0) == n);
        assert(plain_number(src));
    } else {
        let d = choose|d: int|
            1 <= d && d + 1 < n && src[d] == '.' && all_ascii_digits(#[trigger] src.subrange(0, d))
                && all_ascii_digits(src.subrange(d + 1, n as int));
        assert forall|k: int| 0 <= k < d implies is_ascii_digit_char(s_at(src, k)) by {
            assert(src.subrange(0, d)[k] == s_at(src, k));
            assert(is_ascii_digit_char(src.subrange(0, d)[k]));
        }
        assert forall|k: int| d + 1 <= k < n implies is_ascii_digit_char(s_at(src, k)) by {
            assert(src.subrange(d + 1, n as int)[k - d - 1] == s_at(src, k));
            assert(is_ascii_digit_char(src.subrange(d + 1, n as int)[k - d - 1]));
        }
        assert forall|k: int| 0 <= k < n && k != d implies spec_is_digit(#[trigger] gs[k]) by {
            assert(is_ascii_digit_char(s_at(src, k)));
            assert(gs[k][0] == s_at(src, k));
        }
        assert(!spec_is_digit(gs[d])) by {
            assert(gs[d][0] == s_at(src, d));
            assert(src[d] == '.');
        }
        lemma_digit_run(gs, 1, d as nat);
        lemma_digit_run(gs, (d + 2) as nat, n as nat);
        assert(gs[d] =~= g1('.')) by {
            assert(gs[d] == seq![s_at(src, d)]);
        }
        assert(spec_is_digit(gs[d + 1]));
        assert(number_end(gs, 0) == n);
        assert forall|k: int|
            0 <= k < n implies (is_ascii_digit_char(#[trigger] src[k]) || src[k] == '.') by {
            if k != d {
                assert(is_ascii_digit_char(s_at(src, k)));
                assert(s_at(src, k) == src[k]);
            }
        }
        assert(plain_number(src));
    }
    assert(spec_is_digit(gs[0])) by {
        assert(gs[0][0] == s_at(src, 0));
        if all_ascii_digits(src) {
        } else {
        }
        assert(is_ascii_digit_char(s_at(src, 0)));
    }
    lemma_concat_singletons(src, 0, n as nat);
    assert(concat_range(gs, 0, n as nat) == src.subrange(0, n as int));
    assert(src.subrange(0, n as int) =~= src);
    assert(plain_number(src));
    assert(scan_from(lines, 0, n as nat) == scan_from(lines, 1, 0));
    assert(scan_from(lines, 1, 0) == (ScanModel {
        toks: Seq::<TokenView>::empty(),
        errs: Seq::<ScanErrorView>::empty(),
    }));
    assert(scan_from(lines, 0, 0).toks =~= seq![TokenView::Number(src)]);
    assert(scan_spec(src).toks =~= seq![TokenView::Number(src), TokenView::Eof]);
    assert(scan_from(lines, 0, 0).errs =~= Seq::<ScanErrorView>::empty());
}

/// A helper to name a character of a sequence inside quantifiers.
spec fn s_at(s: Seq<char>, k: int) -> char {
    s[k]
}

/// Parsing a token list holding one number token yields the numeric
/// literal leaf carrying its lexeme, consuming nothing else.
pub proof fn lemma_parse_number_token(lex: Seq<char>)
    ensures
        sp_parse(seq![TokenView::Number(lex), TokenView::Eof]) == (
            Ok::<ExprView, Option<ExprView>>(ExprView::LiteralNum(lex)),
            seq![TokenView::Eof],
            Seq::<ParseError>::empty(),
        ),
{
    reveal_with_fuel(sp_level, 6);
    let toks = seq![TokenView::Number(lex), TokenView::Eof];
    let stk = toks.reverse();
    assert(stk =~= seq![TokenView::Eof, TokenView::Number(lex)]);
    assert(sp_primary(stk) == (ParserState {
        res: Ok::<ExprView, Option<ExprView>>(ExprView::LiteralNum(lex)),
        stk: seq![TokenView::Eof],
        errs: Seq::<ParseError>::empty(),
    })) by {
        assert(stk.last() == TokenView::Number(lex));
        assert(stk.drop_last() =~= seq![TokenView::Eof]);
    }
    assert(Seq::<ParseError>::empty() + Seq::<ParseError>::empty() =~= Seq::<
        ParseError,
    >::empty());
}

/// The pipeline on one numeric lexeme: scanning yields exactly the
/// number token carrying the lexeme, and parsing that token list yields
/// exactly the numeric literal leaf; the leaf's payload is the lexeme
/// itself, so evaluating it hands exactly this lexeme to the double
/// decoder of the `NumberOps` port.
pub proof fn lemma_numeric_lexeme_pipeline(src: Seq<char>)
    requires
        numeric_lexeme(src),
        lines_of(src) == seq![src],
        graphemes_of(src) == singleton_graphemes(src),
    ensures
        scan_spec(src).errs == Seq::<ScanErrorView>::empty(),
        sp_parse(scan_spec(src).toks) == (
            Ok::<ExprView, Option<ExprView>>(ExprView::LiteralNum(src)),
            seq![TokenView::Eof],
            Seq::<ParseError>::empty(),
        ),
{
    lemma_numeric_lexeme_scan(src);
    lemma_parse_number_token(src);
}

// ---------------------------------------------------------------------
// Re-parsing the token rendering of a tree
// ---------------------------------------------------------------------
/// A tree of the shape the parser itself produces, seen from precedence
/// level `lvl`: binary nodes fold left-associatively within one level,
/// operands come from the next-higher level, unary chains end in a
/// literal or a grouping holding a full expression.
pub open spec fn shaped(lvl: int, e: ExprView) -> bool
    decreases e, 6 - lvl,
{
    if 0 <= lvl <= 3 {
        shaped(lvl + 1, e) || (match e {
            ExprView::Binary(l, op, r) => is_level_op(lvl, op) && shaped(lvl, *l) && shaped(
                lvl + 1,
                *r,
            ),
            _ => false,
        })
    } else if lvl == 4 {
        (match e {
            ExprView::Unary(op, r) => (op == TokenView::Bang || op == TokenView::Minus) && shaped(
                4,
                *r,
            ),
            _ => false,
        }) || shaped(5, e)
    } else if lvl == 5 {
        match e {
            ExprView::LiteralBool(_) => true,
            ExprView::LiteralNum(_) => true,
            ExprView::LiteralStr(_) => true,
            ExprView::Grouping(i) => shaped(0, *i),
            _ => false,
        }
    } else {
        false
    }
}

/// An operator of some binary precedence level.
pub open spec fn is_binary_op(t: TokenView) -> bool {
    is_level_op(0, t) || is_level_op(1, t) || is_level_op(2, t) || is_level_op(3, t)
}

/// `e` extends `acc` by further level-`lvl` operators and operands.
pub open spec fn level_ext(lvl: int, acc: ExprView, e: ExprView) -> bool
    decreases e,
{
    e == acc || (match e {
        ExprView::Binary(l, op, r) => is_level_op(lvl, op) && level_ext(lvl, acc, *l) && shaped(
            lvl + 1,
            *r,
        ),
        _ => false,
    })
}

/// The tokens of `e` that come after those of `acc`.
pub open spec fn ext_toks(lvl: int, acc: ExprView, e: ExprView) -> Seq<TokenView>
    decreases e,
{
    if e == acc {
        seq![]
    } else {
        match e {
            ExprView::Binary(l, op, r) => ext_toks(lvl, acc, *l) + seq![op] + toks_of(*r),
            _ => seq![],
        }
    }
}

proof fn lemma_toks_len(e: ExprView)
    ensures
        toks_of(e).len() >= 1,
    decreases e,
{
    match e {
        ExprView::Unary(_, r) => lemma_toks_len(*r),
        ExprView::Binary(l, _, r) => {
            lemma_toks_len(*l);
            lemma_toks_len(*r);
        },
        ExprView::Grouping(i) => lemma_toks_len(*i),
        _ => {},
    }
}

proof fn lemma_ext_toks(lvl: int, acc: ExprView, e: ExprView)
    requires
        level_ext(lvl, acc, e),
    ensures
        toks_of(e) == toks_of(acc) + ext_toks(lvl, acc, e),
    decreases e,
{
    if e == acc {
        assert(toks_of(e) =~= toks_of(acc) + ext_toks(lvl, acc, e));
    } else {
        match e {
            ExprView::Binary(l, op, r) => {
                lemma_ext_toks(lvl, acc, *l);
                assert(toks_of(e) =~= toks_of(acc) + ext_toks(lvl, acc, e));
            },
            _ => {},
        }
    }
}

proof fn lemma_ext_first(lvl: int, acc: ExprView, e: ExprView)
    requires
        level_ext(lvl, acc, e),
        e != acc,
    ensures
        ext_toks(lvl, acc, e).len() > 0,
        is_level_op(lvl, ext_toks(lvl, acc, e)[0]),
    decreases e,
{
    match e {
        ExprView::Binary(l, op, r) => {
            if *l == acc {
                lemma_toks_len(*r);
                assert(ext_toks(lvl, acc, *l) =~= Seq::<TokenView>::empty());
                assert(ext_toks(lvl, acc, e)[0] == op);
            } else {
                lemma_ext_first(lvl, acc, *l);
                assert(ext_toks(lvl, acc, e)[0] == ext_toks(lvl, acc, *l)[0]);
            }
        },
        _ => {},
    }
}

/// Splits off the first operator and operand that extend `acc` into `e`.
proof fn lemma_ext_rotate(lvl: int, acc: ExprView, e: ExprView) -> (pair: (TokenView, ExprView))
    requires
        0 <= lvl <= 3,
        level_ext(lvl, acc, e),
        e != acc,
    ensures
        ({
            let (op1, f1) = pair;
            let acc1 = ExprView::Binary(Box::new(acc), op1, Box::new(f1));
            is_level_op(lvl, op1) && shaped(lvl + 1, f1) && level_ext(lvl, acc1, e) && ext_toks(
                lvl,
                acc,
                e,
            ) == seq![op1] + toks_of(f1) + ext_toks(lvl, acc1, e)
        }),
    decreases e,
{
    match e {
        ExprView::Binary(l, op, r) => {
            if *l == acc {
                let acc1 = ExprView::Binary(Box::new(acc), op, Box::new(*r));
                assert(acc1 == e);
                assert(ext_toks(lvl, acc, *l) =~= Seq::<TokenView>::empty());
                assert(ext_toks(lvl, acc1, e) =~= Seq::<TokenView>::empty());
                assert(ext_toks(lvl, acc, e) =~= seq![op] + toks_of(*r) + ext_toks(
                    lvl,
                    acc1,
                    e,
                ));
                (op, *r)
            } else {
                let (op1, f1) = lemma_ext_rotate(lvl, acc, *l);
                let acc1 = ExprView::Binary(Box::new(acc), op1, Box::new(f1));
                assert(e != acc1);
                assert(ext_toks(lvl, acc1, e) == ext_toks(lvl, acc1, *l) + seq![op] + toks_of(
                    *r,
                ));
                assert(ext_toks(lvl, acc, e) =~= seq![op1] + toks_of(f1) + ext_toks(
                    lvl,
                    acc1,
                    e,
                ));
                (op1, f1)
            }
        },
        _ => (arbitrary(), arbitrary()),
    }
}

/// Splits a level-shaped tree into its leftmost operand and the rest.
proof fn lemma_shaped_decompose(lvl: int, e: ExprView) -> (f0: ExprView)
    requires
        0 <= lvl <= 3,
        shaped(lvl, e),
    ensures
        shaped(lvl + 1, f0),
        level_ext(lvl, f0, e),
        toks_of(e) == toks_of(f0) + ext_toks(lvl, f0, e),
        toks_of(f0).len() <= toks_of(e).len(),
    decreases e,
{
    if shaped(lvl + 1, e) {
        assert(level_ext(lvl, e, e));
        assert(toks_of(e) =~= toks_of(e) + ext_toks(lvl, e, e));
        e
    } else {
        match e {
            ExprView::Binary(l, op, r) => {
                let f0 = lemma_shaped_decompose(lvl, *l);
                lemma_toks_len(*r);
                lemma_toks_len(f0);
                assert(e != f0);
                assert(ext_toks(lvl, f0, e) == ext_toks(lvl, f0, *l) + seq![op] + toks_of(*r));
                assert(toks_of(e) =~= toks_of(f0) + ext_toks(lvl, f0, e));
                f0
            },
            _ => arbitrary(),
        }
    }
}

proof fn lemma_reparse_leaf(e: ExprView, rest: Seq<TokenView>)
    requires
        rest.len() > 0,
        e matches ExprView::LiteralBool(_) || e matches ExprView::LiteralNum(_)
            || e matches ExprView::LiteralStr(_),
    ensures
        sp_unary(rest + toks_of(e).reverse()).res == Ok::<ExprView, Option<ExprView>>(e),
        sp_unary(rest + toks_of(e).reverse()).stk == rest,
        sp_unary(rest + toks_of(e).reverse()).errs == Seq::<ParseError>::empty(),
{
    let stk = rest + toks_of(e).reverse();
    let t = toks_of(e)[0];
    assert(toks_of(e).reverse() =~= seq![t]);
    assert(stk =~= rest.push(t));
    assert(stk.drop_last() =~= rest);
    assert(t != TokenView::Bang && t != TokenView::Minus);
    assert(sp_unary(stk) == sp_primary(stk));
    assert(sp_primary(stk).res == Ok::<ExprView, Option<ExprView>>(e));
}

#[verifier::rlimit(100)]
proof fn lemma_reparse_unary(e: ExprView, rest: Seq<TokenView>)
    requires
        shaped(4, e),
        rest.len() > 0,
    ensures
        sp_unary(rest + toks_of(e).reverse()).res == Ok::<ExprView, Option<ExprView>>(e),
        sp_unary(rest + toks_of(e).reverse()).stk == rest,
        sp_unary(rest + toks_of(e).reverse()).errs == Seq::<ParseError>::empty(),
    decreases toks_of(e).len(), 1int, 1int, 0int,
{
    let stk = rest + toks_of(e).reverse();
    match e {
        ExprView::LiteralBool(b) => {
            lemma_reparse_leaf(e, rest);
        },
        ExprView::LiteralNum(s) => {
            lemma_reparse_leaf(e, rest);
        },
        ExprView::LiteralStr(s) => {
            lemma_reparse_leaf(e, rest);
        },
        ExprView::Unary(op, r) => {
            assert(!shaped(5, e));
            assert(shaped(4, *r));
            let tr = toks_of(*r);
            lemma_toks_len(*r);
            assert(toks_of(e).reverse() =~= tr.reverse() + seq![op]);
            assert(stk =~= (rest + tr.reverse()).push(op));
            assert(stk.last() == op);
            assert(stk.drop_last() =~= rest + tr.reverse());
            lemma_reparse_unary(*r, rest);
            assert(e == ExprView::Unary(op, Box::new(*r)));
        },
        ExprView::Grouping(i) => {
            assert(shaped(5, e));
            assert(shaped(0, *i));
            let ti = toks_of(*i);
            lemma_toks_len(*i);
            assert(toks_of(e).reverse() =~= (seq![TokenView::RightParen] + ti.reverse()).push(
                TokenView::LeftParen,
            ));
            assert(stk =~= (rest + seq![TokenView::RightParen] + ti.reverse()).push(
                TokenView::LeftParen,
            ));
            assert(stk.last() == TokenView::LeftParen);
            let rest2 = rest + seq![TokenView::RightParen];
            assert(stk.drop_last() =~= rest2 + ti.reverse());
            assert(rest2.last() == TokenView::RightParen);
            lemma_reparse_level(0, *i, rest2);
            assert(rest2.drop_last() =~= rest);
            assert(sp_unary(stk) == sp_primary(stk));
            assert(e == ExprView::Grouping(Box::new(*i)));
        },
        ExprView::Binary(_, _, _) => {
            assert(!shaped(5, e));
            assert(false);
        },
    }
}

#[verifier::rlimit(100)]
#[verifier::spinoff_prover]
proof fn lemma_reparse_loop(lvl: int, acc: ExprView, e: ExprView, rest: Seq<TokenView>)
    requires
        0 <= lvl <= 3,
        level_ext(lvl, acc, e),
        rest.len() > 0,
        forall|j: int| lvl <= j <= 3 ==> !is_level_op(j, rest.last()),
    ensures
        sp_level_loop(lvl, acc, rest + ext_toks(lvl, acc, e).reverse()).res == Ok::<
            ExprView,
            Option<ExprView>,
        >(e),
        sp_level_loop(lvl, acc, rest + ext_toks(lvl, acc, e).reverse()).stk == rest,
        sp_level_loop(lvl, acc, rest + ext_toks(lvl, acc, e).reverse()).errs == Seq::<
            ParseError,
        >::empty(),
    decreases toks_of(e).len(), 6 - lvl, 0int, ext_toks(lvl, acc, e).len(),
{
    let stk = rest + ext_toks(lvl, acc, e).reverse();
    if e == acc {
        assert(stk =~= rest);
    } else {
        let (op1, f1) = lemma_ext_rotate(lvl, acc, e);
        let acc1 = ExprView::Binary(Box::new(acc), op1, Box::new(f1));
        lemma_ext_toks(lvl, acc, e);
        lemma_toks_len(acc);
        lemma_toks_len(f1);
        let rest1 = rest + ext_toks(lvl, acc1, e).reverse();
        assert(stk =~= (rest1 + toks_of(f1).reverse()).push(op1)) by {
            assert(ext_toks(lvl, acc, e).reverse() =~= (ext_toks(lvl, acc1, e).reverse()
                + toks_of(f1).reverse()).push(op1));
        }
        assert(stk.last() == op1);
        assert(stk.drop_last() =~= rest1 + toks_of(f1).reverse());
        assert(rest1.len() > 0 && (forall|j: int|
            lvl + 1 <= j <= 3 ==> !is_level_op(j, rest1.last()))) by {
            if e == acc1 {
                assert(rest1 =~= rest);
            } else {
                lemma_ext_first(lvl, acc1, e);
                assert(rest1.last() == ext_toks(lvl, acc1, e)[0]);
            }
        }
        if lvl >= 3 {
            lemma_reparse_unary(f1, rest1);
        } else {
            lemma_reparse_level(lvl + 1, f1, rest1);
        }
        assert(rest1.len() < stk.len()) by {
            lemma_toks_len(f1);
        }
        assert(ext_toks(lvl, acc1, e).len() < ext_toks(lvl, acc, e).len()) by {
            lemma_toks_len(f1);
        }
        lemma_reparse_loop(lvl, acc1, e, rest);
        assert(Seq::<ParseError>::empty() + Seq::<ParseError>::empty() =~= Seq::<
            ParseError,
        >::empty());
    }
}

#[verifier::rlimit(100)]
proof fn lemma_reparse_level(lvl: int, e: ExprView, rest: Seq<TokenView>)
    requires
        0 <= lvl <= 3,
        shaped(lvl, e),
        rest.len() > 0,
        forall|j: int| lvl <= j <= 3 ==> !is_level_op(j, rest.last()),
    ensures
        sp_level(lvl, rest + toks_of(e).reverse()).res == Ok::<ExprView, Option<ExprView>>(e),
        sp_level(lvl, rest + toks_of(e).reverse()).stk == rest,
        sp_level(lvl, rest + toks_of(e).reverse()).errs == Seq::<ParseError>::empty(),
    decreases toks_of(e).len(), 6 - lvl, 1int, 0int,
{
    let stk = rest + toks_of(e).reverse();
    let f0 = lemma_shaped_decompose(lvl, e);
    let rest0 = rest + ext_toks(lvl, f0, e).reverse();
    assert(toks_of(e).reverse() =~= ext_toks(lvl, f0, e).reverse() + toks_of(f0).reverse());
    assert(stk =~= rest0 + toks_of(f0).reverse());
    if e == f0 {
        assert(rest0 =~= rest);
    } else {
        lemma_ext_first(lvl, f0, e);
        assert(rest0.last() == ext_toks(lvl, f0, e)[0]);
    }
    assert(rest0.len() > 0);
    assert(forall|j: int| lvl + 1 <= j <= 3 ==> !is_level_op(j, rest0.last()));
    if lvl >= 3 {
        lemma_reparse_unary(f0, rest0);
    } else {
        lemma_reparse_level(lvl + 1, f0, rest0);
    }
    assert(rest0.len() <= stk.len());
    lemma_reparse_loop(lvl, f0, e, rest);
    assert(Seq::<ParseError>::empty() + Seq::<ParseError>::empty() =~= Seq::<
        ParseError,
    >::empty());
}

/// Re-parsing the token rendering of any tree of the shape the parser
/// produces yields the very tree: print-reparse idempotence at the token
/// level. (The text rendering of the printer is prefix-form and
/// deliberately not parseable, so the law is stated over the tokens a
/// tree stands for.)
pub proof fn lemma_reparse_shaped_tree(e: ExprView)
    requires
        shaped(0, e),
    ensures
        ({
            let (res, stk, errs) = sp_parse(toks_of(e) + seq![TokenView::Eof]);
            res == Ok::<ExprView, Option<ExprView>>(e) && stk == seq![TokenView::Eof] && errs
                == Seq::<ParseError>::empty()
        }),
{
    assert((toks_of(e) + seq![TokenView::Eof]).reverse() =~= seq![TokenView::Eof] + toks_of(
        e,
    ).reverse());
    lemma_reparse_level(0, e, seq![TokenView::Eof]);
}

// ---------------------------------------------------------------------
// Soundness of parsing: what an Ok result is
// ---------------------------------------------------------------------
proof fn lemma_ext_trans(lvl: int, a: ExprView, b: ExprView, e: ExprView)
    requires
        level_ext(lvl, a, b),
        level_ext(lvl, b, e),
    ensures
        level_ext(lvl, a, e),
        ext_toks(lvl, a, e) == ext_toks(lvl, a, b) + ext_toks(lvl, b, e),
    decreases e,
{
    if e == b {
        assert(ext_toks(lvl, a, e) =~= ext_toks(lvl, a, b) + ext_toks(lvl, b, e));
    } else {
        match e {
            ExprView::Binary(l, op, r) => {
                lemma_ext_trans(lvl, a, b, *l);
                if e == a {
                    // then everything between is the same tree
                    lemma_ext_toks(lvl, a, b);
                    lemma_ext_toks(lvl, b, e);
                    lemma_ext_toks(lvl, a, e);
                    lemma_toks_len(*r);
                    assert(false);
                }
                assert(ext_toks(lvl, a, e) =~= ext_toks(lvl, a, b) + ext_toks(lvl, b, e));
            },
            _ => {},
        }
    }
}

proof fn lemma_sound_primary(stk: Seq<TokenView>)
    ensures
        ({
            let st = sp_primary(stk);
            st.res matches Ok(e) ==> shaped(5, e) && stk == st.stk + toks_of(e).reverse()
        }),
    decreases stk.len(), 0int, 1int,
{
    let st = sp_primary(stk);
    if stk.len() == 0 {
    } else {
        let t = stk.last();
        let stk1 = stk.drop_last();
        match t {
            TokenView::False => {
                assert(stk =~= stk1 + toks_of(ExprView::LiteralBool(false)).reverse());
            },
            TokenView::True => {
                assert(stk =~= stk1 + toks_of(ExprView::LiteralBool(true)).reverse());
            },
            TokenView::Number(s) => {
                assert(stk =~= stk1 + toks_of(ExprView::LiteralNum(s)).reverse());
            },
            TokenView::Str(s) => {
                assert(stk =~= stk1 + toks_of(ExprView::LiteralStr(s)).reverse());
            },
            TokenView::LeftParen => {
                lemma_sound_level(0, stk1);
                let inner = sp_level(0, stk1);
                match inner.res {
                    Ok(i) => {
                        if inner.stk.len() > 0 && inner.stk.last() == TokenView::RightParen {
                            let e2 = ExprView::Grouping(Box::new(i));
                            assert(shaped(5, e2));
                            assert(stk1 == inner.stk + toks_of(i).reverse());
                            assert(inner.stk =~= inner.stk.drop_last().push(
                                TokenView::RightParen,
                            ));
                            assert(stk =~= stk1.push(TokenView::LeftParen));
                            assert(toks_of(e2).reverse() =~= (seq![TokenView::RightParen]
                                + toks_of(i).reverse()).push(TokenView::LeftParen));
                            assert(stk =~= inner.stk.drop_last() + toks_of(e2).reverse());
                        }
                    },
                    Err(_) => {},
                }
            },
            _ => {},
        }
    }
}

proof fn lemma_sound_unary(stk: Seq<TokenView>)
    ensures
        ({
            let st = sp_unary(stk);
            st.res matches Ok(e) ==> shaped(4, e) && stk == st.stk + toks_of(e).reverse()
        }),
    decreases stk.len(), 1int, 1int,
{
    if stk.len() > 0 && (stk.last() == TokenView::Bang || stk.last() == TokenView::Minus) {
        let op = stk.last();
        lemma_sound_unary(stk.drop_last());
        let r = sp_unary(stk.drop_last());
        match r.res {
            Ok(e1) => {
                let e2 = ExprView::Unary(op, Box::new(e1));
                assert(shaped(4, e2));
                assert(stk =~= stk.drop_last().push(op));
                assert(toks_of(e2).reverse() =~= toks_of(e1).reverse().push(op));
                assert(stk =~= r.stk + toks_of(e2).reverse());
            },
            Err(_) => {},
        }
    } else {
        lemma_sound_primary(stk);
        match sp_primary(stk).res {
            Ok(e) => {
                assert(shaped(4, e));
            },
            Err(_) => {},
        }
    }
}

#[verifier::rlimit(60)]
proof fn lemma_sound_level(lvl: int, stk: Seq<TokenView>)
    requires
        0 <= lvl <= 3,
    ensures
        ({
            let st = sp_level(lvl, stk);
            st.res matches Ok(e) ==> shaped(lvl, e) && stk == st.stk + toks_of(e).reverse()
        }),
    decreases stk.len(), (if lvl >= 3 { 2int } else { 5 - lvl }), 1int,
{
    let first = if lvl >= 3 {
        sp_unary(stk)
    } else {
        sp_level(lvl + 1, stk)
    };
    if lvl >= 3 {
        lemma_sound_unary(stk);
    } else {
        lemma_sound_level(lvl + 1, stk);
    }
    match first.res {
        Ok(f0) => {
            assert(shaped(lvl, f0));
            if first.stk.len() <= stk.len() {
                lemma_sound_loop(lvl, f0, first.stk);
                let lp = sp_level_loop(lvl, f0, first.stk);
                match lp.res {
                    Ok(e) => {
                        lemma_ext_toks(lvl, f0, e);
                        assert(toks_of(e).reverse() =~= ext_toks(lvl, f0, e).reverse()
                            + toks_of(f0).reverse());
                        assert(stk =~= lp.stk + toks_of(e).reverse());
                    },
                    Err(_) => {},
                }
            }
        },
        Err(_) => {},
    }
}

#[verifier::rlimit(100)]
#[verifier::spinoff_prover]
proof fn lemma_sound_loop(lvl: int, acc: ExprView, stk: Seq<TokenView>)
    requires
        0 <= lvl <= 3,
        shaped(lvl, acc),
    ensures
        ({
            let lp = sp_level_loop(lvl, acc, stk);
            lp.res matches Ok(e) ==> shaped(lvl, e) && level_ext(lvl, acc, e) && stk == lp.stk
                + ext_toks(lvl, acc, e).reverse()
        }),
    decreases stk.len(), (if lvl >= 3 { 2int } else { 5 - lvl }), 0int,
{
    let lp = sp_level_loop(lvl, acc, stk);
    if stk.len() > 0 && is_level_op(lvl, stk.last()) {
        let op = stk.last();
        let next = if lvl >= 3 {
            sp_unary(stk.drop_last())
        } else {
            sp_level(lvl + 1, stk.drop_last())
        };
        if lvl >= 3 {
            lemma_sound_unary(stk.drop_last());
        } else {
            lemma_sound_level(lvl + 1, stk.drop_last());
        }
        match next.res {
            Ok(right) => {
                let acc2 = ExprView::Binary(Box::new(acc), op, Box::new(right));
                assert(shaped(lvl, acc2));
                lemma_toks_len(right);
                lemma_toks_len(acc);
                assert(acc2 != acc) by {
                    assert(toks_of(acc2).len() > toks_of(acc).len());
                }
                assert(level_ext(lvl, acc, acc));
                assert(ext_toks(lvl, acc, acc) =~= Seq::<TokenView>::empty());
                assert(level_ext(lvl, acc, acc2));
                assert(ext_toks(lvl, acc, acc2) =~= seq![op] + toks_of(right));
                assert(stk =~= (next.stk + toks_of(right).reverse()).push(op)) by {
                    assert(stk.drop_last() == next.stk + toks_of(right).reverse());
                    assert(stk =~= stk.drop_last().push(op));
                }
                if next.stk.len() < stk.len() {
                    lemma_sound_loop(lvl, acc2, next.stk);
                    let lp2 = sp_level_loop(lvl, acc2, next.stk);
                    match lp2.res {
                        Ok(e) => {
                            lemma_ext_trans(lvl, acc, acc2, e);
                            assert(ext_toks(lvl, acc, e).reverse() =~= ext_toks(
                                lvl,
                                acc2,
                                e,
                            ).reverse() + toks_of(right).reverse() + seq![op]);
                            assert(stk =~= lp2.stk + ext_toks(lvl, acc, e).reverse());
                        },
                        Err(_) => {},
                    }
                } else {
                    assert(stk =~= next.stk + ext_toks(lvl, acc, acc2).reverse());
                }
            },
            Err(_) => {},
        }
    } else {
        assert(level_ext(lvl, acc, acc));
        assert(stk =~= stk + ext_toks(lvl, acc, acc).reverse());
    }
}

proof fn lemma_ok_no_errs_primary(stk: Seq<TokenView>)
    ensures
        sp_primary(stk).res is Ok ==> sp_primary(stk).errs == Seq::<ParseError>::empty(),
    decreases stk.len(), 0int, 1int,
{
    if stk.len() > 0 && stk.last() == TokenView::LeftParen {
        lemma_ok_no_errs_level(0, stk.drop_last());
    }
}

proof fn lemma_ok_no_errs_unary(stk: Seq<TokenView>)
    ensures
        sp_unary(stk).res is Ok ==> sp_unary(stk).errs == Seq::<ParseError>::empty(),
    decreases stk.len(), 1int, 1int,
{
    if stk.len() > 0 && (stk.last() == TokenView::Bang || stk.last() == TokenView::Minus) {
        lemma_ok_no_errs_unary(stk.drop_last());
    } else {
        lemma_ok_no_errs_primary(stk);
    }
}

proof fn lemma_ok_no_errs_level(lvl: int, stk: Seq<TokenView>)
    requires
        0 <= lvl <= 3,
    ensures
        sp_level(lvl, stk).res is Ok ==> sp_level(lvl, stk).errs == Seq::<ParseError>::empty(),
    decreases stk.len(), (if lvl >= 3 { 2int } else { 5 - lvl }), 1int,
{
    let first = if lvl >= 3 {
        sp_unary(stk)
    } else {
        sp_level(lvl + 1, stk)
    };
    if lvl >= 3 {
        lemma_ok_no_errs_unary(stk);
    } else {
        lemma_ok_no_errs_level(lvl + 1, stk);
    }
    match first.res {
        Ok(f0) => {
            if first.stk.len() <= stk.len() {
                lemma_ok_no_errs_loop(lvl, f0, first.stk);
                assert(Seq::<ParseError>::empty() + Seq::<ParseError>::empty() =~= Seq::<
                    ParseError,
                >::empty());
            }
        },
        Err(_) => {},
    }
}

proof fn lemma_ok_no_errs_loop(lvl: int, acc: ExprView, stk: Seq<TokenView>)
    requires
        0 <= lvl <= 3,
    ensures
        sp_level_loop(lvl, acc, stk).res is Ok ==> sp_level_loop(lvl, acc, stk).errs == Seq::<
            ParseError,
        >::empty(),
    decreases stk.len(), (if lvl >= 3 { 2int } else { 5 - lvl }), 0int,
{
    if stk.len() > 0 && is_level_op(lvl, stk.last()) {
        let next = if lvl >= 3 {
            sp_unary(stk.drop_last())
        } else {
            sp_level(lvl + 1, stk.drop_last())
        };
        if lvl >= 3 {
            lemma_ok_no_errs_unary(stk.drop_last());
        } else {
            lemma_ok_no_errs_level(lvl + 1, stk.drop_last());
        }
        match next.res {
            Ok(right) => {
                if next.stk.len() < stk.len() {
                    let acc2 = ExprView::Binary(Box::new(acc), stk.last(), Box::new(right));
                    lemma_ok_no_errs_loop(lvl, acc2, next.stk);
                    assert(Seq::<ParseError>::empty() + Seq::<ParseError>::empty() =~= Seq::<
                        ParseError,
                    >::empty());
                }
            },
            Err(_) => {},
        }
    }
}

/// Whatever tree a successful parse hands back has the parser's shape
/// (operators only from the fixed operator tokens, folded by precedence
/// and associativity), stands for exactly the tokens consumed — the
/// input is that tree's token rendering followed by the remainder — and
/// came with no recorded error.
pub proof fn lemma_parse_sound(tokens: Seq<TokenView>)
    ensures
        ({
            let (res, stk, errs) = sp_parse(tokens);
            res matches Ok(e) ==> shaped(0, e) && tokens == toks_of(e) + stk.reverse() && errs
                == Seq::<ParseError>::empty()
        }),
{
    lemma_sound_level(0, tokens.reverse());
    lemma_ok_no_errs_level(0, tokens.reverse());
    let st = sp_level(0, tokens.reverse());
    match st.res {
        Ok(e) => {
            assert(tokens.reverse() == st.stk + toks_of(e).reverse());
            assert(tokens =~= tokens.reverse().reverse());
            assert((st.stk + toks_of(e).reverse()).reverse() =~= toks_of(e) + st.stk.reverse());
        },
        Err(_) => {},
    }
}


} // verus!

