//! Lexical scanning: source text to tokens.
//!
//! The scanner walks the source line by line and, within a line, over
//! extended grapheme clusters, so that combining characters in identifiers
//! and string literals stay intact. All lexical errors over the whole
//! source are accumulated; tokens are handed out only when no error was
//! recorded. The exact behaviour is the spec function `scan_spec`.

use vstd::prelude::*;
use vstd::string::*;
use unicode_segmentation::UnicodeSegmentation;

use crate::tokens::{Token, TokenView, toks_view, spec_keyword, keyword_token};

verus! {

/// A lexical error, carrying the offending text, the source line for
/// diagnostic display, and 0-based line and column indices.
#[derive(Debug, Clone, PartialEq)]
pub enum ScanError {
    UnexpectedChar { ch: String, line_str: String, line_index: usize, col_index: usize },
    UnterminatedString { line_str: String, line_index: usize, col_index: usize },
    NumberLiteralParse { number: String, line_str: String, line_index: usize, col_index: usize },
}

/// The mathematical view of a lexical error.
pub enum ScanErrorView {
    UnexpectedChar { ch: Seq<char>, line_str: Seq<char>, line_index: int, col_index: int },
    UnterminatedString { line_str: Seq<char>, line_index: int, col_index: int },
    NumberLiteralParse { number: Seq<char>, line_str: Seq<char>, line_index: int, col_index: int },
}

impl View for ScanError {
    type V = ScanErrorView;

    open spec fn view(&self) -> ScanErrorView {
        match self {
            ScanError::UnexpectedChar { ch, line_str, line_index, col_index } =>
                ScanErrorView::UnexpectedChar {
                    ch: ch@,
                    line_str: line_str@,
                    line_index: *line_index as int,
                    col_index: *col_index as int,
                },
            ScanError::UnterminatedString { line_str, line_index, col_index } =>
                ScanErrorView::UnterminatedString {
                    line_str: line_str@,
                    line_index: *line_index as int,
                    col_index: *col_index as int,
                },
            ScanError::NumberLiteralParse { number, line_str, line_index, col_index } =>
                ScanErrorView::NumberLiteralParse {
                    number: number@,
                    line_str: line_str@,
                    line_index: *line_index as int,
                    col_index: *col_index as int,
                },
        }
    }
}

/// The view of a list of lexical errors.
pub open spec fn errs_view(v: Seq<ScanError>) -> Seq<ScanErrorView> {
    v.map_values(|e: ScanError| e@)
}

/// The view of a list of strings.
pub open spec fn strs_view(v: Seq<String>) -> Seq<Seq<char>> {
    v.map_values(|s: String| s@)
}

/// The lines that `str::lines` splits a text into.
pub uninterp spec fn lines_of(s: Seq<char>) -> Seq<Seq<char>>;

/// The extended grapheme clusters of a text.
pub uninterp spec fn graphemes_of(s: Seq<char>) -> Seq<Seq<char>>;

/// Whether a character has Unicode property Numeric (`char::is_numeric`).
pub uninterp spec fn char_numeric(c: char) -> bool;

/// Whether a character has Unicode property Alphabetic (`char::is_alphabetic`).
pub uninterp spec fn char_alphabetic(c: char) -> bool;

/// A printable-ASCII text: no control characters, nothing beyond ASCII.
pub open spec fn ascii_printable(s: Seq<char>) -> bool {
    forall|i: int| 0 <= i < s.len() ==> (32 <= (#[trigger] s[i]) as u32 && (s[i] as u32) < 127)
}

/// The single-character grapheme of `c`.
pub open spec fn g1(c: char) -> Seq<char> {
    seq![c]
}

/// The concatenation of the graphemes `gs[i .. j]`.
pub open spec fn concat_range(gs: Seq<Seq<char>>, i: nat, j: nat) -> Seq<char>
    decreases j - i,
{
    if i < j && j <= gs.len() {
        concat_range(gs, i, (j - 1) as nat) + gs[j - 1]
    } else {
        Seq::empty()
    }
}

/// Relies on `str::lines`: lines are the segments split at line endings
/// (`'\n'` or `"\r\n"`); no line contains `'\n'`; empty input has no lines;
/// a nonempty input without newline or carriage return is one single line.
#[verifier::external_body]
fn split_lines(s: &str) -> (r: Vec<String>)
    ensures
        strs_view(r@) == lines_of(s@),
        forall|i: int| 0 <= i < r@.len() ==> !(#[trigger] strs_view(r@)[i]).contains('\n'),
        s@.len() == 0 ==> r@.len() == 0,
        (s@.len() > 0 && !s@.contains('\n') && !s@.contains('\r')) ==> strs_view(r@) == seq![s@],
{
    s.lines().map(String::from).collect()
}

/// Relies on `unicode_segmentation::UnicodeSegmentation::graphemes` with
/// extended clusters (UAX #29): the clusters partition the string in order,
/// each cluster is nonempty, and a printable-ASCII string splits into its
/// single characters.
#[verifier::external_body]
fn grapheme_clusters(s: &str) -> (r: Vec<String>)
    ensures
        strs_view(r@) == graphemes_of(s@),
        concat_range(strs_view(r@), 0, r@.len()) == s@,
        forall|i: int| 0 <= i < r@.len() ==> (#[trigger] strs_view(r@)[i]).len() > 0,
        ascii_printable(s@) ==> strs_view(r@) == Seq::new(s@.len(), |i: int| seq![s@[i]]),
{
    UnicodeSegmentation::graphemes(s, true).map(String::from).collect()
}

/// Is `c` one of the ten ASCII digits?
pub open spec fn is_ascii_digit_char(c: char) -> bool {
    48 <= (c as u32) <= 57
}

/// Is `c` an ASCII letter?
pub open spec fn is_ascii_alpha_char(c: char) -> bool {
    (97 <= (c as u32) <= 122) || (65 <= (c as u32) <= 90)
}

/// Relies on `char::is_numeric`: within ASCII exactly the ten digits have
/// the Numeric property.
pub assume_specification[ char::is_numeric ](c: char) -> (r: bool)
    ensures
        r == char_numeric(c),
        (c as u32) < 128 ==> (r <==> is_ascii_digit_char(c)),
;

/// Relies on `char::is_alphabetic`: within ASCII exactly the letters are
/// alphabetic.
pub assume_specification[ char::is_alphabetic ](c: char) -> (r: bool)
    ensures
        r == char_alphabetic(c),
        (c as u32) < 128 ==> (r <==> is_ascii_alpha_char(c)),
;

/// Relies on `char::is_alphanumeric`, documented as true exactly when
/// `is_alphabetic` or `is_numeric` is.
pub assume_specification[ char::is_alphanumeric ](c: char) -> (r: bool)
    ensures
        r == (char_alphabetic(c) || char_numeric(c)),
        (c as u32) < 128 ==> (r <==> (is_ascii_alpha_char(c) || is_ascii_digit_char(c))),
;

/// Does the grapheme start a numeric literal?
pub open spec fn spec_is_digit(g: Seq<char>) -> bool {
    g.len() > 0 && (is_ascii_digit_char(g[0]) || ((g[0] as u32) >= 128 && char_numeric(g[0])))
}

/// Does the grapheme start an identifier?
pub open spec fn spec_is_alpha(g: Seq<char>) -> bool {
    g.len() > 0 && (is_ascii_alpha_char(g[0]) || ((g[0] as u32) >= 128 && char_alphabetic(g[0])))
}

/// May the grapheme continue an identifier?
pub open spec fn spec_is_alphanumeric(g: Seq<char>) -> bool {
    spec_is_alpha(g) || spec_is_digit(g)
}

/// Whether the first character of the grapheme has property Numeric.
pub fn is_digit(g: &str) -> (r: bool)
    ensures
        r == spec_is_digit(g@),
{
    if g.unicode_len() > 0 {
        let c = g.get_char(0);
        c.is_numeric()
    } else {
        false
    }
}

/// Whether the first character of the grapheme has property Alphabetic.
pub fn is_alpha(g: &str) -> (r: bool)
    ensures
        r == spec_is_alpha(g@),
{
    if g.unicode_len() > 0 {
        let c = g.get_char(0);
        c.is_alphabetic()
    } else {
        false
    }
}

/// Whether the first character of the grapheme is alphanumeric.
pub fn is_alphanumeric(g: &str) -> (r: bool)
    ensures
        r == spec_is_alphanumeric(g@),
{
    if g.unicode_len() > 0 {
        let c = g.get_char(0);
        c.is_alphanumeric()
    } else {
        false
    }
}

/// The index just past the run of digit graphemes starting at `i`.
pub open spec fn digit_run_end(gs: Seq<Seq<char>>, i: nat) -> nat
    decreases gs.len() - i,
{
    if i < gs.len() && spec_is_digit(gs[i as int]) {
        digit_run_end(gs, i + 1)
    } else {
        i
    }
}

/// The index just past the run of alphanumeric graphemes starting at `i`.
pub open spec fn alnum_run_end(gs: Seq<Seq<char>>, i: nat) -> nat
    decreases gs.len() - i,
{
    if i < gs.len() && spec_is_alphanumeric(gs[i as int]) {
        alnum_run_end(gs, i + 1)
    } else {
        i
    }
}

pub proof fn lemma_digit_run_end(gs: Seq<Seq<char>>, i: nat)
    requires
        i <= gs.len(),
    ensures
        i <= digit_run_end(gs, i) <= gs.len(),
    decreases gs.len() - i,
{
    if i < gs.len() && spec_is_digit(gs[i as int]) {
        lemma_digit_run_end(gs, i + 1);
    }
}

pub proof fn lemma_alnum_run_end(gs: Seq<Seq<char>>, i: nat)
    requires
        i <= gs.len(),
    ensures
        i <= alnum_run_end(gs, i) <= gs.len(),
    decreases gs.len() - i,
{
    if i < gs.len() && spec_is_alphanumeric(gs[i as int]) {
        lemma_alnum_run_end(gs, i + 1);
    }
}

/// The index just past a numeric lexeme whose first digit stands at `gi`:
/// the run of digits, and a fractional part only when a dot is followed
/// by a further digit (a trailing dot is left for the next token).
pub open spec fn number_end(gs: Seq<Seq<char>>, gi: nat) -> nat {
    let d1 = digit_run_end(gs, gi + 1);
    if d1 < gs.len() && gs[d1 as int] == g1('.') && d1 + 1 < gs.len() && spec_is_digit(
        gs[d1 + 1int],
    ) {
        digit_run_end(gs, d1 + 2)
    } else {
        d1
    }
}

/// A lexeme made only of ASCII digits and dots: exactly the numeric
/// lexemes that parse as a double. A lexeme with any other character
/// (a non-ASCII digit, a combining mark) does not.
pub open spec fn plain_number(lex: Seq<char>) -> bool {
    forall|k: int| 0 <= k < lex.len() ==> (is_ascii_digit_char(#[trigger] lex[k]) || lex[k] == '.')
}

/// Tokens and errors produced by a scan, in order.
pub struct ScanModel {
    pub toks: Seq<TokenView>,
    pub errs: Seq<ScanErrorView>,
}

pub open spec fn sm_tok(t: TokenView, r: ScanModel) -> ScanModel {
    ScanModel { toks: seq![t] + r.toks, errs: r.errs }
}

pub open spec fn sm_err(e: ScanErrorView, r: ScanModel) -> ScanModel {
    ScanModel { toks: r.toks, errs: seq![e] + r.errs }
}

/// What scanning produces from line `li`, grapheme `gi` onwards.
pub open spec fn scan_from(lines: Seq<Seq<char>>, li: nat, gi: nat) -> ScanModel
    decreases lines.len() - li, graphemes_of(lines[li as int]).len() - gi, 1int,
    via scan_from_dec
{
    if li >= lines.len() {
        ScanModel { toks: seq![], errs: seq![] }
    } else {
        let gs = graphemes_of(lines[li as int]);
        if gi >= gs.len() {
            scan_from(lines, li + 1, 0)
        } else {
            let g = gs[gi as int];
            if g == g1('(') {
                sm_tok(TokenView::LeftParen, scan_from(lines, li, gi + 1))
            } else if g == g1(')') {
                sm_tok(TokenView::RightParen, scan_from(lines, li, gi + 1))
            } else if g == g1('{') {
                sm_tok(TokenView::LeftBrace, scan_from(lines, li, gi + 1))
            } else if g == g1('}') {
                sm_tok(TokenView::RightBrace, scan_from(lines, li, gi + 1))
            } else if g == g1(',') {
                sm_tok(TokenView::Comma, scan_from(lines, li, gi + 1))
            } else if g == g1('.') {
                sm_tok(TokenView::Dot, scan_from(lines, li, gi + 1))
            } else if g == g1('-') {
                sm_tok(TokenView::Minus, scan_from(lines, li, gi + 1))
            } else if g == g1('+') {
                sm_tok(TokenView::Plus, scan_from(lines, li, gi + 1))
            } else if g == g1(';') {
                sm_tok(TokenView::Semicolon, scan_from(lines, li, gi + 1))
            } else if g == g1('*') {
                sm_tok(TokenView::Star, scan_from(lines, li, gi + 1))
            } else if g == g1('!') {
                if gi + 1 < gs.len() && gs[gi + 1int] == g1('=') {
                    sm_tok(TokenView::BangEqual, scan_from(lines, li, gi + 2))
                } else {
                    sm_tok(TokenView::Bang, scan_from(lines, li, gi + 1))
                }
            } else if g == g1('=') {
                if gi + 1 < gs.len() && gs[gi + 1int] == g1('=') {
                    sm_tok(TokenView::EqualEqual, scan_from(lines, li, gi + 2))
                } else {
                    sm_tok(TokenView::Equal, scan_from(lines, li, gi + 1))
                }
            } else if g == g1('<') {
                if gi + 1 < gs.len() && gs[gi + 1int] == g1('=') {
                    sm_tok(TokenView::LessEqual, scan_from(lines, li, gi + 2))
                } else {
                    sm_tok(TokenView::Less, scan_from(lines, li, gi + 1))
                }
            } else if g == g1('>') {
                if gi + 1 < gs.len() && gs[gi + 1int] == g1('=') {
                    sm_tok(TokenView::GreaterEqual, scan_from(lines, li, gi + 2))
                } else {
                    sm_tok(TokenView::Greater, scan_from(lines, li, gi + 1))
                }
            } else if g == g1('/') {
                if gi + 1 < gs.len() && gs[gi + 1int] == g1('/') {
                    // a line comment: the rest of the line is discarded
                    scan_from(lines, li + 1, 0)
                } else {
                    sm_tok(TokenView::Slash, scan_from(lines, li, gi + 1))
                }
            } else if g == g1('"') {
                scan_string(lines, li, gi + 1, Seq::empty(), gi)
            } else if g == g1(' ') {
                scan_from(lines, li, gi + 1)
            } else if spec_is_digit(g) {
                let end = number_end(gs, gi);
                let lex = concat_range(gs, gi, end);
                if plain_number(lex) {
                    sm_tok(TokenView::Number(lex), scan_from(lines, li, end))
                } else {
                    sm_err(
                        ScanErrorView::NumberLiteralParse {
                            number: lex,
                            line_str: lines[li as int],
                            line_index: li as int,
                            col_index: gi as int,
                        },
                        scan_from(lines, li, end),
                    )
                }
            } else if spec_is_alpha(g) {
                let end = alnum_run_end(gs, gi + 1);
                let lex = concat_range(gs, gi, end);
                let t = match spec_keyword(lex) {
                    Some(kw) => kw,
                    None => TokenView::Identifier(lex),
                };
                sm_tok(t, scan_from(lines, li, end))
            } else {
                sm_err(
                    ScanErrorView::UnexpectedChar {
                        ch: g,
                        line_str: lines[li as int],
                        line_index: li as int,
                        col_index: gi as int,
                    },
                    scan_from(lines, li, gi + 1),
                )
            }
        }
    }
}

/// Scanning the inside of a string literal that was opened at column
/// `scol`; the literal may continue onto following lines (the newline is
/// not part of the value). Exhausting the input without a closing quote
/// records one `UnterminatedString` error, referencing the last line
/// reached, and emits no token for the broken literal.
pub open spec fn scan_string(
    lines: Seq<Seq<char>>,
    li: nat,
    gi: nat,
    acc: Seq<char>,
    scol: nat,
) -> ScanModel
    decreases lines.len() - li, graphemes_of(lines[li as int]).len() - gi, 0int,
{
    if li >= lines.len() {
        ScanModel { toks: seq![], errs: seq![] }
    } else {
        let gs = graphemes_of(lines[li as int]);
        if gi < gs.len() {
            if gs[gi as int] == g1('"') {
                sm_tok(TokenView::Str(acc), scan_from(lines, li, gi + 1))
            } else {
                scan_string(lines, li, gi + 1, acc + gs[gi as int], scol)
            }
        } else if li + 1 < lines.len() {
            scan_string(lines, li + 1, 0, acc, scol)
        } else {
            ScanModel {
                toks: seq![],
                errs: seq![
                    ScanErrorView::UnterminatedString {
                        line_str: lines[li as int],
                        line_index: li as int,
                        col_index: scol as int,
                    },
                ],
            }
        }
    }
}

#[via_fn]
proof fn scan_from_dec(lines: Seq<Seq<char>>, li: nat, gi: nat) {
    if li < lines.len() {
        let gs = graphemes_of(lines[li as int]);
        if gi < gs.len() {
            lemma_digit_run_end(gs, gi + 1);
            lemma_alnum_run_end(gs, gi + 1);
            let d1 = digit_run_end(gs, gi + 1);
            if d1 + 2 <= gs.len() {
                lemma_digit_run_end(gs, d1 + 2);
            }
        }
    }
}

/// The full scan of a source text: the tokens (always ending with the
/// end marker) and the accumulated lexical errors.
pub open spec fn scan_spec(src: Seq<char>) -> ScanModel {
    let r = scan_from(lines_of(src), 0, 0);
    ScanModel { toks: r.toks + seq![TokenView::Eof], errs: r.errs }
}

/// Whether a grapheme is the single character `c`.
fn is_g(g: &String, c: char) -> (r: bool)
    ensures
        r == (g@ == g1(c)),
{
    if g.as_str().unicode_len() == 1 {
        let c0 = g.as_str().get_char(0);
        let r = c0 == c;
        proof {
            if c0 == c {
                assert(g@ =~= g1(c));
            } else {
                assert(g@[0] != g1(c)[0]);
            }
        }
        r
    } else {
        proof {
            assert(g1(c).len() == 1);
        }
        false
    }
}

/// The exec counterpart of `digit_run_end`.
fn find_digit_run_end(gs: &Vec<String>, i: usize) -> (r: usize)
    requires
        i <= gs@.len(),
    ensures
        r == digit_run_end(strs_view(gs@), i as nat),
        i <= r <= gs@.len(),
    decreases gs@.len() - i,
{
    if i < gs.len() && is_digit(gs[i].as_str()) {
        find_digit_run_end(gs, i + 1)
    } else {
        i
    }
}

/// The exec counterpart of `alnum_run_end`.
fn find_alnum_run_end(gs: &Vec<String>, i: usize) -> (r: usize)
    requires
        i <= gs@.len(),
    ensures
        r == alnum_run_end(strs_view(gs@), i as nat),
        i <= r <= gs@.len(),
    decreases gs@.len() - i,
{
    if i < gs.len() && is_alphanumeric(gs[i].as_str()) {
        find_alnum_run_end(gs, i + 1)
    } else {
        i
    }
}

/// Concatenates the graphemes `gs[i .. j]` into one lexeme.
fn collect_range(gs: &Vec<String>, i: usize, j: usize) -> (r: String)
    requires
        i <= j <= gs@.len(),
    ensures
        r@ == concat_range(strs_view(gs@), i as nat, j as nat),
{
    let mut s = String::new();
    let mut k: usize = i;
    while k < j
        invariant
            i <= k <= j <= gs@.len(),
            s@ == concat_range(strs_view(gs@), i as nat, k as nat),
        decreases j - k,
    {
        s.append(gs[k].as_str());
        k = k + 1;
    }
    s
}

/// The exec counterpart of `plain_number`.
fn is_plain_number(lex: &str) -> (r: bool)
    ensures
        r == plain_number(lex@),
{
    let n = lex.unicode_len();
    let mut k: usize = 0;
    while k < n
        invariant
            k <= n,
            n == lex@.len(),
            forall|j: int| 0 <= j < k ==> (is_ascii_digit_char(#[trigger] lex@[j]) || lex@[j]
                == '.'),
        decreases n - k,
    {
        let c = lex.get_char(k);
        let u = c as u32;
        if !((48 <= u && u <= 57) || c == '.') {
            return false;
        }
        k = k + 1;
    }
    true
}

proof fn lemma_toks_push(v: Seq<Token>, t: Token)
    ensures
        toks_view(v.push(t)) == toks_view(v).push(t@),
{
    assert(toks_view(v.push(t)) =~= toks_view(v).push(t@));
}

proof fn lemma_errs_push(v: Seq<ScanError>, e: ScanError)
    ensures
        errs_view(v.push(e)) == errs_view(v).push(e@),
{
    assert(errs_view(v.push(e)) =~= errs_view(v).push(e@));
}

proof fn lemma_shift_tok(a: Seq<TokenView>, t: TokenView, r: Seq<TokenView>)
    ensures
        a.push(t) + r == a + (seq![t] + r),
{
    assert(a.push(t) + r =~= a + (seq![t] + r));
}

proof fn lemma_shift_err(a: Seq<ScanErrorView>, e: ScanErrorView, r: Seq<ScanErrorView>)
    ensures
        a.push(e) + r == a + (seq![e] + r),
{
    assert(a.push(e) + r =~= a + (seq![e] + r));
}

/// Scans from line `li`, grapheme `gi`, appending tokens and errors.
fn scan_at(
    lines: &Vec<String>,
    gls: &Vec<Vec<String>>,
    li: usize,
    gi: usize,
    toks: &mut Vec<Token>,
    errs: &mut Vec<ScanError>,
)
    requires
        gls@.len() == lines@.len(),
        forall|i: int|
            0 <= i < lines@.len() ==> strs_view((#[trigger] gls@[i])@) == graphemes_of(
                lines@[i]@,
            ),
        li <= lines@.len(),
        li < lines@.len() ==> gi <= gls@[li as int]@.len(),
    ensures
        toks_view(final(toks)@) == toks_view(old(toks)@) + scan_from(
            strs_view(lines@),
            li as nat,
            gi as nat,
        ).toks,
        errs_view(final(errs)@) == errs_view(old(errs)@) + scan_from(
            strs_view(lines@),
            li as nat,
            gi as nat,
        ).errs,
    decreases lines@.len() - li, (if li < lines@.len() {
        gls@[li as int]@.len() - gi
    } else {
        0
    }), 0int,
{
    let ghost lns = strs_view(lines@);
    let ghost m = scan_from(lns, li as nat, gi as nat);
    if li >= lines.len() {
        proof {
            assert(toks_view(toks@) =~= toks_view(toks@) + m.toks);
            assert(errs_view(errs@) =~= errs_view(errs@) + m.errs);
        }
        return ;
    }
    proof {
        assert(lns[li as int] == lines@[li as int]@);
        assert(strs_view(gls@[li as int]@) == graphemes_of(lns[li as int]));
    }
    let gs: &Vec<String> = &gls[li];
    let ghost gsv = graphemes_of(lns[li as int]);
    if gi >= gs.len() {
        scan_at(lines, gls, li + 1, 0, toks, errs);
        return ;
    }
    let g: &String = &gs[gi];
    proof {
        assert(g@ == gsv[gi as int]);
    }
    if is_g(g, '(') {
        emit_and_continue(lines, gls, li, gi + 1, Token::LeftParen, toks, errs);
    } else if is_g(g, ')') {
        emit_and_continue(lines, gls, li, gi + 1, Token::RightParen, toks, errs);
    } else if is_g(g, '{') {
        emit_and_continue(lines, gls, li, gi + 1, Token::LeftBrace, toks, errs);
    } else if is_g(g, '}') {
        emit_and_continue(lines, gls, li, gi + 1, Token::RightBrace, toks, errs);
    } else if is_g(g, ',') {
        emit_and_continue(lines, gls, li, gi + 1, Token::Comma, toks, errs);
    } else if is_g(g, '.') {
        emit_and_continue(lines, gls, li, gi + 1, Token::Dot, toks, errs);
    } else if is_g(g, '-') {
        emit_and_continue(lines, gls, li, gi + 1, Token::Minus, toks, errs);
    } else if is_g(g, '+') {
        emit_and_continue(lines, gls, li, gi + 1, Token::Plus, toks, errs);
    } else if is_g(g, ';') {
        emit_and_continue(lines, gls, li, gi + 1, Token::Semicolon, toks, errs);
    } else if is_g(g, '*') {
        emit_and_continue(lines, gls, li, gi + 1, Token::Star, toks, errs);
    } else if is_g(g, '!') {
        if gi + 1 < gs.len() && is_g(&gs[gi + 1], '=') {
            emit_and_continue(lines, gls, li, gi + 2, Token::BangEqual, toks, errs);
        } else {
            emit_and_continue(lines, gls, li, gi + 1, Token::Bang, toks, errs);
        }
    } else if is_g(g, '=') {
        if gi + 1 < gs.len() && is_g(&gs[gi + 1], '=') {
            emit_and_continue(lines, gls, li, gi + 2, Token::EqualEqual, toks, errs);
        } else {
            emit_and_continue(lines, gls, li, gi + 1, Token::Equal, toks, errs);
        }
    } else if is_g(g, '<') {
        if gi + 1 < gs.len() && is_g(&gs[gi + 1], '=') {
            emit_and_continue(lines, gls, li, gi + 2, Token::LessEqual, toks, errs);
        } else {
            emit_and_continue(lines, gls, li, gi + 1, Token::Less, toks, errs);
        }
    } else if is_g(g, '>') {
        if gi + 1 < gs.len() && is_g(&gs[gi + 1], '=') {
            emit_and_continue(lines, gls, li, gi + 2, Token::GreaterEqual, toks, errs);
        } else {
            emit_and_continue(lines, gls, li, gi + 1, Token::Greater, toks, errs);
        }
    } else if is_g(g, '/') {
        if gi + 1 < gs.len() && is_g(&gs[gi + 1], '/') {
            scan_at(lines, gls, li + 1, 0, toks, errs);
        } else {
            emit_and_continue(lines, gls, li, gi + 1, Token::Slash, toks, errs);
        }
    } else if is_g(g, '"') {
        scan_str_at(lines, gls, li, gi + 1, String::new(), gi, toks, errs);
    } else if is_g(g, ' ') {
        scan_at(lines, gls, li, gi + 1, toks, errs);
    } else if is_digit(g.as_str()) {
        let d1 = find_digit_run_end(gs, gi + 1);
        let end: usize = if d1 < gs.len() && is_g(&gs[d1], '.') && d1 + 1 < gs.len() && is_digit(
            gs[d1 + 1].as_str(),
        ) {
            find_digit_run_end(gs, d1 + 2)
        } else {
            d1
        };
        proof {
            assert(end == number_end(gsv, gi as nat));
        }
        let lex = collect_range(gs, gi, end);
        let ghost toks1 = toks@;
        let ghost errs1 = errs@;
        if is_plain_number(lex.as_str()) {
            let t = Token::Number(lex);
            proof {
                lemma_toks_push(toks1, t);
            }
            toks.push(t);
            scan_at(lines, gls, li, end, toks, errs);
            proof {
                lemma_shift_tok(
                    toks_view(toks1),
                    t@,
                    scan_from(lns, li as nat, end as nat).toks,
                );
            }
        } else {
            let e = ScanError::NumberLiteralParse {
                number: lex,
                line_str: lines[li].clone(),
                line_index: li,
                col_index: gi,
            };
            proof {
                lemma_errs_push(errs1, e);
            }
            errs.push(e);
            scan_at(lines, gls, li, end, toks, errs);
            proof {
                lemma_shift_err(
                    errs_view(errs1),
                    e@,
                    scan_from(lns, li as nat, end as nat).errs,
                );
            }
        }
    } else if is_alpha(g.as_str()) {
        let end = find_alnum_run_end(gs, gi + 1);
        let lex = collect_range(gs, gi, end);
        let ghost toks1 = toks@;
        let t = match keyword_token(lex.as_str()) {
            Some(kw) => kw,
            None => Token::Identifier(lex),
        };
        proof {
            lemma_toks_push(toks1, t);
        }
        toks.push(t);
        scan_at(lines, gls, li, end, toks, errs);
        proof {
            lemma_shift_tok(toks_view(toks1), t@, scan_from(lns, li as nat, end as nat).toks);
        }
    } else {
        let e = ScanError::UnexpectedChar {
            ch: g.clone(),
            line_str: lines[li].clone(),
            line_index: li,
            col_index: gi,
        };
        let ghost errs1 = errs@;
        proof {
            lemma_errs_push(errs1, e);
        }
        errs.push(e);
        scan_at(lines, gls, li, gi + 1, toks, errs);
        proof {
            lemma_shift_err(
                errs_view(errs1),
                e@,
                scan_from(lns, li as nat, (gi + 1) as nat).errs,
            );
        }
    }
}

/// Pushes one token and scans on from `(li, gi)`.
fn emit_and_continue(
    lines: &Vec<String>,
    gls: &Vec<Vec<String>>,
    li: usize,
    gi: usize,
    t: Token,
    toks: &mut Vec<Token>,
    errs: &mut Vec<ScanError>,
)
    requires
        gls@.len() == lines@.len(),
        forall|i: int|
            0 <= i < lines@.len() ==> strs_view((#[trigger] gls@[i])@) == graphemes_of(
                lines@[i]@,
            ),
        li < lines@.len(),
        gi <= gls@[li as int]@.len(),
    ensures
        toks_view(final(toks)@) == toks_view(old(toks)@) + (seq![t@] + scan_from(
            strs_view(lines@),
            li as nat,
            gi as nat,
        ).toks),
        errs_view(final(errs)@) == errs_view(old(errs)@) + scan_from(
            strs_view(lines@),
            li as nat,
            gi as nat,
        ).errs,
    decreases lines@.len() - li, gls@[li as int]@.len() - gi, 1int,
{
    let ghost toks1 = toks@;
    proof {
        lemma_toks_push(toks1, t);
    }
    toks.push(t);
    scan_at(lines, gls, li, gi, toks, errs);
    proof {
        lemma_shift_tok(
            toks_view(toks1),
            t@,
            scan_from(strs_view(lines@), li as nat, gi as nat).toks,
        );
    }
}

/// Scans the inside of a string literal opened at column `scol`.
fn scan_str_at(
    lines: &Vec<String>,
    gls: &Vec<Vec<String>>,
    li: usize,
    gi: usize,
    acc: String,
    scol: usize,
    toks: &mut Vec<Token>,
    errs: &mut Vec<ScanError>,
)
    requires
        gls@.len() == lines@.len(),
        forall|i: int|
            0 <= i < lines@.len() ==> strs_view((#[trigger] gls@[i])@) == graphemes_of(
                lines@[i]@,
            ),
        li < lines@.len(),
        gi <= gls@[li as int]@.len(),
    ensures
        toks_view(final(toks)@) == toks_view(old(toks)@) + scan_string(
            strs_view(lines@),
            li as nat,
            gi as nat,
            acc@,
            scol as nat,
        ).toks,
        errs_view(final(errs)@) == errs_view(old(errs)@) + scan_string(
            strs_view(lines@),
            li as nat,
            gi as nat,
            acc@,
            scol as nat,
        ).errs,
    decreases lines@.len() - li, gls@[li as int]@.len() - gi, 0int,
{
    let ghost lns = strs_view(lines@);
    proof {
        assert(lns[li as int] == lines@[li as int]@);
        assert(strs_view(gls@[li as int]@) == graphemes_of(lns[li as int]));
    }
    let gs: &Vec<String> = &gls[li];
    if gi < gs.len() {
        let g: &String = &gs[gi];
        proof {
            assert(g@ == graphemes_of(lns[li as int])[gi as int]);
        }
        if is_g(g, '"') {
            let ghost toks1 = toks@;
            let t = Token::Str(acc);
            proof {
                lemma_toks_push(toks1, t);
            }
            toks.push(t);
            scan_at(lines, gls, li, gi + 1, toks, errs);
            proof {
                lemma_shift_tok(
                    toks_view(toks1),
                    t@,
                    scan_from(lns, li as nat, (gi + 1) as nat).toks,
                );
            }
        } else {
            let mut acc2 = acc;
            acc2.append(g.as_str());
            scan_str_at(lines, gls, li, gi + 1, acc2, scol, toks, errs);
        }
    } else if li < lines.len() - 1 {
        scan_str_at(lines, gls, li + 1, 0, acc, scol, toks, errs);
    } else {
        let e = ScanError::UnterminatedString {
            line_str: lines[li].clone(),
            line_index: li,
            col_index: scol,
        };
        let ghost errs1 = errs@;
        proof {
            lemma_errs_push(errs1, e);
        }
        errs.push(e);
        proof {
            assert(errs_view(errs1).push(e@) =~= errs_view(errs1) + seq![e@]);
            assert(toks_view(toks@) =~= toks_view(toks@) + Seq::<TokenView>::empty());
        }
    }
}

/// Scans a source text into tokens. All lexical errors over the whole
/// source are accumulated; `Ok` is returned exactly when none occurred,
/// and the token list then ends with the end marker. On `Err` the
/// partially built token list is discarded.
pub fn scan(source: &str) -> (r: Result<Vec<Token>, Vec<ScanError>>)
    ensures
        match r {
            Ok(toks) => scan_spec(source@).errs.len() == 0 && toks_view(toks@) == scan_spec(
                source@,
            ).toks,
            Err(es) => scan_spec(source@).errs.len() > 0 && errs_view(es@) == scan_spec(
                source@,
            ).errs,
        },
{
    let lines = split_lines(source);
    let mut gls: Vec<Vec<String>> = Vec::new();
    let mut i: usize = 0;
    while i < lines.len()
        invariant
            i <= lines@.len(),
            gls@.len() == i,
            forall|j: int|
                0 <= j < i ==> strs_view((#[trigger] gls@[j])@) == graphemes_of(lines@[j]@),
        decreases lines@.len() - i,
    {
        let cl = grapheme_clusters(lines[i].as_str());
        gls.push(cl);
        i = i + 1;
    }
    let mut toks: Vec<Token> = Vec::new();
    let mut errs: Vec<ScanError> = Vec::new();
    scan_at(&lines, &gls, 0, 0, &mut toks, &mut errs);
    let ghost m = scan_from(strs_view(lines@), 0, 0);
    proof {
        lemma_toks_push(toks@, Token::Eof);
        assert(toks_view(toks@) =~= m.toks);
        assert(toks_view(toks@).push(TokenView::Eof) =~= m.toks + seq![TokenView::Eof]);
    }
    toks.push(Token::Eof);
    if errs.len() == 0 {
        proof {
            assert(errs_view(errs@) =~= Seq::<ScanErrorView>::empty());
        }
        Ok(toks)
    } else {
        Err(errs)
    }
}

/// A scanner holding the outcome of scanning one source unit.
pub struct Scanner {
    tokens: Result<Vec<Token>, Vec<ScanError>>,
}

impl Scanner {
    /// The outcome held by this scanner.
    pub closed spec fn spec_tokens(&self) -> Result<Vec<Token>, Vec<ScanError>> {
        self.tokens
    }

    /// Scans the source once and keeps the outcome.
    pub fn new(source: String) -> (s: Self)
        ensures
            match s.spec_tokens() {
                Ok(toks) => scan_spec(source@).errs.len() == 0 && toks_view(toks@) == scan_spec(
                    source@,
                ).toks,
                Err(es) => scan_spec(source@).errs.len() > 0 && errs_view(es@) == scan_spec(
                    source@,
                ).errs,
            },
    {
        let tokens = Scanner::scan_tokens(source.as_str());
        Scanner { tokens }
    }

    /// Scans a source text; same contract as `scan`.
    pub fn scan_tokens(source: &str) -> (r: Result<Vec<Token>, Vec<ScanError>>)
        ensures
            match r {
                Ok(toks) => scan_spec(source@).errs.len() == 0 && toks_view(toks@) == scan_spec(
                    source@,
                ).toks,
                Err(es) => scan_spec(source@).errs.len() > 0 && errs_view(es@) == scan_spec(
                    source@,
                ).errs,
            },
    {
        scan(source)
    }

    /// Get a reference to the scanner's tokens.
    pub fn tokens(&self) -> (r: &Result<Vec<Token>, Vec<ScanError>>)
        ensures
            r == self.spec_tokens(),
    {
        &self.tokens
    }
}

} // verus!
