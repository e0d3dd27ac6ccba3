use loxide::expressions::expression_text;
use loxide::parser::{parse, ParseError};
use loxide::scanner::scan;
use loxide::tokens::Token;

fn parse_source(src: &str) -> (Result<String, Option<String>>, Vec<ParseError>, Vec<Token>) {
    let mut toks = scan(src).unwrap();
    let (res, errs) = parse(&mut toks);
    let shown = match res {
        Ok(e) => Ok(expression_text(&e)),
        Err(Some(e)) => Err(Some(expression_text(&e))),
        Err(None) => Err(None),
    };
    (shown, errs, toks)
}

#[test]
fn precedence_binds_factor_above_term() {
    let (res, errs, _) = parse_source("1 + 2 * 3");
    assert_eq!(res, Ok("(+ 1 (* 2 3))".to_string()));
    assert_eq!(errs, vec![]);
}

#[test]
fn binary_levels_fold_left_associatively() {
    let (res, _, _) = parse_source("1 - 2 - 3");
    assert_eq!(res, Ok("(- (- 1 2) 3)".to_string()));
    let (res, _, _) = parse_source("1 * 2 / 3");
    assert_eq!(res, Ok("(/ (* 1 2) 3)".to_string()));
}

#[test]
fn comparison_and_equality_levels() {
    let (res, _, _) = parse_source("1 + 2 < 3 == true");
    assert_eq!(res, Ok("(== (< (+ 1 2) 3) true)".to_string()));
}

#[test]
fn unary_is_right_associative_and_unbounded() {
    let (res, _, _) = parse_source("!!!true");
    assert_eq!(res, Ok("(!(!(!true)))".to_string()));
    let (res, _, _) = parse_source("--5");
    assert_eq!(res, Ok("(-(-5))".to_string()));
}

#[test]
fn grouping_parses_parenthesized_expression() {
    let (res, _, _) = parse_source("(1 + 2) * 3");
    assert_eq!(res, Ok("(* ((+ 1 2)) 3)".to_string()));
}

#[test]
fn missing_right_paren_keeps_partial_tree() {
    let (res, errs, _) = parse_source("(1 + 2");
    assert_eq!(res, Err(Some("(+ 1 2)".to_string())));
    assert_eq!(errs, vec![ParseError::MissingRightParen]);
}

#[test]
fn stray_token_is_expected_expression_error() {
    let (res, errs, _) = parse_source("+ 1; 2");
    assert_eq!(res, Err(None));
    assert_eq!(errs, vec![ParseError::ExpectedExpression]);
}

#[test]
fn synchronize_consumes_up_to_semicolon() {
    let mut toks = scan("+ 1; 2").unwrap();
    let (_, _) = parse(&mut toks);
    // the remainder is left as a stack, front on top
    assert_eq!(toks, vec![Token::Eof, Token::Number("2".to_string())]);
}

#[test]
fn synchronize_stops_before_statement_keyword() {
    let mut toks = scan("+ 1 var x").unwrap();
    let (res, errs) = parse(&mut toks);
    assert!(res.is_err());
    assert_eq!(errs, vec![ParseError::ExpectedExpression]);
    assert_eq!(
        toks,
        vec![
            Token::Eof,
            Token::Identifier("x".to_string()),
            Token::Var,
        ]
    );
}

#[test]
fn empty_token_list_is_pop_failed() {
    let mut toks: Vec<Token> = Vec::new();
    let (res, errs) = parse(&mut toks);
    assert!(matches!(res, Err(None)));
    assert_eq!(errs, vec![ParseError::PopFailed]);
}

#[test]
fn literals_parse_to_leaves() {
    let (res, _, _) = parse_source("true");
    assert_eq!(res, Ok("true".to_string()));
    let (res, _, _) = parse_source("false");
    assert_eq!(res, Ok("false".to_string()));
    let (res, _, _) = parse_source("1.5");
    assert_eq!(res, Ok("1.5".to_string()));
    let (res, _, _) = parse_source("\"hi\"");
    assert_eq!(res, Ok("hi".to_string()));
}

#[test]
fn printer_output_is_prefix_form() {
    let (res, _, _) = parse_source("!true == false");
    assert_eq!(res, Ok("(== (!true) false)".to_string()));
}
