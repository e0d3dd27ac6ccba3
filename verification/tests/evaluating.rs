use loxide::expressions::{expression_text, Expression};
use loxide::interpreter::{evaluate, EvalError, NumberOps, Value};
use loxide::parser::parse;
use loxide::scanner::scan;

/// The IEEE double arithmetic behind the evaluator's opaque 64-bit
/// number patterns.
struct Doubles;

impl NumberOps for Doubles {
    fn parse_num(&self, lexeme: &str) -> Option<u64> {
        lexeme.parse::<f64>().ok().map(f64::to_bits)
    }

    fn neg_num(&self, a: u64) -> u64 {
        (-f64::from_bits(a)).to_bits()
    }

    fn add_num(&self, a: u64, b: u64) -> u64 {
        (f64::from_bits(a) + f64::from_bits(b)).to_bits()
    }

    fn sub_num(&self, a: u64, b: u64) -> u64 {
        (f64::from_bits(a) - f64::from_bits(b)).to_bits()
    }

    fn mul_num(&self, a: u64, b: u64) -> u64 {
        (f64::from_bits(a) * f64::from_bits(b)).to_bits()
    }

    fn div_num(&self, a: u64, b: u64) -> u64 {
        (f64::from_bits(a) / f64::from_bits(b)).to_bits()
    }
}

fn run(src: &str) -> Result<Value, EvalError> {
    let mut toks = scan(src).unwrap();
    let (res, errs) = parse(&mut toks);
    assert!(errs.is_empty());
    evaluate(&res.unwrap(), &Doubles)
}

fn number(x: f64) -> Result<Value, EvalError> {
    Ok(Value::Number(x.to_bits()))
}

#[test]
fn arithmetic_with_precedence_evaluates_exactly() {
    assert_eq!(run("1 + 2 * 3"), number(7.0));
}

#[test]
fn numeric_literal_equals_the_double_parse_of_its_lexeme() {
    assert_eq!(run("2.5"), number(2.5));
    assert_eq!(run("007"), number(7.0));
    assert_eq!(run("0.1"), number(0.1));
    let big = "1234567890123456789";
    assert_eq!(run(big), number(big.parse::<f64>().unwrap()));
}

#[test]
fn bang_negates_a_boolean() {
    assert_eq!(run("!true"), Ok(Value::Boolean(false)));
    assert_eq!(run("!!true"), Ok(Value::Boolean(true)));
    assert_eq!(run("!false"), Ok(Value::Boolean(true)));
}

#[test]
fn minus_negates_a_number() {
    assert_eq!(run("-(-5)"), number(5.0));
    assert_eq!(run("-5"), number(-5.0));
}

#[test]
fn plus_concatenates_strings() {
    assert_eq!(run("\"a\" + \"b\""), Ok(Value::Str("ab".to_string())));
    assert_eq!(
        run("\"a\" + \"b\" + \"c\""),
        Ok(Value::Str("abc".to_string()))
    );
}

#[test]
fn mixed_operand_kinds_are_a_fatal_type_mismatch() {
    assert_eq!(run("true + 1"), Err(EvalError::TypeMismatch));
    assert_eq!(run("1 + \"a\""), Err(EvalError::TypeMismatch));
    assert_eq!(run("\"a\" - \"b\""), Err(EvalError::TypeMismatch));
    assert_eq!(run("!5"), Err(EvalError::TypeMismatch));
    assert_eq!(run("-true"), Err(EvalError::TypeMismatch));
}

#[test]
fn comparison_operators_have_no_evaluation_rule() {
    assert_eq!(run("1 < 2"), Err(EvalError::TypeMismatch));
    assert_eq!(run("1 == 1"), Err(EvalError::TypeMismatch));
}

#[test]
fn grouping_is_transparent() {
    assert_eq!(run("(1 + 2) * 3"), number(9.0));
    assert_eq!(run("((4))"), number(4.0));
}

#[test]
fn division_follows_ieee_semantics() {
    assert_eq!(run("10 / 4"), number(2.5));
    assert_eq!(run("1 / 0"), number(f64::INFINITY));
}

#[test]
fn subtraction_is_left_associative() {
    assert_eq!(run("1 - 2 - 3"), number(-4.0));
}

#[test]
fn rejected_lexeme_is_invalid_number_literal() {
    let e = Expression::literal_num("no number".to_string());
    assert_eq!(
        evaluate(&e, &Doubles),
        Err(EvalError::InvalidNumberLiteral)
    );
}

#[test]
fn print_then_reparse_of_literal_and_grouping_trees() {
    // the token rendering of a parsed tree re-parses to the same tree;
    // at text level this holds for trees whose printed form is scannable
    let mut toks = scan("((1.5))").unwrap();
    let (res, _) = parse(&mut toks);
    let printed = expression_text(&res.unwrap());
    assert_eq!(printed, "((1.5))");
    let mut toks2 = scan(&printed).unwrap();
    let (res2, _) = parse(&mut toks2);
    assert_eq!(expression_text(&res2.unwrap()), printed);
}
