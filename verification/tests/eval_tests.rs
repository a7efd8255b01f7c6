//! End-to-end evaluation: the library scans and resolves, and a small
//! floating-point fold computes the numeric result, exactly as an
//! embedding program would.

use nac::Expression;
use nac::OpParams;
use nac::ParseError;
use nac::Side;

#[derive(Debug, PartialEq)]
enum EvalError {
    Parse(ParseError),
    InvalidNumericLiteral,
    InternalInconsistency,
}

fn operands(p: &mut OpParams) -> Result<(f64, f64), EvalError> {
    match (&mut p.lhs, &mut p.rhs) {
        (Some(l), Some(r)) => {
            let lv = eval(l)?;
            let rv = eval(r)?;
            Ok((lv, rv))
        }
        _ => Err(EvalError::InternalInconsistency),
    }
}

fn eval(e: &mut Expression) -> Result<f64, EvalError> {
    match e {
        Expression::Unit(t) => t.parse::<f64>().map_err(|_| EvalError::InvalidNumericLiteral),
        Expression::Add(p) => {
            let (l, r) = operands(p)?;
            Ok(l + r)
        }
        Expression::Sub(p) => {
            let (l, r) = operands(p)?;
            Ok(l - r)
        }
        Expression::Mul(p) => {
            let (l, r) = operands(p)?;
            Ok(l * r)
        }
        Expression::Div(p) => {
            let (l, r) = operands(p)?;
            Ok(l / r)
        }
        Expression::Mod(p) => {
            let (l, r) = operands(p)?;
            Ok(l % r)
        }
        Expression::Pow(p) => {
            let (l, r) = operands(p)?;
            Ok(l.powf(r))
        }
        Expression::Root(p) => {
            let (l, r) = operands(p)?;
            Ok(r.powf(1.0 / l))
        }
        Expression::Group(g) => {
            g.resolve().map_err(EvalError::Parse)?;
            eval(&mut g.body[0])
        }
    }
}

fn evaluate_string(s: &str) -> Result<f64, EvalError> {
    let mut root = Expression::root(s).map_err(EvalError::Parse)?;
    eval(&mut root)
}

#[test]
fn literal_passthrough() {
    assert_eq!(evaluate_string("42").unwrap(), 42.0);
    assert_eq!(evaluate_string("12.5").unwrap(), "12.5".parse::<f64>().unwrap());
    assert_eq!(evaluate_string("0").unwrap(), 0.0);
}

#[test]
fn trailing_dot_gets_zero() {
    assert_eq!(evaluate_string("7.").unwrap(), 7.0);
}

#[test]
fn precedence_of_tiers() {
    assert_eq!(evaluate_string("2+3*4").unwrap(), 14.0);
    assert_eq!(evaluate_string("(2+3)*4").unwrap(), 20.0);
}

#[test]
fn left_associativity_within_tier() {
    assert_eq!(evaluate_string("8-3-2").unwrap(), 3.0);
    assert_eq!(evaluate_string("2^3^2").unwrap(), 64.0);
}

#[test]
fn unary_sign_via_implicit_zero() {
    assert_eq!(evaluate_string("-5+3").unwrap(), -2.0);
    assert_eq!(evaluate_string("+5").unwrap(), 5.0);
}

#[test]
fn root_operator() {
    assert_eq!(evaluate_string("2~9").unwrap(), 3.0);
    assert_eq!(evaluate_string("3~27").unwrap(), 3.0);
}

#[test]
fn hex_literal() {
    assert_eq!(evaluate_string("#ff").unwrap(), 255.0);
    assert_eq!(evaluate_string("#10").unwrap(), 16.0);
    assert_eq!(evaluate_string("#ffffffffffffffff").unwrap(), u64::MAX as f64);
}

#[test]
fn nested_parentheses() {
    assert_eq!(evaluate_string("((((1+1))))").unwrap(), 2.0);
    assert_eq!(evaluate_string("((2+3))*((1+1))").unwrap(), 10.0);
}

#[test]
fn division_and_modulo() {
    assert_eq!(evaluate_string("7/2").unwrap(), 3.5);
    assert_eq!(evaluate_string("7%4").unwrap(), 3.0);
    assert!(evaluate_string("1/0").unwrap().is_infinite());
}

#[test]
fn whitespace_is_skipped() {
    assert_eq!(evaluate_string(" 1 +\t2 ").unwrap(), 3.0);
}

#[test]
fn unterminated_group_error() {
    assert_eq!(
        evaluate_string("(1+2"),
        Err(EvalError::Parse(ParseError::UnterminatedGroup))
    );
}

#[test]
fn unmatched_close_paren_error() {
    assert_eq!(
        evaluate_string("1+2)"),
        Err(EvalError::Parse(ParseError::UnmatchedCloseParen))
    );
}

#[test]
fn unexpected_character_error() {
    assert_eq!(
        evaluate_string("1+&"),
        Err(EvalError::Parse(ParseError::UnexpectedCharacter('&')))
    );
}

#[test]
fn missing_right_operand_error() {
    assert_eq!(
        evaluate_string("1+"),
        Err(EvalError::Parse(ParseError::MissingOperand(Side::Right)))
    );
}

#[test]
fn missing_left_operand_error() {
    assert_eq!(
        evaluate_string("*5"),
        Err(EvalError::Parse(ParseError::MissingOperand(Side::Left)))
    );
}

#[test]
fn unresolved_expression_error() {
    assert_eq!(
        evaluate_string("1 2"),
        Err(EvalError::Parse(ParseError::UnresolvedExpression))
    );
    assert_eq!(
        evaluate_string("1+*2"),
        Err(EvalError::Parse(ParseError::UnresolvedExpression))
    );
}

#[test]
fn invalid_hex_literal_error() {
    assert_eq!(
        evaluate_string("#"),
        Err(EvalError::Parse(ParseError::InvalidHexLiteral))
    );
    assert_eq!(
        evaluate_string("#11112222333344445"),
        Err(EvalError::Parse(ParseError::InvalidHexLiteral))
    );
}

#[test]
fn invalid_numeric_literal_error() {
    let mut lit = Expression::Unit("abc".to_string());
    assert_eq!(eval(&mut lit), Err(EvalError::InvalidNumericLiteral));
}

#[test]
fn unresolved_operator_is_inconsistent() {
    let mut op = Expression::Add(OpParams { lhs: None, rhs: None });
    assert_eq!(eval(&mut op), Err(EvalError::InternalInconsistency));
}
