//! The resolver seen from outside: the shape of the tree it builds, and
//! the errors it reports.

use nac::Expression;
use nac::Group;
use nac::OpParams;
use nac::ParseError;
use nac::Side;
use nac::tokenize;

fn lit(text: &str) -> Expression {
    Expression::Unit(text.to_string())
}

fn bin(node: fn(OpParams) -> Expression, l: Expression, r: Expression) -> Expression {
    node(OpParams { lhs: Some(Box::new(l)), rhs: Some(Box::new(r)) })
}

fn resolved(input: &str) -> Group {
    let mut g = Group { body: tokenize(input).unwrap() };
    g.resolve().unwrap();
    g
}

#[test]
fn precedence_shapes_the_tree() {
    let g = resolved("2+3*4");
    assert_eq!(g.body.len(), 1);
    let expected = bin(Expression::Add, lit("2"), bin(Expression::Mul, lit("3"), lit("4")));
    assert_eq!(g.body[0], expected);
}

#[test]
fn same_tier_binds_left_to_right() {
    let g = resolved("8-3-2");
    let expected = bin(Expression::Sub, bin(Expression::Sub, lit("8"), lit("3")), lit("2"));
    assert_eq!(g.body[0], expected);
    let g = resolved("2^3^2");
    let expected = bin(Expression::Pow, bin(Expression::Pow, lit("2"), lit("3")), lit("2"));
    assert_eq!(g.body[0], expected);
}

#[test]
fn leading_sign_takes_implicit_zero() {
    let g = resolved("-5");
    let expected = bin(Expression::Sub, lit("0"), lit("5"));
    assert_eq!(g.body[0], expected);
}

#[test]
fn root_keeps_index_on_the_left() {
    let g = resolved("2~9");
    let expected = bin(Expression::Root, lit("2"), lit("9"));
    assert_eq!(g.body[0], expected);
}

#[test]
fn groups_stay_unresolved_inside() {
    let g = resolved("(1+1)*2");
    match &g.body[0] {
        Expression::Mul(p) => match p.lhs.as_deref() {
            Some(Expression::Group(inner)) => assert_eq!(inner.body.len(), 3),
            _ => panic!("expected the group as left operand"),
        },
        _ => panic!("expected a product at the top"),
    }
}

#[test]
fn parse_params_binds_neighbors() {
    let mut g = Group { body: tokenize("1+2").unwrap() };
    assert_eq!(g.parse_params(1), Ok(()));
    assert_eq!(g.body.len(), 1);
    let expected = bin(Expression::Add, lit("1"), lit("2"));
    assert_eq!(g.body[0], expected);
}

#[test]
fn resolve_reports_missing_right_operand() {
    let mut g = Group { body: tokenize("1+").unwrap() };
    assert_eq!(g.resolve(), Err(ParseError::MissingOperand(Side::Right)));
}

#[test]
fn resolve_reports_missing_left_operand() {
    let mut g = Group { body: tokenize("%5").unwrap() };
    assert_eq!(g.resolve(), Err(ParseError::MissingOperand(Side::Left)));
}

#[test]
fn resolve_rejects_adjacent_literals() {
    let mut g = Group { body: tokenize("1 2").unwrap() };
    assert_eq!(g.resolve(), Err(ParseError::UnresolvedExpression));
}

#[test]
fn resolve_rejects_an_empty_body() {
    let mut g = Group { body: Vec::new() };
    assert_eq!(g.resolve(), Err(ParseError::UnresolvedExpression));
}

#[test]
fn resolving_again_changes_nothing() {
    let mut g = resolved("2+3*4");
    let before = format!("{:?}", g);
    assert_eq!(g.resolve(), Ok(()));
    assert_eq!(format!("{:?}", g), before);
}

#[test]
fn empty_input_does_not_resolve() {
    let mut g = Group { body: nac::tokenize("").unwrap() };
    assert_eq!(g.resolve(), Err(ParseError::UnresolvedExpression));
}

#[test]
fn root_wraps_the_tokens_in_a_group() {
    let e = Expression::root("1+1").unwrap();
    match e {
        Expression::Group(g) => assert_eq!(g.body.len(), 3),
        _ => panic!("expected a group at the root"),
    }
    assert_eq!(Expression::root("(("), Err(ParseError::UnterminatedGroup));
}
