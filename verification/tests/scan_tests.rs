//! The tokenizer seen from outside: token shapes, literal texts, nested
//! groups, and scan errors.

use nac::Expression;
use nac::ParseError;
use nac::tokenize;

fn unit_text(e: &Expression) -> &str {
    match e {
        Expression::Unit(t) => t.as_str(),
        _ => panic!("expected a literal token"),
    }
}

#[test]
fn scans_literals_and_operators() {
    let toks = tokenize("1+2").unwrap();
    assert_eq!(toks.len(), 3);
    assert_eq!(unit_text(&toks[0]), "1");
    assert!(matches!(&toks[1], Expression::Add(p) if p.lhs.is_none() && p.rhs.is_none()));
    assert_eq!(unit_text(&toks[2]), "2");
}

#[test]
fn scans_every_operator_unresolved() {
    let toks = tokenize("1+2-3*4/5%6^7~8").unwrap();
    assert_eq!(toks.len(), 15);
    assert!(matches!(&toks[3], Expression::Sub(p) if p.lhs.is_none() && p.rhs.is_none()));
    assert!(matches!(&toks[5], Expression::Mul(_)));
    assert!(matches!(&toks[7], Expression::Div(_)));
    assert!(matches!(&toks[9], Expression::Mod(_)));
    assert!(matches!(&toks[11], Expression::Pow(_)));
    assert!(matches!(&toks[13], Expression::Root(_)));
}

#[test]
fn hex_literal_becomes_decimal_text() {
    let toks = tokenize("#ff").unwrap();
    assert_eq!(toks.len(), 1);
    assert_eq!(unit_text(&toks[0]), "255");
    let toks = tokenize("#0").unwrap();
    assert_eq!(unit_text(&toks[0]), "0");
    let toks = tokenize("#DeadBeef").unwrap();
    assert_eq!(unit_text(&toks[0]), "3735928559");
}

#[test]
fn decimal_literal_keeps_its_text() {
    let toks = tokenize("12.5").unwrap();
    assert_eq!(toks.len(), 1);
    assert_eq!(unit_text(&toks[0]), "12.5");
}

#[test]
fn trailing_dot_is_padded() {
    let toks = tokenize("3.").unwrap();
    assert_eq!(unit_text(&toks[0]), "3.0");
}

#[test]
fn second_dot_ends_the_literal() {
    assert_eq!(tokenize("1.2.3"), Err(ParseError::UnexpectedCharacter('.')));
}

#[test]
fn groups_nest() {
    let toks = tokenize("(1)").unwrap();
    assert_eq!(toks.len(), 1);
    match &toks[0] {
        Expression::Group(g) => {
            assert_eq!(g.body.len(), 1);
            assert_eq!(unit_text(&g.body[0]), "1");
        }
        _ => panic!("expected a group token"),
    }
}

#[test]
fn group_captures_to_matching_paren() {
    let toks = tokenize("(1+(2))*3").unwrap();
    assert_eq!(toks.len(), 3);
    match &toks[0] {
        Expression::Group(g) => assert_eq!(g.body.len(), 3),
        _ => panic!("expected a group token"),
    }
    assert!(matches!(&toks[1], Expression::Mul(_)));
}

#[test]
fn whitespace_produces_no_token() {
    let toks = tokenize(" \t1\n2 ").unwrap();
    assert_eq!(toks.len(), 2);
    assert_eq!(tokenize("   ").unwrap().len(), 0);
}

#[test]
fn empty_input_scans_empty() {
    assert_eq!(tokenize("").unwrap().len(), 0);
}

#[test]
fn rescanning_is_identical() {
    let first = tokenize("1.5+(2*#ff)~3").unwrap();
    let second = tokenize("1.5+(2*#ff)~3").unwrap();
    assert_eq!(first, second);
}

#[test]
fn stray_close_paren_fails() {
    assert_eq!(tokenize(")"), Err(ParseError::UnmatchedCloseParen));
}

#[test]
fn unterminated_group_fails() {
    assert_eq!(tokenize("(1+(2)"), Err(ParseError::UnterminatedGroup));
}

#[test]
fn empty_hex_fails() {
    assert_eq!(tokenize("#"), Err(ParseError::InvalidHexLiteral));
    assert_eq!(tokenize("#+1"), Err(ParseError::InvalidHexLiteral));
}

#[test]
fn oversized_hex_fails() {
    assert_eq!(
        tokenize("#10000000000000000"),
        Err(ParseError::InvalidHexLiteral)
    );
}

#[test]
fn unexpected_character_is_reported() {
    assert_eq!(tokenize("a"), Err(ParseError::UnexpectedCharacter('a')));
}
