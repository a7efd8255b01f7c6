//! The expression tree, its mathematical model, and the parse errors.

use vstd::prelude::*;

verus! {

/// The seven binary operators of the grammar.
#[derive(Clone, Copy, Debug, PartialEq, Eq, Structural)]
pub enum OpKind {
    Add,
    Sub,
    Mul,
    Div,
    Mod,
    Pow,
    Root,
}

/// Precedence tiers; the resolver runs over them highest first.
#[derive(Clone, Copy, Debug, PartialEq, Eq, Structural)]
pub enum Tier {
    High,
    Mid,
    Low,
}

/// Which precedence tier an operator belongs to: `^ ~` bind tightest,
/// then `* / %`, then `+ -`.
pub open spec fn tier_of(k: OpKind) -> Tier {
    match k {
        OpKind::Pow | OpKind::Root => Tier::High,
        OpKind::Mul | OpKind::Div | OpKind::Mod => Tier::Mid,
        OpKind::Add | OpKind::Sub => Tier::Low,
    }
}

/// Which side of an operator a missing operand was expected on.
#[derive(Clone, Copy, Debug, PartialEq, Eq, Structural)]
pub enum Side {
    Left,
    Right,
}

/// Everything that can go wrong while scanning or resolving a formula.
#[derive(Clone, Copy, Debug, PartialEq, Eq, Structural)]
pub enum ParseError {
    /// A `(` was never matched by a closing `)`.
    UnterminatedGroup,
    /// A stray `)` with no open group.
    UnmatchedCloseParen,
    /// A character outside the recognized token set.
    UnexpectedCharacter(char),
    /// `#`-prefixed text is empty or does not fit an unsigned 64-bit value.
    InvalidHexLiteral,
    /// An operator had no neighbor to bind on the given side.
    MissingOperand(Side),
    /// A group did not collapse to exactly one element after resolution.
    UnresolvedExpression,
}

/// The operands of a binary operator node.  A freshly scanned operator has
/// both unset; resolution is exactly the act of setting them.
#[derive(Debug, PartialEq)]
pub struct OpParams {
    pub lhs: Option<Box<Expression>>,
    pub rhs: Option<Box<Expression>>,
}

/// One syntactic node: a numeric literal stored as text, a binary operator
/// with optional operands, or a parenthesis level holding its children.
#[derive(Debug, PartialEq)]
pub enum Expression {
    Unit(String),
    Add(OpParams),
    Sub(OpParams),
    Mul(OpParams),
    Div(OpParams),
    Mod(OpParams),
    Pow(OpParams),
    Root(OpParams),
    Group(Group),
}

/// An ordered sequence of child expressions for one parenthesis level
/// (or for the whole input).
#[derive(Debug, PartialEq)]
pub struct Group {
    pub body: Vec<Expression>,
}

/// The mathematical shape of an expression node, with literal text as a
/// character sequence.  An operator node models as `Pending` until both of
/// its operands are set, and as `Bin` with exactly two children afterwards.
#[verifier::ext_equal]
pub enum ExprModel {
    Lit(Seq<char>),
    Pending(OpKind),
    Bin(OpKind, Seq<ExprModel>),
    Grouped(Seq<ExprModel>),
}

/// Model of an operator node of kind `k`: `Bin` once both operands are set,
/// `Pending` otherwise.
pub open spec fn op_model(k: OpKind, p: OpParams) -> ExprModel
    decreases p,
{
    match p.lhs {
        Option::Some(l) => match p.rhs {
            Option::Some(r) => ExprModel::Bin(k, seq![model(*l), model(*r)]),
            Option::None => ExprModel::Pending(k),
        },
        Option::None => ExprModel::Pending(k),
    }
}

/// The model of an expression node.
pub open spec fn model(e: Expression) -> ExprModel
    decreases e,
{
    match e {
        Expression::Unit(t) => ExprModel::Lit(t@),
        Expression::Add(p) => op_model(OpKind::Add, p),
        Expression::Sub(p) => op_model(OpKind::Sub, p),
        Expression::Mul(p) => op_model(OpKind::Mul, p),
        Expression::Div(p) => op_model(OpKind::Div, p),
        Expression::Mod(p) => op_model(OpKind::Mod, p),
        Expression::Pow(p) => op_model(OpKind::Pow, p),
        Expression::Root(p) => op_model(OpKind::Root, p),
        Expression::Group(g) => ExprModel::Grouped(seq_model(g.body@)),
    }
}

/// The models of a sequence of expression nodes, element by element.
pub open spec fn seq_model(s: Seq<Expression>) -> Seq<ExprModel>
    decreases s,
{
    if s.len() == 0 {
        Seq::empty()
    } else {
        seq_model(s.subrange(0, s.len() - 1)).push(model(s[s.len() - 1]))
    }
}

/// `seq_model` maps element by element.
pub broadcast proof fn lemma_seq_model(s: Seq<Expression>)
    ensures
        (#[trigger] seq_model(s)).len() == s.len(),
        forall|i: int| 0 <= i < s.len() ==> seq_model(s)[i] == model(s[i]),
    decreases s.len(),
{
    if s.len() > 0 {
        lemma_seq_model(s.subrange(0, s.len() - 1));
    }
}

/// Removing an element commutes with taking models.
pub proof fn lemma_seq_model_remove(s: Seq<Expression>, i: int)
    requires
        0 <= i < s.len(),
    ensures
        seq_model(s.remove(i)) == seq_model(s).remove(i),
{
    broadcast use lemma_seq_model;

    assert(seq_model(s.remove(i)) =~= seq_model(s).remove(i));
}

/// Inserting an element commutes with taking models.
pub proof fn lemma_seq_model_insert(s: Seq<Expression>, i: int, e: Expression)
    requires
        0 <= i <= s.len(),
    ensures
        seq_model(s.insert(i, e)) == seq_model(s).insert(i, model(e)),
{
    broadcast use lemma_seq_model;

    assert(seq_model(s.insert(i, e)) =~= seq_model(s).insert(i, model(e)));
}

} // verus!
