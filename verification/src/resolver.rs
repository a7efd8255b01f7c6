//! The precedence resolver.  It scans a flat token sequence repeatedly,
//! binding the neighbors of the leftmost unresolved operator of the current
//! tier, until every operator of every tier carries both of its operands and
//! one tree remains.

use vstd::prelude::*;
use vstd::pervasive::unreached;

use crate::ast::Expression;
use crate::ast::ExprModel;
use crate::ast::Group;
use crate::ast::OpKind;
use crate::ast::OpParams;
use crate::ast::ParseError;
use crate::ast::Side;
use crate::ast::Tier;
use crate::ast::lemma_seq_model;
use crate::ast::lemma_seq_model_insert;
use crate::ast::lemma_seq_model_remove;
use crate::ast::model;
use crate::ast::seq_model;
use crate::ast::tier_of;

verus! {

/// Whether `m` is an operator of tier `t` still waiting for its operands.
pub open spec fn is_pending_of(m: ExprModel, t: Tier) -> bool {
    match m {
        ExprModel::Pending(k) => tier_of(k) == t,
        _ => false,
    }
}

/// The kind of a pending operator node.
pub open spec fn pending_kind(m: ExprModel) -> OpKind {
    match m {
        ExprModel::Pending(k) => k,
        _ => arbitrary(),
    }
}

/// Index of the leftmost pending operator of tier `t`, if any.
pub open spec fn first_pending(body: Seq<ExprModel>, t: Tier) -> Option<int>
    decreases body.len(),
{
    if body.len() == 0 {
        Option::None
    } else if is_pending_of(body[0], t) {
        Option::Some(0)
    } else {
        match first_pending(body.subrange(1, body.len() as int), t) {
            Option::Some(i) => Option::Some(i + 1),
            Option::None => Option::None,
        }
    }
}

/// `first_pending` returns the leftmost matching index, or `None` when no
/// element matches.
pub proof fn lemma_first_pending(body: Seq<ExprModel>, t: Tier)
    ensures
        match first_pending(body, t) {
            Option::None => forall|j: int| 0 <= j < body.len() ==> !is_pending_of(body[j], t),
            Option::Some(i) => 0 <= i < body.len() && is_pending_of(body[i], t) && forall|j: int|
                0 <= j < i ==> !is_pending_of(body[j], t),
        },
    decreases body.len(),
{
    if body.len() > 0 && !is_pending_of(body[0], t) {
        let tail = body.subrange(1, body.len() as int);
        lemma_first_pending(tail, t);
        assert(forall|j: int| 0 <= j < tail.len() ==> tail[j] == body[j + 1]);
        match first_pending(tail, t) {
            Option::None => {
                assert(forall|j: int| 0 <= j < body.len() ==> !is_pending_of(body[j], t)) by {
                    assert(forall|j: int|
                        1 <= j < body.len() ==> body[j] == tail[j - 1] && !is_pending_of(
                            tail[j - 1],
                            t,
                        ));
                }
            },
            Option::Some(i) => {
                assert(forall|j: int| 0 <= j < i + 1 ==> !is_pending_of(body[j], t)) by {
                    assert(forall|j: int|
                        1 <= j < i + 1 ==> body[j] == tail[j - 1] && !is_pending_of(
                            tail[j - 1],
                            t,
                        ));
                }
            },
        }
    }
}

/// One reduction: the pending operator at `i` binds its neighbors.  The
/// element after it becomes the right operand; the element before it becomes
/// the left operand, except that a leading `+` or `-` takes an implicit
/// literal zero instead, supporting unary sign.  Other operators with no
/// left neighbor are an error, as is a missing right neighbor.
pub open spec fn step_at(body: Seq<ExprModel>, i: int) -> Result<Seq<ExprModel>, ParseError>
    recommends
        0 <= i < body.len(),
        body[i] is Pending,
{
    let k = pending_kind(body[i]);
    if i + 1 >= body.len() {
        Result::Err(ParseError::MissingOperand(Side::Right))
    } else if i == 0 {
        if tier_of(k) == Tier::Low {
            Result::Ok(
                seq![ExprModel::Bin(k, seq![ExprModel::Lit(seq!['0']), body[1]])] + body.subrange(
                    2,
                    body.len() as int,
                ),
            )
        } else {
            Result::Err(ParseError::MissingOperand(Side::Left))
        }
    } else {
        Result::Ok(
            body.subrange(0, i - 1) + seq![ExprModel::Bin(k, seq![body[i - 1], body[i + 1]])]
                + body.subrange(i + 2, body.len() as int),
        )
    }
}

/// Repeated reduction of the leftmost pending operator of tier `t` until
/// none remains.  Scanning left to right makes same-tier operators bind
/// left-associatively.
pub open spec fn resolve_tier(body: Seq<ExprModel>, t: Tier) -> Result<Seq<ExprModel>, ParseError>
    decreases body.len(),
    via resolve_tier_decreases
{
    match first_pending(body, t) {
        Option::None => Result::Ok(body),
        Option::Some(i) => match step_at(body, i) {
            Result::Err(e) => Result::Err(e),
            Result::Ok(b2) => resolve_tier(b2, t),
        },
    }
}

#[via_fn]
proof fn resolve_tier_decreases(body: Seq<ExprModel>, t: Tier) {
    lemma_first_pending(body, t);
}

/// Full resolution of one group body: the three tiers in decreasing
/// precedence order, after which exactly one element must remain.
pub open spec fn resolve_spec(body: Seq<ExprModel>) -> Result<Seq<ExprModel>, ParseError> {
    match resolve_tier(body, Tier::High) {
        Result::Err(e) => Result::Err(e),
        Result::Ok(b1) => match resolve_tier(b1, Tier::Mid) {
            Result::Err(e) => Result::Err(e),
            Result::Ok(b2) => match resolve_tier(b2, Tier::Low) {
                Result::Err(e) => Result::Err(e),
                Result::Ok(b3) => if b3.len() == 1 {
                    Result::Ok(b3)
                } else {
                    Result::Err(ParseError::UnresolvedExpression)
                },
            },
        },
    }
}

/// The precedence tier of `k`.
fn op_tier(k: OpKind) -> (t: Tier)
    ensures
        t == tier_of(k),
{
    match k {
        OpKind::Pow | OpKind::Root => Tier::High,
        OpKind::Mul | OpKind::Div | OpKind::Mod => Tier::Mid,
        OpKind::Add | OpKind::Sub => Tier::Low,
    }
}

/// The kind of an operator node that still waits for an operand.
fn read_pending_kind(e: &Expression) -> (k: OpKind)
    requires
        model(*e) is Pending,
    ensures
        model(*e) == ExprModel::Pending(k),
{
    match e {
        Expression::Add(_) => OpKind::Add,
        Expression::Sub(_) => OpKind::Sub,
        Expression::Mul(_) => OpKind::Mul,
        Expression::Div(_) => OpKind::Div,
        Expression::Mod(_) => OpKind::Mod,
        Expression::Pow(_) => OpKind::Pow,
        Expression::Root(_) => OpKind::Root,
        Expression::Unit(_) => unreached(),
        Expression::Group(_) => unreached(),
    }
}

/// Whether `e` is an operator of tier `t` with an unset operand.
fn pending_of(e: &Expression, t: Tier) -> (b: bool)
    ensures
        b == is_pending_of(model(*e), t),
{
    match e {
        Expression::Add(p) => (p.lhs.is_none() || p.rhs.is_none()) && t == Tier::Low,
        Expression::Sub(p) => (p.lhs.is_none() || p.rhs.is_none()) && t == Tier::Low,
        Expression::Mul(p) => (p.lhs.is_none() || p.rhs.is_none()) && t == Tier::Mid,
        Expression::Div(p) => (p.lhs.is_none() || p.rhs.is_none()) && t == Tier::Mid,
        Expression::Mod(p) => (p.lhs.is_none() || p.rhs.is_none()) && t == Tier::Mid,
        Expression::Pow(p) => (p.lhs.is_none() || p.rhs.is_none()) && t == Tier::High,
        Expression::Root(p) => (p.lhs.is_none() || p.rhs.is_none()) && t == Tier::High,
        Expression::Unit(_) => false,
        Expression::Group(_) => false,
    }
}

/// An operator node of kind `k` with both operands set.
fn make_bin(k: OpKind, l: Expression, r: Expression) -> (e: Expression)
    ensures
        model(e) == ExprModel::Bin(k, seq![model(l), model(r)]),
{
    let p = OpParams { lhs: Option::Some(Box::new(l)), rhs: Option::Some(Box::new(r)) };
    match k {
        OpKind::Add => Expression::Add(p),
        OpKind::Sub => Expression::Sub(p),
        OpKind::Mul => Expression::Mul(p),
        OpKind::Div => Expression::Div(p),
        OpKind::Mod => Expression::Mod(p),
        OpKind::Pow => Expression::Pow(p),
        OpKind::Root => Expression::Root(p),
    }
}

/// Index of the leftmost element of `body` that is an operator of tier `t`
/// with an unset operand.
fn find_pending(body: &Vec<Expression>, t: Tier) -> (r: Option<usize>)
    ensures
        match first_pending(seq_model(body@), t) {
            Option::Some(i) => r matches Option::Some(u) && u as int == i,
            Option::None => r is None,
        },
{
    let mut i: usize = 0;
    while i < body.len()
        invariant
            i <= body@.len(),
            forall|j: int| 0 <= j < i ==> !is_pending_of(seq_model(body@)[j], t),
        decreases body@.len() - i,
    {
        proof {
            lemma_seq_model(body@);
        }
        if pending_of(&body[i], t) {
            proof {
                lemma_first_pending(seq_model(body@), t);
                assert(seq_model(body@)[i as int] == model(body@[i as int]));
                assert(is_pending_of(seq_model(body@)[i as int], t));
            }
            return Option::Some(i);
        }
        i = i + 1;
    }
    proof {
        lemma_seq_model(body@);
        lemma_first_pending(seq_model(body@), t);
    }
    Option::None
}

impl Group {
    /// Binds the neighbors of the unresolved operator at `exp_idx` as its
    /// operands, splicing them out of the body.  A leading `+` or `-` takes
    /// an implicit zero as its left operand; for every other operator a
    /// missing neighbor on either side is an error.
    pub fn parse_params(&mut self, exp_idx: usize) -> (r: Result<(), ParseError>)
        requires
            exp_idx < old(self).body@.len(),
            model(old(self).body@[exp_idx as int]) is Pending,
        ensures
            match step_at(seq_model(old(self).body@), exp_idx as int) {
                Result::Ok(b) => r is Ok && seq_model(final(self).body@) == b,
                Result::Err(e) => r matches Result::Err(e2) && e2 == e,
            },
    {
        let ghost s0 = old(self).body@;
        let ghost m0 = seq_model(s0);
        proof {
            lemma_seq_model(s0);
        }
        let n = self.body.len();
        if exp_idx + 1 == n {
            return Result::Err(ParseError::MissingOperand(Side::Right));
        }
        let k = read_pending_kind(&self.body[exp_idx]);
        proof {
            assert(pending_kind(m0[exp_idx as int]) == k);
        }
        let rhs = self.body.remove(exp_idx + 1);
        proof {
            lemma_seq_model_remove(s0, exp_idx + 1);
            assert(model(rhs) == m0[exp_idx + 1]);
        }
        if exp_idx == 0 {
            let t = op_tier(k);
            if t == Tier::Low {
                proof {
                    reveal_strlit("0");
                }
                let zero = Expression::Unit(String::from_str("0"));
                let node = make_bin(k, zero, rhs);
                proof {
                    assert("0"@ =~= seq!['0']);
                    assert(model(node) == ExprModel::Bin(
                        k,
                        seq![ExprModel::Lit(seq!['0']), m0[1]],
                    ));
                }
                let _ = self.body.remove(0);
                self.body.insert(0, node);
                proof {
                    lemma_seq_model_remove(s0.remove(exp_idx + 1), 0);
                    lemma_seq_model_insert(s0.remove(exp_idx + 1).remove(0), 0, node);
                    assert(seq_model(self.body@) == seq_model(s0.remove(exp_idx + 1)).remove(
                        0,
                    ).insert(0, model(node)));
                    assert(seq_model(self.body@) =~= step_at(m0, exp_idx as int)->Ok_0);
                }
                Result::Ok(())
            } else {
                Result::Err(ParseError::MissingOperand(Side::Left))
            }
        } else {
            let lhs = self.body.remove(exp_idx - 1);
            proof {
                lemma_seq_model_remove(s0.remove(exp_idx + 1), exp_idx - 1);
                assert(model(lhs) == seq_model(s0.remove(exp_idx + 1))[exp_idx - 1]);
                assert(model(lhs) == m0[exp_idx - 1]);
            }
            let node = make_bin(k, lhs, rhs);
            proof {
                assert(model(node) == ExprModel::Bin(k, seq![m0[exp_idx - 1], m0[exp_idx + 1]]));
            }
            let _ = self.body.remove(exp_idx - 1);
            self.body.insert(exp_idx - 1, node);
            proof {
                lemma_seq_model_remove(s0.remove(exp_idx + 1).remove(exp_idx - 1), exp_idx - 1);
                lemma_seq_model_insert(
                    s0.remove(exp_idx + 1).remove(exp_idx - 1).remove(exp_idx - 1),
                    exp_idx - 1,
                    node,
                );
                assert(seq_model(self.body@) == seq_model(
                    s0.remove(exp_idx + 1),
                ).remove(exp_idx - 1).remove(exp_idx - 1).insert(exp_idx - 1, model(node)));
                assert(seq_model(self.body@) =~= step_at(m0, exp_idx as int)->Ok_0);
            }
            Result::Ok(())
        }
    }

    /// Reduces the leftmost unresolved operator of tier `t` until none
    /// remains in the body.
    fn resolve_one_tier(&mut self, t: Tier) -> (r: Result<(), ParseError>)
        ensures
            match resolve_tier(seq_model(old(self).body@), t) {
                Result::Ok(b) => r is Ok && seq_model(final(self).body@) == b,
                Result::Err(e) => r matches Result::Err(e2) && e2 == e,
            },
        decreases old(self).body@.len(),
    {
        let ghost m0 = seq_model(old(self).body@);
        proof {
            lemma_seq_model(old(self).body@);
            lemma_first_pending(m0, t);
        }
        match find_pending(&self.body, t) {
            Option::None => Result::Ok(()),
            Option::Some(i) => {
                match self.parse_params(i) {
                    Result::Ok(_) => {
                        proof {
                            lemma_seq_model(self.body@);
                        }
                        self.resolve_one_tier(t)
                    },
                    Result::Err(e) => Result::Err(e),
                }
            },
        }
    }

    /// Resolves the whole body: operators bind their operands tier by tier,
    /// `^ ~` first, then `* / %`, then `+ -`, each tier left to right.
    /// Afterwards exactly one element must remain; anything else is an
    /// unresolved expression.
    pub fn resolve(&mut self) -> (r: Result<(), ParseError>)
        ensures
            match resolve_spec(seq_model(old(self).body@)) {
                Result::Ok(b) => r is Ok && seq_model(final(self).body@) == b,
                Result::Err(e) => r matches Result::Err(e2) && e2 == e,
            },
    {
        match self.resolve_one_tier(Tier::High) {
            Result::Err(e) => {
                return Result::Err(e);
            },
            Result::Ok(_) => {},
        }
        match self.resolve_one_tier(Tier::Mid) {
            Result::Err(e) => {
                return Result::Err(e);
            },
            Result::Ok(_) => {},
        }
        match self.resolve_one_tier(Tier::Low) {
            Result::Err(e) => {
                return Result::Err(e);
            },
            Result::Ok(_) => {},
        }
        proof {
            lemma_seq_model(self.body@);
        }
        if self.body.len() == 1 {
            Result::Ok(())
        } else {
            Result::Err(ParseError::UnresolvedExpression)
        }
    }
}

} // verus!
