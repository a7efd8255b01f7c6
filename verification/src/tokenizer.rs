//! The tokenizer.  It scans the input left to right into a flat sequence of
//! tokens: decimal literals (with at most one embedded dot), `#`-prefixed
//! hexadecimal literals stored as their decimal text, operator placeholders
//! with both operands unset, and parenthesized substrings scanned
//! recursively into nested groups.

use vstd::prelude::*;
use vstd::string::StrSliceExecFns;

use crate::ast::Expression;
use crate::ast::ExprModel;
use crate::ast::Group;
use crate::ast::OpKind;
use crate::ast::OpParams;
use crate::ast::ParseError;
use crate::ast::lemma_seq_model_insert;
use crate::ast::model;
use crate::ast::seq_model;
use crate::chars::dec_string;
use crate::chars::hex_val;
use crate::chars::is_decimal_digit;
use crate::chars::is_hex_digit;
use crate::chars::is_space;
use crate::chars::decimal_digit;
use crate::chars::hex_digit;
use crate::chars::parse_hex;
use crate::chars::space;
use crate::chars::to_decimal;

verus! {

/// The operator token for `c`, if `c` is an operator character.
pub open spec fn op_char(c: char) -> Option<OpKind> {
    if c == '+' {
        Option::Some(OpKind::Add)
    } else if c == '-' {
        Option::Some(OpKind::Sub)
    } else if c == '*' {
        Option::Some(OpKind::Mul)
    } else if c == '/' {
        Option::Some(OpKind::Div)
    } else if c == '%' {
        Option::Some(OpKind::Mod)
    } else if c == '^' {
        Option::Some(OpKind::Pow)
    } else if c == '~' {
        Option::Some(OpKind::Root)
    } else {
        Option::None
    }
}

/// End of a run of decimal digits with at most one embedded dot, scanning
/// from `i`; `dot` records whether a dot was already consumed.
pub open spec fn num_end(s: Seq<char>, i: int, dot: bool) -> int
    decreases s.len() - i,
{
    if !(0 <= i < s.len()) {
        i
    } else if is_decimal_digit(s[i]) {
        num_end(s, i + 1, dot)
    } else if s[i] == '.' && !dot {
        num_end(s, i + 1, true)
    } else {
        i
    }
}

/// `num_end` stays within the input.
pub proof fn lemma_num_end(s: Seq<char>, i: int, dot: bool)
    requires
        0 <= i <= s.len(),
    ensures
        i <= num_end(s, i, dot) <= s.len(),
    decreases s.len() - i,
{
    if i < s.len() && (is_decimal_digit(s[i]) || (s[i] == '.' && !dot)) {
        lemma_num_end(s, i + 1, dot || s[i] == '.');
        if is_decimal_digit(s[i]) {
            lemma_num_end(s, i + 1, dot);
        }
    }
}

/// End of a run of hexadecimal digits scanning from `i`.
pub open spec fn hex_end(s: Seq<char>, i: int) -> int
    decreases s.len() - i,
{
    if !(0 <= i < s.len()) {
        i
    } else if is_hex_digit(s[i]) {
        hex_end(s, i + 1)
    } else {
        i
    }
}

/// `hex_end` stays within the input and everything before it is a
/// hexadecimal digit.
pub proof fn lemma_hex_end(s: Seq<char>, i: int)
    requires
        0 <= i <= s.len(),
    ensures
        i <= hex_end(s, i) <= s.len(),
        forall|j: int| i <= j < hex_end(s, i) ==> is_hex_digit(s[j]),
    decreases s.len() - i,
{
    if i < s.len() && is_hex_digit(s[i]) {
        lemma_hex_end(s, i + 1);
    }
}

/// Index of the `)` that closes the group opened just before `i`, tracking
/// `depth` many still-open nested groups, or `None` when the input ends
/// first.
pub open spec fn find_close(s: Seq<char>, i: int, depth: nat) -> Option<int>
    decreases s.len() - i,
{
    if !(0 <= i < s.len()) {
        Option::None
    } else if s[i] == ')' {
        if depth == 0 {
            Option::Some(i)
        } else {
            find_close(s, i + 1, (depth - 1) as nat)
        }
    } else if s[i] == '(' {
        find_close(s, i + 1, depth + 1)
    } else {
        find_close(s, i + 1, depth)
    }
}

/// A found closing parenthesis lies within the input.
pub proof fn lemma_find_close(s: Seq<char>, i: int, depth: nat)
    requires
        0 <= i <= s.len(),
    ensures
        match find_close(s, i, depth) {
            Option::Some(j) => i <= j < s.len() && s[j] == ')',
            Option::None => true,
        },
    decreases s.len() - i,
{
    if i < s.len() {
        if s[i] == ')' {
            if depth > 0 {
                lemma_find_close(s, i + 1, (depth - 1) as nat);
            }
        } else if s[i] == '(' {
            lemma_find_close(s, i + 1, depth + 1);
        } else {
            lemma_find_close(s, i + 1, depth);
        }
    }
}

/// Puts one token in front of a scan result, keeping an error as it is.
pub open spec fn prepend(m: ExprModel, r: Result<Seq<ExprModel>, ParseError>) -> Result<
    Seq<ExprModel>,
    ParseError,
> {
    match r {
        Result::Ok(v) => Result::Ok(seq![m] + v),
        Result::Err(e) => Result::Err(e),
    }
}

/// The token sequence of `s`, or the first scan error.  One token is taken
/// from the front of `s`, then the remainder is scanned; a parenthesized
/// substring is scanned recursively into a `Grouped` token.
pub open spec fn tokenize_spec(s: Seq<char>) -> Result<Seq<ExprModel>, ParseError>
    decreases s.len(),
    via tokenize_spec_decreases
{
    if s.len() == 0 {
        Result::Ok(Seq::empty())
    } else {
        let c = s[0];
        if is_space(c) {
            tokenize_spec(s.subrange(1, s.len() as int))
        } else if is_decimal_digit(c) {
            let j = num_end(s, 1, false);
            let t0 = s.subrange(0, j);
            let t = if t0[j - 1] == '.' {
                t0.push('0')
            } else {
                t0
            };
            prepend(ExprModel::Lit(t), tokenize_spec(s.subrange(j, s.len() as int)))
        } else if c == '#' {
            let j = hex_end(s, 1);
            if j == 1 {
                Result::Err(ParseError::InvalidHexLiteral)
            } else if hex_val(s.subrange(1, j)) > u64::MAX {
                Result::Err(ParseError::InvalidHexLiteral)
            } else {
                prepend(
                    ExprModel::Lit(dec_string(hex_val(s.subrange(1, j)))),
                    tokenize_spec(s.subrange(j, s.len() as int)),
                )
            }
        } else {
            match op_char(c) {
                Option::Some(k) => prepend(
                    ExprModel::Pending(k),
                    tokenize_spec(s.subrange(1, s.len() as int)),
                ),
                Option::None => if c == '(' {
                    match find_close(s, 1, 0) {
                        Option::None => Result::Err(ParseError::UnterminatedGroup),
                        Option::Some(j) => match tokenize_spec(s.subrange(1, j)) {
                            Result::Err(e) => Result::Err(e),
                            Result::Ok(inner) => prepend(
                                ExprModel::Grouped(inner),
                                tokenize_spec(s.subrange(j + 1, s.len() as int)),
                            ),
                        },
                    }
                } else if c == ')' {
                    Result::Err(ParseError::UnmatchedCloseParen)
                } else {
                    Result::Err(ParseError::UnexpectedCharacter(c))
                },
            }
        }
    }
}

#[via_fn]
proof fn tokenize_spec_decreases(s: Seq<char>) {
    if s.len() > 0 {
        lemma_num_end(s, 1, false);
        lemma_hex_end(s, 1);
        lemma_find_close(s, 1, 0);
    }
}

/// End of the numeric literal that starts before `i`.
fn scan_number(s: &str, i: usize, dot: bool) -> (j: usize)
    requires
        i <= s@.len(),
    ensures
        j as int == num_end(s@, i as int, dot),
        i <= j <= s@.len(),
    decreases s@.len() - i,
{
    if i == s.unicode_len() {
        return i;
    }
    let c = s.get_char(i);
    if decimal_digit(c) {
        scan_number(s, i + 1, dot)
    } else if c == '.' && !dot {
        scan_number(s, i + 1, true)
    } else {
        i
    }
}

/// End of the hexadecimal digit run that starts at `i`.
fn scan_hex(s: &str, i: usize) -> (j: usize)
    requires
        i <= s@.len(),
    ensures
        j as int == hex_end(s@, i as int),
        i <= j <= s@.len(),
    decreases s@.len() - i,
{
    if i == s.unicode_len() {
        return i;
    }
    let c = s.get_char(i);
    if hex_digit(c) {
        scan_hex(s, i + 1)
    } else {
        i
    }
}

/// The closing parenthesis matching the group opened just before `i`.
fn scan_close(s: &str, i: usize, depth: usize) -> (r: Option<usize>)
    requires
        i <= s@.len(),
        depth <= i,
    ensures
        match find_close(s@, i as int, depth as nat) {
            Option::Some(j) => r matches Option::Some(u) && u as int == j,
            Option::None => r is None,
        },
    decreases s@.len() - i,
{
    if i == s.unicode_len() {
        return Option::None;
    }
    let c = s.get_char(i);
    if c == ')' {
        if depth == 0 {
            Option::Some(i)
        } else {
            scan_close(s, i + 1, depth - 1)
        }
    } else if c == '(' {
        scan_close(s, i + 1, depth + 1)
    } else {
        scan_close(s, i + 1, depth)
    }
}

/// The operator token for `c`, if any.
fn op_char_token(c: char) -> (r: Option<OpKind>)
    ensures
        r == op_char(c),
{
    if c == '+' {
        Option::Some(OpKind::Add)
    } else if c == '-' {
        Option::Some(OpKind::Sub)
    } else if c == '*' {
        Option::Some(OpKind::Mul)
    } else if c == '/' {
        Option::Some(OpKind::Div)
    } else if c == '%' {
        Option::Some(OpKind::Mod)
    } else if c == '^' {
        Option::Some(OpKind::Pow)
    } else if c == '~' {
        Option::Some(OpKind::Root)
    } else {
        Option::None
    }
}

/// A freshly scanned operator node of kind `k`, with both operands unset.
fn op_node(k: OpKind) -> (e: Expression)
    ensures
        model(e) == ExprModel::Pending(k),
{
    let p = OpParams { lhs: Option::None, rhs: Option::None };
    match k {
        OpKind::Add => Expression::Add(p),
        OpKind::Sub => Expression::Sub(p),
        OpKind::Mul => Expression::Mul(p),
        OpKind::Div => Expression::Div(p),
        OpKind::Mod => Expression::Mod(p),
        OpKind::Pow => Expression::Pow(p),
        OpKind::Root => Expression::Root(p),
    }
}

/// Scans `input` into a flat token sequence: literals, operator
/// placeholders, and recursively scanned groups, with whitespace skipped.
pub fn tokenize(input: &str) -> (r: Result<Vec<Expression>, ParseError>)
    ensures
        match r {
            Result::Ok(v) => tokenize_spec(input@) == Result::Ok::<Seq<ExprModel>, ParseError>(
                seq_model(v@),
            ),
            Result::Err(e) => tokenize_spec(input@) == Result::Err::<Seq<ExprModel>, ParseError>(
                e,
            ),
        },
    decreases input@.len(),
{
    let n = input.unicode_len();
    if n == 0 {
        return Result::Ok(Vec::new());
    }
    let c = input.get_char(0);
    if space(c) {
        let rest = input.substring_char(1, n);
        tokenize(rest)
    } else if decimal_digit(c) {
        let j = scan_number(input, 1, false);
        let raw = input.substring_char(0, j);
        let mut text = String::from_str(raw);
        let last = input.get_char(j - 1);
        if last == '.' {
            proof {
                reveal_strlit("0");
            }
            text.append("0");
            proof {
                assert(text@ =~= input@.subrange(0, j as int).push('0'));
            }
        }
        match tokenize(input.substring_char(j, n)) {
            Result::Err(e) => Result::Err(e),
            Result::Ok(v) => {
                let ghost v0 = v@;
                let mut v = v;
                v.insert(0, Expression::Unit(text));
                proof {
                    lemma_seq_model_insert(v0, 0, Expression::Unit(text));
                    assert(seq_model(v@) =~= seq![model(Expression::Unit(text))] + seq_model(v0));
                }
                Result::Ok(v)
            },
        }
    } else if c == '#' {
        let j = scan_hex(input, 1);
        proof {
            lemma_hex_end(input@, 1);
        }
        if j == 1 {
            return Result::Err(ParseError::InvalidHexLiteral);
        }
        match parse_hex(input, 1, j) {
            Option::None => Result::Err(ParseError::InvalidHexLiteral),
            Option::Some(val) => {
                let text = to_decimal(val);
                match tokenize(input.substring_char(j, n)) {
                    Result::Err(e) => Result::Err(e),
                    Result::Ok(v) => {
                        let ghost v0 = v@;
                        let mut v = v;
                        v.insert(0, Expression::Unit(text));
                        proof {
                            lemma_seq_model_insert(v0, 0, Expression::Unit(text));
                            assert(seq_model(v@) =~= seq![model(Expression::Unit(text))]
                                + seq_model(v0));
                        }
                        Result::Ok(v)
                    },
                }
            },
        }
    } else {
        match op_char_token(c) {
            Option::Some(k) => {
                let node = op_node(k);
                match tokenize(input.substring_char(1, n)) {
                    Result::Err(e) => Result::Err(e),
                    Result::Ok(v) => {
                        let ghost v0 = v@;
                        let mut v = v;
                        v.insert(0, node);
                        proof {
                            lemma_seq_model_insert(v0, 0, node);
                            assert(seq_model(v@) =~= seq![model(node)] + seq_model(v0));
                        }
                        Result::Ok(v)
                    },
                }
            },
            Option::None => {
                if c == '(' {
                    match scan_close(input, 1, 0) {
                        Option::None => Result::Err(ParseError::UnterminatedGroup),
                        Option::Some(j) => {
                            proof {
                                lemma_find_close(input@, 1, 0);
                            }
                            let inner = match tokenize(input.substring_char(1, j)) {
                                Result::Err(e) => {
                                    return Result::Err(e);
                                },
                                Result::Ok(v) => v,
                            };
                            match tokenize(input.substring_char(j + 1, n)) {
                                Result::Err(e) => Result::Err(e),
                                Result::Ok(v) => {
                                    let ghost v0 = v@;
                                    let node = Expression::Group(Group { body: inner });
                                    let mut v = v;
                                    v.insert(0, node);
                                    proof {
                                        lemma_seq_model_insert(v0, 0, node);
                                        assert(seq_model(v@) =~= seq![model(node)] + seq_model(
                                            v0,
                                        ));
                                    }
                                    Result::Ok(v)
                                },
                            }
                        },
                    }
                } else if c == ')' {
                    Result::Err(ParseError::UnmatchedCloseParen)
                } else {
                    Result::Err(ParseError::UnexpectedCharacter(c))
                }
            },
        }
    }
}

impl Expression {
    /// Scans `input` into the root of an unresolved expression tree: a
    /// group holding the flat token sequence of the whole formula.
    pub fn root(input: &str) -> (r: Result<Expression, ParseError>)
        ensures
            match tokenize_spec(input@) {
                Result::Ok(toks) => r matches Result::Ok(e) && model(e) == ExprModel::Grouped(
                    toks,
                ),
                Result::Err(pe) => r matches Result::Err(e2) && e2 == pe,
            },
    {
        match tokenize(input) {
            Result::Ok(body) => Result::Ok(Expression::Group(Group { body })),
            Result::Err(e) => Result::Err(e),
        }
    }
}

} // verus!
