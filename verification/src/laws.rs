//! General properties of the tokenizer and the resolver, stated over the
//! model: how plain literals scan, how precedence tiers and scan order
//! shape the tree, and what a leading sign binds to.

use vstd::prelude::*;

use crate::ast::ExprModel;
use crate::ast::OpKind;
use crate::ast::ParseError;
use crate::ast::Tier;
use crate::ast::tier_of;
use crate::chars::dec_string;
use crate::chars::hex_val;
use crate::chars::is_decimal_digit;
use crate::chars::is_hex_digit;
use crate::chars::is_space;
use crate::resolver::first_pending;
use crate::resolver::is_pending_of;
use crate::resolver::lemma_first_pending;
use crate::resolver::resolve_spec;
use crate::resolver::resolve_tier;
use crate::resolver::step_at;
use crate::tokenizer::find_close;
use crate::tokenizer::hex_end;
use crate::tokenizer::lemma_find_close;
use crate::tokenizer::lemma_hex_end;
use crate::tokenizer::lemma_num_end;
use crate::tokenizer::num_end;
use crate::tokenizer::op_char;
use crate::tokenizer::tokenize_spec;

verus! {

/// The text of a plain decimal literal: digits with at most one embedded
/// dot, starting and ending on a digit.
pub open spec fn is_decimal_literal(s: Seq<char>) -> bool {
    &&& s.len() > 0
    &&& is_decimal_digit(s[0])
    &&& is_decimal_digit(s[s.len() - 1])
    &&& forall|j: int| 0 <= j < s.len() ==> is_decimal_digit(s[j]) || s[j] == '.'
    &&& forall|j1: int, j2: int|
        0 <= j1 < j2 < s.len() ==> !(s[j1] == '.' && s[j2] == '.')
}

/// A scan of the empty input yields no tokens.
pub proof fn lemma_tokenize_empty(s: Seq<char>)
    requires
        s.len() == 0,
    ensures
        tokenize_spec(s) == Result::Ok::<Seq<ExprModel>, ParseError>(Seq::empty()),
{
}

/// The literal scanner consumes a decimal literal to the end of the input.
proof fn lemma_num_end_literal(s: Seq<char>, i: int, dot: bool)
    requires
        0 <= i <= s.len(),
        forall|j: int| i <= j < s.len() ==> is_decimal_digit(s[j]) || s[j] == '.',
        dot ==> forall|j: int| i <= j < s.len() ==> s[j] != '.',
        !dot ==> forall|j1: int, j2: int|
            i <= j1 < j2 < s.len() ==> !(s[j1] == '.' && s[j2] == '.'),
    ensures
        num_end(s, i, dot) == s.len(),
    decreases s.len() - i,
{
    if i < s.len() {
        if is_decimal_digit(s[i]) {
            lemma_num_end_literal(s, i + 1, dot);
        } else {
            lemma_num_end_literal(s, i + 1, true);
        }
    }
}

/// The hexadecimal scanner consumes hexadecimal digits to the end of the
/// input.
proof fn lemma_hex_end_full(s: Seq<char>, i: int)
    requires
        0 <= i <= s.len(),
        forall|j: int| i <= j < s.len() ==> is_hex_digit(s[j]),
    ensures
        hex_end(s, i) == s.len(),
    decreases s.len() - i,
{
    if i < s.len() {
        lemma_hex_end_full(s, i + 1);
    }
}

/// A tier pass over a body with no pending operator of that tier changes
/// nothing.
pub proof fn lemma_resolve_tier_id(body: Seq<ExprModel>, t: Tier)
    requires
        forall|j: int| 0 <= j < body.len() ==> !is_pending_of(body[j], t),
    ensures
        resolve_tier(body, t) == Result::Ok::<Seq<ExprModel>, ParseError>(body),
{
    lemma_first_pending(body, t);
}

/// The leftmost pending operator of a tier is found where it stands.
proof fn lemma_first_pending_at(body: Seq<ExprModel>, t: Tier, i: int)
    requires
        0 <= i < body.len(),
        is_pending_of(body[i], t),
        forall|j: int| 0 <= j < i ==> !is_pending_of(body[j], t),
    ensures
        first_pending(body, t) == Option::Some(i),
{
    lemma_first_pending(body, t);
}

/// A tier pass over `[a, k1, b, k2, c]` with both operators of that tier
/// reduces the left operator first: same-tier operators bind left to right.
proof fn lemma_tier_two_steps(a: ExprModel, b: ExprModel, c: ExprModel, k1: OpKind, k2: OpKind)
    requires
        !(a is Pending),
        !(b is Pending),
        !(c is Pending),
        tier_of(k1) == tier_of(k2),
    ensures
        resolve_tier(
            seq![a, ExprModel::Pending(k1), b, ExprModel::Pending(k2), c],
            tier_of(k1),
        ) == Result::Ok::<Seq<ExprModel>, ParseError>(
            seq![ExprModel::Bin(k2, seq![ExprModel::Bin(k1, seq![a, b]), c])],
        ),
{
    reveal_with_fuel(resolve_tier, 3);
    let t = tier_of(k1);
    let body0 = seq![a, ExprModel::Pending(k1), b, ExprModel::Pending(k2), c];
    let body1 = seq![ExprModel::Bin(k1, seq![a, b]), ExprModel::Pending(k2), c];
    let fin = seq![ExprModel::Bin(k2, seq![ExprModel::Bin(k1, seq![a, b]), c])];
    lemma_first_pending_at(body0, t, 1);
    assert(step_at(body0, 1)->Ok_0 =~= body1);
    lemma_first_pending_at(body1, t, 1);
    assert(step_at(body1, 1)->Ok_0 =~= fin);
    lemma_resolve_tier_id(fin, t);
}

/// Within one tier, operators bind left to right: `a k1 b k2 c` with `k1`
/// and `k2` of the same tier resolves to `(a k1 b) k2 c`, never to
/// `a k1 (b k2 c)`.
pub proof fn lemma_same_tier_is_left_associative(
    a: ExprModel,
    b: ExprModel,
    c: ExprModel,
    k1: OpKind,
    k2: OpKind,
)
    requires
        !(a is Pending),
        !(b is Pending),
        !(c is Pending),
        tier_of(k1) == tier_of(k2),
    ensures
        resolve_spec(seq![a, ExprModel::Pending(k1), b, ExprModel::Pending(k2), c])
            == Result::Ok::<Seq<ExprModel>, ParseError>(
            seq![ExprModel::Bin(k2, seq![ExprModel::Bin(k1, seq![a, b]), c])],
        ),
{
    let t = tier_of(k1);
    let body0 = seq![a, ExprModel::Pending(k1), b, ExprModel::Pending(k2), c];
    let fin = seq![ExprModel::Bin(k2, seq![ExprModel::Bin(k1, seq![a, b]), c])];
    lemma_tier_two_steps(a, b, c, k1, k2);
    if t == Tier::High {
        lemma_resolve_tier_id(fin, Tier::Mid);
        lemma_resolve_tier_id(fin, Tier::Low);
    } else if t == Tier::Mid {
        lemma_resolve_tier_id(body0, Tier::High);
        lemma_resolve_tier_id(fin, Tier::Low);
    } else {
        lemma_resolve_tier_id(body0, Tier::High);
        lemma_resolve_tier_id(body0, Tier::Mid);
    }
}

/// A lower-tier operator binds later: in `a k1 b k2 c` with `k1` of the
/// lowest tier and `k2` of a higher one, `k2` takes `b` and `c` first and
/// `k1` then takes `a` and that subtree — precedence comes purely from the
/// pass order.
pub proof fn lemma_lower_tier_binds_later(
    a: ExprModel,
    b: ExprModel,
    c: ExprModel,
    k1: OpKind,
    k2: OpKind,
)
    requires
        !(a is Pending),
        !(b is Pending),
        !(c is Pending),
        tier_of(k1) == Tier::Low,
        tier_of(k2) == Tier::High || tier_of(k2) == Tier::Mid,
    ensures
        resolve_spec(seq![a, ExprModel::Pending(k1), b, ExprModel::Pending(k2), c])
            == Result::Ok::<Seq<ExprModel>, ParseError>(
            seq![ExprModel::Bin(k1, seq![a, ExprModel::Bin(k2, seq![b, c])])],
        ),
{
    let u = tier_of(k2);
    let body0 = seq![a, ExprModel::Pending(k1), b, ExprModel::Pending(k2), c];
    let mid = ExprModel::Bin(k2, seq![b, c]);
    let body1 = seq![a, ExprModel::Pending(k1), mid];
    let fin = seq![ExprModel::Bin(k1, seq![a, mid])];
    lemma_first_pending_at(body0, u, 3);
    assert(step_at(body0, 3)->Ok_0 =~= body1);
    lemma_resolve_tier_id(body1, u);
    if u == Tier::High {
        lemma_resolve_tier_id(body1, Tier::Mid);
    } else {
        lemma_resolve_tier_id(body0, Tier::High);
    }
    lemma_first_pending_at(body1, Tier::Low, 1);
    assert(step_at(body1, 1)->Ok_0 =~= fin);
    lemma_resolve_tier_id(fin, Tier::Low);
}

/// A leading `+` or `-` takes an implicit literal zero as its left operand:
/// `k a` resolves to `0 k a`.
pub proof fn lemma_leading_sign_gets_zero_operand(k: OpKind, a: ExprModel)
    requires
        tier_of(k) == Tier::Low,
        !(a is Pending),
    ensures
        resolve_spec(seq![ExprModel::Pending(k), a]) == Result::Ok::<Seq<ExprModel>, ParseError>(
            seq![ExprModel::Bin(k, seq![ExprModel::Lit(seq!['0']), a])],
        ),
{
    let body0 = seq![ExprModel::Pending(k), a];
    let fin = seq![ExprModel::Bin(k, seq![ExprModel::Lit(seq!['0']), a])];
    lemma_resolve_tier_id(body0, Tier::High);
    lemma_resolve_tier_id(body0, Tier::Mid);
    lemma_first_pending_at(body0, Tier::Low, 0);
    assert(step_at(body0, 0)->Ok_0 =~= fin);
    lemma_resolve_tier_id(fin, Tier::Low);
}

/// A plain decimal literal scans to exactly one literal token holding the
/// input text unchanged, and that token resolves to itself.  Evaluating
/// such an input therefore parses exactly the original text as the number.
pub proof fn lemma_plain_literal_scans_whole(s: Seq<char>)
    requires
        is_decimal_literal(s),
    ensures
        tokenize_spec(s) == Result::Ok::<Seq<ExprModel>, ParseError>(seq![ExprModel::Lit(s)]),
        resolve_spec(seq![ExprModel::Lit(s)]) == Result::Ok::<Seq<ExprModel>, ParseError>(
            seq![ExprModel::Lit(s)],
        ),
{
    lemma_num_end_literal(s, 1, false);
    let j = num_end(s, 1, false);
    assert(s.subrange(0, j) =~= s);
    lemma_tokenize_empty(s.subrange(j, s.len() as int));
    assert(seq![ExprModel::Lit(s)] + Seq::<ExprModel>::empty() =~= seq![ExprModel::Lit(s)]);
    let one = seq![ExprModel::Lit(s)];
    lemma_resolve_tier_id(one, Tier::High);
    lemma_resolve_tier_id(one, Tier::Mid);
    lemma_resolve_tier_id(one, Tier::Low);
}

/// Every character the literal scanner consumes is a digit or a dot.
proof fn lemma_num_end_chars(s: Seq<char>, i: int, dot: bool)
    requires
        0 <= i <= s.len(),
    ensures
        forall|m: int| i <= m < num_end(s, i, dot) ==> is_decimal_digit(s[m]) || s[m] == '.',
    decreases s.len() - i,
{
    if i < s.len() {
        if is_decimal_digit(s[i]) {
            lemma_num_end_chars(s, i + 1, dot);
        } else if s[i] == '.' && !dot {
            lemma_num_end_chars(s, i + 1, true);
        }
    }
}

/// The parenthesis scanner walks over a run of characters that are not
/// parentheses without changing its state.
proof fn lemma_find_close_run(w: Seq<char>, i: int, j: int, d: nat)
    requires
        0 <= i <= j <= w.len(),
        forall|m: int| i <= m < j ==> w[m] != '(' && w[m] != ')',
    ensures
        find_close(w, i, d) == find_close(w, j, d),
    decreases j - i,
{
    if i < j {
        lemma_find_close_run(w, i + 1, j, d);
    }
}

/// A segment of the input that scans without error is transparent to the
/// parenthesis scanner: its opening and closing parentheses pair up among
/// themselves, so walking over the segment leaves index and depth as if it
/// were not there.
proof fn lemma_balanced_transparent(s: Seq<char>, w: Seq<char>, i: int, d: nat)
    requires
        tokenize_spec(s) is Ok,
        0 <= i,
        i + s.len() <= w.len(),
        w.subrange(i, i + s.len()) == s,
    ensures
        find_close(w, i, d) == find_close(w, i + s.len(), d),
    decreases s.len(),
{
    if s.len() == 0 {
        return ;
    }
    let c = s[0];
    assert(forall|m: int| 0 <= m < s.len() ==> w[i + m] == s[m]);
    if is_space(c) {
        let s1 = s.subrange(1, s.len() as int);
        lemma_find_close_run(w, i, i + 1, d);
        assert(w.subrange(i + 1, i + 1 + s1.len()) =~= s1);
        lemma_balanced_transparent(s1, w, i + 1, d);
    } else if is_decimal_digit(c) {
        let j = num_end(s, 1, false);
        lemma_num_end(s, 1, false);
        lemma_num_end_chars(s, 1, false);
        let s1 = s.subrange(j, s.len() as int);
        assert forall|m: int| i <= m < i + j implies w[m] != '(' && w[m] != ')' by {
            assert(w[m] == s[m - i]);
            assert(is_decimal_digit(s[m - i]) || s[m - i] == '.');
        }
        lemma_find_close_run(w, i, i + j, d);
        assert(w.subrange(i + j, i + j + s1.len()) =~= s1);
        lemma_balanced_transparent(s1, w, i + j, d);
    } else if c == '#' {
        let j = hex_end(s, 1);
        lemma_hex_end(s, 1);
        let s1 = s.subrange(j, s.len() as int);
        assert forall|m: int| i <= m < i + j implies w[m] != '(' && w[m] != ')' by {
            assert(w[m] == s[m - i]);
            assert(s[m - i] == '#' || is_hex_digit(s[m - i]));
        }
        lemma_find_close_run(w, i, i + j, d);
        assert(w.subrange(i + j, i + j + s1.len()) =~= s1);
        lemma_balanced_transparent(s1, w, i + j, d);
    } else if op_char(c) is Some {
        let s1 = s.subrange(1, s.len() as int);
        lemma_find_close_run(w, i, i + 1, d);
        assert(w.subrange(i + 1, i + 1 + s1.len()) =~= s1);
        lemma_balanced_transparent(s1, w, i + 1, d);
    } else {
        assert(c == '(');
        let jj = find_close(s, 1, 0)->Some_0;
        lemma_find_close(s, 1, 0);
        let inner = s.subrange(1, jj);
        let s1 = s.subrange(jj + 1, s.len() as int);
        assert(find_close(w, i, d) == find_close(w, i + 1, (d + 1) as nat));
        assert(w.subrange(i + 1, i + 1 + inner.len()) =~= inner);
        lemma_balanced_transparent(inner, w, i + 1, (d + 1) as nat);
        assert(w[i + jj] == ')');
        assert(find_close(w, i + jj, (d + 1) as nat) == find_close(w, i + jj + 1, d));
        assert(w.subrange(i + jj + 1, i + jj + 1 + s1.len()) =~= s1);
        lemma_balanced_transparent(s1, w, i + jj + 1, d);
    }
}

/// Wrapping a formula that scans without error in one more pair of
/// parentheses scans to exactly one group holding its token sequence:
/// nesting to any depth wraps one group per pair.
pub proof fn lemma_group_wraps_tokens(s: Seq<char>)
    requires
        tokenize_spec(s) is Ok,
    ensures
        tokenize_spec(seq!['('] + s + seq![')']) == Result::Ok::<Seq<ExprModel>, ParseError>(
            seq![ExprModel::Grouped(tokenize_spec(s)->Ok_0)],
        ),
{
    let w = seq!['('] + s + seq![')'];
    assert(w.subrange(1, 1 + s.len() as int) =~= s);
    lemma_balanced_transparent(s, w, 1, 0);
    assert(w[w.len() - 1] == ')');
    assert(find_close(w, 1 + s.len() as int, 0) == Option::Some(w.len() - 1));
    assert(find_close(w, 1, 0) == Option::Some(1 + s.len() as int));
    let ts = tokenize_spec(s)->Ok_0;
    assert(w.subrange(1, 1 + s.len() as int) == s);
    lemma_tokenize_empty(w.subrange(w.len() as int, w.len() as int));
    assert(seq![ExprModel::Grouped(ts)] + Seq::<ExprModel>::empty() =~= seq![
        ExprModel::Grouped(ts),
    ]);
}

/// A `#`-prefixed hexadecimal literal whose value fits in 64 bits scans to
/// exactly one literal token holding the decimal text of its value.
pub proof fn lemma_hex_literal_token(h: Seq<char>)
    requires
        h.len() > 0,
        forall|j: int| 0 <= j < h.len() ==> is_hex_digit(h[j]),
        hex_val(h) <= u64::MAX,
    ensures
        tokenize_spec(seq!['#'] + h) == Result::Ok::<Seq<ExprModel>, ParseError>(
            seq![ExprModel::Lit(dec_string(hex_val(h)))],
        ),
{
    let s = seq!['#'] + h;
    assert(forall|j: int| 1 <= j < s.len() ==> s[j] == h[j - 1]);
    lemma_hex_end_full(s, 1);
    let j = hex_end(s, 1);
    assert(s.subrange(1, j) =~= h);
    lemma_tokenize_empty(s.subrange(j, s.len() as int));
    assert(seq![ExprModel::Lit(dec_string(hex_val(h)))] + Seq::<ExprModel>::empty()
        =~= seq![ExprModel::Lit(dec_string(hex_val(h)))]);
}

} // verus!
