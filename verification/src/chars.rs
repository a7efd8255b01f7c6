//! Character classes and the two numeral conversions the tokenizer needs:
//! the value of a hexadecimal digit string, and the decimal text of an
//! unsigned 64-bit value.

use vstd::prelude::*;

verus! {

/// Whitespace that the tokenizer skips.
pub open spec fn is_space(c: char) -> bool {
    c == ' ' || c == '\t' || c == '\n' || c == '\r'
}

/// `0` through `9`.
pub open spec fn is_decimal_digit(c: char) -> bool {
    48 <= c as u32 <= 57
}

/// `0`-`9`, `a`-`f` or `A`-`F`.
pub open spec fn is_hex_digit(c: char) -> bool {
    48 <= c as u32 <= 57 || 97 <= c as u32 <= 102 || 65 <= c as u32 <= 70
}

/// Numeric value of one hexadecimal digit.
pub open spec fn hex_digit_val(c: char) -> nat {
    if 48 <= c as u32 <= 57 {
        (c as u32 - 48) as nat
    } else if 97 <= c as u32 <= 102 {
        (c as u32 - 87) as nat
    } else if 65 <= c as u32 <= 70 {
        (c as u32 - 55) as nat
    } else {
        0
    }
}

/// Value of a hexadecimal digit string, most significant digit first.
pub open spec fn hex_val(s: Seq<char>) -> nat
    decreases s.len(),
{
    if s.len() == 0 {
        0
    } else {
        hex_val(s.subrange(0, s.len() - 1)) * 16 + hex_digit_val(s[s.len() - 1])
    }
}

/// The decimal digit character for `d`, for `d < 10`.
pub open spec fn digit_char(d: nat) -> char {
    if d == 0 {
        '0'
    } else if d == 1 {
        '1'
    } else if d == 2 {
        '2'
    } else if d == 3 {
        '3'
    } else if d == 4 {
        '4'
    } else if d == 5 {
        '5'
    } else if d == 6 {
        '6'
    } else if d == 7 {
        '7'
    } else if d == 8 {
        '8'
    } else {
        '9'
    }
}

/// Decimal text of `n`, without leading zeros (a single `0` for zero).
pub open spec fn dec_string(n: nat) -> Seq<char>
    decreases n,
{
    if n < 10 {
        seq![digit_char(n)]
    } else {
        dec_string(n / 10).push(digit_char(n % 10))
    }
}

/// A longer hexadecimal digit string is worth at least as much as any of
/// its prefixes.
pub proof fn lemma_hex_val_prefix(s: Seq<char>, i: int)
    requires
        0 <= i <= s.len(),
    ensures
        hex_val(s) >= hex_val(s.subrange(0, i)),
    decreases s.len() - i,
{
    if i == s.len() {
        assert(s.subrange(0, i) =~= s);
    } else {
        assert(s.subrange(0, i + 1).subrange(0, i) =~= s.subrange(0, i));
        assert(hex_val(s.subrange(0, i + 1)) == hex_val(s.subrange(0, i)) * 16 + hex_digit_val(
            s.subrange(0, i + 1)[i],
        ));
        lemma_hex_val_prefix(s, i + 1);
    }
}

/// Whether `c` is whitespace.
pub fn space(c: char) -> (b: bool)
    ensures
        b == is_space(c),
{
    c == ' ' || c == '\t' || c == '\n' || c == '\r'
}

/// Whether `c` is a decimal digit.
pub fn decimal_digit(c: char) -> (b: bool)
    ensures
        b == is_decimal_digit(c),
{
    let u = c as u32;
    48 <= u && u <= 57
}

/// Whether `c` is a hexadecimal digit.
pub fn hex_digit(c: char) -> (b: bool)
    ensures
        b == is_hex_digit(c),
{
    let u = c as u32;
    (48 <= u && u <= 57) || (97 <= u && u <= 102) || (65 <= u && u <= 70)
}

/// Numeric value of one hexadecimal digit.
pub fn hex_digit_value(c: char) -> (d: u8)
    requires
        is_hex_digit(c),
    ensures
        d as nat == hex_digit_val(c),
{
    let u = c as u32;
    if 48 <= u && u <= 57 {
        (u - 48) as u8
    } else if 97 <= u && u <= 102 {
        (u - 87) as u8
    } else {
        (u - 55) as u8
    }
}

/// The value of the hexadecimal digits `s[from..to]`, or `None` when it does
/// not fit in 64 bits.
pub fn parse_hex(s: &str, from: usize, to: usize) -> (r: Option<u64>)
    requires
        from <= to <= s@.len(),
        forall|i: int| from <= i < to ==> is_hex_digit(s@[i]),
    ensures
        match r {
            Option::Some(v) => v as nat == hex_val(s@.subrange(from as int, to as int)),
            Option::None => hex_val(s@.subrange(from as int, to as int)) > u64::MAX,
        },
{
    let mut acc: u64 = 0;
    let mut i: usize = from;
    while i < to
        invariant
            from <= i <= to <= s@.len(),
            forall|j: int| from <= j < to ==> is_hex_digit(s@[j]),
            acc as nat == hex_val(s@.subrange(from as int, i as int)),
        decreases to - i,
    {
        let c = s.get_char(i);
        let d = hex_digit_value(c);
        proof {
            assert(s@.subrange(from as int, i + 1).subrange(0, i - from) =~= s@.subrange(
                from as int,
                i as int,
            ));
            assert(hex_val(s@.subrange(from as int, i + 1)) == hex_val(
                s@.subrange(from as int, i as int),
            ) * 16 + hex_digit_val(s@[i as int]));
        }
        let shifted = match acc.checked_mul(16) {
            Option::Some(m) => m,
            Option::None => {
                proof {
                    lemma_hex_overflow(s@, from as int, i as int, to as int, acc as nat, d as nat);
                }
                return Option::None;
            },
        };
        let next = match shifted.checked_add(d as u64) {
            Option::Some(v) => v,
            Option::None => {
                proof {
                    lemma_hex_overflow(s@, from as int, i as int, to as int, acc as nat, d as nat);
                }
                return Option::None;
            },
        };
        acc = next;
        i = i + 1;
    }
    proof {
        assert(s@.subrange(from as int, i as int) =~= s@.subrange(from as int, to as int));
    }
    Option::Some(acc)
}

/// If one more digit pushes the running value past 64 bits, the whole digit
/// string is past 64 bits too.
proof fn lemma_hex_overflow(s: Seq<char>, from: int, i: int, to: int, acc: nat, d: nat)
    requires
        0 <= from <= i < to <= s.len(),
        acc == hex_val(s.subrange(from, i)),
        d == hex_digit_val(s[i]),
        acc * 16 + d > u64::MAX,
    ensures
        hex_val(s.subrange(from, to)) > u64::MAX,
{
    let whole = s.subrange(from, to);
    assert(whole.subrange(0, i + 1 - from).subrange(0, i - from) =~= s.subrange(from, i));
    assert(whole.subrange(0, i + 1 - from)[i - from] == s[i]);
    assert(hex_val(whole.subrange(0, i + 1 - from)) == acc * 16 + d);
    lemma_hex_val_prefix(whole, i + 1 - from);
}

/// The decimal digit character for `d`.
pub fn decimal_digit_char(d: u64) -> (c: char)
    requires
        d < 10,
    ensures
        c == digit_char(d as nat),
{
    if d == 0 {
        '0'
    } else if d == 1 {
        '1'
    } else if d == 2 {
        '2'
    } else if d == 3 {
        '3'
    } else if d == 4 {
        '4'
    } else if d == 5 {
        '5'
    } else if d == 6 {
        '6'
    } else if d == 7 {
        '7'
    } else if d == 8 {
        '8'
    } else {
        '9'
    }
}

/// Decimal text of `n`.
pub fn to_decimal(n: u64) -> (s: String)
    ensures
        s@ == dec_string(n as nat),
    decreases n,
{
    if n < 10 {
        let mut s = String::new();
        string_push(&mut s, decimal_digit_char(n));
        s
    } else {
        let mut s = to_decimal(n / 10);
        string_push(&mut s, decimal_digit_char(n % 10));
        s
    }
}

/// Appends one decimal digit character to a string.
fn string_push(s: &mut String, c: char)
    requires
        is_decimal_digit(c),
    ensures
        final(s)@ == old(s)@.push(c),
{
    let t = char_str(c);
    s.append(t);
    proof {
        assert(old(s)@ + t@ =~= old(s)@.push(c));
    }
}

/// A one-character string slice for a decimal digit character.
fn char_str(c: char) -> (s: &'static str)
    requires
        is_decimal_digit(c),
    ensures
        s@ =~= seq![c],
{
    if c == '0' {
        proof {
            reveal_strlit("0");
        }
        "0"
    } else if c == '1' {
        proof {
            reveal_strlit("1");
        }
        "1"
    } else if c == '2' {
        proof {
            reveal_strlit("2");
        }
        "2"
    } else if c == '3' {
        proof {
            reveal_strlit("3");
        }
        "3"
    } else if c == '4' {
        proof {
            reveal_strlit("4");
        }
        "4"
    } else if c == '5' {
        proof {
            reveal_strlit("5");
        }
        "5"
    } else if c == '6' {
        proof {
            reveal_strlit("6");
        }
        "6"
    } else if c == '7' {
        proof {
            reveal_strlit("7");
        }
        "7"
    } else if c == '8' {
        proof {
            reveal_strlit("8");
        }
        "8"
    } else {
        proof {
            reveal_strlit("9");
        }
        "9"
    }
}

} // verus!
