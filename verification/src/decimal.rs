//! Integers in base 10: how they are written out, how they are read, and
//! that reading what was written gives the integer back.

use vstd::prelude::*;

verus! {

/// The character for the digit `d`, `0 <= d <= 9`.
pub open spec fn digit_char(d: int) -> char {
    (d + 48) as u8 as char
}

/// `c` is one of `'0'..='9'`.
pub open spec fn is_digit(c: char) -> bool {
    '0' <= c <= '9'
}

/// The digits of `n` in base 10, most significant first, without leading
/// zeros (`0` is written "0").
pub open spec fn decimal_nat(n: nat) -> Seq<char>
    decreases n,
{
    if n < 10 {
        seq![digit_char(n as int)]
    } else {
        decimal_nat(n / 10).push(digit_char((n % 10) as int))
    }
}

/// `v` in base 10, with a leading `-` when it is negative.
pub open spec fn decimal(v: int) -> Seq<char> {
    if v < 0 {
        seq!['-'] + decimal_nat((-v) as nat)
    } else {
        decimal_nat(v as nat)
    }
}

/// The characters of `text` as bytes; meant for ASCII text.
pub open spec fn ascii_bytes(text: Seq<char>) -> Seq<u8> {
    Seq::new(text.len(), |i: int| text[i] as u8)
}

/// The number that a string of digits stands for in base 10.
pub open spec fn digits_value(s: Seq<char>) -> nat
    decreases s.len(),
{
    if s.len() == 0 {
        0
    } else {
        digits_value(s.drop_last()) * 10 + (s.last() as int - 48) as nat
    }
}

/// `s` is a non-empty string of digits.
pub open spec fn is_digits(s: Seq<char>) -> bool {
    s.len() > 0 && forall|i: int| 0 <= i < s.len() ==> is_digit(#[trigger] s[i])
}

/// The value of `text` read as an integer literal: an optional sign, `+` or
/// `-`, then one or more digits, read in base 10. `None` when `text` is not
/// of that form or the number does not fit in 64 bits.
pub open spec fn literal_value(text: Seq<char>) -> Option<i64> {
    let negative = text.len() > 0 && text[0] == '-';
    let signed = negative || (text.len() > 0 && text[0] == '+');
    let body = if signed {
        text.subrange(1, text.len() as int)
    } else {
        text
    };
    let value = if negative {
        -(digits_value(body) as int)
    } else {
        digits_value(body) as int
    };
    if is_digits(body) && i64::MIN <= value <= i64::MAX {
        Some(value as i64)
    } else {
        None
    }
}

/// Appends the digits of `n` to `buf`.
fn push_decimal_nat(buf: &mut Vec<char>, n: u128)
    ensures
        final(buf)@ == old(buf)@ + decimal_nat(n as nat),
    decreases n,
{
    if n >= 10 {
        push_decimal_nat(buf, n / 10);
    }
    let d: u8 = (n % 10) as u8;
    buf.push((d + 48) as char);
}

/// The digits of `n` in base 10.
pub fn decimal_nat_chars(n: u128) -> (r: Vec<char>)
    ensures
        r@ == decimal_nat(n as nat),
{
    let mut buf: Vec<char> = Vec::new();
    push_decimal_nat(&mut buf, n);
    buf
}

/// `v` written in base 10.
pub fn decimal_chars(v: i64) -> (r: Vec<char>)
    ensures
        r@ == decimal(v as int),
{
    let mut buf: Vec<char> = Vec::new();
    if v < 0 {
        buf.push('-');
        push_decimal_nat(&mut buf, (-(v as i128)) as u128);
    } else {
        push_decimal_nat(&mut buf, v as u128);
    }
    buf
}

/// One more digit multiplies the value by ten and adds the digit.
proof fn lemma_digits_value_step(s: Seq<char>, k: int)
    requires
        0 <= k < s.len(),
    ensures
        digits_value(s.take(k + 1)) == digits_value(s.take(k)) * 10 + (s[k] as int - 48) as nat,
{
    assert(s.take(k + 1).drop_last() == s.take(k));
    assert(s.take(k + 1).last() == s[k]);
}

/// A string of digits is worth at least as much as any of its prefixes.
proof fn lemma_digits_value_prefix(s: Seq<char>, k: int)
    requires
        0 <= k <= s.len(),
        forall|i: int| 0 <= i < s.len() ==> is_digit(#[trigger] s[i]),
    ensures
        digits_value(s.take(k)) <= digits_value(s),
    decreases s.len() - k,
{
    if k < s.len() {
        lemma_digits_value_prefix(s, k + 1);
        lemma_digits_value_step(s, k);
        assert(is_digit(s[k]));
    } else {
        assert(s.take(k) == s);
    }
}

/// Reads `text` as an integer literal.
pub fn parse_literal(text: &Vec<char>) -> (r: Option<i64>)
    ensures
        r == literal_value(text@),
{
    let n: usize = text.len();
    if n == 0 {
        return None;
    }
    let negative: bool = text[0] == '-';
    let start: usize = if negative || text[0] == '+' {
        1
    } else {
        0
    };
    if start == n {
        return None;
    }
    let ghost body = if negative || text@[0] == '+' {
        text@.subrange(1, n as int)
    } else {
        text@
    };
    assert(body == text@.subrange(start as int, n as int));
    let limit: u128 = if negative {
        9223372036854775808u128
    } else {
        9223372036854775807u128
    };
    let mut acc: u128 = 0;
    let mut i: usize = start;
    while i < n
        invariant
            start <= i <= n,
            n == text.len(),
            negative == (text@[0] == '-'),
            body == if negative || text@[0] == '+' {
                text@.subrange(1, n as int)
            } else {
                text@
            },
            body == text@.subrange(start as int, n as int),
            forall|j: int| 0 <= j < i - start ==> is_digit(#[trigger] body[j]),
            acc == digits_value(body.take(i - start)),
            acc <= limit,
            limit == if negative {
                9223372036854775808u128
            } else {
                9223372036854775807u128
            },
        decreases n - i,
    {
        let c: char = text[i];
        assert(c == body[i - start]);
        if !('0' <= c && c <= '9') {
            assert(!is_digits(body));
            return None;
        }
        let d: u128 = (c as u32 - 48) as u128;
        proof {
            lemma_digits_value_step(body, i - start);
        }
        acc = acc * 10 + d;
        if acc > limit {
            proof {
                if is_digits(body) {
                    lemma_digits_value_prefix(body, i - start + 1);
                }
            }
            return None;
        }
        i += 1;
    }
    assert(body.take(n - start) == body);
    assert(is_digits(body));
    if negative {
        if acc == 9223372036854775808u128 {
            Some(i64::MIN)
        } else {
            Some(-(acc as i64))
        }
    } else {
        Some(acc as i64)
    }
}

/// Every digit string written by [`decimal_nat`] consists of digits and
/// stands for the number it was written from.
pub proof fn lemma_decimal_nat_reads_back(n: nat)
    ensures
        is_digits(decimal_nat(n)),
        digits_value(decimal_nat(n)) == n,
    decreases n,
{
    if n < 10 {
        let s = decimal_nat(n);
        assert(s.drop_last().len() == 0);
        assert(digits_value(s.drop_last()) == 0);
    } else {
        lemma_decimal_nat_reads_back(n / 10);
        let s = decimal_nat(n);
        assert(s.drop_last() == decimal_nat(n / 10));
    }
}

/// Writing a 64-bit integer in base 10 and reading the text back as a
/// literal gives the same integer.
pub proof fn lemma_literal_round_trip(v: i64)
    ensures
        literal_value(decimal(v as int)) == Some(v),
{
    let text = decimal(v as int);
    if v < 0 {
        let m = (-v) as nat;
        lemma_decimal_nat_reads_back(m);
        assert(text.subrange(1, text.len() as int) == decimal_nat(m));
    } else {
        lemma_decimal_nat_reads_back(v as nat);
        assert(is_digit(text[0]));
    }
}

} // verus!
