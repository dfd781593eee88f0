//! Positional notation: numbers written out in a radix from 2 to 36.
//!
//! Plugin hashes are published in base 36, and ids appear in paths in
//! base 10.

use vstd::prelude::*;
use crate::text::{chars_of, string_of};

verus! {

/// The character that stands for one digit: `0` to `9`, then `a` to `z`.
pub open spec fn digit_char(d: nat) -> char {
    if d < 10 {
        (48 + d) as char
    } else {
        (87 + d) as char
    }
}

/// The digits of `x` in the given radix, most significant first, without
/// leading zeros; zero is the single digit `0`.
pub open spec fn radix_digits(x: nat, radix: nat) -> Seq<char>
    recommends
        2 <= radix <= 36,
    decreases x,
    via radix_digits_decreases
{
    if x < radix || radix < 2 {
        seq![digit_char(x)]
    } else {
        radix_digits(x / radix, radix).push(digit_char(x % radix))
    }
}

#[via_fn]
proof fn radix_digits_decreases(x: nat, radix: nat) {
    if !(x < radix || radix < 2) {
        lemma_quotient_smaller(x, radix);
    }
}

/// Dividing a positive number by a radix of at least two makes it smaller.
proof fn lemma_quotient_smaller(x: nat, radix: nat)
    requires
        radix >= 2,
        x > 0,
    ensures
        x / radix < x,
{
    assert(x / radix < x) by (nonlinear_arith)
        requires
            radix >= 2,
            x > 0,
    ;
}

/// The number that a character stands for as a digit, or `radix` itself for
/// a character that is no digit.
pub open spec fn digit_value(c: char) -> nat {
    if '0' <= c && c <= '9' {
        (c as nat - 48) as nat
    } else if 'a' <= c && c <= 'z' {
        (c as nat - 87) as nat
    } else {
        36
    }
}

/// The number that a sequence of digits denotes in the given radix.
pub open spec fn digits_value(digits: Seq<char>, radix: nat) -> nat
    decreases digits.len(),
{
    if digits.len() == 0 {
        0
    } else {
        digits_value(digits.drop_last(), radix) * radix + digit_value(digits.last())
    }
}

/// The unsigned 64-bit pattern of a signed hash.
pub open spec fn unsigned_bits(hash: i64) -> nat {
    if hash >= 0 {
        hash as nat
    } else {
        (hash + 0x1_0000_0000_0000_0000) as nat
    }
}

/// The decimal text of a signed number: a minus sign where it is negative,
/// then the digits of its magnitude.
pub open spec fn decimal_text(n: int) -> Seq<char> {
    if n < 0 {
        seq!['-'] + radix_digits((-n) as nat, 10)
    } else {
        radix_digits(n as nat, 10)
    }
}

/// Writing a number out and reading it back gives the number: the digits
/// of `x` in a radix from 2 to 36 denote `x` in that radix.
pub proof fn lemma_digits_round_trip(x: nat, radix: nat)
    requires
        2 <= radix <= 36,
    ensures
        digits_value(radix_digits(x, radix), radix) == x,
    decreases x,
{
    if x < radix {
        let d = seq![digit_char(x)];
        assert(d.drop_last() =~= Seq::<char>::empty());
        assert(digits_value(d.drop_last(), radix) == 0);
        assert(digit_value(digit_char(x)) == x);
        assert(d.last() == digit_char(x));
        assert(digits_value(d, radix) == 0 * radix + x);
    } else {
        lemma_quotient_smaller(x, radix);
        lemma_digits_round_trip(x / radix, radix);
        let hi = radix_digits(x / radix, radix);
        let all = hi.push(digit_char(x % radix));
        assert(all.drop_last() =~= hi);
        assert(digit_value(digit_char(x % radix)) == x % radix);
        assert(all.last() == digit_char(x % radix));
        assert(digits_value(all, radix) == (x / radix) * radix + x % radix);
        assert((x / radix) * radix + x % radix == x) by (nonlinear_arith)
            requires
                radix > 0,
        ;
    }
}

/// Every number has at least one digit, and only zero starts with `0`.
pub proof fn lemma_digits_nonempty(x: nat, radix: nat)
    requires
        2 <= radix <= 36,
    ensures
        radix_digits(x, radix).len() >= 1,
        x > 0 ==> radix_digits(x, radix)[0] != '0',
    decreases x,
{
    if x >= radix {
        lemma_quotient_smaller(x, radix);
        lemma_digits_nonempty(x / radix, radix);
        assert(x / radix >= 1) by (nonlinear_arith)
            requires
                x >= radix,
                radix >= 2,
        ;
    }
}

/// The character of one digit below the radix.
fn digit_to_char(d: u8) -> (c: char)
    requires
        d < 36,
    ensures
        c == digit_char(d as nat),
{
    if d < 10 {
        (48 + d) as char
    } else {
        (87 + d) as char
    }
}

/// The digits of `x` as characters, most significant first.
fn digits_of(x: u64, radix: u32) -> (out: Vec<char>)
    requires
        2 <= radix <= 36,
    ensures
        out@ == radix_digits(x as nat, radix as nat),
{
    let r: u64 = radix as u64;
    let mut low_first: Vec<char> = Vec::new();
    let mut rest: u64 = x;
    while rest >= r
        invariant
            r == radix,
            2 <= r <= 36,
            radix_digits(x as nat, r as nat) == radix_digits(rest as nat, r as nat)
                + low_first@.reverse(),
        decreases rest,
    {
        let m: u64 = rest % r;
        let next: u64 = rest / r;
        let ghost before = low_first@;
        low_first.push(digit_to_char(m as u8));
        proof {
            let c = digit_char(m as nat);
            assert(before.push(c).reverse() =~= seq![c] + before.reverse());
            assert(radix_digits(next as nat, r as nat).push(c) + before.reverse()
                =~= radix_digits(next as nat, r as nat) + (seq![c] + before.reverse()));
        }
        rest = next;
    }
    let ghost before = low_first@;
    low_first.push(digit_to_char(rest as u8));
    proof {
        let c = digit_char(rest as nat);
        assert(before.push(c).reverse() =~= seq![c] + before.reverse());
    }
    let mut out: Vec<char> = Vec::new();
    let mut i: usize = low_first.len();
    while i > 0
        invariant
            i <= low_first.len(),
            out@ == low_first@.reverse().subrange(0, low_first.len() - i),
        decreases i,
    {
        i -= 1;
        out.push(low_first[i]);
    }
    assert(out@ =~= low_first@.reverse());
    out
}

/// Writes `x` in the given radix, with the digits `0` to `9` and `a` to `z`,
/// most significant first.
pub fn format_radix(x: u64, radix: u32) -> (s: String)
    requires
        2 <= radix <= 36,
    ensures
        s@ == radix_digits(x as nat, radix as nat),
{
    let digits = digits_of(x, radix);
    string_of(&digits)
}

/// The base-36 text under which a plugin hash is published: the hash is
/// read as an unsigned 64-bit number, so that no sign is ever written.
pub fn hash_to_string(hash: i64) -> (s: String)
    ensures
        s@ == radix_digits(unsigned_bits(hash), 36),
{
    let bits: u64 = hash as u64;
    assert(bits == if hash >= 0 {
        hash as int
    } else {
        hash + 0x1_0000_0000_0000_0000
    }) by (bit_vector)
        requires
            bits == hash as u64,
    ;
    format_radix(bits, 36)
}

/// Writes a signed number in decimal, as it appears in paths and URLs.
pub fn format_decimal(n: i64) -> (s: String)
    ensures
        s@ == decimal_text(n as int),
{
    if n < 0 {
        let magnitude: u64 = if n == i64::MIN {
            0x8000_0000_0000_0000
        } else {
            (-n) as u64
        };
        let digits = digits_of(magnitude, 10);
        let mut out: Vec<char> = Vec::new();
        out.push('-');
        let mut i: usize = 0;
        while i < digits.len()
            invariant
                i <= digits.len(),
                out@ == seq!['-'] + digits@.subrange(0, i as int),
            decreases digits.len() - i,
        {
            out.push(digits[i]);
            i += 1;
        }
        assert(digits@.subrange(0, digits.len() as int) =~= digits@);
        string_of(&out)
    } else {
        format_radix(n as u64, 10)
    }
}

/// Whether every character is one of `0` to `9`, and there is at least one.
pub open spec fn is_decimal(digits: Seq<char>) -> bool {
    digits.len() > 0 && forall|i: int| 0 <= i < digits.len() ==> '0' <= #[trigger] digits[i] <= '9'
}

/// The digits of a signed decimal text, without its sign.
pub open spec fn unsigned_part(s: Seq<char>) -> Seq<char> {
    if s.len() > 0 && (s[0] == '-' || s[0] == '+') {
        s.drop_first()
    } else {
        s
    }
}

/// The number that a signed decimal text denotes: an optional `+` or `-`,
/// then one or more digits and nothing else. `None` where the text has
/// another shape or the number does not fit 32 signed bits.
pub open spec fn parse_i32_spec(s: Seq<char>) -> Option<i32> {
    let digits = unsigned_part(s);
    let magnitude = digits_value(digits, 10) as int;
    let n = if s.len() > 0 && s[0] == '-' {
        -magnitude
    } else {
        magnitude
    };
    if is_decimal(digits) && i32::MIN <= n <= i32::MAX {
        Some(n as i32)
    } else {
        None
    }
}

/// More digits never denote less: a sequence of digits denotes at least
/// what any of its prefixes denotes.
proof fn lemma_value_grows(digits: Seq<char>, k: int)
    requires
        0 <= k <= digits.len(),
    ensures
        digits_value(digits.subrange(0, k), 10) <= digits_value(digits, 10),
    decreases digits.len() - k,
{
    if k == digits.len() {
        assert(digits.subrange(0, k) =~= digits);
    } else {
        lemma_value_grows(digits, k + 1);
        let longer = digits.subrange(0, k + 1);
        assert(longer.drop_last() =~= digits.subrange(0, k));
        assert(digits_value(longer, 10) == digits_value(digits.subrange(0, k), 10) * 10
            + digit_value(longer.last()));
    }
}

/// Reads a signed decimal number of 32 bits: an optional sign, then digits
/// only. Leading zeros are accepted; spaces are not.
pub fn parse_decimal_i32(s: &str) -> (r: Option<i32>)
    ensures
        r == parse_i32_spec(s@),
{
    let chars = chars_of(s);
    let n: usize = chars.len();
    let negative: bool = n > 0 && chars[0] == '-';
    let start: usize = if n > 0 && (chars[0] == '-' || chars[0] == '+') {
        1
    } else {
        0
    };
    let ghost digits = unsigned_part(s@);
    assert(digits =~= s@.subrange(start as int, n as int));
    if start == n {
        return None;
    }
    let mut acc: i64 = 0;
    let mut i: usize = start;
    while i < n
        invariant
            start <= i <= n,
            n == chars.len(),
            chars@ == s@,
            digits == s@.subrange(start as int, n as int),
            digits == unsigned_part(s@),
            0 <= acc <= 0x8000_0000,
            acc == digits_value(digits.subrange(0, i - start), 10),
            forall|j: int| 0 <= j < i - start ==> '0' <= #[trigger] digits[j] <= '9',
        decreases n - i,
    {
        let c: char = chars[i];
        if !('0' <= c && c <= '9') {
            assert(digits[i - start] == c);
            return None;
        }
        let d: i64 = (c as u8 - 48) as i64;
        let next: i64 = acc * 10 + d;
        proof {
            let longer = digits.subrange(0, i - start + 1);
            assert(longer.drop_last() =~= digits.subrange(0, i - start));
            assert(longer.last() == c);
            assert(digits_value(longer, 10) == next);
            if next > 0x8000_0000 {
                lemma_value_grows(digits, i - start + 1);
            }
        }
        if next > 0x8000_0000 {
            return None;
        }
        acc = next;
        i += 1;
    }
    assert(digits.subrange(0, n - start) =~= digits);
    assert(is_decimal(digits));
    if negative {
        Some((-acc) as i32)
    } else if acc == 0x8000_0000 {
        None
    } else {
        Some(acc as i32)
    }
}

} // verus!
