//! Decimal and hexadecimal text, and comparison of ASCII words.

use vstd::prelude::*;
use vstd::utf8::{pop_first_scalar, valid_first_scalar, valid_utf8};

verus! {

/// Whether `b` is one of the ASCII digits `0` to `9`.
pub open spec fn is_digit(b: u8) -> bool {
    48 <= b <= 57
}

/// The number that a run of ASCII digits denotes, most significant digit first.
pub open spec fn digits_value(digits: Seq<u8>) -> nat
    decreases digits.len(),
{
    if digits.len() == 0 {
        0
    } else {
        10 * digits_value(digits.drop_last()) + (digits.last() - 48) as nat
    }
}

/// The shortest decimal notation of `n`.
pub open spec fn decimal(n: nat) -> Seq<u8>
    decreases n,
{
    if n < 10 {
        seq![(48 + n) as u8]
    } else {
        decimal(n / 10).push((48 + n % 10) as u8)
    }
}

/// Decimal notation with a leading minus sign for negative numbers.
pub open spec fn signed_decimal(i: int) -> Seq<u8> {
    if i < 0 {
        seq![45u8] + decimal((-i) as nat)
    } else {
        decimal(i as nat)
    }
}

/// Reads ASCII bytes as characters.
pub open spec fn ascii_chars(text: Seq<u8>) -> Seq<char> {
    text.map_values(|b: u8| b as char)
}

/// Writes ASCII characters as bytes.
pub open spec fn ascii_bytes(text: Seq<char>) -> Seq<u8> {
    Seq::new(text.len(), |i: int| text[i] as u8)
}

/// The lowercase hexadecimal digit of `n`, for `n` below sixteen.
pub open spec fn hex_digit(n: u8) -> char {
    if n < 10 {
        (48 + n) as u8 as char
    } else {
        (87 + n) as u8 as char
    }
}

/// The two lowercase hexadecimal digits of a byte.
pub open spec fn hex_byte(b: u8) -> Seq<char> {
    seq![hex_digit(b / 16), hex_digit(b % 16)]
}

/// Whether `text` starts with a plus or minus sign.
pub open spec fn has_sign(text: Seq<u8>) -> bool {
    text.len() > 0 && (text[0] == 43 || text[0] == 45)
}

/// What follows the optional sign of `text`.
pub open spec fn unsigned_part(text: Seq<u8>) -> Seq<u8> {
    if has_sign(text) {
        text.skip(1)
    } else {
        text
    }
}

/// Whether `text` is an optional sign followed by at least one digit and nothing else.
pub open spec fn is_decimal_integer(text: Seq<u8>) -> bool {
    let digits = unsigned_part(text);
    digits.len() > 0 && forall|i: int| 0 <= i < digits.len() ==> is_digit(#[trigger] digits[i])
}

/// The integer that `text` denotes, where it is a decimal integer.
pub open spec fn integer_value(text: Seq<u8>) -> int {
    let magnitude = digits_value(unsigned_part(text));
    if text.len() > 0 && text[0] == 45 {
        -(magnitude as int)
    } else {
        magnitude as int
    }
}

/// The value of `text` as a signed 64-bit integer, if it denotes one.
pub open spec fn i64_value(text: Seq<u8>) -> Option<i64> {
    if is_decimal_integer(text) && i64::MIN <= integer_value(text) <= i64::MAX {
        Some(integer_value(text) as i64)
    } else {
        None
    }
}

/// The lowercase form of an ASCII letter; every other byte stands for itself.
pub open spec fn ascii_lower(b: u8) -> u8 {
    if 65 <= b <= 90 {
        (b + 32) as u8
    } else {
        b
    }
}

/// Whether two byte strings agree up to the case of ASCII letters.
pub open spec fn same_word(a: Seq<u8>, b: Seq<u8>) -> bool {
    a.map_values(|x: u8| ascii_lower(x)) == b.map_values(|x: u8| ascii_lower(x))
}

/// Every digit of `decimal(n)` is an ASCII digit, and together they denote `n`.
pub proof fn decimal_denotes(n: nat)
    ensures
        decimal(n).len() > 0,
        forall|i: int| 0 <= i < decimal(n).len() ==> is_digit(#[trigger] decimal(n)[i]),
        digits_value(decimal(n)) == n,
    decreases n,
{
    if n < 10 {
        let d = decimal(n);
        assert(d.drop_last() =~= Seq::<u8>::empty());
        assert(digits_value(d.drop_last()) == 0);
    } else {
        decimal_denotes(n / 10);
        let d = decimal(n);
        assert(d.drop_last() =~= decimal(n / 10));
    }
}

/// Decimal notation reads back as the number it was written from.
pub proof fn decimal_reads_back(i: int)
    requires
        i64::MIN <= i <= i64::MAX,
    ensures
        i64_value(signed_decimal(i)) == Some(i as i64),
{
    if i < 0 {
        decimal_denotes((-i) as nat);
        assert(unsigned_part(signed_decimal(i)) =~= decimal((-i) as nat));
    } else {
        decimal_denotes(i as nat);
        let d = decimal(i as nat);
        assert(is_digit(d[0]));
        assert(unsigned_part(d) == d);
    }
}

/// Text without a byte above 127 is valid UTF-8.
pub proof fn ascii_is_utf8(text: Seq<u8>)
    requires
        forall|i: int| 0 <= i < text.len() ==> #[trigger] text[i] < 128,
    ensures
        valid_utf8(text),
    decreases text.len(),
{
    if text.len() > 0 {
        let b = text[0];
        assert((b & 0x7f) as u32 == b as u32) by (bit_vector)
            requires
                b < 128,
        ;
        assert(valid_first_scalar(text));
        let rest = pop_first_scalar(text);
        assert(rest =~= text.skip(1));
        ascii_is_utf8(rest);
    }
}

/// Parses a signed 64-bit decimal integer: an optional sign, then digits only.
pub fn parse_i64(text: &[u8]) -> (value: Option<i64>)
    ensures
        value == i64_value(text@),
{
    let signed = text.len() > 0 && (text[0] == 43 || text[0] == 45);
    let negative = text.len() > 0 && text[0] == 45;
    let start: usize = if signed {
        1
    } else {
        0
    };
    let ghost digits = unsigned_part(text@);
    assert(digits =~= text@.skip(start as int));
    if text.len() == start {
        return None;
    }
    let mut magnitude: u64 = 0;
    let mut in_range = true;
    let mut i: usize = start;
    assert(digits.take(0) =~= Seq::<u8>::empty());
    while i < text.len()
        invariant
            start <= i <= text.len(),
            digits == unsigned_part(text@),
            digits == text@.skip(start as int),
            forall|j: int| 0 <= j < i - start ==> is_digit(#[trigger] digits[j]),
            in_range ==> magnitude == digits_value(digits.take(i - start)) && magnitude
                <= 0x8000_0000_0000_0000,
            !in_range ==> digits_value(digits.take(i - start)) > 0x8000_0000_0000_0000,
        decreases text.len() - i,
    {
        let b = text[i];
        assert(digits[i - start] == b);
        if b < 48 || b > 57 {
            return None;
        }
        assert(digits.take(i - start + 1).drop_last() =~= digits.take(i - start));
        if in_range {
            let next: u128 = magnitude as u128 * 10 + (b - 48) as u128;
            if next > 0x8000_0000_0000_0000 {
                in_range = false;
            } else {
                magnitude = next as u64;
            }
        }
        i = i + 1;
    }
    assert(digits.take(i - start) =~= digits);
    if !in_range {
        None
    } else if negative {
        if magnitude == 0x8000_0000_0000_0000 {
            Some(i64::MIN)
        } else {
            Some(-(magnitude as i64))
        }
    } else if magnitude == 0x8000_0000_0000_0000 {
        None
    } else {
        Some(magnitude as i64)
    }
}

/// Writes `n` in decimal.
pub fn decimal_bytes(n: u64) -> (text: Vec<u8>)
    ensures
        text@ == decimal(n as nat),
    decreases n,
{
    if n < 10 {
        let mut text: Vec<u8> = Vec::new();
        text.push(48 + n as u8);
        text
    } else {
        let mut text = decimal_bytes(n / 10);
        text.push(48 + (n % 10) as u8);
        text
    }
}

/// Compares two byte strings.
pub fn same_bytes(a: &[u8], b: &[u8]) -> (same: bool)
    ensures
        same == (a@ == b@),
{
    if a.len() != b.len() {
        return false;
    }
    let mut i: usize = 0;
    while i < a.len()
        invariant
            i <= a.len(),
            a.len() == b.len(),
            forall|j: int| 0 <= j < i ==> a@[j] == b@[j],
        decreases a.len() - i,
    {
        if a[i] != b[i] {
            return false;
        }
        i = i + 1;
    }
    assert(a@ =~= b@);
    true
}

/// Compares two byte strings up to the case of ASCII letters.
pub fn eq_ignore_ascii_case(a: &[u8], b: &[u8]) -> (same: bool)
    ensures
        same == same_word(a@, b@),
{
    let ghost lower = |x: u8| ascii_lower(x);
    let ghost la = a@.map_values(lower);
    let ghost lb = b@.map_values(lower);
    if a.len() != b.len() {
        assert(la.len() != lb.len());
        return false;
    }
    let mut i: usize = 0;
    while i < a.len()
        invariant
            i <= a.len(),
            a.len() == b.len(),
            forall|j: int| 0 <= j < i ==> ascii_lower(#[trigger] a@[j]) == ascii_lower(b@[j]),
        decreases a.len() - i,
    {
        let x = to_ascii_lower(a[i]);
        let y = to_ascii_lower(b[i]);
        if x != y {
            assert(a@.map_values(|x: u8| ascii_lower(x))[i as int] == x);
            assert(b@.map_values(|x: u8| ascii_lower(x))[i as int] == y);
            return false;
        }
        i = i + 1;
    }
    assert(a@.map_values(|x: u8| ascii_lower(x)) =~= b@.map_values(|x: u8| ascii_lower(x)));
    true
}

/// `String::push` appends one character.
pub assume_specification[ String::push ](text: &mut String, c: char)
    ensures
        final(text)@ == old(text)@.push(c),
;

/// `std::str::from_utf8` accepts exactly the valid UTF-8 byte strings.
#[verifier::external_body]
pub(crate) fn is_utf8(text: &[u8]) -> (valid: bool)
    ensures
        valid == valid_utf8(text@),
{
    std::str::from_utf8(text).is_ok()
}

/// Appends `n` in decimal, with a minus sign if it is negative.
pub fn push_decimal(text: &mut String, n: i64)
    ensures
        final(text)@ == old(text)@ + ascii_chars(signed_decimal(n as int)),
{
    let ghost before = text@;
    let magnitude: u64 = if n < 0 {
        text.push('-');
        (-(n as i128)) as u64
    } else {
        n as u64
    };
    let ghost sign = ascii_chars(signed_decimal(n as int).take(if n < 0 {
        1
    } else {
        0
    }));
    assert(text@ =~= before + sign);
    let digits = decimal_bytes(magnitude);
    let mut i: usize = 0;
    while i < digits.len()
        invariant
            i <= digits.len(),
            text@ =~= before + sign + ascii_chars(digits@.take(i as int)),
        decreases digits.len() - i,
    {
        text.push(digits[i] as char);
        i = i + 1;
    }
    assert(digits@.take(i as int) =~= digits@);
    assert(sign + ascii_chars(digits@) =~= ascii_chars(signed_decimal(n as int)));
}

/// Appends the two lowercase hexadecimal digits of a byte.
pub fn push_hex_byte(text: &mut String, b: u8)
    ensures
        final(text)@ == old(text)@ + hex_byte(b),
{
    let ghost before = text@;
    text.push(to_hex_digit(b / 16));
    text.push(to_hex_digit(b % 16));
    assert(text@ =~= before + hex_byte(b));
}

/// The lowercase hexadecimal digit of `n`.
fn to_hex_digit(n: u8) -> (digit: char)
    requires
        n < 16,
    ensures
        digit == hex_digit(n),
{
    if n < 10 {
        (48 + n) as char
    } else {
        (87 + n) as char
    }
}

/// Lowercases one ASCII letter.
fn to_ascii_lower(b: u8) -> (lower: u8)
    ensures
        lower == ascii_lower(b),
{
    if 65 <= b && b <= 90 {
        b + 32
    } else {
        b
    }
}

} // verus!
