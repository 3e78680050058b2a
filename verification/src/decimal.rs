//! Decimal numbers in ASCII, as they stand in escape sequences.

use vstd::arithmetic::div_mod::{lemma_div_basics, lemma_div_denominator};
use vstd::arithmetic::power::{lemma_pow_positive, pow};
use vstd::prelude::*;

use crate::bytes::{DIGIT_0, DIGIT_9, MINUS, PLUS};

verus! {

/// An ASCII decimal digit.
pub open spec fn is_digit(b: u8) -> bool {
    DIGIT_0 <= b <= DIGIT_9
}

pub open spec fn all_digits(s: Seq<u8>) -> bool {
    forall|i: int| 0 <= i < s.len() ==> is_digit(#[trigger] s[i])
}

/// The number that a string of digits denotes; the empty string denotes zero.
pub open spec fn decimal_value(s: Seq<u8>) -> nat
    decreases s.len(),
{
    if s.len() == 0 {
        0
    } else {
        (decimal_value(s.drop_last()) * 10 + (s.last() - DIGIT_0)) as nat
    }
}

/// A number made of digits alone, at least one of them, and at most `max`.
pub open spec fn digits_up_to(s: Seq<u8>, max: nat) -> Option<nat> {
    if s.len() > 0 && all_digits(s) && decimal_value(s) <= max {
        Some(decimal_value(s))
    } else {
        None
    }
}

/// An unsigned number: digits, with one optional `+` before them.
pub open spec fn unsigned_up_to(s: Seq<u8>, max: nat) -> Option<nat> {
    if s.len() > 0 && s[0] == PLUS {
        digits_up_to(s.skip(1), max)
    } else {
        digits_up_to(s, max)
    }
}

/// A signed number of 32 bits: digits, with one optional `+` or `-` before them.
pub open spec fn signed_32(s: Seq<u8>) -> Option<int> {
    if s.len() > 0 && s[0] == MINUS {
        match digits_up_to(s.skip(1), 0x8000_0000) {
            Some(v) => Some(-v),
            None => None,
        }
    } else {
        match unsigned_up_to(s, 0x7fff_ffff) {
            Some(v) => Some(v as int),
            None => None,
        }
    }
}

/// The shortest string of digits that denotes `n`.
pub open spec fn decimal_digits(n: nat) -> Seq<u8>
    decreases n,
{
    if n < 10 {
        seq![(DIGIT_0 + n) as u8]
    } else {
        decimal_digits(n / 10).push((DIGIT_0 + n % 10) as u8)
    }
}

/// A longer string of digits never denotes a smaller number.
proof fn lemma_value_of_prefix(s: Seq<u8>, i: int)
    requires
        all_digits(s),
        0 <= i <= s.len(),
    ensures
        decimal_value(s.take(i)) <= decimal_value(s),
    decreases s.len(),
{
    if i < s.len() {
        assert(s.drop_last().take(i) =~= s.take(i));
        assert(all_digits(s.drop_last()));
        assert(is_digit(s[s.len() - 1]));
        lemma_value_of_prefix(s.drop_last(), i);
    } else {
        assert(s.take(i) =~= s);
    }
}

/// Writing a number down and reading it again gives the number back.
pub proof fn law_decimal_round_trip(n: nat)
    ensures
        decimal_digits(n).len() > 0,
        all_digits(decimal_digits(n)),
        decimal_value(decimal_digits(n)) == n,
        forall|max: nat| n <= max ==> #[trigger] unsigned_up_to(decimal_digits(n), max) == Some(n),
    decreases n,
{
    let s = decimal_digits(n);
    if n < 10 {
        assert(s.drop_last() =~= Seq::<u8>::empty());
        assert(decimal_value(s.drop_last()) == 0);
    } else {
        law_decimal_round_trip(n / 10);
        assert(s.drop_last() =~= decimal_digits(n / 10));
        assert(forall|i: int|
            0 <= i < s.len() - 1 ==> #[trigger] s[i] == decimal_digits(n / 10)[i]);
    }
    assert(is_digit(s[0]));
}

/// Reads the digits of `s` from index `from` to the end.
fn parse_digits(s: &[u8], from: usize, max: u64) -> (r: Option<u64>)
    requires
        from <= s@.len(),
        max <= 0xffff_ffff,
    ensures
        match r {
            Some(v) => digits_up_to(s@.skip(from as int), max as nat) == Some(v as nat),
            None => digits_up_to(s@.skip(from as int), max as nat) is None,
        },
{
    let ghost d = s@.skip(from as int);
    if from == s.len() {
        return None;
    }
    let mut i: usize = from;
    let mut value: u64 = 0;
    assert(d.take(0) =~= Seq::<u8>::empty());
    while i < s.len()
        invariant
            from <= i <= s@.len(),
            d == s@.skip(from as int),
            max <= 0xffff_ffff,
            value <= max,
            all_digits(d.take(i - from)),
            value == decimal_value(d.take(i - from)),
        decreases s@.len() - i,
    {
        let b: u8 = s[i];
        assert(b == d[i - from]);
        if b < DIGIT_0 || b > DIGIT_9 {
            assert(!is_digit(d[i - from]));
            return None;
        }
        assert(d.take(i + 1 - from).drop_last() =~= d.take(i - from));
        assert(d.take(i + 1 - from).last() == b);
        value = value * 10 + (b - DIGIT_0) as u64;
        if value > max {
            proof {
                if all_digits(d) {
                    lemma_value_of_prefix(d, i + 1 - from);
                }
            }
            return None;
        }
        assert(forall|k: int|
            0 <= k < i - from ==> #[trigger] d.take(i + 1 - from)[k] == d.take(i - from)[k]);
        i = i + 1;
    }
    assert(d.take(i - from) =~= d);
    Some(value)
}

/// Reads an unsigned number of at most `max`.
fn parse_unsigned(s: &[u8], max: u64) -> (r: Option<u64>)
    requires
        max <= 0xffff_ffff,
    ensures
        match r {
            Some(v) => unsigned_up_to(s@, max as nat) == Some(v as nat),
            None => unsigned_up_to(s@, max as nat) is None,
        },
{
    if s.len() > 0 && s[0] == PLUS {
        parse_digits(s, 1, max)
    } else {
        assert(s@.skip(0) =~= s@);
        parse_digits(s, 0, max)
    }
}

/// The number that `val` denotes, or `default` where it denotes none that fits.
pub open spec fn u16_or(val: Seq<u8>, default: u16) -> u16 {
    match unsigned_up_to(val, 0xffff) {
        Some(v) => v as u16,
        None => default,
    }
}

/// The number that `val` denotes, or zero where it denotes none that fits.
pub open spec fn u32_or_zero(val: Seq<u8>) -> u32 {
    match unsigned_up_to(val, 0xffff_ffff) {
        Some(v) => v as u32,
        None => 0,
    }
}

/// The number that `val` denotes, or zero where it denotes none that fits.
pub open spec fn i32_or_zero(val: Seq<u8>) -> i32 {
    match signed_32(val) {
        Some(v) => v as i32,
        None => 0,
    }
}

/// Reads a `u16`, falling back to `default`.
pub fn parse_u16_or(val: &[u8], default: u16) -> (r: u16)
    ensures
        r == u16_or(val@, default),
{
    match parse_unsigned(val, 0xffff) {
        Some(v) => v as u16,
        None => default,
    }
}

/// Reads a `u32`, falling back to zero.
pub fn parse_u32(val: &[u8]) -> (r: u32)
    ensures
        r == u32_or_zero(val@),
{
    match parse_unsigned(val, 0xffff_ffff) {
        Some(v) => v as u32,
        None => 0,
    }
}

/// Reads an `i32`, falling back to zero.
pub fn parse_i32(val: &[u8]) -> (r: i32)
    ensures
        r == i32_or_zero(val@),
{
    if val.len() > 0 && val[0] == MINUS {
        match parse_digits(val, 1, 0x8000_0000) {
            Some(v) => (-(v as i64)) as i32,
            None => 0,
        }
    } else {
        match parse_unsigned(val, 0x7fff_ffff) {
            Some(v) => v as i32,
            None => 0,
        }
    }
}

/// Appends `n` in decimal.
pub fn push_decimal(out: &mut Vec<u8>, n: u32)
    ensures
        final(out)@ == old(out)@ + decimal_digits(n as nat),
    decreases n,
{
    if n >= 10 {
        push_decimal(out, n / 10);
    }
    out.push(DIGIT_0 + (n % 10) as u8);
    assert(out@ =~= old(out)@ + decimal_digits(n as nat));
}

/// `s` is `n` in decimal, perhaps with zeros before it: the digit with `k` others
/// after it is the one that counts the `k`-th power of ten.
pub open spec fn denotes(s: Seq<u8>, n: nat) -> bool {
    &&& s.len() > 0
    &&& n < pow(10, s.len())
    &&& forall|i: int|
        0 <= i < s.len() ==> #[trigger] s[i] as int == 0x30 + (n as int / pow(
            10,
            (s.len() - 1 - i) as nat,
        )) % 10
}

/// Dividing by ten drops the last digit.
proof fn lemma_place_value(n: nat, k: nat)
    ensures
        (n as int / 10) / pow(10, k) == n as int / pow(10, k + 1),
        pow(10, k + 1) == 10 * pow(10, k),
        pow(10, k) > 0,
        pow(10, 0) == 1,
        n as int / pow(10, 0) == n,
{
    reveal(pow);
    lemma_div_basics(n as int);
    lemma_pow_positive(10, k);
    lemma_div_denominator(n as int, 10, pow(10, k));
}

/// `decimal_value` gives the number that the digits denote.
proof fn lemma_denoted_value(s: Seq<u8>, n: nat)
    requires
        denotes(s, n),
    ensures
        all_digits(s),
        decimal_value(s) == n,
    decreases s.len(),
{
    let d = s.drop_last();
    let len = s.len() as int;
    lemma_place_value(n, 0);
    assert(s[len - 1] as int == 0x30 + n as int % 10);
    if len == 1 {
        assert(decimal_value(d) == 0);
    } else {
        lemma_place_value(n, (len - 1) as nat);
        assert forall|i: int| 0 <= i < d.len() implies #[trigger] d[i] as int == 0x30 + ((n / 10)
            as int / pow(10, (d.len() - 1 - i) as nat)) % 10 by {
            assert(d[i] == s[i]);
            lemma_place_value(n, (d.len() - 1 - i) as nat);
        }
        lemma_denoted_value(d, n / 10);
        assert forall|i: int| 0 <= i < s.len() implies is_digit(#[trigger] s[i]) by {
            if i < d.len() {
                assert(d[i] == s[i]);
                assert(is_digit(d[i]));
            }
        }
    }
}

/// A number is written with the digit of each power of ten in its place, and
/// with no zero before the first digit that counts.
pub proof fn law_digits_in_place(n: nat)
    ensures
        denotes(decimal_digits(n), n),
        decimal_digits(n).len() > 1 ==> decimal_digits(n)[0] != 0x30,
    decreases n,
{
    let s = decimal_digits(n);
    lemma_place_value(n, 0);
    if n >= 10 {
        let d = decimal_digits(n / 10);
        law_digits_in_place(n / 10);
        assert(s == d.push((DIGIT_0 + n % 10) as u8));
        lemma_place_value(n, d.len());
        assert forall|i: int| 0 <= i < s.len() implies #[trigger] s[i] as int == 0x30 + (n as int
            / pow(10, (s.len() - 1 - i) as nat)) % 10 by {
            if i < d.len() {
                assert(s[i] == d[i]);
                lemma_place_value(n, (d.len() - 1 - i) as nat);
            }
        }
        assert(s[0] == d[0]);
        if d.len() == 1 {
            assert(d[0] as int == 0x30 + ((n / 10) as int / pow(10, 0)) % 10);
            lemma_place_value(n / 10, 0);
        }
    }
}

/// Digits are read as the number that they denote, with a `+` before them or
/// without, and with a `-` as its negative; a number that does not fit is read as
/// no number.
pub proof fn law_numbers_are_read(s: Seq<u8>, n: nat, default: u16)
    requires
        denotes(s, n),
    ensures
        u16_or(s, default) == if n <= 0xffff {
            n as int
        } else {
            default as int
        },
        u16_or(seq![0x2b] + s, default) == u16_or(s, default),
        u32_or_zero(s) == if n <= 0xffff_ffff {
            n
        } else {
            0
        },
        u32_or_zero(seq![0x2b] + s) == u32_or_zero(s),
        i32_or_zero(s) == if n <= 0x7fff_ffff {
            n
        } else {
            0
        },
        i32_or_zero(seq![0x2b] + s) == i32_or_zero(s),
        i32_or_zero(seq![0x2d] + s) == if n <= 0x8000_0000 {
            -n
        } else {
            0
        },
{
    lemma_denoted_value(s, n);
    assert(is_digit(s[0]));
    assert((seq![0x2bu8] + s).skip(1) =~= s);
    assert((seq![0x2du8] + s).skip(1) =~= s);
}

/// A byte that is no digit spoils a number, but for one sign before its first
/// digit; an unsigned number has no `-`. What is no number is read as the default.
pub proof fn law_other_text_is_no_number(s: Seq<u8>, i: int, default: u16)
    requires
        s.len() == 0 || (0 <= i < s.len() && !(0x30 <= s[i] <= 0x39)),
    ensures
        s.len() <= 1 || i > 0 || s[0] != 0x2b ==> u16_or(s, default) == default && u32_or_zero(s)
            == 0,
        s.len() <= 1 || i > 0 || (s[0] != 0x2b && s[0] != 0x2d) ==> i32_or_zero(s) == 0,
{
    if s.len() > 0 {
        assert(!is_digit(s[i]));
        if s.len() > 1 && i > 0 {
            assert(s.skip(1)[i - 1] == s[i]);
        }
    }
}

} // verus!
