//! Decimal digits: what a run of digits denotes, and how a number is written.

use vstd::prelude::*;

verus! {

/// Trusted: `String::push` appends the given character to the end of the string
/// and leaves what was there before in place.
pub assume_specification[ String::push ](s: &mut String, ch: char)
    ensures
        final(s)@ == old(s)@.push(ch),
;

/// The ASCII digits `0` to `9`.
pub open spec fn is_digit(c: char) -> bool {
    '0' <= c && c <= '9'
}

/// The number that a digit stands for.
pub open spec fn digit_value(c: char) -> nat
    recommends
        is_digit(c),
{
    (c as int - '0' as int) as nat
}

/// The digit that stands for a number below ten.
pub open spec fn digit_char(d: nat) -> char
    recommends
        d < 10,
{
    ('0' as nat + d) as char
}

/// The number that a run of digits denotes in base ten; the empty run denotes zero.
pub open spec fn decimal_value(digits: Seq<char>) -> nat
    decreases digits.len(),
{
    if digits.len() == 0 {
        0
    } else {
        decimal_value(digits.drop_last()) * 10 + digit_value(digits.last())
    }
}

/// A number written in base ten, without leading zeros.
pub open spec fn decimal(n: nat) -> Seq<char>
    decreases n,
{
    if n < 10 {
        seq![digit_char(n)]
    } else {
        decimal(n / 10).push(digit_char(n % 10))
    }
}

/// Every position of `s` holds a digit.
pub open spec fn all_digits(s: Seq<char>) -> bool {
    forall|i: int| 0 <= i < s.len() ==> is_digit(#[trigger] s[i])
}

pub(crate) fn is_ascii_digit(c: char) -> (b: bool)
    ensures
        b == is_digit(c),
{
    '0' <= c && c <= '9'
}

pub(crate) fn digit_to_value(c: char) -> (d: u64)
    requires
        is_digit(c),
    ensures
        d == digit_value(c),
        d < 10,
{
    (c as u64) - ('0' as u64)
}

pub(crate) fn digit_from_value(d: u8) -> (c: char)
    requires
        d < 10,
    ensures
        c == digit_char(d as nat),
        is_digit(c),
{
    (48u8 + d) as char
}

/// Appends `n`, written in base ten, to `out`.
pub fn push_decimal(out: &mut String, n: u64)
    ensures
        final(out)@ == old(out)@ + decimal(n as nat),
    decreases n,
{
    if n >= 10 {
        push_decimal(out, n / 10);
    }
    let d: u8 = (n % 10) as u8;
    out.push(digit_from_value(d));
}

/// A digit added at the end of a run never makes the run denote less.
pub proof fn lemma_decimal_value_grows(digits: Seq<char>, c: char)
    ensures
        decimal_value(digits.push(c)) == decimal_value(digits) * 10 + digit_value(c),
        decimal_value(digits.push(c)) >= decimal_value(digits),
{
    assert(digits.push(c).drop_last() =~= digits);
    assert(digits.push(c).last() == c);
}

/// What `decimal` writes is made of digits, begins with `0` only for zero itself,
/// and denotes the number it was written for.
pub proof fn lemma_decimal_round_trip(n: nat)
    ensures
        decimal(n).len() >= 1,
        all_digits(decimal(n)),
        decimal(n)[0] == '0' <==> n == 0,
        decimal_value(decimal(n)) == n,
    decreases n,
{
    if n < 10 {
        assert(decimal(n) =~= seq![digit_char(n)]);
        assert(decimal(n).drop_last() =~= Seq::<char>::empty());
        assert(decimal_value(decimal(n).drop_last()) == 0);
    } else {
        lemma_decimal_round_trip(n / 10);
        lemma_decimal_value_grows(decimal(n / 10), digit_char(n % 10));
    }
}

/// A run of digits without a leading zero is exactly how `decimal` writes the
/// number that the run denotes.
pub proof fn lemma_decimal_of_value(digits: Seq<char>)
    requires
        digits.len() >= 1,
        all_digits(digits),
        digits.len() > 1 ==> digits[0] != '0',
    ensures
        decimal(decimal_value(digits)) == digits,
        digits.len() > 1 ==> decimal_value(digits) >= 10,
        digits[0] != '0' ==> decimal_value(digits) >= 1,
    decreases digits.len(),
{
    let front = digits.drop_last();
    let d = digit_value(digits.last());
    if digits.len() == 1 {
        assert(front =~= Seq::<char>::empty());
        assert(decimal_value(front) == 0);
        assert(decimal(d) =~= digits);
    } else {
        assert(front[0] == digits[0]);
        lemma_decimal_of_value(front);
        let n = decimal_value(front) * 10 + d;
        assert(n / 10 == decimal_value(front));
        assert(n % 10 == d);
        assert(decimal(n) == decimal(n / 10).push(digit_char(n % 10)));
        assert(decimal(n) =~= digits);
    }
}

} // verus!
