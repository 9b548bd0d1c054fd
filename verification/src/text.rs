//! Character sequences: conversion between strings and vectors of
//! characters, and decimal rendering of unsigned integers.

use vstd::prelude::*;
use vstd::std_specs::iter::IteratorSpec;

verus! {

/// Collects the characters of `s`, in order.
pub fn chars_of(s: &str) -> (out: Vec<char>)
    ensures
        out@ == s@,
{
    let mut out: Vec<char> = Vec::new();
    let mut it = s.chars();
    proof {
        vstd::string::axiom_spec_iter(s);
    }
    loop
        invariant
            it.obeys_prophetic_iter_laws(),
            it.decrease() is Some,
            out@ + it.remaining() == s@,
        decreases it.decrease()->0,
    {
        let ghost before = it;
        let next = it.next();
        proof {
            vstd::string::next_postcondition(&before, &it, next);
        }
        match next {
            Some(c) => {
                assert(out@.push(c) + it.remaining() =~= out@ + before.remaining());
                out.push(c);
            },
            None => {
                assert(out@ + before.remaining() =~= out@);
                return out;
            },
        }
    }
}

/// Builds a string from a vector of characters. Wraps `String::from_iter`:
/// the string holds exactly the characters of the vector, in order.
#[verifier::external_body]
pub(crate) fn string_of(chars: &Vec<char>) -> (s: String)
    ensures
        s@ == chars@,
{
    String::from_iter(chars)
}

/// Whether two string slices hold the same characters in the same order.
pub fn same_text(a: &str, b: &str) -> (same: bool)
    ensures
        same == (a@ == b@),
{
    let left = a.to_owned();
    let right = b.to_owned();
    left == right
}

/// The decimal digit character of `d`, for `d` below ten.
pub open spec fn digit_char(d: nat) -> char {
    if d == 0 {
        '0'
    } else if d == 1 {
        '1'
    } else if d == 2 {
        '2'
    } else if d == 3 {
        '3'
    } else if d == 4 {
        '4'
    } else if d == 5 {
        '5'
    } else if d == 6 {
        '6'
    } else if d == 7 {
        '7'
    } else if d == 8 {
        '8'
    } else {
        '9'
    }
}

/// Whether `c` is one of the ten ASCII decimal digits.
pub open spec fn is_digit(c: char) -> bool {
    '0' <= c && c <= '9'
}

/// The value of the ASCII decimal digit `c`.
pub open spec fn digit_value(c: char) -> nat {
    (c as nat - '0' as nat) as nat
}

/// The decimal representation of `n`, without leading zeros (`0` is "0").
pub open spec fn decimal(n: nat) -> Seq<char>
    decreases n,
{
    if n < 10 {
        seq![digit_char(n)]
    } else {
        decimal(n / 10).push(digit_char(n % 10))
    }
}

/// `count` zeros.
pub open spec fn zeros(count: nat) -> Seq<char> {
    Seq::new(count, |i: int| '0')
}

/// The decimal representation of `n`, left-padded with zeros to at least
/// `width` characters. A representation longer than `width` is kept whole.
pub open spec fn zero_padded(n: nat, width: nat) -> Seq<char> {
    let digits = decimal(n);
    if digits.len() >= width {
        digits
    } else {
        zeros((width - digits.len()) as nat) + digits
    }
}

/// The number that a sequence of decimal digits denotes (the empty
/// sequence denotes zero).
pub open spec fn digits_number(s: Seq<char>) -> nat
    decreases s.len(),
{
    if s.len() == 0 {
        0
    } else {
        digits_number(s.drop_last()) * 10 + digit_value(s.last())
    }
}

/// The decimal representation is never empty, and has at most twenty
/// characters for a 64-bit value.
pub proof fn lemma_decimal_len(n: nat)
    ensures
        decimal(n).len() >= 1,
        n <= u64::MAX ==> decimal(n).len() <= 20,
    decreases n,
{
    reveal_with_fuel(decimal, 21);
    if n >= 10 {
        lemma_decimal_len(n / 10);
    }
}

/// The decimal representation denotes its number: it is made of digits,
/// and reading it back gives the number it was made from.
pub proof fn theorem_decimal_denotes(n: nat)
    ensures
        forall|k: int| 0 <= k < decimal(n).len() ==> is_digit(#[trigger] decimal(n)[k]),
        digits_number(decimal(n)) == n,
    decreases n,
{
    if n < 10 {
        assert(decimal(n).drop_last() =~= Seq::<char>::empty());
        assert(digits_number(decimal(n).drop_last()) == 0);
    } else {
        theorem_decimal_denotes(n / 10);
        assert(decimal(n).drop_last() =~= decimal(n / 10));
    }
}

proof fn lemma_leading_zeros(count: nat, digits: Seq<char>)
    ensures
        digits_number(zeros(count) + digits) == digits_number(digits),
    decreases digits.len(), count,
{
    let all = zeros(count) + digits;
    if digits.len() > 0 {
        assert(all.drop_last() =~= zeros(count) + digits.drop_last());
        lemma_leading_zeros(count, digits.drop_last());
    } else if count > 0 {
        assert(all.drop_last() =~= zeros((count - 1) as nat) + digits);
        lemma_leading_zeros((count - 1) as nat, digits);
    }
}

/// Zero-padding never truncates and never changes the value: the padded
/// text has the width asked for or the full length of the number,
/// whichever is larger; it is made of digits; and read back it gives the
/// number.
pub proof fn theorem_padding_keeps_the_value(n: nat, width: nat)
    ensures
        zero_padded(n, width).len() == if decimal(n).len() >= width {
            decimal(n).len()
        } else {
            width
        },
        forall|k: int|
            0 <= k < zero_padded(n, width).len() ==> is_digit(#[trigger] zero_padded(n, width)[k]),
        digits_number(zero_padded(n, width)) == n,
        zero_padded(n, width).subrange(
            zero_padded(n, width).len() - decimal(n).len(),
            zero_padded(n, width).len() as int,
        ) == decimal(n),
{
    theorem_decimal_denotes(n);
    let digits = decimal(n);
    if digits.len() < width {
        let count = (width - digits.len()) as nat;
        lemma_leading_zeros(count, digits);
        assert((zeros(count) + digits).subrange(count as int, width as int) =~= digits);
    } else {
        assert(digits.subrange(0, digits.len() as int) =~= digits);
    }
}

fn digit_of(d: u64) -> (c: char)
    requires
        d < 10,
    ensures
        c == digit_char(d as nat),
{
    if d == 0 {
        '0'
    } else if d == 1 {
        '1'
    } else if d == 2 {
        '2'
    } else if d == 3 {
        '3'
    } else if d == 4 {
        '4'
    } else if d == 5 {
        '5'
    } else if d == 6 {
        '6'
    } else if d == 7 {
        '7'
    } else if d == 8 {
        '8'
    } else {
        '9'
    }
}

/// Appends the decimal representation of `n` to `out`.
pub fn push_decimal(out: &mut Vec<char>, n: u64)
    ensures
        final(out)@ == old(out)@ + decimal(n as nat),
    decreases n,
{
    if n >= 10 {
        push_decimal(out, n / 10);
    }
    out.push(digit_of(n % 10));
    proof {
        if n >= 10 {
            assert(out@ =~= old(out)@ + decimal((n / 10) as nat).push(digit_char((n % 10) as nat)));
        } else {
            assert(out@ =~= old(out)@ + seq![digit_char(n as nat)]);
        }
    }
}

/// Appends `n` in decimal to `out`, left-padded with zeros to at least
/// `width` characters.
pub fn push_zero_padded(out: &mut Vec<char>, n: u64, width: u32)
    ensures
        final(out)@ == old(out)@ + zero_padded(n as nat, width as nat),
{
    let mut digits: Vec<char> = Vec::new();
    push_decimal(&mut digits, n);
    proof {
        lemma_decimal_len(n as nat);
        assert(digits@ =~= decimal(n as nat));
    }
    let wanted: usize = width as usize;
    let mut padded: usize = digits.len();
    while padded < wanted
        invariant
            digits@ == decimal(n as nat),
            wanted == width,
            digits@.len() <= padded <= wanted || (padded == digits@.len() && padded >= wanted),
            out@ == old(out)@ + zeros((padded - digits@.len()) as nat),
        decreases wanted - padded,
    {
        out.push('0');
        padded = padded + 1;
        assert(out@ =~= old(out)@ + zeros((padded - digits@.len()) as nat));
    }
    let mut k: usize = 0;
    while k < digits.len()
        invariant
            k <= digits@.len(),
            out@ == old(out)@ + zeros((padded - digits@.len()) as nat) + digits@.take(k as int),
        decreases digits@.len() - k,
    {
        out.push(digits[k]);
        k = k + 1;
        assert(out@ =~= old(out)@ + zeros((padded - digits@.len()) as nat) + digits@.take(k as int));
    }
    proof {
        assert(digits@.take(k as int) =~= digits@);
        if digits@.len() >= width {
            assert(zeros((padded - digits@.len()) as nat) =~= Seq::<char>::empty());
            assert(out@ =~= old(out)@ + digits@);
        } else {
            assert(out@ =~= old(out)@ + (zeros((width - digits@.len()) as nat) + digits@));
        }
    }
}

} // verus!
