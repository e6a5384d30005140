//! Decimal numbers as bytes, and the lengths they denote.

use vstd::prelude::*;
use super::digits::{all_digits, is_digit};

verus! {

/// What one byte counts for in a decimal number.
pub open spec fn digit_value(b: u8) -> nat {
    if is_digit(b) {
        (b - 0x30) as nat
    } else {
        0
    }
}

/// The number that the digits `s` spell, most significant digit first.
pub open spec fn decimal_value(s: Seq<u8>) -> nat
    decreases s.len(),
{
    if s.len() == 0 {
        0
    } else {
        decimal_value(s.drop_last()) * 10 + digit_value(s.last())
    }
}

/// The shortest spelling of `n` in decimal digits.
pub open spec fn decimal(n: nat) -> Seq<u8>
    decreases n,
{
    if n < 10 {
        seq![(0x30 + n) as u8]
    } else {
        decimal(n / 10).push((0x30 + n % 10) as u8)
    }
}

/// The length that a run of digits declares: none where the run is empty,
/// holds another byte than a digit, or spells a number beyond `usize::MAX`.
pub open spec fn decoded_length(s: Seq<u8>) -> Option<usize> {
    if s.len() > 0 && all_digits(s) && decimal_value(s) <= usize::MAX {
        Some(decimal_value(s) as usize)
    } else {
        None
    }
}

/// A number is at least what any prefix of its digits spells.
pub proof fn lemma_decimal_value_prefix(s: Seq<u8>, k: int)
    requires
        0 <= k <= s.len(),
    ensures
        decimal_value(s.take(k)) <= decimal_value(s),
    decreases s.len(),
{
    if k == s.len() {
        assert(s.take(k) =~= s);
    } else {
        assert(s.drop_last().take(k) =~= s.take(k));
        lemma_decimal_value_prefix(s.drop_last(), k);
    }
}

/// `decimal(n)` is a non-empty run of digits that spells `n`.
pub proof fn lemma_decimal_spells(n: nat)
    ensures
        decimal(n).len() > 0,
        all_digits(decimal(n)),
        decimal_value(decimal(n)) == n,
    decreases n,
{
    if n < 10 {
        let s = decimal(n);
        assert(s.drop_last() =~= Seq::<u8>::empty());
        assert(decimal_value(s.drop_last()) == 0);
    } else {
        lemma_decimal_spells(n / 10);
        let s = decimal(n);
        assert(s.drop_last() =~= decimal(n / 10));
    }
}

/// Reads a run of decimal digits as a length.
pub fn parse_length(digits: &[u8]) -> (r: Option<usize>)
    ensures
        r == decoded_length(digits@),
{
    if digits.len() == 0 {
        return None;
    }
    let mut value: usize = 0;
    let mut k: usize = 0;
    while k < digits.len()
        invariant
            k <= digits@.len(),
            all_digits(digits@.take(k as int)),
            value == decimal_value(digits@.take(k as int)),
        decreases digits@.len() - k,
    {
        let b: u8 = digits[k];
        if b < 0x30 || b > 0x39 {
            return None;
        }
        proof {
            let next = digits@.take(k + 1);
            assert(next.drop_last() =~= digits@.take(k as int));
            assert(next.last() == b);
            lemma_decimal_value_prefix(digits@, k + 1);
            assert forall|i: int| 0 <= i < next.len() implies is_digit(#[trigger] next[i]) by {
                if i < k {
                    assert(next[i] == digits@.take(k as int)[i]);
                }
            }
        }
        let shifted: usize = match value.checked_mul(10) {
            Some(v) => v,
            None => { return None; },
        };
        value = match shifted.checked_add((b - 0x30) as usize) {
            Some(v) => v,
            None => { return None; },
        };
        k += 1;
    }
    proof {
        assert(digits@.take(k as int) =~= digits@);
    }
    Some(value)
}

} // verus!
