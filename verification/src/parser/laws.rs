//! What holds of `source_name` on whole families of buffers.

use vstd::prelude::*;
use super::digits::{all_digits, is_digit, is_digit_run, lemma_digit_run_is_leading};
use super::length::{decimal, decimal_value, lemma_decimal_spells};
use super::{parsed_source_name, Malformed, Needed, Parsed};

verus! {

/// An empty buffer asks for more input, of an unknown amount.
pub proof fn lemma_empty_buffer(s: Seq<u8>)
    requires
        s.len() == 0,
    ensures
        parsed_source_name(s) == Parsed::Incomplete(Needed::Unknown),
{
}

/// A buffer that holds nothing but digits asks for more input, of an unknown
/// amount, whatever number the digits spell.
pub proof fn lemma_only_digits(s: Seq<u8>)
    requires
        all_digits(s),
    ensures
        parsed_source_name(s) == Parsed::Incomplete(Needed::Unknown),
{
    if s.len() > 0 {
        assert(is_digit(s[0]));
        assert(s.take(s.len() as int) =~= s);
        lemma_digit_run_is_leading(s, s.len() as int);
    }
}

/// A buffer whose first byte is no digit is malformed.
pub proof fn lemma_no_leading_digit(s: Seq<u8>)
    requires
        s.len() > 0,
        !is_digit(s[0]),
    ensures
        parsed_source_name(s) == Parsed::Error(Malformed::NotADigit),
{
}

/// Digits that spell a length within `usize`, then bytes that begin with
/// another byte than a digit: the answer is decided by the length and those
/// bytes alone. The digits may begin with zeros.
pub proof fn lemma_length_then_bytes(digits: Seq<u8>, rest: Seq<u8>)
    requires
        digits.len() > 0,
        all_digits(digits),
        decimal_value(digits) <= usize::MAX,
        rest.len() > 0,
        !is_digit(rest[0]),
    ensures
        rest.len() >= decimal_value(digits) ==> parsed_source_name(digits + rest)
            == (Parsed::Done {
            remaining: rest.skip(decimal_value(digits) as int),
            token: rest.take(decimal_value(digits) as int),
        }),
        rest.len() < decimal_value(digits) ==> parsed_source_name(digits + rest)
            == Parsed::Incomplete(Needed::Size((decimal_value(digits) - rest.len()) as usize)),
{
    let s = digits + rest;
    let n = digits.len() as int;
    assert(s.take(n) =~= digits);
    assert(s.skip(n) =~= rest);
    assert(s[n] == rest[0]);
    assert(is_digit(digits[0]));
    assert(s[0] == digits[0]);
    lemma_digit_run_is_leading(s, n);
}

/// A token behind its length in decimal, and behind it anything at all, is
/// parsed back as that token and what followed it. The bytes behind the
/// length must not begin with a digit, and there must be one: else the
/// length could not be told from them.
pub proof fn lemma_round_trip(token: Seq<u8>, trailing: Seq<u8>)
    requires
        token.len() <= usize::MAX,
        (token + trailing).len() > 0,
        !is_digit((token + trailing)[0]),
    ensures
        parsed_source_name(decimal(token.len()) + token + trailing) == (Parsed::Done {
            remaining: trailing,
            token: token,
        }),
{
    let digits = decimal(token.len());
    let rest = token + trailing;
    lemma_decimal_spells(token.len());
    lemma_length_then_bytes(digits, rest);
    assert(rest.take(token.len() as int) =~= token);
    assert(rest.skip(token.len() as int) =~= trailing);
    assert(digits + token + trailing =~= digits + rest);
}

/// A token that is cut off after its first `k` bytes, behind its length in
/// decimal, asks for exactly the bytes that are missing. At least one byte
/// of the token must be there, and it must not be a digit: else the length
/// could not be told from it.
pub proof fn lemma_short_payload(token: Seq<u8>, k: int)
    requires
        token.len() <= usize::MAX,
        0 < k < token.len(),
        !is_digit(token[0]),
    ensures
        parsed_source_name(decimal(token.len()) + token.take(k)) == Parsed::Incomplete(
            Needed::Size((token.len() - k) as usize),
        ),
{
    let digits = decimal(token.len());
    let rest = token.take(k);
    lemma_decimal_spells(token.len());
    assert(rest[0] == token[0]);
    lemma_length_then_bytes(digits, rest);
}

} // verus!
