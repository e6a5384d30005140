//! The `<source-name>` production: a decimal length followed by that many
//! bytes of identifier text.

use vstd::prelude::*;
use vstd::slice::slice_subrange;

pub mod digits;
pub mod laws;
pub mod length;

use digits::{all_digits, digit, is_digit, leading_digits, lemma_digit_run_is_leading};
use length::{decoded_length, parse_length};

verus! {

/// How many more bytes a parser asks for.
#[derive(Debug, Clone, Copy, PartialEq, Eq)]
pub enum Needed {
    /// More input is needed, and the amount cannot be told yet.
    Unknown,
    /// Exactly this many more bytes are needed.
    Size(usize),
}

/// Why a buffer can never become a well-formed token, whatever follows it.
#[derive(Debug, Clone, Copy, PartialEq, Eq)]
pub enum Malformed {
    /// The first byte is not a decimal digit.
    NotADigit,
    /// The length prefix is not a decimal number that fits in `usize`.
    InvalidLength,
}

/// The three-way answer of a parser. The slices of `Done` borrow from the
/// buffer that was parsed: first what is left of it, then what was recognised.
#[derive(Debug, Clone, Copy, PartialEq, Eq)]
pub enum Outcome<'a> {
    Done(&'a [u8], &'a [u8]),
    Incomplete(Needed),
    Error(Malformed),
}

/// What an `Outcome` stands for: the same answer over sequences of bytes.
pub enum Parsed {
    Done { remaining: Seq<u8>, token: Seq<u8> },
    Incomplete(Needed),
    Error(Malformed),
}

impl<'a> View for Outcome<'a> {
    type V = Parsed;

    open spec fn view(&self) -> Parsed {
        match *self {
            Outcome::Done(remaining, token) => Parsed::Done {
                remaining: remaining@,
                token: token@,
            },
            Outcome::Incomplete(needed) => Parsed::Incomplete(needed),
            Outcome::Error(e) => Parsed::Error(e),
        }
    }
}

/// What `token_after` answers once the digits of the length and the bytes
/// behind them are told apart.
pub open spec fn parsed_token_after(rest: Seq<u8>, digits: Seq<u8>) -> Parsed {
    match decoded_length(digits) {
        None => Parsed::Error(Malformed::InvalidLength),
        Some(length) => if rest.len() < length {
            Parsed::Incomplete(Needed::Size((length - rest.len()) as usize))
        } else {
            Parsed::Done { remaining: rest.skip(length as int), token: rest.take(length as int) }
        },
    }
}

/// What `source_name` answers on the buffer `s`.
pub open spec fn parsed_source_name(s: Seq<u8>) -> Parsed {
    if s.len() == 0 {
        Parsed::Incomplete(Needed::Unknown)
    } else if !is_digit(s[0]) {
        Parsed::Error(Malformed::NotADigit)
    } else if leading_digits(s) == s.len() {
        Parsed::Incomplete(Needed::Unknown)
    } else {
        parsed_token_after(s.skip(leading_digits(s) as int), s.take(leading_digits(s) as int))
    }
}

/// Takes the token whose length `digits` spell from the front of `rest`, or
/// says how many bytes of it are still missing.
pub fn token_after<'a>(rest: &'a [u8], digits: &[u8]) -> (r: Outcome<'a>)
    ensures
        r@ == parsed_token_after(rest@, digits@),
{
    match parse_length(digits) {
        Some(length) => {
            if rest.len() < length {
                Outcome::Incomplete(Needed::Size(length - rest.len()))
            } else {
                Outcome::Done(
                    slice_subrange(rest, length, rest.len()),
                    slice_subrange(rest, 0, length),
                )
            }
        },
        None => Outcome::Error(Malformed::InvalidLength),
    }
}

/// Parses `<source-name> ::= <length> <identifier>` from the front of `i`,
/// which may be only the beginning of the input.
///
/// A run of digits that reaches the end of the buffer is never taken for
/// the whole length: more digits may follow.
pub fn source_name<'a>(i: &'a [u8]) -> (r: Outcome<'a>)
    ensures
        r@ == parsed_source_name(i@),
        i@.len() == 0 ==> r@ == Parsed::Incomplete(Needed::Unknown),
        all_digits(i@) ==> r@ == Parsed::Incomplete(Needed::Unknown),
        i@.len() > 0 && !is_digit(i@[0]) ==> r@ == Parsed::Error(Malformed::NotADigit),
{
    proof {
        if all_digits(i@) {
            laws::lemma_only_digits(i@);
        }
    }
    if i.len() == 0 {
        return Outcome::Incomplete(Needed::Unknown);
    }
    match digit(i) {
        Outcome::Error(e) => Outcome::Error(e),
        Outcome::Incomplete(needed) => Outcome::Incomplete(needed),
        Outcome::Done(rest, digits) => {
            proof {
                lemma_digit_run_is_leading(i@, digits@.len() as int);
            }
            if rest.len() == 0 {
                return Outcome::Incomplete(Needed::Unknown);
            }
            token_after(rest, digits)
        },
    }
}

} // verus!
