//! Runs of ASCII decimal digits at the front of a buffer.

use vstd::prelude::*;
use super::{Malformed, Needed, Outcome};

verus! {

/// `b` is one of the ASCII bytes `0` to `9`.
pub open spec fn is_digit(b: u8) -> bool {
    0x30 <= b && b <= 0x39
}

/// Every byte of `s` is a decimal digit.
pub open spec fn all_digits(s: Seq<u8>) -> bool {
    forall|i: int| 0 <= i < s.len() ==> is_digit(#[trigger] s[i])
}

/// The first `n` bytes of `s` are its longest run of leading digits, and the
/// run is not empty.
pub open spec fn is_digit_run(s: Seq<u8>, n: int) -> bool {
    &&& 0 < n <= s.len()
    &&& all_digits(s.take(n))
    &&& (n < s.len() ==> !is_digit(s[n]))
}

/// The number of digits that `s` begins with.
pub open spec fn leading_digits(s: Seq<u8>) -> nat
    decreases s.len(),
{
    if s.len() > 0 && is_digit(s[0]) {
        1 + leading_digits(s.skip(1))
    } else {
        0
    }
}

/// A run that satisfies `is_digit_run` is the one that `leading_digits` counts.
pub proof fn lemma_digit_run_is_leading(s: Seq<u8>, n: int)
    requires
        is_digit_run(s, n),
    ensures
        leading_digits(s) == n,
    decreases n,
{
    assert(is_digit(s.take(n)[0]));
    let tail = s.skip(1);
    if n == 1 {
        if s.len() > 1 {
            assert(tail[0] == s[1]);
        }
        assert(leading_digits(tail) == 0);
    } else {
        assert(is_digit(s.take(n)[1]));
        assert forall|i: int| 0 <= i < n - 1 implies is_digit(#[trigger] tail.take(n - 1)[i]) by {
            assert(tail.take(n - 1)[i] == s.take(n)[i + 1]);
        }
        if n < s.len() {
            assert(tail[n - 1] == s[n]);
        }
        lemma_digit_run_is_leading(tail, n - 1);
    }
}

/// Calls `nom::digit` on a byte slice. The contract says what that function
/// does: on an empty buffer it asks for more input without naming an amount;
/// where the first byte is no digit it fails; otherwise it splits the buffer
/// behind its longest run of leading digits, which may be the whole buffer,
/// and hands back the rest and the run, in this order.
#[verifier::external_body]
pub(crate) fn digit<'a>(input: &'a [u8]) -> (r: Outcome<'a>)
    ensures
        match r {
            Outcome::Done(rest, run) => {
                &&& is_digit_run(input@, run@.len() as int)
                &&& run@ == input@.take(run@.len() as int)
                &&& rest@ == input@.skip(run@.len() as int)
            },
            Outcome::Incomplete(needed) => input@.len() == 0 && needed == Needed::Unknown,
            Outcome::Error(e) => {
                &&& input@.len() > 0
                &&& !is_digit(input@[0])
                &&& e == Malformed::NotADigit
            },
        },
{
    match nom::digit(input) {
        nom::IResult::Done(rest, run) => Outcome::Done(rest, run),
        nom::IResult::Incomplete(nom::Needed::Unknown) => Outcome::Incomplete(Needed::Unknown),
        nom::IResult::Incomplete(nom::Needed::Size(n)) => Outcome::Incomplete(Needed::Size(n)),
        nom::IResult::Error(_) => Outcome::Error(Malformed::NotADigit),
    }
}

} // verus!
