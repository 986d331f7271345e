//! Numbers written out in decimal.
use vstd::prelude::*;

verus! {

/// The character of the decimal digit `d`.
pub open spec fn digit_char(d: nat) -> char {
    (48 + d) as char
}

/// `n` written in decimal, without leading zeros.
pub open spec fn decimal_digits(n: nat) -> Seq<char>
    decreases n,
{
    if n < 10 {
        seq![digit_char(n)]
    } else {
        decimal_digits(n / 10).push(digit_char(n % 10))
    }
}

/// Calls `<u128 as ToString>::to_string`, which writes the number through its
/// `Display` impl: in decimal, without sign, padding or leading zeros.
#[verifier::external_body]
pub(crate) fn u128_to_string(value: u128) -> (text: String)
    ensures
        text@ == decimal_digits(value as nat),
{
    value.to_string()
}

} // verus!
