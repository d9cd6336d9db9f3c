//! Arbitrary-precision integers, held as the `BigInt` of `num_bigint`.

use vstd::prelude::*;
use crate::integer::{digit_in_radix, digits_value};
use crate::text::decimal_chars;

verus! {

/// `num_bigint::BigInt`, carried through as it is; see [`big_value`] for
/// the number that one holds.
#[verifier::external_type_specification]
#[verifier::external_body]
pub struct ExBigInt(num_bigint::BigInt);

/// The mathematical integer that a `BigInt` holds.
pub uninterp spec fn big_value(b: num_bigint::BigInt) -> int;

/// Every byte of `s` is a digit of base `radix`, and there is at least one.
pub open spec fn plain_digits(s: Seq<u8>, radix: nat) -> bool {
    s.len() > 0 && forall|i: int| 0 <= i < s.len() ==> #[trigger] digit_in_radix(s[i], radix)
}

/// The decimal numeral of `n`, with a leading `-` when `n` is negative.
pub open spec fn signed_decimal_chars(n: int) -> Seq<char> {
    if n < 0 {
        seq!['-'] + decimal_chars((-n) as nat)
    } else {
        decimal_chars(n as nat)
    }
}

/// Calls `BigInt::parse_bytes`. The contract claims, for a base from 2 to
/// 36 (outside of which the call panics): a non-empty run of digits of that
/// base, without sign or separator, yields the number that the digits
/// spell. Of other input it claims nothing.
#[verifier::external_body]
pub(crate) fn big_from_digits(digits: &[u8], radix: u32) -> (r: Option<num_bigint::BigInt>)
    requires
        2 <= radix <= 36,
    ensures
        plain_digits(digits@, radix as nat) ==> r is Some && big_value(r->0) == digits_value(
            digits@,
            radix as nat,
        ),
{
    num_bigint::BigInt::parse_bytes(digits, radix)
}

/// Negates through `Neg for BigInt`: the result holds the opposite number.
#[verifier::external_body]
pub(crate) fn big_negate(b: num_bigint::BigInt) -> (r: num_bigint::BigInt)
    ensures
        big_value(r) == -big_value(b),
{
    -b
}

/// `Clone for BigInt`: the copy holds the same number.
pub assume_specification[ <num_bigint::BigInt as Clone>::clone ](b: &num_bigint::BigInt) -> (r:
    num_bigint::BigInt)
    ensures
        big_value(r) == big_value(*b),
;

/// Renders through `Display for BigInt`: the decimal numeral, with a
/// leading `-` for a negative number.
#[verifier::external_body]
pub(crate) fn big_to_decimal(b: &num_bigint::BigInt) -> (r: String)
    ensures
        r@ == signed_decimal_chars(big_value(*b)),
{
    b.to_string()
}

} // verus!
