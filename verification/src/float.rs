//! Literals of numbers with a fractional part or an exponent, and the
//! special values.

use vstd::prelude::*;
use vstd::slice::slice_subrange;
use vstd::string::StringSliceAdditionalSpecFns;
use crate::ascii::{
    is_digit, is_sign, DOT, LOWER_A, LOWER_E, LOWER_F, LOWER_I, LOWER_N, MINUS, NINE, PLUS,
    UNDERSCORE, UPPER_E, ZERO,
};
use crate::integer::{
    digits_ok, digits_well_formed, has_digit, strip_separators, unsigned_part, without_separators,
};
use crate::value::{FloatLiteral, FloatView};

verus! {

/// The two families of special values.
#[derive(Copy, Clone, Debug, PartialEq, Eq)]
pub enum SpecialFloat {
    Inf,
    Nan,
}

/// `b` is the lower-case letter `lower` or its upper-case form.
pub open spec fn is_letter(b: u8, lower: u8) -> bool {
    b == lower || b == lower - 0x20
}

/// Where the three letters of a special value start: after an optional
/// sign and an optional dot.
pub open spec fn special_core_start(s: Seq<u8>) -> int {
    let after_sign: int = if is_sign(s[0]) {
        1
    } else {
        0
    };
    if s[after_sign] == DOT {
        after_sign + 1
    } else {
        after_sign
    }
}

/// The special value that `s` spells: an optional sign, an optional dot,
/// then `inf` or `nan` in any mix of cases and nothing more. With it comes
/// whether the sign is `-`.
pub open spec fn spec_is_inf_nan(s: Seq<u8>) -> Option<(SpecialFloat, bool)> {
    if s.len() < 3 || s.len() > 5 {
        None
    } else {
        let at = special_core_start(s);
        if s.len() - at != 3 {
            None
        } else if is_letter(s[at], LOWER_I) && is_letter(s[at + 1], LOWER_N) && is_letter(
            s[at + 2],
            LOWER_F,
        ) {
            Some((SpecialFloat::Inf, s[0] == MINUS))
        } else if is_letter(s[at], LOWER_N) && is_letter(s[at + 1], LOWER_A) && is_letter(
            s[at + 2],
            LOWER_N,
        ) {
            Some((SpecialFloat::Nan, s[0] == MINUS))
        } else {
            None
        }
    }
}

/// `b` is `e` or `E`.
pub open spec fn is_exp_mark(b: u8) -> bool {
    b == LOWER_E || b == UPPER_E
}

/// `b` may stand in a mantissa: a digit, a separator or the point.
pub open spec fn is_mantissa_byte(b: u8) -> bool {
    is_digit(b) || b == UNDERSCORE || b == DOT
}

/// `s` holds a digit.
pub open spec fn contains_digit(s: Seq<u8>) -> bool {
    exists|i: int| 0 <= i < s.len() && is_digit(#[trigger] s[i])
}

/// `s` holds a point.
pub open spec fn contains_point(s: Seq<u8>) -> bool {
    exists|i: int| 0 <= i < s.len() && #[trigger] s[i] == DOT
}

/// A mantissa: digits and separators around at most one point, with at
/// least one digit.
pub open spec fn mantissa_ok(m: Seq<u8>) -> bool {
    &&& forall|i: int| 0 <= i < m.len() ==> is_mantissa_byte(#[trigger] m[i])
    &&& forall|i: int, j: int|
        0 <= i < m.len() && 0 <= j < m.len() && #[trigger] m[i] == DOT && #[trigger] m[j] == DOT
            ==> i == j
    &&& contains_digit(m)
}

/// What follows the exponent mark: an optional sign, then digits and
/// separators with at least one digit.
pub open spec fn exponent_ok(x: Seq<u8>) -> bool {
    digits_ok(unsigned_part(x), 10) && has_digit(unsigned_part(x))
}

/// The unsigned text is a mantissa, an exponent mark and an exponent.
pub open spec fn has_exponent_form(body: Seq<u8>) -> bool {
    exists|k: int|
        0 <= k < body.len() && is_exp_mark(#[trigger] body[k]) && mantissa_ok(body.take(k))
            && exponent_ok(body.skip(k + 1))
}

/// The unsigned text of a number: a mantissa, with or without an exponent.
pub open spec fn number_body(body: Seq<u8>) -> bool {
    has_exponent_form(body) || mantissa_ok(body)
}

/// The unsigned text of a number that cannot be an integer: it has an
/// exponent or a point.
pub open spec fn float_body(body: Seq<u8>) -> bool {
    has_exponent_form(body) || (mantissa_ok(body) && contains_point(body))
}

/// The float grammar for plain scalars: a special value, or an optional
/// sign before a number with a point or an exponent.
pub open spec fn float_literal(s: Seq<u8>) -> bool {
    s.len() > 0 && (spec_is_inf_nan(s) is Some || float_body(unsigned_part(s)))
}

/// What a float literal resolves to: the special value, or the text of
/// the number without its separators. A number needs no point here, so
/// that `12` is accepted. `None` when the text spells no number.
pub open spec fn spec_parse_float(s: Seq<u8>) -> Option<FloatView> {
    if s.len() == 0 {
        None
    } else {
        match spec_is_inf_nan(s) {
            Some((SpecialFloat::Nan, _)) => Some(FloatView::NotANumber),
            Some((SpecialFloat::Inf, true)) => Some(FloatView::NegInfinity),
            Some((SpecialFloat::Inf, false)) => Some(FloatView::Infinity),
            None => if number_body(unsigned_part(s)) {
                Some(FloatView::Decimal(without_separators(s)))
            } else {
                None
            },
        }
    }
}

/// Whether `b` is the letter `lower` in either case.
fn letter(b: u8, lower: u8) -> (r: bool)
    requires
        lower >= 0x20,
    ensures
        r == is_letter(b, lower),
{
    b == lower || b == lower - 0x20
}

/// Recognises the special values: an optional sign, an optional dot, then
/// `inf` or `nan` in any mix of cases, and nothing more. Returns the family
/// and whether the sign is `-`.
pub fn is_inf_nan(bytes: &[u8]) -> (r: Option<(SpecialFloat, bool)>)
    ensures
        r == spec_is_inf_nan(bytes@),
{
    if bytes.len() < 3 || bytes.len() > 5 {
        return None;
    }
    let mut i: usize = 0;
    let mut neg = false;
    if bytes[0] == PLUS {
        i = 1;
    } else if bytes[0] == MINUS {
        i = 1;
        neg = true;
    }
    if bytes[i] == DOT {
        i += 1;
    }
    if bytes.len() - i != 3 {
        return None;
    }
    let a = bytes[i];
    let b = bytes[i + 1];
    let c = bytes[i + 2];
    if letter(a, LOWER_I) && letter(b, LOWER_N) && letter(c, LOWER_F) {
        Some((SpecialFloat::Inf, neg))
    } else if letter(a, LOWER_N) && letter(b, LOWER_A) && letter(c, LOWER_N) {
        Some((SpecialFloat::Nan, neg))
    } else {
        None
    }
}

/// Checks a mantissa and tells whether it has a point.
fn scan_mantissa(m: &[u8]) -> (r: Option<bool>)
    ensures
        r is Some <==> mantissa_ok(m@),
        r matches Some(p) ==> p == contains_point(m@),
{
    let mut seen_digit = false;
    let mut seen_point = false;
    let mut i: usize = 0;
    while i < m.len()
        invariant
            i <= m.len(),
            forall|j: int| 0 <= j < i ==> is_mantissa_byte(#[trigger] m@[j]),
            forall|j: int, k: int|
                0 <= j < i && 0 <= k < i && #[trigger] m@[j] == DOT && #[trigger] m@[k] == DOT ==> j
                    == k,
            seen_digit == contains_digit(m@.take(i as int)),
            seen_point == contains_point(m@.take(i as int)),
        decreases m.len() - i,
    {
        let b = m[i];
        let ghost prev = m@.take(i as int);
        let ghost next = m@.take(i + 1);
        proof {
            assert(next[i as int] == b);
            if contains_digit(next) && !is_digit(b) {
                let j = choose|j: int| 0 <= j < next.len() && is_digit(#[trigger] next[j]);
                assert(is_digit(prev[j]));
            }
            if contains_digit(prev) {
                let j = choose|j: int| 0 <= j < prev.len() && is_digit(#[trigger] prev[j]);
                assert(is_digit(next[j]));
            }
            if contains_point(next) && b != DOT {
                let j = choose|j: int| 0 <= j < next.len() && #[trigger] next[j] == DOT;
                assert(prev[j] == DOT);
            }
            if contains_point(prev) {
                let j = choose|j: int| 0 <= j < prev.len() && #[trigger] prev[j] == DOT;
                assert(next[j] == DOT);
            }
        }
        if ZERO <= b && b <= NINE {
            seen_digit = true;
        } else if b == UNDERSCORE {
        } else if b == DOT {
            if seen_point {
                return None;
            }
            proof {
                assert forall|j: int| 0 <= j < i implies m@[j] != DOT by {
                    if m@[j] == DOT {
                        assert(prev[j] == DOT);
                    }
                }
            }
            seen_point = true;
        } else {
            proof {
                assert(!is_mantissa_byte(m@[i as int]));
            }
            return None;
        }
        i += 1;
    }
    proof {
        assert(m@.take(i as int) =~= m@);
    }
    if seen_digit {
        Some(seen_point)
    } else {
        None
    }
}

/// Checks the unsigned text of a number and tells whether it has a point or
/// an exponent.
fn scan_number(body: &[u8]) -> (r: Option<bool>)
    ensures
        r is Some <==> number_body(body@),
        r == Some(true) <==> float_body(body@),
{
    match memchr::memchr2(LOWER_E, UPPER_E, body) {
        None => {
            proof {
                if has_exponent_form(body@) {
                    let k = choose|k: int|
                        0 <= k < body@.len() && is_exp_mark(#[trigger] body@[k]) && mantissa_ok(
                            body@.take(k),
                        ) && exponent_ok(body@.skip(k + 1));
                    assert(is_exp_mark(body@[k]));
                }
            }
            scan_mantissa(body)
        },
        Some(at) => {
            let end = body.len();
            let mantissa = slice_subrange(body, 0, at);
            let exponent = slice_subrange(body, at + 1, end);
            let digits = if exponent.len() > 0 && (exponent[0] == PLUS || exponent[0] == MINUS) {
                slice_subrange(exponent, 1, exponent.len())
            } else {
                exponent
            };
            proof {
                assert(!is_mantissa_byte(body@[at as int]));
            }
            let ok = scan_mantissa(mantissa).is_some() && digits_well_formed(digits, 10);
            proof {
                if !ok {
                    if has_exponent_form(body@) {
                        let k = choose|k: int|
                            0 <= k < body@.len() && is_exp_mark(#[trigger] body@[k]) && mantissa_ok(
                                body@.take(k),
                            ) && exponent_ok(body@.skip(k + 1));
                        if k > at {
                            assert(body@.take(k)[at as int] == body@[at as int]);
                        }
                    }
                }
            }
            if ok {
                Some(true)
            } else {
                None
            }
        },
    }
}

/// Whether a plain scalar spells a float: a special value, or an optional
/// sign before digits with a point, an exponent or both. Separators are
/// allowed among the digits; the exponent may carry a sign directly after
/// its mark.
pub fn is_float(bytes: &[u8]) -> (r: bool)
    ensures
        r == float_literal(bytes@),
{
    if bytes.len() == 0 {
        return false;
    }
    if is_inf_nan(bytes).is_some() {
        return true;
    }
    let start: usize = if bytes[0] == PLUS || bytes[0] == MINUS {
        1
    } else {
        0
    };
    let body = slice_subrange(bytes, start, bytes.len());
    proof {
        assert(body@ =~= unsigned_part(bytes@));
    }
    match scan_number(body) {
        Some(true) => true,
        _ => false,
    }
}

/// Resolves a float literal: a special value, or the text of a number
/// without its separators. `None` when the text spells no number.
pub fn parse_float(s: &str) -> (r: Option<FloatLiteral>)
    ensures
        match spec_parse_float(s.spec_bytes()) {
            Some(v) => r is Some && r->0@ == v,
            None => r is None,
        },
{
    let bytes = s.as_bytes();
    if bytes.len() == 0 {
        return None;
    }
    match is_inf_nan(bytes) {
        Some((SpecialFloat::Nan, _)) => {
            return Some(FloatLiteral::NotANumber);
        },
        Some((SpecialFloat::Inf, neg)) => {
            if neg {
                return Some(FloatLiteral::NegInfinity);
            } else {
                return Some(FloatLiteral::Infinity);
            }
        },
        None => {},
    }
    let start: usize = if bytes[0] == PLUS || bytes[0] == MINUS {
        1
    } else {
        0
    };
    let body = slice_subrange(bytes, start, bytes.len());
    proof {
        assert(body@ =~= unsigned_part(bytes@));
    }
    if scan_number(body).is_some() {
        Some(FloatLiteral::Decimal(strip_separators(bytes)))
    } else {
        None
    }
}

} // verus!
