//! Integer literals: digit values, the 64-bit fast path, the literal grammar
//! and the arbitrary-precision fallback.

use vstd::prelude::*;
use vstd::slice::{slice_subrange, slice_to_vec};
use vstd::string::StringSliceAdditionalSpecFns;
use crate::ascii::{
    is_digit, is_sign, LOWER_A, LOWER_B, LOWER_F, LOWER_O, LOWER_X, MINUS, NINE, PLUS, UNDERSCORE,
    UPPER_A, UPPER_B, UPPER_F, UPPER_O, UPPER_X, ZERO,
};
use crate::bigint::{big_from_digits, big_negate};
use crate::value::{Value, ValueView};

verus! {

/// The value of `b` read as a hexadecimal digit, in either case.
pub open spec fn hex_value(b: u8) -> Option<nat> {
    if is_digit(b) {
        Some((b - ZERO) as nat)
    } else if LOWER_A <= b <= LOWER_F {
        Some((b - LOWER_A + 10) as nat)
    } else if UPPER_A <= b <= UPPER_F {
        Some((b - UPPER_A + 10) as nat)
    } else {
        None
    }
}

/// `b` is a digit of base `radix`.
pub open spec fn digit_in_radix(b: u8, radix: nat) -> bool {
    hex_value(b) matches Some(v) && v < radix
}

/// Every byte of `s` is a digit of base `radix` or an underscore separator.
pub open spec fn digits_ok(s: Seq<u8>, radix: nat) -> bool {
    forall|i: int| 0 <= i < s.len() ==> s[i] == UNDERSCORE || #[trigger] digit_in_radix(s[i], radix)
}

/// `s` holds at least one byte that is not an underscore separator.
pub open spec fn has_digit(s: Seq<u8>) -> bool {
    exists|i: int| 0 <= i < s.len() && #[trigger] s[i] != UNDERSCORE
}

/// The number that the digits of `s` spell in base `radix`, most
/// significant first; underscore separators are skipped.
pub open spec fn digits_value(s: Seq<u8>, radix: nat) -> nat
    decreases s.len(),
{
    if s.len() == 0 {
        0
    } else {
        let head = digits_value(s.drop_last(), radix);
        match hex_value(s.last()) {
            Some(v) => head * radix + v,
            None => head,
        }
    }
}

/// The largest magnitude a 64-bit signed integer of the given sign can have.
pub open spec fn magnitude_limit(neg: bool) -> nat {
    if neg {
        0x8000_0000_0000_0000
    } else {
        0x7fff_ffff_ffff_ffff
    }
}

/// `magnitude` with the sign applied.
pub open spec fn signed(magnitude: nat, neg: bool) -> int {
    if neg {
        -(magnitude as int)
    } else {
        magnitude as int
    }
}

/// What the fast path yields for a run of digits: the signed number when
/// the run is well formed and the number fits in 64 bits.
pub open spec fn spec_parse_i64(s: Seq<u8>, radix: nat, neg: bool) -> Option<i64> {
    if digits_ok(s, radix) && has_digit(s) && digits_value(s, radix) <= magnitude_limit(neg) {
        Some(signed(digits_value(s, radix), neg) as i64)
    } else {
        None
    }
}

/// What [`digit_to_value`] yields.
pub open spec fn spec_digit_to_value(byte: u8, radix: u32) -> Option<u64> {
    match hex_value(byte) {
        Some(v) if v < radix => Some(v as u64),
        _ => None,
    }
}

/// Extending a digit run never lowers its value.
pub proof fn lemma_digits_value_monotonic(s: Seq<u8>, k: int, radix: nat)
    requires
        0 <= k <= s.len(),
        radix >= 1,
    ensures
        digits_value(s.take(k), radix) <= digits_value(s, radix),
    decreases s.len() - k,
{
    if k == s.len() {
        assert(s.take(k) =~= s);
    } else {
        let t = s.drop_last();
        assert(t.take(k) =~= s.take(k));
        lemma_digits_value_monotonic(t, k, radix);
        let head = digits_value(t, radix);
        assert(head <= head * radix) by (nonlinear_arith)
            requires
                radix >= 1,
        ;
    }
}

/// The value of an ASCII digit in base `radix`: `0`-`9`, then `a`-`f` in
/// either case for ten to fifteen; `None` when the byte is no digit of that
/// base.
pub fn digit_to_value(byte: u8, radix: u32) -> (r: Option<u64>)
    ensures
        r == spec_digit_to_value(byte, radix),
{
    let value: u64 = if ZERO <= byte && byte <= NINE {
        (byte - ZERO) as u64
    } else if LOWER_A <= byte && byte <= LOWER_F {
        (byte - LOWER_A + 10) as u64
    } else if UPPER_A <= byte && byte <= UPPER_F {
        (byte - UPPER_A + 10) as u64
    } else {
        return None;
    };
    if value < radix as u64 {
        Some(value)
    } else {
        None
    }
}

/// Parses a run of digits with underscore separators into a 64-bit signed
/// integer of the given sign. Every digit is checked against the bound for
/// that sign, so the magnitude of the least 64-bit integer is accepted
/// when `neg` is set. `None` when the run holds no digit, holds a byte that
/// is no digit of the base, or spells a number that does not fit.
pub fn parse_i64(bytes: &[u8], radix: u32, neg: bool) -> (r: Option<i64>)
    ensures
        r == spec_parse_i64(bytes@, radix as nat, neg),
{
    let mut acc: u64 = 0;
    let mut seen = false;
    let limit: u64 = if neg {
        0x8000_0000_0000_0000
    } else {
        0x7fff_ffff_ffff_ffff
    };
    let mut i: usize = 0;
    while i < bytes.len()
        invariant
            i <= bytes.len(),
            limit == magnitude_limit(neg),
            digits_ok(bytes@.take(i as int), radix as nat),
            seen == has_digit(bytes@.take(i as int)),
            acc == digits_value(bytes@.take(i as int), radix as nat),
            acc <= limit,
        decreases bytes.len() - i,
    {
        let byte = bytes[i];
        let ghost prev = bytes@.take(i as int);
        let ghost next = bytes@.take(i + 1);
        proof {
            assert(next.drop_last() =~= prev);
            assert(next.last() == byte);
        }
        if byte != UNDERSCORE {
            match digit_to_value(byte, radix) {
                None => {
                    proof {
                        assert(!digit_in_radix(bytes@[i as int], radix as nat));
                    }
                    return None;
                },
                Some(digit) => {
                    let scaled = acc.checked_mul(radix as u64);
                    let sum = match scaled {
                        Some(m) => m.checked_add(digit),
                        None => None,
                    };
                    let fits = match sum {
                        Some(v) => v <= limit,
                        None => false,
                    };
                    if !fits {
                        proof {
                            if digits_ok(bytes@, radix as nat) {
                                lemma_digits_value_monotonic(bytes@, i + 1, radix as nat);
                            }
                        }
                        return None;
                    }
                    acc = sum.unwrap();
                    seen = true;
                },
            }
        } else {
            proof {
                if has_digit(next) {
                    let j = choose|j: int| 0 <= j < next.len() && #[trigger] next[j] != UNDERSCORE;
                    assert(prev[j] != UNDERSCORE);
                }
            }
        }
        i += 1;
    }
    proof {
        assert(bytes@.take(i as int) =~= bytes@);
    }
    if !seen {
        return None;
    }
    if neg {
        if acc == 0x8000_0000_0000_0000 {
            Some(i64::MIN)
        } else {
            Some(-(acc as i64))
        }
    } else {
        Some(acc as i64)
    }
}

/// The digit run without its underscore separators.
pub open spec fn without_separators(s: Seq<u8>) -> Seq<u8>
    decreases s.len(),
{
    if s.len() == 0 {
        Seq::empty()
    } else {
        let head = without_separators(s.drop_last());
        if s.last() == UNDERSCORE {
            head
        } else {
            head.push(s.last())
        }
    }
}

/// The base that the byte after a leading `0` selects: `x`, `o` or `b`, in
/// either case.
pub open spec fn prefix_radix(b: u8) -> Option<nat> {
    if b == LOWER_X || b == UPPER_X {
        Some(16)
    } else if b == LOWER_O || b == UPPER_O {
        Some(8)
    } else if b == LOWER_B || b == UPPER_B {
        Some(2)
    } else {
        None
    }
}

/// The literal without its leading sign, if it has one.
pub open spec fn unsigned_part(s: Seq<u8>) -> Seq<u8> {
    if s.len() > 0 && is_sign(s[0]) {
        s.skip(1)
    } else {
        s
    }
}

/// The literal starts with `-`.
pub open spec fn is_negative(s: Seq<u8>) -> bool {
    s.len() > 0 && s[0] == MINUS
}

/// The unsigned literal starts with `0x`, `0o` or `0b`, in either case.
pub open spec fn has_radix_prefix(body: Seq<u8>) -> bool {
    body.len() >= 2 && body[0] == ZERO && prefix_radix(body[1]) is Some
}

/// The base of an unsigned literal: that of its prefix, or ten.
pub open spec fn literal_radix(body: Seq<u8>) -> nat {
    if has_radix_prefix(body) {
        prefix_radix(body[1])->0
    } else {
        10
    }
}

/// The digit run of an unsigned literal: what follows the prefix, or all of
/// it.
pub open spec fn literal_digits(body: Seq<u8>) -> Seq<u8> {
    if has_radix_prefix(body) {
        body.skip(2)
    } else {
        body
    }
}

/// The integer grammar: an optional sign, an optional radix prefix, then
/// digits of that base with underscore separators, at least one digit.
pub open spec fn int_literal(s: Seq<u8>) -> bool {
    let body = unsigned_part(s);
    digits_ok(literal_digits(body), literal_radix(body)) && has_digit(literal_digits(body))
}

/// The number that an integer literal spells.
pub open spec fn int_literal_value(s: Seq<u8>) -> int {
    let body = unsigned_part(s);
    signed(digits_value(literal_digits(body), literal_radix(body)), is_negative(s))
}

/// The node that an integer literal resolves to: a 64-bit integer when the
/// number fits, the exact number otherwise; `None` when the text is no
/// integer literal.
pub open spec fn spec_parse_int(s: Seq<u8>) -> Option<ValueView> {
    if !int_literal(s) {
        None
    } else {
        let n = int_literal_value(s);
        if i64::MIN <= n <= i64::MAX {
            Some(ValueView::Integer64(n as i64))
        } else {
            Some(ValueView::IntegerBig(n))
        }
    }
}

/// Removing the separators of a well-formed digit run leaves plain digits
/// that spell the same number.
pub proof fn lemma_without_separators(s: Seq<u8>, radix: nat)
    requires
        digits_ok(s, radix),
    ensures
        digits_value(without_separators(s), radix) == digits_value(s, radix),
        forall|i: int|
            0 <= i < without_separators(s).len() ==> #[trigger] digit_in_radix(
                without_separators(s)[i],
                radix,
            ),
        has_digit(s) ==> without_separators(s).len() > 0,
        without_separators(s).len() <= s.len(),
    decreases s.len(),
{
    if s.len() > 0 {
        let t = s.drop_last();
        lemma_without_separators(t, radix);
        let w = without_separators(s);
        if s.last() != UNDERSCORE {
            assert(w.drop_last() =~= without_separators(t));
        } else {
            if has_digit(s) {
                let j = choose|j: int| 0 <= j < s.len() && #[trigger] s[j] != UNDERSCORE;
                assert(t[j] != UNDERSCORE);
            }
        }
    }
}

/// A run without separators is its own normal form.
pub proof fn lemma_without_separators_none(s: Seq<u8>)
    requires
        forall|i: int| 0 <= i < s.len() ==> #[trigger] s[i] != UNDERSCORE,
    ensures
        without_separators(s) == s,
    decreases s.len(),
{
    if s.len() > 0 {
        let t = s.drop_last();
        lemma_without_separators_none(t);
    }
}

/// Copies `bytes` without its underscore separators.
pub fn strip_separators(bytes: &[u8]) -> (r: Vec<u8>)
    ensures
        r@ == without_separators(bytes@),
{
    if memchr::memchr(UNDERSCORE, bytes).is_none() {
        proof {
            lemma_without_separators_none(bytes@);
        }
        return slice_to_vec(bytes);
    }
    let mut out: Vec<u8> = Vec::new();
    let mut i: usize = 0;
    while i < bytes.len()
        invariant
            i <= bytes.len(),
            out@ == without_separators(bytes@.take(i as int)),
        decreases bytes.len() - i,
    {
        proof {
            assert(bytes@.take(i + 1).drop_last() =~= bytes@.take(i as int));
        }
        if bytes[i] != UNDERSCORE {
            out.push(bytes[i]);
        }
        i += 1;
    }
    proof {
        assert(bytes@.take(i as int) =~= bytes@);
    }
    out
}

/// The bytes of a numeric literal without its underscore separators.
pub fn normalize_num(s: &str) -> (r: Vec<u8>)
    ensures
        r@ == without_separators(s.spec_bytes()),
{
    strip_separators(s.as_bytes())
}

/// Whether a run of bytes is well formed for the base: digits of that base
/// and underscore separators only, with at least one digit.
pub fn digits_well_formed(bytes: &[u8], radix: u32) -> (r: bool)
    ensures
        r == (digits_ok(bytes@, radix as nat) && has_digit(bytes@)),
{
    let mut seen = false;
    let mut i: usize = 0;
    while i < bytes.len()
        invariant
            i <= bytes.len(),
            digits_ok(bytes@.take(i as int), radix as nat),
            seen == has_digit(bytes@.take(i as int)),
        decreases bytes.len() - i,
    {
        let byte = bytes[i];
        let ghost prev = bytes@.take(i as int);
        let ghost next = bytes@.take(i + 1);
        if byte != UNDERSCORE {
            if digit_to_value(byte, radix).is_none() {
                proof {
                    assert(!digit_in_radix(bytes@[i as int], radix as nat));
                }
                return false;
            }
            proof {
                assert(next[i as int] != UNDERSCORE);
            }
            seen = true;
        } else {
            proof {
                if has_digit(next) {
                    let j = choose|j: int| 0 <= j < next.len() && #[trigger] next[j] != UNDERSCORE;
                    assert(prev[j] != UNDERSCORE);
                }
            }
        }
        i += 1;
    }
    proof {
        assert(bytes@.take(i as int) =~= bytes@);
    }
    seen
}

/// The base that a prefix byte selects, if it is one.
pub fn radix_of_prefix(b: u8) -> (r: Option<u32>)
    ensures
        match prefix_radix(b) {
            Some(n) => r == Some(n as u32),
            None => r is None,
        },
{
    if b == LOWER_X || b == UPPER_X {
        Some(16)
    } else if b == LOWER_O || b == UPPER_O {
        Some(8)
    } else if b == LOWER_B || b == UPPER_B {
        Some(2)
    } else {
        None
    }
}

/// Splits a literal into its sign, its base and the offset of its digit
/// run.
pub fn split_literal(bytes: &[u8]) -> (r: (bool, u32, usize))
    ensures
        r.0 == is_negative(bytes@),
        r.1 == literal_radix(unsigned_part(bytes@)),
        r.2 <= bytes@.len(),
        bytes@.skip(r.2 as int) == literal_digits(unsigned_part(bytes@)),
        r.1 == 2 || r.1 == 8 || r.1 == 10 || r.1 == 16,
{
    let mut index: usize = 0;
    let mut neg = false;
    if bytes.len() > 0 && (bytes[0] == PLUS || bytes[0] == MINUS) {
        neg = bytes[0] == MINUS;
        index = 1;
    }
    let ghost body = unsigned_part(bytes@);
    proof {
        assert(body =~= bytes@.skip(index as int));
    }
    let mut radix: u32 = 10;
    if bytes.len() - index >= 2 && bytes[index] == ZERO {
        match radix_of_prefix(bytes[index + 1]) {
            Some(n) => {
                radix = n;
                index += 2;
                proof {
                    assert(bytes@.skip(index as int) =~= body.skip(2));
                }
            },
            None => {},
        }
    }
    (neg, radix, index)
}

/// Whether the bytes spell an integer literal: an optional sign, an
/// optional `0x`, `0o` or `0b` prefix in either case, then at least one
/// digit of the base, with underscores allowed between.
pub fn is_int(bytes: &[u8]) -> (r: bool)
    ensures
        r == int_literal(bytes@),
{
    let (_neg, radix, start) = split_literal(bytes);
    let digits = slice_subrange(bytes, start, bytes.len());
    proof {
        assert(digits@ =~= bytes@.skip(start as int));
    }
    digits_well_formed(digits, radix)
}

/// Resolves an integer literal. The 64-bit fast path is tried first; a
/// well-formed literal that it rejects is parsed again, without its
/// separators, as an arbitrary-precision integer, and negated when the
/// literal is negative. Text that is no integer literal gives `None`.
pub fn parse_int(s: &str) -> (r: Option<Value>)
    ensures
        match spec_parse_int(s.spec_bytes()) {
            Some(v) => r is Some && r->0@ == v,
            None => r is None,
        },
{
    let bytes = s.as_bytes();
    let (neg, radix, start) = split_literal(bytes);
    let digits = slice_subrange(bytes, start, bytes.len());
    proof {
        assert(digits@ =~= bytes@.skip(start as int));
    }
    match parse_i64(digits, radix, neg) {
        Some(n) => {
            return Some(Value::IntegerI64(n));
        },
        None => {},
    }
    if !digits_well_formed(digits, radix) {
        return None;
    }
    let plain = strip_separators(digits);
    proof {
        lemma_without_separators(digits@, radix as nat);
    }
    match big_from_digits(plain.as_slice(), radix) {
        Some(big) => {
            if neg {
                Some(Value::IntegerBig(big_negate(big)))
            } else {
                Some(Value::IntegerBig(big))
            }
        },
        None => None,
    }
}

} // verus!
