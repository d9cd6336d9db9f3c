//! Batched parsing of decimal digits: eight at a time where eight bytes
//! are all digits, one at a time otherwise.

use vstd::prelude::*;
use vstd::arithmetic::div_mod::lemma_fundamental_div_mod_converse;
use crate::ascii::{is_digit, NINE, ZERO};

verus! {

/// Byte `k` of `v`, counted from the least significant.
pub open spec fn byte_at(v: u64, k: u64) -> u64 {
    (v >> (8 * k) as u64) & 0xff
}

/// `code` is the code of an ASCII digit.
pub open spec fn is_digit_code(code: u64) -> bool {
    0x30 <= code <= 0x39
}

/// All eight bytes of `v` are ASCII digits.
pub open spec fn all_digit_bytes(v: u64) -> bool {
    &&& is_digit_code(byte_at(v, 0))
    &&& is_digit_code(byte_at(v, 1))
    &&& is_digit_code(byte_at(v, 2))
    &&& is_digit_code(byte_at(v, 3))
    &&& is_digit_code(byte_at(v, 4))
    &&& is_digit_code(byte_at(v, 5))
    &&& is_digit_code(byte_at(v, 6))
    &&& is_digit_code(byte_at(v, 7))
}

/// The digit that byte `k` of `v` spells, as a number.
pub open spec fn digit_at(v: u64, k: u64) -> nat {
    (byte_at(v, k) - 0x30) as nat
}

/// The number that the eight digits of `v` spell, the least significant
/// byte first.
pub open spec fn eight_digits_value(v: u64) -> nat {
    digit_at(v, 0) * 10_000_000 + digit_at(v, 1) * 1_000_000 + digit_at(v, 2) * 100_000 + digit_at(
        v,
        3,
    ) * 10_000 + digit_at(v, 4) * 1_000 + digit_at(v, 5) * 100 + digit_at(v, 6) * 10 + digit_at(
        v,
        7,
    )
}

/// The length of the longest run of digits that `s` starts with.
pub open spec fn digit_run_len(s: Seq<u8>) -> nat
    decreases s.len(),
{
    if s.len() == 0 || !is_digit(s[0]) {
        0
    } else {
        1 + digit_run_len(s.skip(1))
    }
}

/// The number that a run of decimal digits spells.
pub open spec fn decimal_value(s: Seq<u8>) -> nat
    decreases s.len(),
{
    if s.len() == 0 {
        0
    } else {
        decimal_value(s.drop_last()) * 10 + (s.last() - ZERO) as nat
    }
}

/// The number that the leading digits of `s` spell; zero when `s` starts
/// with no digit.
pub open spec fn leading_decimal_value(s: Seq<u8>) -> nat {
    decimal_value(s.take(digit_run_len(s) as int))
}

/// Whether the eight bytes packed in `v` are all ASCII digits. The order in
/// which the bytes were packed does not matter.
pub fn is_8digits(v: u64) -> (r: bool)
    ensures
        r == all_digit_bytes(v),
{
    let a = v.wrapping_add(0x4646_4646_4646_4646);
    let b = v.wrapping_sub(0x3030_3030_3030_3030);
    let r = (a | b) & 0x8080_8080_8080_8080 == 0;
    proof {
        lemma_is_8digits(v, a, b);
    }
    r
}

/// The two carries reach a high bit exactly where a byte is no digit.
proof fn lemma_is_8digits(v: u64, a: u64, b: u64)
    by (bit_vector)
    requires
        a == if v + 0x4646_4646_4646_4646 > 0xffff_ffff_ffff_ffff {
            (v + 0x4646_4646_4646_4646 - 0x1_0000_0000_0000_0000) as u64
        } else {
            (v + 0x4646_4646_4646_4646) as u64
        },
        b == if v - 0x3030_3030_3030_3030 < 0 {
            (v - 0x3030_3030_3030_3030 + 0x1_0000_0000_0000_0000) as u64
        } else {
            (v - 0x3030_3030_3030_3030) as u64
        },
    ensures
        ((a | b) & 0x8080_8080_8080_8080 == 0) <==> (0x30 <= ((v >> 0u64) & 0xff) <= 0x39 && 0x30
            <= ((v >> 8u64) & 0xff) <= 0x39 && 0x30 <= ((v >> 16u64) & 0xff) <= 0x39 && 0x30 <= ((v
            >> 24u64) & 0xff) <= 0x39 && 0x30 <= ((v >> 32u64) & 0xff) <= 0x39 && 0x30 <= ((v
            >> 40u64) & 0xff) <= 0x39 && 0x30 <= ((v >> 48u64) & 0xff) <= 0x39 && 0x30 <= ((v
            >> 56u64) & 0xff) <= 0x39),
{
}

/// Taking `0x30` from each byte of eight digits leaves the digits, with no
/// borrow between bytes.
proof fn lemma_digit_bytes(v: u64, w: u64)
    by (bit_vector)
    requires
        0x30 <= ((v >> 0u64) & 0xff) <= 0x39,
        0x30 <= ((v >> 8u64) & 0xff) <= 0x39,
        0x30 <= ((v >> 16u64) & 0xff) <= 0x39,
        0x30 <= ((v >> 24u64) & 0xff) <= 0x39,
        0x30 <= ((v >> 32u64) & 0xff) <= 0x39,
        0x30 <= ((v >> 40u64) & 0xff) <= 0x39,
        0x30 <= ((v >> 48u64) & 0xff) <= 0x39,
        0x30 <= ((v >> 56u64) & 0xff) <= 0x39,
        w == (v - 0x3030_3030_3030_3030) as u64,
    ensures
        v >= 0x3030_3030_3030_3030,
        w <= 0x0909_0909_0909_0909,
        (w >> 8u64) <= 0x0009_0909_0909_0909,
        (w >> 0u64) & 0xff == ((v >> 0u64) & 0xff) - 0x30,
        (w >> 8u64) & 0xff == ((v >> 8u64) & 0xff) - 0x30,
        (w >> 16u64) & 0xff == ((v >> 16u64) & 0xff) - 0x30,
        (w >> 24u64) & 0xff == ((v >> 24u64) & 0xff) - 0x30,
        (w >> 32u64) & 0xff == ((v >> 32u64) & 0xff) - 0x30,
        (w >> 40u64) & 0xff == ((v >> 40u64) & 0xff) - 0x30,
        (w >> 48u64) & 0xff == ((v >> 48u64) & 0xff) - 0x30,
        (w >> 56u64) & 0xff == ((v >> 56u64) & 0xff) - 0x30,
{
}

/// Ten times the word plus the word shifted by a byte holds, in every
/// second byte, the number of two neighbouring digits.
proof fn lemma_digit_pairs(w: u64, x: u64)
    by (bit_vector)
    requires
        ((w >> 0u64) & 0xff) <= 9,
        ((w >> 8u64) & 0xff) <= 9,
        ((w >> 16u64) & 0xff) <= 9,
        ((w >> 24u64) & 0xff) <= 9,
        ((w >> 32u64) & 0xff) <= 9,
        ((w >> 40u64) & 0xff) <= 9,
        ((w >> 48u64) & 0xff) <= 9,
        ((w >> 56u64) & 0xff) <= 9,
        x == (w * 10 + (w >> 8u64)) as u64,
    ensures
        x & 0x0000_00ff_0000_00ff == (10 * ((w >> 0u64) & 0xff) + ((w >> 8u64) & 0xff)) + (10 * ((w
            >> 32u64) & 0xff) + ((w >> 40u64) & 0xff)) * 0x1_0000_0000,
        (x >> 16u64) & 0x0000_00ff_0000_00ff == (10 * ((w >> 16u64) & 0xff) + ((w >> 24u64) & 0xff))
            + (10 * ((w >> 48u64) & 0xff) + ((w >> 56u64) & 0xff)) * 0x1_0000_0000,
{
}

/// The upper half of a word is the word divided by two to the power 32.
proof fn lemma_high_half(sum: u64)
    by (bit_vector)
    ensures
        sum >> 32u64 == sum / 0x1_0000_0000,
{
}

/// The two multiplications weigh the four pairs by their powers of a
/// hundred and gather the sum in the upper half.
proof fn lemma_combine_pairs(
    first: int,
    second: int,
    third: int,
    fourth: int,
    v1: int,
    v2: int,
    sum: int,
)
    requires
        0 <= first <= 99,
        0 <= second <= 99,
        0 <= third <= 99,
        0 <= fourth <= 99,
        v1 == ((first + third * 0x1_0000_0000) * 0x000f_4240_0000_0064) % 0x1_0000_0000_0000_0000,
        v2 == ((second + fourth * 0x1_0000_0000) * 0x0000_2710_0000_0001) % 0x1_0000_0000_0000_0000,
        sum == if v1 + v2 > 0xffff_ffff_ffff_ffff {
            v1 + v2 - 0x1_0000_0000_0000_0000
        } else {
            v1 + v2
        },
    ensures
        sum / 0x1_0000_0000 == first * 1_000_000 + second * 10_000 + third * 100 + fourth,
{
    let r1 = first * 100 + (first * 1_000_000 + third * 100) * 0x1_0000_0000;
    lemma_fundamental_div_mod_converse(
        (first + third * 0x1_0000_0000) * 0x000f_4240_0000_0064,
        0x1_0000_0000_0000_0000,
        third * 1_000_000,
        r1,
    );
    let r2 = second + (second * 10_000 + fourth) * 0x1_0000_0000;
    lemma_fundamental_div_mod_converse(
        (second + fourth * 0x1_0000_0000) * 0x0000_2710_0000_0001,
        0x1_0000_0000_0000_0000,
        fourth * 10_000,
        r2,
    );
    lemma_fundamental_div_mod_converse(
        sum,
        0x1_0000_0000,
        first * 1_000_000 + second * 10_000 + third * 100 + fourth,
        first * 100 + second,
    );
}

/// The number that eight ASCII digits spell, packed in `v` with the first
/// digit in the least significant byte. Digits are combined pairwise, so
/// three multiplications do the work of eight.
pub fn parse_8digits(v: u64) -> (r: u64)
    requires
        all_digit_bytes(v),
    ensures
        r == eight_digits_value(v),
{
    let ghost w0 = (v - 0x3030_3030_3030_3030) as u64;
    proof {
        lemma_digit_bytes(v, w0);
    }
    let w = v - 0x3030_3030_3030_3030;
    let ghost x0 = (w * 10 + (w >> 8u64)) as u64;
    proof {
        lemma_digit_pairs(w, x0);
    }
    let x = (w * 10) + (w >> 8);
    let a = x & 0x0000_00ff_0000_00ff;
    let b = (x >> 16) & 0x0000_00ff_0000_00ff;
    let v1 = a.wrapping_mul(0x000f_4240_0000_0064);
    let v2 = b.wrapping_mul(0x0000_2710_0000_0001);
    let sum = v1.wrapping_add(v2);
    proof {
        let first = 10 * digit_at(v, 0) + digit_at(v, 1);
        let second = 10 * digit_at(v, 2) + digit_at(v, 3);
        let third = 10 * digit_at(v, 4) + digit_at(v, 5);
        let fourth = 10 * digit_at(v, 6) + digit_at(v, 7);
        lemma_combine_pairs(
            first as int,
            second as int,
            third as int,
            fourth as int,
            v1 as int,
            v2 as int,
            sum as int,
        );
        lemma_high_half(sum);
    }
    let high = sum >> 32;
    (high as u32) as u64
}

/// A word packed from eight bytes holds them in order.
proof fn lemma_pack(
    b0: u8,
    b1: u8,
    b2: u8,
    b3: u8,
    b4: u8,
    b5: u8,
    b6: u8,
    b7: u8,
    v: u64,
)
    by (bit_vector)
    requires
        v == (b0 as u64) | ((b1 as u64) << 8u64) | ((b2 as u64) << 16u64) | ((b3 as u64) << 24u64)
            | ((b4 as u64) << 32u64) | ((b5 as u64) << 40u64) | ((b6 as u64) << 48u64) | ((
        b7 as u64) << 56u64),
    ensures
        (v >> 0u64) & 0xff == b0 as u64,
        (v >> 8u64) & 0xff == b1 as u64,
        (v >> 16u64) & 0xff == b2 as u64,
        (v >> 24u64) & 0xff == b3 as u64,
        (v >> 32u64) & 0xff == b4 as u64,
        (v >> 40u64) & 0xff == b5 as u64,
        (v >> 48u64) & 0xff == b6 as u64,
        (v >> 56u64) & 0xff == b7 as u64,
{
}

/// Packs the eight bytes of `bytes` from `at` on into a word, the first
/// byte least significant.
pub fn load_le(bytes: &[u8], at: usize) -> (v: u64)
    requires
        at + 8 <= bytes@.len(),
    ensures
        forall|k: u64| k < 8 ==> #[trigger] byte_at(v, k) == bytes@[at + k],
{
    let b0 = bytes[at];
    let b1 = bytes[at + 1];
    let b2 = bytes[at + 2];
    let b3 = bytes[at + 3];
    let b4 = bytes[at + 4];
    let b5 = bytes[at + 5];
    let b6 = bytes[at + 6];
    let b7 = bytes[at + 7];
    let v = (b0 as u64) | ((b1 as u64) << 8) | ((b2 as u64) << 16) | ((b3 as u64) << 24) | ((
    b4 as u64) << 32) | ((b5 as u64) << 40) | ((b6 as u64) << 48) | ((b7 as u64) << 56);
    proof {
        lemma_pack(b0, b1, b2, b3, b4, b5, b6, b7, v);
    }
    v
}

/// A run whose first `n` bytes are digits, and which ends there or goes on
/// with something else, has a leading digit run of length `n`.
pub proof fn lemma_digit_run_len(s: Seq<u8>, n: nat)
    requires
        n <= s.len(),
        forall|j: int| 0 <= j < n ==> is_digit(#[trigger] s[j]),
        n == s.len() || !is_digit(s[n as int]),
    ensures
        digit_run_len(s) == n,
    decreases n,
{
    if n > 0 {
        let t = s.skip(1);
        lemma_digit_run_len(t, (n - 1) as nat);
    }
}

/// Appending one byte to a digit run multiplies its value by ten and adds
/// the digit.
pub proof fn lemma_decimal_value_step(s: Seq<u8>, i: int)
    requires
        0 <= i < s.len(),
    ensures
        decimal_value(s.take(i + 1)) == decimal_value(s.take(i)) * 10 + (s[i] - ZERO) as nat,
{
    assert(s.take(i + 1).drop_last() =~= s.take(i));
}

/// The number that the leading digits of `bytes[start..start + count]`
/// spell: digits are read until the first byte that is none, or until
/// `count` bytes were read. Eight bytes that are all digits are taken at
/// once. Zero when the window starts with no digit.
pub fn parse_digits(bytes: &[u8], start: usize, count: usize) -> (r: u32)
    requires
        start + count <= bytes@.len(),
        count <= 9,
    ensures
        r == leading_decimal_value(bytes@.subrange(start as int, start + count)),
{
    let ghost window = bytes@.subrange(start as int, start + count);
    let total = bytes.len();
    let mut d: u32 = 0;
    let mut i: usize = 0;
    let mut stopped = false;
    if count >= 8 {
        let v = load_le(bytes, start);
        if is_8digits(v) {
            proof {
                assert forall|j: int| 0 <= j < 8 implies is_digit(#[trigger] window[j]) by {
                    assert(byte_at(v, j as u64) == bytes@[start + j]);
                }
                lemma_decimal_value_step(window, 0);
                lemma_decimal_value_step(window, 1);
                lemma_decimal_value_step(window, 2);
                lemma_decimal_value_step(window, 3);
                lemma_decimal_value_step(window, 4);
                lemma_decimal_value_step(window, 5);
                lemma_decimal_value_step(window, 6);
                lemma_decimal_value_step(window, 7);
                assert(byte_at(v, 0) == window[0]);
                assert(byte_at(v, 1) == window[1]);
                assert(byte_at(v, 2) == window[2]);
                assert(byte_at(v, 3) == window[3]);
                assert(byte_at(v, 4) == window[4]);
                assert(byte_at(v, 5) == window[5]);
                assert(byte_at(v, 6) == window[6]);
                assert(byte_at(v, 7) == window[7]);
                reveal_with_fuel(pow10, 9);
            }
            d = parse_8digits(v) as u32;
            i = 8;
        }
    }
    while i < count && !stopped
        invariant
            i <= count <= 9,
            start + count <= bytes@.len() == total,
            window == bytes@.subrange(start as int, start + count),
            forall|j: int| 0 <= j < i ==> is_digit(#[trigger] window[j]),
            d == decimal_value(window.take(i as int)),
            d < 1_000_000_000,
            decimal_value(window.take(i as int)) < pow10(i as nat),
            stopped ==> i < count && !is_digit(window[i as int]),
        decreases count - i + if stopped { 0int } else { 1int },
    {
        let byte = bytes[start + i];
        assert(byte == window[i as int]);
        if ZERO <= byte && byte <= NINE {
            proof {
                lemma_decimal_value_step(window, i as int);
                lemma_pow10(i as nat);
            }
            d = d * 10 + (byte - ZERO) as u32;
            i += 1;
        } else {
            stopped = true;
        }
    }
    proof {
        lemma_digit_run_len(window, i as nat);
    }
    d
}

/// Ten to the power `n`.
pub open spec fn pow10(n: nat) -> nat
    decreases n,
{
    if n == 0 {
        1
    } else {
        10 * pow10((n - 1) as nat)
    }
}

/// Powers of ten up to the ninth fit in 32 bits.
proof fn lemma_pow10(n: nat)
    requires
        n <= 9,
    ensures
        pow10(n + 1) == 10 * pow10(n),
        pow10(n) <= 1_000_000_000,
        n < 9 ==> pow10(n + 1) <= 1_000_000_000,
    decreases n,
{
    reveal_with_fuel(pow10, 11);
}

} // verus!
