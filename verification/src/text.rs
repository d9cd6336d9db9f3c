//! Comparison and construction of text: byte and string equality, decimal
//! rendering of unsigned numbers, zero padding.

use vstd::prelude::*;
use vstd::string::StringExecFns;

verus! {

/// The character of the decimal digit `d`, for `0 <= d <= 9`.
pub open spec fn digit_char(d: int) -> char {
    ((0x30 + d) as u8) as char
}

/// The decimal numeral of `n`, most significant digit first, without
/// leading zeros (`0` is written `"0"`).
pub open spec fn decimal_chars(n: nat) -> Seq<char>
    decreases n,
{
    if n < 10 {
        seq![digit_char(n as int)]
    } else {
        decimal_chars(n / 10).push(digit_char((n % 10) as int))
    }
}

/// `count` copies of the character `c`.
pub open spec fn repeat_char(c: char, count: nat) -> Seq<char> {
    Seq::new(count, |i: int| c)
}

/// The decimal numeral of `n`, left-padded with zeros to at least `width`
/// characters.
pub open spec fn padded_decimal(n: nat, width: nat) -> Seq<char> {
    let digits = decimal_chars(n);
    if digits.len() >= width {
        digits
    } else {
        repeat_char('0', (width - digits.len()) as nat) + digits
    }
}

/// Whether two byte slices hold the same bytes.
pub fn bytes_eq(a: &[u8], b: &[u8]) -> (r: bool)
    ensures
        r == (a@ == b@),
{
    if a.len() != b.len() {
        return false;
    }
    let mut i: usize = 0;
    while i < a.len()
        invariant
            a.len() == b.len(),
            i <= a.len(),
            forall|j: int| 0 <= j < i ==> a@[j] == b@[j],
        decreases a.len() - i,
    {
        if a[i] != b[i] {
            return false;
        }
        i += 1;
    }
    assert(a@ =~= b@);
    true
}

/// Whether two strings hold the same characters.
pub fn str_eq(a: &str, b: &str) -> (r: bool)
    ensures
        r == (a@ == b@),
{
    let r = bytes_eq(a.as_bytes(), b.as_bytes());
    proof {
        vstd::utf8::encode_utf8_decode_utf8(a@);
        vstd::utf8::encode_utf8_decode_utf8(b@);
    }
    r
}

/// Calls `itoa::Buffer::format` on a fresh buffer and copies the text out.
/// The contract claims what the crate documents: the result is the decimal
/// numeral of `n`, without sign, padding or leading zeros.
#[verifier::external_body]
pub(crate) fn itoa_format(n: u64) -> (r: String)
    ensures
        r@ == decimal_chars(n as nat),
{
    itoa::Buffer::new().format(n).to_owned()
}

/// The decimal numeral of `n` as an owned string.
pub fn decimal_string(n: u64) -> (r: String)
    ensures
        r@ == decimal_chars(n as nat),
{
    itoa_format(n)
}

/// Appends `count` copies of the one character of `piece` to `out`.
pub fn push_repeated(out: &mut String, piece: &str, count: usize)
    requires
        piece@.len() == 1,
    ensures
        final(out)@ == old(out)@ + repeat_char(piece@[0], count as nat),
{
    let mut i: usize = 0;
    while i < count
        invariant
            i <= count,
            piece@.len() == 1,
            out@ == old(out)@ + repeat_char(piece@[0], i as nat),
        decreases count - i,
    {
        out.append(piece);
        i += 1;
    }
}

/// Appends the decimal numeral of `n`, left-padded with zeros to at least
/// `width` characters.
pub fn push_padded(out: &mut String, n: u64, width: usize)
    ensures
        final(out)@ == old(out)@ + padded_decimal(n as nat, width as nat),
{
    let digits = itoa_format(n);
    let len = digits.as_str().unicode_len();
    if len < width {
        proof {
            reveal_strlit("0");
        }
        push_repeated(out, "0", width - len);
    }
    out.append(digits.as_str());
}

} // verus!
