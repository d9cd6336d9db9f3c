//! Dates and timestamps: `YYYY-MM-DD`, optionally followed by a separator,
//! a time of day and a time zone.

use vstd::prelude::*;
use vstd::arithmetic::div_mod::lemma_fundamental_div_mod_converse;
use vstd::slice::slice_subrange;
use vstd::string::StringSliceAdditionalSpecFns;
use crate::ascii::{
    is_digit, is_sign, COLON, DOT, LOWER_T, LOWER_Z, MINUS, NINE, PLUS, SPACE, TAB, UPPER_T,
    UPPER_Z, ZERO,
};
use crate::digits::{
    decimal_value, digit_run_len, leading_decimal_value, lemma_digit_run_len, parse_digits, pow10,
};
use crate::integer::unsigned_part;

verus! {

/// A calendar date, as written: the fields are not checked against the
/// calendar.
#[derive(Debug, Clone, Copy, PartialEq, Eq)]
pub struct Date {
    pub year: i32,
    pub month: u8,
    pub day: u8,
}

/// A time of day, as written.
#[derive(Debug, Clone, Copy, PartialEq, Eq)]
pub struct Time {
    pub hour: u8,
    pub minute: u8,
    pub second: u8,
    pub microsecond: u32,
}

/// A time zone: UTC, or a fixed offset from it as whole days and seconds
/// of a day, the seconds from 0 to 86399.
#[derive(Debug, Clone, Copy, PartialEq, Eq)]
pub enum Zone {
    Utc,
    Offset { days: i32, seconds: i32 },
}

/// A date with a time of day and, where one is written, a time zone.
#[derive(Debug, Clone, Copy, PartialEq, Eq)]
pub struct DateTime {
    pub date: Date,
    pub time: Time,
    pub zone: Option<Zone>,
}

/// What a timestamp scalar spells.
#[derive(Debug, Clone, Copy, PartialEq, Eq)]
pub enum Timestamp {
    Date(Date),
    DateTime(DateTime),
}

/// The seconds of a day.
pub const SECS_IN_DAY: i32 = 86_400;

/// The `count` bytes of `s` from `from` on are digits.
pub open spec fn digits_at(s: Seq<u8>, from: int, count: int) -> bool {
    forall|j: int| from <= j < from + count ==> is_digit(#[trigger] s[j])
}

/// The number that the `count` bytes of `s` from `from` on spell.
pub open spec fn number_at(s: Seq<u8>, from: int, count: int) -> nat {
    decimal_value(s.subrange(from, from + count))
}

/// `b` separates a date from a time: `T`, `t`, a space or a tab.
pub open spec fn is_separator(b: u8) -> bool {
    b == UPPER_T || b == LOWER_T || b == SPACE || b == TAB
}

/// The text starts with `YYYY-MM-DD`: digits and hyphens at fixed places.
pub open spec fn date_prefix(s: Seq<u8>) -> bool {
    &&& s.len() >= 10
    &&& s[4] == MINUS
    &&& s[7] == MINUS
    &&& digits_at(s, 0, 4)
    &&& digits_at(s, 5, 2)
    &&& digits_at(s, 8, 2)
}

/// The date that a date prefix spells.
pub open spec fn date_of(s: Seq<u8>) -> Date {
    Date {
        year: number_at(s, 0, 4) as i32,
        month: number_at(s, 5, 2) as u8,
        day: number_at(s, 8, 2) as u8,
    }
}

/// The text looks like a timestamp: a date prefix that ends the text or is
/// followed at once by a separator.
pub open spec fn datetime_like(s: Seq<u8>) -> bool {
    date_prefix(s) && (s.len() == 10 || is_separator(s[10]))
}

/// The index of the first separator at or after `from`; the length of `s`
/// when there is none.
pub open spec fn first_separator(s: Seq<u8>, from: int) -> int
    decreases s.len() - from,
{
    if from >= s.len() {
        s.len() as int
    } else if is_separator(s[from]) {
        from
    } else {
        first_separator(s, from + 1)
    }
}

/// The index of the last byte at or before `p` and above `floor` that is no
/// space; `floor` when there is none.
pub open spec fn last_non_space(s: Seq<u8>, floor: int, p: int) -> int
    decreases p - floor,
{
    if p > floor && s[p] == SPACE {
        last_non_space(s, floor, p - 1)
    } else if p > floor {
        p
    } else {
        floor
    }
}

/// The byte at `i` opens a time zone when read after the separator at
/// `sep`: `Z`, `z` or `+` always, `-` where the last byte before it that
/// is no space is a digit of the time.
pub open spec fn is_zone_mark(s: Seq<u8>, sep: int, i: int) -> bool {
    s[i] == UPPER_Z || s[i] == LOWER_Z || s[i] == PLUS || (s[i] == MINUS && last_non_space(
        s,
        sep,
        i - 1,
    ) > sep && is_digit(s[last_non_space(s, sep, i - 1)]))
}

/// The index of the last zone mark at or before `upto` and after `sep`;
/// `sep` when there is none.
pub open spec fn last_zone_mark(s: Seq<u8>, sep: int, upto: int) -> int
    decreases upto - sep,
{
    if upto <= sep {
        sep
    } else if is_zone_mark(s, sep, upto) {
        upto
    } else {
        last_zone_mark(s, sep, upto - 1)
    }
}

/// Microseconds of a run of fraction digits: the first six count, fewer
/// are padded with zeros on the right.
pub open spec fn fraction_micros(f: Seq<u8>) -> nat {
    if f.len() >= 6 {
        decimal_value(f.take(6))
    } else {
        decimal_value(f) * pow10((6 - f.len()) as nat)
    }
}

/// The time of day that `t` spells: `HH:MM`, then optionally `:SS`, then
/// optionally a point and fraction digits, and nothing more.
pub open spec fn time_of(t: Seq<u8>) -> Option<Time> {
    if !(t.len() >= 5 && digits_at(t, 0, 2) && t[2] == COLON && digits_at(t, 3, 2)) {
        None
    } else {
        let hour = number_at(t, 0, 2) as u8;
        let minute = number_at(t, 3, 2) as u8;
        if t.len() == 5 {
            Some(Time { hour, minute, second: 0, microsecond: 0 })
        } else if !(t.len() >= 8 && t[5] == COLON && digits_at(t, 6, 2)) {
            None
        } else {
            let second = number_at(t, 6, 2) as u8;
            if t.len() == 8 {
                Some(Time { hour, minute, second, microsecond: 0 })
            } else if t[8] == DOT && digits_at(t, 9, t.len() - 9) {
                Some(Time { hour, minute, second, microsecond: fraction_micros(t.skip(9)) as u32 })
            } else {
                None
            }
        }
    }
}

/// Hours and minutes of an offset: `H`, `HH`, `H:MM`, `HH:MM` or `HHMM`.
pub open spec fn offset_fields(o: Seq<u8>) -> Option<(nat, nat)> {
    if (o.len() == 1 || o.len() == 2) && digits_at(o, 0, o.len() as int) {
        Some((decimal_value(o), 0nat))
    } else if o.len() == 4 && digits_at(o, 0, 4) {
        Some((number_at(o, 0, 2), number_at(o, 2, 2)))
    } else if o.len() == 4 && digits_at(o, 0, 1) && o[1] == COLON && digits_at(o, 2, 2) {
        Some((number_at(o, 0, 1), number_at(o, 2, 2)))
    } else if o.len() == 5 && digits_at(o, 0, 2) && o[2] == COLON && digits_at(o, 3, 2) {
        Some((number_at(o, 0, 2), number_at(o, 3, 2)))
    } else {
        None
    }
}

/// The offset of so many hours and minutes east (or, when `west` is set,
/// west) of UTC, as whole days and seconds of a day.
pub open spec fn offset_zone(west: bool, hours: nat, minutes: nat) -> Zone {
    let magnitude = hours * 3600 + minutes * 60;
    let total: int = if west {
        -magnitude
    } else {
        magnitude as int
    };
    Zone::Offset { days: (total / 86_400) as i32, seconds: (total % 86_400) as i32 }
}

/// The zone that `z` spells: `Z` alone, or a sign and an offset. A lower
/// case `z` is no zone.
pub open spec fn zone_of(z: Seq<u8>) -> Option<Zone> {
    if z.len() == 1 && z[0] == UPPER_Z {
        Some(Zone::Utc)
    } else if z.len() >= 1 && is_sign(z[0]) {
        match offset_fields(z.skip(1)) {
            Some((hours, minutes)) => Some(offset_zone(z[0] == MINUS, hours, minutes)),
            None => None,
        }
    } else {
        None
    }
}

/// What the text spells as a timestamp. A date prefix alone is a date.
/// Otherwise the time starts after the first separator at or after the
/// tenth byte; the zone starts at the last zone mark after the separator,
/// and the time ends before the spaces that precede the mark. `None` when
/// any part is malformed.
pub open spec fn spec_parse_datetime(s: Seq<u8>) -> Option<Timestamp> {
    if !date_prefix(s) {
        None
    } else if s.len() == 10 {
        Some(Timestamp::Date(date_of(s)))
    } else {
        let sep = first_separator(s, 10);
        if sep >= s.len() {
            None
        } else {
            let mark = last_zone_mark(s, sep, s.len() - 1);
            if mark > sep {
                let end = last_non_space(s, sep, mark - 1) + 1;
                match (time_of(s.subrange(sep + 1, end)), zone_of(s.skip(mark))) {
                    (Some(time), Some(zone)) => Some(
                        Timestamp::DateTime(DateTime { date: date_of(s), time, zone: Some(zone) }),
                    ),
                    _ => None,
                }
            } else {
                match time_of(s.skip(sep + 1)) {
                    Some(time) => Some(
                        Timestamp::DateTime(DateTime { date: date_of(s), time, zone: None }),
                    ),
                    None => None,
                }
            }
        }
    }
}

/// A run of digits spells a number below ten to the power of its length,
/// and is its own leading digit run.
pub proof fn lemma_all_digits(s: Seq<u8>)
    requires
        digits_at(s, 0, s.len() as int),
    ensures
        decimal_value(s) < pow10(s.len()),
        leading_decimal_value(s) == decimal_value(s),
    decreases s.len(),
{
    lemma_digit_run_len(s, s.len());
    assert(s.take(s.len() as int) =~= s);
    if s.len() > 0 {
        let t = s.drop_last();
        lemma_all_digits(t);
    }
}

/// Reads the number that `count` digits spell; `None` when one of the
/// bytes is no digit.
pub fn read_number(bytes: &[u8], from: usize, count: usize) -> (r: Option<u32>)
    requires
        from + count <= bytes@.len(),
        count <= 9,
    ensures
        r is Some <==> digits_at(bytes@, from as int, count as int),
        r matches Some(n) ==> n == number_at(bytes@, from as int, count as int) && n < pow10(
            count as nat,
        ),
{
    let total = bytes.len();
    let mut i: usize = 0;
    while i < count
        invariant
            i <= count,
            from + count <= bytes@.len() == total,
            digits_at(bytes@, from as int, i as int),
        decreases count - i,
    {
        let b = bytes[from + i];
        if !(ZERO <= b && b <= NINE) {
            return None;
        }
        i += 1;
    }
    let ghost window = bytes@.subrange(from as int, from + count);
    proof {
        assert forall|j: int| 0 <= j < window.len() implies is_digit(#[trigger] window[j]) by {
            assert(window[j] == bytes@[from + j]);
        }
        lemma_all_digits(window);
    }
    Some(parse_digits(bytes, from, count))
}

/// Whether `b` separates a date from a time.
fn is_sep(b: u8) -> (r: bool)
    ensures
        r == is_separator(b),
{
    b == UPPER_T || b == LOWER_T || b == SPACE || b == TAB
}

/// Whether the text looks like a timestamp: ten bytes of `YYYY-MM-DD`,
/// which end the text or are followed at once by a separator.
pub fn is_datetime(bytes: &[u8]) -> (r: bool)
    ensures
        r == datetime_like(bytes@),
{
    if bytes.len() < 10 {
        return false;
    }
    if !(bytes[4] == MINUS && bytes[7] == MINUS) {
        return false;
    }
    if read_number(bytes, 0, 4).is_none() || read_number(bytes, 5, 2).is_none() || read_number(
        bytes,
        8,
        2,
    ).is_none() {
        return false;
    }
    if bytes.len() == 10 {
        return true;
    }
    is_sep(bytes[10])
}

/// The first index at or after `from` that holds a separator is `p`.
pub proof fn lemma_first_separator(s: Seq<u8>, from: int, p: int)
    requires
        0 <= from <= p <= s.len(),
        forall|j: int| from <= j < p ==> !is_separator(#[trigger] s[j]),
        p < s.len() ==> is_separator(s[p]),
    ensures
        first_separator(s, from) == p,
    decreases p - from,
{
    if from < p {
        lemma_first_separator(s, from + 1, p);
    }
}

/// The index of the first separator at or after the tenth byte; the length
/// of the text when there is none.
pub fn find_separator(bytes: &[u8]) -> (r: usize)
    requires
        bytes@.len() >= 10,
    ensures
        r == first_separator(bytes@, 10),
        10 <= r <= bytes@.len(),
{
    let total = bytes.len();
    let tail = slice_subrange(bytes, 10, total);
    let letter_or_space = memchr::memchr3(UPPER_T, LOWER_T, SPACE, tail);
    let tab = memchr::memchr(TAB, tail);
    let found: usize = match (letter_or_space, tab) {
        (Some(a), Some(b)) => if a < b {
            a
        } else {
            b
        },
        (Some(a), None) => a,
        (None, Some(b)) => b,
        (None, None) => tail.len(),
    };
    proof {
        assert forall|j: int| 10 <= j < 10 + found implies !is_separator(#[trigger] bytes@[j]) by {
            assert(tail@[j - 10] == bytes@[j]);
        }
        if found < tail@.len() {
            assert(tail@[found as int] == bytes@[10 + found]);
        }
        lemma_first_separator(bytes@, 10, 10 + found);
    }
    found + 10
}

/// The index of the last byte at or before `p` and above `floor` that is
/// no space; `floor` when there is none.
pub fn skip_spaces_back(bytes: &[u8], floor: usize, p: usize) -> (r: usize)
    requires
        floor <= p < bytes@.len(),
    ensures
        r == last_non_space(bytes@, floor as int, p as int),
        floor <= r <= p,
{
    let mut at = p;
    while at > floor && bytes[at] == SPACE
        invariant
            floor <= at <= p < bytes@.len(),
            last_non_space(bytes@, floor as int, p as int) == last_non_space(
                bytes@,
                floor as int,
                at as int,
            ),
        decreases at - floor,
    {
        at -= 1;
    }
    at
}

/// Whether the byte at `i` opens a time zone, read after the separator at
/// `sep`.
pub fn zone_mark_at(bytes: &[u8], sep: usize, i: usize) -> (r: bool)
    requires
        sep < i < bytes@.len(),
    ensures
        r == is_zone_mark(bytes@, sep as int, i as int),
{
    let b = bytes[i];
    if b == UPPER_Z || b == LOWER_Z || b == PLUS {
        true
    } else if b == MINUS {
        let before = skip_spaces_back(bytes, sep, i - 1);
        before > sep && ZERO <= bytes[before] && bytes[before] <= NINE
    } else {
        false
    }
}

/// The index of the last zone mark after the separator at `sep`; `sep`
/// when there is none.
pub fn find_zone_mark(bytes: &[u8], sep: usize) -> (r: usize)
    requires
        sep < bytes@.len(),
    ensures
        r == last_zone_mark(bytes@, sep as int, bytes@.len() - 1),
        sep <= r < bytes@.len(),
{
    let mut i = bytes.len() - 1;
    while i > sep
        invariant
            sep <= i < bytes@.len(),
            last_zone_mark(bytes@, sep as int, bytes@.len() - 1) == last_zone_mark(
                bytes@,
                sep as int,
                i as int,
            ),
        decreases i - sep,
    {
        if zone_mark_at(bytes, sep, i) {
            return i;
        }
        i -= 1;
    }
    i
}

/// The powers of ten up to a million.
proof fn lemma_pow10_values()
    ensures
        pow10(0) == 1,
        pow10(1) == 10,
        pow10(2) == 100,
        pow10(3) == 1_000,
        pow10(4) == 10_000,
        pow10(5) == 100_000,
        pow10(6) == 1_000_000,
{
}

/// Microseconds of a run of fraction digits; `None` when a byte is no
/// digit.
pub fn parse_fraction(f: &[u8]) -> (r: Option<u32>)
    ensures
        r is Some <==> digits_at(f@, 0, f@.len() as int),
        r matches Some(n) ==> n == fraction_micros(f@) && n < 1_000_000,
{
    let total = f.len();
    let mut i: usize = 0;
    while i < total
        invariant
            i <= total == f@.len(),
            digits_at(f@, 0, i as int),
        decreases total - i,
    {
        if !(ZERO <= f[i] && f[i] <= NINE) {
            return None;
        }
        i += 1;
    }
    proof {
        lemma_pow10_values();
    }
    if total >= 6 {
        let ghost head = f@.subrange(0, 6);
        proof {
            lemma_all_digits(head);
        }
        Some(parse_digits(f, 0, 6))
    } else {
        proof {
            assert(f@.subrange(0, total as int) =~= f@);
            lemma_all_digits(f@);
        }
        let value = parse_digits(f, 0, total);
        let scale: u32 = if total == 0 {
            1_000_000
        } else if total == 1 {
            100_000
        } else if total == 2 {
            10_000
        } else if total == 3 {
            1_000
        } else if total == 4 {
            100
        } else {
            10
        };
        assert(value * scale < 1_000_000) by (nonlinear_arith)
            requires
                total < 6,
                value < pow10(total as nat),
                scale == pow10((6 - total) as nat),
                pow10(total as nat) * pow10((6 - total) as nat) == 1_000_000,
                scale > 0,
        ;
        Some(value * scale)
    }
}

/// The time of day that `t` spells: `HH:MM`, then optionally `:SS`, then
/// optionally a point and fraction digits. `None` when a digit or a colon
/// is missing or anything else follows.
pub fn parse_time(t: &[u8]) -> (r: Option<Time>)
    ensures
        r == time_of(t@),
{
    let total = t.len();
    if total < 5 {
        return None;
    }
    let hour = match read_number(t, 0, 2) {
        Some(n) => n as u8,
        None => {
            return None;
        },
    };
    if t[2] != COLON {
        return None;
    }
    let minute = match read_number(t, 3, 2) {
        Some(n) => n as u8,
        None => {
            return None;
        },
    };
    if total == 5 {
        return Some(Time { hour, minute, second: 0, microsecond: 0 });
    }
    if total < 8 || t[5] != COLON {
        return None;
    }
    let second = match read_number(t, 6, 2) {
        Some(n) => n as u8,
        None => {
            return None;
        },
    };
    if total == 8 {
        return Some(Time { hour, minute, second, microsecond: 0 });
    }
    if t[8] != DOT {
        return None;
    }
    let fraction = slice_subrange(t, 9, total);
    proof {
        if digits_at(fraction@, 0, fraction@.len() as int) {
            assert forall|j: int| 9 <= j < 9 + (t@.len() - 9) implies is_digit(
                #[trigger] t@[j],
            ) by {
                assert(t@[j] == fraction@[j - 9]);
            }
        }
    }
    match parse_fraction(fraction) {
        Some(microsecond) => Some(Time { hour, minute, second, microsecond }),
        None => None,
    }
}

/// What `atoi::atoi::<i32>` yields: an optional sign, then the leading
/// digits; `None` when the text starts with neither a sign nor a digit, or
/// when the number does not fit. A sign alone counts as zero.
pub open spec fn atoi_spec(text: Seq<u8>) -> Option<i32> {
    let signed = text.len() > 0 && is_sign(text[0]);
    let digits = unsigned_part(text);
    let magnitude = leading_decimal_value(digits);
    let value: int = if signed && text[0] == MINUS {
        -magnitude
    } else {
        magnitude as int
    };
    if !signed && digit_run_len(digits) == 0 {
        None
    } else if i32::MIN <= value <= i32::MAX {
        Some(value as i32)
    } else {
        None
    }
}

/// Calls `atoi::atoi::<i32>`. The contract states the crate's parsing rule
/// in full: see [`atoi_spec`].
#[verifier::external_body]
fn atoi_i32(text: &[u8]) -> (r: Option<i32>)
    ensures
        r == atoi_spec(text@),
{
    atoi::atoi::<i32>(text)
}

/// Reads one or two digits as a number; `None` for anything else.
fn read_short_number(text: &[u8]) -> (r: Option<u32>)
    ensures
        r is Some <==> (text@.len() == 1 || text@.len() == 2) && digits_at(
            text@,
            0,
            text@.len() as int,
        ),
        r matches Some(n) ==> n == decimal_value(text@) && n <= 99,
{
    let total = text.len();
    if total == 0 || total > 2 {
        return None;
    }
    if read_number(text, 0, total).is_none() {
        return None;
    }
    proof {
        lemma_pow10_values();
        lemma_all_digits(text@);
    }
    match atoi_i32(text) {
        Some(n) => Some(n as u32),
        None => None,
    }
}

/// Hours and minutes of an offset: `H`, `HH`, `H:MM`, `HH:MM` or `HHMM`.
pub fn parse_offset(o: &[u8]) -> (r: Option<(u32, u32)>)
    ensures
        match offset_fields(o@) {
            Some((hours, minutes)) => r == Some((hours as u32, minutes as u32)) && hours <= 99
                && minutes <= 99,
            None => r is None,
        },
{
    let total = o.len();
    proof {
        lemma_pow10_values();
    }
    match memchr::memchr(COLON, o) {
        Some(colon) => {
            if !(colon == 1 || colon == 2) || total != colon + 3 {
                return None;
            }
            let head = slice_subrange(o, 0, colon);
            proof {
                assert forall|j: int| 0 <= j < head@.len() implies head@[j] == o@[j] by {}
            }
            let hours = match read_short_number(head) {
                Some(n) => n,
                None => {
                    return None;
                },
            };
            match read_number(o, colon + 1, 2) {
                Some(minutes) => Some((hours, minutes)),
                None => None,
            }
        },
        None => {
            if total <= 2 {
                match read_short_number(o) {
                    Some(hours) => Some((hours, 0)),
                    None => None,
                }
            } else if total == 4 {
                let hours = match read_number(o, 0, 2) {
                    Some(n) => n,
                    None => {
                        return None;
                    },
                };
                match read_number(o, 2, 2) {
                    Some(minutes) => Some((hours, minutes)),
                    None => None,
                }
            } else {
                None
            }
        },
    }
}

/// The zone of an offset of so many hours and minutes, as whole days and
/// seconds of a day.
pub fn make_offset(west: bool, hours: u32, minutes: u32) -> (r: Zone)
    requires
        hours <= 99,
        minutes <= 99,
    ensures
        r == offset_zone(west, hours as nat, minutes as nat),
{
    let magnitude: i32 = (hours * 3600 + minutes * 60) as i32;
    let whole = magnitude / SECS_IN_DAY;
    let rest = magnitude % SECS_IN_DAY;
    if !west {
        Zone::Offset { days: whole, seconds: rest }
    } else if rest == 0 {
        Zone::Offset { days: -whole, seconds: 0 }
    } else {
        proof {
            lemma_fundamental_div_mod_converse(
                -(magnitude as int),
                86_400,
                -(whole as int) - 1,
                86_400 - rest,
            );
        }
        Zone::Offset { days: -whole - 1, seconds: SECS_IN_DAY - rest }
    }
}

/// The zone that `z` spells: `Z` alone, or a sign and an offset.
pub fn parse_zone(z: &[u8]) -> (r: Option<Zone>)
    ensures
        r == zone_of(z@),
{
    let total = z.len();
    if total == 0 {
        return None;
    }
    let first = z[0];
    if first == UPPER_Z {
        if total == 1 {
            Some(Zone::Utc)
        } else {
            None
        }
    } else if first == PLUS || first == MINUS {
        let offset = slice_subrange(z, 1, total);
        match parse_offset(offset) {
            Some((hours, minutes)) => Some(make_offset(first == MINUS, hours, minutes)),
            None => None,
        }
    } else {
        None
    }
}

/// Reads the date of a date prefix; `None` when the text does not start
/// with one.
pub fn parse_date(bytes: &[u8]) -> (r: Option<Date>)
    ensures
        r is Some <==> date_prefix(bytes@),
        r matches Some(d) ==> d == date_of(bytes@),
{
    if bytes.len() < 10 {
        return None;
    }
    if !(bytes[4] == MINUS && bytes[7] == MINUS) {
        return None;
    }
    let day = match read_number(bytes, 8, 2) {
        Some(n) => n as u8,
        None => {
            return None;
        },
    };
    let month = match read_number(bytes, 5, 2) {
        Some(n) => n as u8,
        None => {
            return None;
        },
    };
    let year = match read_number(bytes, 0, 4) {
        Some(n) => n as i32,
        None => {
            return None;
        },
    };
    Some(Date { year, month, day })
}

/// Parses a timestamp. Ten bytes of `YYYY-MM-DD` alone are a date.
/// Otherwise a separator must follow at or after the tenth byte, then
/// `HH:MM`, optionally `:SS` and a fraction of up to microseconds, and
/// optionally a zone: `Z`, or a sign and an offset, found by scanning back
/// from the end. Spaces between time and zone are dropped. Text with any
/// malformed part is declined with `None`, so that the caller keeps it as a
/// string.
pub fn parse_datetime(s: &str) -> (r: Option<Timestamp>)
    ensures
        r == spec_parse_datetime(s.spec_bytes()),
{
    let bytes = s.as_bytes();
    let date = match parse_date(bytes) {
        Some(d) => d,
        None => {
            return None;
        },
    };
    let total = bytes.len();
    if total == 10 {
        return Some(Timestamp::Date(date));
    }
    let sep = find_separator(bytes);
    if sep >= total {
        return None;
    }
    let mark = find_zone_mark(bytes, sep);
    if mark > sep {
        let end = skip_spaces_back(bytes, sep, mark - 1) + 1;
        let time_text = slice_subrange(bytes, sep + 1, end);
        let zone_text = slice_subrange(bytes, mark, total);
        proof {
            assert(zone_text@ =~= bytes@.skip(mark as int));
        }
        match (parse_time(time_text), parse_zone(zone_text)) {
            (Some(time), Some(zone)) => Some(
                Timestamp::DateTime(DateTime { date, time, zone: Some(zone) }),
            ),
            _ => None,
        }
    } else {
        let time_text = slice_subrange(bytes, sep + 1, total);
        proof {
            assert(time_text@ =~= bytes@.skip(sep + 1));
        }
        match parse_time(time_text) {
            Some(time) => Some(Timestamp::DateTime(DateTime { date, time, zone: None })),
            None => None,
        }
    }
}

} // verus!
