//! Laws of timestamps: what is rendered reads back.

use vstd::prelude::*;
use vstd::utf8::{encode_utf8, is_ascii_chars, is_ascii_chars_encode_utf8};
use crate::ascii::{is_digit, COLON, DOT, MINUS, PLUS, UPPER_T, UPPER_Z, ZERO};
use crate::datetime::{
    date_of, date_prefix, digits_at, first_separator, fraction_micros, is_zone_mark,
    last_non_space, last_zone_mark, number_at, spec_parse_datetime, time_of, zone_of, Date,
    DateTime, Time, Timestamp, Zone,
};
use crate::digits::{decimal_value, pow10};
use crate::dump::{clock_text, date_text, datetime_text, fraction_text, trim_zeros, zone_text};
use crate::host::{HostDateTime, HostZone};
use crate::integer::digits_value;
use crate::laws::{as_bytes, lemma_decimal_numeral};
use crate::text::{decimal_chars, padded_decimal};

verus! {

/// A run of decimal digits spells the same number in either reading.
pub proof fn lemma_decimal_value_of_digits(s: Seq<u8>)
    requires
        forall|i: int| 0 <= i < s.len() ==> is_digit(#[trigger] s[i]),
    ensures
        decimal_value(s) == digits_value(s, 10),
    decreases s.len(),
{
    if s.len() > 0 {
        let t = s.drop_last();
        lemma_decimal_value_of_digits(t);
    }
}

/// Zeros in front of a run of digits do not change the number.
pub proof fn lemma_leading_zeros(count: nat, digits: Seq<u8>)
    ensures
        decimal_value(Seq::new(count, |i: int| ZERO) + digits) == decimal_value(digits),
    decreases digits.len(), count,
{
    let zeros = Seq::new(count, |i: int| ZERO);
    let all = zeros + digits;
    if digits.len() > 0 {
        assert(all.drop_last() =~= zeros + digits.drop_last());
        lemma_leading_zeros(count, digits.drop_last());
    } else if count > 0 {
        let fewer = Seq::new((count - 1) as nat, |i: int| ZERO);
        assert(all.drop_last() =~= fewer + digits);
        lemma_leading_zeros((count - 1) as nat, digits);
    }
}

/// A number below ten to the power `width` has at most `width` digits.
pub proof fn lemma_decimal_width(n: nat, width: nat)
    requires
        n < pow10(width),
        width >= 1,
    ensures
        decimal_chars(n).len() <= width,
    decreases n,
{
    if n >= 10 {
        lemma_decimal_width(n / 10, (width - 1) as nat);
    }
}

/// Padded to `width`, a number below ten to the power `width` is written
/// with exactly `width` digits, which spell it.
pub proof fn lemma_padded_numeral(n: nat, width: nat)
    requires
        n < pow10(width),
        width >= 1,
    ensures
        padded_decimal(n, width).len() == width,
        is_ascii_chars(padded_decimal(n, width)),
        forall|i: int|
            0 <= i < width ==> is_digit(#[trigger] as_bytes(padded_decimal(n, width))[i]),
        decimal_value(as_bytes(padded_decimal(n, width))) == n,
{
    let digits = decimal_chars(n);
    let padded = padded_decimal(n, width);
    lemma_decimal_numeral(n);
    lemma_decimal_width(n, width);
    let count = (width - digits.len()) as nat;
    assert(as_bytes(padded) =~= Seq::new(count, |i: int| ZERO) + as_bytes(digits));
    lemma_leading_zeros(count, as_bytes(digits));
    lemma_decimal_value_of_digits(as_bytes(digits));
    assert forall|i: int| 0 <= i < width implies is_digit(#[trigger] as_bytes(padded)[i]) by {
        if i >= count {
            assert(as_bytes(padded)[i] == as_bytes(digits)[i - count]);
        }
    }
    assert forall|i: int| 0 <= i < padded.len() implies '\0' <= #[trigger] padded[i]
        <= '\u{7f}' by {}
}

/// Trimming keeps a prefix of the digits, at least `min` long where there
/// are that many, and drops only zeros.
pub proof fn lemma_trim_zeros(digits: Seq<char>, min: nat)
    requires
        digits.len() >= min,
    ensures
        min <= trim_zeros(digits, min).len() <= digits.len(),
        trim_zeros(digits, min) == digits.take(trim_zeros(digits, min).len() as int),
        forall|i: int|
            trim_zeros(digits, min).len() <= i < digits.len() ==> #[trigger] digits[i] == '0',
    decreases digits.len(),
{
    if digits.len() > min && digits.last() == '0' {
        let shorter = digits.drop_last();
        lemma_trim_zeros(shorter, min);
        let kept = trim_zeros(shorter, min).len() as int;
        assert forall|i: int| kept <= i < digits.len() implies #[trigger] digits[i] == '0' by {
            if i < shorter.len() {
                assert(shorter[i] == digits[i]);
            }
        }
    }
}

/// Trimming stops at the first digit from the right that is no zero, or
/// at the shortest length allowed.
pub proof fn lemma_trim_zeros_stops(digits: Seq<char>, min: nat)
    ensures
        trim_zeros(digits, min).len() > min ==> trim_zeros(digits, min).last() != '0',
    decreases digits.len(),
{
    if digits.len() > min && digits.last() == '0' {
        lemma_trim_zeros_stops(digits.drop_last(), min);
    }
}

/// The fraction of a second is written with as few digits as spell it, but
/// with at least one for UTC and at least two otherwise, and never with
/// more than six.
pub proof fn law_fraction_is_trimmed(microsecond: nat, utc: bool)
    requires
        0 < microsecond < 1_000_000,
    ensures
        ({
            let min: nat = if utc {
                1
            } else {
                2
            };
            let digits = trim_zeros(padded_decimal(microsecond, 6), min);
            &&& fraction_text(microsecond, utc) == "."@ + digits
            &&& min <= digits.len() <= 6
            &&& digits.len() > min ==> digits.last() != '0'
        }),
{
    reveal_with_fuel(pow10, 7);
    let min: nat = if utc {
        1
    } else {
        2
    };
    lemma_padded_numeral(microsecond, 6);
    lemma_trim_zeros(padded_decimal(microsecond, 6), min);
    lemma_trim_zeros_stops(padded_decimal(microsecond, 6), min);
}

/// Digits followed by zeros spell the digits times a power of ten.
pub proof fn lemma_trailing_zeros(s: Seq<u8>, kept: int)
    requires
        0 <= kept <= s.len(),
        forall|i: int| kept <= i < s.len() ==> #[trigger] s[i] == ZERO,
    ensures
        decimal_value(s) == decimal_value(s.take(kept)) * pow10((s.len() - kept) as nat),
    decreases s.len() - kept,
{
    if kept == s.len() {
        assert(s.take(kept) =~= s);
        assert(decimal_value(s) * 1 == decimal_value(s));
    } else {
        let t = s.drop_last();
        assert(t.take(kept) =~= s.take(kept));
        lemma_trailing_zeros(t, kept);
        let head = decimal_value(s.take(kept));
        let power = pow10((t.len() - kept) as nat);
        assert(head * power * 10 == head * (10 * power)) by (nonlinear_arith);
        assert(decimal_value(s) == head * pow10((s.len() - kept) as nat));
    }
}

/// The date reads back: its text is `YYYY-MM-DD`, ten bytes that spell the
/// year, the month and the day.
pub proof fn lemma_date_reads_back(d: Date)
    requires
        0 <= d.year <= 9999,
        d.month <= 99,
        d.day <= 99,
    ensures
        as_bytes(date_text(d)).len() == 10,
        date_prefix(as_bytes(date_text(d))),
        date_of(as_bytes(date_text(d))) == d,
        is_ascii_chars(date_text(d)),
{
    reveal_with_fuel(pow10, 5);
    reveal_strlit("-");
    let year = padded_decimal(d.year as nat, 4);
    let month = padded_decimal(d.month as nat, 2);
    let day = padded_decimal(d.day as nat, 2);
    lemma_padded_numeral(d.year as nat, 4);
    lemma_padded_numeral(d.month as nat, 2);
    lemma_padded_numeral(d.day as nat, 2);
    let text = date_text(d);
    assert forall|i: int| 0 <= i < text.len() implies '\0' <= #[trigger] text[i]
        <= '\u{7f}' by {}
    let bytes = as_bytes(text);
    assert(bytes.subrange(0, 4) =~= as_bytes(year));
    assert(bytes.subrange(5, 7) =~= as_bytes(month));
    assert(bytes.subrange(8, 10) =~= as_bytes(day));
    assert(bytes[4] == MINUS && bytes[7] == MINUS);
    assert forall|j: int| 0 <= j < 4 implies is_digit(#[trigger] bytes[j]) by {
        assert(bytes[j] == as_bytes(year)[j]);
    }
    assert forall|j: int| 5 <= j < 7 implies is_digit(#[trigger] bytes[j]) by {
        assert(bytes[j] == as_bytes(month)[j - 5]);
    }
    assert forall|j: int| 8 <= j < 10 implies is_digit(#[trigger] bytes[j]) by {
        assert(bytes[j] == as_bytes(day)[j - 8]);
    }
}

/// A date reads back from its text: for a year of at most four digits and
/// a month and a day of at most two, parsing `YYYY-MM-DD` as rendered gives
/// the date.
pub proof fn law_date_round_trip(d: Date)
    requires
        0 <= d.year <= 9999,
        d.month <= 99,
        d.day <= 99,
    ensures
        spec_parse_datetime(encode_utf8(date_text(d))) == Some(Timestamp::Date(d)),
{
    lemma_date_reads_back(d);
    is_ascii_chars_encode_utf8(date_text(d));
    assert(encode_utf8(date_text(d)) =~= as_bytes(date_text(d)));
}

/// `b` may stand in a time of day: a digit, a colon or a point.
pub open spec fn is_time_byte(b: u8) -> bool {
    is_digit(b) || b == COLON || b == DOT
}

/// The clock reads back: its text is `HH:MM:SS`, eight bytes that spell the
/// hour, the minute and the second.
pub proof fn lemma_clock_reads_back(t: Time)
    requires
        t.hour <= 99,
        t.minute <= 99,
        t.second <= 99,
    ensures
        ({
            let text = as_bytes(clock_text(t));
            &&& text.len() == 8
            &&& digits_at(text, 0, 2)
            &&& text[2] == COLON
            &&& digits_at(text, 3, 2)
            &&& text[5] == COLON
            &&& digits_at(text, 6, 2)
            &&& number_at(text, 0, 2) == t.hour
            &&& number_at(text, 3, 2) == t.minute
            &&& number_at(text, 6, 2) == t.second
        }),
        is_ascii_chars(clock_text(t)),
{
    reveal_with_fuel(pow10, 3);
    reveal_strlit(":");
    let hour = padded_decimal(t.hour as nat, 2);
    let minute = padded_decimal(t.minute as nat, 2);
    let second = padded_decimal(t.second as nat, 2);
    lemma_padded_numeral(t.hour as nat, 2);
    lemma_padded_numeral(t.minute as nat, 2);
    lemma_padded_numeral(t.second as nat, 2);
    let chars = clock_text(t);
    let text = as_bytes(chars);
    assert(text.subrange(0, 2) =~= as_bytes(hour));
    assert(text.subrange(3, 5) =~= as_bytes(minute));
    assert(text.subrange(6, 8) =~= as_bytes(second));
    assert forall|j: int| 0 <= j < 2 implies is_digit(#[trigger] text[j]) by {
        assert(text[j] == as_bytes(hour)[j]);
    }
    assert forall|j: int| 3 <= j < 5 implies is_digit(#[trigger] text[j]) by {
        assert(text[j] == as_bytes(minute)[j - 3]);
    }
    assert forall|j: int| 6 <= j < 8 implies is_digit(#[trigger] text[j]) by {
        assert(text[j] == as_bytes(second)[j - 6]);
    }
    assert forall|i: int| 0 <= i < chars.len() implies '\0' <= #[trigger] chars[i]
        <= '\u{7f}' by {}
}

/// The fraction of a second reads back: its text is a point and between
/// one and six digits, which spell the microseconds.
pub proof fn lemma_fraction_reads_back(microsecond: nat, utc: bool)
    requires
        0 < microsecond < 1_000_000,
    ensures
        ({
            let text = as_bytes(fraction_text(microsecond, utc));
            &&& 2 <= text.len() <= 7
            &&& text[0] == DOT
            &&& digits_at(text, 1, text.len() - 1)
            &&& fraction_micros(text.skip(1)) == microsecond
        }),
        is_ascii_chars(fraction_text(microsecond, utc)),
{
    reveal_with_fuel(pow10, 7);
    reveal_strlit(".");
    let min: nat = if utc {
        1
    } else {
        2
    };
    let full = padded_decimal(microsecond, 6);
    lemma_padded_numeral(microsecond, 6);
    lemma_trim_zeros(full, min);
    let kept = trim_zeros(full, min);
    let count = kept.len() as int;
    let text = as_bytes(fraction_text(microsecond, utc));
    assert(text =~= seq![DOT] + as_bytes(kept));
    assert(text.skip(1) =~= as_bytes(kept));
    assert(as_bytes(kept) =~= as_bytes(full).take(count));
    lemma_trailing_zeros(as_bytes(full), count);
    assert forall|j: int| 1 <= j < 1 + (text.len() - 1) implies is_digit(#[trigger] text[j]) by {
        assert(text[j] == as_bytes(full)[j - 1]);
    }
    if count == 6 {
        assert(as_bytes(kept).take(6) =~= as_bytes(kept));
        assert(as_bytes(full).take(6) =~= as_bytes(full));
    }
    assert(decimal_value(as_bytes(full)) == microsecond);
    assert(as_bytes(full).len() == 6);
    assert(fraction_micros(as_bytes(kept)) == microsecond);
    assert forall|i: int| 0 <= i < 1 + count implies '\0' <= #[trigger] fraction_text(
        microsecond,
        utc,
    )[i] <= '\u{7f}' by {}
}

/// The time of day reads back from the clock followed by the fraction.
pub proof fn lemma_time_reads_back(t: Time, utc: bool)
    requires
        t.hour <= 99,
        t.minute <= 99,
        t.second <= 99,
        t.microsecond < 1_000_000,
    ensures
        time_of(as_bytes(clock_text(t) + fraction_text(t.microsecond as nat, utc))) == Some(t),
        as_bytes(clock_text(t) + fraction_text(t.microsecond as nat, utc)).len() >= 8,
        forall|j: int|
            0 <= j < as_bytes(clock_text(t) + fraction_text(t.microsecond as nat, utc)).len()
                ==> is_time_byte(
                #[trigger] as_bytes(clock_text(t) + fraction_text(t.microsecond as nat, utc))[j],
            ),
        is_digit(as_bytes(clock_text(t) + fraction_text(t.microsecond as nat, utc)).last()),
        is_ascii_chars(clock_text(t) + fraction_text(t.microsecond as nat, utc)),
{
    let clock = as_bytes(clock_text(t));
    let fraction = as_bytes(fraction_text(t.microsecond as nat, utc));
    let chars = clock_text(t) + fraction_text(t.microsecond as nat, utc);
    let text = as_bytes(chars);
    lemma_clock_reads_back(t);
    assert(text.subrange(0, 2) =~= clock.subrange(0, 2));
    assert(text.subrange(3, 5) =~= clock.subrange(3, 5));
    assert(text.subrange(6, 8) =~= clock.subrange(6, 8));
    assert forall|j: int| 0 <= j < 8 implies text[j] == clock[j] by {}
    if t.microsecond != 0 {
        lemma_fraction_reads_back(t.microsecond as nat, utc);
        assert(text.skip(9) =~= fraction.skip(1));
        assert forall|j: int| 9 <= j < 9 + (text.len() - 9) implies is_digit(
            #[trigger] text[j],
        ) by {
            assert(text[j] == fraction[j - 8]);
        }
        assert forall|i: int| 0 <= i < chars.len() implies '\0' <= #[trigger] chars[i]
        <= '\u{7f}' by {}
    }
}

/// The whole seconds of a fixed offset.
pub open spec fn offset_seconds(zone: HostZone) -> int {
    match zone {
        HostZone::Offset { days, seconds } => days * 86_400 + seconds,
        _ => 0,
    }
}

/// The zone as it reads back: none for a naive datetime, UTC for UTC, and
/// a fixed offset as whole days and seconds of a day.
pub open spec fn zone_read_back(zone: HostZone) -> Option<Zone> {
    match zone {
        HostZone::Utc => Some(Zone::Utc),
        HostZone::Offset { .. } => Some(
            Zone::Offset {
                days: (offset_seconds(zone) / 86_400) as i32,
                seconds: (offset_seconds(zone) % 86_400) as i32,
            },
        ),
        _ => None,
    }
}

/// The offset reads back: its text is a sign and `HH:MM`, six bytes that
/// spell the offset.
pub proof fn lemma_offset_reads_back(zone: HostZone)
    requires
        zone is Offset,
        -360_000 < offset_seconds(zone) < 360_000,
        offset_seconds(zone) % 60 == 0,
    ensures
        ({
            let text = as_bytes(zone_text(zone));
            &&& text.len() == 6
            &&& text[0] == (if offset_seconds(zone) < 0 {
                MINUS
            } else {
                PLUS
            })
            &&& forall|j: int| 1 <= j < 6 ==> is_time_byte(#[trigger] text[j])
            &&& zone_of(text) == zone_read_back(zone)
        }),
        is_ascii_chars(zone_text(zone)),
{
    reveal_with_fuel(pow10, 3);
    reveal_strlit(":");
    reveal_strlit("+");
    reveal_strlit("-");
    let total = offset_seconds(zone);
    let west = total < 0;
    let minutes: int = if west {
        (-total) / 60
    } else {
        total / 60
    };
    let hours = (minutes / 60) as nat;
    let rest = (minutes % 60) as nat;
    assert(hours * 3600 + rest * 60 == if west {
        -total
    } else {
        total
    });
    let high = padded_decimal(hours, 2);
    let low = padded_decimal(rest, 2);
    lemma_padded_numeral(hours, 2);
    lemma_padded_numeral(rest, 2);
    let chars = zone_text(zone);
    let text = as_bytes(chars);
    let body = text.skip(1);
    assert(body.subrange(0, 2) =~= as_bytes(high));
    assert(body.subrange(3, 5) =~= as_bytes(low));
    assert forall|j: int| 0 <= j < 2 implies is_digit(#[trigger] body[j]) by {
        assert(body[j] == as_bytes(high)[j]);
    }
    assert forall|j: int| 3 <= j < 5 implies is_digit(#[trigger] body[j]) by {
        assert(body[j] == as_bytes(low)[j - 3]);
    }
    assert forall|i: int| 0 <= i < chars.len() implies '\0' <= #[trigger] chars[i]
        <= '\u{7f}' by {}
}

/// The zone reads back from its suffix.
pub proof fn lemma_zone_reads_back(zone: HostZone)
    requires
        !(zone is Unknown),
        zone is Offset ==> -360_000 < offset_seconds(zone) < 360_000 && offset_seconds(zone) % 60
            == 0,
    ensures
        ({
            let text = as_bytes(zone_text(zone));
            &&& text.len() == 0 ==> zone_read_back(zone) is None
            &&& text.len() > 0 ==> zone_read_back(zone) is Some && zone_of(text) == zone_read_back(
                zone,
            ) && (text[0] == UPPER_Z || text[0] == PLUS || text[0] == MINUS)
            &&& forall|j: int| 1 <= j < text.len() ==> is_time_byte(#[trigger] text[j])
        }),
        is_ascii_chars(zone_text(zone)),
{
    reveal_strlit("Z");
    match zone {
        HostZone::Naive => {
            assert(as_bytes(zone_text(zone)) =~= Seq::<u8>::empty());
        },
        HostZone::Utc => {
            assert(as_bytes(zone_text(zone)) =~= seq![UPPER_Z]);
        },
        HostZone::Offset { .. } => {
            lemma_offset_reads_back(zone);
        },
        HostZone::Unknown => {},
    }
}

/// Where a zone mark stands and only bytes of a time follow it up to
/// `upto`, it is the last zone mark.
pub proof fn lemma_last_zone_mark(s: Seq<u8>, sep: int, at: int, upto: int)
    requires
        0 <= sep < at <= upto < s.len(),
        is_zone_mark(s, sep, at),
        forall|j: int| at < j <= upto ==> is_time_byte(#[trigger] s[j]),
    ensures
        last_zone_mark(s, sep, upto) == at,
    decreases upto - at,
{
    if at < upto {
        assert(is_time_byte(s[upto]));
        lemma_last_zone_mark(s, sep, at, upto - 1);
    }
}

/// Where only bytes of a time follow the separator, there is no zone mark.
pub proof fn lemma_no_zone_mark(s: Seq<u8>, sep: int, upto: int)
    requires
        0 <= sep <= upto < s.len(),
        forall|j: int| sep < j <= upto ==> is_time_byte(#[trigger] s[j]),
    ensures
        last_zone_mark(s, sep, upto) == sep,
    decreases upto - sep,
{
    if sep < upto {
        assert(is_time_byte(s[upto]));
        lemma_no_zone_mark(s, sep, upto - 1);
    }
}

/// The bytes of a datetime's text are the bytes of its parts, with a `T`
/// after the date.
pub proof fn lemma_datetime_bytes(date: Seq<char>, time: Seq<char>, zone: Seq<char>)
    requires
        is_ascii_chars(date),
        is_ascii_chars(time),
        is_ascii_chars(zone),
    ensures
        encode_utf8(date + "T"@ + time + zone) == as_bytes(date) + seq![UPPER_T] + as_bytes(time)
            + as_bytes(zone),
{
    reveal_strlit("T");
    let chars = date + "T"@ + time + zone;
    assert forall|i: int| 0 <= i < chars.len() implies '\0' <= #[trigger] chars[i]
        <= '\u{7f}' by {}
    is_ascii_chars_encode_utf8(chars);
    assert(encode_utf8(chars) =~= as_bytes(date) + seq![UPPER_T] + as_bytes(time) + as_bytes(zone));
}

/// A date, a `T`, a time and a zone, each well formed, parse as the
/// datetime of their parts.
pub proof fn lemma_parts_parse(
    date: Seq<u8>,
    time: Seq<u8>,
    zone: Seq<u8>,
    t: Time,
    z: Option<Zone>,
)
    requires
        date.len() == 10,
        date_prefix(date),
        time.len() >= 8,
        forall|j: int| 0 <= j < time.len() ==> is_time_byte(#[trigger] time[j]),
        is_digit(time.last()),
        time_of(time) == Some(t),
        zone.len() == 0 ==> z is None,
        zone.len() > 0 ==> z is Some && zone_of(zone) == z && (zone[0] == UPPER_Z || zone[0]
            == PLUS || zone[0] == MINUS),
        forall|j: int| 1 <= j < zone.len() ==> is_time_byte(#[trigger] zone[j]),
    ensures
        spec_parse_datetime(date + seq![UPPER_T] + time + zone) == Some(
            Timestamp::DateTime(DateTime { date: date_of(date), time: t, zone: z }),
        ),
{
    let bytes = date + seq![UPPER_T] + time + zone;
    let mark_at = 11 + time.len();
    assert(bytes.subrange(0, 4) =~= date.subrange(0, 4));
    assert(bytes.subrange(5, 7) =~= date.subrange(5, 7));
    assert(bytes.subrange(8, 10) =~= date.subrange(8, 10));
    assert(date_prefix(bytes));
    assert(date_of(bytes) == date_of(date));
    assert(bytes[10] == UPPER_T);
    assert(first_separator(bytes, 10) == 10);
    assert forall|j: int| 10 < j < mark_at implies is_time_byte(#[trigger] bytes[j]) by {
        assert(bytes[j] == time[j - 11]);
    }
    assert(bytes.subrange(11, mark_at as int) =~= time);
    assert(bytes.skip(mark_at as int) =~= zone);
    assert(is_digit(bytes[mark_at - 1])) by {
        assert(bytes[mark_at - 1] == time[time.len() - 1]);
    }
    if zone.len() == 0 {
        lemma_no_zone_mark(bytes, 10, bytes.len() - 1);
        assert(bytes.skip(11) =~= time);
    } else {
        assert(bytes[mark_at as int] == zone[0]);
        assert(last_non_space(bytes, 10, mark_at - 1) == mark_at - 1);
        assert(is_zone_mark(bytes, 10, mark_at as int));
        assert forall|j: int| mark_at < j <= bytes.len() - 1 implies is_time_byte(
            #[trigger] bytes[j],
        ) by {
            assert(bytes[j] == zone[j - mark_at]);
        }
        lemma_last_zone_mark(bytes, 10, mark_at as int, bytes.len() - 1);
    }
}

/// A datetime reads back from its text. The fields must fit their places:
/// a year of at most four digits, the other fields of at most two, less
/// than a million microseconds, and for a fixed offset whole minutes, fewer
/// than a hundred hours. A zone whose offset is not known does not read
/// back: its datetime is rendered as a naive one.
pub proof fn law_datetime_round_trip(dt: HostDateTime)
    requires
        0 <= dt.date.year <= 9999,
        dt.date.month <= 99,
        dt.date.day <= 99,
        dt.time.hour <= 99,
        dt.time.minute <= 99,
        dt.time.second <= 99,
        dt.time.microsecond < 1_000_000,
        !(dt.zone is Unknown),
        dt.zone is Offset ==> -360_000 < offset_seconds(dt.zone) < 360_000 && offset_seconds(
            dt.zone,
        ) % 60 == 0,
    ensures
        spec_parse_datetime(encode_utf8(datetime_text(dt))) == Some(
            Timestamp::DateTime(
                DateTime { date: dt.date, time: dt.time, zone: zone_read_back(dt.zone) },
            ),
        ),
{
    let utc = dt.zone is Utc;
    let date_chars = date_text(dt.date);
    let time_chars = clock_text(dt.time) + fraction_text(dt.time.microsecond as nat, utc);
    let zone_chars = zone_text(dt.zone);
    let chars = datetime_text(dt);
    lemma_date_reads_back(dt.date);
    lemma_time_reads_back(dt.time, utc);
    lemma_zone_reads_back(dt.zone);
    lemma_datetime_bytes(date_chars, time_chars, zone_chars);
    assert(chars =~= date_chars + "T"@ + time_chars + zone_chars);
    lemma_parts_parse(
        as_bytes(date_chars),
        as_bytes(time_chars),
        as_bytes(zone_chars),
        dt.time,
        zone_read_back(dt.zone),
    );
}

} // verus!
