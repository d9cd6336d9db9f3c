use yaml_rs::datetime::{parse_datetime, parse_offset, Date, DateTime, Time, Timestamp, Zone};
use yaml_rs::digits::{is_8digits, parse_8digits, parse_digits};
use yaml_rs::dump::{format_datetime, yaml_key_to_string};
use yaml_rs::host::{HostDateTime, HostZone};
use yaml_rs::integer::{parse_i64, parse_int, strip_separators};
use yaml_rs::report::source_line;
use yaml_rs::text::decimal_string;
use yaml_rs::value::Value;
use yaml_rs::yaml::YamlNode;

/// A small generator of numbers that look random and are the same in
/// every run.
struct Numbers(u64);

impl Numbers {
    fn next(&mut self) -> u64 {
        self.0 = self.0.wrapping_mul(6364136223846793005).wrapping_add(1442695040888963407);
        self.0 ^ (self.0 >> 29)
    }

    fn below(&mut self, bound: u64) -> u64 {
        self.next() % bound
    }
}

#[test]
fn every_stride_of_eight_digits_is_combined() {
    let mut n: u64 = 0;
    while n < 100_000_000 {
        let text = format!("{:08}", n);
        let word = u64::from_le_bytes(text.as_bytes().try_into().unwrap());
        assert!(is_8digits(word));
        assert_eq!(parse_8digits(word), n);
        assert_eq!(parse_digits(text.as_bytes(), 0, 8), n as u32);
        n += 9_973;
    }
}

#[test]
fn words_are_recognised_as_their_bytes_are() {
    let mut numbers = Numbers(1);
    for round in 0..200_000 {
        let mut bytes = numbers.next().to_le_bytes();
        if round % 2 == 0 {
            for b in bytes.iter_mut() {
                *b = b'0' + (*b % 12);
            }
        }
        let expected = bytes.iter().all(|b| b.is_ascii_digit());
        assert_eq!(is_8digits(u64::from_le_bytes(bytes)), expected, "{:?}", bytes);
    }
}

#[test]
fn leading_digits_agree_with_a_plain_loop() {
    let mut numbers = Numbers(2);
    for _ in 0..50_000 {
        let len = numbers.below(12) as usize;
        let bytes: Vec<u8> =
            (0..len).map(|_| b"0123456789:x"[numbers.below(12) as usize % 12]).collect();
        let start = numbers.below(len as u64 + 1) as usize;
        let count = (numbers.below(10) as usize).min(len - start);
        let mut expected: u32 = 0;
        for b in &bytes[start..start + count] {
            if !b.is_ascii_digit() {
                break;
            }
            expected = expected * 10 + u32::from(b - b'0');
        }
        assert_eq!(parse_digits(&bytes, start, count), expected, "{:?} {} {}", bytes, start, count);
    }
}

#[test]
fn integers_read_back_from_their_text() {
    let mut numbers = Numbers(3);
    for _ in 0..20_000 {
        let n = numbers.next() as i64 >> numbers.below(64);
        assert_eq!(parse_int(&n.to_string()), Some(Value::IntegerI64(n)));
        assert_eq!(yaml_key_to_string(&YamlNode::Integer(n)), Ok(n.to_string()));
        assert_eq!(parse_int(&format!("{:#x}", n.unsigned_abs())).is_some(), true);
        let magnitude = n.unsigned_abs();
        assert_eq!(decimal_string(magnitude), magnitude.to_string());
        assert_eq!(parse_i64(magnitude.to_string().as_bytes(), 10, n < 0), Some(n));
    }
}

#[test]
fn radixes_agree_with_the_standard_library() {
    let mut numbers = Numbers(4);
    for _ in 0..20_000 {
        let n = (numbers.next() >> numbers.below(64)) as i64;
        let n = n.checked_abs().unwrap_or(0);
        assert_eq!(parse_int(&format!("0x{:x}", n)), Some(Value::IntegerI64(n)));
        assert_eq!(parse_int(&format!("0X{:X}", n)), Some(Value::IntegerI64(n)));
        assert_eq!(parse_int(&format!("0o{:o}", n)), Some(Value::IntegerI64(n)));
        assert_eq!(parse_int(&format!("-0b{:b}", n)), Some(Value::IntegerI64(-n)));
    }
}

#[test]
fn big_integers_agree_with_their_parser() {
    let mut numbers = Numbers(5);
    for _ in 0..2_000 {
        let digits = 19 + numbers.below(40) as usize;
        let mut text = String::new();
        if numbers.below(2) == 0 {
            text.push('-');
        }
        text.push(char::from(b'1' + numbers.below(9) as u8));
        for _ in 0..digits {
            text.push(char::from(b'0' + numbers.below(10) as u8));
        }
        let expected: num_bigint::BigInt = text.parse().unwrap();
        assert_eq!(parse_int(&text), Some(Value::IntegerBig(expected)), "{}", text);
    }
}

#[test]
fn separators_never_change_a_number() {
    let mut numbers = Numbers(6);
    for _ in 0..20_000 {
        let n = numbers.next() >> numbers.below(64);
        let plain = n.to_string();
        let mut spaced = String::new();
        for c in plain.chars() {
            spaced.push(c);
            if numbers.below(3) == 0 {
                spaced.push('_');
            }
        }
        assert_eq!(strip_separators(spaced.as_bytes()), plain.as_bytes());
        assert_eq!(parse_int(&spaced), parse_int(&plain));
    }
}

#[test]
fn datetimes_read_back_from_their_text() {
    let mut numbers = Numbers(7);
    for _ in 0..20_000 {
        let date = Date {
            year: numbers.below(10_000) as i32,
            month: numbers.below(100) as u8,
            day: numbers.below(100) as u8,
        };
        let time = Time {
            hour: numbers.below(100) as u8,
            minute: numbers.below(100) as u8,
            second: numbers.below(100) as u8,
            microsecond: if numbers.below(3) == 0 { 0 } else { numbers.below(1_000_000) as u32 },
        };
        let minutes = numbers.below(12_000) as i32 - 6_000;
        let (zone, expected) = match numbers.below(3) {
            0 => (HostZone::Naive, None),
            1 => (HostZone::Utc, Some(Zone::Utc)),
            _ => {
                let total = minutes * 60;
                let days = total.div_euclid(86_400);
                let seconds = total.rem_euclid(86_400);
                (HostZone::Offset { days, seconds }, Some(Zone::Offset { days, seconds }))
            }
        };
        let text = format_datetime(HostDateTime { date, time, zone });
        assert_eq!(
            parse_datetime(&text),
            Some(Timestamp::DateTime(DateTime { date, time, zone: expected })),
            "{}",
            text
        );
    }
}

#[test]
fn offsets_agree_with_their_fields() {
    for hours in 0..100u32 {
        for minutes in 0..100u32 {
            let expected = Some((hours, minutes));
            assert_eq!(parse_offset(format!("{:02}:{:02}", hours, minutes).as_bytes()), expected);
            assert_eq!(parse_offset(format!("{:02}{:02}", hours, minutes).as_bytes()), expected);
            if hours < 10 {
                assert_eq!(parse_offset(format!("{}:{:02}", hours, minutes).as_bytes()), expected);
            }
        }
        assert_eq!(parse_offset(format!("{:02}", hours).as_bytes()), Some((hours, 0)));
    }
}

#[test]
fn lines_agree_with_the_standard_library() {
    let mut numbers = Numbers(8);
    let pieces = ["a", "\n", "\r", "\r\n", "\u{e9}", "\u{1f600}", " ", "b\tc", "\n\n"];
    for _ in 0..5_000 {
        let mut text = String::new();
        for _ in 0..numbers.below(8) {
            text.push_str(pieces[numbers.below(pieces.len() as u64) as usize]);
        }
        let expected: Vec<&str> = text.lines().collect();
        for n in 0..expected.len() + 2 {
            assert_eq!(source_line(&text, n), expected.get(n).copied(), "{:?} line {}", text, n);
        }
    }
}
