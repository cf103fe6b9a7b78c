use hades_kat_bot::binary64::Binary64;
use hades_kat_bot::batching::batches;
use hades_kat_bot::clock::{Instant, Timestamp};
use hades_kat_bot::keyed::Keyed;
use hades_kat_bot::text::{
    abbreviate, decimal_text, ends_with, is_abbreviable, join, lines, parse_unsigned, replace,
    skip_chars, split, starts_with, trim, trim_end_matches, NumberError,
};

fn b(x: f64) -> Binary64 {
    Binary64 { bits: x.to_bits() }
}

fn same(x: Binary64, y: f64) -> bool {
    x.bits == y.to_bits() || (x.is_nan() && y.is_nan())
}

fn samples() -> Vec<f64> {
    let mut v = vec![
        0.0,
        -0.0,
        1.0,
        -1.0,
        0.1,
        0.2,
        0.3,
        1.5,
        2.5,
        99.0,
        1e-300,
        -1e-300,
        1e300,
        f64::MAX,
        f64::MIN,
        f64::MIN_POSITIVE,
        5e-324,
        -5e-324,
        1.0 + f64::EPSILON,
        9007199254740991.0,
        9007199254740993.0,
        18446744073709551615.0,
        4294967295.5,
        f64::INFINITY,
        f64::NEG_INFINITY,
        f64::NAN,
    ];
    // A fixed sequence of arbitrary bit patterns.
    let mut x: u64 = 0x9E37_79B9_7F4A_7C15;
    for _ in 0..200 {
        x ^= x << 13;
        x ^= x >> 7;
        x ^= x << 17;
        v.push(f64::from_bits(x));
        v.push((x % 1_000_000_007) as f64 / 1000.0);
        v.push(-((x % 10_007) as f64) * 1e-9);
    }
    v
}

#[test]
fn sums_and_differences_agree_with_the_machine() {
    let v = samples();
    for &x in &v {
        for &y in &v {
            assert!(same(b(x).plus(b(y)), x + y), "{} + {}", x, y);
            assert!(same(b(x).minus(b(y)), x - y), "{} - {}", x, y);
        }
    }
}

#[test]
fn products_agree_with_the_machine() {
    let v = samples();
    for &x in &v {
        for &y in &v {
            assert!(same(b(x).times(b(y)), x * y), "{} * {}", x, y);
        }
    }
}

#[test]
fn quotients_agree_with_the_machine() {
    let v = samples();
    for &x in &v {
        for &y in &v {
            assert!(same(b(x).over(b(y)), x / y), "{} / {}", x, y);
        }
    }
}

#[test]
fn comparisons_agree_with_the_machine() {
    let v = samples();
    for &x in &v {
        assert_eq!(b(x).is_nan(), x.is_nan());
        assert_eq!(b(x).is_finite(), x.is_finite());
        assert!(same(b(x).negated(), -x));
        assert!(same(b(x).absolute(), x.abs()));
        assert_eq!(b(x).to_u64(), x as u64);
        assert_eq!(b(x).to_u32(), x as u32);
        for &y in &v {
            assert_eq!(b(x).lt(b(y)), x < y);
            assert_eq!(b(x).le(b(y)), x <= y);
            assert_eq!(b(x).eq_number(b(y)), x == y);
            if !(x == 0.0 && y == 0.0) && !y.is_nan() {
                assert!(same(b(x).at_most(b(y)), x.min(y)));
                assert!(same(b(x).at_least(b(y)), x.max(y)));
            }
            if x <= y {
                assert!(same(b(0.25).clamped(b(x), b(y)), 0.25f64.clamp(x, y)));
            }
        }
    }
}

#[test]
fn conversions_agree_with_the_machine() {
    for n in [
        0u64,
        1,
        2,
        10,
        99,
        1_000_000_000,
        9007199254740991,
        9007199254740993,
        9007199254740995,
        u64::MAX,
        u64::MAX - 1023,
        u64::MAX - 1024,
    ] {
        assert!(same(Binary64::from_u64(n), n as f64));
    }
    for n in [0i64, -1, 1, i64::MIN, i64::MAX, -9007199254740993] {
        assert!(same(Binary64::from_i64(n), n as f64));
    }
    assert!(same(Binary64::ratio(1, 2), 0.5));
    assert!(same(Binary64::ratio(1, 10), 0.1));
    assert!(same(Binary64::ratio(3, 100), 0.03));
    assert!(same(Binary64::ratio(5, 100), 0.05));
    assert!(same(Binary64::ratio(9, 10), 0.90));
    assert!(same(Binary64::ratio(3, 10), 0.30));
    assert!(same(Binary64::ratio(1, 1000), 0.001));
    assert!(same(Binary64::ratio(110, 100), 1.1));
    assert!(same(Binary64::ratio(105, 100), 1.05));
    assert!(same(Binary64::ratio(115, 100), 1.15));
    assert!(same(Binary64::ratio(120, 100), 1.2));
    assert!(same(Binary64::ratio(108, 100), 1.08));
    assert!(same(Binary64::ratio(15, 10), 1.5));
    assert!(same(Binary64::ratio(2, 10), 0.2));
    assert!(Binary64::nan().is_nan());
}

#[test]
fn whole_numbers_are_exact() {
    for (x, y) in [(0u64, 0u64), (3, 4), (1 << 52, (1 << 52) - 1)] {
        let sum = Binary64::from_u64(x).plus(Binary64::from_u64(y));
        assert_eq!(sum, Binary64::from_u64(x + y));
        assert_eq!(sum.to_u64(), x + y);
    }
    let product = Binary64::from_u64(94_906_265).times(Binary64::from_u64(94_906_265));
    assert_eq!(product, Binary64::from_u64(94_906_265 * 94_906_265));
}

#[test]
fn spans_are_whole_units_towards_zero() {
    let t = |nanos: i64| Timestamp { nanos };
    assert_eq!(t(29_999_999_999).seconds_since(t(0)), 29);
    assert_eq!(t(0).seconds_since(t(29_999_999_999)), -29);
    assert_eq!(t(300_000_000_000).minutes_since(t(0)), 5);
    assert_eq!(t(299_999_999_999).minutes_since(t(0)), 4);
    assert_eq!(t(1_999_999).millis_since(t(0)), 1);
    assert_eq!(t(i64::MAX).seconds_since(t(i64::MIN)), 18_446_744_073);
    assert!(t(0).within(t(30_000_000_000), 30));
    assert!(!t(0).within(t(30_000_000_001), 30));
    let i = |nanos: u64| Instant { nanos };
    assert_eq!(i(5_000_000_000).elapsed_seconds(i(1)), 4);
    assert_eq!(i(0).elapsed_seconds(i(5)), 0);
    assert!(i(5_000_000_000).elapsed_at_least(i(0), 5));
    assert!(!i(4_999_999_999).elapsed_at_least(i(0), 5));
    assert!(i(60_000_000_000).elapsed_minutes(i(0), 1));
    assert!(!i(59_999_999_999).elapsed_minutes(i(0), 1));
    assert!(!i(u64::MAX).elapsed_minutes(i(0), u64::MAX));
    assert!(i(0).elapsed_minutes(i(9), 0));
}

#[test]
fn texts_are_trimmed_and_split() {
    assert_eq!(trim("  a b\t\n\u{3000}"), "a b");
    assert_eq!(trim(" \t "), "");
    assert_eq!(trim_end_matches("https://x.y///", '/'), "https://x.y");
    assert_eq!(split("a,,b", ','), vec!["a", "", "b"]);
    assert_eq!(split("", ','), vec![""]);
    assert_eq!(join(&vec!["a".to_string(), "b".to_string()], ", "), "a, b");
    assert_eq!(join(&Vec::new(), ", "), "");
    assert!(starts_with("TARGET_WALLETS=a", "TARGET_WALLETS="));
    assert!(!starts_with("TARGET", "TARGET_WALLETS="));
    assert!(ends_with("abcpump", "pump"));
    assert!(!ends_with("ump", "pump"));
    assert_eq!(skip_chars("abc", 2), "c");
    assert_eq!(replace("aaa", "aa", "b"), "aaa".replace("aa", "b"));
    assert_eq!(replace("http://a http://b", "http://", "ws://"), "ws://a ws://b");
    for text in ["", "a", "a\n", "a\nb", "a\r\nb\r\n", "\n\n", "a\r", "\r\n"] {
        assert_eq!(lines(text), text.lines().map(|l| l.to_string()).collect::<Vec<_>>());
    }
}

#[test]
fn numbers_are_read_and_written() {
    for n in [0u64, 7, 10, 99, 100, 1_234_567_890, u64::MAX] {
        assert_eq!(decimal_text(n), n.to_string());
        assert_eq!(parse_unsigned(&n.to_string(), u64::MAX), Ok(n));
    }
    assert_eq!(parse_unsigned("+5", u64::MAX), Ok(5));
    assert_eq!(parse_unsigned("007", u64::MAX), Ok(7));
    assert_eq!(parse_unsigned("", u64::MAX), Err(NumberError::Empty));
    assert_eq!(parse_unsigned("+", u64::MAX), Err(NumberError::InvalidDigit));
    assert_eq!(parse_unsigned("-1", u64::MAX), Err(NumberError::InvalidDigit));
    assert_eq!(parse_unsigned("1x", u64::MAX), Err(NumberError::InvalidDigit));
    assert_eq!(parse_unsigned("4294967296", u32::MAX as u64), Err(NumberError::TooLarge));
    assert_eq!(parse_unsigned("18446744073709551616", u64::MAX), Err(NumberError::TooLarge));
}

#[test]
fn abbreviations_are_eight_bytes() {
    assert_eq!(abbreviate("So11111111111111"), "So111111");
    assert_eq!(abbreviate("abc"), "abc");
    assert!(is_abbreviable("éééé"));
    assert_eq!(abbreviate("éééé"), "éééé");
    assert!(!is_abbreviable("aéééééé"));
    assert!(is_abbreviable(""));
}

#[test]
fn keyed_map_replaces_and_removes() {
    let mut m: Keyed<u32> = Keyed::new();
    m.insert("a".to_string(), 1);
    m.insert("b".to_string(), 2);
    m.insert("a".to_string(), 3);
    assert_eq!(m.len(), 2);
    assert_eq!(m.get("a"), Some(&3));
    assert!(m.contains_key("b"));
    assert_eq!(m.remove("b"), Some(2));
    assert_eq!(m.remove("b"), None);
    assert_eq!(m.keys(), vec!["a"]);
    assert!(m.get("b").is_none());
}

#[test]
fn batches_cover_a_list() {
    assert_eq!(batches(0, 30), vec![]);
    assert_eq!(batches(30, 30), vec![(0, 30)]);
    assert_eq!(batches(31, 30), vec![(0, 30), (30, 31)]);
    assert_eq!(batches(25, 10), vec![(0, 10), (10, 20), (20, 25)]);
}
