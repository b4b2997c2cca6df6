use svg2cetz::decimal::{parse_decimal, write_decimal};
use svg2cetz::fixed::Fixed;

const LIMIT: i64 = 1_000_000_000_000_000_000;

fn units(text: &str) -> Option<i64> {
    parse_decimal(text.as_bytes()).map(|f| f.raw())
}

fn written(raw: i64) -> String {
    let mut out = Vec::new();
    write_decimal(Fixed::from_raw(raw), &mut out);
    String::from_utf8(out).unwrap()
}

#[test]
fn parses_whole_numbers() {
    assert_eq!(units("0"), Some(0));
    assert_eq!(units("1"), Some(1_000_000_000));
    assert_eq!(units("-1"), Some(-1_000_000_000));
    assert_eq!(units("+1"), Some(1_000_000_000));
    assert_eq!(units("007"), Some(7_000_000_000));
    assert_eq!(units("-0"), Some(0));
}

#[test]
fn parses_fractions() {
    assert_eq!(units("1.5"), Some(1_500_000_000));
    assert_eq!(units(".5"), Some(500_000_000));
    assert_eq!(units("5."), Some(5_000_000_000));
    assert_eq!(units("-0.01"), Some(-10_000_000));
    assert_eq!(units("0.000000001"), Some(1));
    assert_eq!(units("123456.123456"), Some(123_456_123_456_000));
}

#[test]
fn parses_exponents() {
    assert_eq!(units("1e2"), Some(100_000_000_000));
    assert_eq!(units("1E2"), Some(100_000_000_000));
    assert_eq!(units("1e+2"), Some(100_000_000_000));
    assert_eq!(units("1e-2"), Some(10_000_000));
    assert_eq!(units("1.3e-2"), Some(13_000_000));
    assert_eq!(units(".5e1"), Some(5_000_000_000));
    assert_eq!(units("5.e1"), Some(50_000_000_000));
    assert_eq!(units("12345e-5"), Some(123_450_000));
    assert_eq!(units("0.0012345e5"), Some(123_450_000_000));
}

#[test]
fn rounds_to_the_nearest_billionth() {
    assert_eq!(units("0.0000000004"), Some(0));
    assert_eq!(units("0.0000000005"), Some(1));
    assert_eq!(units("0.00000000149"), Some(1));
    assert_eq!(units("0.0000000015"), Some(2));
    assert_eq!(units("-0.0000000005"), Some(-1));
    assert_eq!(units("-0.0000000004"), Some(0));
    assert_eq!(units("0.30000000000000004"), Some(300_000_000));
    assert_eq!(units("5e-10"), Some(1));
    assert_eq!(units("4e-10"), Some(0));
    assert_eq!(units("0.00000000000000006123233995736766"), Some(0));
}

#[test]
fn refuses_numbers_out_of_range() {
    assert_eq!(units("1000000000"), Some(LIMIT));
    assert_eq!(units("-1000000000"), Some(-LIMIT));
    assert_eq!(units("999999999.999999999"), Some(LIMIT - 1));
    assert_eq!(units("1000000000.0000000004"), Some(LIMIT));
    assert_eq!(units("1000000000.0000000005"), None);
    assert_eq!(units("-1000000000.0000000005"), None);
    assert_eq!(units("1000000001"), None);
    assert_eq!(units("-1000000001"), None);
    assert_eq!(units("1e9"), Some(LIMIT));
    assert_eq!(units("1e30"), None);
    assert_eq!(units("-1e30"), None);
    assert_eq!(units("1e99999999999999999999999999999999999999999"), None);
    assert_eq!(units("0e99999999999999999999999999999999999999999"), Some(0));
    assert_eq!(units("1e-99999999999999999999999999999999999999999"), Some(0));
    assert_eq!(units("123456789012345678901234567890"), None);
    assert_eq!(units("0.00000000000000000000000000000000000001e47"), Some(LIMIT));
    assert_eq!(units("0.00000000000000000000000000000000000001e48"), None);
}

#[test]
fn refuses_what_is_no_number() {
    for text in [
        "", ".", "-", "+", "e5", "1e", "1e+", "1e-", "abc", " 1", "1 ", "1px", "--1", "1..2",
        "1.2.3", "1e2e3", "1e2.5", "inf", "NaN", "0x10", "1,5", "-.",
    ] {
        assert_eq!(units(text), None, "{:?}", text);
    }
}

#[test]
fn writes_whole_numbers_without_a_point() {
    assert_eq!(written(0), "0");
    assert_eq!(written(1_000_000_000), "1");
    assert_eq!(written(-1_000_000_000), "-1");
    assert_eq!(written(120_000_000_000), "120");
    assert_eq!(written(LIMIT), "1000000000");
    assert_eq!(written(-LIMIT), "-1000000000");
}

#[test]
fn writes_fractions_without_trailing_zeros() {
    assert_eq!(written(500_000_000), "0.5");
    assert_eq!(written(-500_000_000), "-0.5");
    assert_eq!(written(1), "0.000000001");
    assert_eq!(written(-1), "-0.000000001");
    assert_eq!(written(1_234_500_000), "1.2345");
    assert_eq!(written(10_010_000_000), "10.01");
    assert_eq!(written(999_999_999), "0.999999999");
    assert_eq!(written(100_000_000), "0.1");
}

#[test]
fn from_raw_brings_into_range() {
    assert_eq!(Fixed::from_raw(i64::MAX).raw(), LIMIT);
    assert_eq!(Fixed::from_raw(i64::MIN).raw(), -LIMIT);
    assert_eq!(Fixed::from_raw(LIMIT + 1).raw(), LIMIT);
    assert_eq!(Fixed::from_raw(-LIMIT).raw(), -LIMIT);
    assert_eq!(Fixed::from_raw(42).raw(), 42);
}

#[test]
fn written_numbers_read_back() {
    let mut raw: i64 = -LIMIT;
    let mut step: i64 = 1;
    while raw <= LIMIT - step {
        assert_eq!(units(&written(raw)), Some(raw), "{}", raw);
        raw += step;
        step = step * 3 + 1;
        if raw > 0 && step > LIMIT / 50 {
            step = 7;
            if raw > LIMIT - 1000 {
                break;
            }
        }
    }
    for raw in [0, 1, -1, 9, 10, 999_999_999, 1_000_000_000, 1_000_000_001, LIMIT, -LIMIT] {
        assert_eq!(units(&written(raw)), Some(raw), "{}", raw);
    }
}

#[test]
fn written_numbers_agree_with_floating_point() {
    for raw in [0i64, 1, -1, 500_000_000, 1_234_567_890, -98_765_432_100, 10_010_000_000] {
        let text = written(raw);
        let read: f64 = text.parse().unwrap();
        assert!((read - raw as f64 / 1e9).abs() <= 1e-9 * (1.0 + read.abs()), "{}", text);
    }
}

#[test]
fn arithmetic_rounds_once_and_saturates() {
    let half = Fixed::from_raw(500_000_000);
    let tiny = Fixed::from_raw(1);
    let three = Fixed::from_raw(3_000_000_000);
    assert_eq!(half.times(three).raw(), 1_500_000_000);
    assert_eq!(half.times(tiny).raw(), 1);
    assert_eq!(half.times(Fixed::from_raw(-1)).raw(), 0);
    assert_eq!(Fixed::from_raw(-1_500_000_000).times(tiny).raw(), -1);
    assert_eq!(Fixed::dot(half, three, three, three).raw(), 10_500_000_000);
    let top = Fixed::from_raw(LIMIT);
    assert_eq!(top.plus(top).raw(), LIMIT);
    assert_eq!(top.minus(top).raw(), 0);
    assert_eq!(Fixed::zero().minus(top).minus(top).raw(), -LIMIT);
    assert_eq!(top.times(top).raw(), LIMIT);
    assert_eq!(top.times(Fixed::zero().minus(top)).raw(), -LIMIT);
    assert_eq!(Fixed::one().raw(), 1_000_000_000);
}

#[test]
fn exact_arithmetic_is_absent_out_of_range() {
    let top = Fixed::from_raw(LIMIT);
    let unit = Fixed::from_raw(1);
    let one = Fixed::from_raw(1_000_000_000);
    assert_eq!(top.plus_exact(unit), None);
    assert_eq!(top.plus_exact(Fixed::zero()), Some(top));
    assert_eq!(top.minus_exact(unit).map(|f| f.raw()), Some(LIMIT - 1));
    assert_eq!(Fixed::zero().minus_exact(top).and_then(|f| f.minus_exact(unit)), None);
    assert_eq!(top.times_exact(one), Some(top));
    assert_eq!(top.times_exact(Fixed::from_raw(1_000_000_001)), None);
    // Rounded first, tested after: half a unit beyond the limit is beyond it.
    assert_eq!(Fixed::dot_exact(top, one, Fixed::from_raw(499_999_999), unit), Some(top));
    assert_eq!(Fixed::dot_exact(top, one, Fixed::from_raw(500_000_000), unit), None);
    assert_eq!(Fixed::dot_exact(top, one, unit, Fixed::from_raw(500_000_000)), None);
    assert_eq!(
        Fixed::from_raw(1_500_000_000).times_exact(Fixed::from_raw(-3)).map(|f| f.raw()),
        Some(-4)
    );
}
