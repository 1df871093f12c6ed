use iguazu::time::{
    next_time_step, Time, TimeRange, ATTO_PER_DAY, ATTO_PER_FEMTOSECOND, ATTO_PER_HOUR,
    ATTO_PER_MICROSECOND, ATTO_PER_MILLISECOND, ATTO_PER_MINUTE, ATTO_PER_NANOSECOND,
    ATTO_PER_PICOSECOND, ATTO_PER_SECOND,
};
use num_traits::Float;

fn t(v: i128) -> Time {
    Time::from_attoseconds(v)
}

fn scale(time: Time, factor: f32) -> Time {
    let (mantissa, exponent, sign) = factor.integer_decode();
    time.scale_decoded(mantissa, exponent, sign)
}

#[test]
fn time_test_scale() {
    assert_eq!(scale(t(ATTO_PER_SECOND), 5.0), t(5 * ATTO_PER_SECOND));
    assert_eq!(scale(t(ATTO_PER_SECOND), 0.125), t(125 * ATTO_PER_MILLISECOND));
    assert_eq!(scale(t(ATTO_PER_NANOSECOND), 1e9), t(ATTO_PER_SECOND));
    assert_eq!(scale(t(ATTO_PER_DAY), -10.0), t(-10 * ATTO_PER_DAY));
    assert_eq!(scale(t(ATTO_PER_DAY), 0.0), t(0));
    assert_eq!(scale(t(ATTO_PER_DAY), 1.157407407e-23f32), t(1));
    assert_eq!(scale(t(ATTO_PER_DAY), 2.465190329e-32f32), t(0)); // exponent -128
    assert_eq!(scale(t(ATTO_PER_DAY), f32::MIN_POSITIVE), t(0));
}

#[test]
fn test_format_relative() {
    let s = t(ATTO_PER_SECOND);
    assert_eq!(&t(42 * ATTO_PER_SECOND).format_relative(s).to_string(), "42 s");
    assert_eq!(&t(42 * ATTO_PER_MINUTE).format_relative(t(ATTO_PER_MINUTE)).to_string(), "42 min");
    assert_eq!(&t(42 * ATTO_PER_HOUR).format_relative(t(ATTO_PER_HOUR)).to_string(), "42 h");

    let v = t(42_123_456_789 * ATTO_PER_NANOSECOND);
    assert_eq!(&v.format_relative(t(ATTO_PER_SECOND)).to_string(), "42 s");
    assert_eq!(&v.format_relative(t(ATTO_PER_MILLISECOND)).to_string(), "42123 ms");
    assert_eq!(&v.format_relative(t(ATTO_PER_MICROSECOND)).to_string(), "42123456 μs");
    assert_eq!(&v.format_relative(t(ATTO_PER_NANOSECOND)).to_string(), "42123456789 ns");
    assert_eq!(&v.format_relative(t(ATTO_PER_PICOSECOND)).to_string(), "42123456789000 ps");

    assert_eq!(&t(-70 * ATTO_PER_NANOSECOND).format_relative(t(ATTO_PER_NANOSECOND)).to_string(), "-70 ns");
}

#[test]
fn test_format_fixed() {
    let v = t(45296780 * ATTO_PER_MILLISECOND);
    assert_eq!(&v.format_fixed(t(ATTO_PER_HOUR)).to_string(), "12 h");
    assert_eq!(&v.format_fixed(t(ATTO_PER_MINUTE)).to_string(), "12:34 min");
    assert_eq!(&v.format_fixed(t(ATTO_PER_SECOND)).to_string(), "12:34:56 s");
    assert_eq!(&v.format_fixed(t(10 * ATTO_PER_MILLISECOND)).to_string(), "12:34:56.78 s");

    assert_eq!(&t(62_123_456_789 * ATTO_PER_NANOSECOND).format_fixed(t(ATTO_PER_MILLISECOND)).to_string(), "1:02.123 s");

    let w = t(42_123_456_789 * ATTO_PER_NANOSECOND);
    assert_eq!(&w.format_fixed(t(ATTO_PER_SECOND)).to_string(), "42 s");
    assert_eq!(&w.format_fixed(t(ATTO_PER_MILLISECOND)).to_string(), "42.123 s");
    assert_eq!(&w.format_fixed(t(ATTO_PER_MICROSECOND)).to_string(), "42.123456 s");
    assert_eq!(&w.format_fixed(t(ATTO_PER_NANOSECOND)).to_string(), "42.123456789 s");
    assert_eq!(&w.format_fixed(t(ATTO_PER_PICOSECOND)).to_string(), "42.123456789000 s");
}

#[test]
fn test_format_freq() {
    assert_eq!(&t(10 * ATTO_PER_SECOND).format_period_as_freq().to_string(), "1 / 10 s");
    assert_eq!(&t(ATTO_PER_SECOND).format_period_as_freq().to_string(), "1 Hz");
    assert_eq!(&t(500 * ATTO_PER_MILLISECOND).format_period_as_freq().to_string(), "2 Hz");
    assert_eq!(&t(ATTO_PER_MILLISECOND).format_period_as_freq().to_string(), "1 kHz");
    assert_eq!(&t(125 * ATTO_PER_MICROSECOND).format_period_as_freq().to_string(), "8 kHz");
    assert_eq!(&t(ATTO_PER_MICROSECOND).format_period_as_freq().to_string(), "1 MHz");
    assert_eq!(&t(ATTO_PER_NANOSECOND).format_period_as_freq().to_string(), "1 GHz");
    assert_eq!(&t(408 * ATTO_PER_PICOSECOND).format_period_as_freq().to_string(), "2.450 GHz");
}

#[test]
fn format_freq_thousandths_are_not_padded() {
    // Periods above a second are shown as the period.
    assert_eq!(&t(1025 * ATTO_PER_MILLISECOND).format_period_as_freq().to_string(), "1 / 1 s");
    // 1 s / 0.99 s = 1.010 Hz: the thousandths are printed without padding.
    assert_eq!(&t(990 * ATTO_PER_MILLISECOND).format_period_as_freq().to_string(), "1.10 Hz");
    assert_eq!(&t(ATTO_PER_FEMTOSECOND).format_period_as_freq().to_string(), "1 PHz");
    assert_eq!(&t(1).format_period_as_freq().to_string(), "1000 PHz");
}

#[test]
fn format_fixed_small_times() {
    assert_eq!(&t(5 * ATTO_PER_SECOND).format_fixed(t(ATTO_PER_SECOND)).to_string(), "5 s");
    assert_eq!(&t(65 * ATTO_PER_SECOND).format_fixed(t(ATTO_PER_SECOND)).to_string(), "1:05 s");
    assert_eq!(&t(ATTO_PER_FEMTOSECOND).format_fixed(t(1)).to_string(), "0.000000000000001000 s");
}

#[test]
fn format_relative_attoseconds() {
    assert_eq!(&t(12345).format_relative(t(1)).to_string(), "12345 as");
    assert_eq!(&t(12345).format_relative(t(ATTO_PER_FEMTOSECOND)).to_string(), "12 fs");
}

#[test]
fn time_arithmetic_saturates() {
    assert_eq!(t(i128::MAX) + t(1), t(i128::MAX));
    assert_eq!(t(i128::MIN) - t(1), t(i128::MIN));
    assert_eq!(2 * t(i128::MAX), t(i128::MAX));
    assert_eq!(t(i128::MIN) / -1, t(i128::MAX));
    assert_eq!(t(7) / t(2), 3);
    assert_eq!(t(-7) / t(2), -3);
    assert_eq!(t(-7) % t(2), t(-1));
    assert_eq!(t(-7).div_rem(t(2)), (-3, t(-1)));
    assert_eq!(t(-5).abs(), t(5));
    assert_eq!(Time::from_nanos(3), t(3 * ATTO_PER_NANOSECOND));
    assert_eq!(Time::period_ratio(4, 1), t(250 * ATTO_PER_MILLISECOND));
    assert_eq!(Time::period_ratio(3, 2), t(666_666_666_666_666_666));
}

#[test]
fn next_time_step_sequence() {
    let mut s = t(ATTO_PER_MILLISECOND);
    let mut seen = Vec::new();
    for _ in 0..8 {
        s = next_time_step(s);
        seen.push(s);
    }
    assert_eq!(
        seen,
        vec![
            t(10 * ATTO_PER_MILLISECOND),
            t(100 * ATTO_PER_MILLISECOND),
            t(ATTO_PER_SECOND),
            t(10 * ATTO_PER_SECOND),
            t(ATTO_PER_MINUTE),
            t(10 * ATTO_PER_MINUTE),
            t(ATTO_PER_HOUR),
            t(12 * ATTO_PER_HOUR),
        ]
    );
    assert_eq!(next_time_step(t(12 * ATTO_PER_HOUR)), t(ATTO_PER_DAY));
    assert_eq!(next_time_step(t(ATTO_PER_DAY)), t(10 * ATTO_PER_DAY));
    assert_eq!(next_time_step(t(i128::MAX / 2)), t(i128::MAX));
}

#[test]
fn time_range_union_and_length() {
    let a = TimeRange { min: t(5), max: t(10) };
    let b = TimeRange { min: t(-3), max: t(7) };
    assert_eq!(a.union(&b), TimeRange { min: t(-3), max: t(10) });
    assert_eq!(a.union(&b), b.union(&a));
    assert_eq!(a.length(), t(5));
    assert_eq!(TimeRange { min: t(i128::MIN), max: t(i128::MAX) }.length(), t(i128::MAX));
}

#[test]
fn div_rem_gives_the_time_back() {
    for (a, b) in [(7i128, 2i128), (-7, 2), (7, -2), (-7, -2), (6, 3), (i128::MIN, 3), (i128::MAX, -5)] {
        let (q, r) = t(a).div_rem(t(b));
        assert_eq!(q * b + r.attoseconds(), a);
        assert!(r.attoseconds().abs() < b.abs());
        assert!(r.attoseconds() == 0 || (r.attoseconds() < 0) == (a < 0));
    }
}
