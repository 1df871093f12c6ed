//! Time values in attoseconds, their arithmetic and their text renderings.
use vstd::prelude::*;
use vstd::std_specs::ops::{AddSpecImpl, SubSpecImpl, MulSpecImpl, DivSpecImpl, RemSpecImpl};
use crate::text::{dec_int, dec_nat, zero_pad, push_decimal, push_decimal_signed, push_decimal_padded, push_str};

verus! {

/// Attoseconds per femtosecond, picosecond, ... day.
pub const ATTO_PER_FEMTOSECOND: i128 = 1_000;
pub const ATTO_PER_PICOSECOND: i128 = 1_000_000;
pub const ATTO_PER_NANOSECOND: i128 = 1_000_000_000;
pub const ATTO_PER_MICROSECOND: i128 = 1_000_000_000_000;
pub const ATTO_PER_MILLISECOND: i128 = 1_000_000_000_000_000;
pub const ATTO_PER_SECOND: i128 = 1_000_000_000_000_000_000;
pub const ATTO_PER_MINUTE: i128 = 60_000_000_000_000_000_000;
pub const ATTO_PER_HOUR: i128 = 3600_000_000_000_000_000_000;
pub const ATTO_PER_DAY: i128 = 86400_000_000_000_000_000_000;

/// A duration represented in 128-bit attoseconds
#[derive(Copy, Clone, PartialOrd, Ord, PartialEq, Eq, Hash, Debug, Structural)]
pub struct Time(pub i128);

/// `x` clamped to the range of `i128`.
pub open spec fn sat(x: int) -> i128 {
    if x > i128::MAX {
        i128::MAX
    } else if x < i128::MIN {
        i128::MIN
    } else {
        x as i128
    }
}

/// Magnitude of an integer.
pub open spec fn mag(a: int) -> nat {
    if a < 0 {
        (-a) as nat
    } else {
        a as nat
    }
}

/// Division rounding toward zero, as Rust's `/` on integers: the quotient of
/// the magnitudes, negated when the signs differ.
pub open spec fn tdiv(a: int, b: int) -> int {
    if (a < 0) == (b < 0) {
        (mag(a) / mag(b)) as int
    } else {
        -(mag(a) / mag(b))
    }
}

/// Remainder of the division rounding toward zero, as Rust's `%`.
pub open spec fn trem(a: int, b: int) -> int {
    a - b * tdiv(a, b)
}

/// `i128::saturating_div`: the quotient rounded toward zero, with the one
/// overflowing quotient `MIN / -1` clamped to `MAX`.
pub open spec fn sat_div(a: i128, b: i128) -> i128 {
    sat(tdiv(a as int, b as int))
}

fn saturating_add(a: i128, b: i128) -> (r: i128)
    ensures
        r == sat(a + b),
{
    if b > 0 && a > i128::MAX - b {
        i128::MAX
    } else if b < 0 && a < i128::MIN - b {
        i128::MIN
    } else {
        a + b
    }
}

fn saturating_sub(a: i128, b: i128) -> (r: i128)
    ensures
        r == sat(a - b),
{
    if b < 0 && a > i128::MAX + b {
        i128::MAX
    } else if b > 0 && a < i128::MIN + b {
        i128::MIN
    } else {
        a - b
    }
}

fn saturating_mul(a: i128, b: i128) -> (r: i128)
    ensures
        r == sat(a * b),
{
    match a.checked_mul(b) {
        Some(v) => v,
        None => {
            if (a < 0) == (b < 0) {
                proof {
                    if a < 0 {
                        assert(a * b == (-a) * (-b)) by (nonlinear_arith);
                        assert((-a) * (-b) >= 0) by (nonlinear_arith)
                            requires
                                a < 0,
                                b < 0,
                        ;
                    } else {
                        assert(a * b >= 0) by (nonlinear_arith)
                            requires
                                a >= 0,
                                b >= 0,
                        ;
                    }
                }
                i128::MAX
            } else {
                proof {
                    if a < 0 {
                        assert(a * b <= 0) by (nonlinear_arith)
                            requires
                                a < 0,
                                b >= 0,
                        ;
                    } else {
                        assert(a * b <= 0) by (nonlinear_arith)
                            requires
                                a >= 0,
                                b < 0,
                        ;
                    }
                }
                i128::MIN
            }
        },
    }
}

proof fn lemma_tdiv_bounds(a: int, b: int)
    requires
        b != 0,
    ensures
        mag(tdiv(a, b)) <= mag(a),
        (a < 0) == (b < 0) ==> tdiv(a, b) >= 0,
        (a < 0) != (b < 0) ==> tdiv(a, b) <= 0,
{
    vstd::arithmetic::div_mod::lemma_div_is_ordered_by_denominator(mag(a) as int, 1, mag(b) as int);
}

/// For a divisor of at least two, the saturating quotient is the quotient.
pub proof fn lemma_sat_div_positive(a: i128, b: i128)
    requires
        b >= 2,
    ensures
        sat_div(a, b) == tdiv(a as int, b as int),
{
    lemma_tdiv_bounds(a as int, b as int);
}

/// The remainder of a division by a positive `b` is smaller than `b` and has
/// the sign of the dividend.
pub proof fn lemma_trem_bound(a: int, b: int)
    requires
        b > 0,
    ensures
        mag(trem(a, b)) < b,
        a >= 0 ==> trem(a, b) >= 0,
        a < 0 ==> trem(a, b) <= 0,
{
    let q = mag(a) / mag(b);
    vstd::arithmetic::div_mod::lemma_fundamental_div_mod(mag(a) as int, b);
    if a >= 0 {
        assert(trem(a, b) == (mag(a) as int) % b);
    } else {
        assert(b * tdiv(a, b) == -(b * q)) by (nonlinear_arith)
            requires
                tdiv(a, b) == -q,
        ;
        assert(trem(a, b) == -((mag(a) as int) % b));
    }
}

/// Dividing a time by another gives it back: the quotient times the
/// divisor plus the remainder is the dividend; the remainder is smaller
/// than the divisor and has the sign of the dividend.
pub proof fn lemma_div_rem_identity(a: i128, b: i128)
    requires
        b != 0,
        !(a == i128::MIN && b == -1),
    ensures
        sat_div(a, b) * b + trem(a as int, b as int) == a,
        mag(trem(a as int, b as int)) < mag(b as int),
        a >= 0 ==> trem(a as int, b as int) >= 0,
        a < 0 ==> trem(a as int, b as int) <= 0,
{
    let (ai, bi) = (a as int, b as int);
    lemma_tdiv_bounds(ai, bi);
    if mag(bi) >= 2 {
        vstd::arithmetic::div_mod::lemma_div_is_ordered_by_denominator(mag(ai) as int, 2, mag(bi) as int);
    }
    assert(sat_div(a, b) == tdiv(ai, bi));
    assert(sat_div(a, b) * bi == bi * tdiv(ai, bi)) by (nonlinear_arith)
        requires
            sat_div(a, b) == tdiv(ai, bi),
    ;
    if b > 0 {
        lemma_trem_bound(ai, bi);
    } else {
        lemma_trem_bound(ai, -bi);
        assert(tdiv(ai, -bi) == -tdiv(ai, bi));
        assert((-bi) * tdiv(ai, -bi) == bi * tdiv(ai, bi)) by (nonlinear_arith)
            requires
                tdiv(ai, -bi) == -tdiv(ai, bi),
        ;
    }
}

/// A quotient by `b > 0` of a dividend smaller than `c` in magnitude is at
/// most `c / b` in magnitude.
pub proof fn lemma_tdiv_small(a: int, b: int, c: int)
    requires
        b > 0,
        mag(a) < c,
    ensures
        mag(tdiv(a, b)) <= c / b,
{
    vstd::arithmetic::div_mod::lemma_div_is_ordered(mag(a) as int, c, b);
}

/// The magnitude of an `i128`, as a `u128`.
pub(crate) fn magnitude(a: i128) -> (r: u128)
    ensures
        r == mag(a as int),
{
    if a < 0 {
        ((-(a + 1)) as u128) + 1
    } else {
        a as u128
    }
}

/// Rust's `/` on `i128`, rounding toward zero.
fn div_toward_zero(a: i128, b: i128) -> (r: i128)
    requires
        b != 0,
        !(a == i128::MIN && b == -1),
    ensures
        r == tdiv(a as int, b as int),
{
    let ua = magnitude(a);
    let ub = magnitude(b);
    let q = ua / ub;
    proof {
        lemma_tdiv_bounds(a as int, b as int);
        vstd::arithmetic::div_mod::lemma_div_is_ordered_by_denominator(ua as int, 1, ub as int);
        if a == i128::MIN && b < 0 {
            vstd::arithmetic::div_mod::lemma_div_is_ordered_by_denominator(ua as int, 2, ub as int);
        }
    }
    if (a < 0) == (b < 0) {
        q as i128
    } else if q == 0x8000_0000_0000_0000_0000_0000_0000_0000u128 {
        i128::MIN
    } else {
        -(q as i128)
    }
}

/// Rust's `%` on `i128`: the remainder takes the sign of the dividend.
fn rem_toward_zero(a: i128, b: i128) -> (r: i128)
    requires
        b != 0,
    ensures
        r == trem(a as int, b as int),
        mag(r as int) < mag(b as int),
{
    let ua = magnitude(a);
    let ub = magnitude(b);
    let m = ua % ub;
    proof {
        let q = (ua / ub) as int;
        vstd::arithmetic::div_mod::lemma_fundamental_div_mod(ua as int, ub as int);
        assert(ua == ub * q + m);
        let t = tdiv(a as int, b as int);
        if (a < 0) == (b < 0) {
            assert(t == q);
            if a < 0 {
                assert(a == -(ua as int) && b == -(ub as int));
                assert(b * t == -(ub * q)) by (nonlinear_arith)
                    requires
                        b == -(ub as int),
                        t == q,
                ;
            } else {
                assert(b * t == ub * q) by (nonlinear_arith)
                    requires
                        b == ub as int,
                        t == q,
                ;
            }
        } else {
            assert(t == -q);
            if a < 0 {
                assert(b * t == -(ub * q)) by (nonlinear_arith)
                    requires
                        b == ub as int,
                        t == -q,
                ;
            } else {
                assert(b * t == ub * q) by (nonlinear_arith)
                    requires
                        b == -(ub as int),
                        t == -q,
                ;
            }
        }
    }
    if a < 0 {
        -(m as i128)
    } else {
        m as i128
    }
}

/// `i128::saturating_div`.
fn saturating_div(a: i128, b: i128) -> (r: i128)
    requires
        b != 0,
    ensures
        r == sat_div(a, b),
{
    if a == i128::MIN && b == -1 {
        assert(mag(b as int) == 1);
        assert(mag(a as int) / 1 == mag(a as int));
        i128::MAX
    } else {
        proof {
            lemma_tdiv_bounds(a as int, b as int);
        }
        div_toward_zero(a, b)
    }
}

impl Time {
    /// The time of `v` attoseconds.
    pub fn from_attoseconds(v: i128) -> (res: Time)
        ensures
            res.0 == v,
    {
        Time(v)
    }

    /// The number of attoseconds.
    pub fn attoseconds(&self) -> (res: i128)
        ensures
            res == self.0,
    {
        self.0
    }

    /// The time of `nanos` nanoseconds (clamped to the range of `Time`).
    pub fn from_nanos(nanos: i128) -> (res: Time)
        ensures
            res.0 == sat(nanos * ATTO_PER_NANOSECOND),
    {
        Time(saturating_mul(nanos, ATTO_PER_NANOSECOND))
    }

    /// The period of the frequency `numer / denom` hertz.
    pub fn period_ratio(numer: u64, denom: u64) -> (res: Time)
        requires
            numer > 0,
        ensures
            res.0 == sat_div(sat(denom * ATTO_PER_SECOND), numer as i128),
    {
        Time(saturating_div(saturating_mul(denom as i128, ATTO_PER_SECOND), numer as i128))
    }

    /// The absolute value; `Time(i128::MIN)` has none.
    pub fn abs(self) -> (res: Time)
        requires
            self.0 != i128::MIN,
        ensures
            res.0 == (if self.0 < 0 { -self.0 } else { self.0 as int }),
    {
        if self.0 < 0 {
            Time(-self.0)
        } else {
            self
        }
    }

    /// Quotient (saturating, rounding toward zero) and remainder.
    pub fn div_rem(&self, t: Time) -> (res: (i128, Time))
        requires
            t.0 != 0,
            !(self.0 == i128::MIN && t.0 == -1),
        ensures
            res.0 == sat_div(self.0, t.0),
            res.1.0 == trem(self.0 as int, t.0 as int),
    {
        (saturating_div(self.0, t.0), Time(rem_toward_zero(self.0, t.0)))
    }

    /// Sum, clamped to the range of `Time`.
    pub fn saturating_add(self, rhs: Time) -> (res: Time)
        ensures
            res.0 == sat(self.0 + rhs.0),
    {
        Time(saturating_add(self.0, rhs.0))
    }

    /// Difference, clamped to the range of `Time`.
    pub fn saturating_sub(self, rhs: Time) -> (res: Time)
        ensures
            res.0 == sat(self.0 - rhs.0),
    {
        Time(saturating_sub(self.0, rhs.0))
    }

    /// `k` times `self`, clamped to the range of `Time`.
    pub fn times(self, k: i128) -> (res: Time)
        ensures
            res.0 == sat(k * self.0),
    {
        Time(saturating_mul(k, self.0))
    }

    /// `self` divided by `k`, saturating and rounding toward zero.
    pub fn div_by(self, k: i128) -> (res: Time)
        requires
            k != 0,
        ensures
            res.0 == sat_div(self.0, k),
    {
        Time(saturating_div(self.0, k))
    }

    /// How many times `rhs` fits in `self`, saturating and rounding toward zero.
    pub fn ratio(self, rhs: Time) -> (res: i128)
        requires
            rhs.0 != 0,
        ensures
            res == sat_div(self.0, rhs.0),
    {
        saturating_div(self.0, rhs.0)
    }

    /// Remainder of `self` divided by `rhs`.
    pub fn remainder(self, rhs: Time) -> (res: Time)
        requires
            rhs.0 != 0,
            !(self.0 == i128::MIN && rhs.0 == -1),
        ensures
            res.0 == trem(self.0 as int, rhs.0 as int),
    {
        Time(rem_toward_zero(self.0, rhs.0))
    }
}

/// `2^k`.
pub open spec fn two_pow(k: nat) -> nat
    decreases k,
{
    if k == 0 {
        1
    } else {
        2 * two_pow((k - 1) as nat)
    }
}

/// `z` reduced into the range of `i128` modulo `2^128`, as a wrapping
/// operation on `i128` leaves it.
pub open spec fn crop128(z: int) -> int {
    let r = z % 0x1_0000_0000_0000_0000_0000_0000_0000_0000int;
    if r > i128::MAX {
        r - 0x1_0000_0000_0000_0000_0000_0000_0000_0000int
    } else {
        r
    }
}

/// `t * mantissa * 2^exponent`: shifted right (rounding down) for a negative
/// exponent, shifted left (wrapping) for a non-negative one, and zero from
/// an exponent of `-128` down.
pub open spec fn scaled_by_power(t: i128, mantissa: u64, exponent: i16) -> int {
    let x = t * mantissa;
    if exponent <= -128 {
        0
    } else if exponent < 0 {
        x / (two_pow((-exponent) as nat) as int)
    } else {
        crop128(x * two_pow(exponent as nat))
    }
}

proof fn lemma_two_pow_pos(k: nat)
    ensures
        two_pow(k) >= 1,
    decreases k,
{
    if k > 0 {
        lemma_two_pow_pos((k - 1) as nat);
    }
}

/// Dividing by `a`, then by `b`, rounding down each time, is dividing by `a * b`.
proof fn lemma_div_div(x: int, a: int, b: int)
    requires
        a > 0,
        b > 0,
    ensures
        (x / a) / b == x / (a * b),
{
    let q1 = x / a;
    let r1 = x % a;
    let q2 = q1 / b;
    let r2 = q1 % b;
    vstd::arithmetic::div_mod::lemma_fundamental_div_mod(x, a);
    vstd::arithmetic::div_mod::lemma_fundamental_div_mod(q1, b);
    assert(x == q2 * (a * b) + (a * r2 + r1)) by (nonlinear_arith)
        requires
            x == a * q1 + r1,
            q1 == b * q2 + r2,
    ;
    assert(0 <= a * r2 + r1 < a * b) by (nonlinear_arith)
        requires
            0 <= r1 < a,
            0 <= r2 < b,
    ;
    vstd::arithmetic::div_mod::lemma_fundamental_div_mod_converse(x, a * b, q2, a * r2 + r1);
}

/// `v / 2`, rounding down.
fn floor_half(v: i128) -> (res: i128)
    ensures
        res == v / 2,
{
    if v >= 0 {
        v / 2
    } else {
        let w = -(v + 1);
        let q = w / 2;
        proof {
            vstd::arithmetic::div_mod::lemma_fundamental_div_mod(w as int, 2);
            if w % 2 == 0 {
                vstd::arithmetic::div_mod::lemma_fundamental_div_mod_converse(v as int, 2, -q - 1, 1);
            } else {
                vstd::arithmetic::div_mod::lemma_fundamental_div_mod_converse(v as int, 2, -q - 1, 0);
            }
        }
        -q - 1
    }
}

/// `crop128` agrees on values that agree modulo `2^128`.
proof fn lemma_crop128_mod(a: int, k: int) -> (j: int)
    ensures
        crop128(a + k * 0x1_0000_0000_0000_0000_0000_0000_0000_0000int) == crop128(a),
        i128::MIN <= crop128(a) <= i128::MAX,
        crop128(a) == a + j * 0x1_0000_0000_0000_0000_0000_0000_0000_0000int,
{
    let m = 0x1_0000_0000_0000_0000_0000_0000_0000_0000int;
    vstd::arithmetic::div_mod::lemma_mod_multiples_vanish(k, a, m);
    assert(m * k + a == a + k * m) by (nonlinear_arith);
    vstd::arithmetic::div_mod::lemma_fundamental_div_mod(a, m);
    let q = a / m;
    if a % m > i128::MAX {
        assert(crop128(a) == a + (-q - 1) * m) by (nonlinear_arith)
            requires
                a == m * q + a % m,
                crop128(a) == a % m - m,
        ;
        -q - 1
    } else {
        assert(crop128(a) == a + (-q) * m) by (nonlinear_arith)
            requires
                a == m * q + a % m,
                crop128(a) == a % m,
        ;
        -q
    }
}

/// `2 * v`, wrapping in the range of `i128`.
fn wrapping_double(v: i128) -> (res: i128)
    ensures
        res == crop128(2 * v),
{
    let ghost m: int = 0x1_0000_0000_0000_0000_0000_0000_0000_0000int;
    if v >= 0x4000_0000_0000_0000_0000_0000_0000_0000 {
        proof {
            lemma_crop128_mod(2 * v - m, 1);
            assert(crop128(2 * v) == crop128(2 * v - m));
            crop_in_range(2 * v - m);
        }
        (v - 0x4000_0000_0000_0000_0000_0000_0000_0000 - 0x4000_0000_0000_0000_0000_0000_0000_0000) * 2
    } else if v < -0x4000_0000_0000_0000_0000_0000_0000_0000 {
        proof {
            lemma_crop128_mod(2 * v + m, -1);
            crop_in_range(2 * v + m);
        }
        (v + 0x4000_0000_0000_0000_0000_0000_0000_0000 + 0x4000_0000_0000_0000_0000_0000_0000_0000) * 2
    } else {
        proof {
            crop_in_range(2 * v);
        }
        v * 2
    }
}

/// A value already in the range of `i128` is left alone by `crop128`.
proof fn crop_in_range(z: int)
    requires
        i128::MIN <= z <= i128::MAX,
    ensures
        crop128(z) == z,
{
    let m = 0x1_0000_0000_0000_0000_0000_0000_0000_0000int;
    if z >= 0 {
        vstd::arithmetic::div_mod::lemma_small_mod(z as nat, m as nat);
    } else {
        vstd::arithmetic::div_mod::lemma_mod_multiples_vanish(-1, z + m, m);
        assert(m * -1 + (z + m) == z);
        vstd::arithmetic::div_mod::lemma_small_mod((z + m) as nat, m as nat);
    }
}

impl Time {
    /// `self` scaled by the number `sign * mantissa * 2^exponent`, the parts of
    /// a decoded floating-point factor.
    pub fn scale_decoded(&self, mantissa: u64, exponent: i16, sign: i8) -> (res: Time)
        requires
            exponent > -128 ==> i128::MIN <= self.0 * mantissa <= i128::MAX,
            exponent < 128,
            exponent > -128 ==> i128::MIN <= scaled_by_power(self.0, mantissa, exponent) * sign
                <= i128::MAX,
        ensures
            exponent <= -128 ==> res.0 == 0,
            exponent > -128 ==> res.0 == scaled_by_power(self.0, mantissa, exponent) * sign,
    {
        if exponent <= -128 {
            return Time(0);
        }
        let x = self.0 * (mantissa as i128);
        let mut v = x;
        if exponent < 0 {
            let k: u32 = (-(exponent as i32)) as u32;
            let mut i: u32 = 0;
            assert(two_pow(0) == 1);
            assert((x as int) / 1 == x as int);
            while i < k
                invariant
                    i <= k,
                    k == -exponent,
                    v == (x as int) / (two_pow(i as nat) as int),
                decreases k - i,
            {
                proof {
                    lemma_two_pow_pos(i as nat);
                    lemma_div_div(x as int, two_pow(i as nat) as int, 2);
                    assert(two_pow(i as nat) * 2 == two_pow((i + 1) as nat));
                }
                v = floor_half(v);
                i = i + 1;
            }
        } else {
            let k: u32 = exponent as u32;
            let mut i: u32 = 0;
            proof {
                crop_in_range(x as int);
                assert(two_pow(0) == 1);
                assert(x * 1 == x as int);
            }
            while i < k
                invariant
                    i <= k,
                    k == exponent,
                    v == crop128(x * two_pow(i as nat)),
                decreases k - i,
            {
                proof {
                    let y = x * two_pow(i as nat);
                    let j = lemma_crop128_mod(y, 0);
                    lemma_crop128_mod(2 * y, 2 * j);
                    assert(2 * crop128(y) == 2 * y + (2 * j) * 0x1_0000_0000_0000_0000_0000_0000_0000_0000int);
                    assert(x * two_pow((i + 1) as nat) == 2 * y) by (nonlinear_arith)
                        requires
                            two_pow((i + 1) as nat) == 2 * two_pow(i as nat),
                            y == x * two_pow(i as nat),
                    ;
                }
                v = wrapping_double(v);
                i = i + 1;
            }
        }
        Time(v * (sign as i128))
    }
}

/// The grid spacing that follows `spacing` on a time axis: ten times as
/// wide up to ten seconds, then whole minutes, ten minutes, hours, twelve
/// hours and days, and ten times as wide again beyond (saturating).
pub open spec fn spec_next_time_step(spacing: i128) -> i128 {
    if spacing <= ATTO_PER_SECOND {
        sat(10 * spacing)
    } else if spacing == 10 * ATTO_PER_SECOND {
        sat(6 * spacing)
    } else if spacing == ATTO_PER_MINUTE {
        sat(10 * spacing)
    } else if spacing == 10 * ATTO_PER_MINUTE {
        sat(6 * spacing)
    } else if spacing == ATTO_PER_HOUR {
        sat(12 * spacing)
    } else if spacing == 12 * ATTO_PER_HOUR {
        sat(2 * spacing)
    } else {
        sat(10 * spacing)
    }
}

/// Generates grid tick spacing for a time axis: given some spacing (e.g.
/// 10 s), returns the next one (60 s). A positive spacing never shrinks, and
/// grows unless it has reached the largest time.
pub fn next_time_step(spacing: Time) -> (res: Time)
    ensures
        res.0 == spec_next_time_step(spacing.0),
        spacing.0 > 0 ==> res.0 >= spacing.0,
        spacing.0 > 0 ==> (res.0 > spacing.0 || res.0 == i128::MAX),
{
    let s = spacing.0;
    if s <= ATTO_PER_SECOND {
        spacing.times(10)
    } else if s == 10 * ATTO_PER_SECOND {
        spacing.times(6)
    } else if s == ATTO_PER_MINUTE {
        spacing.times(10)
    } else if s == 10 * ATTO_PER_MINUTE {
        spacing.times(6)
    } else if s == ATTO_PER_HOUR {
        spacing.times(12)
    } else if s == 12 * ATTO_PER_HOUR {
        spacing.times(2)
    } else {
        spacing.times(10)
    }
}

/// A closed span of time.
#[derive(Copy, Clone, Debug, PartialEq, Eq, Structural)]
pub struct TimeRange {
    pub min: Time,
    pub max: Time,
}

/// The smallest range covering both `a` and `b`.
pub open spec fn spec_union(a: TimeRange, b: TimeRange) -> TimeRange {
    TimeRange {
        min: if a.min.0 <= b.min.0 { a.min } else { b.min },
        max: if a.max.0 >= b.max.0 { a.max } else { b.max },
    }
}

impl TimeRange {
    /// The span from `min` to `max` (clamped to the range of `Time`).
    pub fn length(&self) -> (res: Time)
        ensures
            res.0 == sat(self.max.0 - self.min.0),
    {
        self.max.saturating_sub(self.min)
    }

    /// The smallest range covering both ranges.
    pub fn union(&self, other: &TimeRange) -> (res: TimeRange)
        ensures
            res == spec_union(*self, *other),
    {
        TimeRange {
            min: if self.min.0 <= other.min.0 { self.min } else { other.min },
            max: if self.max.0 >= other.max.0 { self.max } else { other.max },
        }
    }
}

/// Union of ranges is commutative, associative and idempotent, and the union
/// covers each of its operands.
pub proof fn lemma_union_laws(a: TimeRange, b: TimeRange, c: TimeRange)
    ensures
        spec_union(a, b) == spec_union(b, a),
        spec_union(a, spec_union(b, c)) == spec_union(spec_union(a, b), c),
        spec_union(a, a) == a,
        spec_union(a, b).min.0 <= a.min.0 && spec_union(a, b).min.0 <= b.min.0,
        spec_union(a, b).max.0 >= a.max.0 && spec_union(a, b).max.0 >= b.max.0,
{
}

impl std::ops::Add for Time {
    type Output = Time;

    fn add(self, rhs: Time) -> (res: Time) {
        self.saturating_add(rhs)
    }
}

impl AddSpecImpl for Time {
    open spec fn obeys_add_spec() -> bool {
        true
    }

    open spec fn add_req(self, rhs: Time) -> bool {
        true
    }

    open spec fn add_spec(self, rhs: Time) -> Time {
        Time(sat(self.0 + rhs.0))
    }
}

impl std::ops::Sub for Time {
    type Output = Time;

    fn sub(self, rhs: Time) -> (res: Time) {
        self.saturating_sub(rhs)
    }
}

impl SubSpecImpl for Time {
    open spec fn obeys_sub_spec() -> bool {
        true
    }

    open spec fn sub_req(self, rhs: Time) -> bool {
        true
    }

    open spec fn sub_spec(self, rhs: Time) -> Time {
        Time(sat(self.0 - rhs.0))
    }
}

impl std::ops::Mul<Time> for i128 {
    type Output = Time;

    fn mul(self, rhs: Time) -> (res: Time) {
        rhs.times(self)
    }
}

impl MulSpecImpl<Time> for i128 {
    open spec fn obeys_mul_spec() -> bool {
        true
    }

    open spec fn mul_req(self, rhs: Time) -> bool {
        true
    }

    open spec fn mul_spec(self, rhs: Time) -> Time {
        Time(sat(self * rhs.0))
    }
}

impl std::ops::Div<i128> for Time {
    type Output = Time;

    fn div(self, rhs: i128) -> (res: Time) {
        self.div_by(rhs)
    }
}

impl DivSpecImpl<i128> for Time {
    open spec fn obeys_div_spec() -> bool {
        true
    }

    open spec fn div_req(self, rhs: i128) -> bool {
        rhs != 0
    }

    open spec fn div_spec(self, rhs: i128) -> Time {
        Time(sat_div(self.0, rhs))
    }
}

impl std::ops::Div for Time {
    type Output = i128;

    fn div(self, rhs: Time) -> (res: i128) {
        self.ratio(rhs)
    }
}

impl DivSpecImpl for Time {
    open spec fn obeys_div_spec() -> bool {
        true
    }

    open spec fn div_req(self, rhs: Time) -> bool {
        rhs.0 != 0
    }

    open spec fn div_spec(self, rhs: Time) -> i128 {
        sat_div(self.0, rhs.0)
    }
}

impl std::ops::Rem for Time {
    type Output = Time;

    fn rem(self, rhs: Time) -> (res: Time) {
        self.remainder(rhs)
    }
}

impl RemSpecImpl for Time {
    open spec fn obeys_rem_spec() -> bool {
        true
    }

    open spec fn rem_req(self, rhs: Time) -> bool {
        rhs.0 != 0 && !(self.0 == i128::MIN && rhs.0 == -1)
    }

    open spec fn rem_spec(self, rhs: Time) -> Time {
        Time(trem(self.0 as int, rhs.0 as int) as i128)
    }
}

} // verus!
