//! Text renderings of times: relative to a unit, as a clock reading, and as
//! the frequency of a period.
use vstd::prelude::*;
use crate::time::{
    Time, mag, sat_div, tdiv, trem, ATTO_PER_FEMTOSECOND, ATTO_PER_PICOSECOND,
    ATTO_PER_NANOSECOND, ATTO_PER_MICROSECOND, ATTO_PER_MILLISECOND, ATTO_PER_SECOND,
    ATTO_PER_MINUTE, ATTO_PER_HOUR,
};
use crate::text::{dec_int, dec_nat, zero_pad, push_decimal, push_decimal_signed, push_decimal_padded, push_str};

verus! {

/// A time rendered as a whole number of the largest unit not above the precision.
pub struct FormatRelative {
    pub time: Time,
    pub precision: Time,
}

/// A time rendered as hours, minutes and seconds, with as many decimals as
/// the precision calls for.
pub struct FormatFixed {
    pub time: Time,
    pub precision: Time,
}

/// A period rendered as the frequency it repeats at.
pub struct FormatFreq {
    pub period: Time,
}

/// The unit that a relative rendering counts in, for a precision `p`.
pub open spec fn relative_unit(p: i128) -> i128 {
    if p >= ATTO_PER_HOUR {
        ATTO_PER_HOUR
    } else if p >= ATTO_PER_MINUTE {
        ATTO_PER_MINUTE
    } else if p >= ATTO_PER_SECOND {
        ATTO_PER_SECOND
    } else if p >= ATTO_PER_MILLISECOND {
        ATTO_PER_MILLISECOND
    } else if p >= ATTO_PER_MICROSECOND {
        ATTO_PER_MICROSECOND
    } else if p >= ATTO_PER_NANOSECOND {
        ATTO_PER_NANOSECOND
    } else if p >= ATTO_PER_PICOSECOND {
        ATTO_PER_PICOSECOND
    } else if p >= ATTO_PER_FEMTOSECOND {
        ATTO_PER_FEMTOSECOND
    } else {
        1
    }
}

/// The unit name, with its leading space, that goes with `relative_unit(p)`.
pub open spec fn relative_suffix(p: i128) -> Seq<char> {
    if p >= ATTO_PER_HOUR {
        " h"@
    } else if p >= ATTO_PER_MINUTE {
        " min"@
    } else if p >= ATTO_PER_SECOND {
        " s"@
    } else if p >= ATTO_PER_MILLISECOND {
        " ms"@
    } else if p >= ATTO_PER_MICROSECOND {
        " μs"@
    } else if p >= ATTO_PER_NANOSECOND {
        " ns"@
    } else if p >= ATTO_PER_PICOSECOND {
        " ps"@
    } else if p >= ATTO_PER_FEMTOSECOND {
        " fs"@
    } else {
        " as"@
    }
}

/// The relative rendering of `t` at precision `p`: the count of whole units
/// (rounded toward zero), then the unit.
pub open spec fn relative_text(t: i128, p: i128) -> Seq<char> {
    dec_int(sat_div(t, relative_unit(p)) as int) + relative_suffix(p)
}

/// `x` reduced modulo `2^bits`, as a cast to an unsigned type of that width does.
pub open spec fn wrap_unsigned(x: int, modulus: int) -> int {
    x % modulus
}

/// Decimal digits in `n` less one (`ilog10`); zero for `n < 10`.
pub open spec fn log10(n: nat) -> nat
    decreases n,
{
    if n < 10 {
        0
    } else {
        1 + log10(n / 10)
    }
}

/// `10^k`.
pub open spec fn pow10(k: nat) -> nat
    decreases k,
{
    if k == 0 {
        1
    } else {
        10 * pow10((k - 1) as nat)
    }
}

/// The clock fields of a time: whole hours, then minutes and seconds as
/// unsigned 32-bit values and the sub-second attoseconds as an unsigned
/// 64-bit value, each taken from the remainder of the one before.
pub open spec fn clock_fields(t: i128) -> (int, int, int, int) {
    let hour = tdiv(t as int, ATTO_PER_HOUR as int);
    let t1 = trem(t as int, ATTO_PER_HOUR as int);
    let minute = tdiv(t1, ATTO_PER_MINUTE as int);
    let t2 = trem(t1, ATTO_PER_MINUTE as int);
    let second = tdiv(t2, ATTO_PER_SECOND as int);
    let t3 = trem(t2, ATTO_PER_SECOND as int);
    (
        hour,
        wrap_unsigned(minute, 0x1_0000_0000),
        wrap_unsigned(second, 0x1_0000_0000),
        wrap_unsigned(t3, 0x1_0000_0000_0000_0000),
    )
}

/// Number of decimals shown for a sub-second precision `p`.
pub open spec fn fixed_decimals(p: i128) -> nat {
    let l = log10(wrap_unsigned(p as int, 0x1_0000_0000_0000_0000) as nat);
    if l >= 18 {
        0
    } else {
        (18 - l) as nat
    }
}

/// The fixed rendering of `t` at precision `p`.
pub open spec fn fixed_text(t: i128, p: i128) -> Seq<char> {
    let (hour, minute, second, subsec) = clock_fields(t);
    if p >= ATTO_PER_HOUR {
        dec_int(hour) + " h"@
    } else if p >= ATTO_PER_MINUTE {
        dec_int(hour) + ":"@ + zero_pad(dec_nat(minute as nat), 2) + " min"@
    } else {
        let head = if hour > 0 {
            dec_int(hour) + ":"@ + zero_pad(dec_nat(minute as nat), 2) + ":"@ + zero_pad(
                dec_nat(second as nat),
                2,
            )
        } else if minute > 0 {
            dec_nat(minute as nat) + ":"@ + zero_pad(dec_nat(second as nat), 2)
        } else {
            dec_nat(second as nat)
        };
        if p >= ATTO_PER_SECOND {
            head + " s"@
        } else {
            let digits = fixed_decimals(p);
            let shown = subsec / (pow10((18 - digits) as nat) as int);
            head + "."@ + zero_pad(dec_nat(shown as nat), digits) + " s"@
        }
    }
}

/// A frequency of `1000 * unit / period` thousandths of a unit, rendered with
/// the thousandths after a point when there are any (without padding them).
pub open spec fn milli_text(val: int, unit: Seq<char>) -> Seq<char> {
    if val % 1000 == 0 {
        dec_nat((val / 1000) as nat) + " "@ + unit
    } else {
        dec_nat((val / 1000) as nat) + "."@ + dec_nat((val % 1000) as nat) + " "@ + unit
    }
}

/// Thousandths of a frequency unit of which `unit` is the period.
pub open spec fn milli_freq(unit: i128, period: i128) -> int {
    (1000 * unit) / (period as int)
}

/// The frequency rendering of a positive `period`.
pub open spec fn freq_text(period: i128) -> Seq<char> {
    if period >= ATTO_PER_HOUR {
        "1 / "@ + dec_int(sat_div(period, ATTO_PER_HOUR) as int) + " h"@
    } else if period >= ATTO_PER_MINUTE {
        "1 / "@ + dec_int(sat_div(period, ATTO_PER_MINUTE) as int) + " min"@
    } else if period > ATTO_PER_SECOND {
        "1 / "@ + dec_int(sat_div(period, ATTO_PER_SECOND) as int) + " s"@
    } else if period > ATTO_PER_MILLISECOND {
        milli_text(milli_freq(ATTO_PER_SECOND, period), "Hz"@)
    } else if period > ATTO_PER_MICROSECOND {
        milli_text(milli_freq(ATTO_PER_MILLISECOND, period), "kHz"@)
    } else if period > ATTO_PER_NANOSECOND {
        milli_text(milli_freq(ATTO_PER_MICROSECOND, period), "MHz"@)
    } else if period > ATTO_PER_PICOSECOND {
        milli_text(milli_freq(ATTO_PER_NANOSECOND, period), "GHz"@)
    } else if period > ATTO_PER_FEMTOSECOND {
        milli_text(milli_freq(ATTO_PER_PICOSECOND, period), "THz"@)
    } else {
        milli_text(milli_freq(ATTO_PER_FEMTOSECOND, period), "PHz"@)
    }
}

impl Time {
    /// Renders `self` counted in the unit that `precision` selects.
    pub fn format_relative(&self, precision: Time) -> (res: FormatRelative)
        ensures
            res.time == *self,
            res.precision == precision,
    {
        FormatRelative { time: *self, precision }
    }

    /// Renders `self`, a period, as a frequency.
    pub fn format_period_as_freq(&self) -> (res: FormatFreq)
        ensures
            res.period == *self,
    {
        FormatFreq { period: *self }
    }

    /// Renders `self` as a clock reading with decimals down to `precision`.
    pub fn format_fixed(&self, precision: Time) -> (res: FormatFixed)
        ensures
            res.time == *self,
            res.precision == precision,
    {
        FormatFixed { time: *self, precision }
    }
}

impl FormatRelative {
    /// The rendered text.
    pub fn to_string(&self) -> (res: String)
        ensures
            res@ == relative_text(self.time.0, self.precision.0),
    {
        let p = self.precision.0;
        let (unit, suffix): (i128, &str) = if p >= ATTO_PER_HOUR {
            (ATTO_PER_HOUR, " h")
        } else if p >= ATTO_PER_MINUTE {
            (ATTO_PER_MINUTE, " min")
        } else if p >= ATTO_PER_SECOND {
            (ATTO_PER_SECOND, " s")
        } else if p >= ATTO_PER_MILLISECOND {
            (ATTO_PER_MILLISECOND, " ms")
        } else if p >= ATTO_PER_MICROSECOND {
            (ATTO_PER_MICROSECOND, " μs")
        } else if p >= ATTO_PER_NANOSECOND {
            (ATTO_PER_NANOSECOND, " ns")
        } else if p >= ATTO_PER_PICOSECOND {
            (ATTO_PER_PICOSECOND, " ps")
        } else if p >= ATTO_PER_FEMTOSECOND {
            (ATTO_PER_FEMTOSECOND, " fs")
        } else {
            (1, " as")
        };
        let count = self.time.ratio(Time(unit));
        let mut s = String::new();
        push_decimal_signed(&mut s, count);
        push_str(&mut s, suffix);
        s
    }
}

/// `ilog10` of a positive `n`.
fn ilog10(n: u64) -> (res: u32)
    requires
        n > 0,
    ensures
        res == log10(n as nat),
        res <= 19,
{
    proof {
        lemma_log10_u64(n as nat);
    }
    let mut m = n;
    let mut k: u32 = 0;
    while m >= 10
        invariant
            m > 0,
            log10(n as nat) == k + log10(m as nat),
            log10(n as nat) <= 19,
        decreases m,
    {
        m = m / 10;
        k = k + 1;
    }
    k
}

proof fn lemma_log10_u64(n: nat)
    requires
        n <= u64::MAX,
    ensures
        log10(n) <= 19,
{
    assert(pow10(20) == 100_000_000_000_000_000_000) by {
        reveal_with_fuel(pow10, 21);
    }
    lemma_log10_bound(n, 20);
}

proof fn lemma_log10_bound(n: nat, k: nat)
    requires
        n < pow10(k),
        k >= 1,
    ensures
        log10(n) < k,
    decreases k,
{
    if n >= 10 {
        assert(n / 10 < pow10((k - 1) as nat));
        if k == 1 {
            assert(pow10(1) == 10 * pow10(0));
        } else {
            lemma_log10_bound(n / 10, (k - 1) as nat);
        }
    }
}

proof fn lemma_pow10_mono(i: nat, j: nat)
    requires
        i <= j,
    ensures
        pow10(i) <= pow10(j),
        pow10(i) >= 1,
    decreases j,
{
    if j > i {
        lemma_pow10_mono(i, (j - 1) as nat);
    } else if i > 0 {
        lemma_pow10_mono((i - 1) as nat, (i - 1) as nat);
    }
}

/// `10^k` for `k <= 18`.
fn pow10_u64(k: u32) -> (res: u64)
    requires
        k <= 18,
    ensures
        res == pow10(k as nat),
        res >= 1,
{
    proof {
        lemma_pow10_mono(k as nat, k as nat);
        assert(pow10(18) == 1_000_000_000_000_000_000) by {
            reveal_with_fuel(pow10, 19);
        }
    }
    let mut r: u64 = 1;
    let mut i: u32 = 0;
    while i < k
        invariant
            i <= k <= 18,
            r == pow10(i as nat),
            pow10(18) == 1_000_000_000_000_000_000,
        decreases k - i,
    {
        proof {
            lemma_pow10_mono((i + 1) as nat, 18);
        }
        r = r * 10;
        i = i + 1;
    }
    r
}

/// A value in `(-2^32, 2^32)` cast to `u32`.
fn wrap_u32(x: i128) -> (res: u32)
    requires
        -0x1_0000_0000 < x < 0x1_0000_0000,
    ensures
        res == wrap_unsigned(x as int, 0x1_0000_0000),
{
    if x >= 0 {
        x as u32
    } else {
        (x + 0x1_0000_0000) as u32
    }
}

/// An `i128` cast to `u64`.
fn wrap_u64(x: i128) -> (res: u64)
    ensures
        res == wrap_unsigned(x as int, 0x1_0000_0000_0000_0000),
{
    let m: u128 = 0x1_0000_0000_0000_0000;
    if x >= 0 {
        ((x as u128) % m) as u64
    } else {
        let r = crate::time::magnitude(x) % m;
        proof {
            let a = mag(x as int) as int;
            vstd::arithmetic::div_mod::lemma_fundamental_div_mod(a, m as int);
            let q = a / (m as int);
            assert(x == -(m * q) - r);
            if r == 0 {
                assert(x == (-q) * m) by (nonlinear_arith)
                    requires
                        x == -(m * q) - r,
                        r == 0,
                ;
                vstd::arithmetic::div_mod::lemma_mod_multiples_basic(-q, m as int);
            } else {
                assert(x == m * (-q - 1) + (m - r)) by (nonlinear_arith)
                    requires
                        x == -(m * q) - r,
                ;
                vstd::arithmetic::div_mod::lemma_mod_multiples_vanish(-q - 1, (m - r) as int, m as int);
                vstd::arithmetic::div_mod::lemma_small_mod((m - r) as nat, m as nat);
            }
        }
        if r == 0 {
            0
        } else {
            (m - r) as u64
        }
    }
}

impl FormatFixed {
    /// The rendered text.
    pub fn to_string(&self) -> (res: String)
        requires
            self.precision.0 >= ATTO_PER_SECOND || wrap_unsigned(
                self.precision.0 as int,
                0x1_0000_0000_0000_0000,
            ) != 0,
        ensures
            res@ == fixed_text(self.time.0, self.precision.0),
    {
        let (hour, t1) = self.time.div_rem(Time(ATTO_PER_HOUR));
        let (minute, t2) = t1.div_rem(Time(ATTO_PER_MINUTE));
        let (second, t3) = t2.div_rem(Time(ATTO_PER_SECOND));
        proof {
            crate::time::lemma_sat_div_positive(self.time.0, ATTO_PER_HOUR);
            crate::time::lemma_sat_div_positive(t1.0, ATTO_PER_MINUTE);
            crate::time::lemma_sat_div_positive(t2.0, ATTO_PER_SECOND);
            crate::time::lemma_trem_bound(self.time.0 as int, ATTO_PER_HOUR as int);
            crate::time::lemma_trem_bound(t1.0 as int, ATTO_PER_MINUTE as int);
            crate::time::lemma_trem_bound(t2.0 as int, ATTO_PER_SECOND as int);
            crate::time::lemma_tdiv_small(t1.0 as int, ATTO_PER_MINUTE as int, ATTO_PER_HOUR as int);
            crate::time::lemma_tdiv_small(t2.0 as int, ATTO_PER_SECOND as int, ATTO_PER_MINUTE as int);
        }
        let minute = wrap_u32(minute);
        let second = wrap_u32(second);
        let subsec_atto = wrap_u64(t3.0);
        let p = self.precision.0;
        let mut s = String::new();
        if p >= ATTO_PER_HOUR {
            push_decimal_signed(&mut s, hour);
            push_str(&mut s, " h");
        } else if p >= ATTO_PER_MINUTE {
            push_decimal_signed(&mut s, hour);
            push_str(&mut s, ":");
            push_decimal_padded(&mut s, minute as u128, 2);
            push_str(&mut s, " min");
        } else {
            if hour > 0 {
                push_decimal_signed(&mut s, hour);
                push_str(&mut s, ":");
                push_decimal_padded(&mut s, minute as u128, 2);
                push_str(&mut s, ":");
                push_decimal_padded(&mut s, second as u128, 2);
            } else if minute > 0 {
                push_decimal(&mut s, minute as u128);
                push_str(&mut s, ":");
                push_decimal_padded(&mut s, second as u128, 2);
            } else {
                push_decimal(&mut s, second as u128);
            }
            if p >= ATTO_PER_SECOND {
                push_str(&mut s, " s");
            } else {
                let l = ilog10(wrap_u64(p));
                let digits: u32 = if l >= 18 { 0 } else { 18 - l };
                let subsec = subsec_atto / pow10_u64(18 - digits);
                push_str(&mut s, ".");
                push_decimal_padded(&mut s, subsec as u128, digits as usize);
                push_str(&mut s, " s");
            }
        }
        s
    }
}

/// Appends `milli_text(val, unit)`.
fn push_milli(s: &mut String, val: u128, unit: &str)
    ensures
        final(s)@ == old(s)@ + milli_text(val as int, unit@),
{
    if val % 1000 == 0 {
        push_decimal(s, val / 1000);
        push_str(s, " ");
        push_str(s, unit);
    } else {
        push_decimal(s, val / 1000);
        push_str(s, ".");
        push_decimal(s, val % 1000);
        push_str(s, " ");
        push_str(s, unit);
    }
}

impl FormatFreq {
    /// The rendered text; the period must be positive.
    pub fn to_string(&self) -> (res: String)
        requires
            self.period.0 > 0,
        ensures
            res@ == freq_text(self.period.0),
    {
        let p = self.period.0;
        let mut s = String::new();
        if p >= ATTO_PER_HOUR || p >= ATTO_PER_MINUTE || p > ATTO_PER_SECOND {
            let (unit, suffix): (i128, &str) = if p >= ATTO_PER_HOUR {
                (ATTO_PER_HOUR, " h")
            } else if p >= ATTO_PER_MINUTE {
                (ATTO_PER_MINUTE, " min")
            } else {
                (ATTO_PER_SECOND, " s")
            };
            push_str(&mut s, "1 / ");
            push_decimal_signed(&mut s, self.period.ratio(Time(unit)));
            push_str(&mut s, suffix);
        } else {
            let (unit, name): (i128, &str) = if p > ATTO_PER_MILLISECOND {
                (ATTO_PER_SECOND, "Hz")
            } else if p > ATTO_PER_MICROSECOND {
                (ATTO_PER_MILLISECOND, "kHz")
            } else if p > ATTO_PER_NANOSECOND {
                (ATTO_PER_MICROSECOND, "MHz")
            } else if p > ATTO_PER_PICOSECOND {
                (ATTO_PER_NANOSECOND, "GHz")
            } else if p > ATTO_PER_FEMTOSECOND {
                (ATTO_PER_PICOSECOND, "THz")
            } else {
                (ATTO_PER_FEMTOSECOND, "PHz")
            };
            let val = (1000 * unit) / p;
            proof {
                vstd::arithmetic::div_mod::lemma_div_pos_is_pos((1000 * unit) as int, p as int);
            }
            push_milli(&mut s, val as u128, name);
        }
        s
    }
}

} // verus!
