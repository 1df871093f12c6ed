//! Grid ticks of a time axis: which times get a tick, how strong each tick
//! is, and at what precision its label is written.
use vstd::prelude::*;
use crate::time::{Time, TimeRange, sat, tdiv, trem, spec_next_time_step, next_time_step};

verus! {

/// How strong a tick is: every small step gets a tick, every medium step a
/// stronger one, every big step the strongest.
#[derive(Copy, Clone, PartialEq, Eq, Debug, Structural)]
pub enum TickLevel {
    Small,
    Medium,
    Big,
}

/// A tick: its time, its level, and the precision its label is written at.
#[derive(Copy, Clone, PartialEq, Eq, Debug, Structural)]
pub struct Tick {
    pub time: Time,
    pub level: TickLevel,
    pub precision: Time,
}

/// The first tick at or below the visible start: the start divided by the
/// small step (rounding toward zero) times the step, saturating.
pub open spec fn first_tick(min: i128, small: i128) -> int {
    sat(sat(tdiv(min as int, small as int)) * small) as int
}

/// The tick at time `t`: big at multiples of the big step, else medium at
/// multiples of the medium step, else small; labelled at the precision of
/// its step.
pub open spec fn spec_tick(t: i128, small: i128, medium: i128, big: i128) -> Tick {
    if trem(t as int, big as int) == 0 {
        Tick { time: Time(t), level: TickLevel::Big, precision: Time(big) }
    } else if trem(t as int, medium as int) == 0 {
        Tick { time: Time(t), level: TickLevel::Medium, precision: Time(medium) }
    } else {
        Tick { time: Time(t), level: TickLevel::Small, precision: Time(small) }
    }
}

/// The number of small steps from `first` that stay within `max`.
pub open spec fn tick_count(first: int, max: int, small: int) -> nat {
    if first > max {
        0
    } else {
        ((max - first) / small + 1) as nat
    }
}

/// The ticks of a time axis showing `visible`, with `small` the spacing of
/// the finest ticks: from the first tick, every `small` step up to the end
/// of the visible range, each classed by the next two coarser spacings.
pub fn time_ticks(visible: TimeRange, small: Time) -> (res: Vec<Tick>)
    requires
        small.0 > 0,
        visible.max.0 + small.0 <= i128::MAX,
    ensures
        ({
            let medium = spec_next_time_step(small.0);
            let big = spec_next_time_step(medium);
            let first = first_tick(visible.min.0, small.0);
            &&& res@.len() == tick_count(first, visible.max.0 as int, small.0 as int)
            &&& forall|i: int|
                0 <= i < res@.len() ==> #[trigger] res@[i] == spec_tick(
                    (first + i * small.0) as i128,
                    small.0,
                    medium,
                    big,
                )
        }),
{
    let medium = next_time_step(small);
    let big = next_time_step(medium);
    let q = visible.min.ratio(small);
    let mut current = small.times(q);
    let ghost first = current.0 as int;
    let mut out: Vec<Tick> = Vec::new();
    while current.0 <= visible.max.0
        invariant
            small.0 > 0,
            medium.0 >= small.0,
            big.0 >= medium.0,
            medium.0 == spec_next_time_step(small.0),
            big.0 == spec_next_time_step(medium.0),
            visible.max.0 + small.0 <= i128::MAX,
            first == first_tick(visible.min.0, small.0),
            current.0 == first + out@.len() * small.0,
            first <= visible.max.0 ==> current.0 <= visible.max.0 + small.0,
            first > visible.max.0 ==> out@.len() == 0,
            forall|i: int|
                0 <= i < out@.len() ==> #[trigger] out@[i] == spec_tick(
                    (first + i * small.0) as i128,
                    small.0,
                    medium.0,
                    big.0,
                ),
        decreases visible.max.0 + small.0 - current.0,
    {
        let t = current;
        let tick = if t.remainder(big).0 == 0 {
            Tick { time: t, level: TickLevel::Big, precision: big }
        } else if t.remainder(medium).0 == 0 {
            Tick { time: t, level: TickLevel::Medium, precision: medium }
        } else {
            Tick { time: t, level: TickLevel::Small, precision: small }
        };
        out.push(tick);
        current = Time(current.0 + small.0);
        proof {
            assert(current.0 == first + out@.len() * small.0) by (nonlinear_arith)
                requires
                    current.0 == t.0 + small.0,
                    t.0 == first + (out@.len() - 1) * small.0,
            ;
        }
    }
    proof {
        let n = out@.len() as int;
        let s = small.0 as int;
        let m = visible.max.0 as int;
        if first <= m {
            assert(n >= 1) by {
                if n == 0 {
                    assert(current.0 == first);
                }
            }
            assert(first + (n - 1) * s <= m) by (nonlinear_arith)
                requires
                    current.0 == first + n * s,
                    current.0 > m,
                    n >= 1,
                    s > 0,
                    first <= m,
                    current.0 <= m + s,
            ;
            lemma_count(first, m, s, n);
        }
    }
    out
}

/// `n` steps of `s` from `first` pass `m` exactly when `n` is the count.
proof fn lemma_count(first: int, m: int, s: int, n: int)
    requires
        s > 0,
        n >= 1,
        first <= m,
        first + (n - 1) * s <= m,
        first + n * s > m,
    ensures
        n == tick_count(first, m, s),
{
    let q = (m - first) / s;
    vstd::arithmetic::div_mod::lemma_fundamental_div_mod(m - first, s);
    let r = (m - first) % s;
    assert((n - 1) * s <= m - first);
    assert(n * s > m - first);
    assert(m - first == s * q + r);
    assert(0 <= r < s);
    if n - 1 < q {
        assert((n - 1 + 1) * s <= q * s) by (nonlinear_arith)
            requires
                n - 1 < q,
                s > 0,
        ;
        assert(q * s == s * q) by (nonlinear_arith);
    } else if n - 1 > q {
        assert((n - 1) * s >= (q + 1) * s) by (nonlinear_arith)
            requires
                n - 1 > q,
                s > 0,
        ;
        assert((q + 1) * s == s * q + s) by (nonlinear_arith);
    }
}

} // verus!
