//! Units of timestamps read from columns of text.
use vstd::prelude::*;

verus! {

/// The unit that absolute timestamps are counted in.
#[derive(Copy, Clone, PartialEq, Eq, Debug, Structural)]
pub enum TimeUnit {
    Second,
    Millisecond,
    Microsecond,
    Nanosecond,
}

/// Units of the unit per second.
pub open spec fn per_second(u: TimeUnit) -> nat {
    match u {
        TimeUnit::Second => 1,
        TimeUnit::Millisecond => 1_000,
        TimeUnit::Microsecond => 1_000_000,
        TimeUnit::Nanosecond => 1_000_000_000,
    }
}

/// A duration of `secs` seconds and `nanos` nanoseconds counted in whole
/// units, when that fits in a `u64`.
pub open spec fn spec_scale(u: TimeUnit, secs: u64, nanos: u32) -> Option<u64> {
    let total = secs * per_second(u) + (nanos as nat) / (1_000_000_000nat / per_second(u));
    if total <= u64::MAX {
        Some(total as u64)
    } else {
        None
    }
}

impl TimeUnit {
    /// The duration of `secs` seconds and `nanos` (less than a second of)
    /// nanoseconds in whole units of `self`, as `Duration::as_secs`,
    /// `as_millis`, `as_micros` and `as_nanos` count it; none when that
    /// does not fit in a `u64`.
    pub fn scale(self, secs: u64, nanos: u32) -> (res: Option<u64>)
        requires
            nanos < 1_000_000_000,
        ensures
            res == spec_scale(self, secs, nanos),
    {
        let per: u128 = match self {
            TimeUnit::Second => 1,
            TimeUnit::Millisecond => 1_000,
            TimeUnit::Microsecond => 1_000_000,
            TimeUnit::Nanosecond => 1_000_000_000,
        };
        let total: u128 = (secs as u128) * per + (nanos as u128) / (1_000_000_000 / per);
        if total <= u64::MAX as u128 {
            Some(total as u64)
        } else {
            None
        }
    }
}

} // verus!
