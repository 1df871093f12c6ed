use vstd::prelude::*;

verus! {

/// Index of a sample within a stream.
pub type Idx = u64;

/// End-exclusive range of indexes
#[derive(Clone, Copy, Debug, PartialEq, Eq, Structural)]
pub struct IdxRange {
    pub min: Idx,
    pub max: Idx,
}

/// Number of indexes covered by `[min, max)` (zero when `max <= min`).
pub open spec fn spec_range_len(r: IdxRange) -> int {
    if r.max >= r.min { r.max - r.min } else { 0 }
}

/// Index `i` lies within the end-exclusive range `r`.
pub open spec fn spec_in_range(r: IdxRange, i: int) -> bool {
    r.min <= i < r.max
}

/// Rounded-up quotient `ceil(a / b)` for `b > 0`.
pub open spec fn spec_div_ceil(a: int, b: int) -> int {
    if a % b == 0 { a / b } else { a / b + 1 }
}

impl IdxRange {
    /// True when the range holds no index.
    pub fn is_empty(&self) -> (res: bool)
        ensures
            res == (self.min >= self.max),
            res == (forall|i: int| !spec_in_range(*self, i)),
    {
        if self.min >= self.max {
            true
        } else {
            assert(spec_in_range(*self, self.min as int));
            false
        }
    }

    /// Number of indexes in the range; the range must not be inverted.
    pub fn len(&self) -> (res: u64)
        requires
            self.min <= self.max,
        ensures
            res == self.max - self.min,
            res == spec_range_len(*self),
    {
        self.max - self.min
    }

    /// True when `other` lies entirely within `self`.
    pub fn contains(&self, other: IdxRange) -> (res: bool)
        ensures
            res == (self.min <= other.min && other.max <= self.max),
    {
        self.min <= other.min && other.max <= self.max
    }

    /// The range of `by`-sized blocks that cover this range.
    pub fn divide(&self, by: u64) -> (res: IdxRange)
        requires
            by > 0,
        ensures
            res.min == self.min / by,
            res.max == spec_div_ceil(self.max as int, by as int),
    {
        let q = self.max / by;
        proof {
            if self.max % by != 0 {
                assert(q < self.max) by (nonlinear_arith)
                    requires
                        q == self.max / by,
                        self.max % by != 0,
                        by > 0,
                ;
            }
        }
        let max = if self.max % by == 0 { q } else { q + 1 };
        IdxRange { min: self.min / by, max }
    }

    /// The range of indexes covered by blocks `[min, max)` of size `by`.
    pub fn multiply(&self, by: u64) -> (res: IdxRange)
        requires
            self.min * by <= u64::MAX,
            self.max * by <= u64::MAX,
        ensures
            res.min == self.min * by,
            res.max == self.max * by,
    {
        IdxRange { min: self.min * by, max: self.max * by }
    }
}

/// Dividing a range into blocks of `by` indexes and multiplying back covers
/// the range: the blocks holding its indexes span at least the range, and
/// every index of the range lies in a block of the divided range.
pub proof fn lemma_divide_multiply_covers(r: IdxRange, by: u64)
    requires
        by > 0,
    ensures
        (r.min / by) * by <= r.min,
        spec_div_ceil(r.max as int, by as int) * by >= r.max,
        forall|i: int|
            spec_in_range(r, i) ==> r.min / by <= #[trigger] (i / (by as int)) < spec_div_ceil(
                r.max as int,
                by as int,
            ),
{
    let b = by as int;
    vstd::arithmetic::div_mod::lemma_fundamental_div_mod(r.min as int, b);
    vstd::arithmetic::div_mod::lemma_fundamental_div_mod(r.max as int, b);
    assert((r.min / by) * by <= r.min) by (nonlinear_arith)
        requires
            b == by,
            r.min as int == b * (r.min as int / b) + r.min as int % b,
            0 <= r.min as int % b,
            r.min / by == r.min as int / b,
    ;
    assert(spec_div_ceil(r.max as int, b) * b >= r.max) by (nonlinear_arith)
        requires
            r.max as int == b * (r.max as int / b) + r.max as int % b,
            0 <= r.max as int % b < b,
            spec_div_ceil(r.max as int, b) == (if r.max as int % b == 0 {
                r.max as int / b
            } else {
                r.max as int / b + 1
            }),
    ;
    assert forall|i: int| spec_in_range(r, i) implies r.min / by <= #[trigger] (i / b) < spec_div_ceil(
        r.max as int,
        b,
    ) by {
        vstd::arithmetic::div_mod::lemma_div_is_ordered(r.min as int, i, b);
        vstd::arithmetic::div_mod::lemma_fundamental_div_mod(i, b);
        assert(i / b < spec_div_ceil(r.max as int, b)) by (nonlinear_arith)
            requires
                i < r.max,
                0 <= i,
                i == b * (i / b) + i % b,
                0 <= i % b < b,
                r.max as int == b * (r.max as int / b) + r.max as int % b,
                0 <= r.max as int % b < b,
                spec_div_ceil(r.max as int, b) == (if r.max as int % b == 0 {
                    r.max as int / b
                } else {
                    r.max as int / b + 1
                }),
                b > 0,
        ;
    }
}

} // verus!
