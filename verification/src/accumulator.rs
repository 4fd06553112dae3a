//! Streaming statistics over a series of fixed-point measurements.

use vstd::prelude::*;
use crate::fixed::{Fixed, SCALE, abs_int, div_floor64, div_floor128,
    lemma_div_in_range};

verus! {

/// The largest absolute measurement an accumulator takes, in fixed-point
/// units, so that fourth powers and their sums stay within 128 bits.
pub const MAX_SAMPLE: i64 = 0x200_0000;

/// The largest number of measurements an accumulator takes.
pub const MAX_COUNT: u64 = 0x400_0000;

/// The sum of a series of measurements.
pub open spec fn sum_of(h: Seq<int>) -> int
    decreases h.len(),
{
    if h.len() == 0 {
        0
    } else {
        sum_of(h.drop_last()) + h.last()
    }
}

/// The sum of squared measurements.
pub open spec fn sum_sq_of(h: Seq<int>) -> int
    decreases h.len(),
{
    if h.len() == 0 {
        0
    } else {
        sum_sq_of(h.drop_last()) + h.last() * h.last()
    }
}

/// The sum of fourth powers of measurements.
pub open spec fn sum_fourth_of(h: Seq<int>) -> int
    decreases h.len(),
{
    if h.len() == 0 {
        0
    } else {
        sum_fourth_of(h.drop_last())
            + h.last() * h.last() * h.last() * h.last()
    }
}

/// Every measurement of a series stays within the sample cap.
pub open spec fn samples_bounded(h: Seq<int>) -> bool {
    forall|i: int| 0 <= i < h.len()
        ==> -(MAX_SAMPLE as int) <= #[trigger] h[i] <= MAX_SAMPLE as int
}

/// An integer clamped into the signed 64-bit range.
pub open spec fn clamp64(v: int) -> int {
    if v < i64::MIN as int {
        i64::MIN as int
    } else if v > i64::MAX as int {
        i64::MAX as int
    } else {
        v
    }
}

/// The mean of a series, in fixed-point units.
pub open spec fn mean_of(h: Seq<int>) -> int {
    sum_of(h) / (h.len() as int)
}

/// The variance of a series, in fixed-point units: the mean square minus the
/// squared mean.
pub open spec fn variance_of(h: Seq<int>) -> int {
    let n = h.len() as int;
    let m = mean_of(h);
    (sum_sq_of(h) / n - m * m) / (SCALE as int)
}

/// The Binder cumulant of a series, in fixed-point units: one minus the
/// fourth moment over three squared second moments, clamped into range.
pub open spec fn binder_of(h: Seq<int>) -> int {
    let n = h.len() as int;
    let m2 = sum_sq_of(h) / n;
    let m4 = sum_fourth_of(h) / n;
    clamp64((SCALE as int) - m4 * (SCALE as int) / (3 * (m2 * m2)))
}

/// The moment sums of a bounded series grow by at most one cap power per
/// measurement.
pub proof fn lemma_moment_bounds(h: Seq<int>)
    requires
        samples_bounded(h),
    ensures
        -(h.len() as int) * (MAX_SAMPLE as int) <= sum_of(h)
            <= (h.len() as int) * (MAX_SAMPLE as int),
        0 <= sum_sq_of(h) <= (h.len() as int)
            * ((MAX_SAMPLE as int) * (MAX_SAMPLE as int)),
        0 <= sum_fourth_of(h) <= (h.len() as int)
            * ((MAX_SAMPLE as int) * (MAX_SAMPLE as int) * (MAX_SAMPLE as int)
                * (MAX_SAMPLE as int)),
    decreases h.len(),
{
    let c = MAX_SAMPLE as int;
    if h.len() == 0 {
        assert(0 * c == 0 && 0 * (c * c) == 0 && 0 * (c * c * c * c) == 0)
            by (nonlinear_arith);
    } else {
        lemma_moment_bounds(h.drop_last());
        let x = h.last();
        let n = h.len() as int;
        assert(-c <= x <= c);
        assert((n - 1) * c + c == n * c
            && -(n - 1) * c - c == -n * c
            && 0 <= x * x <= c * c
            && 0 <= x * x * x * x <= c * c * c * c
            && (n - 1) * (c * c) + c * c == n * (c * c)
            && (n - 1) * (c * c * c * c) + c * c * c * c == n * (c * c * c * c))
            by (nonlinear_arith)
            requires
                -c <= x <= c,
                0 < c,
        ;
    }
}

/// An accumulator holds the running moment sums of a stream of measurements:
/// the sum, the sum of squares, the sum of fourth powers, and the count.
pub struct Accumulator {
    sum: i64,
    sum_sq: i128,
    sum_fourth: i128,
    count: u64,
    history: Ghost<Seq<int>>,
}

impl Accumulator {
    /// The measurements taken so far.
    pub closed spec fn history_spec(&self) -> Seq<int> {
        self.history@
    }

    /// The sums track the history, the history stays bounded, and the count
    /// never passes the cap.
    pub closed spec fn inv(&self) -> bool {
        &&& self.count as int == self.history@.len()
        &&& self.count <= MAX_COUNT
        &&& samples_bounded(self.history@)
        &&& self.sum as int == sum_of(self.history@)
        &&& self.sum_sq as int == sum_sq_of(self.history@)
        &&& self.sum_fourth as int == sum_fourth_of(self.history@)
    }

    /// The invariant seen from outside.
    pub open spec fn wf(&self) -> bool {
        self.inv()
    }

    /// The number of measurements taken.
    pub closed spec fn count_spec(&self) -> int {
        self.count as int
    }

    /// What well-formedness guarantees, stated over the public view: the
    /// history is bounded and the count tracks its length.
    pub proof fn lemma_wf_facts(&self)
        requires
            self.wf(),
        ensures
            samples_bounded(self.history_spec()),
            self.count_spec() == self.history_spec().len(),
            0 <= self.count_spec() <= MAX_COUNT,
    {
    }

    /// An empty accumulator.
    pub fn new() -> (r: Accumulator)
        ensures
            r.wf(),
            r.history_spec() == Seq::<int>::empty(),
            r.count_spec() == 0,
    {
        Accumulator {
            sum: 0,
            sum_sq: 0,
            sum_fourth: 0,
            count: 0,
            history: Ghost(Seq::empty()),
        }
    }

    /// Add a measurement: all moment sums grow monotonically in its powers.
    pub fn collect(&mut self, value: Fixed)
        requires
            old(self).wf(),
            -MAX_SAMPLE <= value.units <= MAX_SAMPLE,
            old(self).count_spec() < MAX_COUNT,
        ensures
            final(self).wf(),
            final(self).history_spec()
                == old(self).history_spec().push(value.units as int),
            final(self).count_spec() == old(self).count_spec() + 1,
    {
        proof {
            lemma_moment_bounds(self.history@);
            assert(self.history@.push(value.units as int).drop_last()
                =~= self.history@);
            let c = MAX_SAMPLE as int;
            let k = self.history@.len() as int;
            assert(k * c + c == (k + 1) * c
                && -(k * c) - c == -((k + 1) * c)
                && -(k + 1) * c == -((k + 1) * c)
                && -k * c == -(k * c)
                && (k + 1) * c <= (MAX_COUNT as int) * c
                && -((k + 1) * c) >= -((MAX_COUNT as int) * c)
                && (MAX_COUNT as int) * c < i64::MAX
                && k * (c * c) + c * c == (k + 1) * (c * c)
                && (k + 1) * (c * c) <= (MAX_COUNT as int) * (c * c)
                && (MAX_COUNT as int) * (c * c) < i128::MAX
                && k * (c * c * c * c) + c * c * c * c == (k + 1) * (c * c * c * c)
                && (k + 1) * (c * c * c * c)
                    <= (MAX_COUNT as int) * (c * c * c * c)
                && (MAX_COUNT as int) * (c * c * c * c) < i128::MAX)
                by (nonlinear_arith)
                requires
                    0 <= k < MAX_COUNT as int,
                    c == MAX_SAMPLE as int,
            ;
        }
        let v = value.units;
        proof {
            assert(0 <= (value.units as int) * (value.units as int)
                <= (MAX_SAMPLE as int) * (MAX_SAMPLE as int)) by (nonlinear_arith)
                requires -(MAX_SAMPLE as int) <= value.units as int
                    <= MAX_SAMPLE as int,
            ;
        }
        let v2: i128 = (v as i128) * (v as i128);
        proof {
            let x = value.units as int;
            assert(v2 as int == x * x && (x * x) * (x * x) == x * x * x * x
                && 0 <= x * x <= (MAX_SAMPLE as int) * (MAX_SAMPLE as int)
                && 0 <= x * x * x * x <= (MAX_SAMPLE as int) * (MAX_SAMPLE as int)
                    * (MAX_SAMPLE as int) * (MAX_SAMPLE as int))
                by (nonlinear_arith)
                requires
                    v2 as int == x * x,
                    -(MAX_SAMPLE as int) <= x <= MAX_SAMPLE as int,
            ;
        }
        let v4: i128 = v2 * v2;
        self.sum = self.sum + v;
        self.sum_sq = self.sum_sq + v2;
        self.sum_fourth = self.sum_fourth + v4;
        self.count = self.count + 1;
        proof {
            self.history@ = self.history@.push(value.units as int);
        }
    }

    /// Whether the sum of squares reaches the count, so that the second
    /// moment is positive and the Binder cumulant is defined.
    pub fn second_moment_at_least_count(&self) -> (r: bool)
        requires
            self.wf(),
        ensures
            r == (sum_sq_of(self.history_spec()) >= self.count_spec()),
    {
        self.sum_sq >= self.count as i128
    }

    /// The number of measurements taken.
    pub fn count(&self) -> (r: u64)
        requires
            self.wf(),
        ensures
            r as int == self.count_spec(),
    {
        self.count
    }

    /// The mean of the measurements.
    pub fn mean(&self) -> (r: Fixed)
        requires
            self.wf(),
            self.count_spec() >= 1,
        ensures
            r.units == mean_of(self.history_spec()),
            -MAX_SAMPLE <= r.units <= MAX_SAMPLE,
    {
        proof {
            lemma_moment_bounds(self.history@);
            lemma_mean_in_range(self.history@);
        }
        Fixed { units: div_floor64(self.sum, self.count as i64) }
    }

    /// The variance of the measurements.
    pub fn variance(&self) -> (r: Fixed)
        requires
            self.wf(),
            self.count_spec() >= 1,
        ensures
            r.units == variance_of(self.history_spec()),
    {
        proof {
            lemma_moment_bounds(self.history@);
            lemma_mean_in_range(self.history@);
            lemma_second_moment_in_range(self.history@);
        }
        let m = div_floor64(self.sum, self.count as i64);
        let msq = div_floor128(self.sum_sq, self.count as i128);
        proof {
            let c = MAX_SAMPLE as int;
            assert(0 <= (m as int) * (m as int) <= c * c) by (nonlinear_arith)
                requires -c <= m as int <= c,
            ;
        }
        let centered: i128 = msq - (m as i128) * (m as i128);
        let q = div_floor128(centered, SCALE as i128);
        proof {
            let c = MAX_SAMPLE as int;
            lemma_div_in_range(centered as int, SCALE as int, c * c);
        }
        Fixed { units: q as i64 }
    }

    /// The Binder cumulant of the measurements, clamped into the fixed-point
    /// range.
    pub fn binder_cumulant(&self) -> (r: Fixed)
        requires
            self.wf(),
            self.count_spec() >= 1,
            sum_sq_of(self.history_spec()) >= self.count_spec(),
        ensures
            r.units == binder_of(self.history_spec()),
    {
        proof {
            lemma_moment_bounds(self.history@);
            lemma_second_moment_in_range(self.history@);
            lemma_fourth_moment_in_range(self.history@);
            vstd::arithmetic::div_mod::lemma_div_is_ordered(
                self.count as int, self.sum_sq as int, self.count as int);
            vstd::arithmetic::div_mod::lemma_div_by_self(self.count as int);
        }
        let m2 = div_floor128(self.sum_sq, self.count as i128);
        let m4 = div_floor128(self.sum_fourth, self.count as i128);
        proof {
            let c = MAX_SAMPLE as int;
            assert(0 < m2 as int * (m2 as int)
                && m2 as int * (m2 as int) <= (c * c) * (c * c)
                && 3 * ((m2 as int) * (m2 as int)) > 0
                && m4 as int * (SCALE as int)
                    <= (c * c * c * c) * (SCALE as int)
                && 0 <= m4 as int * (SCALE as int))
                by (nonlinear_arith)
                requires
                    1 <= m2 as int <= c * c,
                    0 <= m4 as int <= c * c * c * c,
                    SCALE > 0,
                    c > 0,
            ;
            vstd::arithmetic::div_mod::lemma_div_pos_is_pos(
                (m4 as int) * (SCALE as int), 3 * ((m2 as int) * (m2 as int)));
            assert(((MAX_SAMPLE as int) * (MAX_SAMPLE as int) * (MAX_SAMPLE as int)
                * (MAX_SAMPLE as int) * (SCALE as int))
                * (3 * ((m2 as int) * (m2 as int)))
                >= (m4 as int) * (SCALE as int)
                && 0 <= ((MAX_SAMPLE as int) * (MAX_SAMPLE as int)
                    * (MAX_SAMPLE as int) * (MAX_SAMPLE as int) * (SCALE as int))
                    * (3 * ((m2 as int) * (m2 as int)))
                && 0 <= (MAX_SAMPLE as int) * (MAX_SAMPLE as int)
                    * (MAX_SAMPLE as int) * (MAX_SAMPLE as int) * (SCALE as int))
                by (nonlinear_arith)
                requires
                    1 <= m2 as int,
                    0 <= m4 as int <= (MAX_SAMPLE as int) * (MAX_SAMPLE as int)
                        * (MAX_SAMPLE as int) * (MAX_SAMPLE as int),
                    SCALE > 0,
            ;
            lemma_div_in_range(
                (m4 as int) * (SCALE as int),
                3 * ((m2 as int) * (m2 as int)),
                (MAX_SAMPLE as int) * (MAX_SAMPLE as int) * (MAX_SAMPLE as int)
                    * (MAX_SAMPLE as int) * (SCALE as int));
        }
        let ratio = div_floor128(
            m4 * (SCALE as i128), 3 * (m2 * m2));
        let raw: i128 = (SCALE as i128) - ratio;
        let clamped: i64 = if raw < i64::MIN as i128 {
            i64::MIN
        } else if raw > i64::MAX as i128 {
            i64::MAX
        } else {
            raw as i64
        };
        Fixed { units: clamped }
    }
}

/// The variance of a bounded series stays within the squared sample cap.
pub proof fn lemma_variance_range(h: Seq<int>)
    requires
        samples_bounded(h),
        h.len() >= 1,
    ensures
        -((MAX_SAMPLE as int) * (MAX_SAMPLE as int)) <= variance_of(h)
            <= (MAX_SAMPLE as int) * (MAX_SAMPLE as int),
{
    lemma_mean_in_range(h);
    lemma_second_moment_in_range(h);
    let n = h.len() as int;
    let c = MAX_SAMPLE as int;
    let m = mean_of(h);
    assert(0 <= m * m <= c * c && (c * c) * (SCALE as int) >= c * c
        && 0 <= c * c) by (nonlinear_arith)
        requires -c <= m <= c, c > 0, SCALE >= 1,
    ;
    lemma_div_in_range(sum_sq_of(h) / n - m * m, SCALE as int, c * c);
}

/// The mean of a bounded series stays within the sample cap.
proof fn lemma_mean_in_range(h: Seq<int>)
    requires
        samples_bounded(h),
        h.len() >= 1,
    ensures
        -(MAX_SAMPLE as int) <= mean_of(h) <= MAX_SAMPLE as int,
{
    lemma_moment_bounds(h);
    let n = h.len() as int;
    let c = MAX_SAMPLE as int;
    assert(n * c == c * n && -(n * c) == -(c * n)) by (nonlinear_arith);
    lemma_div_in_range(sum_of(h), n, c);
}

/// The second moment of a bounded series stays within the squared cap.
proof fn lemma_second_moment_in_range(h: Seq<int>)
    requires
        samples_bounded(h),
        h.len() >= 1,
    ensures
        0 <= sum_sq_of(h) / (h.len() as int)
            <= (MAX_SAMPLE as int) * (MAX_SAMPLE as int),
{
    lemma_moment_bounds(h);
    let n = h.len() as int;
    let c = MAX_SAMPLE as int;
    assert(n * (c * c) == (c * c) * n && 0 <= (c * c) * n) by (nonlinear_arith)
        requires n >= 1, c >= 1,
    ;
    lemma_div_in_range(sum_sq_of(h), n, c * c);
    vstd::arithmetic::div_mod::lemma_div_pos_is_pos(sum_sq_of(h), n);
}

/// The fourth moment of a bounded series stays within the fourth cap power.
proof fn lemma_fourth_moment_in_range(h: Seq<int>)
    requires
        samples_bounded(h),
        h.len() >= 1,
    ensures
        0 <= sum_fourth_of(h) / (h.len() as int)
            <= (MAX_SAMPLE as int) * (MAX_SAMPLE as int) * (MAX_SAMPLE as int)
                * (MAX_SAMPLE as int),
{
    lemma_moment_bounds(h);
    let n = h.len() as int;
    let c = MAX_SAMPLE as int;
    assert(n * (c * c * c * c) == (c * c * c * c) * n && 0 <= (c * c * c * c) * n)
        by (nonlinear_arith)
        requires n >= 1, c >= 1,
    ;
    lemma_div_in_range(sum_fourth_of(h), n, c * c * c * c);
    vstd::arithmetic::div_mod::lemma_div_pos_is_pos(sum_fourth_of(h), n);
}

} // verus!
