//! Running statistics of the values observed for one key.
use vstd::prelude::*;

verus! {

/// The mathematical content of a key's statistics: exact bounds, exact total
/// and number of observations. The mean is `total / count`.
pub struct Summary {
    pub min: int,
    pub max: int,
    pub total: int,
    pub count: nat,
}

pub open spec fn min_int(a: int, b: int) -> int {
    if a <= b { a } else { b }
}

pub open spec fn max_int(a: int, b: int) -> int {
    if a >= b { a } else { b }
}

/// Statistics of a single observation.
pub open spec fn single(v: int) -> Summary {
    Summary { min: v, max: v, total: v, count: 1 }
}

/// Statistics of the union of two disjoint sets of observations.
pub open spec fn combine(a: Summary, b: Summary) -> Summary {
    Summary {
        min: min_int(a.min, b.min),
        max: max_int(a.max, b.max),
        total: a.total + b.total,
        count: a.count + b.count,
    }
}

/// Combining statistics is commutative.
pub proof fn lemma_combine_commutative(a: Summary, b: Summary)
    ensures
        combine(a, b) == combine(b, a),
{
}

/// Combining statistics is associative.
pub proof fn lemma_combine_associative(a: Summary, b: Summary, c: Summary)
    ensures
        combine(combine(a, b), c) == combine(a, combine(b, c)),
{
}

/// Largest magnitude of a value, in units of the fixed-point scale.
pub const MAX_UNITS: i64 = 9223372036854775807;

/// Statistics of the values seen for one key, values being fixed-point
/// integers. The exact total is kept so that the mean is exact and merges do
/// not drift.
#[derive(Clone, Copy, Debug)]
pub struct KeyStats {
    min: i64,
    max: i64,
    total: i128,
    count: u64,
}

impl View for KeyStats {
    type V = Summary;

    closed spec fn view(&self) -> Summary {
        Summary {
            min: self.min as int,
            max: self.max as int,
            total: self.total as int,
            count: self.count as nat,
        }
    }
}

/// A summary that some non-empty set of values in `[-MAX_UNITS, MAX_UNITS]`
/// can produce: at least one observation, `min <= max`, and a total between
/// `count * min` and `count * max` (so `min <= mean <= max`).
pub open spec fn summary_wf(s: Summary) -> bool {
    &&& s.count >= 1
    &&& -MAX_UNITS <= s.min <= s.max <= MAX_UNITS
    &&& s.count * s.min <= s.total <= s.count * s.max
}

proof fn lemma_total_bound(s: Summary)
    requires
        summary_wf(s),
        s.count <= u64::MAX,
    ensures
        -s.count * MAX_UNITS <= s.total <= s.count * MAX_UNITS,
        -0x7fff_ffff_ffff_ffff_8000_0000_0000_0001 <= s.total
            <= 0x7fff_ffff_ffff_ffff_8000_0000_0000_0001,
{
    assert(s.count * s.min >= s.count * (-MAX_UNITS)) by (nonlinear_arith)
        requires
            s.count >= 1,
            s.min >= -MAX_UNITS,
    ;
    assert(s.count * s.max <= s.count * MAX_UNITS) by (nonlinear_arith)
        requires
            s.count >= 1,
            s.max <= MAX_UNITS,
    ;
    assert(s.count * MAX_UNITS <= 0x7fff_ffff_ffff_ffff_8000_0000_0000_0001) by (nonlinear_arith)
        requires
            s.count <= u64::MAX,
    ;
}

/// Combining two well-formed summaries gives a well-formed summary.
pub proof fn lemma_combine_wf(a: Summary, b: Summary)
    requires
        summary_wf(a),
        summary_wf(b),
    ensures
        summary_wf(combine(a, b)),
{
    let c = combine(a, b);
    assert(a.count * c.min <= a.count * a.min) by (nonlinear_arith)
        requires
            a.count >= 1,
            c.min <= a.min,
    ;
    assert(b.count * c.min <= b.count * b.min) by (nonlinear_arith)
        requires
            b.count >= 1,
            c.min <= b.min,
    ;
    assert(a.count * a.max <= a.count * c.max) by (nonlinear_arith)
        requires
            a.count >= 1,
            a.max <= c.max,
    ;
    assert(b.count * b.max <= b.count * c.max) by (nonlinear_arith)
        requires
            b.count >= 1,
            b.max <= c.max,
    ;
    assert(c.count * c.min == a.count * c.min + b.count * c.min) by (nonlinear_arith)
        requires
            c.count == a.count + b.count,
    ;
    assert(c.count * c.max == a.count * c.max + b.count * c.max) by (nonlinear_arith)
        requires
            c.count == a.count + b.count,
    ;
}

impl KeyStats {
    pub open spec fn wf(&self) -> bool {
        summary_wf(self@)
    }

    /// Statistics of one observed value.
    pub fn new(value: i64) -> (r: KeyStats)
        requires
            -MAX_UNITS <= value,
        ensures
            r.wf(),
            r@ == single(value as int),
    {
        KeyStats { min: value, max: value, total: value as i128, count: 1 }
    }

    /// Adds another set of observations to these.
    pub fn combine(&mut self, other: &KeyStats)
        requires
            old(self).wf(),
            other.wf(),
            old(self)@.count + other@.count <= u64::MAX,
        ensures
            final(self).wf(),
            final(self)@ == combine(old(self)@, other@),
    {
        proof {
            lemma_total_bound(self@);
            lemma_total_bound(other@);
            lemma_combine_wf(self@, other@);
            lemma_total_bound(combine(self@, other@));
        }
        if other.min < self.min {
            self.min = other.min;
        }
        if other.max > self.max {
            self.max = other.max;
        }
        self.total = self.total + other.total;
        self.count = self.count + other.count;
    }

    /// Adds one observed value.
    pub fn observe(&mut self, value: i64)
        requires
            old(self).wf(),
            -MAX_UNITS <= value,
            old(self)@.count < u64::MAX,
        ensures
            final(self).wf(),
            final(self)@ == combine(old(self)@, single(value as int)),
    {
        let one = KeyStats::new(value);
        self.combine(&one);
    }

    /// Smallest value observed.
    pub fn min(&self) -> (r: i64)
        ensures
            r == self@.min,
    {
        self.min
    }

    /// Largest value observed.
    pub fn max(&self) -> (r: i64)
        ensures
            r == self@.max,
    {
        self.max
    }

    /// Exact sum of the values observed; the mean is `total / count`.
    pub fn total(&self) -> (r: i128)
        ensures
            r == self@.total,
    {
        self.total
    }

    /// Number of values observed.
    pub fn count(&self) -> (r: u64)
        ensures
            r == self@.count,
    {
        self.count
    }
}

} // verus!
