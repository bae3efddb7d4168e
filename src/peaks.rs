use vstd::prelude::*;
use crate::energy::UNIT;

verus! {

/// A threshold `num / den` on energies; `den` is positive.
#[derive(Debug, Clone, Copy, PartialEq, Eq, Structural)]
pub struct Threshold {
    pub num: i128,
    pub den: u64,
}

impl Threshold {
    /// The denominator is positive.
    pub open spec fn wf(self) -> bool {
        self.den > 0
    }

    /// The fixed threshold `t`, in the units of the energies.
    pub fn fixed(t: u64) -> (r: Threshold)
        ensures
            r == fixed_threshold(t as int),
    {
        Threshold { num: t as i128, den: 1 }
    }
}

/// The fixed threshold `t`.
pub open spec fn fixed_threshold(t: int) -> Threshold {
    Threshold { num: t as i128, den: 1 }
}

/// `e` lies strictly above `t`.
pub open spec fn above(e: int, t: Threshold) -> bool {
    e * t.den > t.num
}

/// Window `i` is a peak: not the first or the last, strictly above the
/// threshold and strictly above both neighbours.
pub open spec fn is_peak(s: Seq<u64>, i: int, t: Threshold) -> bool {
    &&& 1 <= i < s.len() - 1
    &&& above(s[i] as int, t)
    &&& s[i] > s[i - 1]
    &&& s[i] > s[i + 1]
}

/// The peaks among the first `n` windows, in increasing order.
pub open spec fn peaks_upto(s: Seq<u64>, t: Threshold, n: int) -> Seq<int>
    decreases n,
{
    if n <= 0 {
        Seq::empty()
    } else if is_peak(s, n - 1, t) {
        peaks_upto(s, t, n - 1).push(n - 1)
    } else {
        peaks_upto(s, t, n - 1)
    }
}

/// The peaks of `s`, in increasing order.
pub open spec fn peaks(s: Seq<u64>, t: Threshold) -> Seq<int> {
    peaks_upto(s, t, s.len() as int)
}

/// The peaks among the first `n` windows are exactly the windows below `n`
/// that are peaks, in strictly increasing order.
pub proof fn lemma_peaks_upto(s: Seq<u64>, t: Threshold, n: int)
    requires
        0 <= n,
    ensures
        forall|k: int| 0 <= k < peaks_upto(s, t, n).len() ==> 0 <= #[trigger] peaks_upto(s, t, n)[k] < n
            && is_peak(s, peaks_upto(s, t, n)[k], t),
        forall|a: int, b: int| 0 <= a < b < peaks_upto(s, t, n).len() ==>
            #[trigger] peaks_upto(s, t, n)[a] < #[trigger] peaks_upto(s, t, n)[b],
        forall|i: int| 0 <= i < n && #[trigger] is_peak(s, i, t) ==> peaks_upto(s, t, n).contains(i),
    decreases n,
{
    if n > 0 {
        lemma_peaks_upto(s, t, n - 1);
        let p = peaks_upto(s, t, n - 1);
        if is_peak(s, n - 1, t) {
            assert forall|i: int| 0 <= i < n && #[trigger] is_peak(s, i, t) implies peaks_upto(s, t, n).contains(i) by {
                if i < n - 1 {
                    let k = choose|k: int| 0 <= k < p.len() && p[k] == i;
                    assert(peaks_upto(s, t, n)[k] == i);
                } else {
                    assert(peaks_upto(s, t, n)[p.len() as int] == i);
                }
            }
        }
    }
}

/// Whether `e` lies strictly above `t`.
fn is_above(e: u64, t: Threshold) -> (r: bool)
    ensures
        r == above(e as int, t),
{
    if t.num < 0 {
        proof {
            assert(e * t.den >= 0) by (nonlinear_arith);
        }
        true
    } else {
        proof {
            assert(e * t.den <= 0xFFFF_FFFF_FFFF_FFFF * 0xFFFF_FFFF_FFFF_FFFF) by (nonlinear_arith)
                requires e <= 0xFFFF_FFFF_FFFF_FFFF, t.den <= 0xFFFF_FFFF_FFFF_FFFF;
        }
        (e as u128) * (t.den as u128) > t.num as u128
    }
}

/// Indices of the windows whose energy is a strict local maximum strictly
/// above the threshold; the first and the last window are never peaks.
pub fn detect_peaks(energies: &Vec<u64>, threshold: Threshold) -> (r: Vec<usize>)
    ensures
        r@.len() == peaks(energies@, threshold).len(),
        forall|k: int| 0 <= k < r@.len() ==> #[trigger] r@[k] as int == peaks(energies@, threshold)[k],
{
    let mut r: Vec<usize> = Vec::new();
    let n = energies.len();
    if n < 3 {
        proof {
            assert(peaks_upto(energies@, threshold, 0) == Seq::<int>::empty());
            assert(peaks_upto(energies@, threshold, 1) == Seq::<int>::empty());
            assert(peaks_upto(energies@, threshold, 2) == Seq::<int>::empty());
        }
        return r;
    }
    assert(peaks_upto(energies@, threshold, 0) == Seq::<int>::empty());
    assert(peaks_upto(energies@, threshold, 1) == Seq::<int>::empty());
    let mut i: usize = 1;
    while i < n - 1
        invariant
            n == energies@.len(),
            n >= 3,
            1 <= i <= n - 1,
            r@.len() == peaks_upto(energies@, threshold, i as int).len(),
            forall|k: int| 0 <= k < r@.len() ==> #[trigger] r@[k] as int == peaks_upto(energies@, threshold, i as int)[k],
        decreases n - i,
    {
        if is_above(energies[i], threshold) && energies[i] > energies[i - 1] && energies[i] > energies[i + 1] {
            r.push(i);
        }
        i = i + 1;
    }
    assert(!is_peak(energies@, n - 1, threshold));
    r
}

/// Sum of `s`.
pub open spec fn sum_of(s: Seq<u64>) -> int
    decreases s.len(),
{
    if s.len() == 0 { 0 } else { sum_of(s.drop_last()) + s.last() }
}

/// Sum of the squared deviations of `s` from `m`.
pub open spec fn sum_sq_dev(s: Seq<u64>, m: int) -> int
    decreases s.len(),
{
    if s.len() == 0 {
        0
    } else {
        sum_sq_dev(s.drop_last(), m) + (s.last() - m) * (s.last() - m)
    }
}

/// Mean of `s`, truncated.
pub open spec fn mean(s: Seq<u64>) -> int {
    sum_of(s) / s.len() as int
}

/// Population variance of `s` around its truncated mean, truncated.
pub open spec fn variance(s: Seq<u64>) -> int {
    sum_sq_dev(s, mean(s)) / s.len() as int
}

/// `r` is the integer square root of `v`.
pub open spec fn is_isqrt(r: int, v: int) -> bool {
    0 <= r && r * r <= v < (r + 1) * (r + 1)
}

/// Standard deviation of `s`: the integer square root of its variance.
pub open spec fn stddev(s: Seq<u64>) -> int {
    choose|r: int| is_isqrt(r, variance(s))
}

/// The dynamic threshold `mean + k * stddev`, where the multiple `k` is in
/// units of `1 / UNIT`.
pub open spec fn dynamic_spec(s: Seq<u64>, k: int) -> Threshold {
    Threshold { num: (mean(s) * UNIT + k * stddev(s)) as i128, den: UNIT }
}

/// Energies normalised into `[0, UNIT]`.
pub open spec fn in_unit_range(s: Seq<u64>) -> bool {
    forall|i: int| 0 <= i < s.len() ==> #[trigger] s[i] <= UNIT
}

/// The integer square root is unique, so `stddev` names one value.
pub proof fn lemma_isqrt_unique(a: int, b: int, v: int)
    requires
        is_isqrt(a, v),
        is_isqrt(b, v),
    ensures
        a == b,
{
    if a < b {
        assert((a + 1) * (a + 1) <= b * b) by (nonlinear_arith)
            requires 0 <= a, a + 1 <= b;
    } else if b < a {
        assert((b + 1) * (b + 1) <= a * a) by (nonlinear_arith)
            requires 0 <= b, b + 1 <= a;
    }
}

proof fn lemma_sum_bound(s: Seq<u64>)
    requires
        in_unit_range(s),
    ensures
        0 <= sum_of(s) <= s.len() * UNIT,
    decreases s.len(),
{
    if s.len() > 0 {
        lemma_sum_bound(s.drop_last());
    }
}

proof fn lemma_sq_dev_bound(s: Seq<u64>, m: int)
    requires
        in_unit_range(s),
        0 <= m <= UNIT,
    ensures
        0 <= sum_sq_dev(s, m) <= s.len() * (UNIT * UNIT),
    decreases s.len(),
{
    if s.len() > 0 {
        lemma_sq_dev_bound(s.drop_last(), m);
        let x = s.last() - m;
        assert(0 <= x * x <= UNIT * UNIT) by (nonlinear_arith)
            requires -UNIT <= x <= UNIT;
    }
}

/// Bounds of the statistics of normalised energies.
proof fn lemma_stats_bounds(s: Seq<u64>)
    requires
        s.len() > 0,
        in_unit_range(s),
    ensures
        0 <= mean(s) <= UNIT,
        0 <= variance(s) <= UNIT * UNIT,
        is_isqrt(stddev(s), variance(s)),
        0 <= stddev(s) <= UNIT,
{
    lemma_sum_bound(s);
    let n = s.len() as int;
    assert(0 <= sum_of(s) / n <= UNIT) by (nonlinear_arith)
        requires 0 <= sum_of(s) <= n * UNIT, n > 0;
    lemma_sq_dev_bound(s, mean(s));
    assert(0 <= sum_sq_dev(s, mean(s)) / n <= UNIT * UNIT) by (nonlinear_arith)
        requires 0 <= sum_sq_dev(s, mean(s)) <= n * (UNIT * UNIT), n > 0;
    let v = variance(s);
    let r = isqrt_witness(v);
    assert(is_isqrt(stddev(s), v));
    if stddev(s) > UNIT {
        assert((UNIT + 1) * (UNIT + 1) <= stddev(s) * stddev(s)) by (nonlinear_arith)
            requires stddev(s) >= UNIT + 1;
    }
}

/// Every non-negative integer has an integer square root.
proof fn isqrt_witness(v: int) -> (r: int)
    requires
        v >= 0,
    ensures
        is_isqrt(r, v),
    decreases v,
{
    if v == 0 {
        0
    } else {
        let p = isqrt_witness(v - 1);
        if (p + 1) * (p + 1) <= v {
            assert(is_isqrt(p + 1, v)) by (nonlinear_arith)
                requires (p + 1) * (p + 1) <= v, v - 1 < (p + 1) * (p + 1), p >= 0;
            p + 1
        } else {
            assert(is_isqrt(p, v)) by (nonlinear_arith)
                requires p * p <= v - 1, v < (p + 1) * (p + 1), p >= 0;
            p
        }
    }
}

/// Integer square root of `v <= UNIT * UNIT`, by bisection.
fn isqrt(v: u64) -> (r: u64)
    requires
        v <= UNIT * UNIT,
    ensures
        is_isqrt(r as int, v as int),
{
    let mut lo: u64 = 0;
    let mut hi: u64 = UNIT + 1;
    while hi - lo > 1
        invariant
            lo < hi <= UNIT + 1,
            lo * lo <= v,
            v < hi * hi,
        decreases hi - lo,
    {
        let mid = lo + (hi - lo) / 2;
        proof {
            assert(mid * mid <= 16777217 * 16777217) by (nonlinear_arith)
                requires 0 <= mid <= 16777217;
        }
        if mid * mid <= v {
            lo = mid;
        } else {
            hi = mid;
        }
    }
    lo
}

/// The threshold `mean + k * stddev` of normalised energies, with the
/// population standard deviation and the multiple `k` in units of `1 / UNIT`.
pub fn dynamic_threshold(energies: &Vec<u64>, stddev_multiple: i64) -> (r: Threshold)
    requires
        energies@.len() > 0,
        in_unit_range(energies@),
    ensures
        r == dynamic_spec(energies@, stddev_multiple as int),
        r.num == mean(energies@) * UNIT + stddev_multiple * stddev(energies@),
        r.wf(),
{
    let ghost s = energies@;
    let n = energies.len();
    proof {
        lemma_stats_bounds(s);
    }
    let mut total: u128 = 0;
    let mut i: usize = 0;
    while i < n
        invariant
            n == s.len(),
            s == energies@,
            in_unit_range(s),
            i <= n,
            total == sum_of(s.subrange(0, i as int)),
        decreases n - i,
    {
        proof {
            assert(s.subrange(0, i + 1).drop_last() =~= s.subrange(0, i as int));
            lemma_sum_bound(s.subrange(0, i + 1));
            assert((i + 1) * UNIT <= 0x1_0000_0000_0000_0000 * UNIT) by (nonlinear_arith)
                requires i + 1 <= 0x1_0000_0000_0000_0000;
        }
        total = total + energies[i] as u128;
        i = i + 1;
    }
    assert(s.subrange(0, n as int) =~= s);
    let m: u64 = (total / n as u128) as u64;
    let mut dev: u128 = 0;
    let mut j: usize = 0;
    while j < n
        invariant
            n == s.len(),
            s == energies@,
            in_unit_range(s),
            m == mean(s),
            0 <= m <= UNIT,
            j <= n,
            dev == sum_sq_dev(s.subrange(0, j as int), m as int),
        decreases n - j,
    {
        proof {
            assert(s.subrange(0, j + 1).drop_last() =~= s.subrange(0, j as int));
            lemma_sq_dev_bound(s.subrange(0, j + 1), m as int);
            assert((j + 1) * (UNIT * UNIT) <= 0x1_0000_0000_0000_0000 * (UNIT * UNIT)) by (nonlinear_arith)
                requires j + 1 <= 0x1_0000_0000_0000_0000;
        }
        let x = energies[j];
        let d: u64 = if x >= m { x - m } else { m - x };
        proof {
            assert(d * d == (x - m) * (x - m)) by (nonlinear_arith)
                requires d == x - m || d == m - x;
            assert(d * d <= UNIT * UNIT) by (nonlinear_arith)
                requires d <= UNIT;
        }
        dev = dev + (d as u128) * (d as u128);
        j = j + 1;
    }
    assert(s.subrange(0, n as int) =~= s);
    let var: u64 = (dev / n as u128) as u64;
    let sd = isqrt(var);
    proof {
        lemma_isqrt_unique(sd as int, stddev(s), var as int);
        assert(stddev_multiple * sd <= 0x8000_0000_0000_0000 * UNIT) by (nonlinear_arith)
            requires -0x8000_0000_0000_0000 <= stddev_multiple <= 0x8000_0000_0000_0000, 0 <= sd <= UNIT;
        assert(stddev_multiple * sd >= -0x8000_0000_0000_0000 * UNIT) by (nonlinear_arith)
            requires -0x8000_0000_0000_0000 <= stddev_multiple <= 0x8000_0000_0000_0000, 0 <= sd <= UNIT;
    }
    Threshold {
        num: m as i128 * UNIT as i128 + stddev_multiple as i128 * sd as i128,
        den: UNIT,
    }
}

/// Raising the threshold keeps only peaks that the lower threshold finds:
/// every peak above `high` is a peak above `low`.
pub proof fn lemma_higher_threshold_subset(s: Seq<u64>, low: Threshold, high: Threshold)
    requires
        low.wf(),
        high.wf(),
        high.num * low.den >= low.num * high.den,
    ensures
        forall|i: int| #[trigger] is_peak(s, i, high) ==> is_peak(s, i, low),
        forall|i: int| peaks(s, high).contains(i) ==> #[trigger] peaks(s, low).contains(i),
{
    assert forall|i: int| #[trigger] is_peak(s, i, high) implies is_peak(s, i, low) by {
        let e = s[i] as int;
        assert(e * low.den > low.num) by (nonlinear_arith)
            requires
                e * high.den > high.num,
                high.num * low.den >= low.num * high.den,
                low.den > 0,
                high.den > 0;
    }
    lemma_peaks_upto(s, high, s.len() as int);
    lemma_peaks_upto(s, low, s.len() as int);
    assert forall|i: int| peaks(s, high).contains(i) implies #[trigger] peaks(s, low).contains(i) by {
        let k = choose|k: int| 0 <= k < peaks(s, high).len() && peaks(s, high)[k] == i;
        assert(is_peak(s, peaks(s, high)[k], high));
    }
}

/// When `k >= (f - mean) / stddev`, the dynamic threshold is at least the
/// fixed threshold `f`, and every peak above the dynamic threshold is a peak
/// above `f`.
pub proof fn lemma_dynamic_above_fixed(s: Seq<u64>, k: int, f: int)
    requires
        s.len() > 0,
        in_unit_range(s),
        i64::MIN <= k <= i64::MAX,
        0 <= f <= u64::MAX,
        k * stddev(s) >= (f - mean(s)) * UNIT,
    ensures
        dynamic_spec(s, k).num >= f * UNIT,
        forall|i: int| peaks(s, dynamic_spec(s, k)).contains(i) ==> #[trigger] peaks(s, fixed_threshold(f)).contains(i),
{
    lemma_stats_bounds(s);
    let sd = stddev(s);
    assert(-0x8000_0000_0000_0000 * UNIT <= k * sd <= 0x8000_0000_0000_0000 * UNIT) by (nonlinear_arith)
        requires -0x8000_0000_0000_0000 <= k <= 0x8000_0000_0000_0000, 0 <= sd <= UNIT;
    lemma_higher_threshold_subset(s, fixed_threshold(f), dynamic_spec(s, k));
}

} // verus!
