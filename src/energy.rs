use vstd::prelude::*;
use crate::aiff::AiffData;
use crate::error::AiffError;

verus! {

/// Fixed-point unit of normalised energies: `UNIT` stands for 1.0.
pub const UNIT: u64 = 16777216;

/// The reference sample at `i`: the left channel for mono, the sum of both
/// channels (twice their average) for stereo. Normalisation removes the
/// common factor of two.
pub open spec fn reference_at(a: AiffData, i: int) -> int {
    if a.num_channels == 1 {
        a.left_channel_audio@[i] as int
    } else {
        a.left_channel_audio@[i] + a.right_channel_audio@[i]
    }
}

/// Sum of the squares of `s`.
pub open spec fn sum_sq(s: Seq<i32>) -> int
    decreases s.len(),
{
    if s.len() == 0 {
        0
    } else {
        sum_sq(s.drop_last()) + s.last() * s.last()
    }
}

/// Number of windows of `w` samples that cover `len` samples, the last one
/// possibly shorter.
pub open spec fn num_windows(len: int, w: int) -> int {
    len / w + if len % w == 0 { 0int } else { 1int }
}

/// Energy of window `j`: the sum of squares of samples `j * w` up to
/// `(j + 1) * w` or the end.
pub open spec fn window_energy(s: Seq<i32>, w: int, j: int) -> int {
    let end = if (j + 1) * w > s.len() { s.len() as int } else { (j + 1) * w };
    sum_sq(s.subrange(j * w, end))
}

/// Largest element of `e`, 0 when empty.
pub open spec fn max_of(e: Seq<u128>) -> int
    decreases e.len(),
{
    if e.len() == 0 {
        0
    } else if e.last() > max_of(e.drop_last()) {
        e.last() as int
    } else {
        max_of(e.drop_last())
    }
}

/// The energy `e` normalised by the largest energy `m`, in units of `1 / UNIT`,
/// truncated.
pub open spec fn normalized(e: int, m: int) -> int {
    e * UNIT / m
}

/// Some element of `s` is `UNIT`.
pub open spec fn reaches_unit(s: Seq<u64>) -> bool {
    exists|i: int| 0 <= i < s.len() && #[trigger] s[i] == UNIT
}

/// The reference signal of a container.
pub open spec fn reference_of(a: AiffData) -> Seq<i32> {
    Seq::new(a.left_channel_audio@.len(), |i: int| reference_at(a, i) as i32)
}

/// Window energies of `x`.
pub open spec fn energies_of(x: Seq<i32>, w: int) -> Seq<u128> {
    Seq::new(num_windows(x.len() as int, w) as nat, |j: int| window_energy(x, w, j) as u128)
}

/// `e` normalised by its largest element.
pub open spec fn normalized_of(e: Seq<u128>) -> Seq<u64> {
    Seq::new(e.len(), |i: int| normalized(e[i] as int, max_of(e)) as u64)
}

/// The reference signal of a decoded container.
pub fn reference_signal(a: &AiffData) -> (r: Vec<i32>)
    requires
        a.wf(),
    ensures
        r@ == reference_of(*a),
        r@.len() == a.left_channel_audio@.len(),
        forall|i: int| 0 <= i < r@.len() ==> #[trigger] r@[i] as int == reference_at(*a, i),
{
    let n = a.left_channel_audio.len();
    let mut r: Vec<i32> = Vec::new();
    let mut i: usize = 0;
    while i < n
        invariant
            a.wf(),
            n == a.left_channel_audio@.len(),
            i <= n,
            r@.len() == i,
            forall|k: int| 0 <= k < i ==> #[trigger] r@[k] as int == reference_at(*a, k),
        decreases n - i,
    {
        if a.num_channels == 1 {
            r.push(a.left_channel_audio[i] as i32);
        } else {
            r.push(a.left_channel_audio[i] as i32 + a.right_channel_audio[i] as i32);
        }
        i = i + 1;
    }
    assert(r@ =~= reference_of(*a));
    r
}

proof fn lemma_sq_bound(x: i32)
    ensures
        0 <= x * x <= 0x4000_0000_0000_0000,
{
    assert(0 <= x * x <= 0x4000_0000_0000_0000) by (nonlinear_arith)
        requires -0x8000_0000 <= x <= 0x7FFF_FFFF;
}

/// Sum of squares of `s[start..end]`.
fn sum_squares(s: &Vec<i32>, start: usize, end: usize) -> (r: u128)
    requires
        start <= end <= s@.len(),
    ensures
        r == sum_sq(s@.subrange(start as int, end as int)),
{
    let mut acc: u128 = 0;
    let mut k: usize = start;
    assert(s@.subrange(start as int, start as int) =~= Seq::<i32>::empty());
    while k < end
        invariant
            start <= k <= end <= s@.len(),
            acc == sum_sq(s@.subrange(start as int, k as int)),
            acc <= (k - start) * 0x4000_0000_0000_0000,
        decreases end - k,
    {
        let x = s[k];
        proof {
            lemma_sq_bound(x);
            assert(s@.subrange(start as int, k + 1).drop_last() =~= s@.subrange(start as int, k as int));
            assert((k - start) * 0x4000_0000_0000_0000 < 0x4000_0000_0000_0000_0000_0000_0000_0000) by (nonlinear_arith)
                requires k - start < 0x1_0000_0000_0000_0000;
        }
        let sq = (x as i64 * x as i64) as u128;
        acc = acc + sq;
        k = k + 1;
    }
    acc
}

/// Energies of consecutive windows of `window_size` samples; the last
/// window may be shorter.
pub fn window_energies(samples: &Vec<i32>, window_size: usize) -> (r: Vec<u128>)
    requires
        window_size > 0,
    ensures
        r@ == energies_of(samples@, window_size as int),
        r@.len() == num_windows(samples@.len() as int, window_size as int),
        forall|j: int| 0 <= j < r@.len() ==> #[trigger] r@[j] as int
            == window_energy(samples@, window_size as int, j),
{
    let len = samples.len();
    let w = window_size;
    proof {
        vstd::arithmetic::div_mod::lemma_fundamental_div_mod(len as int, w as int);
        if len % w != 0 {
            assert(len / w < len) by (nonlinear_arith)
                requires len == (len / w) * w + len % w, w >= 1, 0 < len % w < w;
        }
    }
    let n: usize = len / w + if len % w == 0 { 0 } else { 1 };
    let mut r: Vec<u128> = Vec::new();
    let mut j: usize = 0;
    while j < n
        invariant
            w > 0,
            len == samples@.len(),
            n == num_windows(len as int, w as int),
            j <= n,
            r@.len() == j,
            forall|k: int| 0 <= k < j ==> #[trigger] r@[k] as int == window_energy(samples@, w as int, k),
        decreases n - j,
    {
        proof {
            vstd::arithmetic::div_mod::lemma_fundamental_div_mod(len as int, w as int);
            assert(j * w < len) by (nonlinear_arith)
                requires
                    j < n,
                    n == len / w + if len % w == 0 { 0int } else { 1int },
                    w > 0,
                    len == (len / w) * w + len % w,
                    0 <= len % w < w,
            {
                if len % w == 0 {
                    assert(j * w <= (len / w - 1) * w);
                } else {
                    assert(j * w <= (len / w) * w);
                }
            }
        }
        let start: usize = j * w;
        let end: usize = if len - start <= w { len } else { start + w };
        proof {
            assert((j + 1) * w == start + w) by (nonlinear_arith)
                requires start == j * w;
        }
        let e = sum_squares(samples, start, end);
        r.push(e);
        j = j + 1;
    }
    assert(r@ =~= energies_of(samples@, w as int));
    r
}

/// Largest element of `e`.
fn max_energy(e: &Vec<u128>) -> (r: u128)
    ensures
        r == max_of(e@),
        forall|i: int| 0 <= i < e@.len() ==> #[trigger] e@[i] <= r,
        e@.len() > 0 ==> exists|i: int| 0 <= i < e@.len() && #[trigger] e@[i] == r,
{
    let mut m: u128 = 0;
    let mut i: usize = 0;
    while i < e.len()
        invariant
            i <= e@.len(),
            m == max_of(e@.subrange(0, i as int)),
            forall|k: int| 0 <= k < i ==> #[trigger] e@[k] <= m,
            i > 0 ==> exists|k: int| 0 <= k < i && #[trigger] e@[k] == m,
        decreases e@.len() - i,
    {
        assert(e@.subrange(0, i + 1).drop_last() =~= e@.subrange(0, i as int));
        if e[i] > m {
            m = e[i];
        }
        i = i + 1;
    }
    assert(e@.subrange(0, e@.len() as int) =~= e@);
    m
}

/// `e * UNIT / m`, by long division one bit at a time, for `e <= m`.
fn scaled_ratio(e: u128, m: u128) -> (r: u64)
    requires
        0 < m,
        e <= m,
    ensures
        r as int == normalized(e as int, m as int),
        r <= UNIT,
{
    let mut q: u128 = e / m;
    let mut rem: u128 = e % m;
    let mut k: u32 = 0;
    proof {
        vstd::arithmetic::div_mod::lemma_fundamental_div_mod(e as int, m as int);
        vstd::arithmetic::power2::lemma2_to64();
        assert(e / m <= 1) by (nonlinear_arith)
            requires e <= m, m > 0;
    }
    while k < 24
        invariant
            0 < m,
            e <= m,
            k <= 24,
            rem < m,
            q * m + rem == e * vstd::arithmetic::power2::pow2(k as nat),
            q <= vstd::arithmetic::power2::pow2(k as nat),
        decreases 24 - k,
    {
        let ghost p = vstd::arithmetic::power2::pow2(k as nat);
        proof {
            vstd::arithmetic::power2::lemma_pow2_unfold((k + 1) as nat);
            vstd::arithmetic::power2::lemma2_to64();
            vstd::arithmetic::power2::lemma_pow2_strictly_increases(k as nat, 24);
        }
        let ghost q0 = q;
        let ghost r0 = rem;
        if rem >= m - rem {
            rem = rem - (m - rem);
            q = 2 * q + 1;
        } else {
            rem = rem + rem;
            q = 2 * q;
        }
        proof {
            assert(q * m + rem == 2 * (q0 * m + r0)) by (nonlinear_arith)
                requires
                    (q == 2 * q0 + 1 && rem == 2 * r0 - m) || (q == 2 * q0 && rem == 2 * r0);
            assert(q * m <= 2 * (q0 * m + r0));
            assert(q0 * m + r0 <= m * p) by (nonlinear_arith)
                requires q0 * m + r0 == e * p, e <= m, p >= 0;
            assert(q <= 2 * p) by (nonlinear_arith)
                requires q * m <= 2 * (m * p), m > 0;
            assert(e * (2 * p) == 2 * (e * p)) by (nonlinear_arith);
        }
        k = k + 1;
    }
    proof {
        vstd::arithmetic::div_mod::lemma_fundamental_div_mod_converse(
            (e * UNIT) as int, m as int, q as int, rem as int);
    }
    q as u64
}

/// Energies divided by the largest of them, in units of `1 / UNIT`.
/// Fails when there is no energy or all are zero.
pub fn normalize_energies(energies: &Vec<u128>) -> (r: Result<Vec<u64>, AiffError>)
    ensures
        (energies@.len() == 0 || max_of(energies@) == 0) ==> r == Err::<Vec<u64>, AiffError>(
            AiffError::EmptyOrDegenerateSignal),
        !(energies@.len() == 0 || max_of(energies@) == 0) ==> r is Ok,
        r is Ok ==> r->Ok_0@ == normalized_of(energies@),
        r is Ok ==> r->Ok_0@.len() == energies@.len(),
        r is Ok ==> forall|i: int| 0 <= i < energies@.len() ==> #[trigger] r->Ok_0@[i] as int
            == normalized(energies@[i] as int, max_of(energies@)),
        r is Ok ==> forall|i: int| 0 <= i < energies@.len() ==> #[trigger] r->Ok_0@[i] <= UNIT,
        r is Ok ==> reaches_unit(r->Ok_0@),
{
    let m = max_energy(energies);
    if energies.len() == 0 || m == 0 {
        return Err(AiffError::EmptyOrDegenerateSignal);
    }
    let mut r: Vec<u64> = Vec::new();
    let mut i: usize = 0;
    while i < energies.len()
        invariant
            m == max_of(energies@),
            m > 0,
            forall|k: int| 0 <= k < energies@.len() ==> #[trigger] energies@[k] <= m,
            i <= energies@.len(),
            r@.len() == i,
            forall|k: int| 0 <= k < i ==> #[trigger] r@[k] as int == normalized(energies@[k] as int, m as int),
            forall|k: int| 0 <= k < i ==> #[trigger] r@[k] <= UNIT,
        decreases energies@.len() - i,
    {
        let q = scaled_ratio(energies[i], m);
        r.push(q);
        i = i + 1;
    }
    proof {
        let k = choose|k: int| 0 <= k < energies@.len() && #[trigger] energies@[k] == m;
        assert(normalized(m as int, m as int) == UNIT) by (nonlinear_arith)
            requires m > 0;
        assert(r@[k] == UNIT);
        assert(reaches_unit(r@));
        assert(r@ =~= normalized_of(energies@));
    }
    Ok(r)
}

} // verus!
