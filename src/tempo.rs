use vstd::prelude::*;
use crate::aiff::AiffData;
use crate::energy::{
    energies_of, max_of, normalize_energies, normalized_of, reference_of, reference_signal, window_energies,
};
use crate::error::AiffError;
use crate::peaks::{detect_peaks, dynamic_spec, dynamic_threshold, fixed_threshold, peaks, Threshold};

verus! {

/// A tempo in beats per minute, as the exact fraction `num / den`.
#[derive(Debug, Clone, Copy, PartialEq, Eq, Structural)]
pub struct Bpm {
    pub num: u128,
    pub den: u128,
}

/// Sum of the gaps between consecutive peaks.
pub open spec fn gap_total(p: Seq<int>) -> int
    decreases p.len(),
{
    if p.len() < 2 {
        0
    } else {
        gap_total(p.drop_last()) + (p.last() - p[p.len() - 2])
    }
}

/// The tempo of peaks `p` of windows of `w` samples at `rate` Hz. A gap of
/// `g` windows lasts `g * w / rate` seconds; the mean of the `len - 1` gaps
/// is `gap_total * w / (rate * (len - 1))` seconds, and the tempo is 60
/// divided by it.
pub open spec fn tempo_of(p: Seq<int>, w: int, rate: int) -> Bpm {
    Bpm { num: (60 * rate * (p.len() - 1)) as u128, den: (gap_total(p) * w) as u128 }
}

/// The peak indices as integers.
pub open spec fn as_ints(p: Seq<usize>) -> Seq<int> {
    Seq::new(p.len(), |i: int| p[i] as int)
}

/// Each index is larger than the one before.
pub open spec fn strictly_increasing(p: Seq<usize>) -> bool {
    forall|a: int, b: int| 0 <= a < b < p.len() ==> #[trigger] p[a] < #[trigger] p[b]
}

/// The gaps add up to the distance from the first peak to the last.
pub proof fn lemma_gap_total(p: Seq<int>)
    requires
        p.len() >= 1,
    ensures
        gap_total(p) == p.last() - p[0],
    decreases p.len(),
{
    if p.len() >= 2 {
        lemma_gap_total(p.drop_last());
    }
}

/// The tempo of the peak windows `peaks`: 60 divided by the mean time
/// between consecutive peaks. Fails when there are fewer than two peaks.
pub fn estimate_tempo(peaks: &Vec<usize>, window_size: usize, sample_rate_hz: u32) -> (r: Result<Bpm, AiffError>)
    requires
        strictly_increasing(peaks@),
        window_size > 0,
        sample_rate_hz > 0,
    ensures
        peaks@.len() < 2 <==> r == Err::<Bpm, AiffError>(AiffError::InsufficientPeaks),
        peaks@.len() >= 2 ==> r == Ok::<Bpm, AiffError>(
            tempo_of(as_ints(peaks@), window_size as int, sample_rate_hz as int)),
        r is Ok ==> r->Ok_0.den > 0 && r->Ok_0.num > 0,
{
    let n = peaks.len();
    if n < 2 {
        return Err(AiffError::InsufficientPeaks);
    }
    let first = peaks[0];
    let last = peaks[n - 1];
    proof {
        lemma_gap_total(as_ints(peaks@));
        assert(first < last);
        assert((last - first) * window_size <= 0xFFFF_FFFF_FFFF_FFFF * 0xFFFF_FFFF_FFFF_FFFF) by (nonlinear_arith)
            requires 0 < last - first <= 0xFFFF_FFFF_FFFF_FFFF, 0 < window_size <= 0xFFFF_FFFF_FFFF_FFFF;
        assert((last - first) * window_size > 0) by (nonlinear_arith)
            requires 0 < last - first, 0 < window_size;
        assert(60 * sample_rate_hz * (n - 1) <= 60 * 0xFFFF_FFFF * 0xFFFF_FFFF_FFFF_FFFF) by (nonlinear_arith)
            requires 0 < sample_rate_hz <= 0xFFFF_FFFF, 0 < n - 1 <= 0xFFFF_FFFF_FFFF_FFFF;
        assert(60 * sample_rate_hz * (n - 1) > 0) by (nonlinear_arith)
            requires 0 < sample_rate_hz, 0 < n - 1;
    }
    let num = 60 * (sample_rate_hz as u128) * ((n - 1) as u128);
    let den = ((last - first) as u128) * (window_size as u128);
    Ok(Bpm { num, den })
}

/// The normalised energy profile of a container's reference signal.
pub open spec fn profile(a: AiffData, w: int) -> Seq<u64> {
    normalized_of(energies_of(reference_of(a), w))
}

/// The energies cannot be normalised: there are none, or all are zero.
pub open spec fn degenerate(a: AiffData, w: int) -> bool {
    energies_of(reference_of(a), w).len() == 0 || max_of(energies_of(reference_of(a), w)) == 0
}

/// What the estimator returns for a container whose profile is not
/// degenerate, when peaks are detected above `t`.
pub open spec fn bpm_result(a: AiffData, w: int, t: Threshold) -> Result<Bpm, AiffError> {
    let p = peaks(profile(a, w), t);
    if p.len() < 2 {
        Err(AiffError::InsufficientPeaks)
    } else {
        Ok(tempo_of(p, w, a.sample_rate_hz as int))
    }
}

/// Energy profile of the reference signal, or the error of normalising it.
fn profile_of(a: &AiffData, window_size: usize) -> (r: Result<Vec<u64>, AiffError>)
    requires
        a.wf(),
        window_size > 0,
    ensures
        degenerate(*a, window_size as int) ==> r == Err::<Vec<u64>, AiffError>(AiffError::EmptyOrDegenerateSignal),
        !degenerate(*a, window_size as int) ==> r is Ok && r->Ok_0@ == profile(*a, window_size as int),
        r is Ok ==> crate::peaks::in_unit_range(r->Ok_0@) && r->Ok_0@.len() > 0,
{
    let x = reference_signal(a);
    let e = window_energies(&x, window_size);
    normalize_energies(&e)
}

/// Peaks of the profile above `t`, then the tempo they give.
fn tempo_of_profile(e: &Vec<u64>, t: Threshold, window_size: usize, sample_rate_hz: u32) -> (r: Result<Bpm, AiffError>)
    requires
        window_size > 0,
        sample_rate_hz > 0,
    ensures
        ({
            let p = peaks(e@, t);
            &&& p.len() < 2 ==> r == Err::<Bpm, AiffError>(AiffError::InsufficientPeaks)
            &&& p.len() >= 2 ==> r == Ok::<Bpm, AiffError>(tempo_of(p, window_size as int, sample_rate_hz as int))
        }),
{
    let p = detect_peaks(e, t);
    proof {
        crate::peaks::lemma_peaks_upto(e@, t, e@.len() as int);
        assert(as_ints(p@) =~= peaks(e@, t));
    }
    estimate_tempo(&p, window_size, sample_rate_hz)
}

/// Tempo of a decoded container: peaks of its energy profile above the
/// fixed threshold `threshold`, in units of `1 / UNIT`.
pub fn calculate_bpm_energy_manual_threshold(aiff_data: &AiffData, window_size: usize, threshold: u64) -> (r: Result<Bpm, AiffError>)
    requires
        aiff_data.wf(),
        window_size > 0,
    ensures
        degenerate(*aiff_data, window_size as int) ==> r == Err::<Bpm, AiffError>(AiffError::EmptyOrDegenerateSignal),
        !degenerate(*aiff_data, window_size as int) ==> r == bpm_result(*aiff_data, window_size as int,
            fixed_threshold(threshold as int)),
{
    let e = match profile_of(aiff_data, window_size) {
        Ok(e) => e,
        Err(err) => {
            return Err(err);
        },
    };
    tempo_of_profile(&e, Threshold::fixed(threshold), window_size, aiff_data.sample_rate_hz)
}

/// Tempo of a decoded container: peaks of its energy profile above the
/// profile's mean plus `stddev_multiple` standard deviations, the multiple
/// in units of `1 / UNIT`.
pub fn calculate_bpm_energy_dynamic_threshold(aiff_data: &AiffData, window_size: usize, stddev_multiple: i64) -> (r: Result<Bpm, AiffError>)
    requires
        aiff_data.wf(),
        window_size > 0,
    ensures
        degenerate(*aiff_data, window_size as int) ==> r == Err::<Bpm, AiffError>(AiffError::EmptyOrDegenerateSignal),
        !degenerate(*aiff_data, window_size as int) ==> r == bpm_result(*aiff_data, window_size as int,
            dynamic_spec(profile(*aiff_data, window_size as int), stddev_multiple as int)),
{
    let e = match profile_of(aiff_data, window_size) {
        Ok(e) => e,
        Err(err) => {
            return Err(err);
        },
    };
    let t = dynamic_threshold(&e, stddev_multiple);
    tempo_of_profile(&e, t, window_size, aiff_data.sample_rate_hz)
}

} // verus!
