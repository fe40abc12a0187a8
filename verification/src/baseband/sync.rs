//! Detection of the frame sync word and extraction of symbol decision thresholds from
//! it.

use vstd::prelude::*;
use crate::baseband::filter::{correlation, silence, slide, FingerprintFilter};
use crate::baseband::fingerprint::{
    lemma_symbol_levels,
    symbol_level,
    FINGERPRINT_SAMPS,
    SYNC_SYMBOLS,
};
use crate::baseband::numeric::{
    energy,
    energy_upto,
    isqrt,
    lemma_energy_bounds,
    lemma_square_bounds,
    mean,
    toward_zero,
};
use crate::baseband::smooth::{
    lemma_smoothing_converges,
    observe,
    observe_repeat,
    MovingAverage,
    SMOOTH_AVG,
};

verus! {

/// Correlation power of the window `w`: its inner product with the fingerprint, per
/// sample of the window, rounded toward zero.
pub open spec fn correlation_power(w: Seq<i32>) -> int {
    toward_zero(correlation(w), FINGERPRINT_SAMPS as int)
}

/// Signal power of the window `w`: the mean of the squares of its samples, rounded down.
pub open spec fn signal_power(w: Seq<i32>) -> int {
    energy(w) / (FINGERPRINT_SAMPS as int)
}

/// A window that holds no signal has no energy.
proof fn lemma_silence_energy(n: int)
    requires
        0 <= n <= FINGERPRINT_SAMPS,
    ensures
        energy_upto(silence(), n) == 0,
    decreases n,
{
    if n > 0 {
        lemma_silence_energy(n - 1);
        assert(silence()[n - 1] == 0i32);
    }
}

/// The energy of all but the oldest sample of `w`, counted in the window that `x` has
/// joined.
proof fn lemma_slide_energy_upto(w: Seq<i32>, x: i32, n: int)
    requires
        w.len() == FINGERPRINT_SAMPS,
        0 <= n < FINGERPRINT_SAMPS,
    ensures
        energy_upto(slide(w, x), n) == energy_upto(w, n + 1) - w[0] * w[0],
    decreases n,
{
    if n > 0 {
        lemma_slide_energy_upto(w, x, n - 1);
        assert(slide(w, x)[n - 1] == w[n]);
    } else {
        assert(energy_upto(w, 0) == 0);
    }
}

/// The energy of the window changes by what the evicted sample held and the new one
/// brings.
pub proof fn lemma_slide_energy(w: Seq<i32>, x: i32)
    requires
        w.len() == FINGERPRINT_SAMPS,
    ensures
        energy(slide(w, x)) == energy(w) - w[0] * w[0] + x * x,
        energy(w) - w[0] * w[0] >= 0,
{
    lemma_slide_energy_upto(w, x, FINGERPRINT_SAMPS - 1);
    lemma_energy_bounds(slide(w, x), FINGERPRINT_SAMPS - 1);
}

/// Continuously cross-correlates the input signal with the frame sync fingerprint.
pub struct SyncCorrelator {
    /// Fingerprint cross-correlator, which holds the window.
    corr: FingerprintFilter,
    /// Sum of the squares of the samples in the window.
    energy: u128,
}

impl View for SyncCorrelator {
    type V = Seq<i32>;

    /// The last `FINGERPRINT_SAMPS` samples, oldest first.
    closed spec fn view(&self) -> Seq<i32> {
        self.corr@
    }
}

impl SyncCorrelator {
    /// The running energy is that of the window.
    pub closed spec fn wf(&self) -> bool {
        &&& self.corr.wf()
        &&& self.energy == energy(self.corr@)
    }

    /// A window always holds `FINGERPRINT_SAMPS` samples.
    pub proof fn lemma_window_len(&self)
        ensures
            self@.len() == FINGERPRINT_SAMPS,
    {
        self.corr.lemma_window_len();
    }

    /// Create a new `SyncCorrelator` whose window holds no signal.
    pub fn new() -> (correlator: SyncCorrelator)
        ensures
            correlator.wf(),
            correlator@ == silence(),
    {
        proof {
            lemma_silence_energy(FINGERPRINT_SAMPS as int);
        }
        SyncCorrelator { corr: FingerprintFilter::new(), energy: 0 }
    }

    /// Cross-correlate with the given sample and return the current correlation power
    /// and the signal power within the correlation history.
    pub fn feed(&mut self, sample: i32) -> (powers: (i64, u64))
        requires
            old(self).wf(),
        ensures
            final(self).wf(),
            final(self)@ == slide(old(self)@, sample),
            powers.0 == correlation_power(final(self)@),
            powers.1 == signal_power(final(self)@),
    {
        proof {
            self.corr.lemma_window_len();
            lemma_slide_energy(self.corr@, sample);
            lemma_energy_bounds(slide(self.corr@, sample), FINGERPRINT_SAMPS as int);
            lemma_energy_bounds(self.corr@, FINGERPRINT_SAMPS as int);
            lemma_square_bounds(sample);
            lemma_square_bounds(self.corr@[0]);
        }
        let leaving: i64 = self.corr.oldest() as i64;
        let arriving: i64 = sample as i64;
        self.energy = self.energy - (leaving * leaving) as u128 + (arriving * arriving) as u128;
        let total: i64 = self.corr.feed(sample);
        (total / (FINGERPRINT_SAMPS as i64), self.sig_power())
    }

    /// Mean of the squares of the samples in the window.
    fn sig_power(&self) -> (power: u64)
        requires
            self.wf(),
        ensures
            power == signal_power(self@),
    {
        proof {
            self.corr.lemma_window_len();
            lemma_energy_bounds(self.corr@, FINGERPRINT_SAMPS as int);
            assert(self.energy / 231 <= 0x4000_0000_0000_0000);
        }
        (self.energy / (FINGERPRINT_SAMPS as u128)) as u64
    }

    /// Retrieve the sequence of samples that make up the current window, oldest first.
    pub fn history(&self) -> (window: [i32; FINGERPRINT_SAMPS])
        requires
            self.wf(),
        ensures
            window@ == self@,
    {
        self.corr.history()
    }
}

/// `t` is the detection threshold for the signal power `p`: the largest whole number
/// that does not exceed 0.65 times the square root of `p`. Both sides of that comparison
/// are squared and cleared of fractions here: 0.65 is 13/20.
pub open spec fn is_sync_threshold(p: int, t: int) -> bool {
    0 <= t && 400 * (t * t) <= 169 * p < 400 * ((t + 1) * (t + 1))
}

/// A signal power has one detection threshold.
pub proof fn lemma_sync_threshold_unique(p: int, t: int, u: int)
    requires
        is_sync_threshold(p, t),
        is_sync_threshold(p, u),
    ensures
        t == u,
{
    if t < u {
        assert((t + 1) * (t + 1) <= u * u) by (nonlinear_arith)
            requires
                0 <= t + 1 <= u,
        ;
    } else if u < t {
        assert((u + 1) * (u + 1) <= t * t) by (nonlinear_arith)
            requires
                0 <= u + 1 <= t,
        ;
    }
}

/// Compute the sync correlator detection threshold for the given current signal power:
/// the power's square root, which is the signal's RMS amplitude, scaled by 0.65.
pub fn sync_threshold(sigpower: u64) -> (thresh: i64)
    ensures
        is_sync_threshold(sigpower as int, thresh as int),
{
    let scaled: u64 = ((sigpower as u128) * 169 / 400) as u64;
    let root: u64 = isqrt(scaled);
    assert(400 * (root * root) <= 169 * sigpower) by (nonlinear_arith)
        requires
            root * root <= scaled,
            400 * scaled <= 169 * sigpower,
    ;
    assert(169 * sigpower < 400 * ((root + 1) * (root + 1))) by (nonlinear_arith)
        requires
            scaled + 1 <= (root + 1) * (root + 1),
            169 * sigpower < 400 * (scaled + 1),
    ;
    root as i64
}

/// The detector's next state and whether it reports a peak, given its state `prev`, the
/// correlation power `corrpow` and the threshold `thresh` of this instant.
///
/// Idle (`None`), the detector starts to track once the power exceeds the threshold.
/// Tracking (`Some(peak)`), it ignores the threshold and follows the power while that
/// does not fall; the first fall reports the peak, one sample late, and returns the
/// detector to idle.
pub open spec fn detector_step(prev: Option<i64>, corrpow: i64, thresh: i64) -> (
    Option<i64>,
    bool,
) {
    match prev {
        Some(peak) => if corrpow < peak {
            (None, true)
        } else {
            (Some(corrpow), false)
        },
        None => if corrpow > thresh {
            (Some(corrpow), false)
        } else {
            (None, false)
        },
    }
}

/// State machine that detects a peak power above an instantaneous threshold. Once the
/// power goes above the threshold, further thresholds are ignored and power is tracked
/// until it peaks.
#[derive(Copy, Clone, Debug)]
pub struct SyncDetector {
    /// Previous maximum power above the threshold, `None` if no power above threshold
    /// has been seen.
    prev: Option<i64>,
}

impl View for SyncDetector {
    type V = Option<i64>;

    /// The power being tracked, `None` while idle.
    closed spec fn view(&self) -> Option<i64> {
        self.prev
    }
}

impl SyncDetector {
    /// Create a new `SyncDetector` in the idle state.
    pub fn new() -> (detector: SyncDetector)
        ensures
            detector@ is None,
    {
        SyncDetector { prev: None }
    }

    /// Consider the given power related to the given instantaneous power threshold.
    /// Return `true` if the power peaked above threshold in the previous sample and
    /// `false` otherwise.
    pub fn detect(&mut self, corrpow: i64, thresh: i64) -> (found: bool)
        ensures
            (final(self)@, found) == detector_step(old(self)@, corrpow, thresh),
    {
        match self.prev {
            Some(peak) => {
                if corrpow < peak {
                    self.prev = None;
                    return true;
                } else {
                    self.prev = Some(corrpow);
                }
            },
            None => {
                if corrpow > thresh {
                    self.prev = Some(corrpow);
                }
            },
        }
        false
    }
}

/// The detector's state before it sees sample `n` of a stream, having started idle:
/// `powers` holds the correlation power of each sample and `threshs` the threshold of
/// each.
pub open spec fn state_before(powers: Seq<i64>, threshs: Seq<i64>, n: int) -> Option<i64>
    decreases n,
{
    if n <= 0 {
        None
    } else {
        detector_step(state_before(powers, threshs, n - 1), powers[n - 1], threshs[n - 1]).0
    }
}

/// Whether the detector, having started idle, reports a peak at sample `i` of a stream.
pub open spec fn fires_at(powers: Seq<i64>, threshs: Seq<i64>, i: int) -> bool {
    detector_step(state_before(powers, threshs, i), powers[i], threshs[i]).1
}

/// While no power exceeds its threshold the detector stays idle and reports nothing.
pub proof fn lemma_idle_below_threshold(powers: Seq<i64>, threshs: Seq<i64>)
    requires
        powers.len() == threshs.len(),
        forall|i: int| 0 <= i < powers.len() ==> powers[i] <= threshs[i],
    ensures
        forall|i: int| 0 <= i < powers.len() ==> !fires_at(powers, threshs, i),
        forall|i: int| 0 <= i <= powers.len() ==> state_before(powers, threshs, i) is None,
{
    assert forall|i: int| 0 <= i <= powers.len() implies state_before(powers, threshs, i)
        is None by {
        lemma_idle_prefix(powers, threshs, i);
    }
}

/// The detector is idle after a prefix in which no power exceeds its threshold.
proof fn lemma_idle_prefix(powers: Seq<i64>, threshs: Seq<i64>, n: int)
    requires
        powers.len() == threshs.len(),
        0 <= n <= powers.len(),
        forall|i: int| 0 <= i < powers.len() ==> powers[i] <= threshs[i],
    ensures
        state_before(powers, threshs, n) is None,
    decreases n,
{
    if n > 0 {
        lemma_idle_prefix(powers, threshs, n - 1);
    }
}

/// The powers rise strictly up to sample `m` and fall strictly after it.
pub open spec fn single_peak(powers: Seq<i64>, m: int) -> bool {
    &&& 0 <= m < powers.len()
    &&& forall|i: int, j: int| 0 <= i < j <= m ==> powers[i] < powers[j]
    &&& forall|i: int, j: int| m <= i < j < powers.len() ==> powers[i] > powers[j]
}

/// The stream in which every sample meets the same threshold.
pub open spec fn fixed_threshold(thresh: i64, len: nat) -> Seq<i64> {
    Seq::new(len, |i: int| thresh)
}

/// Over powers that rise strictly to one peak above a fixed threshold and then fall
/// strictly, the detector reports once, at the sample that follows the peak, and
/// nowhere else.
///
/// Reporting returns the detector to idle, so a second sample after the peak that is
/// still above the threshold would start a new excursion, which the next fall would
/// report. The law is stated for the streams on which that cannot happen: the second
/// sample after the peak is at or below the threshold, or it ends the stream.
pub proof fn lemma_single_peak_fires_once(powers: Seq<i64>, thresh: i64, m: int)
    requires
        single_peak(powers, m),
        exists|i: int| 0 <= i < powers.len() && powers[i] > thresh,
        m + 3 < powers.len() ==> powers[m + 2] <= thresh,
    ensures
        forall|i: int|
            0 <= i < powers.len() ==> (fires_at(
                powers,
                fixed_threshold(thresh, powers.len()),
                i,
            ) <==> i == m + 1),
{
    let threshs = fixed_threshold(thresh, powers.len());
    assert(powers[m] > thresh) by {
        let i = choose|i: int| 0 <= i < powers.len() && powers[i] > thresh;
        assert(i != m ==> powers[i] < powers[m]);
    }
    assert forall|i: int| 0 <= i < powers.len() implies (fires_at(powers, threshs, i) <==> i
        == m + 1) by {
        lemma_single_peak_state(powers, thresh, m, i);
    }
}

/// The detector's state before each sample of a stream with a single peak.
proof fn lemma_single_peak_state(powers: Seq<i64>, thresh: i64, m: int, n: int)
    requires
        single_peak(powers, m),
        powers[m] > thresh,
        m + 3 < powers.len() ==> powers[m + 2] <= thresh,
        0 <= n < powers.len(),
    ensures
        state_before(powers, fixed_threshold(thresh, powers.len()), n) == if 0 < n <= m + 1
            && powers[n - 1] > thresh {
            Some(powers[n - 1])
        } else {
            None
        },
    decreases n,
{
    if n > 0 {
        lemma_single_peak_state(powers, thresh, m, n - 1);
        if n >= 2 && n <= m + 1 {
            assert(powers[n - 2] < powers[n - 1]);
        }
        if n == m + 2 {
            assert(powers[m] > powers[m + 1]);
        }
        if n > m + 3 {
            assert(powers[m + 2] > powers[n - 1]);
        }
    }
}

/// Number of samples of the window that lie before the first symbol instant used for
/// the averages: the first symbol of the sync word has left the window by the time the
/// peak is reported, so the averages start at the second.
pub const FIRST_INSTANT: usize = 9;

/// Offsets from `FIRST_INSTANT` of the instants of the symbols sent at the positive
/// level (dibit 01).
pub const POSITIVE_INSTANTS: [usize; 10] = [0, 10, 20, 30, 50, 60, 90, 100, 150, 170];

/// Offsets from `FIRST_INSTANT` of the instants of the symbols sent at the negative
/// level (dibit 11).
pub const NEGATIVE_INSTANTS: [usize; 13] = [
    40,
    70,
    80,
    110,
    120,
    130,
    140,
    160,
    180,
    190,
    200,
    210,
    220,
];

/// Sum of the samples of `w` at the first `n` of the given instants.
pub open spec fn instant_sum(w: Seq<i32>, instants: Seq<usize>, n: int) -> int
    decreases n,
{
    if n <= 0 {
        0
    } else {
        instant_sum(w, instants, n - 1) + w[FIRST_INSTANT + instants[n - 1]]
    }
}

/// Mean of the samples of the window `w` at the instants of the positive symbols,
/// rounded toward zero.
pub open spec fn positive_average(w: Seq<i32>) -> int {
    toward_zero(instant_sum(w, POSITIVE_INSTANTS@, 10), 10)
}

/// Mean of the samples of the window `w` at the instants of the negative symbols,
/// rounded toward zero.
pub open spec fn negative_average(w: Seq<i32>) -> int {
    toward_zero(instant_sum(w, NEGATIVE_INSTANTS@, 13), 13)
}

/// The threshold between the two inner symbols: the midpoint of the two outer levels,
/// rounded toward zero.
pub open spec fn mid_threshold(pavg: int, navg: int) -> int {
    toward_zero(pavg + navg, 2)
}

/// The threshold between an outer symbol at `level` and the inner symbol next to it:
/// two thirds of the way from `mid` to `level`, the distance rounded toward zero.
pub open spec fn outer_threshold(level: int, mid: int) -> int {
    mid + toward_zero((level - mid) * 2, 3)
}

/// The `(upper, mid, lower)` thresholds for the positive level `pavg` and the negative
/// level `navg`.
pub open spec fn thresholds_of(pavg: int, navg: int) -> (int, int, int) {
    let mid = mid_threshold(pavg, navg);
    (outer_threshold(pavg, mid), mid, outer_threshold(navg, mid))
}

/// The instants that the averages read are the symbol instants of the sync word after
/// the first, all of them: the positive instants are those of the symbols at the
/// positive level and the negative instants those of the symbols at the negative level.
/// Offset `t` is the instant of symbol `t / 10 + 1`.
pub proof fn lemma_instants_follow_sync_word()
    ensures
        forall|j: int|
            0 <= j < 10 ==> (#[trigger] POSITIVE_INSTANTS[j]) % 10 == 0 && symbol_level(
                POSITIVE_INSTANTS[j] / 10 + 1,
            ) == 1,
        forall|j: int|
            0 <= j < 13 ==> (#[trigger] NEGATIVE_INSTANTS[j]) % 10 == 0 && symbol_level(
                NEGATIVE_INSTANTS[j] / 10 + 1,
            ) == -1,
        forall|k: int|
            1 <= k < SYNC_SYMBOLS ==> if #[trigger] symbol_level(k) == 1 {
                exists|j: int| 0 <= j < 10 && POSITIVE_INSTANTS[j] == 10 * (k - 1)
            } else {
                exists|j: int| 0 <= j < 13 && NEGATIVE_INSTANTS[j] == 10 * (k - 1)
            },
{
    lemma_symbol_levels();
    assert forall|j: int| 0 <= j < 10 implies (#[trigger] POSITIVE_INSTANTS[j]) % 10 == 0
        && symbol_level(POSITIVE_INSTANTS[j] / 10 + 1) == 1 by {
        assert(j == 0 || j == 1 || j == 2 || j == 3 || j == 4 || j == 5 || j == 6 || j == 7 || j
            == 8 || j == 9);
    }
    assert forall|j: int| 0 <= j < 13 implies (#[trigger] NEGATIVE_INSTANTS[j]) % 10 == 0
        && symbol_level(NEGATIVE_INSTANTS[j] / 10 + 1) == -1 by {
        assert(j == 0 || j == 1 || j == 2 || j == 3 || j == 4 || j == 5 || j == 6 || j == 7 || j
            == 8 || j == 9 || j == 10 || j == 11 || j == 12);
    }
    assert forall|k: int| 1 <= k < SYNC_SYMBOLS implies if #[trigger] symbol_level(k) == 1 {
        exists|j: int| 0 <= j < 10 && POSITIVE_INSTANTS[j] == 10 * (k - 1)
    } else {
        exists|j: int| 0 <= j < 13 && NEGATIVE_INSTANTS[j] == 10 * (k - 1)
    } by {
        if k == 1 {
            assert(POSITIVE_INSTANTS[0] == 0);
        }
        if k == 2 {
            assert(POSITIVE_INSTANTS[1] == 10);
        }
        if k == 3 {
            assert(POSITIVE_INSTANTS[2] == 20);
        }
        if k == 4 {
            assert(POSITIVE_INSTANTS[3] == 30);
        }
        if k == 5 {
            assert(NEGATIVE_INSTANTS[0] == 40);
        }
        if k == 6 {
            assert(POSITIVE_INSTANTS[4] == 50);
        }
        if k == 7 {
            assert(POSITIVE_INSTANTS[5] == 60);
        }
        if k == 8 {
            assert(NEGATIVE_INSTANTS[1] == 70);
        }
        if k == 9 {
            assert(NEGATIVE_INSTANTS[2] == 80);
        }
        if k == 10 {
            assert(POSITIVE_INSTANTS[6] == 90);
        }
        if k == 11 {
            assert(POSITIVE_INSTANTS[7] == 100);
        }
        if k == 12 {
            assert(NEGATIVE_INSTANTS[3] == 110);
        }
        if k == 13 {
            assert(NEGATIVE_INSTANTS[4] == 120);
        }
        if k == 14 {
            assert(NEGATIVE_INSTANTS[5] == 130);
        }
        if k == 15 {
            assert(NEGATIVE_INSTANTS[6] == 140);
        }
        if k == 16 {
            assert(POSITIVE_INSTANTS[8] == 150);
        }
        if k == 17 {
            assert(NEGATIVE_INSTANTS[7] == 160);
        }
        if k == 18 {
            assert(POSITIVE_INSTANTS[9] == 170);
        }
        if k == 19 {
            assert(NEGATIVE_INSTANTS[8] == 180);
        }
        if k == 20 {
            assert(NEGATIVE_INSTANTS[9] == 190);
        }
        if k == 21 {
            assert(NEGATIVE_INSTANTS[10] == 200);
        }
        if k == 22 {
            assert(NEGATIVE_INSTANTS[11] == 210);
        }
        if k == 23 {
            assert(NEGATIVE_INSTANTS[12] == 220);
        }
    }
}

/// Every instant lies in the window.
proof fn lemma_instants_in_window()
    ensures
        forall|j: int| 0 <= j < 10 ==> #[trigger] POSITIVE_INSTANTS[j] <= 220,
        forall|j: int| 0 <= j < 13 ==> #[trigger] NEGATIVE_INSTANTS[j] <= 220,
{
    assert forall|j: int| 0 <= j < 10 implies #[trigger] POSITIVE_INSTANTS[j] <= 220 by {
        assert(j == 0 || j == 1 || j == 2 || j == 3 || j == 4 || j == 5 || j == 6 || j == 7 || j
            == 8 || j == 9);
    }
    assert forall|j: int| 0 <= j < 13 implies #[trigger] NEGATIVE_INSTANTS[j] <= 220 by {
        assert(j == 0 || j == 1 || j == 2 || j == 3 || j == 4 || j == 5 || j == 6 || j == 7 || j
            == 8 || j == 9 || j == 10 || j == 11 || j == 12);
    }
}

/// Calculate the average positive (symbol 01) and negative (symbol 11) sample value at
/// each symbol instant in the given samples.
pub fn calc_averages(samples: &[i32; FINGERPRINT_SAMPS]) -> (avgs: (i32, i32))
    ensures
        avgs.0 == positive_average(samples@),
        avgs.1 == negative_average(samples@),
{
    proof {
        lemma_instants_in_window();
    }
    let mut psum: i64 = 0;
    let mut i: usize = 0;
    while i < 10
        invariant
            i <= 10,
            forall|j: int| 0 <= j < 10 ==> #[trigger] POSITIVE_INSTANTS[j] <= 220,
            psum == instant_sum(samples@, POSITIVE_INSTANTS@, i as int),
            -0x8000_0000 * i <= psum <= 0x7fff_ffff * i,
        decreases 10 - i,
    {
        psum = psum + samples[FIRST_INSTANT + POSITIVE_INSTANTS[i]] as i64;
        i += 1;
    }
    let mut nsum: i64 = 0;
    let mut k: usize = 0;
    while k < 13
        invariant
            k <= 13,
            forall|j: int| 0 <= j < 13 ==> #[trigger] NEGATIVE_INSTANTS[j] <= 220,
            nsum == instant_sum(samples@, NEGATIVE_INSTANTS@, k as int),
            -0x8000_0000 * k <= nsum <= 0x7fff_ffff * k,
        decreases 13 - k,
    {
        nsum = nsum + samples[FIRST_INSTANT + NEGATIVE_INSTANTS[k]] as i64;
        k += 1;
    }
    ((psum / 10) as i32, (nsum / 13) as i32)
}

/// The thresholds lie between the two levels.
proof fn lemma_thresholds_bounds(pavg: int, navg: int, lo: int, hi: int)
    requires
        lo <= pavg <= hi,
        lo <= navg <= hi,
    ensures
        lo <= thresholds_of(pavg, navg).0 <= hi,
        lo <= thresholds_of(pavg, navg).1 <= hi,
        lo <= thresholds_of(pavg, navg).2 <= hi,
{
}

/// Calculate the upper, mid, and lower thresholds for symbol decisions from the given
/// positive and negative sample values.
pub fn calc_thresholds(pavg: i32, navg: i32) -> (thresholds: (i32, i32, i32))
    ensures
        (thresholds.0 as int, thresholds.1 as int, thresholds.2 as int) == thresholds_of(
            pavg as int,
            navg as int,
        ),
{
    proof {
        lemma_thresholds_bounds(pavg as int, navg as int, -0x8000_0000, 0x7fff_ffff);
    }
    let mthresh: i64 = (pavg as i64 + navg as i64) / 2;
    let pthresh: i64 = mthresh + (pavg as i64 - mthresh) * 2 / 3;
    let nthresh: i64 = mthresh + (navg as i64 - mthresh) * 2 / 3;
    (pthresh as i32, mthresh as i32, nthresh as i32)
}

/// Computes symbol decision thresholds from sync sequences.
pub struct SymbolThresholds {
    /// Smooths estimate for positive symbol threshold.
    psmooth: MovingAverage,
    /// Smooths estimate for negative symbol threshold.
    nsmooth: MovingAverage,
}

impl SymbolThresholds {
    /// Both smoothers are well formed.
    pub closed spec fn wf(&self) -> bool {
        self.psmooth.wf() && self.nsmooth.wf()
    }

    /// The positive averages held for smoothing, oldest first.
    pub closed spec fn positive(&self) -> Seq<int> {
        self.psmooth@
    }

    /// The negative averages held for smoothing, oldest first.
    pub closed spec fn negative(&self) -> Seq<int> {
        self.nsmooth@
    }

    /// Never more than `SMOOTH_AVG` averages are held of either kind.
    pub proof fn lemma_held_len(&self)
        requires
            self.wf(),
        ensures
            self.positive().len() <= SMOOTH_AVG,
            self.negative().len() <= SMOOTH_AVG,
    {
        self.psmooth.lemma_view_bounds();
        self.nsmooth.lemma_view_bounds();
    }

    /// Create a new `SymbolThresholds` that has seen no sync sequence.
    pub fn new() -> (estimator: SymbolThresholds)
        ensures
            estimator.wf(),
            estimator.positive() == Seq::<int>::empty(),
            estimator.negative() == Seq::<int>::empty(),
    {
        SymbolThresholds { psmooth: MovingAverage::new(), nsmooth: MovingAverage::new() }
    }

    /// Calculate `(upper, mid, lower)` thresholds for symbol decoding from the given
    /// sync fingerprint samples.
    ///
    /// The first sample should be the sample immediately after the first symbol impulse
    /// in the fingerprint, and the last sample should be the sample immediately after
    /// the final symbol impulse.
    pub fn thresholds(&mut self, sync: &[i32; FINGERPRINT_SAMPS]) -> (thresholds: (
        i32,
        i32,
        i32,
    ))
        requires
            old(self).wf(),
        ensures
            final(self).wf(),
            final(self).positive() == observe(old(self).positive(), positive_average(sync@)),
            final(self).negative() == observe(old(self).negative(), negative_average(sync@)),
            (thresholds.0 as int, thresholds.1 as int, thresholds.2 as int) == thresholds_of(
                mean(final(self).positive()),
                mean(final(self).negative()),
            ),
    {
        let (pavg, navg) = calc_averages(sync);
        let pavg: i32 = self.psmooth.feed(pavg);
        let navg: i32 = self.nsmooth.feed(navg);
        calc_thresholds(pavg, navg)
    }
}

/// For levels that mirror each other about zero the mid threshold is zero and the outer
/// thresholds mirror each other, two thirds of the way to the levels.
pub proof fn lemma_thresholds_symmetric(p: int)
    ensures
        thresholds_of(p, -p) == (toward_zero(2 * p, 3), 0int, -toward_zero(2 * p, 3)),
{
}

/// Once the same pair of averages has come from `SMOOTH_AVG` sync sequences or more in
/// a row, the thresholds are those of that pair, whatever was held before.
pub proof fn lemma_thresholds_settle(
    positive: Seq<int>,
    negative: Seq<int>,
    pavg: int,
    navg: int,
    k: nat,
)
    requires
        positive.len() <= SMOOTH_AVG,
        negative.len() <= SMOOTH_AVG,
        k >= SMOOTH_AVG,
    ensures
        thresholds_of(
            mean(observe_repeat(positive, pavg, k)),
            mean(observe_repeat(negative, navg, k)),
        ) == thresholds_of(pavg, navg),
{
    lemma_smoothing_converges(positive, pavg, k);
    lemma_smoothing_converges(negative, navg, k);
}

} // verus!
