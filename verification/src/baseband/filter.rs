//! Sliding-window correlation of the sample stream with the sync fingerprint.

use vstd::prelude::*;
use crate::baseband::fingerprint::{
    coefficient,
    lemma_coefficient_in_period,
    lemma_symbol_levels,
    level,
    symbol_level,
    FINGERPRINT_SAMPS,
    SYMBOL_PERIOD,
    SYNC_SYMBOLS,
};

verus! {

/// The window after one more sample: the oldest sample leaves, `x` arrives.
pub open spec fn slide(w: Seq<i32>, x: i32) -> Seq<i32> {
    w.drop_first().push(x)
}

/// The window after the samples `xs` have arrived, first to last.
pub open spec fn slide_all(w: Seq<i32>, xs: Seq<i32>) -> Seq<i32>
    decreases xs.len(),
{
    if xs.len() == 0 {
        w
    } else {
        slide(slide_all(w, xs.drop_last()), xs.last())
    }
}

/// Inner product of the first `n` samples of `w` with the first `n` coefficients of the
/// fingerprint.
pub open spec fn correlation_upto(w: Seq<i32>, n: int) -> int
    decreases n,
{
    if n <= 0 {
        0
    } else {
        correlation_upto(w, n - 1) + coefficient(n - 1) * w[n - 1]
    }
}

/// Inner product of the window `w` with the fingerprint.
pub open spec fn correlation(w: Seq<i32>) -> int {
    correlation_upto(w, FINGERPRINT_SAMPS as int)
}

/// The window that holds no signal.
pub open spec fn silence() -> Seq<i32> {
    Seq::new(FINGERPRINT_SAMPS as nat, |i: int| 0i32)
}

/// How much the coefficient that a sample meets falls when the sample moves from place
/// `j` of the window to place `j - 1`, which it does when the next sample arrives.
pub open spec fn edge(j: int) -> int {
    coefficient(j - 1) - coefficient(j)
}

/// What the samples at places `1` to `n` of `w` gain in the correlation when the next
/// sample arrives and each of them moves one place toward the oldest end.
pub open spec fn drift_upto(w: Seq<i32>, n: int) -> int
    decreases n,
{
    if n <= 0 {
        0
    } else {
        drift_upto(w, n - 1) + edge(n) * w[n]
    }
}

/// Half the fall in level from symbol `k` of the sync word to the next: `1`, `0` or
/// `-1`.
pub open spec fn half_step(k: int) -> int {
    (symbol_level(k) - symbol_level(k + 1)) / 2
}

/// The correlation is at most as far from zero as the window's samples taken together.
pub proof fn lemma_correlation_bounds(w: Seq<i32>, n: int)
    requires
        0 <= n <= FINGERPRINT_SAMPS,
    ensures
        -0x8000_0000 * n <= correlation_upto(w, n) <= 0x8000_0000 * n,
    decreases n,
{
    if n > 0 {
        lemma_correlation_bounds(w, n - 1);
        lemma_unit_product(coefficient(n - 1), w[n - 1] as int);
    }
}

/// A window that holds no signal does not correlate.
proof fn lemma_silence_correlation(n: int)
    requires
        0 <= n <= FINGERPRINT_SAMPS,
    ensures
        correlation_upto(silence(), n) == 0,
    decreases n,
{
    if n > 0 {
        lemma_silence_correlation(n - 1);
        assert(silence()[n - 1] == 0i32);
        assert(coefficient(n - 1) * 0 == 0) by (nonlinear_arith);
    }
}

/// What one sample weighs in a sum: itself, its negation or nothing.
proof fn lemma_unit_product(c: int, x: int)
    requires
        -1 <= c <= 1,
    ensures
        c * x == if c > 0 {
            x
        } else if c < 0 {
            -x
        } else {
            0
        },
{
    assert(1 * x == x && (-1) * x == -x && 0 * x == 0) by (nonlinear_arith);
}

/// The correlation of the first `n` samples of the moved window, told by the old
/// window: each sample but the oldest is still there, one place on.
proof fn lemma_slide_correlation_upto(w: Seq<i32>, x: i32, n: int)
    requires
        w.len() == FINGERPRINT_SAMPS,
        0 <= n < FINGERPRINT_SAMPS,
    ensures
        correlation_upto(slide(w, x), n) == correlation_upto(w, n + 1) - coefficient(0) * w[0]
            + drift_upto(w, n),
    decreases n,
{
    if n > 0 {
        lemma_slide_correlation_upto(w, x, n - 1);
        assert(slide(w, x)[n - 1] == w[n]);
        let before = coefficient(n - 1);
        let after = coefficient(n);
        let sample = w[n] as int;
        assert(before * sample == after * sample + (before - after) * sample)
            by (nonlinear_arith);
    } else {
        assert(correlation_upto(w, 0) == 0);
    }
}

/// When a sample arrives the correlation loses what the evicted sample weighed, gains
/// what the new one weighs, and changes by what the samples in between meet on their
/// new places.
pub proof fn lemma_slide_correlation(w: Seq<i32>, x: i32)
    requires
        w.len() == FINGERPRINT_SAMPS,
    ensures
        correlation(slide(w, x)) == correlation(w) - coefficient(0) * w[0] + drift_upto(
            w,
            FINGERPRINT_SAMPS - 1,
        ) + coefficient(FINGERPRINT_SAMPS - 1) * x,
{
    lemma_slide_correlation_upto(w, x, FINGERPRINT_SAMPS - 1);
    assert(slide(w, x)[FINGERPRINT_SAMPS - 1] == x);
}

/// Within the symbol period that follows symbol `k`, the coefficient changes only about
/// the middle of the period, and only if the next symbol has another level: the two
/// samples that cross the middle gain `half_step(k)` each.
proof fn lemma_drift_period(w: Seq<i32>, k: int)
    requires
        0 <= k < SYNC_SYMBOLS - 1,
    ensures
        drift_upto(w, 10 * k + 10) == drift_upto(w, 10 * k) + half_step(k) * (w[10 * k + 5]
            + w[10 * k + 6]),
{
    let base = 10 * k;
    lemma_coefficient_in_period(k, 0);
    lemma_coefficient_in_period(k, 1);
    lemma_coefficient_in_period(k, 2);
    lemma_coefficient_in_period(k, 3);
    lemma_coefficient_in_period(k, 4);
    lemma_coefficient_in_period(k, 5);
    lemma_coefficient_in_period(k, 6);
    lemma_coefficient_in_period(k, 7);
    lemma_coefficient_in_period(k, 8);
    lemma_coefficient_in_period(k, 9);
    lemma_coefficient_in_period(k, 10);
    assert(edge(base + 5) == half_step(k));
    assert(edge(base + 6) == half_step(k));
    lemma_unit_product(edge(base + 1), w[base + 1] as int);
    lemma_unit_product(edge(base + 2), w[base + 2] as int);
    lemma_unit_product(edge(base + 3), w[base + 3] as int);
    lemma_unit_product(edge(base + 4), w[base + 4] as int);
    lemma_unit_product(edge(base + 7), w[base + 7] as int);
    lemma_unit_product(edge(base + 8), w[base + 8] as int);
    lemma_unit_product(edge(base + 9), w[base + 9] as int);
    lemma_unit_product(edge(base + 10), w[base + 10] as int);
    let h = half_step(k);
    let a = w[base + 5] as int;
    let b = w[base + 6] as int;
    assert(h * a + h * b == h * (a + b)) by (nonlinear_arith);
    assert(drift_upto(w, base + 4) == drift_upto(w, base)) by {
        reveal_with_fuel(drift_upto, 5);
    }
    assert(drift_upto(w, base + 6) == drift_upto(w, base + 4) + h * a + h * b) by {
        reveal_with_fuel(drift_upto, 3);
    }
    assert(drift_upto(w, base + 10) == drift_upto(w, base + 6)) by {
        reveal_with_fuel(drift_upto, 5);
    }
}

/// Cross-correlates the last `FINGERPRINT_SAMPS` samples of a stream with the sync
/// fingerprint.
///
/// The samples live in a ring: `hist[idx]` is the oldest and the next to be replaced,
/// and the window in order of arrival is `hist[idx..]` followed by `hist[..idx]`.
pub struct FingerprintFilter {
    hist: [i32; FINGERPRINT_SAMPS],
    idx: usize,
    /// Inner product of the window with the fingerprint, kept up to date sample by
    /// sample.
    acc: i64,
}

impl View for FingerprintFilter {
    type V = Seq<i32>;

    /// The window, oldest sample first.
    closed spec fn view(&self) -> Seq<i32> {
        Seq::new(
            FINGERPRINT_SAMPS as nat,
            |i: int| self.hist@[(self.idx + i) % (FINGERPRINT_SAMPS as int)],
        )
    }
}

impl FingerprintFilter {
    /// The ring's cursor points into the ring, and the running correlation is that of
    /// the window.
    pub closed spec fn wf(&self) -> bool {
        &&& self.idx < FINGERPRINT_SAMPS
        &&& self.acc == correlation(self@)
    }

    /// A window always holds `FINGERPRINT_SAMPS` samples.
    pub proof fn lemma_window_len(&self)
        ensures
            self@.len() == FINGERPRINT_SAMPS,
    {
    }

    /// Create a filter whose window holds no signal.
    pub fn new() -> (filter: FingerprintFilter)
        ensures
            filter.wf(),
            filter@ == silence(),
    {
        let filter = FingerprintFilter { hist: [0i32; FINGERPRINT_SAMPS], idx: 0, acc: 0 };
        proof {
            assert(filter@ =~= silence());
            lemma_silence_correlation(FINGERPRINT_SAMPS as int);
        }
        filter
    }

    /// Take `sample` into the window, evicting the oldest sample, and return the inner
    /// product of the new window with the fingerprint.
    pub fn feed(&mut self, sample: i32) -> (total: i64)
        requires
            old(self).wf(),
        ensures
            final(self).wf(),
            final(self)@ == slide(old(self)@, sample),
            total == correlation(final(self)@),
    {
        let drift: i64 = self.drift();
        let leaving: i64 = self.hist[self.idx] as i64;
        let first: i64 = level(0) as i64;
        let last: i64 = level(SYNC_SYMBOLS - 1) as i64;
        proof {
            let w = self@;
            lemma_slide_correlation(w, sample);
            lemma_correlation_bounds(w, FINGERPRINT_SAMPS as int);
            lemma_unit_product(first as int, leaving as int);
            lemma_unit_product(last as int, sample as int);
        }
        let gone: i64 = if first > 0 {
            leaving
        } else {
            -leaving
        };
        let come: i64 = if last > 0 {
            sample as i64
        } else {
            -(sample as i64)
        };
        self.acc = self.acc - gone + drift + come;
        self.hist[self.idx] = sample;
        self.idx = (self.idx + 1) % FINGERPRINT_SAMPS;
        assert(self@ =~= slide(old(self)@, sample));
        self.acc
    }

    /// The oldest sample of the window, which the next `feed` evicts.
    pub fn oldest(&self) -> (sample: i32)
        requires
            self.wf(),
        ensures
            sample == self@[0],
    {
        self.hist[self.idx]
    }

    /// What the samples that stay gain in the correlation when the next sample arrives.
    ///
    /// The fingerprint is flat but where two symbols of unlike level meet, so only the
    /// two samples about the middle of such a symbol period count.
    fn drift(&self) -> (total: i64)
        requires
            self.wf(),
        ensures
            total == drift_upto(self@, FINGERPRINT_SAMPS - 1),
            -0x8000_0000 * 46 <= total <= 0x8000_0000 * 46,
    {
        let mut total: i64 = 0;
        let mut k: usize = 0;
        while k < SYNC_SYMBOLS - 1
            invariant
                self.wf(),
                k <= SYNC_SYMBOLS - 1,
                total == drift_upto(self@, 10 * k),
                -0x8000_0000 * (2 * k) <= total <= 0x8000_0000 * (2 * k),
            decreases SYNC_SYMBOLS - 1 - k,
        {
            let here: i8 = level(k);
            let next: i8 = level(k + 1);
            let middle: usize = self.idx + SYMBOL_PERIOD * k + SYMBOL_PERIOD / 2;
            let before: i64 = self.hist[middle % FINGERPRINT_SAMPS] as i64;
            let after: i64 = self.hist[(middle + 1) % FINGERPRINT_SAMPS] as i64;
            proof {
                lemma_drift_period(self@, k as int);
                lemma_unit_product(half_step(k as int), before + after);
            }
            if here > next {
                total = total + (before + after);
            } else if here < next {
                total = total - (before + after);
            }
            k += 1;
        }
        total
    }

    /// The window in order of arrival, oldest sample first.
    pub fn history(&self) -> (window: [i32; FINGERPRINT_SAMPS])
        requires
            self.wf(),
        ensures
            window@ == self@,
    {
        let mut window: [i32; FINGERPRINT_SAMPS] = [0i32; FINGERPRINT_SAMPS];
        let tail: usize = FINGERPRINT_SAMPS - self.idx;
        let mut i: usize = 0;
        while i < tail
            invariant
                self.wf(),
                tail == FINGERPRINT_SAMPS - self.idx,
                i <= tail,
                forall|j: int| 0 <= j < i ==> window@[j] == self@[j],
            decreases tail - i,
        {
            window[i] = self.hist[self.idx + i];
            i += 1;
        }
        let mut k: usize = 0;
        while k < self.idx
            invariant
                self.wf(),
                tail == FINGERPRINT_SAMPS - self.idx,
                k <= self.idx,
                forall|j: int| 0 <= j < tail + k ==> window@[j] == self@[j],
            decreases self.idx - k,
        {
            window[tail + k] = self.hist[k];
            k += 1;
        }
        window
    }
}

/// However the ring is laid out, the window after `xs` is the last `FINGERPRINT_SAMPS`
/// samples of the old window followed by `xs`.
pub proof fn lemma_slide_all_is_suffix(w: Seq<i32>, xs: Seq<i32>)
    requires
        w.len() == FINGERPRINT_SAMPS,
    ensures
        slide_all(w, xs) == (w + xs).subrange(xs.len() as int, xs.len() + FINGERPRINT_SAMPS),
    decreases xs.len(),
{
    if xs.len() > 0 {
        lemma_slide_all_is_suffix(w, xs.drop_last());
    }
}

/// Once `FINGERPRINT_SAMPS` samples or more have been fed, the window holds exactly the
/// last `FINGERPRINT_SAMPS` of them, in order of arrival.
pub proof fn lemma_window_holds_latest(w: Seq<i32>, xs: Seq<i32>)
    requires
        w.len() == FINGERPRINT_SAMPS,
        xs.len() >= FINGERPRINT_SAMPS,
    ensures
        slide_all(w, xs) == xs.subrange(xs.len() - FINGERPRINT_SAMPS, xs.len() as int),
{
    lemma_slide_all_is_suffix(w, xs);
}

/// Sum of the squares of the first `n` coefficients of the fingerprint.
pub open spec fn fingerprint_energy_upto(n: int) -> int
    decreases n,
{
    if n <= 0 {
        0
    } else {
        fingerprint_energy_upto(n - 1) + coefficient(n - 1) * coefficient(n - 1)
    }
}

/// Sum of the squares of the coefficients of the fingerprint.
pub open spec fn fingerprint_energy() -> int {
    fingerprint_energy_upto(FINGERPRINT_SAMPS as int)
}

/// Number of symbols among the first `k` of the sync word that are followed by a symbol
/// of the other level.
pub open spec fn unlike_upto(k: int) -> int
    decreases k,
{
    if k <= 0 {
        0
    } else {
        unlike_upto(k - 1) + if symbol_level(k - 1) == symbol_level(k) {
            0int
        } else {
            1int
        }
    }
}

/// A coefficient that is a level has the square `1`.
proof fn lemma_unit_square(c: int)
    requires
        c == 1 || c == -1 || c == 0,
    ensures
        c * c == if c == 0 {
            0int
        } else {
            1int
        },
{
    assert(1 * 1 == 1 && (-1) * (-1) == 1 && 0 * 0 == 0) by (nonlinear_arith);
}

/// The energy of the fingerprint up to symbol `k`: one for each sample, but for the
/// sample midway between two symbols of unlike level.
proof fn lemma_fingerprint_energy_upto(k: int)
    requires
        0 <= k < SYNC_SYMBOLS,
    ensures
        fingerprint_energy_upto(10 * k + 1) == 1 + 10 * k - unlike_upto(k),
    decreases k,
{
    if k > 0 {
        lemma_fingerprint_energy_upto(k - 1);
        let base = 10 * (k - 1);
        lemma_coefficient_in_period(k - 1, 1);
        lemma_coefficient_in_period(k - 1, 2);
        lemma_coefficient_in_period(k - 1, 3);
        lemma_coefficient_in_period(k - 1, 4);
        lemma_coefficient_in_period(k - 1, 5);
        lemma_coefficient_in_period(k - 1, 6);
        lemma_coefficient_in_period(k - 1, 7);
        lemma_coefficient_in_period(k - 1, 8);
        lemma_coefficient_in_period(k - 1, 9);
        lemma_coefficient_in_period(k - 1, 10);
        lemma_unit_square(coefficient(base + 1));
        lemma_unit_square(coefficient(base + 2));
        lemma_unit_square(coefficient(base + 3));
        lemma_unit_square(coefficient(base + 4));
        lemma_unit_square(coefficient(base + 5));
        lemma_unit_square(coefficient(base + 6));
        lemma_unit_square(coefficient(base + 7));
        lemma_unit_square(coefficient(base + 8));
        lemma_unit_square(coefficient(base + 9));
        lemma_unit_square(coefficient(base + 10));
        assert(fingerprint_energy_upto(base + 5) == fingerprint_energy_upto(base + 1) + 4) by {
            reveal_with_fuel(fingerprint_energy_upto, 5);
        }
        assert(fingerprint_energy_upto(base + 6) == fingerprint_energy_upto(base + 5)
            + coefficient(base + 5) * coefficient(base + 5));
        assert(fingerprint_energy_upto(base + 11) == fingerprint_energy_upto(base + 6) + 5) by {
            reveal_with_fuel(fingerprint_energy_upto, 6);
        }
    } else {
        lemma_coefficient_in_period(0, 0);
        lemma_unit_square(coefficient(0));
        assert(fingerprint_energy_upto(1) == coefficient(0) * coefficient(0)) by {
            reveal_with_fuel(fingerprint_energy_upto, 2);
        }
    }
}

/// The fingerprint has 231 samples, 9 of them zero, midway between symbols of unlike
/// level, and the others `1` or `-1`: the sum of its squares is 222.
pub proof fn lemma_fingerprint_energy()
    ensures
        fingerprint_energy() == 222,
{
    lemma_fingerprint_energy_upto(SYNC_SYMBOLS - 1);
    assert(unlike_upto(SYNC_SYMBOLS - 1) == 9) by {
        lemma_symbol_levels();
        reveal_with_fuel(unlike_upto, 24);
    }
}

/// `xs` is the fingerprint itself at amplitude `a`.
pub open spec fn is_fingerprint_waveform(xs: Seq<i32>, a: int) -> bool {
    &&& xs.len() == FINGERPRINT_SAMPS
    &&& forall|i: int| 0 <= i < FINGERPRINT_SAMPS ==> xs[i] == a * coefficient(i)
}

/// The correlation of the fingerprint waveform with the fingerprint, up to sample `n`.
proof fn lemma_self_correlation_upto(xs: Seq<i32>, a: int, n: int)
    requires
        is_fingerprint_waveform(xs, a),
        0 <= n <= FINGERPRINT_SAMPS,
    ensures
        correlation_upto(xs, n) == a * fingerprint_energy_upto(n),
    decreases n,
{
    if n > 0 {
        lemma_self_correlation_upto(xs, a, n - 1);
        let c = coefficient(n - 1);
        let rest = fingerprint_energy_upto(n - 1);
        assert(xs[n - 1] == a * c);
        assert(a * rest + c * (a * c) == a * (rest + c * c)) by (nonlinear_arith);
    } else {
        assert(a * 0 == 0) by (nonlinear_arith);
    }
}

/// When the sample stream is the fingerprint itself, at amplitude `a`, the correlation
/// that follows its last sample is `a` times the sum of the squares of the fingerprint,
/// whatever the window held before.
pub proof fn lemma_self_correlation(w: Seq<i32>, xs: Seq<i32>, a: int)
    requires
        w.len() == FINGERPRINT_SAMPS,
        is_fingerprint_waveform(xs, a),
    ensures
        slide_all(w, xs) == xs,
        correlation(slide_all(w, xs)) == a * fingerprint_energy(),
{
    lemma_window_holds_latest(w, xs);
    assert(xs.subrange(0, FINGERPRINT_SAMPS as int) =~= xs);
    lemma_self_correlation_upto(xs, a, FINGERPRINT_SAMPS as int);
}

} // verus!
