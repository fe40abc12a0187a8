//! Smoothing of an estimate over the last few observations.

use vstd::prelude::*;
use crate::baseband::numeric::{all_samples, lemma_mean_bounds, mean, sum_upto};

verus! {

/// Number of observations that an estimate is smoothed over.
pub const SMOOTH_AVG: usize = 4;

/// The observations held after `x` arrives: `x` joins the newest end, and the oldest
/// leaves once more than `SMOOTH_AVG` would be held.
pub open spec fn observe(w: Seq<int>, x: int) -> Seq<int> {
    if w.len() < SMOOTH_AVG {
        w.push(x)
    } else {
        w.drop_first().push(x)
    }
}

/// The observations held after `x` has arrived `k` times in a row.
pub open spec fn observe_repeat(w: Seq<int>, x: int, k: nat) -> Seq<int>
    decreases k,
{
    if k == 0 {
        w
    } else {
        observe(observe_repeat(w, x, (k - 1) as nat), x)
    }
}

/// Arithmetic mean of the last `SMOOTH_AVG` observations, or of all of them while there
/// are fewer.
///
/// The observations live in a ring: until it is full they fill it from the front, after
/// that `hist[pos]` is the oldest and the next to be replaced.
pub struct MovingAverage {
    hist: [i32; SMOOTH_AVG],
    filled: usize,
    pos: usize,
}

impl View for MovingAverage {
    type V = Seq<int>;

    /// The observations held, oldest first.
    closed spec fn view(&self) -> Seq<int> {
        Seq::new(
            self.filled as nat,
            |i: int|
                if self.filled < SMOOTH_AVG {
                    self.hist@[i] as int
                } else {
                    self.hist@[(self.pos + i) % (SMOOTH_AVG as int)] as int
                },
        )
    }
}

impl MovingAverage {
    /// The ring holds at most `SMOOTH_AVG` observations and the cursor follows them.
    pub closed spec fn wf(&self) -> bool {
        &&& self.filled <= SMOOTH_AVG
        &&& self.pos < SMOOTH_AVG
        &&& self.filled < SMOOTH_AVG ==> self.pos == self.filled
    }

    /// Never more than `SMOOTH_AVG` observations are held, each the value of a sample.
    pub proof fn lemma_view_bounds(&self)
        requires
            self.wf(),
        ensures
            self@.len() <= SMOOTH_AVG,
            all_samples(self@),
    {
    }

    /// Create a moving average that holds no observation yet.
    pub fn new() -> (avg: MovingAverage)
        ensures
            avg.wf(),
            avg@ == Seq::<int>::empty(),
    {
        MovingAverage { hist: [0i32; SMOOTH_AVG], filled: 0, pos: 0 }
    }

    /// Take in the observation `num` and return the mean of the observations then held.
    pub fn feed(&mut self, num: i32) -> (avg: i32)
        requires
            old(self).wf(),
        ensures
            final(self).wf(),
            final(self)@ == observe(old(self)@, num as int),
            avg == mean(final(self)@),
    {
        self.hist[self.pos] = num;
        self.pos = (self.pos + 1) % SMOOTH_AVG;
        if self.filled < SMOOTH_AVG {
            self.filled = self.filled + 1;
        }
        assert(self@ =~= observe(old(self)@, num as int));
        self.avg()
    }

    /// Mean of the observations held.
    fn avg(&self) -> (avg: i32)
        requires
            self.wf(),
            self@.len() > 0,
        ensures
            avg == mean(self@),
    {
        let start: usize = if self.filled < SMOOTH_AVG {
            0
        } else {
            self.pos
        };
        let mut total: i64 = 0;
        let mut i: usize = 0;
        while i < self.filled
            invariant
                self.wf(),
                i <= self.filled,
                start == if self.filled < SMOOTH_AVG {
                    0
                } else {
                    self.pos
                },
                total == sum_upto(self@, i as int),
                -0x8000_0000 * i <= total <= 0x7fff_ffff * i,
            decreases self.filled - i,
        {
            let x: i32 = self.hist[(start + i) % SMOOTH_AVG];
            total = total + x as i64;
            i += 1;
        }
        proof {
            self.lemma_view_bounds();
            lemma_mean_bounds(self@);
        }
        (total / (self.filled as i64)) as i32
    }
}

/// An estimate that no longer changes is reached by its smoothed value within
/// `SMOOTH_AVG` observations, whatever was held before, and kept from then on.
pub proof fn lemma_smoothing_converges(w: Seq<int>, x: int, k: nat)
    requires
        w.len() <= SMOOTH_AVG,
        k >= SMOOTH_AVG,
    ensures
        observe_repeat(w, x, k) == Seq::new(SMOOTH_AVG as nat, |i: int| x),
        mean(observe_repeat(w, x, k)) == x,
{
    lemma_observe_repeat(w, x, k);
    let held = observe_repeat(w, x, k);
    assert(held =~= Seq::new(SMOOTH_AVG as nat, |i: int| x));
    reveal_with_fuel(sum_upto, 5);
}

/// After `x` has arrived `k` times, the newest `k` observations held are `x`.
proof fn lemma_observe_repeat(w: Seq<int>, x: int, k: nat)
    requires
        w.len() <= SMOOTH_AVG,
    ensures
        observe_repeat(w, x, k).len() == if w.len() + k < SMOOTH_AVG {
            w.len() + k
        } else {
            SMOOTH_AVG as nat
        },
        forall|i: int|
            0 <= i < observe_repeat(w, x, k).len() && i >= observe_repeat(w, x, k).len() - k
                ==> observe_repeat(w, x, k)[i] == x,
    decreases k,
{
    if k > 0 {
        lemma_observe_repeat(w, x, (k - 1) as nat);
    }
}

} // verus!
