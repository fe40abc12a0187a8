//! Integer arithmetic shared by the baseband stages.

use vstd::prelude::*;

verus! {

/// The quotient of `a` by a positive `d`, rounded toward zero.
pub open spec fn toward_zero(a: int, d: int) -> int {
    if a >= 0 {
        a / d
    } else {
        -((-a) / d)
    }
}

/// Sum of the first `n` elements of `s`.
pub open spec fn sum_upto(s: Seq<int>, n: int) -> int
    decreases n,
{
    if n <= 0 {
        0
    } else {
        sum_upto(s, n - 1) + s[n - 1]
    }
}

/// Sum of the elements of `s`.
pub open spec fn sum(s: Seq<int>) -> int {
    sum_upto(s, s.len() as int)
}

/// Arithmetic mean of the elements of a non-empty `s`, rounded toward zero.
pub open spec fn mean(s: Seq<int>) -> int {
    toward_zero(sum(s), s.len() as int)
}

/// Every element of `s` is the value of a sample.
pub open spec fn all_samples(s: Seq<int>) -> bool {
    forall|i: int| 0 <= i < s.len() ==> i32::MIN <= #[trigger] s[i] <= i32::MAX
}

/// A sum of `n` samples is at most `n` times as far from zero as a sample can be.
pub proof fn lemma_sum_bounds(s: Seq<int>, n: int)
    requires
        all_samples(s),
        0 <= n <= s.len(),
    ensures
        -0x8000_0000 * n <= sum_upto(s, n) <= 0x7fff_ffff * n,
    decreases n,
{
    if n > 0 {
        lemma_sum_bounds(s, n - 1);
    }
}

/// The quotient of `a` by `d`, rounded toward zero, lies where `a / d` lies.
pub proof fn lemma_toward_zero_bounds(a: int, d: int, lo: int, hi: int)
    requires
        d > 0,
        lo <= 0 <= hi,
        lo * d <= a <= hi * d,
    ensures
        lo <= toward_zero(a, d) <= hi,
{
    if a >= 0 {
        assert(a / d <= hi) by (nonlinear_arith)
            requires
                d > 0,
                0 <= a <= hi * d,
        ;
        assert(0 <= a / d) by (nonlinear_arith)
            requires
                d > 0,
                0 <= a,
        ;
    } else {
        assert((-lo) * d == -(lo * d)) by (nonlinear_arith);
        assert((-a) / d <= -lo) by (nonlinear_arith)
            requires
                d > 0,
                0 <= -a <= (-lo) * d,
        ;
        assert(0 <= (-a) / d) by (nonlinear_arith)
            requires
                d > 0,
                0 <= -a,
        ;
    }
}

/// The mean of samples is the value of a sample.
pub proof fn lemma_mean_bounds(s: Seq<int>)
    requires
        all_samples(s),
        s.len() > 0,
    ensures
        i32::MIN <= mean(s) <= i32::MAX,
{
    lemma_sum_bounds(s, s.len() as int);
    lemma_toward_zero_bounds(sum(s), s.len() as int, -0x8000_0000, 0x7fff_ffff);
}

/// Sum of the squares of the first `n` elements of `s`.
pub open spec fn energy_upto(s: Seq<i32>, n: int) -> int
    decreases n,
{
    if n <= 0 {
        0
    } else {
        energy_upto(s, n - 1) + s[n - 1] * s[n - 1]
    }
}

/// Sum of the squares of the elements of `s`.
pub open spec fn energy(s: Seq<i32>) -> int {
    energy_upto(s, s.len() as int)
}

/// The square of a sample is at most the square of the largest sample.
pub proof fn lemma_square_bounds(x: i32)
    ensures
        0 <= x * x <= 0x4000_0000_0000_0000,
{
    assert(0 <= x * x <= 0x4000_0000_0000_0000) by (nonlinear_arith)
        requires
            -0x8000_0000 <= x <= 0x7fff_ffff,
    ;
}

/// The energy of `n` samples is at most `n` times the square of the largest sample.
pub proof fn lemma_energy_bounds(s: Seq<i32>, n: int)
    requires
        0 <= n <= s.len(),
    ensures
        0 <= energy_upto(s, n) <= 0x4000_0000_0000_0000 * n,
    decreases n,
{
    if n > 0 {
        lemma_energy_bounds(s, n - 1);
        lemma_square_bounds(s[n - 1]);
    }
}

/// `r` is the square root of `n`, rounded down.
pub open spec fn is_floor_sqrt(n: int, r: int) -> bool {
    0 <= r && r * r <= n < (r + 1) * (r + 1)
}

/// A number has one rounded-down square root.
pub proof fn lemma_floor_sqrt_unique(n: int, r: int, s: int)
    requires
        is_floor_sqrt(n, r),
        is_floor_sqrt(n, s),
    ensures
        r == s,
{
    if r < s {
        assert((r + 1) * (r + 1) <= s * s) by (nonlinear_arith)
            requires
                0 <= r + 1 <= s,
        ;
    } else if s < r {
        assert((s + 1) * (s + 1) <= r * r) by (nonlinear_arith)
            requires
                0 <= s + 1 <= r,
        ;
    }
}

/// Square root of `n`, rounded down.
pub fn isqrt(n: u64) -> (r: u64)
    ensures
        is_floor_sqrt(n as int, r as int),
        r < 0x1_0000_0000,
{
    let mut lo: u64 = 0;
    let mut hi: u64 = 0x1_0000_0000;
    while hi - lo > 1
        invariant
            lo < hi <= 0x1_0000_0000,
            lo * lo <= n < hi * hi,
        decreases hi - lo,
    {
        let mid: u64 = lo + (hi - lo) / 2;
        assert(mid * mid <= 0xffff_ffff * 0xffff_ffff) by (nonlinear_arith)
            requires
                0 <= mid <= 0xffff_ffff,
        ;
        if mid * mid <= n {
            lo = mid;
        } else {
            hi = mid;
        }
    }
    lo
}

} // verus!
