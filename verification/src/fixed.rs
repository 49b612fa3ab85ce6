//! Fixed-point scalars.
//!
//! Every real quantity of the search (value estimates, prior probabilities,
//! variances, visit shares) is held as a [`Fixed`]: a signed integer that
//! counts units of 2^-32, from -2^31 to just below 2^31. Quotients round
//! toward zero, and the least number, which has no negative, is negated to
//! the greatest.

use vstd::prelude::*;

verus! {

/// A real number `x` held as the integer `x * 2^32`.
pub type Fixed = i64;

/// The number one.
pub const ONE: Fixed = 0x1_0000_0000;

/// The quotient of `a` by `b`, rounded toward zero.
pub open spec fn trunc_div(a: int, b: int) -> int
    recommends
        b > 0,
{
    if a >= 0 {
        a / b
    } else {
        -((-a) / b)
    }
}

/// The negative of `x` among the fixed-point numbers: `-x`, but for the
/// least of them, which has none and gives the greatest.
pub open spec fn negation(x: int) -> int {
    if x == i64::MIN {
        i64::MAX as int
    } else {
        -x
    }
}

/// The mean of `n` samples, given the mean of the first `n - 1` of them and
/// the last one: `(mean * (n - 1) + sample) / n`.
pub open spec fn running_mean(mean: int, n: int, sample: int) -> int
    recommends
        n >= 1,
{
    trunc_div(mean * (n - 1) + sample, n)
}

/// How far `a` and `b` lie apart.
pub open spec fn distance(a: int, b: int) -> int {
    if a >= b {
        a - b
    } else {
        b - a
    }
}

/// The mean after `more` further samples, all equal to `sample`, have been
/// folded one by one into `mean`, the mean of `n` samples.
pub open spec fn mean_after(mean: int, n: int, sample: int, more: nat) -> int
    decreases more,
{
    if more == 0 {
        mean
    } else {
        running_mean(mean_after(mean, n, sample, (more - 1) as nat), n + more, sample)
    }
}

/// The share `count / total` as a fixed-point number.
pub open spec fn share(count: int, total: int) -> int
    recommends
        0 <= count <= total,
        total > 0,
{
    (count * ONE) / total
}

/// How far a child lags behind its target share of the visits:
/// `target - visits / (parent_visits + 1)`, scaled by `parent_visits + 1`.
///
/// Among the children of one node the scale is common, so the child with the
/// largest lag is the one whose visit share falls short of its target the
/// most.
pub open spec fn lag(target: int, visits: int, parent_visits: int) -> int {
    target * (parent_visits + 1) - visits * ONE
}

/// The mixture `value * (1 - ratio) + noise * ratio`.
pub open spec fn mixed(value: int, noise: int, ratio: int) -> int {
    trunc_div(value * (ONE - ratio) + noise * ratio, ONE as int)
}

/// Rounding toward zero keeps a quotient between the bounds of what was
/// divided: if `lo * b <= a <= hi * b` then `lo <= a / b <= hi`.
pub proof fn lemma_trunc_div_bounds(a: int, b: int, lo: int, hi: int)
    requires
        b > 0,
        lo * b <= a <= hi * b,
    ensures
        lo <= trunc_div(a, b) <= hi,
{
    if a >= 0 {
        let q: int = a / b;
        vstd::arithmetic::div_mod::lemma_fundamental_div_mod(a, b);
        vstd::arithmetic::div_mod::lemma_mod_bound(a, b);
        assert(q <= hi) by (nonlinear_arith)
            requires
                b > 0,
                b * q <= a,
                a <= hi * b,
        ;
        assert(lo <= q) by (nonlinear_arith)
            requires
                b > 0,
                a < b * q + b,
                lo * b <= a,
        ;
    } else {
        let q: int = (-a) / b;
        vstd::arithmetic::div_mod::lemma_fundamental_div_mod(-a, b);
        vstd::arithmetic::div_mod::lemma_mod_bound(-a, b);
        assert(lo <= -q) by (nonlinear_arith)
            requires
                b > 0,
                b * q <= -a,
                lo * b <= a,
        ;
        assert(-q <= hi) by (nonlinear_arith)
            requires
                b > 0,
                -a < b * q + b,
                a <= hi * b,
        ;
    }
}

/// A running mean lies between the previous mean and the new sample: it
/// moves toward the sample and never past it, and a mean that has reached
/// the sample stays there.
pub proof fn lemma_running_mean_between(mean: int, n: int, sample: int)
    requires
        n >= 1,
    ensures
        mean <= sample ==> mean <= running_mean(mean, n, sample) <= sample,
        sample <= mean ==> sample <= running_mean(mean, n, sample) <= mean,
        mean == sample ==> running_mean(mean, n, sample) == sample,
{
    let total: int = mean * (n - 1) + sample;
    if mean <= sample {
        assert(mean * n <= total <= sample * n) by (nonlinear_arith)
            requires
                n >= 1,
                mean <= sample,
                total == mean * (n - 1) + sample,
        ;
        lemma_trunc_div_bounds(total, n, mean, sample);
    }
    if sample <= mean {
        assert(sample * n <= total <= mean * n) by (nonlinear_arith)
            requires
                n >= 1,
                sample <= mean,
                total == mean * (n - 1) + sample,
        ;
        lemma_trunc_div_bounds(total, n, sample, mean);
    }
}

/// Rounding toward zero changes a quotient by less than one: `b` times the
/// quotient lies less than `b` from what was divided, and not beyond it.
pub proof fn lemma_trunc_div_remainder(a: int, b: int)
    requires
        b > 0,
    ensures
        a >= 0 ==> a - b < b * trunc_div(a, b) <= a,
        a <= 0 ==> a <= b * trunc_div(a, b) < a + b,
{
    if a >= 0 {
        vstd::arithmetic::div_mod::lemma_fundamental_div_mod(a, b);
        vstd::arithmetic::div_mod::lemma_mod_bound(a, b);
    } else {
        vstd::arithmetic::div_mod::lemma_fundamental_div_mod(-a, b);
        vstd::arithmetic::div_mod::lemma_mod_bound(-a, b);
        let q: int = (-a) / b;
        assert(b * (-q) == -(b * q)) by (nonlinear_arith);
    }
}

/// One more sample brings the mean nearer to it, but for the rounding: with
/// `n` samples, `n` times the distance of the new mean from the sample is at
/// most `n - 1` times the distance of the old mean, and `n - 1` more. So a
/// mean that lies `n` units or more from the sample comes nearer, and one
/// that lies less than `n` units from it stays within `n` units.
pub proof fn lemma_running_mean_step(mean: int, n: int, sample: int)
    requires
        n >= 1,
    ensures
        n * distance(running_mean(mean, n, sample), sample) <= (n - 1) * distance(mean, sample) + (
        n - 1),
        distance(mean, sample) >= n ==> distance(running_mean(mean, n, sample), sample) < distance(
            mean,
            sample,
        ),
        distance(mean, sample) < n ==> distance(running_mean(mean, n, sample), sample) < n,
{
    let total: int = mean * (n - 1) + sample;
    let next: int = running_mean(mean, n, sample);
    lemma_trunc_div_remainder(total, n);
    lemma_running_mean_between(mean, n, sample);
    // n * next lies within n - 1 of total, and total - n * sample is
    // (n - 1) * (mean - sample).
    assert(total - n * sample == (n - 1) * (mean - sample)) by (nonlinear_arith)
        requires
            total == mean * (n - 1) + sample,
    ;
    assert(n * (next - sample) == n * next - n * sample) by (nonlinear_arith);
    assert(n * (sample - next) == n * sample - n * next) by (nonlinear_arith);
    assert((n - 1) * (sample - mean) == -((n - 1) * (mean - sample))) by (nonlinear_arith);
    if mean >= sample {
        assert((n - 1) * (mean - sample) >= 0) by (nonlinear_arith)
            requires
                n >= 1,
                mean >= sample,
        ;
    } else {
        assert((n - 1) * (mean - sample) <= 0) by (nonlinear_arith)
            requires
                n >= 1,
                mean < sample,
        ;
    }
    let before: int = distance(mean, sample);
    let after: int = distance(next, sample);
    assert(n * after <= (n - 1) * before + (n - 1));
    if before >= n {
        assert(after < before) by (nonlinear_arith)
            requires
                n >= 1,
                before >= n,
                n * after <= (n - 1) * before + (n - 1),
        ;
    } else {
        assert(after < n) by (nonlinear_arith)
            requires
                n >= 1,
                0 <= before < n,
                n * after <= (n - 1) * before + (n - 1),
        ;
    }
}

/// A mean converges to a sample that keeps coming, within the rounding of
/// one unit for each step: after `more` further samples, the distance of
/// the mean from the sample, times the number `n + more` of all samples, is
/// at most the distance of the mean of the first `n`, times `n`, and
/// `n + more` for each step. The distance never grows, and a mean that lies
/// less units from the sample than there are samples stays so.
pub proof fn lemma_mean_converges(mean: int, n: int, sample: int, more: nat)
    requires
        n >= 0,
    ensures
        (n + more) * distance(mean_after(mean, n, sample, more), sample) <= n * distance(
            mean,
            sample,
        ) + more * (n + more),
        distance(mean_after(mean, n, sample, more), sample) <= distance(mean, sample),
        distance(mean, sample) < n ==> distance(mean_after(mean, n, sample, more), sample) < n
            + more,
    decreases more,
{
    if more > 0 {
        let before: int = mean_after(mean, n, sample, (more - 1) as nat);
        let count: int = n + more;
        lemma_mean_converges(mean, n, sample, (more - 1) as nat);
        lemma_running_mean_step(before, count, sample);
        lemma_running_mean_between(before, count, sample);
        assert((more - 1) * (count - 1) + (count - 1) <= more * count) by (nonlinear_arith)
            requires
                more >= 1,
                count >= more,
        ;
    }
}

/// The negative of `x`; the greatest number for the least, which has none.
pub fn negative(x: Fixed) -> (r: Fixed)
    ensures
        r == negation(x as int),
{
    if x == i64::MIN {
        i64::MAX
    } else {
        -x
    }
}

/// Folds one more sample into a mean: `n` counts the samples, the new one
/// included.
pub fn update_mean(mean: Fixed, n: u32, sample: Fixed) -> (r: Fixed)
    requires
        n >= 1,
    ensures
        r == running_mean(mean as int, n as int, sample as int),
{
    let weight: i128 = (n - 1) as i128;
    proof {
        lemma_running_mean_between(mean as int, n as int, sample as int);
        assert(-0x8000_0000_0000_0000 * 0x1_0000_0000 <= (mean as int) * (weight as int)
            <= 0x8000_0000_0000_0000 * 0x1_0000_0000) by (nonlinear_arith)
            requires
                -0x8000_0000_0000_0000 <= mean as int <= 0x8000_0000_0000_0000,
                0 <= weight as int <= 0x1_0000_0000,
        ;
    }
    let total: i128 = (mean as i128) * weight + (sample as i128);
    let quotient: i128 = total / (n as i128);
    quotient as i64
}

/// The lag of a child with `visits` visits behind the share `target`, under a
/// parent with `parent_visits` visits.
pub fn lag_of(target: Fixed, visits: u32, parent_visits: u32) -> (r: i128)
    ensures
        r == lag(target as int, visits as int, parent_visits as int),
{
    let scale: i128 = (parent_visits as i128) + 1;
    proof {
        assert(-0x8000_0000_0000_0000 * 0x1_0000_0000 <= (target as int) * (scale as int)
            <= 0x8000_0000_0000_0000 * 0x1_0000_0000) by (nonlinear_arith)
            requires
                -0x8000_0000_0000_0000 <= target as int <= 0x8000_0000_0000_0000,
                0 <= scale as int <= 0x1_0000_0000,
        ;
        assert(0 <= (visits as int) * ONE <= 0x1_0000_0000 * 0x1_0000_0000) by (nonlinear_arith)
            requires
                0 <= visits as int <= 0x1_0000_0000,
                ONE == 0x1_0000_0000,
        ;
    }
    (target as i128) * scale - (visits as i128) * (ONE as i128)
}

/// A mixture lies between what is mixed.
pub proof fn lemma_mixed_between(value: int, noise: int, ratio: int)
    requires
        0 <= ratio <= ONE,
    ensures
        value <= noise ==> value <= mixed(value, noise, ratio) <= noise,
        noise <= value ==> noise <= mixed(value, noise, ratio) <= value,
{
    let total: int = value * (ONE - ratio) + noise * ratio;
    if value <= noise {
        assert(value * ONE <= total <= noise * ONE) by (nonlinear_arith)
            requires
                0 <= ratio <= ONE,
                value <= noise,
                total == value * (ONE - ratio) + noise * ratio,
        ;
        lemma_trunc_div_bounds(total, ONE as int, value, noise);
    }
    if noise <= value {
        assert(noise * ONE <= total <= value * ONE) by (nonlinear_arith)
            requires
                0 <= ratio <= ONE,
                noise <= value,
                total == value * (ONE - ratio) + noise * ratio,
        ;
        lemma_trunc_div_bounds(total, ONE as int, noise, value);
    }
}

/// Mixes `noise` into `value`: `value * (1 - ratio) + noise * ratio`.
pub fn mix(value: Fixed, noise: Fixed, ratio: Fixed) -> (r: Fixed)
    requires
        0 <= ratio <= ONE,
    ensures
        r == mixed(value as int, noise as int, ratio as int),
{
    let keep: i128 = (ONE - ratio) as i128;
    proof {
        lemma_mixed_between(value as int, noise as int, ratio as int);
        assert(-0x8000_0000_0000_0000 * 0x1_0000_0000 <= (value as int) * (keep as int)
            <= 0x8000_0000_0000_0000 * 0x1_0000_0000) by (nonlinear_arith)
            requires
                -0x8000_0000_0000_0000 <= value as int <= 0x8000_0000_0000_0000,
                0 <= keep as int <= 0x1_0000_0000,
        ;
        assert(-0x8000_0000_0000_0000 * 0x1_0000_0000 <= (noise as int) * (ratio as int)
            <= 0x8000_0000_0000_0000 * 0x1_0000_0000) by (nonlinear_arith)
            requires
                -0x8000_0000_0000_0000 <= noise as int <= 0x8000_0000_0000_0000,
                0 <= ratio as int <= 0x1_0000_0000,
        ;
    }
    let total: i128 = (value as i128) * keep + (noise as i128) * (ratio as i128);
    let quotient: i128 = total / (ONE as i128);
    quotient as i64
}

/// The share `count / total` of a whole, rounded down.
pub fn visit_share(count: u32, total: u32) -> (r: Fixed)
    requires
        total > 0,
        count <= total,
    ensures
        r == share(count as int, total as int),
        0 <= r <= ONE,
{
    proof {
        let numer: int = count as int * ONE;
        assert(0 <= numer <= 0xffff_ffff * 0x1_0000_0000 && numer <= ONE * total) by (nonlinear_arith)
            requires
                0 <= count as int <= total as int <= 0xffff_ffff,
                ONE == 0x1_0000_0000,
                numer == count as int * ONE,
        ;
        lemma_trunc_div_bounds(numer, total as int, 0, ONE as int);
    }
    let scaled: u64 = (count as u64) * (ONE as u64);
    let quotient: u64 = scaled / (total as u64);
    quotient as i64
}

} // verus!
