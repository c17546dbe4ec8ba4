//! Summaries of a window of duration samples: mean, standard deviation and
//! the error of the mean at 95% confidence, each exact in whole nanoseconds.
//!
//! Every summary is computed in integers. Sums of squared nanosecond counts
//! are held in 256 bits, so that no window of durations overflows.

use crate::fit::in_range;
use crate::fit::lemma_error_fits;
use crate::fit::lemma_root_bound;
use crate::fit::lemma_single_has_no_spread;
use crate::fit::lemma_total_bound;
use crate::fit::max_square;
use crate::span::from_nanos;
use crate::span::nanos;
use crate::span::nanos_seq;
use crate::span::to_nanos;
use crate::span::MAX_NANOS;
use crate::wide::Wide;
use std::time::Duration;
use vstd::arithmetic::div_mod::lemma_div_denominator;
use vstd::arithmetic::div_mod::lemma_div_is_ordered;
use vstd::arithmetic::div_mod::lemma_div_multiples_vanish;
use vstd::prelude::*;

verus! {

/// The sum of the samples.
pub open spec fn total(samples: Seq<nat>) -> nat
    decreases samples.len(),
{
    if samples.len() == 0 {
        0
    } else {
        total(samples.drop_last()) + samples.last()
    }
}

/// The arithmetic mean of the samples, rounded down to a whole number.
pub open spec fn mean_of(samples: Seq<nat>) -> nat
    recommends
        samples.len() > 0,
{
    total(samples) / samples.len()
}

/// The distance between a sample and a centre.
pub open spec fn gap(x: nat, center: nat) -> nat {
    if x >= center {
        (x - center) as nat
    } else {
        (center - x) as nat
    }
}

/// The sum of the squared distances of the samples from a centre.
pub open spec fn squared_deviations(samples: Seq<nat>, center: nat) -> nat
    decreases samples.len(),
{
    if samples.len() == 0 {
        0
    } else {
        squared_deviations(samples.drop_last(), center) + gap(samples.last(), center) * gap(
            samples.last(),
            center,
        )
    }
}

/// Whether `root` is the square root of `num / den`, rounded down.
pub open spec fn is_root_of_ratio(root: nat, num: nat, den: nat) -> bool {
    root * root * den <= num < (root + 1) * (root + 1) * den
}

/// The square root of `num / den`, rounded down to a whole number.
pub open spec fn root_of_ratio(num: nat, den: nat) -> nat
    recommends
        den > 0,
{
    choose|root: nat| is_root_of_ratio(root, num, den)
}

/// The population standard deviation of the samples around their mean,
/// rounded down to a whole number: the root of the mean squared deviation.
pub open spec fn std_dev_of(samples: Seq<nat>) -> nat
    recommends
        samples.len() > 0,
{
    root_of_ratio(squared_deviations(samples, mean_of(samples)), samples.len())
}

/// The numerator of the critical value 1.96 of a two-sided 95% confidence
/// interval, written as the fraction 49/25.
pub const Z_NUM: u128 = 49;

/// The square of the denominator of the critical value 49/25.
pub const Z_DEN_SQUARED: u64 = 625;

/// The half-width of the 95% confidence interval around the mean:
/// 1.96 times the standard deviation, divided by the square root of the
/// number of samples, rounded down to a whole number.
pub open spec fn error_of(samples: Seq<nat>) -> nat
    recommends
        samples.len() > 0,
{
    root_of_ratio(
        (Z_NUM as nat * std_dev_of(samples)) * (Z_NUM as nat * std_dev_of(samples)),
        Z_DEN_SQUARED as nat * samples.len(),
    )
}

/// At most one number is the rounded-down root of a ratio.
pub proof fn lemma_root_unique(a: nat, b: nat, num: nat, den: nat)
    requires
        den > 0,
        is_root_of_ratio(a, num, den),
        is_root_of_ratio(b, num, den),
    ensures
        a == b,
{
    if a < b {
        lemma_square_step(a, b, den);
    } else if b < a {
        lemma_square_step(b, a, den);
    }
}

/// Between two different numbers the square of the successor of the smaller
/// does not exceed the square of the larger.
proof fn lemma_square_step(a: nat, b: nat, den: nat)
    by (nonlinear_arith)
    requires
        a < b,
    ensures
        (a + 1) * (a + 1) * den <= b * b * den,
{
    assert((a + 1) * (a + 1) <= b * b);
}

/// A number that is the rounded-down root of a ratio is the value of
/// `root_of_ratio`.
pub proof fn lemma_root_is(root: nat, num: nat, den: nat)
    requires
        den > 0,
        is_root_of_ratio(root, num, den),
    ensures
        root_of_ratio(num, den) == root,
{
    lemma_root_unique(root_of_ratio(num, den), root, num, den);
}

/// A ratio has a rounded-down root at or above any number whose square it
/// reaches.
proof fn lemma_root_search(num: nat, den: nat, low: nat)
    requires
        den > 0,
        low * low * den <= num,
    ensures
        exists|root: nat| is_root_of_ratio(root, num, den),
    decreases num - low,
{
    if (low + 1) * (low + 1) * den <= num {
        assert(low + 1 <= (low + 1) * (low + 1) * den) by (nonlinear_arith)
            requires
                den > 0,
        ;
        lemma_root_search(num, den, low + 1);
    } else {
        assert(is_root_of_ratio(low, num, den));
    }
}

/// Every ratio with a positive denominator has a rounded-down root, and
/// `root_of_ratio` is that root.
pub proof fn lemma_root_exists(num: nat, den: nat)
    requires
        den > 0,
    ensures
        is_root_of_ratio(root_of_ratio(num, den), num, den),
{
    assert(0 * 0 * den <= num) by (nonlinear_arith);
    lemma_root_search(num, den, 0);
}

/// A window of one sample has its sample as mean, no deviation and no
/// error: both bounds are defined and zero.
pub proof fn lemma_single_sample(samples: Seq<nat>)
    requires
        samples.len() == 1,
    ensures
        mean_of(samples) == samples[0],
        std_dev_of(samples) == 0,
        error_of(samples) == 0,
{
    lemma_single_has_no_spread(samples);
    assert(is_root_of_ratio(0, 0, 1)) by (nonlinear_arith);
    lemma_root_is(0, 0, 1);
    assert((49 * 0nat) * (49 * 0nat) == 0) by (nonlinear_arith);
    assert(is_root_of_ratio(0, 0, 625)) by (nonlinear_arith);
    lemma_root_is(0, 0, 625);
}

/// The arithmetic mean of the samples: their sum divided by their count,
/// rounded down to a whole nanosecond. An empty window has no mean.
pub fn durations_mean(durations: &Vec<Duration>) -> (mean: Option<Duration>)
    ensures
        match mean {
            None => durations@.len() == 0,
            Some(m) => durations@.len() > 0 && nanos(m) == mean_of(nanos_seq(durations@)),
        },
{
    if durations.len() == 0 {
        None
    } else {
        Some(from_nanos(mean_nanos(durations)))
    }
}

/// The population standard deviation of the samples: the square root of the
/// mean squared distance from their mean, rounded down to a whole
/// nanosecond. An empty window has none; a single sample has zero.
pub fn durations_std_dev(durations: &Vec<Duration>) -> (dev: Option<Duration>)
    ensures
        match dev {
            None => durations@.len() == 0,
            Some(d) => durations@.len() > 0 && nanos(d) == std_dev_of(nanos_seq(durations@)),
        },
{
    if durations.len() == 0 {
        None
    } else {
        Some(from_nanos(std_dev_nanos(durations)))
    }
}

/// The error of the mean at 95% confidence: 1.96 times the standard
/// deviation, divided by the square root of the number of samples, rounded
/// down to a whole nanosecond. It is computed for every non-empty window,
/// however few samples it holds; an empty window has none.
pub fn durations_error_with_ci(durations: &Vec<Duration>) -> (err: Option<Duration>)
    ensures
        match err {
            None => durations@.len() == 0,
            Some(e) => durations@.len() > 0 && nanos(e) == error_of(nanos_seq(durations@)),
        },
{
    if durations.len() == 0 {
        None
    } else {
        Some(from_nanos(error_nanos(durations)))
    }
}

/// The sum of the samples as a 256-bit number.
fn sum_nanos(durations: &Vec<Duration>) -> (sum: Wide)
    ensures
        sum@ == total(nanos_seq(durations@)),
        in_range(nanos_seq(durations@)),
{
    let ghost samples = nanos_seq(durations@);
    let mut sum = Wide::from_u128(0);
    let mut i: usize = 0;
    while i < durations.len()
        invariant
            i <= durations.len(),
            samples == nanos_seq(durations@),
            sum@ == total(samples.take(i as int)),
            sum@ <= i * MAX_NANOS,
            in_range(samples.take(i as int)),
        decreases durations.len() - i,
    {
        let x: u128 = to_nanos(&durations[i]);
        proof {
            assert(samples.take(i + 1) =~= samples.take(i as int).push(x as nat));
            lemma_total_push(samples.take(i as int), x as nat);
        }
        sum = sum.plus(Wide::from_u128(x));
        i = i + 1;
    }
    proof {
        assert(samples.take(i as int) =~= samples);
    }
    sum
}

/// The mean of a non-empty window, in nanoseconds.
fn mean_nanos(durations: &Vec<Duration>) -> (mean: u128)
    requires
        durations@.len() > 0,
    ensures
        mean == mean_of(nanos_seq(durations@)),
        mean <= MAX_NANOS,
        in_range(nanos_seq(durations@)),
{
    let sum = sum_nanos(durations);
    let count: u64 = durations.len() as u64;
    let quotient = sum.divided_by(count);
    proof {
        let samples = nanos_seq(durations@);
        lemma_total_bound(samples);
        lemma_div_is_ordered(sum@ as int, count * MAX_NANOS, count as int);
        lemma_div_multiples_vanish(MAX_NANOS as int, count as int);
    }
    quotient.lo
}

/// The standard deviation of a non-empty window, in nanoseconds.
fn std_dev_nanos(durations: &Vec<Duration>) -> (dev: u128)
    requires
        durations@.len() > 0,
    ensures
        dev == std_dev_of(nanos_seq(durations@)),
        is_root_of_ratio(
            dev as nat,
            squared_deviations(nanos_seq(durations@), mean_of(nanos_seq(durations@))),
            durations@.len(),
        ),
        dev <= MAX_NANOS,
        in_range(nanos_seq(durations@)),
{
    let center: u128 = mean_nanos(durations);
    let ghost samples = nanos_seq(durations@);
    let mut sum = Wide::from_u128(0);
    let mut i: usize = 0;
    while i < durations.len()
        invariant
            i <= durations.len(),
            samples == nanos_seq(durations@),
            center <= MAX_NANOS,
            sum@ == squared_deviations(samples.take(i as int), center as nat),
            sum@ <= i * max_square(),
        decreases durations.len() - i,
    {
        let x: u128 = to_nanos(&durations[i]);
        let distance: u128 = if x >= center {
            x - center
        } else {
            center - x
        };
        let square = Wide::product(distance, distance);
        proof {
            assert(samples.take(i + 1) =~= samples.take(i as int).push(x as nat));
            lemma_squared_deviations_push(samples.take(i as int), x as nat, center as nat);
            assert(distance == gap(x as nat, center as nat));
            assert(distance * distance <= max_square()) by (nonlinear_arith)
                requires
                    distance <= 18_446_744_073_709_551_615_999_999_999u128,
                    max_square() == 18_446_744_073_709_551_615_999_999_999nat
                        * 18_446_744_073_709_551_615_999_999_999nat,
            ;
        }
        sum = sum.plus(square);
        i = i + 1;
    }
    let count: u64 = durations.len() as u64;
    let variance = sum.divided_by(count);
    let root: u128 = variance.floor_sqrt();
    proof {
        assert(samples.take(i as int) =~= samples);
        lemma_div_is_ordered(sum@ as int, count * max_square(), count as int);
        lemma_div_multiples_vanish(max_square() as int, count as int);
        assert(max_square() == MAX_NANOS as nat * MAX_NANOS as nat);
        lemma_root_bound(root as nat, MAX_NANOS as nat);
        lemma_root_of_quotient(root as nat, sum@, count as nat);
        lemma_root_is(root as nat, sum@, count as nat);
    }
    root
}

/// The error bound of the mean of a non-empty window, in nanoseconds.
fn error_nanos(durations: &Vec<Duration>) -> (err: u128)
    requires
        durations@.len() > 0,
    ensures
        err == error_of(nanos_seq(durations@)),
        err <= MAX_NANOS,
{
    let dev: u128 = std_dev_nanos(durations);
    let scaled: u128 = Z_NUM * dev;
    let square = Wide::product(scaled, scaled);
    let count: u64 = durations.len() as u64;
    let ratio = square.divided_by(Z_DEN_SQUARED).divided_by(count);
    let root: u128 = ratio.floor_sqrt();
    proof {
        let samples = nanos_seq(durations@);
        lemma_div_denominator(square@ as int, 625, count as int);
        lemma_root_of_quotient(root as nat, square@, 625 * samples.len());
        lemma_root_is(root as nat, square@, 625 * samples.len());
        lemma_error_fits(samples, dev as nat, root as nat);
    }
    root
}

/// The sum grows by the sample that is appended.
pub proof fn lemma_total_push(samples: Seq<nat>, x: nat)
    ensures
        total(samples.push(x)) == total(samples) + x,
{
    assert(samples.push(x).drop_last() =~= samples);
}

/// The sum of squared distances grows by the square of the distance of the
/// sample that is appended.
pub proof fn lemma_squared_deviations_push(samples: Seq<nat>, x: nat, center: nat)
    ensures
        squared_deviations(samples.push(x), center) == squared_deviations(samples, center) + gap(
            x,
            center,
        ) * gap(x, center),
{
    assert(samples.push(x).drop_last() =~= samples);
}

/// The rounded-down root of the rounded-down quotient is the rounded-down
/// root of the ratio.
proof fn lemma_root_of_quotient(root: nat, num: nat, den: nat)
    by (nonlinear_arith)
    requires
        den > 0,
        root * root <= num / den,
        num / den < (root + 1) * (root + 1),
    ensures
        is_root_of_ratio(root, num, den),
{
    let q = num / den;
    assert(num == den * q + num % den && 0 <= num % den < den);
    assert(root * root * den <= q * den);
    assert((q + 1) * den <= (root + 1) * (root + 1) * den);
}

} // verus!
