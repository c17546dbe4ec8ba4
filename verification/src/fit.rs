//! Why the summaries of a window fit in a `Duration`: bounds on sums, on
//! sums of squared distances and on the roots taken of them.

use crate::reduce::error_of;
use crate::reduce::gap;
use crate::reduce::is_root_of_ratio;
use crate::reduce::lemma_root_exists;
use crate::reduce::mean_of;
use crate::reduce::squared_deviations;
use crate::reduce::std_dev_of;
use crate::reduce::total;
use crate::span::MAX_NANOS;
use vstd::arithmetic::div_mod::lemma_div_is_ordered;
use vstd::arithmetic::div_mod::lemma_div_multiples_vanish;
use vstd::prelude::*;

verus! {

/// Whether every sample is a nanosecond count that a `Duration` can hold.
pub open spec fn in_range(samples: Seq<nat>) -> bool {
    forall|i: int| 0 <= i < samples.len() ==> samples[i] <= MAX_NANOS
}

/// The square of the largest nanosecond count of a `Duration`.
pub open spec fn max_square() -> nat {
    340_282_366_920_938_463_463_374_607_394_874_723_308_580_896_768_000_000_001nat
}

/// The sum of the squares of the samples.
pub open spec fn sum_of_squares(samples: Seq<nat>) -> nat
    decreases samples.len(),
{
    if samples.len() == 0 {
        0
    } else {
        sum_of_squares(samples.drop_last()) + samples.last() * samples.last()
    }
}

/// No sum exceeds the count times the largest possible sample.
pub proof fn lemma_total_bound(samples: Seq<nat>)
    requires
        in_range(samples),
    ensures
        total(samples) <= samples.len() * MAX_NANOS,
    decreases samples.len(),
{
    if samples.len() > 0 {
        lemma_total_bound(samples.drop_last());
    }
}

/// A window of one sample lies wholly on its mean.
pub proof fn lemma_single_has_no_spread(samples: Seq<nat>)
    requires
        samples.len() == 1,
    ensures
        mean_of(samples) == samples[0],
        squared_deviations(samples, mean_of(samples)) == 0,
{
    assert(samples.drop_last().len() == 0);
    assert(total(samples.drop_last()) == 0);
    assert(total(samples) == samples[0]);
    assert(squared_deviations(samples.drop_last(), samples[0]) == 0);
    assert(gap(samples[0], samples[0]) == 0);
}

/// A root whose square does not exceed the square of a bound does not exceed
/// the bound.
pub(crate) proof fn lemma_root_bound(root: nat, bound: nat)
    by (nonlinear_arith)
    requires
        root * root <= bound * bound,
    ensures
        root <= bound,
{
}

/// The squared distances from a centre, written out: the sum of
/// `(x - c)^2` is the sum of `x^2`, less `2c` times the sum of `x`, plus
/// `c^2` for every sample.
pub proof fn lemma_deviations_expand(samples: Seq<nat>, center: nat)
    ensures
        squared_deviations(samples, center) + 2 * (center * total(samples)) == sum_of_squares(
            samples,
        ) + samples.len() * (center * center),
    decreases samples.len(),
{
    if samples.len() > 0 {
        let rest = samples.drop_last();
        let x = samples.last();
        let g = gap(x, center);
        lemma_deviations_expand(rest, center);
        assert(g * g + 2 * (center * x) == x * x + center * center) by (nonlinear_arith)
            requires
                g == x - center || g == center - x,
        ;
        assert(center * total(samples) == center * total(rest) + center * x)
            by (nonlinear_arith)
            requires
                total(samples) == total(rest) + x,
        ;
        assert(samples.len() * (center * center) == rest.len() * (center * center) + center
            * center) by (nonlinear_arith)
            requires
                samples.len() == rest.len() + 1,
        ;
    } else {
        assert(center * total(samples) == 0) by (nonlinear_arith)
            requires
                total(samples) == 0,
        ;
        assert(samples.len() * (center * center) == 0) by (nonlinear_arith)
            requires
                samples.len() == 0,
        ;
    }
}

/// The sum of the squares is at most the largest possible sample times the
/// sum of the samples.
proof fn lemma_sum_of_squares_bound(samples: Seq<nat>)
    requires
        in_range(samples),
    ensures
        sum_of_squares(samples) <= MAX_NANOS * total(samples),
    decreases samples.len(),
{
    if samples.len() > 0 {
        let x = samples.last();
        lemma_sum_of_squares_bound(samples.drop_last());
        assert(x * x <= MAX_NANOS * x) by (nonlinear_arith)
            requires
                x <= MAX_NANOS,
        ;
    }
}

/// Four times the sum of squared distances from the mean is at most the
/// count times `M^2 + 4M`, where `M` is the largest possible sample.
proof fn lemma_deviations_bound(samples: Seq<nat>)
    requires
        samples.len() > 0,
        in_range(samples),
    ensures
        4 * squared_deviations(samples, mean_of(samples)) <= samples.len() * (max_square() + 4
            * MAX_NANOS),
{
    let n = samples.len() as int;
    let t = total(samples) as int;
    let m = mean_of(samples) as int;
    let rem = t % n;
    let big = MAX_NANOS as int;
    let d = squared_deviations(samples, mean_of(samples)) as int;
    let q = sum_of_squares(samples) as int;
    lemma_deviations_expand(samples, mean_of(samples));
    lemma_sum_of_squares_bound(samples);
    lemma_total_bound(samples);
    assert(t == n * m + rem && 0 <= rem < n) by (nonlinear_arith)
        requires
            n > 0,
            m == t / n,
            rem == t % n,
    ;
    let nm = n * m;
    let nmm = n * (m * m);
    let mr = m * rem;
    assert(m * t == nmm + mr) by (nonlinear_arith)
        requires
            t == n * m + rem,
            nmm == n * (m * m),
            mr == m * rem,
    ;
    assert(mr >= 0) by (nonlinear_arith)
        requires
            mr == m * rem,
            m >= 0,
            rem >= 0,
    ;
    // d <= big * t - 2 * (m * t) + n * (m * m)
    assert(d <= big * nm - nmm + big * rem - 2 * mr);
    let slack = big - 2 * m;
    assert(n * (slack * slack) == n * (big * big) - 4 * (big * nm) + 4 * nmm)
        by (nonlinear_arith)
        requires
            slack == big - 2 * m,
            nm == n * m,
            nmm == n * (m * m),
    ;
    assert(n * (slack * slack) >= 0) by (nonlinear_arith)
        requires
            n > 0,
    ;
    assert(big * big == max_square());
    assert(4 * d <= n * (big * big) + 4 * (big * n));
    assert(n * (max_square() + 4 * MAX_NANOS) == n * (big * big) + 4 * (big * n))
        by (nonlinear_arith)
        requires
            big == MAX_NANOS,
            big * big == max_square(),
    ;
}

/// Dividing both sides of an inequality by a positive factor.
proof fn lemma_cancel_factor(a: int, b: int, n: int)
    by (nonlinear_arith)
    requires
        n > 0,
        a * n <= n * b,
    ensures
        a <= b,
{
}

/// The error bound of a window of samples that fit in a `Duration` fits in
/// a `Duration` too.
pub(crate) proof fn lemma_error_fits(samples: Seq<nat>, dev: nat, err: nat)
    requires
        samples.len() > 0,
        in_range(samples),
        is_root_of_ratio(dev, squared_deviations(samples, mean_of(samples)), samples.len()),
        is_root_of_ratio(err, (49 * dev) * (49 * dev), 625 * samples.len()),
    ensures
        err <= MAX_NANOS,
{
    let n = samples.len() as int;
    let d = squared_deviations(samples, mean_of(samples)) as int;
    let s = dev as int;
    let e = err as int;
    let ceiling = (max_square() + 4 * MAX_NANOS) as int;
    lemma_deviations_bound(samples);
    let ss = s * s;
    let ee = e * e;
    assert(ss * n <= d);
    assert((4 * ss) * n <= n * ceiling) by (nonlinear_arith)
        requires
            ss * n <= d,
            4 * d <= n * ceiling,
    ;
    lemma_cancel_factor(4 * ss, ceiling, n);
    assert((49 * s) * (49 * s) == 2401 * ss) by (nonlinear_arith)
        requires
            ss == s * s,
    ;
    assert(ee * (625 * n) <= 2401 * ss);
    if n == 1 {
        lemma_single_has_no_spread(samples);
        assert(ss * 1 <= 0);
        assert(ee * 625 <= 0);
        assert(e == 0) by (nonlinear_arith)
            requires
                ee == e * e,
                ee * 625 <= 0,
                e >= 0,
        ;
    } else {
        assert(ee * 1250 <= ee * (625 * n)) by (nonlinear_arith)
            requires
                n >= 2,
                ee >= 0,
        ;
        assert(5000 * ee <= 2401 * ceiling);
        assert(e <= MAX_NANOS) by (nonlinear_arith)
            requires
                ee == e * e,
                e >= 0,
                5000 * ee
                    <= 817_017_962_977_173_250_775_562_432_532_256_740_747_809_266_860_031_999_992_797int,
        ;
    }
}

/// The summaries of a window of durations are durations themselves: the
/// mean, the standard deviation and the error of samples that a `Duration`
/// can hold are nanosecond counts that a `Duration` can hold.
pub proof fn lemma_summaries_fit(samples: Seq<nat>)
    requires
        samples.len() > 0,
        in_range(samples),
    ensures
        mean_of(samples) <= MAX_NANOS,
        std_dev_of(samples) <= MAX_NANOS,
        error_of(samples) <= MAX_NANOS,
{
    let n = samples.len();
    let d = squared_deviations(samples, mean_of(samples));
    let dev = std_dev_of(samples);
    lemma_total_bound(samples);
    lemma_div_is_ordered(total(samples) as int, n * MAX_NANOS, n as int);
    lemma_div_multiples_vanish(MAX_NANOS as int, n as int);
    lemma_root_exists(d, n);
    lemma_deviations_bound(samples);
    let square = (dev * dev) as int;
    let ceiling = (max_square() + 4 * MAX_NANOS) as int;
    assert(square * n <= d);
    assert((4 * square) * n <= n * ceiling) by (nonlinear_arith)
        requires
            square * n <= d,
            4 * d <= n * ceiling,
    ;
    lemma_cancel_factor(4 * square, ceiling, n as int);
    assert(dev <= MAX_NANOS) by (nonlinear_arith)
        requires
            square == dev * dev,
            4 * square
                <= 340_282_366_920_938_463_463_374_607_468_661_699_603_419_103_231_999_999_997int,
    ;
    lemma_root_exists((49 * dev) * (49 * dev), 625 * n);
    lemma_error_fits(samples, dev, error_of(samples));
}

} // verus!
