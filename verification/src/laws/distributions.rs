//! Distributions over time and frequency: products around a time, weights
//! around a frequency, and smoothing.

use crate::exact::Valued;
use crate::io::signal::timefreq::{TimeFreqMath, WignerVilleResult, TINY_BITS};
use crate::io::signal::Bin;
use crate::number::Single;
use vstd::prelude::*;

verus! {

/// Around a time stand the products of the samples as far before it as behind
/// it: without a distance that is the square of the sample, and it is the same
/// for a distance and the one the other way.
pub proof fn lags_are_products_around_a_time<M: TimeFreqMath>(
    math: &M,
    signal: Seq<Single>,
    t: int,
    lags: Seq<Bin>,
    tau: int,
)
    requires
        crate::exact::is_exact::<Single, M>(math),
        crate::io::signal::timefreq::are_lags(math, signal, t, lags),
        0 <= t < signal.len(),
        0 <= tau,
        2 * tau < signal.len(),
    ensures
        lags.len() == signal.len(),
        lags[0].re.value() == signal[t].value() * signal[t].value(),
        lags[tau].re.value() == crate::laws::spectra::sample(signal, t + tau)
            * crate::laws::spectra::sample(signal, t - tau),
        tau > 0 ==> lags[signal.len() - tau].re.value() == lags[tau].re.value(),
        lags[tau].im.value() == 0real,
{
    let n = signal.len() as int;
    let zero = Single { bits: 0 };
    crate::exact::singles_stand_for_reals(zero, zero);
    crate::exact::singles_stand_for_reals(lags[tau].im, zero);
    assert(crate::io::signal::timefreq::is_lag(math, signal, t, 0, lags[0]));
    assert(crate::io::signal::timefreq::is_lag(math, signal, t, tau, lags[tau]));
    let (a, b) = (
        crate::laws::spectra::sample(signal, t + tau),
        crate::laws::spectra::sample(signal, t - tau),
    );
    crate::laws::algebra::commutes(a, b);
    crate::laws::algebra::signs(a, b);
    crate::laws::algebra::signs(b, a);
    if tau > 0 {
        assert(crate::io::signal::timefreq::signed_bin(n - tau, n) == -tau);
        assert(crate::io::signal::timefreq::is_lag(math, signal, t, -tau, lags[n - tau]));
    }
}

/// A bell curve around a frequency weighs both parts of a bin alike, so that its
/// phase is kept.
pub proof fn phases_are_kept<M: TimeFreqMath>(
    math: &M,
    x: Bin,
    shift: i64,
    frequency: usize,
    factor: Single,
    r: Bin,
)
    requires
        crate::exact::is_exact::<Single, M>(math),
        crate::io::signal::timefreq::is_local(math, x, shift, frequency, factor, r),
    ensures
        r.re.value() * x.im.value() == r.im.value() * x.re.value(),
        exists|weight: Single| #[trigger]
            call_ensures(M::locality, (math, shift, frequency, factor), weight) && r.re.value()
                == x.re.value() * weight.value() && r.im.value() == x.im.value() * weight.value(),
{
    let weight = choose|weight: Single|
        {
            &&& #[trigger] call_ensures(M::locality, (math, shift, frequency, factor), weight)
            &&& call_ensures(M::product, (math, x.re, weight), r.re)
            &&& call_ensures(M::product, (math, x.im, weight), r.im)
        };
    let (a, b, w) = (x.re.value(), x.im.value(), weight.value());
    crate::laws::algebra::regroups(a, w, b);
    crate::laws::algebra::regroups(b, w, a);
    crate::laws::algebra::commutes(w, b);
    crate::laws::algebra::commutes(w, a);
    crate::laws::algebra::regroups(a, b, w);
    crate::laws::algebra::regroups(b, a, w);
    crate::laws::algebra::commutes(a, b);
}

/// Without a frequency the mean of the spectrum stands at every time: as often
/// as there are bins it makes up their sum.
pub proof fn means_stand_at_frequency_zero<M: TimeFreqMath>(
    math: &M,
    bins: Seq<Bin>,
    n: usize,
    r: Bin,
)
    requires
        crate::exact::is_exact::<Single, M>(math),
        n > 0,
        crate::io::signal::timefreq::is_bin_mean(math, bins, n, r),
    ensures
        r.re.value() * (n as int as real) == crate::exact::sum_of(
            crate::io::signal::timefreq::real_parts(bins),
            bins.len() as int,
        ),
        r.im.value() * (n as int as real) == crate::exact::sum_of(
            crate::io::signal::timefreq::imaginary_parts(bins),
            bins.len() as int,
        ),
{
    let zero = Single { bits: 0 };
    crate::exact::singles_stand_for_reals(zero, zero);
    let across = crate::io::signal::timefreq::real_parts(bins);
    let upward = crate::io::signal::timefreq::imaginary_parts(bins);
    let (a, u) = choose|a: Single, u: Single|
        {
            &&& #[trigger] crate::arith::is_total(math, zero, across, a)
            &&& #[trigger] crate::arith::is_total(math, zero, upward, u)
            &&& call_ensures(M::over, (math, a, n), r.re)
            &&& call_ensures(M::over, (math, u, n), r.im)
        };
    crate::exact::totals_are_sums(math, zero, across, a);
    crate::exact::totals_are_sums(math, zero, upward, u);
}

/// Where all values are alike, their products with weights add up to that value
/// times the sum of the weights.
pub proof fn equal_values_come_out(values: Seq<Single>, weights: Seq<Single>, c: real, n: int)
    requires
        0 <= n <= values.len(),
        forall|i: int| 0 <= i < values.len() ==> (#[trigger] values[i]).value() == c,
    ensures
        crate::exact::dot_of(values, weights, n) == c * crate::exact::sum_of(weights, n),
    decreases n,
{
    if n > 0 {
        equal_values_come_out(values, weights, c, n - 1);
        assert(values[n - 1].value() == c);
        crate::laws::algebra::spreads(
            c,
            crate::exact::sum_of(weights, n - 1),
            weights[n - 1].value(),
        );
    } else {
        crate::laws::algebra::signs(c, c);
    }
}

/// Smoothing leaves a value as it is where all around are like it.
pub proof fn smoothing_keeps_what_is_even<M: TimeFreqMath>(
    math: &M,
    near: Seq<(Single, u32)>,
    sigma: Single,
    before: Single,
    r: Single,
    c: real,
)
    requires
        crate::exact::is_exact::<Single, M>(math),
        before.value() == c,
        forall|i: int| 0 <= i < near.len() ==> (#[trigger] near[i]).0.value() == c,
        crate::io::signal::timefreq::is_smoothed(math, near, sigma, before, r),
    ensures
        r.value() == c,
{
    let zero = Single { bits: 0 };
    let tiny = Single { bits: TINY_BITS };
    crate::exact::singles_stand_for_reals(zero, tiny);
    let values = crate::io::signal::timefreq::values_of(near);
    let (weights, sum, whole) = choose|weights: Seq<Single>, sum: Single, whole: Single|
        {
            &&& #[trigger] crate::io::signal::timefreq::are_near(math, near, sigma, weights)
            &&& crate::arith::is_dot(math, zero, values, weights, sum)
            &&& crate::arith::is_total(math, zero, weights, whole)
            &&& #[trigger] crate::io::signal::timefreq::is_kept_or_levelled(
                math,
                before,
                sum,
                whole,
                r,
            )
        };
    crate::exact::dots_are_sums_of_products(math, zero, values, weights, sum);
    crate::exact::totals_are_sums(math, zero, weights, whole);
    assert forall|i: int| 0 <= i < values.len() implies (#[trigger] values[i]).value() == c by {
        assert(near[i].0.value() == c);
    }
    equal_values_come_out(values, weights, c, weights.len() as int);
    if tiny.below(whole) {
        crate::exact::singles_stand_for_reals(tiny, whole);
        assert(zero.below(tiny));
        crate::laws::algebra::cancels(r.value(), c, whole.value());
    }
}

proof fn neighbours_in_order(values: Seq<Single>, times: int, freqs: int, t: int, f: int, k: int, i: int)
    requires
        2 <= t < times - 2,
        2 <= f < freqs - 2,
        0 <= i < k <= 25,
    ensures
        crate::io::signal::timefreq::neighbours(values, times, freqs, t, f, k).len() == k,
        crate::io::signal::timefreq::neighbours(values, times, freqs, t, f, k)[i].0 == values[(t
            + i / 5 - 2) * freqs + f + (i % 5 - 2)],
        crate::io::signal::timefreq::neighbours(values, times, freqs, t, f, k)[i].1 == (i / 5 - 2)
            * (i / 5 - 2) + (i % 5 - 2) * (i % 5 - 2),
    decreases k,
{
    if k > 1 {
        neighbours_in_order(
            values,
            times,
            freqs,
            t,
            f,
            k - 1,
            if i < k - 1 {
                i
            } else {
                0
            },
        );
    } else {
        assert(crate::io::signal::timefreq::neighbours(values, times, freqs, t, f, 0)
            =~= Seq::empty());
    }
    let (a, b) = ((k - 1) / 5 - 2, (k - 1) % 5 - 2);
    assert(0 <= a * a <= 4 && 0 <= b * b <= 4) by (nonlinear_arith)
        requires
            -2 <= a <= 2,
            -2 <= b <= 2,
    ;
}

/// Away from the rim a value is smoothed over the five times five values around
/// it: those at a distance of `dt` times and `df` frequencies stand there with
/// the square of that distance, and the value itself stands with none.
pub proof fn values_are_smoothed_over_their_surroundings(
    before: WignerVilleResult,
    t: int,
    f: int,
    dt: int,
    df: int,
)
    requires
        2 <= t < before.n_time - 2,
        2 <= f < before.n_freq - 2,
        -2 <= dt <= 2,
        -2 <= df <= 2,
    ensures
        ({
            let near = crate::io::signal::timefreq::neighbours(
                before.values@,
                before.n_time as int,
                before.n_freq as int,
                t,
                f,
                25,
            );
            let i = (dt + 2) * 5 + df + 2;
            &&& near.len() == 25
            &&& near[i].0 == before.values@[(t + dt) * before.n_freq + f + df]
            &&& near[i].1 == dt * dt + df * df
        }),
{
    neighbours_in_order(
        before.values@,
        before.n_time as int,
        before.n_freq as int,
        t,
        f,
        25,
        (dt + 2) * 5 + df + 2,
    );
}

} // verus!
