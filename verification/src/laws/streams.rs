//! Measures of streams, and predictions that die away.

use crate::arith::Arithmetic;
use crate::exact::Valued;
use crate::inference::adapters::rest::{RestMath, COLDEST_BITS, DECAY_BITS, HOTTEST_BITS};
use crate::number::{Single, MINUS_ZERO_BITS};
use vstd::prelude::*;

verus! {

proof fn minus_zero_is_zero()
    ensures
        (Single { bits: MINUS_ZERO_BITS }).value() == 0real,
{
    let plus = Single { bits: 0 };
    crate::exact::singles_stand_for_reals(plus, plus);
    assert(plus.negated() == (Single { bits: MINUS_ZERO_BITS }));
}

/// The sum of the squares of how far numbers are from one is the sum of their
/// squares, less twice their sum times it, and its square for each of them.
proof fn squares_of_gaps(s: Seq<Single>, gaps: Seq<Single>, m: real, n: int)
    requires
        0 <= n <= s.len(),
        n <= gaps.len(),
        forall|i: int| 0 <= i < n ==> (#[trigger] gaps[i]).value() == s[i].value() - m,
    ensures
        crate::exact::dot_of(gaps, gaps, n) == crate::exact::dot_of(s, s, n) - 2real * (m
            * crate::exact::sum_of(s, n)) + m * (m * (n as real)),
    decreases n,
{
    let k = n as real;
    if n > 0 {
        squares_of_gaps(s, gaps, m, n - 1);
        assert(gaps[n - 1].value() == s[n - 1].value() - m);
        let x = s[n - 1].value();
        crate::laws::algebra::spreads(x - m, x, m);
        crate::laws::algebra::commutes(x - m, x);
        crate::laws::algebra::commutes(x - m, m);
        crate::laws::algebra::spreads(x, x, m);
        crate::laws::algebra::spreads(m, x, m);
        crate::laws::algebra::commutes(x, m);
        crate::laws::algebra::spreads(m, crate::exact::sum_of(s, n - 1), x);
        let before = (n - 1) as real;
        assert(k == before + 1real);
        crate::laws::algebra::spreads(m, before, 1real);
        assert(m * 1real == m) by (nonlinear_arith);
        crate::laws::algebra::spreads(m, m * before, m);
    } else {
        crate::laws::algebra::signs(m, m);
    }
}

/// The variance, times one less than the number of samples, is the sum of the
/// squares less the mean times the sum; it is not negative.
pub proof fn variances_are_about_the_mean<M: Arithmetic<Single>>(
    math: &M,
    s: Seq<Single>,
    mean: real,
    r: Single,
)
    requires
        crate::exact::is_exact::<Single, M>(math),
        2 <= s.len() <= usize::MAX,
        mean * (s.len() as int as real) == crate::exact::sum_of(s, s.len() as int),
        crate::io::stream::is_variance_of(math, s, r),
    ensures
        r.value() * ((s.len() - 1) as real) == crate::exact::dot_of(s, s, s.len() as int) - mean
            * crate::exact::sum_of(s, s.len() as int),
        r.value() >= 0real,
{
    let n = s.len() as int;
    let zero = Single { bits: MINUS_ZERO_BITS };
    minus_zero_is_zero();
    let (m, gaps, sum) = choose|m: Single, gaps: Seq<Single>, sum: Single|
        {
            &&& crate::io::stream::is_mean_of(math, s, m)
            &&& #[trigger] crate::arith::are_shifted(math, s, m, gaps)
            &&& #[trigger] crate::arith::is_dot(math, zero, gaps, gaps, sum)
            &&& call_ensures(M::over, (math, sum, (s.len() - 1) as usize), r)
        };
    crate::exact::means_make_up_the_sum(math, zero, s, m);
    crate::laws::algebra::cancels(m.value(), mean, n as real);
    crate::exact::dots_are_sums_of_products(math, zero, gaps, gaps, sum);
    squares_of_gaps(s, gaps, mean, n);
    crate::exact::energies_are_not_negative(gaps, n);
    let (v, k) = (r.value(), (n - 1) as real);
    assert(v >= 0real) by (nonlinear_arith)
        requires
            v * k >= 0real,
            k > 0real,
    ;
}

/// The mean makes up the sum of a stream, and the square of the root of the mean
/// square makes up its energy.
pub proof fn levels_make_up_the_stream<M: Arithmetic<Single>>(
    math: &M,
    s: Seq<Single>,
    mean: Single,
    rms: Single,
)
    requires
        crate::exact::is_exact::<Single, M>(math),
        0 < s.len() <= usize::MAX,
        crate::io::stream::is_mean_of(math, s, mean),
        crate::io::stream::is_rms_of(math, s, rms),
    ensures
        mean.value() * (s.len() as int as real) == crate::exact::sum_of(s, s.len() as int),
        rms.value() >= 0real,
        rms.value() * rms.value() * (s.len() as int as real) == crate::exact::dot_of(
            s,
            s,
            s.len() as int,
        ),
{
    minus_zero_is_zero();
    let zero = Single { bits: MINUS_ZERO_BITS };
    crate::exact::means_make_up_the_sum(math, zero, s, mean);
    crate::exact::root_mean_squares_make_up_the_energy(math, zero, s, rms);
}

/// No two samples are farther apart than the swing of a stream, and two are as
/// far.
pub proof fn swings_span_the_stream<M: Arithmetic<Single>>(
    math: &M,
    s: Seq<Single>,
    r: Single,
    i: int,
    j: int,
)
    requires
        crate::exact::is_exact::<Single, M>(math),
        forall|k: int| 0 <= k < s.len() ==> (#[trigger] s[k]).sound(),
        crate::io::stream::is_swing_of(math, s, r),
        0 <= i < s.len(),
        0 <= j < s.len(),
    ensures
        s[i].value() - s[j].value() <= r.value(),
        exists|a: int, b: int|
            0 <= a < s.len() && 0 <= b < s.len() && r.value() == (#[trigger] s[a]).value() - (
            #[trigger] s[b]).value(),
{
    let (low, high) = choose|low: Single, high: Single| #[trigger]
        crate::io::stream::is_minimum(s, low) && #[trigger] crate::io::stream::is_maximum(s, high)
            && call_ensures(M::difference, (math, high, low), r);
    let a = choose|a: int| 0 <= a < s.len() && s[a] == high;
    let b = choose|b: int| 0 <= b < s.len() && s[b] == low;
    crate::exact::singles_stand_for_reals(high, s[i]);
    crate::exact::singles_stand_for_reals(s[j], low);
    crate::exact::singles_stand_for_reals(s[i], s[i]);
    crate::exact::singles_stand_for_reals(s[j], s[j]);
    assert(s[a].sound() && s[b].sound() && s[i].sound() && s[j].sound());
    assert(s[i].same_value(s[i]) && s[j].same_value(s[j]));
    assert(!s[i].nan() && !s[j].nan());
    assert(r.value() == s[a].value() - s[b].value());
}

/// A stream crosses zero between two samples where one is below it and the other
/// is not, in either direction alike.
pub proof fn crossings_are_changes_of_sign(a: Single, b: Single)
    requires
        a.sound(),
        b.sound(),
    ensures
        crate::io::stream::crosses_zero(a, b) <==> (a.value() < 0real) != (b.value() < 0real),
        crate::io::stream::crosses_zero(a, b) == crate::io::stream::crosses_zero(b, a),
{
    let zero = Single { bits: 0 };
    crate::exact::singles_stand_for_reals(zero, zero);
    crate::exact::singles_stand_for_reals(a, zero);
    crate::exact::singles_stand_for_reals(b, zero);
    crate::exact::singles_stand_for_reals(a, a);
    crate::exact::singles_stand_for_reals(b, b);
    assert(zero.same_value(zero));
    assert(a.same_value(a) && b.same_value(b));
}

/// A temperature as far as the HTTP interface takes it: from a tenth, to the
/// nearest number there is, up to ten.
pub open spec fn held_temperature(temperature: real) -> real {
    let coldest = 13421773real / 134217728real;
    if temperature < coldest {
        coldest
    } else if temperature > 10real {
        10real
    } else {
        temperature
    }
}

/// The gain times the temperature is nine tenths, to the nearest number there
/// is: the hotter, the smaller.
pub proof fn gains_go_against_the_temperature<R: RestMath>(
    math: R,
    temperature: Single,
    r: Single,
)
    requires
        crate::exact::is_exact::<Single, R>(&math),
        temperature.sound(),
        crate::inference::adapters::rest::is_gain(math, temperature, r),
    ensures
        (r.value() * held_temperature(temperature.value())) * 16777216real == 15099494real,
{
    let (low, high) = (Single { bits: COLDEST_BITS }, Single { bits: HOTTEST_BITS });
    let decay = Single { bits: DECAY_BITS };
    vstd::arithmetic::power2::lemma2_to64();
    crate::exact::single_of_parts(low, 27, 134217728);
    crate::exact::single_of_parts(high, 20, 1048576);
    crate::exact::single_of_parts(decay, 24, 16777216);
    assert(low.value() * 134217728real == 13421773real);
    assert(high.value() * 1048576real == 10485760real);
    assert(decay.value() * 16777216real == 15099494real);
    crate::exact::singles_stand_for_reals(temperature, low);
    crate::exact::singles_stand_for_reals(high, temperature);
    let held = temperature.clamped(low, high);
    assert(held.value() == held_temperature(temperature.value()));
    assert(held.value() != 0real);
}

/// A number times itself so many times.
pub open spec fn power(x: real, n: nat) -> real
    decreases n,
{
    if n == 0 {
        1real
    } else {
        power(x, (n - 1) as nat) * x
    }
}

/// A prediction is the signal times the gain, once for each step.
pub proof fn predictions_die_away<R: RestMath>(
    math: R,
    s: Seq<Single>,
    gain: Single,
    steps: nat,
    out: Seq<Single>,
    i: int,
)
    requires
        crate::exact::is_exact::<Single, R>(&math),
        crate::inference::adapters::rest::is_decayed(math, s, gain, steps, out),
        0 <= i < s.len(),
    ensures
        out.len() == s.len(),
        out[i].value() == s[i].value() * power(gain.value(), steps),
{
    let trace = choose|trace: Seq<Seq<Single>>|
        {
            &&& #[trigger] crate::inference::adapters::rest::decays(math, gain, trace)
            &&& trace.len() == steps + 1
            &&& trace[0] == s
            &&& trace.last() == out
        };
    traces_die_away(math, s, gain, trace, i, steps);
}

proof fn traces_die_away<R: RestMath>(
    math: R,
    s: Seq<Single>,
    gain: Single,
    trace: Seq<Seq<Single>>,
    i: int,
    k: nat,
)
    requires
        crate::exact::is_exact::<Single, R>(&math),
        crate::inference::adapters::rest::decays(math, gain, trace),
        k < trace.len(),
        trace[0] == s,
        0 <= i < s.len(),
    ensures
        trace[k as int].len() == s.len(),
        trace[k as int][i].value() == s[i].value() * power(gain.value(), k),
    decreases k,
{
    let x = s[i].value();
    if k > 0 {
        let j = (k - 1) as nat;
        traces_die_away(math, s, gain, trace, i, j);
        assert(crate::inference::adapters::rest::is_scaled(
            math,
            trace[k as int - 1],
            gain,
            trace[k as int],
        ));
        assert(trace[k as int][i] == trace[k as int][i]);
        crate::laws::algebra::regroups(x, power(gain.value(), j), gain.value());
    } else {
        assert(x * 1real == x) by (nonlinear_arith);
    }
}

} // verus!
