//! Filters and measures of signals.

use crate::exact::Valued;
use crate::io::signal::filters::{
    FlatParts, NotchParts, TapMath, MINUS_TWO_BITS, ONE_BITS, TWO_BITS,
};
use crate::io::signal::processor::SignalMath;
use crate::number::{Single, MINUS_ZERO_BITS};
use vstd::prelude::*;

verus! {

/// The sum of coefficients times the samples of a signal, each coefficient times
/// the sample as many places before `i`, as far as the signal goes back.
pub open spec fn convolved(taps: Seq<Single>, signal: Seq<Single>, i: int, n: int) -> real
    decreases n,
{
    if n <= 0 {
        0real
    } else {
        convolved(taps, signal, i, n - 1) + taps[n - 1].value() * (if n - 1 <= i {
            signal[i - (n - 1)].value()
        } else {
            0real
        })
    }
}

proof fn weighted_sums<M: TapMath>(
    math: &M,
    taps: Seq<Single>,
    recent: Seq<Single>,
    sums: Seq<Single>,
    r: Single,
    n: int,
)
    requires
        crate::exact::is_exact::<Single, M>(math),
        crate::io::signal::filters::is_weighted_sum(math, taps, recent, sums, r),
        0 <= n <= taps.len(),
    ensures
        sums[n].value() == crate::exact::dot_of(taps, recent, n),
    decreases n,
{
    if n > 0 {
        weighted_sums(math, taps, recent, sums, r, n - 1);
        assert(sums[(n - 1) + 1] == sums[n]);
        assert(crate::arith::is_added_product(
            math,
            sums[n - 1],
            taps[n - 1],
            recent[n - 1],
            sums[(n - 1) + 1],
        ));
    } else {
        crate::exact::singles_stand_for_reals(sums[0], sums[0]);
    }
}

proof fn recent_convolves(
    taps: Seq<Single>,
    recent: Seq<Single>,
    signal: Seq<Single>,
    i: int,
    n: int,
)
    requires
        n <= recent.len(),
        forall|k: int| 0 <= k < recent.len() && k <= i ==> #[trigger] recent[k] == signal[i - k],
        forall|k: int| i < k < recent.len() ==> (#[trigger] recent[k]).bits == 0,
    ensures
        crate::exact::dot_of(taps, recent, n) == convolved(taps, signal, i, n),
    decreases n,
{
    if n > 0 {
        recent_convolves(taps, recent, signal, i, n - 1);
        crate::exact::singles_stand_for_reals(recent[n - 1], recent[n - 1]);
        assert(recent[n - 1] == recent[n - 1]);
    }
}

/// What a filter gives for a sample is the sum of its coefficients times that
/// sample and those before it.
pub proof fn filters_convolve<M: TapMath>(
    math: &M,
    taps: Seq<Single>,
    signal: Seq<Single>,
    i: int,
    r: Single,
)
    requires
        crate::exact::is_exact::<Single, M>(math),
        taps.len() > 0,
        0 <= i < signal.len(),
        crate::io::signal::filters::is_filtered(
            math,
            taps,
            crate::io::signal::filters::after_all(
                crate::io::signal::filters::at_rest(taps.len()),
                signal,
                i + 1,
            ),
            r,
        ),
    ensures
        r.value() == convolved(taps, signal, i, taps.len() as int),
{
    let rest = crate::io::signal::filters::at_rest(taps.len());
    let recent = crate::io::signal::filters::after_all(rest, signal, i + 1);
    crate::io::signal::filters::latest_come_first(rest, signal, i + 1);
    let sums = choose|sums: Seq<Single>|
        #[trigger] crate::io::signal::filters::is_weighted_sum(math, taps, recent, sums, r);
    weighted_sums(math, taps, recent, sums, r, taps.len() as int);
    assert forall|k: int| i < k < recent.len() implies (#[trigger] recent[k]).bits == 0 by {
        assert(recent[k] == rest[k - (i + 1)]);
    }
    recent_convolves(taps, recent, signal, i, taps.len() as int);
}

proof fn divided_sum(a: Seq<Single>, b: Seq<Single>, s: real, n: int)
    requires
        0 <= n,
        forall|i: int| 0 <= i < n ==> (#[trigger] b[i]).value() * s == a[i].value(),
    ensures
        crate::exact::sum_of(b, n) * s == crate::exact::sum_of(a, n),
    decreases n,
{
    if n > 0 {
        divided_sum(a, b, s, n - 1);
        let (x, y) = (crate::exact::sum_of(b, n - 1), b[n - 1].value());
        assert(y * s == a[n - 1].value());
        crate::laws::algebra::commutes(x + y, s);
        crate::laws::algebra::spreads(s, x, y);
        crate::laws::algebra::commutes(s, x);
        crate::laws::algebra::commutes(s, y);
    } else {
        crate::laws::algebra::signs(s, s);
    }
}

proof fn zeros()
    ensures
        (Single { bits: MINUS_ZERO_BITS }).value() == 0real,
        (Single { bits: 0 }).value() == 0real,
        crate::io::signal::filters::number(ONE_BITS).value() == 1real,
        crate::io::signal::filters::number(TWO_BITS).value() == 2real,
        crate::io::signal::filters::number(MINUS_TWO_BITS).value() == -2real,
{
    let (plus, two) = (Single { bits: 0 }, crate::io::signal::filters::number(TWO_BITS));
    crate::exact::singles_stand_for_reals(plus, plus);
    assert(plus.negated() == (Single { bits: MINUS_ZERO_BITS }));
    vstd::arithmetic::power2::lemma2_to64();
    crate::exact::single_of_parts(crate::io::signal::filters::number(ONE_BITS), 23, 8388608);
    crate::exact::single_of_parts(two, 22, 4194304);
    crate::exact::singles_stand_for_reals(two, two);
    assert(two.negated() == crate::io::signal::filters::number(MINUS_TWO_BITS));
}

/// A filter that passes what is below a cutoff lets a constant signal through as
/// it is: its coefficients add up to one.
pub proof fn low_filters_keep_a_constant<M: TapMath>(
    math: &M,
    cutoff: Single,
    num_taps: usize,
    raw: Seq<Single>,
    sum: Single,
    taps: Seq<Single>,
)
    requires
        crate::exact::is_exact::<Single, M>(math),
        crate::io::signal::filters::are_lowpass_taps(math, cutoff, num_taps, raw, sum, taps),
        sum.value() != 0real,
    ensures
        taps.len() == num_taps,
        crate::exact::sum_of(taps, taps.len() as int) == 1real,
{
    zeros();
    let n = raw.len() as int;
    crate::exact::totals_are_sums(math, Single { bits: MINUS_ZERO_BITS }, raw, sum);
    assert forall|i: int| 0 <= i < n implies (#[trigger] taps[i]).value() * sum.value()
        == raw[i].value() by {
        assert(call_ensures(M::quotient, (math, raw[i], sum), taps[i]));
    }
    divided_sum(raw, taps, sum.value(), n);
    let s = sum.value();
    assert(1real * s == s) by (nonlinear_arith);
    crate::laws::algebra::cancels(crate::exact::sum_of(taps, n), 1real, s);
}

/// The sum of the complements of coefficients is one less their sum, as soon as
/// the middle is among them.
pub proof fn complements_stop_what_is_passed<M: TapMath>(
    math: &M,
    taps: Seq<Single>,
    center: usize,
    r: Seq<Single>,
    n: int,
)
    requires
        crate::exact::is_exact::<Single, M>(math),
        crate::io::signal::filters::are_complements(math, taps, center, r),
        0 <= n <= taps.len(),
    ensures
        crate::exact::sum_of(r, n) == (if center < n {
            1real
        } else {
            0real
        }) - crate::exact::sum_of(taps, n),
    decreases n,
{
    zeros();
    if n > 0 {
        complements_stop_what_is_passed(math, taps, center, r, n - 1);
        assert(crate::io::signal::filters::is_complement(
            math,
            taps[n - 1],
            n - 1 == center,
            r[n - 1],
        ));
        crate::exact::singles_stand_for_reals(taps[n - 1], taps[n - 1]);
    }
}

/// What a coefficient is worth; nothing where there is none.
pub open spec fn coefficient(s: Seq<Single>, i: int) -> real {
    if 0 <= i < s.len() {
        s[i].value()
    } else {
        0real
    }
}

/// What earlier samples and earlier outputs contribute to place `n` of the
/// output, from the coefficients behind `i` on: the coefficients `b` times the
/// samples, less the coefficients `a` times the outputs.
pub open spec fn owed(
    b: Seq<Single>,
    a: Seq<Single>,
    x: Seq<Single>,
    y: Seq<Single>,
    n: int,
    i: int,
) -> real
    decreases n,
{
    if n <= 0 {
        0real
    } else {
        coefficient(b, i + 1) * x[n - 1].value() - coefficient(a, i + 1) * y[n - 1].value() + owed(
            b,
            a,
            x,
            y,
            n - 1,
            i + 1,
        )
    }
}

proof fn nothing_owed(
    b: Seq<Single>,
    a: Seq<Single>,
    x: Seq<Single>,
    y: Seq<Single>,
    n: int,
    i: int,
)
    requires
        i + 1 >= b.len(),
        i + 1 >= a.len(),
    ensures
        owed(b, a, x, y, n, i) == 0real,
    decreases n,
{
    if n > 0 {
        nothing_owed(b, a, x, y, n - 1, i + 1);
        crate::laws::algebra::signs(x[n - 1].value(), 0real);
        crate::laws::algebra::signs(y[n - 1].value(), 0real);
    }
}

proof fn carried_is_owed<M: TapMath>(
    math: &M,
    b: Seq<Single>,
    a: Seq<Single>,
    states: Seq<Seq<Single>>,
    x: Seq<Single>,
    y: Seq<Single>,
    n: int,
    i: int,
)
    requires
        crate::exact::is_exact::<Single, M>(math),
        crate::io::signal::filters::is_run(math, b, a, states, x, y),
        states[0].len() >= b.len(),
        states[0].len() >= a.len(),
        forall|k: int| 0 <= k < states[0].len() ==> (#[trigger] states[0][k]).bits == 0,
        0 <= n <= x.len(),
        0 <= i < states[0].len(),
    ensures
        states[n].len() == states[0].len(),
        states[n][i].value() == owed(b, a, x, y, n, i),
    decreases n,
{
    zeros();
    if n > 0 {
        carried_is_owed(math, b, a, states, x, y, n - 1, i);
        assert(y[n - 1] == y[n - 1]);
        assert(crate::io::signal::filters::is_step(
            math,
            b,
            a,
            states[n - 1],
            x[n - 1],
            states[n - 1 + 1],
            y[n - 1],
        ));
        let (before, now, input, output) = (states[n - 1], states[n], x[n - 1], y[n - 1]);
        assert(now[i] == now[i]);
        let (come, given, rest) = choose|come: Single, given: Single, rest: Single|
            {
                &&& crate::io::signal::filters::is_term(
                    math,
                    crate::io::signal::filters::item(b, i + 1),
                    input,
                    come,
                )
                &&& crate::io::signal::filters::is_term(
                    math,
                    crate::io::signal::filters::item(a, i + 1),
                    output,
                    given,
                )
                &&& #[trigger] call_ensures(M::difference, (math, come, given), rest)
                &&& match crate::io::signal::filters::item(before, i + 1) {
                    Some(c) => call_ensures(M::sum, (math, rest, c), now[i]),
                    None => now[i] == rest,
                }
            };
        crate::exact::singles_stand_for_reals(come, given);
        crate::exact::singles_stand_for_reals(given, come);
        crate::laws::algebra::signs(input.value(), 0real);
        crate::laws::algebra::signs(output.value(), 0real);
        if i + 1 < before.len() {
            carried_is_owed(math, b, a, states, x, y, n - 1, i + 1);
        } else {
            nothing_owed(b, a, x, y, n - 1, i + 1);
        }
    } else {
        assert(states[0][i].bits == 0);
    }
}

/// What a filter gives is its difference equation: the first coefficient times
/// the sample, and what earlier samples and outputs contribute.
pub proof fn filters_solve_their_difference_equation<M: TapMath>(
    math: &M,
    b: Seq<Single>,
    a: Seq<Single>,
    states: Seq<Seq<Single>>,
    x: Seq<Single>,
    y: Seq<Single>,
    n: int,
)
    requires
        crate::exact::is_exact::<Single, M>(math),
        b.len() > 0,
        crate::io::signal::filters::is_run(math, b, a, states, x, y),
        states[0].len() >= b.len(),
        states[0].len() >= a.len(),
        forall|k: int| 0 <= k < states[0].len() ==> (#[trigger] states[0][k]).bits == 0,
        0 <= n < x.len(),
    ensures
        y.len() == x.len(),
        y[n].value() == b[0].value() * x[n].value() + owed(b, a, x, y, n, 0),
{
    carried_is_owed(math, b, a, states, x, y, n, 0);
    assert(y[n] == y[n]);
    assert(crate::io::signal::filters::is_step(math, b, a, states[n], x[n], states[n + 1], y[n]));
    let p = choose|p: Single| #[trigger]
        call_ensures(M::product, (math, b[0], x[n]), p) && call_ensures(
            M::sum,
            (math, p, states[n][0]),
            y[n],
        );
}

/// A flat filter of the second order passes a constant signal as it is and
/// stops the fastest one, or the other way round where it passes what is above
/// the cutoff.
pub proof fn flat_filters_pass_and_stop<M: TapMath>(
    math: &M,
    cutoff: Single,
    high: bool,
    p: FlatParts,
    b: (Single, Single),
    a: (Single, Single),
)
    requires
        crate::exact::is_exact::<Single, M>(math),
        crate::io::signal::filters::is_flat_design(math, cutoff, high, p, b, a),
        p.whole.value() != 0real,
    ensures
        !high ==> 2real * b.0.value() + b.1.value() == 1real + a.0.value() + a.1.value() && 2real
            * b.0.value() - b.1.value() == 0real,
        high ==> 2real * b.0.value() - b.1.value() == 1real - a.0.value() + a.1.value() && 2real
            * b.0.value() + b.1.value() == 0real,
{
    zeros();
    let (w, q, s) = (p.whole.value(), p.square.value(), p.product.value());
    assert(w == 1real + s + q);
    let (one, two, back) = (
        crate::io::signal::filters::number(ONE_BITS).value(),
        crate::io::signal::filters::number(TWO_BITS).value(),
        crate::io::signal::filters::number(MINUS_TWO_BITS).value(),
    );
    let b0 = b.0.value();
    assert(two * b0 == 2real * b0) by (nonlinear_arith)
        requires
            two == 2real,
    ;
    assert(back * b0 == -2real * b0) by (nonlinear_arith)
        requires
            back == -2real,
    ;
    let (less, twice) = choose|less: Single, twice: Single|
        {
            &&& #[trigger] call_ensures(
                M::difference,
                (math, p.square, crate::io::signal::filters::number(ONE_BITS)),
                less,
            )
            &&& #[trigger] call_ensures(
                M::product,
                (math, crate::io::signal::filters::number(TWO_BITS), less),
                twice,
            )
            &&& call_ensures(M::quotient, (math, twice, p.whole), a.0)
        };
    let l = less.value();
    assert(two * l == 2real * l) by (nonlinear_arith)
        requires
            two == 2real,
    ;
    let (rest, more) = choose|rest: Single, more: Single|
        {
            &&& #[trigger] call_ensures(
                M::difference,
                (math, crate::io::signal::filters::number(ONE_BITS), p.product),
                rest,
            )
            &&& #[trigger] call_ensures(M::sum, (math, rest, p.square), more)
            &&& call_ensures(M::quotient, (math, more, p.whole), a.1)
        };
    let (a1, a2) = (a.0.value(), a.1.value());
    assert(a1 * w == 2real * (q - 1real));
    assert(a2 * w == 1real - s + q);
    assert((4real * b0) * w == 4real * (b0 * w)) by (nonlinear_arith);
    assert((1real + a1 + a2) * w == w + a1 * w + a2 * w) by (nonlinear_arith);
    assert((1real - a1 + a2) * w == w - a1 * w + a2 * w) by (nonlinear_arith);
    if high {
        crate::laws::algebra::cancels(4real * b0, 1real - a1 + a2, w);
    } else {
        crate::laws::algebra::cancels(4real * b0, 1real + a1 + a2, w);
    }
}

/// A filter that stops one frequency passes a constant signal as it is, and its
/// forward coefficients cancel one another at that frequency.
pub proof fn notches_stop_their_frequency<M: TapMath>(
    math: &M,
    center: Single,
    q: Single,
    p: NotchParts,
    edge: Single,
    middle: Single,
    last: Single,
)
    requires
        crate::exact::is_exact::<Single, M>(math),
        crate::io::signal::filters::is_notch_design(math, center, q, p, edge, middle, last),
        p.whole.value() != 0real,
    ensures
        2real * edge.value() + middle.value() == 1real + middle.value() + last.value(),
        middle.value() == -2real * (p.cosine.value() * edge.value()),
        call_ensures(M::cosine, (math, p.angle), p.cosine),
{
    zeros();
    let (w, c, e, m, l) = (
        p.whole.value(),
        p.cosine.value(),
        edge.value(),
        middle.value(),
        last.value(),
    );
    let back = crate::io::signal::filters::number(MINUS_TWO_BITS).value();
    assert(back * c == -2real * c) by (nonlinear_arith)
        requires
            back == -2real,
    ;
    assert((2real * e) * w == 2real * (e * w)) by (nonlinear_arith);
    assert((1real + l) * w == w + l * w) by (nonlinear_arith);
    crate::laws::algebra::cancels(2real * e, 1real + l, w);
    crate::laws::algebra::regroups(c, e, w);
    assert((-2real * (c * e)) * w == -2real * ((c * e) * w)) by (nonlinear_arith);
    assert(c * 1real == c) by (nonlinear_arith);
    crate::laws::algebra::cancels(m, -2real * (c * e), w);
}

/// A signal less its mean has a mean of zero.
pub proof fn nothing_is_left_of_the_mean<M: SignalMath>(
    math: &M,
    signal: Seq<Single>,
    mean: Single,
    r: Seq<Single>,
)
    requires
        crate::exact::is_exact::<Single, M>(math),
        mean.value() * (signal.len() as int as real) == crate::exact::sum_of(
            signal,
            signal.len() as int,
        ),
        crate::arith::are_shifted(math, signal, mean, r),
    ensures
        r.len() == signal.len(),
        crate::exact::sum_of(r, r.len() as int) == 0real,
{
    shifted_sum(math, signal, mean, r, signal.len() as int);
}

proof fn shifted_sum<M: SignalMath>(
    math: &M,
    signal: Seq<Single>,
    mean: Single,
    r: Seq<Single>,
    n: int,
)
    requires
        crate::exact::is_exact::<Single, M>(math),
        crate::arith::are_shifted(math, signal, mean, r),
        0 <= n <= signal.len(),
    ensures
        crate::exact::sum_of(r, n) == crate::exact::sum_of(signal, n) - mean.value() * (n as real),
    decreases n,
{
    let m = mean.value();
    if n > 0 {
        shifted_sum(math, signal, mean, r, n - 1);
        assert(call_ensures(M::difference, (math, signal[n - 1], mean), r[n - 1]));
        crate::laws::algebra::spreads(m, (n - 1) as real, 1real);
        assert(m * 1real == m) by (nonlinear_arith);
    } else {
        crate::laws::algebra::signs(m, 0real);
    }
}

} // verus!
