//! Ratios of signal to noise, and how far frames move together.

use crate::error::IoResult;
use crate::exact::Valued;
use crate::io::signal::quality::{
    QualityMath, HUNDRED_BITS, MINUS_ONE_BITS, ONE_BITS, TINY_BITS,
};
use crate::number::Double;
use vstd::prelude::*;

verus! {

/// The sum of the squares of what one signal has beside another, at the first
/// places.
pub open spec fn rest_of(reference: Seq<Double>, degraded: Seq<Double>, n: int) -> real
    decreases n,
{
    if n <= 0 {
        0real
    } else {
        rest_of(reference, degraded, n - 1) + (degraded[n - 1].value() - reference[n - 1].value())
            * (degraded[n - 1].value() - reference[n - 1].value())
    }
}

/// The energy of what a signal has beside its reference.
pub open spec fn noise_of(reference: Seq<Double>, degraded: Seq<Double>) -> real {
    rest_of(reference, degraded, reference.len() as int)
}

/// Whether decibels are true to ratios: the same ratio has the same each time,
/// and a greater ratio has more.
pub open spec fn decibels_grow<M: QualityMath>(math: &M) -> bool {
    forall|x: Double, y: Double, r: Double, s: Double| #[trigger]
        call_ensures(M::decibels, (math, x), r) && #[trigger] call_ensures(
            M::decibels,
            (math, y),
            s,
        ) ==> {
            &&& x.value() < y.value() ==> r.value() < s.value()
            &&& x.value() == y.value() ==> r.value() == s.value()
        }
}

proof fn rests_add_up(
    reference: Seq<Double>,
    degraded: Seq<Double>,
    rest: Seq<Double>,
    n: int,
)
    requires
        forall|i: int|
            0 <= i < n ==> (#[trigger] rest[i]).value() == degraded[i].value()
                - reference[i].value(),
    ensures
        crate::exact::dot_of(rest, rest, n) == rest_of(reference, degraded, n),
    decreases n,
{
    if n > 0 {
        rests_add_up(reference, degraded, rest, n - 1);
        assert(rest[n - 1].value() == degraded[n - 1].value() - reference[n - 1].value());
    }
}

proof fn noise_is_found<M: QualityMath>(
    math: &M,
    reference: Seq<Double>,
    degraded: Seq<Double>,
    r: Double,
)
    requires
        crate::exact::is_exact::<Double, M>(math),
        reference.len() == degraded.len(),
        crate::io::signal::quality::is_noise(math, reference, degraded, r),
    ensures
        r.sound(),
        r.value() == noise_of(reference, degraded),
{
    let rest = choose|rest: Seq<Double>| #[trigger]
        crate::arith::are_differences(math, degraded, reference, rest)
            && crate::io::signal::quality::is_energy(math, rest, r);
    let zero = Double { bits: 0 };
    crate::exact::doubles_stand_for_reals(zero, zero);
    crate::exact::dots_are_sums_of_products(math, zero, rest, rest, r);
    let n = reference.len() as int;
    assert forall|i: int| 0 <= i < n implies (#[trigger] rest[i]).value() == degraded[i].value()
        - reference[i].value() by {
        assert(call_ensures(M::difference, (math, degraded[i], reference[i]), rest[i]));
    }
    rests_add_up(reference, degraded, rest, n);
}

/// The energy that is found is the sum of the squares.
pub proof fn energy_is_found<M: QualityMath>(math: &M, s: Seq<Double>, r: Double)
    requires
        crate::exact::is_exact::<Double, M>(math),
        crate::io::signal::quality::is_energy(math, s, r),
    ensures
        r.sound(),
        r.value() == crate::laws::quality::energy(s),
{
    let zero = Double { bits: 0 };
    crate::exact::doubles_stand_for_reals(zero, zero);
    crate::exact::dots_are_sums_of_products(math, zero, s, s, r);
}

proof fn hundred()
    ensures
        crate::io::signal::quality::number(HUNDRED_BITS).value() == 100real,
{
    vstd::arithmetic::power2::lemma2_to64();
    vstd::arithmetic::power2::lemma2_to64_rest();
    crate::exact::double_of_parts(
        crate::io::signal::quality::number(HUNDRED_BITS),
        46,
        70368744177664,
    );
}

/// The ratio of signal to noise is that of the energy of the reference to the
/// energy of what the signal has beside it, in decibels; one hundred where there
/// is next to nothing beside it.
pub proof fn ratio_is_signal_to_noise<M: QualityMath>(
    math: &M,
    reference: Seq<Double>,
    degraded: Seq<Double>,
    x: Double,
    ratio: Double,
    decibels: Double,
)
    requires
        crate::exact::is_exact::<Double, M>(math),
        decibels_grow(math),
        0 < reference.len(),
        reference.len() == degraded.len(),
        crate::io::signal::quality::gives_ratio(math, reference, degraded, Ok(x)),
        ratio.value() * noise_of(reference, degraded) == crate::laws::quality::energy(reference),
        call_ensures(M::decibels, (math, ratio), decibels),
    ensures
        noise_of(reference, degraded) < crate::laws::quality::faint() ==> x.value() == 100real,
        noise_of(reference, degraded) >= crate::laws::quality::faint() ==> x.value() == decibels.value(),
{
    let r: IoResult<Double> = Ok(x);
    let (signal, noise) = choose|signal: Double, noise: Double|
        {
            &&& crate::io::signal::quality::is_energy(math, reference, signal)
            &&& crate::io::signal::quality::is_noise(math, reference, degraded, noise)
            &&& #[trigger] crate::io::signal::quality::is_ratio(math, signal, noise, r->Ok_0)
        };
    energy_is_found(math, reference, signal);
    noise_is_found(math, reference, degraded, noise);
    crate::laws::quality::a_ten_billionth_is_faint();
    crate::exact::doubles_stand_for_reals(noise, crate::io::signal::quality::number(TINY_BITS));
    hundred();
    if noise.value() >= crate::laws::quality::faint() {
        let q = choose|q: Double| #[trigger]
            call_ensures(M::quotient, (math, signal, noise), q) && call_ensures(
                M::decibels,
                (math, q),
                x,
            );
        crate::laws::algebra::cancels(q.value(), ratio.value(), noise.value());
    }
}

/// Of two signals that are compared with one reference, the one with less beside
/// it has the greater ratio of signal to noise.
pub proof fn less_noise_has_the_greater_ratio<M: QualityMath>(
    math: &M,
    reference: Seq<Double>,
    clean: Seq<Double>,
    noisy: Seq<Double>,
    x: Double,
    y: Double,
)
    requires
        crate::exact::is_exact::<Double, M>(math),
        decibels_grow(math),
        0 < reference.len(),
        reference.len() == clean.len(),
        reference.len() == noisy.len(),
        crate::io::signal::quality::gives_ratio(math, reference, clean, Ok(x)),
        crate::io::signal::quality::gives_ratio(math, reference, noisy, Ok(y)),
        crate::laws::quality::energy(reference) > 0real,
        crate::laws::quality::faint() <= noise_of(reference, clean),
        noise_of(reference, clean) < noise_of(reference, noisy),
    ensures
        x.value() > y.value(),
{
    let (a, p) = ratio_parts(math, reference, clean, x);
    let (b, q) = ratio_parts(math, reference, noisy, y);
    let (n, m) = (noise_of(reference, clean), noise_of(reference, noisy));
    crate::laws::quality::a_ten_billionth_is_faint();
    let (u, v) = (a.value(), b.value());
    if u <= v {
        assert(u * n < v * m) by (nonlinear_arith)
            requires
                u <= v,
                0real < n,
                n < m,
                u * n > 0real,
        ;
    }
}

proof fn ratio_parts<M: QualityMath>(
    math: &M,
    reference: Seq<Double>,
    degraded: Seq<Double>,
    x: Double,
) -> (w: (Double, Double))
    requires
        crate::exact::is_exact::<Double, M>(math),
        0 < reference.len(),
        reference.len() == degraded.len(),
        crate::io::signal::quality::gives_ratio(math, reference, degraded, Ok(x)),
        noise_of(reference, degraded) >= crate::laws::quality::faint(),
    ensures
        w.0.value() * noise_of(reference, degraded) == crate::laws::quality::energy(reference),
        w.1 == x,
        call_ensures(M::decibels, (math, w.0), w.1),
{
    let r: IoResult<Double> = Ok(x);
    let (signal, noise) = choose|signal: Double, noise: Double|
        {
            &&& crate::io::signal::quality::is_energy(math, reference, signal)
            &&& crate::io::signal::quality::is_noise(math, reference, degraded, noise)
            &&& #[trigger] crate::io::signal::quality::is_ratio(math, signal, noise, r->Ok_0)
        };
    energy_is_found(math, reference, signal);
    noise_is_found(math, reference, degraded, noise);
    crate::laws::quality::a_ten_billionth_is_faint();
    crate::exact::doubles_stand_for_reals(noise, crate::io::signal::quality::number(TINY_BITS));
    let q = choose|q: Double| #[trigger]
        call_ensures(M::quotient, (math, signal, noise), q) && call_ensures(
            M::decibels,
            (math, q),
            x,
        );
    (q, x)
}

/// Whether a real number is the mean of a signal.
pub open spec fn is_mean_of(s: Seq<Double>, m: real) -> bool {
    m * (s.len() as int as real) == crate::exact::sum_of(s, s.len() as int)
}

/// How far two signals move together around their means, at the first places.
pub open spec fn moment(a: Seq<Double>, p: real, b: Seq<Double>, q: real, n: int) -> real
    decreases n,
{
    if n <= 0 {
        0real
    } else {
        moment(a, p, b, q, n - 1) + (a[n - 1].value() - p) * (b[n - 1].value() - q)
    }
}

/// A real number, kept between minus one and one.
pub open spec fn within_one(x: real) -> real {
    if x < -1real {
        -1real
    } else if x > 1real {
        1real
    } else {
        x
    }
}

/// Whether a number is how far two signals move together, in parts of how far
/// each moves by itself.
pub open spec fn is_correlated(together: real, alone: real, other: real, x: real, w: real) -> bool {
    w >= 0real && w * w == alone * other && x * w == together
}

proof fn centred_moment(
    a: Seq<Double>,
    p: real,
    b: Seq<Double>,
    q: real,
    c: Seq<Double>,
    d: Seq<Double>,
    n: int,
)
    requires
        forall|i: int| 0 <= i < n ==> (#[trigger] c[i]).value() == a[i].value() - p,
        forall|i: int| 0 <= i < n ==> (#[trigger] d[i]).value() == b[i].value() - q,
    ensures
        crate::exact::dot_of(c, d, n) == moment(a, p, b, q, n),
    decreases n,
{
    if n > 0 {
        centred_moment(a, p, b, q, c, d, n - 1);
        assert(c[n - 1].value() == a[n - 1].value() - p);
        assert(d[n - 1].value() == b[n - 1].value() - q);
    }
}

proof fn centring<M: QualityMath>(math: &M, a: Seq<Double>, mean: Double, c: Seq<Double>, p: real)
    requires
        crate::exact::is_exact::<Double, M>(math),
        0 < a.len() <= usize::MAX,
        is_mean_of(a, p),
        crate::arith::is_mean(math, Double { bits: 0 }, a, mean),
        crate::arith::are_shifted(math, a, mean, c),
    ensures
        c.len() == a.len(),
        forall|i: int| 0 <= i < a.len() ==> (#[trigger] c[i]).value() == a[i].value() - p,
{
    let zero = Double { bits: 0 };
    crate::exact::doubles_stand_for_reals(zero, zero);
    crate::exact::means_make_up_the_sum(math, zero, a, mean);
    crate::laws::algebra::cancels(mean.value(), p, a.len() as int as real);
    assert forall|i: int| 0 <= i < a.len() implies (#[trigger] c[i]).value() == a[i].value()
        - p by {
        assert(call_ensures(M::difference, (math, a[i], mean), c[i]));
    }
}

/// The bounds of correlations are minus one and one.
pub proof fn ones()
    ensures
        crate::io::signal::quality::number(ONE_BITS).sound(),
        crate::io::signal::quality::number(ONE_BITS).value() == 1real,
        crate::io::signal::quality::number(MINUS_ONE_BITS).sound(),
        crate::io::signal::quality::number(MINUS_ONE_BITS).value() == -1real,
        (Double { bits: 0 }).sound(),
        (Double { bits: 0 }).value() == 0real,
{
    vstd::arithmetic::power2::lemma2_to64();
    vstd::arithmetic::power2::lemma2_to64_rest();
    let (one, back) = (
        crate::io::signal::quality::number(ONE_BITS),
        crate::io::signal::quality::number(MINUS_ONE_BITS),
    );
    crate::exact::double_of_parts(one, 52, 4503599627370496);
    let zero = Double { bits: 0 };
    crate::exact::doubles_stand_for_reals(zero, zero);
    crate::exact::doubles_stand_for_reals(back, zero);
    assert(back.absolute() == one);
}

/// How far two frames move together is found around their means, in parts of how
/// far each moves by itself; nothing where one of them hardly moves.
pub proof fn frames_are_compared_around_their_means<M: QualityMath>(
    math: &M,
    a: Seq<Double>,
    b: Seq<Double>,
    p: real,
    q: real,
    r: Double,
)
    requires
        crate::exact::is_exact::<Double, M>(math),
        0 < a.len() <= usize::MAX,
        a.len() == b.len(),
        is_mean_of(a, p),
        is_mean_of(b, q),
        crate::io::signal::quality::is_correlation(math, a, b, r),
    ensures
        moment(a, p, a, p, a.len() as int) > crate::laws::quality::faint() && moment(b, q, b, q, a.len() as int)
            > crate::laws::quality::faint() ==> exists|x: real, w: real|
            {
                &&& #[trigger] is_correlated(
                    moment(a, p, b, q, a.len() as int),
                    moment(a, p, a, p, a.len() as int),
                    moment(b, q, b, q, a.len() as int),
                    x,
                    w,
                )
                &&& r.value() == within_one(x)
            },
        moment(a, p, a, p, a.len() as int) <= crate::laws::quality::faint() || moment(b, q, b, q, a.len() as int)
            <= crate::laws::quality::faint() ==> r.value() == 0real,
{
    let (mean_a, mean_b, c, d, together, alone, other) = choose|
        mean_a: Double,
        mean_b: Double,
        c: Seq<Double>,
        d: Seq<Double>,
        together: Double,
        alone: Double,
        other: Double,
    |
        {
            &&& crate::arith::is_mean(math, crate::io::signal::quality::nought(), a, mean_a)
            &&& crate::arith::is_mean(math, crate::io::signal::quality::nought(), b, mean_b)
            &&& #[trigger] crate::arith::are_shifted(math, a, mean_a, c)
            &&& #[trigger] crate::arith::are_shifted(math, b, mean_b, d)
            &&& crate::arith::is_dot(math, crate::io::signal::quality::nought(), c, d, together)
            &&& crate::io::signal::quality::is_energy(math, c, alone)
            &&& crate::io::signal::quality::is_energy(math, d, other)
            &&& #[trigger] crate::io::signal::quality::is_moved_together(
                math,
                together,
                alone,
                other,
                r,
            )
        };
    let n = a.len() as int;
    ones();
    centring(math, a, mean_a, c, p);
    centring(math, b, mean_b, d, q);
    let zero = Double { bits: 0 };
    crate::exact::dots_are_sums_of_products(math, zero, c, d, together);
    crate::exact::dots_are_sums_of_products(math, zero, c, c, alone);
    crate::exact::dots_are_sums_of_products(math, zero, d, d, other);
    centred_moment(a, p, b, q, c, d, n);
    centred_moment(a, p, a, p, c, c, n);
    centred_moment(b, q, b, q, d, d, n);
    crate::laws::quality::a_ten_billionth_is_faint();
    let tiny = crate::io::signal::quality::number(TINY_BITS);
    crate::exact::doubles_stand_for_reals(tiny, alone);
    crate::exact::doubles_stand_for_reals(tiny, other);
    if alone.value() > crate::laws::quality::faint() && other.value() > crate::laws::quality::faint() {
        let x = choose|x: Double| #[trigger]
            crate::io::signal::quality::is_normed(math, together, alone, other, x) && r
                == x.clamped(
                crate::io::signal::quality::number(MINUS_ONE_BITS),
                crate::io::signal::quality::number(ONE_BITS),
            );
        let w = normed_parts(math, together, alone, other, x);
        crate::exact::doubles_stand_for_reals(
            x,
            crate::io::signal::quality::number(MINUS_ONE_BITS),
        );
        crate::exact::doubles_stand_for_reals(crate::io::signal::quality::number(ONE_BITS), x);
        assert(is_correlated(together.value(), alone.value(), other.value(), x.value(), w));
    }
}

/// What is found for two energies is in parts of the root of their product.
pub proof fn normed_parts<M: QualityMath>(
    math: &M,
    together: Double,
    alone: Double,
    other: Double,
    x: Double,
) -> (w: real)
    requires
        crate::exact::is_exact::<Double, M>(math),
        alone.value() > 0real,
        other.value() > 0real,
        crate::io::signal::quality::is_normed(math, together, alone, other, x),
    ensures
        x.sound(),
        w > 0real,
        is_correlated(together.value(), alone.value(), other.value(), x.value(), w),
{
    let (ra, rb, whole) = choose|ra: Double, rb: Double, whole: Double|
        {
            &&& call_ensures(M::root, (math, alone), ra)
            &&& call_ensures(M::root, (math, other), rb)
            &&& #[trigger] call_ensures(M::product, (math, ra, rb), whole)
            &&& call_ensures(M::quotient, (math, together, whole), x)
        };
    let (p, q) = (ra.value(), rb.value());
    crate::laws::algebra::squared_product(p, q);
    crate::laws::algebra::commutes(q * q, p * p);
    crate::laws::algebra::signs(0real, 0real);
    if p == 0real {
        assert(p * p == 0real) by (nonlinear_arith)
            requires
                p == 0real,
        ;
    }
    if q == 0real {
        assert(q * q == 0real) by (nonlinear_arith)
            requires
                q == 0real,
        ;
    }
    assert(p * q > 0real) by (nonlinear_arith)
        requires
            p > 0real,
            q > 0real,
    ;
    p * q
}

proof fn moved_sum(a: Seq<Double>, b: Seq<Double>, g: real, o: real, n: int)
    requires
        0 <= n,
        forall|i: int| 0 <= i < n ==> (#[trigger] b[i]).value() == g * a[i].value() + o,
    ensures
        crate::exact::sum_of(b, n) == g * crate::exact::sum_of(a, n) + o * (n as real),
    decreases n,
{
    if n > 0 {
        moved_sum(a, b, g, o, n - 1);
        let (s, x, m) = (crate::exact::sum_of(a, n - 1), a[n - 1].value(), (n - 1) as real);
        assert(b[n - 1].value() == g * x + o);
        crate::laws::algebra::spreads(g, s, x);
        crate::laws::algebra::spreads(o, m, 1real);
        assert(o * 1real == o) by (nonlinear_arith);
        assert(n as real == m + 1real);
    } else {
        crate::laws::algebra::signs(g, 0real);
        crate::laws::algebra::signs(o, 0real);
    }
}

proof fn moved_moments(a: Seq<Double>, b: Seq<Double>, p: real, g: real, o: real, n: int)
    requires
        forall|i: int| 0 <= i < n ==> (#[trigger] b[i]).value() == g * a[i].value() + o,
    ensures
        moment(a, p, b, g * p + o, n) == g * moment(a, p, a, p, n),
        moment(b, g * p + o, b, g * p + o, n) == (g * g) * moment(a, p, a, p, n),
    decreases n,
{
    if n > 0 {
        moved_moments(a, b, p, g, o, n - 1);
        let (m, x) = (moment(a, p, a, p, n - 1), a[n - 1].value());
        let d = x - p;
        assert(b[n - 1].value() == g * x + o);
        crate::laws::algebra::spreads(g, x, p);
        assert(b[n - 1].value() - (g * p + o) == g * d);
        crate::laws::algebra::spreads(g, m, d * d);
        crate::laws::algebra::regroups(g, d, d);
        crate::laws::algebra::commutes(d, g * d);
        crate::laws::algebra::squared_product(d, g);
        crate::laws::algebra::commutes(d, g);
        crate::laws::algebra::spreads(g * g, m, d * d);
    } else {
        crate::laws::algebra::signs(g, 0real);
        crate::laws::algebra::signs(g * g, 0real);
    }
}

/// A frame that is another made louder or softer, and lifted or lowered as a
/// whole, moves with it fully; one that is turned round moves against it fully.
pub proof fn loudness_and_offset_do_not_part_frames<M: QualityMath>(
    math: &M,
    a: Seq<Double>,
    b: Seq<Double>,
    p: real,
    g: real,
    o: real,
    r: Double,
)
    requires
        crate::exact::is_exact::<Double, M>(math),
        0 < a.len() <= usize::MAX,
        a.len() == b.len(),
        is_mean_of(a, p),
        g != 0real,
        forall|i: int| 0 <= i < a.len() ==> (#[trigger] b[i]).value() == g * a[i].value() + o,
        moment(a, p, a, p, a.len() as int) > crate::laws::quality::faint(),
        (g * g) * moment(a, p, a, p, a.len() as int) > crate::laws::quality::faint(),
        crate::io::signal::quality::is_correlation(math, a, b, r),
    ensures
        g > 0real ==> r.value() == 1real,
        g < 0real ==> r.value() == -1real,
{
    let n = a.len() as int;
    let m = n as real;
    moved_sum(a, b, g, o, n);
    crate::laws::algebra::commutes(g * p + o, m);
    crate::laws::algebra::spreads(m, g * p, o);
    crate::laws::algebra::commutes(m, g * p);
    crate::laws::algebra::commutes(m, o);
    crate::laws::algebra::regroups(g, p, m);
    assert(is_mean_of(b, g * p + o));
    moved_moments(a, b, p, g, o, n);
    frames_are_compared_around_their_means(math, a, b, p, g * p + o, r);
    crate::laws::quality::a_ten_billionth_is_faint();
    let e = moment(a, p, a, p, n);
    let f = moment(b, g * p + o, b, g * p + o, n);
    let (x, w) = choose|x: real, w: real|
        {
            &&& #[trigger] is_correlated(moment(a, p, b, g * p + o, n), e, f, x, w)
            &&& r.value() == within_one(x)
        };
    let t = if g > 0real {
        g
    } else {
        -g
    };
    crate::laws::algebra::squared_product(e, t);
    crate::laws::algebra::signs(g, g);
    crate::laws::algebra::signs(g, -g);
    crate::laws::algebra::commutes(e, t);
    crate::laws::algebra::regroups(g * g, e, e);
    crate::laws::algebra::commutes((g * g) * e, e);
    assert(t * t == g * g);
    assert(t * e > 0real) by (nonlinear_arith)
        requires
            t > 0real,
            e > 0real,
    ;
    assert((t * e) * (t * e) == w * w);
    crate::laws::algebra::roots_compare(w, t * e, 1real);
    assert((w * w) * 1real == w * w) by (nonlinear_arith);
    assert(((t * e) * (t * e)) * 1real == (t * e) * (t * e)) by (nonlinear_arith);
    crate::laws::algebra::signs(g, e);
    crate::laws::algebra::signs(1real, t * e);
    assert(1real * (t * e) == t * e) by (nonlinear_arith);
    if g > 0real {
        crate::laws::algebra::cancels(x, 1real, t * e);
    } else {
        crate::laws::algebra::cancels(x, -1real, t * e);
    }
}

} // verus!
