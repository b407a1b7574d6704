//! Coefficients of frames: how they answer to a louder frame.

use crate::exact::Valued;
use crate::io::signal::features::{FeatureMath, TINY_BITS};
use crate::number::Single;
use vstd::prelude::*;

verus! {

/// Whether logarithms are true to ratios: numbers in the same ratio have
/// logarithms that are equally far apart, and a greater number has a greater
/// logarithm.
pub open spec fn logs_follow_ratios<M: FeatureMath>(math: &M) -> bool {
    &&& forall|x: Single, y: Single, lx: Single, ly: Single| #[trigger]
        call_ensures(M::ln, (math, x), lx) && #[trigger] call_ensures(M::ln, (math, y), ly)
            && 0real < x.value() && x.value() < y.value() ==> lx.value() < ly.value()
    &&& forall|
        x: Single,
        y: Single,
        z: Single,
        w: Single,
        lx: Single,
        ly: Single,
        lz: Single,
        lw: Single,
    |
        {
            &&& #[trigger] call_ensures(M::ln, (math, x), lx)
            &&& #[trigger] call_ensures(M::ln, (math, y), ly)
            &&& #[trigger] call_ensures(M::ln, (math, z), lz)
            &&& #[trigger] call_ensures(M::ln, (math, w), lw)
            &&& 0real < x.value()
            &&& 0real < y.value()
            &&& 0real < z.value()
            &&& 0real < w.value()
            &&& y.value() * z.value() == x.value() * w.value()
        } ==> ly.value() - lx.value() == lw.value() - lz.value()
}

/// Whether numbers can be a cosine at the places of a whole.
pub open spec fn is_wave<M: FeatureMath>(math: &M, k: usize, c: Seq<Single>) -> bool {
    forall|i: int|
        0 <= i < c.len() ==> call_ensures(
            M::cosine,
            (math, k, i as usize, c.len() as usize),
            #[trigger] c[i],
        )
}

/// Whether cosines are true: those of one frequency are the same each time, the
/// first one is one everywhere, and all others come to nothing over a whole.
pub open spec fn waves_balance<M: FeatureMath>(math: &M) -> bool {
    &&& forall|k: usize, i: usize, n: usize, c: Single, d: Single| #[trigger]
        call_ensures(M::cosine, (math, k, i, n), c) && #[trigger] call_ensures(
            M::cosine,
            (math, k, i, n),
            d,
        ) ==> c.value() == d.value()
    &&& forall|i: usize, n: usize, c: Single| #[trigger]
        call_ensures(M::cosine, (math, 0usize, i, n), c) ==> c.value() == 1real
    &&& forall|k: usize, c: Seq<Single>| #[trigger]
        is_wave(math, k, c) && 0 < k < c.len() ==> crate::exact::sum_of(c, c.len() as int) == 0real
    &&& forall|n: usize, s: Single, t: Single| #[trigger]
        call_ensures(M::cosine_scale, (math, n), s) && #[trigger] call_ensures(
            M::cosine_scale,
            (math, n),
            t,
        ) ==> s.value() == t.value()
}

/// What a filter passes of the squares of magnitudes.
pub open spec fn passed(filter: Seq<Single>, magnitudes: Seq<Single>, n: int) -> real
    decreases n,
{
    if n <= 0 {
        0real
    } else {
        passed(filter, magnitudes, n - 1) + filter[n - 1].value() * (magnitudes[n - 1].value()
            * magnitudes[n - 1].value())
    }
}

/// What a filter passes of a frame, and a ten billionth.
pub open spec fn heard(filter: Seq<Single>, magnitudes: Seq<Single>) -> real {
    passed(
        filter,
        magnitudes,
        if filter.len() <= magnitudes.len() {
            filter.len() as int
        } else {
            magnitudes.len() as int
        },
    ) + (Single { bits: TINY_BITS }).value()
}

proof fn power_passes<M: FeatureMath>(
    math: &M,
    filter: Seq<Single>,
    magnitudes: Seq<Single>,
    power: Seq<Single>,
    n: int,
)
    requires
        crate::exact::is_exact::<Single, M>(math),
        crate::arith::are_products(math, magnitudes, magnitudes, power),
        0 <= n <= magnitudes.len(),
    ensures
        crate::exact::dot_of(filter, power, n) == passed(filter, magnitudes, n),
    decreases n,
{
    if n > 0 {
        power_passes(math, filter, magnitudes, power, n - 1);
        assert(call_ensures(
            M::product,
            (math, magnitudes[n - 1], magnitudes[n - 1]),
            power[n - 1],
        ));
    }
}

/// What is transformed for a filter is the logarithm of what it passes.
proof fn energy_is_logarithm<M: FeatureMath>(
    math: &M,
    filter: Seq<Single>,
    magnitudes: Seq<Single>,
    power: Seq<Single>,
    r: Single,
) -> (x: Single)
    requires
        crate::exact::is_exact::<Single, M>(math),
        crate::arith::are_products(math, magnitudes, magnitudes, power),
        crate::io::signal::features::is_energy(math, filter, power, r),
    ensures
        call_ensures(M::ln, (math, x), r),
        x.value() == heard(filter, magnitudes),
{
    let zero = Single { bits: crate::number::MINUS_ZERO_BITS };
    let tiny = crate::io::signal::features::number(TINY_BITS);
    let (energy, lifted) = choose|energy: Single, lifted: Single|
        {
            &&& crate::arith::is_dot(
                math,
                crate::io::signal::features::number(crate::number::MINUS_ZERO_BITS),
                filter,
                power,
                energy,
            )
            &&& #[trigger] call_ensures(M::sum, (math, energy, tiny), lifted)
            &&& call_ensures(M::ln, (math, lifted), r)
        };
    let plus = Single { bits: 0 };
    crate::exact::singles_stand_for_reals(plus, plus);
    assert(plus.negated() == zero);
    crate::exact::dots_are_sums_of_products(math, zero, filter, power, energy);
    power_passes(
        math,
        filter,
        magnitudes,
        power,
        if filter.len() <= magnitudes.len() {
            filter.len() as int
        } else {
            magnitudes.len() as int
        },
    );
    lifted
}

proof fn coefficient_adds_up<M: FeatureMath>(
    math: &M,
    values: Seq<Single>,
    k: usize,
    r: Single,
) -> (w: (Seq<Single>, Single))
    requires
        crate::exact::is_exact::<Single, M>(math),
        crate::io::signal::features::is_coefficient(math, values, k, r),
    ensures
        w.0.len() == values.len(),
        is_wave(math, k, w.0),
        call_ensures(M::cosine_scale, (math, values.len() as usize), w.1),
        r.value() == crate::exact::dot_of(values, w.0, values.len() as int) * w.1.value(),
{
    let zero = Single { bits: crate::number::MINUS_ZERO_BITS };
    let (cosines, terms, sum, scale) = choose|
        cosines: Seq<Single>,
        terms: Seq<Single>,
        sum: Single,
        scale: Single,
    |
        {
            &&& #[trigger] crate::io::signal::features::are_waved(math, values, k, cosines, terms)
            &&& #[trigger] crate::arith::is_total(
                math,
                crate::io::signal::features::number(crate::number::MINUS_ZERO_BITS),
                terms,
                sum,
            )
            &&& #[trigger] call_ensures(M::cosine_scale, (math, values.len() as usize), scale)
            &&& call_ensures(M::product, (math, sum, scale), r)
        };
    let plus = Single { bits: 0 };
    crate::exact::singles_stand_for_reals(plus, plus);
    assert(plus.negated() == zero);
    assert(crate::arith::is_dot(math, zero, values, cosines, sum));
    crate::exact::dots_are_sums_of_products(math, zero, values, cosines, sum);
    (cosines, scale)
}

proof fn shifted_dot(
    a: Seq<Single>,
    b: Seq<Single>,
    c: Seq<Single>,
    d: Seq<Single>,
    shift: real,
    n: int,
)
    requires
        forall|i: int| 0 <= i < n ==> (#[trigger] b[i]).value() == a[i].value() + shift,
        forall|i: int| 0 <= i < n ==> (#[trigger] d[i]).value() == c[i].value(),
    ensures
        crate::exact::dot_of(b, d, n) == crate::exact::dot_of(a, c, n) + shift
            * crate::exact::sum_of(c, n),
    decreases n,
{
    if n > 0 {
        shifted_dot(a, b, c, d, shift, n - 1);
        let (x, w, s) = (
            a[n - 1].value(),
            c[n - 1].value(),
            crate::exact::sum_of(c, n - 1),
        );
        assert(b[n - 1].value() == x + shift);
        assert(d[n - 1].value() == w);
        crate::laws::algebra::commutes(x + shift, w);
        crate::laws::algebra::spreads(w, x, shift);
        crate::laws::algebra::commutes(w, x);
        crate::laws::algebra::commutes(w, shift);
        crate::laws::algebra::spreads(shift, s, w);
    } else {
        crate::laws::algebra::signs(shift, 0real);
    }
}

proof fn ones_add_up(c: Seq<Single>, n: int)
    requires
        0 <= n,
        forall|i: int| 0 <= i < n ==> (#[trigger] c[i]).value() == 1real,
    ensures
        crate::exact::sum_of(c, n) == n as real,
    decreases n,
{
    if n > 0 {
        ones_add_up(c, n - 1);
        assert(c[n - 1].value() == 1real);
    }
}

proof fn coefficient_moves<M: FeatureMath>(
    math: &M,
    a: Seq<Single>,
    b: Seq<Single>,
    k: usize,
    shift: real,
    r: Single,
    t: Single,
)
    requires
        crate::exact::is_exact::<Single, M>(math),
        waves_balance(math),
        0 < a.len() <= usize::MAX,
        a.len() == b.len(),
        k < a.len(),
        forall|i: int| 0 <= i < a.len() ==> (#[trigger] b[i]).value() == a[i].value() + shift,
        crate::io::signal::features::is_coefficient(math, a, k, r),
        crate::io::signal::features::is_coefficient(math, b, k, t),
    ensures
        k > 0 ==> t.value() == r.value(),
        k == 0 ==> forall|scale: Single| #[trigger]
            call_ensures(M::cosine_scale, (math, a.len() as usize), scale) ==> t.value()
                - r.value() == (shift * (a.len() as int as real)) * scale.value(),
{
    let n = a.len() as int;
    let (c, s) = coefficient_adds_up(math, a, k, r);
    let (d, u) = coefficient_adds_up(math, b, k, t);
    assert(s.value() == u.value());
    assert forall|i: int| 0 <= i < n implies (#[trigger] d[i]).value() == c[i].value() by {
        assert(call_ensures(M::cosine, (math, k, i as usize, n as usize), c[i]));
        assert(call_ensures(M::cosine, (math, k, i as usize, n as usize), d[i]));
    }
    shifted_dot(a, b, c, d, shift, n);
    let (x, y) = (crate::exact::dot_of(a, c, n), shift * crate::exact::sum_of(c, n));
    if k > 0 {
        assert(crate::exact::sum_of(c, n) == 0real);
        crate::laws::algebra::signs(shift, 0real);
    } else {
        assert forall|i: int| 0 <= i < n implies (#[trigger] c[i]).value() == 1real by {
            assert(call_ensures(M::cosine, (math, k, i as usize, n as usize), c[i]));
        }
        ones_add_up(c, n);
        crate::laws::algebra::commutes(x + y, s.value());
        crate::laws::algebra::spreads(s.value(), x, y);
        crate::laws::algebra::commutes(s.value(), x);
        crate::laws::algebra::commutes(s.value(), y);
        assert(t.value() - r.value() == y * s.value());
        assert forall|scale: Single| #[trigger]
            call_ensures(M::cosine_scale, (math, a.len() as usize), scale) implies t.value()
            - r.value() == (shift * (a.len() as int as real)) * scale.value() by {
            assert(scale.value() == s.value());
        }
    }
}

/// Where every filter passes so many times as much of one frame as of another,
/// only the first coefficient of the frames differs: by as much as the
/// logarithms of two numbers in that ratio do, for each filter, on the scale of
/// the transform.
pub proof fn a_louder_frame_moves_the_first_coefficient<M: FeatureMath>(
    math: &M,
    filters: Seq<Vec<Single>>,
    soft: Seq<Single>,
    loud: Seq<Single>,
    factor: real,
    count: usize,
    r: Seq<Single>,
    t: Seq<Single>,
    one: Single,
    more: Single,
    log_one: Single,
    log_more: Single,
    k: int,
)
    requires
        crate::exact::is_exact::<Single, M>(math),
        logs_follow_ratios(math),
        waves_balance(math),
        0 < filters.len() <= usize::MAX,
        forall|j: int| 0 <= j < filters.len() ==> heard((#[trigger] filters[j])@, soft) > 0real,
        forall|j: int| 0 <= j < filters.len() ==> heard((#[trigger] filters[j])@, loud) > 0real,
        forall|j: int|
            0 <= j < filters.len() ==> heard((#[trigger] filters[j])@, loud) == factor * heard(
                filters[j]@,
                soft,
            ),
        one.value() > 0real,
        more.value() > 0real,
        more.value() == factor * one.value(),
        call_ensures(M::ln, (math, one), log_one),
        call_ensures(M::ln, (math, more), log_more),
        crate::io::signal::features::are_coefficients(math, filters, soft, count, r),
        crate::io::signal::features::are_coefficients(math, filters, loud, count, t),
        0 <= k < count,
        k < filters.len(),
    ensures
        r.len() == count,
        t.len() == count,
        k > 0 ==> t[k].value() == r[k].value(),
        k == 0 ==> forall|scale: Single| #[trigger]
            call_ensures(M::cosine_scale, (math, filters.len() as usize), scale) ==> t[k].value()
                - r[k].value() == ((log_more.value() - log_one.value()) * (filters.len() as int
                as real)) * scale.value(),
{
    let (p, a) = choose|p: Seq<Single>, a: Seq<Single>|
        #[trigger] crate::io::signal::features::is_cepstrum(math, filters, soft, count, p, a, r);
    let (q, b) = choose|q: Seq<Single>, b: Seq<Single>|
        #[trigger] crate::io::signal::features::is_cepstrum(math, filters, loud, count, q, b, t);
    let shift = log_more.value() - log_one.value();
    assert forall|j: int| 0 <= j < a.len() implies (#[trigger] b[j]).value() == a[j].value()
        + shift by {
        logarithms_move(
            math,
            filters[j]@,
            soft,
            loud,
            p,
            q,
            factor,
            a[j],
            b[j],
            one,
            more,
            log_one,
            log_more,
        );
    }
    assert(crate::io::signal::features::is_coefficient(math, a, k as usize, r[k]));
    assert(crate::io::signal::features::is_coefficient(math, b, k as usize, t[k]));
    coefficient_moves(math, a, b, k as usize, shift, r[k], t[k]);
}

proof fn logarithms_move<M: FeatureMath>(
    math: &M,
    filter: Seq<Single>,
    soft: Seq<Single>,
    loud: Seq<Single>,
    p: Seq<Single>,
    q: Seq<Single>,
    factor: real,
    a: Single,
    b: Single,
    one: Single,
    more: Single,
    log_one: Single,
    log_more: Single,
)
    requires
        crate::exact::is_exact::<Single, M>(math),
        logs_follow_ratios(math),
        crate::arith::are_products(math, soft, soft, p),
        crate::arith::are_products(math, loud, loud, q),
        crate::io::signal::features::is_energy(math, filter, p, a),
        crate::io::signal::features::is_energy(math, filter, q, b),
        heard(filter, soft) > 0real,
        heard(filter, loud) > 0real,
        heard(filter, loud) == factor * heard(filter, soft),
        one.value() > 0real,
        more.value() > 0real,
        more.value() == factor * one.value(),
        call_ensures(M::ln, (math, one), log_one),
        call_ensures(M::ln, (math, more), log_more),
    ensures
        b.value() == a.value() + (log_more.value() - log_one.value()),
{
    let x = energy_is_logarithm(math, filter, soft, p, a);
    let y = energy_is_logarithm(math, filter, loud, q, b);
    let (v, w) = (x.value(), one.value());
    crate::laws::algebra::commutes(factor, v);
    crate::laws::algebra::regroups(v, factor, w);
    assert(y.value() * w == v * more.value());
}

/// What is transformed grows with what a filter passes: of two frames the one
/// of which a filter passes more has the greater value.
pub proof fn transformed_values_grow<M: FeatureMath>(
    math: &M,
    filter: Seq<Single>,
    soft: Seq<Single>,
    loud: Seq<Single>,
    p: Seq<Single>,
    q: Seq<Single>,
    a: Single,
    b: Single,
)
    requires
        crate::exact::is_exact::<Single, M>(math),
        logs_follow_ratios(math),
        crate::arith::are_products(math, soft, soft, p),
        crate::arith::are_products(math, loud, loud, q),
        crate::io::signal::features::is_energy(math, filter, p, a),
        crate::io::signal::features::is_energy(math, filter, q, b),
        0real < heard(filter, soft),
        heard(filter, soft) < heard(filter, loud),
    ensures
        a.value() < b.value(),
{
    let x = energy_is_logarithm(math, filter, soft, p, a);
    let y = energy_is_logarithm(math, filter, loud, q, b);
    assert(x.value() < y.value());
}

} // verus!
