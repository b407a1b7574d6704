//! How close frames are, and what scores and opinions make of it.

use crate::exact::Valued;
use crate::io::signal::quality::{
    QualityMath, FIVE_BITS, FORTY_BITS, FOUR_BITS, INTELLIGIBILITY_SHARE_BITS, ONE_BITS,
    PERCEIVED_SHARE_BITS, RATIO_SHARE_BITS, THREE_BITS, TINY_BITS,
};
use crate::number::Double;
use vstd::prelude::*;

verus! {

proof fn constants()
    ensures
        crate::io::signal::quality::number(THREE_BITS).value() == 3real,
        crate::io::signal::quality::number(FOUR_BITS).value() == 4real,
        crate::io::signal::quality::number(FIVE_BITS).sound(),
        crate::io::signal::quality::number(FIVE_BITS).value() == 5real,
        crate::io::signal::quality::number(FORTY_BITS).value() == 40real,
        crate::io::signal::quality::number(PERCEIVED_SHARE_BITS).value() == 1real / 2real,
        crate::exact::distance(
            crate::io::signal::quality::number(RATIO_SHARE_BITS).value(),
            3real / 10real,
        ) < 1real / 1000000000000000real,
        crate::exact::distance(
            crate::io::signal::quality::number(INTELLIGIBILITY_SHARE_BITS).value(),
            2real / 10real,
        ) < 1real / 1000000000000000real,
{
    vstd::arithmetic::power2::lemma2_to64();
    vstd::arithmetic::power2::lemma2_to64_rest();
    crate::exact::double_of_parts(
        crate::io::signal::quality::number(THREE_BITS),
        51,
        2251799813685248,
    );
    crate::exact::double_of_parts(
        crate::io::signal::quality::number(FOUR_BITS),
        50,
        1125899906842624,
    );
    crate::exact::double_of_parts(
        crate::io::signal::quality::number(FIVE_BITS),
        50,
        1125899906842624,
    );
    crate::exact::double_of_parts(
        crate::io::signal::quality::number(FORTY_BITS),
        47,
        140737488355328,
    );
    crate::exact::double_of_parts(
        crate::io::signal::quality::number(PERCEIVED_SHARE_BITS),
        53,
        9007199254740992,
    );
    crate::exact::double_of_parts(
        crate::io::signal::quality::number(RATIO_SHARE_BITS),
        54,
        18014398509481984,
    );
    crate::exact::double_of_parts(
        crate::io::signal::quality::number(INTELLIGIBILITY_SHARE_BITS),
        55,
        36028797018963968,
    );
}

proof fn temporal_of_a_copy<M: QualityMath>(
    math: &M,
    together: Double,
    a: Double,
    b: Double,
    r: Double,
)
    requires
        crate::exact::is_exact::<Double, M>(math),
        a.sound(),
        b.sound(),
        a.value() > crate::laws::quality::faint(),
        a.value() == b.value(),
        together.value() == a.value(),
        crate::io::signal::quality::is_temporal(math, together, a, b, r),
    ensures
        r.value() == 1real,
{
    crate::laws::quality::a_ten_billionth_is_faint();
    crate::laws::opinion::ones();
    let tiny = crate::io::signal::quality::number(TINY_BITS);
    crate::exact::doubles_stand_for_reals(tiny, a);
    crate::exact::doubles_stand_for_reals(tiny, b);
    let x = choose|x: Double| #[trigger]
        crate::io::signal::quality::is_normed(math, together, a, b, x) && r == x.greater(
            crate::io::signal::quality::nought(),
        );
    let w = crate::laws::opinion::normed_parts(math, together, a, b, x);
    let e = a.value();
    crate::laws::algebra::roots_compare(w, e, 1real);
    assert((w * w) * 1real == w * w) by (nonlinear_arith);
    assert((e * e) * 1real == e * e) by (nonlinear_arith);
    assert(1real * e == e) by (nonlinear_arith);
    crate::laws::algebra::cancels(x.value(), 1real, e);
    crate::exact::doubles_stand_for_reals(x, crate::io::signal::quality::nought());
}

proof fn spectral_of_a_copy<M: QualityMath>(math: &M, a: Double, b: Double, r: Double)
    requires
        crate::exact::is_exact::<Double, M>(math),
        a.sound(),
        b.sound(),
        a.value() > crate::laws::quality::faint(),
        a.value() == b.value(),
        crate::io::signal::quality::is_spectral(math, a, b, r),
    ensures
        r.value() == 1real,
{
    crate::laws::quality::a_ten_billionth_is_faint();
    crate::laws::opinion::ones();
    let tiny = crate::io::signal::quality::number(TINY_BITS);
    crate::exact::doubles_stand_for_reals(a, tiny);
    crate::exact::doubles_stand_for_reals(b, tiny);
    let (x, y) = choose|x: Double, y: Double|
        {
            &&& #[trigger] call_ensures(M::quotient, (math, b, a), x)
            &&& #[trigger] call_ensures(M::quotient, (math, a, b), y)
            &&& r == x.lesser(y).clamped(
                crate::io::signal::quality::nought(),
                crate::io::signal::quality::number(ONE_BITS),
            )
        };
    let e = a.value();
    assert(1real * e == e) by (nonlinear_arith);
    crate::laws::algebra::cancels(x.value(), 1real, e);
    crate::laws::algebra::cancels(y.value(), 1real, e);
    let z = x.lesser(y);
    crate::exact::doubles_stand_for_reals(z, crate::io::signal::quality::nought());
    crate::exact::doubles_stand_for_reals(crate::io::signal::quality::number(ONE_BITS), z);
}

proof fn loudness_of_a_copy<M: QualityMath>(
    math: &M,
    a: Double,
    b: Double,
    loud: Double,
    r: Double,
)
    requires
        crate::laws::quality::hears(math),
        a.sound(),
        b.sound(),
        a.value() >= crate::laws::quality::faint(),
        a.value() == b.value(),
        call_ensures(M::loudness, (math, a), loud),
        loud.value() >= crate::laws::quality::faint(),
        crate::io::signal::quality::is_loud_alike(math, a, b, r),
    ensures
        r.value() == 1real,
{
    crate::laws::quality::a_ten_billionth_is_faint();
    crate::laws::opinion::ones();
    let tiny = crate::io::signal::quality::number(TINY_BITS);
    crate::exact::doubles_stand_for_reals(a, tiny);
    crate::exact::doubles_stand_for_reals(b, tiny);
    let (p, q, gap) = choose|p: Double, q: Double, gap: Double|
        {
            &&& call_ensures(M::loudness, (math, a), p)
            &&& call_ensures(M::loudness, (math, b), q)
            &&& #[trigger] crate::io::signal::quality::is_apart(math, p, q, gap)
            &&& crate::io::signal::quality::is_share_left(math, gap, p.greater(q), r)
        };
    let d = choose|d: Double| #[trigger]
        call_ensures(M::difference, (math, p, q), d) && gap == d.absolute();
    crate::exact::doubles_stand_for_reals(d, d);
    let whole = p.greater(q);
    crate::exact::doubles_stand_for_reals(whole, tiny);
    let (share, left) = choose|share: Double, left: Double|
        {
            &&& #[trigger] call_ensures(M::quotient, (math, gap, whole), share)
            &&& #[trigger] call_ensures(
                M::difference,
                (math, crate::io::signal::quality::number(ONE_BITS), share),
                left,
            )
            &&& r == left.greater(crate::io::signal::quality::nought())
        };
    crate::laws::algebra::no_zero_product(share.value(), whole.value());
    crate::exact::doubles_stand_for_reals(left, crate::io::signal::quality::nought());
}

proof fn thirds<M: QualityMath>(math: &M, a: Double, b: Double, c: Double, r: Double)
    requires
        crate::exact::is_exact::<Double, M>(math),
        crate::io::signal::quality::is_third(math, a, b, c, r),
    ensures
        3real * r.value() == a.value() + b.value() + c.value(),
{
    constants();
    let (two, three) = choose|two: Double, three: Double|
        {
            &&& #[trigger] call_ensures(M::sum, (math, a, b), two)
            &&& #[trigger] call_ensures(M::sum, (math, two, c), three)
            &&& call_ensures(
                M::quotient,
                (math, three, crate::io::signal::quality::number(THREE_BITS)),
                r,
            )
        };
    let (x, k) = (r.value(), crate::io::signal::quality::number(THREE_BITS).value());
    assert(x * k == 3real * x) by (nonlinear_arith)
        requires
            k == 3real,
    ;
}

/// A frame that is a true copy of one that is heard is as close to it as can be,
/// and a frame that was lost is not close to it at all.
pub proof fn copies_are_close_and_lost_frames_are_not<M: QualityMath>(
    math: &M,
    a: Seq<Double>,
    b: Seq<Double>,
    level: Double,
    loud: Double,
    r: Double,
)
    requires
        crate::laws::quality::hears(math),
        0 < a.len() <= usize::MAX,
        a.len() == b.len(),
        crate::laws::quality::energy(a) > crate::laws::quality::faint(),
        crate::laws::quality::is_level_of(a, level),
        level.value() >= crate::laws::quality::faint(),
        call_ensures(M::loudness, (math, level), loud),
        loud.value() >= crate::laws::quality::faint(),
        crate::io::signal::quality::is_fidelity(math, a, b, r),
    ensures
        (forall|i: int| 0 <= i < a.len() ==> (#[trigger] b[i]).value() == a[i].value())
            ==> r.value() == 1real,
        crate::laws::quality::energy(b) == 0real ==> r.value() == 0real,
{
    let (together, energy_a, energy_b, level_a, level_b, in_time, in_energy, in_loudness) = choose|
        together: Double,
        energy_a: Double,
        energy_b: Double,
        level_a: Double,
        level_b: Double,
        in_time: Double,
        in_energy: Double,
        in_loudness: Double,
    |
        {
            &&& crate::arith::is_dot(
                math,
                crate::io::signal::quality::nought(),
                a,
                b,
                together,
            )
            &&& crate::io::signal::quality::is_energy(math, a, energy_a)
            &&& crate::io::signal::quality::is_energy(math, b, energy_b)
            &&& crate::io::signal::quality::is_level(math, a, level_a)
            &&& crate::io::signal::quality::is_level(math, b, level_b)
            &&& #[trigger] crate::io::signal::quality::is_temporal(
                math,
                together,
                energy_a,
                energy_b,
                in_time,
            )
            &&& crate::io::signal::quality::is_spectral(math, energy_a, energy_b, in_energy)
            &&& #[trigger] crate::io::signal::quality::is_loud_alike(
                math,
                level_a,
                level_b,
                in_loudness,
            )
            &&& #[trigger] crate::io::signal::quality::is_third(
                math,
                in_time,
                in_energy,
                in_loudness,
                r,
            )
        };
    let n = a.len() as int as real;
    crate::laws::opinion::ones();
    let zero = Double { bits: 0 };
    crate::laws::opinion::energy_is_found(math, a, energy_a);
    crate::laws::opinion::energy_is_found(math, b, energy_b);
    crate::exact::dots_are_sums_of_products(math, zero, a, b, together);
    crate::laws::quality::levels_are_found(math, a, level_a);
    crate::laws::quality::levels_are_found(math, b, level_b);
    crate::laws::algebra::roots_compare(level_a.value(), level.value(), n);
    crate::laws::algebra::roots_compare(level_a.value(), level_b.value(), n);
    crate::laws::algebra::roots_compare(level_b.value(), 0real, n);
    crate::laws::algebra::signs(0real, 0real);
    crate::laws::algebra::signs(n, n);
    thirds(math, in_time, in_energy, in_loudness, r);
    if forall|i: int| 0 <= i < a.len() ==> (#[trigger] b[i]).value() == a[i].value() {
        assert forall|i: int| 0 <= i < a.len() implies #[trigger] b[i].value() * b[i].value()
            == a[i].value() * a[i].value() by {
            assert(b[i].value() == a[i].value());
        }
        assert forall|i: int| 0 <= i < a.len() implies #[trigger] a[i].value() * b[i].value()
            == a[i].value() * a[i].value() by {
            assert(b[i].value() == a[i].value());
        }
        crate::exact::same_values_same_dot(b, b, a, a, a.len() as int);
        crate::exact::same_values_same_dot(a, b, a, a, a.len() as int);
        temporal_of_a_copy(math, together, energy_a, energy_b, in_time);
        spectral_of_a_copy(math, energy_a, energy_b, in_energy);
        loud_again(math, level, level_a, loud);
        copy_is_as_loud(math, level, level_a, level_b, loud, in_loudness);
    }
    if crate::laws::quality::energy(b) == 0real {
        crate::laws::quality::a_ten_billionth_is_faint();
        let tiny = crate::io::signal::quality::number(TINY_BITS);
        crate::exact::doubles_stand_for_reals(tiny, energy_b);
        crate::exact::doubles_stand_for_reals(energy_a, tiny);
        crate::exact::doubles_stand_for_reals(energy_b, tiny);
        crate::exact::doubles_stand_for_reals(level_a, tiny);
        crate::exact::doubles_stand_for_reals(level_b, tiny);
        crate::exact::doubles_stand_for_reals(in_time, in_time);
        crate::exact::doubles_stand_for_reals(in_energy, in_energy);
        crate::exact::doubles_stand_for_reals(in_loudness, in_loudness);
    }
}

proof fn loud_again<M: QualityMath>(math: &M, level: Double, other: Double, loud: Double)
    requires
        crate::laws::quality::hears(math),
        level.value() >= 0real,
        level.value() == other.value(),
        call_ensures(M::loudness, (math, level), loud),
    ensures
        forall|p: Double| #[trigger]
            call_ensures(M::loudness, (math, other), p) ==> p.value() == loud.value() && p.sound(),
{
}

proof fn copy_is_as_loud<M: QualityMath>(
    math: &M,
    level: Double,
    a: Double,
    b: Double,
    loud: Double,
    r: Double,
)
    requires
        crate::laws::quality::hears(math),
        a.sound(),
        b.sound(),
        a.value() == level.value(),
        a.value() == b.value(),
        level.value() >= crate::laws::quality::faint(),
        call_ensures(M::loudness, (math, level), loud),
        loud.value() >= crate::laws::quality::faint(),
        crate::io::signal::quality::is_loud_alike(math, a, b, r),
    ensures
        r.value() == 1real,
{
    crate::laws::quality::a_ten_billionth_is_faint();
    let tiny = crate::io::signal::quality::number(TINY_BITS);
    crate::exact::doubles_stand_for_reals(a, tiny);
    crate::exact::doubles_stand_for_reals(b, tiny);
    let (p, q, gap) = choose|p: Double, q: Double, gap: Double|
        {
            &&& call_ensures(M::loudness, (math, a), p)
            &&& call_ensures(M::loudness, (math, b), q)
            &&& #[trigger] crate::io::signal::quality::is_apart(math, p, q, gap)
            &&& crate::io::signal::quality::is_share_left(math, gap, p.greater(q), r)
        };
    assert(p.value() == loud.value());
    loudness_of_a_copy(math, a, b, p, r);
}

/// A real number, kept between two others.
pub open spec fn kept(x: real, low: real, high: real) -> real {
    if x < low {
        low
    } else if x > high {
        high
    } else {
        x
    }
}

proof fn clamping(x: Double, low: Double, high: Double)
    requires
        x.sound(),
        low.sound(),
        high.sound(),
        low.value() <= high.value(),
    ensures
        x.clamped(low, high).value() == kept(x.value(), low.value(), high.value()),
{
    crate::exact::doubles_stand_for_reals(x, low);
    crate::exact::doubles_stand_for_reals(high, x);
}

/// Intelligibility is the mean of how far the frames move together, between zero
/// and one.
pub proof fn intelligibility_is_a_mean<M: QualityMath>(
    math: &M,
    correlations: Seq<Double>,
    mean: real,
    r: Double,
)
    requires
        crate::exact::is_exact::<Double, M>(math),
        0 < correlations.len() <= usize::MAX,
        crate::laws::opinion::is_mean_of(correlations, mean),
        crate::io::signal::quality::is_intelligibility(math, correlations, r),
    ensures
        r.value() == kept(mean, 0real, 1real),
{
    let x = choose|x: Double| #[trigger]
        crate::arith::is_mean(math, crate::io::signal::quality::nought(), correlations, x) && r
            == x.clamped(
            crate::io::signal::quality::nought(),
            crate::io::signal::quality::number(ONE_BITS),
        );
    crate::laws::opinion::ones();
    crate::exact::means_make_up_the_sum(math, Double { bits: 0 }, correlations, x);
    crate::laws::algebra::cancels(x.value(), mean, correlations.len() as int as real);
    clamping(
        x,
        crate::io::signal::quality::nought(),
        crate::io::signal::quality::number(ONE_BITS),
    );
}

proof fn widening<M: QualityMath>(math: &M, x: Double, r: Double)
    requires
        crate::exact::is_exact::<Double, M>(math),
        crate::io::signal::quality::is_widened(math, x, r),
    ensures
        r.sound(),
        r.value() == 4real * x.value() + 1real,
{
    constants();
    crate::laws::opinion::ones();
    let fourfold = choose|fourfold: Double|
        {
            &&& #[trigger] call_ensures(
                M::product,
                (math, x, crate::io::signal::quality::number(FOUR_BITS)),
                fourfold,
            )
            &&& call_ensures(
                M::sum,
                (math, fourfold, crate::io::signal::quality::number(ONE_BITS)),
                r,
            )
        };
    let (v, k) = (x.value(), crate::io::signal::quality::number(FOUR_BITS).value());
    assert(v * k == 4real * v) by (nonlinear_arith)
        requires
            k == 4real,
    ;
}

/// The listening score is one more than four times the mean of how close the
/// frames are, between one and five.
pub proof fn listening_score_is_a_mean<M: QualityMath>(
    math: &M,
    fidelities: Seq<Double>,
    mean: real,
    r: Double,
)
    requires
        crate::exact::is_exact::<Double, M>(math),
        0 < fidelities.len() <= usize::MAX,
        crate::laws::opinion::is_mean_of(fidelities, mean),
        crate::io::signal::quality::is_listening(math, fidelities, r),
    ensures
        r.value() == kept(4real * mean + 1real, 1real, 5real),
{
    let (average, x) = choose|average: Double, x: Double|
        {
            &&& #[trigger] crate::arith::is_mean(
                math,
                crate::io::signal::quality::nought(),
                fidelities,
                average,
            )
            &&& #[trigger] crate::io::signal::quality::is_widened(math, average, x)
            &&& r == x.clamped(
                crate::io::signal::quality::number(ONE_BITS),
                crate::io::signal::quality::number(FIVE_BITS),
            )
        };
    crate::laws::opinion::ones();
    constants();
    crate::exact::means_make_up_the_sum(math, Double { bits: 0 }, fidelities, average);
    crate::laws::algebra::cancels(average.value(), mean, fidelities.len() as int as real);
    widening(math, average, x);
    clamping(
        x,
        crate::io::signal::quality::number(ONE_BITS),
        crate::io::signal::quality::number(FIVE_BITS),
    );
}

proof fn sharing<M: QualityMath>(math: &M, x: Double, share: u64, r: Double)
    requires
        crate::exact::is_exact::<Double, M>(math),
        crate::io::signal::quality::is_share(math, x, share, r),
    ensures
        r.value() == crate::io::signal::quality::number(share).value() * (4real * x.value()
            + 1real),
{
    let wide = choose|wide: Double| #[trigger]
        crate::io::signal::quality::is_widened(math, x, wide) && call_ensures(
            M::product,
            (math, crate::io::signal::quality::number(share), wide),
            r,
        );
    widening(math, x, wide);
}

/// An opinion is half of the perceived score, and three and two tenths of the
/// ratio and of the intelligibility on the same scale, where the ratio counts
/// from minus 5 to 35 decibels; it lies between one and five.
pub proof fn opinions_weigh_three_measures<M: QualityMath>(
    math: &M,
    snr: Double,
    pesq: Double,
    stoi: Double,
    r: Double,
) -> (shares: (real, real))
    requires
        crate::exact::is_exact::<Double, M>(math),
        crate::io::signal::quality::is_opinion(math, Ok(snr), Ok(pesq), Ok(stoi), Ok(r)),
    ensures
        crate::exact::distance(shares.0, 3real / 10real) < 1real / 1000000000000000real,
        crate::exact::distance(shares.1, 2real / 10real) < 1real / 1000000000000000real,
        r.value() == kept(
            pesq.value() / 2real + shares.0 * (4real * kept(
                (snr.value() + 5real) / 40real,
                0real,
                1real,
            ) + 1real) + shares.1 * (4real * stoi.value() + 1real),
            1real,
            5real,
        ),
{
    let (scaled, first, second, third, two, x) = choose|
        scaled: Double,
        first: Double,
        second: Double,
        third: Double,
        two: Double,
        x: Double,
    |
        {
            &&& crate::io::signal::quality::is_scaled_ratio(math, snr, scaled)
            &&& call_ensures(
                M::product,
                (math, crate::io::signal::quality::number(PERCEIVED_SHARE_BITS), pesq),
                first,
            )
            &&& #[trigger] crate::io::signal::quality::is_share(
                math,
                scaled,
                RATIO_SHARE_BITS,
                second,
            )
            &&& #[trigger] crate::io::signal::quality::is_share(
                math,
                stoi,
                INTELLIGIBILITY_SHARE_BITS,
                third,
            )
            &&& #[trigger] call_ensures(M::sum, (math, first, second), two)
            &&& #[trigger] call_ensures(M::sum, (math, two, third), x)
            &&& r == x.clamped(
                crate::io::signal::quality::number(ONE_BITS),
                crate::io::signal::quality::number(FIVE_BITS),
            )
        };
    crate::laws::opinion::ones();
    constants();
    let (lifted, part) = choose|lifted: Double, part: Double|
        {
            &&& #[trigger] call_ensures(
                M::sum,
                (math, snr, crate::io::signal::quality::number(FIVE_BITS)),
                lifted,
            )
            &&& #[trigger] call_ensures(
                M::quotient,
                (math, lifted, crate::io::signal::quality::number(FORTY_BITS)),
                part,
            )
            &&& scaled == part.clamped(
                crate::io::signal::quality::nought(),
                crate::io::signal::quality::number(ONE_BITS),
            )
        };
    let (v, k) = (part.value(), crate::io::signal::quality::number(FORTY_BITS).value());
    assert(v * k == 40real * v) by (nonlinear_arith)
        requires
            k == 40real,
    ;
    let (h, y) = (
        crate::io::signal::quality::number(PERCEIVED_SHARE_BITS).value(),
        pesq.value(),
    );
    assert(h * y == y / 2real) by (nonlinear_arith)
        requires
            h == 1real / 2real,
    ;
    clamping(
        part,
        crate::io::signal::quality::nought(),
        crate::io::signal::quality::number(ONE_BITS),
    );
    sharing(math, scaled, RATIO_SHARE_BITS, second);
    sharing(math, stoi, INTELLIGIBILITY_SHARE_BITS, third);
    clamping(
        x,
        crate::io::signal::quality::number(ONE_BITS),
        crate::io::signal::quality::number(FIVE_BITS),
    );
    (
        crate::io::signal::quality::number(RATIO_SHARE_BITS).value(),
        crate::io::signal::quality::number(INTELLIGIBILITY_SHARE_BITS).value(),
    )
}

} // verus!
