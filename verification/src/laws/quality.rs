//! Scores of quality: what they tell of both signals.

use crate::exact::Valued;
use crate::io::signal::quality::{
    Measure, QualityMath, FOUR_AND_HALF_BITS, ONE_BITS, THREE_AND_HALF_BITS, TINY_BITS,
};
use crate::number::Double;
use vstd::prelude::*;

verus! {

/// The sum of the squares of a signal.
pub open spec fn energy(s: Seq<Double>) -> real {
    crate::exact::dot_of(s, s, s.len() as int)
}

/// Whether loudness is true to levels: silence has none, a higher level is
/// louder, and the same level is as loud each time.
pub open spec fn hears<M: QualityMath>(math: &M) -> bool {
    &&& crate::exact::is_exact::<Double, M>(math)
    &&& forall|x: Double, r: Double| #[trigger]
        call_ensures(M::loudness, (math, x), r) && x.value() >= 0real ==> {
            &&& r.sound()
            &&& r.value() >= 0real
            &&& x.value() == 0real ==> r.value() == 0real
        }
    &&& forall|x: Double, y: Double, r: Double, s: Double| #[trigger]
        call_ensures(M::loudness, (math, x), r) && #[trigger] call_ensures(
            M::loudness,
            (math, y),
            s,
        ) && x.value() >= 0real ==> {
            &&& x.value() < y.value() ==> r.value() < s.value()
            &&& x.value() == y.value() ==> r.value() == s.value()
        }
}

/// Whether a number is the level of a signal: the root of its mean square.
pub open spec fn is_level_of(s: Seq<Double>, x: Double) -> bool {
    x.value() >= 0real && (x.value() * x.value()) * (s.len() as int as real) == energy(s)
}

/// The level that is found is the root of the mean square.
pub proof fn levels_are_found<M: QualityMath>(math: &M, s: Seq<Double>, x: Double)
    requires
        crate::exact::is_exact::<Double, M>(math),
        0 < s.len() <= usize::MAX,
        crate::io::signal::quality::is_level(math, s, x),
    ensures
        x.sound(),
        is_level_of(s, x),
{
    let zero = Double { bits: 0 };
    crate::exact::doubles_stand_for_reals(zero, zero);
    crate::exact::root_mean_squares_make_up_the_energy(math, zero, s, x);
}

/// The distortion of a frame is the distance between the loudness of its level
/// in the reference and that of its level in the other signal.
pub proof fn distortion_is_the_distance_in_loudness<M: QualityMath>(
    math: &M,
    a: Seq<Double>,
    b: Seq<Double>,
    level_a: Double,
    level_b: Double,
    loud_a: Double,
    loud_b: Double,
    r: Double,
)
    requires
        hears(math),
        0 < a.len() <= usize::MAX,
        0 < b.len() <= usize::MAX,
        is_level_of(a, level_a),
        is_level_of(b, level_b),
        call_ensures(M::loudness, (math, level_a), loud_a),
        call_ensures(M::loudness, (math, level_b), loud_b),
        crate::io::signal::quality::is_distortion(math, a, b, r),
    ensures
        r.sound(),
        r.value() == crate::exact::distance(loud_a.value(), loud_b.value()),
        energy(b) == 0real ==> r.value() == loud_a.value(),
        energy(a) == 0real ==> r.value() == loud_b.value(),
{
    let (x, y, p, q) = distortion_parts(math, a, b, r);
    let (n, m) = (a.len() as int as real, b.len() as int as real);
    crate::laws::algebra::roots_compare(x.value(), level_a.value(), n);
    crate::laws::algebra::roots_compare(y.value(), level_b.value(), m);
    crate::laws::algebra::roots_compare(level_a.value(), 0real, n);
    crate::laws::algebra::roots_compare(level_b.value(), 0real, m);
    crate::laws::algebra::signs(0real, 0real);
    crate::laws::algebra::signs(n, m);
    crate::laws::algebra::signs(m, n);
    assert(p.value() == loud_a.value());
    assert(q.value() == loud_b.value());
}

proof fn distortion_parts<M: QualityMath>(
    math: &M,
    a: Seq<Double>,
    b: Seq<Double>,
    r: Double,
) -> (w: (Double, Double, Double, Double))
    requires
        hears(math),
        0 < a.len() <= usize::MAX,
        0 < b.len() <= usize::MAX,
        crate::io::signal::quality::is_distortion(math, a, b, r),
    ensures
        is_level_of(a, w.0),
        is_level_of(b, w.1),
        call_ensures(M::loudness, (math, w.0), w.2),
        call_ensures(M::loudness, (math, w.1), w.3),
        r.sound(),
        r.value() == crate::exact::distance(w.2.value(), w.3.value()),
{
    let (p, q) = choose|p: Double, q: Double|
        {
            &&& crate::io::signal::quality::is_loudness(math, a, p)
            &&& crate::io::signal::quality::is_loudness(math, b, q)
            &&& #[trigger] crate::io::signal::quality::is_apart(math, p, q, r)
        };
    let x = choose|x: Double| #[trigger]
        crate::io::signal::quality::is_level(math, a, x) && call_ensures(
            M::loudness,
            (math, x),
            p,
        );
    let y = choose|y: Double| #[trigger]
        crate::io::signal::quality::is_level(math, b, y) && call_ensures(
            M::loudness,
            (math, y),
            q,
        );
    levels_are_found(math, a, x);
    levels_are_found(math, b, y);
    let gap = choose|gap: Double| #[trigger]
        call_ensures(M::difference, (math, p, q), gap) && r == gap.absolute();
    crate::exact::doubles_stand_for_reals(gap, gap);
    (x, y, p, q)
}

/// A frame has no distortion exactly where it has the energy of the reference,
/// and less than none it never has.
pub proof fn distortion_tells_energies_apart<M: QualityMath>(
    math: &M,
    a: Seq<Double>,
    b: Seq<Double>,
    r: Double,
)
    requires
        hears(math),
        0 < a.len() <= usize::MAX,
        a.len() == b.len(),
        crate::io::signal::quality::is_distortion(math, a, b, r),
    ensures
        r.sound(),
        r.value() >= 0real,
        r.value() == 0real <==> energy(a) == energy(b),
{
    let (x, y, p, q) = distortion_parts(math, a, b, r);
    crate::laws::algebra::roots_compare(x.value(), y.value(), a.len() as int as real);
    assert(x.value() < y.value() ==> p.value() < q.value());
    assert(y.value() < x.value() ==> q.value() < p.value());
}

proof fn bounds_of_scores()
    ensures
        crate::io::signal::quality::number(ONE_BITS).sound(),
        crate::io::signal::quality::number(ONE_BITS).value() == 1real,
        crate::io::signal::quality::number(THREE_AND_HALF_BITS).sound(),
        crate::io::signal::quality::number(THREE_AND_HALF_BITS).value() == 7real / 2real,
        crate::io::signal::quality::number(FOUR_AND_HALF_BITS).sound(),
        crate::io::signal::quality::number(FOUR_AND_HALF_BITS).value() == 9real / 2real,
{
    vstd::arithmetic::power2::lemma2_to64();
    vstd::arithmetic::power2::lemma2_to64_rest();
    crate::exact::double_of_parts(
        crate::io::signal::quality::number(ONE_BITS),
        52,
        4503599627370496,
    );
    crate::exact::double_of_parts(
        crate::io::signal::quality::number(THREE_AND_HALF_BITS),
        51,
        2251799813685248,
    );
    crate::exact::double_of_parts(
        crate::io::signal::quality::number(FOUR_AND_HALF_BITS),
        50,
        1125899906842624,
    );
}

/// What a mean distortion costs: three and a half times as much, and no more
/// than three and a half.
pub open spec fn cost(average: real) -> real {
    if average * (7real / 2real) > 7real / 2real {
        7real / 2real
    } else {
        average * (7real / 2real)
    }
}

/// The perceived score is four and a half less what the mean of the distortions
/// costs.
pub proof fn score_falls_with_the_mean_distortion<M: QualityMath>(
    math: &M,
    distortions: Seq<Double>,
    r: Double,
) -> (average: real)
    requires
        crate::exact::is_exact::<Double, M>(math),
        0 < distortions.len() <= usize::MAX,
        forall|k: int| 0 <= k < distortions.len() ==> (#[trigger] distortions[k]).value() >= 0real,
        crate::io::signal::quality::is_perceived(math, distortions, r),
    ensures
        average >= 0real,
        average * (distortions.len() as int as real) == crate::exact::sum_of(
            distortions,
            distortions.len() as int,
        ),
        r.value() == 9real / 2real - cost(average),
{
    let (average, loss, x) = choose|average: Double, loss: Double, x: Double|
        {
            &&& crate::arith::is_mean(
                math,
                crate::io::signal::quality::nought(),
                distortions,
                average,
            )
            &&& #[trigger] call_ensures(
                M::product,
                (math, average, crate::io::signal::quality::number(THREE_AND_HALF_BITS)),
                loss,
            )
            &&& #[trigger] call_ensures(
                M::difference,
                (
                    math,
                    crate::io::signal::quality::number(FOUR_AND_HALF_BITS),
                    loss.lesser(crate::io::signal::quality::number(THREE_AND_HALF_BITS)),
                ),
                x,
            )
            &&& r == x.clamped(
                crate::io::signal::quality::number(ONE_BITS),
                crate::io::signal::quality::number(FOUR_AND_HALF_BITS),
            )
        };
    let zero = Double { bits: 0 };
    crate::exact::doubles_stand_for_reals(zero, zero);
    crate::exact::means_make_up_the_sum(math, zero, distortions, average);
    sums_are_not_negative(distortions, distortions.len() as int);
    let (a, n) = (average.value(), distortions.len() as int as real);
    if a < 0real {
        crate::laws::algebra::products_grow(a, 0real, n);
        crate::laws::algebra::signs(n, n);
    }
    bounds_of_scores();
    crate::exact::doubles_stand_for_reals(
        crate::io::signal::quality::number(THREE_AND_HALF_BITS),
        loss,
    );
    crate::exact::doubles_stand_for_reals(x, crate::io::signal::quality::number(ONE_BITS));
    crate::exact::doubles_stand_for_reals(
        crate::io::signal::quality::number(FOUR_AND_HALF_BITS),
        x,
    );
    let c = crate::io::signal::quality::number(THREE_AND_HALF_BITS).value();
    assert(a * c == a * (7real / 2real)) by (nonlinear_arith)
        requires
            c == 7real / 2real,
    ;
    let most = crate::io::signal::quality::number(THREE_AND_HALF_BITS);
    assert(loss.value() == a * (7real / 2real));
    assert(loss.lesser(most).value() == cost(a));
    assert(x.value() == 9real / 2real - cost(a));
    assert(a * (7real / 2real) >= 0real) by (nonlinear_arith)
        requires
            a >= 0real,
    ;
    a
}

proof fn sums_are_not_negative(s: Seq<Double>, n: int)
    requires
        n <= s.len(),
        forall|k: int| 0 <= k < s.len() ==> (#[trigger] s[k]).value() >= 0real,
    ensures
        crate::exact::sum_of(s, n) >= 0real,
        crate::exact::sum_of(s, n) == 0real <==> forall|k: int|
            0 <= k < n ==> (#[trigger] s[k]).value() == 0real,
    decreases n,
{
    if n > 0 {
        sums_are_not_negative(s, n - 1);
        assert(s[n - 1].value() >= 0real);
        if crate::exact::sum_of(s, n) == 0real {
            assert forall|k: int| 0 <= k < n implies (#[trigger] s[k]).value() == 0real by {
                if k < n - 1 {
                    assert(crate::exact::sum_of(s, n - 1) == 0real);
                }
            }
        }
    }
}

/// The level below which a signal is not heard.
pub open spec fn faint() -> real {
    crate::io::signal::quality::number(TINY_BITS).value()
}

/// A ten billionth is the level below which a signal is not heard.
pub proof fn a_ten_billionth_is_faint()
    ensures
        crate::io::signal::quality::number(TINY_BITS).sound(),
        999999999999real < faint() * 10000000000000000000000real,
        faint() * 10000000000000000000000real < 1000000000001real,
{
    vstd::arithmetic::power2::lemma2_to64();
    vstd::arithmetic::power2::lemma2_to64_rest();
    vstd::arithmetic::power2::lemma_pow2_adds(64, 22);
    assert(18446744073709551616int * 4194304int == 77371252455336267181195264int);
    crate::exact::double_of_parts(
        crate::io::signal::quality::number(TINY_BITS),
        86,
        77371252455336267181195264,
    );
}

/// Whether a signal times a gain has the energy of its reference. One that is
/// not heard stays as it is.
pub open spec fn is_gain(reference: Seq<Double>, degraded: Seq<Double>, gain: real) -> bool {
    if energy(degraded) < (faint() * faint()) * (degraded.len() as int as real) {
        gain == 1real
    } else {
        gain >= 0real && (gain * gain) * energy(degraded) == energy(reference)
    }
}

proof fn scaled_energy(s: Seq<Double>, r: Seq<Double>, gain: real, n: int)
    requires
        forall|i: int| 0 <= i < n ==> (#[trigger] r[i]).value() == s[i].value() * gain,
    ensures
        crate::exact::dot_of(r, r, n) == (gain * gain) * crate::exact::dot_of(s, s, n),
    decreases n,
{
    if n > 0 {
        scaled_energy(s, r, gain, n - 1);
        let (x, e) = (s[n - 1].value(), crate::exact::dot_of(s, s, n - 1));
        assert(r[n - 1].value() == x * gain);
        crate::laws::algebra::squared_product(x, gain);
        crate::laws::algebra::spreads(gain * gain, e, x * x);
    } else {
        crate::laws::algebra::signs(gain * gain, 0real);
    }
}

proof fn alignment_is_a_gain<M: QualityMath>(
    math: &M,
    reference: Seq<Double>,
    degraded: Seq<Double>,
    level: Seq<Double>,
) -> (gain: real)
    requires
        crate::exact::is_exact::<Double, M>(math),
        0 < reference.len() <= usize::MAX,
        reference.len() == degraded.len(),
        crate::io::signal::quality::is_aligned(math, reference, degraded, level),
    ensures
        is_gain(reference, degraded, gain),
        level.len() == degraded.len(),
        forall|i: int|
            0 <= i < level.len() ==> (#[trigger] level[i]).value() == degraded[i].value() * gain,
{
    let (wanted, own) = choose|wanted: Double, own: Double|
        {
            &&& crate::io::signal::quality::is_level(math, reference, wanted)
            &&& crate::io::signal::quality::is_level(math, degraded, own)
            &&& #[trigger] crate::io::signal::quality::is_brought(
                math,
                degraded,
                wanted,
                own,
                level,
            )
        };
    levels_are_found(math, reference, wanted);
    levels_are_found(math, degraded, own);
    a_ten_billionth_is_faint();
    let n = degraded.len() as int as real;
    crate::exact::doubles_stand_for_reals(own, crate::io::signal::quality::number(TINY_BITS));
    crate::laws::algebra::roots_compare(own.value(), faint(), n);
    if own.value() < faint() {
        1real
    } else {
        let gain = choose|gain: Double| #[trigger]
            call_ensures(M::quotient, (math, wanted, own), gain) && crate::arith::are_scaled(
                math,
                degraded,
                gain,
                level,
            );
        let (g, o, w) = (gain.value(), own.value(), wanted.value());
        if g < 0real {
            crate::laws::algebra::products_grow(g, 0real, o);
            crate::laws::algebra::signs(o, o);
        }
        crate::laws::algebra::squared_product(o, g);
        crate::laws::algebra::commutes(g, o);
        crate::laws::algebra::regroups(g * g, o * o, n);
        assert(w * w == (g * g) * (o * o));
        assert forall|i: int| 0 <= i < level.len() implies (#[trigger] level[i]).value()
            == degraded[i].value() * g by {
            assert(call_ensures(M::product, (math, degraded[i], gain), level[i]));
        }
        g
    }
}

proof fn frames_are_whole(n: int, size: int, k: int)
    requires
        0 < size,
        0 <= n,
        0 <= k < n / size,
    ensures
        0 <= k * size,
        k * size + size <= n,
{
    vstd::arithmetic::div_mod::lemma_fundamental_div_mod(n, size);
    assert(0 <= k * size) by (nonlinear_arith)
        requires
            0 <= k,
            0 < size,
    ;
    assert(k * size + size <= size * (n / size)) by (nonlinear_arith)
        requires
            k + 1 <= n / size,
            0 < size,
    ;
}

/// Whether every frame of a signal, times a gain, has the energy of the frame of
/// the reference.
pub open spec fn frames_match(
    reference: Seq<Double>,
    degraded: Seq<Double>,
    size: int,
    gain: real,
) -> bool {
    forall|k: int|
        0 <= k < reference.len() as int / size ==> (gain * gain) * energy(
            #[trigger] degraded.subrange(k * size, k * size + size),
        ) == energy(reference.subrange(k * size, k * size + size))
}

/// The perceived score rests on both signals: it is the best one exactly where
/// every frame of the degraded signal, brought to the level of the reference,
/// has the energy of the same frame of the reference; else it is below.
pub proof fn only_equal_energies_have_the_best_score<M: QualityMath>(
    math: &M,
    reference: Seq<Double>,
    degraded: Seq<Double>,
    size: int,
    x: Double,
)
    requires
        hears(math),
        0 < size,
        0 < reference.len() as int / size,
        reference.len() == degraded.len(),
        reference.len() <= usize::MAX,
        crate::io::signal::quality::gives_pesq(math, reference, degraded, size, Ok(x)),
    ensures
        x.value() <= 9real / 2real,
        exists|gain: real|
            {
                &&& #[trigger] is_gain(reference, degraded, gain)
                &&& x.value() == 9real / 2real <==> frames_match(reference, degraded, size, gain)
            },
{
    let level = choose|level: Seq<Double>|
        {
            &&& #[trigger] crate::io::signal::quality::is_aligned(math, reference, degraded, level)
            &&& crate::io::signal::quality::is_scored(math, reference, level, size, x)
        };
    vstd::arithmetic::div_mod::lemma_fundamental_div_mod(reference.len() as int, size);
    frames_are_whole(reference.len() as int, size, 0);
    assert(reference.len() >= size);
    let gain = alignment_is_a_gain(math, reference, degraded, level);
    let held = choose|held: Seq<Double>|
        {
            &&& crate::io::signal::quality::are_measures(
                math,
                Measure::Distortion,
                reference,
                level,
                size,
                held,
            )
            &&& #[trigger] crate::io::signal::quality::is_perceived(math, held, x)
        };
    let frames = reference.len() as int / size;
    assert(frames <= reference.len()) by {
        vstd::arithmetic::div_mod::lemma_div_is_ordered_by_denominator(
            reference.len() as int,
            1,
            size,
        );
        vstd::arithmetic::div_mod::lemma_div_basics(reference.len() as int);
    }
    assert forall|k: int| 0 <= k < frames implies (#[trigger] held[k]).value() >= 0real && (
    held[k].value() == 0real <==> (gain * gain) * energy(
        degraded.subrange(k * size, k * size + size),
    ) == energy(reference.subrange(k * size, k * size + size))) by {
        frame_by_frame(math, reference, degraded, level, size, gain, k, held[k]);
    }
    let average = score_falls_with_the_mean_distortion(math, held, x);
    sums_are_not_negative(held, frames);
    let n = frames as real;
    if average > 0real {
        crate::laws::algebra::products_grow(0real, average, n);
    }
    crate::laws::algebra::signs(n, n);
    assert(x.value() == 9real / 2real <==> average == 0real);
    assert(average == 0real <==> crate::exact::sum_of(held, frames) == 0real);
    if x.value() == 9real / 2real {
        assert forall|k: int| 0 <= k < frames implies (gain * gain) * energy(
            #[trigger] degraded.subrange(k * size, k * size + size),
        ) == energy(reference.subrange(k * size, k * size + size)) by {
            assert(held[k].value() == 0real);
        }
    }
    if frames_match(reference, degraded, size, gain) {
        assert forall|k: int| 0 <= k < frames implies (#[trigger] held[k]).value() == 0real by {
            assert((gain * gain) * energy(degraded.subrange(k * size, k * size + size)) == energy(
                reference.subrange(k * size, k * size + size),
            ));
        }
    }
    assert(is_gain(reference, degraded, gain));
}

proof fn frame_by_frame<M: QualityMath>(
    math: &M,
    reference: Seq<Double>,
    degraded: Seq<Double>,
    level: Seq<Double>,
    size: int,
    gain: real,
    k: int,
    r: Double,
)
    requires
        hears(math),
        0 < size,
        0 <= k < reference.len() as int / size,
        reference.len() == degraded.len(),
        reference.len() == level.len(),
        reference.len() <= usize::MAX,
        forall|i: int|
            0 <= i < level.len() ==> (#[trigger] level[i]).value() == degraded[i].value() * gain,
        crate::io::signal::quality::is_measure_at(
            math,
            Measure::Distortion,
            reference,
            level,
            size,
            k,
            r,
        ),
    ensures
        r.value() >= 0real,
        r.value() == 0real <==> (gain * gain) * energy(
            degraded.subrange(k * size, k * size + size),
        ) == energy(reference.subrange(k * size, k * size + size)),
{
    frames_are_whole(reference.len() as int, size, k);
    let (a, b, c) = (
        reference.subrange(k * size, k * size + size),
        level.subrange(k * size, k * size + size),
        degraded.subrange(k * size, k * size + size),
    );
    distortion_tells_energies_apart(math, a, b, r);
    assert forall|i: int| 0 <= i < size implies (#[trigger] b[i]).value() == c[i].value()
        * gain by {
        assert(b[i] == level[k * size + i]);
    }
    scaled_energy(c, b, gain, size);
}

} // verus!
