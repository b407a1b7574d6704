//! Ratios of signal to noise by segments, and bounds of samples.

use crate::exact::Valued;
use crate::io::signal::quality::{QualityMath, MINUS_TEN_BITS, THIRTY_FIVE_BITS};
use crate::number::{Double, Single};
use vstd::prelude::*;

verus! {

proof fn bounds_of_segments()
    ensures
        crate::io::signal::quality::number(MINUS_TEN_BITS).value() == -10real,
        crate::io::signal::quality::number(MINUS_TEN_BITS).sound(),
        crate::io::signal::quality::number(THIRTY_FIVE_BITS).value() == 35real,
        crate::io::signal::quality::number(THIRTY_FIVE_BITS).sound(),
{
    let ten = Double { bits: 0x4024_0000_0000_0000 };
    let low = crate::io::signal::quality::number(MINUS_TEN_BITS);
    let high = crate::io::signal::quality::number(THIRTY_FIVE_BITS);
    vstd::arithmetic::power2::lemma2_to64();
    vstd::arithmetic::power2::lemma2_to64_rest();
    crate::exact::double_of_parts(ten, 49, 0x0002_0000_0000_0000);
    crate::exact::double_of_parts(high, 47, 0x0000_8000_0000_0000);
    assert(ten.value() * 562949953421312real == 5629499534213120real);
    assert(high.value() * 140737488355328real == 4925812092436480real);
    let zero = Double { bits: 0 };
    crate::exact::doubles_stand_for_reals(low, zero);
    crate::exact::doubles_stand_for_reals(zero, zero);
    assert(low.absolute() == ten);
    assert(low.below(zero));
}

/// Where a segment counts, its ratio is the one of the energies in decibels,
/// brought between -10 and 35.
pub proof fn segments_are_bounded<M: QualityMath>(
    math: &M,
    signal: Double,
    noise: Double,
    db: Double,
    r: Option<Double>,
)
    requires
        crate::io::signal::quality::is_segment(math, signal, noise, r),
        forall|x: Double| #[trigger]
            crate::io::signal::quality::is_decibels(math, signal, noise, x) ==> x.sound()
                && x.value() == db.value(),
    ensures
        r matches Some(x) ==> -10real <= x.value() <= 35real,
        r matches Some(x) ==> -10real <= db.value() <= 35real ==> x.value() == db.value(),
        r matches Some(x) ==> db.value() <= -10real ==> x.value() == -10real,
        r matches Some(x) ==> db.value() >= 35real ==> x.value() == 35real,
{
    bounds_of_segments();
    if r is Some {
        let low = crate::io::signal::quality::number(MINUS_TEN_BITS);
        let high = crate::io::signal::quality::number(THIRTY_FIVE_BITS);
        let x = choose|x: Double| #[trigger]
            crate::io::signal::quality::is_decibels(math, signal, noise, x) && r == Some(
                x.clamped(low, high),
            );
        crate::exact::doubles_stand_for_reals(x, low);
        crate::exact::doubles_stand_for_reals(high, x);
    }
}

proof fn bounded_sums(s: Seq<Double>, low: real, high: real, n: int)
    requires
        0 <= n <= s.len(),
        forall|i: int| 0 <= i < s.len() ==> low <= (#[trigger] s[i]).value() <= high,
    ensures
        low * (n as real) <= crate::exact::sum_of(s, n) <= high * (n as real),
    decreases n,
{
    let k = n as real;
    if n > 0 {
        bounded_sums(s, low, high, n - 1);
        assert(low <= s[n - 1].value() <= high);
        let before = (n - 1) as real;
        assert(k == before + 1real);
        crate::laws::algebra::spreads(low, before, 1real);
        crate::laws::algebra::spreads(high, before, 1real);
        assert(low * 1real == low) by (nonlinear_arith);
        assert(high * 1real == high) by (nonlinear_arith);
    } else {
        crate::laws::algebra::signs(low, low);
        crate::laws::algebra::signs(high, high);
    }
}

proof fn present_are_among(values: Seq<Option<Double>>, i: int)
    requires
        0 <= i < crate::io::signal::quality::present(values).len(),
    ensures
        exists|k: int|
            0 <= k < values.len() && #[trigger] values[k]
                == Some(crate::io::signal::quality::present(values)[i]),
    decreases values.len(),
{
    let n = values.len() as int;
    let before = values.drop_last();
    assert(values[n - 1] == values.last());
    if i < crate::io::signal::quality::present(before).len() {
        present_are_among(before, i);
        let k = choose|k: int|
            0 <= k < before.len() && #[trigger] before[k]
                == Some(crate::io::signal::quality::present(before)[i]);
        assert(values[k] == before[k]);
    }
}

/// The mean over segments makes up the sum of those that count, and lies between
/// their bounds; segments that do not count change nothing.
pub proof fn segmental_ratios_are_means<M: QualityMath>(
    math: &M,
    ratios: Seq<Option<Double>>,
    low: real,
    high: real,
    r: Double,
)
    requires
        crate::exact::is_exact::<Double, M>(math),
        0 < crate::io::signal::quality::present(ratios).len() <= usize::MAX,
        crate::io::signal::quality::is_segment_mean(math, ratios, r),
        forall|k: int|
            0 <= k < ratios.len() ==> ((#[trigger] ratios[k]) matches Some(x) ==> low <= x.value()
                <= high),
    ensures
        r.value() * (crate::io::signal::quality::present(ratios).len() as int as real)
            == crate::exact::sum_of(
            crate::io::signal::quality::present(ratios),
            crate::io::signal::quality::present(ratios).len() as int,
        ),
        low <= r.value() <= high,
        crate::io::signal::quality::present(ratios.push(None))
            == crate::io::signal::quality::present(ratios),
{
    let s = crate::io::signal::quality::present(ratios);
    let n = s.len() as int;
    let zero = crate::io::signal::quality::nought();
    crate::exact::doubles_stand_for_reals(zero, zero);
    crate::exact::means_make_up_the_sum(math, zero, s, r);
    assert forall|i: int| 0 <= i < s.len() implies low <= (#[trigger] s[i]).value() <= high by {
        present_are_among(ratios, i);
    }
    bounded_sums(s, low, high, n);
    let (x, k) = (r.value(), n as real);
    assert(low <= x) by (nonlinear_arith)
        requires
            low * k <= x * k,
            k > 0real,
    ;
    assert(x <= high) by (nonlinear_arith)
        requires
            x * k <= high * k,
            k > 0real,
    ;
    assert(ratios.push(None).drop_last() =~= ratios);
}

/// A sample that is written to a file is kept between -1 and 1, and within them
/// it is kept as it is.
pub proof fn samples_are_held_between_one(x: Single)
    requires
        x.sound(),
    ensures
        ({
            let r = crate::io::file::held_in(x).value();
            &&& x.value() < -1real ==> r == -1real
            &&& x.value() > 1real ==> r == 1real
            &&& -1real <= x.value() <= 1real ==> crate::io::file::held_in(x) == x
        }),
{
    let one = Single { bits: 0x3f80_0000 };
    let minus = Single { bits: 0xbf80_0000 };
    vstd::arithmetic::power2::lemma2_to64();
    crate::exact::single_of_parts(one, 23, 8388608);
    assert(one.value() * 8388608real == 8388608real);
    crate::exact::singles_stand_for_reals(one, x);
    assert(one.negated() == minus);
    crate::exact::singles_stand_for_reals(x, minus);
}

/// The larger of two values is one of them and not less than the other.
pub proof fn the_larger_is_kept(a: Double, b: Double)
    requires
        a.sound(),
        b.sound(),
    ensures
        ({
            let r = crate::inference::precision::larger(a, b);
            &&& r == a || r == b
            &&& r.value() >= a.value()
            &&& r.value() >= b.value()
        }),
{
    crate::exact::doubles_stand_for_reals(a, b);
    crate::exact::doubles_stand_for_reals(a, a);
    assert(a.same_value(a));
}

} // verus!
