//! Compression: how near what comes back is to what went in.

use crate::exact::Valued;
use crate::inference::compression::LatticeMath;
use crate::io::compression::{SampleMath, ONE_BITS};
use crate::number::{Single, MINUS_ZERO_BITS};
use vstd::prelude::*;

verus! {

/// Differences that are added up again to the first sample give the signal back.
pub proof fn differences_come_back<M: SampleMath>(
    m: M,
    s: Seq<Single>,
    d: Seq<Single>,
    first: Single,
    back: Seq<Single>,
    i: int,
)
    requires
        crate::exact::is_exact::<Single, M>(&m),
        crate::io::compression::are_deltas(m, s, d),
        crate::io::compression::adds_up(m, first, d, back),
        first.value() == s[0].value(),
        0 <= i < s.len(),
    ensures
        back.len() == s.len(),
        back[i].value() == s[i].value(),
    decreases i,
{
    if i > 0 {
        differences_come_back(m, s, d, first, back, i - 1);
        assert(d[i - 1] == d[i - 1]);
        assert(call_ensures(M::difference, (&m, s[i - 1 + 1], s[i - 1]), d[i - 1]));
        assert(call_ensures(M::sum, (&m, back[i - 1], d[i - 1]), back[i - 1 + 1]));
    }
}

proof fn equal_sums(a: Seq<Single>, b: Seq<Single>, n: int)
    requires
        forall|i: int| 0 <= i < n ==> (#[trigger] a[i]).value() == b[i].value(),
    ensures
        crate::exact::sum_of(a, n) == crate::exact::sum_of(b, n),
    decreases n,
{
    if n > 0 {
        equal_sums(a, b, n - 1);
        assert(a[n - 1].value() == b[n - 1].value());
    }
}

/// The prediction is the mean of the samples before: it is the same for samples
/// of the same worth.
pub proof fn predictions_are_means<M: SampleMath>(
    m: M,
    a: Seq<Single>,
    b: Seq<Single>,
    p: Single,
    q: Single,
)
    requires
        crate::exact::is_exact::<Single, M>(&m),
        0 < a.len() <= usize::MAX,
        a.len() == b.len(),
        forall|i: int| 0 <= i < a.len() ==> (#[trigger] a[i]).value() == b[i].value(),
        crate::io::compression::is_predicted(m, a, p),
        crate::io::compression::is_predicted(m, b, q),
    ensures
        p.value() * (a.len() as int as real) == crate::exact::sum_of(a, a.len() as int),
        p.value() == q.value(),
{
    let plus = Single { bits: 0 };
    let zero = Single { bits: MINUS_ZERO_BITS };
    crate::exact::singles_stand_for_reals(plus, plus);
    assert(plus.negated() == zero);
    crate::exact::means_make_up_the_sum(&m, zero, a, p);
    crate::exact::means_make_up_the_sum(&m, zero, b, q);
    equal_sums(a, b, a.len() as int);
    crate::laws::algebra::cancels(p.value(), q.value(), a.len() as int as real);
}

/// What samples have over their predictions gives the signal back.
pub proof fn residuals_come_back<M: SampleMath>(
    m: M,
    s: Seq<Single>,
    order: int,
    rest: Seq<Single>,
    back: Seq<Single>,
    i: int,
)
    requires
        crate::exact::is_exact::<Single, M>(&m),
        1 <= order <= s.len(),
        order <= usize::MAX,
        crate::io::compression::are_residuals(m, s, order, rest),
        crate::io::compression::restores(m, s.take(order), rest, order, back),
        0 <= i < s.len(),
    ensures
        back.len() == s.len(),
        back[i].value() == s[i].value(),
    decreases i,
{
    if i < order {
        assert(back[i] == back.take(order)[i]);
    } else {
        let j = i - order;
        assert forall|k: int| j <= k < i implies (#[trigger] back[k]).value()
            == s[k].value() by {
            residuals_come_back(m, s, order, rest, back, k);
        }
        assert(rest[j] == rest[j]);
        let (a, b) = (
            crate::io::compression::history_before(back, order + j, order),
            s.subrange(j, j + order),
        );
        let p = choose|p: Single| #[trigger]
            crate::io::compression::is_predicted(m, a, p) && call_ensures(
                M::sum,
                (&m, p, rest[j]),
                back[order + j],
            );
        let q = choose|q: Single| #[trigger]
            crate::io::compression::is_predicted(m, b, q) && call_ensures(
                M::difference,
                (&m, s[order + j], q),
                rest[j],
            );
        assert forall|k: int| 0 <= k < a.len() implies (#[trigger] a[k]).value()
            == b[k].value() by {
            assert(a[k] == back[j + k]);
        }
        predictions_are_means(m, a, b, p, q);
    }
}

/// Whether levels are true: the nearest one to a part of the whole is found, and
/// a level stands for its part.
pub open spec fn levels_exactly<M: SampleMath>(m: M) -> bool {
    &&& crate::exact::is_exact::<Single, M>(&m)
    &&& forall|part: Single, levels: u32, r: u16| #[trigger]
        call_ensures(M::nearest, (&m, part, levels), r) && 0real <= part.value() <= 1real
            ==> crate::exact::distance(
            r as int as real,
            part.value() * (levels as int as real),
        ) <= 1real / 2real
    &&& forall|level: u16, levels: u32, r: Single| #[trigger]
        call_ensures(M::part, (&m, level, levels), r) && levels > 0 ==> r.value() * (levels as int
            as real) == level as int as real
}

proof fn unit()
    ensures
        (Single { bits: ONE_BITS }).sound(),
        (Single { bits: ONE_BITS }).value() == 1real,
        (Single { bits: 0 }).sound(),
        (Single { bits: 0 }).value() == 0real,
{
    vstd::arithmetic::power2::lemma2_to64();
    crate::exact::single_of_parts(Single { bits: ONE_BITS }, 23, 8388608);
    crate::exact::singles_stand_for_reals(Single { bits: 0 }, Single { bits: 0 });
}

/// A sample that is held by its level comes back no farther from where it was
/// than half of the distance between two levels.
pub proof fn levels_lie_near_their_samples<M: SampleMath>(
    m: M,
    sample: Single,
    low: Single,
    range: Single,
    levels: u32,
    level: u16,
    back: Single,
)
    requires
        levels_exactly(m),
        levels > 0,
        range.value() > 0real,
        low.value() <= sample.value(),
        sample.value() <= low.value() + range.value(),
        crate::io::compression::is_level(m, sample, low, range, levels, level),
        crate::io::compression::is_leveled(m, level, low, range, levels, back),
    ensures
        2real * (crate::exact::distance(back.value(), sample.value()) * (levels as int as real))
            <= range.value(),
{
    unit();
    let (gap, part) = choose|gap: Single, part: Single|
        {
            &&& #[trigger] call_ensures(M::difference, (&m, sample, low), gap)
            &&& #[trigger] call_ensures(M::quotient, (&m, gap, range), part)
            &&& call_ensures(
                M::nearest,
                (&m, part.clamped(Single { bits: 0 }, Single { bits: ONE_BITS }), levels),
                level,
            )
        };
    let (share, above) = choose|share: Single, above: Single|
        {
            &&& #[trigger] call_ensures(M::part, (&m, level, levels), share)
            &&& #[trigger] call_ensures(M::product, (&m, share, range), above)
            &&& call_ensures(M::sum, (&m, low, above), back)
        };
    let (p, r, n) = (part.value(), range.value(), levels as int as real);
    if p < 0real {
        crate::laws::algebra::products_grow(p, 0real, r);
        crate::laws::algebra::signs(r, r);
    }
    if p > 1real {
        crate::laws::algebra::products_grow(1real, p, r);
        assert(1real * r == r) by (nonlinear_arith);
    }
    crate::exact::singles_stand_for_reals(part, Single { bits: 0 });
    crate::exact::singles_stand_for_reals(Single { bits: ONE_BITS }, part);
    let c = part.clamped(Single { bits: 0 }, Single { bits: ONE_BITS });
    assert(c == part);
    let (q, l) = (share.value(), level as int as real);
    // The distance is that of the parts, times the range.
    let d = q - p;
    crate::laws::algebra::commutes(d, r);
    crate::laws::algebra::spreads(r, q, p);
    crate::laws::algebra::commutes(r, q);
    crate::laws::algebra::commutes(r, p);
    assert(back.value() - sample.value() == d * r);
    crate::laws::algebra::commutes(d, n);
    crate::laws::algebra::spreads(n, q, p);
    crate::laws::algebra::commutes(n, q);
    crate::laws::algebra::commutes(n, p);
    assert(d * n == l - p * n);
    near_times_range(d, r, n);
}

proof fn near_times_range(d: real, r: real, n: real)
    requires
        r > 0real,
        n > 0real,
        -1real / 2real <= d * n <= 1real / 2real,
    ensures
        2real * (crate::exact::distance(d * r, 0real) * n) <= r,
{
    let x = d * r;
    crate::laws::algebra::regroups(d, r, n);
    crate::laws::algebra::commutes(r, n);
    crate::laws::algebra::regroups(d, n, r);
    assert(x * n == (d * n) * r);
    crate::laws::algebra::signs(x, n);
    let y = d * n;
    assert(y * r <= (1real / 2real) * r) by (nonlinear_arith)
        requires
            y <= 1real / 2real,
            r > 0real,
    ;
    assert(-(1real / 2real) * r <= y * r) by (nonlinear_arith)
        requires
            -1real / 2real <= y,
            r > 0real,
    ;
    assert((1real / 2real) * r == r / 2real) by (nonlinear_arith);
    assert(-(1real / 2real) * r == -(r / 2real)) by (nonlinear_arith);
}

/// Whether a lattice is true: whole numbers are kept as they are, and what is
/// rounded is a whole number no farther than a half away.
pub open spec fn rounds_exactly<M: LatticeMath>(m: M) -> bool {
    &&& crate::exact::is_exact::<Single, M>(&m)
    &&& forall|x: u8, r: Single| #[trigger]
        call_ensures(M::of_byte, (&m, x), r) ==> r.sound() && r.value() == x as int as real
    &&& forall|x: i32, r: Single| #[trigger]
        call_ensures(M::of_int, (&m, x), r) ==> r.sound() && r.value() == x as int as real
    &&& forall|x: Single, r: Single| #[trigger]
        call_ensures(M::round, (&m, x), r) ==> r.sound() && crate::exact::distance(
            r.value(),
            x.value(),
        ) <= 1real / 2real && is_whole(r.value())
    &&& forall|x: Single, r: i32| #[trigger]
        call_ensures(M::to_int, (&m, x), r) && is_whole(x.value()) && -2147483648real <= x.value()
            <= 2147483647real ==> r as int as real == x.value()
    &&& forall|x: Single, r: u8| #[trigger]
        call_ensures(M::to_byte, (&m, x), r) && is_whole(x.value()) && 0real <= x.value()
            <= 255real ==> r as int as real == x.value()
}

/// A whole number as a real number.
pub open spec fn as_real(k: int) -> real {
    k as real
}

/// Whether a real number is whole.
pub open spec fn is_whole(x: real) -> bool {
    exists|k: int| #[trigger] as_real(k) == x
}

/// A value between the lowest and the highest one of a lattice comes back from
/// its level no farther than half of a step from where it was.
pub proof fn lattice_values_lie_near<M: LatticeMath>(
    m: M,
    low: Single,
    high: Single,
    top: u8,
    step: Single,
    zero_point: i32,
    value: Single,
    level: u8,
    back: Single,
)
    requires
        rounds_exactly(m),
        top > 0,
        step.value() > 0real,
        crate::exact::distance(low.value(), 0real) <= 2147483646real * step.value(),
        crate::inference::compression::is_step(m, low, high, top, step),
        crate::inference::compression::is_zero_point(m, low, step, zero_point),
        low.value() <= value.value() <= high.value(),
        crate::inference::compression::is_level(m, value, step, zero_point, top, level),
        crate::inference::compression::is_value(m, level, step, zero_point, back),
    ensures
        step.value() * (top as int as real) == high.value() - low.value(),
        crate::exact::distance(back.value(), value.value()) <= step.value() / 2real,
{
    unit();
    let s = step.value();
    let t = top as int as real;
    let (range, count) = choose|range: Single, count: Single|
        {
            &&& #[trigger] call_ensures(M::difference, (&m, high, low), range)
            &&& #[trigger] call_ensures(M::of_byte, (&m, top), count)
            &&& call_ensures(M::quotient, (&m, range, count), step)
        };
    // The level of zero.
    let (down, round_down) = choose|down: Single, round_down: Single|
        {
            &&& #[trigger] call_ensures(M::quotient, (&m, low.negated(), step), down)
            &&& #[trigger] call_ensures(M::round, (&m, down), round_down)
            &&& call_ensures(M::to_int, (&m, round_down), zero_point)
        };
    crate::exact::singles_stand_for_reals(low, low);
    let l = down.value();
    in_reach(l, s, low.value());
    let z = zero_point as int as real;
    assert(z == round_down.value());
    // The level of the value.
    let (steps, zero, place, whole, most) = choose|
        steps: Single,
        zero: Single,
        place: Single,
        whole: Single,
        most: Single,
    |
        {
            &&& #[trigger] call_ensures(M::quotient, (&m, value, step), steps)
            &&& #[trigger] call_ensures(M::of_int, (&m, zero_point), zero)
            &&& #[trigger] call_ensures(M::sum, (&m, steps, zero), place)
            &&& #[trigger] call_ensures(M::round, (&m, place), whole)
            &&& #[trigger] call_ensures(M::of_byte, (&m, top), most)
            &&& call_ensures(M::to_byte, (&m, whole.clamped(Single { bits: 0 }, most)), level)
        };
    let (v, p) = (steps.value(), place.value());
    // The value lies between as many steps as the lowest and the highest one.
    let u = v + l;
    crate::laws::algebra::commutes(u, s);
    crate::laws::algebra::spreads(s, v, l);
    crate::laws::algebra::commutes(s, v);
    crate::laws::algebra::commutes(s, l);
    assert(u * s == value.value() - low.value());
    if u < 0real {
        crate::laws::algebra::products_grow(u, 0real, s);
        crate::laws::algebra::signs(s, s);
    }
    if u > t {
        crate::laws::algebra::products_grow(t, u, s);
        crate::laws::algebra::commutes(t, s);
    }
    assert(-1real / 2real <= p <= t + 1real / 2real);
    crate::exact::singles_stand_for_reals(whole, Single { bits: 0 });
    crate::exact::singles_stand_for_reals(most, whole);
    let held = whole.clamped(Single { bits: 0 }, most);
    assert(as_real(0) == 0real);
    assert(as_real(top as int) == t);
    assert(is_whole(0real));
    assert(is_whole(t));
    let w = held.value();
    whole_bounds(whole.value(), p, t, top as int);
    assert(crate::exact::distance(w, p) <= 1real / 2real);
    assert(level as int as real == w);
    // What comes back.
    let (at, zero2, far) = choose|at: Single, zero2: Single, far: Single|
        {
            &&& #[trigger] call_ensures(M::of_byte, (&m, level), at)
            &&& #[trigger] call_ensures(M::of_int, (&m, zero_point), zero2)
            &&& #[trigger] call_ensures(M::difference, (&m, at, zero2), far)
            &&& call_ensures(M::product, (&m, far, step), back)
        };
    let f = far.value();
    assert(f - v == w - p);
    let d = f - v;
    crate::laws::algebra::commutes(d, s);
    crate::laws::algebra::spreads(s, f, v);
    crate::laws::algebra::commutes(s, f);
    assert(back.value() - value.value() == d * s);
    half_step(d, s);
}

proof fn half_step(d: real, s: real)
    requires
        s > 0real,
        -1real / 2real <= d <= 1real / 2real,
    ensures
        crate::exact::distance(d * s, 0real) <= s / 2real,
{
    assert(d * s <= s / 2real) by (nonlinear_arith)
        requires
            d <= 1real / 2real,
            s > 0real,
    ;
    assert(-(s / 2real) <= d * s) by (nonlinear_arith)
        requires
            -1real / 2real <= d,
            s > 0real,
    ;
}

proof fn whole_bounds(w: real, p: real, t: real, top: int)
    requires
        is_whole(w),
        t == top as real,
        crate::exact::distance(w, p) <= 1real / 2real,
        -1real / 2real <= p <= t + 1real / 2real,
    ensures
        w < 0real ==> crate::exact::distance(0real, p) <= 1real / 2real,
        w > t ==> crate::exact::distance(t, p) <= 1real / 2real,
{
    let k = choose|k: int| #[trigger] as_real(k) == w;
    if w < 0real {
        assert(k <= -1);
    }
    if w > t {
        assert(k >= top + 1);
    }
}

proof fn in_reach(l: real, s: real, low: real)
    requires
        s > 0real,
        l * s == -low,
        crate::exact::distance(low, 0real) <= 2147483646real * s,
    ensures
        -2147483646real <= l <= 2147483646real,
{
    if l > 2147483646real {
        crate::laws::algebra::products_grow(2147483646real, l, s);
    }
    if l < -2147483646real {
        crate::laws::algebra::products_grow(l, -2147483646real, s);
    }
}

} // verus!
