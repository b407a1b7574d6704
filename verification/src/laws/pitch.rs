//! The scale of pitch and the filters on it.

use crate::exact::Valued;
use crate::io::signal::features::{FeatureMath, MEL_CORNER_BITS, MEL_SCALE_BITS, ONE_BITS};
use crate::number::Single;
use vstd::prelude::*;

verus! {

/// Whether common logarithms are true: the same number has the same each time, a
/// greater number has a greater one, and ten to the power of it is the number.
pub open spec fn tens_undo_logs<M: FeatureMath>(math: &M) -> bool {
    &&& forall|x: Single, y: Single, l: Single, k: Single| #[trigger]
        call_ensures(M::log10, (math, x), l) && #[trigger] call_ensures(M::log10, (math, y), k)
            && x.value() > 0real ==> {
            &&& x.value() < y.value() ==> l.value() < k.value()
            &&& x.value() == y.value() ==> l.value() == k.value()
        }
    &&& forall|x: Single, l: Single, e: Single, p: Single| #[trigger]
        call_ensures(M::log10, (math, x), l) && #[trigger] call_ensures(
            M::power_of_ten,
            (math, e),
            p,
        ) && x.value() > 0real && e.value() == l.value() ==> p.value() == x.value()
}

proof fn constants()
    ensures
        crate::io::signal::features::number(MEL_SCALE_BITS).value() == 2595real,
        crate::io::signal::features::number(MEL_CORNER_BITS).value() == 700real,
        crate::io::signal::features::number(ONE_BITS).value() == 1real,
{
    vstd::arithmetic::power2::lemma2_to64();
    crate::exact::single_of_parts(crate::io::signal::features::number(MEL_SCALE_BITS), 12, 4096);
    crate::exact::single_of_parts(crate::io::signal::features::number(MEL_CORNER_BITS), 14, 16384);
    crate::exact::single_of_parts(crate::io::signal::features::number(ONE_BITS), 23, 8388608);
}

proof fn pitch_parts<M: FeatureMath>(math: &M, hz: Single, r: Single) -> (w: (Single, Single))
    requires
        crate::exact::is_exact::<Single, M>(math),
        crate::io::signal::features::is_mel(math, hz, r),
    ensures
        700real * w.0.value() == 700real + hz.value(),
        call_ensures(M::log10, (math, w.0), w.1),
        r.value() == 2595real * w.1.value(),
{
    let (part, whole, log) = choose|part: Single, whole: Single, log: Single|
        {
            &&& #[trigger] call_ensures(
                M::quotient,
                (math, hz, crate::io::signal::features::number(MEL_CORNER_BITS)),
                part,
            )
            &&& #[trigger] call_ensures(
                M::sum,
                (math, crate::io::signal::features::number(ONE_BITS), part),
                whole,
            )
            &&& #[trigger] call_ensures(M::log10, (math, whole), log)
            &&& call_ensures(
                M::product,
                (math, crate::io::signal::features::number(MEL_SCALE_BITS), log),
                r,
            )
        };
    constants();
    let (v, k) = (part.value(), crate::io::signal::features::number(MEL_CORNER_BITS).value());
    assert(v * k == 700real * v) by (nonlinear_arith)
        requires
            k == 700real,
    ;
    let (l, s) = (log.value(), crate::io::signal::features::number(MEL_SCALE_BITS).value());
    assert(s * l == 2595real * l) by (nonlinear_arith)
        requires
            s == 2595real,
    ;
    (whole, log)
}

/// A frequency on the scale of pitch is 2595 times the logarithm of one and a
/// 700th of it, and a higher frequency has a higher pitch.
pub proof fn pitch_grows_with_frequency<M: FeatureMath>(
    math: &M,
    low: Single,
    high: Single,
    r: Single,
    s: Single,
    whole: Single,
    log: Single,
)
    requires
        crate::exact::is_exact::<Single, M>(math),
        tens_undo_logs(math),
        -700real < low.value(),
        crate::io::signal::features::is_mel(math, low, r),
        crate::io::signal::features::is_mel(math, high, s),
        700real * whole.value() == 700real + low.value(),
        call_ensures(M::log10, (math, whole), log),
    ensures
        r.value() == 2595real * log.value(),
        low.value() < high.value() ==> r.value() < s.value(),
        low.value() == high.value() ==> r.value() == s.value(),
{
    let (x, l) = pitch_parts(math, low, r);
    let (y, k) = pitch_parts(math, high, s);
    assert(x.value() == whole.value());
    assert(x.value() > 0real);
}

/// The frequency of the pitch of a frequency is that frequency.
pub proof fn frequencies_come_back<M: FeatureMath>(
    math: &M,
    hz: Single,
    mel: Single,
    pitch: Single,
    back: Single,
)
    requires
        crate::exact::is_exact::<Single, M>(math),
        tens_undo_logs(math),
        -700real < hz.value(),
        crate::io::signal::features::is_mel(math, hz, mel),
        pitch.value() == mel.value(),
        crate::io::signal::features::is_hz(math, pitch, back),
    ensures
        back.value() == hz.value(),
{
    let (x, l) = pitch_parts(math, hz, mel);
    constants();
    let (part, whole, rest) = choose|part: Single, whole: Single, rest: Single|
        {
            &&& #[trigger] call_ensures(
                M::quotient,
                (math, pitch, crate::io::signal::features::number(MEL_SCALE_BITS)),
                part,
            )
            &&& #[trigger] call_ensures(M::power_of_ten, (math, part), whole)
            &&& #[trigger] call_ensures(
                M::difference,
                (math, whole, crate::io::signal::features::number(ONE_BITS)),
                rest,
            )
            &&& call_ensures(
                M::product,
                (math, crate::io::signal::features::number(MEL_CORNER_BITS), rest),
                back,
            )
        };
    let (v, k) = (part.value(), crate::io::signal::features::number(MEL_SCALE_BITS).value());
    assert(v * k == 2595real * v) by (nonlinear_arith)
        requires
            k == 2595real,
    ;
    assert(part.value() == l.value());
    assert(whole.value() == x.value());
    let (d, c) = (rest.value(), crate::io::signal::features::number(MEL_CORNER_BITS).value());
    assert(c * d == 700real * d) by (nonlinear_arith)
        requires
            c == 700real,
    ;
}

/// Whether places between two others are even and not rounded.
pub open spec fn spreads_evenly<M: FeatureMath>(math: &M) -> bool {
    forall|low: Single, high: Single, i: usize, parts: usize, r: Single| #[trigger]
        call_ensures(M::between, (math, low, high, i, parts), r) && 0 < parts ==> r.value() * (
        parts as int as real) == low.value() * ((parts - i) as real) + high.value() * (i as int
            as real)
}

/// The first corner of a filter bank lies in the bin of the lowest frequency,
/// and the last one in that of the highest.
pub proof fn banks_reach_from_end_to_end<M: FeatureMath>(
    math: &M,
    num_filters: usize,
    n_fft: usize,
    sample_rate: Single,
    f_min: Single,
    f_max: Single,
    low: Single,
    high: Single,
    corners: Seq<usize>,
)
    requires
        crate::exact::is_exact::<Single, M>(math),
        tens_undo_logs(math),
        spreads_evenly(math),
        num_filters < usize::MAX,
        -700real < f_min.value(),
        -700real < f_max.value(),
        crate::io::signal::features::is_mel(math, f_min, low),
        crate::io::signal::features::is_mel(math, f_max, high),
        crate::io::signal::features::are_spread(
            math,
            num_filters,
            n_fft,
            sample_rate,
            low,
            high,
            corners,
        ),
    ensures
        corners.len() == num_filters + 2,
        exists|hz: Single|
            hz.value() == f_min.value() && #[trigger] call_ensures(
                M::bin_below,
                (math, hz, n_fft, sample_rate),
                corners[0],
            ),
        exists|hz: Single|
            hz.value() == f_max.value() && #[trigger] call_ensures(
                M::bin_below,
                (math, hz, n_fft, sample_rate),
                corners[num_filters + 1],
            ),
{
    let parts = (num_filters + 1) as usize;
    end_of_the_bank(math, 0, parts, n_fft, sample_rate, f_min, low, low, high, corners[0]);
    end_of_the_bank(
        math,
        parts,
        parts,
        n_fft,
        sample_rate,
        f_max,
        high,
        low,
        high,
        corners[parts as int],
    );
}

proof fn end_of_the_bank<M: FeatureMath>(
    math: &M,
    i: usize,
    parts: usize,
    n_fft: usize,
    sample_rate: Single,
    frequency: Single,
    end: Single,
    low: Single,
    high: Single,
    r: usize,
)
    requires
        crate::exact::is_exact::<Single, M>(math),
        tens_undo_logs(math),
        spreads_evenly(math),
        0 < parts,
        i == 0 && end == low || i == parts && end == high,
        -700real < frequency.value(),
        crate::io::signal::features::is_mel(math, frequency, end),
        crate::io::signal::features::is_corner(
            math,
            i,
            parts,
            n_fft,
            sample_rate,
            low,
            high,
            r,
        ),
    ensures
        exists|hz: Single|
            hz.value() == frequency.value() && #[trigger] call_ensures(
                M::bin_below,
                (math, hz, n_fft, sample_rate),
                r,
            ),
{
    let (mel, hz) = choose|mel: Single, hz: Single|
        {
            &&& #[trigger] call_ensures(M::between, (math, low, high, i, parts), mel)
            &&& #[trigger] crate::io::signal::features::is_hz(math, mel, hz)
            &&& call_ensures(M::bin_below, (math, hz, n_fft, sample_rate), r)
        };
    let n = parts as int as real;
    crate::laws::algebra::signs(low.value(), n);
    crate::laws::algebra::signs(high.value(), n);
    crate::laws::algebra::cancels(mel.value(), end.value(), n);
    frequencies_come_back(math, frequency, end, mel, hz);
}

/// Whether parts of wholes are not rounded.
pub open spec fn ramps_exactly<M: FeatureMath>(math: &M) -> bool {
    forall|part: usize, whole: usize, r: Single| #[trigger]
        call_ensures(M::ramp, (math, part, whole), r) && whole > 0 ==> r.value() * (whole as int
            as real) == part as int as real
}

/// Between the tops of two filters that lie side by side, what one leaves of a
/// bin the other takes: their weights add up to one. At its top a filter takes a
/// bin whole, and outside its corners it takes nothing.
pub proof fn neighbouring_filters_share_a_bin<M: FeatureMath>(
    math: &M,
    corners: Seq<usize>,
    bins: int,
    filters: Seq<Vec<Single>>,
    m: int,
    j: int,
)
    requires
        ramps_exactly(math),
        crate::io::signal::features::are_triangles(math, corners, bins, filters),
        crate::io::signal::features::are_corners(corners, bins),
        0 <= m < filters.len(),
        0 <= j < bins,
    ensures
        j < corners[m] || j >= corners[m + 2] ==> filters[m]@[j].value() == 0real,
        j == corners[m + 1] && j < corners[m + 2] ==> filters[m]@[j].value() == 1real,
        m + 1 < filters.len() && corners[m + 1] <= j < corners[m + 2] ==> filters[m]@[j].value()
            + filters[m + 1]@[j].value() == 1real,
        corners[m] <= j < corners[m + 1] ==> filters[m]@[j].value() * ((corners[m + 1]
            - corners[m]) as real) == (j - corners[m]) as real,
{
    let (a, b, c) = (corners[m] as int, corners[m + 1] as int, corners[m + 2] as int);
    let w = filters[m]@[j];
    assert(crate::io::signal::features::is_triangle(math, a, b, c, bins, filters[m]@));
    assert(crate::io::signal::features::is_weight(math, a, b, c, j, w));
    crate::exact::singles_stand_for_reals(w, w);
    if b <= j < c {
        let d = (c - b) as real;
        assert(w.value() * d == (c - j) as real);
        assert(1real * d == d) by (nonlinear_arith);
        if j == b {
            crate::laws::algebra::cancels(w.value(), 1real, d);
        }
        if m + 1 < filters.len() {
            let v = filters[m + 1]@[j];
            let e = corners[m + 3] as int;
            assert(corners[m + 2] <= corners[m + 3]);
            assert(crate::io::signal::features::is_triangle(
                math,
                b,
                c,
                e,
                bins,
                filters[m + 1]@,
            ));
            assert(crate::io::signal::features::is_weight(math, b, c, e, j, v));
            assert(v.value() * d == (j - b) as real);
            crate::laws::algebra::commutes(w.value() + v.value(), d);
            crate::laws::algebra::spreads(d, w.value(), v.value());
            crate::laws::algebra::commutes(d, w.value());
            crate::laws::algebra::commutes(d, v.value());
            crate::laws::algebra::cancels(w.value() + v.value(), 1real, d);
        }
    }
}

} // verus!
