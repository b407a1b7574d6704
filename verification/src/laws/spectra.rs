//! Signals over time and frequency: what frames hold, and how they are put
//! together again.

use crate::exact::Valued;
use crate::io::signal::timefreq::{GaborResult, TimeFreqMath, TINY_BITS};
use crate::io::signal::Bin;
use crate::number::Single;
use vstd::prelude::*;

verus! {

/// A sample of a signal as a real number; behind its end there is silence.
pub open spec fn sample(signal: Seq<Single>, p: int) -> real {
    if 0 <= p < signal.len() {
        signal[p].value()
    } else {
        0real
    }
}

/// A frame holds the samples from its start on, each times its weight.
pub proof fn frames_hold_weighed_samples<M: TimeFreqMath>(
    math: &M,
    signal: Seq<Single>,
    start: int,
    weights: Seq<Single>,
    frame: Seq<Bin>,
    i: int,
)
    requires
        crate::exact::is_exact::<Single, M>(math),
        crate::io::signal::timefreq::is_frame(math, signal, start, weights, frame),
        0 <= start,
        0 <= i < weights.len(),
    ensures
        frame.len() == weights.len(),
        frame[i].re.value() == sample(signal, start + i) * weights[i].value(),
        frame[i].im.value() == 0real,
{
    let zero = Single { bits: 0 };
    crate::exact::singles_stand_for_reals(zero, zero);
    crate::exact::singles_stand_for_reals(frame[i].im, zero);
    assert(crate::io::signal::timefreq::is_weighed(math, signal, start, weights, i, frame[i]));
    let w = weights[i].value();
    assert(0real * w == 0real) by (nonlinear_arith);
}

proof fn joined_sums<M: TimeFreqMath>(
    math: &M,
    before: (Single, Single),
    start: int,
    frame: Seq<Bin>,
    weights: Seq<Single>,
    p: int,
    sum: Single,
    level: Single,
    s: real,
)
    requires
        crate::exact::is_exact::<Single, M>(math),
        0 < weights.len() <= usize::MAX,
        crate::io::signal::timefreq::joins_at(
            math,
            before,
            start,
            frame,
            weights,
            p,
            sum,
            level,
        ),
        before.0.value() == s * before.1.value(),
        start <= p < start + weights.len() && p - start < frame.len() ==> frame[p
            - start].re.value() == (s * weights[p - start].value()) * (weights.len() as int
            as real),
    ensures
        sum.value() == s * level.value(),
{
    if start <= p < start + weights.len() && p - start < frame.len() {
        let x = frame[p - start].re;
        let weight = weights[p - start];
        let size = weights.len() as usize;
        let (part, weighed) = choose|part: Single, weighed: Single|
            {
                &&& #[trigger] call_ensures(M::over, (math, x, size), part)
                &&& #[trigger] call_ensures(M::product, (math, part, weight), weighed)
                &&& call_ensures(M::sum, (math, before.0, weighed), sum)
            };
        let square = choose|square: Single| #[trigger]
            call_ensures(M::product, (math, weight, weight), square) && call_ensures(
                M::sum,
                (math, before.1, square),
                level,
            );
        let w = weight.value();
        crate::laws::algebra::cancels(part.value(), s * w, size as int as real);
        assert(weighed.value() == (s * w) * w);
        crate::laws::algebra::regroups(s, w, w);
        crate::laws::algebra::spreads(s, before.1.value(), w * w);
    }
}

proof fn sums_go_with_the_signal<M: TimeFreqMath>(
    math: &M,
    result: GaborResult,
    sigma: Single,
    weights: Seq<Single>,
    sums: Seq<(Seq<Single>, Seq<Single>)>,
    r: Seq<Single>,
    signal: Seq<Single>,
    p: int,
    k: int,
)
    requires
        crate::exact::is_exact::<Single, M>(math),
        result.wf(),
        crate::io::signal::timefreq::is_synthesis(math, result, sigma, weights, sums, r),
        frames_come_back(math, result, weights, signal),
        0 <= p < r.len(),
        0 <= k <= result.num_frames,
    ensures
        sums[k].0.len() == r.len(),
        sums[k].1.len() == r.len(),
        sums[k].0[p].value() == sample(signal, p) * sums[k].1[p].value(),
    decreases k,
{
    let s = sample(signal, p);
    let zero = Single { bits: 0 };
    crate::exact::singles_stand_for_reals(zero, zero);
    if k == 0 {
        assert(s * 0real == 0real) by (nonlinear_arith);
    } else {
        let j = k - 1;
        sums_go_with_the_signal(math, result, sigma, weights, sums, r, signal, p, j);
        assert(crate::io::signal::timefreq::is_added(math, result, weights, sums, j));
        let start = j * result.hop_size;
        let (spectrum, frame) = choose|spectrum: Vec<Bin>, frame: Vec<Bin>|
            {
                &&& spectrum@ == crate::io::signal::timefreq::mirrored_of(
                    crate::io::signal::timefreq::bins_of(result, j),
                    result.window_size as int,
                )
                &&& #[trigger] crate::io::signal::timefreq::restores(math, spectrum, frame)
                &&& crate::io::signal::timefreq::is_overlap(
                    math,
                    sums[j],
                    start,
                    frame@,
                    weights,
                    sums[j + 1],
                )
            };
        assert(restored_at(math, result, j, frame));
        assert(sums[k].0[p] == sums[k].0[p]);
        if start <= p < start + weights.len() && p - start < frame@.len() {
            assert(frame@[p - start].re.value() == (sample(signal, start + (p - start))
                * weights[p - start].value()) * (weights.len() as int as real));
        }
        joined_sums(
            math,
            (sums[j].0[p], sums[j].1[p]),
            start,
            frame@,
            weights,
            p,
            sums[k].0[p],
            sums[k].1[p],
            s,
        );
    }
}

/// Whether a signal can be what the spectrum of a frame of a result is turned
/// back into.
pub open spec fn restored_at<M: TimeFreqMath>(
    math: &M,
    result: GaborResult,
    k: int,
    frame: Vec<Bin>,
) -> bool {
    exists|spectrum: Vec<Bin>|
        {
            &&& spectrum@ == crate::io::signal::timefreq::mirrored_of(
                crate::io::signal::timefreq::bins_of(result, k),
                result.window_size as int,
            )
            &&& #[trigger] crate::io::signal::timefreq::restores(math, spectrum, frame)
        }
}

/// Whether the frames of a result are turned back into the weighed samples of a
/// signal, times their number.
pub open spec fn frames_come_back<M: TimeFreqMath>(
    math: &M,
    result: GaborResult,
    weights: Seq<Single>,
    signal: Seq<Single>,
) -> bool {
    forall|k: int, frame: Vec<Bin>, i: int|
        #![trigger restored_at(math, result, k, frame), frame@[i]]
        0 <= k < result.num_frames && restored_at(math, result, k, frame) && 0 <= i
            < weights.len() && i < frame@.len() ==> frame@[i].re.value() == (sample(
            signal,
            k * result.hop_size + i,
        ) * weights[i].value()) * (weights.len() as int as real)
}

/// Frames that are turned back into weighed samples of a signal are put
/// together to that signal, wherever they weigh anything.
pub proof fn frames_are_put_together<M: TimeFreqMath>(
    math: &M,
    result: GaborResult,
    sigma: Single,
    weights: Seq<Single>,
    sums: Seq<(Seq<Single>, Seq<Single>)>,
    r: Seq<Single>,
    signal: Seq<Single>,
    p: int,
)
    requires
        crate::exact::is_exact::<Single, M>(math),
        result.wf(),
        crate::io::signal::timefreq::is_synthesis(math, result, sigma, weights, sums, r),
        frames_come_back(math, result, weights, signal),
        0 <= p < r.len(),
        (Single { bits: TINY_BITS }).below(sums.last().1[p]),
    ensures
        r[p].value() == sample(signal, p),
{
    let tiny = Single { bits: TINY_BITS };
    let zero = Single { bits: 0 };
    let level = sums.last().1[p];
    sums_go_with_the_signal(
        math,
        result,
        sigma,
        weights,
        sums,
        r,
        signal,
        p,
        result.num_frames as int,
    );
    crate::exact::singles_stand_for_reals(zero, tiny);
    crate::exact::singles_stand_for_reals(tiny, level);
    assert(zero.below(tiny));
    assert(r[p] == r[p]);
    crate::laws::algebra::cancels(r[p].value(), sample(signal, p), level.value());
}

proof fn heads_stand_in_order(spectra: Seq<Vec<Bin>>, bins: int, k: int)
    requires
        0 <= bins,
        0 <= k < spectra.len(),
    ensures
        crate::io::signal::timefreq::heads(spectra, bins).len() == spectra.len() * bins,
        0 <= k * bins,
        k * bins + bins <= spectra.len() * bins,
        crate::io::signal::timefreq::heads(spectra, bins).subrange(k * bins, k * bins + bins)
            == crate::io::signal::timefreq::head(spectra[k]@, bins),
    decreases spectra.len(),
{
    let before = spectra.drop_last();
    let n = before.len() as int;
    assert((n + 1) * bins == n * bins + bins && 0 * bins == 0) by (nonlinear_arith);
    assert(0 <= k * bins <= n * bins) by (nonlinear_arith)
        requires
            0 <= k <= n,
            0 <= bins,
    ;
    let all = crate::io::signal::timefreq::heads(spectra, bins);
    let some = crate::io::signal::timefreq::heads(before, bins);
    if n > 0 {
        heads_stand_in_order(
            before,
            bins,
            if k < n {
                k
            } else {
                0
            },
        );
    } else {
        assert(some =~= Seq::empty());
    }
    assert(all == some + crate::io::signal::timefreq::head(spectra.last()@, bins));
    if k < n {
        assert(before[k] == spectra[k]);
        assert(all.subrange(k * bins, k * bins + bins) =~= some.subrange(k * bins, k * bins + bins));
    } else {
        assert(all.subrange(k * bins, k * bins + bins) =~= crate::io::signal::timefreq::head(
            spectra[k]@,
            bins,
        ));
    }
}

/// Whether transforming frames of a size forward and, from the lower half of the
/// spectrum alone, back again gives the frame times its length.
pub open spec fn is_invertible<M: TimeFreqMath>(math: &M, size: int) -> bool {
    forall|frame: Vec<Bin>, spectrum: Vec<Bin>, whole: Vec<Bin>, back: Vec<Bin>|
        {
            &&& frame@.len() == size
            &&& #[trigger] crate::io::signal::timefreq::transforms(math, frame, spectrum)
            &&& whole@ == crate::io::signal::timefreq::mirrored_of(
                crate::io::signal::timefreq::head(spectrum@, size / 2 + 1),
                size,
            )
            &&& #[trigger] crate::io::signal::timefreq::restores(math, whole, back)
            &&& forall|i: int| 0 <= i < size ==> (#[trigger] frame@[i]).im.value() == 0real
        } ==> forall|i: int|
            0 <= i < size && i < back@.len() ==> (#[trigger] back@[i]).re.value()
                == frame@[i].re.value() * (size as real)
}

/// A signal comes back from the spectra of its frames where these were weighed
/// as they are put together, wherever they weigh anything.
pub proof fn signals_come_back_from_their_frames<M: TimeFreqMath>(
    math: &M,
    signal: Seq<Single>,
    hop: usize,
    sigmas: (Single, Single),
    rate: Single,
    weights: Seq<Single>,
    spectra: Seq<Vec<Bin>>,
    result: GaborResult,
    sums: Seq<(Seq<Single>, Seq<Single>)>,
    r: Seq<Single>,
    p: int,
)
    requires
        crate::exact::is_exact::<Single, M>(math),
        is_invertible(math, result.window_size as int),
        result.wf(),
        crate::io::signal::timefreq::is_gabor(
            math,
            signal,
            result.window_size,
            hop,
            sigmas.0,
            rate,
            weights,
            spectra,
            result,
        ),
        crate::io::signal::timefreq::is_synthesis(math, result, sigmas.1, weights, sums, r),
        0 <= p < r.len(),
        (Single { bits: TINY_BITS }).below(sums.last().1[p]),
    ensures
        r[p].value() == sample(signal, p),
{
    let size = result.window_size as int;
    assert forall|k: int, back: Vec<Bin>, i: int|
        #![trigger restored_at(math, result, k, back), back@[i]]
        0 <= k < result.num_frames && restored_at(math, result, k, back) && 0 <= i < weights.len()
            && i < back@.len() implies back@[i].re.value() == (sample(
        signal,
        k * result.hop_size + i,
    ) * weights[i].value()) * (weights.len() as int as real) by {
        let start = k * result.hop_size;
        assert(0 <= start) by (nonlinear_arith)
            requires
                0 <= k,
                start == k * result.hop_size,
        ;
        let whole = choose|whole: Vec<Bin>|
            {
                &&& whole@ == crate::io::signal::timefreq::mirrored_of(
                    crate::io::signal::timefreq::bins_of(result, k),
                    size,
                )
                &&& #[trigger] crate::io::signal::timefreq::restores(math, whole, back)
            };
        heads_stand_in_order(spectra, size / 2 + 1, k);
        let spectrum = spectra[k];
        assert(crate::io::signal::timefreq::is_frame_spectrum(
            math,
            signal,
            start,
            weights,
            spectrum,
        ));
        let frame = choose|frame: Vec<Bin>|
            {
                &&& crate::io::signal::timefreq::is_frame(math, signal, start, weights, frame@)
                &&& #[trigger] crate::io::signal::timefreq::transforms(math, frame, spectrum)
            };
        assert forall|j: int| 0 <= j < size implies (#[trigger] frame@[j]).im.value() == 0real by {
            frames_hold_weighed_samples(math, signal, start, weights, frame@, j);
        }
        frames_hold_weighed_samples(math, signal, start, weights, frame@, i);
        assert(back@[i].re.value() == frame@[i].re.value() * (size as real));
    }
    frames_are_put_together(math, result, sigmas.1, weights, sums, r, signal, p);
}

} // verus!
