//! Spectra over time, and what is drawn from them.

use crate::arith::{dot, products, total, Arithmetic};
use crate::error::{IoError, IoResult};
use crate::io::signal::processor::{SignalMath, SignalProcessor};
use crate::io::signal::spectral::{window_weights, Spectrogram, WindowType};
use crate::io::signal::{Bin, Fourier};
use crate::number::{Single, MINUS_ZERO_BITS};
use vstd::prelude::*;
use vstd::slice::slice_subrange;
use vstd::string::*;

verus! {

/// Whether `spectrum` can be that of the frame of a signal that starts at a
/// sample, weighed by a window.
pub open spec fn is_frame<F: Fourier, M: SignalMath>(
    fourier: &F,
    math: &M,
    signal: Seq<Single>,
    start: int,
    weights: Seq<Single>,
    weighed: Seq<Single>,
    spectrum: IoResult<Vec<Bin>>,
) -> bool {
    &&& crate::arith::are_products(
        math,
        signal.subrange(start, start + weights.len()),
        weights,
        weighed,
    )
    &&& crate::io::signal::processor::gives_spectrum(fourier, weighed, spectrum)
}

/// Whether `spectrum` can be that of a frame.
pub open spec fn is_framed<F: Fourier, M: SignalMath>(
    fourier: &F,
    math: &M,
    signal: Seq<Single>,
    start: int,
    weights: Seq<Single>,
    spectrum: IoResult<Vec<Bin>>,
) -> bool {
    exists|weighed: Seq<Single>|
        #[trigger] is_frame(fourier, math, signal, start, weights, weighed, spectrum)
}

/// Whether spectra can be those of the frames of a signal, one after the
/// other.
pub open spec fn are_framed<F: Fourier, M: SignalMath>(
    fourier: &F,
    math: &M,
    signal: Seq<Single>,
    hop: int,
    weights: Seq<Single>,
    spectra: Seq<IoResult<Vec<Bin>>>,
) -> bool {
    forall|k: int|
        0 <= k < spectra.len() ==> is_framed(
            fourier,
            math,
            signal,
            k * hop,
            weights,
            #[trigger] spectra[k],
        )
}

/// The first bins of spectra, one spectrum after the other.
pub open spec fn heads(spectra: Seq<IoResult<Vec<Bin>>>, bins: int) -> Seq<Bin>
    decreases spectra.len(),
{
    if spectra.len() == 0 {
        Seq::empty()
    } else {
        let last = spectra.last()->Ok_0@;
        heads(spectra.drop_last(), bins) + last.take(
            if bins < last.len() {
                bins
            } else {
                last.len() as int
            },
        )
    }
}

/// The number of frames of a signal.
pub open spec fn frame_count(n: int, size: int, hop: int) -> int {
    (n - size) / hop + 1
}

/// Whether a spectrogram or an error can come out of the spectra of the frames
/// of a signal: the first that cannot be found ends it.
pub open spec fn is_collected<M: SignalMath>(
    math: &M,
    spectra: Seq<IoResult<Vec<Bin>>>,
    frames: int,
    size: usize,
    hop: usize,
    rate: Single,
    r: IoResult<Spectrogram>,
) -> bool {
    if spectra.len() > 0 && spectra.last() is Err {
        r == Err::<Spectrogram, IoError>(spectra.last()->Err_0)
    } else {
        let bins = size as int / 2 + 1;
        &&& spectra.len() == frames
        &&& r matches Ok(s)
        &&& s.num_frames == frames
        &&& s.num_bins == bins
        &&& s.hop_length == hop
        &&& s.sample_rate == rate
        &&& crate::io::signal::processor::are_norms(math, heads(spectra, bins), s.magnitudes@)
        &&& crate::io::signal::processor::are_args(math, heads(spectra, bins), s.phases@)
    }
}

/// Whether `r` can be the spectrogram of a signal, given the weights of a
/// frame and the spectra of the frames.
pub open spec fn is_spectrogram<F: Fourier, M: SignalMath>(
    fourier: &F,
    math: &M,
    signal: Seq<Single>,
    size: usize,
    hop: usize,
    window: WindowType,
    rate: Single,
    weights: Seq<Single>,
    spectra: Seq<IoResult<Vec<Bin>>>,
    r: IoResult<Spectrogram>,
) -> bool {
    let frames = frame_count(signal.len() as int, size as int, hop as int);
    &&& crate::io::signal::spectral::is_window(math, window, size, weights)
    &&& spectra.len() <= frames
    &&& are_framed(fourier, math, signal, hop as int, weights, spectra)
    &&& forall|k: int| 0 <= k < spectra.len() - 1 ==> (#[trigger] spectra[k]) is Ok
    &&& is_collected(math, spectra, frames, size, hop, rate, r)
}

/// Whether `r` can be the spectrogram of a signal, or the error for a signal
/// or sizes that none has.
pub open spec fn gives_spectrogram<F: Fourier, M: SignalMath>(
    fourier: &F,
    math: &M,
    signal: Seq<Single>,
    size: usize,
    hop: usize,
    window: WindowType,
    rate: Single,
    r: IoResult<Spectrogram>,
) -> bool {
    if size == 0 || hop == 0 {
        r matches Err(e) && crate::io::signal::filters::is_signal_error(
            e,
            "n_fft and hop_length must be > 0"@,
        )
    } else if signal.len() < size {
        r matches Err(e) && crate::io::signal::filters::is_signal_error(
            e,
            "Signal shorter than n_fft"@,
        )
    } else {
        exists|weights: Seq<Single>, spectra: Seq<IoResult<Vec<Bin>>>|
            #[trigger] is_spectrogram(
                fourier,
                math,
                signal,
                size,
                hop,
                window,
                rate,
                weights,
                spectra,
                r,
            )
    }
}

/// Each frame lies within the signal.
pub proof fn frames_fit(n: int, size: int, hop: int, k: int)
    requires
        0 < size <= n,
        0 < hop,
        0 <= k < frame_count(n, size, hop),
    ensures
        0 <= k * hop,
        k * hop + size <= n,
{
    vstd::arithmetic::div_mod::lemma_fundamental_div_mod(n - size, hop);
    assert(0 <= k * hop) by (nonlinear_arith)
        requires
            0 <= k,
            0 < hop,
    ;
    assert(k * hop <= hop * ((n - size) / hop)) by (nonlinear_arith)
        requires
            k <= (n - size) / hop,
            0 < hop,
    ;
}

impl SignalProcessor {
    /// The weights of the samples of a frame.
    pub fn create_window<M: SignalMath>(math: &M, window_type: WindowType, size: usize) -> (r: Vec<
        Single,
    >)
        ensures
            crate::io::signal::spectral::is_window(math, window_type, size, r@),
    {
        window_weights(math, window_type, size)
    }

    /// A frame weighed by a window.
    pub fn apply_window_to_frame<M: SignalMath>(
        math: &M,
        frame: &[Single],
        window_type: WindowType,
    ) -> (r: Vec<Single>)
        ensures
            exists|weights: Seq<Single>|
                {
                    &&& #[trigger] crate::io::signal::spectral::is_window(math, window_type, frame@.len() as usize, weights)
                    &&& crate::arith::are_products(math, frame@, weights, r@)
                },
    {
        let weights: Vec<Single> = Self::create_window(math, window_type, frame.len());
        assert(crate::io::signal::spectral::is_window(math, window_type, frame@.len() as usize, weights@));
        products(math, frame, weights.as_slice())
    }

    /// The spectra of the frames of a signal, without the upper half.
    pub fn spectrogram<F: Fourier, M: SignalMath>(
        &self,
        fourier: &F,
        math: &M,
        signal: &[Single],
        n_fft: usize,
        hop_length: usize,
        window: WindowType,
    ) -> (r: IoResult<Spectrogram>)
        ensures
            gives_spectrogram(
                fourier,
                math,
                signal@,
                n_fft,
                hop_length,
                window,
                self.rate(),
                r,
            ),
    {
        if n_fft == 0 || hop_length == 0 {
            return Err(IoError::SignalError("n_fft and hop_length must be > 0".to_owned()));
        }
        if signal.len() < n_fft {
            return Err(IoError::SignalError("Signal shorter than n_fft".to_owned()));
        }
        let weights: Vec<Single> = Self::create_window(math, window, n_fft);
        let n: usize = signal.len();
        proof {
            assert((n - n_fft) / (hop_length as int) <= n - n_fft) by (nonlinear_arith)
                requires
                    n >= n_fft,
                    hop_length >= 1,
            ;
        }
        let frames: usize = (n - n_fft) / hop_length + 1;
        let bins: usize = n_fft / 2 + 1;
        let ghost mut spectra: Seq<IoResult<Vec<Bin>>> = Seq::empty();
        let ghost mut seen: Seq<Bin> = Seq::empty();
        let mut magnitudes: Vec<Single> = Vec::new();
        let mut phases: Vec<Single> = Vec::new();
        let mut k: usize = 0;
        while k < frames
            invariant
                k <= frames,
                frames == frame_count(n as int, n_fft as int, hop_length as int),
                n == signal@.len(),
                n == signal.len(),
                0 < n_fft <= n,
                hop_length > 0,
                bins == n_fft as int / 2 + 1,
                weights@.len() == n_fft,
                crate::io::signal::spectral::is_window(math, window, n_fft, weights@),
                spectra.len() == k,
                are_framed(fourier, math, signal@, hop_length as int, weights@, spectra),
                forall|i: int| 0 <= i < spectra.len() ==> (#[trigger] spectra[i]) is Ok,
                seen == heads(spectra, bins as int),
                crate::io::signal::processor::are_norms(math, seen, magnitudes@),
                crate::io::signal::processor::are_args(math, seen, phases@),
            decreases frames - k,
        {
            proof {
                frames_fit(n as int, n_fft as int, hop_length as int, k as int);
            }
            let start: usize = k * hop_length;
            let frame: &[Single] = slice_subrange(signal, start, start + n_fft);
            let weighed: Vec<Single> = products(math, frame, weights.as_slice());
            let spectrum: IoResult<Vec<Bin>> = self.fft(fourier, weighed.as_slice());
            proof {
                assert(is_frame(
                    fourier,
                    math,
                    signal@,
                    k * hop_length,
                    weights@,
                    weighed@,
                    spectrum,
                ));
                let before = spectra;
                spectra = spectra.push(spectrum);
                assert forall|i: int| 0 <= i < spectra.len() implies is_framed(
                    fourier,
                    math,
                    signal@,
                    i * hop_length,
                    weights@,
                    #[trigger] spectra[i],
                ) by {
                    if i < k {
                        assert(spectra[i] == before[i]);
                    }
                }
                assert(spectra.drop_last() =~= before);
            }
            match spectrum {
                Err(e) => {
                    let r: IoResult<Spectrogram> = Err(e);
                    assert(is_spectrogram(
                        fourier,
                        math,
                        signal@,
                        n_fft,
                        hop_length,
                        window,
                        self.rate(),
                        weights@,
                        spectra,
                        r,
                    ));
                    return r;
                },
                Ok(v) => {
                    let count: usize = if bins < v.len() {
                        bins
                    } else {
                        v.len()
                    };
                    self::append_polar(
                        math,
                        &v,
                        count,
                        Ghost(seen),
                        &mut magnitudes,
                        &mut phases,
                    );
                    proof {
                        seen = seen + v@.take(count as int);
                    }
                },
            }
            k += 1;
        }
        let r: IoResult<Spectrogram> = Ok(
            Spectrogram {
                magnitudes,
                phases,
                num_frames: frames,
                num_bins: bins,
                hop_length,
                sample_rate: self.sample_rate(),
            },
        );
        assert(is_spectrogram(
            fourier,
            math,
            signal@,
            n_fft,
            hop_length,
            window,
            self.rate(),
            weights@,
            spectra,
            r,
        ));
        r
    }
}

fn append_polar<M: SignalMath>(
    math: &M,
    v: &Vec<Bin>,
    count: usize,
    seen: Ghost<Seq<Bin>>,
    magnitudes: &mut Vec<Single>,
    phases: &mut Vec<Single>,
)
    requires
        count <= v@.len(),
        crate::io::signal::processor::are_norms(math, seen@, old(magnitudes)@),
        crate::io::signal::processor::are_args(math, seen@, old(phases)@),
    ensures
        crate::io::signal::processor::are_norms(
            math,
            seen@ + v@.take(count as int),
            final(magnitudes)@,
        ),
        crate::io::signal::processor::are_args(
            math,
            seen@ + v@.take(count as int),
            final(phases)@,
        ),
{
    let mut i: usize = 0;
    assert(seen@ + v@.take(0) =~= seen@);
    while i < count
        invariant
            i <= count,
            count <= v@.len(),
            crate::io::signal::processor::are_norms(
                math,
                seen@ + v@.take(i as int),
                magnitudes@,
            ),
            crate::io::signal::processor::are_args(math, seen@ + v@.take(i as int), phases@),
        decreases count - i,
    {
        assert(seen@ + v@.take(i + 1) =~= (seen@ + v@.take(i as int)).push(v@[i as int]));
        magnitudes.push(math.norm(v[i]));
        phases.push(math.arg(v[i]));
        i += 1;
    }
}

/// The arithmetic of features. Nothing is required of what it returns.
pub trait FeatureMath: Arithmetic<Single> {
    /// The common logarithm.
    fn log10(&self, x: Single) -> Single;

    /// The natural logarithm.
    fn ln(&self, x: Single) -> Single;

    /// Ten to a power.
    fn power_of_ten(&self, x: Single) -> Single;

    /// The corner `i` of so many parts between two places.
    fn between(&self, low: Single, high: Single, i: usize, parts: usize) -> Single;

    /// The bin that a frequency lies in, of a spectrum of so many samples.
    fn bin_below(&self, frequency: Single, n_fft: usize, sample_rate: Single) -> usize;

    /// A part of a whole.
    fn ramp(&self, part: usize, whole: usize) -> Single;

    /// The cosine `k` at the place `i` of `n`.
    fn cosine(&self, k: usize, i: usize, n: usize) -> Single;

    /// What makes cosines over `n` places a transform that keeps lengths.
    fn cosine_scale(&self, n: usize) -> Single;
}

/// The bit pattern of 2595.0.
pub const MEL_SCALE_BITS: u32 = 0x4522_3000;

/// The bit pattern of 700.0.
pub const MEL_CORNER_BITS: u32 = 0x442f_0000;

/// The bit pattern of 1.0.
pub const ONE_BITS: u32 = 0x3f80_0000;

/// The bit pattern of 2.0.
pub const TWO_BITS: u32 = 0x4000_0000;

/// The bit pattern of 1e-10.
pub const TINY_BITS: u32 = 0x2edb_e6ff;

/// The number with a bit pattern.
pub open spec fn number(bits: u32) -> Single {
    Single { bits }
}

/// Whether `r` can be a frequency on the scale of pitch: 2595 times the
/// logarithm of one and a 700th of it.
pub open spec fn is_mel<M: FeatureMath>(math: &M, hz: Single, r: Single) -> bool {
    exists|part: Single, whole: Single, log: Single|
        {
            &&& #[trigger] call_ensures(M::quotient, (math, hz, number(MEL_CORNER_BITS)), part)
            &&& #[trigger] call_ensures(M::sum, (math, number(ONE_BITS), part), whole)
            &&& #[trigger] call_ensures(M::log10, (math, whole), log)
            &&& call_ensures(M::product, (math, number(MEL_SCALE_BITS), log), r)
        }
}

/// Whether `r` can be the frequency of a place on the scale of pitch: 700
/// times one less than ten to the power of a 2595th of it.
pub open spec fn is_hz<M: FeatureMath>(math: &M, mel: Single, r: Single) -> bool {
    exists|part: Single, whole: Single, rest: Single|
        {
            &&& #[trigger] call_ensures(M::quotient, (math, mel, number(MEL_SCALE_BITS)), part)
            &&& #[trigger] call_ensures(M::power_of_ten, (math, part), whole)
            &&& #[trigger] call_ensures(M::difference, (math, whole, number(ONE_BITS)), rest)
            &&& call_ensures(M::product, (math, number(MEL_CORNER_BITS), rest), r)
        }
}

impl SignalProcessor {
    /// A frequency on the scale of pitch.
    pub fn hz_to_mel<M: FeatureMath>(math: &M, hz: Single) -> (r: Single)
        ensures
            is_mel(math, hz, r),
    {
        let part: Single = math.quotient(hz, Single::from_bits(MEL_CORNER_BITS));
        assert(call_ensures(M::quotient, (math, hz, number(MEL_CORNER_BITS)), part));
        let whole: Single = math.sum(Single::from_bits(ONE_BITS), part);
        assert(call_ensures(M::sum, (math, number(ONE_BITS), part), whole));
        let log: Single = math.log10(whole);
        assert(call_ensures(M::log10, (math, whole), log));
        math.product(Single::from_bits(MEL_SCALE_BITS), log)
    }

    /// The frequency of a place on the scale of pitch.
    pub fn mel_to_hz<M: FeatureMath>(math: &M, mel: Single) -> (r: Single)
        ensures
            is_hz(math, mel, r),
    {
        let part: Single = math.quotient(mel, Single::from_bits(MEL_SCALE_BITS));
        assert(call_ensures(M::quotient, (math, mel, number(MEL_SCALE_BITS)), part));
        let whole: Single = math.power_of_ten(part);
        assert(call_ensures(M::power_of_ten, (math, part), whole));
        let rest: Single = math.difference(whole, Single::from_bits(ONE_BITS));
        assert(call_ensures(M::difference, (math, whole, number(ONE_BITS)), rest));
        math.product(Single::from_bits(MEL_CORNER_BITS), rest)
    }
}

/// Whether `r` can be the bin of a corner of filters that lie evenly between
/// two places on the scale of pitch.
pub open spec fn is_corner<M: FeatureMath>(
    math: &M,
    i: usize,
    parts: usize,
    n_fft: usize,
    sample_rate: Single,
    low: Single,
    high: Single,
    r: usize,
) -> bool {
    exists|mel: Single, hz: Single|
        {
            &&& #[trigger] call_ensures(M::between, (math, low, high, i, parts), mel)
            &&& #[trigger] is_hz(math, mel, hz)
            &&& call_ensures(M::bin_below, (math, hz, n_fft, sample_rate), r)
        }
}

fn corner<M: FeatureMath>(
    math: &M,
    i: usize,
    parts: usize,
    n_fft: usize,
    sample_rate: Single,
    low: Single,
    high: Single,
) -> (r: usize)
    ensures
        is_corner(math, i, parts, n_fft, sample_rate, low, high, r),
{
    let mel: Single = math.between(low, high, i, parts);
    assert(call_ensures(M::between, (math, low, high, i, parts), mel));
    let hz: Single = SignalProcessor::mel_to_hz(math, mel);
    assert(is_hz(math, mel, hz));
    math.bin_below(hz, n_fft, sample_rate)
}

/// A whole of at least one.
pub open spec fn at_least_one(n: int) -> usize {
    if n < 1 {
        1
    } else {
        n as usize
    }
}

/// Whether a weight can be that of a bin in a filter that rises from `left` to
/// `center` and falls to `right`.
pub open spec fn is_weight<M: FeatureMath>(
    math: &M,
    left: int,
    center: int,
    right: int,
    j: int,
    r: Single,
) -> bool {
    if center <= j < right {
        call_ensures(M::ramp, (math, (right - j) as usize, at_least_one(right - center)), r)
    } else if left <= j < center {
        call_ensures(M::ramp, (math, (j - left) as usize, at_least_one(center - left)), r)
    } else {
        r.bits == 0
    }
}

/// Whether weights can be those of a filter.
pub open spec fn is_triangle<M: FeatureMath>(
    math: &M,
    left: int,
    center: int,
    right: int,
    bins: int,
    r: Seq<Single>,
) -> bool {
    &&& r.len() == bins
    &&& forall|j: int| 0 <= j < bins ==> is_weight(math, left, center, right, j, #[trigger] r[j])
}

/// Whether the corners of filters do not fall, and none but the last is beyond
/// the bins.
pub open spec fn are_corners(corners: Seq<usize>, bins: int) -> bool {
    &&& corners.len() >= 2
    &&& forall|i: int, j: int|
        0 <= i <= j < corners.len() ==> #[trigger] corners[i] <= #[trigger] corners[j]
    &&& corners.len() > 2 ==> corners[corners.len() - 2] <= bins
}

/// Whether filters can be those between corners, each from one over the next
/// to the one after.
pub open spec fn are_triangles<M: FeatureMath>(
    math: &M,
    corners: Seq<usize>,
    bins: int,
    r: Seq<Vec<Single>>,
) -> bool {
    &&& r.len() == corners.len() - 2
    &&& forall|m: int|
        0 <= m < r.len() ==> is_triangle(
            math,
            corners[m] as int,
            corners[m + 1] as int,
            corners[m + 2] as int,
            bins,
            (#[trigger] r[m])@,
        )
}

fn triangle<M: FeatureMath>(
    math: &M,
    left: usize,
    center: usize,
    right: usize,
    bins: usize,
) -> (r: Vec<Single>)
    requires
        left <= center <= right,
    ensures
        is_triangle(math, left as int, center as int, right as int, bins as int, r@),
{
    let rise: usize = if center - left < 1 {
        1
    } else {
        center - left
    };
    let fall: usize = if right - center < 1 {
        1
    } else {
        right - center
    };
    let mut out: Vec<Single> = Vec::new();
    let mut j: usize = 0;
    while j < bins
        invariant
            j <= bins,
            left <= center <= right,
            rise == at_least_one(center - left),
            fall == at_least_one(right - center),
            out@.len() == j,
            forall|k: int|
                0 <= k < j ==> is_weight(
                    math,
                    left as int,
                    center as int,
                    right as int,
                    k,
                    #[trigger] out@[k],
                ),
        decreases bins - j,
    {
        let w: Single = if center <= j && j < right {
            math.ramp(right - j, fall)
        } else if left <= j && j < center {
            math.ramp(j - left, rise)
        } else {
            Single::zero()
        };
        out.push(w);
        j += 1;
    }
    out
}

/// The filters between corners.
pub fn filters_between<M: FeatureMath>(math: &M, corners: &Vec<usize>, bins: usize) -> (r: Vec<
    Vec<Single>,
>)
    requires
        are_corners(corners@, bins as int),
    ensures
        are_triangles(math, corners@, bins as int, r@),
{
    let mut out: Vec<Vec<Single>> = Vec::new();
    let mut m: usize = 0;
    while m + 2 < corners.len()
        invariant
            m + 2 <= corners@.len(),
            corners@.len() == corners.len(),
            are_corners(corners@, bins as int),
            out@.len() == m,
            forall|k: int|
                0 <= k < m ==> is_triangle(
                    math,
                    corners@[k] as int,
                    corners@[k + 1] as int,
                    corners@[k + 2] as int,
                    bins as int,
                    (#[trigger] out@[k])@,
                ),
        decreases corners@.len() - m,
    {
        assert(corners@[m as int] <= corners@[m + 1] && corners@[m + 1] <= corners@[m + 2]);
        out.push(triangle(math, corners[m], corners[m + 1], corners[m + 2], bins));
        m += 1;
    }
    out
}

/// Whether corners can be those of so many filters.
pub open spec fn are_corners_of<M: FeatureMath>(
    math: &M,
    num_filters: usize,
    n_fft: usize,
    sample_rate: Single,
    f_min: Single,
    f_max: Single,
    corners: Seq<usize>,
) -> bool {
    exists|low: Single, high: Single|
        {
            &&& #[trigger] is_mel(math, f_min, low)
            &&& #[trigger] is_mel(math, f_max, high)
            &&& are_spread(math, num_filters, n_fft, sample_rate, low, high, corners)
        }
}

/// Whether corners can be those of so many filters that lie evenly between two
/// places on the scale of pitch.
pub open spec fn are_spread<M: FeatureMath>(
    math: &M,
    num_filters: usize,
    n_fft: usize,
    sample_rate: Single,
    low: Single,
    high: Single,
    corners: Seq<usize>,
) -> bool {
    &&& corners.len() == num_filters + 2
    &&& forall|i: int|
        0 <= i < corners.len() ==> is_corner(
            math,
            i as usize,
            (num_filters + 1) as usize,
            n_fft,
            sample_rate,
            low,
            high,
            #[trigger] corners[i],
        )
}

/// Whether `r` can be the filters on a scale of pitch; `None` where their
/// corners are out of order.
pub open spec fn is_filterbank<M: FeatureMath>(
    math: &M,
    num_filters: usize,
    n_fft: usize,
    sample_rate: Single,
    f_min: Single,
    f_max: Single,
    r: Option<Vec<Vec<Single>>>,
) -> bool {
    exists|corners: Seq<usize>|
        {
            &&& #[trigger] are_corners_of(
                math,
                num_filters,
                n_fft,
                sample_rate,
                f_min,
                f_max,
                corners,
            )
            &&& match r {
                Some(filters) => {
                    &&& are_corners(corners, n_fft as int / 2 + 1)
                    &&& are_triangles(math, corners, n_fft as int / 2 + 1, filters@)
                },
                None => !are_corners(corners, n_fft as int / 2 + 1),
            }
        }
}

fn check_corners(corners: &Vec<usize>, bins: usize) -> (r: bool)
    ensures
        r == are_corners(corners@, bins as int),
{
    let n: usize = corners.len();
    if n < 2 {
        return false;
    }
    let mut i: usize = 1;
    while i < n
        invariant
            1 <= i <= n,
            n == corners@.len(),
            forall|a: int, b: int|
                0 <= a <= b < i ==> #[trigger] corners@[a] <= #[trigger] corners@[b],
        decreases n - i,
    {
        if corners[i] < corners[i - 1] {
            assert(!(corners@[i - 1] <= corners@[i as int]));
            return false;
        }
        i += 1;
    }
    n == 2 || corners[n - 2] <= bins
}

impl SignalProcessor {
    /// Filters that lie evenly on a scale of pitch; `None` where their corners
    /// are out of order.
    pub fn mel_filterbank<M: FeatureMath>(
        math: &M,
        num_filters: usize,
        n_fft: usize,
        sample_rate: Single,
        f_min: Single,
        f_max: Single,
    ) -> (r: Option<Vec<Vec<Single>>>)
        requires
            num_filters <= usize::MAX - 2,
        ensures
            is_filterbank(math, num_filters, n_fft, sample_rate, f_min, f_max, r),
    {
        let count: usize = num_filters + 2;
        let low: Single = Self::hz_to_mel(math, f_min);
        let high: Single = Self::hz_to_mel(math, f_max);
        assert(is_mel(math, f_min, low));
        assert(is_mel(math, f_max, high));
        let mut corners: Vec<usize> = Vec::new();
        let mut i: usize = 0;
        while i < count
            invariant
                i <= count,
                count == num_filters + 2,
                corners@.len() == i,
                forall|k: int|
                    0 <= k < i ==> is_corner(
                        math,
                        k as usize,
                        (num_filters + 1) as usize,
                        n_fft,
                        sample_rate,
                        low,
                        high,
                        #[trigger] corners@[k],
                    ),
            decreases count - i,
        {
            corners.push(corner(math, i, num_filters + 1, n_fft, sample_rate, low, high));
            i += 1;
        }
        assert(are_spread(math, num_filters, n_fft, sample_rate, low, high, corners@));
        assert(are_corners_of(
            math,
            num_filters,
            n_fft,
            sample_rate,
            f_min,
            f_max,
            corners@,
        ));
        let bins: usize = n_fft / 2 + 1;
        if check_corners(&corners, bins) {
            Some(filters_between(math, &corners, bins))
        } else {
            None
        }
    }
}

/// Whether a number can be the logarithm of the energy that a filter passes.
pub open spec fn is_energy<M: FeatureMath>(
    math: &M,
    filter: Seq<Single>,
    power: Seq<Single>,
    r: Single,
) -> bool {
    exists|energy: Single, lifted: Single|
        {
            &&& crate::arith::is_dot(
                math,
                number(MINUS_ZERO_BITS),
                filter,
                power,
                energy,
            )
            &&& #[trigger] call_ensures(M::sum, (math, energy, number(TINY_BITS)), lifted)
            &&& call_ensures(M::ln, (math, lifted), r)
        }
}

fn filter_energy<M: FeatureMath>(math: &M, filter: &[Single], power: &[Single]) -> (r: Single)
    ensures
        is_energy(math, filter@, power@, r),
{
    let energy: Single = dot(math, Single::from_bits(MINUS_ZERO_BITS), filter, power);
    let lifted: Single = math.sum(energy, Single::from_bits(TINY_BITS));
    assert(call_ensures(M::sum, (math, energy, number(TINY_BITS)), lifted));
    math.ln(lifted)
}

/// Whether numbers can be the energies that filters pass.
pub open spec fn are_energies<M: FeatureMath>(
    math: &M,
    filters: Seq<Vec<Single>>,
    power: Seq<Single>,
    r: Seq<Single>,
) -> bool {
    &&& r.len() == filters.len()
    &&& forall|i: int| 0 <= i < r.len() ==> is_energy(math, filters[i]@, power, #[trigger] r[i])
}

/// Whether `terms` can be numbers, each times a cosine at its place.
pub open spec fn are_waved<M: FeatureMath>(
    math: &M,
    values: Seq<Single>,
    k: usize,
    cosines: Seq<Single>,
    terms: Seq<Single>,
) -> bool {
    &&& cosines.len() == values.len()
    &&& forall|i: int|
        0 <= i < cosines.len() ==> call_ensures(
            M::cosine,
            (math, k, i as usize, values.len() as usize),
            #[trigger] cosines[i],
        )
    &&& crate::arith::are_products(math, values, cosines, terms)
}

/// Whether `r` can be a coefficient of a cosine transform.
pub open spec fn is_coefficient<M: FeatureMath>(
    math: &M,
    values: Seq<Single>,
    k: usize,
    r: Single,
) -> bool {
    exists|cosines: Seq<Single>, terms: Seq<Single>, sum: Single, scale: Single|
        {
            &&& #[trigger] are_waved(math, values, k, cosines, terms)
            &&& #[trigger] crate::arith::is_total(
                math,
                number(MINUS_ZERO_BITS),
                terms,
                sum,
            )
            &&& #[trigger] call_ensures(M::cosine_scale, (math, values.len() as usize), scale)
            &&& call_ensures(M::product, (math, sum, scale), r)
        }
}

fn coefficient<M: FeatureMath>(math: &M, values: &[Single], k: usize) -> (r: Single)
    ensures
        is_coefficient(math, values@, k, r),
{
    let n: usize = values.len();
    let mut cosines: Vec<Single> = Vec::new();
    let mut i: usize = 0;
    while i < n
        invariant
            i <= n,
            n == values@.len(),
            cosines@.len() == i,
            forall|j: int|
                0 <= j < i ==> call_ensures(
                    M::cosine,
                    (math, k, j as usize, n),
                    #[trigger] cosines@[j],
                ),
        decreases n - i,
    {
        cosines.push(math.cosine(k, i, n));
        i += 1;
    }
    let terms: Vec<Single> = products(math, values, cosines.as_slice());
    assert(are_waved(math, values@, k, cosines@, terms@));
    let zero: Single = Single::from_bits(MINUS_ZERO_BITS);
    let sum: Single = total(math, zero, terms.as_slice());
    assert(zero == number(MINUS_ZERO_BITS));
    let scale: Single = math.cosine_scale(n);
    assert(call_ensures(M::cosine_scale, (math, values@.len() as usize), scale));
    math.product(sum, scale)
}

/// Whether coefficients can be the first ones of a cosine transform.
pub open spec fn are_cosines<M: FeatureMath>(
    math: &M,
    values: Seq<Single>,
    count: usize,
    r: Seq<Single>,
) -> bool {
    &&& r.len() == count
    &&& forall|k: int|
        0 <= k < r.len() ==> is_coefficient(math, values, k as usize, #[trigger] r[k])
}

fn cosines<M: FeatureMath>(math: &M, values: &[Single], count: usize) -> (r: Vec<Single>)
    ensures
        are_cosines(math, values@, count, r@),
{
    let mut out: Vec<Single> = Vec::new();
    let mut k: usize = 0;
    while k < count
        invariant
            k <= count,
            out@.len() == k,
            forall|j: int|
                0 <= j < k ==> is_coefficient(math, values@, j as usize, #[trigger] out@[j]),
        decreases count - k,
    {
        out.push(coefficient(math, values, k));
        k += 1;
    }
    out
}

/// Whether coefficients can be those of a frame, given its magnitudes.
pub open spec fn is_cepstrum<M: FeatureMath>(
    math: &M,
    filters: Seq<Vec<Single>>,
    magnitudes: Seq<Single>,
    count: usize,
    power: Seq<Single>,
    energies: Seq<Single>,
    r: Seq<Single>,
) -> bool {
    &&& crate::arith::are_products(math, magnitudes, magnitudes, power)
    &&& are_energies(math, filters, power, energies)
    &&& are_cosines(math, energies, count, r)
}

/// Whether coefficients can be those of a frame.
pub open spec fn are_coefficients<M: FeatureMath>(
    math: &M,
    filters: Seq<Vec<Single>>,
    magnitudes: Seq<Single>,
    count: usize,
    r: Seq<Single>,
) -> bool {
    exists|power: Seq<Single>, energies: Seq<Single>|
        #[trigger] is_cepstrum(math, filters, magnitudes, count, power, energies, r)
}

/// The coefficients of a frame.
pub fn cepstrum<M: FeatureMath>(
    math: &M,
    filters: &Vec<Vec<Single>>,
    magnitudes: &[Single],
    count: usize,
) -> (r: Vec<Single>)
    ensures
        are_coefficients(math, filters@, magnitudes@, count, r@),
        r@.len() == count,
{
    let power: Vec<Single> = products(math, magnitudes, magnitudes);
    let mut energies: Vec<Single> = Vec::new();
    let mut j: usize = 0;
    while j < filters.len()
        invariant
            j <= filters@.len(),
            energies@.len() == j,
            forall|k: int|
                0 <= k < j ==> is_energy(math, filters@[k]@, power@, #[trigger] energies@[k]),
        decreases filters@.len() - j,
    {
        energies.push(filter_energy(math, filters[j].as_slice(), power.as_slice()));
        j += 1;
    }
    let r: Vec<Single> = cosines(math, energies.as_slice(), count);
    assert(is_cepstrum(math, filters@, magnitudes@, count, power@, energies@, r@));
    r
}

/// Whether the magnitudes of a spectrogram are all there.
pub open spec fn is_full(s: Spectrogram) -> bool {
    s.magnitudes@.len() == s.num_frames * s.num_bins
}

/// Whether coefficients can be those of the frames of a spectrogram.
pub open spec fn are_cepstra<M: FeatureMath>(
    math: &M,
    filters: Seq<Vec<Single>>,
    s: Spectrogram,
    count: usize,
    r: Seq<Vec<Single>>,
) -> bool {
    &&& r.len() == s.num_frames
    &&& forall|k: int|
        0 <= k < r.len() ==> are_coefficients(
            math,
            filters,
            s.magnitudes@.subrange(k * s.num_bins, k * s.num_bins + s.num_bins),
            count,
            (#[trigger] r[k])@,
        )
}

/// The coefficients of the frames of a spectrogram.
pub fn cepstra<M: FeatureMath>(
    math: &M,
    filters: &Vec<Vec<Single>>,
    s: &Spectrogram,
    count: usize,
) -> (r: Vec<Vec<Single>>)
    requires
        is_full(*s),
    ensures
        are_cepstra(math, filters@, *s, count, r@),
{
    let mut out: Vec<Vec<Single>> = Vec::new();
    let mut k: usize = 0;
    while k < s.num_frames
        invariant
            k <= s.num_frames,
            is_full(*s),
            s.magnitudes@.len() == s.magnitudes.len(),
            out@.len() == k,
            forall|i: int|
                0 <= i < k ==> are_coefficients(
                    math,
                    filters@,
                    s.magnitudes@.subrange(i * s.num_bins, i * s.num_bins + s.num_bins),
                    count,
                    (#[trigger] out@[i])@,
                ),
        decreases s.num_frames - k,
    {
        proof {
            assert(0 <= k * s.num_bins && k * s.num_bins + s.num_bins <= s.num_frames * s.num_bins)
                by (nonlinear_arith)
                requires
                    0 <= k,
                    k + 1 <= s.num_frames,
                    0 <= s.num_bins,
            ;
        }
        let start: usize = k * s.num_bins;
        let magnitudes: &[Single] = slice_subrange(
            s.magnitudes.as_slice(),
            start,
            start + s.num_bins,
        );
        out.push(cepstrum(math, filters, magnitudes, count));
        k += 1;
    }
    out
}

/// Whether `r` can be the coefficients of the frames of a signal, given the
/// filters and the spectrogram. There are none where there are no filters, or
/// where spectra are shorter than they should be.
pub open spec fn is_mfcc<M: FeatureMath>(
    math: &M,
    filters: Option<Vec<Vec<Single>>>,
    spectrogram: IoResult<Spectrogram>,
    count: usize,
    r: Option<IoResult<Vec<Vec<Single>>>>,
) -> bool {
    match filters {
        None => r is None,
        Some(f) => match spectrogram {
            Err(e) => r == Some(Err::<Vec<Vec<Single>>, IoError>(e)),
            Ok(s) => if is_full(s) {
                r matches Some(Ok(c)) && are_cepstra(math, f@, s, count, c@)
            } else {
                r is None
            },
        },
    }
}

impl SignalProcessor {
    /// The coefficients of the frames of a signal, by filters on a scale of
    /// pitch.
    pub fn mfcc<F: Fourier, S: SignalMath, M: FeatureMath>(
        &self,
        fourier: &F,
        signal_math: &S,
        math: &M,
        signal: &[Single],
        n_mfcc: usize,
        n_fft: usize,
        hop_length: usize,
        n_mels: usize,
    ) -> (r: Option<IoResult<Vec<Vec<Single>>>>)
        requires
            n_mels <= usize::MAX - 2,
        ensures
            exists|
                f_max: Single,
                filters: Option<Vec<Vec<Single>>>,
                spectrogram: IoResult<Spectrogram>,
            |
                {
                    &&& call_ensures(M::quotient, (math, self.rate(), number(TWO_BITS)), f_max)
                    &&& #[trigger] is_filterbank(
                        math,
                        n_mels,
                        n_fft,
                        self.rate(),
                        Single { bits: 0 },
                        f_max,
                        filters,
                    )
                    &&& #[trigger] gives_spectrogram(
                        fourier,
                        signal_math,
                        signal@,
                        n_fft,
                        hop_length,
                        WindowType::Hann,
                        self.rate(),
                        spectrogram,
                    )
                    &&& is_mfcc(math, filters, spectrogram, n_mfcc, r)
                },
    {
        let rate: Single = self.sample_rate();
        let f_max: Single = math.quotient(rate, Single::from_bits(TWO_BITS));
        assert(call_ensures(M::quotient, (math, self.rate(), number(TWO_BITS)), f_max));
        let filters: Option<Vec<Vec<Single>>> = Self::mel_filterbank(
            math,
            n_mels,
            n_fft,
            rate,
            Single::zero(),
            f_max,
        );
        let spectrogram: IoResult<Spectrogram> = self.spectrogram(
            fourier,
            signal_math,
            signal,
            n_fft,
            hop_length,
            WindowType::Hann,
        );
        assert(is_filterbank(
            math,
            n_mels,
            n_fft,
            self.rate(),
            Single { bits: 0 },
            f_max,
            filters,
        ));
        assert(gives_spectrogram(
            fourier,
            signal_math,
            signal@,
            n_fft,
            hop_length,
            WindowType::Hann,
            self.rate(),
            spectrogram,
        ));
        match filters {
            None => None,
            Some(f) => match spectrogram {
                Err(e) => Some(Err(e)),
                Ok(s) => {
                    let full: bool = match s.num_frames.checked_mul(s.num_bins) {
                        Some(n) => n == s.magnitudes.len(),
                        None => false,
                    };
                    if full {
                        Some(Ok(cepstra(math, &f, &s, n_mfcc)))
                    } else {
                        assert(s.magnitudes@.len() == s.magnitudes.len());
                        None
                    }
                },
            },
        }
    }
}

} // verus!
