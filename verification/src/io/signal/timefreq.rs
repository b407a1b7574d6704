//! Signals over time and frequency at once.

use crate::arith::{dot, total};
use crate::error::{IoError, IoResult};
use crate::io::signal::spectral::{window_weights, WindowMath, WindowType};
use crate::io::signal::{power, Bin};
use crate::number::Single;
use vstd::prelude::*;
use vstd::string::*;

verus! {

/// The arithmetic on signals over time and frequency. Nothing is required of
/// what it returns.
pub trait TimeFreqMath: WindowMath {
    /// The spectrum of a signal.
    fn forward(&self, signal: &Vec<Bin>) -> Vec<Bin>;

    /// The signal of a spectrum, times its length.
    fn inverse(&self, spectrum: &Vec<Bin>) -> Vec<Bin>;

    /// The weight of a sample of a frame by a bell curve.
    fn bell(&self, i: usize, size: usize, sigma: Single) -> Single;

    /// The width of the bell curve for a frame that is put together again.
    fn bell_width(&self, size: usize) -> Single;

    /// The magnitude of a complex number.
    fn norm(&self, x: Bin) -> Single;

    /// The phase of a complex number.
    fn arg(&self, x: Bin) -> Single;

    /// The weight of a bin by a bell curve around a frequency that is `shift`
    /// bins off.
    fn locality(&self, shift: i64, frequency: usize, factor: Single) -> Single;

    /// The weight of a neighbour by the square of its distance.
    fn nearness(&self, distance: u32, sigma: Single) -> Single;

    /// The frequency of a bin, in Hz.
    fn bin_hz(&self, bin: usize, sample_rate: Single, bins: usize) -> Single;
}

/// The number of frames of a signal; one where it is shorter than a frame.
pub open spec fn frame_count(n: int, size: int, hop: int) -> int {
    (if n > size {
        n - size
    } else {
        0
    }) / hop + 1
}

/// Whether a bin can be a sample of a frame: a weighed sample of the signal,
/// or nothing behind its end.
pub open spec fn is_weighed<M: TimeFreqMath>(
    math: &M,
    signal: Seq<Single>,
    start: int,
    weights: Seq<Single>,
    i: int,
    x: Bin,
) -> bool {
    if start + i < signal.len() {
        &&& x.im.bits == 0
        &&& call_ensures(M::product, (math, signal[start + i], weights[i]), x.re)
    } else {
        x == Bin::of(Single { bits: 0 })
    }
}

/// Whether bins can be a frame of a signal.
pub open spec fn is_frame<M: TimeFreqMath>(
    math: &M,
    signal: Seq<Single>,
    start: int,
    weights: Seq<Single>,
    r: Seq<Bin>,
) -> bool {
    &&& r.len() == weights.len()
    &&& forall|i: int|
        0 <= i < r.len() ==> is_weighed(math, signal, start, weights, i, #[trigger] r[i])
}

fn cut_frame<M: TimeFreqMath>(
    math: &M,
    signal: &[Single],
    start: usize,
    weights: &Vec<Single>,
) -> (r: Vec<Bin>)
    requires
        start <= signal@.len(),
    ensures
        is_frame(math, signal@, start as int, weights@, r@),
{
    let left: usize = signal.len() - start;
    let mut out: Vec<Bin> = Vec::new();
    let mut i: usize = 0;
    while i < weights.len()
        invariant
            i <= weights@.len(),
            left == signal@.len() - start,
            signal@.len() == signal.len(),
            out@.len() == i,
            forall|k: int|
                0 <= k < i ==> is_weighed(
                    math,
                    signal@,
                    start as int,
                    weights@,
                    k,
                    #[trigger] out@[k],
                ),
        decreases weights@.len() - i,
    {
        if i < left {
            out.push(Bin::from_real(math.product(signal[start + i], weights[i])));
        } else {
            out.push(Bin::from_real(Single::zero()));
        }
        i += 1;
    }
    out
}

/// Whether a spectrum can be that of a frame.
pub open spec fn transforms<M: TimeFreqMath>(math: &M, frame: Vec<Bin>, r: Vec<Bin>) -> bool {
    call_ensures(M::forward, (math, &frame), r)
}

/// Whether a signal can be that of a spectrum.
pub open spec fn restores<M: TimeFreqMath>(math: &M, spectrum: Vec<Bin>, r: Vec<Bin>) -> bool {
    call_ensures(M::inverse, (math, &spectrum), r)
}

/// Whether a spectrum can be that of the frame of a signal at a place.
pub open spec fn is_frame_spectrum<M: TimeFreqMath>(
    math: &M,
    signal: Seq<Single>,
    start: int,
    weights: Seq<Single>,
    r: Vec<Bin>,
) -> bool {
    exists|frame: Vec<Bin>|
        {
            &&& is_frame(math, signal, start, weights, frame@)
            &&& #[trigger] transforms(math, frame, r)
        }
}

/// Whether spectra can be those of the frames of a signal.
pub open spec fn are_frame_spectra<M: TimeFreqMath>(
    math: &M,
    signal: Seq<Single>,
    hop: int,
    weights: Seq<Single>,
    spectra: Seq<Vec<Bin>>,
) -> bool {
    forall|k: int|
        0 <= k < spectra.len() ==> is_frame_spectrum(
            math,
            signal,
            k * hop,
            weights,
            #[trigger] spectra[k],
        )
}

/// The first bins of a spectrum; nothing where there is none.
pub open spec fn head(v: Seq<Bin>, bins: int) -> Seq<Bin> {
    Seq::new(
        bins as nat,
        |b: int|
            if b < v.len() {
                v[b]
            } else {
                Bin::of(Single { bits: 0 })
            },
    )
}

/// The first bins of spectra, one spectrum after the other.
pub open spec fn heads(spectra: Seq<Vec<Bin>>, bins: int) -> Seq<Bin>
    decreases spectra.len(),
{
    if spectra.len() == 0 {
        Seq::empty()
    } else {
        heads(spectra.drop_last(), bins) + head(spectra.last()@, bins)
    }
}

proof fn heads_fill(spectra: Seq<Vec<Bin>>, bins: int)
    requires
        0 <= bins,
    ensures
        heads(spectra, bins).len() == spectra.len() * bins,
    decreases spectra.len(),
{
    if spectra.len() > 0 {
        let before = spectra.drop_last();
        heads_fill(before, bins);
        assert(spectra.len() * bins == before.len() * bins + bins) by (nonlinear_arith)
            requires
                spectra.len() == before.len() + 1,
        ;
    } else {
        assert(spectra.len() * bins == 0) by (nonlinear_arith)
            requires
                spectra.len() == 0,
        ;
    }
}

/// Each frame starts within the signal.
pub proof fn frame_starts(n: int, size: int, hop: int, k: int)
    requires
        0 <= n,
        0 <= size,
        0 < hop,
        0 <= k < frame_count(n, size, hop),
    ensures
        0 <= k * hop <= n,
{
    let room = if n > size {
        n - size
    } else {
        0
    };
    vstd::arithmetic::div_mod::lemma_fundamental_div_mod(room, hop);
    assert(0 <= k * hop) by (nonlinear_arith)
        requires
            0 <= k,
            0 < hop,
    ;
    assert(k * hop <= hop * (room / hop)) by (nonlinear_arith)
        requires
            k <= room / hop,
            0 < hop,
    ;
}

/// What the frames of a signal come to: their spectra, and the first bins of
/// these.
struct Frames {
    heads: Vec<Bin>,
    spectra: Ghost<Seq<Vec<Bin>>>,
}

fn count_frames(n: usize, size: usize, hop: usize) -> (r: usize)
    requires
        hop > 0,
        size > 0 || n < usize::MAX,
    ensures
        r == frame_count(n as int, size as int, hop as int),
{
    let room: usize = if n > size {
        n - size
    } else {
        0
    };
    proof {
        assert(room as int / hop as int <= room) by (nonlinear_arith)
            requires
                hop >= 1,
                room >= 0,
        ;
    }
    room / hop + 1
}

fn frames_of<M: TimeFreqMath>(
    math: &M,
    signal: &[Single],
    weights: &Vec<Single>,
    hop: usize,
    bins: usize,
    frames: usize,
) -> (r: Frames)
    requires
        hop > 0,
        frames == frame_count(signal@.len() as int, weights@.len() as int, hop as int),
    ensures
        r.spectra@.len() == frames,
        are_frame_spectra(math, signal@, hop as int, weights@, r.spectra@),
        r.heads@ == heads(r.spectra@, bins as int),
{
    let ghost mut spectra: Seq<Vec<Bin>> = Seq::empty();
    let mut out: Vec<Bin> = Vec::new();
    let n: usize = signal.len();
    let mut k: usize = 0;
    while k < frames
        invariant
            k <= frames,
            n == signal@.len(),
            hop > 0,
            frames == frame_count(n as int, weights@.len() as int, hop as int),
            spectra.len() == k,
            are_frame_spectra(math, signal@, hop as int, weights@, spectra),
            out@ == heads(spectra, bins as int),
        decreases frames - k,
    {
        proof {
            frame_starts(n as int, weights@.len() as int, hop as int, k as int);
        }
        let start: usize = k * hop;
        let frame: Vec<Bin> = cut_frame(math, signal, start, weights);
        let spectrum: Vec<Bin> = math.forward(&frame);
        proof {
            assert(transforms(math, frame, spectrum));
            assert(is_frame_spectrum(math, signal@, k * hop, weights@, spectrum));
            let before = spectra;
            spectra = spectra.push(spectrum);
            assert forall|i: int| 0 <= i < spectra.len() implies is_frame_spectrum(
                math,
                signal@,
                i * hop,
                weights@,
                #[trigger] spectra[i],
            ) by {
                if i < k {
                    assert(spectra[i] == before[i]);
                }
            }
            assert(spectra.drop_last() =~= before);
        }
        let ghost before = out@;
        let mut i: usize = 0;
        assert(before + head(spectrum@, 0) =~= before);
        while i < bins
            invariant
                i <= bins,
                out@ == before + head(spectrum@, i as int),
            decreases bins - i,
        {
            if i < spectrum.len() {
                out.push(spectrum[i]);
            } else {
                out.push(Bin::from_real(Single::zero()));
            }
            i += 1;
            assert(out@ =~= before + head(spectrum@, i as int));
        }
        k += 1;
    }
    Frames { heads: out, spectra: Ghost(spectra) }
}

/// Whether weights can be those of a bell curve.
pub open spec fn is_bell<M: TimeFreqMath>(
    math: &M,
    size: usize,
    sigma: Single,
    r: Seq<Single>,
) -> bool {
    &&& r.len() == size
    &&& forall|i: int|
        0 <= i < size ==> call_ensures(M::bell, (math, i as usize, size, sigma), #[trigger] r[i])
}

fn bell_window<M: TimeFreqMath>(math: &M, size: usize, sigma: Single) -> (r: Vec<Single>)
    ensures
        is_bell(math, size, sigma, r@),
{
    let mut out: Vec<Single> = Vec::new();
    let mut i: usize = 0;
    while i < size
        invariant
            i <= size,
            out@.len() == i,
            forall|k: int|
                0 <= k < i ==> call_ensures(
                    M::bell,
                    (math, k as usize, size, sigma),
                    #[trigger] out@[k],
                ),
        decreases size - i,
    {
        out.push(math.bell(i, size, sigma));
        i += 1;
    }
    out
}

/// The spectra of the frames of a signal, weighed by a bell curve.
#[derive(Debug)]
pub struct GaborResult {
    /// The bins, frame by frame.
    pub coefficients: Vec<Bin>,
    /// The number of frames.
    pub num_frames: usize,
    /// The number of bins of a frame.
    pub num_bins: usize,
    /// The number of samples between frames.
    pub hop_size: usize,
    /// Sample rate in Hz.
    pub sample_rate: Single,
    /// The number of samples of a frame.
    pub window_size: usize,
}

impl GaborResult {
    /// Whether every bin of every frame is there, and frames have as many as
    /// their size says.
    pub open spec fn wf(&self) -> bool {
        &&& self.num_frames > 0
        &&& self.window_size > 0
        &&& self.num_bins == self.window_size / 2 + 1
        &&& self.coefficients@.len() == self.num_frames * self.num_bins
    }

    /// The magnitude of a bin of a frame.
    pub fn magnitude<M: TimeFreqMath>(&self, math: &M, frame: usize, bin: usize) -> (r: Single)
        requires
            frame * self.num_bins + bin < self.coefficients@.len(),
        ensures
            call_ensures(
                M::norm,
                (math, self.coefficients@[frame * self.num_bins + bin]),
                r,
            ),
    {
        math.norm(self.coefficients[self.place(frame, bin)])
    }

    /// The phase of a bin of a frame.
    pub fn phase<M: TimeFreqMath>(&self, math: &M, frame: usize, bin: usize) -> (r: Single)
        requires
            frame * self.num_bins + bin < self.coefficients@.len(),
        ensures
            call_ensures(
                M::arg,
                (math, self.coefficients@[frame * self.num_bins + bin]),
                r,
            ),
    {
        math.arg(self.coefficients[self.place(frame, bin)])
    }

    fn place(&self, frame: usize, bin: usize) -> (r: usize)
        requires
            frame * self.num_bins + bin < self.coefficients@.len(),
        ensures
            r == frame * self.num_bins + bin,
    {
        proof {
            crate::io::signal::spectral::place_is_small(frame, self.num_bins, bin);
            assert(self.coefficients@.len() == self.coefficients.len());
        }
        frame * self.num_bins + bin
    }

    /// The powers of all bins.
    pub fn to_power<M: TimeFreqMath>(&self, math: &M) -> (r: Vec<Single>)
        ensures
            r@.len() == self.coefficients@.len(),
            forall|i: int|
                0 <= i < r@.len() ==> crate::io::signal::is_power(
                    math,
                    self.coefficients@[i],
                    #[trigger] r@[i],
                ),
    {
        let mut out: Vec<Single> = Vec::new();
        let mut i: usize = 0;
        while i < self.coefficients.len()
            invariant
                i <= self.coefficients@.len(),
                out@.len() == i,
                forall|k: int|
                    0 <= k < i ==> crate::io::signal::is_power(
                        math,
                        self.coefficients@[k],
                        #[trigger] out@[k],
                    ),
            decreases self.coefficients@.len() - i,
        {
            out.push(power(math, self.coefficients[i]));
            i += 1;
        }
        out
    }
}

/// What finds spectra of frames weighed by a bell curve.
#[derive(Debug, Clone, Copy, PartialEq, Eq, Structural)]
pub struct GaborTransform {
    sample_rate: Single,
}

/// Whether `r` can be the spectra of the frames of a signal, weighed by a bell
/// curve.
pub open spec fn is_gabor<M: TimeFreqMath>(
    math: &M,
    signal: Seq<Single>,
    size: usize,
    hop: usize,
    sigma: Single,
    rate: Single,
    weights: Seq<Single>,
    spectra: Seq<Vec<Bin>>,
    r: GaborResult,
) -> bool {
    &&& is_bell(math, size, sigma, weights)
    &&& spectra.len() == frame_count(signal.len() as int, size as int, hop as int)
    &&& are_frame_spectra(math, signal, hop as int, weights, spectra)
    &&& r.coefficients@ == heads(spectra, size as int / 2 + 1)
    &&& r.num_frames == spectra.len()
    &&& r.num_bins == size / 2 + 1
    &&& r.hop_size == hop
    &&& r.sample_rate == rate
    &&& r.window_size == size
}

impl GaborTransform {
    /// Sample rate in Hz.
    pub closed spec fn rate(&self) -> Single {
        self.sample_rate
    }

    /// What finds spectra at a sample rate.
    pub fn new(sample_rate: Single) -> (r: Self)
        ensures
            r.rate() == sample_rate,
    {
        GaborTransform { sample_rate }
    }

    /// The spectra of the frames of a signal.
    pub fn compute<M: TimeFreqMath>(
        &self,
        math: &M,
        signal: &[Single],
        window_size: usize,
        hop_size: usize,
        sigma: Single,
    ) -> (r: IoResult<GaborResult>)
        ensures
            if window_size == 0 || hop_size == 0 {
                r matches Err(e) && crate::io::signal::filters::is_signal_error(
                    e,
                    "Window and hop size must be > 0"@,
                )
            } else {
                &&& r is Ok
                &&& r->Ok_0.wf()
                &&& exists|weights: Seq<Single>, spectra: Seq<Vec<Bin>>|
                    #[trigger] is_gabor(
                        math,
                        signal@,
                        window_size,
                        hop_size,
                        sigma,
                        self.rate(),
                        weights,
                        spectra,
                        r->Ok_0,
                    )
            },
    {
        if window_size == 0 || hop_size == 0 {
            return Err(IoError::SignalError("Window and hop size must be > 0".to_owned()));
        }
        let num_frames: usize = count_frames(signal.len(), window_size, hop_size);
        let num_bins: usize = window_size / 2 + 1;
        let weights: Vec<Single> = bell_window(math, window_size, sigma);
        let frames: Frames = frames_of(math, signal, &weights, hop_size, num_bins, num_frames);
        let ghost spectra = frames.spectra@;
        proof {
            heads_fill(spectra, num_bins as int);
        }
        let r: IoResult<GaborResult> = Ok(
            GaborResult {
                coefficients: frames.heads,
                num_frames,
                num_bins,
                hop_size,
                sample_rate: self.sample_rate,
                window_size,
            },
        );
        assert(is_gabor(
            math,
            signal@,
            window_size,
            hop_size,
            sigma,
            self.rate(),
            weights@,
            spectra,
            r->Ok_0,
        ));
        r
    }

    /// The signal of spectra of frames: the frames are found from their
    /// spectra, weighed, added where they overlap and brought to their level.
    pub fn inverse<M: TimeFreqMath>(&self, math: &M, result: &GaborResult) -> (r: IoResult<
        Vec<Single>,
    >)
        requires
            result.wf(),
            (result.num_frames - 1) * result.hop_size + result.window_size <= usize::MAX,
        ensures
            r is Ok,
            exists|sigma: Single, weights: Seq<Single>, sums: Seq<(Seq<Single>, Seq<Single>)>|
                #[trigger] is_synthesis(math, *result, sigma, weights, sums, r->Ok_0@),
    {
        let size: usize = result.window_size;
        let hop: usize = result.hop_size;
        let bins: usize = result.num_bins;
        proof {
            assert(0 <= (result.num_frames - 1) * hop) by (nonlinear_arith)
                requires
                    result.num_frames >= 1,
                    hop >= 0,
            ;
        }
        let n: usize = (result.num_frames - 1) * hop + size;
        let sigma: Single = math.bell_width(size);
        let weights: Vec<Single> = bell_window(math, size, sigma);
        let mut signal: Vec<Single> = vec![Single::zero(); n];
        let mut levels: Vec<Single> = vec![Single::zero(); n];
        let ghost zeros = Seq::new(n as nat, |i: int| Single { bits: 0 });
        assert(signal@ =~= zeros);
        assert(levels@ =~= zeros);
        let ghost mut sums: Seq<(Seq<Single>, Seq<Single>)> = seq![(zeros, zeros)];
        let mut k: usize = 0;
        while k < result.num_frames
            invariant
                k <= result.num_frames,
                result.wf(),
                size == result.window_size,
                hop == result.hop_size,
                bins == result.num_bins,
                n == (result.num_frames - 1) * hop + size,
                weights@.len() == size,
                signal@.len() == n,
                levels@.len() == n,
                sums.len() == k + 1,
                sums[0] == (zeros, zeros),
                zeros == Seq::new(n as nat, |i: int| Single { bits: 0 }),
                sums.last() == (signal@, levels@),
                forall|i: int|
                    0 <= i < k ==> #[trigger] is_added(math, *result, weights@, sums, i),
            decreases result.num_frames - k,
        {
            proof {
                assert(0 <= k * hop && k * hop <= (result.num_frames - 1) * hop)
                    by (nonlinear_arith)
                    requires
                        0 <= k <= result.num_frames - 1,
                        0 <= hop,
                ;
            }
            let start: usize = k * hop;
            let spectrum: Vec<Bin> = mirrored(result, k);
            let frame: Vec<Bin> = math.inverse(&spectrum);
            let ghost prev = (signal@, levels@);
            assert(restores(math, spectrum, frame));
            let next: (Vec<Single>, Vec<Single>) = overlap_add(
                math,
                &signal,
                &levels,
                start,
                &frame,
                &weights,
            );
            signal = next.0;
            levels = next.1;
            proof {
                let before = sums;
                sums = sums.push((signal@, levels@));
                assert(sums[k as int] == prev);
                assert(is_added(math, *result, weights@, sums, k as int));
                assert forall|i: int| 0 <= i < k + 1 implies #[trigger] is_added(
                    math,
                    *result,
                    weights@,
                    sums,
                    i,
                ) by {
                    if i < k {
                        assert(is_added(math, *result, weights@, before, i));
                        assert(sums[i] == before[i]);
                        assert(sums[i + 1] == before[i + 1]);
                    }
                }
            }
            k += 1;
        }
        let mut out: Vec<Single> = Vec::new();
        let mut i: usize = 0;
        while i < n
            invariant
                i <= n,
                signal@.len() == n,
                levels@.len() == n,
                out@.len() == i,
                forall|j: int|
                    0 <= j < i ==> is_levelled(
                        math,
                        signal@[j],
                        levels@[j],
                        #[trigger] out@[j],
                    ),
            decreases n - i,
        {
            out.push(level(math, signal[i], levels[i]));
            i += 1;
        }
        let r: IoResult<Vec<Single>> = Ok(out);
        assert(is_synthesis(math, *result, sigma, weights@, sums, r->Ok_0@));
        r
    }
}

/// The bins of a frame.
pub open spec fn bins_of(result: GaborResult, k: int) -> Seq<Bin> {
    result.coefficients@.subrange(k * result.num_bins, k * result.num_bins + result.num_bins)
}

/// A whole spectrum out of its lower half: the upper half mirrors it with the
/// imaginary parts turned round, and what neither covers is nothing.
pub open spec fn mirrored_of(lower: Seq<Bin>, size: int) -> Seq<Bin> {
    Seq::new(
        size as nat,
        |j: int|
            if j < lower.len() {
                lower[j]
            } else if j > size - lower.len() + 1 {
                Bin { re: lower[size - j].re, im: lower[size - j].im.negated() }
            } else {
                Bin::of(Single { bits: 0 })
            },
    )
}

fn mirrored(result: &GaborResult, k: usize) -> (r: Vec<Bin>)
    requires
        result.wf(),
        k < result.num_frames,
    ensures
        r@ == mirrored_of(bins_of(*result, k as int), result.window_size as int),
{
    let size: usize = result.window_size;
    let bins: usize = result.num_bins;
    proof {
        assert(0 <= k * bins && k * bins + bins <= result.num_frames * bins) by (nonlinear_arith)
            requires
                0 <= k,
                k + 1 <= result.num_frames,
                0 <= bins,
        ;
        assert(result.coefficients@.len() == result.coefficients.len());
    }
    let start: usize = k * bins;
    let ghost lower = bins_of(*result, k as int);
    let mut out: Vec<Bin> = Vec::new();
    let mut j: usize = 0;
    while j < size
        invariant
            j <= size,
            size == result.window_size,
            bins == size / 2 + 1,
            start == k * bins,
            start + bins <= result.coefficients@.len(),
            result.coefficients@.len() == result.coefficients.len(),
            lower == result.coefficients@.subrange(start as int, start + bins),
            out@.len() == j,
            forall|i: int|
                0 <= i < j ==> #[trigger] out@[i] == mirrored_of(lower, size as int)[i],
        decreases size - j,
    {
        if j < bins {
            out.push(result.coefficients[start + j]);
        } else if j > size - bins + 1 {
            let x: Bin = result.coefficients[start + (size - j)];
            out.push(Bin { re: x.re, im: x.im.neg() });
        } else {
            out.push(Bin::from_real(Single::zero()));
        }
        j += 1;
    }
    assert(out@ =~= mirrored_of(lower, size as int));
    out
}

/// The bit pattern of 1e-10.
pub const TINY_BITS: u32 = 0x2edb_e6ff;

/// Whether `r` can be a sum that a sample of a frame, divided by the length of
/// the frame and weighed, has joined.
pub open spec fn is_joined<M: TimeFreqMath>(
    math: &M,
    sum: Single,
    sample: Single,
    size: usize,
    weight: Single,
    r: Single,
) -> bool {
    exists|part: Single, weighed: Single|
        {
            &&& #[trigger] call_ensures(M::over, (math, sample, size), part)
            &&& #[trigger] call_ensures(M::product, (math, part, weight), weighed)
            &&& call_ensures(M::sum, (math, sum, weighed), r)
        }
}

fn join_sample<M: TimeFreqMath>(
    math: &M,
    sum: Single,
    sample: Single,
    size: usize,
    weight: Single,
) -> (r: Single)
    ensures
        is_joined(math, sum, sample, size, weight, r),
{
    let part: Single = math.over(sample, size);
    assert(call_ensures(M::over, (math, sample, size), part));
    let weighed: Single = math.product(part, weight);
    assert(call_ensures(M::product, (math, part, weight), weighed));
    math.sum(sum, weighed)
}

/// Whether `r` can be a sum that the square of a weight has joined.
pub open spec fn is_gathered<M: TimeFreqMath>(
    math: &M,
    sum: Single,
    weight: Single,
    r: Single,
) -> bool {
    exists|square: Single| #[trigger]
        call_ensures(M::product, (math, weight, weight), square) && call_ensures(
            M::sum,
            (math, sum, square),
            r,
        )
}

fn gather<M: TimeFreqMath>(math: &M, sum: Single, weight: Single) -> (r: Single)
    ensures
        is_gathered(math, sum, weight, r),
{
    let square: Single = math.product(weight, weight);
    assert(call_ensures(M::product, (math, weight, weight), square));
    math.sum(sum, square)
}

/// Whether `r` can be a sum of samples divided by the sum of their weights;
/// the sum itself where there are hardly weights.
pub open spec fn is_levelled<M: TimeFreqMath>(
    math: &M,
    sum: Single,
    weights: Single,
    r: Single,
) -> bool {
    if (Single { bits: TINY_BITS }).below(weights) {
        call_ensures(M::quotient, (math, sum, weights), r)
    } else {
        r == sum
    }
}

fn level<M: TimeFreqMath>(math: &M, sum: Single, weights: Single) -> (r: Single)
    ensures
        is_levelled(math, sum, weights, r),
{
    if Single::from_bits(TINY_BITS).less(weights) {
        math.quotient(sum, weights)
    } else {
        sum
    }
}

/// Whether the sums at a place can follow from those before once a frame has
/// been added.
pub open spec fn joins_at<M: TimeFreqMath>(
    math: &M,
    before: (Single, Single),
    start: int,
    frame: Seq<Bin>,
    weights: Seq<Single>,
    p: int,
    sum: Single,
    level: Single,
) -> bool {
    if start <= p < start + weights.len() && p - start < frame.len() {
        &&& is_joined(
            math,
            before.0,
            frame[p - start].re,
            weights.len() as usize,
            weights[p - start],
            sum,
        )
        &&& is_gathered(math, before.1, weights[p - start], level)
    } else {
        sum == before.0 && level == before.1
    }
}

/// Whether sums of samples and of weights can follow from others once a frame
/// has been added to them.
pub open spec fn is_overlap<M: TimeFreqMath>(
    math: &M,
    before: (Seq<Single>, Seq<Single>),
    start: int,
    frame: Seq<Bin>,
    weights: Seq<Single>,
    after: (Seq<Single>, Seq<Single>),
) -> bool {
    &&& after.0.len() == before.0.len()
    &&& after.1.len() == before.1.len()
    &&& forall|p: int|
        0 <= p < after.0.len() ==> joins_at(
            math,
            (before.0[p], before.1[p]),
            start,
            frame,
            weights,
            p,
            #[trigger] after.0[p],
            after.1[p],
        )
}

fn overlap_add<M: TimeFreqMath>(
    math: &M,
    signal: &Vec<Single>,
    levels: &Vec<Single>,
    start: usize,
    frame: &Vec<Bin>,
    weights: &Vec<Single>,
) -> (r: (Vec<Single>, Vec<Single>))
    requires
        signal@.len() == levels@.len(),
        start + weights@.len() <= signal@.len(),
    ensures
        is_overlap(
            math,
            (signal@, levels@),
            start as int,
            frame@,
            weights@,
            (r.0@, r.1@),
        ),
{
    let size: usize = weights.len();
    let mut sums: Vec<Single> = Vec::new();
    let mut totals: Vec<Single> = Vec::new();
    let mut p: usize = 0;
    while p < signal.len()
        invariant
            p <= signal@.len(),
            size == weights@.len(),
            signal@.len() == levels@.len(),
            start + size <= signal@.len(),
            sums@.len() == p,
            totals@.len() == p,
            forall|i: int|
                0 <= i < p ==> joins_at(
                    math,
                    (signal@[i], levels@[i]),
                    start as int,
                    frame@,
                    weights@,
                    i,
                    #[trigger] sums@[i],
                    totals@[i],
                ),
        decreases signal@.len() - p,
    {
        if p >= start && p - start < size && p - start < frame.len() {
            let at: usize = p - start;
            sums.push(join_sample(math, signal[p], frame[at].re, size, weights[at]));
            totals.push(gather(math, levels[p], weights[at]));
        } else {
            sums.push(signal[p]);
            totals.push(levels[p]);
        }
        p += 1;
    }
    (sums, totals)
}

/// Whether the sums after a frame can follow from those before it.
pub open spec fn is_added<M: TimeFreqMath>(
    math: &M,
    result: GaborResult,
    weights: Seq<Single>,
    sums: Seq<(Seq<Single>, Seq<Single>)>,
    k: int,
) -> bool {
    exists|spectrum: Vec<Bin>, frame: Vec<Bin>|
        {
            &&& spectrum@ == mirrored_of(bins_of(result, k), result.window_size as int)
            &&& #[trigger] restores(math, spectrum, frame)
            &&& is_overlap(
                math,
                sums[k],
                k * result.hop_size,
                frame@,
                weights,
                sums[k + 1],
            )
        }
}

/// Whether a signal can be that of spectra of frames, given the sums on the
/// way.
pub open spec fn is_synthesis<M: TimeFreqMath>(
    math: &M,
    result: GaborResult,
    sigma: Single,
    weights: Seq<Single>,
    sums: Seq<(Seq<Single>, Seq<Single>)>,
    r: Seq<Single>,
) -> bool {
    let n = (result.num_frames - 1) * result.hop_size + result.window_size;
    let zeros = Seq::new(n as nat, |i: int| Single { bits: 0 });
    &&& call_ensures(M::bell_width, (math, result.window_size), sigma)
    &&& is_bell(math, result.window_size, sigma, weights)
    &&& sums.len() == result.num_frames + 1
    &&& sums[0] == (zeros, zeros)
    &&& forall|k: int|
        0 <= k < result.num_frames ==> #[trigger] is_added(math, result, weights, sums, k)
    &&& r.len() == n
    &&& forall|i: int|
        0 <= i < n ==> is_levelled(
            math,
            sums.last().0[i],
            sums.last().1[i],
            #[trigger] r[i],
        )
}

/// A transform of a signal whose resolution follows the frequency.
#[derive(Debug)]
pub struct STransformResult {
    /// The values, frequency by frequency.
    pub coefficients: Vec<Bin>,
    /// The number of samples of the signal.
    pub n: usize,
    /// Sample rate in Hz.
    pub sample_rate: Single,
}

impl STransformResult {
    /// The magnitude at a time and a frequency.
    pub fn magnitude<M: TimeFreqMath>(&self, math: &M, time_idx: usize, freq_idx: usize) -> (r:
        Single)
        requires
            freq_idx * self.n + time_idx < self.coefficients@.len(),
        ensures
            call_ensures(
                M::norm,
                (math, self.coefficients@[freq_idx * self.n + time_idx]),
                r,
            ),
    {
        math.norm(self.coefficients[self.place(time_idx, freq_idx)])
    }

    /// The phase at a time and a frequency.
    pub fn phase<M: TimeFreqMath>(&self, math: &M, time_idx: usize, freq_idx: usize) -> (r: Single)
        requires
            freq_idx * self.n + time_idx < self.coefficients@.len(),
        ensures
            call_ensures(M::arg, (math, self.coefficients@[freq_idx * self.n + time_idx]), r),
    {
        math.arg(self.coefficients[self.place(time_idx, freq_idx)])
    }

    fn place(&self, time_idx: usize, freq_idx: usize) -> (r: usize)
        requires
            freq_idx * self.n + time_idx < self.coefficients@.len(),
        ensures
            r == freq_idx * self.n + time_idx,
    {
        proof {
            crate::io::signal::spectral::place_is_small(freq_idx, self.n, time_idx);
            assert(self.coefficients@.len() == self.coefficients.len());
        }
        freq_idx * self.n + time_idx
    }

    /// The magnitudes of all values.
    pub fn to_magnitude<M: TimeFreqMath>(&self, math: &M) -> (r: Vec<Single>)
        ensures
            r@.len() == self.coefficients@.len(),
            forall|i: int|
                0 <= i < r@.len() ==> call_ensures(
                    M::norm,
                    (math, self.coefficients@[i]),
                    #[trigger] r@[i],
                ),
    {
        let mut out: Vec<Single> = Vec::new();
        let mut i: usize = 0;
        while i < self.coefficients.len()
            invariant
                i <= self.coefficients@.len(),
                out@.len() == i,
                forall|k: int|
                    0 <= k < i ==> call_ensures(
                        M::norm,
                        (math, self.coefficients@[k]),
                        #[trigger] out@[k],
                    ),
            decreases self.coefficients@.len() - i,
        {
            out.push(math.norm(self.coefficients[i]));
            i += 1;
        }
        out
    }
}

/// The frequency of a bin; the upper half stands for those below zero.
pub open spec fn signed_bin(k: int, n: int) -> int {
    if k > n / 2 {
        k - n
    } else {
        k
    }
}

/// Whether a spectrum can be another weighed by a bell curve around a
/// frequency.
pub open spec fn is_localized<M: TimeFreqMath>(
    math: &M,
    spectrum: Seq<Bin>,
    n: int,
    frequency: usize,
    factor: Single,
    r: Seq<Bin>,
) -> bool {
    &&& r.len() == (if spectrum.len() < n {
        spectrum.len() as int
    } else {
        n
    })
    &&& forall|k: int|
        0 <= k < r.len() ==> is_local(
            math,
            spectrum[k],
            (signed_bin(k, n) - frequency) as i64,
            frequency,
            factor,
            #[trigger] r[k],
        )
}

/// The real parts of complex numbers.
pub open spec fn real_parts(bins: Seq<Bin>) -> Seq<Single> {
    bins.map_values(|x: Bin| x.re)
}

/// The imaginary parts of complex numbers.
pub open spec fn imaginary_parts(bins: Seq<Bin>) -> Seq<Single> {
    bins.map_values(|x: Bin| x.im)
}

/// Whether `r` can be the sum of complex numbers divided by a count.
pub open spec fn is_bin_mean<M: TimeFreqMath>(math: &M, bins: Seq<Bin>, n: usize, r: Bin) -> bool {
    exists|across: Single, up: Single|
        {
            &&& #[trigger] crate::arith::is_total(
                math,
                Single { bits: 0 },
                real_parts(bins),
                across,
            )
            &&& #[trigger] crate::arith::is_total(
                math,
                Single { bits: 0 },
                imaginary_parts(bins),
                up,
            )
            &&& call_ensures(M::over, (math, across, n), r.re)
            &&& call_ensures(M::over, (math, up, n), r.im)
        }
}

fn bin_mean<M: TimeFreqMath>(math: &M, bins: &Vec<Bin>, n: usize) -> (r: Bin)
    ensures
        is_bin_mean(math, bins@, n, r),
{
    let mut res: Vec<Single> = Vec::new();
    let mut ims: Vec<Single> = Vec::new();
    let mut i: usize = 0;
    while i < bins.len()
        invariant
            i <= bins@.len(),
            res@ == real_parts(bins@.take(i as int)),
            ims@ == imaginary_parts(bins@.take(i as int)),
        decreases bins@.len() - i,
    {
        res.push(bins[i].re);
        ims.push(bins[i].im);
        i += 1;
        assert(res@ =~= real_parts(bins@.take(i as int)));
        assert(ims@ =~= imaginary_parts(bins@.take(i as int)));
    }
    assert(bins@.take(i as int) =~= bins@);
    let zero: Single = Single::zero();
    let across: Single = total(math, zero, res.as_slice());
    let up: Single = total(math, zero, ims.as_slice());
    assert(zero == Single { bits: 0 });
    assert(crate::arith::is_total(math, Single { bits: 0 }, real_parts(bins@), across));
    assert(crate::arith::is_total(math, Single { bits: 0 }, imaginary_parts(bins@), up));
    Bin { re: math.over(across, n), im: math.over(up, n) }
}

/// Whether `r` can be a bin weighed by a bell curve around a frequency that is
/// `shift` bins off.
pub open spec fn is_local<M: TimeFreqMath>(
    math: &M,
    x: Bin,
    shift: i64,
    frequency: usize,
    factor: Single,
    r: Bin,
) -> bool {
    exists|weight: Single|
        {
            &&& #[trigger] call_ensures(M::locality, (math, shift, frequency, factor), weight)
            &&& call_ensures(M::product, (math, x.re, weight), r.re)
            &&& call_ensures(M::product, (math, x.im, weight), r.im)
        }
}

fn localize<M: TimeFreqMath>(math: &M, x: Bin, shift: i64, frequency: usize, factor: Single) -> (r:
    Bin)
    ensures
        is_local(math, x, shift, frequency, factor, r),
{
    let weight: Single = math.locality(shift, frequency, factor);
    assert(call_ensures(M::locality, (math, shift, frequency, factor), weight));
    Bin { re: math.product(x.re, weight), im: math.product(x.im, weight) }
}

/// Whether a row can be that of a frequency: the mean of the spectrum over
/// all times for zero, else the signal of the spectrum around it.
pub open spec fn is_row<M: TimeFreqMath>(
    math: &M,
    spectrum: Vec<Bin>,
    n: int,
    frequency: usize,
    factor: Single,
    r: Seq<Bin>,
) -> bool {
    if frequency == 0 {
        exists|mean: Bin|
            {
                &&& #[trigger] is_bin_mean(math, spectrum@, n as usize, mean)
                &&& r == Seq::new(n as nat, |t: int| mean)
            }
    } else {
        exists|local: Vec<Bin>, signal: Vec<Bin>|
            {
                &&& is_localized(math, spectrum@, n, frequency, factor, local@)
                &&& #[trigger] restores(math, local, signal)
                &&& r == signal@
            }
    }
}

/// Rows one after the other.
pub open spec fn joined<T>(rows: Seq<Seq<T>>) -> Seq<T>
    decreases rows.len(),
{
    if rows.len() == 0 {
        Seq::empty()
    } else {
        joined(rows.drop_last()) + rows.last()
    }
}

/// Whether `r` can be the transform of a signal, given its spectrum and the
/// rows.
pub open spec fn is_s_transform<M: TimeFreqMath>(
    math: &M,
    signal: Seq<Single>,
    factor: Single,
    held: Vec<Bin>,
    spectrum: Vec<Bin>,
    rows: Seq<Seq<Bin>>,
    r: Seq<Bin>,
) -> bool {
    &&& held@ == crate::io::signal::reals(signal)
    &&& transforms(math, held, spectrum)
    &&& rows.len() == signal.len()
    &&& forall|f: int|
        0 <= f < rows.len() ==> is_row(
            math,
            spectrum,
            signal.len() as int,
            f as usize,
            factor,
            #[trigger] rows[f],
        )
    &&& r == joined(rows)
}

/// What finds transforms whose resolution follows the frequency.
#[derive(Debug, Clone, Copy, PartialEq, Eq, Structural)]
pub struct STransform {
    sample_rate: Single,
}

impl STransform {
    /// Sample rate in Hz.
    pub closed spec fn rate(&self) -> Single {
        self.sample_rate
    }

    /// What finds transforms at a sample rate.
    pub fn new(sample_rate: Single) -> (r: Self)
        ensures
            r.rate() == sample_rate,
    {
        STransform { sample_rate }
    }

    /// The transform of a signal.
    pub fn compute<M: TimeFreqMath>(&self, math: &M, signal: &[Single], k_factor: Single) -> (r:
        IoResult<STransformResult>)
        requires
            signal@.len() <= i32::MAX,
        ensures
            r is Ok,
            r->Ok_0.n == signal@.len(),
            r->Ok_0.sample_rate == self.rate(),
            exists|held: Vec<Bin>, spectrum: Vec<Bin>, rows: Seq<Seq<Bin>>|
                #[trigger] is_s_transform(
                    math,
                    signal@,
                    k_factor,
                    held,
                    spectrum,
                    rows,
                    r->Ok_0.coefficients@,
                ),
    {
        let n: usize = signal.len();
        let held: Vec<Bin> = crate::io::signal::to_bins(signal);
        let spectrum: Vec<Bin> = math.forward(&held);
        assert(transforms(math, held, spectrum));
        let ghost mut rows: Seq<Seq<Bin>> = Seq::empty();
        let mut out: Vec<Bin> = Vec::new();
        let mut f: usize = 0;
        while f < n
            invariant
                f <= n,
                n == signal@.len(),
                n <= i32::MAX,
                rows.len() == f,
                forall|i: int|
                    0 <= i < f ==> is_row(
                        math,
                        spectrum,
                        n as int,
                        i as usize,
                        k_factor,
                        #[trigger] rows[i],
                    ),
                out@ == joined(rows),
            decreases n - f,
        {
            let mut row: Vec<Bin> = Self::row(math, &spectrum, n, f, k_factor);
            proof {
                let more = rows.push(row@);
                assert(more.drop_last() =~= rows);
                rows = more;
            }
            out.append(&mut row);
            f += 1;
        }
        let r: IoResult<STransformResult> = Ok(
            STransformResult { coefficients: out, n, sample_rate: self.sample_rate },
        );
        assert(is_s_transform(
            math,
            signal@,
            k_factor,
            held,
            spectrum,
            rows,
            r->Ok_0.coefficients@,
        ));
        r
    }

    fn row<M: TimeFreqMath>(
        math: &M,
        spectrum: &Vec<Bin>,
        n: usize,
        frequency: usize,
        k_factor: Single,
    ) -> (r: Vec<Bin>)
        requires
            n <= i32::MAX,
            frequency < n,
        ensures
            is_row(math, *spectrum, n as int, frequency, k_factor, r@),
    {
        if frequency == 0 {
            let mean: Bin = bin_mean(math, spectrum, n);
            assert(is_bin_mean(math, spectrum@, n as int as usize, mean));
            let r: Vec<Bin> = vec![mean; n];
            assert(r@ =~= Seq::new(n as nat, |t: int| mean));
            return r;
        }
        let mut local: Vec<Bin> = Vec::new();
        let mut k: usize = 0;
        while k < n && k < spectrum.len()
            invariant
                k <= n,
                k <= spectrum@.len(),
                n <= i32::MAX,
                frequency < n,
                local@.len() == k,
                forall|i: int|
                    0 <= i < k ==> is_local(
                        math,
                        spectrum@[i],
                        (signed_bin(i, n as int) - frequency) as i64,
                        frequency,
                        k_factor,
                        #[trigger] local@[i],
                    ),
            decreases n - k,
        {
            let shift: i64 = signed_of(k, n) - frequency as i64;
            local.push(localize(math, spectrum[k], shift, frequency, k_factor));
            k += 1;
        }
        let signal: Vec<Bin> = math.inverse(&local);
        assert(restores(math, local, signal));
        signal
    }
}

fn signed_of(k: usize, n: usize) -> (r: i64)
    requires
        k < n <= i32::MAX,
    ensures
        r == signed_bin(k as int, n as int),
{
    if k > n / 2 {
        k as i64 - n as i64
    } else {
        k as i64
    }
}

/// Rows of one length come to as many values as there are rows, times that
/// length.
pub proof fn rows_fill<T>(rows: Seq<Seq<T>>, width: int)
    requires
        forall|t: int| 0 <= t < rows.len() ==> (#[trigger] rows[t]).len() == width,
    ensures
        joined(rows).len() == rows.len() * width,
    decreases rows.len(),
{
    if rows.len() > 0 {
        let before = rows.drop_last();
        assert forall|t: int| 0 <= t < before.len() implies (#[trigger] before[t]).len()
            == width by {
            assert(before[t] == rows[t]);
        }
        rows_fill(before, width);
        assert(rows.last() == rows[rows.len() - 1]);
        assert(rows.len() * width == before.len() * width + width) by (nonlinear_arith)
            requires
                rows.len() == before.len() + 1,
        ;
    } else {
        assert(rows.len() * width == 0) by (nonlinear_arith)
            requires
                rows.len() == 0,
        ;
    }
}

/// Where all rows have one length, the values of each stand one after the
/// other, row by row.
pub proof fn rows_stand_in_order<T>(rows: Seq<Seq<T>>, width: int, t: int, f: int)
    requires
        forall|i: int| 0 <= i < rows.len() ==> (#[trigger] rows[i]).len() == width,
        0 <= t < rows.len(),
        0 <= f < width,
    ensures
        0 <= t * width + f < joined(rows).len(),
        joined(rows)[t * width + f] == rows[t][f],
    decreases rows.len(),
{
    let before = rows.drop_last();
    assert forall|i: int| 0 <= i < before.len() implies (#[trigger] before[i]).len() == width by {
        assert(before[i] == rows[i]);
    }
    rows_fill(rows, width);
    rows_fill(before, width);
    place_is_inside(t, f, rows.len() as int, width);
    if t < before.len() {
        rows_stand_in_order(before, width, t, f);
        assert(before[t] == rows[t]);
    }
}

/// A transform of a signal onto time and frequency with plain values.
#[derive(Debug)]
pub struct WignerVilleResult {
    /// The values, time by time.
    pub values: Vec<Single>,
    /// The number of times.
    pub n_time: usize,
    /// The number of frequencies.
    pub n_freq: usize,
    /// Sample rate in Hz.
    pub sample_rate: Single,
}

impl WignerVilleResult {
    /// The value at a time and a frequency.
    pub fn get(&self, time_idx: usize, freq_idx: usize) -> (r: Single)
        requires
            time_idx * self.n_freq + freq_idx < self.values@.len(),
        ensures
            r == self.values@[time_idx * self.n_freq + freq_idx],
    {
        proof {
            crate::io::signal::spectral::place_is_small(time_idx, self.n_freq, freq_idx);
            assert(self.values@.len() == self.values.len());
        }
        self.values[time_idx * self.n_freq + freq_idx]
    }

    /// The frequency of a bin, in Hz.
    pub fn bin_to_hz<M: TimeFreqMath>(&self, math: &M, bin: usize) -> (r: Single)
        ensures
            call_ensures(M::bin_hz, (math, bin, self.sample_rate, self.n_freq), r),
    {
        math.bin_hz(bin, self.sample_rate, self.n_freq)
    }
}

/// Whether a bin can be the product of the samples that lie a distance before
/// and behind a time, or nothing where one lies outside the signal.
pub open spec fn is_lag<M: TimeFreqMath>(
    math: &M,
    signal: Seq<Single>,
    t: int,
    tau: int,
    x: Bin,
) -> bool {
    if 0 <= t + tau < signal.len() && 0 <= t - tau < signal.len() {
        &&& x.im.bits == 0
        &&& call_ensures(M::product, (math, signal[t + tau], signal[t - tau]), x.re)
    } else {
        x == Bin::of(Single { bits: 0 })
    }
}

/// Whether bins can be the products around a time, by distance.
pub open spec fn are_lags<M: TimeFreqMath>(
    math: &M,
    signal: Seq<Single>,
    t: int,
    r: Seq<Bin>,
) -> bool {
    &&& r.len() == signal.len()
    &&& forall|k: int|
        0 <= k < r.len() ==> is_lag(
            math,
            signal,
            t,
            signed_bin(k, signal.len() as int),
            #[trigger] r[k],
        )
}

/// The plain part of a bin, or zero where there is none.
pub open spec fn real_at(bins: Seq<Bin>, f: int) -> Single {
    if 0 <= f < bins.len() {
        bins[f].re
    } else {
        Single { bits: 0 }
    }
}

/// Whether a row can be that of a time: the plain part of the spectrum of the
/// products around it.
pub open spec fn is_moment<M: TimeFreqMath>(
    math: &M,
    signal: Seq<Single>,
    t: int,
    r: Seq<Single>,
) -> bool {
    exists|lags: Vec<Bin>, spectrum: Vec<Bin>|
        {
            &&& are_lags(math, signal, t, lags@)
            &&& #[trigger] transforms(math, lags, spectrum)
            &&& r == Seq::new(signal.len(), |f: int| real_at(spectrum@, f))
        }
}

/// Whether `r` can be the distribution of a signal, given its rows.
pub open spec fn is_distribution<M: TimeFreqMath>(
    math: &M,
    signal: Seq<Single>,
    rate: Single,
    rows: Seq<Seq<Single>>,
    r: WignerVilleResult,
) -> bool {
    &&& rows.len() == signal.len()
    &&& forall|t: int| 0 <= t < rows.len() ==> is_moment(math, signal, t, #[trigger] rows[t])
    &&& r.values@ == joined(rows)
    &&& r.n_time == signal.len()
    &&& r.n_freq == signal.len()
    &&& r.sample_rate == rate
}

proof fn moments_fill<M: TimeFreqMath>(
    math: &M,
    signal: Seq<Single>,
    rate: Single,
    rows: Seq<Seq<Single>>,
    r: WignerVilleResult,
)
    requires
        is_distribution(math, signal, rate, rows, r),
    ensures
        r.values@.len() == r.n_time * r.n_freq,
        forall|t: int| 0 <= t < rows.len() ==> (#[trigger] rows[t]).len() == signal.len(),
{
    assert forall|t: int| 0 <= t < rows.len() implies (#[trigger] rows[t]).len()
        == signal.len() by {
        assert(is_moment(math, signal, t, rows[t]));
    }
    rows_fill(rows, signal.len() as int);
}

/// A distribution has a value for every time and every frequency: that of the
/// row of the time.
pub proof fn distribution_is_full<M: TimeFreqMath>(
    math: &M,
    signal: Seq<Single>,
    rate: Single,
    rows: Seq<Seq<Single>>,
    r: WignerVilleResult,
    t: int,
    f: int,
)
    requires
        is_distribution(math, signal, rate, rows, r),
        0 <= t < r.n_time,
        0 <= f < r.n_freq,
    ensures
        0 <= t * r.n_freq + f < r.values@.len(),
        r.values@[t * r.n_freq + f] == rows[t][f],
{
    moments_fill(math, signal, rate, rows, r);
    rows_stand_in_order(rows, signal.len() as int, t, f);
}

/// What finds distributions of signals over time and frequency.
#[derive(Debug, Clone, Copy, PartialEq, Eq, Structural)]
pub struct WignerVille {
    sample_rate: Single,
}

impl WignerVille {
    /// Sample rate in Hz.
    pub closed spec fn rate(&self) -> Single {
        self.sample_rate
    }

    /// What finds distributions at a sample rate.
    pub fn new(sample_rate: Single) -> (r: Self)
        ensures
            r.rate() == sample_rate,
    {
        WignerVille { sample_rate }
    }

    /// The distribution of a signal.
    pub fn compute<M: TimeFreqMath>(&self, math: &M, signal: &[Single]) -> (r: IoResult<
        WignerVilleResult,
    >)
        requires
            signal@.len() <= i32::MAX,
        ensures
            r is Ok,
            exists|rows: Seq<Seq<Single>>|
                #[trigger] is_distribution(math, signal@, self.rate(), rows, r->Ok_0),
    {
        let n: usize = signal.len();
        let ghost mut rows: Seq<Seq<Single>> = Seq::empty();
        let mut out: Vec<Single> = Vec::new();
        let mut t: usize = 0;
        while t < n
            invariant
                t <= n,
                n == signal@.len(),
                n <= i32::MAX,
                rows.len() == t,
                forall|i: int| 0 <= i < t ==> is_moment(math, signal@, i, #[trigger] rows[i]),
                out@ == joined(rows),
            decreases n - t,
        {
            let mut row: Vec<Single> = Self::moment(math, signal, t);
            proof {
                let more = rows.push(row@);
                assert(more.drop_last() =~= rows);
                rows = more;
            }
            out.append(&mut row);
            t += 1;
        }
        let r: IoResult<WignerVilleResult> = Ok(
            WignerVilleResult {
                values: out,
                n_time: n,
                n_freq: n,
                sample_rate: self.sample_rate,
            },
        );
        assert(is_distribution(math, signal@, self.rate(), rows, r->Ok_0));
        r
    }

    fn moment<M: TimeFreqMath>(math: &M, signal: &[Single], t: usize) -> (r: Vec<Single>)
        requires
            t < signal@.len() <= i32::MAX,
        ensures
            is_moment(math, signal@, t as int, r@),
    {
        let n: usize = signal.len();
        let mut lags: Vec<Bin> = Vec::new();
        let mut k: usize = 0;
        while k < n
            invariant
                k <= n,
                n == signal@.len(),
                t < n <= i32::MAX,
                lags@.len() == k,
                forall|i: int|
                    0 <= i < k ==> is_lag(
                        math,
                        signal@,
                        t as int,
                        signed_bin(i, n as int),
                        #[trigger] lags@[i],
                    ),
            decreases n - k,
        {
            let tau: i64 = signed_of(k, n);
            let plus: i64 = t as i64 + tau;
            let minus: i64 = t as i64 - tau;
            if 0 <= plus && plus < n as i64 && 0 <= minus && minus < n as i64 {
                let value: Single = math.product(signal[plus as usize], signal[minus as usize]);
                lags.push(Bin::from_real(value));
            } else {
                lags.push(Bin::from_real(Single::zero()));
            }
            k += 1;
        }
        let spectrum: Vec<Bin> = math.forward(&lags);
        assert(transforms(math, lags, spectrum));
        let mut out: Vec<Single> = Vec::new();
        let mut f: usize = 0;
        while f < n
            invariant
                f <= n,
                out@ == Seq::new(f as nat, |i: int| real_at(spectrum@, i)),
            decreases n - f,
        {
            if f < spectrum.len() {
                out.push(spectrum[f].re);
            } else {
                out.push(Single::zero());
            }
            f += 1;
            assert(out@ =~= Seq::new(f as nat, |i: int| real_at(spectrum@, i)));
        }
        out
    }
}

/// The values of the first `k` of the twenty-five neighbours of a place, time
/// by time, each with the square of its distance; those outside are left out.
pub open spec fn neighbours(
    values: Seq<Single>,
    times: int,
    freqs: int,
    t: int,
    f: int,
    k: int,
) -> Seq<(Single, u32)>
    decreases k,
{
    if k <= 0 {
        Seq::empty()
    } else {
        let before = neighbours(values, times, freqs, t, f, k - 1);
        let dt = (k - 1) / 5 - 2;
        let df = (k - 1) % 5 - 2;
        if 0 <= t + dt < times && 0 <= f + df < freqs {
            before.push((values[(t + dt) * freqs + f + df], (dt * dt + df * df) as u32))
        } else {
            before
        }
    }
}

/// The values of neighbours.
pub open spec fn values_of(near: Seq<(Single, u32)>) -> Seq<Single> {
    near.map_values(|x: (Single, u32)| x.0)
}

/// Whether weights can be those of neighbours by their distances.
pub open spec fn are_near<M: TimeFreqMath>(
    math: &M,
    near: Seq<(Single, u32)>,
    sigma: Single,
    weights: Seq<Single>,
) -> bool {
    &&& weights.len() == near.len()
    &&& forall|i: int|
        0 <= i < weights.len() ==> call_ensures(
            M::nearness,
            (math, near[i].1, sigma),
            #[trigger] weights[i],
        )
}

/// Whether a value can be another smoothed over neighbours: the sum of these,
/// each weighed by its distance, divided by the sum of the weights; it is kept
/// where there are hardly weights.
pub open spec fn is_smoothed<M: TimeFreqMath>(
    math: &M,
    near: Seq<(Single, u32)>,
    sigma: Single,
    before: Single,
    r: Single,
) -> bool {
    exists|weights: Seq<Single>, sum: Single, whole: Single|
        {
            &&& #[trigger] are_near(math, near, sigma, weights)
            &&& crate::arith::is_dot(
                math,
                Single { bits: 0 },
                values_of(near),
                weights,
                sum,
            )
            &&& crate::arith::is_total(math, Single { bits: 0 }, weights, whole)
            &&& #[trigger] is_kept_or_levelled(math, before, sum, whole, r)
        }
}

/// Whether `r` can be a sum divided by that of its weights; what was before
/// where there are hardly weights.
pub open spec fn is_kept_or_levelled<M: TimeFreqMath>(
    math: &M,
    before: Single,
    sum: Single,
    weights: Single,
    r: Single,
) -> bool {
    if (Single { bits: TINY_BITS }).below(weights) {
        call_ensures(M::quotient, (math, sum, weights), r)
    } else {
        r == before
    }
}

fn smooth<M: TimeFreqMath>(math: &M, near: &Vec<(Single, u32)>, sigma: Single, before: Single) -> (r:
    Single)
    ensures
        is_smoothed(math, near@, sigma, before, r),
{
    let mut values: Vec<Single> = Vec::new();
    let mut weights: Vec<Single> = Vec::new();
    let mut i: usize = 0;
    while i < near.len()
        invariant
            i <= near@.len(),
            values@ == values_of(near@.take(i as int)),
            weights@.len() == i,
            forall|k: int|
                0 <= k < i ==> call_ensures(
                    M::nearness,
                    (math, near@[k].1, sigma),
                    #[trigger] weights@[k],
                ),
        decreases near@.len() - i,
    {
        let (value, distance): (Single, u32) = near[i];
        values.push(value);
        weights.push(math.nearness(distance, sigma));
        i += 1;
        assert(values@ =~= values_of(near@.take(i as int)));
    }
    assert(near@.take(i as int) =~= near@);
    assert(are_near(math, near@, sigma, weights@));
    let zero: Single = Single::zero();
    assert(zero == Single { bits: 0 });
    let sum: Single = dot(math, zero, values.as_slice(), weights.as_slice());
    let whole: Single = total(math, zero, weights.as_slice());
    let r: Single = if Single::from_bits(TINY_BITS).less(whole) {
        math.quotient(sum, whole)
    } else {
        before
    };
    assert(is_kept_or_levelled(math, before, sum, whole, r));
    r
}

/// Whether a value can be that of a distribution at a place, smoothed.
pub open spec fn smooths_at<M: TimeFreqMath>(
    math: &M,
    before: WignerVilleResult,
    sigma: Single,
    t: int,
    f: int,
    r: Single,
) -> bool {
    is_smoothed(
        math,
        neighbours(before.values@, before.n_time as int, before.n_freq as int, t, f, 25),
        sigma,
        before.values@[t * before.n_freq + f],
        r,
    )
}

/// Whether `r` can be a distribution smoothed.
pub open spec fn is_smooth<M: TimeFreqMath>(
    math: &M,
    before: WignerVilleResult,
    sigma: Single,
    rows: Seq<Seq<Single>>,
    r: WignerVilleResult,
) -> bool {
    &&& rows.len() == before.n_time
    &&& forall|t: int, f: int|
        0 <= t < rows.len() && 0 <= f < before.n_freq ==> smooths_at(
            math,
            before,
            sigma,
            t,
            f,
            #[trigger] rows[t][f],
        )
    &&& forall|t: int| 0 <= t < rows.len() ==> (#[trigger] rows[t]).len() == before.n_freq
    &&& r.values@ == joined(rows)
    &&& r.n_time == before.n_time
    &&& r.n_freq == before.n_freq
    &&& r.sample_rate == before.sample_rate
}

/// What finds smoothed distributions of signals over time and frequency.
#[derive(Debug, Clone, Copy, PartialEq, Eq, Structural)]
pub struct ChoiWilliams {
    wv: WignerVille,
    sigma: Single,
}

impl ChoiWilliams {
    /// Sample rate in Hz.
    pub closed spec fn rate(&self) -> Single {
        self.wv.rate()
    }

    /// How far the values are smoothed.
    pub closed spec fn width(&self) -> Single {
        self.sigma
    }

    /// What finds distributions at a sample rate, smoothed so far.
    pub fn new(sample_rate: Single, sigma: Single) -> (r: Self)
        ensures
            r.rate() == sample_rate,
            r.width() == sigma,
    {
        ChoiWilliams { wv: WignerVille::new(sample_rate), sigma }
    }

    /// The smoothed distribution of a signal.
    pub fn compute<M: TimeFreqMath>(&self, math: &M, signal: &[Single]) -> (r: IoResult<
        WignerVilleResult,
    >)
        requires
            signal@.len() <= i32::MAX,
        ensures
            r is Ok,
            exists|
                moments: Seq<Seq<Single>>,
                before: WignerVilleResult,
                rows: Seq<Seq<Single>>,
            |
                #[trigger] is_distribution(math, signal@, self.rate(), moments, before)
                    && #[trigger] is_smooth(math, before, self.width(), rows, r->Ok_0),
    {
        let before: WignerVilleResult = match self.wv.compute(math, signal) {
            Ok(result) => result,
            Err(e) => {
                return Err(e);
            },
        };
        let ghost moments = choose|rows: Seq<Seq<Single>>|
            #[trigger] is_distribution(math, signal@, self.rate(), rows, before);
        proof {
            moments_fill(math, signal@, self.rate(), moments, before);
        }
        let ghost mut rows: Seq<Seq<Single>> = Seq::empty();
        let mut out: Vec<Single> = Vec::new();
        let mut t: usize = 0;
        while t < before.n_time
            invariant
                t <= before.n_time,
                before.n_time <= i32::MAX,
                before.n_freq <= i32::MAX,
                before.values@.len() == before.n_time * before.n_freq,
                rows.len() == t,
                forall|i: int, f: int|
                    0 <= i < t && 0 <= f < before.n_freq ==> smooths_at(
                        math,
                        before,
                        self.width(),
                        i,
                        f,
                        #[trigger] rows[i][f],
                    ),
                forall|i: int| 0 <= i < t ==> (#[trigger] rows[i]).len() == before.n_freq,
                out@ == joined(rows),
            decreases before.n_time - t,
        {
            let mut row: Vec<Single> = Self::smooth_row(math, &before, self.sigma, t);
            proof {
                let more = rows.push(row@);
                assert(more.drop_last() =~= rows);
                assert forall|i: int, f: int|
                    0 <= i < more.len() && 0 <= f < before.n_freq implies smooths_at(
                    math,
                    before,
                    self.width(),
                    i,
                    f,
                    #[trigger] more[i][f],
                ) by {
                    if i < t {
                        assert(more[i][f] == rows[i][f]);
                    }
                }
                rows = more;
            }
            out.append(&mut row);
            t += 1;
        }
        let r: IoResult<WignerVilleResult> = Ok(
            WignerVilleResult {
                values: out,
                n_time: before.n_time,
                n_freq: before.n_freq,
                sample_rate: before.sample_rate,
            },
        );
        assert(is_smooth(math, before, self.width(), rows, r->Ok_0));
        r
    }

    fn smooth_row<M: TimeFreqMath>(
        math: &M,
        before: &WignerVilleResult,
        sigma: Single,
        t: usize,
    ) -> (r: Vec<Single>)
        requires
            t < before.n_time,
            before.n_time <= i32::MAX,
            before.n_freq <= i32::MAX,
            before.values@.len() == before.n_time * before.n_freq,
        ensures
            r@.len() == before.n_freq,
            forall|f: int|
                0 <= f < r@.len() ==> smooths_at(
                    math,
                    *before,
                    sigma,
                    t as int,
                    f,
                    #[trigger] r@[f],
                ),
    {
        let mut out: Vec<Single> = Vec::new();
        let mut f: usize = 0;
        while f < before.n_freq
            invariant
                t < before.n_time,
                before.n_time <= i32::MAX,
                before.n_freq <= i32::MAX,
                before.values@.len() == before.n_time * before.n_freq,
                f <= before.n_freq,
                out@.len() == f,
                forall|i: int|
                    0 <= i < f ==> smooths_at(
                        math,
                        *before,
                        sigma,
                        t as int,
                        i,
                        #[trigger] out@[i],
                    ),
            decreases before.n_freq - f,
        {
            proof {
                place_is_inside(
                    t as int,
                    f as int,
                    before.n_time as int,
                    before.n_freq as int,
                );
            }
            let near: Vec<(Single, u32)> = Self::near(before, t, f);
            let value: Single = smooth(math, &near, sigma, before.get(t, f));
            out.push(value);
            f += 1;
        }
        out
    }

    fn near(before: &WignerVilleResult, t: usize, f: usize) -> (r: Vec<(Single, u32)>)
        requires
            t < before.n_time <= i32::MAX,
            f < before.n_freq <= i32::MAX,
            before.values@.len() == before.n_time * before.n_freq,
        ensures
            r@ == neighbours(
                before.values@,
                before.n_time as int,
                before.n_freq as int,
                t as int,
                f as int,
                25,
            ),
    {
        let mut out: Vec<(Single, u32)> = Vec::new();
        let mut k: i64 = 0;
        while k < 25
            invariant
                0 <= k <= 25,
                t < before.n_time <= i32::MAX,
                f < before.n_freq <= i32::MAX,
                before.values@.len() == before.n_time * before.n_freq,
                out@ == neighbours(
                    before.values@,
                    before.n_time as int,
                    before.n_freq as int,
                    t as int,
                    f as int,
                    k as int,
                ),
            decreases 25 - k,
        {
            let dt: i64 = k / 5 - 2;
            let df: i64 = k % 5 - 2;
            let at: i64 = t as i64 + dt;
            let bin: i64 = f as i64 + df;
            if 0 <= at && at < before.n_time as i64 && 0 <= bin && bin < before.n_freq as i64 {
                proof {
                    place_is_inside(
                        at as int,
                        bin as int,
                        before.n_time as int,
                        before.n_freq as int,
                    );
                    assert(0 <= dt * dt <= 4 && 0 <= df * df <= 4) by (nonlinear_arith)
                        requires
                            -2 <= dt <= 2,
                            -2 <= df <= 2,
                    ;
                }
                let distance: u32 = (dt * dt + df * df) as u32;
                out.push((before.get(at as usize, bin as usize), distance));
            }
            k += 1;
        }
        out
    }
}

/// The place of a time and a frequency is inside.
pub proof fn place_is_inside(t: int, f: int, times: int, freqs: int)
    requires
        0 <= t < times,
        0 <= f < freqs,
    ensures
        0 <= t * freqs + f < times * freqs,
{
    assert(0 <= t * freqs && t * freqs + f < times * freqs) by (nonlinear_arith)
        requires
            0 <= t,
            t + 1 <= times,
            0 <= f < freqs,
    ;
}

/// The magnitudes of the spectra of the frames of a signal.
#[derive(Debug)]
pub struct ReassignedResult {
    /// The magnitudes, frame by frame.
    pub spectrogram: Vec<Single>,
    /// The number of frames.
    pub num_frames: usize,
    /// The number of bins of a frame.
    pub num_bins: usize,
    /// The number of samples between frames.
    pub hop_size: usize,
    /// Sample rate in Hz.
    pub sample_rate: Single,
}

impl ReassignedResult {
    /// The magnitude of a bin of a frame.
    pub fn get(&self, frame: usize, bin: usize) -> (r: Single)
        requires
            frame * self.num_bins + bin < self.spectrogram@.len(),
        ensures
            r == self.spectrogram@[frame * self.num_bins + bin],
    {
        proof {
            crate::io::signal::spectral::place_is_small(frame, self.num_bins, bin);
            assert(self.spectrogram@.len() == self.spectrogram.len());
        }
        self.spectrogram[frame * self.num_bins + bin]
    }
}

/// The window that is used for one asked for: only the raised cosines differ
/// from all alike.
pub open spec fn window_used(window: WindowType) -> WindowType {
    match window {
        WindowType::Hann => WindowType::Hann,
        WindowType::Hamming => WindowType::Hamming,
        _ => WindowType::Rectangular,
    }
}

/// Whether a value can be the magnitude of a bin, or zero where there is none.
pub open spec fn is_magnitude<M: TimeFreqMath>(
    math: &M,
    spectrum: Seq<Bin>,
    bin: int,
    x: Single,
) -> bool {
    if bin < spectrum.len() {
        call_ensures(M::norm, (math, spectrum[bin]), x)
    } else {
        x.bits == 0
    }
}

/// Whether a row can be the magnitudes of the frame of a signal at a place.
pub open spec fn is_frame_row<M: TimeFreqMath>(
    math: &M,
    signal: Seq<Single>,
    start: int,
    weights: Seq<Single>,
    bins: int,
    spectrum: Vec<Bin>,
    r: Seq<Single>,
) -> bool {
    &&& is_frame_spectrum(math, signal, start, weights, spectrum)
    &&& r.len() == bins
    &&& forall|b: int| 0 <= b < bins ==> is_magnitude(math, spectrum@, b, #[trigger] r[b])
}

/// Whether rows can be the magnitudes of the frames of a signal.
pub open spec fn are_frame_rows<M: TimeFreqMath>(
    math: &M,
    signal: Seq<Single>,
    hop: int,
    weights: Seq<Single>,
    bins: int,
    spectra: Seq<Vec<Bin>>,
    rows: Seq<Seq<Single>>,
) -> bool {
    &&& spectra.len() == rows.len()
    &&& forall|k: int|
        0 <= k < rows.len() ==> is_frame_row(
            math,
            signal,
            k * hop,
            weights,
            bins,
            spectra[k],
            #[trigger] rows[k],
        )
}

/// Whether `r` can be the magnitudes of the frames of a signal.
pub open spec fn is_reassigned<M: TimeFreqMath>(
    math: &M,
    signal: Seq<Single>,
    size: usize,
    hop: usize,
    window: WindowType,
    rate: Single,
    weights: Seq<Single>,
    spectra: Seq<Vec<Bin>>,
    rows: Seq<Seq<Single>>,
    r: ReassignedResult,
) -> bool {
    &&& crate::io::signal::spectral::is_window(math, window_used(window), size, weights)
    &&& rows.len() == frame_count(signal.len() as int, size as int, hop as int)
    &&& are_frame_rows(math, signal, hop as int, weights, size as int / 2 + 1, spectra, rows)
    &&& r.spectrogram@ == joined(rows)
    &&& r.num_frames == rows.len()
    &&& r.num_bins == size / 2 + 1
    &&& r.hop_size == hop
    &&& r.sample_rate == rate
}

/// What finds the magnitudes of the spectra of frames.
#[derive(Debug, Clone, Copy, PartialEq, Eq, Structural)]
pub struct ReassignedSpectrogram {
    sample_rate: Single,
}

impl ReassignedSpectrogram {
    /// Sample rate in Hz.
    pub closed spec fn rate(&self) -> Single {
        self.sample_rate
    }

    /// What finds magnitudes at a sample rate.
    pub fn new(sample_rate: Single) -> (r: Self)
        ensures
            r.rate() == sample_rate,
    {
        ReassignedSpectrogram { sample_rate }
    }

    /// The magnitudes of the spectra of the frames of a signal.
    pub fn compute<M: TimeFreqMath>(
        &self,
        math: &M,
        signal: &[Single],
        window_size: usize,
        hop_size: usize,
        window_type: WindowType,
    ) -> (r: IoResult<ReassignedResult>)
        requires
            hop_size > 0,
            window_size > 0 || signal@.len() < usize::MAX,
        ensures
            r is Ok,
            exists|weights: Seq<Single>, spectra: Seq<Vec<Bin>>, rows: Seq<Seq<Single>>|
                #[trigger] is_reassigned(
                    math,
                    signal@,
                    window_size,
                    hop_size,
                    window_type,
                    self.rate(),
                    weights,
                    spectra,
                    rows,
                    r->Ok_0,
                ),
    {
        let n: usize = signal.len();
        let num_frames: usize = count_frames(n, window_size, hop_size);
        let num_bins: usize = window_size / 2 + 1;
        let weights: Vec<Single> = Self::generate_window(math, window_size, window_type);
        let ghost mut spectra: Seq<Vec<Bin>> = Seq::empty();
        let ghost mut rows: Seq<Seq<Single>> = Seq::empty();
        let mut out: Vec<Single> = Vec::new();
        let mut k: usize = 0;
        while k < num_frames
            invariant
                k <= num_frames,
                n == signal@.len(),
                hop_size > 0,
                weights@.len() == window_size,
                num_frames == frame_count(n as int, window_size as int, hop_size as int),
                rows.len() == k,
                are_frame_rows(
                    math,
                    signal@,
                    hop_size as int,
                    weights@,
                    num_bins as int,
                    spectra,
                    rows,
                ),
                out@ == joined(rows),
            decreases num_frames - k,
        {
            proof {
                frame_starts(n as int, window_size as int, hop_size as int, k as int);
            }
            let frame: Vec<Bin> = cut_frame(math, signal, k * hop_size, &weights);
            let spectrum: Vec<Bin> = math.forward(&frame);
            let mut row: Vec<Single> = Self::magnitudes(math, &spectrum, num_bins);
            proof {
                assert(transforms(math, frame, spectrum));
                assert(is_frame_spectrum(math, signal@, k * hop_size, weights@, spectrum));
                let before = rows;
                let found = spectra;
                rows = rows.push(row@);
                spectra = spectra.push(spectrum);
                assert(rows.drop_last() =~= before);
                assert forall|i: int| 0 <= i < rows.len() implies is_frame_row(
                    math,
                    signal@,
                    i * hop_size,
                    weights@,
                    num_bins as int,
                    spectra[i],
                    #[trigger] rows[i],
                ) by {
                    if i < k {
                        assert(rows[i] == before[i]);
                        assert(spectra[i] == found[i]);
                    }
                }
            }
            out.append(&mut row);
            k += 1;
        }
        let r: IoResult<ReassignedResult> = Ok(
            ReassignedResult {
                spectrogram: out,
                num_frames,
                num_bins,
                hop_size,
                sample_rate: self.sample_rate,
            },
        );
        assert(is_reassigned(
            math,
            signal@,
            window_size,
            hop_size,
            window_type,
            self.rate(),
            weights@,
            spectra,
            rows,
            r->Ok_0,
        ));
        r
    }

    fn magnitudes<M: TimeFreqMath>(math: &M, spectrum: &Vec<Bin>, bins: usize) -> (r: Vec<Single>)
        ensures
            r@.len() == bins,
            forall|b: int|
                0 <= b < bins ==> is_magnitude(math, spectrum@, b, #[trigger] r@[b]),
    {
        let mut out: Vec<Single> = Vec::new();
        let mut b: usize = 0;
        while b < bins
            invariant
                b <= bins,
                out@.len() == b,
                forall|i: int|
                    0 <= i < b ==> is_magnitude(math, spectrum@, i, #[trigger] out@[i]),
            decreases bins - b,
        {
            if b < spectrum.len() {
                out.push(math.norm(spectrum[b]));
            } else {
                out.push(Single::zero());
            }
            b += 1;
        }
        out
    }

    fn generate_window<M: TimeFreqMath>(math: &M, size: usize, window_type: WindowType) -> (r: Vec<
        Single,
    >)
        ensures
            crate::io::signal::spectral::is_window(math, window_used(window_type), size, r@),
    {
        let window: WindowType = match window_type {
            WindowType::Hann => WindowType::Hann,
            WindowType::Hamming => WindowType::Hamming,
            _ => WindowType::Rectangular,
        };
        window_weights(math, window, size)
    }
}

} // verus!
