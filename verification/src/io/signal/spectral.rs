//! Spectra over time.

use crate::arith::Arithmetic;
use crate::number::Single;
use vstd::prelude::*;

verus! {

/// The arithmetic on spectra over time. Nothing is required of what it
/// returns.
pub trait SpectralMath: Arithmetic<Single> {
    /// The frequency of a bin, in Hz.
    fn bin_hz(&self, bin: usize, sample_rate: Single, n_fft: usize) -> Single;

    /// The time of a frame, in seconds.
    fn frame_time(&self, frame: usize, hop_length: usize, sample_rate: Single) -> Single;

    /// A magnitude in decibels to a reference.
    fn decibels(&self, magnitude: Single, reference: Single) -> Single;
}

/// Whether `r` can be a magnitude in decibels, or the least number of them
/// where it would be less.
pub open spec fn is_decibels<M: SpectralMath>(
    math: &M,
    magnitude: Single,
    reference: Single,
    min_db: Single,
    r: Single,
) -> bool {
    exists|db: Single| #[trigger]
        call_ensures(M::decibels, (math, magnitude, reference), db) && r == db.greater(min_db)
}

/// Magnitudes and phases over time and frequency, frame by frame.
#[derive(Debug)]
pub struct Spectrogram {
    /// The magnitudes.
    pub magnitudes: Vec<Single>,
    /// The phases.
    pub phases: Vec<Single>,
    /// The number of frames.
    pub num_frames: usize,
    /// The number of frequencies.
    pub num_bins: usize,
    /// The number of samples between frames.
    pub hop_length: usize,
    /// Sample rate in Hz.
    pub sample_rate: Single,
}

impl Spectrogram {
    /// The place of a frequency of a frame.
    pub open spec fn place(&self, frame: usize, bin: usize) -> int {
        frame * self.num_bins + bin
    }

    /// The magnitude of a frequency of a frame.
    pub fn magnitude(&self, frame: usize, bin: usize) -> (r: Single)
        requires
            self.place(frame, bin) < self.magnitudes@.len(),
        ensures
            r == self.magnitudes@[self.place(frame, bin)],
    {
        proof {
            place_is_small(frame, self.num_bins, bin);
        }
        assert(self.magnitudes@.len() == self.magnitudes.len());
        self.magnitudes[frame * self.num_bins + bin]
    }

    /// The phase of a frequency of a frame.
    pub fn phase(&self, frame: usize, bin: usize) -> (r: Single)
        requires
            self.place(frame, bin) < self.phases@.len(),
        ensures
            r == self.phases@[self.place(frame, bin)],
    {
        proof {
            place_is_small(frame, self.num_bins, bin);
        }
        assert(self.phases@.len() == self.phases.len());
        self.phases[frame * self.num_bins + bin]
    }

    /// The power of a frequency of a frame.
    pub fn power<M: SpectralMath>(&self, math: &M, frame: usize, bin: usize) -> (r: Single)
        requires
            self.place(frame, bin) < self.magnitudes@.len(),
        ensures
            call_ensures(
                M::product,
                (
                    math,
                    self.magnitudes@[self.place(frame, bin)],
                    self.magnitudes@[self.place(frame, bin)],
                ),
                r,
            ),
    {
        let x: Single = self.magnitude(frame, bin);
        math.product(x, x)
    }

    /// The frequency of a bin, in Hz.
    pub fn bin_to_hz<M: SpectralMath>(&self, math: &M, bin: usize, n_fft: usize) -> (r: Single)
        ensures
            call_ensures(M::bin_hz, (math, bin, self.sample_rate, n_fft), r),
    {
        math.bin_hz(bin, self.sample_rate, n_fft)
    }

    /// The time of a frame, in seconds.
    pub fn frame_to_time<M: SpectralMath>(&self, math: &M, frame: usize) -> (r: Single)
        ensures
            call_ensures(M::frame_time, (math, frame, self.hop_length, self.sample_rate), r),
    {
        math.frame_time(frame, self.hop_length, self.sample_rate)
    }

    /// The magnitudes in decibels, none less than the least asked for.
    pub fn to_db<M: SpectralMath>(&self, math: &M, ref_value: Single, min_db: Single) -> (r: Vec<
        Single,
    >)
        ensures
            r@.len() == self.magnitudes@.len(),
            forall|i: int|
                0 <= i < r@.len() ==> is_decibels(
                    math,
                    self.magnitudes@[i],
                    ref_value,
                    min_db,
                    #[trigger] r@[i],
                ),
    {
        let mut out: Vec<Single> = Vec::new();
        let mut i: usize = 0;
        while i < self.magnitudes.len()
            invariant
                i <= self.magnitudes@.len(),
                out@.len() == i,
                forall|k: int|
                    0 <= k < i ==> is_decibels(
                        math,
                        self.magnitudes@[k],
                        ref_value,
                        min_db,
                        #[trigger] out@[k],
                    ),
            decreases self.magnitudes@.len() - i,
        {
            let db: Single = math.decibels(self.magnitudes[i], ref_value);
            assert(call_ensures(M::decibels, (math, self.magnitudes@[i as int], ref_value), db));
            out.push(db.max(min_db));
            i += 1;
        }
        out
    }
}

/// The place of a frequency is no less than the start of its frame.
pub proof fn place_is_small(frame: usize, num_bins: usize, bin: usize)
    ensures
        0 <= frame * num_bins <= frame * num_bins + bin,
{
    assert(0 <= frame * num_bins) by (nonlinear_arith)
        requires
            0 <= frame,
            0 <= num_bins,
    ;
}

/// How the samples of a frame are weighed.
#[derive(Debug, Clone, Copy, PartialEq, Eq, Structural)]
pub enum WindowType {
    /// All alike.
    Rectangular,
    /// By a raised cosine.
    Hann,
    /// By a raised cosine that does not reach zero.
    Hamming,
    /// By two cosines.
    Blackman,
    /// By a triangle.
    Bartlett,
    /// By a Bessel function.
    Kaiser { beta: Single },
}

/// The arithmetic of windows. Nothing is required of what it returns.
pub trait WindowMath: Arithmetic<Single> {
    /// The weight of a sample by a raised cosine.
    fn hann(&self, i: usize, size: usize) -> Single;

    /// The weight of a sample by a raised cosine that does not reach zero.
    fn hamming(&self, i: usize, size: usize) -> Single;

    /// The weight of a sample by two cosines.
    fn blackman(&self, i: usize, size: usize) -> Single;

    /// The weight of a sample by a triangle.
    fn bartlett(&self, i: usize, size: usize) -> Single;

    /// Where a sample lies on a half circle whose radius is given.
    fn height(&self, radius: Single, i: usize, size: usize) -> Single;

    /// The modified Bessel function of the first kind and order zero.
    fn bessel(&self, x: Single) -> Single;
}

/// The bit pattern of 1.0.
pub const ONE_BITS: u32 = 0x3f80_0000;

/// Whether `r` can be the weight of a sample by a Bessel function.
pub open spec fn is_kaiser<M: WindowMath>(
    math: &M,
    beta: Single,
    i: usize,
    size: usize,
    r: Single,
) -> bool {
    exists|height: Single, part: Single, whole: Single|
        {
            &&& #[trigger] call_ensures(M::height, (math, beta, i, size), height)
            &&& #[trigger] call_ensures(M::bessel, (math, height), part)
            &&& #[trigger] call_ensures(M::bessel, (math, beta), whole)
            &&& call_ensures(M::quotient, (math, part, whole), r)
        }
}

/// Whether `r` can be the weight of a sample of a frame.
pub open spec fn is_weight<M: WindowMath>(
    math: &M,
    window: WindowType,
    i: usize,
    size: usize,
    r: Single,
) -> bool {
    match window {
        WindowType::Rectangular => r.bits == ONE_BITS,
        WindowType::Hann => call_ensures(M::hann, (math, i, size), r),
        WindowType::Hamming => call_ensures(M::hamming, (math, i, size), r),
        WindowType::Blackman => call_ensures(M::blackman, (math, i, size), r),
        WindowType::Bartlett => call_ensures(M::bartlett, (math, i, size), r),
        WindowType::Kaiser { beta } => is_kaiser(math, beta, i, size, r),
    }
}

fn weight<M: WindowMath>(math: &M, window: WindowType, i: usize, size: usize) -> (r: Single)
    ensures
        is_weight(math, window, i, size, r),
{
    match window {
        WindowType::Rectangular => Single::from_bits(ONE_BITS),
        WindowType::Hann => math.hann(i, size),
        WindowType::Hamming => math.hamming(i, size),
        WindowType::Blackman => math.blackman(i, size),
        WindowType::Bartlett => math.bartlett(i, size),
        WindowType::Kaiser { beta } => {
            let height: Single = math.height(beta, i, size);
            assert(call_ensures(M::height, (math, beta, i, size), height));
            let part: Single = math.bessel(height);
            assert(call_ensures(M::bessel, (math, height), part));
            let whole: Single = math.bessel(beta);
            assert(call_ensures(M::bessel, (math, beta), whole));
            math.quotient(part, whole)
        },
    }
}

/// Whether weights can be those of the samples of a frame.
pub open spec fn is_window<M: WindowMath>(
    math: &M,
    window: WindowType,
    size: usize,
    r: Seq<Single>,
) -> bool {
    &&& r.len() == size
    &&& forall|i: int|
        0 <= i < size ==> is_weight(math, window, i as usize, size, #[trigger] r[i])
}

/// The weights of the samples of a frame.
pub fn window_weights<M: WindowMath>(math: &M, window: WindowType, size: usize) -> (r: Vec<Single>)
    ensures
        is_window(math, window, size, r@),
{
    let mut out: Vec<Single> = Vec::new();
    let mut i: usize = 0;
    while i < size
        invariant
            i <= size,
            out@.len() == i,
            forall|k: int|
                0 <= k < i ==> is_weight(math, window, k as usize, size, #[trigger] out@[k]),
        decreases size - i,
    {
        out.push(weight(math, window, i, size));
        i += 1;
    }
    out
}

} // verus!
