//! Operations on whole signals.

use crate::arith::total;
use crate::error::{IoError, IoResult};
use crate::io::signal::filters::{Filter, TapMath};
use crate::io::signal::spectral::WindowMath;
use crate::io::signal::{power, to_bins, Bin, Fourier};
use crate::number::{Single, MINUS_ZERO_BITS};
use vstd::prelude::*;
use vstd::slice::slice_subrange;
use vstd::string::*;

verus! {

/// The arithmetic on signals. Nothing is required of what it returns.
pub trait SignalMath: WindowMath {
    /// The real part of a complex number, divided by a length.
    fn real_part(&self, x: Bin, n: usize) -> Single;

    /// The magnitude of a complex number, divided by a length.
    fn scaled_norm(&self, x: Bin, n: usize) -> Single;

    /// The magnitude of a complex number.
    fn norm(&self, x: Bin) -> Single;

    /// The phase of a complex number.
    fn arg(&self, x: Bin) -> Single;

    /// Twice a complex number.
    fn twice(&self, x: Bin) -> Bin;

    /// The bin of a frequency, out of so many.
    fn bin_of(&self, frequency: Single, sample_rate: Single, n: usize) -> usize;

    /// The mean of numbers, in whatever order they are added.
    fn mean(&self, values: &Vec<Single>) -> Single;
}

/// The bit pattern of 44100.0, the default sample rate in Hz.
pub const SAMPLE_RATE_BITS: u32 = 0x472c_4400;

/// What works on signals of one sample rate.
#[derive(Debug, Clone, Copy, PartialEq, Eq, Structural)]
pub struct SignalProcessor {
    buffer_size: usize,
    sample_rate: Single,
}

/// Whether an error says that a spectrum cannot be found.
pub open spec fn is_unplanned(e: IoError) -> bool {
    crate::io::signal::filters::is_signal_error(e, "FFT planning failed: {}"@)
}

/// Whether an error says that a signal cannot be found from its spectrum.
pub open spec fn is_unplanned_back(e: IoError) -> bool {
    crate::io::signal::filters::is_signal_error(e, "IFFT planning failed: {}"@)
}

/// Whether `r` can be the spectrum of a signal.
pub open spec fn gives_spectrum<F: Fourier>(
    fourier: &F,
    signal: Seq<Single>,
    r: IoResult<Vec<Bin>>,
) -> bool {
    exists|held: Vec<Bin>, out: Option<Vec<Bin>>|
        {
            &&& held@ == crate::io::signal::reals(signal)
            &&& #[trigger] crate::io::signal::is_forward(fourier, held, out)
            &&& match out {
                Some(v) => r == Ok::<Vec<Bin>, IoError>(v),
                None => r matches Err(e) && is_unplanned(e),
            }
        }
}

/// Whether a signal can be the real parts of complex numbers, each divided by
/// their number.
pub open spec fn are_real_parts<M: SignalMath>(math: &M, bins: Seq<Bin>, r: Seq<Single>) -> bool {
    &&& r.len() == bins.len()
    &&& forall|i: int|
        0 <= i < r.len() ==> call_ensures(
            M::real_part,
            (math, bins[i], bins.len() as usize),
            #[trigger] r[i],
        )
}

/// Whether `r` can be the signal of a spectrum.
pub open spec fn gives_signal<F: Fourier, M: SignalMath>(
    fourier: &F,
    math: &M,
    spectrum: Seq<Bin>,
    r: IoResult<Vec<Single>>,
) -> bool {
    exists|held: Vec<Bin>, out: Option<Vec<Bin>>|
        {
            &&& held@ == spectrum
            &&& #[trigger] crate::io::signal::is_backward(fourier, held, out)
            &&& match out {
                Some(v) => r is Ok && are_real_parts(math, v@, r->Ok_0@),
                None => r matches Err(e) && is_unplanned_back(e),
            }
        }
}

/// A spectrum without what lies between a bin and its mirror image.
pub open spec fn lowpassed(v: Seq<Bin>, cutoff: int) -> Seq<Bin> {
    Seq::new(
        v.len(),
        |i: int|
            if cutoff <= i < v.len() - cutoff {
                Bin::of(Single { bits: 0 })
            } else {
                v[i]
            },
    )
}

/// A spectrum without what lies below a bin and above its mirror image.
pub open spec fn highpassed(v: Seq<Bin>, cutoff: int) -> Seq<Bin> {
    let n = v.len() as int;
    let k = if cutoff < n / 2 {
        cutoff
    } else {
        n / 2
    };
    Seq::new(
        v.len(),
        |i: int|
            if i < k || i >= n - k {
                Bin::of(Single { bits: 0 })
            } else {
                v[i]
            },
    )
}

/// The frequency of a bin, counted in bins; the upper half mirrors the lower.
pub open spec fn frequency_of(i: int, n: int) -> int {
    if i <= n / 2 {
        i
    } else {
        n - i
    }
}

/// A spectrum without what lies outside two bins.
pub open spec fn bandpassed(v: Seq<Bin>, low: int, high: int) -> Seq<Bin> {
    Seq::new(
        v.len(),
        |i: int|
            if low <= frequency_of(i, v.len() as int) <= high {
                v[i]
            } else {
                Bin::of(Single { bits: 0 })
            },
    )
}

/// Takes out of a spectrum what lies between a bin and its mirror image.
pub fn lowpass_bins(v: &Vec<Bin>, cutoff: usize) -> (r: Vec<Bin>)
    ensures
        r@ == lowpassed(v@, cutoff as int),
{
    let n: usize = v.len();
    let mut out: Vec<Bin> = Vec::new();
    let mut i: usize = 0;
    while i < n
        invariant
            i <= n,
            n == v@.len(),
            out@ == lowpassed(v@, cutoff as int).take(i as int),
        decreases n - i,
    {
        if cutoff <= i && cutoff <= n && i < n - cutoff {
            out.push(Bin::from_real(Single::zero()));
        } else {
            out.push(v[i]);
        }
        i += 1;
        assert(out@ =~= lowpassed(v@, cutoff as int).take(i as int));
    }
    assert(out@ =~= lowpassed(v@, cutoff as int));
    out
}

/// Takes out of a spectrum what lies below a bin and above its mirror image.
pub fn highpass_bins(v: &Vec<Bin>, cutoff: usize) -> (r: Vec<Bin>)
    ensures
        r@ == highpassed(v@, cutoff as int),
{
    let n: usize = v.len();
    let k: usize = if cutoff < n / 2 {
        cutoff
    } else {
        n / 2
    };
    let mut out: Vec<Bin> = Vec::new();
    let mut i: usize = 0;
    while i < n
        invariant
            i <= n,
            n == v@.len(),
            k <= n,
            k == if cutoff < n / 2 {
                cutoff
            } else {
                n / 2
            },
            out@ == highpassed(v@, cutoff as int).take(i as int),
        decreases n - i,
    {
        if i < k || i >= n - k {
            out.push(Bin::from_real(Single::zero()));
        } else {
            out.push(v[i]);
        }
        i += 1;
        assert(out@ =~= highpassed(v@, cutoff as int).take(i as int));
    }
    assert(out@ =~= highpassed(v@, cutoff as int));
    out
}

/// Takes out of a spectrum what lies outside two bins.
pub fn bandpass_bins(v: &Vec<Bin>, low: usize, high: usize) -> (r: Vec<Bin>)
    ensures
        r@ == bandpassed(v@, low as int, high as int),
{
    let n: usize = v.len();
    let mut out: Vec<Bin> = Vec::new();
    let mut i: usize = 0;
    while i < n
        invariant
            i <= n,
            n == v@.len(),
            out@ == bandpassed(v@, low as int, high as int).take(i as int),
        decreases n - i,
    {
        let f: usize = if i <= n / 2 {
            i
        } else {
            n - i
        };
        if f < low || f > high {
            out.push(Bin::from_real(Single::zero()));
        } else {
            out.push(v[i]);
        }
        i += 1;
        assert(out@ =~= bandpassed(v@, low as int, high as int).take(i as int));
    }
    assert(out@ =~= bandpassed(v@, low as int, high as int));
    out
}

/// What one filter passes and what it stops: a bin that passes the filter for
/// low frequencies is kept as it is, and one that does not is gone.
pub proof fn filters_keep_or_drop(v: Seq<Bin>, cutoff: int, i: int)
    requires
        0 <= i < v.len(),
        0 <= cutoff,
    ensures
        lowpassed(v, cutoff)[i] == v[i] || lowpassed(v, cutoff)[i] == Bin::of(Single { bits: 0 }),
        highpassed(v, cutoff)[i] == v[i] || highpassed(v, cutoff)[i] == Bin::of(
            Single { bits: 0 },
        ),
        lowpassed(lowpassed(v, cutoff), cutoff) == lowpassed(v, cutoff),
        highpassed(highpassed(v, cutoff), cutoff) == highpassed(v, cutoff),
{
    assert(lowpassed(lowpassed(v, cutoff), cutoff) =~= lowpassed(v, cutoff));
    assert(highpassed(highpassed(v, cutoff), cutoff) =~= highpassed(v, cutoff));
}

impl SignalProcessor {
    /// The size of the buffer.
    pub closed spec fn size(&self) -> usize {
        self.buffer_size
    }

    /// Sample rate in Hz.
    pub closed spec fn rate(&self) -> Single {
        self.sample_rate
    }

    /// What works on signals of the default sample rate.
    pub fn new(buffer_size: usize) -> (r: Self)
        ensures
            r.size() == buffer_size,
            r.rate().bits == SAMPLE_RATE_BITS,
    {
        SignalProcessor { buffer_size, sample_rate: Single::from_bits(SAMPLE_RATE_BITS) }
    }

    /// Sets the sample rate.
    pub fn with_sample_rate(self, rate: Single) -> (r: Self)
        ensures
            r.size() == self.size(),
            r.rate() == rate,
    {
        SignalProcessor { sample_rate: rate, ..self }
    }

    /// The size of the buffer.
    pub fn buffer_size(&self) -> (r: usize)
        ensures
            r == self.size(),
    {
        self.buffer_size
    }

    /// Sample rate in Hz.
    pub fn sample_rate(&self) -> (r: Single)
        ensures
            r == self.rate(),
    {
        self.sample_rate
    }

    /// The spectrum of a signal.
    pub fn fft<F: Fourier>(&self, fourier: &F, signal: &[Single]) -> (r: IoResult<Vec<Bin>>)
        ensures
            gives_spectrum(fourier, signal@, r),
    {
        let held: Vec<Bin> = to_bins(signal);
        let out: Option<Vec<Bin>> = fourier.forward(&held);
        assert(crate::io::signal::is_forward(fourier, held, out));
        match out {
            Some(v) => Ok(v),
            None => Err(IoError::SignalError("FFT planning failed: {}".to_owned())),
        }
    }

    /// The signal of a spectrum.
    pub fn ifft<F: Fourier, M: SignalMath>(&self, fourier: &F, math: &M, spectrum: &Vec<Bin>) -> (r:
        IoResult<Vec<Single>>)
        ensures
            gives_signal(fourier, math, spectrum@, r),
    {
        let out: Option<Vec<Bin>> = fourier.backward(spectrum);
        assert(crate::io::signal::is_backward(fourier, *spectrum, out));
        match out {
            None => Err(IoError::SignalError("IFFT planning failed: {}".to_owned())),
            Some(v) => {
                let n: usize = v.len();
                let mut signal: Vec<Single> = Vec::new();
                let mut i: usize = 0;
                while i < n
                    invariant
                        i <= n,
                        n == v@.len(),
                        signal@.len() == i,
                        forall|k: int|
                            0 <= k < i ==> call_ensures(
                                M::real_part,
                                (math, v@[k], n),
                                #[trigger] signal@[k],
                            ),
                    decreases n - i,
                {
                    signal.push(math.real_part(v[i], n));
                    i += 1;
                }
                Ok(signal)
            },
        }
    }

    /// The spectrum of a signal, whatever its length.
    pub fn fft_pow2<F: Fourier>(&self, fourier: &F, signal: &[Single]) -> (r: IoResult<Vec<Bin>>)
        ensures
            gives_spectrum(fourier, signal@, r),
    {
        self.fft(fourier, signal)
    }

    /// The signal of a spectrum, whatever its length.
    pub fn ifft_pow2<F: Fourier, M: SignalMath>(
        &self,
        fourier: &F,
        math: &M,
        spectrum: &Vec<Bin>,
    ) -> (r: IoResult<Vec<Single>>)
        ensures
            gives_signal(fourier, math, spectrum@, r),
    {
        self.ifft(fourier, math, spectrum)
    }

    /// The powers of the frequencies of a signal.
    pub fn power_spectrum_pow2<F: Fourier, M: SignalMath>(
        &self,
        fourier: &F,
        math: &M,
        signal: &[Single],
    ) -> (r: IoResult<Vec<Single>>)
        ensures
            exists|spectrum: IoResult<Vec<Bin>>|
                {
                    &&& #[trigger] gives_spectrum(fourier, signal@, spectrum)
                    &&& match spectrum {
                        Ok(v) => r is Ok && are_powers(math, v@, r->Ok_0@),
                        Err(e) => r == Err::<Vec<Single>, IoError>(e),
                    }
                },
    {
        self.power_spectrum(fourier, math, signal)
    }

    /// The powers of the frequencies of a signal.
    pub fn power_spectrum<F: Fourier, M: SignalMath>(
        &self,
        fourier: &F,
        math: &M,
        signal: &[Single],
    ) -> (r: IoResult<Vec<Single>>)
        ensures
            exists|spectrum: IoResult<Vec<Bin>>|
                {
                    &&& #[trigger] gives_spectrum(fourier, signal@, spectrum)
                    &&& match spectrum {
                        Ok(v) => r is Ok && are_powers(math, v@, r->Ok_0@),
                        Err(e) => r == Err::<Vec<Single>, IoError>(e),
                    }
                },
    {
        let spectrum: IoResult<Vec<Bin>> = self.fft(fourier, signal);
        assert(gives_spectrum(fourier, signal@, spectrum));
        match spectrum {
            Err(e) => Err(e),
            Ok(v) => {
                let mut out: Vec<Single> = Vec::new();
                let mut i: usize = 0;
                while i < v.len()
                    invariant
                        i <= v@.len(),
                        out@.len() == i,
                        forall|k: int|
                            0 <= k < i ==> crate::io::signal::is_power(
                                math,
                                v@[k],
                                #[trigger] out@[k],
                            ),
                    decreases v@.len() - i,
                {
                    out.push(power(math, v[i]));
                    i += 1;
                }
                Ok(out)
            },
        }
    }

    /// The magnitudes of the frequencies of a signal.
    pub fn magnitude_spectrum<F: Fourier, M: SignalMath>(
        &self,
        fourier: &F,
        math: &M,
        signal: &[Single],
    ) -> (r: IoResult<Vec<Single>>)
        ensures
            exists|spectrum: IoResult<Vec<Bin>>|
                {
                    &&& #[trigger] gives_spectrum(fourier, signal@, spectrum)
                    &&& match spectrum {
                        Ok(v) => r is Ok && are_norms(math, v@, r->Ok_0@),
                        Err(e) => r == Err::<Vec<Single>, IoError>(e),
                    }
                },
    {
        let spectrum: IoResult<Vec<Bin>> = self.fft(fourier, signal);
        assert(gives_spectrum(fourier, signal@, spectrum));
        match spectrum {
            Err(e) => Err(e),
            Ok(v) => Ok(norms(math, v.as_slice())),
        }
    }

    /// The phases of the frequencies of a signal.
    pub fn phase_spectrum<F: Fourier, M: SignalMath>(
        &self,
        fourier: &F,
        math: &M,
        signal: &[Single],
    ) -> (r: IoResult<Vec<Single>>)
        ensures
            exists|spectrum: IoResult<Vec<Bin>>|
                {
                    &&& #[trigger] gives_spectrum(fourier, signal@, spectrum)
                    &&& match spectrum {
                        Ok(v) => r is Ok && are_args(math, v@, r->Ok_0@),
                        Err(e) => r == Err::<Vec<Single>, IoError>(e),
                    }
                },
    {
        let spectrum: IoResult<Vec<Bin>> = self.fft(fourier, signal);
        assert(gives_spectrum(fourier, signal@, spectrum));
        match spectrum {
            Err(e) => Err(e),
            Ok(v) => Ok(args(math, v.as_slice())),
        }
    }

    /// Puts a filter on a signal.
    pub fn apply_filter<F: Fourier, M: SignalMath, T: TapMath>(
        &self,
        fourier: &F,
        math: &M,
        taps: &T,
        signal: &[Single],
        filter: Filter,
    ) -> (r: IoResult<Vec<Single>>)
        requires
            filter matches Filter::Iir(f) ==> f.wf(),
            filter matches Filter::Fir(f) ==> f.wf(),
        ensures
            match filter {
                Filter::MovingAverage { window } => is_moving_average(math, signal@, window, r),
                Filter::LowPass { cutoff, .. } => is_lowpassed(
                    fourier,
                    math,
                    signal@,
                    cutoff,
                    self.rate(),
                    r,
                ),
                Filter::HighPass { cutoff, .. } => is_highpassed(
                    fourier,
                    math,
                    signal@,
                    cutoff,
                    self.rate(),
                    r,
                ),
                Filter::BandPass { low, high, .. } => is_bandpassed(
                    fourier,
                    math,
                    signal@,
                    low,
                    high,
                    self.rate(),
                    r,
                ),
                Filter::Iir(f) => {
                    &&& r is Ok
                    &&& exists|states: Seq<Seq<Single>>|
                        {
                            &&& #[trigger] crate::io::signal::filters::is_run(
                                taps,
                                f.forward(),
                                f.backward(),
                                states,
                                signal@,
                                r->Ok_0@,
                            )
                            &&& states[0] == f.carried()
                        }
                },
                Filter::Fir(f) => {
                    &&& r is Ok
                    &&& r->Ok_0@.len() == signal@.len()
                    &&& forall|i: int|
                        0 <= i < signal@.len() ==> crate::io::signal::filters::is_filtered(
                            taps,
                            f.taps(),
                            crate::io::signal::filters::after_all(f.recent(), signal@, i + 1),
                            #[trigger] r->Ok_0@[i],
                        )
                },
            },
    {
        match filter {
            Filter::MovingAverage { window } => {
                let r: IoResult<Vec<Single>> = moving_average(math, signal, window);
                assert(is_moving_average(math, signal@, window, r));
                r
            },
            Filter::LowPass { cutoff, order: _ } => self.lowpass_fft(fourier, math, signal, cutoff),
            Filter::HighPass { cutoff, order: _ } => self.highpass_fft(
                fourier,
                math,
                signal,
                cutoff,
            ),
            Filter::BandPass { low, high, order: _ } => self.bandpass_fft(
                fourier,
                math,
                signal,
                low,
                high,
            ),
            Filter::Iir(f) => {
                let mut running = f;
                let out: Vec<Single> = running.process(taps, signal);
                let r: IoResult<Vec<Single>> = Ok(out);
                proof {
                    let states = choose|states: Seq<Seq<Single>>|
                        {
                            &&& #[trigger] crate::io::signal::filters::is_run(
                                taps,
                                f.forward(),
                                f.backward(),
                                states,
                                signal@,
                                out@,
                            )
                            &&& states[0] == f.carried()
                        };
                    assert(crate::io::signal::filters::is_run(
                        taps,
                        f.forward(),
                        f.backward(),
                        states,
                        signal@,
                        r->Ok_0@,
                    ));
                }
                r
            },
            Filter::Fir(f) => {
                let mut running = f;
                let out: Vec<Single> = running.process(taps, signal);
                Ok(out)
            },
        }
    }

    fn lowpass_fft<F: Fourier, M: SignalMath>(
        &self,
        fourier: &F,
        math: &M,
        signal: &[Single],
        cutoff: Single,
    ) -> (r: IoResult<Vec<Single>>)
        ensures
            is_lowpassed(fourier, math, signal@, cutoff, self.rate(), r),
    {
        let spectrum: IoResult<Vec<Bin>> = self.fft(fourier, signal);
        let bin: usize = self.bin_in(math, cutoff, &spectrum);
        assert(gives_spectrum(fourier, signal@, spectrum));
        assert(is_bin(math, cutoff, self.rate(), spectrum, bin));
        match spectrum {
            Err(e) => Err(e),
            Ok(v) => self.ifft(fourier, math, &lowpass_bins(&v, bin)),
        }
    }

    fn highpass_fft<F: Fourier, M: SignalMath>(
        &self,
        fourier: &F,
        math: &M,
        signal: &[Single],
        cutoff: Single,
    ) -> (r: IoResult<Vec<Single>>)
        ensures
            is_highpassed(fourier, math, signal@, cutoff, self.rate(), r),
    {
        let spectrum: IoResult<Vec<Bin>> = self.fft(fourier, signal);
        let bin: usize = self.bin_in(math, cutoff, &spectrum);
        assert(gives_spectrum(fourier, signal@, spectrum));
        assert(is_bin(math, cutoff, self.rate(), spectrum, bin));
        match spectrum {
            Err(e) => Err(e),
            Ok(v) => self.ifft(fourier, math, &highpass_bins(&v, bin)),
        }
    }

    fn bandpass_fft<F: Fourier, M: SignalMath>(
        &self,
        fourier: &F,
        math: &M,
        signal: &[Single],
        low: Single,
        high: Single,
    ) -> (r: IoResult<Vec<Single>>)
        ensures
            is_bandpassed(fourier, math, signal@, low, high, self.rate(), r),
    {
        let spectrum: IoResult<Vec<Bin>> = self.fft(fourier, signal);
        let from: usize = self.bin_in(math, low, &spectrum);
        let to: usize = self.bin_in(math, high, &spectrum);
        assert(gives_spectrum(fourier, signal@, spectrum));
        assert(is_bin(math, low, self.rate(), spectrum, from));
        assert(is_bin(math, high, self.rate(), spectrum, to));
        match spectrum {
            Err(e) => Err(e),
            Ok(v) => self.ifft(fourier, math, &bandpass_bins(&v, from, to)),
        }
    }

    fn bin_in<M: SignalMath>(
        &self,
        math: &M,
        frequency: Single,
        spectrum: &IoResult<Vec<Bin>>,
    ) -> (r: usize)
        ensures
            is_bin(math, frequency, self.rate(), *spectrum, r),
    {
        match spectrum {
            Ok(v) => math.bin_of(frequency, self.sample_rate, v.len()),
            Err(_) => 0,
        }
    }

    /// The envelope of a signal: the magnitudes of the signal of its spectrum
    /// with the lower half doubled and the upper half and the mean gone.
    pub fn envelope<F: Fourier, M: SignalMath>(
        &self,
        fourier: &F,
        math: &M,
        signal: &[Single],
    ) -> (r: IoResult<Vec<Single>>)
        ensures
            exists|spectrum: IoResult<Vec<Bin>>|
                {
                    &&& #[trigger] gives_spectrum(fourier, signal@, spectrum)
                    &&& match spectrum {
                        Ok(v) => is_envelope(fourier, math, v@, signal@.len(), r),
                        Err(e) => r == Err::<Vec<Single>, IoError>(e),
                    }
                },
    {
        let n: usize = signal.len();
        let spectrum: IoResult<Vec<Bin>> = self.fft(fourier, signal);
        assert(gives_spectrum(fourier, signal@, spectrum));
        match spectrum {
            Err(e) => Err(e),
            Ok(v) => {
                let mut one_sided: Vec<Bin> = Vec::new();
                let mut i: usize = 0;
                while i < v.len()
                    invariant
                        i <= v@.len(),
                        one_sided@.len() == i,
                        forall|k: int|
                            0 <= k < i ==> is_one_sided_at(
                                math,
                                v@[k],
                                k,
                                n as int,
                                #[trigger] one_sided@[k],
                            ),
                    decreases v@.len() - i,
                {
                    if i == 0 || i > n / 2 {
                        one_sided.push(Bin::from_real(Single::zero()));
                    } else if i < n / 2 {
                        one_sided.push(math.twice(v[i]));
                    } else {
                        one_sided.push(v[i]);
                    }
                    i += 1;
                }
                let out: Option<Vec<Bin>> = fourier.backward(&one_sided);
                assert(is_one_sided(math, v@, n as int, one_sided@));
                assert(crate::io::signal::is_backward(fourier, one_sided, out));
                match out {
                    None => Err(IoError::SignalError("IFFT planning failed: {}".to_owned())),
                    Some(w) => {
                        let mut envelope: Vec<Single> = Vec::new();
                        let mut i: usize = 0;
                        while i < w.len()
                            invariant
                                i <= w@.len(),
                                envelope@.len() == i,
                                forall|k: int|
                                    0 <= k < i ==> call_ensures(
                                        M::scaled_norm,
                                        (math, w@[k], n),
                                        #[trigger] envelope@[k],
                                    ),
                            decreases w@.len() - i,
                        {
                            envelope.push(math.scaled_norm(w[i], n));
                            i += 1;
                        }
                        Ok(envelope)
                    },
                }
            },
        }
    }
}

/// Whether a bin can be that of a frequency in a spectrum, where there is one.
pub open spec fn is_bin<M: SignalMath>(
    math: &M,
    frequency: Single,
    rate: Single,
    spectrum: IoResult<Vec<Bin>>,
    bin: usize,
) -> bool {
    spectrum matches Ok(v) ==> call_ensures(
        M::bin_of,
        (math, frequency, rate, v@.len() as usize),
        bin,
    )
}

/// Whether `r` can be a signal without what lies above a cutoff.
pub open spec fn is_lowpassed<F: Fourier, M: SignalMath>(
    fourier: &F,
    math: &M,
    signal: Seq<Single>,
    cutoff: Single,
    rate: Single,
    r: IoResult<Vec<Single>>,
) -> bool {
    exists|spectrum: IoResult<Vec<Bin>>, bin: usize|
        {
            &&& #[trigger] gives_spectrum(fourier, signal, spectrum)
            &&& #[trigger] is_bin(math, cutoff, rate, spectrum, bin)
            &&& match spectrum {
                Ok(v) => gives_signal(fourier, math, lowpassed(v@, bin as int), r),
                Err(e) => r == Err::<Vec<Single>, IoError>(e),
            }
        }
}

/// Whether `r` can be a signal without what lies below a cutoff.
pub open spec fn is_highpassed<F: Fourier, M: SignalMath>(
    fourier: &F,
    math: &M,
    signal: Seq<Single>,
    cutoff: Single,
    rate: Single,
    r: IoResult<Vec<Single>>,
) -> bool {
    exists|spectrum: IoResult<Vec<Bin>>, bin: usize|
        {
            &&& #[trigger] gives_spectrum(fourier, signal, spectrum)
            &&& #[trigger] is_bin(math, cutoff, rate, spectrum, bin)
            &&& match spectrum {
                Ok(v) => gives_signal(fourier, math, highpassed(v@, bin as int), r),
                Err(e) => r == Err::<Vec<Single>, IoError>(e),
            }
        }
}

/// Whether `r` can be a signal without what lies outside two cutoffs.
pub open spec fn is_bandpassed<F: Fourier, M: SignalMath>(
    fourier: &F,
    math: &M,
    signal: Seq<Single>,
    low: Single,
    high: Single,
    rate: Single,
    r: IoResult<Vec<Single>>,
) -> bool {
    exists|spectrum: IoResult<Vec<Bin>>, from: usize, to: usize|
        {
            &&& #[trigger] gives_spectrum(fourier, signal, spectrum)
            &&& #[trigger] is_bin(math, low, rate, spectrum, from)
            &&& #[trigger] is_bin(math, high, rate, spectrum, to)
            &&& match spectrum {
                Ok(v) => gives_signal(fourier, math, bandpassed(v@, from as int, to as int), r),
                Err(e) => r == Err::<Vec<Single>, IoError>(e),
            }
        }
}

/// Whether a bin can be one of a spectrum with the lower half doubled and the
/// upper half and the mean gone.
pub open spec fn is_one_sided_at<M: SignalMath>(
    math: &M,
    x: Bin,
    i: int,
    n: int,
    r: Bin,
) -> bool {
    if i == 0 || i > n / 2 {
        r == Bin::of(Single { bits: 0 })
    } else if i < n / 2 {
        call_ensures(M::twice, (math, x), r)
    } else {
        r == x
    }
}

/// Whether a spectrum can be another with the lower half doubled and the upper
/// half and the mean gone.
pub open spec fn is_one_sided<M: SignalMath>(
    math: &M,
    v: Seq<Bin>,
    n: int,
    r: Seq<Bin>,
) -> bool {
    &&& r.len() == v.len()
    &&& forall|i: int| 0 <= i < r.len() ==> is_one_sided_at(math, v[i], i, n, #[trigger] r[i])
}

/// Whether `r` can be the envelope of a signal of `n` samples, given its
/// spectrum.
pub open spec fn is_envelope<F: Fourier, M: SignalMath>(
    fourier: &F,
    math: &M,
    v: Seq<Bin>,
    n: nat,
    r: IoResult<Vec<Single>>,
) -> bool {
    exists|held: Vec<Bin>, out: Option<Vec<Bin>>|
        {
            &&& is_one_sided(math, v, n as int, held@)
            &&& #[trigger] crate::io::signal::is_backward(fourier, held, out)
            &&& match out {
                Some(w) => {
                    &&& r is Ok
                    &&& r->Ok_0@.len() == w@.len()
                    &&& forall|i: int|
                        0 <= i < w@.len() ==> call_ensures(
                            M::scaled_norm,
                            (math, w@[i], n as usize),
                            #[trigger] r->Ok_0@[i],
                        )
                },
                None => r matches Err(e) && is_unplanned_back(e),
            }
        }
}

/// Whether numbers can be the powers of complex ones.
pub open spec fn are_powers<M: SignalMath>(math: &M, v: Seq<Bin>, r: Seq<Single>) -> bool {
    &&& r.len() == v.len()
    &&& forall|i: int|
        0 <= i < v.len() ==> crate::io::signal::is_power(math, v[i], #[trigger] r[i])
}

/// Whether numbers can be the magnitudes of complex ones.
pub open spec fn are_norms<M: SignalMath>(math: &M, v: Seq<Bin>, r: Seq<Single>) -> bool {
    &&& r.len() == v.len()
    &&& forall|i: int| 0 <= i < v.len() ==> call_ensures(M::norm, (math, v[i]), #[trigger] r[i])
}

/// Whether numbers can be the phases of complex ones.
pub open spec fn are_args<M: SignalMath>(math: &M, v: Seq<Bin>, r: Seq<Single>) -> bool {
    &&& r.len() == v.len()
    &&& forall|i: int| 0 <= i < v.len() ==> call_ensures(M::arg, (math, v[i]), #[trigger] r[i])
}

fn norms<M: SignalMath>(math: &M, v: &[Bin]) -> (r: Vec<Single>)
    ensures
        are_norms(math, v@, r@),
{
    let mut out: Vec<Single> = Vec::new();
    let mut i: usize = 0;
    while i < v.len()
        invariant
            i <= v@.len(),
            out@.len() == i,
            forall|k: int| 0 <= k < i ==> call_ensures(M::norm, (math, v@[k]), #[trigger] out@[k]),
        decreases v@.len() - i,
    {
        out.push(math.norm(v[i]));
        i += 1;
    }
    out
}

fn args<M: SignalMath>(math: &M, v: &[Bin]) -> (r: Vec<Single>)
    ensures
        are_args(math, v@, r@),
{
    let mut out: Vec<Single> = Vec::new();
    let mut i: usize = 0;
    while i < v.len()
        invariant
            i <= v@.len(),
            out@.len() == i,
            forall|k: int| 0 <= k < i ==> call_ensures(M::arg, (math, v@[k]), #[trigger] out@[k]),
        decreases v@.len() - i,
    {
        out.push(math.arg(v[i]));
        i += 1;
    }
    out
}

/// Whether `r` can be a sum once a number has left it and another has joined
/// it.
pub open spec fn is_moved_on<M: SignalMath>(
    math: &M,
    sum: Single,
    leaving: Single,
    joining: Single,
    r: Single,
) -> bool {
    exists|rest: Single| #[trigger]
        call_ensures(M::difference, (math, sum, leaving), rest) && call_ensures(
            M::sum,
            (math, rest, joining),
            r,
        )
}

/// Whether the sum of a moving window can follow from the one before: the
/// window starts full, and moves once it ends at a later sample.
pub open spec fn slides<M: SignalMath>(
    math: &M,
    signal: Seq<Single>,
    window: usize,
    sums: Seq<Single>,
    i: int,
) -> bool {
    if i >= window {
        is_moved_on(math, sums[i - 1], signal[i - window], signal[i], sums[i])
    } else {
        sums[i] == sums[i - 1]
    }
}

/// Whether a mean can be that of a moving window: near the start it is over as
/// many samples as there are up to it.
pub open spec fn is_mean_at<M: SignalMath>(
    math: &M,
    window: usize,
    i: int,
    sum: Single,
    r: Single,
) -> bool {
    call_ensures(
        M::over,
        (
            math,
            sum,
            (if window < i + 1 {
                window as int
            } else {
                i + 1
            }) as usize,
        ),
        r,
    )
}

/// Whether means can be those of a moving window, given the sums on the way.
pub open spec fn are_means<M: SignalMath>(
    math: &M,
    signal: Seq<Single>,
    window: usize,
    sums: Seq<Single>,
    r: Seq<Single>,
) -> bool {
    &&& sums.len() == signal.len()
    &&& r.len() == signal.len()
    &&& crate::arith::is_total(
        math,
        Single { bits: MINUS_ZERO_BITS },
        signal.take(window as int),
        sums[0],
    )
    &&& forall|i: int| 1 <= i < sums.len() ==> #[trigger] slides(math, signal, window, sums, i)
    &&& forall|i: int|
        0 <= i < r.len() ==> is_mean_at(math, window, i, sums[i], #[trigger] r[i])
}

/// Whether `r` can be the moving average of a signal, or the error for a
/// window that it cannot have.
pub open spec fn is_moving_average<M: SignalMath>(
    math: &M,
    signal: Seq<Single>,
    window: usize,
    r: IoResult<Vec<Single>>,
) -> bool {
    if window == 0 || window > signal.len() {
        r matches Err(e) && crate::io::signal::filters::is_signal_error(e, "Invalid window size"@)
    } else {
        &&& r is Ok
        &&& exists|sums: Seq<Single>|
            #[trigger] are_means(math, signal, window, sums, r->Ok_0@)
    }
}

fn moving_average<M: SignalMath>(math: &M, signal: &[Single], window: usize) -> (r: IoResult<
    Vec<Single>,
>)
    ensures
        is_moving_average(math, signal@, window, r),
{
    let n: usize = signal.len();
    if window == 0 || window > n {
        return Err(IoError::SignalError("Invalid window size".to_owned()));
    }
    let first: &[Single] = slice_subrange(signal, 0, window);
    assert(first@ =~= signal@.take(window as int));
    let mut sum: Single = total(math, Single::from_bits(MINUS_ZERO_BITS), first);
    let ghost mut sums: Seq<Single> = seq![sum];
    let ghost start = sum;
    let mut out: Vec<Single> = Vec::new();
    let mean: Single = math.over(sum, 1);
    assert(is_mean_at(math, window, 0, sum, mean));
    out.push(mean);
    let mut i: usize = 1;
    while i < n
        invariant
            1 <= i <= n,
            n == signal@.len(),
            0 < window <= n,
            sums.len() == i,
            sums[0] == start,
            sums.last() == sum,
            out@.len() == i,
            forall|k: int| 1 <= k < i ==> #[trigger] slides(math, signal@, window, sums, k),
            forall|k: int|
                0 <= k < i ==> is_mean_at(math, window, k, sums[k], #[trigger] out@[k]),
        decreases n - i,
    {
        let ghost before = sums;
        if i >= window {
            let rest: Single = math.difference(sum, signal[i - window]);
            assert(call_ensures(M::difference, (math, sum, signal@[i - window]), rest));
            sum = math.sum(rest, signal[i]);
        }
        proof {
            sums = sums.push(sum);
            assert forall|k: int| 1 <= k < i + 1 implies #[trigger] slides(
                math,
                signal@,
                window,
                sums,
                k,
            ) by {
                if k < i {
                    assert(slides(math, signal@, window, before, k));
                }
            }
        }
        let count: usize = if window < i + 1 {
            window
        } else {
            i + 1
        };
        let mean: Single = math.over(sum, count);
        assert(is_mean_at(math, window, i as int, sum, mean));
        out.push(mean);
        i += 1;
    }
    let r: IoResult<Vec<Single>> = Ok(out);
    assert(are_means(math, signal@, window, sums, r->Ok_0@));
    r
}

} // verus!
