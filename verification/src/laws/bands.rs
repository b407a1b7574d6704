//! Filters of spectra: what they let through and what they take out.

use crate::exact::Valued;
use crate::io::signal::processor::SignalMath;
use crate::io::signal::{Bin, Fourier};
use crate::number::Single;
use vstd::prelude::*;

verus! {

/// Nothing at a frequency.
pub open spec fn nothing() -> Bin {
    Bin { re: Single { bits: 0 }, im: Single { bits: 0 } }
}

/// Up to half of a spectrum, what is taken out below a bin and what is taken out
/// above it make up the whole: each bin is kept by one of the two and is nothing
/// in the other. The mean is kept below, and the middle is kept above.
pub proof fn low_and_high_make_up_the_spectrum(v: Seq<Bin>, cutoff: int, i: int)
    requires
        0 < cutoff,
        2 * cutoff <= v.len(),
        0 <= i < v.len(),
    ensures
        ({
            let low = crate::io::signal::processor::lowpassed(v, cutoff);
            let high = crate::io::signal::processor::highpassed(v, cutoff);
            &&& low.len() == v.len()
            &&& high.len() == v.len()
            &&& low[i] == v[i] && high[i] == nothing() || low[i] == nothing() && high[i] == v[i]
            &&& low[0] == v[0]
            &&& high[0] == nothing()
            &&& 2 * cutoff < v.len() - 1 ==> high[v.len() as int / 2] == v[v.len() as int / 2]
            &&& i < cutoff ==> low[i] == v[i]
            &&& cutoff <= i && 2 * i <= v.len() && i < v.len() - cutoff ==> high[i] == v[i]
        }),
{
}

/// A band keeps a bin where it keeps its mirror image, keeps what lies between
/// its bins, and takes the mean out where it starts above it.
pub proof fn bands_are_symmetric(v: Seq<Bin>, low: int, high: int, i: int)
    requires
        0 < low <= high,
        0 < i,
        2 * i <= v.len(),
    ensures
        ({
            let r = crate::io::signal::processor::bandpassed(v, low, high);
            &&& r.len() == v.len()
            &&& r[0] == nothing()
            &&& low <= i <= high ==> r[i] == v[i] && r[v.len() - i] == v[v.len() - i]
            &&& !(low <= i <= high) ==> r[i] == nothing() && r[v.len() - i] == nothing()
        }),
{
}

/// Whether the spectra of a signal have nothing but what bins that can be those
/// of a frequency let through.
pub open spec fn has_no_highs<F: Fourier, M: SignalMath>(
    fourier: &F,
    math: &M,
    signal: Seq<Single>,
    cutoff: Single,
    rate: Single,
) -> bool {
    forall|v: Vec<Bin>, bin: usize, i: int|
        #![trigger crate::io::signal::processor::gives_spectrum(fourier, signal, Ok(v)), call_ensures(M::bin_of, (math, cutoff, rate, v@.len() as usize), bin), v@[i]]
        crate::io::signal::processor::gives_spectrum(fourier, signal, Ok(v)) && call_ensures(
            M::bin_of,
            (math, cutoff, rate, v@.len() as usize),
            bin,
        ) && bin <= i < v@.len() - bin ==> v@[i] == nothing()
}

/// Whether the spectra of a signal have nothing below bins that can be those of
/// a frequency, which lie in their lower half.
pub open spec fn has_no_lows<F: Fourier, M: SignalMath>(
    fourier: &F,
    math: &M,
    signal: Seq<Single>,
    cutoff: Single,
    rate: Single,
) -> bool {
    forall|v: Vec<Bin>, bin: usize, i: int|
        #![trigger crate::io::signal::processor::gives_spectrum(fourier, signal, Ok(v)), call_ensures(M::bin_of, (math, cutoff, rate, v@.len() as usize), bin), v@[i]]
        crate::io::signal::processor::gives_spectrum(fourier, signal, Ok(v)) && call_ensures(
            M::bin_of,
            (math, cutoff, rate, v@.len() as usize),
            bin,
        ) && 0 <= i < v@.len() && (i < bin || i >= v@.len() - bin) ==> v@[i] == nothing()
}

/// A signal without highs passes a low pass: it is only taken to its spectrum
/// and back.
pub proof fn low_signals_pass<F: Fourier, M: SignalMath>(
    fourier: &F,
    math: &M,
    signal: Seq<Single>,
    cutoff: Single,
    rate: Single,
    r: Vec<Single>,
)
    requires
        crate::io::signal::processor::is_lowpassed(fourier, math, signal, cutoff, rate, Ok(r)),
        has_no_highs(fourier, math, signal, cutoff, rate),
    ensures
        exists|v: Vec<Bin>|
            {
                &&& #[trigger] crate::io::signal::processor::gives_spectrum(fourier, signal, Ok(v))
                &&& crate::io::signal::processor::gives_signal(fourier, math, v@, Ok(r))
            },
{
    let (spectrum, bin) = choose|spectrum: crate::error::IoResult<Vec<Bin>>, bin: usize|
        {
            &&& #[trigger] crate::io::signal::processor::gives_spectrum(fourier, signal, spectrum)
            &&& #[trigger] crate::io::signal::processor::is_bin(math, cutoff, rate, spectrum, bin)
            &&& match spectrum {
                Ok(v) => crate::io::signal::processor::gives_signal(
                    fourier,
                    math,
                    crate::io::signal::processor::lowpassed(v@, bin as int),
                    Ok(r),
                ),
                Err(e) => false,
            }
        };
    let v = spectrum->Ok_0;
    assert(spectrum == Ok::<Vec<Bin>, crate::error::IoError>(v));
    assert(crate::io::signal::processor::gives_spectrum(fourier, signal, Ok(v)));
    assert(crate::io::signal::processor::lowpassed(v@, bin as int) =~= v@);
}

/// A signal without lows passes a high pass: it is only taken to its spectrum
/// and back.
pub proof fn high_signals_pass<F: Fourier, M: SignalMath>(
    fourier: &F,
    math: &M,
    signal: Seq<Single>,
    cutoff: Single,
    rate: Single,
    r: Vec<Single>,
)
    requires
        crate::io::signal::processor::is_highpassed(fourier, math, signal, cutoff, rate, Ok(r)),
        has_no_lows(fourier, math, signal, cutoff, rate),
    ensures
        exists|v: Vec<Bin>|
            {
                &&& #[trigger] crate::io::signal::processor::gives_spectrum(fourier, signal, Ok(v))
                &&& crate::io::signal::processor::gives_signal(fourier, math, v@, Ok(r))
            },
{
    let (spectrum, bin) = choose|spectrum: crate::error::IoResult<Vec<Bin>>, bin: usize|
        {
            &&& #[trigger] crate::io::signal::processor::gives_spectrum(fourier, signal, spectrum)
            &&& #[trigger] crate::io::signal::processor::is_bin(math, cutoff, rate, spectrum, bin)
            &&& match spectrum {
                Ok(v) => crate::io::signal::processor::gives_signal(
                    fourier,
                    math,
                    crate::io::signal::processor::highpassed(v@, bin as int),
                    Ok(r),
                ),
                Err(e) => false,
            }
        };
    let v = spectrum->Ok_0;
    assert(spectrum == Ok::<Vec<Bin>, crate::error::IoError>(v));
    assert(crate::io::signal::processor::gives_spectrum(fourier, signal, Ok(v)));
    assert(crate::io::signal::processor::highpassed(v@, bin as int) =~= v@);
}

/// Whether both parts of complex numbers are doubled without loss.
pub open spec fn doubles_exactly<M: SignalMath>(math: &M) -> bool {
    forall|x: Bin, r: Bin| #[trigger]
        call_ensures(M::twice, (math, x), r) ==> r.re.value() == 2real * x.re.value()
            && r.im.value() == 2real * x.im.value()
}

/// The spectrum behind an envelope has nothing at zero and above the middle, and
/// with its mirror image it makes up twice the lower half.
pub proof fn envelopes_rest_on_the_lower_half<M: SignalMath>(
    math: &M,
    v: Seq<Bin>,
    r: Seq<Bin>,
    i: int,
)
    requires
        doubles_exactly(math),
        crate::io::signal::processor::is_one_sided(math, v, v.len() as int, r),
        0 < i,
        2 * i < v.len() - 1,
    ensures
        r.len() == v.len(),
        r[0] == nothing(),
        r[v.len() - i] == nothing(),
        r[i].re.value() + r[v.len() - i].re.value() == 2real * v[i].re.value(),
        r[i].im.value() + r[v.len() - i].im.value() == 2real * v[i].im.value(),
        v.len() % 2 == 0 ==> r[v.len() as int / 2] == v[v.len() as int / 2],
{
    let n = v.len() as int;
    let zero = Single { bits: 0 };
    crate::exact::singles_stand_for_reals(zero, zero);
    assert(crate::io::signal::processor::is_one_sided_at(math, v[0], 0, n, r[0]));
    assert(crate::io::signal::processor::is_one_sided_at(math, v[i], i, n, r[i]));
    assert(crate::io::signal::processor::is_one_sided_at(math, v[n - i], n - i, n, r[n - i]));
    assert(crate::io::signal::processor::is_one_sided_at(math, v[n / 2], n / 2, n, r[n / 2]));
}

/// The power of a complex number is the sum of the squares of its parts.
pub proof fn powers_are_squared_magnitudes<M: SignalMath>(math: &M, x: Bin, r: Single)
    requires
        crate::exact::is_exact::<Single, M>(math),
        crate::io::signal::is_power(math, x, r),
    ensures
        r.value() == x.re.value() * x.re.value() + x.im.value() * x.im.value(),
        r.value() >= 0real,
{
    let (a, b) = (x.re.value(), x.im.value());
    assert(a * a >= 0real) by (nonlinear_arith);
    assert(b * b >= 0real) by (nonlinear_arith);
}

} // verus!
