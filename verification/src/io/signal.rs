//! Analysis and filtering of signals.

use crate::arith::Arithmetic;
use crate::number::Single;
use vstd::prelude::*;

pub mod features;
pub mod filters;
pub mod measures;
pub mod processor;
pub mod quality;
pub mod spectral;
pub mod timefreq;

verus! {

/// A complex number.
#[derive(Debug, Clone, Copy, PartialEq, Eq, Structural)]
pub struct Bin {
    /// The real part.
    pub re: Single,
    /// The imaginary part.
    pub im: Single,
}

impl Bin {
    /// A real number as a complex one.
    pub open spec fn of(x: Single) -> Bin {
        Bin { re: x, im: Single { bits: 0 } }
    }

    /// A real number as a complex one.
    pub fn from_real(x: Single) -> (r: Bin)
        ensures
            r == Bin::of(x),
    {
        Bin { re: x, im: Single::zero() }
    }
}

/// Real numbers as complex ones.
pub open spec fn reals(s: Seq<Single>) -> Seq<Bin> {
    s.map_values(|x: Single| Bin::of(x))
}

/// Real numbers as complex ones.
pub fn to_bins(signal: &[Single]) -> (r: Vec<Bin>)
    ensures
        r@ == reals(signal@),
{
    let mut out: Vec<Bin> = Vec::new();
    let mut i: usize = 0;
    while i < signal.len()
        invariant
            i <= signal@.len(),
            out@ == reals(signal@).take(i as int),
        decreases signal@.len() - i,
    {
        out.push(Bin::from_real(signal[i]));
        i += 1;
        assert(out@ =~= reals(signal@).take(i as int));
    }
    assert(out@ =~= reals(signal@));
    out
}

/// Transforms between signals and spectra. Nothing is required of what they
/// return; `None` stands for one that cannot be done.
pub trait Fourier {
    /// The spectrum of a signal.
    fn forward(&self, signal: &Vec<Bin>) -> Option<Vec<Bin>>;

    /// The signal of a spectrum, times its length.
    fn backward(&self, spectrum: &Vec<Bin>) -> Option<Vec<Bin>>;
}

/// Whether `out` can be the spectrum of a signal.
pub open spec fn is_forward<F: Fourier>(
    fourier: &F,
    signal: Vec<Bin>,
    out: Option<Vec<Bin>>,
) -> bool {
    call_ensures(F::forward, (fourier, &signal), out)
}

/// Whether `out` can be the signal of a spectrum.
pub open spec fn is_backward<F: Fourier>(
    fourier: &F,
    spectrum: Vec<Bin>,
    out: Option<Vec<Bin>>,
) -> bool {
    call_ensures(F::backward, (fourier, &spectrum), out)
}

/// Whether `r` can be the square of the magnitude of a complex number.
pub open spec fn is_power<M: Arithmetic<Single>>(math: &M, x: Bin, r: Single) -> bool {
    exists|across: Single, up: Single|
        {
            &&& #[trigger] call_ensures(M::product, (math, x.re, x.re), across)
            &&& #[trigger] call_ensures(M::product, (math, x.im, x.im), up)
            &&& call_ensures(M::sum, (math, across, up), r)
        }
}

/// The square of the magnitude of a complex number.
pub fn power<M: Arithmetic<Single>>(math: &M, x: Bin) -> (r: Single)
    ensures
        is_power(math, x, r),
{
    let across: Single = math.product(x.re, x.re);
    assert(call_ensures(M::product, (math, x.re, x.re), across));
    let up: Single = math.product(x.im, x.im);
    assert(call_ensures(M::product, (math, x.im, x.im), up));
    math.sum(across, up)
}

} // verus!
