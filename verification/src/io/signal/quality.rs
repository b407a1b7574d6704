//! How close a signal is to its reference.

use crate::arith::{differences, dot, mean, root_mean_square, scaled, shifted, Arithmetic};
use crate::error::{IoError, IoResult};
use crate::number::Double;
use vstd::prelude::*;
use vstd::slice::slice_subrange;
use vstd::string::*;

verus! {

/// The arithmetic of quality. Nothing is required of what it returns.
pub trait QualityMath: Arithmetic<Double> {
    /// A ratio of powers in decibels.
    fn decibels(&self, ratio: Double) -> Double;

    /// How much of the sample before stays, at a sample rate, in a signal
    /// weighed as it is heard.
    fn decay(&self, sample_rate: Double) -> Double;

    /// A sample of a signal weighed as it is heard, from the one before.
    fn blend(&self, decay: Double, before: Double, sample: Double) -> Double;

    /// The number of samples in so many milliseconds.
    fn samples_in(&self, sample_rate: Double, millis: u32) -> usize;

    /// The loudness of a level.
    fn loudness(&self, level: Double) -> Double;
}

/// The bit pattern of 1e-10: what is below is not heard.
pub const TINY_BITS: u64 = 0x3ddb_7cdf_d9d7_bdbb;

/// The bit pattern of 100.0.
pub const HUNDRED_BITS: u64 = 0x4059_0000_0000_0000;

/// The bit pattern of -10.0.
pub const MINUS_TEN_BITS: u64 = 0xc024_0000_0000_0000;

/// The bit pattern of 35.0.
pub const THIRTY_FIVE_BITS: u64 = 0x4041_8000_0000_0000;

/// The bit pattern of -1.0.
pub const MINUS_ONE_BITS: u64 = 0xbff0_0000_0000_0000;

/// The bit pattern of 1.0.
pub const ONE_BITS: u64 = 0x3ff0_0000_0000_0000;

/// The bit pattern of 3.0.
pub const THREE_BITS: u64 = 0x4008_0000_0000_0000;

/// The bit pattern of 3.5.
pub const THREE_AND_HALF_BITS: u64 = 0x400c_0000_0000_0000;

/// The bit pattern of 4.0.
pub const FOUR_BITS: u64 = 0x4010_0000_0000_0000;

/// The bit pattern of 4.5.
pub const FOUR_AND_HALF_BITS: u64 = 0x4012_0000_0000_0000;

/// The bit pattern of 5.0.
pub const FIVE_BITS: u64 = 0x4014_0000_0000_0000;

/// The bit pattern of 40.0.
pub const FORTY_BITS: u64 = 0x4044_0000_0000_0000;

/// The bit pattern of 0.5.
pub const PERCEIVED_SHARE_BITS: u64 = 0x3fe0_0000_0000_0000;

/// The bit pattern of 0.3.
pub const RATIO_SHARE_BITS: u64 = 0x3fd3_3333_3333_3333;

/// The bit pattern of 0.2.
pub const INTELLIGIBILITY_SHARE_BITS: u64 = 0x3fc9_9999_9999_999a;

/// The number with a bit pattern.
pub open spec fn number(bits: u64) -> Double {
    Double { bits }
}

/// Zero.
pub open spec fn nought() -> Double {
    Double { bits: 0 }
}

fn copy_doubles(v: &[Double]) -> (r: Vec<Double>)
    ensures
        r@ == v@,
{
    let mut out: Vec<Double> = Vec::new();
    out.extend_from_slice(v);
    assert(out@ =~= v@);
    out
}

/// A frame of a signal.
pub open spec fn frame_of(s: Seq<Double>, size: int, k: int) -> Seq<Double> {
    s.subrange(k * size, k * size + size)
}

proof fn frame_fits(n: int, size: int, k: int)
    requires
        0 <= n,
        0 < size,
        0 <= k < n / size,
    ensures
        0 <= k * size,
        k * size + size <= n,
{
    vstd::arithmetic::div_mod::lemma_fundamental_div_mod(n, size);
    assert(0 <= k * size) by (nonlinear_arith)
        requires
            0 <= k,
            0 < size,
    ;
    assert(k * size + size <= size * (n / size)) by (nonlinear_arith)
        requires
            k + 1 <= n / size,
            0 < size,
    ;
}

fn frame(s: &[Double], size: usize, k: usize) -> (r: Vec<Double>)
    requires
        size > 0,
        k < s@.len() as int / size as int,
    ensures
        r@ == frame_of(s@, size as int, k as int),
{
    assert(s@.len() == s.len());
    proof {
        frame_fits(s@.len() as int, size as int, k as int);
    }
    let start: usize = k * size;
    copy_doubles(slice_subrange(s, start, start + size))
}

/// Whether an error says that two signals cannot be compared, and why.
pub open spec fn is_config_error(e: IoError, cause: Seq<char>) -> bool {
    e matches IoError::ConfigError(t) && t@ == cause
}

/// Whether an energy can be that of a signal.
pub open spec fn is_energy<M: QualityMath>(math: &M, s: Seq<Double>, r: Double) -> bool {
    crate::arith::is_dot(math, nought(), s, s, r)
}

fn energy<M: QualityMath>(math: &M, s: &[Double]) -> (r: Double)
    ensures
        is_energy(math, s@, r),
{
    dot(math, Double::zero(), s, s)
}

/// Whether an energy can be that of what a signal has beside its reference.
pub open spec fn is_noise<M: QualityMath>(
    math: &M,
    reference: Seq<Double>,
    degraded: Seq<Double>,
    r: Double,
) -> bool {
    exists|rest: Seq<Double>|
        #[trigger] crate::arith::are_differences(math, degraded, reference, rest) && is_energy(
            math,
            rest,
            r,
        )
}

fn noise<M: QualityMath>(math: &M, reference: &[Double], degraded: &[Double]) -> (r: Double)
    requires
        reference@.len() == degraded@.len(),
    ensures
        is_noise(math, reference@, degraded@, r),
{
    let rest: Vec<Double> = differences(math, degraded, reference);
    assert(crate::arith::are_differences(math, degraded@, reference@, rest@));
    energy(math, rest.as_slice())
}

/// Whether `r` can be the ratio of two energies in decibels.
pub open spec fn is_decibels<M: QualityMath>(
    math: &M,
    signal: Double,
    noise: Double,
    r: Double,
) -> bool {
    exists|ratio: Double| #[trigger]
        call_ensures(M::quotient, (math, signal, noise), ratio) && call_ensures(
            M::decibels,
            (math, ratio),
            r,
        )
}

fn ratio_in_decibels<M: QualityMath>(math: &M, signal: Double, noise: Double) -> (r: Double)
    ensures
        is_decibels(math, signal, noise, r),
{
    let ratio: Double = math.quotient(signal, noise);
    math.decibels(ratio)
}

/// Whether `r` can be the ratio of signal to noise: 100 decibels where there
/// is next to no noise.
pub open spec fn is_ratio<M: QualityMath>(
    math: &M,
    signal: Double,
    noise: Double,
    r: Double,
) -> bool {
    if noise.below(number(TINY_BITS)) {
        r == number(HUNDRED_BITS)
    } else {
        is_decibels(math, signal, noise, r)
    }
}

/// Whether `r` can be the ratio of signal to noise, or the error for signals
/// that have none.
pub open spec fn gives_ratio<M: QualityMath>(
    math: &M,
    reference: Seq<Double>,
    degraded: Seq<Double>,
    r: IoResult<Double>,
) -> bool {
    if reference.len() != degraded.len() {
        r matches Err(e) && is_config_error(e, "Signal length mismatch"@)
    } else if reference.len() == 0 {
        r matches Err(e) && is_config_error(e, "Empty signals"@)
    } else {
        &&& r is Ok
        &&& exists|signal: Double, noise: Double|
            {
                &&& is_energy(math, reference, signal)
                &&& is_noise(math, reference, degraded, noise)
                &&& #[trigger] is_ratio(math, signal, noise, r->Ok_0)
            }
    }
}

/// Whether a segment with the given energies can have a ratio of signal to
/// noise: one between -10 and 35 decibels where both are heard, and none
/// otherwise.
pub open spec fn is_segment<M: QualityMath>(
    math: &M,
    signal: Double,
    noise: Double,
    r: Option<Double>,
) -> bool {
    if number(TINY_BITS).below(signal) && number(TINY_BITS).below(noise) {
        &&& r is Some
        &&& exists|db: Double| #[trigger]
            is_decibels(math, signal, noise, db) && r == Some(
                db.clamped(number(MINUS_TEN_BITS), number(THIRTY_FIVE_BITS)),
            )
    } else {
        r is None
    }
}

/// Whether the frame at a place can have a ratio of signal to noise.
pub open spec fn is_segment_at<M: QualityMath>(
    math: &M,
    reference: Seq<Double>,
    degraded: Seq<Double>,
    size: int,
    k: int,
    r: Option<Double>,
) -> bool {
    exists|signal: Double, noise: Double|
        {
            &&& is_energy(math, frame_of(reference, size, k), signal)
            &&& is_noise(
                math,
                frame_of(reference, size, k),
                frame_of(degraded, size, k),
                noise,
            )
            &&& #[trigger] is_segment(math, signal, noise, r)
        }
}

fn segment_ratio<M: QualityMath>(math: &M, signal: Double, noise: Double) -> (r: Option<Double>)
    ensures
        is_segment(math, signal, noise, r),
{
    let tiny: Double = Double::from_bits(TINY_BITS);
    if tiny.less(signal) && tiny.less(noise) {
        let db: Double = ratio_in_decibels(math, signal, noise);
        assert(is_decibels(math, signal, noise, db));
        let r: Option<Double> = Some(
            db.clamp(Double::from_bits(MINUS_TEN_BITS), Double::from_bits(THIRTY_FIVE_BITS)),
        );
        r
    } else {
        None
    }
}

/// Those that are there.
pub open spec fn present(values: Seq<Option<Double>>) -> Seq<Double>
    decreases values.len(),
{
    if values.len() == 0 {
        Seq::empty()
    } else {
        match values.last() {
            Some(v) => present(values.drop_last()).push(v),
            None => present(values.drop_last()),
        }
    }
}

/// Whether `r` can be the mean of the ratios of segments; zero where no
/// segment has one.
pub open spec fn is_segment_mean<M: QualityMath>(
    math: &M,
    ratios: Seq<Option<Double>>,
    r: Double,
) -> bool {
    if present(ratios).len() == 0 {
        r.bits == 0
    } else {
        crate::arith::is_mean(math, nought(), present(ratios), r)
    }
}

/// Whether ratios can be those of the segments of two signals.
pub open spec fn are_segments<M: QualityMath>(
    math: &M,
    reference: Seq<Double>,
    degraded: Seq<Double>,
    size: int,
    ratios: Seq<Option<Double>>,
) -> bool {
    &&& ratios.len() == reference.len() as int / size
    &&& forall|k: int|
        0 <= k < ratios.len() ==> is_segment_at(
            math,
            reference,
            degraded,
            size,
            k,
            #[trigger] ratios[k],
        )
}

/// What finds ratios of signal to noise.
#[derive(Debug, Clone, Copy, PartialEq, Eq, Structural)]
pub struct SnrCalculator {
    frame_size: usize,
}

impl SnrCalculator {
    /// The number of samples of a segment.
    pub closed spec fn segment(&self) -> usize {
        self.frame_size
    }

    /// What finds ratios with segments of so many samples.
    pub fn new(frame_size: usize) -> (r: Self)
        ensures
            r.segment() == frame_size,
    {
        SnrCalculator { frame_size }
    }

    /// The ratio of signal to noise of whole signals, in decibels.
    pub fn calculate_snr<M: QualityMath>(
        &self,
        math: &M,
        reference: &[Double],
        degraded: &[Double],
    ) -> (r: IoResult<Double>)
        ensures
            gives_ratio(math, reference@, degraded@, r),
    {
        if reference.len() != degraded.len() {
            return Err(IoError::ConfigError("Signal length mismatch".to_owned()));
        }
        if reference.len() == 0 {
            return Err(IoError::ConfigError("Empty signals".to_owned()));
        }
        let signal: Double = energy(math, reference);
        let rest: Double = noise(math, reference, degraded);
        let x: Double = if rest.less(Double::from_bits(TINY_BITS)) {
            Double::from_bits(HUNDRED_BITS)
        } else {
            ratio_in_decibels(math, signal, rest)
        };
        let r: IoResult<Double> = Ok(x);
        assert(is_ratio(math, signal, rest, r->Ok_0));
        r
    }

    /// The mean ratio of signal to noise of the segments of signals, in
    /// decibels; that of the whole signals where they are shorter than a
    /// segment.
    pub fn calculate_segmental_snr<M: QualityMath>(
        &self,
        math: &M,
        reference: &[Double],
        degraded: &[Double],
    ) -> (r: IoResult<Double>)
        requires
            self.segment() > 0,
        ensures
            gives_segmental(math, reference@, degraded@, self.segment() as int, r),
    {
        if reference.len() != degraded.len() {
            return Err(IoError::ConfigError("Signal length mismatch".to_owned()));
        }
        let size: usize = self.frame_size;
        let frames: usize = reference.len() / size;
        if frames == 0 {
            return self.calculate_snr(math, reference, degraded);
        }
        let ghost mut ratios: Seq<Option<Double>> = Seq::empty();
        let mut heard: Vec<Double> = Vec::new();
        let mut k: usize = 0;
        while k < frames
            invariant
                k <= frames,
                size > 0,
                frames == reference@.len() as int / size as int,
                reference@.len() == degraded@.len(),
                ratios.len() == k,
                heard@ == present(ratios),
                forall|i: int|
                    0 <= i < k ==> is_segment_at(
                        math,
                        reference@,
                        degraded@,
                        size as int,
                        i,
                        #[trigger] ratios[i],
                    ),
            decreases frames - k,
        {
            let a: Vec<Double> = frame(reference, size, k);
            let b: Vec<Double> = frame(degraded, size, k);
            proof {
                frame_fits(reference@.len() as int, size as int, k as int);
            }
            let signal: Double = energy(math, a.as_slice());
            let rest: Double = noise(math, a.as_slice(), b.as_slice());
            let x: Option<Double> = segment_ratio(math, signal, rest);
            proof {
                assert(is_segment(math, signal, rest, x));
                assert(is_segment_at(math, reference@, degraded@, size as int, k as int, x));
                let more = ratios.push(x);
                assert(more.drop_last() =~= ratios);
                ratios = more;
            }
            if let Some(v) = x {
                heard.push(v);
            }
            k += 1;
        }
        assert(are_segments(math, reference@, degraded@, size as int, ratios));
        if heard.len() == 0 {
            let r: IoResult<Double> = Ok(Double::zero());
            assert(is_segment_mean(math, ratios, r->Ok_0));
            return r;
        }
        let x: Double = mean(math, Double::zero(), heard.as_slice());
        assert(is_segment_mean(math, ratios, x));
        Ok(x)
    }

    /// The ratio of signal to noise of signals weighed as they are heard, in
    /// decibels.
    pub fn calculate_frequency_weighted_snr<M: QualityMath>(
        &self,
        math: &M,
        reference: &[Double],
        degraded: &[Double],
        sample_rate: Double,
    ) -> (r: IoResult<Double>)
        ensures
            exists|a: Seq<Double>, b: Seq<Double>|
                {
                    &&& #[trigger] is_weighed(math, reference@, sample_rate, a)
                    &&& #[trigger] is_weighed(math, degraded@, sample_rate, b)
                    &&& gives_ratio(math, a, b, r)
                },
    {
        let a: Vec<Double> = Self::apply_a_weighting(math, reference, sample_rate);
        let b: Vec<Double> = Self::apply_a_weighting(math, degraded, sample_rate);
        assert(is_weighed(math, reference@, sample_rate, a@));
        assert(is_weighed(math, degraded@, sample_rate, b@));
        self.calculate_snr(math, a.as_slice(), b.as_slice())
    }

    fn apply_a_weighting<M: QualityMath>(math: &M, signal: &[Double], sample_rate: Double) -> (r:
        Vec<Double>)
        ensures
            is_weighed(math, signal@, sample_rate, r@),
    {
        let decay: Double = math.decay(sample_rate);
        let mut out: Vec<Double> = Vec::new();
        let mut before: Double = Double::zero();
        let mut i: usize = 0;
        while i < signal.len()
            invariant
                i <= signal@.len(),
                out@.len() == i,
                before == sample_before(out@, i as int),
                forall|k: int|
                    0 <= k < i ==> call_ensures(
                        M::blend,
                        (math, decay, sample_before(out@, k), signal@[k]),
                        #[trigger] out@[k],
                    ),
            decreases signal@.len() - i,
        {
            let x: Double = math.blend(decay, before, signal[i]);
            let ghost held: Seq<Double> = out@;
            out.push(x);
            proof {
                assert(sample_before(out@, i as int) == sample_before(held, i as int));
                assert forall|k: int| 0 <= k < i + 1 implies call_ensures(
                    M::blend,
                    (math, decay, sample_before(out@, k), signal@[k]),
                    #[trigger] out@[k],
                ) by {
                    if k < i {
                        assert(out@[k] == held[k]);
                        assert(sample_before(out@, k) == sample_before(held, k));
                    }
                }
            }
            before = x;
            i += 1;
        }
        assert(follows(math, signal@, decay, out@));
        out
    }
}

/// The sample before a place, which is zero at the start.
pub open spec fn sample_before(s: Seq<Double>, k: int) -> Double {
    if k <= 0 {
        nought()
    } else {
        s[k - 1]
    }
}

/// Whether each sample of a signal can be blended of the one before and the
/// one of another signal.
pub open spec fn follows<M: QualityMath>(
    math: &M,
    signal: Seq<Double>,
    decay: Double,
    r: Seq<Double>,
) -> bool {
    &&& r.len() == signal.len()
    &&& forall|k: int|
        0 <= k < r.len() ==> call_ensures(
            M::blend,
            (math, decay, sample_before(r, k), signal[k]),
            #[trigger] r[k],
        )
}

/// Whether a signal can be another weighed as it is heard.
pub open spec fn is_weighed<M: QualityMath>(
    math: &M,
    signal: Seq<Double>,
    sample_rate: Double,
    r: Seq<Double>,
) -> bool {
    exists|decay: Double|
        call_ensures(M::decay, (math, sample_rate), decay) && #[trigger] follows(
            math,
            signal,
            decay,
            r,
        )
}

/// Whether `r` can be the mean ratio of signal to noise of segments.
pub open spec fn gives_segmental<M: QualityMath>(
    math: &M,
    reference: Seq<Double>,
    degraded: Seq<Double>,
    size: int,
    r: IoResult<Double>,
) -> bool {
    if reference.len() != degraded.len() {
        r matches Err(e) && is_config_error(e, "Signal length mismatch"@)
    } else if reference.len() as int / size == 0 {
        gives_ratio(math, reference, degraded, r)
    } else {
        &&& r is Ok
        &&& exists|ratios: Seq<Option<Double>>|
            {
                &&& #[trigger] are_segments(math, reference, degraded, size, ratios)
                &&& is_segment_mean(math, ratios, r->Ok_0)
            }
    }
}

/// What is measured on the frames of two signals.
#[derive(Debug, Clone, Copy, PartialEq, Eq, Structural)]
pub enum Measure {
    /// How far they move together.
    Correlation,
    /// How far apart their loudness is.
    Distortion,
    /// How close they are.
    Fidelity,
}

/// Whether `r` can be the root of the mean square of a signal; zero where
/// there is none.
pub open spec fn is_level<M: QualityMath>(math: &M, s: Seq<Double>, r: Double) -> bool {
    if s.len() == 0 {
        r.bits == 0
    } else {
        crate::arith::is_root_mean_square(math, nought(), s, r)
    }
}

fn level<M: QualityMath>(math: &M, s: &[Double]) -> (r: Double)
    ensures
        is_level(math, s@, r),
{
    if s.len() == 0 {
        Double::zero()
    } else {
        root_mean_square(math, Double::zero(), s)
    }
}

/// Whether `r` can be the quotient of a number and the product of the roots
/// of two others.
pub open spec fn is_normed<M: QualityMath>(
    math: &M,
    x: Double,
    a: Double,
    b: Double,
    r: Double,
) -> bool {
    exists|root_a: Double, root_b: Double, whole: Double|
        {
            &&& call_ensures(M::root, (math, a), root_a)
            &&& call_ensures(M::root, (math, b), root_b)
            &&& #[trigger] call_ensures(M::product, (math, root_a, root_b), whole)
            &&& call_ensures(M::quotient, (math, x, whole), r)
        }
}

fn normed<M: QualityMath>(math: &M, x: Double, a: Double, b: Double) -> (r: Double)
    ensures
        is_normed(math, x, a, b, r),
{
    let root_a: Double = math.root(a);
    let root_b: Double = math.root(b);
    let whole: Double = math.product(root_a, root_b);
    assert(call_ensures(M::product, (math, root_a, root_b), whole));
    math.quotient(x, whole)
}

/// Whether `r` can be how far two centred frames move together: a number
/// between -1 and 1, and zero where one of them hardly moves.
pub open spec fn is_moved_together<M: QualityMath>(
    math: &M,
    together: Double,
    alone: Double,
    other: Double,
    r: Double,
) -> bool {
    if number(TINY_BITS).below(alone) && number(TINY_BITS).below(other) {
        exists|x: Double| #[trigger]
            is_normed(math, together, alone, other, x) && r == x.clamped(
                number(MINUS_ONE_BITS),
                number(ONE_BITS),
            )
    } else {
        r.bits == 0
    }
}

/// Whether `r` can be how far two frames move together.
pub open spec fn is_correlation<M: QualityMath>(
    math: &M,
    a: Seq<Double>,
    b: Seq<Double>,
    r: Double,
) -> bool {
    exists|
        mean_a: Double,
        mean_b: Double,
        centred_a: Seq<Double>,
        centred_b: Seq<Double>,
        together: Double,
        alone: Double,
        other: Double,
    |
        {
            &&& crate::arith::is_mean(math, nought(), a, mean_a)
            &&& crate::arith::is_mean(math, nought(), b, mean_b)
            &&& #[trigger] crate::arith::are_shifted(math, a, mean_a, centred_a)
            &&& #[trigger] crate::arith::are_shifted(math, b, mean_b, centred_b)
            &&& crate::arith::is_dot(math, nought(), centred_a, centred_b, together)
            &&& is_energy(math, centred_a, alone)
            &&& is_energy(math, centred_b, other)
            &&& #[trigger] is_moved_together(math, together, alone, other, r)
        }
}

fn correlation<M: QualityMath>(math: &M, a: &[Double], b: &[Double]) -> (r: Double)
    ensures
        is_correlation(math, a@, b@, r),
{
    let mean_a: Double = mean(math, Double::zero(), a);
    let mean_b: Double = mean(math, Double::zero(), b);
    let centred_a: Vec<Double> = shifted(math, a, mean_a);
    let centred_b: Vec<Double> = shifted(math, b, mean_b);
    let together: Double = dot(math, Double::zero(), centred_a.as_slice(), centred_b.as_slice());
    let alone: Double = energy(math, centred_a.as_slice());
    let other: Double = energy(math, centred_b.as_slice());
    let tiny: Double = Double::from_bits(TINY_BITS);
    let r: Double = if tiny.less(alone) && tiny.less(other) {
        let x: Double = normed(math, together, alone, other);
        assert(is_normed(math, together, alone, other, x));
        x.clamp(Double::from_bits(MINUS_ONE_BITS), Double::from_bits(ONE_BITS))
    } else {
        Double::zero()
    };
    assert(crate::arith::are_shifted(math, a@, mean_a, centred_a@));
    assert(crate::arith::are_shifted(math, b@, mean_b, centred_b@));
    assert(is_moved_together(math, together, alone, other, r));
    r
}

/// Whether `r` can be how far apart the loudness of two levels is.
pub open spec fn is_apart<M: QualityMath>(
    math: &M,
    loud_a: Double,
    loud_b: Double,
    r: Double,
) -> bool {
    exists|x: Double| #[trigger]
        call_ensures(M::difference, (math, loud_a, loud_b), x) && r == x.absolute()
}

fn apart<M: QualityMath>(math: &M, loud_a: Double, loud_b: Double) -> (r: Double)
    ensures
        is_apart(math, loud_a, loud_b, r),
{
    let x: Double = math.difference(loud_a, loud_b);
    assert(call_ensures(M::difference, (math, loud_a, loud_b), x));
    x.abs()
}

/// Whether `r` can be the loudness of a frame.
pub open spec fn is_loudness<M: QualityMath>(math: &M, s: Seq<Double>, r: Double) -> bool {
    exists|x: Double| #[trigger]
        is_level(math, s, x) && call_ensures(M::loudness, (math, x), r)
}

fn loudness<M: QualityMath>(math: &M, s: &[Double]) -> (r: Double)
    ensures
        is_loudness(math, s@, r),
{
    let x: Double = level(math, s);
    math.loudness(x)
}

/// Whether `r` can be how far apart the loudness of two frames is.
pub open spec fn is_distortion<M: QualityMath>(
    math: &M,
    a: Seq<Double>,
    b: Seq<Double>,
    r: Double,
) -> bool {
    exists|loud_a: Double, loud_b: Double|
        {
            &&& is_loudness(math, a, loud_a)
            &&& is_loudness(math, b, loud_b)
            &&& #[trigger] is_apart(math, loud_a, loud_b, r)
        }
}

fn distortion<M: QualityMath>(math: &M, a: &[Double], b: &[Double]) -> (r: Double)
    ensures
        is_distortion(math, a@, b@, r),
{
    let loud_a: Double = loudness(math, a);
    let loud_b: Double = loudness(math, b);
    let r: Double = apart(math, loud_a, loud_b);
    assert(is_apart(math, loud_a, loud_b, r));
    r
}

/// Whether `r` can be how far two frames go together in time: at least zero,
/// and zero where one of them is hardly heard.
pub open spec fn is_temporal<M: QualityMath>(
    math: &M,
    together: Double,
    energy_a: Double,
    energy_b: Double,
    r: Double,
) -> bool {
    if number(TINY_BITS).below(energy_a) && number(TINY_BITS).below(energy_b) {
        exists|x: Double| #[trigger]
            is_normed(math, together, energy_a, energy_b, x) && r == x.greater(nought())
    } else {
        r.bits == 0
    }
}

fn temporal<M: QualityMath>(math: &M, together: Double, energy_a: Double, energy_b: Double) -> (r:
    Double)
    ensures
        is_temporal(math, together, energy_a, energy_b, r),
{
    let tiny: Double = Double::from_bits(TINY_BITS);
    if tiny.less(energy_a) && tiny.less(energy_b) {
        let x: Double = normed(math, together, energy_a, energy_b);
        assert(is_normed(math, together, energy_a, energy_b, x));
        x.max(Double::zero())
    } else {
        Double::zero()
    }
}

/// Whether `r` can be how close two energies are: the lesser of their ratios,
/// between 0 and 1; one where neither is heard, zero where one is not.
pub open spec fn is_spectral<M: QualityMath>(
    math: &M,
    energy_a: Double,
    energy_b: Double,
    r: Double,
) -> bool {
    let tiny = number(TINY_BITS);
    if energy_a.below(tiny) && energy_b.below(tiny) {
        r == number(ONE_BITS)
    } else if energy_a.below(tiny) || energy_b.below(tiny) {
        r.bits == 0
    } else {
        exists|x: Double, y: Double|
            {
                &&& #[trigger] call_ensures(M::quotient, (math, energy_b, energy_a), x)
                &&& #[trigger] call_ensures(M::quotient, (math, energy_a, energy_b), y)
                &&& r == x.lesser(y).clamped(nought(), number(ONE_BITS))
            }
    }
}

fn spectral<M: QualityMath>(math: &M, energy_a: Double, energy_b: Double) -> (r: Double)
    ensures
        is_spectral(math, energy_a, energy_b, r),
{
    let tiny: Double = Double::from_bits(TINY_BITS);
    let one: Double = Double::from_bits(ONE_BITS);
    let faint_a: bool = energy_a.less(tiny);
    let faint_b: bool = energy_b.less(tiny);
    if faint_a && faint_b {
        return one;
    }
    if faint_a || faint_b {
        return Double::zero();
    }
    let x: Double = math.quotient(energy_b, energy_a);
    let y: Double = math.quotient(energy_a, energy_b);
    x.min(y).clamp(Double::zero(), one)
}

/// Whether `r` can be how close two levels are in loudness: one less their
/// distance in parts of the greater, and at least zero; one where neither is
/// heard, zero where one is not.
pub open spec fn is_loud_alike<M: QualityMath>(
    math: &M,
    level_a: Double,
    level_b: Double,
    r: Double,
) -> bool {
    let tiny = number(TINY_BITS);
    if level_a.below(tiny) && level_b.below(tiny) {
        r == number(ONE_BITS)
    } else if level_a.below(tiny) || level_b.below(tiny) {
        r.bits == 0
    } else {
        exists|loud_a: Double, loud_b: Double, gap: Double|
            {
                &&& call_ensures(M::loudness, (math, level_a), loud_a)
                &&& call_ensures(M::loudness, (math, level_b), loud_b)
                &&& #[trigger] is_apart(math, loud_a, loud_b, gap)
                &&& is_share_left(math, gap, loud_a.greater(loud_b), r)
            }
    }
}

/// Whether `r` can be what a part leaves of a whole, at least zero; one where
/// there is hardly a whole.
pub open spec fn is_share_left<M: QualityMath>(
    math: &M,
    part: Double,
    whole: Double,
    r: Double,
) -> bool {
    if whole.below(number(TINY_BITS)) {
        r == number(ONE_BITS)
    } else {
        exists|share: Double, left: Double|
            {
                &&& #[trigger] call_ensures(M::quotient, (math, part, whole), share)
                &&& #[trigger] call_ensures(M::difference, (math, number(ONE_BITS), share), left)
                &&& r == left.greater(nought())
            }
    }
}

fn loud_alike<M: QualityMath>(math: &M, level_a: Double, level_b: Double) -> (r: Double)
    ensures
        is_loud_alike(math, level_a, level_b, r),
{
    let tiny: Double = Double::from_bits(TINY_BITS);
    let one: Double = Double::from_bits(ONE_BITS);
    let faint_a: bool = level_a.less(tiny);
    let faint_b: bool = level_b.less(tiny);
    if faint_a && faint_b {
        return one;
    }
    if faint_a || faint_b {
        return Double::zero();
    }
    let loud_a: Double = math.loudness(level_a);
    let loud_b: Double = math.loudness(level_b);
    let gap: Double = apart(math, loud_a, loud_b);
    assert(is_apart(math, loud_a, loud_b, gap));
    let whole: Double = loud_a.max(loud_b);
    let r: Double = if whole.less(tiny) {
        one
    } else {
        let share: Double = math.quotient(gap, whole);
        let left: Double = math.difference(one, share);
        assert(call_ensures(M::difference, (math, number(ONE_BITS), share), left));
        left.max(Double::zero())
    };
    assert(is_share_left(math, gap, loud_a.greater(loud_b), r));
    r
}

/// Whether `r` can be the third part of three numbers together.
pub open spec fn is_third<M: QualityMath>(
    math: &M,
    a: Double,
    b: Double,
    c: Double,
    r: Double,
) -> bool {
    exists|two: Double, three: Double|
        {
            &&& #[trigger] call_ensures(M::sum, (math, a, b), two)
            &&& #[trigger] call_ensures(M::sum, (math, two, c), three)
            &&& call_ensures(M::quotient, (math, three, number(THREE_BITS)), r)
        }
}

/// Whether `r` can be how close two frames are, in time, in energy and in
/// loudness.
pub open spec fn is_fidelity<M: QualityMath>(
    math: &M,
    a: Seq<Double>,
    b: Seq<Double>,
    r: Double,
) -> bool {
    exists|
        together: Double,
        energy_a: Double,
        energy_b: Double,
        level_a: Double,
        level_b: Double,
        in_time: Double,
        in_energy: Double,
        in_loudness: Double,
    |
        {
            &&& crate::arith::is_dot(math, nought(), a, b, together)
            &&& is_energy(math, a, energy_a)
            &&& is_energy(math, b, energy_b)
            &&& is_level(math, a, level_a)
            &&& is_level(math, b, level_b)
            &&& #[trigger] is_temporal(math, together, energy_a, energy_b, in_time)
            &&& is_spectral(math, energy_a, energy_b, in_energy)
            &&& #[trigger] is_loud_alike(math, level_a, level_b, in_loudness)
            &&& #[trigger] is_third(math, in_time, in_energy, in_loudness, r)
        }
}

fn fidelity<M: QualityMath>(math: &M, a: &[Double], b: &[Double]) -> (r: Double)
    ensures
        is_fidelity(math, a@, b@, r),
{
    let together: Double = dot(math, Double::zero(), a, b);
    let energy_a: Double = energy(math, a);
    let energy_b: Double = energy(math, b);
    let level_a: Double = level(math, a);
    let level_b: Double = level(math, b);
    let in_time: Double = temporal(math, together, energy_a, energy_b);
    let in_energy: Double = spectral(math, energy_a, energy_b);
    let in_loudness: Double = loud_alike(math, level_a, level_b);
    let two: Double = math.sum(in_time, in_energy);
    let three: Double = math.sum(two, in_loudness);
    let r: Double = math.quotient(three, Double::from_bits(THREE_BITS));
    assert(call_ensures(M::sum, (math, in_time, in_energy), two));
    assert(call_ensures(M::sum, (math, two, in_loudness), three));
    assert(is_third(math, in_time, in_energy, in_loudness, r));
    assert(is_temporal(math, together, energy_a, energy_b, in_time));
    assert(is_loud_alike(math, level_a, level_b, in_loudness));
    r
}

/// Whether a number can be a measure of two frames.
pub open spec fn is_measure<M: QualityMath>(
    math: &M,
    what: Measure,
    a: Seq<Double>,
    b: Seq<Double>,
    r: Double,
) -> bool {
    match what {
        Measure::Correlation => is_correlation(math, a, b, r),
        Measure::Distortion => is_distortion(math, a, b, r),
        Measure::Fidelity => is_fidelity(math, a, b, r),
    }
}

/// Whether a number can be a measure of the frames at a place.
pub open spec fn is_measure_at<M: QualityMath>(
    math: &M,
    what: Measure,
    reference: Seq<Double>,
    degraded: Seq<Double>,
    size: int,
    k: int,
    r: Double,
) -> bool {
    is_measure(math, what, frame_of(reference, size, k), frame_of(degraded, size, k), r)
}

/// Whether numbers can be measures of the frames of two signals.
pub open spec fn are_measures<M: QualityMath>(
    math: &M,
    what: Measure,
    reference: Seq<Double>,
    degraded: Seq<Double>,
    size: int,
    r: Seq<Double>,
) -> bool {
    &&& r.len() == reference.len() as int / size
    &&& forall|k: int|
        0 <= k < r.len() ==> is_measure_at(
            math,
            what,
            reference,
            degraded,
            size,
            k,
            #[trigger] r[k],
        )
}

fn measures<M: QualityMath>(
    math: &M,
    what: Measure,
    reference: &[Double],
    degraded: &[Double],
    size: usize,
) -> (r: Vec<Double>)
    requires
        size > 0,
        degraded@.len() as int / size as int >= reference@.len() as int / size as int,
    ensures
        are_measures(math, what, reference@, degraded@, size as int, r@),
{
    let frames: usize = reference.len() / size;
    let mut out: Vec<Double> = Vec::new();
    let mut k: usize = 0;
    while k < frames
        invariant
            k <= frames,
            size > 0,
            frames == reference@.len() as int / size as int,
            frames <= degraded@.len() as int / size as int,
            out@.len() == k,
            forall|i: int|
                0 <= i < k ==> is_measure_at(
                    math,
                    what,
                    reference@,
                    degraded@,
                    size as int,
                    i,
                    #[trigger] out@[i],
                ),
        decreases frames - k,
    {
        let a: Vec<Double> = frame(reference, size, k);
        let b: Vec<Double> = frame(degraded, size, k);
        let x: Double = match what {
            Measure::Correlation => correlation(math, a.as_slice(), b.as_slice()),
            Measure::Distortion => distortion(math, a.as_slice(), b.as_slice()),
            Measure::Fidelity => fidelity(math, a.as_slice(), b.as_slice()),
        };
        assert(is_measure_at(math, what, reference@, degraded@, size as int, k as int, x));
        out.push(x);
        k += 1;
    }
    out
}

/// What finds intelligibility.
#[derive(Debug, Clone, Copy, PartialEq, Eq, Structural)]
pub struct StoiCalculator {
    sample_rate: Double,
    frame_length: usize,
    num_bands: usize,
}

/// Whether `r` can be the intelligibility that frames moving together speak
/// for: their mean, between 0 and 1.
pub open spec fn is_intelligibility<M: QualityMath>(
    math: &M,
    correlations: Seq<Double>,
    r: Double,
) -> bool {
    exists|x: Double| #[trigger]
        crate::arith::is_mean(math, nought(), correlations, x) && r == x.clamped(
            nought(),
            number(ONE_BITS),
        )
}

/// Whether `r` can be the intelligibility of a signal, or the error for
/// signals that have none.
pub open spec fn gives_stoi<M: QualityMath>(
    math: &M,
    reference: Seq<Double>,
    degraded: Seq<Double>,
    size: int,
    r: IoResult<Double>,
) -> bool {
    if reference.len() != degraded.len() {
        r matches Err(e) && is_config_error(e, "Signal length mismatch"@)
    } else if reference.len() as int / size == 0 {
        r matches Err(e) && is_config_error(e, "Signal too short"@)
    } else {
        &&& r is Ok
        &&& exists|held: Seq<Double>|
            {
                &&& are_measures(math, Measure::Correlation, reference, degraded, size, held)
                &&& #[trigger] is_intelligibility(math, held, r->Ok_0)
            }
    }
}

impl StoiCalculator {
    /// The number of samples of a frame.
    pub closed spec fn frame_len(&self) -> usize {
        self.frame_length
    }

    /// What finds intelligibility at a sample rate, with frames of 256
    /// milliseconds.
    pub fn new<M: QualityMath>(math: &M, sample_rate: Double) -> (r: Self)
        ensures
            call_ensures(M::samples_in, (math, sample_rate, 256u32), r.frame_len()),
    {
        let frame_length: usize = math.samples_in(sample_rate, 256);
        StoiCalculator { sample_rate, frame_length, num_bands: 15 }
    }

    /// The number of samples of a frame.
    pub fn frame_length(&self) -> (r: usize)
        ensures
            r == self.frame_len(),
    {
        self.frame_length
    }

    /// The intelligibility of a signal: a number between 0 and 1, unless the
    /// arithmetic came to none.
    pub fn calculate<M: QualityMath>(
        &self,
        math: &M,
        reference: &[Double],
        degraded: &[Double],
    ) -> (r: IoResult<Double>)
        requires
            self.frame_len() > 0,
        ensures
            gives_stoi(math, reference@, degraded@, self.frame_len() as int, r),
            r matches Ok(x) ==> x.nan() || x.within(nought(), number(ONE_BITS)),
    {
        if reference.len() != degraded.len() {
            return Err(IoError::ConfigError("Signal length mismatch".to_owned()));
        }
        if reference.len() / self.frame_length == 0 {
            return Err(IoError::ConfigError("Signal too short".to_owned()));
        }
        let held: Vec<Double> = measures(
            math,
            Measure::Correlation,
            reference,
            degraded,
            self.frame_length,
        );
        let x: Double = mean(math, Double::zero(), held.as_slice());
        assert(crate::arith::is_mean(math, nought(), held@, x));
        let r: IoResult<Double> = Ok(x.clamp(Double::zero(), Double::from_bits(ONE_BITS)));
        assert(is_intelligibility(math, held@, r->Ok_0));
        proof {
            crate::number::clamped_doubles_are_inside(x, nought(), number(ONE_BITS));
        }
        r
    }
}

/// What finds a perceived score.
#[derive(Debug, Clone, Copy, PartialEq, Eq, Structural)]
pub struct PesqCalculator {
    sample_rate: Double,
    frame_size: usize,
}

/// Whether `r` can be the score that distortions speak for: 4.5 less 3.5
/// times their mean, as far as that goes, between 1 and 4.5.
pub open spec fn is_perceived<M: QualityMath>(
    math: &M,
    distortions: Seq<Double>,
    r: Double,
) -> bool {
    exists|average: Double, loss: Double, x: Double|
        {
            &&& crate::arith::is_mean(math, nought(), distortions, average)
            &&& #[trigger] call_ensures(
                M::product,
                (math, average, number(THREE_AND_HALF_BITS)),
                loss,
            )
            &&& #[trigger] call_ensures(
                M::difference,
                (math, number(FOUR_AND_HALF_BITS), loss.lesser(number(THREE_AND_HALF_BITS))),
                x,
            )
            &&& r == x.clamped(number(ONE_BITS), number(FOUR_AND_HALF_BITS))
        }
}

fn perceived<M: QualityMath>(math: &M, distortions: &[Double]) -> (r: Double)
    ensures
        is_perceived(math, distortions@, r),
        r.nan() || r.within(number(ONE_BITS), number(FOUR_AND_HALF_BITS)),
{
    let average: Double = mean(math, Double::zero(), distortions);
    let most: Double = Double::from_bits(THREE_AND_HALF_BITS);
    let best: Double = Double::from_bits(FOUR_AND_HALF_BITS);
    let loss: Double = math.product(average, most);
    assert(call_ensures(M::product, (math, average, number(THREE_AND_HALF_BITS)), loss));
    let x: Double = math.difference(best, loss.min(most));
    assert(call_ensures(
        M::difference,
        (math, number(FOUR_AND_HALF_BITS), loss.lesser(number(THREE_AND_HALF_BITS))),
        x,
    ));
    proof {
        crate::number::clamped_doubles_are_inside(x, number(ONE_BITS), number(FOUR_AND_HALF_BITS));
    }
    x.clamp(Double::from_bits(ONE_BITS), best)
}

/// Whether `r` can be a signal brought to a level: as it is where it is hardly
/// heard, and amplified by the ratio of the levels otherwise.
pub open spec fn is_brought<M: QualityMath>(
    math: &M,
    signal: Seq<Double>,
    wanted: Double,
    own: Double,
    r: Seq<Double>,
) -> bool {
    if own.below(number(TINY_BITS)) {
        r == signal
    } else {
        exists|gain: Double| #[trigger]
            call_ensures(M::quotient, (math, wanted, own), gain) && crate::arith::are_scaled(
                math,
                signal,
                gain,
                r,
            )
    }
}

/// Whether a signal can be another brought to the level of its reference.
pub open spec fn is_aligned<M: QualityMath>(
    math: &M,
    reference: Seq<Double>,
    degraded: Seq<Double>,
    r: Seq<Double>,
) -> bool {
    exists|wanted: Double, own: Double|
        {
            &&& is_level(math, reference, wanted)
            &&& is_level(math, degraded, own)
            &&& #[trigger] is_brought(math, degraded, wanted, own, r)
        }
}

/// Whether `r` can be the score of a signal that was brought to the level of
/// its reference; the least where they are shorter than a frame.
pub open spec fn is_scored<M: QualityMath>(
    math: &M,
    reference: Seq<Double>,
    level: Seq<Double>,
    size: int,
    r: Double,
) -> bool {
    if reference.len() as int / size == 0 {
        r.bits == ONE_BITS
    } else {
        exists|held: Seq<Double>|
            {
                &&& are_measures(math, Measure::Distortion, reference, level, size, held)
                &&& #[trigger] is_perceived(math, held, r)
            }
    }
}

/// Whether `r` can be the perceived score of a signal, or the error for
/// signals of different lengths.
pub open spec fn gives_pesq<M: QualityMath>(
    math: &M,
    reference: Seq<Double>,
    degraded: Seq<Double>,
    size: int,
    r: IoResult<Double>,
) -> bool {
    if reference.len() != degraded.len() {
        r matches Err(e) && is_config_error(e, "Signal length mismatch"@)
    } else {
        &&& r is Ok
        &&& exists|level: Seq<Double>|
            {
                &&& #[trigger] is_aligned(math, reference, degraded, level)
                &&& is_scored(math, reference, level, size, r->Ok_0)
            }
    }
}

fn align<M: QualityMath>(math: &M, reference: &[Double], degraded: &[Double]) -> (r: Vec<Double>)
    ensures
        is_aligned(math, reference@, degraded@, r@),
        r@.len() == degraded@.len(),
{
    let wanted: Double = level(math, reference);
    let own: Double = level(math, degraded);
    let r: Vec<Double> = if own.less(Double::from_bits(TINY_BITS)) {
        copy_doubles(degraded)
    } else {
        let gain: Double = math.quotient(wanted, own);
        assert(call_ensures(M::quotient, (math, wanted, own), gain));
        scaled(math, degraded, gain)
    };
    assert(is_brought(math, degraded@, wanted, own, r@));
    r
}

impl PesqCalculator {
    /// The number of samples of a frame.
    pub closed spec fn frame_len(&self) -> usize {
        self.frame_size
    }

    /// What finds a perceived score at a sample rate, with frames of 32
    /// milliseconds.
    pub fn new<M: QualityMath>(math: &M, sample_rate: Double) -> (r: Self)
        ensures
            call_ensures(M::samples_in, (math, sample_rate, 32u32), r.frame_len()),
    {
        let frame_size: usize = math.samples_in(sample_rate, 32);
        PesqCalculator { sample_rate, frame_size }
    }

    /// The number of samples of a frame.
    pub fn frame_size(&self) -> (r: usize)
        ensures
            r == self.frame_len(),
    {
        self.frame_size
    }

    /// The perceived score of a signal: a number between 1 and 4.5, unless the
    /// arithmetic came to none.
    pub fn calculate<M: QualityMath>(
        &self,
        math: &M,
        reference: &[Double],
        degraded: &[Double],
    ) -> (r: IoResult<Double>)
        requires
            self.frame_len() > 0,
        ensures
            gives_pesq(math, reference@, degraded@, self.frame_len() as int, r),
            r matches Ok(x) ==> x.nan() || x.within(number(ONE_BITS), number(FOUR_AND_HALF_BITS)),
    {
        if reference.len() != degraded.len() {
            return Err(IoError::ConfigError("Signal length mismatch".to_owned()));
        }
        let level: Vec<Double> = align(math, reference, degraded);
        let size: usize = self.frame_size;
        let x: Double = if reference.len() / size == 0 {
            Double::from_bits(ONE_BITS)
        } else {
            let held: Vec<Double> = measures(
                math,
                Measure::Distortion,
                reference,
                level.as_slice(),
                size,
            );
            let x: Double = perceived(math, held.as_slice());
            assert(is_perceived(math, held@, x));
            x
        };
        assert(is_scored(math, reference@, level@, size as int, x));
        assert(is_aligned(math, reference@, degraded@, level@));
        Ok(x)
    }
}

/// What finds a listening score.
#[derive(Debug, Clone, Copy, PartialEq, Eq, Structural)]
pub struct PolqaCalculator {
    sample_rate: Double,
    frame_size: usize,
}

/// Whether `r` can be one more than four times a number.
pub open spec fn is_widened<M: QualityMath>(math: &M, x: Double, r: Double) -> bool {
    exists|fourfold: Double|
        {
            &&& #[trigger] call_ensures(M::product, (math, x, number(FOUR_BITS)), fourfold)
            &&& call_ensures(M::sum, (math, fourfold, number(ONE_BITS)), r)
        }
}

fn widened<M: QualityMath>(math: &M, x: Double) -> (r: Double)
    ensures
        is_widened(math, x, r),
{
    let fourfold: Double = math.product(x, Double::from_bits(FOUR_BITS));
    assert(call_ensures(M::product, (math, x, number(FOUR_BITS)), fourfold));
    math.sum(fourfold, Double::from_bits(ONE_BITS))
}

/// Whether `r` can be the score that close frames speak for: one more than
/// four times their mean, between 1 and 5.
pub open spec fn is_listening<M: QualityMath>(
    math: &M,
    fidelities: Seq<Double>,
    r: Double,
) -> bool {
    exists|average: Double, x: Double|
        {
            &&& #[trigger] crate::arith::is_mean(math, nought(), fidelities, average)
            &&& #[trigger] is_widened(math, average, x)
            &&& r == x.clamped(number(ONE_BITS), number(FIVE_BITS))
        }
}

impl PolqaCalculator {
    /// The number of samples of a frame.
    pub closed spec fn frame_len(&self) -> usize {
        self.frame_size
    }

    /// What finds a listening score at a sample rate, with frames of 20
    /// milliseconds.
    pub fn new<M: QualityMath>(math: &M, sample_rate: Double) -> (r: Self)
        ensures
            call_ensures(M::samples_in, (math, sample_rate, 20u32), r.frame_len()),
    {
        let frame_size: usize = math.samples_in(sample_rate, 20);
        PolqaCalculator { sample_rate, frame_size }
    }

    /// The number of samples of a frame.
    pub fn frame_size(&self) -> (r: usize)
        ensures
            r == self.frame_len(),
    {
        self.frame_size
    }

    /// The listening score of a signal, or the error for signals that have
    /// none: a number between 1 and 5, unless the arithmetic came to none.
    pub fn calculate<M: QualityMath>(
        &self,
        math: &M,
        reference: &[Double],
        degraded: &[Double],
    ) -> (r: IoResult<Double>)
        requires
            self.frame_len() > 0,
        ensures
            if reference@.len() != degraded@.len() {
                r matches Err(e) && is_config_error(e, "Signal length mismatch"@)
            } else if reference@.len() as int / self.frame_len() as int == 0 {
                r matches Err(e) && is_config_error(e, "Signal too short"@)
            } else {
                &&& r is Ok
                &&& exists|held: Seq<Double>|
                    {
                        &&& are_measures(
                            math,
                            Measure::Fidelity,
                            reference@,
                            degraded@,
                            self.frame_len() as int,
                            held,
                        )
                        &&& #[trigger] is_listening(math, held, r->Ok_0)
                    }
            },
            r matches Ok(x) ==> x.nan() || x.within(number(ONE_BITS), number(FIVE_BITS)),
    {
        if reference.len() != degraded.len() {
            return Err(IoError::ConfigError("Signal length mismatch".to_owned()));
        }
        if reference.len() / self.frame_size == 0 {
            return Err(IoError::ConfigError("Signal too short".to_owned()));
        }
        let held: Vec<Double> = measures(
            math,
            Measure::Fidelity,
            reference,
            degraded,
            self.frame_size,
        );
        let average: Double = mean(math, Double::zero(), held.as_slice());
        let x: Double = widened(math, average);
        let r: IoResult<Double> = Ok(
            x.clamp(Double::from_bits(ONE_BITS), Double::from_bits(FIVE_BITS)),
        );
        assert(crate::arith::is_mean(math, nought(), held@, average));
        assert(is_widened(math, average, x));
        assert(is_listening(math, held@, r->Ok_0));
        proof {
            crate::number::clamped_doubles_are_inside(x, number(ONE_BITS), number(FIVE_BITS));
        }
        r
    }
}

/// The bit pattern of 4.0.
pub const EXCELLENT_BITS: u64 = 0x4010_0000_0000_0000;

/// The bit pattern of 3.5.
pub const GOOD_BITS: u64 = 0x400c_0000_0000_0000;

/// The bit pattern of 3.0.
pub const FAIR_BITS: u64 = 0x4008_0000_0000_0000;

/// The bit pattern of 2.0.
pub const POOR_BITS: u64 = 0x4000_0000_0000_0000;

/// The bit pattern of 0.8.
pub const HIGHLY_BITS: u64 = 0x3fe9_9999_9999_999a;

/// The bit pattern of 0.6.
pub const INTELLIGIBLE_BITS: u64 = 0x3fe3_3333_3333_3333;

/// The bit pattern of 0.4.
pub const PARTIALLY_BITS: u64 = 0x3fd9_9999_9999_999a;

/// What is known of the quality of a signal.
#[derive(Debug, Clone, Copy, PartialEq, Eq, Structural)]
pub struct QualityMetrics {
    /// The ratio of signal to noise, in decibels.
    pub snr: Double,
    /// The mean ratio of segments, in decibels.
    pub segmental_snr: Double,
    /// The perceived score.
    pub pesq_score: Double,
    /// The intelligibility.
    pub stoi_score: Double,
    /// The opinion.
    pub mos: Double,
}

/// Whether a number is at least a bound.
pub open spec fn reaches(x: Double, bits: u64) -> bool {
    !x.nan() && !x.below(Double { bits })
}

fn check_reaches(x: Double, bits: u64) -> (r: bool)
    requires
        !(Double { bits }).nan(),
    ensures
        r == reaches(x, bits),
{
    Double::from_bits(bits).at_most(x)
}

impl QualityMetrics {
    /// What the opinion amounts to.
    pub fn quality_rating(&self) -> (r: &'static str)
        ensures
            r@ == if reaches(self.mos, EXCELLENT_BITS) {
                "Excellent"@
            } else if reaches(self.mos, GOOD_BITS) {
                "Good"@
            } else if reaches(self.mos, FAIR_BITS) {
                "Fair"@
            } else if reaches(self.mos, POOR_BITS) {
                "Poor"@
            } else {
                "Bad"@
            },
    {
        if check_reaches(self.mos, EXCELLENT_BITS) {
            "Excellent"
        } else if check_reaches(self.mos, GOOD_BITS) {
            "Good"
        } else if check_reaches(self.mos, FAIR_BITS) {
            "Fair"
        } else if check_reaches(self.mos, POOR_BITS) {
            "Poor"
        } else {
            "Bad"
        }
    }

    /// What the intelligibility amounts to.
    pub fn intelligibility_rating(&self) -> (r: &'static str)
        ensures
            r@ == if reaches(self.stoi_score, HIGHLY_BITS) {
                "Highly Intelligible"@
            } else if reaches(self.stoi_score, INTELLIGIBLE_BITS) {
                "Intelligible"@
            } else if reaches(self.stoi_score, PARTIALLY_BITS) {
                "Partially Intelligible"@
            } else {
                "Unintelligible"@
            },
    {
        if check_reaches(self.stoi_score, HIGHLY_BITS) {
            "Highly Intelligible"
        } else if check_reaches(self.stoi_score, INTELLIGIBLE_BITS) {
            "Intelligible"
        } else if check_reaches(self.stoi_score, PARTIALLY_BITS) {
            "Partially Intelligible"
        } else {
            "Unintelligible"
        }
    }
}

/// What finds opinions.
#[derive(Debug, Clone, Copy, PartialEq, Eq, Structural)]
pub struct MosPredictor {
    snr_calc: SnrCalculator,
    pesq_calc: PesqCalculator,
    stoi_calc: StoiCalculator,
}

/// Whether `r` can be a ratio of signal to noise on a scale from 0 to 1.
pub open spec fn is_scaled_ratio<M: QualityMath>(math: &M, snr: Double, r: Double) -> bool {
    exists|lifted: Double, x: Double|
        {
            &&& #[trigger] call_ensures(M::sum, (math, snr, number(FIVE_BITS)), lifted)
            &&& #[trigger] call_ensures(M::quotient, (math, lifted, number(FORTY_BITS)), x)
            &&& r == x.clamped(nought(), number(ONE_BITS))
        }
}

/// Whether `r` can be a share of a number on a scale from 1 to 5.
pub open spec fn is_share<M: QualityMath>(math: &M, x: Double, share: u64, r: Double) -> bool {
    exists|wide: Double| #[trigger]
        is_widened(math, x, wide) && call_ensures(M::product, (math, number(share), wide), r)
}

fn share_of<M: QualityMath>(math: &M, x: Double, share: u64) -> (r: Double)
    ensures
        is_share(math, x, share, r),
{
    let wide: Double = widened(math, x);
    assert(is_widened(math, x, wide));
    math.product(Double::from_bits(share), wide)
}

/// Whether `r` can be the opinion that the ratio of signal to noise, the
/// perceived score and the intelligibility speak for: half of the score and
/// shares of the others, between 1 and 5.
pub open spec fn is_weighted<M: QualityMath>(
    math: &M,
    snr: Double,
    pesq: Double,
    stoi: Double,
    r: Double,
) -> bool {
    exists|scaled: Double, first: Double, second: Double, third: Double, two: Double, x: Double|
        {
            &&& is_scaled_ratio(math, snr, scaled)
            &&& call_ensures(M::product, (math, number(PERCEIVED_SHARE_BITS), pesq), first)
            &&& #[trigger] is_share(math, scaled, RATIO_SHARE_BITS, second)
            &&& #[trigger] is_share(math, stoi, INTELLIGIBILITY_SHARE_BITS, third)
            &&& #[trigger] call_ensures(M::sum, (math, first, second), two)
            &&& #[trigger] call_ensures(M::sum, (math, two, third), x)
            &&& r == x.clamped(number(ONE_BITS), number(FIVE_BITS))
        }
}

fn weighted<M: QualityMath>(math: &M, snr: Double, pesq: Double, stoi: Double) -> (r: Double)
    ensures
        is_weighted(math, snr, pesq, stoi, r),
        r.nan() || r.within(number(ONE_BITS), number(FIVE_BITS)),
{
    let one: Double = Double::from_bits(ONE_BITS);
    let lifted: Double = math.sum(snr, Double::from_bits(FIVE_BITS));
    assert(call_ensures(M::sum, (math, snr, number(FIVE_BITS)), lifted));
    let unbounded: Double = math.quotient(lifted, Double::from_bits(FORTY_BITS));
    assert(call_ensures(M::quotient, (math, lifted, number(FORTY_BITS)), unbounded));
    let scaled: Double = unbounded.clamp(Double::zero(), one);
    assert(is_scaled_ratio(math, snr, scaled));
    let first: Double = math.product(Double::from_bits(PERCEIVED_SHARE_BITS), pesq);
    let second: Double = share_of(math, scaled, RATIO_SHARE_BITS);
    let third: Double = share_of(math, stoi, INTELLIGIBILITY_SHARE_BITS);
    let two: Double = math.sum(first, second);
    let x: Double = math.sum(two, third);
    assert(is_share(math, scaled, RATIO_SHARE_BITS, second));
    assert(is_share(math, stoi, INTELLIGIBILITY_SHARE_BITS, third));
    assert(call_ensures(M::sum, (math, first, second), two));
    assert(call_ensures(M::sum, (math, two, third), x));
    proof {
        crate::number::clamped_doubles_are_inside(x, number(ONE_BITS), number(FIVE_BITS));
    }
    x.clamp(one, Double::from_bits(FIVE_BITS))
}

/// Whether `r` can be the opinion that three measures speak for; the first
/// that cannot be found ends it.
pub open spec fn is_opinion<M: QualityMath>(
    math: &M,
    snr: IoResult<Double>,
    pesq: IoResult<Double>,
    stoi: IoResult<Double>,
    r: IoResult<Double>,
) -> bool {
    match (snr, pesq, stoi) {
        (Err(e), _, _) => r == Err::<Double, IoError>(e),
        (_, Err(e), _) => r == Err::<Double, IoError>(e),
        (_, _, Err(e)) => r == Err::<Double, IoError>(e),
        (Ok(a), Ok(b), Ok(c)) => r matches Ok(x) && is_weighted(math, a, b, c, x),
    }
}

/// Whether `r` can be the opinion on a signal.
pub open spec fn gives_opinion<M: QualityMath>(
    math: &M,
    reference: Seq<Double>,
    degraded: Seq<Double>,
    pesq_frame: int,
    stoi_frame: int,
    r: IoResult<Double>,
) -> bool {
    exists|snr: IoResult<Double>, pesq: IoResult<Double>, stoi: IoResult<Double>|
        {
            &&& #[trigger] gives_ratio(math, reference, degraded, snr)
            &&& #[trigger] gives_pesq(math, reference, degraded, pesq_frame, pesq)
            &&& #[trigger] gives_stoi(math, reference, degraded, stoi_frame, stoi)
            &&& is_opinion(math, snr, pesq, stoi, r)
        }
}

/// Whether `r` can be what is known of the quality of a signal; the first
/// measure that cannot be found ends it.
pub open spec fn are_metrics(
    snr: IoResult<Double>,
    segmental: IoResult<Double>,
    pesq: IoResult<Double>,
    stoi: IoResult<Double>,
    mos: IoResult<Double>,
    r: IoResult<QualityMetrics>,
) -> bool {
    match (snr, segmental, pesq, stoi, mos) {
        (Err(e), _, _, _, _) => r == Err::<QualityMetrics, IoError>(e),
        (_, Err(e), _, _, _) => r == Err::<QualityMetrics, IoError>(e),
        (_, _, Err(e), _, _) => r == Err::<QualityMetrics, IoError>(e),
        (_, _, _, Err(e), _) => r == Err::<QualityMetrics, IoError>(e),
        (_, _, _, _, Err(e)) => r == Err::<QualityMetrics, IoError>(e),
        (Ok(a), Ok(b), Ok(c), Ok(d), Ok(x)) => r == Ok::<QualityMetrics, IoError>(
            QualityMetrics { snr: a, segmental_snr: b, pesq_score: c, stoi_score: d, mos: x },
        ),
    }
}

impl MosPredictor {
    /// The number of samples of a frame of the perceived score.
    pub closed spec fn pesq_frame(&self) -> usize {
        self.pesq_calc.frame_len()
    }

    /// The number of samples of a frame of intelligibility.
    pub closed spec fn stoi_frame(&self) -> usize {
        self.stoi_calc.frame_len()
    }

    /// The number of samples of a segment.
    pub closed spec fn segment(&self) -> usize {
        self.snr_calc.segment()
    }

    /// Whether frames and segments have samples.
    pub open spec fn wf(&self) -> bool {
        self.pesq_frame() > 0 && self.stoi_frame() > 0 && self.segment() > 0
    }

    /// What finds opinions at a sample rate.
    pub fn new<M: QualityMath>(math: &M, sample_rate: Double) -> (r: Self)
        ensures
            call_ensures(M::samples_in, (math, sample_rate, 32u32), r.pesq_frame()),
            call_ensures(M::samples_in, (math, sample_rate, 256u32), r.stoi_frame()),
            r.segment() == 512,
    {
        MosPredictor {
            snr_calc: SnrCalculator::new(512),
            pesq_calc: PesqCalculator::new(math, sample_rate),
            stoi_calc: StoiCalculator::new(math, sample_rate),
        }
    }

    /// Whether frames and segments have samples.
    pub fn is_usable(&self) -> (r: bool)
        ensures
            r == self.wf(),
    {
        self.pesq_calc.frame_size > 0 && self.stoi_calc.frame_length > 0
            && self.snr_calc.frame_size > 0
    }

    /// The opinion on a signal: a number between 1 and 5, unless the arithmetic
    /// came to none.
    pub fn predict<M: QualityMath>(
        &self,
        math: &M,
        reference: &[Double],
        degraded: &[Double],
    ) -> (r: IoResult<Double>)
        requires
            self.wf(),
        ensures
            gives_opinion(
                math,
                reference@,
                degraded@,
                self.pesq_frame() as int,
                self.stoi_frame() as int,
                r,
            ),
            r matches Ok(x) ==> x.nan() || x.within(number(ONE_BITS), number(FIVE_BITS)),
    {
        let snr: IoResult<Double> = self.snr_calc.calculate_snr(math, reference, degraded);
        let pesq: IoResult<Double> = self.pesq_calc.calculate(math, reference, degraded);
        let stoi: IoResult<Double> = self.stoi_calc.calculate(math, reference, degraded);
        assert(gives_ratio(math, reference@, degraded@, snr));
        assert(gives_pesq(math, reference@, degraded@, self.pesq_frame() as int, pesq));
        assert(gives_stoi(math, reference@, degraded@, self.stoi_frame() as int, stoi));
        match (snr, pesq, stoi) {
            (Err(e), _, _) => Err(e),
            (_, Err(e), _) => Err(e),
            (_, _, Err(e)) => Err(e),
            (Ok(a), Ok(b), Ok(c)) => Ok(weighted(math, a, b, c)),
        }
    }

    /// What is known of the quality of a signal.
    pub fn detailed_metrics<M: QualityMath>(
        &self,
        math: &M,
        reference: &[Double],
        degraded: &[Double],
    ) -> (r: IoResult<QualityMetrics>)
        requires
            self.wf(),
        ensures
            exists|
                snr: IoResult<Double>,
                segmental: IoResult<Double>,
                pesq: IoResult<Double>,
                stoi: IoResult<Double>,
                mos: IoResult<Double>,
            |
                {
                    &&& gives_ratio(math, reference@, degraded@, snr)
                    &&& gives_segmental(
                        math,
                        reference@,
                        degraded@,
                        self.segment() as int,
                        segmental,
                    )
                    &&& gives_pesq(math, reference@, degraded@, self.pesq_frame() as int, pesq)
                    &&& gives_stoi(math, reference@, degraded@, self.stoi_frame() as int, stoi)
                    &&& gives_opinion(
                        math,
                        reference@,
                        degraded@,
                        self.pesq_frame() as int,
                        self.stoi_frame() as int,
                        mos,
                    )
                    &&& #[trigger] are_metrics(snr, segmental, pesq, stoi, mos, r)
                },
    {
        let snr: IoResult<Double> = self.snr_calc.calculate_snr(math, reference, degraded);
        let segmental: IoResult<Double> = self.snr_calc.calculate_segmental_snr(
            math,
            reference,
            degraded,
        );
        let pesq: IoResult<Double> = self.pesq_calc.calculate(math, reference, degraded);
        let stoi: IoResult<Double> = self.stoi_calc.calculate(math, reference, degraded);
        let mos: IoResult<Double> = self.predict(math, reference, degraded);
        let r: IoResult<QualityMetrics> = match (snr, segmental, pesq, stoi, mos) {
            (Err(e), _, _, _, _) => Err(e),
            (_, Err(e), _, _, _) => Err(e),
            (_, _, Err(e), _, _) => Err(e),
            (_, _, _, Err(e), _) => Err(e),
            (_, _, _, _, Err(e)) => Err(e),
            (Ok(a), Ok(b), Ok(c), Ok(d), Ok(x)) => Ok(
                QualityMetrics { snr: a, segmental_snr: b, pesq_score: c, stoi_score: d, mos: x },
            ),
        };
        assert(are_metrics(snr, segmental, pesq, stoi, mos, r));
        r
    }
}

} // verus!
