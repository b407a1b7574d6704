//! Filters that take a signal sample by sample.

use crate::arith::{add_product, divided, total};
use crate::error::{IoError, IoResult};
use crate::io::signal::spectral::WindowMath;
use crate::number::{Single, MINUS_ZERO_BITS};
use vstd::prelude::*;
use vstd::string::*;

verus! {

/// The bit pattern of 0.5.
pub const HALF_BITS: u32 = 0x3f00_0000;

/// The bit pattern of 1.0.
pub const ONE_BITS: u32 = 0x3f80_0000;

/// The bit pattern of -1.0.
pub const MINUS_ONE_BITS: u32 = 0xbf80_0000;

/// The bit pattern of 2.0.
pub const TWO_BITS: u32 = 0x4000_0000;

/// The bit pattern of -2.0.
pub const MINUS_TWO_BITS: u32 = 0xc000_0000;

/// The bit pattern of twice pi.
pub const TURN_BITS: u32 = 0x40c9_0fdb;

/// The bit pattern of 1e-6.
pub const SMALL_BITS: u32 = 0x3586_37bd;

/// The bit pattern of 1e-10.
pub const TINY_BITS: u32 = 0x2edb_e6ff;

/// The number with a bit pattern.
pub open spec fn number(bits: u32) -> Single {
    Single { bits }
}

/// The arithmetic of filters. Nothing is required of what it returns.
pub trait TapMath: WindowMath {
    /// How far a coefficient is from the middle one, of so many.
    fn offset(&self, i: usize, num_taps: usize) -> Single;

    /// The coefficient that passes what is below a cutoff, so far from the
    /// middle.
    fn sinc(&self, cutoff: Single, offset: Single) -> Single;

    /// The tangent of half a turn times a part of it.
    fn warp(&self, part: Single) -> Single;

    /// The sine.
    fn sine(&self, angle: Single) -> Single;

    /// The cosine.
    fn cosine(&self, angle: Single) -> Single;
}

/// Whether a frequency is at least zero and below half of the sample rate.
pub open spec fn is_normalized(x: Single) -> bool {
    !x.nan() && !x.below(Single { bits: 0 }) && x.below(Single { bits: HALF_BITS })
}

fn check_normalized(x: Single) -> (r: bool)
    ensures
        r == is_normalized(x),
{
    Single::zero().at_most(x) && x.less(Single::from_bits(HALF_BITS))
}

/// Whether an error says that a signal cannot be processed, and why.
pub open spec fn is_signal_error(e: IoError, cause: Seq<char>) -> bool {
    e matches IoError::SignalError(t) && t@ == cause
}

/// Whether a number is odd.
pub open spec fn is_odd(n: usize) -> bool {
    n % 2 == 1
}

/// Whether `r` can come out of adding products one after the other, where
/// `sums` are the sums on the way.
pub open spec fn is_weighted_sum<M: TapMath>(
    math: &M,
    coeffs: Seq<Single>,
    recent: Seq<Single>,
    sums: Seq<Single>,
    r: Single,
) -> bool {
    &&& sums.len() == coeffs.len() + 1
    &&& sums[0].bits == 0
    &&& forall|i: int|
        0 <= i < coeffs.len() ==> crate::arith::is_added_product(
            math,
            sums[i],
            coeffs[i],
            recent[i],
            #[trigger] sums[i + 1],
        )
    &&& r == sums.last()
}

/// Whether `r` can be the sum of the products of coefficients and the samples
/// that came last, the latest first.
pub open spec fn is_filtered<M: TapMath>(
    math: &M,
    coeffs: Seq<Single>,
    recent: Seq<Single>,
    r: Single,
) -> bool {
    exists|sums: Seq<Single>| #[trigger] is_weighted_sum(math, coeffs, recent, sums, r)
}

/// The samples that came last once another has come.
pub open spec fn after(recent: Seq<Single>, input: Single) -> Seq<Single> {
    seq![input] + recent.drop_last()
}

/// The samples that came last once `n` of a signal have come.
pub open spec fn after_all(recent: Seq<Single>, signal: Seq<Single>, n: int) -> Seq<Single>
    decreases n,
{
    if n <= 0 {
        recent
    } else {
        after(after_all(recent, signal, n - 1), signal[n - 1])
    }
}

/// Once `n` samples of a signal have come, the latest of them come first.
pub proof fn latest_come_first(recent: Seq<Single>, signal: Seq<Single>, n: int)
    requires
        0 <= n <= signal.len(),
        recent.len() > 0,
    ensures
        after_all(recent, signal, n).len() == recent.len(),
        forall|i: int|
            0 <= i < recent.len() && i < n ==> #[trigger] after_all(recent, signal, n)[i]
                == signal[n - 1 - i],
        forall|i: int|
            n <= i < recent.len() ==> #[trigger] after_all(recent, signal, n)[i] == recent[i - n],
    decreases n,
{
    if n > 0 {
        latest_come_first(recent, signal, n - 1);
        let before = after_all(recent, signal, n - 1);
        assert forall|i: int| 0 <= i < recent.len() && i < n implies #[trigger] after_all(
            recent,
            signal,
            n,
        )[i] == signal[n - 1 - i] by {
            if i > 0 {
                assert(before[i - 1] == signal[n - 2 - (i - 1)]);
            }
        }
        assert forall|i: int| n <= i < recent.len() implies #[trigger] after_all(
            recent,
            signal,
            n,
        )[i] == recent[i - n] by {
            assert(before[i - 1] == recent[i - 1 - (n - 1)]);
        }
    }
}

/// A filter whose output depends on the samples that came last.
#[derive(Debug)]
pub struct FirFilter {
    coeffs: Vec<Single>,
    buffer: Vec<Single>,
    pos: usize,
}

/// The place in a ring of `n` of what came `i` before the place `pos`.
pub open spec fn back(pos: int, n: int, i: int) -> int {
    if i <= pos {
        pos - i
    } else {
        pos - i + n
    }
}

/// The samples that a filter starts from: zeros.
pub open spec fn at_rest(n: nat) -> Seq<Single> {
    Seq::new(n, |i: int| Single { bits: 0 })
}

impl FirFilter {
    /// The coefficients.
    pub closed spec fn taps(&self) -> Seq<Single> {
        self.coeffs@
    }

    /// The samples that came last, the latest first.
    pub closed spec fn recent(&self) -> Seq<Single> {
        let n = self.buffer@.len() as int;
        Seq::new(n as nat, |i: int| self.buffer@[back(back(self.pos as int, n, 1), n, i)])
    }

    /// Whether there is a place for each coefficient.
    pub closed spec fn wf(&self) -> bool {
        &&& self.coeffs@.len() > 0
        &&& self.buffer@.len() == self.coeffs@.len()
        &&& self.pos < self.buffer@.len()
    }

    /// A filter with the given coefficients that has seen nothing.
    pub fn new(coeffs: Vec<Single>) -> (r: IoResult<Self>)
        ensures
            match r {
                Ok(f) => {
                    &&& coeffs@.len() > 0
                    &&& f.wf()
                    &&& f.taps() == coeffs@
                    &&& f.recent() == at_rest(coeffs@.len())
                },
                Err(e) => coeffs@.len() == 0 && is_signal_error(
                    e,
                    "FIR coefficients cannot be empty"@,
                ),
            },
    {
        if coeffs.len() == 0 {
            return Err(IoError::SignalError("FIR coefficients cannot be empty".to_owned()));
        }
        let n: usize = coeffs.len();
        let buffer: Vec<Single> = vec![Single::zero(); n];
        let r: Self = FirFilter { coeffs, buffer, pos: 0 };
        assert(r.recent() =~= at_rest(n as nat));
        Ok(r)
    }

    /// Takes a sample, and gives the sum of the products of the coefficients
    /// and the samples that came last.
    pub fn process_sample<M: TapMath>(&mut self, math: &M, input: Single) -> (r: Single)
        requires
            old(self).wf(),
        ensures
            final(self).wf(),
            final(self).taps() == old(self).taps(),
            final(self).recent() == after(old(self).recent(), input),
            is_filtered(math, old(self).taps(), final(self).recent(), r),
    {
        let n: usize = self.buffer.len();
        let pos: usize = self.pos;
        self.buffer.set(pos, input);
        let ghost recent = Seq::new(
            n as nat,
            |i: int| self.buffer@[back(pos as int, n as int, i)],
        );
        let ghost mut sums: Seq<Single> = seq![Single { bits: 0 }];
        let mut output: Single = Single::zero();
        let mut at: usize = pos;
        let mut i: usize = 0;
        while i < self.coeffs.len()
            invariant
                i <= self.coeffs@.len(),
                n == self.buffer@.len(),
                n == self.coeffs@.len(),
                pos < n,
                at == back(pos as int, n as int, i as int) || i == n,
                i < n ==> at < n,
                recent == Seq::new(
                    n as nat,
                    |k: int| self.buffer@[back(pos as int, n as int, k)],
                ),
                sums.len() == i + 1,
                sums[0].bits == 0,
                sums.last() == output,
                forall|k: int|
                    0 <= k < i ==> crate::arith::is_added_product(
                        math,
                        sums[k],
                        self.coeffs@[k],
                        recent[k],
                        #[trigger] sums[k + 1],
                    ),
            decreases self.coeffs@.len() - i,
        {
            let next: Single = add_product(math, output, self.coeffs[i], self.buffer[at]);
            proof {
                let more = sums.push(next);
                assert forall|k: int| 0 <= k < i + 1 implies crate::arith::is_added_product(
                    math,
                    more[k],
                    self.coeffs@[k],
                    recent[k],
                    #[trigger] more[k + 1],
                ) by {
                    if k < i {
                        assert(more[k + 1] == sums[k + 1]);
                    }
                }
                sums = more;
            }
            output = next;
            if at == 0 {
                at = n - 1;
            } else {
                at = at - 1;
            }
            i += 1;
        }
        self.pos = if pos + 1 == n {
            0
        } else {
            pos + 1
        };
        proof {
            assert(self.recent() =~= recent);
            assert(recent =~= after(old(self).recent(), input));
            assert(is_weighted_sum(math, self.taps(), recent, sums, output));
        }
        output
    }

    /// Takes a signal sample by sample.
    pub fn process<M: TapMath>(&mut self, math: &M, signal: &[Single]) -> (r: Vec<Single>)
        requires
            old(self).wf(),
        ensures
            final(self).wf(),
            final(self).taps() == old(self).taps(),
            final(self).recent() == after_all(
                old(self).recent(),
                signal@,
                signal@.len() as int,
            ),
            r@.len() == signal@.len(),
            forall|i: int|
                0 <= i < r@.len() ==> is_filtered(
                    math,
                    old(self).taps(),
                    after_all(old(self).recent(), signal@, i + 1),
                    #[trigger] r@[i],
                ),
    {
        let mut out: Vec<Single> = Vec::new();
        let mut i: usize = 0;
        while i < signal.len()
            invariant
                i <= signal@.len(),
                self.wf(),
                self.taps() == old(self).taps(),
                self.recent() == after_all(old(self).recent(), signal@, i as int),
                out@.len() == i,
                forall|k: int|
                    0 <= k < i ==> is_filtered(
                        math,
                        old(self).taps(),
                        after_all(old(self).recent(), signal@, k + 1),
                        #[trigger] out@[k],
                    ),
            decreases signal@.len() - i,
        {
            let y: Single = self.process_sample(math, signal[i]);
            out.push(y);
            i += 1;
        }
        out
    }

    /// Forgets what came.
    pub fn reset(&mut self)
        requires
            old(self).wf(),
        ensures
            final(self).wf(),
            final(self).taps() == old(self).taps(),
            final(self).recent() == at_rest(old(self).taps().len()),
    {
        let n: usize = self.coeffs.len();
        self.buffer = vec![Single::zero(); n];
        self.pos = 0;
        assert(self.recent() =~= at_rest(n as nat));
    }

    /// The coefficients.
    pub fn coeffs(&self) -> (r: &[Single])
        ensures
            r@ == self.taps(),
    {
        self.coeffs.as_slice()
    }

    /// The number of samples before the latest that count.
    pub fn order(&self) -> (r: usize)
        requires
            self.wf(),
        ensures
            r == self.taps().len() - 1,
    {
        self.coeffs.len() - 1
    }

    /// A filter that passes what is below a cutoff.
    pub fn sinc_lowpass<M: TapMath>(math: &M, cutoff_normalized: Single, num_taps: usize) -> (r:
        IoResult<Self>)
        ensures
            is_lowpass(math, cutoff_normalized, num_taps, r),
    {
        if !check_normalized(cutoff_normalized) {
            return Err(IoError::SignalError("Normalized cutoff must be in (0, 0.5)".to_owned()));
        }
        if num_taps % 2 == 0 {
            return Err(IoError::SignalError("Number of taps must be odd and > 0".to_owned()));
        }
        let raw: Vec<Single> = raw_taps(math, cutoff_normalized, num_taps);
        let sum: Single = total(math, Single::from_bits(MINUS_ZERO_BITS), raw.as_slice());
        let taps: Vec<Single> = divided(math, raw.as_slice(), sum);
        assert(are_lowpass_taps(math, cutoff_normalized, num_taps, raw@, sum, taps@));
        Self::new(taps)
    }

    /// A filter that stops what is below a cutoff: the complement of one that
    /// passes it.
    pub fn sinc_highpass<M: TapMath>(math: &M, cutoff_normalized: Single, num_taps: usize) -> (r:
        IoResult<Self>)
        ensures
            exists|low: IoResult<FirFilter>|
                {
                    &&& #[trigger] is_lowpass(math, cutoff_normalized, num_taps, low)
                    &&& match low {
                        Ok(f) => {
                            &&& r is Ok
                            &&& r->Ok_0.wf()
                            &&& are_complements(math, f.taps(), num_taps / 2, r->Ok_0.taps())
                            &&& r->Ok_0.recent() == at_rest(r->Ok_0.taps().len())
                        },
                        Err(e) => r == Err::<FirFilter, IoError>(e),
                    }
                },
    {
        let low: IoResult<Self> = Self::sinc_lowpass(math, cutoff_normalized, num_taps);
        assert(is_lowpass(math, cutoff_normalized, num_taps, low));
        match low {
            Err(e) => Err(e),
            Ok(f) => {
                let center: usize = num_taps / 2;
                let mut taps: Vec<Single> = Vec::new();
                let mut i: usize = 0;
                while i < f.coeffs.len()
                    invariant
                        i <= f.coeffs@.len(),
                        taps@.len() == i,
                        forall|k: int|
                            0 <= k < i ==> is_complement(
                                math,
                                f.coeffs@[k],
                                k == center,
                                #[trigger] taps@[k],
                            ),
                    decreases f.coeffs@.len() - i,
                {
                    taps.push(complement(math, f.coeffs[i], i == center));
                    i += 1;
                }
                Self::new(taps)
            },
        }
    }

    /// A filter that gives the mean of the samples of a window.
    pub fn moving_average<M: TapMath>(math: &M, window: usize) -> (r: IoResult<Self>)
        ensures
            if window == 0 {
                r matches Err(e) && is_signal_error(e, "Window size must be > 0"@)
            } else {
                &&& r is Ok
                &&& r->Ok_0.wf()
                &&& r->Ok_0.recent() == at_rest(window as nat)
                &&& exists|c: Single|
                    {
                        &&& #[trigger] call_ensures(M::over, (math, number(ONE_BITS), window), c)
                        &&& r->Ok_0.taps() == Seq::new(window as nat, |i: int| c)
                    }
            },
    {
        if window == 0 {
            return Err(IoError::SignalError("Window size must be > 0".to_owned()));
        }
        let c: Single = math.over(Single::from_bits(ONE_BITS), window);
        assert(call_ensures(M::over, (math, number(ONE_BITS), window), c));
        let taps: Vec<Single> = vec![c; window];
        assert(taps@ =~= Seq::new(window as nat, |i: int| c));
        Self::new(taps)
    }

    /// A filter that gives the difference to the sample before.
    pub fn differentiator() -> (r: IoResult<Self>)
        ensures
            r is Ok,
            r->Ok_0.wf(),
            r->Ok_0.taps() == seq![Single { bits: ONE_BITS }, Single { bits: MINUS_ONE_BITS }],
            r->Ok_0.recent() == at_rest(2),
    {
        let mut taps: Vec<Single> = Vec::new();
        taps.push(Single::from_bits(ONE_BITS));
        taps.push(Single::from_bits(MINUS_ONE_BITS));
        assert(taps@ =~= seq![Single { bits: ONE_BITS }, Single { bits: MINUS_ONE_BITS }]);
        Self::new(taps)
    }
}

/// Whether `r` can be a filter that passes what is below a cutoff, or the
/// error for a cutoff or a number of coefficients that none has.
pub open spec fn is_lowpass<M: TapMath>(
    math: &M,
    cutoff: Single,
    num_taps: usize,
    r: IoResult<FirFilter>,
) -> bool {
    if !is_normalized(cutoff) {
        r matches Err(e) && is_signal_error(e, "Normalized cutoff must be in (0, 0.5)"@)
    } else if !is_odd(num_taps) {
        r matches Err(e) && is_signal_error(e, "Number of taps must be odd and > 0"@)
    } else {
        &&& r is Ok
        &&& r->Ok_0.wf()
        &&& r->Ok_0.recent() == at_rest(r->Ok_0.taps().len())
        &&& exists|raw: Seq<Single>, sum: Single|
            #[trigger] are_lowpass_taps(math, cutoff, num_taps, raw, sum, r->Ok_0.taps())
    }
}

/// Whether `r` can be a coefficient that passes what is below a cutoff, weighed
/// by a raised cosine: in the middle it is twice the cutoff.
pub open spec fn is_raw_tap<M: TapMath>(
    math: &M,
    cutoff: Single,
    i: usize,
    num_taps: usize,
    r: Single,
) -> bool {
    exists|offset: Single, tap: Single, weight: Single|
        {
            &&& #[trigger] call_ensures(M::offset, (math, i, num_taps), offset)
            &&& #[trigger] is_sinc(math, cutoff, offset, tap)
            &&& #[trigger] call_ensures(M::hamming, (math, i, num_taps), weight)
            &&& call_ensures(M::product, (math, tap, weight), r)
        }
}

/// Whether `r` can be a coefficient so far from the middle.
pub open spec fn is_sinc<M: TapMath>(
    math: &M,
    cutoff: Single,
    offset: Single,
    r: Single,
) -> bool {
    if offset.absolute().below(number(TINY_BITS)) {
        call_ensures(M::product, (math, number(TWO_BITS), cutoff), r)
    } else {
        call_ensures(M::sinc, (math, cutoff, offset), r)
    }
}

fn raw_tap<M: TapMath>(math: &M, cutoff: Single, i: usize, num_taps: usize) -> (r: Single)
    ensures
        is_raw_tap(math, cutoff, i, num_taps, r),
{
    let offset: Single = math.offset(i, num_taps);
    assert(call_ensures(M::offset, (math, i, num_taps), offset));
    let tap: Single = if offset.abs().less(Single::from_bits(TINY_BITS)) {
        math.product(Single::from_bits(TWO_BITS), cutoff)
    } else {
        math.sinc(cutoff, offset)
    };
    assert(is_sinc(math, cutoff, offset, tap));
    let weight: Single = math.hamming(i, num_taps);
    assert(call_ensures(M::hamming, (math, i, num_taps), weight));
    math.product(tap, weight)
}

/// Whether coefficients can be those that pass what is below a cutoff.
pub open spec fn are_raw_taps<M: TapMath>(
    math: &M,
    cutoff: Single,
    num_taps: usize,
    r: Seq<Single>,
) -> bool {
    &&& r.len() == num_taps
    &&& forall|i: int|
        0 <= i < r.len() ==> is_raw_tap(math, cutoff, i as usize, num_taps, #[trigger] r[i])
}

fn raw_taps<M: TapMath>(math: &M, cutoff: Single, num_taps: usize) -> (r: Vec<Single>)
    ensures
        are_raw_taps(math, cutoff, num_taps, r@),
{
    let mut out: Vec<Single> = Vec::new();
    let mut i: usize = 0;
    while i < num_taps
        invariant
            i <= num_taps,
            out@.len() == i,
            forall|k: int|
                0 <= k < i ==> is_raw_tap(
                    math,
                    cutoff,
                    k as usize,
                    num_taps,
                    #[trigger] out@[k],
                ),
        decreases num_taps - i,
    {
        out.push(raw_tap(math, cutoff, i, num_taps));
        i += 1;
    }
    out
}

/// Whether coefficients can be others that pass what is below a cutoff, each
/// divided by the sum of all.
pub open spec fn are_lowpass_taps<M: TapMath>(
    math: &M,
    cutoff: Single,
    num_taps: usize,
    raw: Seq<Single>,
    sum: Single,
    r: Seq<Single>,
) -> bool {
    &&& are_raw_taps(math, cutoff, num_taps, raw)
    &&& crate::arith::is_total(math, number(MINUS_ZERO_BITS), raw, sum)
    &&& crate::arith::are_divided(math, raw, sum, r)
}

/// Whether `r` can be the coefficient that passes what another stops: its
/// negative, and one more in the middle.
pub open spec fn is_complement<M: TapMath>(
    math: &M,
    tap: Single,
    at_center: bool,
    r: Single,
) -> bool {
    if at_center {
        call_ensures(M::sum, (math, tap.negated(), number(ONE_BITS)), r)
    } else {
        r == tap.negated()
    }
}

fn complement<M: TapMath>(math: &M, tap: Single, at_center: bool) -> (r: Single)
    ensures
        is_complement(math, tap, at_center, r),
{
    if at_center {
        math.sum(tap.neg(), Single::from_bits(ONE_BITS))
    } else {
        tap.neg()
    }
}

/// Whether coefficients can be the complements of others.
pub open spec fn are_complements<M: TapMath>(
    math: &M,
    taps: Seq<Single>,
    center: usize,
    r: Seq<Single>,
) -> bool {
    &&& r.len() == taps.len()
    &&& forall|i: int|
        0 <= i < taps.len() ==> is_complement(math, taps[i], i == center, #[trigger] r[i])
}

/// A filter whose output depends on what came and on what it gave.
#[derive(Debug)]
pub struct IirFilter {
    b: Vec<Single>,
    a: Vec<Single>,
    state: Vec<Single>,
}

/// The item at a place, where there is one.
pub open spec fn item(s: Seq<Single>, i: int) -> Option<Single> {
    if 0 <= i < s.len() {
        Some(s[i])
    } else {
        None
    }
}

fn item_at(v: &Vec<Single>, i: usize) -> (r: Option<Single>)
    ensures
        r == item(v@, i as int),
{
    if i < v.len() {
        Some(v[i])
    } else {
        None
    }
}

/// Whether `r` can be the product of a coefficient and a sample; zero where
/// there is no coefficient.
pub open spec fn is_term<M: TapMath>(
    math: &M,
    coeff: Option<Single>,
    sample: Single,
    r: Single,
) -> bool {
    match coeff {
        Some(c) => call_ensures(M::product, (math, c, sample), r),
        None => r.bits == 0,
    }
}

fn term<M: TapMath>(math: &M, coeff: Option<Single>, sample: Single) -> (r: Single)
    ensures
        is_term(math, coeff, sample, r),
{
    match coeff {
        Some(c) => math.product(c, sample),
        None => Single::zero(),
    }
}

/// Whether `r` can be carried to the next sample: the term of the input, less
/// the term of the output, plus what is carried on.
pub open spec fn is_carried<M: TapMath>(
    math: &M,
    forward: Option<Single>,
    backward: Option<Single>,
    input: Single,
    output: Single,
    carried: Option<Single>,
    r: Single,
) -> bool {
    exists|come: Single, given: Single, rest: Single|
        {
            &&& is_term(math, forward, input, come)
            &&& is_term(math, backward, output, given)
            &&& #[trigger] call_ensures(M::difference, (math, come, given), rest)
            &&& match carried {
                Some(c) => call_ensures(M::sum, (math, rest, c), r),
                None => r == rest,
            }
        }
}

fn carry<M: TapMath>(
    math: &M,
    forward: Option<Single>,
    backward: Option<Single>,
    input: Single,
    output: Single,
    carried: Option<Single>,
) -> (r: Single)
    ensures
        is_carried(math, forward, backward, input, output, carried, r),
{
    let come: Single = term(math, forward, input);
    let given: Single = term(math, backward, output);
    let rest: Single = math.difference(come, given);
    assert(call_ensures(M::difference, (math, come, given), rest));
    match carried {
        Some(c) => math.sum(rest, c),
        None => rest,
    }
}

/// Whether `r` can be the product of the first coefficient and a sample, plus
/// what is carried.
pub open spec fn is_lead<M: TapMath>(
    math: &M,
    coeff: Single,
    input: Single,
    carried: Single,
    r: Single,
) -> bool {
    exists|p: Single| #[trigger]
        call_ensures(M::product, (math, coeff, input), p) && call_ensures(
            M::sum,
            (math, p, carried),
            r,
        )
}

/// Whether a filter can give `output` for `input`, and carry `after` where it
/// carried `before`.
pub open spec fn is_step<M: TapMath>(
    math: &M,
    b: Seq<Single>,
    a: Seq<Single>,
    before: Seq<Single>,
    input: Single,
    after: Seq<Single>,
    output: Single,
) -> bool {
    &&& is_lead(math, b[0], input, before[0], output)
    &&& after.len() == before.len()
    &&& forall|i: int|
        0 <= i < after.len() ==> is_carried(
            math,
            item(b, i + 1),
            item(a, i + 1),
            input,
            output,
            item(before, i + 1),
            #[trigger] after[i],
        )
}

/// Whether a filter can give `outputs` for a signal, where `states` are what
/// it carries on the way.
pub open spec fn is_run<M: TapMath>(
    math: &M,
    b: Seq<Single>,
    a: Seq<Single>,
    states: Seq<Seq<Single>>,
    signal: Seq<Single>,
    outputs: Seq<Single>,
) -> bool {
    &&& states.len() == signal.len() + 1
    &&& outputs.len() == signal.len()
    &&& forall|i: int|
        0 <= i < signal.len() ==> is_step(
            math,
            b,
            a,
            states[i],
            signal[i],
            states[i + 1],
            #[trigger] outputs[i],
        )
}

/// Whether `r` can be a filter with the given coefficients, or the error for
/// coefficients that none has.
pub open spec fn is_iir<M: TapMath>(
    math: &M,
    b: Seq<Single>,
    a: Seq<Single>,
    r: IoResult<IirFilter>,
) -> bool {
    if b.len() == 0 || a.len() == 0 {
        r matches Err(e) && is_signal_error(e, "Filter coefficients cannot be empty"@)
    } else {
        exists|gap: Single|
            {
                &&& #[trigger] call_ensures(M::difference, (math, a[0], number(ONE_BITS)), gap)
                &&& if !number(SMALL_BITS).below(gap.absolute()) {
                    &&& r is Ok
                    &&& r->Ok_0.wf()
                    &&& r->Ok_0.forward() == b
                    &&& r->Ok_0.backward() == a
                    &&& r->Ok_0.carried() == Seq::new(
                        if b.len() >= a.len() {
                            b.len()
                        } else {
                            a.len()
                        },
                        |i: int| Single { bits: 0 },
                    )
                } else {
                    r matches Err(e) && is_signal_error(
                        e,
                        "a[0] must be 1.0 for normalized filter"@,
                    )
                }
            }
    }
}

impl IirFilter {
    /// The coefficients of what comes.
    pub closed spec fn forward(&self) -> Seq<Single> {
        self.b@
    }

    /// The coefficients of what is given.
    pub closed spec fn backward(&self) -> Seq<Single> {
        self.a@
    }

    /// What is carried from sample to sample.
    pub closed spec fn carried(&self) -> Seq<Single> {
        self.state@
    }

    /// Whether there are coefficients, and as many carried samples as the more
    /// of them.
    pub open spec fn wf(&self) -> bool {
        &&& self.forward().len() > 0
        &&& self.backward().len() > 0
        &&& self.carried().len() >= self.forward().len()
        &&& self.carried().len() >= self.backward().len()
    }

    /// A filter with the given coefficients that has seen nothing.
    pub fn new<M: TapMath>(math: &M, b: Vec<Single>, a: Vec<Single>) -> (r: IoResult<Self>)
        ensures
            is_iir(math, b@, a@, r),
    {
        if b.len() == 0 || a.len() == 0 {
            return Err(IoError::SignalError("Filter coefficients cannot be empty".to_owned()));
        }
        let gap: Single = math.difference(a[0], Single::from_bits(ONE_BITS));
        assert(call_ensures(M::difference, (math, a@[0], number(ONE_BITS)), gap));
        if Single::from_bits(SMALL_BITS).less(gap.abs()) {
            return Err(IoError::SignalError("a[0] must be 1.0 for normalized filter".to_owned()));
        }
        let n: usize = if b.len() >= a.len() {
            b.len()
        } else {
            a.len()
        };
        let state: Vec<Single> = vec![Single::zero(); n];
        assert(state@ =~= Seq::new(n as nat, |i: int| Single { bits: 0 }));
        Ok(IirFilter { b, a, state })
    }

    /// A flat filter that passes what is below a cutoff.
    pub fn butterworth_lowpass<M: TapMath>(math: &M, cutoff_normalized: Single) -> (r: IoResult<
        Self,
    >)
        ensures
            is_butterworth(math, cutoff_normalized, false, r),
    {
        Self::butterworth(math, cutoff_normalized, false)
    }

    /// A flat filter that passes what is above a cutoff.
    pub fn butterworth_highpass<M: TapMath>(math: &M, cutoff_normalized: Single) -> (r: IoResult<
        Self,
    >)
        ensures
            is_butterworth(math, cutoff_normalized, true, r),
    {
        Self::butterworth(math, cutoff_normalized, true)
    }

    fn butterworth<M: TapMath>(math: &M, cutoff: Single, high: bool) -> (r: IoResult<Self>)
        ensures
            is_butterworth(math, cutoff, high, r),
    {
        if !check_normalized(cutoff) {
            return Err(IoError::SignalError("Normalized cutoff must be in (0, 0.5)".to_owned()));
        }
        let one: Single = Single::from_bits(ONE_BITS);
        let two: Single = Single::from_bits(TWO_BITS);
        let minus_two: Single = Single::from_bits(MINUS_TWO_BITS);
        assert(one == number(ONE_BITS) && two == number(TWO_BITS));
        assert(minus_two == number(MINUS_TWO_BITS));
        let p: FlatParts = flat_parts(math, cutoff);
        let (numerator, factor): (Single, Single) = if high {
            (one, minus_two)
        } else {
            (p.square, two)
        };
        let b0: Single = math.quotient(numerator, p.whole);
        let b1: Single = math.product(factor, b0);
        assert(are_flat_forward(math, high, p, b0, b1));
        let less: Single = math.difference(p.square, one);
        assert(call_ensures(M::difference, (math, p.square, number(ONE_BITS)), less));
        let twice: Single = math.product(two, less);
        assert(call_ensures(M::product, (math, number(TWO_BITS), less), twice));
        let a1: Single = math.quotient(twice, p.whole);
        assert(is_flat_first(math, p, a1));
        let rest: Single = math.difference(one, p.product);
        assert(call_ensures(M::difference, (math, number(ONE_BITS), p.product), rest));
        let more: Single = math.sum(rest, p.square);
        assert(call_ensures(M::sum, (math, rest, p.square), more));
        let a2: Single = math.quotient(more, p.whole);
        assert(is_flat_second(math, p, a2));
        assert(is_flat_design(math, cutoff, high, p, (b0, b1), (a1, a2)));
        Self::new(math, three(b0, b1, b0), three(one, a1, a2))
    }

    /// A filter that stops one frequency.
    pub fn notch<M: TapMath>(math: &M, center_normalized: Single, q: Single) -> (r: IoResult<Self>)
        ensures
            if !is_normalized(center_normalized) {
                r matches Err(e) && is_signal_error(e, "Normalized center must be in (0, 0.5)"@)
            } else if !q.nan() && !(Single { bits: 0 }).below(q) {
                r matches Err(e) && is_signal_error(e, "Q factor must be positive"@)
            } else {
                exists|p: NotchParts, edge: Single, middle: Single, last: Single|
                    {
                        &&& #[trigger] is_notch_design(
                            math,
                            center_normalized,
                            q,
                            p,
                            edge,
                            middle,
                            last,
                        )
                        &&& is_iir(
                            math,
                            second_order(edge, middle, edge),
                            second_order(number(ONE_BITS), middle, last),
                            r,
                        )
                    }
            },
    {
        if !check_normalized(center_normalized) {
            return Err(IoError::SignalError("Normalized center must be in (0, 0.5)".to_owned()));
        }
        if q.at_most(Single::zero()) {
            return Err(IoError::SignalError("Q factor must be positive".to_owned()));
        }
        let one: Single = Single::from_bits(ONE_BITS);
        assert(one == number(ONE_BITS));
        let p: NotchParts = notch_parts(math, center_normalized, q);
        let edge: Single = math.quotient(one, p.whole);
        let middle: Single = math.quotient(p.middle, p.whole);
        let last: Single = math.quotient(p.rest, p.whole);
        assert(is_notch_design(math, center_normalized, q, p, edge, middle, last));
        Self::new(math, three(edge, middle, edge), three(one, middle, last))
    }

    /// Takes a sample.
    pub fn process_sample<M: TapMath>(&mut self, math: &M, input: Single) -> (r: Single)
        requires
            old(self).wf(),
        ensures
            final(self).wf(),
            final(self).forward() == old(self).forward(),
            final(self).backward() == old(self).backward(),
            is_step(
                math,
                old(self).forward(),
                old(self).backward(),
                old(self).carried(),
                input,
                final(self).carried(),
                r,
            ),
    {
        let first: Single = math.product(self.b[0], input);
        assert(call_ensures(M::product, (math, self.b@[0], input), first));
        let output: Single = math.sum(first, self.state[0]);
        let n: usize = self.state.len();
        let mut state: Vec<Single> = Vec::new();
        let mut i: usize = 0;
        while i < n
            invariant
                i <= n,
                n == self.state@.len(),
                state@.len() == i,
                forall|k: int|
                    0 <= k < i ==> is_carried(
                        math,
                        item(self.b@, k + 1),
                        item(self.a@, k + 1),
                        input,
                        output,
                        item(self.state@, k + 1),
                        #[trigger] state@[k],
                    ),
            decreases n - i,
        {
            let forward: Option<Single> = item_at(&self.b, i + 1);
            let backward: Option<Single> = item_at(&self.a, i + 1);
            let carried: Option<Single> = item_at(&self.state, i + 1);
            state.push(carry(math, forward, backward, input, output, carried));
            i += 1;
        }
        self.state = state;
        output
    }

    /// Takes a signal sample by sample.
    pub fn process<M: TapMath>(&mut self, math: &M, signal: &[Single]) -> (r: Vec<Single>)
        requires
            old(self).wf(),
        ensures
            final(self).wf(),
            final(self).forward() == old(self).forward(),
            final(self).backward() == old(self).backward(),
            exists|states: Seq<Seq<Single>>|
                {
                    &&& #[trigger] is_run(
                        math,
                        old(self).forward(),
                        old(self).backward(),
                        states,
                        signal@,
                        r@,
                    )
                    &&& states[0] == old(self).carried()
                    &&& states.last() == final(self).carried()
                },
    {
        let ghost mut states: Seq<Seq<Single>> = seq![self.carried()];
        let mut out: Vec<Single> = Vec::new();
        let mut i: usize = 0;
        while i < signal.len()
            invariant
                i <= signal@.len(),
                self.wf(),
                self.forward() == old(self).forward(),
                self.backward() == old(self).backward(),
                out@.len() == i,
                states.len() == i + 1,
                states[0] == old(self).carried(),
                states.last() == self.carried(),
                forall|k: int|
                    0 <= k < i ==> is_step(
                        math,
                        old(self).forward(),
                        old(self).backward(),
                        states[k],
                        signal@[k],
                        states[k + 1],
                        #[trigger] out@[k],
                    ),
            decreases signal@.len() - i,
        {
            let y: Single = self.process_sample(math, signal[i]);
            out.push(y);
            proof {
                let before = states;
                states = states.push(self.carried());
                assert forall|k: int| 0 <= k < i + 1 implies is_step(
                    math,
                    old(self).forward(),
                    old(self).backward(),
                    states[k],
                    signal@[k],
                    states[k + 1],
                    #[trigger] out@[k],
                ) by {
                    assert(states[k] == before[k]);
                }
            }
            i += 1;
        }
        assert(is_run(
            math,
            old(self).forward(),
            old(self).backward(),
            states,
            signal@,
            out@,
        ));
        out
    }

    /// Forgets what came.
    pub fn reset(&mut self)
        requires
            old(self).wf(),
        ensures
            final(self).wf(),
            final(self).forward() == old(self).forward(),
            final(self).backward() == old(self).backward(),
            final(self).carried() == Seq::new(
                old(self).carried().len(),
                |i: int| Single { bits: 0 },
            ),
    {
        let n: usize = self.state.len();
        self.state = vec![Single::zero(); n];
        assert(self.state@ =~= Seq::new(n as nat, |i: int| Single { bits: 0 }));
    }
}

/// The coefficients of a filter of the second order.
pub open spec fn second_order(b0: Single, b1: Single, b2: Single) -> Seq<Single> {
    seq![b0, b1, b2]
}

fn three(x: Single, y: Single, z: Single) -> (r: Vec<Single>)
    ensures
        r@ == second_order(x, y, z),
{
    let mut out: Vec<Single> = Vec::new();
    out.push(x);
    out.push(y);
    out.push(z);
    assert(out@ =~= second_order(x, y, z));
    out
}

/// What a flat filter is made of: the warped cutoff, its square, its product
/// with the root of two, and what everything is divided by.
pub struct FlatParts {
    pub omega: Single,
    pub square: Single,
    pub root: Single,
    pub product: Single,
    pub lower: Single,
    pub whole: Single,
}

/// Whether parts can be those of a flat filter: the whole is one and the
/// product and the square.
pub open spec fn are_flat_parts<M: TapMath>(math: &M, cutoff: Single, p: FlatParts) -> bool {
    &&& call_ensures(M::warp, (math, cutoff), p.omega)
    &&& call_ensures(M::product, (math, p.omega, p.omega), p.square)
    &&& call_ensures(M::root, (math, number(TWO_BITS)), p.root)
    &&& call_ensures(M::product, (math, p.root, p.omega), p.product)
    &&& call_ensures(M::sum, (math, number(ONE_BITS), p.product), p.lower)
    &&& call_ensures(M::sum, (math, p.lower, p.square), p.whole)
}

fn flat_parts<M: TapMath>(math: &M, cutoff: Single) -> (r: FlatParts)
    ensures
        are_flat_parts(math, cutoff, r),
{
    let one: Single = Single::from_bits(ONE_BITS);
    let two: Single = Single::from_bits(TWO_BITS);
    assert(one == number(ONE_BITS) && two == number(TWO_BITS));
    let omega: Single = math.warp(cutoff);
    let square: Single = math.product(omega, omega);
    let root: Single = math.root(two);
    let product: Single = math.product(root, omega);
    let lower: Single = math.sum(one, product);
    let whole: Single = math.sum(lower, square);
    FlatParts { omega, square, root, product, lower, whole }
}

/// Whether `b0` and `b1` can be the forward coefficients of a flat filter: the
/// square, or one for what is above the cutoff, in parts of the whole, and
/// twice that, turned round for what is above.
pub open spec fn are_flat_forward<M: TapMath>(
    math: &M,
    high: bool,
    p: FlatParts,
    b0: Single,
    b1: Single,
) -> bool {
    if high {
        &&& call_ensures(M::quotient, (math, number(ONE_BITS), p.whole), b0)
        &&& call_ensures(M::product, (math, number(MINUS_TWO_BITS), b0), b1)
    } else {
        &&& call_ensures(M::quotient, (math, p.square, p.whole), b0)
        &&& call_ensures(M::product, (math, number(TWO_BITS), b0), b1)
    }
}

/// Whether `r` can be the first backward coefficient of a flat filter: twice
/// one less than the square, in parts of the whole.
pub open spec fn is_flat_first<M: TapMath>(math: &M, p: FlatParts, r: Single) -> bool {
    exists|less: Single, twice: Single|
        {
            &&& #[trigger] call_ensures(M::difference, (math, p.square, number(ONE_BITS)), less)
            &&& #[trigger] call_ensures(M::product, (math, number(TWO_BITS), less), twice)
            &&& call_ensures(M::quotient, (math, twice, p.whole), r)
        }
}

/// Whether `r` can be the second backward coefficient of a flat filter: one
/// less the product, and the square, in parts of the whole.
pub open spec fn is_flat_second<M: TapMath>(math: &M, p: FlatParts, r: Single) -> bool {
    exists|less: Single, more: Single|
        {
            &&& #[trigger] call_ensures(M::difference, (math, number(ONE_BITS), p.product), less)
            &&& #[trigger] call_ensures(M::sum, (math, less, p.square), more)
            &&& call_ensures(M::quotient, (math, more, p.whole), r)
        }
}

/// Whether coefficients can be those of a flat filter.
pub open spec fn is_flat_design<M: TapMath>(
    math: &M,
    cutoff: Single,
    high: bool,
    p: FlatParts,
    b: (Single, Single),
    a: (Single, Single),
) -> bool {
    &&& are_flat_parts(math, cutoff, p)
    &&& are_flat_forward(math, high, p, b.0, b.1)
    &&& is_flat_first(math, p, a.0)
    &&& is_flat_second(math, p, a.1)
}

/// Whether `r` can be a flat filter, or the error for a cutoff that none has.
pub open spec fn is_butterworth<M: TapMath>(
    math: &M,
    cutoff: Single,
    high: bool,
    r: IoResult<IirFilter>,
) -> bool {
    if !is_normalized(cutoff) {
        r matches Err(e) && is_signal_error(e, "Normalized cutoff must be in (0, 0.5)"@)
    } else {
        exists|p: FlatParts, b: (Single, Single), a: (Single, Single)|
            {
                &&& #[trigger] is_flat_design(math, cutoff, high, p, b, a)
                &&& is_iir(
                    math,
                    second_order(b.0, b.1, b.0),
                    second_order(number(ONE_BITS), a.0, a.1),
                    r,
                )
            }
    }
}

/// What a filter that stops one frequency is made of.
pub struct NotchParts {
    pub angle: Single,
    pub sine: Single,
    pub twice: Single,
    pub alpha: Single,
    pub cosine: Single,
    pub middle: Single,
    pub whole: Single,
    pub rest: Single,
}

/// Whether parts can be those of a filter that stops one frequency.
pub open spec fn are_notch_parts<M: TapMath>(
    math: &M,
    center: Single,
    q: Single,
    p: NotchParts,
) -> bool {
    &&& call_ensures(M::product, (math, number(TURN_BITS), center), p.angle)
    &&& call_ensures(M::sine, (math, p.angle), p.sine)
    &&& call_ensures(M::product, (math, number(TWO_BITS), q), p.twice)
    &&& call_ensures(M::quotient, (math, p.sine, p.twice), p.alpha)
    &&& call_ensures(M::cosine, (math, p.angle), p.cosine)
    &&& call_ensures(M::product, (math, number(MINUS_TWO_BITS), p.cosine), p.middle)
    &&& call_ensures(M::sum, (math, number(ONE_BITS), p.alpha), p.whole)
    &&& call_ensures(M::difference, (math, number(ONE_BITS), p.alpha), p.rest)
}

fn notch_parts<M: TapMath>(math: &M, center: Single, q: Single) -> (r: NotchParts)
    ensures
        are_notch_parts(math, center, q, r),
{
    let one: Single = Single::from_bits(ONE_BITS);
    let two: Single = Single::from_bits(TWO_BITS);
    let minus_two: Single = Single::from_bits(MINUS_TWO_BITS);
    let turn: Single = Single::from_bits(TURN_BITS);
    assert(one == number(ONE_BITS) && two == number(TWO_BITS));
    assert(minus_two == number(MINUS_TWO_BITS) && turn == number(TURN_BITS));
    let angle: Single = math.product(turn, center);
    let sine: Single = math.sine(angle);
    let twice: Single = math.product(two, q);
    let alpha: Single = math.quotient(sine, twice);
    let cosine: Single = math.cosine(angle);
    let middle: Single = math.product(minus_two, cosine);
    let whole: Single = math.sum(one, alpha);
    let rest: Single = math.difference(one, alpha);
    NotchParts { angle, sine, twice, alpha, cosine, middle, whole, rest }
}

/// Whether coefficients can be those of a filter that stops one frequency, all
/// in parts of the whole.
pub open spec fn is_notch_design<M: TapMath>(
    math: &M,
    center: Single,
    q: Single,
    p: NotchParts,
    edge: Single,
    middle: Single,
    last: Single,
) -> bool {
    &&& are_notch_parts(math, center, q, p)
    &&& call_ensures(M::quotient, (math, number(ONE_BITS), p.whole), edge)
    &&& call_ensures(M::quotient, (math, p.middle, p.whole), middle)
    &&& call_ensures(M::quotient, (math, p.rest, p.whole), last)
}

/// A filter for a whole signal.
pub enum Filter {
    /// Passes what is below a cutoff.
    LowPass { cutoff: Single, order: usize },
    /// Passes what is above a cutoff.
    HighPass { cutoff: Single, order: usize },
    /// Passes what is between two cutoffs.
    BandPass { low: Single, high: Single, order: usize },
    /// The mean of a window.
    MovingAverage { window: usize },
    /// One whose output depends on what it gave.
    Iir(IirFilter),
    /// One whose output depends on the samples that came last.
    Fir(FirFilter),
}

} // verus!
