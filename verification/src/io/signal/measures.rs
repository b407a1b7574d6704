//! Measures of signals, and simple changes to them.

use crate::arith::{divided, dot, products, root_mean_square, shifted};
use crate::error::{IoError, IoResult};
use crate::io::signal::processor::{SignalMath, SignalProcessor};
use crate::io::stream::pad_to;
use crate::number::{Single, MINUS_ZERO_BITS};
use crate::samples::{copy_samples, highest, lowest};
use vstd::arithmetic::power2::pow2;
use vstd::prelude::*;
use vstd::slice::slice_subrange;
use vstd::string::*;

verus! {

/// Whether a number is a power of two.
pub open spec fn is_pow2(n: int) -> bool {
    exists|k: nat| n == #[trigger] pow2(k)
}

/// Whether `m` is the least power of two that is at least `n`.
pub open spec fn is_next_pow2(n: int, m: int) -> bool {
    &&& is_pow2(m)
    &&& n <= m
    &&& forall|k: nat| n <= #[trigger] pow2(k) ==> m <= pow2(k)
}

fn next_pow2(n: usize) -> (r: usize)
    requires
        n <= usize::MAX / 2 + 1,
    ensures
        is_next_pow2(n as int, r as int),
{
    let mut p: usize = 1;
    let ghost mut k: nat = 0;
    proof {
        vstd::arithmetic::power2::lemma2_to64();
    }
    while p < n
        invariant
            n <= usize::MAX / 2 + 1,
            p == pow2(k),
            p >= 1,
            forall|j: nat| j < k ==> #[trigger] pow2(j) < n,
        decreases 2 * n - p,
    {
        proof {
            vstd::arithmetic::power2::lemma_pow2_unfold((k + 1) as nat);
            assert forall|j: nat| j < k + 1 implies #[trigger] pow2(j) < n by {
                if j == k {
                    assert(pow2(j) == p);
                }
            }
            k = (k + 1) as nat;
        }
        p = 2 * p;
    }
    proof {
        assert forall|j: nat| n <= #[trigger] pow2(j) implies p <= pow2(j) by {
            if j > k {
                vstd::arithmetic::power2::lemma_pow2_strictly_increases(k, j);
            }
        }
    }
    p
}

/// Whether the signs of two samples differ. That of a sample that is no number
/// differs from every other.
pub open spec fn signs_differ(a: Single, b: Single) -> bool {
    a.nan() || b.nan() || a.negative() != b.negative()
}

/// The number of neighbours among the first `n` samples whose signs differ.
pub open spec fn sign_changes(s: Seq<Single>, n: int) -> nat
    decreases n,
{
    if n < 2 {
        0
    } else {
        sign_changes(s, n - 1) + if signs_differ(s[n - 2], s[n - 1]) {
            1nat
        } else {
            0
        }
    }
}

/// Whether `r` is the greatest magnitude of samples, at least zero.
pub open spec fn is_peak(s: Seq<Single>, r: Single) -> bool {
    &&& !r.nan()
    &&& r.bits == 0 || exists|i: int| 0 <= i < s.len() && r == (#[trigger] s[i]).absolute()
    &&& forall|i: int| 0 <= i < s.len() ==> !r.below((#[trigger] s[i]).absolute())
}

fn peak(signal: &[Single]) -> (r: Single)
    ensures
        is_peak(signal@, r),
{
    let mut best: Single = Single::zero();
    let mut i: usize = 0;
    while i < signal.len()
        invariant
            i <= signal@.len(),
            !best.nan(),
            best.bits == 0 || exists|k: int|
                0 <= k < signal@.len() && best == (#[trigger] signal@[k]).absolute(),
            forall|k: int| 0 <= k < i ==> !best.below((#[trigger] signal@[k]).absolute()),
        decreases signal@.len() - i,
    {
        let a: Single = signal[i].abs();
        if best.less(a) {
            best = a;
            assert(best == signal@[i as int].absolute());
        }
        i += 1;
    }
    best
}

/// Whether a number can be the mean of others.
pub open spec fn is_mean<M: SignalMath>(math: &M, values: Vec<Single>, r: Single) -> bool {
    call_ensures(M::mean, (math, &values), r)
}

/// Whether a number can be the energies of the first `k` chunks added up, given
/// the sums on the way.
pub open spec fn adds_chunks<M: SignalMath>(
    math: &M,
    s: Seq<Single>,
    chunk: int,
    sums: Seq<Single>,
    k: int,
) -> bool {
    &&& sums.len() == k + 1
    &&& sums[0].bits == 0
    &&& forall|i: int|
        0 <= i < k ==> #[trigger] joins_chunk(
            math,
            s.subrange(i * chunk, i * chunk + chunk),
            sums[i],
            sums[i + 1],
        )
}

/// Whether `r` can be a sum that the energy of a chunk has joined.
pub open spec fn joins_chunk<M: SignalMath>(
    math: &M,
    chunk: Seq<Single>,
    sum: Single,
    r: Single,
) -> bool {
    exists|energy: Single| #[trigger]
        crate::arith::is_dot(
            math,
            Single { bits: MINUS_ZERO_BITS },
            chunk,
            chunk,
            energy,
        ) && call_ensures(M::sum, (math, sum, energy), r)
}

/// Whether a number can be the root of the mean square of others, with the
/// squares added so many at a time, and what is left over at the end.
pub open spec fn is_chunked_rms<M: SignalMath>(
    math: &M,
    s: Seq<Single>,
    chunk: int,
    r: Single,
) -> bool {
    exists|sums: Seq<Single>, energy: Single, level: Single|
        {
            &&& #[trigger] adds_chunks(math, s, chunk, sums, s.len() as int / chunk)
            &&& joins_chunk(
                math,
                s.skip(s.len() as int / chunk * chunk),
                sums.last(),
                energy,
            )
            &&& #[trigger] call_ensures(M::over, (math, energy, s.len() as usize), level)
            &&& call_ensures(M::root, (math, level), r)
        }
}

fn chunked_rms<M: SignalMath>(math: &M, s: &[Single], chunk: usize) -> (r: Single)
    requires
        chunk > 0,
    ensures
        is_chunked_rms(math, s@, chunk as int, r),
{
    let n: usize = s.len();
    let count: usize = n / chunk;
    let mut sum: Single = Single::zero();
    let ghost mut sums: Seq<Single> = seq![sum];
    proof {
        vstd::arithmetic::div_mod::lemma_fundamental_div_mod(n as int, chunk as int);
        vstd::arithmetic::mul::lemma_mul_is_commutative(chunk as int, count as int);
    }
    let mut k: usize = 0;
    let mut at: usize = 0;
    while k < count
        invariant
            k <= count,
            chunk > 0,
            n == s@.len(),
            at == k * chunk,
            count * chunk <= n,
            sum == sums.last(),
            adds_chunks(math, s@, chunk as int, sums, k as int),
        decreases count - k,
    {
        proof {
            vstd::arithmetic::mul::lemma_mul_is_distributive_add_other_way(
                chunk as int,
                k as int,
                1,
            );
            vstd::arithmetic::mul::lemma_mul_inequality(k + 1, count as int, chunk as int);
        }
        let part: &[Single] = slice_subrange(s, at, at + chunk);
        let energy: Single = dot(math, Single::from_bits(MINUS_ZERO_BITS), part, part);
        let ghost before = sums;
        let ghost held = sum;
        sum = math.sum(sum, energy);
        proof {
            let zero = Single { bits: MINUS_ZERO_BITS };
            assert(crate::arith::is_dot(math, zero, part@, part@, energy));
            assert(joins_chunk(math, part@, held, sum));
            sums = sums.push(sum);
            assert forall|i: int| 0 <= i < k + 1 implies #[trigger] joins_chunk(
                math,
                s@.subrange(i * chunk, i * chunk + chunk),
                sums[i],
                sums[i + 1],
            ) by {
                if i < k {
                    assert(joins_chunk(
                        math,
                        s@.subrange(i * chunk, i * chunk + chunk),
                        before[i],
                        before[i + 1],
                    ));
                }
            }
        }
        k += 1;
        at += chunk;
    }
    let rest: &[Single] = slice_subrange(s, at, n);
    assert(rest@ =~= s@.skip(n as int / chunk as int * chunk));
    let energy: Single = dot(math, Single::from_bits(MINUS_ZERO_BITS), rest, rest);
    let whole: Single = math.sum(sum, energy);
    proof {
        let zero = Single { bits: MINUS_ZERO_BITS };
        assert(crate::arith::is_dot(math, zero, rest@, rest@, energy));
    }
    assert(joins_chunk(math, rest@, sums.last(), whole));
    let level: Single = math.over(whole, n);
    assert(call_ensures(M::over, (math, whole, s@.len() as usize), level));
    assert(adds_chunks(math, s@, chunk as int, sums, s@.len() as int / chunk as int));
    math.root(level)
}

/// Whether `r` can be the difference of the greatest and the least sample.
pub open spec fn is_span<M: SignalMath>(
    math: &M,
    signal: Seq<Single>,
    high: Single,
    low: Single,
    r: Single,
) -> bool {
    &&& crate::samples::is_highest(signal, high)
    &&& crate::samples::is_lowest(signal, low)
    &&& call_ensures(M::difference, (math, high, low), r)
}

impl SignalProcessor {
    /// A signal with zeros behind it, so that its length is a power of two.
    pub fn zero_pad_pow2(signal: &[Single]) -> (r: Vec<Single>)
        requires
            signal@.len() <= usize::MAX / 2 + 1,
        ensures
            is_next_pow2(signal@.len() as int, r@.len() as int),
            r@ == crate::io::stream::padded(signal@, r@.len()),
    {
        let n: usize = next_pow2(signal.len());
        pad_to(signal, n)
    }

    /// The number of neighbours whose signs differ.
    pub fn zero_crossings(signal: &[Single]) -> (r: usize)
        ensures
            r == sign_changes(signal@, signal@.len() as int),
    {
        let n: usize = signal.len();
        let mut count: usize = 0;
        if n < 2 {
            return 0;
        }
        let mut i: usize = 1;
        while i < n
            invariant
                1 <= i <= n,
                n == signal@.len(),
                count < i,
                count == sign_changes(signal@, i as int),
            decreases n - i,
        {
            let a: Single = signal[i - 1];
            let b: Single = signal[i];
            if a.is_nan() || b.is_nan() || (a.bits >= 0x8000_0000) != (b.bits >= 0x8000_0000) {
                count += 1;
            }
            i += 1;
        }
        count
    }

    /// The difference of the greatest and the least sample.
    pub fn peak_to_peak<M: SignalMath>(math: &M, signal: &[Single]) -> (r: Single)
        ensures
            exists|high: Single, low: Single| #[trigger] is_span(math, signal@, high, low, r),
    {
        let high: Single = highest(signal);
        let low: Single = lowest(signal);
        let r: Single = math.difference(high, low);
        assert(is_span(math, signal@, high, low, r));
        r
    }

    /// A signal less its mean.
    pub fn remove_dc<M: SignalMath>(math: &M, signal: &[Single]) -> (r: Vec<Single>)
        ensures
            signal@.len() == 0 ==> r@.len() == 0,
            signal@.len() > 0 ==> exists|held: Vec<Single>, mean: Single|
                {
                    &&& held@ == signal@
                    &&& #[trigger] is_mean(math, held, mean)
                    &&& crate::arith::are_shifted(math, signal@, mean, r@)
                },
    {
        if signal.len() == 0 {
            return Vec::new();
        }
        let held: Vec<Single> = copy_samples(signal);
        let mean: Single = math.mean(&held);
        assert(is_mean(math, held, mean));
        shifted(math, signal, mean)
    }

    /// A signal divided by its greatest magnitude; as it is where that is zero.
    pub fn normalize<M: SignalMath>(math: &M, signal: &[Single]) -> (r: Vec<Single>)
        ensures
            exists|p: Single|
                {
                    &&& #[trigger] is_peak(signal@, p)
                    &&& if (Single { bits: 0 }).below(p) {
                        crate::arith::are_divided(math, signal@, p, r@)
                    } else {
                        r@ == signal@
                    }
                },
    {
        let p: Single = peak(signal);
        assert(is_peak(signal@, p));
        if !Single::zero().less(p) {
            return copy_samples(signal);
        }
        divided(math, signal, p)
    }

    /// The root of the mean square of a signal.
    pub fn rms<M: SignalMath>(math: &M, signal: &[Single]) -> (r: Single)
        ensures
            crate::arith::is_root_mean_square(
                math,
                Single { bits: MINUS_ZERO_BITS },
                signal@,
                r,
            ),
    {
        root_mean_square(math, Single::from_bits(MINUS_ZERO_BITS), signal)
    }

    /// A signal divided by its greatest magnitude; as it is where that is zero.
    pub fn normalize_simd<M: SignalMath>(math: &M, signal: &[Single]) -> (r: Vec<Single>)
        ensures
            exists|p: Single|
                {
                    &&& #[trigger] is_peak(signal@, p)
                    &&& if (Single { bits: 0 }).below(p) {
                        crate::arith::are_divided(math, signal@, p, r@)
                    } else {
                        r@ == signal@
                    }
                },
    {
        Self::normalize(math, signal)
    }

    /// The root of the mean square of a signal, with the squares added eight
    /// at a time.
    pub fn rms_simd<M: SignalMath>(math: &M, signal: &[Single]) -> (r: Single)
        ensures
            is_chunked_rms(math, signal@, 8, r),
    {
        chunked_rms(math, signal, 8)
    }

    /// The sums of the samples of two signals, or an error where their lengths
    /// differ.
    pub fn add_simd<M: SignalMath>(math: &M, a: &[Single], b: &[Single]) -> (r: IoResult<
        Vec<Single>,
    >)
        ensures
            if a@.len() == b@.len() {
                &&& r is Ok
                &&& r->Ok_0@.len() == a@.len()
                &&& forall|i: int|
                    0 <= i < a@.len() ==> call_ensures(
                        M::sum,
                        (math, a@[i], b@[i]),
                        #[trigger] r->Ok_0@[i],
                    )
            } else {
                r matches Err(e) && crate::io::signal::filters::is_signal_error(
                    e,
                    "Signals must have same length"@,
                )
            },
    {
        if a.len() != b.len() {
            return Err(IoError::SignalError("Signals must have same length".to_owned()));
        }
        let mut out: Vec<Single> = Vec::new();
        let mut i: usize = 0;
        while i < a.len()
            invariant
                i <= a@.len(),
                a@.len() == b@.len(),
                out@.len() == i,
                forall|k: int|
                    0 <= k < i ==> call_ensures(M::sum, (math, a@[k], b@[k]), #[trigger] out@[k]),
            decreases a@.len() - i,
        {
            out.push(math.sum(a[i], b[i]));
            i += 1;
        }
        Ok(out)
    }

    /// The products of the samples of two signals, or an error where their
    /// lengths differ.
    pub fn multiply_simd<M: SignalMath>(math: &M, a: &[Single], b: &[Single]) -> (r: IoResult<
        Vec<Single>,
    >)
        ensures
            if a@.len() == b@.len() {
                r is Ok && crate::arith::are_products(math, a@, b@, r->Ok_0@)
            } else {
                r matches Err(e) && crate::io::signal::filters::is_signal_error(
                    e,
                    "Signals must have same length"@,
                )
            },
    {
        if a.len() != b.len() {
            return Err(IoError::SignalError("Signals must have same length".to_owned()));
        }
        Ok(products(math, a, b))
    }
}

} // verus!
