//! Samples in byte strings, and the extremes of a signal.

use crate::number::Single;
use crate::wire::{get_u32, put_u32};
use vstd::prelude::*;

verus! {

/// A copy of the samples.
pub fn copy_samples(samples: &[Single]) -> (r: Vec<Single>)
    ensures
        r@ == samples@,
{
    let mut out: Vec<Single> = Vec::new();
    out.extend_from_slice(samples);
    assert(out@ =~= samples@);
    out
}

/// Positive infinity.
pub const INFINITY_BITS: u32 = 0x7f80_0000;

/// Negative infinity.
pub const NEG_INFINITY_BITS: u32 = 0xff80_0000;

/// Whether `m` is in `s`, the first one of its value.
pub open spec fn is_first(s: Seq<Single>, m: Single) -> bool {
    exists|k: int|
        {
            &&& 0 <= k < s.len()
            &&& #[trigger] s[k] == m
            &&& forall|i: int| 0 <= i < k ==> !(#[trigger] s[i]).same_value(m)
        }
}

/// Whether `m` is the least number of `s`, the first one where several are
/// equal, or positive infinity where no number of `s` is less.
pub open spec fn is_lowest(s: Seq<Single>, m: Single) -> bool {
    &&& !m.nan()
    &&& is_first(s, m) || m.bits == INFINITY_BITS
    &&& forall|i: int| 0 <= i < s.len() ==> !(#[trigger] s[i]).below(m)
}

/// Whether `m` is the greatest number of `s`, the first one where several are
/// equal, or negative infinity where no number of `s` is greater.
pub open spec fn is_highest(s: Seq<Single>, m: Single) -> bool {
    &&& !m.nan()
    &&& is_first(s, m) || m.bits == NEG_INFINITY_BITS
    &&& forall|i: int| 0 <= i < s.len() ==> !m.below(#[trigger] s[i])
}

/// There is one least number and one greatest number of samples.
pub proof fn extremes_are_unique(s: Seq<Single>, a: Single, b: Single)
    ensures
        is_lowest(s, a) && is_lowest(s, b) ==> a == b,
        is_highest(s, a) && is_highest(s, b) ==> a == b,
{
    let both = is_lowest(s, a) && is_lowest(s, b) || is_highest(s, a) && is_highest(s, b);
    if both && is_first(s, a) && is_first(s, b) {
        let j = choose|k: int|
            {
                &&& 0 <= k < s.len()
                &&& #[trigger] s[k] == a
                &&& forall|i: int| 0 <= i < k ==> !(#[trigger] s[i]).same_value(a)
            };
        let k = choose|k: int|
            {
                &&& 0 <= k < s.len()
                &&& #[trigger] s[k] == b
                &&& forall|i: int| 0 <= i < k ==> !(#[trigger] s[i]).same_value(b)
            };
        assert(s[j].same_value(s[k]));
        assert(j == k);
    } else if both {
        if is_first(s, a) {
            let j = choose|j: int| 0 <= j < s.len() && #[trigger] s[j] == a;
            assert(a.rank() == b.rank());
        }
        if is_first(s, b) {
            let j = choose|j: int| 0 <= j < s.len() && #[trigger] s[j] == b;
            assert(a.rank() == b.rank());
        }
    }
}

/// The least number of the samples, or positive infinity.
pub fn lowest(signal: &[Single]) -> (m: Single)
    ensures
        is_lowest(signal@, m),
{
    let mut best: Single = Single::from_bits(INFINITY_BITS);
    let ghost mut at: int = 0;
    let mut i: usize = 0;
    while i < signal.len()
        invariant
            i <= signal.len(),
            !best.nan(),
            best.bits == INFINITY_BITS || (0 <= at < i && signal@[at] == best),
            best.bits == INFINITY_BITS || forall|k: int|
                0 <= k < at ==> !(#[trigger] signal@[k]).same_value(best),
            forall|k: int| 0 <= k < i ==> !(#[trigger] signal@[k]).below(best),
        decreases signal.len() - i,
    {
        if signal[i].less(best) {
            best = signal[i];
            proof {
                at = i as int;
            }
        }
        i += 1;
    }
    best
}

/// The greatest number of the samples, or negative infinity.
pub fn highest(signal: &[Single]) -> (m: Single)
    ensures
        is_highest(signal@, m),
{
    let mut best: Single = Single::from_bits(NEG_INFINITY_BITS);
    let ghost mut at: int = 0;
    let mut i: usize = 0;
    while i < signal.len()
        invariant
            i <= signal.len(),
            !best.nan(),
            best.bits == NEG_INFINITY_BITS || (0 <= at < i && signal@[at] == best),
            best.bits == NEG_INFINITY_BITS || forall|k: int|
                0 <= k < at ==> !(#[trigger] signal@[k]).same_value(best),
            forall|k: int| 0 <= k < i ==> !best.below(#[trigger] signal@[k]),
        decreases signal.len() - i,
    {
        if best.less(signal[i]) {
            best = signal[i];
            proof {
                at = i as int;
            }
        }
        i += 1;
    }
    best
}

/// The bytes of the samples, four for each.
pub open spec fn words(s: Seq<Single>) -> Seq<u8> {
    Seq::new(4 * s.len(), |i: int| crate::wire::le32(s[i / 4].bits)[i % 4])
}

/// The samples that whole groups of four bytes stand for.
pub open spec fn samples_of(data: Seq<u8>) -> Seq<Single> {
    Seq::new(
        data.len() / 4,
        |i: int| Single { bits: crate::wire::le32_value(data.subrange(4 * i, 4 * i + 4)) },
    )
}

/// Samples that are written as bytes are read back unchanged.
pub proof fn words_round_trip(s: Seq<Single>)
    ensures
        samples_of(words(s)) == s,
{
    let data = words(s);
    assert forall|i: int| 0 <= i < s.len() implies #[trigger] samples_of(data)[i] == s[i] by {
        crate::wire::le32_round_trip(s[i].bits);
        assert(data.subrange(4 * i, 4 * i + 4) =~= crate::wire::le32(s[i].bits));
    }
    assert(samples_of(data) =~= s);
}

/// The bytes of two signals one after the other.
pub proof fn words_concat(a: Seq<Single>, b: Seq<Single>)
    ensures
        words(a + b) == words(a) + words(b),
{
    assert(words(a + b) =~= words(a) + words(b));
}

/// Appends the bytes of the samples.
pub fn put_words(out: &mut Vec<u8>, samples: &[Single])
    ensures
        final(out)@ == old(out)@ + words(samples@),
{
    let mut i: usize = 0;
    assert(out@ =~= old(out)@ + words(samples@.take(0)));
    while i < samples.len()
        invariant
            i <= samples.len(),
            out@ == old(out)@ + words(samples@.take(i as int)),
        decreases samples.len() - i,
    {
        let ghost before = out@;
        put_u32(out, samples[i].bits);
        proof {
            let one = seq![samples@[i as int]];
            assert(samples@.take(i + 1) =~= samples@.take(i as int) + one);
            words_concat(samples@.take(i as int), one);
            assert(words(one) =~= crate::wire::le32(samples@[i as int].bits));
            assert(out@ =~= old(out)@ + words(samples@.take(i + 1)));
        }
        i += 1;
    }
    assert(samples@.take(i as int) =~= samples@);
}

/// The samples that whole groups of four bytes stand for.
pub fn get_words(data: &[u8]) -> (r: Vec<Single>)
    ensures
        r@ == samples_of(data@),
{
    let n: usize = data.len() / 4;
    let mut out: Vec<Single> = Vec::with_capacity(n);
    let mut i: usize = 0;
    while i < n
        invariant
            i <= n,
            n == data@.len() / 4,
            data@.len() == data.len(),
            out@ == samples_of(data@).take(i as int),
        decreases n - i,
    {
        out.push(Single::from_bits(get_u32(data, 4 * i)));
        i += 1;
        assert(out@ =~= samples_of(data@).take(i as int));
    }
    assert(out@ =~= samples_of(data@));
    out
}

} // verus!
