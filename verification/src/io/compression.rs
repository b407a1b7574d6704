//! Compression of signals into byte strings.

use crate::arith::{mean, Arithmetic};
use crate::error::{IoError, IoResult};
use crate::names::NamedMap;
use crate::number::{RatioMath, Single, MINUS_ZERO_BITS};
use crate::samples::{get_words, highest, lowest, put_words};
use crate::wire::{get_u16, get_u32, put_u16, put_u32};
use vstd::prelude::*;

verus! {

/// The arithmetic on samples that compression needs. The library states
/// which operation is applied to which samples, and nothing about what the
/// operations return.
pub trait SampleMath: Arithmetic<Single> {
    /// The nearest of the levels from 0 at zero to `levels` at one.
    fn nearest(&self, part: Single, levels: u32) -> u16;

    /// A level in parts of all.
    fn part(&self, level: u16, levels: u32) -> Single;
}

/// The bit pattern of 1.0.
pub const ONE_BITS: u32 = 0x3f80_0000;

/// The bit pattern of 1e-10: a narrower range is not divided by.
pub const TINY_BITS: u32 = 0x2edb_e6ff;

/// Whether a range is too narrow to divide by.
pub open spec fn is_narrow(range: Single) -> bool {
    range.absolute().below(Single { bits: TINY_BITS })
}

/// Whether `r` can be the level of a sample: the nearest to its place between
/// the lowest and the highest, which is not left.
pub open spec fn is_level<M: SampleMath>(
    m: M,
    sample: Single,
    low: Single,
    range: Single,
    levels: u32,
    r: u16,
) -> bool {
    exists|gap: Single, part: Single|
        {
            &&& #[trigger] call_ensures(M::difference, (&m, sample, low), gap)
            &&& #[trigger] call_ensures(M::quotient, (&m, gap, range), part)
            &&& call_ensures(
                M::nearest,
                (&m, part.clamped(Single { bits: 0 }, Single { bits: ONE_BITS }), levels),
                r,
            )
        }
}

fn level_of<M: SampleMath>(m: &M, sample: Single, low: Single, range: Single, levels: u32) -> (r:
    u16)
    ensures
        is_level(*m, sample, low, range, levels, r),
{
    let gap: Single = m.difference(sample, low);
    assert(call_ensures(M::difference, (m, sample, low), gap));
    let part: Single = m.quotient(gap, range);
    assert(call_ensures(M::quotient, (m, gap, range), part));
    let held: Single = part.clamp(Single::zero(), Single::from_bits(ONE_BITS));
    assert(held == part.clamped(Single { bits: 0 }, Single { bits: ONE_BITS }));
    m.nearest(held, levels)
}

/// Whether `r` can be the sample of a level: its part of the range above the
/// lowest.
pub open spec fn is_leveled<M: SampleMath>(
    m: M,
    level: u16,
    low: Single,
    range: Single,
    levels: u32,
    r: Single,
) -> bool {
    exists|part: Single, above: Single|
        {
            &&& #[trigger] call_ensures(M::part, (&m, level, levels), part)
            &&& #[trigger] call_ensures(M::product, (&m, part, range), above)
            &&& call_ensures(M::sum, (&m, low, above), r)
        }
}

fn sample_of<M: SampleMath>(m: &M, level: u16, low: Single, range: Single, levels: u32) -> (r:
    Single)
    ensures
        is_leveled(*m, level, low, range, levels, r),
{
    let part: Single = m.part(level, levels);
    assert(call_ensures(M::part, (m, level, levels), part));
    let above: Single = m.product(part, range);
    assert(call_ensures(M::product, (m, part, range), above));
    m.sum(low, above)
}

/// How a signal is compressed.
#[derive(Debug, Clone, Copy, PartialEq, Eq, Structural)]
pub enum CompressionMethod {
    /// No compression.
    Uncompressed,
    /// Runs of equal samples.
    RLE,
    /// Differences between neighbours.
    Delta,
    /// Runs of equal differences.
    DeltaRLE,
    /// Levels between the smallest and the largest sample.
    Quantize { bits: u8 },
    /// Differences from the mean of the preceding samples.
    DPCM { predictor_order: usize },
}

/// A compressed signal.
pub struct CompressedSignal {
    /// The method that was used.
    pub method: CompressionMethod,
    /// The bytes.
    pub data: Vec<u8>,
    /// The number of samples that went in.
    pub original_length: usize,
    /// What decompression needs beside the bytes.
    pub metadata: CompressionMetadata,
}

/// What decompression needs beside the bytes.
pub struct CompressionMetadata {
    /// The sample rate of the signal.
    pub sample_rate: Option<Single>,
    /// The smallest sample.
    pub min_value: Single,
    /// The largest sample.
    pub max_value: Single,
    /// The first sample.
    pub first_sample: Single,
    /// Further entries.
    pub custom: NamedMap<String>,
}

impl Default for CompressionMetadata {
    fn default() -> (r: Self)
        ensures
            r.sample_rate is None,
            r.min_value.bits == 0,
            r.max_value.bits == 0,
            r.first_sample.bits == 0,
            r.custom.wf(),
            r.custom@ == Map::<Seq<char>, String>::empty(),
    {
        CompressionMetadata {
            sample_rate: None,
            min_value: Single::zero(),
            max_value: Single::zero(),
            first_sample: Single::zero(),
            custom: NamedMap::new(),
        }
    }
}

/// The largest length of one run.
pub const MAX_RUN: u16 = 65535;

/// The end of the run of samples equal to the first one, from place `n` on.
pub open spec fn run_end(s: Seq<Single>, n: nat) -> nat
    decreases s.len() - n,
{
    if n < s.len() && n < MAX_RUN && s[n as int].same_value(s[0]) {
        run_end(s, n + 1)
    } else {
        n
    }
}

proof fn run_end_bounds(s: Seq<Single>, n: nat)
    requires
        n <= s.len(),
        n <= MAX_RUN,
    ensures
        n <= run_end(s, n) <= s.len(),
        run_end(s, n) <= MAX_RUN,
        forall|k: int| n <= k < run_end(s, n) ==> (#[trigger] s[k]).same_value(s[0]),
    decreases s.len() - n,
{
    if n < s.len() && n < MAX_RUN && s[n as int].same_value(s[0]) {
        run_end_bounds(s, n + 1);
    }
}

/// The runs of a signal: for each its length in two bytes and its first
/// sample in four.
pub open spec fn runs(s: Seq<Single>) -> Seq<u8>
    decreases s.len(),
    via runs_shrink
{
    if s.len() == 0 {
        Seq::empty()
    } else {
        let n = run_end(s, 1);
        crate::wire::le16(n as u16) + crate::wire::le32(s[0].bits) + runs(s.skip(n as int))
    }
}

#[via_fn]
proof fn runs_shrink(s: Seq<Single>) {
    if s.len() > 0 {
        run_end_bounds(s, 1);
    }
}

/// The signal that a string of runs stands for.
pub open spec fn unroll(data: Seq<u8>) -> Seq<Single>
    decreases data.len(),
{
    if data.len() < 6 {
        Seq::empty()
    } else {
        let n = crate::wire::le16_value(data.take(2));
        let value = Single { bits: crate::wire::le32_value(data.subrange(2, 6)) };
        Seq::new(n as nat, |i: int| value) + unroll(data.skip(6))
    }
}

/// A signal that is written as runs is read back sample for sample: each
/// one with its bits unchanged, or as the other zero where a run mixes both.
pub proof fn runs_round_trip(s: Seq<Single>)
    ensures
        unroll(runs(s)).len() == s.len(),
        forall|i: int|
            0 <= i < s.len() ==> {
                let back = #[trigger] unroll(runs(s))[i];
                back == s[i] || (back.same_value(s[i]) && s[i].rank() == 0)
            },
    decreases s.len(),
{
    if s.len() > 0 {
        let n = run_end(s, 1);
        run_end_bounds(s, 1);
        let rest = s.skip(n as int);
        runs_round_trip(rest);
        let data = runs(s);
        let head = crate::wire::le16(n as u16);
        let value = crate::wire::le32(s[0].bits);
        crate::wire::le16_round_trip(n as u16);
        crate::wire::le32_round_trip(s[0].bits);
        assert(data.take(2) =~= head);
        assert(data.subrange(2, 6) =~= value);
        assert(data.skip(6) =~= runs(rest));
        let back = unroll(data);
        assert forall|i: int| 0 <= i < s.len() implies (#[trigger] back[i] == s[i] || (
        back[i].same_value(s[i]) && s[i].rank() == 0)) by {
            if i < n {
                assert(back[i] == s[0]);
                if i > 0 {
                    assert(s[i].same_value(s[0]));
                }
            } else {
                assert(back[i] == unroll(runs(rest))[i - n]);
                assert(rest[i - n] == s[i]);
            }
        }
    }
}

fn encode_runs(signal: &[Single]) -> (data: Vec<u8>)
    ensures
        data@ == runs(signal@),
{
    let mut data: Vec<u8> = Vec::new();
    let mut i: usize = 0;
    assert(signal@.skip(0) =~= signal@);
    assert(data@ + runs(signal@) =~= runs(signal@));
    while i < signal.len()
        invariant
            i <= signal.len(),
            data@ + runs(signal@.skip(i as int)) == runs(signal@),
        decreases signal.len() - i,
    {
        let ghost rest = signal@.skip(i as int);
        let value: Single = signal[i];
        let mut count: u16 = 1;
        while (count as usize) < signal.len() - i && signal[i + count as usize].equals(value)
            && count < MAX_RUN
            invariant
                i < signal.len(),
                rest == signal@.skip(i as int),
                value == rest[0],
                1 <= count <= rest.len(),
                run_end(rest, 1) == run_end(rest, count as nat),
            decreases MAX_RUN - count,
        {
            assert(rest[count as int] == signal@[i + count]);
            count += 1;
        }
        let ghost before = data@;
        proof {
            if count < rest.len() {
                assert(rest[count as int] == signal@[i + count]);
            }
            assert(run_end(rest, 1) == count);
        }
        put_u16(&mut data, count);
        put_u32(&mut data, value.bits);
        i += count as usize;
        proof {
            assert(rest.skip(count as int) =~= signal@.skip(i as int));
            assert(data@ + runs(signal@.skip(i as int)) =~= before + runs(rest));
        }
    }
    assert(signal@.skip(i as int) =~= Seq::<Single>::empty());
    assert(data@ =~= runs(signal@));
    data
}

fn decode_runs(data: &[u8]) -> (signal: Vec<Single>)
    ensures
        signal@ == unroll(data@),
{
    let mut signal: Vec<Single> = Vec::new();
    let mut i: usize = 0;
    assert(data@.skip(0) =~= data@);
    assert(signal@ + unroll(data@) =~= unroll(data@));
    while data.len() - i >= 6
        invariant
            i <= data.len(),
            signal@ + unroll(data@.skip(i as int)) == unroll(data@),
        decreases data.len() - i,
    {
        let ghost rest = data@.skip(i as int);
        let ghost before = signal@;
        let count: u16 = get_u16(data, i);
        let value: Single = Single::from_bits(get_u32(data, i + 2));
        proof {
            assert(rest.take(2) =~= data@.subrange(i as int, i + 2));
            assert(rest.subrange(2, 6) =~= data@.subrange(i + 2, i + 6));
            assert(rest.skip(6) =~= data@.skip(i + 6));
        }
        let mut k: u16 = 0;
        while k < count
            invariant
                k <= count,
                signal@ == before + Seq::new(k as nat, |j: int| value),
            decreases count - k,
        {
            signal.push(value);
            k += 1;
            assert(signal@ =~= before + Seq::new(k as nat, |j: int| value));
        }
        i += 6;
        assert(signal@ + unroll(data@.skip(i as int)) =~= before + unroll(rest));
    }
    assert(unroll(data@.skip(i as int)) =~= Seq::<Single>::empty());
    assert(signal@ =~= unroll(data@));
    signal
}

/// Whether `d` holds differences between the neighbours in `s`.
pub open spec fn are_deltas<M: SampleMath>(m: M, s: Seq<Single>, d: Seq<Single>) -> bool {
    &&& d.len() == s.len() - 1
    &&& forall|i: int|
        0 <= i < d.len() ==> call_ensures(
            M::difference,
            (&m, s[i + 1], s[i]),
            #[trigger] d[i],
        )
}

/// Whether `s` starts with `first` and goes on by adding the differences.
pub open spec fn adds_up<M: SampleMath>(
    m: M,
    first: Single,
    d: Seq<Single>,
    s: Seq<Single>,
) -> bool {
    &&& s.len() == d.len() + 1
    &&& s[0] == first
    &&& forall|i: int|
        0 <= i < d.len() ==> call_ensures(M::sum, (&m, s[i], #[trigger] d[i]), s[i + 1])
}

fn deltas<M: SampleMath>(m: &M, signal: &[Single]) -> (d: Vec<Single>)
    requires
        signal@.len() > 0,
    ensures
        are_deltas(*m, signal@, d@),
{
    let mut out: Vec<Single> = Vec::with_capacity(signal.len() - 1);
    let mut i: usize = 1;
    while i < signal.len()
        invariant
            1 <= i <= signal.len(),
            out@.len() == i - 1,
            forall|k: int|
                0 <= k < out@.len() ==> call_ensures(
                    M::difference,
                    (m, signal@[k + 1], signal@[k]),
                    #[trigger] out@[k],
                ),
        decreases signal.len() - i,
    {
        let d: Single = m.difference(signal[i], signal[i - 1]);
        out.push(d);
        i += 1;
    }
    out
}

fn integrate<M: SampleMath>(m: &M, first: Single, d: &[Single]) -> (s: Vec<Single>)
    ensures
        adds_up(*m, first, d@, s@),
{
    let mut out: Vec<Single> = Vec::new();
    out.push(first);
    let mut last: Single = first;
    let mut i: usize = 0;
    while i < d.len()
        invariant
            i <= d.len(),
            out@.len() == i + 1,
            out@[0] == first,
            out@[i as int] == last,
            forall|k: int|
                0 <= k < i ==> call_ensures(M::sum, (m, out@[k], #[trigger] d@[k]), out@[k + 1]),
        decreases d.len() - i,
    {
        last = m.sum(last, d[i]);
        out.push(last);
        i += 1;
    }
    out
}

/// The number of steps between the lowest and the highest level.
pub open spec fn level_count(bits: u8) -> int {
    vstd::arithmetic::power2::pow2(bits as nat) - 1
}

fn levels_of(bits: u8) -> (r: u32)
    requires
        bits < 32,
    ensures
        r == level_count(bits),
{
    proof {
        vstd::bits::lemma_u32_pow2_no_overflow(bits as nat);
        vstd::bits::lemma_u32_shl_is_mul(1, bits as u32);
    }
    (1u32 << (bits as u32)) - 1
}

/// The bytes of levels: one for each where they have at most eight bits,
/// else two.
pub open spec fn level_bytes(levels: Seq<u16>, bits: u8) -> Seq<u8> {
    if bits <= 8 {
        Seq::new(levels.len(), |i: int| (levels[i] % 256) as u8)
    } else {
        Seq::new(2 * levels.len(), |i: int| crate::wire::le16(levels[i / 2])[i % 2])
    }
}

/// The levels that bytes stand for.
pub open spec fn levels_in(data: Seq<u8>, bits: u8) -> Seq<u16> {
    if bits <= 8 {
        Seq::new(data.len(), |i: int| data[i] as u16)
    } else {
        Seq::new(
            data.len() / 2,
            |i: int| crate::wire::le16_value(data.subrange(2 * i, 2 * i + 2)),
        )
    }
}

/// Levels that fit their bits are read back unchanged.
pub proof fn levels_round_trip(levels: Seq<u16>, bits: u8)
    requires
        bits <= 8 ==> forall|i: int| 0 <= i < levels.len() ==> #[trigger] levels[i] < 256,
    ensures
        levels_in(level_bytes(levels, bits), bits) == levels,
{
    let data = level_bytes(levels, bits);
    if bits > 8 {
        assert forall|i: int| 0 <= i < levels.len() implies #[trigger] levels_in(data, bits)[i]
            == levels[i] by {
            crate::wire::le16_round_trip(levels[i]);
            assert(data.subrange(2 * i, 2 * i + 2) =~= crate::wire::le16(levels[i]));
        }
    }
    assert(levels_in(data, bits) =~= levels);
}

/// Whether `levels` holds the levels of the samples.
pub open spec fn are_levels<M: SampleMath>(
    m: M,
    s: Seq<Single>,
    low: Single,
    range: Single,
    bits: u8,
    levels: Seq<u16>,
) -> bool {
    &&& levels.len() == s.len()
    &&& forall|i: int|
        0 <= i < s.len() ==> is_level(
            m,
            s[i],
            low,
            range,
            level_count(bits) as u32,
            #[trigger] levels[i],
        )
}

/// Whether `s` holds the samples of the levels.
pub open spec fn are_leveled<M: SampleMath>(
    m: M,
    levels: Seq<u16>,
    low: Single,
    high: Single,
    bits: u8,
    s: Seq<Single>,
) -> bool {
    &&& s.len() == levels.len()
    &&& exists|range: Single|
        #![trigger call_ensures(M::difference, (&m, high, low), range)]
        {
            &&& call_ensures(M::difference, (&m, high, low), range)
            &&& forall|i: int|
                0 <= i < s.len() ==> is_leveled(
                    m,
                    levels[i],
                    low,
                    range,
                    level_count(bits) as u32,
                    #[trigger] s[i],
                )
        }
}

/// Whether `data` holds the levels of the samples.
pub open spec fn holds_levels<M: SampleMath>(
    m: M,
    s: Seq<Single>,
    low: Single,
    range: Single,
    bits: u8,
    data: Seq<u8>,
) -> bool {
    exists|levels: Seq<u16>|
        #![trigger level_bytes(levels, bits)]
        are_levels(m, s, low, range, bits, levels) && data == level_bytes(levels, bits)
}

/// Whether `data` holds the quantized signal: one zero byte for a range that
/// is too narrow, else the levels.
pub open spec fn is_quantized<M: SampleMath>(
    m: M,
    s: Seq<Single>,
    low: Single,
    high: Single,
    bits: u8,
    data: Seq<u8>,
) -> bool {
    exists|range: Single|
        #![trigger call_ensures(M::difference, (&m, high, low), range)]
        {
            &&& call_ensures(M::difference, (&m, high, low), range)
            &&& if is_narrow(range) {
                data == seq![0u8]
            } else {
                holds_levels(m, s, low, range, bits, data)
            }
        }
}

fn encode_levels<M: SampleMath>(
    m: &M,
    signal: &[Single],
    bits: u8,
    low: Single,
    high: Single,
) -> (data: Vec<u8>)
    requires
        1 <= bits <= 16,
    ensures
        is_quantized(*m, signal@, low, high, bits, data@),
{
    let levels: u32 = levels_of(bits);
    let range: Single = m.difference(high, low);
    assert(call_ensures(M::difference, (m, high, low), range));
    if range.abs().less(Single::from_bits(TINY_BITS)) {
        let flat: Vec<u8> = vec![0];
        assert(flat@ =~= seq![0u8]);
        return flat;
    }
    let mut data: Vec<u8> = Vec::new();
    let ghost mut steps: Seq<u16> = Seq::empty();
    let mut i: usize = 0;
    assert(data@ =~= level_bytes(steps, bits));
    while i < signal.len()
        invariant
            i <= signal.len(),
            levels == level_count(bits),
            steps.len() == i,
            data@ == level_bytes(steps, bits),
            forall|k: int|
                0 <= k < i ==> is_level(
                    *m,
                    signal@[k],
                    low,
                    range,
                    level_count(bits) as u32,
                    #[trigger] steps[k],
                ),
        decreases signal.len() - i,
    {
        let step: u16 = level_of(m, signal[i], low, range, levels);
        let ghost more = steps.push(step);
        if bits <= 8 {
            data.push((step % 256) as u8);
        } else {
            put_u16(&mut data, step);
        }
        proof {
            assert(data@ =~= level_bytes(more, bits));
            steps = more;
        }
        i += 1;
    }
    assert(holds_levels(*m, signal@, low, range, bits, data@));
    data
}

fn decode_levels<M: SampleMath>(
    m: &M,
    data: &[u8],
    bits: u8,
    low: Single,
    high: Single,
) -> (signal: Vec<Single>)
    requires
        bits < 32,
    ensures
        are_leveled(*m, levels_in(data@, bits), low, high, bits, signal@),
{
    let levels: u32 = levels_of(bits);
    let n: usize = if bits <= 8 {
        data.len()
    } else {
        data.len() / 2
    };
    let range: Single = m.difference(high, low);
    assert(call_ensures(M::difference, (m, high, low), range));
    let mut signal: Vec<Single> = Vec::with_capacity(n);
    let mut i: usize = 0;
    while i < n
        invariant
            i <= n,
            n == levels_in(data@, bits).len(),
            bits > 8 ==> 2 * n <= data@.len(),
            data@.len() == data.len(),
            levels == level_count(bits),
            signal@.len() == i,
            forall|k: int|
                0 <= k < i ==> is_leveled(
                    *m,
                    levels_in(data@, bits)[k],
                    low,
                    range,
                    level_count(bits) as u32,
                    #[trigger] signal@[k],
                ),
        decreases n - i,
    {
        let level: u16 = if bits <= 8 {
            data[i] as u16
        } else {
            get_u16(data, 2 * i)
        };
        assert(level == levels_in(data@, bits)[i as int]);
        let value: Single = sample_of(m, level, low, range, levels);
        signal.push(value);
        i += 1;
    }
    signal
}

/// Whether `p` is the sample predicted from the preceding ones: their mean,
/// or zero where there are none.
pub open spec fn is_predicted<M: SampleMath>(m: M, history: Seq<Single>, p: Single) -> bool {
    if history.len() == 0 {
        p.bits == 0
    } else {
        crate::arith::is_mean(&m, Single { bits: MINUS_ZERO_BITS }, history, p)
    }
}

fn linear_predict<M: SampleMath>(m: &M, history: &[Single]) -> (p: Single)
    ensures
        is_predicted(*m, history@, p),
{
    if history.len() == 0 {
        return Single::zero();
    }
    mean(m, Single::from_bits(MINUS_ZERO_BITS), history)
}

/// Whether `r` is what a sample has over its prediction.
pub open spec fn is_residual<M: SampleMath>(
    m: M,
    history: Seq<Single>,
    x: Single,
    r: Single,
) -> bool {
    exists|p: Single|
        #[trigger] is_predicted(m, history, p) && call_ensures(M::difference, (&m, x, p), r)
}

/// Whether `x` is a prediction and the residual that goes with it.
pub open spec fn is_restored<M: SampleMath>(
    m: M,
    history: Seq<Single>,
    r: Single,
    x: Single,
) -> bool {
    exists|p: Single|
        #[trigger] is_predicted(m, history, p) && call_ensures(M::sum, (&m, p, r), x)
}

/// Whether `rest` holds the residuals of the samples after the first `order`.
pub open spec fn are_residuals<M: SampleMath>(
    m: M,
    s: Seq<Single>,
    order: int,
    rest: Seq<Single>,
) -> bool {
    &&& rest.len() == s.len() - order
    &&& forall|j: int|
        0 <= j < rest.len() ==> is_residual(
            m,
            s.subrange(j, j + order),
            s[order + j],
            #[trigger] rest[j],
        )
}

/// The last `order` samples before place `i`, or all of them where there are
/// fewer.
pub open spec fn history_before(s: Seq<Single>, i: int, order: int) -> Seq<Single> {
    s.subrange(
        if i > order {
            i - order
        } else {
            0
        },
        i,
    )
}

/// Whether `s` goes on from its `start` by restoring the residuals.
pub open spec fn restores<M: SampleMath>(
    m: M,
    start: Seq<Single>,
    rest: Seq<Single>,
    order: int,
    s: Seq<Single>,
) -> bool {
    &&& s.len() == start.len() + rest.len()
    &&& s.take(start.len() as int) == start
    &&& forall|j: int|
        0 <= j < rest.len() ==> is_restored(
            m,
            history_before(s, start.len() + j, order),
            #[trigger] rest[j],
            s[start.len() + j],
        )
}

fn encode_residuals<M: SampleMath>(m: &M, signal: &[Single], order: usize) -> (data: Vec<u8>)
    requires
        1 <= order < signal@.len(),
    ensures
        exists|rest: Seq<Single>|
            #![trigger crate::samples::words(rest)]
            are_residuals(*m, signal@, order as int, rest) && data@ == crate::samples::words(
                signal@.take(order as int),
            ) + crate::samples::words(rest),
{
    let mut data: Vec<u8> = Vec::new();
    let (start, tail) = signal.split_at(order);
    put_words(&mut data, start);
    let mut rest: Vec<Single> = Vec::new();
    let mut i: usize = order;
    while i < signal.len()
        invariant
            1 <= order <= i <= signal.len(),
            rest@.len() == i - order,
            forall|j: int|
                0 <= j < rest@.len() ==> is_residual(
                    *m,
                    signal@.subrange(j, j + order),
                    signal@[order + j],
                    #[trigger] rest@[j],
                ),
        decreases signal.len() - i,
    {
        let history: &[Single] = vstd::slice::slice_subrange(signal, i - order, i);
        let predicted: Single = linear_predict(m, history);
        let residual: Single = m.difference(signal[i], predicted);
        rest.push(residual);
        i += 1;
    }
    put_words(&mut data, rest.as_slice());
    proof {
        assert(start@ =~= signal@.take(order as int));
        assert(data@ =~= crate::samples::words(signal@.take(order as int)) + crate::samples::words(rest@));
    }
    data
}

/// The samples that a residual string starts from.
pub open spec fn residual_start(data: Seq<u8>, order: int, first: Single) -> Seq<Single> {
    let start = crate::samples::samples_of(data.take(4 * order));
    if start.len() == 0 {
        seq![first]
    } else {
        start
    }
}

fn decode_residuals<M: SampleMath>(m: &M, data: &[u8], order: usize, first: Single) -> (signal: Vec<
    Single,
>)
    requires
        4 * order <= data@.len(),
    ensures
        restores(
            *m,
            residual_start(data@, order as int, first),
            crate::samples::samples_of(data@.skip(4 * order)),
            order as int,
            signal@,
        ),
{
    assert(data@.len() == data.len());
    let (front, back) = data.split_at(4 * order);
    let mut signal: Vec<Single> = get_words(front);
    let rest: Vec<Single> = get_words(back);
    assert(front@ =~= data@.take(4 * order));
    assert(back@ =~= data@.skip(4 * order));
    if signal.len() == 0 {
        signal.push(first);
        assert(signal@ =~= seq![first]);
    }
    let ghost start = signal@;
    let mut i: usize = 0;
    while i < rest.len()
        invariant
            i <= rest.len(),
            start.len() > 0,
            signal@.len() == start.len() + i,
            signal@.take(start.len() as int) == start,
            forall|j: int|
                0 <= j < i ==> is_restored(
                    *m,
                    history_before(signal@, start.len() + j, order as int),
                    #[trigger] rest@[j],
                    signal@[start.len() + j],
                ),
        decreases rest.len() - i,
    {
        let n: usize = signal.len();
        let from: usize = if n > order {
            n - order
        } else {
            0
        };
        let history: &[Single] = vstd::slice::slice_subrange(signal.as_slice(), from, n);
        let predicted: Single = linear_predict(m, history);
        let restored: Single = m.sum(predicted, rest[i]);
        let ghost before = signal@;
        proof {
            assert(history@ == history_before(before, n as int, order as int));
            assert(is_restored(*m, history@, rest@[i as int], restored));
        }
        signal.push(restored);
        proof {
            assert(signal@.take(start.len() as int) =~= before.take(start.len() as int));
            assert forall|j: int| 0 <= j < i + 1 implies is_restored(
                *m,
                history_before(signal@, start.len() + j, order as int),
                #[trigger] rest@[j],
                signal@[start.len() + j],
            ) by {
                assert(history_before(signal@, start.len() + j, order as int) =~= history_before(
                    before,
                    start.len() + j,
                    order as int,
                ));
            }
        }
        i += 1;
    }
    assert(signal@.take(start.len() as int) =~= start);
    signal
}

/// Whether `data` is what a method makes of a signal whose smallest and
/// largest samples are `low` and `high`.
pub open spec fn is_packed<M: SampleMath>(
    m: M,
    method: CompressionMethod,
    s: Seq<Single>,
    low: Single,
    high: Single,
    data: Seq<u8>,
) -> bool {
    match method {
        CompressionMethod::Uncompressed => data == crate::samples::words(s),
        CompressionMethod::RLE => data == runs(s),
        CompressionMethod::Delta => exists|d: Seq<Single>|
            #![trigger crate::samples::words(d)]
            are_deltas(m, s, d) && data == crate::samples::words(d),
        CompressionMethod::DeltaRLE => exists|d: Seq<Single>|
            #![trigger runs(d)]
            are_deltas(m, s, d) && data == runs(d),
        CompressionMethod::Quantize { bits } => is_quantized(m, s, low, high, bits, data),
        CompressionMethod::DPCM { predictor_order } => exists|rest: Seq<Single>|
            #![trigger crate::samples::words(rest)]
            are_residuals(m, s, predictor_order as int, rest) && data == crate::samples::words(
                s.take(predictor_order as int),
            ) + crate::samples::words(rest),
    }
}

/// Why a method cannot compress a signal, if it cannot.
pub open spec fn refusal(method: CompressionMethod, n: nat) -> Option<Seq<char>> {
    if n == 0 {
        Some("Cannot compress empty signal"@)
    } else {
        match method {
            CompressionMethod::Quantize { bits } => if bits == 0 || bits > 16 {
                Some("Quantization bits must be 1-16"@)
            } else {
                None
            },
            CompressionMethod::DPCM { predictor_order } => if predictor_order == 0
                || predictor_order >= n {
                Some("Invalid predictor order"@)
            } else {
                None
            },
            _ => None,
        }
    }
}

/// Whether `c` is a signal compressed by a method.
pub open spec fn is_compressed<M: SampleMath>(
    m: M,
    method: CompressionMethod,
    s: Seq<Single>,
    c: CompressedSignal,
) -> bool {
    &&& c.method == method
    &&& c.original_length == s.len()
    &&& c.metadata.sample_rate is None
    &&& c.metadata.first_sample == s[0]
    &&& crate::samples::is_lowest(s, c.metadata.min_value)
    &&& crate::samples::is_highest(s, c.metadata.max_value)
    &&& c.metadata.custom.wf()
    &&& c.metadata.custom@ == Map::<Seq<char>, String>::empty()
    &&& is_packed(m, method, s, c.metadata.min_value, c.metadata.max_value, c.data@)
}

/// Whether `r` is what compressing a signal by a method comes to.
pub open spec fn is_outcome<M: SampleMath>(
    m: M,
    method: CompressionMethod,
    s: Seq<Single>,
    r: IoResult<CompressedSignal>,
) -> bool {
    match refusal(method, s.len()) {
        Some(text) => r matches Err(IoError::InvalidConfig(t)) && t@ == text,
        None => r matches Ok(c) && is_compressed(m, method, s, c),
    }
}

/// Whether a compressed signal can be unpacked: its levels have fewer than
/// 32 bits, and the samples that its predictor starts from are there.
pub open spec fn is_unpackable(c: CompressedSignal) -> bool {
    match c.method {
        CompressionMethod::Quantize { bits } => bits < 32,
        CompressionMethod::DPCM { predictor_order } => 4 * predictor_order <= c.data@.len(),
        _ => true,
    }
}

/// Whether `s` is what a compressed signal unpacks to.
pub open spec fn is_unpacked<M: SampleMath>(m: M, c: CompressedSignal, s: Seq<Single>) -> bool {
    match c.method {
        CompressionMethod::Uncompressed => s == crate::samples::samples_of(c.data@),
        CompressionMethod::RLE => s == unroll(c.data@),
        CompressionMethod::Delta => adds_up(
            m,
            c.metadata.first_sample,
            crate::samples::samples_of(c.data@),
            s,
        ),
        CompressionMethod::DeltaRLE => adds_up(m, c.metadata.first_sample, unroll(c.data@), s),
        CompressionMethod::Quantize { bits } => are_leveled(
            m,
            levels_in(c.data@, bits),
            c.metadata.min_value,
            c.metadata.max_value,
            bits,
            s,
        ),
        CompressionMethod::DPCM { predictor_order } => restores(
            m,
            residual_start(c.data@, predictor_order as int, c.metadata.first_sample),
            crate::samples::samples_of(c.data@.skip(4 * predictor_order)),
            predictor_order as int,
            s,
        ),
    }
}

/// Compresses signals by one method.
#[derive(Debug, Clone, Copy)]
pub struct SignalCompressor {
    method: CompressionMethod,
}

impl SignalCompressor {
    /// The method of the compressor.
    pub closed spec fn uses(&self) -> CompressionMethod {
        self.method
    }

    /// A compressor for the given method.
    pub fn new(method: CompressionMethod) -> (r: Self)
        ensures
            r.uses() == method,
    {
        SignalCompressor { method }
    }

    /// Compresses a signal.
    pub fn compress<M: SampleMath>(&self, m: &M, signal: &[Single]) -> (r: IoResult<
        CompressedSignal,
    >)
        ensures
            is_outcome(*m, self.uses(), signal@, r),
    {
        if signal.len() == 0 {
            return Err(IoError::InvalidConfig("Cannot compress empty signal".to_owned()));
        }
        let min_value: Single = lowest(signal);
        let max_value: Single = highest(signal);
        let data: Vec<u8> = match self.method {
            CompressionMethod::Uncompressed => {
                let mut out: Vec<u8> = Vec::new();
                put_words(&mut out, signal);
                assert(out@ =~= crate::samples::words(signal@));
                out
            },
            CompressionMethod::RLE => encode_runs(signal),
            CompressionMethod::Delta => {
                let d: Vec<Single> = deltas(m, signal);
                let mut out: Vec<u8> = Vec::new();
                put_words(&mut out, d.as_slice());
                assert(out@ =~= crate::samples::words(d@));
                out
            },
            CompressionMethod::DeltaRLE => {
                let d: Vec<Single> = deltas(m, signal);
                encode_runs(d.as_slice())
            },
            CompressionMethod::Quantize { bits } => {
                if bits == 0 || bits > 16 {
                    return Err(
                        IoError::InvalidConfig("Quantization bits must be 1-16".to_owned()),
                    );
                }
                encode_levels(m, signal, bits, min_value, max_value)
            },
            CompressionMethod::DPCM { predictor_order } => {
                if predictor_order == 0 || predictor_order >= signal.len() {
                    return Err(IoError::InvalidConfig("Invalid predictor order".to_owned()));
                }
                encode_residuals(m, signal, predictor_order)
            },
        };
        let metadata: CompressionMetadata = CompressionMetadata {
            sample_rate: None,
            min_value,
            max_value,
            first_sample: signal[0],
            custom: NamedMap::new(),
        };
        Ok(
            CompressedSignal {
                method: self.method,
                data,
                original_length: signal.len(),
                metadata,
            },
        )
    }

    /// Decompresses a signal by the method that it was compressed with.
    pub fn decompress<M: SampleMath>(&self, m: &M, compressed: &CompressedSignal) -> (r: IoResult<
        Vec<Single>,
    >)
        requires
            is_unpackable(*compressed),
        ensures
            r is Ok,
            is_unpacked(*m, *compressed, r->Ok_0@),
    {
        let data: &[u8] = compressed.data.as_slice();
        let first: Single = compressed.metadata.first_sample;
        match compressed.method {
            CompressionMethod::Uncompressed => Ok(get_words(data)),
            CompressionMethod::RLE => Ok(decode_runs(data)),
            CompressionMethod::Delta => {
                let d: Vec<Single> = get_words(data);
                Ok(integrate(m, first, d.as_slice()))
            },
            CompressionMethod::DeltaRLE => {
                let d: Vec<Single> = decode_runs(data);
                Ok(integrate(m, first, d.as_slice()))
            },
            CompressionMethod::Quantize { bits } => Ok(
                decode_levels(
                    m,
                    data,
                    bits,
                    compressed.metadata.min_value,
                    compressed.metadata.max_value,
                ),
            ),
            CompressionMethod::DPCM { predictor_order } => Ok(
                decode_residuals(m, data, predictor_order, first),
            ),
        }
    }

    /// The size in bytes before compression, divided by that after it.
    pub fn compression_ratio<R: RatioMath>(
        &self,
        math: &R,
        original: &[Single],
        compressed: &CompressedSignal,
    ) -> (r: Single)
        requires
            4 * original@.len() <= usize::MAX,
        ensures
            call_ensures(
                R::ratio,
                (math, (4 * original@.len()) as usize, compressed.data@.len() as usize),
                r,
            ),
    {
        math.ratio(4 * original.len(), compressed.data.len())
    }
}

/// Everything that a method makes of a signal can be unpacked again.
pub proof fn compressed_is_unpackable<M: SampleMath>(
    m: M,
    method: CompressionMethod,
    s: Seq<Single>,
    c: CompressedSignal,
)
    requires
        refusal(method, s.len()) is None,
        is_compressed(m, method, s, c),
    ensures
        is_unpackable(c),
{
}

/// Without arithmetic on samples nothing is lost: an uncompressed signal
/// comes back unchanged, and one in runs comes back with every bit but the
/// sign of a zero.
pub proof fn lossless_round_trip<M: SampleMath>(
    m: M,
    s: Seq<Single>,
    c: CompressedSignal,
    back: Seq<Single>,
)
    requires
        s.len() > 0,
        c.method is Uncompressed || c.method is RLE,
        is_compressed(m, c.method, s, c),
        is_unpacked(m, c, back),
    ensures
        c.method is Uncompressed ==> back == s,
        back.len() == s.len(),
        forall|i: int|
            0 <= i < s.len() ==> (#[trigger] back[i] == s[i] || (back[i].same_value(s[i])
                && s[i].rank() == 0)),
{
    if c.method is Uncompressed {
        crate::samples::words_round_trip(s);
    } else {
        runs_round_trip(s);
    }
}

/// A signal comes back with as many samples as it had, unless it was
/// quantized and its range was too narrow. Even then one sample comes back as
/// one, where a level takes a byte.
pub proof fn length_round_trip<M: SampleMath>(
    m: M,
    s: Seq<Single>,
    c: CompressedSignal,
    back: Seq<Single>,
)
    requires
        refusal(c.method, s.len()) is None,
        is_compressed(m, c.method, s, c),
        is_unpacked(m, c, back),
        c.method is Quantize && !(s.len() == 1 && c.method->bits <= 8) ==> forall|range: Single|
            #[trigger]
            call_ensures(
                M::difference,
                (&m, c.metadata.max_value, c.metadata.min_value),
                range,
            ) ==> !is_narrow(range),
    ensures
        back.len() == s.len(),
        c.method is Delta || c.method is DeltaRLE ==> back[0] == s[0],
        c.method matches CompressionMethod::DPCM { predictor_order } ==> back.take(
            predictor_order as int,
        ) == s.take(predictor_order as int),
{
    match c.method {
        CompressionMethod::Uncompressed => {
            crate::samples::words_round_trip(s);
        },
        CompressionMethod::RLE => {
            runs_round_trip(s);
        },
        CompressionMethod::Delta => {
            let d = choose|d: Seq<Single>|
                #![trigger crate::samples::words(d)]
                are_deltas(m, s, d) && c.data@ == crate::samples::words(d);
            crate::samples::words_round_trip(d);
        },
        CompressionMethod::DeltaRLE => {
            let d = choose|d: Seq<Single>|
                #![trigger runs(d)]
                are_deltas(m, s, d) && c.data@ == runs(d);
            runs_round_trip(d);
        },
        CompressionMethod::Quantize { bits } => {
            let low = c.metadata.min_value;
            let high = c.metadata.max_value;
            let range = choose|range: Single|
                #![trigger call_ensures(M::difference, (&m, high, low), range)]
                {
                    &&& call_ensures(M::difference, (&m, high, low), range)
                    &&& if is_narrow(range) {
                        c.data@ == seq![0u8]
                    } else {
                        holds_levels(m, s, low, range, bits, c.data@)
                    }
                };
            if !is_narrow(range) {
                let levels = choose|levels: Seq<u16>|
                    #![trigger level_bytes(levels, bits)]
                    are_levels(m, s, low, range, bits, levels) && c.data@ == level_bytes(
                        levels,
                        bits,
                    );
                assert(levels_in(c.data@, bits).len() == levels.len());
            }
        },
        CompressionMethod::DPCM { predictor_order } => {
            let n = predictor_order as int;
            let rest = choose|rest: Seq<Single>|
                #![trigger crate::samples::words(rest)]
                are_residuals(m, s, n, rest) && c.data@ == crate::samples::words(s.take(n)) + crate::samples::words(rest);
            assert(c.data@.take(4 * n) =~= crate::samples::words(s.take(n)));
            assert(c.data@.skip(4 * n) =~= crate::samples::words(rest));
            crate::samples::words_round_trip(s.take(n));
            crate::samples::words_round_trip(rest);
        },
    }
}

/// Whether the arithmetic gives the same result each time that it is given the
/// same numbers.
pub open spec fn is_repeatable<M: SampleMath>(m: M) -> bool {
    &&& forall|a: Single, b: Single, x: Single, y: Single|
        #![trigger call_ensures(M::sum, (&m, a, b), x), call_ensures(M::sum, (&m, a, b), y)]
        call_ensures(M::sum, (&m, a, b), x) && call_ensures(M::sum, (&m, a, b), y) ==> x == y
    &&& forall|a: Single, b: Single, x: Single, y: Single|
        #![trigger call_ensures(M::difference, (&m, a, b), x), call_ensures(M::difference, (&m, a, b), y)]
        call_ensures(M::difference, (&m, a, b), x) && call_ensures(M::difference, (&m, a, b), y)
            ==> x == y
    &&& forall|a: Single, b: Single, x: Single, y: Single|
        #![trigger call_ensures(M::quotient, (&m, a, b), x), call_ensures(M::quotient, (&m, a, b), y)]
        call_ensures(M::quotient, (&m, a, b), x) && call_ensures(M::quotient, (&m, a, b), y) ==> x
            == y
    &&& forall|a: Single, n: usize, x: Single, y: Single|
        #![trigger call_ensures(M::over, (&m, a, n), x), call_ensures(M::over, (&m, a, n), y)]
        call_ensures(M::over, (&m, a, n), x) && call_ensures(M::over, (&m, a, n), y) ==> x == y
    &&& forall|a: Single, n: u32, x: u16, y: u16|
        #![trigger call_ensures(M::nearest, (&m, a, n), x), call_ensures(M::nearest, (&m, a, n), y)]
        call_ensures(M::nearest, (&m, a, n), x) && call_ensures(M::nearest, (&m, a, n), y) ==> x
            == y
}

proof fn totals_agree<M: SampleMath>(
    m: M,
    zero: Single,
    terms: Seq<Single>,
    a: Seq<Single>,
    b: Seq<Single>,
    n: int,
)
    requires
        is_repeatable(m),
        crate::arith::adds_up(&m, zero, terms, a),
        crate::arith::adds_up(&m, zero, terms, b),
        0 <= n <= terms.len(),
    ensures
        a[n] == b[n],
    decreases n,
{
    if n > 0 {
        totals_agree(m, zero, terms, a, b, n - 1);
        let t = terms[n - 1];
        assert(call_ensures(M::sum, (&m, a[n - 1], t), a[n]));
        assert(call_ensures(M::sum, (&m, b[n - 1], t), b[n]));
    }
}

proof fn predictions_agree<M: SampleMath>(m: M, history: Seq<Single>, p: Single, q: Single)
    requires
        is_repeatable(m),
        is_predicted(m, history, p),
        is_predicted(m, history, q),
    ensures
        p == q,
{
    if history.len() > 0 {
        let zero = Single { bits: MINUS_ZERO_BITS };
        let n = history.len() as usize;
        let x = choose|x: Single| #[trigger]
            crate::arith::is_total(&m, zero, history, x) && call_ensures(M::over, (&m, x, n), p);
        let y = choose|y: Single| #[trigger]
            crate::arith::is_total(&m, zero, history, y) && call_ensures(M::over, (&m, y, n), q);
        let a = choose|a: Seq<Single>| #[trigger]
            crate::arith::adds_up(&m, zero, history, a) && x == a.last();
        let b = choose|b: Seq<Single>| #[trigger]
            crate::arith::adds_up(&m, zero, history, b) && y == b.last();
        totals_agree(m, zero, history, a, b, history.len() as int);
    }
}

proof fn levels_agree<M: SampleMath>(
    m: M,
    x: Single,
    low: Single,
    range: Single,
    levels: u32,
    a: u16,
    b: u16,
)
    requires
        is_repeatable(m),
        is_level(m, x, low, range, levels, a),
        is_level(m, x, low, range, levels, b),
    ensures
        a == b,
{
}

/// Compressing a signal twice by one method comes to the same bytes, where the
/// arithmetic gives the same result each time.
pub proof fn compression_repeats<M: SampleMath>(
    m: M,
    method: CompressionMethod,
    s: Seq<Single>,
    a: CompressedSignal,
    b: CompressedSignal,
)
    requires
        is_repeatable(m),
        is_compressed(m, method, s, a),
        is_compressed(m, method, s, b),
    ensures
        a.data@ == b.data@,
{
    crate::samples::extremes_are_unique(s, a.metadata.min_value, b.metadata.min_value);
    crate::samples::extremes_are_unique(s, a.metadata.max_value, b.metadata.max_value);
    let low = a.metadata.min_value;
    let high = a.metadata.max_value;
    match method {
        CompressionMethod::Uncompressed => {},
        CompressionMethod::RLE => {},
        CompressionMethod::Delta => {
            let d = choose|d: Seq<Single>|
                #![trigger crate::samples::words(d)]
                are_deltas(m, s, d) && a.data@ == crate::samples::words(d);
            let e = choose|e: Seq<Single>|
                #![trigger crate::samples::words(e)]
                are_deltas(m, s, e) && b.data@ == crate::samples::words(e);
            assert(d =~= e);
        },
        CompressionMethod::DeltaRLE => {
            let d = choose|d: Seq<Single>|
                #![trigger runs(d)]
                are_deltas(m, s, d) && a.data@ == runs(d);
            let e = choose|e: Seq<Single>|
                #![trigger runs(e)]
                are_deltas(m, s, e) && b.data@ == runs(e);
            assert(d =~= e);
        },
        CompressionMethod::Quantize { bits } => {
            let x = choose|range: Single|
                #![trigger call_ensures(M::difference, (&m, high, low), range)]
                {
                    &&& call_ensures(M::difference, (&m, high, low), range)
                    &&& if is_narrow(range) {
                        a.data@ == seq![0u8]
                    } else {
                        holds_levels(m, s, low, range, bits, a.data@)
                    }
                };
            let y = choose|range: Single|
                #![trigger call_ensures(M::difference, (&m, high, low), range)]
                {
                    &&& call_ensures(M::difference, (&m, high, low), range)
                    &&& if is_narrow(range) {
                        b.data@ == seq![0u8]
                    } else {
                        holds_levels(m, s, low, range, bits, b.data@)
                    }
                };
            assert(x == y);
            if !is_narrow(x) {
                let d = choose|levels: Seq<u16>|
                    #![trigger level_bytes(levels, bits)]
                    are_levels(m, s, low, x, bits, levels) && a.data@ == level_bytes(levels, bits);
                let e = choose|levels: Seq<u16>|
                    #![trigger level_bytes(levels, bits)]
                    are_levels(m, s, low, x, bits, levels) && b.data@ == level_bytes(levels, bits);
                assert forall|i: int| 0 <= i < s.len() implies d[i] == e[i] by {
                    levels_agree(m, s[i], low, x, level_count(bits) as u32, d[i], e[i]);
                }
                assert(d =~= e);
            }
        },
        CompressionMethod::DPCM { predictor_order } => {
            let n = predictor_order as int;
            let d = choose|rest: Seq<Single>|
                #![trigger crate::samples::words(rest)]
                are_residuals(m, s, n, rest) && a.data@ == crate::samples::words(s.take(n))
                    + crate::samples::words(rest);
            let e = choose|rest: Seq<Single>|
                #![trigger crate::samples::words(rest)]
                are_residuals(m, s, n, rest) && b.data@ == crate::samples::words(s.take(n))
                    + crate::samples::words(rest);
            assert forall|j: int| 0 <= j < d.len() implies d[j] == e[j] by {
                let history = s.subrange(j, j + n);
                let p = choose|p: Single| #[trigger]
                    is_predicted(m, history, p) && call_ensures(
                        M::difference,
                        (&m, s[n + j], p),
                        d[j],
                    );
                let q = choose|q: Single| #[trigger]
                    is_predicted(m, history, q) && call_ensures(
                        M::difference,
                        (&m, s[n + j], q),
                        e[j],
                    );
                assert(is_residual(m, history, s[n + j], d[j]));
                assert(is_residual(m, history, s[n + j], e[j]));
                predictions_agree(m, history, p, q);
            }
            assert(d =~= e);
        },
    }
}

/// No method comes to fewer bytes than the one that is chosen: where the
/// arithmetic gives the same result each time, whatever a method that is tried
/// makes of the signal has at least as many bytes, and the chosen method makes
/// the very bytes of it.
pub proof fn chosen_method_is_smallest<M: SampleMath>(
    m: M,
    methods: Seq<CompressionMethod>,
    s: Seq<Single>,
    sizes: Seq<Option<nat>>,
    best: int,
    c: CompressedSignal,
    i: int,
    x: CompressedSignal,
)
    requires
        is_repeatable(m),
        are_sizes(m, methods, s, sizes),
        is_first_smallest(sizes, best),
        is_compressed(m, methods[best], s, c),
        sizes[best] == Some(c.data@.len()),
        0 <= i < methods.len(),
        is_outcome(m, methods[i], s, Ok::<CompressedSignal, IoError>(x)),
    ensures
        c.data@.len() <= x.data@.len(),
        methods[i] == c.method ==> c.data@ == x.data@,
{
    assert(comes_to(m, methods[i], s, sizes[i]));
    let r = choose|r: IoResult<CompressedSignal>| #[trigger]
        is_outcome(m, methods[i], s, r) && sizes[i] == packed_size(r);
    assert(refusal(methods[i], s.len()) is None);
    compression_repeats(m, methods[i], s, r->Ok_0, x);
    if methods[i] == c.method {
        compression_repeats(m, methods[i], s, c, x);
    }
}

/// The index of the smallest size among those that are there; the first one
/// where several are equal.
pub open spec fn is_first_smallest(sizes: Seq<Option<nat>>, best: int) -> bool {
    &&& 0 <= best < sizes.len()
    &&& sizes[best] is Some
    &&& forall|i: int|
        0 <= i < sizes.len() && (#[trigger] sizes[i]) is Some ==> sizes[best]->0 <= sizes[i]->0
    &&& forall|i: int|
        0 <= i < best && (#[trigger] sizes[i]) is Some ==> sizes[best]->0 < sizes[i]->0
}

/// The number of bytes that a compressed signal has, if there is one.
pub open spec fn packed_size(r: IoResult<CompressedSignal>) -> Option<nat> {
    match r {
        Ok(c) => Some(c.data@.len()),
        Err(_) => None,
    }
}

/// Whether a method makes a signal into that many bytes, or into none.
pub open spec fn comes_to<M: SampleMath>(
    m: M,
    method: CompressionMethod,
    s: Seq<Single>,
    size: Option<nat>,
) -> bool {
    exists|r: IoResult<CompressedSignal>| #[trigger]
        is_outcome(m, method, s, r) && size == packed_size(r)
}

/// Whether `sizes` holds the sizes that the methods come to.
pub open spec fn are_sizes<M: SampleMath>(
    m: M,
    methods: Seq<CompressionMethod>,
    s: Seq<Single>,
    sizes: Seq<Option<nat>>,
) -> bool {
    &&& sizes.len() == methods.len()
    &&& forall|i: int|
        0 <= i < methods.len() ==> comes_to(m, methods[i], s, #[trigger] sizes[i])
}

/// Compresses by whichever method comes to the fewest bytes.
pub struct AdaptiveCompressor {
    methods: Vec<CompressionMethod>,
}

impl AdaptiveCompressor {
    /// The methods that are tried, in order.
    pub closed spec fn tries(&self) -> Seq<CompressionMethod> {
        self.methods@
    }

    /// A compressor that tries differences, runs of differences, eight-bit
    /// levels and a predictor over four samples.
    pub fn new() -> (r: Self)
        ensures
            r.tries() == seq![
                CompressionMethod::Delta,
                CompressionMethod::DeltaRLE,
                CompressionMethod::Quantize { bits: 8 },
                CompressionMethod::DPCM { predictor_order: 4 },
            ],
    {
        let methods: Vec<CompressionMethod> = vec![
            CompressionMethod::Delta,
            CompressionMethod::DeltaRLE,
            CompressionMethod::Quantize { bits: 8 },
            CompressionMethod::DPCM { predictor_order: 4 },
        ];
        assert(methods@ =~= seq![
            CompressionMethod::Delta,
            CompressionMethod::DeltaRLE,
            CompressionMethod::Quantize { bits: 8 },
            CompressionMethod::DPCM { predictor_order: 4 },
        ]);
        AdaptiveCompressor { methods }
    }

    /// Compresses a signal by the method that comes to the fewest bytes; the
    /// first one where several do.
    pub fn compress<M: SampleMath>(&self, m: &M, signal: &[Single]) -> (r: IoResult<
        CompressedSignal,
    >)
        ensures
            r is Ok <==> exists|i: int|
                0 <= i < self.tries().len() && refusal(
                    #[trigger] self.tries()[i],
                    signal@.len(),
                ) is None,
            match r {
                Ok(c) => exists|sizes: Seq<Option<nat>>, best: int|
                    {
                        &&& #[trigger] are_sizes(*m, self.tries(), signal@, sizes)
                        &&& #[trigger] is_first_smallest(sizes, best)
                        &&& is_compressed(*m, self.tries()[best], signal@, c)
                        &&& sizes[best] == Some(c.data@.len())
                    },
                Err(e) => e matches IoError::SignalError(t) && t@
                    == "All compression methods failed"@,
            },
    {
        let mut best: Option<CompressedSignal> = None;
        let ghost mut sizes: Seq<Option<nat>> = Seq::empty();
        let ghost mut at: int = 0;
        let mut i: usize = 0;
        while i < self.methods.len()
            invariant
                i <= self.methods@.len(),
                sizes.len() == i,
                forall|k: int|
                    0 <= k < i ==> comes_to(*m, self.methods@[k], signal@, #[trigger] sizes[k]),
                match best {
                    Some(c) => {
                        &&& is_first_smallest(sizes, at)
                        &&& is_compressed(*m, self.methods@[at], signal@, c)
                        &&& sizes[at] == Some(c.data@.len())
                        &&& refusal(self.methods@[at], signal@.len()) is None
                    },
                    None => forall|k: int| 0 <= k < i ==> (#[trigger] sizes[k]) is None,
                },
            decreases self.methods@.len() - i,
        {
            let compressor: SignalCompressor = SignalCompressor::new(self.methods[i]);
            let outcome: IoResult<CompressedSignal> = compressor.compress(m, signal);
            let ghost size: Option<nat> = packed_size(outcome);
            assert(is_outcome(*m, self.methods@[i as int], signal@, outcome));
            let ghost more = sizes.push(size);
            assert(comes_to(*m, self.methods@[i as int], signal@, size));
            if let Ok(compressed) = outcome {
                let better: bool = match &best {
                    Some(b) => compressed.data.len() < b.data.len(),
                    None => true,
                };
                if better {
                    best = Some(compressed);
                    proof {
                        at = i as int;
                    }
                }
            }
            proof {
                assert forall|k: int| 0 <= k < i implies sizes[k] == more[k] by {}
                sizes = more;
            }
            i += 1;
        }
        assert(are_sizes(*m, self.tries(), signal@, sizes));
        match best {
            Some(c) => {
                assert(is_first_smallest(sizes, at));
                assert(refusal(self.tries()[at], signal@.len()) is None);
                Ok(c)
            },
            None => {
                proof {
                    assert forall|k: int| 0 <= k < self.tries().len() implies refusal(
                        #[trigger] self.tries()[k],
                        signal@.len(),
                    ) is Some by {
                        assert(sizes[k] is None);
                    }
                }
                Err(IoError::SignalError("All compression methods failed".to_owned()))
            },
        }
    }

    /// Decompresses a signal by the method that it was compressed with.
    pub fn decompress<M: SampleMath>(&self, m: &M, compressed: &CompressedSignal) -> (r: IoResult<
        Vec<Single>,
    >)
        requires
            is_unpackable(*compressed),
        ensures
            r is Ok,
            is_unpacked(*m, *compressed, r->Ok_0@),
    {
        let compressor: SignalCompressor = SignalCompressor::new(compressed.method);
        compressor.decompress(m, compressed)
    }
}

impl Default for AdaptiveCompressor {
    fn default() -> (r: Self)
        ensures
            r.tries() == seq![
                CompressionMethod::Delta,
                CompressionMethod::DeltaRLE,
                CompressionMethod::Quantize { bits: 8 },
                CompressionMethod::DPCM { predictor_order: 4 },
            ],
    {
        Self::new()
    }
}

} // verus!
