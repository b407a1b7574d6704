//! Compression of hidden states.

use crate::arith::Arithmetic;
use crate::error::{InferenceError, InferenceResult};
use crate::inference::state::HiddenState;
use crate::matrix::laid_out;
use crate::number::{RatioMath, Single};
use crate::samples::{get_words, highest, lowest, put_words};
use vstd::prelude::*;

verus! {

/// The arithmetic on values that quantization needs. The library states
/// which operation is applied to which values, and nothing about what the
/// operations return.
pub trait LatticeMath: Arithmetic<Single> {
    /// A number rounded to a whole one.
    fn round(&self, x: Single) -> Single;

    /// A whole number, as far as 32 bits hold it.
    fn to_int(&self, x: Single) -> i32;

    /// A whole number between 0 and 255.
    fn to_byte(&self, x: Single) -> u8;

    /// A whole number as a number.
    fn of_int(&self, x: i32) -> Single;

    /// A byte as a number.
    fn of_byte(&self, x: u8) -> Single;
}

/// Whether `r` can be the distance between neighbouring levels, of which `top`
/// is the highest.
pub open spec fn is_step<M: LatticeMath>(
    m: M,
    low: Single,
    high: Single,
    top: u8,
    r: Single,
) -> bool {
    exists|range: Single, count: Single|
        {
            &&& #[trigger] call_ensures(M::difference, (&m, high, low), range)
            &&& #[trigger] call_ensures(M::of_byte, (&m, top), count)
            &&& call_ensures(M::quotient, (&m, range, count), r)
        }
}

fn step_between<M: LatticeMath>(m: &M, low: Single, high: Single, top: u8) -> (r: Single)
    ensures
        is_step(*m, low, high, top, r),
{
    let range: Single = m.difference(high, low);
    assert(call_ensures(M::difference, (m, high, low), range));
    let count: Single = m.of_byte(top);
    assert(call_ensures(M::of_byte, (m, top), count));
    m.quotient(range, count)
}

/// Whether `r` can be the level at which zero stands: as many steps as it is
/// above the lowest value, rounded.
pub open spec fn is_zero_point<M: LatticeMath>(m: M, low: Single, step: Single, r: i32) -> bool {
    exists|steps: Single, whole: Single|
        {
            &&& #[trigger] call_ensures(M::quotient, (&m, low.negated(), step), steps)
            &&& #[trigger] call_ensures(M::round, (&m, steps), whole)
            &&& call_ensures(M::to_int, (&m, whole), r)
        }
}

fn zero_point_of<M: LatticeMath>(m: &M, low: Single, step: Single) -> (r: i32)
    ensures
        is_zero_point(*m, low, step, r),
{
    let steps: Single = m.quotient(low.neg(), step);
    assert(call_ensures(M::quotient, (m, low.negated(), step), steps));
    let whole: Single = m.round(steps);
    assert(call_ensures(M::round, (m, steps), whole));
    m.to_int(whole)
}

/// Whether `r` can be the nearest level of a value: its steps from the level of
/// zero, rounded, between 0 and `top`.
pub open spec fn is_level<M: LatticeMath>(
    m: M,
    value: Single,
    step: Single,
    zero_point: i32,
    top: u8,
    r: u8,
) -> bool {
    exists|steps: Single, zero: Single, place: Single, whole: Single, most: Single|
        {
            &&& #[trigger] call_ensures(M::quotient, (&m, value, step), steps)
            &&& #[trigger] call_ensures(M::of_int, (&m, zero_point), zero)
            &&& #[trigger] call_ensures(M::sum, (&m, steps, zero), place)
            &&& #[trigger] call_ensures(M::round, (&m, place), whole)
            &&& #[trigger] call_ensures(M::of_byte, (&m, top), most)
            &&& call_ensures(M::to_byte, (&m, whole.clamped(Single { bits: 0 }, most)), r)
        }
}

fn level_of<M: LatticeMath>(m: &M, value: Single, step: Single, zero_point: i32, top: u8) -> (r: u8)
    ensures
        is_level(*m, value, step, zero_point, top, r),
{
    let steps: Single = m.quotient(value, step);
    assert(call_ensures(M::quotient, (m, value, step), steps));
    let zero: Single = m.of_int(zero_point);
    assert(call_ensures(M::of_int, (m, zero_point), zero));
    let place: Single = m.sum(steps, zero);
    assert(call_ensures(M::sum, (m, steps, zero), place));
    let whole: Single = m.round(place);
    assert(call_ensures(M::round, (m, place), whole));
    let most: Single = m.of_byte(top);
    assert(call_ensures(M::of_byte, (m, top), most));
    let held: Single = whole.clamp(Single::zero(), most);
    assert(held == whole.clamped(Single { bits: 0 }, most));
    m.to_byte(held)
}

/// Whether `r` can be the value of a level: its distance from that of zero, in
/// steps.
pub open spec fn is_value<M: LatticeMath>(
    m: M,
    level: u8,
    step: Single,
    zero_point: i32,
    r: Single,
) -> bool {
    exists|place: Single, zero: Single, steps: Single|
        {
            &&& #[trigger] call_ensures(M::of_byte, (&m, level), place)
            &&& #[trigger] call_ensures(M::of_int, (&m, zero_point), zero)
            &&& #[trigger] call_ensures(M::difference, (&m, place, zero), steps)
            &&& call_ensures(M::product, (&m, steps, step), r)
        }
}

fn value_of<M: LatticeMath>(m: &M, level: u8, step: Single, zero_point: i32) -> (r: Single)
    ensures
        is_value(*m, level, step, zero_point, r),
{
    let place: Single = m.of_byte(level);
    assert(call_ensures(M::of_byte, (m, level), place));
    let zero: Single = m.of_int(zero_point);
    assert(call_ensures(M::of_int, (m, zero_point), zero));
    let steps: Single = m.difference(place, zero);
    assert(call_ensures(M::difference, (m, place, zero), steps));
    m.product(steps, step)
}

/// How a hidden state is compressed.
#[derive(Debug, Clone, Copy, PartialEq, Eq, Structural)]
pub enum CompressionMethod {
    /// No compression.
    Uncompressed,
    /// Levels of eight bits.
    Quantize8Bit,
    /// Levels of four bits, two to a byte.
    Quantize4Bit,
    /// Only the values above a threshold.
    Sparse,
    /// Levels of eight bits for the values above a threshold.
    QuantizedSparse,
}

/// A compressed hidden state.
#[derive(Debug)]
pub struct CompressedState {
    /// The method that was used.
    pub method: CompressionMethod,
    /// The bytes.
    pub data: Vec<u8>,
    /// The shape of the table.
    pub shape: Vec<usize>,
    /// The distance between neighbouring levels.
    pub scale: Single,
    /// The level at which zero stands.
    pub zero_point: i32,
    /// The places of the values that were kept.
    pub sparse_indices: Option<Vec<usize>>,
}

/// The bit pattern of 1.0.
pub const ONE_BITS: u32 = 0x3f80_0000;

/// The bit pattern of 1e-4, the default threshold.
pub const DEFAULT_THRESHOLD_BITS: u32 = 0x38d1_b717;

/// The number of places in a table of a shape.
pub open spec fn places(shape: Seq<usize>) -> nat
    decreases shape.len(),
{
    if shape.len() == 0 {
        1
    } else {
        places(shape.drop_last()) * (shape.last() as nat)
    }
}

/// Whether a value is kept by a threshold: its magnitude is above it.
pub open spec fn is_kept(value: Single, threshold: Single) -> bool {
    threshold.below(value.absolute())
}

/// The places, from `from` on, of the values that a threshold keeps.
pub open spec fn kept_from(s: Seq<Single>, threshold: Single, from: nat) -> Seq<usize>
    decreases s.len() - from,
{
    if from >= s.len() {
        Seq::empty()
    } else if is_kept(s[from as int], threshold) {
        seq![from as usize] + kept_from(s, threshold, from + 1)
    } else {
        kept_from(s, threshold, from + 1)
    }
}

/// The places of the values that a threshold keeps, in order.
pub open spec fn kept(s: Seq<Single>, threshold: Single) -> Seq<usize> {
    kept_from(s, threshold, 0)
}

/// The values at the given places.
pub open spec fn values_at(s: Seq<Single>, at: Seq<usize>) -> Seq<Single> {
    Seq::new(at.len(), |i: int| s[at[i] as int])
}

/// Zeros with the first `k` of the given values at the given places; a later
/// value at a place stands over an earlier one, and places outside are passed
/// over.
pub open spec fn scatter_first(n: nat, at: Seq<usize>, values: Seq<Single>, k: int) -> Seq<Single>
    decreases k,
{
    if k <= 0 {
        Seq::new(n, |i: int| Single { bits: 0 })
    } else {
        let before = scatter_first(n, at, values, k - 1);
        if at[k - 1] < n {
            before.update(at[k - 1] as int, values[k - 1])
        } else {
            before
        }
    }
}

/// Zeros with the given values at the given places.
pub open spec fn scatter(n: nat, at: Seq<usize>, values: Seq<Single>) -> Seq<Single> {
    scatter_first(
        n,
        at,
        values,
        if at.len() < values.len() {
            at.len() as int
        } else {
            values.len() as int
        },
    )
}

/// Whether `levels` holds the levels of the values.
pub open spec fn are_levels<M: LatticeMath>(
    m: M,
    s: Seq<Single>,
    step: Single,
    zero_point: i32,
    top: u8,
    levels: Seq<u8>,
) -> bool {
    &&& levels.len() == s.len()
    &&& forall|i: int|
        0 <= i < s.len() ==> is_level(m, s[i], step, zero_point, top, #[trigger] levels[i])
}

/// Whether `s` holds the values of the levels.
pub open spec fn are_values<M: LatticeMath>(
    m: M,
    levels: Seq<u8>,
    step: Single,
    zero_point: i32,
    s: Seq<Single>,
) -> bool {
    &&& s.len() == levels.len()
    &&& forall|i: int|
        0 <= i < s.len() ==> is_value(m, levels[i], step, zero_point, #[trigger] s[i])
}

/// Two four-bit levels to a byte, the first one in the high half; a last one
/// without a partner goes with zero.
pub open spec fn nibbles(levels: Seq<u8>) -> Seq<u8> {
    Seq::new(
        (levels.len() + 1) / 2,
        |i: int|
            (16 * (levels[2 * i] % 16) + if 2 * i + 1 < levels.len() {
                (levels[2 * i + 1] % 16) as int
            } else {
                0
            }) as u8,
    )
}

/// The four-bit levels in a byte string: both halves of every byte, but only
/// the high half where `n` levels are reached.
pub open spec fn levels_of(data: Seq<u8>, n: nat) -> Seq<u8>
    decreases data.len(),
{
    if data.len() == 0 {
        Seq::empty()
    } else {
        let before = levels_of(data.drop_last(), n).push(data.last() / 16);
        if before.len() < n {
            before.push(data.last() % 16)
        } else {
            before
        }
    }
}

proof fn levels_of_len(data: Seq<u8>, n: nat)
    ensures
        2 * data.len() <= n ==> levels_of(data, n).len() == 2 * data.len(),
        2 * data.len() == n + 1 ==> levels_of(data, n).len() == n,
    decreases data.len(),
{
    if data.len() > 0 {
        levels_of_len(data.drop_last(), n);
    }
}

/// Four-bit levels are read back unchanged.
pub proof fn nibbles_round_trip(levels: Seq<u8>)
    requires
        forall|i: int| 0 <= i < levels.len() ==> #[trigger] levels[i] < 16,
    ensures
        levels_of(nibbles(levels), levels.len()) == levels,
{
    nibbles_prefix(levels, nibbles(levels).len() as int);
    let data = nibbles(levels);
    assert(data.take(data.len() as int) =~= data);
    assert(levels.take(levels.len() as int) =~= levels);
}

proof fn nibbles_prefix(levels: Seq<u8>, k: int)
    requires
        forall|i: int| 0 <= i < levels.len() ==> #[trigger] levels[i] < 16,
        0 <= k <= nibbles(levels).len(),
    ensures
        levels_of(nibbles(levels).take(k), levels.len()) == levels.take(
            if 2 * k <= levels.len() {
                2 * k
            } else {
                levels.len() as int
            },
        ),
    decreases k,
{
    let data = nibbles(levels);
    if k > 0 {
        nibbles_prefix(levels, k - 1);
        assert(data.take(k).drop_last() =~= data.take(k - 1));
        let b = data.take(k).last();
        assert(b == data[k - 1]);
        let high = levels[2 * (k - 1)];
        assert(high < 16);
        if 2 * k - 1 < levels.len() {
            let low = levels[2 * k - 1];
            assert(low < 16);
            assert(b == 16 * high + low);
            assert(b / 16 == high && b % 16 == low);
        } else {
            assert(b == 16 * high);
            assert(b / 16 == high);
        }
        let end = if 2 * k <= levels.len() {
            2 * k
        } else {
            levels.len() as int
        };
        assert(levels_of(data.take(k), levels.len()) =~= levels.take(end));
    } else {
        assert(levels_of(data.take(0), levels.len()) =~= levels.take(0));
    }
}

/// Whether `data` holds the four-bit levels of the values.
pub open spec fn is_nibbled<M: LatticeMath>(
    m: M,
    s: Seq<Single>,
    step: Single,
    zero_point: i32,
    data: Seq<u8>,
) -> bool {
    exists|levels: Seq<u8>|
        #![trigger nibbles(levels)]
        are_levels(m, s, step, zero_point, 15, levels) && data == nibbles(levels)
}

/// Whether a lattice of levels up to `top` is laid over the values.
pub open spec fn is_lattice<M: LatticeMath>(
    m: M,
    s: Seq<Single>,
    top: u8,
    step: Single,
    zero_point: i32,
) -> bool {
    exists|low: Single, high: Single|
        {
            &&& #[trigger] crate::samples::is_lowest(s, low)
            &&& #[trigger] crate::samples::is_highest(s, high)
            &&& is_step(m, low, high, top, step)
            &&& is_zero_point(m, low, step, zero_point)
        }
}

/// Whether `c` is what a compressor makes of a table.
pub open spec fn is_compressed<M: LatticeMath>(
    m: M,
    method: CompressionMethod,
    threshold: Single,
    state: HiddenState,
    c: CompressedState,
) -> bool {
    let s = state.values@;
    &&& c.method == method
    &&& c.shape@ == seq![state.rows, state.cols]
    &&& match method {
        CompressionMethod::Uncompressed => {
            &&& c.data@ == crate::samples::words(s)
            &&& c.scale.bits == ONE_BITS
            &&& c.zero_point == 0
            &&& c.sparse_indices is None
        },
        CompressionMethod::Quantize8Bit => {
            &&& is_lattice(m, s, 255, c.scale, c.zero_point)
            &&& are_levels(m, s, c.scale, c.zero_point, 255, c.data@)
            &&& c.sparse_indices is None
        },
        CompressionMethod::Quantize4Bit => {
            &&& is_lattice(m, s, 15, c.scale, c.zero_point)
            &&& is_nibbled(m, s, c.scale, c.zero_point, c.data@)
            &&& c.sparse_indices is None
        },
        CompressionMethod::Sparse => {
            &&& c.data@ == crate::samples::words(values_at(s, kept(s, threshold)))
            &&& c.scale.bits == ONE_BITS
            &&& c.zero_point == 0
            &&& c.sparse_indices is Some
            &&& c.sparse_indices->0@ == kept(s, threshold)
        },
        CompressionMethod::QuantizedSparse => {
            let values = values_at(s, kept(s, threshold));
            &&& c.sparse_indices is Some
            &&& c.sparse_indices->0@ == kept(s, threshold)
            &&& if values.len() == 0 {
                c.data@.len() == 0 && c.scale.bits == ONE_BITS && c.zero_point == 0
            } else {
                &&& is_lattice(m, values, 255, c.scale, c.zero_point)
                &&& are_levels(m, values, c.scale, c.zero_point, 255, c.data@)
            }
        },
    }
}

/// Whether the shape of a compressed state is a shape of tables that fit in
/// memory.
pub open spec fn has_shape(c: CompressedState) -> bool {
    &&& c.shape@.len() >= 2
    &&& forall|i: int|
        0 <= i <= c.shape@.len() ==> places(#[trigger] c.shape@.take(i)) <= usize::MAX
}

/// Whether the places of the table are counted before its values are laid out.
pub open spec fn counts_places(c: CompressedState) -> bool {
    c.method is Quantize4Bit || (needs_indices(c.method) && c.sparse_indices is Some)
}

/// Whether `s` holds the values that a compressed state stands for, before
/// they are laid out as a table.
pub open spec fn is_expanded<M: LatticeMath>(m: M, c: CompressedState, s: Seq<Single>) -> bool {
    let n = places(c.shape@);
    match c.method {
        CompressionMethod::Uncompressed => s == crate::samples::samples_of(c.data@),
        CompressionMethod::Quantize8Bit => are_values(m, c.data@, c.scale, c.zero_point, s),
        CompressionMethod::Quantize4Bit => are_values(
            m,
            levels_of(c.data@, n),
            c.scale,
            c.zero_point,
            s,
        ),
        CompressionMethod::Sparse => s == scatter(
            n,
            c.sparse_indices->0@,
            crate::samples::samples_of(c.data@),
        ),
        CompressionMethod::QuantizedSparse => exists|values: Seq<Single>|
            {
                &&& are_values(m, c.data@, c.scale, c.zero_point, values)
                &&& s == #[trigger] scatter(n, c.sparse_indices->0@, values)
            },
    }
}

/// Whether a method stores the places of its values.
pub open spec fn needs_indices(method: CompressionMethod) -> bool {
    method is Sparse || method is QuantizedSparse
}

/// Compresses hidden states by one method.
#[derive(Debug, Clone, Copy)]
pub struct StateCompressor {
    method: CompressionMethod,
    sparsity_threshold: Single,
}

impl CompressedState {
    /// The size in bytes of the table, divided by that of what is stored. A
    /// place is stored in `word` bytes.
    pub fn compression_ratio<R: RatioMath>(&self, math: &R, word: usize) -> (r: Single)
        requires
            has_shape(*self),
            places(self.shape@) * 4 <= usize::MAX,
            self.stored_bytes(word as int) <= usize::MAX,
        ensures
            call_ensures(
                R::ratio,
                (
                    math,
                    (places(self.shape@) * 4) as usize,
                    self.stored_bytes(word as int) as usize,
                ),
                r,
            ),
    {
        let n: usize = self.place_count();
        let extra: usize = match &self.sparse_indices {
            Some(v) => v.len() * word,
            None => 0,
        };
        math.ratio(n * 4, self.data.len() + extra)
    }

    /// The size in bytes of what is stored.
    pub open spec fn stored_bytes(&self, word: int) -> int {
        self.data@.len() + (match self.sparse_indices {
            Some(v) => v@.len() * word,
            None => 0,
        })
    }

    fn place_count(&self) -> (n: usize)
        requires
            has_shape(*self),
        ensures
            n == places(self.shape@),
    {
        let mut n: usize = 1;
        let mut i: usize = 0;
        assert(self.shape@.take(0) =~= Seq::<usize>::empty());
        while i < self.shape.len()
            invariant
                i <= self.shape@.len(),
                has_shape(*self),
                n == places(self.shape@.take(i as int)),
            decreases self.shape@.len() - i,
        {
            assert(self.shape@.take(i + 1).drop_last() =~= self.shape@.take(i as int));
            assert(places(self.shape@.take(i + 1)) <= usize::MAX);
            n = n * self.shape[i];
            i += 1;
        }
        assert(self.shape@.take(i as int) =~= self.shape@);
        n
    }

    /// The method that was used.
    pub fn method(&self) -> (r: CompressionMethod)
        ensures
            r == self.method,
    {
        self.method
    }
}

fn select(s: &[Single], threshold: Single) -> (r: (Vec<Single>, Vec<usize>))
    ensures
        r.1@ == kept(s@, threshold),
        r.0@ == values_at(s@, kept(s@, threshold)),
{
    let mut values: Vec<Single> = Vec::new();
    let mut indices: Vec<usize> = Vec::new();
    let mut i: usize = 0;
    assert(indices@ + kept_from(s@, threshold, 0) =~= kept(s@, threshold));
    while i < s.len()
        invariant
            i <= s.len(),
            indices@ + kept_from(s@, threshold, i as nat) == kept(s@, threshold),
            values@ == values_at(s@, indices@),
        decreases s.len() - i,
    {
        let ghost before = indices@;
        let v: Single = s[i];
        if threshold.less(v.abs()) {
            values.push(v);
            indices.push(i);
            assert(values@ =~= values_at(s@, indices@));
            assert(indices@ + kept_from(s@, threshold, (i + 1) as nat) =~= before + kept_from(
                s@,
                threshold,
                i as nat,
            ));
        }
        i += 1;
    }
    assert(indices@ =~= kept(s@, threshold));
    (values, indices)
}

fn quantize<M: LatticeMath>(m: &M, s: &[Single], step: Single, zero_point: i32, top: u8) -> (r: Vec<
    u8,
>)
    ensures
        are_levels(*m, s@, step, zero_point, top, r@),
{
    let mut out: Vec<u8> = Vec::with_capacity(s.len());
    let mut i: usize = 0;
    while i < s.len()
        invariant
            i <= s.len(),
            out@.len() == i,
            forall|k: int|
                0 <= k < i ==> is_level(*m, s@[k], step, zero_point, top, #[trigger] out@[k]),
        decreases s.len() - i,
    {
        let level: u8 = level_of(m, s[i], step, zero_point, top);
        out.push(level);
        i += 1;
    }
    out
}

fn dequantize<M: LatticeMath>(m: &M, levels: &[u8], step: Single, zero_point: i32) -> (r: Vec<
    Single,
>)
    ensures
        are_values(*m, levels@, step, zero_point, r@),
{
    let mut out: Vec<Single> = Vec::with_capacity(levels.len());
    let mut i: usize = 0;
    while i < levels.len()
        invariant
            i <= levels.len(),
            out@.len() == i,
            forall|k: int|
                0 <= k < i ==> is_value(*m, levels@[k], step, zero_point, #[trigger] out@[k]),
        decreases levels.len() - i,
    {
        let value: Single = value_of(m, levels[i], step, zero_point);
        out.push(value);
        i += 1;
    }
    out
}

fn pack_nibbles(levels: &[u8]) -> (r: Vec<u8>)
    ensures
        r@ == nibbles(levels@),
{
    let mut out: Vec<u8> = Vec::new();
    let mut i: usize = 0;
    let n: usize = levels.len();
    while i < n
        invariant
            n == levels@.len(),
            i <= n,
            i % 2 == 0 || i == n,
            out@ == nibbles(levels@).take(((i + 1) / 2) as int),
        decreases n - i,
    {
        let high: u8 = levels[i] % 16;
        let low: u8 = if n - i > 1 {
            levels[i + 1] % 16
        } else {
            0
        };
        out.push(16 * high + low);
        let ghost k = (i / 2) as int;
        assert(out@ =~= nibbles(levels@).take(k + 1));
        i = if n - i > 1 {
            i + 2
        } else {
            n
        };
    }
    assert(out@ =~= nibbles(levels@));
    out
}

fn unpack_nibbles(data: &[u8], n: usize) -> (r: Vec<u8>)
    ensures
        r@ == levels_of(data@, n as nat),
{
    let mut out: Vec<u8> = Vec::new();
    let mut i: usize = 0;
    assert(data@.take(0) =~= Seq::<u8>::empty());
    while i < data.len()
        invariant
            i <= data.len(),
            out@ == levels_of(data@.take(i as int), n as nat),
        decreases data.len() - i,
    {
        assert(data@.take(i + 1).drop_last() =~= data@.take(i as int));
        let byte: u8 = data[i];
        out.push(byte / 16);
        if out.len() < n {
            out.push(byte % 16);
        }
        i += 1;
    }
    assert(data@.take(i as int) =~= data@);
    out
}

fn scattered(n: usize, at: &[usize], values: &[Single]) -> (r: Vec<Single>)
    ensures
        r@ == scatter(n as nat, at@, values@),
{
    let mut dense: Vec<Single> = Vec::new();
    let mut k: usize = 0;
    while k < n
        invariant
            k <= n,
            dense@ == Seq::new(k as nat, |i: int| Single { bits: 0 }),
        decreases n - k,
    {
        dense.push(Single::zero());
        k += 1;
        assert(dense@ =~= Seq::new(k as nat, |i: int| Single { bits: 0 }));
    }
    let count: usize = if at.len() < values.len() {
        at.len()
    } else {
        values.len()
    };
    let mut i: usize = 0;
    while i < count
        invariant
            i <= count,
            count <= at@.len(),
            count <= values@.len(),
            dense@.len() == n,
            dense@ == scatter_first(n as nat, at@, values@, i as int),
        decreases count - i,
    {
        let idx: usize = at[i];
        if idx < dense.len() {
            dense.set(idx, values[i]);
        }
        i += 1;
    }
    dense
}

impl StateCompressor {
    /// The method of the compressor.
    pub closed spec fn uses(&self) -> CompressionMethod {
        self.method
    }

    /// The threshold of the compressor.
    pub closed spec fn threshold(&self) -> Single {
        self.sparsity_threshold
    }

    /// A compressor for the given method, with the default threshold.
    pub fn new(method: CompressionMethod) -> (r: Self)
        ensures
            r.uses() == method,
            r.threshold().bits == DEFAULT_THRESHOLD_BITS,
    {
        StateCompressor { method, sparsity_threshold: Single::from_bits(DEFAULT_THRESHOLD_BITS) }
    }

    /// Sets the threshold below which values count as zero.
    pub fn with_sparsity_threshold(self, threshold: Single) -> (r: Self)
        ensures
            r.uses() == self.uses(),
            r.threshold() == threshold,
    {
        StateCompressor { sparsity_threshold: threshold, ..self }
    }

    /// Compresses a hidden state.
    pub fn compress<M: LatticeMath>(&self, m: &M, state: &HiddenState) -> (r: InferenceResult<
        CompressedState,
    >)
        ensures
            r is Ok,
            is_compressed(*m, self.uses(), self.threshold(), *state, r->Ok_0),
    {
        let s: &[Single] = state.values.as_slice();
        let shape: Vec<usize> = vec![state.rows, state.cols];
        assert(shape@ =~= seq![state.rows, state.cols]);
        match self.method {
            CompressionMethod::Uncompressed => {
                let mut data: Vec<u8> = Vec::new();
                put_words(&mut data, s);
                assert(data@ =~= crate::samples::words(s@));
                Ok(
                    CompressedState {
                        method: self.method,
                        data,
                        shape,
                        scale: Single::from_bits(ONE_BITS),
                        zero_point: 0,
                        sparse_indices: None,
                    },
                )
            },
            CompressionMethod::Quantize8Bit => {
                let low: Single = lowest(s);
                let high: Single = highest(s);
                let scale: Single = step_between(m, low, high, 255);
                let zero_point: i32 = zero_point_of(m, low, scale);
                let data: Vec<u8> = quantize(m, s, scale, zero_point, 255);
                Ok(
                    CompressedState {
                        method: self.method,
                        data,
                        shape,
                        scale,
                        zero_point,
                        sparse_indices: None,
                    },
                )
            },
            CompressionMethod::Quantize4Bit => {
                let low: Single = lowest(s);
                let high: Single = highest(s);
                let scale: Single = step_between(m, low, high, 15);
                let zero_point: i32 = zero_point_of(m, low, scale);
                let levels: Vec<u8> = quantize(m, s, scale, zero_point, 15);
                let data: Vec<u8> = pack_nibbles(levels.as_slice());
                assert(is_nibbled(*m, s@, scale, zero_point, data@));
                Ok(
                    CompressedState {
                        method: self.method,
                        data,
                        shape,
                        scale,
                        zero_point,
                        sparse_indices: None,
                    },
                )
            },
            CompressionMethod::Sparse => {
                let (values, indices) = select(s, self.sparsity_threshold);
                let mut data: Vec<u8> = Vec::new();
                put_words(&mut data, values.as_slice());
                assert(data@ =~= crate::samples::words(values@));
                Ok(
                    CompressedState {
                        method: self.method,
                        data,
                        shape,
                        scale: Single::from_bits(ONE_BITS),
                        zero_point: 0,
                        sparse_indices: Some(indices),
                    },
                )
            },
            CompressionMethod::QuantizedSparse => {
                let (values, indices) = select(s, self.sparsity_threshold);
                if values.len() == 0 {
                    return Ok(
                        CompressedState {
                            method: self.method,
                            data: Vec::new(),
                            shape,
                            scale: Single::from_bits(ONE_BITS),
                            zero_point: 0,
                            sparse_indices: Some(indices),
                        },
                    );
                }
                let low: Single = lowest(values.as_slice());
                let high: Single = highest(values.as_slice());
                let scale: Single = step_between(m, low, high, 255);
                let zero_point: i32 = zero_point_of(m, low, scale);
                let data: Vec<u8> = quantize(m, values.as_slice(), scale, zero_point, 255);
                Ok(
                    CompressedState {
                        method: self.method,
                        data,
                        shape,
                        scale,
                        zero_point,
                        sparse_indices: Some(indices),
                    },
                )
            },
        }
    }

    /// Decompresses a hidden state by the method that it was compressed
    /// with. It fails where the places of the values are missing, or where
    /// the values cannot be laid out as the table.
    pub fn decompress<M: LatticeMath>(&self, m: &M, compressed: &CompressedState) -> (r:
        InferenceResult<HiddenState>)
        requires
            compressed.shape@.len() >= 2,
            counts_places(*compressed) ==> has_shape(*compressed),
        ensures
            match r {
                Ok(state) => {
                    &&& needs_indices(compressed.method) ==> compressed.sparse_indices is Some
                    &&& state.wf()
                    &&& state.rows == compressed.shape@[0]
                    &&& state.cols == compressed.shape@[1]
                    &&& is_expanded(*m, *compressed, state.values@)
                    &&& crate::matrix::shape_fault(state.values@.len(), state.rows, state.cols) is None
                },
                Err(InferenceError::ForwardError(text)) => if needs_indices(compressed.method)
                    && compressed.sparse_indices is None {
                    text@ == "Missing sparse indices"@
                } else {
                    exists|s: Seq<Single>|
                        {
                            &&& #[trigger] is_expanded(*m, *compressed, s)
                            &&& crate::matrix::shape_fault(s.len(), compressed.shape@[0], compressed.shape@[1])
                                == Some(text@)
                        }
                },
                Err(_) => false,
            },
    {
        let data: &[u8] = compressed.data.as_slice();
        let values: Vec<Single> = match compressed.method {
            CompressionMethod::Uncompressed => get_words(data),
            CompressionMethod::Quantize8Bit => dequantize(
                m,
                data,
                compressed.scale,
                compressed.zero_point,
            ),
            CompressionMethod::Quantize4Bit => {
                let n: usize = compressed.place_count();
                let levels: Vec<u8> = unpack_nibbles(data, n);
                dequantize(m, levels.as_slice(), compressed.scale, compressed.zero_point)
            },
            CompressionMethod::Sparse => {
                let kept_values: Vec<Single> = get_words(data);
                match &compressed.sparse_indices {
                    Some(indices) => {
                        let n: usize = compressed.place_count();
                        scattered(n, indices.as_slice(), kept_values.as_slice())
                    },
                    None => {
                        return Err(
                            InferenceError::ForwardError("Missing sparse indices".to_owned()),
                        );
                    },
                }
            },
            CompressionMethod::QuantizedSparse => {
                match &compressed.sparse_indices {
                    Some(indices) => {
                        let kept_values: Vec<Single> = dequantize(
                            m,
                            data,
                            compressed.scale,
                            compressed.zero_point,
                        );
                        let n: usize = compressed.place_count();
                        scattered(n, indices.as_slice(), kept_values.as_slice())
                    },
                    None => {
                        return Err(
                            InferenceError::ForwardError("Missing sparse indices".to_owned()),
                        );
                    },
                }
            },
        };
        assert(is_expanded(*m, *compressed, values@));
        let ghost expanded = values@;
        let rows: usize = compressed.shape[0];
        let cols: usize = compressed.shape[1];
        match laid_out(rows, cols, values) {
            Ok(values) => Ok(HiddenState { rows, cols, values }),
            Err(cause) => {
                assert(is_expanded(*m, *compressed, expanded));
                Err(InferenceError::ForwardError(cause))
            },
        }
    }
}

proof fn kept_from_members(s: Seq<Single>, threshold: Single, from: nat)
    requires
        s.len() <= usize::MAX,
    ensures
        forall|i: usize|
            #[trigger] kept_from(s, threshold, from).contains(i) <==> from <= i < s.len()
                && is_kept(s[i as int], threshold),
        kept_from(s, threshold, from).len() <= s.len() - from || from > s.len(),
    decreases s.len() - from,
{
    let all = kept_from(s, threshold, from);
    if from < s.len() {
        kept_from_members(s, threshold, from + 1);
        let rest = kept_from(s, threshold, from + 1);
        if is_kept(s[from as int], threshold) {
            assert(all[0] == from);
            assert forall|i: usize| #[trigger] all.contains(i) <==> i == from || rest.contains(
                i,
            ) by {
                if rest.contains(i) {
                    let k = rest.index_of(i);
                    assert(all[k + 1] == i);
                }
                if all.contains(i) && i != from {
                    let k = all.index_of(i);
                    assert(rest[k - 1] == i);
                }
            }
        }
    }
}

proof fn scatter_picks(n: nat, s: Seq<Single>, at: Seq<usize>, k: int)
    requires
        s.len() == n,
        0 <= k <= at.len(),
    ensures
        scatter_first(n, at, values_at(s, at), k).len() == n,
        forall|i: int|
            0 <= i < n ==> #[trigger] scatter_first(n, at, values_at(s, at), k)[i] == if exists|
                j: int,
            | 0 <= j < k && #[trigger] at[j] == i {
                s[i]
            } else {
                Single { bits: 0 }
            },
    decreases k,
{
    if k > 0 {
        scatter_picks(n, s, at, k - 1);
        let before = scatter_first(n, at, values_at(s, at), k - 1);
        let after = scatter_first(n, at, values_at(s, at), k);
        assert forall|i: int| 0 <= i < n implies #[trigger] after[i] == if exists|j: int|
            0 <= j < k && #[trigger] at[j] == i {
            s[i]
        } else {
            Single { bits: 0 }
        } by {
            if at[k - 1] == i {
                assert(values_at(s, at)[k - 1] == s[i]);
            } else {
                assert(after[i] == before[i]);
            }
        }
    }
}

proof fn scatter_len(n: nat, at: Seq<usize>, values: Seq<Single>, k: int)
    ensures
        scatter_first(n, at, values, k).len() == n,
    decreases k,
{
    if k > 0 {
        scatter_len(n, at, values, k - 1);
    }
}

proof fn places_of_table(rows: usize, cols: usize)
    ensures
        places(seq![rows, cols]) == rows * cols,
        places(seq![rows, cols].take(0)) == 1,
        places(seq![rows, cols].take(1)) == rows,
        places(seq![rows, cols].take(2)) == rows * cols,
{
    let shape = seq![rows, cols];
    assert(shape.take(2) =~= shape);
    assert(shape.drop_last() =~= seq![rows]);
    assert(shape.take(1) =~= seq![rows]);
    assert(seq![rows].drop_last() =~= Seq::<usize>::empty());
    assert(shape.take(0) =~= Seq::<usize>::empty());
    assert(places(Seq::<usize>::empty()) == 1);
    assert(places(seq![rows]) == 1 * (rows as nat));
}

/// What a compressor makes of a table can be laid out again, and the table
/// keeps its shape: whatever the compressed state expands to fills it.
pub proof fn compressed_fills_the_table<M: LatticeMath>(
    m: M,
    method: CompressionMethod,
    threshold: Single,
    state: HiddenState,
    c: CompressedState,
    s: Seq<Single>,
)
    requires
        state.wf(),
        state.values@.len() <= usize::MAX,
        is_compressed(m, method, threshold, state, c),
    ensures
        has_shape(c),
        needs_indices(c.method) ==> c.sparse_indices is Some,
        is_expanded(m, c, s) ==> s.len() == state.rows * state.cols,
        is_expanded(m, c, s) && crate::matrix::countable(state.rows, state.cols) ==> crate::matrix::shape_fault(
            s.len(),
            c.shape@[0],
            c.shape@[1],
        ) is None,
        c.shape@[0] == state.rows,
        c.shape@[1] == state.cols,
{
    places_of_table(state.rows, state.cols);
    let shape = seq![state.rows, state.cols];
    assert forall|i: int| 0 <= i <= shape.len() implies places(#[trigger] shape.take(i))
        <= usize::MAX by {
        assert(i == 0 || i == 1 || i == 2);
    }
    let n = places(c.shape@);
    match c.method {
        CompressionMethod::Uncompressed => {
            crate::samples::words_round_trip(state.values@);
        },
        CompressionMethod::Quantize8Bit => {},
        CompressionMethod::Quantize4Bit => {
            levels_of_len(c.data@, n);
        },
        CompressionMethod::Sparse => {
            let values = crate::samples::samples_of(c.data@);
            let at = c.sparse_indices->0@;
            scatter_len(n, at, values, at.len() as int);
            scatter_len(n, at, values, values.len() as int);
        },
        CompressionMethod::QuantizedSparse => {
            let at = c.sparse_indices->0@;
            if is_expanded(m, c, s) {
                let values = choose|values: Seq<Single>|
                    are_values(m, c.data@, c.scale, c.zero_point, values) && s
                        == #[trigger] scatter(n, at, values);
                scatter_len(n, at, values, at.len() as int);
                scatter_len(n, at, values, values.len() as int);
            }
        },
    }
}

/// Without quantization nothing above the threshold is lost: an uncompressed
/// table comes back unchanged, and a sparse one with the values above the
/// threshold unchanged and zeros elsewhere.
pub proof fn lossless_round_trip<M: LatticeMath>(
    m: M,
    threshold: Single,
    state: HiddenState,
    c: CompressedState,
    s: Seq<Single>,
)
    requires
        state.wf(),
        state.values@.len() <= usize::MAX,
        c.method is Uncompressed || c.method is Sparse,
        is_compressed(m, c.method, threshold, state, c),
        is_expanded(m, c, s),
    ensures
        s.len() == state.values@.len(),
        c.method is Uncompressed ==> s == state.values@,
        c.method is Sparse ==> forall|i: int|
            0 <= i < s.len() ==> #[trigger] s[i] == if is_kept(state.values@[i], threshold) {
                state.values@[i]
            } else {
                Single { bits: 0 }
            },
{
    let all = state.values@;
    compressed_fills_the_table(m, c.method, threshold, state, c, s);
    places_of_table(state.rows, state.cols);
    if c.method is Uncompressed {
        crate::samples::words_round_trip(all);
    } else {
        let at = kept(all, threshold);
        crate::samples::words_round_trip(values_at(all, at));
        scatter_picks(all.len(), all, at, at.len() as int);
        kept_from_members(all, threshold, 0);
        assert forall|i: int| 0 <= i < s.len() implies #[trigger] s[i] == if is_kept(
            all[i],
            threshold,
        ) {
            all[i]
        } else {
            Single { bits: 0 }
        } by {
            let place = i as usize;
            assert(at.contains(place) <==> is_kept(all[i], threshold));
            if at.contains(place) {
                assert(at[at.index_of(place)] == i);
            }
        }
    }
}

} // verus!
