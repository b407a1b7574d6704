//! Signal streams and ring buffers.

use crate::arith::{dot, mean, root_mean_square, shifted, Arithmetic};
use crate::error::IoResult;
use crate::number::{RatioMath, Single, MINUS_ZERO_BITS};
use crate::time::Span;
use vstd::prelude::*;

verus! {

/// The bit pattern of 44100.0, the default sample rate in Hz.
pub const DEFAULT_SAMPLE_RATE_BITS: u32 = 0x472c_4400;

/// Configuration of a signal stream.
#[derive(Debug, Clone)]
pub struct StreamConfig {
    /// Sample rate in Hz.
    pub sample_rate: Single,
    /// Number of channels.
    pub channels: usize,
    /// Buffer size.
    pub buffer_size: usize,
    /// Read timeout.
    pub timeout: Option<Span>,
}

impl Default for StreamConfig {
    fn default() -> (r: Self)
        ensures
            r.sample_rate.bits == DEFAULT_SAMPLE_RATE_BITS,
            r.channels == 1,
            r.buffer_size == 1024,
            r.timeout == Some(Span { secs: 5, nanos: 0 }),
    {
        StreamConfig {
            sample_rate: Single::from_bits(DEFAULT_SAMPLE_RATE_BITS),
            channels: 1,
            buffer_size: 1024,
            timeout: Some(Span::from_secs(5)),
        }
    }
}

impl StreamConfig {
    /// The default configuration.
    pub fn new() -> (r: Self)
        ensures
            r.sample_rate.bits == DEFAULT_SAMPLE_RATE_BITS,
            r.channels == 1,
            r.buffer_size == 1024,
            r.timeout == Some(Span { secs: 5, nanos: 0 }),
    {
        Self::default()
    }

    /// Sets the sample rate.
    pub fn sample_rate(self, rate: Single) -> (r: Self)
        ensures
            r == (StreamConfig { sample_rate: rate, ..self }),
    {
        StreamConfig { sample_rate: rate, ..self }
    }

    /// Sets the number of channels.
    pub fn channels(self, n: usize) -> (r: Self)
        ensures
            r == (StreamConfig { channels: n, ..self }),
    {
        StreamConfig { channels: n, ..self }
    }

    /// Sets the buffer size.
    pub fn buffer_size(self, size: usize) -> (r: Self)
        ensures
            r == (StreamConfig { buffer_size: size, ..self }),
    {
        StreamConfig { buffer_size: size, ..self }
    }

    /// Sets the timeout.
    pub fn timeout(self, timeout: Span) -> (r: Self)
        ensures
            r == (StreamConfig { timeout: Some(timeout), ..self }),
    {
        StreamConfig { timeout: Some(timeout), ..self }
    }
}

/// A source of signal buffers.
pub trait SignalStream {
    /// Reads the next signal buffer.
    fn read(&mut self) -> IoResult<Vec<Single>>;

    /// Whether the stream is still active.
    fn is_active(&self) -> bool;

    /// The configuration of the stream.
    fn config(&self) -> &StreamConfig;

    /// Closes the stream.
    fn close(&mut self) -> IoResult<()>;
}

/// The first `n` samples of `s`, with zeros where `s` has fewer.
pub open spec fn padded(s: Seq<Single>, n: nat) -> Seq<Single> {
    Seq::new(
        n,
        |i: int|
            if i < s.len() {
                s[i]
            } else {
                Single { bits: 0 }
            },
    )
}

/// The first `n` samples of `samples`, with zeros where there are fewer.
pub fn pad_to(samples: &[Single], n: usize) -> (r: Vec<Single>)
    ensures
        r@ == padded(samples@, n as nat),
{
    let mut out: Vec<Single> = Vec::with_capacity(n);
    let mut i: usize = 0;
    while i < n
        invariant
            i <= n,
            out@ == padded(samples@, i as nat),
        decreases n - i,
    {
        if i < samples.len() {
            out.push(samples[i]);
        } else {
            out.push(Single::zero());
        }
        i += 1;
        assert(out@ =~= padded(samples@, i as nat));
    }
    out
}

/// A stream that reads from memory.
#[derive(Debug)]
pub struct MemoryStream {
    config: StreamConfig,
    data: Vec<Single>,
    position: usize,
    active: bool,
}

impl MemoryStream {
    /// The configuration of the stream.
    pub closed spec fn settings(&self) -> StreamConfig {
        self.config
    }

    /// The samples that are still to be read.
    pub closed spec fn rest(&self) -> Seq<Single> {
        if self.position <= self.data@.len() {
            self.data@.skip(self.position as int)
        } else {
            Seq::empty()
        }
    }

    /// Whether the stream has neither been closed nor been read past its end.
    pub closed spec fn open(&self) -> bool {
        self.active
    }

    /// A stream over the given samples.
    pub fn new(data: Vec<Single>, config: StreamConfig) -> (r: Self)
        ensures
            r.settings() == config,
            r.rest() == data@,
            r.open(),
    {
        let r: Self = MemoryStream { config, data, position: 0, active: true };
        assert(r.rest() =~= data@);
        r
    }

    /// A stream over a copy of the given samples.
    pub fn from_array(data: &[Single], config: StreamConfig) -> (r: Self)
        ensures
            r.settings() == config,
            r.rest() == data@,
            r.open(),
    {
        let mut copy: Vec<Single> = Vec::new();
        copy.extend_from_slice(data);
        assert(copy@ =~= data@);
        Self::new(copy, config)
    }
}

impl SignalStream for MemoryStream {
    /// Hands out the next `buffer_size` samples, padded with zeros at the
    /// end. Once nothing is left, every buffer is silent.
    fn read(&mut self) -> (r: IoResult<Vec<Single>>)
        ensures
            final(self).settings() == old(self).settings(),
            r is Ok,
            ({
                let n = old(self).settings().buffer_size as nat;
                let rest = old(self).rest();
                if old(self).open() && rest.len() > 0 {
                    &&& r->Ok_0@ == padded(rest, n)
                    &&& final(self).open()
                    &&& final(self).rest() == rest.skip(
                        if n <= rest.len() {
                            n as int
                        } else {
                            rest.len() as int
                        },
                    )
                } else {
                    &&& r->Ok_0@ == padded(Seq::empty(), n)
                    &&& !final(self).open()
                    &&& final(self).rest() == rest
                }
            }),
    {
        let size: usize = self.config.buffer_size;
        if !self.active || self.position >= self.data.len() {
            self.active = false;
            let none: Vec<Single> = Vec::new();
            let silence: Vec<Single> = pad_to(none.as_slice(), size);
            assert(silence@ =~= padded(Seq::empty(), size as nat));
            return Ok(silence);
        }
        let left: usize = self.data.len() - self.position;
        let taken: usize = if size < left {
            size
        } else {
            left
        };
        let (before, rest) = self.data.as_slice().split_at(self.position);
        let buffer: Vec<Single> = pad_to(rest, size);
        assert(rest@ =~= self.rest());
        self.position = self.position + taken;
        assert(self.rest() =~= old(self).rest().skip(taken as int));
        Ok(buffer)
    }

    fn is_active(&self) -> (r: bool)
        ensures
            r == (self.open() && self.rest().len() > 0),
    {
        self.active && self.position < self.data.len()
    }

    fn config(&self) -> (r: &StreamConfig)
        ensures
            *r == self.settings(),
    {
        &self.config
    }

    fn close(&mut self) -> (r: IoResult<()>)
        ensures
            r is Ok,
            !final(self).open(),
            final(self).settings() == old(self).settings(),
            final(self).rest() == old(self).rest(),
    {
        self.active = false;
        Ok(())
    }
}

/// What a channel stream hands out for a message from its channel: the
/// message cut or padded to the buffer size, or silence once it is closed.
#[derive(Debug)]
pub struct ChannelState {
    pub config: StreamConfig,
    pub active: bool,
}

impl ChannelState {
    /// A stream that has not been closed.
    pub fn new(config: StreamConfig) -> (r: Self)
        ensures
            r == (ChannelState { config, active: true }),
    {
        ChannelState { config, active: true }
    }

    /// The buffer for a message; `None` says that the channel has ended,
    /// which also ends the stream. A stream that has ended ignores messages.
    pub fn on_message(&mut self, message: Option<Vec<Single>>) -> (r: Vec<Single>)
        ensures
            final(self).config == old(self).config,
            final(self).active == (old(self).active && message is Some),
            r@ == padded(
                if old(self).active && message is Some {
                    message->0@
                } else {
                    Seq::empty()
                },
                old(self).config.buffer_size as nat,
            ),
    {
        let size: usize = self.config.buffer_size;
        if self.active {
            if let Some(data) = message {
                return pad_to(data.as_slice(), size);
            }
            self.active = false;
        }
        let none: Vec<Single> = Vec::new();
        let silence: Vec<Single> = pad_to(none.as_slice(), size);
        assert(silence@ =~= padded(Seq::empty(), size as nat));
        silence
    }
}

/// The last `n` items of `s`.
pub open spec fn keep_last<T>(s: Seq<T>, n: nat) -> Seq<T> {
    if s.len() <= n {
        s
    } else {
        s.skip(s.len() - n)
    }
}

/// Dropping old items early or late makes no difference.
pub proof fn keep_last_push<T>(s: Seq<T>, x: T, n: nat)
    ensures
        keep_last(keep_last(s, n).push(x), n) == keep_last(s.push(x), n),
{
    assert(keep_last(keep_last(s, n).push(x), n) =~= keep_last(s.push(x), n));
}

/// A buffer of fixed capacity that forgets its oldest item when a new one
/// comes and there is no room.
#[derive(Debug)]
pub struct RingBuffer<T> {
    data: Vec<T>,
    capacity: usize,
    read_pos: usize,
    write_pos: usize,
    len: usize,
}

/// The slot that lies `i` places after `start` in a ring of `capacity` slots.
pub open spec fn ring_slot(start: int, i: int, capacity: int) -> int {
    if start + i < capacity {
        start + i
    } else {
        start + i - capacity
    }
}

impl<T> RingBuffer<T> {
    /// The number of items that fit.
    pub closed spec fn room(&self) -> nat {
        self.capacity as nat
    }

    /// Whether the positions are consistent.
    pub closed spec fn wf(&self) -> bool {
        &&& self.capacity == self.data@.len()
        &&& self.capacity > 0
        &&& self.read_pos < self.capacity
        &&& self.len <= self.capacity
        &&& self.write_pos == ring_slot(
            self.read_pos as int,
            self.len as int,
            self.capacity as int,
        )
    }

    /// What every buffer keeps: at least one item fits, and no more are held
    /// than fit.
    pub proof fn bounded(&self)
        requires
            self.wf(),
        ensures
            1 <= self.room() <= usize::MAX,
            self@.len() <= self.room(),
    {
    }
}

impl<T> View for RingBuffer<T> {
    type V = Seq<T>;

    /// The items, oldest first.
    closed spec fn view(&self) -> Seq<T> {
        Seq::new(
            self.len as nat,
            |i: int| self.data@[ring_slot(self.read_pos as int, i, self.capacity as int)],
        )
    }
}

impl<T: Clone + Default> RingBuffer<T> {
    /// An empty buffer for `capacity` items, but for at least one.
    pub fn new(capacity: usize) -> (r: Self)
        ensures
            r.wf(),
            r.room() == if capacity == 0 {
                1
            } else {
                capacity as nat
            },
            r@ == Seq::<T>::empty(),
    {
        let capacity: usize = if capacity == 0 {
            1
        } else {
            capacity
        };
        let r: Self = RingBuffer {
            data: vec![T::default(); capacity],
            capacity,
            read_pos: 0,
            write_pos: 0,
            len: 0,
        };
        assert(r@ =~= Seq::<T>::empty());
        r
    }

    /// Adds an item; the oldest one makes room where there is none.
    pub fn push(&mut self, value: T)
        requires
            old(self).wf(),
        ensures
            final(self).wf(),
            final(self).room() == old(self).room(),
            final(self)@ == keep_last(old(self)@.push(value), old(self).room()),
    {
        let at: usize = self.write_pos;
        self.data[at] = value;
        self.write_pos = if at + 1 == self.capacity {
            0
        } else {
            at + 1
        };
        if self.len < self.capacity {
            self.len += 1;
        } else {
            self.read_pos = if self.read_pos + 1 == self.capacity {
                0
            } else {
                self.read_pos + 1
            };
        }
        assert(self@ =~= keep_last(old(self)@.push(value), old(self).room()));
    }

    /// Adds clones of the items, one after the other.
    pub fn push_slice(&mut self, values: &[T])
        requires
            old(self).wf(),
        ensures
            final(self).wf(),
            final(self).room() == old(self).room(),
            exists|clones: Seq<T>|
                #![trigger clones_of(values@, clones)]
                clones_of(values@, clones) && final(self)@ == keep_last(
                    old(self)@ + clones,
                    old(self).room(),
                ),
    {
        let mut i: usize = 0;
        let ghost mut clones: Seq<T> = Seq::empty();
        assert(old(self)@ + clones =~= old(self)@);
        while i < values.len()
            invariant
                i <= values.len(),
                self.wf(),
                self.room() == old(self).room(),
                clones_of(values@.take(i as int), clones),
                self@ == keep_last(old(self)@ + clones, old(self).room()),
            decreases values.len() - i,
        {
            let value: T = values[i].clone();
            let ghost copy = value;
            self.push(value);
            proof {
                keep_last_push(old(self)@ + clones, copy, old(self).room());
                assert((old(self)@ + clones).push(copy) =~= old(self)@ + clones.push(copy));
                clones = clones.push(copy);
            }
            i += 1;
        }
        assert(values@.take(i as int) =~= values@);
    }

    /// Takes the oldest item out, as a clone.
    pub fn pop(&mut self) -> (r: Option<T>)
        requires
            old(self).wf(),
        ensures
            final(self).wf(),
            final(self).room() == old(self).room(),
            match r {
                Some(v) => {
                    &&& old(self)@.len() > 0
                    &&& cloned(old(self)@[0], v)
                    &&& final(self)@ == old(self)@.drop_first()
                },
                None => old(self)@.len() == 0 && final(self)@ == old(self)@,
            },
    {
        if self.len == 0 {
            return None;
        }
        let value: T = self.data[self.read_pos].clone();
        self.read_pos = if self.read_pos + 1 == self.capacity {
            0
        } else {
            self.read_pos + 1
        };
        self.len -= 1;
        assert(self@ =~= old(self)@.drop_first());
        Some(value)
    }

    /// The oldest item.
    pub fn peek(&self) -> (r: Option<&T>)
        requires
            self.wf(),
        ensures
            match r {
                Some(v) => self@.len() > 0 && *v == self@[0],
                None => self@.len() == 0,
            },
    {
        if self.len == 0 {
            None
        } else {
            Some(&self.data[self.read_pos])
        }
    }

    /// The newest item.
    pub fn peek_back(&self) -> (r: Option<&T>)
        requires
            self.wf(),
        ensures
            match r {
                Some(v) => self@.len() > 0 && *v == self@.last(),
                None => self@.len() == 0,
            },
    {
        if self.len == 0 {
            None
        } else {
            let idx: usize = if self.write_pos == 0 {
                self.capacity - 1
            } else {
                self.write_pos - 1
            };
            Some(&self.data[idx])
        }
    }

    /// The item at an index, where 0 is the oldest.
    pub fn get(&self, index: usize) -> (r: Option<&T>)
        requires
            self.wf(),
        ensures
            match r {
                Some(v) => index < self@.len() && *v == self@[index as int],
                None => index >= self@.len(),
            },
    {
        if index >= self.len {
            return None;
        }
        let ahead: usize = self.capacity - self.read_pos;
        let idx: usize = if index < ahead {
            self.read_pos + index
        } else {
            index - ahead
        };
        Some(&self.data[idx])
    }

    /// The number of items.
    pub fn len(&self) -> (n: usize)
        ensures
            n == self@.len(),
    {
        self.len
    }

    /// Whether there are no items.
    pub fn is_empty(&self) -> (r: bool)
        ensures
            r == (self@.len() == 0),
    {
        self.len == 0
    }

    /// Whether there is no room left.
    pub fn is_full(&self) -> (r: bool)
        ensures
            r == (self@.len() == self.room()),
    {
        self.len == self.capacity
    }

    /// Forgets all items.
    pub fn clear(&mut self)
        requires
            old(self).wf(),
        ensures
            final(self).wf(),
            final(self).room() == old(self).room(),
            final(self)@ == Seq::<T>::empty(),
    {
        self.read_pos = 0;
        self.write_pos = 0;
        self.len = 0;
        assert(self@ =~= Seq::<T>::empty());
    }

    /// The number of items that fit.
    pub fn capacity(&self) -> (n: usize)
        ensures
            n == self.room(),
    {
        self.capacity
    }

    /// The number of items that can come before one is forgotten.
    pub fn available(&self) -> (n: usize)
        requires
            self.wf(),
        ensures
            n == self.room() - self@.len(),
    {
        self.capacity - self.len
    }

    /// Moves the oldest items into the front of `buffer`, as many as there
    /// are and fit, and says how many.
    pub fn read_into(&mut self, buffer: &mut [T]) -> (count: usize)
        requires
            old(self).wf(),
        ensures
            final(self).wf(),
            final(self).room() == old(self).room(),
            count == if old(buffer)@.len() < old(self)@.len() {
                old(buffer)@.len()
            } else {
                old(self)@.len()
            },
            final(self)@ == old(self)@.skip(count as int),
            final(buffer)@.len() == old(buffer)@.len(),
            forall|i: int|
                0 <= i < count ==> cloned(old(self)@[i], #[trigger] final(buffer)@[i]),
            forall|i: int|
                count <= i < final(buffer)@.len() ==> #[trigger] final(buffer)@[i]
                    == old(buffer)@[i],
    {
        let count: usize = if buffer.len() < self.len {
            buffer.len()
        } else {
            self.len
        };
        let mut i: usize = 0;
        assert(self@ =~= old(self)@.skip(0));
        while i < count
            invariant
                i <= count,
                count <= old(self)@.len(),
                count <= buffer@.len(),
                buffer@.len() == old(buffer)@.len(),
                self.wf(),
                self.room() == old(self).room(),
                self@ == old(self)@.skip(i as int),
                forall|k: int| 0 <= k < i ==> cloned(old(self)@[k], #[trigger] buffer@[k]),
                forall|k: int|
                    i <= k < buffer@.len() ==> #[trigger] buffer@[k] == old(buffer)@[k],
            decreases count - i,
        {
            if let Some(val) = self.pop() {
                buffer[i] = val;
            }
            assert(self@ =~= old(self)@.skip(i + 1));
            i += 1;
        }
        count
    }

    /// Clones of the items, oldest first.
    pub fn to_vec(&self) -> (r: Vec<T>)
        requires
            self.wf(),
        ensures
            clones_of(self@, r@),
    {
        let mut result: Vec<T> = Vec::with_capacity(self.len);
        let mut i: usize = 0;
        while i < self.len
            invariant
                i <= self.len,
                self.wf(),
                clones_of(self@.take(i as int), result@),
            decreases self.len - i,
        {
            let ahead: usize = self.capacity - self.read_pos;
            let idx: usize = if i < ahead {
                self.read_pos + i
            } else {
                i - ahead
            };
            result.push(self.data[idx].clone());
            i += 1;
        }
        assert(self@.take(i as int) =~= self@);
        result
    }

    /// Walks over the items, oldest first.
    pub fn iter(&self) -> (r: RingBufferIter<'_, T>)
        requires
            self.wf(),
        ensures
            r.wf(),
            r.rest() == self@,
    {
        let r = RingBufferIter { buffer: self, index: 0 };
        assert(r.rest() =~= self@);
        r
    }
}

/// Whether `b` holds clones of the items of `a`, in order.
pub open spec fn clones_of<T: Clone>(a: Seq<T>, b: Seq<T>) -> bool {
    &&& a.len() == b.len()
    &&& forall|i: int| 0 <= i < a.len() ==> cloned(a[i], #[trigger] b[i])
}

/// A walk over the items of a ring buffer, oldest first.
pub struct RingBufferIter<'a, T> {
    buffer: &'a RingBuffer<T>,
    index: usize,
}

impl<'a, T: Clone + Default> RingBufferIter<'a, T> {
    /// The items that are still to come.
    pub closed spec fn rest(&self) -> Seq<T> {
        self.buffer@.skip(self.index as int)
    }

    /// Whether the walk stands inside its buffer.
    pub closed spec fn wf(&self) -> bool {
        self.buffer.wf() && self.index <= self.buffer@.len()
    }

    /// The next item.
    pub fn next(&mut self) -> (r: Option<&'a T>)
        requires
            old(self).wf(),
        ensures
            final(self).wf(),
            match r {
                Some(v) => {
                    &&& old(self).rest().len() > 0
                    &&& *v == old(self).rest()[0]
                    &&& final(self).rest() == old(self).rest().drop_first()
                },
                None => old(self).rest().len() == 0 && final(self).rest() == old(self).rest(),
            },
    {
        if self.index >= self.buffer.len() {
            None
        } else {
            let result: Option<&'a T> = self.buffer.get(self.index);
            self.index += 1;
            assert(self.rest() =~= old(self).rest().drop_first());
            result
        }
    }

    /// The number of items that are still to come, as both bounds.
    pub fn size_hint(&self) -> (r: (usize, Option<usize>))
        requires
            self.wf(),
        ensures
            r.0 == self.rest().len(),
            r.1 == Some(r.0),
    {
        let remaining: usize = self.buffer.len() - self.index;
        (remaining, Some(remaining))
    }
}

/// A ring buffer of samples.
#[derive(Debug)]
pub struct SignalRingBuffer {
    buffer: RingBuffer<Single>,
}

/// Whether the sign changes from one sample to the next; zero counts as
/// positive.
pub open spec fn crosses_zero(prev: Single, next: Single) -> bool {
    let zero = Single { bits: 0 };
    ||| !prev.nan() && !prev.below(zero) && next.below(zero)
    ||| prev.below(zero) && !next.nan() && !next.below(zero)
}

/// The number of sign changes between neighbours.
pub open spec fn crossings(s: Seq<Single>) -> nat
    decreases s.len(),
{
    if s.len() < 2 {
        0
    } else {
        crossings(s.drop_last()) + if crosses_zero(s[s.len() - 2], s.last()) {
            1nat
        } else {
            0
        }
    }
}

/// Whether `m` is a smallest sample of `s`; samples that are not numbers
/// count only where there are no others.
pub open spec fn is_minimum(s: Seq<Single>, m: Single) -> bool {
    &&& s.contains(m)
    &&& forall|i: int| 0 <= i < s.len() && !(#[trigger] s[i]).nan() ==> !m.nan() && !s[i].below(m)
}

/// Whether `m` is a largest sample of `s`; samples that are not numbers
/// count only where there are no others.
pub open spec fn is_maximum(s: Seq<Single>, m: Single) -> bool {
    &&& s.contains(m)
    &&& forall|i: int| 0 <= i < s.len() && !(#[trigger] s[i]).nan() ==> !m.nan() && !m.below(s[i])
}

proof fn crossings_bound(s: Seq<Single>)
    ensures
        crossings(s) <= s.len(),
    decreases s.len(),
{
    if s.len() >= 2 {
        crossings_bound(s.drop_last());
    }
}

impl View for SignalRingBuffer {
    type V = Seq<Single>;

    /// The samples, oldest first.
    closed spec fn view(&self) -> Seq<Single> {
        self.buffer@
    }
}

impl SignalRingBuffer {
    /// The number of samples that fit.
    pub closed spec fn room(&self) -> nat {
        self.buffer.room()
    }

    /// Whether the buffer inside is consistent.
    pub closed spec fn wf(&self) -> bool {
        self.buffer.wf()
    }

    /// An empty buffer for `capacity` samples, but for at least one.
    pub fn new(capacity: usize) -> (r: Self)
        ensures
            r.wf(),
            r.room() == if capacity == 0 {
                1
            } else {
                capacity as nat
            },
            r@ == Seq::<Single>::empty(),
    {
        SignalRingBuffer { buffer: RingBuffer::new(capacity) }
    }

    /// Adds a sample; the oldest one makes room where there is none.
    pub fn push(&mut self, sample: Single)
        requires
            old(self).wf(),
        ensures
            final(self).wf(),
            final(self).room() == old(self).room(),
            final(self)@ == keep_last(old(self)@.push(sample), old(self).room()),
    {
        self.buffer.push(sample);
    }

    /// Adds samples, one after the other.
    pub fn push_slice(&mut self, samples: &[Single])
        requires
            old(self).wf(),
        ensures
            final(self).wf(),
            final(self).room() == old(self).room(),
            final(self)@ == keep_last(old(self)@ + samples@, old(self).room()),
    {
        self.buffer.push_slice(samples);
        proof {
            let clones = choose|clones: Seq<Single>|
                #![trigger clones_of(samples@, clones)]
                clones_of(samples@, clones) && self.buffer@ == keep_last(
                    old(self).buffer@ + clones,
                    old(self).room(),
                );
            assert(clones =~= samples@);
        }
    }

    /// Takes the oldest sample out.
    pub fn pop(&mut self) -> (r: Option<Single>)
        requires
            old(self).wf(),
        ensures
            final(self).wf(),
            final(self).room() == old(self).room(),
            match r {
                Some(v) => {
                    &&& old(self)@.len() > 0
                    &&& v == old(self)@[0]
                    &&& final(self)@ == old(self)@.drop_first()
                },
                None => old(self)@.len() == 0 && final(self)@ == old(self)@,
            },
    {
        self.buffer.pop()
    }

    /// A smallest sample.
    pub fn min(&self) -> (r: Option<Single>)
        requires
            self.wf(),
        ensures
            match r {
                Some(m) => is_minimum(self@, m),
                None => self@.len() == 0,
            },
    {
        let n: usize = self.buffer.len();
        if n == 0 {
            return None;
        }
        let samples: Vec<Single> = self.to_array();
        let mut best: Single = samples[0];
        let mut i: usize = 1;
        assert(samples@.take(1)[0] == best);
        while i < n
            invariant
                1 <= i <= n,
                n == samples@.len(),
                is_minimum(samples@.take(i as int), best),
            decreases n - i,
        {
            let ghost so_far = samples@.take(i as int);
            let ghost more = samples@.take(i + 1);
            assert(more =~= so_far.push(samples@[i as int]));
            let ghost w = choose|w: int| 0 <= w < so_far.len() && so_far[w] == best;
            assert(more[w] == best);
            assert(more[i as int] == samples@[i as int]);
            let sample: Single = samples[i];
            if best.is_nan() || sample.less(best) {
                best = sample;
            }
            assert forall|k: int| 0 <= k < more.len() && !(#[trigger] more[k]).nan() implies
                !best.nan() && !more[k].below(best) by {
                if k < i {
                    assert(so_far[k] == more[k]);
                }
            }
            i += 1;
        }
        assert(samples@.take(i as int) =~= samples@);
        Some(best)
    }

    /// A largest sample.
    pub fn max(&self) -> (r: Option<Single>)
        requires
            self.wf(),
        ensures
            match r {
                Some(m) => is_maximum(self@, m),
                None => self@.len() == 0,
            },
    {
        let n: usize = self.buffer.len();
        if n == 0 {
            return None;
        }
        let samples: Vec<Single> = self.to_array();
        let mut best: Single = samples[0];
        let mut i: usize = 1;
        assert(samples@.take(1)[0] == best);
        while i < n
            invariant
                1 <= i <= n,
                n == samples@.len(),
                is_maximum(samples@.take(i as int), best),
            decreases n - i,
        {
            let ghost so_far = samples@.take(i as int);
            let ghost more = samples@.take(i + 1);
            assert(more =~= so_far.push(samples@[i as int]));
            let ghost w = choose|w: int| 0 <= w < so_far.len() && so_far[w] == best;
            assert(more[w] == best);
            assert(more[i as int] == samples@[i as int]);
            let sample: Single = samples[i];
            if best.is_nan() || best.less(sample) {
                best = sample;
            }
            assert forall|k: int| 0 <= k < more.len() && !(#[trigger] more[k]).nan() implies
                !best.nan() && !best.below(more[k]) by {
                if k < i {
                    assert(so_far[k] == more[k]);
                }
            }
            i += 1;
        }
        assert(samples@.take(i as int) =~= samples@);
        Some(best)
    }

    /// The mean of the samples; zero where there are none.
    pub fn mean<M: Arithmetic<Single>>(&self, math: &M) -> (r: Single)
        requires
            self.wf(),
        ensures
            is_mean_of(math, self@, r),
    {
        let samples: Vec<Single> = self.to_array();
        if samples.len() == 0 {
            return Single::zero();
        }
        mean(math, Single::from_bits(MINUS_ZERO_BITS), samples.as_slice())
    }

    /// The variance of the samples around their mean; zero where there are
    /// fewer than two.
    pub fn variance<M: Arithmetic<Single>>(&self, math: &M) -> (r: Single)
        requires
            self.wf(),
        ensures
            is_variance_of(math, self@, r),
    {
        if self.len() < 2 {
            return Single::zero();
        }
        let mean: Single = self.mean(math);
        let samples: Vec<Single> = self.to_array();
        let gaps: Vec<Single> = shifted(math, samples.as_slice(), mean);
        let zero: Single = Single::from_bits(MINUS_ZERO_BITS);
        let sum: Single = dot(math, zero, gaps.as_slice(), gaps.as_slice());
        assert(zero == Single { bits: MINUS_ZERO_BITS });
        assert(crate::arith::are_shifted(math, self@, mean, gaps@));
        math.over(sum, samples.len() - 1)
    }

    /// The standard deviation of the samples.
    pub fn std_dev<M: Arithmetic<Single>>(&self, math: &M) -> (r: Single)
        requires
            self.wf(),
        ensures
            exists|variance: Single|
                #[trigger] is_variance_of(math, self@, variance) && call_ensures(
                    M::root,
                    (math, variance),
                    r,
                ),
    {
        let variance: Single = self.variance(math);
        math.root(variance)
    }

    /// The root of the mean square of the samples; zero where there are none.
    pub fn rms<M: Arithmetic<Single>>(&self, math: &M) -> (r: Single)
        requires
            self.wf(),
        ensures
            is_rms_of(math, self@, r),
    {
        let samples: Vec<Single> = self.to_array();
        if samples.len() == 0 {
            return Single::zero();
        }
        root_mean_square(math, Single::from_bits(MINUS_ZERO_BITS), samples.as_slice())
    }

    /// The distance between the least and the greatest sample; zero where
    /// there are none.
    pub fn peak_to_peak<M: Arithmetic<Single>>(&self, math: &M) -> (r: Single)
        requires
            self.wf(),
        ensures
            is_swing_of(math, self@, r),
    {
        match (self.min(), self.max()) {
            (Some(low), Some(high)) => {
                let r: Single = math.difference(high, low);
                assert(is_minimum(self@, low) && is_maximum(self@, high));
                r
            },
            _ => Single::zero(),
        }
    }

    /// The share of neighbouring pairs between which the sign changes; zero
    /// where there is no pair.
    pub fn zero_crossing_rate<M: RatioMath>(&self, math: &M) -> (r: Single)
        requires
            self.wf(),
        ensures
            if self@.len() < 2 {
                r.bits == 0
            } else {
                call_ensures(
                    M::ratio,
                    (math, crossings(self@) as usize, (self@.len() - 1) as usize),
                    r,
                )
            },
    {
        if self.len() < 2 {
            return Single::zero();
        }
        math.ratio(self.zero_crossings(), self.len() - 1)
    }

    /// The number of sign changes between neighbouring samples.
    pub fn zero_crossings(&self) -> (r: usize)
        requires
            self.wf(),
        ensures
            r == crossings(self@),
    {
        let samples: Vec<Single> = self.to_array();
        count_crossings(samples.as_slice())
    }

    /// The number of samples.
    pub fn len(&self) -> (n: usize)
        ensures
            n == self@.len(),
    {
        self.buffer.len()
    }

    /// Whether there are no samples.
    pub fn is_empty(&self) -> (r: bool)
        ensures
            r == (self@.len() == 0),
    {
        self.buffer.is_empty()
    }

    /// Whether there is no room left.
    pub fn is_full(&self) -> (r: bool)
        ensures
            r == (self@.len() == self.room()),
    {
        self.buffer.is_full()
    }

    /// Forgets all samples.
    pub fn clear(&mut self)
        requires
            old(self).wf(),
        ensures
            final(self).wf(),
            final(self).room() == old(self).room(),
            final(self)@ == Seq::<Single>::empty(),
    {
        self.buffer.clear();
    }

    /// The number of samples that fit.
    pub fn capacity(&self) -> (n: usize)
        ensures
            n == self.room(),
    {
        self.buffer.capacity()
    }

    /// The samples, oldest first.
    pub fn to_array(&self) -> (r: Vec<Single>)
        requires
            self.wf(),
        ensures
            r@ == self@,
    {
        let r: Vec<Single> = self.buffer.to_vec();
        assert(r@ =~= self@);
        r
    }

    /// Walks over the samples, oldest first.
    pub fn iter(&self) -> (r: RingBufferIter<'_, Single>)
        requires
            self.wf(),
        ensures
            r.wf(),
            r.rest() == self@,
    {
        self.buffer.iter()
    }
}

/// Whether a number can be the mean of samples; zero where there are none.
pub open spec fn is_mean_of<M: Arithmetic<Single>>(math: &M, s: Seq<Single>, r: Single) -> bool {
    if s.len() == 0 {
        r.bits == 0
    } else {
        crate::arith::is_mean(math, Single { bits: MINUS_ZERO_BITS }, s, r)
    }
}

/// Whether a number can be the variance of samples; zero where there are fewer
/// than two.
pub open spec fn is_variance_of<M: Arithmetic<Single>>(math: &M, s: Seq<Single>, r: Single) -> bool {
    if s.len() < 2 {
        r.bits == 0
    } else {
        exists|mean: Single, gaps: Seq<Single>, sum: Single|
            {
                &&& is_mean_of(math, s, mean)
                &&& #[trigger] crate::arith::are_shifted(math, s, mean, gaps)
                &&& #[trigger] crate::arith::is_dot(
                    math,
                    Single { bits: MINUS_ZERO_BITS },
                    gaps,
                    gaps,
                    sum,
                )
                &&& call_ensures(M::over, (math, sum, (s.len() - 1) as usize), r)
            }
    }
}

/// Whether a number can be the root of the mean square of samples; zero where
/// there are none.
pub open spec fn is_rms_of<M: Arithmetic<Single>>(math: &M, s: Seq<Single>, r: Single) -> bool {
    if s.len() == 0 {
        r.bits == 0
    } else {
        crate::arith::is_root_mean_square(math, Single { bits: MINUS_ZERO_BITS }, s, r)
    }
}

/// Whether a number can be the distance between the least and the greatest
/// sample; zero where there are none.
pub open spec fn is_swing_of<M: Arithmetic<Single>>(math: &M, s: Seq<Single>, r: Single) -> bool {
    if s.len() == 0 {
        r.bits == 0
    } else {
        exists|low: Single, high: Single| #[trigger]
            is_minimum(s, low) && #[trigger] is_maximum(s, high) && call_ensures(
                M::difference,
                (math, high, low),
                r,
            )
    }
}

/// The number of sign changes between neighbouring samples.
pub fn count_crossings(samples: &[Single]) -> (r: usize)
    ensures
        r == crossings(samples@),
        r <= samples@.len(),
{
    if samples.len() < 2 {
        return 0;
    }
    let zero: Single = Single::zero();
    let mut count: usize = 0;
    let mut i: usize = 1;
    while i < samples.len()
        invariant
            1 <= i <= samples.len(),
            zero.bits == 0,
            count == crossings(samples@.take(i as int)),
        decreases samples.len() - i,
    {
        let prev: Single = samples[i - 1];
        let next: Single = samples[i];
        let crossed: bool = (!prev.is_nan() && !prev.less(zero) && next.less(zero)) || (prev.less(
            zero,
        ) && !next.is_nan() && !next.less(zero));
        proof {
            crossings_bound(samples@.take(i as int));
            assert(samples@.take(i + 1).drop_last() =~= samples@.take(i as int));
        }
        if crossed {
            count += 1;
        }
        i += 1;
    }
    assert(samples@.take(i as int) =~= samples@);
    proof {
        crossings_bound(samples@);
    }
    count
}

} // verus!
