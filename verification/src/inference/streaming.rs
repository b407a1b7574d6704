//! Inference on streams: batches, chunks and metrics.

use crate::error::InferenceResult;
use crate::inference::engine::{EngineConfig, InferenceEngine};
use crate::inference::model::{AutoregressiveModel, EngineMath};
use crate::number::Single;
use crate::time::Span;
use vstd::prelude::*;

verus! {

/// The arithmetic on averages that metrics need. Nothing is required of what
/// the operations return.
pub trait MetricMath {
    /// `total / count`.
    fn average(&self, total: usize, count: usize) -> Single;

    /// `(mean * before + added) / after`.
    fn shifted_mean(&self, mean: Single, before: usize, added: u64, after: usize) -> Single;
}

/// Configuration of inference on streams.
#[derive(Debug, Clone, Copy, PartialEq, Eq, Structural)]
pub struct StreamConfig {
    /// Configuration of the engine.
    pub engine: EngineConfig,
    /// The number of predictions that wait at most.
    pub buffer_size: usize,
    /// The number of inputs that are processed at a time.
    pub batch_size: usize,
    /// How long inputs wait for others at most, in milliseconds.
    pub max_latency_ms: u64,
    /// Whether the number adapts to the load.
    pub adaptive_batching: bool,
}

/// The default configuration.
pub open spec fn default_stream() -> StreamConfig {
    StreamConfig {
        engine: crate::inference::engine::default_engine(),
        buffer_size: 1024,
        batch_size: 1,
        max_latency_ms: 100,
        adaptive_batching: false,
    }
}

impl Default for StreamConfig {
    fn default() -> (r: Self)
        ensures
            r == default_stream(),
    {
        StreamConfig {
            engine: EngineConfig::default(),
            buffer_size: 1024,
            batch_size: 1,
            max_latency_ms: 100,
            adaptive_batching: false,
        }
    }
}

impl StreamConfig {
    /// The default configuration.
    pub fn new() -> (r: Self)
        ensures
            r == default_stream(),
    {
        Self::default()
    }

    /// Sets the configuration of the engine.
    pub fn engine(self, config: EngineConfig) -> (r: Self)
        ensures
            r == (StreamConfig { engine: config, ..self }),
    {
        StreamConfig { engine: config, ..self }
    }

    /// Sets the number of predictions that wait at most.
    pub fn buffer_size(self, size: usize) -> (r: Self)
        ensures
            r == (StreamConfig { buffer_size: size, ..self }),
    {
        StreamConfig { buffer_size: size, ..self }
    }

    /// Sets the number of inputs that are processed at a time.
    pub fn batch_size(self, size: usize) -> (r: Self)
        ensures
            r == (StreamConfig { batch_size: size, ..self }),
    {
        StreamConfig { batch_size: size, ..self }
    }

    /// Sets how long inputs wait for others at most.
    pub fn max_latency_ms(self, ms: u64) -> (r: Self)
        ensures
            r == (StreamConfig { max_latency_ms: ms, ..self }),
    {
        StreamConfig { max_latency_ms: ms, ..self }
    }

    /// Sets whether the number adapts to the load.
    pub fn adaptive_batching(self, enable: bool) -> (r: Self)
        ensures
            r == (StreamConfig { adaptive_batching: enable, ..self }),
    {
        StreamConfig { adaptive_batching: enable, ..self }
    }
}

/// Inputs that wait to be processed together.
#[derive(Debug)]
pub struct BatchBuffer<T> {
    batch_size: usize,
    max_latency_ms: u64,
    items: Vec<T>,
}

impl<T> BatchBuffer<T> {
    /// The inputs that wait.
    pub closed spec fn waiting(&self) -> Seq<T> {
        self.items@
    }

    /// The number of inputs that are processed at a time.
    pub closed spec fn size(&self) -> nat {
        self.batch_size as nat
    }

    /// How long inputs wait at most, in milliseconds.
    pub closed spec fn patience(&self) -> nat {
        self.max_latency_ms as nat
    }

    /// Fewer inputs wait than are processed at a time.
    pub open spec fn wf(&self) -> bool {
        self.waiting().len() == 0 || self.waiting().len() < self.size()
    }

    /// A buffer as a configuration says.
    pub fn new(config: &StreamConfig) -> (r: Self)
        ensures
            r.wf(),
            r.waiting().len() == 0,
            r.size() == config.batch_size,
            r.patience() == config.max_latency_ms,
    {
        BatchBuffer {
            batch_size: config.batch_size,
            max_latency_ms: config.max_latency_ms,
            items: Vec::new(),
        }
    }

    /// Takes an input, and hands out all that wait where there are enough of
    /// them or the last ones went out long enough ago.
    pub fn on_input(&mut self, item: T, since_last: Span) -> (r: Option<Vec<T>>)
        requires
            old(self).wf(),
        ensures
            final(self).wf(),
            final(self).size() == old(self).size(),
            final(self).patience() == old(self).patience(),
            ({
                let all = old(self).waiting().push(item);
                if all.len() >= old(self).size() || since_last.millis() >= old(self).patience() {
                    &&& r is Some
                    &&& r->0@ == all
                    &&& final(self).waiting().len() == 0
                } else {
                    r is None && final(self).waiting() == all
                }
            }),
    {
        self.items.push(item);
        if self.items.len() >= self.batch_size || since_last.as_millis()
            >= self.max_latency_ms as u128 {
            self.drain()
        } else {
            None
        }
    }

    /// Hands out all that wait, where any do: once the time is up, and at the
    /// end of the stream.
    pub fn drain(&mut self) -> (r: Option<Vec<T>>)
        ensures
            final(self).wf(),
            final(self).size() == old(self).size(),
            final(self).patience() == old(self).patience(),
            final(self).waiting().len() == 0,
            match r {
                Some(items) => items@ == old(self).waiting() && items@.len() > 0,
                None => old(self).waiting().len() == 0,
            },
    {
        if self.items.len() == 0 {
            return None;
        }
        let mut out: Vec<T> = Vec::new();
        std::mem::swap(&mut self.items, &mut out);
        Some(out)
    }
}

/// An engine for streams.
pub struct StreamingEngine<M, F> {
    config: StreamConfig,
    engine: InferenceEngine<M, F>,
}

impl<M: AutoregressiveModel, F: EngineMath> StreamingEngine<M, F> {
    /// The configuration.
    pub closed spec fn settings(&self) -> StreamConfig {
        self.config
    }

    /// The engine.
    pub closed spec fn runner(&self) -> InferenceEngine<M, F> {
        self.engine
    }

    /// The engine is consistent.
    pub open spec fn wf(&self) -> bool {
        self.runner().wf()
    }

    /// An engine without a model.
    pub fn new(config: StreamConfig, math: F) -> (r: InferenceResult<Self>)
        requires
            config.engine.context.fits(),
        ensures
            r is Ok,
            r->Ok_0.wf(),
            r->Ok_0.settings() == config,
            r->Ok_0.runner().settings() == config.engine,
            r->Ok_0.runner().predictor() is None,
            r->Ok_0.runner().numerics() == math,
            r->Ok_0.runner().window().steps() == 0,
            r->Ok_0.runner().window().past().len() == 0,
            r->Ok_0.runner().window().is_blank_for(config.engine.context),
    {
        let engine: InferenceEngine<M, F> = InferenceEngine::new(config.engine, math);
        Ok(StreamingEngine { config, engine })
    }

    /// The number of inputs so far.
    pub fn step_count(&self) -> (n: usize)
        ensures
            n == self.runner().window().steps(),
    {
        self.engine.step_count()
    }

    /// Predicts the signal that follows the input.
    pub fn step(&mut self, input: &[Single]) -> (r: InferenceResult<Vec<Single>>)
        requires
            old(self).wf(),
            old(self).runner().window().steps() < usize::MAX,
        ensures
            final(self).wf(),
            final(self).settings() == old(self).settings(),
            old(self).runner().steps(input@, &final(self).runner(), r),
            old(self).runner().outcome(input@, r),
            final(self).runner().same_setup(&old(self).runner()),
            r is Ok ==> final(self).runner().window().steps() == old(
                self,
            ).runner().window().steps() + 1,
            final(self).runner().window().steps() <= old(self).runner().window().steps() + 1,
    {
        self.engine.step(input)
    }

    /// Gives the engine a model, in the shape of which it starts anew.
    pub fn set_model(&mut self, model: M)
        requires
            old(self).wf(),
            crate::inference::engine::model_fits(model),
        ensures
            final(self).wf(),
            final(self).settings() == old(self).settings(),
            crate::inference::engine::is_shaped_by(
                old(self).runner().settings(),
                model,
                final(self).runner().settings(),
            ),
            final(self).runner().predictor() == Some(model),
            final(self).runner().numerics() == old(self).runner().numerics(),
            final(self).runner().window().steps() == 0,
            final(self).runner().window().past().len() == 0,
            final(self).runner().window().is_blank_for(final(self).runner().settings().context),
    {
        self.engine.set_model(model);
    }

    /// Whether the answer `r` to the next input of a batch leaves `after` and
    /// the inputs `rest` to be answered.
    pub open spec fn serves_next(
        before: &InferenceEngine<M, F>,
        batch: Seq<Vec<Single>>,
        after: &InferenceEngine<M, F>,
        rest: Seq<Vec<Single>>,
        r: InferenceResult<Vec<Single>>,
    ) -> bool {
        &&& batch.len() > 0
        &&& before.steps(batch[0]@, after, r)
        &&& before.outcome(batch[0]@, r)
        &&& rest == batch.drop_first()
    }

    /// Answers the next input of a batch, whether it succeeds or not, and takes
    /// it out. Where nobody heard the answer before, or no input is left, there
    /// is none, and the rest of the batch is dropped.
    pub fn process_batch(&mut self, batch: &mut Vec<Vec<Single>>, heard: bool) -> (r: Option<
        InferenceResult<Vec<Single>>,
    >)
        requires
            old(self).wf(),
            heard && old(batch)@.len() > 0 ==> old(self).runner().window().steps() < usize::MAX,
        ensures
            final(self).wf(),
            final(self).settings() == old(self).settings(),
            final(self).runner().same_setup(&old(self).runner()),
            r is Some <==> heard && old(batch)@.len() > 0,
            match r {
                Some(answer) => {
                    &&& Self::serves_next(
                        &old(self).runner(),
                        old(batch)@,
                        &final(self).runner(),
                        final(batch)@,
                        answer,
                    )
                    &&& final(self).runner().window().steps() <= old(
                        self,
                    ).runner().window().steps() + 1
                },
                None => *final(self) == *old(self) && final(batch)@.len() == 0,
            },
    {
        if !heard || batch.len() == 0 {
            batch.clear();
            return None;
        }
        let input: Vec<Single> = batch.remove(0);
        assert(batch@ =~= old(batch)@.drop_first());
        Some(self.engine.step(input.as_slice()))
    }

    /// A batch is answered in order: however many answers are heard, they answer
    /// as many inputs from the first on, each by the engine that the answer
    /// before left, and the other inputs are left as they were.
    pub proof fn batches_are_answered_in_order(
        engines: Seq<InferenceEngine<M, F>>,
        batches: Seq<Seq<Vec<Single>>>,
        answers: Seq<InferenceResult<Vec<Single>>>,
    )
        requires
            engines.len() == answers.len() + 1,
            batches.len() == answers.len() + 1,
            forall|i: int|
                0 <= i < answers.len() ==> Self::serves_next(
                    &engines[i],
                    batches[i],
                    &engines[i + 1],
                    batches[i + 1],
                    #[trigger] answers[i],
                ),
        ensures
            answers.len() <= batches[0].len(),
            batches.last() == batches[0].skip(answers.len() as int),
            forall|i: int|
                0 <= i < answers.len() ==> engines[i].steps(
                    batches[0][i]@,
                    &engines[i + 1],
                    #[trigger] answers[i],
                ),
        decreases answers.len(),
    {
        let n = answers.len() as int;
        if n == 0 {
            assert(batches[0].skip(0) =~= batches[0]);
        } else {
            let fewer = answers.drop_last();
            assert forall|i: int| 0 <= i < fewer.len() implies Self::serves_next(
                &engines.drop_last()[i],
                batches.drop_last()[i],
                &engines.drop_last()[i + 1],
                batches.drop_last()[i + 1],
                #[trigger] fewer[i],
            ) by {
                assert(fewer[i] == answers[i]);
            }
            Self::batches_are_answered_in_order(engines.drop_last(), batches.drop_last(), fewer);
            let rest = batches[n - 1];
            assert(rest == batches[0].skip(n - 1));
            assert(Self::serves_next(&engines[n - 1], rest, &engines[n], batches[n], answers[n - 1]));
            assert(rest[0] == batches[0][n - 1]);
            assert(rest.drop_first() =~= batches[0].skip(n));
            assert forall|i: int| 0 <= i < answers.len() implies engines[i].steps(
                batches[0][i]@,
                &engines[i + 1],
                #[trigger] answers[i],
            ) by {
                if i < n - 1 {
                    assert(fewer[i] == answers[i]);
                }
            }
        }
    }

    /// Predicts `steps` signals, each from the one before.
    pub fn rollout(&mut self, initial: &[Single], steps: usize) -> (r: InferenceResult<
        Vec<Vec<Single>>,
    >)
        requires
            old(self).wf(),
            old(self).runner().window().steps() + steps <= usize::MAX,
        ensures
            final(self).wf(),
            final(self).settings() == old(self).settings(),
            old(self).runner().rollout_comes_to(
                initial@,
                steps as nat,
                &final(self).runner(),
                r,
            ),
            r is Ok ==> r->Ok_0@.len() == steps,
    {
        self.engine.rollout(initial, steps)
    }

    /// Forgets the history and sets every layer to zero.
    pub fn reset(&mut self)
        requires
            old(self).wf(),
        ensures
            final(self).wf(),
            final(self).settings() == old(self).settings(),
            final(self).runner().same_setup(&old(self).runner()),
            final(self).runner().window().steps() == 0,
            final(self).runner().window().past().len() == 0,
            forall|i: int|
                0 <= i < final(self).runner().window().layers().len() ==> old(
                    self,
                ).runner().window().layers()[i].zeroed_to(
                    #[trigger] &final(self).runner().window().layers()[i],
                ),
    {
        self.engine.reset();
    }

    /// The configuration.
    pub fn config(&self) -> (r: &StreamConfig)
        ensures
            *r == self.settings(),
    {
        &self.config
    }
}

/// Metrics of a stream.
#[derive(Debug, Clone, Copy, PartialEq, Eq, Structural)]
pub struct StreamMetrics {
    /// Number of samples.
    pub samples_processed: usize,
    /// Number of batches.
    pub batches_processed: usize,
    /// Samples per batch.
    pub avg_batch_size: Single,
    /// Latency per sample in microseconds.
    pub avg_latency_us: Single,
    /// The longest latency in microseconds.
    pub peak_latency_us: u64,
}

impl Default for StreamMetrics {
    fn default() -> (r: Self)
        ensures
            r == (StreamMetrics {
                samples_processed: 0,
                batches_processed: 0,
                avg_batch_size: Single { bits: 0 },
                avg_latency_us: Single { bits: 0 },
                peak_latency_us: 0,
            }),
    {
        StreamMetrics {
            samples_processed: 0,
            batches_processed: 0,
            avg_batch_size: Single { bits: 0 },
            avg_latency_us: Single { bits: 0 },
            peak_latency_us: 0,
        }
    }
}

impl StreamMetrics {
    /// Metrics of nothing.
    pub fn new() -> (r: Self)
        ensures
            r == (StreamMetrics {
                samples_processed: 0,
                batches_processed: 0,
                avg_batch_size: Single { bits: 0 },
                avg_latency_us: Single { bits: 0 },
                peak_latency_us: 0,
            }),
    {
        Self::default()
    }

    /// Counts a batch.
    pub fn update<F: MetricMath>(&mut self, math: &F, batch_size: usize, latency_us: u64)
        requires
            old(self).samples_processed + batch_size <= usize::MAX,
            old(self).batches_processed < usize::MAX,
        ensures
            final(self).samples_processed == old(self).samples_processed + batch_size,
            final(self).batches_processed == old(self).batches_processed + 1,
            call_ensures(
                F::average,
                (math, final(self).samples_processed, final(self).batches_processed),
                final(self).avg_batch_size,
            ),
            call_ensures(
                F::shifted_mean,
                (
                    math,
                    old(self).avg_latency_us,
                    old(self).samples_processed,
                    latency_us,
                    final(self).samples_processed,
                ),
                final(self).avg_latency_us,
            ),
            final(self).peak_latency_us == if old(self).peak_latency_us < latency_us {
                latency_us
            } else {
                old(self).peak_latency_us
            },
    {
        let before: usize = self.samples_processed;
        self.samples_processed += batch_size;
        self.batches_processed += 1;
        self.avg_batch_size = math.average(self.samples_processed, self.batches_processed);
        self.avg_latency_us = math.shifted_mean(
            self.avg_latency_us,
            before,
            latency_us,
            self.samples_processed,
        );
        if self.peak_latency_us < latency_us {
            self.peak_latency_us = latency_us;
        }
    }
}

/// Transforms each item by a function.
#[derive(Debug, Clone, Copy)]
pub struct MapTransformer<F> {
    mapper: F,
}

impl<F> MapTransformer<F> {
    /// The function.
    pub closed spec fn function(&self) -> F {
        self.mapper
    }

    /// A transformer by the given function.
    pub fn new(mapper: F) -> (r: Self)
        ensures
            r.function() == mapper,
    {
        MapTransformer { mapper }
    }

    /// Transforms an item.
    pub fn apply<I, O>(&self, item: I) -> (r: O) where F: Fn(I) -> O
        requires
            call_requires(self.function(), (item,)),
        ensures
            call_ensures(self.function(), (item,), r),
    {
        (self.mapper)(item)
    }
}

/// The chunks of a sequence: of `size` items each, but of at least one, and
/// the rest at the end.
pub open spec fn chunks<T>(s: Seq<T>, size: nat) -> Seq<Seq<T>>
    decreases s.len(),
{
    let n = if size == 0 {
        1
    } else {
        size
    };
    if s.len() == 0 {
        Seq::empty()
    } else if s.len() <= n {
        seq![s]
    } else {
        seq![s.take(n as int)] + chunks(s.skip(n as int), size)
    }
}

/// The items of chunks, one after the other.
pub open spec fn joined<T>(parts: Seq<Seq<T>>) -> Seq<T>
    decreases parts.len(),
{
    if parts.len() == 0 {
        Seq::empty()
    } else {
        parts.first() + joined(parts.drop_first())
    }
}

/// Chunks lose nothing and keep the order: joined together they are what was
/// cut. None is empty, and all but the last one are full.
pub proof fn chunks_join<T>(s: Seq<T>, size: nat)
    ensures
        joined(chunks(s, size)) == s,
        forall|i: int|
            0 <= i < chunks(s, size).len() ==> 0 < (#[trigger] chunks(s, size)[i]).len() <= if size
                == 0 {
                1
            } else {
                size
            },
        forall|i: int|
            0 <= i < chunks(s, size).len() - 1 ==> (#[trigger] chunks(s, size)[i]).len() == if size
                == 0 {
                1
            } else {
                size
            },
    decreases s.len(),
{
    let n = if size == 0 {
        1
    } else {
        size
    };
    let all = chunks(s, size);
    if s.len() == 0 {
    } else if s.len() <= n {
        assert(all.drop_first() =~= Seq::<Seq<T>>::empty());
        assert(joined(all.drop_first()) =~= Seq::<T>::empty());
        assert(joined(all) =~= s);
    } else {
        let rest = s.skip(n as int);
        chunks_join(rest, size);
        assert(all.drop_first() =~= chunks(rest, size));
        assert(joined(all) =~= s);
        assert forall|i: int| 0 <= i < all.len() implies 0 < (#[trigger] all[i]).len() <= n by {
            if i > 0 {
                assert(all[i] == chunks(rest, size)[i - 1]);
            }
        }
        assert forall|i: int| 0 <= i < all.len() - 1 implies (#[trigger] all[i]).len() == n by {
            if i > 0 {
                assert(all[i] == chunks(rest, size)[i - 1]);
            }
        }
    }
}

/// Collects items into chunks of one size.
#[derive(Debug, Clone, Copy, PartialEq, Eq, Structural)]
pub struct BufferTransformer {
    buffer_size: usize,
}

impl BufferTransformer {
    /// The size of a chunk.
    pub closed spec fn size(&self) -> nat {
        self.buffer_size as nat
    }

    /// A transformer into chunks of the given size.
    pub fn new(buffer_size: usize) -> (r: Self)
        ensures
            r.size() == buffer_size,
    {
        BufferTransformer { buffer_size }
    }

    /// Adds an item to an open chunk, and hands the chunk out once it is full.
    pub fn on_item<T>(&self, buffer: &mut Vec<T>, item: T) -> (r: Option<Vec<T>>)
        requires
            old(buffer)@.len() == 0 || old(buffer)@.len() < self.size(),
        ensures
            final(buffer)@.len() == 0 || final(buffer)@.len() < self.size(),
            ({
                let all = old(buffer)@.push(item);
                if all.len() >= self.size() {
                    r is Some && r->0@ == all && final(buffer)@.len() == 0
                } else {
                    r is None && final(buffer)@ == all
                }
            }),
    {
        buffer.push(item);
        if buffer.len() >= self.buffer_size {
            let mut out: Vec<T> = Vec::new();
            std::mem::swap(buffer, &mut out);
            Some(out)
        } else {
            None
        }
    }

    /// Cuts all items of a stream into chunks.
    pub fn transform<T>(&self, items: Vec<T>) -> (r: Vec<Vec<T>>)
        ensures
            r@.len() == chunks(items@, self.size()).len(),
            forall|i: int|
                0 <= i < r@.len() ==> (#[trigger] r@[i])@ == chunks(items@, self.size())[i],
    {
        let ghost all = items@;
        let size: usize = if self.buffer_size == 0 {
            1
        } else {
            self.buffer_size
        };
        let mut rest: Vec<T> = items;
        let mut out: Vec<Vec<T>> = Vec::new();
        let ghost whole = chunks(all, self.size());
        while rest.len() > size
            invariant
                size > 0,
                size == if self.size() == 0 {
                    1
                } else {
                    self.size()
                },
                whole == chunks(all, self.size()),
                whole.len() == out@.len() + chunks(rest@, self.size()).len(),
                forall|i: int| 0 <= i < out@.len() ==> (#[trigger] out@[i])@ == whole[i],
                forall|i: int|
                    0 <= i < chunks(rest@, self.size()).len() ==> whole[out@.len() + i]
                        == #[trigger] chunks(rest@, self.size())[i],
            decreases rest@.len(),
        {
            let ghost before = rest@;
            let ghost done = out@;
            let tail: Vec<T> = rest.split_off(size);
            assert(rest@ =~= before.take(size as int));
            assert(tail@ =~= before.skip(size as int));
            proof {
                let parts = chunks(before, self.size());
                let later = chunks(tail@, self.size());
                assert(parts =~= seq![before.take(size as int)] + later);
                assert(parts[0] == before.take(size as int));
                assert(whole[done.len() as int] == parts[0]);
                assert forall|i: int| 0 <= i < later.len() implies whole[done.len() + 1 + i]
                    == #[trigger] later[i] by {
                    assert(parts[i + 1] == later[i]);
                }
            }
            out.push(rest);
            rest = tail;
        }
        if rest.len() > 0 {
            proof {
                let parts = chunks(rest@, self.size());
                assert(parts =~= seq![rest@]);
                assert(parts[0] == rest@);
                assert(whole[out@.len() as int] == parts[0]);
            }
            out.push(rest);
        }
        out
    }
}

/// Holds back items until the stream pauses: only the last item before a pause
/// goes out.
#[derive(Debug)]
pub struct Debouncer<T> {
    last_item: Option<T>,
}

impl<T> Debouncer<T> {
    /// The item that is held back.
    pub closed spec fn held(&self) -> Option<T> {
        self.last_item
    }

    /// A debouncer that holds nothing back.
    pub fn new() -> (r: Self)
        ensures
            r.held() is None,
    {
        Debouncer { last_item: None }
    }

    /// Takes an item, which replaces the one that is held back.
    pub fn on_item(&mut self, item: T)
        ensures
            final(self).held() == Some(item),
    {
        self.last_item = Some(item);
    }

    /// Hands the item out once the stream has paused.
    pub fn on_pause(&mut self) -> (r: Option<T>)
        ensures
            r == old(self).held(),
            final(self).held() is None,
    {
        self.last_item.take()
    }
}

} // verus!
