//! The inference engine: one prediction step, and what is built from it.

use crate::error::{InferenceError, InferenceResult};
use crate::inference::context::{ContextConfig, InferenceContext};
use crate::inference::model::{AutoregressiveModel, EngineMath, ModelReply, ModelType};
use crate::inference::state::HiddenState;
use crate::number::Single;
use crate::samples::copy_samples;
use vstd::prelude::*;

verus! {

/// How much memory inference spends.
#[derive(Debug, Clone, Copy, PartialEq, Eq, Structural)]
pub enum InferenceMode {
    /// All states in full.
    Standard,
    /// Small values are dropped and the history is short.
    LowMemory,
    /// As little state as possible.
    Streaming,
    /// States of reduced precision.
    Quantized,
}

impl Default for InferenceMode {
    fn default() -> (r: Self)
        ensures
            r == InferenceMode::Standard,
    {
        InferenceMode::Standard
    }
}

/// How an output is picked from logits.
#[derive(Debug, Clone, Copy, PartialEq, Eq, Structural)]
pub enum SamplingStrategy {
    /// The most likely one.
    Greedy,
    /// At random, weighted by a temperature.
    Temperature,
}

/// Configuration of sampling.
#[derive(Debug, Clone, Copy, PartialEq, Eq, Structural)]
pub struct SamplingConfig {
    pub temperature: Single,
    pub strategy: SamplingStrategy,
}

/// The bit pattern of 1.0.
pub const ONE_BITS: u32 = 0x3f80_0000;

/// The bit pattern of 1e-6.
pub const MILLIONTH_BITS: u32 = 0x3586_37bd;

/// The bit pattern of 1e-4.
pub const LOW_MEMORY_THRESHOLD_BITS: u32 = 0x38d1_b717;

/// The bit pattern of 1e-3.
pub const STREAMING_THRESHOLD_BITS: u32 = 0x3a83_126f;

/// The bit pattern of 1e-2.
pub const QUANTIZED_THRESHOLD_BITS: u32 = 0x3c23_d70a;

/// Greedy sampling at temperature 1.
pub open spec fn default_sampling() -> SamplingConfig {
    SamplingConfig { temperature: Single { bits: ONE_BITS }, strategy: SamplingStrategy::Greedy }
}

impl Default for SamplingConfig {
    fn default() -> (r: Self)
        ensures
            r == default_sampling(),
    {
        SamplingConfig {
            temperature: Single { bits: ONE_BITS },
            strategy: SamplingStrategy::Greedy,
        }
    }
}

/// Configuration of the inference engine.
#[derive(Debug, Clone, Copy, PartialEq, Eq, Structural)]
pub struct EngineConfig {
    /// Input dimension.
    pub input_dim: usize,
    /// Output dimension.
    pub output_dim: usize,
    /// Configuration of the context.
    pub context: ContextConfig,
    /// Whether constraints are applied.
    pub apply_constraints: bool,
    /// Configuration of sampling.
    pub sampling: SamplingConfig,
    /// Whether outputs are discrete.
    pub use_embeddings: bool,
    /// How much memory is spent.
    pub inference_mode: InferenceMode,
    /// State values below this threshold are dropped.
    pub state_prune_threshold: Single,
    /// The length that the history is trimmed to.
    pub max_history_length: Option<usize>,
}

/// The default configuration.
pub open spec fn default_engine() -> EngineConfig {
    EngineConfig {
        input_dim: 1,
        output_dim: 1,
        context: crate::inference::context::default_context(),
        apply_constraints: true,
        sampling: default_sampling(),
        use_embeddings: false,
        inference_mode: InferenceMode::Standard,
        state_prune_threshold: Single { bits: MILLIONTH_BITS },
        max_history_length: None,
    }
}

impl Default for EngineConfig {
    fn default() -> (r: Self)
        ensures
            r == default_engine(),
    {
        EngineConfig {
            input_dim: 1,
            output_dim: 1,
            context: ContextConfig::default(),
            apply_constraints: true,
            sampling: SamplingConfig::default(),
            use_embeddings: false,
            inference_mode: InferenceMode::Standard,
            state_prune_threshold: Single { bits: MILLIONTH_BITS },
            max_history_length: None,
        }
    }
}

impl EngineConfig {
    /// The default configuration for the given dimensions.
    pub fn new(input_dim: usize, output_dim: usize) -> (r: Self)
        ensures
            r == (EngineConfig { input_dim, output_dim, ..default_engine() }),
    {
        EngineConfig { input_dim, output_dim, ..Default::default() }
    }

    /// Sets the configuration of the context.
    pub fn context(self, config: ContextConfig) -> (r: Self)
        ensures
            r == (EngineConfig { context: config, ..self }),
    {
        EngineConfig { context: config, ..self }
    }

    /// Sets whether constraints are applied.
    pub fn apply_constraints(self, apply: bool) -> (r: Self)
        ensures
            r == (EngineConfig { apply_constraints: apply, ..self }),
    {
        EngineConfig { apply_constraints: apply, ..self }
    }

    /// Sets the configuration of sampling.
    pub fn sampling(self, sampling: SamplingConfig) -> (r: Self)
        ensures
            r == (EngineConfig { sampling, ..self }),
    {
        EngineConfig { sampling, ..self }
    }

    /// Sets whether outputs are discrete.
    pub fn use_embeddings(self, use_emb: bool) -> (r: Self)
        ensures
            r == (EngineConfig { use_embeddings: use_emb, ..self }),
    {
        EngineConfig { use_embeddings: use_emb, ..self }
    }

    /// Sets the inference mode, with the threshold and the history length
    /// that go with it.
    pub fn inference_mode(self, mode: InferenceMode) -> (r: Self)
        ensures
            r == (match mode {
                InferenceMode::LowMemory => EngineConfig {
                    inference_mode: mode,
                    max_history_length: Some(128),
                    state_prune_threshold: Single { bits: LOW_MEMORY_THRESHOLD_BITS },
                    ..self
                },
                InferenceMode::Streaming => EngineConfig {
                    inference_mode: mode,
                    max_history_length: Some(64),
                    state_prune_threshold: Single { bits: STREAMING_THRESHOLD_BITS },
                    ..self
                },
                InferenceMode::Quantized => EngineConfig {
                    inference_mode: mode,
                    state_prune_threshold: Single { bits: QUANTIZED_THRESHOLD_BITS },
                    ..self
                },
                InferenceMode::Standard => EngineConfig { inference_mode: mode, ..self },
            }),
    {
        match mode {
            InferenceMode::LowMemory => EngineConfig {
                inference_mode: mode,
                max_history_length: Some(128),
                state_prune_threshold: Single { bits: LOW_MEMORY_THRESHOLD_BITS },
                ..self
            },
            InferenceMode::Streaming => EngineConfig {
                inference_mode: mode,
                max_history_length: Some(64),
                state_prune_threshold: Single { bits: STREAMING_THRESHOLD_BITS },
                ..self
            },
            InferenceMode::Quantized => EngineConfig {
                inference_mode: mode,
                state_prune_threshold: Single { bits: QUANTIZED_THRESHOLD_BITS },
                ..self
            },
            InferenceMode::Standard => EngineConfig { inference_mode: mode, ..self },
        }
    }

    /// Sets the threshold below which state values are dropped.
    pub fn state_prune_threshold(self, threshold: Single) -> (r: Self)
        ensures
            r == (EngineConfig { state_prune_threshold: threshold, ..self }),
    {
        EngineConfig { state_prune_threshold: threshold, ..self }
    }

    /// Sets the length that the history is trimmed to.
    pub fn max_history_length(self, length: usize) -> (r: Self)
        ensures
            r == (EngineConfig { max_history_length: Some(length), ..self }),
    {
        EngineConfig { max_history_length: Some(length), ..self }
    }
}

/// Information about a loaded model.
#[derive(Debug, Clone, Copy, PartialEq, Eq, Structural)]
pub struct ModelInfo {
    pub model_type: ModelType,
    pub hidden_dim: usize,
    pub state_dim: usize,
    pub num_layers: usize,
}

/// A value with small magnitudes dropped.
pub open spec fn prune_value(x: Single, threshold: Single) -> Single {
    if x.absolute().below(threshold) {
        Single { bits: 0 }
    } else {
        x
    }
}

/// Whether `after` is the table `before` with small magnitudes dropped.
pub open spec fn is_pruned(before: HiddenState, threshold: Single, after: HiddenState) -> bool {
    &&& after.rows == before.rows
    &&& after.cols == before.cols
    &&& after.values@ == Seq::new(
        before.values@.len(),
        |i: int| prune_value(before.values@[i], threshold),
    )
}

/// Whether `after` is the table `before` with every value rounded.
pub open spec fn is_coarse<F: EngineMath>(f: F, before: HiddenState, after: HiddenState) -> bool {
    &&& after.rows == before.rows
    &&& after.cols == before.cols
    &&& after.values@.len() == before.values@.len()
    &&& forall|i: int|
        0 <= i < after.values@.len() ==> call_ensures(
            F::coarsen,
            (&f, before.values@[i]),
            #[trigger] after.values@[i],
        )
}

/// Whether `after` is what an inference mode makes of a state.
pub open spec fn is_settled<F: EngineMath>(
    f: F,
    config: EngineConfig,
    before: HiddenState,
    after: HiddenState,
) -> bool {
    match config.inference_mode {
        InferenceMode::Standard => after == before,
        InferenceMode::LowMemory | InferenceMode::Streaming => is_pruned(
            before,
            config.state_prune_threshold,
            after,
        ),
        InferenceMode::Quantized => exists|coarse: HiddenState| #[trigger]
            is_coarse(f, before, coarse) && is_pruned(coarse, config.state_prune_threshold, after),
    }
}

/// Whether `after` is what an inference mode makes of all states.
pub open spec fn are_settled<F: EngineMath>(
    f: F,
    config: EngineConfig,
    before: Seq<HiddenState>,
    after: Seq<HiddenState>,
) -> bool {
    &&& after.len() == before.len()
    &&& forall|i: int|
        0 <= i < after.len() ==> is_settled(f, config, before[i], #[trigger] after[i])
}

/// The history that an inference mode leaves.
pub open spec fn settled_past(config: EngineConfig, past: Seq<Vec<Single>>) -> Seq<Vec<Single>> {
    match (config.inference_mode, config.max_history_length) {
        (InferenceMode::LowMemory, Some(n)) | (InferenceMode::Streaming, Some(n)) =>
            crate::io::stream::keep_last(past, n as nat),
        _ => past,
    }
}

/// Whether a temperature differs from 1 by more than a millionth, so that
/// logits are scaled by it. The greatest single that does so below 1 has rank
/// `0x3f7fffef`, the least above 1 rank `0x3f800009`.
pub open spec fn is_hot(temperature: Single) -> bool {
    !temperature.nan() && (temperature.rank() <= 0x3f7f_ffef || temperature.rank() >= 0x3f80_0009)
}

/// Whether `out` is what is handed out for logits.
pub open spec fn is_emitted<F: EngineMath>(
    f: F,
    config: EngineConfig,
    logits: Seq<Single>,
    out: InferenceResult<Vec<Single>>,
) -> bool {
    if config.use_embeddings {
        exists|all: &[Single], picked: Result<Single, String>|
            {
                &&& all@ == logits
                &&& #[trigger] call_ensures(F::sample, (&f, all), picked)
                &&& match picked {
                    Ok(v) => out matches Ok(o) && o@ == seq![v],
                    Err(text) => out == Err::<Vec<Single>, InferenceError>(
                        InferenceError::ForwardError(text),
                    ),
                }
            }
    } else if is_hot(config.sampling.temperature) {
        &&& out is Ok
        &&& out->Ok_0@.len() == logits.len()
        &&& forall|i: int|
            0 <= i < logits.len() ==> call_ensures(
                F::scale,
                (&f, logits[i], config.sampling.temperature),
                #[trigger] out->Ok_0@[i],
            )
    } else {
        out matches Ok(o) && o@ == logits
    }
}

fn prune_state(state: &mut HiddenState, threshold: Single)
    ensures
        is_pruned(*old(state), threshold, *final(state)),
{
    let n: usize = state.values.len();
    let mut i: usize = 0;
    while i < n
        invariant
            i <= n,
            n == state.values@.len(),
            n == old(state).values@.len(),
            state.rows == old(state).rows,
            state.cols == old(state).cols,
            forall|k: int|
                0 <= k < i ==> #[trigger] state.values@[k] == prune_value(
                    old(state).values@[k],
                    threshold,
                ),
            forall|k: int| i <= k < n ==> #[trigger] state.values@[k] == old(state).values@[k],
        decreases n - i,
    {
        if state.values[i].abs().less(threshold) {
            state.values.set(i, Single::zero());
        }
        i += 1;
    }
    assert(state.values@ =~= Seq::new(
        old(state).values@.len(),
        |k: int| prune_value(old(state).values@[k], threshold),
    ));
}

fn coarsen_state<F: EngineMath>(f: &F, state: &mut HiddenState)
    ensures
        is_coarse(*f, *old(state), *final(state)),
{
    let n: usize = state.values.len();
    let mut i: usize = 0;
    while i < n
        invariant
            i <= n,
            n == state.values@.len(),
            n == old(state).values@.len(),
            state.rows == old(state).rows,
            state.cols == old(state).cols,
            forall|k: int|
                0 <= k < i ==> call_ensures(
                    F::coarsen,
                    (f, old(state).values@[k]),
                    #[trigger] state.values@[k],
                ),
            forall|k: int| i <= k < n ==> #[trigger] state.values@[k] == old(state).values@[k],
        decreases n - i,
    {
        let rounded: Single = f.coarsen(state.values[i]);
        state.values.set(i, rounded);
        i += 1;
    }
}

/// The engine: a context, a model and a configuration.
pub struct InferenceEngine<M, F> {
    config: EngineConfig,
    context: InferenceContext,
    model: Option<M>,
    math: F,
    initialized: bool,
}

impl<M: AutoregressiveModel, F: EngineMath> InferenceEngine<M, F> {
    /// The configuration.
    pub closed spec fn settings(&self) -> EngineConfig {
        self.config
    }

    /// The context.
    pub closed spec fn window(&self) -> InferenceContext {
        self.context
    }

    /// The model.
    pub closed spec fn predictor(&self) -> Option<M> {
        self.model
    }

    /// The arithmetic.
    pub closed spec fn numerics(&self) -> F {
        self.math
    }

    /// An engine is ready as soon as it has a model, and its context is
    /// consistent.
    pub closed spec fn wf(&self) -> bool {
        &&& self.context.wf()
        &&& self.initialized == (self.model is Some)
        &&& self.context.settings() == self.config.context
    }

    /// What a consistent engine keeps: its context is consistent and set up
    /// as the configuration says.
    pub proof fn keeps(&self)
        requires
            self.wf(),
        ensures
            self.window().wf(),
            self.window().settings() == self.settings().context,
    {
    }

    /// An engine without a model.
    pub fn new(config: EngineConfig, math: F) -> (r: Self)
        requires
            config.context.fits(),
        ensures
            r.wf(),
            r.settings() == config,
            r.predictor() is None,
            r.numerics() == math,
            r.window().steps() == 0,
            r.window().past().len() == 0,
            r.window().buffers() is None,
            r.window().is_blank_for(r.settings().context),
    {
        let context: InferenceContext = InferenceContext::new(config.context);
        InferenceEngine { config, context, model: None, math, initialized: false }
    }

    /// An engine with a model; the context takes its shape from the model.
    pub fn with_model(config: EngineConfig, model: M, math: F) -> (r: Self)
        requires
            model_fits(model),
        ensures
            r.wf(),
            is_shaped_by(config, model, r.settings()),
            r.predictor() == Some(model),
            r.numerics() == math,
            r.window().steps() == 0,
            r.window().past().len() == 0,
            r.window().buffers() is None,
            r.window().is_blank_for(r.settings().context),
    {
        let context_config: ContextConfig = ContextConfig {
            num_layers: model.num_layers(),
            hidden_dim: model.hidden_dim(),
            state_dim: model.state_dim(),
            ..config.context
        };
        let shaped: EngineConfig = EngineConfig { context: context_config, ..config };
        let context: InferenceContext = InferenceContext::new(context_config);
        InferenceEngine { config: shaped, context, model: Some(model), math, initialized: true }
    }

    /// Gives the engine a model; the context starts anew in the shape of the
    /// model.
    pub fn set_model(&mut self, model: M)
        requires
            old(self).wf(),
            model_fits(model),
        ensures
            final(self).wf(),
            is_shaped_by(old(self).settings(), model, final(self).settings()),
            final(self).predictor() == Some(model),
            final(self).numerics() == old(self).numerics(),
            final(self).window().steps() == 0,
            final(self).window().past().len() == 0,
            final(self).window().buffers() is None,
            final(self).window().is_blank_for(final(self).settings().context),
    {
        let context_config: ContextConfig = ContextConfig {
            num_layers: model.num_layers(),
            hidden_dim: model.hidden_dim(),
            state_dim: model.state_dim(),
            ..self.config.context
        };
        self.config = EngineConfig { context: context_config, ..self.config };
        self.context = InferenceContext::new(context_config);
        self.model = Some(model);
        self.initialized = true;
    }

    /// Whether there is a model.
    pub fn has_model(&self) -> (r: bool)
        ensures
            r == (self.predictor() is Some),
    {
        self.model.is_some()
    }

    /// Whether `self` and `other` differ in their contexts only.
    pub open spec fn same_setup(&self, other: &Self) -> bool {
        &&& self.settings() == other.settings()
        &&& self.predictor() == other.predictor()
        &&& self.numerics() == other.numerics()
    }

    /// What accepting an input does: an engine without a model and an input of
    /// another dimension are refused, and any other input is counted and added
    /// to the history.
    pub open spec fn accepts(
        &self,
        input: Seq<Single>,
        after: &Self,
        r: InferenceResult<()>,
    ) -> bool {
        if self.predictor() is None {
            r == Err::<(), InferenceError>(InferenceError::NotInitialized) && *after == *self
        } else if input.len() != self.settings().input_dim {
            &&& r == Err::<(), InferenceError>(
                InferenceError::DimensionMismatch {
                    expected: self.settings().input_dim,
                    got: input.len() as usize,
                },
            )
            &&& *after == *self
        } else {
            &&& r is Ok
            &&& after.same_setup(self)
            &&& after.window().steps() == self.window().steps() + 1
            &&& after.window().layers() == self.window().layers()
            &&& after.window().buffers() == self.window().buffers()
            &&& if self.settings().context.store_history {
                exists|copy: Vec<Single>|
                    {
                        &&& copy@ == input
                        &&& after.window().past() == #[trigger] crate::io::stream::keep_last(
                            self.window().past().push(copy),
                            self.settings().context.max_context as nat,
                        )
                    }
            } else {
                after.window().past() == self.window().past()
            }
        }
    }

    /// Checks an input and takes it into the context.
    pub fn accept(&mut self, input: &[Single]) -> (r: InferenceResult<()>)
        requires
            old(self).wf(),
            old(self).window().steps() < usize::MAX,
        ensures
            final(self).wf(),
            old(self).accepts(input@, final(self), r),
    {
        if !self.initialized {
            return Err(InferenceError::NotInitialized);
        }
        if input.len() != self.config.input_dim {
            return Err(
                InferenceError::DimensionMismatch {
                    expected: self.config.input_dim,
                    got: input.len(),
                },
            );
        }
        let copy: Vec<Single> = copy_samples(input);
        self.context.push(copy);
        Ok(())
    }

    /// What taking in a model's reply does. An error is passed on. Else the
    /// history is trimmed and the states are settled as the mode says and
    /// stored in the layers; a reply with more states than there are layers
    /// is refused once the layers are filled.
    pub open spec fn absorbs(
        &self,
        reply: ModelReply,
        after: &Self,
        r: InferenceResult<Vec<Single>>,
    ) -> bool {
        match reply {
            Err(text) => {
                &&& r matches Err(InferenceError::ForwardError(t)) && t == text
                &&& *after == *self
            },
            Ok((signal, states)) => {
                let n = self.window().layers().len();
                &&& after.same_setup(self)
                &&& after.window().steps() == self.window().steps()
                &&& after.window().buffers() == self.window().buffers()
                &&& after.window().past() == settled_past(self.settings(), self.window().past())
                &&& exists|settled: Seq<HiddenState>|
                    {
                        &&& #[trigger] are_settled(
                            self.numerics(),
                            self.settings(),
                            states@,
                            settled,
                        )
                        &&& after.window().layers() == if settled.len() < n {
                            settled + self.window().layers().skip(settled.len() as int)
                        } else {
                            settled.take(n as int)
                        }
                    }
                &&& if states@.len() > n {
                    r matches Err(InferenceError::DimensionMismatch { expected, got }) && expected
                        == n && got == n + 1
                } else {
                    r matches Ok(out) && out == signal
                }
            },
        }
    }

    fn settle_past(&mut self)
        requires
            old(self).wf(),
        ensures
            final(self).wf(),
            final(self).same_setup(old(self)),
            final(self).window().steps() == old(self).window().steps(),
            final(self).window().buffers() == old(self).window().buffers(),
            final(self).window().layers() == old(self).window().layers(),
            final(self).window().past() == settled_past(
                old(self).settings(),
                old(self).window().past(),
            ),
    {
        match self.config.inference_mode {
            InferenceMode::LowMemory | InferenceMode::Streaming => {
                if let Some(max_len) = self.config.max_history_length {
                    if self.context.history().len() > max_len {
                        self.context.trim_history(max_len);
                    }
                }
            },
            InferenceMode::Standard | InferenceMode::Quantized => {},
        }
    }

    fn settle(&mut self, states: &mut Vec<HiddenState>)
        requires
            old(self).wf(),
        ensures
            final(self).wf(),
            final(self).same_setup(old(self)),
            final(self).window().steps() == old(self).window().steps(),
            final(self).window().buffers() == old(self).window().buffers(),
            final(self).window().layers() == old(self).window().layers(),
            final(self).window().past() == settled_past(
                old(self).settings(),
                old(self).window().past(),
            ),
            are_settled(
                old(self).numerics(),
                old(self).settings(),
                old(states)@,
                final(states)@,
            ),
    {
        self.settle_past();
        match self.config.inference_mode {
            InferenceMode::Standard => {},
            InferenceMode::LowMemory | InferenceMode::Streaming => {
                self.prune_states(states);
            },
            InferenceMode::Quantized => {
                self.quantize_states(states);
                let ghost coarse = states@;
                self.prune_states(states);
                proof {
                    assert forall|i: int| 0 <= i < states@.len() implies is_settled(
                        self.math,
                        self.config,
                        old(states)@[i],
                        #[trigger] states@[i],
                    ) by {
                        assert(is_coarse(self.math, old(states)@[i], coarse[i]));
                    }
                }
            },
        }
    }

    fn prune_states(&self, states: &mut Vec<HiddenState>)
        ensures
            final(states)@.len() == old(states)@.len(),
            forall|i: int|
                0 <= i < final(states)@.len() ==> is_pruned(
                    old(states)@[i],
                    self.settings().state_prune_threshold,
                    #[trigger] final(states)@[i],
                ),
    {
        let n: usize = states.len();
        let mut i: usize = 0;
        while i < n
            invariant
                i <= n,
                n == states@.len(),
                n == old(states)@.len(),
                forall|k: int|
                    0 <= k < i ==> is_pruned(
                        old(states)@[k],
                        self.config.state_prune_threshold,
                        #[trigger] states@[k],
                    ),
                forall|k: int| i <= k < n ==> #[trigger] states@[k] == old(states)@[k],
            decreases n - i,
        {
            prune_state(&mut states[i], self.config.state_prune_threshold);
            i += 1;
        }
    }

    fn quantize_states(&self, states: &mut Vec<HiddenState>)
        ensures
            final(states)@.len() == old(states)@.len(),
            forall|i: int|
                0 <= i < final(states)@.len() ==> is_coarse(
                    self.numerics(),
                    old(states)@[i],
                    #[trigger] final(states)@[i],
                ),
    {
        let n: usize = states.len();
        let mut i: usize = 0;
        while i < n
            invariant
                i <= n,
                n == states@.len(),
                n == old(states)@.len(),
                forall|k: int|
                    0 <= k < i ==> is_coarse(self.math, old(states)@[k], #[trigger] states@[k]),
                forall|k: int| i <= k < n ==> #[trigger] states@[k] == old(states)@[k],
            decreases n - i,
        {
            coarsen_state(&self.math, &mut states[i]);
            i += 1;
        }
    }

    /// Takes in a model's reply.
    pub fn absorb(&mut self, reply: ModelReply) -> (r: InferenceResult<Vec<Single>>)
        requires
            old(self).wf(),
        ensures
            final(self).wf(),
            old(self).absorbs(reply, final(self), r),
    {
        match reply {
            Err(text) => Err(InferenceError::ForwardError(text)),
            Ok((signal, states)) => {
                let mut settled: Vec<HiddenState> = states;
                self.settle(&mut settled);
                let ghost all = settled@;
                let ghost before = self.window().layers();
                let ghost n = before.len();
                let layers: usize = self.context.states().len();
                let count: usize = settled.len();
                let stored: usize = if count < layers {
                    count
                } else {
                    layers
                };
                let mut rest: Vec<HiddenState> = settled;
                let mut i: usize = 0;
                let ghost mid = *self;
                while i < stored
                    invariant
                        i <= stored,
                        stored <= count,
                        stored <= layers,
                        layers == n,
                        n == before.len(),
                        all.len() == count,
                        rest@ == all.skip(i as int),
                        self.wf(),
                        self.same_setup(&mid),
                        self.window().steps() == mid.window().steps(),
                        self.window().buffers() == mid.window().buffers(),
                        self.window().past() == mid.window().past(),
                        self.window().layers() == all.take(i as int) + before.skip(i as int),
                    decreases stored - i,
                {
                    let state: HiddenState = rest.remove(0);
                    assert(state == all[i as int]);
                    assert(rest@ =~= all.skip(i + 1));
                    let ghost earlier = self.window().layers();
                    let outcome: InferenceResult<()> = self.context.update_state(i, state);
                    assert(self.window().layers() =~= all.take(i + 1) + before.skip(i + 1));
                    i += 1;
                }
                proof {
                    if count < layers {
                        assert(all.take(i as int) =~= all);
                        assert(self.window().layers() =~= all + before.skip(count as int));
                    } else {
                        assert(self.window().layers() =~= all.take(n as int));
                    }
                    assert(are_settled(
                        old(self).numerics(),
                        old(self).settings(),
                        states@,
                        all,
                    ));
                }
                if count > layers {
                    return Err(
                        InferenceError::DimensionMismatch { expected: layers, got: layers + 1 },
                    );
                }
                Ok(signal)
            },
        }
    }

    /// Makes an output of logits: one sample where outputs are discrete, else
    /// the logits, scaled where the temperature says so.
    pub fn emit(&self, logits: Vec<Single>) -> (r: InferenceResult<Vec<Single>>)
        ensures
            is_emitted(self.numerics(), self.settings(), logits@, r),
    {
        if self.config.use_embeddings {
            match self.math.sample(logits.as_slice()) {
                Ok(picked) => {
                    let out: Vec<Single> = vec![picked];
                    assert(out@ =~= seq![picked]);
                    Ok(out)
                },
                Err(text) => Err(InferenceError::ForwardError(text)),
            }
        } else {
            let temperature: Single = self.config.sampling.temperature;
            if temperature_is_hot(temperature) {
                let mut out: Vec<Single> = Vec::with_capacity(logits.len());
                let mut i: usize = 0;
                while i < logits.len()
                    invariant
                        i <= logits@.len(),
                        out@.len() == i,
                        temperature == self.config.sampling.temperature,
                        forall|k: int|
                            0 <= k < i ==> call_ensures(
                                F::scale,
                                (&self.math, logits@[k], temperature),
                                #[trigger] out@[k],
                            ),
                    decreases logits@.len() - i,
                {
                    let scaled: Single = self.math.scale(logits[i], temperature);
                    out.push(scaled);
                    i += 1;
                }
                Ok(out)
            } else {
                Ok(logits)
            }
        }
    }

    /// What one step does: the input is accepted, the model is asked with the
    /// states of the layers, its reply is taken in, and an output is made of
    /// it.
    pub open spec fn steps(
        &self,
        input: Seq<Single>,
        after: &Self,
        r: InferenceResult<Vec<Single>>,
    ) -> bool {
        exists|mid: Self, accepted: InferenceResult<()>|
            {
                &&& #[trigger] self.accepts(input, &mid, accepted)
                &&& mid.wf()
                &&& match accepted {
                    Err(e) => r == Err::<Vec<Single>, InferenceError>(e) && *after == mid,
                    Ok(_) => mid.answers(input, after, r),
                }
            }
    }

    /// What follows once an input is accepted.
    pub open spec fn answers(
        &self,
        input: Seq<Single>,
        after: &Self,
        r: InferenceResult<Vec<Single>>,
    ) -> bool {
        exists|reply: ModelReply, absorbed: InferenceResult<Vec<Single>>|
            {
                &&& crate::inference::model::is_reply(
                    self.predictor()->0,
                    self.window().layers(),
                    input,
                    reply,
                )
                &&& #[trigger] self.absorbs(reply, after, absorbed)
                &&& match absorbed {
                    Err(e) => r == Err::<Vec<Single>, InferenceError>(e),
                    Ok(logits) => is_emitted(self.numerics(), self.settings(), logits@, r),
                }
            }
    }

    /// What a step on the input can come to: it depends on the model, the
    /// states of the layers and the configuration, and on nothing else.
    pub open spec fn outcome(&self, input: Seq<Single>, r: InferenceResult<Vec<Single>>) -> bool {
        if self.predictor() is None {
            r == Err::<Vec<Single>, InferenceError>(InferenceError::NotInitialized)
        } else if input.len() != self.settings().input_dim {
            r == Err::<Vec<Single>, InferenceError>(
                InferenceError::DimensionMismatch {
                    expected: self.settings().input_dim,
                    got: input.len() as usize,
                },
            )
        } else {
            exists|reply: ModelReply|
                {
                    &&& #[trigger] crate::inference::model::is_reply(
                        self.predictor()->0,
                        self.window().layers(),
                        input,
                        reply,
                    )
                    &&& self.tells(reply, r)
                }
        }
    }

    /// What a model's reply comes to for the one who asked.
    pub open spec fn tells(&self, reply: ModelReply, r: InferenceResult<Vec<Single>>) -> bool {
        let n = self.window().layers().len();
        match reply {
            Err(text) => r == Err::<Vec<Single>, InferenceError>(
                InferenceError::ForwardError(text),
            ),
            Ok((signal, states)) => if states@.len() > n {
                r == Err::<Vec<Single>, InferenceError>(
                    InferenceError::DimensionMismatch { expected: n as usize, got: (n + 1) as usize },
                )
            } else {
                is_emitted(self.numerics(), self.settings(), signal@, r)
            },
        }
    }

    /// Two engines with the same model and configuration, and with their
    /// layers in the same states, can come to the same on an input, whatever
    /// inputs came before.
    pub proof fn outcome_rests_on_layers(
        &self,
        other: &Self,
        input: Seq<Single>,
        r: InferenceResult<Vec<Single>>,
    )
        requires
            self.same_setup(other),
            self.window().layers() == other.window().layers(),
        ensures
            self.outcome(input, r) == other.outcome(input, r),
    {
    }

    fn ask(&self, input: &[Single]) -> (reply: ModelReply)
        requires
            self.predictor() is Some,
        ensures
            crate::inference::model::is_reply(
                self.predictor()->0,
                self.window().layers(),
                input@,
                reply,
            ),
    {
        match &self.model {
            Some(model) => {
                let states: &[HiddenState] = self.context.states();
                assert(states@ == self.window().layers() && input@ == input@);
                model.advance(states, input)
            },
            None => Err(String::new()),
        }
    }

    /// Predicts the signal that follows the input.
    pub fn step(&mut self, input: &[Single]) -> (r: InferenceResult<Vec<Single>>)
        requires
            old(self).wf(),
            old(self).window().steps() < usize::MAX,
        ensures
            final(self).wf(),
            final(self).same_setup(old(self)),
            final(self).window().steps() == old(self).window().steps() + if old(
                self,
            ).predictor() is Some && input@.len() == old(self).settings().input_dim {
                1nat
            } else {
                0
            },
            old(self).steps(input@, final(self), r),
            old(self).outcome(input@, r),
            r == Err::<Vec<Single>, InferenceError>(InferenceError::NotInitialized) <==> old(
                self,
            ).predictor() is None,
            old(self).predictor() is None ==> *final(self) == *old(self),
            old(self).predictor() is Some && input@.len() != old(self).settings().input_dim ==> r
                == Err::<Vec<Single>, InferenceError>(
                InferenceError::DimensionMismatch {
                    expected: old(self).settings().input_dim,
                    got: input@.len() as usize,
                },
            ) && *final(self) == *old(self),
            r is Ok ==> final(self).window().steps() == old(self).window().steps() + 1,
    {
        let accepted: InferenceResult<()> = self.accept(input);
        let ghost mid = *self;
        assert(old(self).accepts(input@, &mid, accepted));
        match accepted {
            Err(e) => Err(e),
            Ok(_) => {
                let reply: ModelReply = self.ask(input);
                let absorbed: InferenceResult<Vec<Single>> = self.absorb(reply);
                assert(mid.absorbs(reply, self, absorbed));
                match absorbed {
                    Err(e) => Err(e),
                    Ok(logits) => self.emit(logits),
                }
            },
        }
    }

    /// Whether `trace` holds the engines between steps that take the inputs
    /// to the outputs, one by one.
    pub open spec fn runs(
        trace: Seq<Self>,
        inputs: Seq<Seq<Single>>,
        outs: Seq<Vec<Single>>,
    ) -> bool {
        &&& trace.len() == outs.len() + 1
        &&& inputs.len() >= outs.len()
        &&& forall|i: int|
            0 <= i < outs.len() ==> trace[i].steps(
                inputs[i],
                &trace[i + 1],
                Ok::<Vec<Single>, InferenceError>(#[trigger] outs[i]),
            )
    }

    /// What a rollout comes to: each output is the next input.
    pub open spec fn rollout_comes_to(
        &self,
        input: Seq<Single>,
        n: nat,
        after: &Self,
        r: InferenceResult<Vec<Vec<Single>>>,
    ) -> bool {
        exists|trace: Seq<Self>, outs: Seq<Vec<Single>>|
            {
                &&& #[trigger] Self::runs(trace, fed_back(input, outs), outs)
                &&& trace[0] == *self
                &&& match r {
                    Ok(all) => all@ == outs && outs.len() == n && *after == trace.last(),
                    Err(e) => {
                        &&& outs.len() < n
                        &&& trace.last().steps(
                            fed_back(input, outs).last(),
                            after,
                            Err::<Vec<Single>, InferenceError>(e),
                        )
                    },
                }
            }
    }

    /// Predicts `steps` signals, each from the one before.
    pub fn rollout(&mut self, input: &[Single], steps: usize) -> (r: InferenceResult<
        Vec<Vec<Single>>,
    >)
        requires
            old(self).wf(),
            old(self).window().steps() + steps <= usize::MAX,
        ensures
            final(self).wf(),
            final(self).same_setup(old(self)),
            old(self).rollout_comes_to(input@, steps as nat, final(self), r),
            r is Ok ==> r->Ok_0@.len() == steps && final(self).window().steps() == old(
                self,
            ).window().steps() + steps,
            steps == 0 ==> r is Ok && *final(self) == *old(self),
            steps > 0 && old(self).predictor() is None ==> r is Err,
    {
        let mut outputs: Vec<Vec<Single>> = Vec::with_capacity(steps);
        let mut current: Vec<Single> = copy_samples(input);
        let ghost mut trace: Seq<Self> = seq![*self];
        let mut i: usize = 0;
        while i < steps
            invariant
                i <= steps,
                self.wf(),
                self.same_setup(old(self)),
                old(self).window().steps() + steps <= usize::MAX,
                self.window().steps() == old(self).window().steps() + i,
                i == outputs@.len(),
                i > 0 ==> old(self).predictor() is Some,
                trace.len() == i + 1,
                trace[0] == *old(self),
                trace.last() == *self,
                current@ == fed_back(input@, outputs@).last(),
                Self::runs(trace, fed_back(input@, outputs@), outputs@),
            decreases steps - i,
        {
            let ghost before = *self;
            let ghost outs = outputs@;
            let output: InferenceResult<Vec<Single>> = self.step(current.as_slice());
            match output {
                Err(e) => {
                    assert(before.steps(
                        fed_back(input@, outs).last(),
                        self,
                        Err::<Vec<Single>, InferenceError>(e),
                    ));
                    return Err(e);
                },
                Ok(out) => {
                    current = copy_samples(out.as_slice());
                    outputs.push(out);
                    proof {
                        let longer = trace.push(*self);
                        let inputs = fed_back(input@, outputs@);
                        assert forall|k: int| 0 <= k < outputs@.len() implies longer[k].steps(
                            inputs[k],
                            &longer[k + 1],
                            Ok::<Vec<Single>, InferenceError>(#[trigger] outputs@[k]),
                        ) by {
                            if k < outs.len() {
                                assert(outs[k] == outputs@[k]);
                                assert(inputs[k] == fed_back(input@, outs)[k]);
                            } else {
                                assert(inputs[k] == fed_back(input@, outs).last());
                            }
                        }
                        trace = longer;
                    }
                },
            }
            i += 1;
        }
        Ok(outputs)
    }

    /// Forgets the history and sets every layer to zero.
    pub fn reset(&mut self)
        requires
            old(self).wf(),
        ensures
            final(self).wf(),
            final(self).same_setup(old(self)),
            final(self).window().steps() == 0,
            final(self).window().past().len() == 0,
            forall|i: int|
                0 <= i < final(self).window().layers().len() ==> old(
                    self,
                ).window().layers()[i].zeroed_to(#[trigger] &final(self).window().layers()[i]),
    {
        self.context.reset();
    }

    /// The number of steps so far.
    pub fn step_count(&self) -> (n: usize)
        ensures
            n == self.window().steps(),
    {
        self.context.step_count()
    }

    /// The configuration.
    pub fn config(&self) -> (r: &EngineConfig)
        ensures
            *r == self.settings(),
    {
        &self.config
    }

    /// The context.
    pub fn context(&self) -> (r: &InferenceContext)
        ensures
            *r == self.window(),
    {
        &self.context
    }

    /// The arithmetic and the sampler.
    pub fn sampler(&self) -> (r: &F)
        ensures
            *r == self.numerics(),
    {
        &self.math
    }

    /// The arithmetic and the sampler, to change them.
    pub fn sampler_mut(&mut self) -> (r: &mut F)
        requires
            old(self).wf(),
        ensures
            *r == old(self).numerics(),
            final(self).wf(),
            final(self).numerics() == *final(r),
            final(self).settings() == old(self).settings(),
            final(self).window() == old(self).window(),
            final(self).predictor() == old(self).predictor(),
    {
        &mut self.math
    }

    /// What a look ahead does: what a step does, but for the states after it,
    /// which belong to the input and are not kept.
    pub open spec fn looks_ahead(
        &self,
        input: Seq<Single>,
        after: &Self,
        r: InferenceResult<Vec<Single>>,
    ) -> bool {
        exists|mid: Self, accepted: InferenceResult<()>|
            {
                &&& #[trigger] self.accepts(input, &mid, accepted)
                &&& mid.wf()
                &&& match accepted {
                    Err(e) => r == Err::<Vec<Single>, InferenceError>(e) && *after == mid,
                    Ok(_) => mid.previews(input, after, r),
                }
            }
    }

    /// What follows once an input is accepted: the history is trimmed where
    /// the model replied, and nothing else changes.
    pub open spec fn previews(
        &self,
        input: Seq<Single>,
        after: &Self,
        r: InferenceResult<Vec<Single>>,
    ) -> bool {
        exists|reply: ModelReply|
            {
                &&& #[trigger] crate::inference::model::is_reply(
                    self.predictor()->0,
                    self.window().layers(),
                    input,
                    reply,
                )
                &&& self.tells(reply, r)
                &&& after.same_setup(self)
                &&& after.window().steps() == self.window().steps()
                &&& after.window().buffers() == self.window().buffers()
                &&& after.window().layers() == self.window().layers()
                &&& after.window().past() == match reply {
                    Ok(_) => settled_past(self.settings(), self.window().past()),
                    Err(_) => self.window().past(),
                }
            }
    }

    fn look_ahead(&mut self, input: &[Single]) -> (r: InferenceResult<Vec<Single>>)
        requires
            old(self).wf(),
            old(self).window().steps() < usize::MAX,
        ensures
            final(self).wf(),
            final(self).same_setup(old(self)),
            final(self).window().layers() == old(self).window().layers(),
            final(self).window().buffers() == old(self).window().buffers(),
            final(self).window().steps() == old(self).window().steps() + if old(
                self,
            ).predictor() is Some && input@.len() == old(self).settings().input_dim {
                1nat
            } else {
                0
            },
            old(self).looks_ahead(input@, final(self), r),
            old(self).outcome(input@, r),
            r is Ok ==> final(self).window().steps() == old(self).window().steps() + 1,
    {
        let accepted: InferenceResult<()> = self.accept(input);
        let ghost mid = *self;
        assert(old(self).accepts(input@, &mid, accepted));
        match accepted {
            Err(e) => Err(e),
            Ok(_) => {
                let reply: ModelReply = self.ask(input);
                match reply {
                    Err(text) => {
                        let r: InferenceResult<Vec<Single>> = Err(
                            InferenceError::ForwardError(text),
                        );
                        assert(mid.tells(reply, r));
                        assert(mid.previews(input@, self, r));
                        r
                    },
                    Ok((signal, states)) => {
                        self.settle_past();
                        let layers: usize = self.context.states().len();
                        let r: InferenceResult<Vec<Single>> = if states.len() > layers {
                            Err(
                                InferenceError::DimensionMismatch {
                                    expected: layers,
                                    got: layers + 1,
                                },
                            )
                        } else {
                            self.emit(signal)
                        };
                        assert(mid.tells(reply, r));
                        assert(mid.previews(input@, self, r));
                        r
                    },
                }
            },
        }
    }

    /// Whether `trace` holds the engines between looks ahead that take the
    /// inputs to the outputs, one by one.
    pub open spec fn looks(
        trace: Seq<Self>,
        inputs: Seq<Seq<Single>>,
        outs: Seq<Vec<Single>>,
    ) -> bool {
        &&& trace.len() == outs.len() + 1
        &&& inputs.len() >= outs.len()
        &&& forall|i: int|
            0 <= i < outs.len() ==> trace[i].looks_ahead(
                inputs[i],
                &trace[i + 1],
                Ok::<Vec<Single>, InferenceError>(#[trigger] outs[i]),
            )
    }

    /// What a batch comes to. Each output is what a step on its own input can
    /// come to from the states at the call; the first error ends the batch.
    pub open spec fn batch_comes_to(
        &self,
        inputs: Seq<Seq<Single>>,
        r: InferenceResult<Vec<Vec<Single>>>,
    ) -> bool {
        match r {
            Ok(outs) => {
                &&& outs@.len() == inputs.len()
                &&& forall|i: int|
                    0 <= i < outs@.len() ==> self.outcome(
                        inputs[i],
                        Ok::<Vec<Single>, InferenceError>(#[trigger] outs@[i]),
                    )
            },
            Err(e) => exists|k: int|
                {
                    &&& 0 <= k < inputs.len()
                    &&& self.outcome(#[trigger] inputs[k], Err::<Vec<Single>, InferenceError>(e))
                    &&& forall|i: int|
                        0 <= i < k ==> self.answers_well(#[trigger] inputs[i])
                },
        }
    }

    /// Whether a step on the input can come to an output.
    pub open spec fn answers_well(&self, input: Seq<Single>) -> bool {
        exists|out: Vec<Single>| #[trigger]
            self.outcome(input, Ok::<Vec<Single>, InferenceError>(out))
    }

    /// Predicts one signal for each input, each from the states of the layers
    /// at the call and independently of the other inputs. The states after an
    /// input are its own: the layers stay as they are. Every input is counted
    /// and added to the history, in order; the first error ends the batch.
    pub fn step_batch(&mut self, inputs: &[Vec<Single>]) -> (r: InferenceResult<Vec<Vec<Single>>>)
        requires
            old(self).wf(),
            old(self).window().steps() + inputs@.len() <= usize::MAX,
        ensures
            final(self).wf(),
            final(self).same_setup(old(self)),
            final(self).window().layers() == old(self).window().layers(),
            final(self).window().buffers() == old(self).window().buffers(),
            old(self).predictor() is None ==> r == Err::<Vec<Vec<Single>>, InferenceError>(
                InferenceError::NotInitialized,
            ) && *final(self) == *old(self),
            old(self).predictor() is Some ==> old(self).batch_comes_to(views(inputs@), r),
            old(self).predictor() is Some ==> exists|trace: Seq<Self>, outs: Seq<Vec<Single>>|
                {
                    &&& #[trigger] Self::looks(trace, views(inputs@), outs)
                    &&& trace[0] == *old(self)
                    &&& match r {
                        Ok(all) => all@ == outs && *final(self) == trace.last(),
                        Err(e) => {
                            &&& outs.len() < inputs@.len()
                            &&& trace.last().looks_ahead(
                                views(inputs@)[outs.len() as int],
                                final(self),
                                Err::<Vec<Single>, InferenceError>(e),
                            )
                        },
                    }
                },
            r is Ok ==> final(self).window().steps() == old(self).window().steps()
                + inputs@.len(),
    {
        if !self.initialized {
            return Err(InferenceError::NotInitialized);
        }
        let mut outputs: Vec<Vec<Single>> = Vec::with_capacity(inputs.len());
        let ghost mut trace: Seq<Self> = seq![*self];
        let mut i: usize = 0;
        while i < inputs.len()
            invariant
                i <= inputs@.len(),
                self.wf(),
                self.same_setup(old(self)),
                self.window().layers() == old(self).window().layers(),
                self.window().buffers() == old(self).window().buffers(),
                old(self).predictor() is Some,
                old(self).window().steps() + inputs@.len() <= usize::MAX,
                self.window().steps() == old(self).window().steps() + i,
                i == outputs@.len(),
                trace.len() == i + 1,
                trace[0] == *old(self),
                trace.last() == *self,
                Self::looks(trace, views(inputs@), outputs@),
                forall|k: int|
                    0 <= k < i ==> old(self).outcome(
                        views(inputs@)[k],
                        Ok::<Vec<Single>, InferenceError>(#[trigger] outputs@[k]),
                    ),
            decreases inputs@.len() - i,
        {
            let ghost before = *self;
            let ghost outs = outputs@;
            let output: InferenceResult<Vec<Single>> = self.look_ahead(inputs[i].as_slice());
            proof {
                before.outcome_rests_on_layers(old(self), views(inputs@)[i as int], output);
            }
            match output {
                Err(e) => {
                    proof {
                        assert(before.looks_ahead(
                            views(inputs@)[i as int],
                            self,
                            Err::<Vec<Single>, InferenceError>(e),
                        ));
                        assert forall|k: int| 0 <= k < i implies old(self).answers_well(
                            #[trigger] views(inputs@)[k],
                        ) by {
                            assert(old(self).outcome(
                                views(inputs@)[k],
                                Ok::<Vec<Single>, InferenceError>(outs[k]),
                            ));
                        }
                        assert(old(self).outcome(
                            views(inputs@)[i as int],
                            Err::<Vec<Single>, InferenceError>(e),
                        ));
                    }
                    return Err(e);
                },
                Ok(out) => {
                    outputs.push(out);
                    proof {
                        let longer = trace.push(*self);
                        assert forall|k: int| 0 <= k < outputs@.len() implies longer[k].looks_ahead(
                            views(inputs@)[k],
                            &longer[k + 1],
                            Ok::<Vec<Single>, InferenceError>(#[trigger] outputs@[k]),
                        ) by {
                            if k < outs.len() {
                                assert(outs[k] == outputs@[k]);
                            }
                        }
                        assert forall|k: int| 0 <= k < outputs@.len() implies old(self).outcome(
                            views(inputs@)[k],
                            Ok::<Vec<Single>, InferenceError>(#[trigger] outputs@[k]),
                        ) by {
                            if k < outs.len() {
                                assert(outs[k] == outputs@[k]);
                            }
                        }
                        trace = longer;
                    }
                },
            }
            i += 1;
        }
        Ok(outputs)
    }

    /// Information about the model.
    pub fn model_info(&self) -> (r: Option<ModelInfo>)
        ensures
            match r {
                Some(info) => {
                    &&& self.predictor() is Some
                    &&& call_ensures(M::model_type, (&self.predictor()->0,), info.model_type)
                    &&& call_ensures(M::hidden_dim, (&self.predictor()->0,), info.hidden_dim)
                    &&& call_ensures(M::state_dim, (&self.predictor()->0,), info.state_dim)
                    &&& call_ensures(M::num_layers, (&self.predictor()->0,), info.num_layers)
                },
                None => self.predictor() is None,
            },
    {
        match &self.model {
            Some(model) => Some(
                ModelInfo {
                    model_type: model.model_type(),
                    hidden_dim: model.hidden_dim(),
                    state_dim: model.state_dim(),
                    num_layers: model.num_layers(),
                },
            ),
            None => None,
        }
    }
}

/// The contents of vectors.
pub open spec fn views(s: Seq<Vec<Single>>) -> Seq<Seq<Single>> {
    Seq::new(s.len(), |i: int| s[i]@)
}

/// The inputs of a rollout: the first one is given, and each output is the
/// next one.
pub open spec fn fed_back(input: Seq<Single>, outs: Seq<Vec<Single>>) -> Seq<Seq<Single>> {
    Seq::new(
        outs.len() + 1,
        |i: int|
            if i == 0 {
                input
            } else {
                outs[i - 1]@
            },
    )
}

/// Whether a model's dimensions make states that fit in memory.
pub open spec fn model_fits<M: AutoregressiveModel>(model: M) -> bool {
    forall|h: usize, s: usize|
        #![trigger call_ensures(M::hidden_dim, (&model,), h), call_ensures(
            M::state_dim,
            (&model,),
            s,
        )]
        call_ensures(M::hidden_dim, (&model,), h) && call_ensures(M::state_dim, (&model,), s) ==> h
            * s <= usize::MAX
}

/// Whether `after` is a configuration in the shape of a model.
pub open spec fn is_shaped_by<M: AutoregressiveModel>(
    before: EngineConfig,
    model: M,
    after: EngineConfig,
) -> bool {
    &&& call_ensures(M::num_layers, (&model,), after.context.num_layers)
    &&& call_ensures(M::hidden_dim, (&model,), after.context.hidden_dim)
    &&& call_ensures(M::state_dim, (&model,), after.context.state_dim)
    &&& after == (EngineConfig {
        context: ContextConfig {
            num_layers: after.context.num_layers,
            hidden_dim: after.context.hidden_dim,
            state_dim: after.context.state_dim,
            ..before.context
        },
        ..before
    })
}

fn temperature_is_hot(temperature: Single) -> (r: bool)
    ensures
        r == is_hot(temperature),
{
    if temperature.is_nan() {
        return false;
    }
    let low: Single = Single::from_bits(0x3f7f_ffef);
    let high: Single = Single::from_bits(0x3f80_0009);
    temperature.at_most(low) || high.at_most(temperature)
}

} // verus!
