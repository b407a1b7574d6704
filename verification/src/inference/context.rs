//! The sliding window of past inputs and the hidden states of the layers.

use crate::error::{InferenceError, InferenceResult};
use crate::inference::pool::TensorPool;
use crate::inference::state::HiddenState;
use crate::number::Single;
use std::collections::VecDeque;
use vstd::prelude::*;

verus! {

/// Configuration of an inference context.
#[derive(Debug, Clone, Copy, PartialEq, Eq, Structural)]
pub struct ContextConfig {
    /// The number of past inputs that are kept at most.
    pub max_context: usize,
    /// Whether past inputs are kept.
    pub store_history: bool,
    /// The number of layers.
    pub num_layers: usize,
    /// The hidden dimension of a layer.
    pub hidden_dim: usize,
    /// The state dimension of a layer.
    pub state_dim: usize,
}

/// The default configuration.
pub open spec fn default_context() -> ContextConfig {
    ContextConfig {
        max_context: 8192,
        store_history: false,
        num_layers: 4,
        hidden_dim: 256,
        state_dim: 16,
    }
}

impl Default for ContextConfig {
    fn default() -> (r: Self)
        ensures
            r == default_context(),
    {
        ContextConfig {
            max_context: 8192,
            store_history: false,
            num_layers: 4,
            hidden_dim: 256,
            state_dim: 16,
        }
    }
}

impl ContextConfig {
    /// The default configuration.
    pub fn new() -> (r: Self)
        ensures
            r == default_context(),
    {
        Self::default()
    }

    /// Sets the number of past inputs that are kept at most.
    pub fn max_context(self, size: usize) -> (r: Self)
        ensures
            r == (ContextConfig { max_context: size, ..self }),
    {
        ContextConfig { max_context: size, ..self }
    }

    /// Sets whether past inputs are kept.
    pub fn store_history(self, store: bool) -> (r: Self)
        ensures
            r == (ContextConfig { store_history: store, ..self }),
    {
        ContextConfig { store_history: store, ..self }
    }

    /// Sets the number of layers.
    pub fn num_layers(self, n: usize) -> (r: Self)
        ensures
            r == (ContextConfig { num_layers: n, ..self }),
    {
        ContextConfig { num_layers: n, ..self }
    }

    /// Whether the states of all layers fit in memory.
    pub open spec fn fits(self) -> bool {
        self.num_layers > 0 ==> self.hidden_dim * self.state_dim <= usize::MAX
    }
}

/// Whether a state is a table of zeros of the given shape.
pub open spec fn is_blank(state: HiddenState, rows: usize, cols: usize) -> bool {
    &&& state.wf()
    &&& state.rows == rows
    &&& state.cols == cols
    &&& forall|i: int| 0 <= i < state.values@.len() ==> (#[trigger] state.values@[i]).bits == 0
}

/// The history and the hidden states of an inference.
pub struct InferenceContext {
    config: ContextConfig,
    history: VecDeque<Vec<Single>>,
    states: Vec<HiddenState>,
    step_count: usize,
    pool: Option<TensorPool>,
}

impl InferenceContext {
    /// The configuration.
    pub closed spec fn settings(&self) -> ContextConfig {
        self.config
    }

    /// The past inputs, oldest first.
    pub closed spec fn past(&self) -> Seq<Vec<Single>> {
        self.history@
    }

    /// The hidden states of the layers.
    pub closed spec fn layers(&self) -> Seq<HiddenState> {
        self.states@
    }

    /// The number of inputs so far.
    pub closed spec fn steps(&self) -> nat {
        self.step_count as nat
    }

    /// The pool of buffers.
    pub closed spec fn buffers(&self) -> Option<TensorPool> {
        self.pool
    }

    /// Whether every layer is a table of zeros in the shape of a
    /// configuration.
    pub open spec fn is_blank_for(&self, config: ContextConfig) -> bool {
        forall|i: int|
            0 <= i < self.layers().len() ==> is_blank(
                #[trigger] self.layers()[i],
                config.hidden_dim,
                config.state_dim,
            )
    }

    /// No more past inputs are kept than the configuration says.
    pub open spec fn wf(&self) -> bool {
        &&& self.past().len() <= self.settings().max_context
        &&& !self.settings().store_history ==> self.past().len() == 0
        &&& self.steps() <= usize::MAX
        &&& self.layers().len() == self.settings().num_layers
    }

    fn blank_states(config: &ContextConfig) -> (r: Vec<HiddenState>)
        requires
            config.fits(),
        ensures
            r@.len() == config.num_layers,
            forall|i: int|
                0 <= i < r@.len() ==> is_blank(
                    #[trigger] r@[i],
                    config.hidden_dim,
                    config.state_dim,
                ),
    {
        let mut states: Vec<HiddenState> = Vec::new();
        let mut i: usize = 0;
        while i < config.num_layers
            invariant
                i <= config.num_layers,
                config.fits(),
                states@.len() == i,
                forall|k: int|
                    0 <= k < i ==> is_blank(
                        #[trigger] states@[k],
                        config.hidden_dim,
                        config.state_dim,
                    ),
            decreases config.num_layers - i,
        {
            states.push(HiddenState::new(config.hidden_dim, config.state_dim));
            i += 1;
        }
        states
    }

    /// A context without history, with zeros in every layer.
    pub fn new(config: ContextConfig) -> (r: Self)
        requires
            config.fits(),
        ensures
            r.wf(),
            r.settings() == config,
            r.past().len() == 0,
            r.steps() == 0,
            r.buffers() is None,
            r.is_blank_for(config),
    {
        let states: Vec<HiddenState> = Self::blank_states(&config);
        InferenceContext { config, history: VecDeque::new(), states, step_count: 0, pool: None }
    }

    /// A context without history that has a pool of buffers.
    pub fn with_pool(config: ContextConfig, pool: TensorPool) -> (r: Self)
        requires
            config.fits(),
        ensures
            r.wf(),
            r.settings() == config,
            r.past().len() == 0,
            r.steps() == 0,
            r.buffers() == Some(pool),
            r.is_blank_for(config),
    {
        let states: Vec<HiddenState> = Self::blank_states(&config);
        InferenceContext {
            config,
            history: VecDeque::new(),
            states,
            step_count: 0,
            pool: Some(pool),
        }
    }

    /// The pool of buffers.
    pub fn pool(&self) -> (r: Option<&TensorPool>)
        ensures
            match r {
                Some(pool) => self.buffers() == Some(*pool),
                None => self.buffers() is None,
            },
    {
        self.pool.as_ref()
    }

    /// Gives the context a pool of buffers.
    pub fn enable_pooling(&mut self, pool: TensorPool)
        ensures
            final(self).buffers() == Some(pool),
            final(self).settings() == old(self).settings(),
            final(self).past() == old(self).past(),
            final(self).layers() == old(self).layers(),
            final(self).steps() == old(self).steps(),
    {
        self.pool = Some(pool);
    }

    /// Takes the pool of buffers away.
    pub fn disable_pooling(&mut self)
        ensures
            final(self).buffers() is None,
            final(self).settings() == old(self).settings(),
            final(self).past() == old(self).past(),
            final(self).layers() == old(self).layers(),
            final(self).steps() == old(self).steps(),
    {
        self.pool = None;
    }

    /// Forgets the history and sets every layer to zero.
    pub fn reset(&mut self)
        requires
            old(self).wf(),
        ensures
            final(self).wf(),
            final(self).settings() == old(self).settings(),
            final(self).buffers() == old(self).buffers(),
            final(self).past().len() == 0,
            final(self).steps() == 0,
            forall|i: int|
                0 <= i < final(self).layers().len() ==> old(self).layers()[i].zeroed_to(
                    #[trigger] &final(self).layers()[i],
                ),
    {
        self.history.clear();
        let n: usize = self.states.len();
        let mut i: usize = 0;
        while i < n
            invariant
                i <= n,
                n == self.states@.len(),
                n == old(self).states@.len(),
                self.config == old(self).config,
                self.pool == old(self).pool,
                self.history@.len() == 0,
                forall|k: int|
                    i <= k < n ==> #[trigger] self.states@[k] == old(self).states@[k],
                forall|k: int|
                    0 <= k < i ==> old(self).states@[k].zeroed_to(#[trigger] &self.states@[k]),
            decreases n - i,
        {
            assert(self.states@[i as int] == old(self).states@[i as int]);
            self.states[i].reset();
            i += 1;
        }
        self.step_count = 0;
    }

    /// Counts an input and adds it to the history, of which the newest inputs
    /// are kept.
    pub fn push(&mut self, input: Vec<Single>)
        requires
            old(self).wf(),
            old(self).steps() < usize::MAX,
        ensures
            final(self).wf(),
            final(self).settings() == old(self).settings(),
            final(self).buffers() == old(self).buffers(),
            final(self).layers() == old(self).layers(),
            final(self).steps() == old(self).steps() + 1,
            final(self).past() == if old(self).settings().store_history {
                crate::io::stream::keep_last(
                    old(self).past().push(input),
                    old(self).settings().max_context as nat,
                )
            } else {
                old(self).past()
            },
    {
        if self.config.store_history {
            self.history.push_back(input);
            let ghost all = self.history@;
            if self.history.len() > self.config.max_context {
                let dropped: Option<Vec<Single>> = self.history.pop_front();
                assert(self.history@ =~= all.skip(1));
            }
        }
        self.step_count += 1;
    }

    /// The number of inputs so far.
    pub fn step_count(&self) -> (n: usize)
        ensures
            n == self.steps(),
    {
        self.step_count
    }

    /// The number of past inputs that are kept.
    pub fn history_len(&self) -> (n: usize)
        ensures
            n == self.past().len(),
    {
        self.history.len()
    }

    /// The last `n` inputs, newest first.
    pub fn recent_history(&self, n: usize) -> (r: Vec<&Vec<Single>>)
        ensures
            r@.len() == if n < self.past().len() {
                n as nat
            } else {
                self.past().len()
            },
            forall|i: int|
                0 <= i < r@.len() ==> *(#[trigger] r@[i]) == self.past()[self.past().len() - 1 - i],
    {
        let mut out: Vec<&Vec<Single>> = Vec::new();
        let len: usize = self.history.len();
        let count: usize = if n < len {
            n
        } else {
            len
        };
        let mut i: usize = 0;
        while i < count
            invariant
                i <= count <= len,
                len == self.history@.len(),
                out@.len() == i,
                forall|k: int| 0 <= k < i ==> *(#[trigger] out@[k]) == self.history@[len - 1 - k],
            decreases count - i,
        {
            out.push(&self.history[len - 1 - i]);
            i += 1;
        }
        out
    }

    /// The hidden states of the layers.
    pub fn states(&self) -> (r: &[HiddenState])
        ensures
            r@ == self.layers(),
    {
        self.states.as_slice()
    }

    /// Access to the hidden states of the layers.
    pub fn states_mut(&mut self) -> (r: &mut [HiddenState])
        ensures
            r@ == old(self).layers(),
            final(self).layers() == final(r)@,
            final(self).settings() == old(self).settings(),
            final(self).past() == old(self).past(),
            final(self).steps() == old(self).steps(),
            final(self).buffers() == old(self).buffers(),
    {
        self.states.as_mut_slice()
    }

    /// Replaces the hidden state of a layer.
    pub fn update_state(&mut self, layer: usize, state: HiddenState) -> (r: InferenceResult<()>)
        requires
            layer < usize::MAX,
        ensures
            final(self).settings() == old(self).settings(),
            final(self).past() == old(self).past(),
            final(self).steps() == old(self).steps(),
            final(self).buffers() == old(self).buffers(),
            if layer < old(self).layers().len() {
                r is Ok && final(self).layers() == old(self).layers().update(layer as int, state)
            } else {
                &&& r matches Err(InferenceError::DimensionMismatch { expected, got })
                    && expected == old(self).layers().len() && got == layer + 1
                &&& final(self).layers() == old(self).layers()
            },
    {
        if layer >= self.states.len() {
            return Err(
                InferenceError::DimensionMismatch { expected: self.states.len(), got: layer + 1 },
            );
        }
        self.states.set(layer, state);
        Ok(())
    }

    /// The configuration.
    pub fn config(&self) -> (r: &ContextConfig)
        ensures
            *r == self.settings(),
    {
        &self.config
    }

    /// Whether as many inputs have come as the window holds.
    pub fn is_full(&self) -> (r: bool)
        ensures
            r == (self.steps() >= self.settings().max_context),
    {
        self.step_count >= self.config.max_context
    }

    /// The past inputs, oldest first.
    pub fn history(&self) -> (r: &VecDeque<Vec<Single>>)
        ensures
            r@ == self.past(),
    {
        &self.history
    }

    /// Keeps only the newest `max_len` inputs.
    pub fn trim_history(&mut self, max_len: usize)
        requires
            old(self).wf(),
        ensures
            final(self).wf(),
            final(self).settings() == old(self).settings(),
            final(self).buffers() == old(self).buffers(),
            final(self).layers() == old(self).layers(),
            final(self).steps() == old(self).steps(),
            final(self).past() == crate::io::stream::keep_last(
                old(self).past(),
                max_len as nat,
            ),
    {
        let ghost all = self.history@;
        while self.history.len() > max_len
            invariant
                self.config == old(self).config,
                self.pool == old(self).pool,
                self.states == old(self).states,
                self.step_count == old(self).step_count,
                self.history@.len() <= all.len(),
                all.len() > max_len ==> self.history@.len() >= max_len,
                all.len() <= max_len ==> self.history@ == all,
                self.history@ == all.skip(all.len() - self.history@.len()),
            decreases self.history@.len(),
        {
            let ghost before = self.history@;
            let dropped: Option<Vec<Single>> = self.history.pop_front();
            assert(self.history@ =~= before.drop_first());
            assert(self.history@ =~= all.skip(all.len() - self.history@.len()));
        }
    }
}

} // verus!
