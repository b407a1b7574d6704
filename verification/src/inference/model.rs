//! What the engine needs of models and of arithmetic on samples.

use crate::inference::state::HiddenState;
use crate::number::Single;
use vstd::prelude::*;

verus! {

/// The architectures of models.
#[derive(Debug, Clone, Copy, PartialEq, Eq, Structural)]
pub enum ModelType {
    Mamba,
    Mamba2,
    Rwkv,
    S4,
    S4D,
    Transformer,
}

/// What a model came back with: the signal and the hidden states after it, or
/// the text of its error.
pub type ModelReply = Result<(Vec<Single>, Vec<HiddenState>), String>;

/// A model that predicts the next signal from the current one and from the
/// hidden states of its layers. Nothing is required of what a model returns; an
/// error is carried by its text.
pub trait AutoregressiveModel {
    /// Predicts the signal that follows the input where the layers are in the
    /// given states, and gives the states that the layers are in after it.
    fn advance(&self, states: &[HiddenState], input: &[Single]) -> ModelReply;

    /// The hidden states that the layers start from.
    fn get_states(&self) -> Vec<HiddenState>;

    /// The architecture.
    fn model_type(&self) -> ModelType;

    /// The hidden dimension of a layer.
    fn hidden_dim(&self) -> usize;

    /// The state dimension of a layer.
    fn state_dim(&self) -> usize;

    /// The number of layers.
    fn num_layers(&self) -> usize;
}

/// Whether `reply` is what a model comes back with on an input, where its layers
/// are in the given states.
pub open spec fn is_reply<M: AutoregressiveModel>(
    m: M,
    states: Seq<HiddenState>,
    input: Seq<Single>,
    reply: ModelReply,
) -> bool {
    exists|s: &[HiddenState], x: &[Single]|
        #![trigger s@, x@]
        s@ == states && x@ == input && call_ensures(M::advance, (&m, s, x), reply)
}

/// The arithmetic and the sampling that the engine needs. Nothing is required
/// of what the operations return.
pub trait EngineMath {
    /// Picks an output from logits; an error is carried by its text.
    fn sample(&self, logits: &[Single]) -> Result<Single, String>;

    /// A logit scaled by a temperature.
    fn scale(&self, logit: Single, temperature: Single) -> Single;

    /// A value rounded to a sixty-fourth.
    fn coarsen(&self, value: Single) -> Single;
}

} // verus!
