//! Named model configurations, and the parameters that models are built from.

use crate::error::{InferenceError, InferenceResult};
use crate::inference::model::ModelType;
use crate::names::NamedMap;
use crate::number::Single;
use crate::text::join3;
use vstd::prelude::*;

verus! {

/// Configuration of a model.
#[derive(Debug, Clone)]
pub struct ModelConfig {
    /// The architecture.
    pub model_type: ModelType,
    /// Input dimension.
    pub input_dim: usize,
    /// Hidden dimension.
    pub hidden_dim: usize,
    /// Number of layers.
    pub num_layers: usize,
    /// State dimension.
    pub state_dim: usize,
    /// Output dimension.
    pub output_dim: usize,
    /// Where pretrained weights are.
    pub weights_path: Option<String>,
}

/// The configuration that a model type starts from.
pub open spec fn base_config(model_type: ModelType) -> ModelConfig {
    ModelConfig {
        model_type,
        input_dim: 1,
        hidden_dim: 256,
        num_layers: 4,
        state_dim: 16,
        output_dim: 1,
        weights_path: None,
    }
}

impl ModelConfig {
    /// The configuration that a model type starts from.
    pub fn new(model_type: ModelType) -> (r: Self)
        ensures
            r == base_config(model_type),
    {
        ModelConfig {
            model_type,
            input_dim: 1,
            hidden_dim: 256,
            num_layers: 4,
            state_dim: 16,
            output_dim: 1,
            weights_path: None,
        }
    }

    /// Sets the input dimension.
    pub fn input_dim(self, dim: usize) -> (r: Self)
        ensures
            r == (ModelConfig { input_dim: dim, ..self }),
    {
        ModelConfig { input_dim: dim, ..self }
    }

    /// Sets the hidden dimension.
    pub fn hidden_dim(self, dim: usize) -> (r: Self)
        ensures
            r == (ModelConfig { hidden_dim: dim, ..self }),
    {
        ModelConfig { hidden_dim: dim, ..self }
    }

    /// Sets the number of layers.
    pub fn num_layers(self, n: usize) -> (r: Self)
        ensures
            r == (ModelConfig { num_layers: n, ..self }),
    {
        ModelConfig { num_layers: n, ..self }
    }

    /// Sets the state dimension.
    pub fn state_dim(self, dim: usize) -> (r: Self)
        ensures
            r == (ModelConfig { state_dim: dim, ..self }),
    {
        ModelConfig { state_dim: dim, ..self }
    }

    /// Sets the output dimension.
    pub fn output_dim(self, dim: usize) -> (r: Self)
        ensures
            r == (ModelConfig { output_dim: dim, ..self }),
    {
        ModelConfig { output_dim: dim, ..self }
    }

    /// Sets where pretrained weights are.
    pub fn weights_path(self, path: String) -> (r: Self)
        ensures
            r == (ModelConfig { weights_path: Some(path), ..self }),
    {
        ModelConfig { weights_path: Some(path), ..self }
    }
}

/// The bit pattern of -5.0.
pub const TIME_DECAY_INIT_BITS: u32 = 0xc0a0_0000;

/// The bit pattern of 0.001.
pub const DT_MIN_BITS: u32 = 0x3a83_126f;

/// The bit pattern of 0.1.
pub const TENTH_BITS: u32 = 0x3dcc_cccd;

/// The parameters of an RWKV model.
#[derive(Debug, Clone, Copy, PartialEq, Eq, Structural)]
pub struct RwkvConfig {
    pub input_dim: usize,
    pub hidden_dim: usize,
    pub intermediate_dim: usize,
    pub num_layers: usize,
    pub num_heads: usize,
    pub head_dim: usize,
    pub dropout: Single,
    pub time_decay_init: Single,
    pub use_rms_norm: bool,
}

/// The parameters of an S4 model.
#[derive(Debug, Clone, Copy, PartialEq, Eq, Structural)]
pub struct S4Config {
    pub input_dim: usize,
    pub hidden_dim: usize,
    pub state_dim: usize,
    pub num_layers: usize,
    pub dropout: Single,
    pub dt_min: Single,
    pub dt_max: Single,
    pub use_diagonal: bool,
    pub use_rms_norm: bool,
}

/// The parameters of a transformer.
#[derive(Debug, Clone, Copy, PartialEq, Eq, Structural)]
pub struct TransformerConfig {
    pub input_dim: usize,
    pub hidden_dim: usize,
    pub num_heads: usize,
    pub head_dim: usize,
    pub ff_dim: usize,
    pub num_layers: usize,
    pub max_seq_len: usize,
    pub dropout: Single,
    pub use_rms_norm: bool,
    pub causal: bool,
}

/// The parameters of a model, by architecture.
#[derive(Debug, Clone, Copy, PartialEq, Eq, Structural)]
pub enum ModelPlan {
    Rwkv(RwkvConfig),
    S4(S4Config),
    Transformer(TransformerConfig),
}

/// The number of attention heads for a hidden dimension: one for each 64, but
/// at least one.
pub open spec fn head_count(hidden_dim: usize) -> usize {
    if hidden_dim / 64 == 0 {
        1
    } else {
        hidden_dim / 64
    }
}

/// The parameters that a configuration comes to, or why it comes to none.
pub open spec fn plan_of(config: ModelConfig) -> Result<ModelPlan, Seq<char>> {
    let heads = head_count(config.hidden_dim);
    match config.model_type {
        ModelType::Mamba2 => Err("Mamba2 not yet supported - models not exported"@),
        ModelType::Mamba => Err("Mamba not yet supported - models not exported"@),
        ModelType::Rwkv => Ok(
            ModelPlan::Rwkv(
                RwkvConfig {
                    input_dim: config.input_dim,
                    hidden_dim: config.hidden_dim,
                    intermediate_dim: (config.hidden_dim * 4) as usize,
                    num_layers: config.num_layers,
                    num_heads: heads,
                    head_dim: config.hidden_dim / heads,
                    dropout: Single { bits: 0 },
                    time_decay_init: Single { bits: TIME_DECAY_INIT_BITS },
                    use_rms_norm: true,
                },
            ),
        ),
        ModelType::S4 | ModelType::S4D => Ok(
            ModelPlan::S4(
                S4Config {
                    input_dim: config.input_dim,
                    hidden_dim: config.hidden_dim,
                    state_dim: config.state_dim,
                    num_layers: config.num_layers,
                    dropout: Single { bits: 0 },
                    dt_min: Single { bits: DT_MIN_BITS },
                    dt_max: Single { bits: TENTH_BITS },
                    use_diagonal: config.model_type == ModelType::S4D,
                    use_rms_norm: true,
                },
            ),
        ),
        ModelType::Transformer => Ok(
            ModelPlan::Transformer(
                TransformerConfig {
                    input_dim: config.input_dim,
                    hidden_dim: config.hidden_dim,
                    num_heads: heads,
                    head_dim: config.hidden_dim / heads,
                    ff_dim: (config.hidden_dim * 4) as usize,
                    num_layers: config.num_layers,
                    max_seq_len: 8192,
                    dropout: Single { bits: TENTH_BITS },
                    use_rms_norm: true,
                    causal: true,
                },
            ),
        ),
    }
}

/// Whether the widest layer of a configuration can be counted.
pub open spec fn is_countable(config: ModelConfig) -> bool {
    config.model_type is Rwkv || config.model_type is Transformer ==> config.hidden_dim * 4
        <= usize::MAX
}

/// Makes models from their parameters. Nothing is required of what it
/// returns; an error is carried by its text.
pub trait ModelFactory {
    /// The models that are made.
    type Model;

    /// Makes a model.
    fn build(&self, plan: ModelPlan) -> Result<Self::Model, String>;
}

/// Model configurations by name.
pub struct ModelRegistry {
    configs: NamedMap<ModelConfig>,
}

impl View for ModelRegistry {
    type V = Map<Seq<char>, ModelConfig>;

    closed spec fn view(&self) -> Map<Seq<char>, ModelConfig> {
        self.configs@
    }
}

impl ModelRegistry {
    /// No name is registered twice.
    pub closed spec fn wf(&self) -> bool {
        self.configs.wf()
    }

    /// The names in the order in which they were first registered.
    pub closed spec fn order(&self) -> Seq<Seq<char>> {
        self.configs.keys()
    }

    /// A registry without models.
    pub fn new() -> (r: Self)
        ensures
            r.wf(),
            r@ == Map::<Seq<char>, ModelConfig>::empty(),
            r.order().len() == 0,
    {
        ModelRegistry { configs: NamedMap::new() }
    }

    /// Takes weights from a path, which no format is known for: the model
    /// stays as it is.
    pub fn load_weights<M>(&self, model: &mut M, path: &str) -> (r: InferenceResult<()>)
        ensures
            r is Ok,
            *final(model) == *old(model),
    {
        Ok(())
    }

    /// Registers a configuration under a name, in place of an earlier one.
    pub fn register(&mut self, name: String, config: ModelConfig)
        requires
            old(self).wf(),
        ensures
            final(self).wf(),
            final(self)@ == old(self)@.insert(name@, config),
            final(self).order() == if old(self)@.contains_key(name@) {
                old(self).order()
            } else {
                old(self).order().push(name@)
            },
    {
        let replaced: Option<ModelConfig> = self.configs.insert(name, config);
    }

    /// The configuration of a name.
    pub fn get_config(&self, name: &str) -> (r: Option<&ModelConfig>)
        requires
            self.wf(),
        ensures
            match r {
                Some(config) => self@.contains_key(name@) && *config == self@[name@],
                None => !self@.contains_key(name@),
            },
    {
        self.configs.get(name)
    }

    /// All names.
    pub fn list_models(&self) -> (r: Vec<String>)
        requires
            self.wf(),
        ensures
            r@.len() == self@.dom().len(),
            r@.len() == self.order().len(),
            forall|i: int| 0 <= i < r@.len() ==> (#[trigger] r@[i])@ == self.order()[i],
            forall|name: Seq<char>| #[trigger] self.order().contains(name) <==> self@.contains_key(name),
    {
        proof {
            self.configs.size();
        }
        self.configs.names()
    }

    /// Makes the model that is registered under a name.
    pub fn create_model<F: ModelFactory>(&self, factory: &F, name: &str) -> (r: InferenceResult<
        F::Model,
    >)
        requires
            self.wf(),
            self@.contains_key(name@) ==> is_countable(self@[name@]),
        ensures
            if self@.contains_key(name@) {
                match plan_of(self@[name@]) {
                    Ok(plan) => exists|made: Result<F::Model, String>|
                        {
                            &&& #[trigger] call_ensures(F::build, (factory, plan), made)
                            &&& match made {
                                Ok(model) => r == Ok::<F::Model, InferenceError>(model),
                                Err(text) => r matches Err(InferenceError::ModelError(t)) && t
                                    == text,
                            }
                        },
                    Err(text) => r matches Err(InferenceError::PipelineConfig(t)) && t@ == text,
                }
            } else {
                r matches Err(InferenceError::PipelineConfig(t)) && t@ == "Model '"@ + name@
                    + "' not found"@
            },
    {
        match self.plan(name) {
            Ok(plan) => {
                match factory.build(plan) {
                    Ok(model) => Ok(model),
                    Err(text) => Err(InferenceError::ModelError(text)),
                }
            },
            Err(e) => Err(e),
        }
    }

    /// The parameters of the model that is registered under a name.
    pub fn plan(&self, name: &str) -> (r: InferenceResult<ModelPlan>)
        requires
            self.wf(),
            self@.contains_key(name@) ==> is_countable(self@[name@]),
        ensures
            if self@.contains_key(name@) {
                match plan_of(self@[name@]) {
                    Ok(plan) => r == Ok::<ModelPlan, InferenceError>(plan),
                    Err(text) => r matches Err(InferenceError::PipelineConfig(t)) && t@ == text,
                }
            } else {
                r matches Err(InferenceError::PipelineConfig(t)) && t@ == "Model '"@ + name@
                    + "' not found"@
            },
    {
        match self.get_config(name) {
            Some(config) => plan_from_config(config),
            None => Err(InferenceError::PipelineConfig(join3("Model '", name, "' not found"))),
        }
    }
}

/// The parameters that a configuration comes to.
pub fn plan_from_config(config: &ModelConfig) -> (r: InferenceResult<ModelPlan>)
    requires
        is_countable(*config),
    ensures
        match plan_of(*config) {
            Ok(plan) => r == Ok::<ModelPlan, InferenceError>(plan),
            Err(text) => r matches Err(InferenceError::PipelineConfig(t)) && t@ == text,
        },
{
    let num_heads: usize = if config.hidden_dim / 64 == 0 {
        1
    } else {
        config.hidden_dim / 64
    };
    match config.model_type {
        ModelType::Mamba2 => Err(
            InferenceError::PipelineConfig(
                "Mamba2 not yet supported - models not exported".to_owned(),
            ),
        ),
        ModelType::Rwkv => Ok(
            ModelPlan::Rwkv(
                RwkvConfig {
                    input_dim: config.input_dim,
                    hidden_dim: config.hidden_dim,
                    intermediate_dim: config.hidden_dim * 4,
                    num_layers: config.num_layers,
                    num_heads,
                    head_dim: config.hidden_dim / num_heads,
                    dropout: Single { bits: 0 },
                    time_decay_init: Single { bits: TIME_DECAY_INIT_BITS },
                    use_rms_norm: true,
                },
            ),
        ),
        ModelType::S4 | ModelType::S4D => Ok(
            ModelPlan::S4(
                S4Config {
                    input_dim: config.input_dim,
                    hidden_dim: config.hidden_dim,
                    state_dim: config.state_dim,
                    num_layers: config.num_layers,
                    dropout: Single { bits: 0 },
                    dt_min: Single { bits: DT_MIN_BITS },
                    dt_max: Single { bits: TENTH_BITS },
                    use_diagonal: config.model_type == ModelType::S4D,
                    use_rms_norm: true,
                },
            ),
        ),
        ModelType::Transformer => Ok(
            ModelPlan::Transformer(
                TransformerConfig {
                    input_dim: config.input_dim,
                    hidden_dim: config.hidden_dim,
                    num_heads,
                    head_dim: config.hidden_dim / num_heads,
                    ff_dim: config.hidden_dim * 4,
                    num_layers: config.num_layers,
                    max_seq_len: 8192,
                    dropout: Single { bits: TENTH_BITS },
                    use_rms_norm: true,
                    causal: true,
                },
            ),
        ),
        ModelType::Mamba => Err(
            InferenceError::PipelineConfig(
                "Mamba not yet supported - models not exported".to_owned(),
            ),
        ),
    }
}

impl Default for ModelRegistry {
    fn default() -> (r: Self)
        ensures
            r.wf(),
            r@ == Map::<Seq<char>, ModelConfig>::empty(),
    {
        Self::new()
    }
}

/// The heads of a model share its hidden dimension: together they are no
/// wider, and no head is left without width.
pub proof fn heads_share_the_hidden_dimension(hidden_dim: usize)
    ensures
        head_count(hidden_dim) >= 1,
        head_count(hidden_dim) * (hidden_dim / head_count(hidden_dim)) <= hidden_dim,
        hidden_dim >= 1 ==> hidden_dim / head_count(hidden_dim) >= 1,
        hidden_dim % 64 == 0 && hidden_dim > 0 ==> hidden_dim / head_count(hidden_dim) == 64,
{
    let h = head_count(hidden_dim) as int;
    let d = hidden_dim as int;
    assert(h * (d / h) <= d) by (nonlinear_arith)
        requires
            h >= 1,
            d >= 0,
    ;
    if d >= 1 {
        assert(d >= h);
        assert(d / h >= 1) by (nonlinear_arith)
            requires
                d >= h,
                h >= 1,
        ;
    }
    if d % 64 == 0 && d > 0 {
        assert(d == 64 * h);
        assert(d / h == 64) by (nonlinear_arith)
            requires
                d == 64 * h,
                h >= 1,
        ;
    }
}

/// Builds common model configurations.
#[derive(Debug, Clone)]
pub struct ModelBuilder {
    config: ModelConfig,
}

impl ModelBuilder {
    /// The configuration so far.
    pub closed spec fn so_far(&self) -> ModelConfig {
        self.config
    }

    /// Starts a Mamba2 model.
    pub fn mamba2() -> (r: Self)
        ensures
            r.so_far() == base_config(ModelType::Mamba2),
    {
        ModelBuilder { config: ModelConfig::new(ModelType::Mamba2) }
    }

    /// Starts an RWKV model.
    pub fn rwkv() -> (r: Self)
        ensures
            r.so_far() == base_config(ModelType::Rwkv),
    {
        ModelBuilder { config: ModelConfig::new(ModelType::Rwkv) }
    }

    /// Starts an S4 model.
    pub fn s4() -> (r: Self)
        ensures
            r.so_far() == base_config(ModelType::S4),
    {
        ModelBuilder { config: ModelConfig::new(ModelType::S4) }
    }

    /// Starts an S4D model.
    pub fn s4d() -> (r: Self)
        ensures
            r.so_far() == base_config(ModelType::S4D),
    {
        ModelBuilder { config: ModelConfig::new(ModelType::S4D) }
    }

    /// Starts a transformer.
    pub fn transformer() -> (r: Self)
        ensures
            r.so_far() == base_config(ModelType::Transformer),
    {
        ModelBuilder { config: ModelConfig::new(ModelType::Transformer) }
    }

    /// Sets the dimensions.
    pub fn dims(self, input: usize, hidden: usize, output: usize) -> (r: Self)
        ensures
            r.so_far() == (ModelConfig {
                input_dim: input,
                hidden_dim: hidden,
                output_dim: output,
                ..self.so_far()
            }),
    {
        ModelBuilder {
            config: ModelConfig {
                input_dim: input,
                hidden_dim: hidden,
                output_dim: output,
                ..self.config
            },
        }
    }

    /// Sets the number of layers.
    pub fn layers(self, n: usize) -> (r: Self)
        ensures
            r.so_far() == (ModelConfig { num_layers: n, ..self.so_far() }),
    {
        ModelBuilder { config: ModelConfig { num_layers: n, ..self.config } }
    }

    /// Sets the state dimension.
    pub fn state_dim(self, dim: usize) -> (r: Self)
        ensures
            r.so_far() == (ModelConfig { state_dim: dim, ..self.so_far() }),
    {
        ModelBuilder { config: ModelConfig { state_dim: dim, ..self.config } }
    }

    /// The configuration.
    pub fn build(self) -> (r: ModelConfig)
        ensures
            r == self.so_far(),
    {
        self.config
    }
}

} // verus!
