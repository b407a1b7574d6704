//! Swapping models while the service runs.

use crate::error::{InferenceError, InferenceResult};
use crate::inference::model::{AutoregressiveModel, ModelReply};
use crate::inference::registry::ModelConfig;
use crate::inference::state::HiddenState;
use crate::names::NamedMap;
use crate::number::Single;
use crate::text::join;
use crate::time::{utc_now, Moment, Span};
use vstd::prelude::*;

verus! {

/// How the service changes over to a new model.
#[derive(Debug, Clone, Copy, PartialEq, Eq, Structural)]
pub enum SwapStrategy {
    /// At once.
    Immediate,
    /// Once the requests to the old model are done.
    Graceful,
    /// By sending a part of the requests to the new model.
    Gradual { percentage: u8 },
}

/// A signal of zeros.
pub open spec fn silence(n: nat) -> Seq<Single> {
    Seq::new(n, |i: int| Single { bits: 0 })
}

/// A model with what is known of it.
#[derive(Debug)]
pub struct ModelInstance<M> {
    /// What tells models apart.
    pub id: String,
    /// The version.
    pub version: String,
    /// The model.
    pub model: M,
    /// The configuration.
    pub config: ModelConfig,
    /// When the model was loaded.
    pub loaded_at: Moment,
    /// Whether the last health check succeeded.
    pub healthy: bool,
    /// The number of requests that use the model.
    pub active_requests: usize,
}

impl<M: AutoregressiveModel> ModelInstance<M> {
    /// An instance loaded now, that no request uses.
    pub fn new(id: String, version: String, model: M, config: ModelConfig) -> (r: Self)
        ensures
            r == (ModelInstance {
                id,
                version,
                model,
                config,
                loaded_at: r.loaded_at,
                healthy: true,
                active_requests: 0,
            }),
    {
        ModelInstance {
            id,
            version,
            model,
            config,
            loaded_at: utc_now(),
            healthy: true,
            active_requests: 0,
        }
    }

    /// Counts one more request.
    pub fn acquire(&mut self)
        requires
            old(self).active_requests < usize::MAX,
        ensures
            *final(self) == (ModelInstance {
                active_requests: (old(self).active_requests + 1) as usize,
                ..*old(self)
            }),
    {
        self.active_requests += 1;
    }

    /// Counts one request less; there are never fewer than none.
    pub fn release(&mut self)
        ensures
            *final(self) == (ModelInstance {
                active_requests: if old(self).active_requests > 0 {
                    (old(self).active_requests - 1) as usize
                } else {
                    0
                },
                ..*old(self)
            }),
    {
        if self.active_requests > 0 {
            self.active_requests -= 1;
        }
    }

    /// The number of requests that use the model.
    pub fn request_count(&self) -> (n: usize)
        ensures
            n == self.active_requests,
    {
        self.active_requests
    }

    /// Whether a model's answer to a signal of zeros, from the states that it
    /// starts from, is that of a healthy or an ailing one.
    pub open spec fn is_diagnosis(model: M, hidden_dim: usize, healthy: bool) -> bool {
        exists|states: Vec<HiddenState>, reply: ModelReply|
            {
                &&& #[trigger] call_ensures(M::get_states, (&model,), states)
                &&& #[trigger] crate::inference::model::is_reply(
                    model,
                    states@,
                    silence(hidden_dim as nat),
                    reply,
                )
                &&& healthy == (reply is Ok)
            }
    }

    /// Asks the model for a step on zeros; it is healthy where it answers.
    pub fn health_check(&mut self) -> (r: bool)
        ensures
            *final(self) == (ModelInstance { healthy: r, ..*old(self) }),
            Self::is_diagnosis(old(self).model, old(self).config.hidden_dim, r),
    {
        let zeros: Vec<Single> = vec![Single::zero(); self.config.hidden_dim];
        let ghost blank = silence(self.config.hidden_dim as nat);
        assert(zeros@ =~= blank);
        let states: Vec<HiddenState> = self.model.get_states();
        let s: &[HiddenState] = states.as_slice();
        let x: &[Single] = zeros.as_slice();
        let reply: ModelReply = self.model.advance(s, x);
        assert(s@ == states@ && x@ == blank);
        assert(crate::inference::model::is_reply(self.model, states@, blank, reply));
        self.healthy = reply.is_ok();
        self.healthy
    }
}

/// A record of a swap.
#[derive(Debug)]
pub struct SwapEvent {
    pub timestamp: Moment,
    pub from_version: String,
    pub to_version: String,
    pub strategy: SwapStrategy,
    pub success: bool,
    pub error: Option<String>,
}

impl SwapEvent {
    /// Whether the event records a swap, whenever it was made.
    pub open spec fn records(
        &self,
        from: Seq<char>,
        to: Seq<char>,
        strategy: SwapStrategy,
        note: Option<Seq<char>>,
    ) -> bool {
        &&& self.from_version@ == from
        &&& self.to_version@ == to
        &&& self.strategy == strategy
        &&& self.success
        &&& match note {
            Some(text) => self.error is Some && self.error->0@ == text,
            None => self.error is None,
        }
    }
}

/// What to do before a graceful swap.
#[derive(Debug, Clone, Copy, PartialEq, Eq, Structural)]
pub enum DrainStep {
    /// Swap now.
    Proceed,
    /// Look again after a while.
    Wait { millis: u64 },
}

/// How long a graceful swap waits for requests at most.
pub const DRAIN_TIMEOUT_SECS: u64 = 60;

/// What to do before a graceful swap, where that many requests use the old
/// model and that much time has been waited: requests are waited for, but no
/// longer than a minute.
pub fn drain_step(active_requests: usize, waited: Span) -> (r: DrainStep)
    ensures
        r == if active_requests == 0 || waited.secs > DRAIN_TIMEOUT_SECS || (waited.secs
            == DRAIN_TIMEOUT_SECS && waited.nanos > 0) {
            DrainStep::Proceed
        } else {
            DrainStep::Wait { millis: 100 }
        },
{
    if active_requests == 0 || waited.secs > DRAIN_TIMEOUT_SECS || (waited.secs
        == DRAIN_TIMEOUT_SECS && waited.nanos > 0) {
        DrainStep::Proceed
    } else {
        DrainStep::Wait { millis: 100 }
    }
}

/// Keeps the active model, those that are prepared, and the one before.
pub struct HotSwapManager<M> {
    active_model: ModelInstance<M>,
    staged_models: NamedMap<ModelInstance<M>>,
    previous_model: Option<ModelInstance<M>>,
    traffic_split: NamedMap<u8>,
    swap_history: Vec<SwapEvent>,
}

impl<M: AutoregressiveModel> HotSwapManager<M> {
    /// The active model.
    pub closed spec fn active(&self) -> ModelInstance<M> {
        self.active_model
    }

    /// The models that are prepared.
    pub closed spec fn staged(&self) -> Map<Seq<char>, ModelInstance<M>> {
        self.staged_models@
    }

    /// The names of the models that are prepared.
    pub closed spec fn staged_names(&self) -> Seq<Seq<char>> {
        self.staged_models.keys()
    }

    /// The model to roll back to.
    pub closed spec fn previous(&self) -> Option<ModelInstance<M>> {
        self.previous_model
    }

    /// The percentage of the requests that each model gets, while a swap is
    /// under way.
    pub closed spec fn split(&self) -> Map<Seq<char>, u8> {
        self.traffic_split@
    }

    /// The swaps so far.
    pub closed spec fn events(&self) -> Seq<SwapEvent> {
        self.swap_history@
    }

    /// No name stands twice.
    pub closed spec fn wf(&self) -> bool {
        self.staged_models.wf() && self.traffic_split.wf()
    }

    /// A manager with an active model and nothing prepared.
    pub fn new(initial_model: ModelInstance<M>) -> (r: Self)
        ensures
            r.wf(),
            r.active() == initial_model,
            r.staged() == Map::<Seq<char>, ModelInstance<M>>::empty(),
            r.staged_names().len() == 0,
            r.previous() is None,
            r.split() == Map::<Seq<char>, u8>::empty(),
            r.events().len() == 0,
    {
        HotSwapManager {
            active_model: initial_model,
            staged_models: NamedMap::new(),
            previous_model: None,
            traffic_split: NamedMap::new(),
            swap_history: Vec::new(),
        }
    }

    /// The active model.
    pub fn active_model(&self) -> (r: &ModelInstance<M>)
        ensures
            *r == self.active(),
    {
        &self.active_model
    }

    /// Counts one more request to the active model.
    pub fn acquire_active(&mut self)
        requires
            old(self).wf(),
            old(self).active().active_requests < usize::MAX,
        ensures
            final(self).wf(),
            final(self).same_but_active(old(self)),
            final(self).active() == (ModelInstance {
                active_requests: (old(self).active().active_requests + 1) as usize,
                ..old(self).active()
            }),
    {
        self.active_model.acquire();
    }

    /// Counts one request to the active model less.
    pub fn release_active(&mut self)
        requires
            old(self).wf(),
        ensures
            final(self).wf(),
            final(self).same_but_active(old(self)),
            final(self).active() == (ModelInstance {
                active_requests: if old(self).active().active_requests > 0 {
                    (old(self).active().active_requests - 1) as usize
                } else {
                    0
                },
                ..old(self).active()
            }),
    {
        self.active_model.release();
    }

    /// Whether all but the active model is the same.
    pub open spec fn same_but_active(&self, other: &Self) -> bool {
        &&& self.staged() == other.staged()
        &&& self.staged_names() == other.staged_names()
        &&& self.previous() == other.previous()
        &&& self.split() == other.split()
        &&& self.events() == other.events()
    }

    /// Prepares a model under its identifier, where it passes a health check.
    pub fn prepare_swap(
        &mut self,
        model_id: String,
        version: String,
        model: M,
        config: ModelConfig,
    ) -> (r: InferenceResult<()>)
        requires
            old(self).wf(),
        ensures
            final(self).wf(),
            final(self).active() == old(self).active(),
            final(self).previous() == old(self).previous(),
            final(self).split() == old(self).split(),
            final(self).events() == old(self).events(),
            ModelInstance::is_diagnosis(model, config.hidden_dim, r is Ok),
            match r {
                Ok(_) => exists|instance: ModelInstance<M>|
                    {
                        &&& instance == (ModelInstance {
                            id: instance.id,
                            version,
                            model,
                            config,
                            loaded_at: instance.loaded_at,
                            healthy: true,
                            active_requests: 0,
                        })
                        &&& instance.id@ == model_id@
                        &&& final(self).staged() == #[trigger] old(self).staged().insert(
                            model_id@,
                            instance,
                        )
                        &&& final(self).staged_names() == if old(self).staged().contains_key(
                            model_id@,
                        ) {
                            old(self).staged_names()
                        } else {
                            old(self).staged_names().push(model_id@)
                        }
                    },
                Err(e) => {
                    &&& e matches InferenceError::InitializationError(t) && t@
                        == "New model failed health check"@
                    &&& final(self).staged() == old(self).staged()
                    &&& final(self).staged_names() == old(self).staged_names()
                },
            },
    {
        let mut instance: ModelInstance<M> = ModelInstance::new(
            model_id.clone(),
            version,
            model,
            config,
        );
        if !instance.health_check() {
            return Err(
                InferenceError::InitializationError("New model failed health check".to_owned()),
            );
        }
        let ghost prepared = instance;
        let ghost id = model_id@;
        let replaced: Option<ModelInstance<M>> = self.staged_models.insert(model_id, instance);
        assert(self.staged() == old(self).staged().insert(id, prepared));
        Ok(())
    }

    /// What activating a prepared model does. It is no longer prepared,
    /// whatever comes of it. A swap at once, one after waiting and a gradual
    /// one that sends it all requests make it the active one and keep the
    /// old one to roll back to. A gradual one that sends it fewer only splits
    /// the requests.
    pub open spec fn activates(
        &self,
        id: Seq<char>,
        strategy: SwapStrategy,
        after: &Self,
        r: InferenceResult<()>,
    ) -> bool {
        if !self.staged().contains_key(id) {
            &&& r matches Err(InferenceError::NotFound(t)) && t@ == "Staged model not found: "@ + id
            &&& after.same_but_active(self)
            &&& after.active() == self.active()
        } else {
            let fresh = self.staged()[id];
            &&& after.staged() == self.staged().remove(id)
            &&& after.staged_names() == self.staged_names().remove(
                self.staged_names().index_of(id),
            )
            &&& if strategy is Gradual && strategy->percentage > 100 {
                &&& r matches Err(InferenceError::InvalidConfiguration(t)) && t@
                    == "Percentage must be <= 100"@
                &&& after.active() == self.active()
                &&& after.previous() == self.previous()
                &&& after.split() == self.split()
                &&& after.events() == self.events()
            } else {
                &&& r is Ok
                &&& after.events().len() == self.events().len() + 1
                &&& after.events().drop_last() == self.events()
                &&& after.events().last().records(
                    self.active().version@,
                    fresh.version@,
                    strategy,
                    None,
                )
                &&& match strategy {
                    SwapStrategy::Immediate | SwapStrategy::Graceful => {
                        &&& after.active() == fresh
                        &&& after.previous() == Some(self.active())
                        &&& after.split() == self.split()
                    },
                    SwapStrategy::Gradual { percentage } => if percentage == 100 {
                        &&& after.active() == fresh
                        &&& after.previous() == Some(self.active())
                        &&& after.split() == Map::<Seq<char>, u8>::empty()
                    } else {
                        &&& after.active() == self.active()
                        &&& after.previous() == self.previous()
                        &&& after.split() == self.split().insert(fresh.id@, percentage).insert(
                            self.active().id@,
                            (100 - percentage) as u8,
                        )
                    },
                }
            }
        }
    }

    /// Activates a prepared model. For a graceful swap the caller has waited
    /// as `drain_step` says.
    pub fn activate(&mut self, model_id: &str, strategy: SwapStrategy) -> (r: InferenceResult<()>)
        requires
            old(self).wf(),
        ensures
            final(self).wf(),
            old(self).activates(model_id@, strategy, final(self), r),
    {
        let fresh: ModelInstance<M> = match self.staged_models.remove(model_id) {
            Some(fresh) => fresh,
            None => {
                assert(self.staged() =~= old(self).staged());
                return Err(
                    InferenceError::NotFound(join("Staged model not found: ", model_id)),
                );
            },
        };
        let from_version: String = self.active_model.version.clone();
        let to_version: String = fresh.version.clone();
        match strategy {
            SwapStrategy::Immediate | SwapStrategy::Graceful => {
                self.swap_in(fresh);
            },
            SwapStrategy::Gradual { percentage } => {
                if percentage > 100 {
                    return Err(
                        InferenceError::InvalidConfiguration(
                            "Percentage must be <= 100".to_owned(),
                        ),
                    );
                }
                if percentage == 100 {
                    self.swap_in(fresh);
                    self.traffic_split = NamedMap::new();
                } else {
                    let new_share: Option<u8> = self.traffic_split.insert(fresh.id, percentage);
                    let old_share: Option<u8> = self.traffic_split.insert(
                        self.active_model.id.clone(),
                        100 - percentage,
                    );
                }
            },
        }
        let event: SwapEvent = SwapEvent {
            timestamp: utc_now(),
            from_version,
            to_version,
            strategy,
            success: true,
            error: None,
        };
        self.swap_history.push(event);
        assert(self.swap_history@.drop_last() =~= old(self).swap_history@);
        Ok(())
    }

    fn swap_in(&mut self, fresh: ModelInstance<M>)
        requires
            old(self).wf(),
        ensures
            final(self).wf(),
            final(self).active() == fresh,
            final(self).previous() == Some(old(self).active()),
            final(self).staged() == old(self).staged(),
            final(self).staged_names() == old(self).staged_names(),
            final(self).split() == old(self).split(),
            final(self).events() == old(self).events(),
    {
        let mut held: ModelInstance<M> = fresh;
        std::mem::swap(&mut self.active_model, &mut held);
        self.previous_model = Some(held);
    }

    /// What rolling back does: the model from before is active again, and
    /// there is none to roll back to any more.
    pub open spec fn rolls_back(&self, after: &Self, r: InferenceResult<()>) -> bool {
        &&& after.staged() == self.staged()
        &&& after.staged_names() == self.staged_names()
        &&& after.split() == self.split()
        &&& after.previous() is None
        &&& match self.previous() {
            Some(model) => {
                &&& r is Ok
                &&& after.active() == model
                &&& after.events().len() == self.events().len() + 1
                &&& after.events().drop_last() == self.events()
                &&& after.events().last().records(
                    self.active().version@,
                    model.version@,
                    SwapStrategy::Immediate,
                    Some("Rollback"@),
                )
            },
            None => {
                &&& r matches Err(InferenceError::NotFound(t)) && t@
                    == "No previous model to rollback to"@
                &&& after.active() == self.active()
                &&& after.events() == self.events()
            },
        }
    }

    /// Makes the model from before active again.
    pub fn rollback(&mut self) -> (r: InferenceResult<()>)
        requires
            old(self).wf(),
        ensures
            final(self).wf(),
            old(self).rolls_back(final(self), r),
    {
        match self.previous_model.take() {
            Some(previous) => {
                let from_version: String = self.active_model.version.clone();
                let to_version: String = previous.version.clone();
                self.active_model = previous;
                let event: SwapEvent = SwapEvent {
                    timestamp: utc_now(),
                    from_version,
                    to_version,
                    strategy: SwapStrategy::Immediate,
                    success: true,
                    error: Some("Rollback".to_owned()),
                };
                self.swap_history.push(event);
                assert(self.swap_history@.drop_last() =~= old(self).swap_history@);
                Ok(())
            },
            None => Err(InferenceError::NotFound("No previous model to rollback to".to_owned())),
        }
    }

    /// The swaps so far.
    pub fn history(&self) -> (r: &[SwapEvent])
        ensures
            r@ == self.events(),
    {
        self.swap_history.as_slice()
    }

    /// The names of the models that are prepared.
    pub fn staged_models(&self) -> (r: Vec<String>)
        requires
            self.wf(),
        ensures
            r@.len() == self.staged().dom().len(),
            r@.len() == self.staged_names().len(),
            forall|i: int| 0 <= i < r@.len() ==> (#[trigger] r@[i])@ == self.staged_names()[i],
            forall|name: Seq<char>|
                #[trigger] self.staged_names().contains(name) <==> self.staged().contains_key(name),
    {
        proof {
            self.staged_models.size();
        }
        self.staged_models.names()
    }
}

/// Rolling back undoes a swap: the model that was active before it is active
/// again, both are on record, and there is nothing more to roll back.
pub proof fn rollback_undoes_swap<M: AutoregressiveModel>(
    before: HotSwapManager<M>,
    id: Seq<char>,
    strategy: SwapStrategy,
    swapped: HotSwapManager<M>,
    first: InferenceResult<()>,
    after: HotSwapManager<M>,
    second: InferenceResult<()>,
    again: HotSwapManager<M>,
    third: InferenceResult<()>,
)
    requires
        before.staged().contains_key(id),
        strategy is Gradual ==> strategy->percentage == 100,
        before.activates(id, strategy, &swapped, first),
        swapped.rolls_back(&after, second),
        after.rolls_back(&again, third),
    ensures
        first is Ok,
        second is Ok,
        after.active() == before.active(),
        after.previous() is None,
        after.events().len() == before.events().len() + 2,
        after.events().last().records(
            before.staged()[id].version@,
            before.active().version@,
            SwapStrategy::Immediate,
            Some("Rollback"@),
        ),
        third matches Err(InferenceError::NotFound(_)),
        again.active() == before.active(),
        again.events() == after.events(),
{
}

/// While a swap is under way, the shares of the old and the new model make up
/// all requests.
pub proof fn shares_make_up_all<M: AutoregressiveModel>(
    before: HotSwapManager<M>,
    id: Seq<char>,
    percentage: u8,
    after: HotSwapManager<M>,
    r: InferenceResult<()>,
)
    requires
        before.staged().contains_key(id),
        percentage < 100,
        before.staged()[id].id@ != before.active().id@,
        before.activates(id, SwapStrategy::Gradual { percentage }, &after, r),
    ensures
        after.split().contains_key(before.staged()[id].id@),
        after.split().contains_key(before.active().id@),
        after.split()[before.staged()[id].id@] + after.split()[before.active().id@] == 100,
{
}

} // verus!
