//! Continuous batching: requests join and leave the batch between steps.

use crate::error::{InferenceError, InferenceResult};
use crate::inference::engine::{EngineConfig, InferenceEngine};
use crate::inference::model::{AutoregressiveModel, EngineMath};
use crate::number::Single;
use crate::samples::copy_samples;
use crate::time::{elapsed, now, Span};
use std::collections::VecDeque;
use std::time::Instant;
use vstd::prelude::*;

verus! {

/// Configuration of continuous batching.
#[derive(Debug, Clone, Copy, PartialEq, Eq, Structural)]
pub struct BatchConfig {
    /// The number of requests that are active at most.
    pub max_batch_size: usize,
    /// How long requests wait for others at most, in milliseconds.
    pub max_wait_ms: u64,
    /// The number of waiting requests that form a batch at once.
    pub min_batch_size: usize,
    /// Whether requests are ordered by priority.
    pub enable_priority: bool,
    /// The length of a sequence at most.
    pub max_seq_len: usize,
}

/// The default configuration.
pub open spec fn default_batch() -> BatchConfig {
    BatchConfig {
        max_batch_size: 32,
        max_wait_ms: 10,
        min_batch_size: 1,
        enable_priority: false,
        max_seq_len: 2048,
    }
}

impl Default for BatchConfig {
    fn default() -> (r: Self)
        ensures
            r == default_batch(),
    {
        BatchConfig {
            max_batch_size: 32,
            max_wait_ms: 10,
            min_batch_size: 1,
            enable_priority: false,
            max_seq_len: 2048,
        }
    }
}

impl BatchConfig {
    /// The default configuration.
    pub fn new() -> (r: Self)
        ensures
            r == default_batch(),
    {
        Self::default()
    }

    /// Sets the number of requests that are active at most.
    pub fn max_batch_size(self, size: usize) -> (r: Self)
        ensures
            r == (BatchConfig { max_batch_size: size, ..self }),
    {
        BatchConfig { max_batch_size: size, ..self }
    }

    /// Sets how long requests wait for others at most.
    pub fn max_wait_ms(self, ms: u64) -> (r: Self)
        ensures
            r == (BatchConfig { max_wait_ms: ms, ..self }),
    {
        BatchConfig { max_wait_ms: ms, ..self }
    }

    /// Sets the number of waiting requests that form a batch at once.
    pub fn min_batch_size(self, size: usize) -> (r: Self)
        ensures
            r == (BatchConfig { min_batch_size: size, ..self }),
    {
        BatchConfig { min_batch_size: size, ..self }
    }

    /// Orders requests by priority.
    pub fn with_priority(self) -> (r: Self)
        ensures
            r == (BatchConfig { enable_priority: true, ..self }),
    {
        BatchConfig { enable_priority: true, ..self }
    }
}

/// The priority of a request, lowest first.
#[derive(Debug, Clone, Copy, PartialEq, Eq, PartialOrd, Ord, Structural)]
pub enum Priority {
    Low,
    Normal,
    High,
    Critical,
}

impl Priority {
    /// The place among the priorities, 0 for the lowest.
    pub open spec fn rank(self) -> int {
        match self {
            Priority::Low => 0,
            Priority::Normal => 1,
            Priority::High => 2,
            Priority::Critical => 3,
        }
    }

    /// The place among the priorities, 0 for the lowest.
    pub fn level(self) -> (r: u8)
        ensures
            r == self.rank(),
    {
        match self {
            Priority::Low => 0,
            Priority::Normal => 1,
            Priority::High => 2,
            Priority::Critical => 3,
        }
    }
}

/// A request for inference.
#[derive(Debug)]
pub struct BatchRequest {
    /// What tells requests apart.
    pub id: u64,
    /// The input of the next step.
    pub input: Vec<Single>,
    /// The number of steps asked for.
    pub max_steps: usize,
    /// The priority.
    pub priority: Priority,
    /// When the request came.
    pub received_at: Instant,
    /// The number of steps done.
    pub current_step: usize,
    /// The outputs of the steps done, one each.
    pub outputs: Vec<Vec<Single>>,
}

/// A request as plain values. When it came is left out.
#[verifier::ext_equal]
pub struct RequestView {
    pub id: u64,
    pub input: Seq<Single>,
    pub max_steps: usize,
    pub priority: Priority,
    pub current_step: usize,
    pub outputs: Seq<Seq<Single>>,
}

impl View for BatchRequest {
    type V = RequestView;

    open spec fn view(&self) -> RequestView {
        RequestView {
            id: self.id,
            input: self.input@,
            max_steps: self.max_steps,
            priority: self.priority,
            current_step: self.current_step,
            outputs: crate::inference::engine::views(self.outputs@),
        }
    }
}

impl RequestView {
    /// Whether all steps are done.
    pub open spec fn complete(self) -> bool {
        self.current_step >= self.max_steps
    }

    /// The request after one more step, whose output is the next input.
    pub open spec fn after(self, out: Seq<Single>) -> Self {
        RequestView {
            input: out,
            current_step: (self.current_step + 1) as usize,
            outputs: self.outputs.push(out),
            ..self
        }
    }

    /// Each step that is done has its output, and a step can be counted.
    pub open spec fn wf(self) -> bool {
        self.countable() && self.outputs.len() == self.current_step
    }

    /// Whether a step can be counted: none is done yet, or one is left.
    pub open spec fn countable(self) -> bool {
        self.current_step == 0 || self.current_step < self.max_steps
    }
}

impl BatchRequest {
    /// A request of normal priority, received now.
    pub fn new(id: u64, input: Vec<Single>, max_steps: usize) -> (r: Self)
        ensures
            r@ == (RequestView {
                id,
                input: input@,
                max_steps,
                priority: Priority::Normal,
                current_step: 0,
                outputs: Seq::empty(),
            }),
    {
        let outputs: Vec<Vec<Single>> = Vec::new();
        assert(crate::inference::engine::views(outputs@) =~= Seq::empty());
        BatchRequest {
            id,
            input,
            max_steps,
            priority: Priority::Normal,
            received_at: now(),
            current_step: 0,
            outputs,
        }
    }

    /// Sets the priority.
    pub fn with_priority(self, priority: Priority) -> (r: Self)
        ensures
            r == (BatchRequest { priority, ..self }),
    {
        BatchRequest { priority, ..self }
    }

    /// Whether all steps are done.
    pub fn is_complete(&self) -> (r: bool)
        ensures
            r == self@.complete(),
    {
        self.current_step >= self.max_steps
    }

    /// How long the request has waited, in whole milliseconds. It depends on
    /// when it is asked.
    pub fn wait_time_ms(&self) -> (r: u64)
        ensures
            exists|waited: Span|
                waited.nanos < 1_000_000_000 && r == #[trigger] waited.millis()
                    % 0x1_0000_0000_0000_0000,
    {
        let waited: Span = elapsed(&self.received_at);
        waited.whole_millis()
    }

    /// Counts a step, whose output is kept and becomes the next input.
    pub fn advance(&mut self, output: &[Single])
        requires
            old(self)@.countable(),
        ensures
            final(self)@ == old(self)@.after(output@),
            final(self).received_at == old(self).received_at,
    {
        self.current_step += 1;
        self.input = copy_samples(output);
        let kept: Vec<Single> = copy_samples(output);
        self.outputs.push(kept);
        assert(self@.outputs =~= old(self)@.outputs.push(output@));
    }
}

/// The response to a request.
#[derive(Debug)]
pub struct BatchResponse {
    /// The request that is answered.
    pub request_id: u64,
    /// The outputs, one for each step.
    pub outputs: Vec<Vec<Single>>,
    /// The number of steps done.
    pub steps_completed: usize,
    /// Whether all steps are done.
    pub is_complete: bool,
    /// How long inference took, in microseconds.
    pub inference_time_us: u64,
}

impl BatchResponse {
    /// Whether the response is that to a request that has just been
    /// completed. How long it took is left open.
    pub open spec fn answers(&self, request: RequestView) -> bool {
        &&& self.request_id == request.id
        &&& self.steps_completed == request.current_step
        &&& self.outputs@.len() == self.steps_completed
        &&& crate::inference::engine::views(self.outputs@) == request.outputs
        &&& self.is_complete
    }
}

/// Whether the responses are those to requests that have just been completed,
/// one each and in order.
pub open spec fn are_answers(responses: Seq<BatchResponse>, requests: Seq<RequestView>) -> bool {
    &&& responses.len() == requests.len()
    &&& forall|i: int|
        0 <= i < responses.len() ==> (#[trigger] responses[i]).answers(requests[i])
}

/// The contents of requests.
pub open spec fn request_views(s: Seq<BatchRequest>) -> Seq<RequestView> {
    Seq::new(s.len(), |i: int| s[i]@)
}

/// The inputs of requests.
pub open spec fn request_inputs(s: Seq<RequestView>) -> Seq<Seq<Single>> {
    Seq::new(s.len(), |i: int| s[i].input)
}

/// The requests that go on after the first of a batch have had a step with
/// the given outputs.
pub open spec fn going_on(batch: Seq<RequestView>, outs: Seq<Vec<Single>>) -> Seq<RequestView>
    decreases outs.len(),
{
    if outs.len() == 0 {
        Seq::empty()
    } else {
        let before = going_on(batch, outs.drop_last());
        let request = batch[outs.len() - 1].after(outs.last()@);
        if request.complete() {
            before
        } else {
            before.push(request)
        }
    }
}

/// The requests that are done after the first of a batch have had a step with
/// the given outputs.
pub open spec fn finished(batch: Seq<RequestView>, outs: Seq<Vec<Single>>) -> Seq<RequestView>
    decreases outs.len(),
{
    if outs.len() == 0 {
        Seq::empty()
    } else {
        let before = finished(batch, outs.drop_last());
        let request = batch[outs.len() - 1].after(outs.last()@);
        if request.complete() {
            before.push(request)
        } else {
            before
        }
    }
}

/// A step loses no request and answers none twice: as many go on or are done
/// as were in the batch.
pub proof fn none_is_lost(batch: Seq<RequestView>, outs: Seq<Vec<Single>>)
    requires
        outs.len() <= batch.len(),
    ensures
        going_on(batch, outs).len() + finished(batch, outs).len() == outs.len(),
        forall|i: int|
            0 <= i < going_on(batch, outs).len() ==> !(#[trigger] going_on(
                batch,
                outs,
            )[i]).complete(),
        forall|i: int|
            0 <= i < finished(batch, outs).len() ==> (#[trigger] finished(
                batch,
                outs,
            )[i]).complete(),
    decreases outs.len(),
{
    if outs.len() > 0 {
        none_is_lost(batch, outs.drop_last());
    }
}

/// The requests of a batch that have steps left.
pub open spec fn busy(batch: Seq<RequestView>) -> Seq<RequestView>
    decreases batch.len(),
{
    if batch.len() == 0 {
        Seq::empty()
    } else if batch.last().complete() {
        busy(batch.drop_last())
    } else {
        busy(batch.drop_last()).push(batch.last())
    }
}

/// The requests of a batch that have no steps left.
pub open spec fn idle(batch: Seq<RequestView>) -> Seq<RequestView>
    decreases batch.len(),
{
    if batch.len() == 0 {
        Seq::empty()
    } else if batch.last().complete() {
        idle(batch.drop_last()).push(batch.last())
    } else {
        idle(batch.drop_last())
    }
}

/// Every request of a batch has steps left or has not, and none is lost.
pub proof fn busy_or_idle(batch: Seq<RequestView>)
    ensures
        busy(batch).len() + idle(batch).len() == batch.len(),
        work_left(busy(batch)) + idle(batch).len() == work_left(batch),
        forall|i: int| 0 <= i < busy(batch).len() ==> !(#[trigger] busy(batch)[i]).complete(),
        forall|i: int| 0 <= i < busy(batch).len() ==> batch.contains(#[trigger] busy(batch)[i]),
        forall|i: int| 0 <= i < idle(batch).len() ==> (#[trigger] idle(batch)[i]).complete(),
        forall|i: int| 0 <= i < idle(batch).len() ==> batch.contains(#[trigger] idle(batch)[i]),
    decreases batch.len(),
{
    if batch.len() > 0 {
        let fewer = batch.drop_last();
        busy_or_idle(fewer);
        assert(batch.contains(batch.last()));
        assert forall|r: RequestView| fewer.contains(r) implies batch.contains(r) by {
            let k = choose|k: int| 0 <= k < fewer.len() && fewer[k] == r;
            assert(batch[k] == r);
        }
        if !batch.last().complete() {
            assert(busy(fewer).push(batch.last()).drop_last() =~= busy(fewer));
        }
    }
}

/// The steps that requests still take; one that is done counts as one.
pub open spec fn work_left(s: Seq<RequestView>) -> nat
    decreases s.len(),
{
    if s.len() == 0 {
        0
    } else {
        work_left(s.drop_last()) + if s.last().complete() {
            1
        } else {
            (s.last().max_steps - s.last().current_step) as nat
        }
    }
}

proof fn work_left_covers(s: Seq<RequestView>)
    ensures
        s.len() <= work_left(s),
    decreases s.len(),
{
    if s.len() > 0 {
        work_left_covers(s.drop_last());
    }
}

proof fn work_left_grows(s: Seq<RequestView>, n: int)
    requires
        0 <= n <= s.len(),
    ensures
        work_left(s.take(n)) <= work_left(s),
    decreases s.len(),
{
    if n < s.len() {
        work_left_grows(s.drop_last(), n);
        assert(s.drop_last().take(n) =~= s.take(n));
    } else {
        assert(s.take(n) =~= s);
    }
}

proof fn flatten_grows<T>(parts: Seq<Seq<T>>, part: Seq<T>)
    ensures
        parts.push(part).flatten() == parts.flatten() + part,
{
    parts.lemma_flatten_push(part);
}

proof fn work_left_concat(a: Seq<RequestView>, b: Seq<RequestView>)
    ensures
        work_left(a + b) == work_left(a) + work_left(b),
    decreases b.len(),
{
    if b.len() == 0 {
        assert(a + b =~= a);
    } else {
        assert((a + b).drop_last() =~= a + b.drop_last());
        work_left_concat(a, b.drop_last());
    }
}

/// Every request of a batch that has had a step has less work left: what goes
/// on has at least one step fewer for each of them.
pub proof fn step_does_work(batch: Seq<RequestView>, outs: Seq<Vec<Single>>)
    requires
        outs.len() <= batch.len(),
        forall|i: int| 0 <= i < batch.len() ==> (#[trigger] batch[i]).countable(),
    ensures
        work_left(going_on(batch, outs)) + outs.len() <= work_left(batch.take(outs.len() as int)),
    decreases outs.len(),
{
    if outs.len() > 0 {
        let n = outs.len() as int;
        step_does_work(batch, outs.drop_last());
        let before = going_on(batch, outs.drop_last());
        let request = batch[n - 1].after(outs.last()@);
        assert(batch[n - 1].countable());
        assert(batch.take(n).drop_last() =~= batch.take(n - 1));
        assert(batch.take(n).last() == batch[n - 1]);
        if !request.complete() {
            assert(before.push(request).drop_last() =~= before);
        }
    }
}

/// Where a request of a priority joins the queue: before the first one of a
/// lower priority.
pub open spec fn join_place(queue: Seq<RequestView>, priority: Priority, from: nat) -> nat
    decreases queue.len() - from,
{
    if from >= queue.len() || queue[from as int].priority.rank() < priority.rank() {
        from
    } else {
        join_place(queue, priority, from + 1)
    }
}

/// Whether a request is served before another: it has the higher priority, or
/// the same one and came first.
pub open spec fn goes_before(a: RequestView, b: RequestView) -> bool {
    a.priority.rank() > b.priority.rank() || (a.priority.rank() == b.priority.rank() && a.id
        < b.id)
}

/// Whether requests wait in the order of being served: by priority, highest
/// first, and those of the same priority in the order in which they came.
pub open spec fn by_priority(queue: Seq<RequestView>) -> bool {
    forall|i: int, j: int|
        0 <= i < j < queue.len() ==> goes_before(#[trigger] queue[i], #[trigger] queue[j])
}

proof fn join_place_bounds(queue: Seq<RequestView>, priority: Priority, from: nat)
    requires
        from <= queue.len(),
    ensures
        from <= join_place(queue, priority, from) <= queue.len(),
        forall|i: int|
            from <= i < join_place(queue, priority, from) ==> (#[trigger] queue[i]).priority.rank()
                >= priority.rank(),
        join_place(queue, priority, from) < queue.len() ==> queue[join_place(
            queue,
            priority,
            from,
        ) as int].priority.rank() < priority.rank(),
    decreases queue.len() - from,
{
    if from < queue.len() && queue[from as int].priority.rank() >= priority.rank() {
        join_place_bounds(queue, priority, from + 1);
    }
}

/// A queue in order of priority stays so when a request joins it that came after
/// all others.
pub proof fn joining_keeps_order(queue: Seq<RequestView>, request: RequestView)
    requires
        by_priority(queue),
        forall|i: int| 0 <= i < queue.len() ==> (#[trigger] queue[i]).id < request.id,
    ensures
        by_priority(queue.insert(join_place(queue, request.priority, 0) as int, request)),
{
    let place = join_place(queue, request.priority, 0) as int;
    join_place_bounds(queue, request.priority, 0);
    let after = queue.insert(place, request);
    assert forall|i: int, j: int| 0 <= i < j < after.len() implies goes_before(
        #[trigger] after[i],
        #[trigger] after[j],
    ) by {
        if j < place {
            assert(after[i] == queue[i] && after[j] == queue[j]);
        } else if i > place {
            assert(after[i] == queue[i - 1] && after[j] == queue[j - 1]);
        } else if i < place && j > place {
            assert(after[i] == queue[i] && after[j] == queue[j - 1]);
        } else if i < place {
            assert(after[i] == queue[i]);
        } else {
            assert(after[j] == queue[j - 1]);
            assert(queue[place].priority.rank() < request.priority.rank());
            if place < j - 1 {
                assert(goes_before(queue[place], queue[j - 1]));
            }
        }
    }
}

/// Statistics of a scheduler.
#[derive(Debug, Clone, Copy, PartialEq, Eq, Structural)]
pub struct SchedulerStats {
    pub pending_requests: usize,
    pub active_requests: usize,
    pub completed_requests: usize,
    pub total_submitted: u64,
}

/// The scheduler: requests that wait, and requests that are active.
pub struct BatchScheduler<M, F> {
    config: BatchConfig,
    engine: InferenceEngine<M, F>,
    pending: VecDeque<BatchRequest>,
    active: Vec<BatchRequest>,
    completed: Vec<BatchResponse>,
    next_id: u64,
    last_batch_time: Instant,
}

impl<M: AutoregressiveModel, F: EngineMath> BatchScheduler<M, F> {
    /// The configuration.
    pub closed spec fn settings(&self) -> BatchConfig {
        self.config
    }

    /// The engine.
    pub closed spec fn runner(&self) -> InferenceEngine<M, F> {
        self.engine
    }

    /// The requests that wait, the next one first.
    pub closed spec fn waiting(&self) -> Seq<RequestView> {
        request_views(self.pending@)
    }

    /// The requests that are active.
    pub closed spec fn running(&self) -> Seq<RequestView> {
        request_views(self.active@)
    }

    /// The number of requests that were submitted.
    pub closed spec fn submitted(&self) -> u64 {
        self.next_id
    }

    /// The number of responses that are kept.
    pub closed spec fn kept(&self) -> nat {
        self.completed@.len()
    }

    /// No more requests are active than the configuration says, all requests
    /// have identifiers that were given out, and no response is kept.
    pub open spec fn wf(&self) -> bool {
        &&& self.runner().wf()
        &&& self.kept() == 0
        &&& self.running().len() <= self.settings().max_batch_size
        &&& forall|i: int|
            0 <= i < self.waiting().len() ==> (#[trigger] self.waiting()[i]).wf()
                && self.waiting()[i].id < self.submitted()
        &&& forall|i: int|
            0 <= i < self.running().len() ==> (#[trigger] self.running()[i]).wf()
                && self.running()[i].id < self.submitted()
    }

    /// Whether requests wait in the order of being served. It holds of a new
    /// scheduler that orders requests by priority, and stays so as long as all
    /// requests are submitted with a priority.
    pub open spec fn in_order(&self) -> bool {
        by_priority(self.waiting())
    }

    /// A scheduler without requests, whose engine has no model.
    pub fn new(config: BatchConfig, engine_config: EngineConfig, math: F) -> (r: InferenceResult<
        Self,
    >)
        requires
            engine_config.context.fits(),
        ensures
            r is Ok,
            r->Ok_0.wf(),
            r->Ok_0.settings() == config,
            r->Ok_0.waiting().len() == 0,
            r->Ok_0.running().len() == 0,
            r->Ok_0.submitted() == 0,
            r->Ok_0.in_order(),
            r->Ok_0.runner().settings() == engine_config,
            r->Ok_0.runner().predictor() is None,
            r->Ok_0.runner().numerics() == math,
            r->Ok_0.runner().window().steps() == 0,
            r->Ok_0.runner().window().past().len() == 0,
            r->Ok_0.runner().window().is_blank_for(engine_config.context),
    {
        let engine: InferenceEngine<M, F> = InferenceEngine::new(engine_config, math);
        Ok(
            BatchScheduler {
                config,
                engine,
                pending: VecDeque::new(),
                active: Vec::new(),
                completed: Vec::new(),
                next_id: 0,
                last_batch_time: now(),
            },
        )
    }

    /// Submits a request of normal priority, at the end of the queue.
    pub fn submit(&mut self, input: Vec<Single>, max_steps: usize) -> (id: u64)
        requires
            old(self).wf(),
            old(self).submitted() < u64::MAX,
        ensures
            final(self).wf(),
            id == old(self).submitted(),
            final(self).submitted() == id + 1,
            final(self).settings() == old(self).settings(),
            final(self).runner() == old(self).runner(),
            final(self).running() == old(self).running(),
            final(self).waiting() == old(self).waiting().push(
                RequestView {
                    id,
                    input: input@,
                    max_steps,
                    priority: Priority::Normal,
                    current_step: 0,
                    outputs: Seq::empty(),
                },
            ),
    {
        let id: u64 = self.next_id;
        self.next_id += 1;
        let request: BatchRequest = BatchRequest::new(id, input, max_steps);
        let ghost added = request@;
        self.pending.push_back(request);
        proof {
            assert(self.waiting() =~= old(self).waiting().push(added));
            assert(self.running() =~= old(self).running());
        }
        id
    }

    /// Submits a request. Where requests are ordered by priority it goes
    /// before the first one of a lower priority, else to the end of the queue.
    pub fn submit_with_priority(
        &mut self,
        input: Vec<Single>,
        max_steps: usize,
        priority: Priority,
    ) -> (id: u64)
        requires
            old(self).wf(),
            old(self).submitted() < u64::MAX,
        ensures
            final(self).wf(),
            id == old(self).submitted(),
            final(self).submitted() == id + 1,
            final(self).settings() == old(self).settings(),
            final(self).runner() == old(self).runner(),
            final(self).running() == old(self).running(),
            ({
                let added = RequestView {
                    id,
                    input: input@,
                    max_steps,
                    priority,
                    current_step: 0,
                    outputs: Seq::empty(),
                };
                final(self).waiting() == if old(self).settings().enable_priority {
                    old(self).waiting().insert(
                        join_place(old(self).waiting(), priority, 0) as int,
                        added,
                    )
                } else {
                    old(self).waiting().push(added)
                }
            }),
            old(self).settings().enable_priority && old(self).in_order()
                ==> final(self).in_order(),
    {
        let id: u64 = self.next_id;
        self.next_id += 1;
        let request: BatchRequest = BatchRequest::new(id, input, max_steps).with_priority(priority);
        let ghost added = request@;
        if self.config.enable_priority {
            let n: usize = self.pending.len();
            let mut place: usize = 0;
            while place < n && self.pending[place].priority.level() >= priority.level()
                invariant
                    place <= n,
                    n == self.pending@.len(),
                    join_place(self.waiting(), priority, 0) == join_place(
                        self.waiting(),
                        priority,
                        place as nat,
                    ),
                decreases n - place,
            {
                assert(self.waiting()[place as int].priority == self.pending@[place as int].priority);
                place += 1;
            }
            proof {
                if place < n {
                    assert(self.waiting()[place as int].priority
                        == self.pending@[place as int].priority);
                }
            }
            let ghost before = self.waiting();
            self.pending.insert(place, request);
            proof {
                assert(before =~= old(self).waiting());
                assert(self.waiting() =~= old(self).waiting().insert(place as int, added));
                if old(self).in_order() {
                    joining_keeps_order(old(self).waiting(), added);
                }
                assert forall|i: int| 0 <= i < self.waiting().len() implies (
                #[trigger] self.waiting()[i]).wf() && self.waiting()[i].id
                    < self.submitted() by {
                    if i < place {
                        assert(self.waiting()[i] == old(self).waiting()[i]);
                    } else if i > place {
                        assert(self.waiting()[i] == old(self).waiting()[i - 1]);
                    }
                }
            }
        } else {
            self.pending.push_back(request);
            proof {
                assert(self.waiting() =~= old(self).waiting().push(added));
            }
        }
        assert(self.running() =~= old(self).running());
        id
    }

    /// The number of waiting requests that join the batch, where the time
    /// since the last batch was formed is up or is not.
    pub open spec fn joining(&self, time_is_up: bool) -> nat {
        let n = self.waiting().len();
        let room = (self.settings().max_batch_size - self.running().len()) as nat;
        if n == 0 || (n < self.settings().min_batch_size && !time_is_up) {
            0
        } else if n < room {
            n
        } else {
            room
        }
    }

    /// The batch that a step works on: the active requests and those that
    /// join them.
    pub open spec fn batch(&self, time_is_up: bool) -> Seq<RequestView> {
        self.running() + self.waiting().take(self.joining(time_is_up) as int)
    }

    /// What a step does, where the time since the last batch was formed is up
    /// or is not. Requests of the batch that ask for no steps are answered and
    /// leave. The others have one step each; those that are done are answered
    /// and leave. The first error ends the step: what came before it stands,
    /// and requests that were done by then have left.
    pub open spec fn step_does(
        &self,
        time_is_up: bool,
        after: &Self,
        r: InferenceResult<Vec<BatchResponse>>,
    ) -> bool {
        let none = idle(self.batch(time_is_up));
        let batch = busy(self.batch(time_is_up));
        &&& after.settings() == self.settings()
        &&& after.submitted() == self.submitted()
        &&& after.waiting() == self.waiting().skip(self.joining(time_is_up) as int)
        &&& exists|trace: Seq<InferenceEngine<M, F>>, outs: Seq<Vec<Single>>|
            {
                &&& #[trigger] InferenceEngine::runs(trace, request_inputs(batch), outs)
                &&& trace[0] == self.runner()
                &&& after.running() == going_on(batch, outs) + batch.skip(outs.len() as int)
                &&& match r {
                    Ok(responses) => {
                        &&& outs.len() == batch.len()
                        &&& after.runner() == trace.last()
                        &&& are_answers(responses@, none + finished(batch, outs))
                    },
                    Err(e) => {
                        &&& outs.len() < batch.len()
                        &&& trace.last().steps(
                            batch[outs.len() as int].input,
                            &after.runner(),
                            Err::<Vec<Single>, InferenceError>(e),
                        )
                    },
                }
            }
    }

    fn form_batch(&mut self)
        requires
            old(self).wf(),
        ensures
            final(self).wf(),
            final(self).settings() == old(self).settings(),
            final(self).submitted() == old(self).submitted(),
            final(self).runner() == old(self).runner(),
            ({
                let n = old(self).waiting().len();
                let room = (old(self).settings().max_batch_size - old(self).running().len()) as nat;
                let k = if n < room {
                    n as int
                } else {
                    room as int
                };
                &&& final(self).running() == old(self).running() + old(self).waiting().take(k)
                &&& final(self).waiting() == old(self).waiting().skip(k)
            }),
    {
        let room: usize = self.config.max_batch_size - self.active.len();
        let waiting: usize = self.pending.len();
        let count: usize = if waiting < room {
            waiting
        } else {
            room
        };
        let ghost queue = old(self).waiting();
        let ghost running = old(self).running();
        let mut i: usize = 0;
        assert(self.waiting() =~= queue.skip(0));
        assert(self.running() =~= running + queue.take(0));
        while i < count
            invariant
                i <= count,
                count <= queue.len(),
                queue == old(self).waiting(),
                running == old(self).running(),
                old(self).wf(),
                self.config == old(self).config,
                self.engine == old(self).engine,
                self.next_id == old(self).next_id,
                self.completed == old(self).completed,
                self.waiting() == queue.skip(i as int),
                self.running() == running + queue.take(i as int),
            decreases count - i,
        {
            let ghost before = *self;
            if let Some(request) = self.pending.pop_front() {
                assert(request@ == before.waiting()[0]);
                self.active.push(request);
            }
            proof {
                assert(self.waiting() =~= before.waiting().drop_first());
                assert(self.waiting() =~= queue.skip(i + 1));
                assert(self.running() =~= before.running().push(queue[i as int]));
                assert(self.running() =~= running + queue.take(i + 1));
            }
            i += 1;
        }
        self.last_batch_time = now();
        proof {
            assert(self.running() =~= running + queue.take(count as int));
            assert(self.waiting() =~= queue.skip(count as int));
            assert forall|k: int| 0 <= k < self.running().len() implies (
            #[trigger] self.running()[k]).wf() && self.running()[k].id
                < self.submitted() by {
                if k >= running.len() {
                    assert(self.running()[k] == queue[k - running.len()]);
                }
            }
            assert forall|k: int| 0 <= k < self.waiting().len() implies (
            #[trigger] self.waiting()[k]).wf() && self.waiting()[k].id
                < self.submitted() by {
                assert(self.waiting()[k] == queue[k + count]);
            }
        }
    }

    fn dismiss(&mut self, start: &Instant) -> (responses: Vec<BatchResponse>)
        requires
            old(self).wf(),
        ensures
            final(self).wf(),
            final(self).settings() == old(self).settings(),
            final(self).submitted() == old(self).submitted(),
            final(self).runner() == old(self).runner(),
            final(self).waiting() == old(self).waiting(),
            final(self).running() == busy(old(self).running()),
            are_answers(responses@, idle(old(self).running())),
    {
        let ghost batch = old(self).running();
        let ghost mut k: int = 0;
        let mut responses: Vec<BatchResponse> = Vec::new();
        let mut i: usize = 0;
        assert(self.running() =~= busy(batch.take(0)) + batch.skip(0));
        while i < self.active.len()
            invariant
                0 <= k <= batch.len(),
                batch == old(self).running(),
                old(self).wf(),
                self.config == old(self).config,
                self.engine == old(self).engine,
                self.next_id == old(self).next_id,
                self.completed == old(self).completed,
                self.pending == old(self).pending,
                self.running() == busy(batch.take(k)) + batch.skip(k),
                i == busy(batch.take(k)).len(),
                are_answers(responses@, idle(batch.take(k))),
            decreases batch.len() - k,
        {
            let ghost before = self.running();
            let ghost answered = responses@;
            proof {
                assert(self.active@.len() == before.len());
                assert(before[i as int] == batch[k]);
                assert(self.active@[i as int]@ == batch[k]);
                assert(batch[k].wf());
                assert(batch.take(k + 1).drop_last() =~= batch.take(k));
                assert(batch.take(k + 1).last() == batch[k]);
            }
            if self.active[i].is_complete() {
                let done: BatchRequest = self.active.remove(i);
                responses.push(
                    BatchResponse {
                        request_id: done.id,
                        outputs: done.outputs,
                        steps_completed: done.current_step,
                        is_complete: true,
                        inference_time_us: elapsed(start).whole_micros(),
                    },
                );
                proof {
                    assert(responses@.last().answers(batch[k]));
                    assert forall|j: int| 0 <= j < responses@.len() implies (
                    #[trigger] responses@[j]).answers(idle(batch.take(k + 1))[j]) by {
                        if j < answered.len() {
                            assert(responses@[j] == answered[j]);
                        }
                    }
                    assert(self.running() =~= before.remove(i as int));
                    assert(self.running() =~= busy(batch.take(k + 1)) + batch.skip(k + 1));
                }
            } else {
                proof {
                    assert(self.running() =~= busy(batch.take(k + 1)) + batch.skip(k + 1));
                }
                i += 1;
            }
            proof {
                k = k + 1;
            }
        }
        proof {
            assert(k == batch.len());
            assert(batch.take(k) =~= batch);
            assert(self.running() =~= busy(batch));
            busy_or_idle(batch);
            assert(self.waiting() =~= old(self).waiting());
            assert forall|j: int| 0 <= j < self.running().len() implies (
            #[trigger] self.running()[j]).wf() && self.running()[j].id < self.submitted() by {
                assert(batch.contains(busy(batch)[j]));
                let w = choose|w: int| 0 <= w < batch.len() && batch[w] == busy(batch)[j];
                assert(batch[w].wf());
            }
        }
        responses
    }

    /// Gives every request of the batch one step and answers those that are
    /// done, where the time since the last batch was formed is `waited`.
    pub fn step_after(&mut self, waited: Span) -> (r: InferenceResult<Vec<BatchResponse>>)
        requires
            old(self).wf(),
            old(self).runner().window().steps() + old(self).settings().max_batch_size
                <= usize::MAX,
        ensures
            final(self).wf(),
            old(self).step_does(
                waited.millis() >= old(self).settings().max_wait_ms,
                final(self),
                r,
            ),
            final(self).runner().window().steps() <= old(self).runner().window().steps() + old(
                self,
            ).batch(waited.millis() >= old(self).settings().max_wait_ms).len(),
            old(self).in_order() ==> final(self).in_order(),
    {
        let ghost time_is_up = waited.millis() >= self.settings().max_wait_ms;
        let time_up: bool = waited.as_millis() >= self.config.max_wait_ms as u128;
        let n: usize = self.pending.len();
        if n != 0 && (n >= self.config.min_batch_size || time_up) {
            self.form_batch();
        }
        let ghost all = old(self).batch(time_is_up);
        let ghost none = idle(all);
        let ghost batch = busy(all);
        let ghost queue = self.waiting();
        proof {
            assert(self.running() =~= all);
            assert(self.waiting() =~= old(self).waiting().skip(
                old(self).joining(time_is_up) as int,
            ));
            busy_or_idle(all);
        }
        let start: Instant = now();
        let mut responses: Vec<BatchResponse> = self.dismiss(&start);
        let ghost mut trace: Seq<InferenceEngine<M, F>> = seq![self.engine];
        let ghost mut outs: Seq<Vec<Single>> = Seq::empty();
        let mut i: usize = 0;
        proof {
            assert(self.running() =~= going_on(batch, outs) + batch.skip(0));
            assert(none + finished(batch, outs) =~= none);
        }
        while i < self.active.len()
            invariant
                i <= self.active@.len(),
                self.config == old(self).config,
                self.next_id == old(self).next_id,
                self.completed@.len() == 0,
                self.waiting() == queue,
                time_is_up == (waited.millis() >= old(self).settings().max_wait_ms),
                none == idle(old(self).batch(time_is_up)),
                batch == busy(old(self).batch(time_is_up)),
                batch.len() <= old(self).batch(time_is_up).len(),
                queue == old(self).waiting().skip(old(self).joining(time_is_up) as int),
                self.engine.wf(),
                self.running() == going_on(batch, outs) + batch.skip(outs.len() as int),
                i == going_on(batch, outs).len(),
                outs.len() <= batch.len(),
                batch.len() <= self.config.max_batch_size,
                trace.len() == outs.len() + 1,
                trace[0] == old(self).engine,
                trace.last() == self.engine,
                InferenceEngine::<M, F>::runs(trace, request_inputs(batch), outs),
                old(self).engine.window().steps() + self.config.max_batch_size <= usize::MAX,
                self.engine.window().steps() <= old(self).engine.window().steps() + outs.len(),
                are_answers(responses@, none + finished(batch, outs)),
                forall|k: int|
                    0 <= k < batch.len() ==> (#[trigger] batch[k]).wf() && batch[k].id
                        < self.next_id,
                forall|k: int|
                    0 <= k < going_on(batch, outs).len() ==> (#[trigger] going_on(
                        batch,
                        outs,
                    )[k]).wf() && going_on(batch, outs)[k].id < self.next_id,
                forall|k: int|
                    0 <= k < queue.len() ==> (#[trigger] queue[k]).wf() && queue[k].id
                        < self.next_id,
            decreases batch.len() - outs.len(),
        {
            let ghost k = outs.len() as int;
            let ghost before = self.running();
            proof {
                none_is_lost(batch, outs);
                assert(before[i as int] == batch[k]);
                assert(self.active@[i as int]@ == batch[k]);
            }
            let output: InferenceResult<Vec<Single>> = self.engine.step(
                self.active[i].input.as_slice(),
            );
            let out: Vec<Single> = match output {
                Err(e) => {
                    proof {
                        assert(self.running() =~= before);
                        assert(trace.last().steps(
                            batch[k].input,
                            &self.runner(),
                            Err::<Vec<Single>, InferenceError>(e),
                        ));
                        assert forall|j: int| 0 <= j < self.running().len() implies (
                        #[trigger] self.running()[j]).wf() && self.running()[j].id
                            < self.submitted() by {
                            if j >= i {
                                assert(self.running()[j] == batch[j - i + k]);
                            }
                        }
                    }
                    return Err(e);
                },
                Ok(out) => out,
            };
            self.active[i].advance(out.as_slice());
            let ghost request = batch[k].after(out@);
            let ghost more = outs.push(out);
            proof {
                assert(self.active@[i as int]@ == request);
                assert(self.running() =~= before.update(i as int, request));
                let longer = trace.push(self.engine);
                assert forall|j: int| 0 <= j < more.len() implies longer[j].steps(
                    request_inputs(batch)[j],
                    &longer[j + 1],
                    Ok::<Vec<Single>, InferenceError>(#[trigger] more[j]),
                ) by {
                    if j < k {
                        assert(outs[j] == more[j]);
                    }
                }
                assert(more.drop_last() =~= outs);
                trace = longer;
            }
            if self.active[i].is_complete() {
                let done: BatchRequest = self.active.remove(i);
                let inference_time: u64 = elapsed(&start).whole_micros();
                let ghost answered = responses@;
                assert(done@ == request && request.outputs.len() == request.current_step);
                assert(finished(batch, more) == finished(batch, outs).push(request));
                responses.push(
                    BatchResponse {
                        request_id: done.id,
                        outputs: done.outputs,
                        steps_completed: done.current_step,
                        is_complete: true,
                        inference_time_us: inference_time,
                    },
                );
                proof {
                    assert(responses@.last().answers(request));
                    let told = none + finished(batch, more);
                    assert(told =~= (none + finished(batch, outs)).push(request));
                    assert forall|j: int| 0 <= j < responses@.len() implies (
                    #[trigger] responses@[j]).answers(told[j]) by {
                        if j < answered.len() {
                            assert(responses@[j] == answered[j]);
                        }
                    }
                    assert(self.running() =~= before.remove(i as int));
                    assert(self.running() =~= going_on(batch, more) + batch.skip(k + 1));
                }
            } else {
                proof {
                    assert(self.running() =~= going_on(batch, more) + batch.skip(k + 1));
                }
                i += 1;
            }
            proof {
                outs = more;
            }
        }
        proof {
            none_is_lost(batch, outs);
            assert(outs.len() == batch.len());
            assert forall|j: int| 0 <= j < self.running().len() implies (
            #[trigger] self.running()[j]).wf() && self.running()[j].id
                < self.submitted() by {
                assert(self.running()[j] == going_on(batch, outs)[j]);
            }
        }
        Ok(responses)
    }

    /// Gives every request of the batch one step and answers those that are
    /// done. Whether waiting requests join depends on the clock only where
    /// fewer wait than form a batch at once.
    pub fn step(&mut self) -> (r: InferenceResult<Vec<BatchResponse>>)
        requires
            old(self).wf(),
            old(self).runner().window().steps() + old(self).settings().max_batch_size
                <= usize::MAX,
        ensures
            final(self).wf(),
            old(self).step_does(true, final(self), r) || old(self).step_does(
                false,
                final(self),
                r,
            ),
            old(self).waiting().len() >= old(self).settings().min_batch_size ==> old(
                self,
            ).step_does(true, final(self), r),
            final(self).runner().window().steps() <= old(self).runner().window().steps() + old(
                self,
            ).settings().max_batch_size,
            old(self).in_order() ==> final(self).in_order(),
    {
        let waited: Span = elapsed(&self.last_batch_time);
        proof {
            if self.waiting().len() >= self.settings().min_batch_size {
                assert(self.joining(true) == self.joining(false));
                assert(self.batch(true) == self.batch(false));
            }
        }
        self.step_after(waited)
    }

    /// Whether a step, whatever the time, can have come to the given responses.
    pub open spec fn took_step(&self, after: &Self, responses: Seq<BatchResponse>) -> bool {
        exists|r: InferenceResult<Vec<BatchResponse>>|
            {
                &&& r is Ok
                &&& r->Ok_0@ == responses
                &&& #[trigger] self.ends_step(after, r)
            }
    }

    /// Whether a step, whatever the time, can have come to the given end.
    pub open spec fn ends_step(
        &self,
        after: &Self,
        r: InferenceResult<Vec<BatchResponse>>,
    ) -> bool {
        self.step_does(true, after, r) || self.step_does(false, after, r)
    }

    /// Whether schedulers can have followed one another by steps that came to
    /// the given responses.
    pub open spec fn took_steps(states: Seq<Self>, parts: Seq<Seq<BatchResponse>>) -> bool {
        &&& states.len() == parts.len() + 1
        &&& forall|i: int|
            0 <= i < parts.len() ==> states[i].took_step(&states[i + 1], #[trigger] parts[i])
    }

    /// The number of steps that all requests still take, together with those
    /// that were taken, where it can be counted.
    pub fn can_process(&self) -> (r: bool)
        requires
            self.wf(),
        ensures
            r == (self.runner().window().steps() + work_left(self.running()) + work_left(
                self.waiting(),
            ) + self.settings().max_batch_size <= usize::MAX),
    {
        let mut room: usize = usize::MAX - self.engine.step_count();
        if self.config.max_batch_size > room {
            return false;
        }
        room = room - self.config.max_batch_size;
        let ghost most = room;
        let mut i: usize = 0;
        assert(self.running().take(0) =~= Seq::<RequestView>::empty());
        while i < self.active.len()
            invariant
                i <= self.active@.len(),
                self.wf(),
                most == usize::MAX - self.runner().window().steps()
                    - self.settings().max_batch_size,
                room + work_left(self.running().take(i as int)) == most,
            decreases self.active@.len() - i,
        {
            let work: usize = Self::steps_of(&self.active[i]);
            proof {
                let all = self.running();
                assert(all.take(i + 1).drop_last() =~= all.take(i as int));
                assert(all.take(i + 1).last() == self.active@[i as int]@);
                work_left_grows(all, i + 1);
            }
            if work > room {
                return false;
            }
            room = room - work;
            i += 1;
        }
        assert(self.running().take(i as int) =~= self.running());
        let ghost middle = room;
        let mut j: usize = 0;
        assert(self.waiting().take(0) =~= Seq::<RequestView>::empty());
        while j < self.pending.len()
            invariant
                j <= self.pending@.len(),
                self.wf(),
                middle + work_left(self.running()) == usize::MAX - self.runner().window().steps()
                    - self.settings().max_batch_size,
                room + work_left(self.waiting().take(j as int)) == middle,
            decreases self.pending@.len() - j,
        {
            let work: usize = Self::steps_of(&self.pending[j]);
            proof {
                let all = self.waiting();
                assert(all.take(j + 1).drop_last() =~= all.take(j as int));
                assert(all.take(j + 1).last() == self.pending@[j as int]@);
                work_left_grows(all, j + 1);
            }
            if work > room {
                return false;
            }
            room = room - work;
            j += 1;
        }
        assert(self.waiting().take(j as int) =~= self.waiting());
        true
    }

    fn steps_of(request: &BatchRequest) -> (r: usize)
        ensures
            r == if request@.complete() {
                1
            } else {
                request@.max_steps - request@.current_step
            },
    {
        if request.is_complete() {
            1
        } else {
            request.max_steps - request.current_step
        }
    }

    /// Gives steps until no request is active: all requests are answered, but
    /// for those that still wait for others to join them or for the time to
    /// be up. The first error ends it.
    pub fn process_ready(&mut self) -> (r: InferenceResult<Vec<BatchResponse>>)
        requires
            old(self).wf(),
            old(self).runner().window().steps() + work_left(old(self).running()) + work_left(
                old(self).waiting(),
            ) + old(self).settings().max_batch_size <= usize::MAX,
        ensures
            final(self).wf(),
            final(self).settings() == old(self).settings(),
            final(self).submitted() == old(self).submitted(),
            old(self).in_order() ==> final(self).in_order(),
            match r {
                Ok(responses) => {
                    &&& final(self).running().len() == 0
                    &&& responses@.len() + final(self).waiting().len() == old(
                        self,
                    ).running().len() + old(self).waiting().len()
                    &&& old(self).settings().max_batch_size > 0 ==> final(self).waiting().len() == 0
                        || final(self).waiting().len() < old(self).settings().min_batch_size
                    &&& forall|i: int|
                        0 <= i < responses@.len() ==> (#[trigger] responses@[i]).is_complete
                },
                Err(_) => true,
            },
            exists|states: Seq<Self>, parts: Seq<Seq<BatchResponse>>|
                {
                    &&& #[trigger] Self::took_steps(states, parts)
                    &&& states[0] == *old(self)
                    &&& match r {
                        Ok(responses) => {
                            &&& states.last() == *final(self)
                            &&& responses@ == parts.flatten()
                        },
                        Err(e) => states.last().ends_step(
                            final(self),
                            Err::<Vec<BatchResponse>, InferenceError>(e),
                        ),
                    }
                },
    {
        let mut all: Vec<BatchResponse> = Vec::new();
        let mut blocked: bool = false;
        let ghost mut states: Seq<Self> = seq![*self];
        let ghost mut parts: Seq<Seq<BatchResponse>> = Seq::empty();
        proof {
            assert(parts.flatten() =~= Seq::<BatchResponse>::empty());
            work_left_covers(self.running());
            work_left_covers(self.waiting());
        }
        while !blocked && (self.pending.len() != 0 || self.active.len() != 0)
            invariant
                self.wf(),
                self.settings() == old(self).settings(),
                self.submitted() == old(self).submitted(),
                old(self).in_order() ==> self.in_order(),
                self.runner().window().steps() + work_left(self.running()) + work_left(
                    self.waiting(),
                ) + self.settings().max_batch_size <= usize::MAX,
                all@.len() + self.waiting().len() + self.running().len() == old(
                    self,
                ).running().len() + old(self).waiting().len(),
                blocked ==> self.running().len() == 0 && (self.settings().max_batch_size > 0 ==> (
                self.waiting().len() == 0 || self.waiting().len()
                    < self.settings().min_batch_size)),
                forall|i: int| 0 <= i < all@.len() ==> (#[trigger] all@[i]).is_complete,
                Self::took_steps(states, parts),
                states[0] == *old(self),
                states.last() == *self,
                all@ == parts.flatten(),
            decreases work_left(self.running()) + work_left(self.waiting()),
                if blocked {
                    0int
                } else {
                    1
                },
        {
            let ghost start = *self;
            let waited: Span = elapsed(&self.last_batch_time);
            let ghost up = waited.millis() >= self.settings().max_wait_ms;
            let ghost formed = self.batch(up);
            let ghost batch = busy(formed);
            let outcome: InferenceResult<Vec<BatchResponse>> = self.step_after(waited);
            assert(start.ends_step(self, outcome));
            match outcome {
                Err(e) => {
                    return Err(e);
                },
                Ok(responses) => {
                    proof {
                        let (trace, outs) = choose|
                            trace: Seq<InferenceEngine<M, F>>,
                            outs: Seq<Vec<Single>>,
                        |
                            {
                                &&& #[trigger] InferenceEngine::runs(
                                    trace,
                                    request_inputs(batch),
                                    outs,
                                )
                                &&& trace[0] == start.runner()
                                &&& self.running() == going_on(batch, outs) + batch.skip(
                                    outs.len() as int,
                                )
                                &&& outs.len() == batch.len()
                                &&& are_answers(
                                    responses@,
                                    idle(formed) + finished(batch, outs),
                                )
                            };
                        none_is_lost(batch, outs);
                        busy_or_idle(formed);
                        let k = start.joining(up) as int;
                        assert(start.waiting().take(k) + start.waiting().skip(k)
                            =~= start.waiting());
                        work_left_concat(start.running(), start.waiting().take(k));
                        work_left_concat(start.waiting().take(k), start.waiting().skip(k));
                        assert forall|i: int| 0 <= i < batch.len() implies (
                        #[trigger] batch[i]).wf() by {
                            assert(formed.contains(batch[i]));
                            let w = choose|w: int| 0 <= w < formed.len() && formed[w] == batch[i];
                            if w >= start.running().len() {
                                assert(formed[w] == start.waiting()[w - start.running().len()]);
                            } else {
                                assert(formed[w] == start.running()[w]);
                            }
                        }
                        step_does_work(batch, outs);
                        assert(batch.take(outs.len() as int) =~= batch);
                        assert(batch.skip(outs.len() as int) =~= Seq::<RequestView>::empty());
                        assert(self.running() =~= going_on(batch, outs));
                    }
                    if responses.len() == 0 && self.active.len() == 0 {
                        blocked = true;
                    }
                    proof {
                        let more = states.push(*self);
                        let longer = parts.push(responses@);
                        assert(start.ends_step(self, Ok::<Vec<BatchResponse>, InferenceError>(responses)));
                        assert(start.took_step(self, responses@));
                        assert forall|i: int| 0 <= i < longer.len() implies more[i].took_step(
                            &more[i + 1],
                            #[trigger] longer[i],
                        ) by {
                            if i < parts.len() {
                                assert(longer[i] == parts[i]);
                            }
                        }
                        flatten_grows(parts, responses@);
                        states = more;
                        parts = longer;
                    }
                    let mut fresh: Vec<BatchResponse> = responses;
                    proof {
                        assert forall|i: int| 0 <= i < fresh@.len() implies (
                        #[trigger] fresh@[i]).is_complete by {}
                    }
                    all.append(&mut fresh);
                },
            }
        }
        Ok(all)
    }

    /// Whether requests wait or are active.
    pub fn has_work(&self) -> (r: bool)
        ensures
            r == (self.waiting().len() > 0 || self.running().len() > 0),
    {
        self.pending.len() != 0 || self.active.len() != 0
    }

    /// The waiting request at a place of the queue.
    pub fn pending(&self, place: usize) -> (r: Option<&BatchRequest>)
        ensures
            match r {
                Some(request) => place < self.waiting().len() && request@
                    == self.waiting()[place as int],
                None => place >= self.waiting().len(),
            },
    {
        if place < self.pending.len() {
            Some(&self.pending[place])
        } else {
            None
        }
    }

    /// The statistics.
    pub fn stats(&self) -> (r: SchedulerStats)
        requires
            self.wf(),
        ensures
            r.pending_requests == self.waiting().len(),
            r.active_requests == self.running().len(),
            r.completed_requests == 0,
            r.total_submitted == self.submitted(),
    {
        SchedulerStats {
            pending_requests: self.pending.len(),
            active_requests: self.active.len(),
            completed_requests: self.completed.len(),
            total_submitted: self.next_id,
        }
    }

    /// Forgets all requests and resets the engine; identifiers go on.
    pub fn reset(&mut self)
        requires
            old(self).wf(),
        ensures
            final(self).wf(),
            final(self).settings() == old(self).settings(),
            final(self).submitted() == old(self).submitted(),
            final(self).waiting().len() == 0,
            final(self).running().len() == 0,
            final(self).in_order(),
            final(self).runner().same_setup(&old(self).runner()),
            final(self).runner().window().steps() == 0,
            final(self).runner().window().past().len() == 0,
            forall|i: int|
                0 <= i < final(self).runner().window().layers().len() ==> old(
                    self,
                ).runner().window().layers()[i].zeroed_to(
                    #[trigger] &final(self).runner().window().layers()[i],
                ),
    {
        self.pending.clear();
        self.active.clear();
        self.completed.clear();
        self.engine.reset();
    }
}

} // verus!
