//! Requests and responses, and the protocols that carry them.

use crate::error::{InferenceError, InferenceResult};
use crate::inference::model::{AutoregressiveModel, EngineMath};
use crate::inference::streaming::StreamingEngine;
use crate::number::{Double, Single};
use crate::samples::copy_samples;
use crate::time::{elapsed, now, utc_now, Span};
use std::time::Instant;
use vstd::prelude::*;

pub mod grpc;
pub mod mqtt;
pub mod rest;
pub mod websocket;

verus! {

/// The arithmetic on spans that responses need. Nothing is required of what
/// it returns.
pub trait SpanMath {
    /// A span in milliseconds.
    fn millis(&self, span: Span) -> Double;
}

/// Overrides of the configuration for one request.
#[derive(Debug, Clone, Copy, PartialEq, Eq, Structural)]
pub struct MessageConfig {
    /// Temperature of sampling.
    pub temperature: Option<Single>,
    /// The number of candidates of sampling.
    pub top_k: Option<usize>,
    /// The probability that the candidates of sampling make up.
    pub top_p: Option<Single>,
    /// The number of tokens at most.
    pub max_tokens: Option<usize>,
}

impl Default for MessageConfig {
    fn default() -> (r: Self)
        ensures
            r == (MessageConfig { temperature: None, top_k: None, top_p: None, max_tokens: None }),
    {
        MessageConfig { temperature: None, top_k: None, top_p: None, max_tokens: None }
    }
}

/// A request.
#[derive(Debug)]
pub struct InferenceMessage {
    /// What tells requests apart.
    pub request_id: String,
    /// The signal.
    pub input: Vec<Single>,
    /// Overrides of the configuration.
    pub config: MessageConfig,
    /// When the request was made, in milliseconds since the start of 1970.
    pub timestamp: i64,
}

/// A response.
#[derive(Debug)]
pub struct InferenceResponse {
    /// The request that is answered.
    pub request_id: String,
    /// The signal.
    pub output: Vec<Single>,
    /// How long inference took, in milliseconds.
    pub latency_ms: Double,
    /// The number of tokens.
    pub num_tokens: usize,
    /// When the response was made, in milliseconds since the start of 1970.
    pub timestamp: i64,
}

impl InferenceMessage {
    /// A request made now, without overrides.
    pub fn new(request_id: String, input: Vec<Single>) -> (r: Self)
        ensures
            r == (InferenceMessage {
                request_id,
                input,
                config: MessageConfig {
                    temperature: None,
                    top_k: None,
                    top_p: None,
                    max_tokens: None,
                },
                timestamp: r.timestamp,
            }),
            r.timestamp >= 0,
    {
        let timestamp: i64 = utc_now().timestamp_millis();
        InferenceMessage { request_id, input, config: MessageConfig::default(), timestamp }
    }

    /// The signal.
    pub fn to_array(&self) -> (r: Vec<Single>)
        ensures
            r@ == self.input@,
    {
        copy_samples(self.input.as_slice())
    }
}

impl InferenceResponse {
    /// A response made now.
    pub fn new(request_id: String, output: Vec<Single>, latency_ms: Double, num_tokens: usize) -> (r:
        Self)
        ensures
            r == (InferenceResponse {
                request_id,
                output,
                latency_ms,
                num_tokens,
                timestamp: r.timestamp,
            }),
            r.timestamp >= 0,
    {
        let timestamp: i64 = utc_now().timestamp_millis();
        InferenceResponse { request_id, output, latency_ms, num_tokens, timestamp }
    }

    /// The signal.
    pub fn to_array(&self) -> (r: Vec<Single>)
        ensures
            r@ == self.output@,
    {
        copy_samples(self.output.as_slice())
    }
}

/// A service that can be started and stopped.
pub trait NetworkAdapter {
    /// Starts the service.
    fn start(&mut self) -> InferenceResult<()>;

    /// Stops the service.
    fn stop(&mut self) -> InferenceResult<()>;

    /// Whether the service runs.
    fn is_running(&self) -> bool;
}

/// Whether a service runs.
#[derive(Debug, Clone, Copy, PartialEq, Eq, Structural)]
pub struct RunState {
    running: bool,
}

impl RunState {
    /// Whether the service runs.
    pub closed spec fn runs(&self) -> bool {
        self.running
    }

    /// A service that does not run yet.
    pub fn new() -> (r: Self)
        ensures
            !r.runs(),
    {
        RunState { running: false }
    }
}

impl NetworkAdapter for RunState {
    fn start(&mut self) -> (r: InferenceResult<()>)
        ensures
            r is Ok,
            final(self).runs(),
    {
        self.running = true;
        Ok(())
    }

    fn stop(&mut self) -> (r: InferenceResult<()>)
        ensures
            r is Ok,
            !final(self).runs(),
    {
        self.running = false;
        Ok(())
    }

    fn is_running(&self) -> (r: bool)
        ensures
            r == self.runs(),
    {
        self.running
    }
}

/// Whether `r` is the answer to a request, given what a step of the engine on
/// its input came to: the output under the identifier of the request, or the
/// error. When it was made is left open; how long it took is some span of time
/// in milliseconds.
pub open spec fn is_answer<S: SpanMath>(
    span_math: S,
    request: InferenceMessage,
    stepped: InferenceResult<Vec<Single>>,
    r: InferenceResult<InferenceResponse>,
) -> bool {
    match stepped {
        Ok(out) => {
            &&& r is Ok
            &&& r->Ok_0.request_id == request.request_id
            &&& r->Ok_0.output == out
            &&& r->Ok_0.num_tokens == out@.len()
            &&& r->Ok_0.timestamp >= 0
            &&& exists|span: Span| #[trigger]
                call_ensures(S::millis, (&span_math, span), r->Ok_0.latency_ms) && span.nanos
                    < 1_000_000_000
        },
        Err(e) => r == Err::<InferenceResponse, InferenceError>(e),
    }
}

/// Whether answering a request takes an engine from `before` to `after`.
pub open spec fn answers<M: AutoregressiveModel, F: EngineMath, S: SpanMath>(
    span_math: S,
    before: StreamingEngine<M, F>,
    request: InferenceMessage,
    after: StreamingEngine<M, F>,
    r: InferenceResult<InferenceResponse>,
) -> bool {
    &&& after.settings() == before.settings()
    &&& after.runner().same_setup(&before.runner())
    &&& after.runner().window().steps() <= before.runner().window().steps() + 1
    &&& exists|stepped: InferenceResult<Vec<Single>>|
        {
            &&& #[trigger] before.runner().steps(request.input@, &after.runner(), stepped)
            &&& is_answer(span_math, request, stepped, r)
        }
}

/// Answers a request with one step of the engine.
pub fn answer<M: AutoregressiveModel, F: EngineMath, S: SpanMath>(
    engine: &mut StreamingEngine<M, F>,
    span_math: &S,
    request: InferenceMessage,
) -> (r: InferenceResult<InferenceResponse>)
    requires
        old(engine).wf(),
        old(engine).runner().window().steps() < usize::MAX,
    ensures
        final(engine).wf(),
        answers(*span_math, *old(engine), request, *final(engine), r),
{
    let start: Instant = now();
    let stepped: InferenceResult<Vec<Single>> = engine.step(request.input.as_slice());
    assert(old(engine).runner().steps(request.input@, &engine.runner(), stepped));
    match stepped {
        Ok(output) => {
            let span: Span = elapsed(&start);
            let latency_ms: Double = span_math.millis(span);
            let num_tokens: usize = output.len();
            let r: InferenceResult<InferenceResponse> = Ok(
                InferenceResponse::new(request.request_id, output, latency_ms, num_tokens),
            );
            assert(call_ensures(S::millis, (span_math, span), r->Ok_0.latency_ms));
            assert(is_answer(*span_math, request, stepped, r));
            r
        },
        Err(e) => Err(e),
    }
}

} // verus!
