//! The decisions behind the gRPC interface.

use crate::error::InferenceResult;
use crate::inference::adapters::{
    answer, InferenceMessage, InferenceResponse, MessageConfig, SpanMath,
};
use crate::inference::model::{AutoregressiveModel, EngineMath};
use crate::inference::streaming::StreamingEngine;
use crate::number::{Double, Single};
use crate::text::{join, same_text};
use vstd::prelude::*;

verus! {

/// A request, as it is sent.
#[derive(Debug)]
pub struct InferenceRequest {
    pub request_id: String,
    pub input: Vec<Single>,
    pub temperature: Option<Single>,
    pub top_k: Option<u32>,
    pub top_p: Option<Single>,
    pub max_tokens: Option<u32>,
}

/// A reply, as it is sent.
#[derive(Debug)]
pub struct InferenceReply {
    pub request_id: String,
    pub output: Vec<Single>,
    pub latency_ms: Double,
    pub num_tokens: u32,
}

/// A question about health.
#[derive(Debug, Clone, Copy, PartialEq, Eq, Structural)]
pub struct HealthRequest {}

/// The reply to a question about health.
#[derive(Debug)]
pub struct HealthReply {
    pub status: String,
    pub engine_state: String,
}

impl Default for InferenceReply {
    fn default() -> (r: Self)
        ensures
            r.is_blank(),
    {
        InferenceReply {
            request_id: String::new(),
            output: Vec::new(),
            latency_ms: Double { bits: 0 },
            num_tokens: 0,
        }
    }
}

/// The lower 32 bits of a number.
pub open spec fn low32(n: usize) -> u32 {
    (n as int % 0x1_0000_0000) as u32
}

fn lower(n: usize) -> (r: u32)
    ensures
        r == low32(n),
{
    (n as u64 % 0x1_0000_0000) as u32
}

fn lower_option(n: Option<usize>) -> (r: Option<u32>)
    ensures
        r == (match n {
            Some(k) => Some(low32(k)),
            None => None,
        }),
{
    match n {
        Some(k) => Some(lower(k)),
        None => None,
    }
}

fn widen_option(n: Option<u32>) -> (r: Option<usize>)
    ensures
        r == (match n {
            Some(k) => Some(k as usize),
            None => None,
        }),
{
    match n {
        Some(k) => Some(k as usize),
        None => None,
    }
}

/// The request that a message is sent as; counts keep their lower 32 bits.
pub open spec fn request_of(msg: InferenceMessage) -> InferenceRequest {
    InferenceRequest {
        request_id: msg.request_id,
        input: msg.input,
        temperature: msg.config.temperature,
        top_k: match msg.config.top_k {
            Some(k) => Some(low32(k)),
            None => None,
        },
        top_p: msg.config.top_p,
        max_tokens: match msg.config.max_tokens {
            Some(k) => Some(low32(k)),
            None => None,
        },
    }
}

/// The message that a request stands for, whenever it is received.
pub open spec fn is_message(request: InferenceRequest, msg: InferenceMessage) -> bool {
    &&& msg.request_id == request.request_id
    &&& msg.input == request.input
    &&& msg.config == (MessageConfig {
        temperature: request.temperature,
        top_k: match request.top_k {
            Some(k) => Some(k as usize),
            None => None,
        },
        top_p: request.top_p,
        max_tokens: match request.max_tokens {
            Some(k) => Some(k as usize),
            None => None,
        },
    })
}

impl InferenceRequest {
    /// The request for a message; counts keep their lower 32 bits.
    pub fn from_message(msg: InferenceMessage) -> (r: Self)
        ensures
            r == request_of(msg),
    {
        InferenceRequest {
            request_id: msg.request_id,
            input: msg.input,
            temperature: msg.config.temperature,
            top_k: lower_option(msg.config.top_k),
            top_p: msg.config.top_p,
            max_tokens: lower_option(msg.config.max_tokens),
        }
    }

    /// The message of a request, received now.
    pub fn into_message(self) -> (r: InferenceMessage)
        ensures
            is_message(self, r),
    {
        let config: MessageConfig = MessageConfig {
            temperature: self.temperature,
            top_k: widen_option(self.top_k),
            top_p: self.top_p,
            max_tokens: widen_option(self.max_tokens),
        };
        let msg: InferenceMessage = InferenceMessage::new(self.request_id, self.input);
        InferenceMessage { config, ..msg }
    }
}

impl InferenceReply {
    /// Whether the reply says nothing.
    pub open spec fn is_blank(&self) -> bool {
        &&& self.request_id@.len() == 0
        &&& self.output@.len() == 0
        &&& self.latency_ms.bits == 0
        &&& self.num_tokens == 0
    }

    /// The reply for a response; the number of tokens keeps its lower 32 bits.
    pub fn from_response(resp: InferenceResponse) -> (r: Self)
        ensures
            r == (InferenceReply {
                request_id: resp.request_id,
                output: resp.output,
                latency_ms: resp.latency_ms,
                num_tokens: low32(resp.num_tokens),
            }),
    {
        InferenceReply {
            request_id: resp.request_id,
            output: resp.output,
            latency_ms: resp.latency_ms,
            num_tokens: lower(resp.num_tokens),
        }
    }
}

/// A message survives being sent: what comes back is the same but for the
/// time, where its counts fit 32 bits.
pub proof fn message_round_trip(msg: InferenceMessage, back: InferenceMessage)
    requires
        msg.config.top_k matches Some(k) ==> k < 0x1_0000_0000,
        msg.config.max_tokens matches Some(k) ==> k < 0x1_0000_0000,
        is_message(request_of(msg), back),
    ensures
        back.request_id == msg.request_id,
        back.input == msg.input,
        back.config == msg.config,
{
}

/// Configuration of the gRPC interface.
#[derive(Debug, Clone)]
pub struct GrpcServerConfig {
    /// Address and port.
    pub addr: String,
    /// The number of streams of a connection at most.
    pub max_concurrent_streams: u32,
    /// How long a request is handled at most, in milliseconds; zero for no
    /// limit.
    pub timeout_ms: u64,
    /// The size of a frame at most, in bytes.
    pub max_frame_size: u32,
}

impl Default for GrpcServerConfig {
    fn default() -> (r: Self)
        ensures
            r.addr@ == "127.0.0.1:50051"@,
            r.max_concurrent_streams == 256,
            r.timeout_ms == 30_000,
            r.max_frame_size == 16_384,
    {
        GrpcServerConfig {
            addr: "127.0.0.1:50051".to_owned(),
            max_concurrent_streams: 256,
            timeout_ms: 30_000,
            max_frame_size: 16_384,
        }
    }
}

impl GrpcServerConfig {
    /// The limit on streams, if there is one.
    pub fn stream_limit(&self) -> (r: Option<u32>)
        ensures
            r == if self.max_concurrent_streams > 0 {
                Some(self.max_concurrent_streams)
            } else {
                None
            },
    {
        if self.max_concurrent_streams > 0 {
            Some(self.max_concurrent_streams)
        } else {
            None
        }
    }

    /// The limit on time in milliseconds, if there is one.
    pub fn time_limit_ms(&self) -> (r: Option<u64>)
        ensures
            r == if self.timeout_ms > 0 {
                Some(self.timeout_ms)
            } else {
                None
            },
    {
        if self.timeout_ms > 0 {
            Some(self.timeout_ms)
        } else {
            None
        }
    }
}

/// The methods of the service.
#[derive(Debug, Clone, Copy, PartialEq, Eq, Structural)]
pub enum GrpcMethod {
    /// One request, one reply.
    Infer,
    /// Many requests.
    InferStream,
    /// A question about health.
    Health,
    /// None of these.
    Unimplemented,
}

/// The name of the service.
pub fn service_name() -> (r: &'static str)
    ensures
        r@ == "kizzasi.inference.InferenceService"@,
{
    "kizzasi.inference.InferenceService"
}

/// The method that a path names.
pub fn route(path: &str) -> (r: GrpcMethod)
    ensures
        r == if path@ == "/kizzasi.inference.InferenceService/Infer"@ {
            GrpcMethod::Infer
        } else if path@ == "/kizzasi.inference.InferenceService/InferStream"@ {
            GrpcMethod::InferStream
        } else if path@ == "/kizzasi.inference.InferenceService/Health"@ {
            GrpcMethod::Health
        } else {
            GrpcMethod::Unimplemented
        },
{
    if same_text(path, "/kizzasi.inference.InferenceService/Infer") {
        GrpcMethod::Infer
    } else if same_text(path, "/kizzasi.inference.InferenceService/InferStream") {
        GrpcMethod::InferStream
    } else if same_text(path, "/kizzasi.inference.InferenceService/Health") {
        GrpcMethod::Health
    } else {
        GrpcMethod::Unimplemented
    }
}

/// The gRPC status code of an internal error.
pub const INTERNAL: u32 = 13;

/// The gRPC status code of a method that is not there.
pub const UNIMPLEMENTED: u32 = 12;

/// A failed call.
#[derive(Debug)]
pub struct GrpcStatus {
    pub code: u32,
    pub message: String,
}

/// What a call comes to.
pub type GrpcResult = Result<InferenceReply, GrpcStatus>;

/// Whether `r` is what a response or an error is sent as.
pub open spec fn is_sent(answered: InferenceResult<InferenceResponse>, r: GrpcResult) -> bool {
    match answered {
        Ok(resp) => r matches Ok(reply) && reply == (InferenceReply {
            request_id: resp.request_id,
            output: resp.output,
            latency_ms: resp.latency_ms,
            num_tokens: low32(resp.num_tokens),
        }),
        Err(e) => r matches Err(status) && status.code == INTERNAL && status.message@
            == "Inference error: "@ + e.text(),
    }
}

/// Whether a call takes an engine from `before` to `after`.
pub open spec fn call_does<M: AutoregressiveModel, F: EngineMath, S: SpanMath>(
    span_math: S,
    before: StreamingEngine<M, F>,
    request: InferenceRequest,
    after: StreamingEngine<M, F>,
    r: GrpcResult,
) -> bool {
    exists|msg: InferenceMessage, answered: InferenceResult<InferenceResponse>|
        {
            &&& is_message(request, msg)
            &&& #[trigger] crate::inference::adapters::answers(span_math, before, msg, after, answered)
            &&& is_sent(answered, r)
        }
}

/// The service: an engine that answers calls.
pub struct InferenceService<M, F> {
    engine: StreamingEngine<M, F>,
}

impl<M: AutoregressiveModel, F: EngineMath> InferenceService<M, F> {
    /// The engine.
    pub closed spec fn runner(&self) -> StreamingEngine<M, F> {
        self.engine
    }

    /// The engine is consistent.
    pub open spec fn wf(&self) -> bool {
        self.runner().wf()
    }

    /// A service on an engine.
    pub fn new(engine: StreamingEngine<M, F>) -> (r: Self)
        ensures
            r.runner() == engine,
    {
        InferenceService { engine }
    }

    /// The number of requests that reached the engine so far.
    pub fn step_count(&self) -> (n: usize)
        ensures
            n == self.runner().runner().window().steps(),
    {
        self.engine.step_count()
    }

    /// Answers one request.
    pub fn infer<S: SpanMath>(&mut self, span_math: &S, request: InferenceRequest) -> (r: GrpcResult)
        requires
            old(self).wf(),
            old(self).runner().runner().window().steps() < usize::MAX,
        ensures
            final(self).wf(),
            final(self).runner().runner().window().steps() <= old(
                self,
            ).runner().runner().window().steps() + 1,
            call_does(*span_math, old(self).runner(), request, final(self).runner(), r),
    {
        let msg: InferenceMessage = request.into_message();
        let answered: InferenceResult<InferenceResponse> = answer(&mut self.engine, span_math, msg);
        assert(is_message(request, msg));
        assert(crate::inference::adapters::answers(
            *span_math,
            old(self).engine,
            msg,
            self.engine,
            answered,
        ));
        match answered {
            Ok(resp) => Ok(InferenceReply::from_response(resp)),
            Err(e) => Err(
                GrpcStatus {
                    code: INTERNAL,
                    message: join("Inference error: ", e.to_text().as_str()),
                },
            ),
        }
    }

    /// Answers one item of a stream that is answered item by item: what is sent
    /// back, and whether the stream goes on. A request is answered, and goes
    /// on even where that fails; a failed item is passed on and ends it.
    pub fn infer_stream<S: SpanMath>(
        &mut self,
        span_math: &S,
        item: Result<InferenceRequest, GrpcStatus>,
    ) -> (r: (GrpcResult, bool))
        requires
            old(self).wf(),
            old(self).runner().runner().window().steps() < usize::MAX,
        ensures
            final(self).wf(),
            final(self).runner().runner().window().steps() <= old(
                self,
            ).runner().runner().window().steps() + 1,
            match item {
                Ok(request) => {
                    &&& call_does(*span_math, old(self).runner(), request, final(self).runner(), r.0)
                    &&& r.1
                },
                Err(status) => {
                    &&& r.0 == Err::<InferenceReply, GrpcStatus>(status)
                    &&& !r.1
                    &&& *final(self) == *old(self)
                },
            },
    {
        match item {
            Ok(request) => (self.infer(span_math, request), true),
            Err(status) => (Err(status), false),
        }
    }

    /// Answers a question about health.
    pub fn health(&self, request: HealthRequest) -> (r: HealthReply)
        ensures
            r.status@ == "healthy"@,
            r.engine_state@ == "ready"@,
    {
        HealthReply { status: "healthy".to_owned(), engine_state: "ready".to_owned() }
    }
}

/// A stream of requests that is answered once, at its end.
#[derive(Debug)]
pub struct ClientStream {
    last_reply: Option<InferenceReply>,
}

impl ClientStream {
    /// The reply to the last request so far.
    pub closed spec fn last(&self) -> Option<InferenceReply> {
        self.last_reply
    }

    /// A stream without requests.
    pub fn new() -> (r: Self)
        ensures
            r.last() is None,
    {
        ClientStream { last_reply: None }
    }

    /// Takes an item. The reply to a request replaces the one before; a failed
    /// item and a failed call fail the stream.
    pub fn on_item<M: AutoregressiveModel, F: EngineMath, S: SpanMath>(
        &mut self,
        service: &mut InferenceService<M, F>,
        span_math: &S,
        item: Result<InferenceRequest, GrpcStatus>,
    ) -> (r: Result<(), GrpcStatus>)
        requires
            old(service).wf(),
            old(service).runner().runner().window().steps() < usize::MAX,
        ensures
            final(service).wf(),
            final(service).runner().runner().window().steps() <= old(
                service,
            ).runner().runner().window().steps() + 1,
            match item {
                Ok(request) => exists|called: GrpcResult|
                    {
                        &&& #[trigger] call_does(
                            *span_math,
                            old(service).runner(),
                            request,
                            final(service).runner(),
                            called,
                        )
                        &&& match called {
                            Ok(reply) => r is Ok && final(self).last() == Some(reply),
                            Err(status) => r == Err::<(), GrpcStatus>(status) && final(self).last()
                                == old(self).last(),
                        }
                    },
                Err(status) => {
                    &&& r == Err::<(), GrpcStatus>(status)
                    &&& final(self).last() == old(self).last()
                    &&& *final(service) == *old(service)
                },
            },
    {
        match item {
            Ok(request) => {
                let called: GrpcResult = service.infer(span_math, request);
                assert(call_does(*span_math, old(service).runner(), request, service.runner(), called));
                match called {
                    Ok(reply) => {
                        self.last_reply = Some(reply);
                        Ok(())
                    },
                    Err(status) => Err(status),
                }
            },
            Err(status) => Err(status),
        }
    }

    /// The reply at the end of the stream: that to the last request, or a blank
    /// one where there was none.
    pub fn finish(self) -> (r: InferenceReply)
        ensures
            match self.last() {
                Some(reply) => r == reply,
                None => r.is_blank(),
            },
    {
        match self.last_reply {
            Some(reply) => reply,
            None => InferenceReply::default(),
        }
    }
}

} // verus!
