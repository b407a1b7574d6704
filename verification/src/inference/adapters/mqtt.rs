//! Inference over publish and subscribe: where the broker is, what to do with
//! each event of the connection, and which callers wait for an answer.

use crate::error::{InferenceError, InferenceResult};
use crate::inference::adapters::{
    answer, InferenceMessage, InferenceResponse, NetworkAdapter, RunState, SpanMath,
};
use crate::inference::model::{AutoregressiveModel, EngineMath};
use crate::inference::streaming::StreamingEngine;
use crate::names::NamedMap;
use crate::text::{chars_of, find_char, join3, parse_u16, strip_prefix};
use crate::time::Span;
use vstd::prelude::*;
use vstd::string::*;

verus! {

/// The port of a broker whose address names none.
pub const DEFAULT_PORT: u16 = 1883;

/// Seconds that a caller waits for an answer.
pub const REQUEST_TIMEOUT_SECS: u64 = 30;

/// Seconds to wait after the connection failed.
pub const RETRY_SECS: u64 = 5;

/// Seconds between two signs of life.
pub const KEEP_ALIVE_SECS: u16 = 30;

/// What stands behind the scheme of an address: behind `mqtt://`, else behind
/// `tcp://`, else the whole address.
pub open spec fn without_scheme(url: Seq<char>) -> Seq<char> {
    match crate::text::without_prefix(url, "mqtt://"@) {
        Some(rest) => rest,
        None => match crate::text::without_prefix(url, "tcp://"@) {
            Some(rest) => rest,
            None => url,
        },
    }
}

/// The host and the port of an address. What follows the first colon is the
/// port; `None` where it is no number of 16 bits.
pub open spec fn broker_of(url: Seq<char>) -> Option<(Seq<char>, u16)> {
    let rest = without_scheme(url);
    let colon = crate::text::first_char(rest, ':', 0);
    if colon >= rest.len() {
        Some((rest, DEFAULT_PORT))
    } else {
        match crate::text::u16_value(rest.skip(colon + 1)) {
            Some(port) => Some((rest.take(colon), port)),
            None => None,
        }
    }
}

/// The host and the port of an address, or an error where the port is none.
pub fn parse_broker(url: &str) -> (r: InferenceResult<(String, u16)>)
    ensures
        match r {
            Ok(broker) => broker_of(url@) == Some((broker.0@, broker.1)),
            Err(e) => {
                &&& broker_of(url@) is None
                &&& e matches InferenceError::NetworkError(t) && t@ == "Invalid port"@
            },
        },
{
    let rest: &str = match strip_prefix(url, "mqtt://") {
        Some(rest) => rest,
        None => match strip_prefix(url, "tcp://") {
            Some(rest) => rest,
            None => url,
        },
    };
    let all: Vec<char> = chars_of(rest);
    let colon: usize = find_char(all.as_slice(), ':', 0);
    if colon >= all.len() {
        return Ok((rest.to_owned(), DEFAULT_PORT));
    }
    let digits: &[char] = vstd::slice::slice_subrange(all.as_slice(), colon + 1, all.len());
    assert(digits@ =~= rest@.skip(colon + 1));
    match parse_u16(digits) {
        Some(port) => {
            let host: &str = rest.substring_char(0, colon);
            assert(host@ =~= rest@.take(colon as int));
            Ok((host.to_owned(), port))
        },
        None => Err(InferenceError::NetworkError("Invalid port".to_owned())),
    }
}

/// What comes from the connection to the broker. A request is parsed already;
/// where that failed, the text of the error is there in its place.
#[derive(Debug)]
pub enum BrokerEvent {
    /// A message was published.
    Publish(Result<InferenceMessage, String>),
    /// Anything else came in.
    Incoming,
    /// Something went out.
    Outgoing,
    /// The connection failed.
    Failure,
}

/// What to do after an event.
pub enum BrokerAction<T> {
    /// Wait for the next event.
    Wait,
    /// Hand the response to the caller that waits for it, if any, and publish
    /// it on the output topic.
    Respond { response: InferenceResponse, waiter: Option<T> },
    /// Wait before the next event.
    Pause(Span),
}

/// What became of a request that was made here.
#[derive(Debug)]
pub enum RequestOutcome {
    /// The request could not be written as a message.
    Unserializable(String),
    /// The broker did not take the request.
    Unpublished(String),
    /// The response came.
    Answered(InferenceResponse),
    /// The one who was to respond is gone.
    Closed,
    /// No response came in time.
    TimedOut,
}

/// A service that answers the requests of one topic on another. A caller that
/// waits for a response is kept as a `T`.
pub struct MqttAdapter<M: AutoregressiveModel, F: EngineMath, T> {
    host: String,
    port: u16,
    client_id: String,
    engine: StreamingEngine<M, F>,
    input_topic: String,
    output_topic: String,
    running: RunState,
    pending: NamedMap<T>,
}

impl<M: AutoregressiveModel, F: EngineMath, T> MqttAdapter<M, F, T> {
    /// The host and the port of the broker.
    pub closed spec fn broker(&self) -> (Seq<char>, u16) {
        (self.host@, self.port)
    }

    /// How the client names itself.
    pub closed spec fn client(&self) -> Seq<char> {
        self.client_id@
    }

    /// The topic that requests come on.
    pub closed spec fn requests(&self) -> Seq<char> {
        self.input_topic@
    }

    /// The topic that responses go to.
    pub closed spec fn responses(&self) -> Seq<char> {
        self.output_topic@
    }

    /// The engine that answers.
    pub closed spec fn runner(&self) -> StreamingEngine<M, F> {
        self.engine
    }

    /// The callers that wait, by the identifier of their request.
    pub closed spec fn waiting(&self) -> Map<Seq<char>, T> {
        self.pending@
    }

    /// Whether the service runs.
    pub closed spec fn runs(&self) -> bool {
        self.running.runs()
    }

    /// Whether the engine and the callers are valid.
    pub closed spec fn wf(&self) -> bool {
        &&& self.engine.wf()
        &&& self.pending.wf()
    }

    /// Whether the broker, the names and the topics are those of `other`.
    pub open spec fn same_service(&self, other: &Self) -> bool {
        &&& self.broker() == other.broker()
        &&& self.client() == other.client()
        &&& self.requests() == other.requests()
        &&& self.responses() == other.responses()
    }

    /// A service that does not run yet, for the broker at an address.
    pub fn new(
        broker_url: &str,
        client_id: &str,
        input_topic: String,
        output_topic: String,
        engine: StreamingEngine<M, F>,
    ) -> (r: InferenceResult<Self>)
        requires
            engine.wf(),
        ensures
            match r {
                Ok(adapter) => {
                    &&& adapter.wf()
                    &&& broker_of(broker_url@) == Some(adapter.broker())
                    &&& adapter.client() == client_id@
                    &&& adapter.requests() == input_topic@
                    &&& adapter.responses() == output_topic@
                    &&& adapter.runner() == engine
                    &&& adapter.waiting() == Map::<Seq<char>, T>::empty()
                    &&& !adapter.runs()
                },
                Err(e) => {
                    &&& broker_of(broker_url@) is None
                    &&& e matches InferenceError::NetworkError(t) && t@ == "Invalid port"@
                },
            },
    {
        match parse_broker(broker_url) {
            Ok((host, port)) => Ok(
                MqttAdapter {
                    host,
                    port,
                    client_id: client_id.to_owned(),
                    engine,
                    input_topic,
                    output_topic,
                    running: RunState::new(),
                    pending: NamedMap::new(),
                },
            ),
            Err(e) => Err(e),
        }
    }

    /// The number of requests that reached the engine so far.
    pub fn step_count(&self) -> (n: usize)
        ensures
            n == self.runner().runner().window().steps(),
    {
        self.engine.step_count()
    }

    /// The host of the broker.
    pub fn host(&self) -> (r: &str)
        ensures
            r@ == self.broker().0,
    {
        self.host.as_str()
    }

    /// The port of the broker.
    pub fn port(&self) -> (r: u16)
        ensures
            r == self.broker().1,
    {
        self.port
    }

    /// How the client names itself.
    pub fn client_id(&self) -> (r: &str)
        ensures
            r@ == self.client(),
    {
        self.client_id.as_str()
    }

    /// The topic that requests come on.
    pub fn input_topic(&self) -> (r: &str)
        ensures
            r@ == self.requests(),
    {
        self.input_topic.as_str()
    }

    /// The topic that responses go to.
    pub fn output_topic(&self) -> (r: &str)
        ensures
            r@ == self.responses(),
    {
        self.output_topic.as_str()
    }

    /// Keeps a caller until its request is answered. One that waited under
    /// the same identifier is handed back.
    pub fn register(&mut self, request_id: &str, waiter: T) -> (replaced: Option<T>)
        requires
            old(self).wf(),
        ensures
            final(self).wf(),
            final(self).same_service(old(self)),
            final(self).runner() == old(self).runner(),
            final(self).runs() == old(self).runs(),
            final(self).waiting() == old(self).waiting().insert(request_id@, waiter),
            replaced == if old(self).waiting().contains_key(request_id@) {
                Some(old(self).waiting()[request_id@])
            } else {
                None
            },
    {
        self.pending.insert(request_id.to_owned(), waiter)
    }

    /// What to do after an event. A request that can be parsed and answered
    /// is answered, and the caller that waits for it no longer waits; one that
    /// cannot is passed over, as is all that is no request. After a failure
    /// the connection rests.
    pub fn on_event<S: SpanMath>(&mut self, span_math: &S, event: BrokerEvent) -> (r: BrokerAction<
        T,
    >)
        requires
            old(self).wf(),
            old(self).runner().runner().window().steps() < usize::MAX,
        ensures
            final(self).wf(),
            final(self).same_service(old(self)),
            final(self).runs() == old(self).runs(),
            final(self).runner().runner().window().steps() <= old(
                self,
            ).runner().runner().window().steps() + 1,
            match event {
                BrokerEvent::Publish(Ok(request)) => exists|
                    answered: InferenceResult<InferenceResponse>,
                |
                    {
                        &&& #[trigger] crate::inference::adapters::answers(
                            *span_math,
                            old(self).runner(),
                            request,
                            final(self).runner(),
                            answered,
                        )
                        &&& match answered {
                            Ok(answer) => {
                                let id = request.request_id@;
                                &&& r matches BrokerAction::Respond { response, waiter }
                                &&& response == answer
                                &&& waiter == if old(self).waiting().contains_key(id) {
                                    Some(old(self).waiting()[id])
                                } else {
                                    None
                                }
                                &&& final(self).waiting() == old(self).waiting().remove(id)
                            },
                            Err(_) => {
                                &&& r is Wait
                                &&& final(self).waiting() == old(self).waiting()
                            },
                        }
                    },
                BrokerEvent::Failure => {
                    &&& r matches BrokerAction::Pause(span)
                    &&& span == (Span { secs: RETRY_SECS, nanos: 0 })
                    &&& *final(self) == *old(self)
                },
                _ => {
                    &&& r is Wait
                    &&& *final(self) == *old(self)
                },
            },
    {
        match event {
            BrokerEvent::Publish(Ok(request)) => {
                let answered: InferenceResult<InferenceResponse> = answer(
                    &mut self.engine,
                    span_math,
                    request,
                );
                assert(crate::inference::adapters::answers(
                    *span_math,
                    old(self).runner(),
                    request,
                    self.runner(),
                    answered,
                ));
                match answered {
                    Ok(response) => {
                        assert(response.request_id@ == request.request_id@);
                        let waiter: Option<T> = self.pending.remove(response.request_id.as_str());
                        assert(self.waiting() == old(self).waiting().remove(request.request_id@));
                        assert(crate::inference::adapters::answers(
                            *span_math,
                            old(self).runner(),
                            request,
                            self.runner(),
                            answered,
                        ));
                        BrokerAction::Respond { response, waiter }
                    },
                    Err(_) => BrokerAction::Wait,
                }
            },
            BrokerEvent::Failure => BrokerAction::Pause(Span::from_secs(RETRY_SECS)),
            _ => BrokerAction::Wait,
        }
    }

    /// What a caller gets for its request. One whose request was not taken or
    /// not answered in time no longer waits.
    pub fn conclude(&mut self, request_id: &str, outcome: RequestOutcome) -> (r: InferenceResult<
        InferenceResponse,
    >)
        requires
            old(self).wf(),
        ensures
            final(self).wf(),
            final(self).same_service(old(self)),
            final(self).runner() == old(self).runner(),
            final(self).runs() == old(self).runs(),
            final(self).waiting() == if outcome is Unpublished || outcome is TimedOut {
                old(self).waiting().remove(request_id@)
            } else {
                old(self).waiting()
            },
            match outcome {
                RequestOutcome::Unserializable(text) => r matches Err(
                    InferenceError::SerializationError(t),
                ) && t == text,
                RequestOutcome::Unpublished(text) => r matches Err(
                    InferenceError::NetworkError(t),
                ) && t == text,
                RequestOutcome::Answered(response) => r == Ok::<InferenceResponse, InferenceError>(
                    response,
                ),
                RequestOutcome::Closed => r matches Err(InferenceError::NetworkError(t)) && t@
                    == "Response channel closed before response was delivered"@,
                RequestOutcome::TimedOut => r matches Err(InferenceError::Timeout(t)) && t@
                    == "No response for request "@ + request_id@ + " within 30s"@,
            },
    {
        match outcome {
            RequestOutcome::Unserializable(text) => Err(InferenceError::SerializationError(text)),
            RequestOutcome::Unpublished(text) => {
                let _ = self.pending.remove(request_id);
                Err(InferenceError::NetworkError(text))
            },
            RequestOutcome::Answered(response) => Ok(response),
            RequestOutcome::Closed => Err(
                InferenceError::NetworkError(
                    "Response channel closed before response was delivered".to_owned(),
                ),
            ),
            RequestOutcome::TimedOut => {
                let _ = self.pending.remove(request_id);
                Err(
                    InferenceError::Timeout(
                        join3("No response for request ", request_id, " within 30s"),
                    ),
                )
            },
        }
    }
}

impl<M: AutoregressiveModel, F: EngineMath, T> NetworkAdapter for MqttAdapter<M, F, T> {
    fn start(&mut self) -> (r: InferenceResult<()>)
        ensures
            r is Ok,
            final(self).runs(),
            final(self).same_service(old(self)),
            final(self).runner() == old(self).runner(),
            final(self).waiting() == old(self).waiting(),
            old(self).wf() ==> final(self).wf(),
    {
        self.running.start()
    }

    fn stop(&mut self) -> (r: InferenceResult<()>)
        ensures
            r is Ok,
            !final(self).runs(),
            final(self).same_service(old(self)),
            final(self).runner() == old(self).runner(),
            final(self).waiting() == old(self).waiting(),
            old(self).wf() ==> final(self).wf(),
    {
        self.running.stop()
    }

    fn is_running(&self) -> (r: bool)
        ensures
            r == self.runs(),
    {
        self.running.is_running()
    }
}

} // verus!
