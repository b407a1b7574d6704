//! What a WebSocket connection does with each message.

use crate::error::{InferenceError, InferenceResult};
use crate::inference::adapters::{answer, InferenceMessage, InferenceResponse, SpanMath};
use crate::inference::model::{AutoregressiveModel, EngineMath};
use crate::inference::streaming::StreamingEngine;
use vstd::prelude::*;

verus! {

/// What comes over a connection. A request is parsed already; where that
/// failed, the text of the error is there in its place.
#[derive(Debug)]
pub enum ClientEvent {
    /// A text message.
    Text(Result<InferenceMessage, String>),
    /// A binary message.
    Binary(Result<InferenceMessage, String>),
    /// The client closes the connection.
    Close,
    /// The client asks for a sign of life.
    Ping(Vec<u8>),
    /// The client gives a sign of life.
    Pong,
    /// A raw frame.
    Frame,
    /// The connection failed.
    Failure,
}

/// What to do next on a connection.
#[derive(Debug)]
pub enum ServerAction {
    /// Send a response as text.
    SendText(InferenceResponse),
    /// Send a response as binary.
    SendBinary(InferenceResponse),
    /// Give a sign of life with the same payload.
    SendPong(Vec<u8>),
    /// Wait for the next message.
    Wait,
    /// End the connection.
    End,
}

/// Whether `r` is what to do after a request.
pub open spec fn replies<M: AutoregressiveModel, F: EngineMath, S: SpanMath>(
    span_math: S,
    before: StreamingEngine<M, F>,
    parsed: Result<InferenceMessage, String>,
    after: StreamingEngine<M, F>,
    r: InferenceResult<InferenceResponse>,
) -> bool {
    match parsed {
        Err(text) => {
            &&& r matches Err(InferenceError::SerializationError(t)) && t == text
            &&& after == before
        },
        Ok(request) => exists|answered: InferenceResult<InferenceResponse>|
            {
                &&& #[trigger] crate::inference::adapters::answers(
                    span_math,
                    before,
                    request,
                    after,
                    answered,
                )
                &&& match answered {
                    Ok(response) => r == Ok::<InferenceResponse, InferenceError>(response),
                    Err(e) => r matches Err(InferenceError::NetworkError(t)) && t@ == e.text(),
                }
            },
    }
}

fn reply<M: AutoregressiveModel, F: EngineMath, S: SpanMath>(
    engine: &mut StreamingEngine<M, F>,
    span_math: &S,
    parsed: Result<InferenceMessage, String>,
) -> (r: InferenceResult<InferenceResponse>)
    requires
        old(engine).wf(),
        old(engine).runner().window().steps() < usize::MAX,
    ensures
        final(engine).wf(),
        replies(*span_math, *old(engine), parsed, *final(engine), r),
{
    match parsed {
        Err(text) => Err(InferenceError::SerializationError(text)),
        Ok(request) => {
            let answered: InferenceResult<InferenceResponse> = answer(engine, span_math, request);
            assert(crate::inference::adapters::answers(
                *span_math,
                *old(engine),
                request,
                *engine,
                answered,
            ));
            match answered {
                Ok(response) => Ok(response),
                Err(e) => Err(InferenceError::NetworkError(e.to_text())),
            }
        },
    }
}

/// Whether an event carries a request.
pub open spec fn is_request(event: ClientEvent) -> bool {
    event is Text || event is Binary
}

/// What a connection does with an event. A request is answered in the form
/// that it came in; one that cannot be parsed or answered ends the connection
/// with an error. A closed or failed connection ends without one.
pub fn on_event<M: AutoregressiveModel, F: EngineMath, S: SpanMath>(
    engine: &mut StreamingEngine<M, F>,
    span_math: &S,
    event: ClientEvent,
) -> (r: InferenceResult<ServerAction>)
    requires
        old(engine).wf(),
        old(engine).runner().window().steps() < usize::MAX,
    ensures
        final(engine).wf(),
        final(engine).runner().window().steps() <= old(engine).runner().window().steps() + 1,
        !is_request(event) ==> *final(engine) == *old(engine),
        match event {
            ClientEvent::Text(parsed) => exists|replied: InferenceResult<InferenceResponse>|
                {
                    &&& #[trigger] replies(*span_math, *old(engine), parsed, *final(engine), replied)
                    &&& match replied {
                        Ok(response) => r == Ok::<ServerAction, InferenceError>(
                            ServerAction::SendText(response),
                        ),
                        Err(e) => r == Err::<ServerAction, InferenceError>(e),
                    }
                },
            ClientEvent::Binary(parsed) => exists|replied: InferenceResult<InferenceResponse>|
                {
                    &&& #[trigger] replies(*span_math, *old(engine), parsed, *final(engine), replied)
                    &&& match replied {
                        Ok(response) => r == Ok::<ServerAction, InferenceError>(
                            ServerAction::SendBinary(response),
                        ),
                        Err(e) => r == Err::<ServerAction, InferenceError>(e),
                    }
                },
            ClientEvent::Close => r == Ok::<ServerAction, InferenceError>(ServerAction::End),
            ClientEvent::Ping(data) => r == Ok::<ServerAction, InferenceError>(
                ServerAction::SendPong(data),
            ),
            ClientEvent::Pong => r == Ok::<ServerAction, InferenceError>(ServerAction::Wait),
            ClientEvent::Frame => r == Ok::<ServerAction, InferenceError>(ServerAction::Wait),
            ClientEvent::Failure => r == Ok::<ServerAction, InferenceError>(ServerAction::End),
        },
{
    match event {
        ClientEvent::Text(parsed) => {
            let replied: InferenceResult<InferenceResponse> = reply(engine, span_math, parsed);
            assert(replies(*span_math, *old(engine), parsed, *engine, replied));
            match replied {
                Ok(response) => Ok(ServerAction::SendText(response)),
                Err(e) => Err(e),
            }
        },
        ClientEvent::Binary(parsed) => {
            let replied: InferenceResult<InferenceResponse> = reply(engine, span_math, parsed);
            assert(replies(*span_math, *old(engine), parsed, *engine, replied));
            match replied {
                Ok(response) => Ok(ServerAction::SendBinary(response)),
                Err(e) => Err(e),
            }
        },
        ClientEvent::Close => Ok(ServerAction::End),
        ClientEvent::Ping(data) => Ok(ServerAction::SendPong(data)),
        ClientEvent::Pong => Ok(ServerAction::Wait),
        ClientEvent::Frame => Ok(ServerAction::Wait),
        ClientEvent::Failure => Ok(ServerAction::End),
    }
}

} // verus!
