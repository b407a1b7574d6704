//! Messages of a message queue as sequences of parts, and which socket
//! patterns can send and receive them.

use crate::error::{IoError, IoResult};
use crate::text::join;
use bytes::Bytes;
use std::string::FromUtf8Error;
use vstd::prelude::*;
use vstd::string::*;

verus! {

/// Bytes in memory that owners can share, from the `bytes` crate.
#[verifier::external_type_specification]
#[verifier::external_body]
pub struct ExBytes(bytes::Bytes);

/// The bytes that a shared value holds.
pub uninterp spec fn octets(b: bytes::Bytes) -> Seq<u8>;

/// `Bytes::from` of a vector: the shared value holds the bytes of the vector.
#[verifier::external_body]
fn share(data: Vec<u8>) -> (r: Bytes)
    ensures
        octets(r) == data@,
{
    Bytes::from(data)
}

/// `to_vec` on the slice that `Bytes` dereferences to: a copy of the bytes
/// that the shared value holds.
#[verifier::external_body]
fn unshare(data: &Bytes) -> (r: Vec<u8>)
    ensures
        r@ == octets(*data),
{
    data.to_vec()
}

/// Why bytes are no text, from `std`.
#[verifier::external_type_specification]
#[verifier::external_body]
pub struct ExFromUtf8Error(std::string::FromUtf8Error);

/// `String::from_utf8`: the text that the bytes encode, or an error where
/// they are no valid encoding.
#[verifier::external_body]
fn decode_text(data: Vec<u8>) -> (r: Result<String, FromUtf8Error>)
    ensures
        r is Ok <==> vstd::utf8::valid_utf8(data@),
        r matches Ok(s) ==> s@ == vstd::utf8::decode_utf8(data@),
{
    String::from_utf8(data)
}

/// `to_string` on a `FromUtf8Error`. What the text says is left open.
#[verifier::external_body]
fn describe(e: &FromUtf8Error) -> String {
    e.to_string()
}

/// What a socket does with messages.
#[derive(Debug, Clone, Copy, PartialEq, Eq, Structural)]
pub enum ZmqPattern {
    /// Receives what is published.
    Sub,
    /// Publishes.
    Pub,
    /// Receives what is pushed.
    Pull,
    /// Pushes.
    Push,
    /// Sends requests.
    Req,
    /// Answers requests.
    Rep,
    /// Sends requests without waiting.
    Dealer,
}

impl ZmqPattern {
    /// The name of a pattern.
    pub open spec fn text(self) -> Seq<char> {
        match self {
            ZmqPattern::Sub => "Sub"@,
            ZmqPattern::Pub => "Pub"@,
            ZmqPattern::Pull => "Pull"@,
            ZmqPattern::Push => "Push"@,
            ZmqPattern::Req => "Req"@,
            ZmqPattern::Rep => "Rep"@,
            ZmqPattern::Dealer => "Dealer"@,
        }
    }

    /// The name of the pattern.
    pub fn name(self) -> (r: &'static str)
        ensures
            r@ == self.text(),
    {
        match self {
            ZmqPattern::Sub => "Sub",
            ZmqPattern::Pub => "Pub",
            ZmqPattern::Pull => "Pull",
            ZmqPattern::Push => "Push",
            ZmqPattern::Req => "Req",
            ZmqPattern::Rep => "Rep",
            ZmqPattern::Dealer => "Dealer",
        }
    }
}

/// Configuration of a socket.
#[derive(Debug, Clone)]
pub struct ZmqConfig {
    /// The address.
    pub endpoint: String,
    /// What the socket does with messages.
    pub pattern: ZmqPattern,
    /// The topics to subscribe to.
    pub topics: Vec<String>,
    /// How many messages may wait.
    pub high_water_mark: i32,
    /// How long to wait for a message, in milliseconds; 0 for any time.
    pub recv_timeout_ms: u64,
    /// How long to try to send, in milliseconds; 0 for any time.
    pub send_timeout_ms: u64,
    /// How long unsent messages are kept on closing, in milliseconds.
    pub linger_ms: i32,
    /// Whether to connect again.
    pub reconnect: bool,
    /// Milliseconds between attempts to connect.
    pub reconnect_interval_ms: u64,
}

impl Default for ZmqConfig {
    fn default() -> (r: Self)
        ensures
            r.endpoint@ == Seq::<char>::empty(),
            r.topics@ == Seq::<String>::empty(),
            r == (ZmqConfig {
                endpoint: r.endpoint,
                pattern: ZmqPattern::Sub,
                topics: r.topics,
                high_water_mark: 1000,
                recv_timeout_ms: 0,
                send_timeout_ms: 0,
                linger_ms: 1000,
                reconnect: true,
                reconnect_interval_ms: 1000,
            }),
    {
        ZmqConfig {
            endpoint: String::new(),
            pattern: ZmqPattern::Sub,
            topics: Vec::new(),
            high_water_mark: 1000,
            recv_timeout_ms: 0,
            send_timeout_ms: 0,
            linger_ms: 1000,
            reconnect: true,
            reconnect_interval_ms: 1000,
        }
    }
}

/// What a message says.
#[verifier::ext_equal]
pub struct MessageModel {
    /// The topic.
    pub topic: Option<Seq<char>>,
    /// The payload.
    pub payload: Seq<u8>,
    /// What follows the payload.
    pub frames: Seq<Seq<u8>>,
}

/// The parts of a message: the topic, where there is one, the payload and the
/// frames.
pub open spec fn parts_of(m: MessageModel) -> Seq<Seq<u8>> {
    (match m.topic {
        Some(topic) => seq![vstd::utf8::encode_utf8(topic)],
        None => Seq::empty(),
    }) + seq![m.payload] + m.frames
}

/// What is wrong with the parts of a message.
pub enum PartsError {
    /// There are none.
    Empty,
    /// The topic is no text.
    Topic,
    /// There is no payload.
    Payload,
}

/// The message that parts stand for. The first part is the topic where there
/// is to be one, and the next the payload.
pub open spec fn message_of(parts: Seq<Seq<u8>>, has_topic: bool) -> Result<
    MessageModel,
    PartsError,
> {
    if parts.len() == 0 {
        Err(PartsError::Empty)
    } else if has_topic && !vstd::utf8::valid_utf8(parts[0]) {
        Err(PartsError::Topic)
    } else {
        let rest = if has_topic {
            parts.skip(1)
        } else {
            parts
        };
        if rest.len() == 0 {
            Err(PartsError::Payload)
        } else {
            Ok(
                MessageModel {
                    topic: if has_topic {
                        Some(vstd::utf8::decode_utf8(parts[0]))
                    } else {
                        None
                    },
                    payload: rest[0],
                    frames: rest.skip(1),
                },
            )
        }
    }
}

/// The parts of a message stand for that message.
pub proof fn parts_round_trip(m: MessageModel)
    ensures
        message_of(parts_of(m), m.topic is Some) == Ok::<MessageModel, PartsError>(m),
{
    let parts = parts_of(m);
    match m.topic {
        Some(topic) => {
            vstd::utf8::encode_utf8_valid_utf8(topic);
            vstd::utf8::encode_utf8_decode_utf8(topic);
            assert(parts[0] == vstd::utf8::encode_utf8(topic));
            assert(parts.skip(1) =~= seq![m.payload] + m.frames);
            assert(parts.skip(1).skip(1) =~= m.frames);
        },
        None => {
            assert(parts =~= seq![m.payload] + m.frames);
            assert(parts.skip(1) =~= m.frames);
        },
    }
}

/// Parts that stand for a message are the parts of that message.
pub proof fn message_round_trip(parts: Seq<Seq<u8>>, has_topic: bool)
    requires
        message_of(parts, has_topic) is Ok,
    ensures
        parts_of(message_of(parts, has_topic)->Ok_0) == parts,
{
    if has_topic {
        vstd::utf8::decode_utf8_encode_utf8(parts[0]);
    }
    assert(parts_of(message_of(parts, has_topic)->Ok_0) =~= parts);
}

/// The contents of vectors of bytes.
pub open spec fn contents(v: Seq<Vec<u8>>) -> Seq<Seq<u8>> {
    Seq::new(v.len(), |i: int| v[i]@)
}

/// A message.
#[derive(Debug)]
pub struct ZmqMessage {
    /// The topic.
    pub topic: Option<String>,
    /// The payload.
    pub payload: Bytes,
    /// What follows the payload.
    pub frames: Vec<Bytes>,
}

impl View for ZmqMessage {
    type V = MessageModel;

    open spec fn view(&self) -> MessageModel {
        MessageModel {
            topic: match self.topic {
                Some(t) => Some(t@),
                None => None,
            },
            payload: octets(self.payload),
            frames: Seq::new(self.frames@.len(), |i: int| octets(self.frames@[i])),
        }
    }
}

impl ZmqMessage {
    /// A message without a topic.
    pub fn new(payload: Bytes) -> (r: Self)
        ensures
            r.topic is None,
            r.payload == payload,
            r.frames@ == Seq::<Bytes>::empty(),
    {
        ZmqMessage { topic: None, payload, frames: Vec::new() }
    }

    /// A message with a topic.
    pub fn with_topic(topic: String, payload: Bytes) -> (r: Self)
        ensures
            r.topic == Some(topic),
            r.payload == payload,
            r.frames@ == Seq::<Bytes>::empty(),
    {
        ZmqMessage { topic: Some(topic), payload, frames: Vec::new() }
    }

    /// Puts a frame behind those that are there.
    pub fn add_frame(&mut self, frame: Bytes)
        ensures
            final(self).topic == old(self).topic,
            final(self).payload == old(self).payload,
            final(self).frames@ == old(self).frames@.push(frame),
    {
        self.frames.push(frame);
    }

    /// The parts of the message.
    pub fn to_multipart(&self) -> (r: Vec<Vec<u8>>)
        ensures
            contents(r@) == parts_of(self@),
    {
        let mut parts: Vec<Vec<u8>> = Vec::new();
        if let Some(topic) = &self.topic {
            parts.push(topic.as_str().as_bytes_vec());
        }
        parts.push(unshare(&self.payload));
        let ghost head = contents(parts@);
        assert(head =~= (match self@.topic {
            Some(topic) => seq![vstd::utf8::encode_utf8(topic)],
            None => Seq::empty(),
        }) + seq![self@.payload]);
        let mut i: usize = 0;
        while i < self.frames.len()
            invariant
                i <= self.frames@.len(),
                contents(parts@) == head + self@.frames.take(i as int),
            decreases self.frames@.len() - i,
        {
            let ghost before = contents(parts@);
            parts.push(unshare(&self.frames[i]));
            assert(contents(parts@) =~= before.push(self@.frames[i as int]));
            assert(self@.frames.take(i + 1) =~= self@.frames.take(i as int).push(
                self@.frames[i as int],
            ));
            i += 1;
            assert(contents(parts@) =~= head + self@.frames.take(i as int));
        }
        assert(self@.frames.take(i as int) =~= self@.frames);
        parts
    }

    /// The message that parts stand for.
    pub fn from_multipart(parts: Vec<Vec<u8>>, has_topic: bool) -> (r: IoResult<Self>)
        ensures
            match message_of(contents(parts@), has_topic) {
                Ok(m) => r is Ok && r->Ok_0@ == m,
                Err(PartsError::Empty) => r matches Err(IoError::Protocol(t)) && t@
                    == "Empty ZeroMQ message"@,
                Err(PartsError::Topic) => r matches Err(IoError::Protocol(t)) && (exists|
                    cause: Seq<char>,
                |
                    t@ == #[trigger] ("Invalid topic UTF-8: "@ + cause)),
                Err(PartsError::Payload) => r matches Err(IoError::Protocol(t)) && t@
                    == "ZeroMQ message has no payload"@,
            },
    {
        let mut parts: Vec<Vec<u8>> = parts;
        let ghost given = contents(parts@);
        if parts.len() == 0 {
            return Err(IoError::Protocol("Empty ZeroMQ message".to_owned()));
        }
        let mut topic: Option<String> = None;
        if has_topic {
            let first: Vec<u8> = parts.remove(0);
            assert(first@ == given[0]);
            match decode_text(first) {
                Ok(text) => {
                    topic = Some(text);
                },
                Err(e) => {
                    let cause: String = describe(&e);
                    let text: String = join("Invalid topic UTF-8: ", cause.as_str());
                    assert(text@ == "Invalid topic UTF-8: "@ + cause@);
                    return Err(IoError::Protocol(text));
                },
            }
        }
        let ghost rest = contents(parts@);
        assert(rest =~= if has_topic {
            given.skip(1)
        } else {
            given
        });
        if parts.len() == 0 {
            return Err(IoError::Protocol("ZeroMQ message has no payload".to_owned()));
        }
        let payload: Bytes = share(parts.remove(0));
        assert(contents(parts@) =~= rest.skip(1));
        let frames: Vec<Bytes> = share_all(parts);
        let r: Self = ZmqMessage { topic, payload, frames };
        assert(r@.frames =~= rest.skip(1));
        Ok(r)
    }
}

fn share_all(parts: Vec<Vec<u8>>) -> (r: Vec<Bytes>)
    ensures
        r@.len() == parts@.len(),
        forall|i: int| 0 <= i < r@.len() ==> octets(#[trigger] r@[i]) == contents(parts@)[i],
{
    let mut parts: Vec<Vec<u8>> = parts;
    let ghost given = contents(parts@);
    let mut back: Vec<Bytes> = Vec::new();
    while parts.len() > 0
        invariant
            parts@.len() + back@.len() == given.len(),
            contents(parts@) == given.take(parts@.len() as int),
            forall|i: int|
                0 <= i < back@.len() ==> octets(#[trigger] back@[i]) == given[given.len() - 1 - i],
        decreases parts@.len(),
    {
        let ghost n = parts@.len();
        match parts.pop() {
            Some(last) => {
                assert(contents(parts@) =~= given.take(n - 1));
                assert(given.take(n as int)[n - 1] == last@);
                back.push(share(last));
            },
            None => {},
        }
    }
    let mut out: Vec<Bytes> = Vec::new();
    while back.len() > 0
        invariant
            back@.len() + out@.len() == given.len(),
            forall|i: int|
                0 <= i < back@.len() ==> octets(#[trigger] back@[i]) == given[given.len() - 1 - i],
            forall|i: int| 0 <= i < out@.len() ==> octets(#[trigger] out@[i]) == given[i],
        decreases back@.len(),
    {
        match back.pop() {
            Some(next) => {
                out.push(next);
            },
            None => {},
        }
    }
    out
}

/// Which socket a message is sent over.
#[derive(Debug, Clone, Copy, PartialEq, Eq, Structural)]
pub enum SendSocket {
    /// One that publishes.
    Publish,
    /// One that pushes.
    Push,
}

/// What became of a message that was to be received.
#[derive(Debug)]
pub enum PullOutcome {
    /// The socket could not be connected.
    Unconnected(String),
    /// The socket was closed.
    Closed,
    /// The socket failed.
    Failed(String),
    /// The parts of a message came.
    Received(Vec<Vec<u8>>),
}

/// What became of a message that was to be sent.
#[derive(Debug)]
pub enum SendOutcome {
    /// The socket could not be set up.
    Unready(String),
    /// The socket failed.
    Failed(String),
    /// The message was sent.
    Sent,
}

/// A socket.
#[derive(Debug)]
pub struct ZmqStream {
    config: ZmqConfig,
}

impl ZmqStream {
    /// The configuration of the socket.
    pub closed spec fn settings(&self) -> ZmqConfig {
        self.config
    }

    /// A socket as a configuration says.
    pub fn connect(config: ZmqConfig) -> (r: IoResult<Self>)
        ensures
            r is Ok,
            r->Ok_0.settings() == config,
    {
        Ok(ZmqStream { config })
    }

    /// Whether a message can be received, which only a socket that pulls can.
    pub fn can_recv(&self) -> (r: IoResult<()>)
        ensures
            r is Ok <==> self.settings().pattern == ZmqPattern::Pull,
            r matches Err(e) ==> (e matches IoError::Unsupported(t) && t@ == (match self.settings()
                .pattern {
                ZmqPattern::Sub =>
                    "SUB pattern requires async runtime setup - use PULL pattern for simpler streaming"@,
                ZmqPattern::Rep => "REP pattern not fully implemented yet"@,
                ZmqPattern::Dealer => "DEALER pattern not fully implemented yet"@,
                other => "Receive not supported for pattern: "@ + other.text(),
            })),
    {
        match self.config.pattern {
            ZmqPattern::Pull => Ok(()),
            ZmqPattern::Sub => Err(
                IoError::Unsupported(
                    "SUB pattern requires async runtime setup - use PULL pattern for simpler streaming".to_owned(),
                ),
            ),
            ZmqPattern::Rep => Err(
                IoError::Unsupported("REP pattern not fully implemented yet".to_owned()),
            ),
            ZmqPattern::Dealer => Err(
                IoError::Unsupported("DEALER pattern not fully implemented yet".to_owned()),
            ),
            other => Err(
                IoError::Unsupported(join("Receive not supported for pattern: ", other.name())),
            ),
        }
    }

    /// Which socket a message is sent over, where one can be.
    pub fn can_send(&self) -> (r: IoResult<SendSocket>)
        ensures
            match self.settings().pattern {
                ZmqPattern::Pub => r == Ok::<SendSocket, IoError>(SendSocket::Publish),
                ZmqPattern::Push => r == Ok::<SendSocket, IoError>(SendSocket::Push),
                ZmqPattern::Req => r matches Err(IoError::Unsupported(t)) && t@
                    == "REQ pattern not fully implemented yet"@,
                ZmqPattern::Rep => r matches Err(IoError::Unsupported(t)) && t@
                    == "REP pattern not fully implemented yet"@,
                other => r matches Err(IoError::Unsupported(t)) && t@
                    == "Send not supported for pattern: "@ + other.text(),
            },
    {
        match self.config.pattern {
            ZmqPattern::Pub => Ok(SendSocket::Publish),
            ZmqPattern::Push => Ok(SendSocket::Push),
            ZmqPattern::Req => Err(
                IoError::Unsupported("REQ pattern not fully implemented yet".to_owned()),
            ),
            ZmqPattern::Rep => Err(
                IoError::Unsupported("REP pattern not fully implemented yet".to_owned()),
            ),
            other => Err(
                IoError::Unsupported(join("Send not supported for pattern: ", other.name())),
            ),
        }
    }

    /// The configuration of the socket.
    pub fn config(&self) -> (r: &ZmqConfig)
        ensures
            *r == self.settings(),
    {
        &self.config
    }
}

/// What receiving comes to.
pub fn recv(outcome: PullOutcome) -> (r: IoResult<Option<ZmqMessage>>)
    ensures
        match outcome {
            PullOutcome::Unconnected(cause) => r matches Err(IoError::Connection(t)) && t@
                == "Failed to connect PULL socket: "@ + cause@,
            PullOutcome::Closed => r matches Err(IoError::Connection(t)) && t@
                == "PULL socket closed"@,
            PullOutcome::Failed(cause) => r matches Err(IoError::Connection(t)) && t@
                == "PULL receive error: "@ + cause@,
            PullOutcome::Received(parts) => if parts@.len() == 0 {
                r matches Err(IoError::Protocol(t)) && t@ == "Empty ZeroMQ message"@
            } else {
                &&& r matches Ok(Some(m)) && m@ == message_of(contents(parts@), false)->Ok_0
            },
        },
{
    match outcome {
        PullOutcome::Unconnected(cause) => Err(
            IoError::Connection(join("Failed to connect PULL socket: ", cause.as_str())),
        ),
        PullOutcome::Closed => Err(IoError::Connection("PULL socket closed".to_owned())),
        PullOutcome::Failed(cause) => Err(
            IoError::Connection(join("PULL receive error: ", cause.as_str())),
        ),
        PullOutcome::Received(parts) => match ZmqMessage::from_multipart(parts, false) {
            Ok(m) => Ok(Some(m)),
            Err(e) => Err(e),
        },
    }
}

/// What sending over a socket comes to.
pub fn send(socket: SendSocket, outcome: SendOutcome) -> (r: IoResult<()>)
    ensures
        match outcome {
            SendOutcome::Sent => r is Ok,
            SendOutcome::Unready(cause) => r matches Err(IoError::Connection(t)) && t@ == (
            match socket {
                SendSocket::Publish => "Failed to bind PUB socket: "@,
                SendSocket::Push => "Failed to connect PUSH socket: "@,
            }) + cause@,
            SendOutcome::Failed(cause) => r matches Err(IoError::Connection(t)) && t@ == (
            match socket {
                SendSocket::Publish => "PUB send error: "@,
                SendSocket::Push => "PUSH send error: "@,
            }) + cause@,
        },
{
    match outcome {
        SendOutcome::Sent => Ok(()),
        SendOutcome::Unready(cause) => match socket {
            SendSocket::Publish => Err(
                IoError::Connection(join("Failed to bind PUB socket: ", cause.as_str())),
            ),
            SendSocket::Push => Err(
                IoError::Connection(join("Failed to connect PUSH socket: ", cause.as_str())),
            ),
        },
        SendOutcome::Failed(cause) => match socket {
            SendSocket::Publish => Err(
                IoError::Connection(join("PUB send error: ", cause.as_str())),
            ),
            SendSocket::Push => Err(IoError::Connection(join("PUSH send error: ", cause.as_str()))),
        },
    }
}

} // verus!
