//! Sensor data from topics of a robot: what to subscribe to, and what to hand
//! out.

use crate::error::{IoError, IoResult};
use crate::io::stream::{pad_to, SignalStream, StreamConfig};
use crate::number::Single;
use crate::text::{join, join3, replace_char};
use vstd::prelude::*;
use vstd::string::*;

verus! {

/// How hard messages are delivered.
#[derive(Debug, Clone, Copy, PartialEq, Eq, Structural)]
pub enum QosProfile {
    /// As fast as can be.
    SensorData,
    /// Reliably.
    SystemDefault,
    /// As for changes of parameters.
    Parameters,
    /// As for services.
    ServicesDefault,
}

/// What the messages of a topic hold.
#[derive(Debug, Clone, PartialEq, Eq)]
pub enum Ros2MessageType {
    /// A number of 32 bits.
    Float32,
    /// A number of 64 bits.
    Float64,
    /// Numbers of 32 bits.
    Float32Array,
    /// Numbers of 64 bits.
    Float64Array,
    /// Three accelerations and three rates of turn.
    Imu,
    /// Distances.
    LaserScan,
    /// Anything else, by name.
    Custom(String),
}

/// The text that `{:?}` gives for a string: in quotes, with what cannot stand
/// there escaped.
pub uninterp spec fn quoted(s: Seq<char>) -> Seq<char>;

/// `format!` of a string with `{:?}`. What it escapes is left open.
#[verifier::external_body]
fn quote(s: &str) -> (r: String)
    ensures
        r@ == quoted(s@),
{
    format!("{:?}", s)
}

impl Ros2MessageType {
    /// The name of a kind of messages.
    pub open spec fn text(&self) -> Seq<char> {
        match self {
            Ros2MessageType::Float32 => "Float32"@,
            Ros2MessageType::Float64 => "Float64"@,
            Ros2MessageType::Float32Array => "Float32Array"@,
            Ros2MessageType::Float64Array => "Float64Array"@,
            Ros2MessageType::Imu => "Imu"@,
            Ros2MessageType::LaserScan => "LaserScan"@,
            Ros2MessageType::Custom(name) => "Custom("@ + quoted(name@) + ")"@,
        }
    }

    /// The name of the kind of messages.
    pub fn name(&self) -> (r: String)
        ensures
            r@ == self.text(),
    {
        match self {
            Ros2MessageType::Float32 => "Float32".to_owned(),
            Ros2MessageType::Float64 => "Float64".to_owned(),
            Ros2MessageType::Float32Array => "Float32Array".to_owned(),
            Ros2MessageType::Float64Array => "Float64Array".to_owned(),
            Ros2MessageType::Imu => "Imu".to_owned(),
            Ros2MessageType::LaserScan => "LaserScan".to_owned(),
            Ros2MessageType::Custom(name) => join3("Custom(", quote(name.as_str()).as_str(), ")"),
        }
    }
}

/// The bit pattern of 100.0, the default sample rate in Hz.
pub const SAMPLE_RATE_BITS: u32 = 0x42c8_0000;

/// Configuration of a subscription.
#[derive(Debug, Clone)]
pub struct Ros2Config {
    /// The topic.
    pub topic: String,
    /// What its messages hold.
    pub message_type: Ros2MessageType,
    /// How the subscriber names itself.
    pub node_name: String,
    /// How hard messages are delivered.
    pub qos: QosProfile,
    /// How many samples are handed out at once.
    pub buffer_size: usize,
    /// Sample rate in Hz.
    pub sample_rate: Single,
    /// The number of channels.
    pub channels: usize,
}

/// Whether a configuration is the default one for a topic. The subscriber is
/// named after the topic, with its slashes turned into underscores.
pub open spec fn is_default_for(
    c: Ros2Config,
    topic: Seq<char>,
    message_type: Ros2MessageType,
) -> bool {
    &&& c.topic@ == topic
    &&& c.message_type == message_type
    &&& c.node_name@ == "kizzasi_subscriber_"@ + crate::text::replaced(topic, '/', '_')
    &&& c.qos == QosProfile::SensorData
    &&& c.buffer_size == 1024
    &&& c.sample_rate.bits == SAMPLE_RATE_BITS
    &&& c.channels == 1
}

impl Ros2Config {
    /// The default configuration for a topic.
    pub fn new(topic: &str, message_type: Ros2MessageType) -> (r: Self)
        ensures
            is_default_for(r, topic@, message_type),
    {
        let node_name: String = join(
            "kizzasi_subscriber_",
            replace_char(topic, '/', '_').as_str(),
        );
        Ros2Config {
            topic: topic.to_owned(),
            message_type,
            node_name,
            qos: QosProfile::SensorData,
            buffer_size: 1024,
            sample_rate: Single::from_bits(SAMPLE_RATE_BITS),
            channels: 1,
        }
    }

    /// Sets how hard messages are delivered.
    pub fn with_qos(self, qos: QosProfile) -> (r: Self)
        ensures
            r == (Ros2Config { qos, ..self }),
    {
        Ros2Config { qos, ..self }
    }

    /// Sets how many samples are handed out at once.
    pub fn with_buffer_size(self, buffer_size: usize) -> (r: Self)
        ensures
            r == (Ros2Config { buffer_size, ..self }),
    {
        Ros2Config { buffer_size, ..self }
    }

    /// Sets the sample rate.
    pub fn with_sample_rate(self, sample_rate: Single) -> (r: Self)
        ensures
            r == (Ros2Config { sample_rate, ..self }),
    {
        Ros2Config { sample_rate, ..self }
    }

    /// Sets the number of channels.
    pub fn with_channels(self, channels: usize) -> (r: Self)
        ensures
            r == (Ros2Config { channels, ..self }),
    {
        Ros2Config { channels, ..self }
    }
}

impl Default for Ros2Config {
    fn default() -> (r: Self)
        ensures
            is_default_for(r, "/sensor_data"@, Ros2MessageType::Float32),
    {
        Ros2Config::new("/sensor_data", Ros2MessageType::Float32)
    }
}

/// What to subscribe to.
#[derive(Debug, Clone, Copy, PartialEq, Eq, Structural)]
pub enum Subscription {
    /// Numbers of 32 bits, one in a message.
    Float32,
    /// Numbers of 64 bits, one in a message.
    Float64,
    /// Numbers of 32 bits, many in a message.
    Float32Array,
    /// Accelerations and rates of turn.
    Imu,
}

/// A subscription to a topic.
#[derive(Debug)]
pub struct Ros2Stream {
    config: Ros2Config,
    stream_config: StreamConfig,
    buffer: Vec<Single>,
    active: bool,
}

impl Ros2Stream {
    /// The configuration of the subscription.
    pub closed spec fn settings(&self) -> Ros2Config {
        self.config
    }

    /// The samples that have not been handed out.
    pub closed spec fn rest(&self) -> Seq<Single> {
        self.buffer@
    }

    /// Whether the subscription has not been closed.
    pub closed spec fn open(&self) -> bool {
        self.active
    }

    /// Whether what the stream says of itself is the default.
    pub closed spec fn wf(&self) -> bool {
        self.stream_config == (StreamConfig {
            sample_rate: Single { bits: SAMPLE_RATE_BITS },
            channels: 1,
            buffer_size: 1024,
            timeout: None,
        })
    }

    /// A subscription without samples.
    pub fn new(config: Ros2Config) -> (r: Self)
        ensures
            r.wf(),
            r.settings() == config,
            r.rest() == Seq::<Single>::empty(),
            r.open(),
    {
        Ros2Stream {
            config,
            stream_config: StreamConfig {
                sample_rate: Single::from_bits(SAMPLE_RATE_BITS),
                channels: 1,
                buffer_size: 1024,
                timeout: None,
            },
            buffer: Vec::new(),
            active: true,
        }
    }

    /// What to subscribe to, or an error for messages that cannot be read.
    pub fn start(&self) -> (r: IoResult<Subscription>)
        ensures
            match self.settings().message_type {
                Ros2MessageType::Float32 => r == Ok::<Subscription, IoError>(Subscription::Float32),
                Ros2MessageType::Float64 => r == Ok::<Subscription, IoError>(Subscription::Float64),
                Ros2MessageType::Float32Array => r == Ok::<Subscription, IoError>(
                    Subscription::Float32Array,
                ),
                Ros2MessageType::Imu => r == Ok::<Subscription, IoError>(Subscription::Imu),
                other => r matches Err(IoError::Unsupported(t)) && t@ == "Message type "@
                    + other.text() + " not yet implemented"@,
            },
    {
        match &self.config.message_type {
            Ros2MessageType::Float32 => Ok(Subscription::Float32),
            Ros2MessageType::Float64 => Ok(Subscription::Float64),
            Ros2MessageType::Float32Array => Ok(Subscription::Float32Array),
            Ros2MessageType::Imu => Ok(Subscription::Imu),
            other => Err(
                IoError::Unsupported(
                    join3("Message type ", other.name().as_str(), " not yet implemented"),
                ),
            ),
        }
    }

    /// The configuration of the stream as the subscription says.
    pub fn stream_config(&self) -> (r: StreamConfig)
        ensures
            r == (StreamConfig {
                sample_rate: self.settings().sample_rate,
                channels: self.settings().channels,
                buffer_size: self.settings().buffer_size,
                timeout: None,
            }),
    {
        StreamConfig {
            sample_rate: self.config.sample_rate,
            channels: self.config.channels,
            buffer_size: self.config.buffer_size,
            timeout: None,
        }
    }

    /// Puts samples behind those that are there.
    pub fn push_data(&mut self, data: Vec<Single>)
        ensures
            old(self).wf() ==> final(self).wf(),
            final(self).settings() == old(self).settings(),
            final(self).open() == old(self).open(),
            final(self).rest() == old(self).rest() + data@,
    {
        let mut data: Vec<Single> = data;
        self.buffer.append(&mut data);
    }
}

impl SignalStream for Ros2Stream {
    /// Hands out the next `buffer_size` samples, or silence while there are
    /// fewer.
    fn read(&mut self) -> (r: IoResult<Vec<Single>>)
        ensures
            old(self).wf() ==> final(self).wf(),
            final(self).settings() == old(self).settings(),
            final(self).open() == old(self).open(),
            r is Ok,
            ({
                let n = old(self).settings().buffer_size as int;
                let rest = old(self).rest();
                if n <= rest.len() {
                    &&& r->Ok_0@ == rest.take(n)
                    &&& final(self).rest() == rest.skip(n)
                } else {
                    &&& r->Ok_0@ == crate::io::stream::padded(Seq::empty(), n as nat)
                    &&& final(self).rest() == rest
                }
            }),
    {
        let n: usize = self.config.buffer_size;
        if self.buffer.len() >= n {
            let tail: Vec<Single> = self.buffer.split_off(n);
            let mut head: Vec<Single> = tail;
            std::mem::swap(&mut head, &mut self.buffer);
            assert(head@ =~= old(self).rest().take(n as int));
            assert(self.rest() =~= old(self).rest().skip(n as int));
            Ok(head)
        } else {
            let none: Vec<Single> = Vec::new();
            Ok(pad_to(none.as_slice(), n))
        }
    }

    fn is_active(&self) -> (r: bool)
        ensures
            r == self.open(),
    {
        self.active
    }

    /// What the stream says of itself, which does not follow the subscription.
    fn config(&self) -> (r: &StreamConfig)
        ensures
            self.wf() ==> *r == (StreamConfig {
                sample_rate: Single { bits: SAMPLE_RATE_BITS },
                channels: 1,
                buffer_size: 1024,
                timeout: None,
            }),
    {
        &self.stream_config
    }

    fn close(&mut self) -> (r: IoResult<()>)
        ensures
            r is Ok,
            old(self).wf() ==> final(self).wf(),
            !final(self).open(),
            final(self).settings() == old(self).settings(),
            final(self).rest() == old(self).rest(),
    {
        self.active = false;
        Ok(())
    }
}

/// A step of subscribing.
#[derive(Debug, Clone, Copy, PartialEq, Eq, Structural)]
pub enum Ros2Step {
    /// Making a context.
    Context,
    /// Making a node.
    Node,
    /// Subscribing.
    Subscribe,
}

/// The error for a step that failed.
pub fn failure(step: Ros2Step, cause: &str) -> (r: IoError)
    ensures
        match step {
            Ros2Step::Context => r matches IoError::Connection(t) && t@
                == "Failed to create ROS2 context: "@ + cause@,
            Ros2Step::Node => r matches IoError::Connection(t) && t@
                == "Failed to create ROS2 node: "@ + cause@,
            Ros2Step::Subscribe => r matches IoError::Protocol(t) && t@ == "Failed to subscribe: "@
                + cause@,
        },
{
    match step {
        Ros2Step::Context => IoError::Connection(join("Failed to create ROS2 context: ", cause)),
        Ros2Step::Node => IoError::Connection(join("Failed to create ROS2 node: ", cause)),
        Ros2Step::Subscribe => IoError::Protocol(join("Failed to subscribe: ", cause)),
    }
}

} // verus!
