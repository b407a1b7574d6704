//! A client that collects sensor data from a broker.

use crate::error::{IoError, IoResult};
use crate::io::backoff::next_delay;
use crate::io::stream::{pad_to, SignalStream, StreamConfig};
use crate::number::Single;
use crate::text::join;
use crate::time::{elapsed, now, Span};
use std::time::Instant;
use vstd::prelude::*;
use vstd::string::*;

verus! {

/// How hard the broker tries to deliver a message.
#[derive(Debug, Clone, Copy, PartialEq, Eq, Structural)]
pub enum QosLevel {
    /// The message may be lost.
    AtMostOnce,
    /// The message is acknowledged.
    AtLeastOnce,
    /// The message comes once.
    ExactlyOnce,
}

impl Default for QosLevel {
    fn default() -> (r: Self)
        ensures
            r == QosLevel::AtLeastOnce,
    {
        QosLevel::AtLeastOnce
    }
}

/// The files and protocols of an encrypted connection.
#[derive(Debug, Clone)]
pub struct TlsConfig {
    /// The certificate of the authority.
    pub ca_cert_path: Option<String>,
    /// The certificate of the client.
    pub client_cert_path: Option<String>,
    /// The key of the client.
    pub client_key_path: Option<String>,
    /// The protocols to offer.
    pub alpn: Option<Vec<String>>,
}

impl Default for TlsConfig {
    fn default() -> (r: Self)
        ensures
            r == (TlsConfig {
                ca_cert_path: None,
                client_cert_path: None,
                client_key_path: None,
                alpn: None,
            }),
    {
        TlsConfig { ca_cert_path: None, client_cert_path: None, client_key_path: None, alpn: None }
    }
}

/// Configuration of a connection to a broker.
#[derive(Debug, Clone)]
pub struct MqttConfig {
    /// The host of the broker.
    pub host: String,
    /// The port of the broker.
    pub port: u16,
    /// How the client names itself.
    pub client_id: String,
    /// The topics to subscribe to; `+` and `#` stand for any level.
    pub topics: Vec<String>,
    /// How hard to try to deliver.
    pub qos: QosLevel,
    /// Seconds between two signs of life.
    pub keep_alive_secs: u64,
    /// Whether the connection is encrypted.
    pub use_tls: bool,
    /// How the connection is encrypted.
    pub tls_config: TlsConfig,
    /// The name to log in with.
    pub username: Option<String>,
    /// The password to log in with.
    pub password: Option<String>,
    /// Whether retained messages are taken.
    pub handle_retained: bool,
    /// Whether to connect again after a failure.
    pub auto_reconnect: bool,
    /// The first delay before connecting again, in milliseconds.
    pub reconnect_delay_ms: u64,
    /// The longest delay before connecting again, in milliseconds.
    pub max_reconnect_delay_ms: u64,
    /// How many samples make a batch.
    pub batch_size: usize,
    /// How long a batch may wait, in milliseconds.
    pub batch_timeout_ms: u64,
    /// Whether the broker forgets the session.
    pub clean_session: bool,
}

/// Whether a configuration is the default one, but for the broker.
pub open spec fn is_default_but_for_broker(c: MqttConfig) -> bool {
    &&& c.client_id@ == "kizzasi-client"@
    &&& c.topics@.len() == 1
    &&& c.topics@[0]@ == "sensors/#"@
    &&& c.qos == QosLevel::AtLeastOnce
    &&& c.keep_alive_secs == 30
    &&& !c.use_tls
    &&& c.tls_config == (TlsConfig {
        ca_cert_path: None,
        client_cert_path: None,
        client_key_path: None,
        alpn: None,
    })
    &&& c.username is None
    &&& c.password is None
    &&& c.handle_retained
    &&& c.auto_reconnect
    &&& c.reconnect_delay_ms == 1000
    &&& c.max_reconnect_delay_ms == 30000
    &&& c.batch_size == 100
    &&& c.batch_timeout_ms == 100
    &&& c.clean_session
}

impl Default for MqttConfig {
    fn default() -> (r: Self)
        ensures
            r.host@ == "localhost"@,
            r.port == 1883,
            is_default_but_for_broker(r),
    {
        MqttConfig::new("localhost", 1883)
    }
}

impl MqttConfig {
    /// The default configuration for a broker.
    pub fn new(host: &str, port: u16) -> (r: Self)
        ensures
            r.host@ == host@,
            r.port == port,
            is_default_but_for_broker(r),
    {
        let mut topics: Vec<String> = Vec::new();
        topics.push("sensors/#".to_owned());
        MqttConfig {
            host: host.to_owned(),
            port,
            client_id: "kizzasi-client".to_owned(),
            topics,
            qos: QosLevel::AtLeastOnce,
            keep_alive_secs: 30,
            use_tls: false,
            tls_config: TlsConfig::default(),
            username: None,
            password: None,
            handle_retained: true,
            auto_reconnect: true,
            reconnect_delay_ms: 1000,
            max_reconnect_delay_ms: 30000,
            batch_size: 100,
            batch_timeout_ms: 100,
            clean_session: true,
        }
    }

    /// Sets the topics.
    pub fn topics(self, topics: Vec<String>) -> (r: Self)
        ensures
            r == (MqttConfig { topics, ..self }),
    {
        MqttConfig { topics, ..self }
    }

    /// Sets a single topic.
    pub fn topic(self, topic: &str) -> (r: Self)
        ensures
            r == (MqttConfig { topics: r.topics, ..self }),
            r.topics@.len() == 1,
            r.topics@[0]@ == topic@,
    {
        let mut topics: Vec<String> = Vec::new();
        topics.push(topic.to_owned());
        MqttConfig { topics, ..self }
    }

    /// Sets how the client names itself.
    pub fn client_id(self, id: &str) -> (r: Self)
        ensures
            r == (MqttConfig { client_id: r.client_id, ..self }),
            r.client_id@ == id@,
    {
        MqttConfig { client_id: id.to_owned(), ..self }
    }

    /// Sets how hard to try to deliver.
    pub fn qos(self, qos: QosLevel) -> (r: Self)
        ensures
            r == (MqttConfig { qos, ..self }),
    {
        MqttConfig { qos, ..self }
    }

    /// Encrypts the connection.
    pub fn enable_tls(self, tls_config: TlsConfig) -> (r: Self)
        ensures
            r == (MqttConfig { use_tls: true, tls_config, ..self }),
    {
        MqttConfig { use_tls: true, tls_config, ..self }
    }

    /// Sets what to log in with.
    pub fn credentials(self, username: String, password: String) -> (r: Self)
        ensures
            r == (MqttConfig { username: Some(username), password: Some(password), ..self }),
    {
        MqttConfig { username: Some(username), password: Some(password), ..self }
    }

    /// Seconds between two signs of life, as far as the protocol can say.
    pub fn keep_alive(&self) -> (r: u16)
        ensures
            r == if self.keep_alive_secs <= u16::MAX {
                self.keep_alive_secs as u16
            } else {
                u16::MAX
            },
    {
        if self.keep_alive_secs <= 0xffff {
            self.keep_alive_secs as u16
        } else {
            0xffff
        }
    }

    /// What to log in with: a name and a password, where both are set.
    pub fn login(&self) -> (r: Option<(&String, &String)>)
        ensures
            match (self.username, self.password) {
                (Some(name), Some(password)) => r == Some((&name, &password)),
                _ => r is None,
            },
    {
        match (&self.username, &self.password) {
            (Some(name), Some(password)) => Some((name, password)),
            _ => None,
        }
    }

    /// How to encrypt the connection; `None` where it is not, which is also
    /// the case where no certificate of the authority is named. The client
    /// shows a certificate where both it and its key are named.
    pub fn tls_plan(&self) -> (r: Option<TlsPlan>)
        ensures
            r is Some <==> self.use_tls && self.tls_config.ca_cert_path is Some,
            r matches Some(plan) ==> {
                let tls = self.tls_config;
                &&& plan.ca_path@ == tls.ca_cert_path->0@
                &&& match (tls.client_cert_path, tls.client_key_path) {
                    (Some(cert), Some(key)) => {
                        &&& plan.client_auth matches Some(auth)
                        &&& auth.0@ == cert@
                        &&& auth.1@ == key@
                    },
                    _ => plan.client_auth is None,
                }
                &&& match tls.alpn {
                    Some(names) => plan.alpn is Some && are_bytes_of(plan.alpn->0@, names@),
                    None => plan.alpn is None,
                }
            },
    {
        if !self.use_tls {
            return None;
        }
        match &self.tls_config.ca_cert_path {
            None => None,
            Some(ca) => {
                let client_auth: Option<(String, String)> = match (
                    &self.tls_config.client_cert_path,
                    &self.tls_config.client_key_path,
                ) {
                    (Some(cert), Some(key)) => Some(
                        (cert.as_str().to_owned(), key.as_str().to_owned()),
                    ),
                    _ => None,
                };
                let alpn: Option<Vec<Vec<u8>>> = match &self.tls_config.alpn {
                    Some(names) => Some(bytes_of_all(names)),
                    None => None,
                };
                Some(TlsPlan { ca_path: ca.as_str().to_owned(), client_auth, alpn })
            },
        }
    }
}

/// How a connection is to be encrypted.
#[derive(Debug)]
pub struct TlsPlan {
    /// The file with the certificate of the authority.
    pub ca_path: String,
    /// The files with the certificate and the key of the client.
    pub client_auth: Option<(String, String)>,
    /// The protocols to offer.
    pub alpn: Option<Vec<Vec<u8>>>,
}

/// Whether each of `data` holds the bytes of the text at its place.
pub open spec fn are_bytes_of(data: Seq<Vec<u8>>, texts: Seq<String>) -> bool {
    &&& data.len() == texts.len()
    &&& forall|i: int|
        0 <= i < data.len() ==> (#[trigger] data[i])@ == vstd::utf8::encode_utf8(
            texts[i]@,
        )
}

fn bytes_of_all(texts: &Vec<String>) -> (r: Vec<Vec<u8>>)
    ensures
        are_bytes_of(r@, texts@),
{
    let mut out: Vec<Vec<u8>> = Vec::new();
    let mut i: usize = 0;
    while i < texts.len()
        invariant
            i <= texts@.len(),
            out@.len() == i,
            forall|k: int| 0 <= k < i ==> (#[trigger] out@[k])@ == vstd::utf8::encode_utf8(
                texts@[k]@,
            ),
        decreases texts@.len() - i,
    {
        let mut bytes: Vec<u8> = Vec::new();
        bytes.extend_from_slice(texts[i].as_str().as_bytes());
        assert(bytes@ =~= vstd::utf8::encode_utf8(texts@[i as int]@));
        out.push(bytes);
        i += 1;
    }
    out
}

/// A file that an encrypted connection needs.
#[derive(Debug, Clone, Copy, PartialEq, Eq, Structural)]
pub enum TlsFile {
    /// The certificate of the authority.
    Authority,
    /// The certificate of the client.
    ClientCertificate,
    /// The key of the client.
    ClientKey,
}

/// The error for a file that could not be read.
pub fn unreadable(file: TlsFile, cause: &str) -> (r: IoError)
    ensures
        r matches IoError::ConfigError(t) && t@ == (match file {
            TlsFile::Authority => "Failed to read CA cert: "@,
            TlsFile::ClientCertificate => "Failed to read client cert: "@,
            TlsFile::ClientKey => "Failed to read client key: "@,
        }) + cause@,
{
    match file {
        TlsFile::Authority => IoError::ConfigError(join("Failed to read CA cert: ", cause)),
        TlsFile::ClientCertificate => IoError::ConfigError(
            join("Failed to read client cert: ", cause),
        ),
        TlsFile::ClientKey => IoError::ConfigError(join("Failed to read client key: ", cause)),
    }
}

/// A message from the broker.
#[derive(Debug, Clone)]
pub struct MqttMessage {
    /// The topic.
    pub topic: String,
    /// The payload.
    pub payload: Vec<u8>,
    /// How hard the broker tried to deliver it.
    pub qos: QosLevel,
    /// Whether the broker had kept it.
    pub retained: bool,
}

/// What a client has received: messages, and the samples that were in them.
/// Samples gather in a batch before they can be read.
#[verifier::ext_equal]
pub struct Received {
    /// The messages.
    pub messages: Seq<MqttMessage>,
    /// The samples that can be read.
    pub samples: Seq<Single>,
    /// The samples of the batch.
    pub batch: Seq<Single>,
}

/// Whether a configuration passes over a message.
pub open spec fn skips(config: MqttConfig, message: MqttMessage) -> bool {
    message.retained && !config.handle_retained
}

/// The samples of a message, where it has any.
pub open spec fn samples_in(values: Option<Vec<Single>>) -> Option<Seq<Single>> {
    match values {
        Some(v) => Some(v@),
        None => None,
    }
}

/// What a client has received after a message, and whether the batch was
/// flushed. `values` holds the samples of the message, where it has any;
/// `waited` is how long ago the batch was last flushed.
pub open spec fn after_message(
    config: MqttConfig,
    before: Received,
    message: MqttMessage,
    values: Option<Seq<Single>>,
    waited: Span,
) -> (Received, bool) {
    if skips(config, message) {
        (before, false)
    } else {
        let messages = before.messages.push(message);
        match values {
            None => (Received { messages, ..before }, false),
            Some(new) => {
                let batch = before.batch + new;
                if batch.len() >= config.batch_size || waited.millis() >= config.batch_timeout_ms {
                    (
                        Received { messages, samples: before.samples + batch, batch: Seq::empty() },
                        true,
                    )
                } else {
                    (Received { messages, samples: before.samples, batch }, false)
                }
            },
        }
    }
}

/// Batching neither loses nor reorders a sample: what can be read, followed by
/// what is still in the batch, grows by the samples of each message.
pub proof fn batching_keeps_every_sample(
    config: MqttConfig,
    before: Received,
    message: MqttMessage,
    values: Seq<Single>,
    waited: Span,
)
    requires
        !skips(config, message),
    ensures
        ({
            let after = after_message(config, before, message, Some(values), waited).0;
            after.samples + after.batch == before.samples + before.batch + values
        }),
{
    let after = after_message(config, before, message, Some(values), waited).0;
    assert(after.samples + after.batch =~= before.samples + before.batch + values);
}

/// After a message a batch is shorter than its size, unless the message had
/// no samples.
pub proof fn a_full_batch_is_flushed(
    config: MqttConfig,
    before: Received,
    message: MqttMessage,
    values: Seq<Single>,
    waited: Span,
)
    requires
        !skips(config, message),
        config.batch_size > 0,
    ensures
        after_message(config, before, message, Some(values), waited).0.batch.len()
            < config.batch_size,
{
}

/// A client for one broker.
pub struct MqttClient {
    config: MqttConfig,
    stream_config: StreamConfig,
    buffer: Vec<Single>,
    message_buffer: Vec<MqttMessage>,
    active: bool,
    attached: bool,
    batch: Vec<Single>,
    last_flush: Instant,
    delay_ms: u64,
}

impl MqttClient {
    /// The configuration of the connection.
    pub closed spec fn settings(&self) -> MqttConfig {
        self.config
    }

    /// The configuration of the stream.
    pub closed spec fn stream_settings(&self) -> StreamConfig {
        self.stream_config
    }

    /// What the client has received and not handed out.
    pub closed spec fn received(&self) -> Received {
        Received {
            messages: self.message_buffer@,
            samples: self.buffer@,
            batch: self.batch@,
        }
    }

    /// Whether events are taken from the connection.
    pub closed spec fn listens(&self) -> bool {
        self.active
    }

    /// Whether there is a connection to send over.
    pub closed spec fn is_attached(&self) -> bool {
        self.attached
    }

    /// The delay before the next attempt to connect, in milliseconds.
    pub closed spec fn delay(&self) -> u64 {
        self.delay_ms
    }

    /// When the batch was last flushed.
    pub closed spec fn last_flushed(&self) -> Instant {
        self.last_flush
    }

    /// Whether the configurations are those of `other`.
    pub open spec fn same_settings(&self, other: &Self) -> bool {
        &&& self.settings() == other.settings()
        &&& self.stream_settings() == other.stream_settings()
    }

    /// A client that is not connected.
    pub fn new(mqtt_config: MqttConfig, stream_config: StreamConfig) -> (r: Self)
        ensures
            r.settings() == mqtt_config,
            r.stream_settings() == stream_config,
            r.received() == (Received {
                messages: Seq::empty(),
                samples: Seq::empty(),
                batch: Seq::empty(),
            }),
            !r.listens(),
            !r.is_attached(),
            r.delay() == mqtt_config.reconnect_delay_ms,
    {
        let delay_ms: u64 = mqtt_config.reconnect_delay_ms;
        let r: Self = MqttClient {
            config: mqtt_config,
            stream_config,
            buffer: Vec::new(),
            message_buffer: Vec::new(),
            active: false,
            attached: false,
            batch: Vec::new(),
            last_flush: now(),
            delay_ms,
        };
        assert(r.received() =~= Received {
            messages: Seq::empty(),
            samples: Seq::empty(),
            batch: Seq::empty(),
        });
        r
    }

    /// Takes note of what became of the subscriptions. With all of them made
    /// the client is connected, with an empty batch and the first delay; with
    /// one that failed it stays as it was.
    pub fn subscribed(&mut self, outcome: Result<(), String>) -> (r: IoResult<()>)
        ensures
            final(self).same_settings(old(self)),
            match outcome {
                Ok(_) => {
                    &&& r is Ok
                    &&& final(self).listens()
                    &&& final(self).is_attached()
                    &&& final(self).delay() == old(self).settings().reconnect_delay_ms
                    &&& final(self).received() == (Received {
                        batch: Seq::empty(),
                        ..old(self).received()
                    })
                },
                Err(cause) => {
                    &&& r matches Err(IoError::ConnectionFailed(t)) && t@ == "Subscribe failed: "@
                        + cause@
                    &&& *final(self) == *old(self)
                },
            },
    {
        match outcome {
            Ok(_) => {
                self.active = true;
                self.attached = true;
                self.batch = Vec::new();
                self.last_flush = now();
                self.delay_ms = self.config.reconnect_delay_ms;
                Ok(())
            },
            Err(cause) => Err(
                IoError::ConnectionFailed(join("Subscribe failed: ", cause.as_str())),
            ),
        }
    }

    /// Takes in a message, given the time and how long ago the batch was last
    /// flushed. Says whether it was flushed now. A message that is not passed
    /// over puts the delay back to the first one.
    pub fn receive_after(
        &mut self,
        message: MqttMessage,
        values: Option<Vec<Single>>,
        waited: Span,
        at: Instant,
    ) -> (flushed: bool)
        ensures
            final(self).same_settings(old(self)),
            final(self).listens() == old(self).listens(),
            final(self).is_attached() == old(self).is_attached(),
            (final(self).received(), flushed) == after_message(
                old(self).settings(),
                old(self).received(),
                message,
                samples_in(values),
                waited,
            ),
            final(self).last_flushed() == if flushed {
                at
            } else {
                old(self).last_flushed()
            },
            final(self).delay() == if skips(old(self).settings(), message) {
                old(self).delay()
            } else {
                old(self).settings().reconnect_delay_ms
            },
    {
        if message.retained && !self.config.handle_retained {
            return false;
        }
        self.message_buffer.push(message);
        let mut flushed: bool = false;
        if let Some(mut new) = values {
            self.batch.append(&mut new);
            if self.batch.len() >= self.config.batch_size || waited.as_millis()
                >= self.config.batch_timeout_ms as u128 {
                self.buffer.append(&mut self.batch);
                self.last_flush = at;
                flushed = true;
            }
        }
        self.delay_ms = self.config.reconnect_delay_ms;
        flushed
    }

    /// Takes in a message.
    pub fn receive(&mut self, message: MqttMessage, values: Option<Vec<Single>>)
        ensures
            final(self).same_settings(old(self)),
            final(self).listens() == old(self).listens(),
            final(self).is_attached() == old(self).is_attached(),
            exists|waited: Span|
                {
                    let after = #[trigger] after_message(
                        old(self).settings(),
                        old(self).received(),
                        message,
                        samples_in(values),
                        waited,
                    );
                    &&& final(self).received() == after.0
                    &&& !after.1 ==> final(self).last_flushed() == old(self).last_flushed()
                },
            final(self).delay() == if skips(old(self).settings(), message) {
                old(self).delay()
            } else {
                old(self).settings().reconnect_delay_ms
            },
    {
        let waited: Span = elapsed(&self.last_flush);
        let flushed: bool = self.receive_after(message, values, waited, now());
        assert((self.received(), flushed) == after_message(
            old(self).settings(),
            old(self).received(),
            message,
            samples_in(values),
            waited,
        ));
    }

    /// Takes note of a failure of the connection. Gives the delay in
    /// milliseconds after which to connect again, and doubles it for the next
    /// time; `None` ends the client where it does not connect again.
    pub fn connection_failed(&mut self) -> (r: Option<u64>)
        ensures
            final(self).same_settings(old(self)),
            final(self).received() == old(self).received(),
            final(self).last_flushed() == old(self).last_flushed(),
            final(self).is_attached() == old(self).is_attached(),
            ({
                let config = old(self).settings();
                if config.auto_reconnect {
                    &&& r == Some(old(self).delay())
                    &&& final(self).delay() == crate::io::backoff::doubled(
                        old(self).delay() as int,
                        config.max_reconnect_delay_ms as int,
                    )
                    &&& final(self).listens() == old(self).listens()
                } else {
                    &&& r is None
                    &&& final(self).delay() == old(self).delay()
                    &&& !final(self).listens()
                }
            }),
    {
        if !self.config.auto_reconnect {
            self.active = false;
            return None;
        }
        let delay_ms: u64 = self.delay_ms;
        self.delay_ms = next_delay(delay_ms, self.config.max_reconnect_delay_ms);
        Some(delay_ms)
    }

    /// Hands out the samples that can be read.
    pub fn drain_buffer(&mut self) -> (r: Vec<Single>)
        ensures
            r@ == old(self).received().samples,
            final(self).same_settings(old(self)),
            final(self).received() == (Received { samples: Seq::empty(), ..old(self).received() }),
            final(self).last_flushed() == old(self).last_flushed(),
            final(self).listens() == old(self).listens(),
            final(self).is_attached() == old(self).is_attached(),
            final(self).delay() == old(self).delay(),
    {
        let mut out: Vec<Single> = Vec::new();
        out.append(&mut self.buffer);
        out
    }

    /// Hands out the messages.
    pub fn drain_messages(&mut self) -> (r: Vec<MqttMessage>)
        ensures
            r@ == old(self).received().messages,
            final(self).same_settings(old(self)),
            final(self).received() == (Received { messages: Seq::empty(), ..old(self).received() }),
            final(self).last_flushed() == old(self).last_flushed(),
            final(self).listens() == old(self).listens(),
            final(self).is_attached() == old(self).is_attached(),
            final(self).delay() == old(self).delay(),
    {
        let mut out: Vec<MqttMessage> = Vec::new();
        out.append(&mut self.message_buffer);
        out
    }

    /// Whether a message can be sent.
    pub fn can_publish(&self) -> (r: IoResult<()>)
        ensures
            r is Ok <==> self.is_attached(),
            r matches Err(e) ==> (e matches IoError::ConnectionFailed(t) && t@
                == "Not connected"@),
    {
        if self.attached {
            Ok(())
        } else {
            Err(IoError::ConnectionFailed("Not connected".to_owned()))
        }
    }

    /// Whether the client is connected.
    pub fn is_connected(&self) -> (r: bool)
        ensures
            r == self.listens(),
    {
        self.active
    }

    /// Stops listening. Says whether there is a connection to end.
    pub fn stop(&mut self) -> (r: bool)
        ensures
            !final(self).listens(),
            final(self).same_settings(old(self)),
            final(self).received() == old(self).received(),
            final(self).last_flushed() == old(self).last_flushed(),
            final(self).is_attached() == old(self).is_attached(),
            final(self).delay() == old(self).delay(),
            r == old(self).is_attached(),
    {
        self.active = false;
        self.attached
    }

    /// Takes note of what became of ending the connection.
    pub fn disconnected(&mut self, outcome: Result<(), String>) -> (r: IoResult<()>)
        ensures
            final(self).same_settings(old(self)),
            final(self).received() == old(self).received(),
            final(self).listens() == old(self).listens(),
            final(self).delay() == old(self).delay(),
            match outcome {
                Ok(_) => r is Ok && !final(self).is_attached(),
                Err(cause) => {
                    &&& r matches Err(IoError::ConnectionFailed(t)) && t@ == "Disconnect failed: "@
                        + cause@
                    &&& final(self).is_attached() == old(self).is_attached()
                },
            },
    {
        match outcome {
            Ok(_) => {
                self.attached = false;
                Ok(())
            },
            Err(cause) => Err(
                IoError::ConnectionFailed(join("Disconnect failed: ", cause.as_str())),
            ),
        }
    }

    /// The configuration of the stream.
    pub fn stream_config(&self) -> (r: &StreamConfig)
        ensures
            *r == self.stream_settings(),
    {
        &self.stream_config
    }

    /// The configuration of the connection.
    pub fn mqtt_config(&self) -> (r: &MqttConfig)
        ensures
            *r == self.settings(),
    {
        &self.config
    }
}

/// The error for a message that was not sent.
pub fn unpublished(cause: &str) -> (r: IoError)
    ensures
        r matches IoError::SendFailed(t) && t@ == "Publish failed: "@ + cause@,
{
    IoError::SendFailed(join("Publish failed: ", cause))
}

/// A stream that is filled from outside.
#[derive(Debug)]
pub struct MqttStream {
    config: StreamConfig,
    buffer: Vec<Single>,
    active: bool,
}

impl MqttStream {
    /// The configuration of the stream.
    pub closed spec fn settings(&self) -> StreamConfig {
        self.config
    }

    /// The samples that have not been read.
    pub closed spec fn rest(&self) -> Seq<Single> {
        self.buffer@
    }

    /// Whether the stream has not been closed.
    pub closed spec fn open(&self) -> bool {
        self.active
    }

    /// A stream without samples.
    pub fn new(config: StreamConfig) -> (r: Self)
        ensures
            r.settings() == config,
            r.rest() == Seq::<Single>::empty(),
            r.open(),
    {
        MqttStream { config, buffer: Vec::new(), active: true }
    }

    /// Puts samples behind those that are there.
    pub fn push_data(&mut self, data: Vec<Single>)
        ensures
            final(self).settings() == old(self).settings(),
            final(self).rest() == old(self).rest() + data@,
            final(self).open() == old(self).open(),
    {
        let mut data: Vec<Single> = data;
        self.buffer.append(&mut data);
    }
}

impl SignalStream for MqttStream {
    /// Hands out the next `buffer_size` samples, padded with zeros.
    fn read(&mut self) -> (r: IoResult<Vec<Single>>)
        ensures
            final(self).settings() == old(self).settings(),
            final(self).open() == old(self).open(),
            r is Ok,
            ({
                let n = old(self).settings().buffer_size as nat;
                let rest = old(self).rest();
                &&& r->Ok_0@ == crate::io::stream::padded(rest, n)
                &&& final(self).rest() == rest.skip(
                    if n <= rest.len() {
                        n as int
                    } else {
                        rest.len() as int
                    },
                )
            }),
    {
        let size: usize = self.config.buffer_size;
        let out: Vec<Single> = pad_to(self.buffer.as_slice(), size);
        let taken: usize = if size < self.buffer.len() {
            size
        } else {
            self.buffer.len()
        };
        let tail: Vec<Single> = self.buffer.split_off(taken);
        assert(tail@ =~= old(self).rest().skip(taken as int));
        self.buffer = tail;
        Ok(out)
    }

    fn is_active(&self) -> (r: bool)
        ensures
            r == self.open(),
    {
        self.active
    }

    fn config(&self) -> (r: &StreamConfig)
        ensures
            *r == self.settings(),
    {
        &self.config
    }

    fn close(&mut self) -> (r: IoResult<()>)
        ensures
            r is Ok,
            !final(self).open(),
            final(self).settings() == old(self).settings(),
            final(self).rest() == old(self).rest(),
    {
        self.active = false;
        Ok(())
    }
}

} // verus!
