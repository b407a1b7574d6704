//! What a client of a WebSocket server does with each message, and when it
//! connects again.

use crate::error::{IoError, IoResult};
use crate::io::backoff::next_delay;
use crate::text::join;
use vstd::prelude::*;
use vstd::string::*;

verus! {

/// Configuration of a connection.
#[derive(Debug, Clone)]
pub struct WebSocketConfig {
    /// The address of the server.
    pub url: String,
    /// Whether to connect again.
    pub reconnect: bool,
    /// The delay before connecting again after a connection that was made, in
    /// milliseconds.
    pub reconnect_delay_ms: u64,
    /// The longest delay before connecting again, in milliseconds.
    pub max_reconnect_delay_ms: u64,
    /// Milliseconds between two signs of life; 0 for none.
    pub ping_interval_ms: u64,
    /// How many messages the buffer can hold.
    pub buffer_size: usize,
}

impl Default for WebSocketConfig {
    fn default() -> (r: Self)
        ensures
            r.url@ == Seq::<char>::empty(),
            r == (WebSocketConfig {
                url: r.url,
                reconnect: true,
                reconnect_delay_ms: 1000,
                max_reconnect_delay_ms: 30000,
                ping_interval_ms: 30000,
                buffer_size: 1024,
            }),
    {
        WebSocketConfig {
            url: String::new(),
            reconnect: true,
            reconnect_delay_ms: 1000,
            max_reconnect_delay_ms: 30000,
            ping_interval_ms: 30000,
            buffer_size: 1024,
        }
    }
}

/// What comes over a connection.
#[derive(Debug)]
pub enum SocketEvent {
    /// A text message, as its bytes.
    Text(Vec<u8>),
    /// A binary message.
    Binary(Vec<u8>),
    /// The server asks for a sign of life.
    Ping(Vec<u8>),
    /// The server gives a sign of life.
    Pong,
    /// The server closes the connection.
    Close,
    /// A raw frame.
    Frame,
    /// The connection failed.
    Failure,
    /// Nothing more comes.
    End,
}

/// What to do after an event.
#[derive(Debug)]
pub enum SocketAction {
    /// Hand the message out.
    Deliver(Vec<u8>),
    /// Give a sign of life with the same payload.
    SendPong(Vec<u8>),
    /// Take the next event.
    Continue,
}

/// What can be sent over a connection.
#[derive(Debug, Clone, Copy, PartialEq, Eq, Structural)]
pub enum Outgoing {
    /// A text message.
    Text,
    /// A binary message.
    Binary,
    /// A question for a sign of life.
    Ping,
}

/// A connection to a server, which can break and be made again.
#[derive(Debug)]
pub struct WebSocketStream {
    config: WebSocketConfig,
    connected: bool,
    delay_ms: u64,
}

impl WebSocketStream {
    /// The configuration of the connection.
    pub closed spec fn settings(&self) -> WebSocketConfig {
        self.config
    }

    /// Whether the connection stands.
    pub closed spec fn stands(&self) -> bool {
        self.connected
    }

    /// The delay before the next attempt to connect, in milliseconds.
    pub closed spec fn delay(&self) -> u64 {
        self.delay_ms
    }

    /// The connection after the first attempt to make it. The delay before the
    /// first attempt to make it again is the configured one.
    pub fn connect(config: WebSocketConfig, outcome: Result<(), String>) -> (r: IoResult<Self>)
        ensures
            match outcome {
                Ok(_) => {
                    &&& r is Ok
                    &&& r->Ok_0.settings() == config
                    &&& r->Ok_0.stands()
                    &&& r->Ok_0.delay() == config.reconnect_delay_ms
                },
                Err(cause) => r matches Err(e) && refused(e, cause@),
            },
    {
        match outcome {
            Ok(_) => {
                let delay_ms: u64 = config.reconnect_delay_ms;
                Ok(WebSocketStream { config, connected: true, delay_ms })
            },
            Err(cause) => Err(refusal(cause.as_str())),
        }
    }

    /// The delay in milliseconds before an attempt to connect again, or an
    /// error where none is to be made.
    pub fn reconnect_delay(&self) -> (r: IoResult<u64>)
        ensures
            match r {
                Ok(ms) => self.settings().reconnect && ms == self.delay(),
                Err(e) => {
                    &&& !self.settings().reconnect
                    &&& e matches IoError::ConnectionFailed(t) && t@ == "Reconnection disabled"@
                },
            },
    {
        if self.config.reconnect {
            Ok(self.delay_ms)
        } else {
            Err(IoError::ConnectionFailed("Reconnection disabled".to_owned()))
        }
    }

    /// Takes note of what became of an attempt to connect again. A connection
    /// that was made sets the delay back; one that was not doubles it, up to
    /// the longest.
    pub fn reconnect(&mut self, outcome: Result<(), String>) -> (r: IoResult<()>)
        ensures
            final(self).settings() == old(self).settings(),
            match outcome {
                Ok(_) => {
                    &&& r is Ok
                    &&& final(self).stands()
                    &&& final(self).delay() == old(self).settings().reconnect_delay_ms
                },
                Err(cause) => {
                    &&& r matches Err(e) && refused(e, cause@)
                    &&& final(self).stands() == old(self).stands()
                    &&& final(self).delay() == crate::io::backoff::doubled(
                        old(self).delay() as int,
                        old(self).settings().max_reconnect_delay_ms as int,
                    )
                },
            },
    {
        match outcome {
            Ok(_) => {
                self.connected = true;
                self.delay_ms = self.config.reconnect_delay_ms;
                Ok(())
            },
            Err(cause) => {
                self.delay_ms = next_delay(self.delay_ms, self.config.max_reconnect_delay_ms);
                Err(refusal(cause.as_str()))
            },
        }
    }

    /// What to do with an event. Messages are handed out, and a question for
    /// a sign of life is answered. A connection that was closed, failed or
    /// came to its end no longer stands.
    pub fn on_event(&mut self, event: SocketEvent) -> (r: SocketAction)
        ensures
            final(self).settings() == old(self).settings(),
            final(self).delay() == old(self).delay(),
            final(self).stands() == (old(self).stands() && !(event is Close || event is Failure
                || event is End)),
            r == match event {
                SocketEvent::Text(data) => SocketAction::Deliver(data),
                SocketEvent::Binary(data) => SocketAction::Deliver(data),
                SocketEvent::Ping(data) => SocketAction::SendPong(data),
                _ => SocketAction::Continue,
            },
    {
        match event {
            SocketEvent::Text(data) => SocketAction::Deliver(data),
            SocketEvent::Binary(data) => SocketAction::Deliver(data),
            SocketEvent::Ping(data) => SocketAction::SendPong(data),
            SocketEvent::Pong => SocketAction::Continue,
            SocketEvent::Frame => SocketAction::Continue,
            SocketEvent::Close => {
                self.connected = false;
                SocketAction::Continue
            },
            SocketEvent::Failure => {
                self.connected = false;
                SocketAction::Continue
            },
            SocketEvent::End => {
                self.connected = false;
                SocketAction::Continue
            },
        }
    }

    /// Takes note of whether a sign of life could be sent; where it could
    /// not, the connection no longer stands.
    pub fn pong_sent(&mut self, sent: bool)
        ensures
            final(self).settings() == old(self).settings(),
            final(self).delay() == old(self).delay(),
            final(self).stands() == (old(self).stands() && sent),
    {
        if !sent {
            self.connected = false;
        }
    }

    /// Whether something can be sent.
    pub fn can_send(&self) -> (r: IoResult<()>)
        ensures
            r is Ok <==> self.stands(),
            r matches Err(e) ==> (e matches IoError::ConnectionFailed(t) && t@
                == "Not connected"@),
    {
        if self.connected {
            Ok(())
        } else {
            Err(IoError::ConnectionFailed("Not connected".to_owned()))
        }
    }

    /// Milliseconds between two signs of life, where there are to be any.
    pub fn ping_interval(&self) -> (r: Option<u64>)
        ensures
            r == if self.settings().ping_interval_ms == 0 {
                None
            } else {
                Some(self.settings().ping_interval_ms)
            },
    {
        if self.config.ping_interval_ms == 0 {
            None
        } else {
            Some(self.config.ping_interval_ms)
        }
    }

    /// Ends the connection. Says whether it stood, so that there is something
    /// to close.
    pub fn close(&mut self) -> (r: bool)
        ensures
            r == old(self).stands(),
            !final(self).stands(),
            final(self).settings() == old(self).settings(),
            final(self).delay() == old(self).delay(),
    {
        let stood: bool = self.connected;
        self.connected = false;
        stood
    }

    /// Whether the connection stands.
    pub fn is_connected(&self) -> (r: bool)
        ensures
            r == self.stands(),
    {
        self.connected
    }

    /// The configuration of the connection.
    pub fn config(&self) -> (r: &WebSocketConfig)
        ensures
            *r == self.settings(),
    {
        &self.config
    }
}

/// Whether an error says that a connection could not be made.
pub open spec fn refused(e: IoError, cause: Seq<char>) -> bool {
    e matches IoError::ConnectionFailed(t) && t@ == "WebSocket connect failed: "@ + cause
}

fn refusal(cause: &str) -> (r: IoError)
    ensures
        refused(r, cause@),
{
    IoError::ConnectionFailed(join("WebSocket connect failed: ", cause))
}

/// The error for something that could not be sent.
pub fn unsent(what: Outgoing, cause: &str) -> (r: IoError)
    ensures
        r matches IoError::SendFailed(t) && t@ == (match what {
            Outgoing::Text => "Failed to send text: "@,
            Outgoing::Binary => "Failed to send binary: "@,
            Outgoing::Ping => "Failed to send ping: "@,
        }) + cause@,
{
    match what {
        Outgoing::Text => IoError::SendFailed(join("Failed to send text: ", cause)),
        Outgoing::Binary => IoError::SendFailed(join("Failed to send binary: ", cause)),
        Outgoing::Ping => IoError::SendFailed(join("Failed to send ping: ", cause)),
    }
}

/// The error for a connection that could not be closed.
pub fn unclosed(cause: &str) -> (r: IoError)
    ensures
        r matches IoError::ConnectionFailed(t) && t@ == "Failed to close: "@ + cause@,
{
    IoError::ConnectionFailed(join("Failed to close: ", cause))
}

} // verus!
