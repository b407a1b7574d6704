//! Errors of the library.

use crate::text::{decimal, join};
use vstd::prelude::*;
use vstd::string::*;

verus! {

/// What an input or output operation can fail with. An error that arose
/// outside the library is carried by its text.
#[derive(Debug, Clone)]
pub enum IoError {
    ConnectionFailed(String),
    StreamError(String),
    ConfigError(String),
    SignalError(String),
    ReadFailed(String),
    WriteFailed(String),
    SendFailed(String),
    ParseError(String),
    Protocol(String),
    Connection(String),
    Unsupported(String),
    BufferFull,
    BufferEmpty,
    InvalidConfig(String),
    CoreError(String),
    StdIoError(String),
    JsonError(String),
    MqttError(String),
}

/// The result of an input or output operation.
pub type IoResult<T> = Result<T, IoError>;

impl IoError {
    /// The text that describes an error.
    pub open spec fn text(&self) -> Seq<char> {
        match self {
            IoError::ConnectionFailed(s) => "Connection failed: "@ + s@,
            IoError::StreamError(s) => "Stream error: "@ + s@,
            IoError::ConfigError(s) => "Configuration error: "@ + s@,
            IoError::SignalError(s) => "Signal processing error: "@ + s@,
            IoError::ReadFailed(s) => "Read failed: "@ + s@,
            IoError::WriteFailed(s) => "Write failed: "@ + s@,
            IoError::SendFailed(s) => "Send failed: "@ + s@,
            IoError::ParseError(s) => "Parse error: "@ + s@,
            IoError::Protocol(s) => "Protocol error: "@ + s@,
            IoError::Connection(s) => "Connection error: "@ + s@,
            IoError::Unsupported(s) => "Unsupported operation: "@ + s@,
            IoError::BufferFull => "Buffer is full"@,
            IoError::BufferEmpty => "Buffer is empty"@,
            IoError::InvalidConfig(s) => "Invalid configuration: "@ + s@,
            IoError::CoreError(s) => "Core error: "@ + s@,
            IoError::StdIoError(s) => "IO error: "@ + s@,
            IoError::JsonError(s) => "JSON error: "@ + s@,
            IoError::MqttError(s) => "MQTT error: "@ + s@,
        }
    }

    /// The text that describes the error.
    pub fn to_text(&self) -> (r: String)
        ensures
            r@ == self.text(),
    {
        match self {
            IoError::ConnectionFailed(s) => join("Connection failed: ", s.as_str()),
            IoError::StreamError(s) => join("Stream error: ", s.as_str()),
            IoError::ConfigError(s) => join("Configuration error: ", s.as_str()),
            IoError::SignalError(s) => join("Signal processing error: ", s.as_str()),
            IoError::ReadFailed(s) => join("Read failed: ", s.as_str()),
            IoError::WriteFailed(s) => join("Write failed: ", s.as_str()),
            IoError::SendFailed(s) => join("Send failed: ", s.as_str()),
            IoError::ParseError(s) => join("Parse error: ", s.as_str()),
            IoError::Protocol(s) => join("Protocol error: ", s.as_str()),
            IoError::Connection(s) => join("Connection error: ", s.as_str()),
            IoError::Unsupported(s) => join("Unsupported operation: ", s.as_str()),
            IoError::BufferFull => "Buffer is full".to_owned(),
            IoError::BufferEmpty => "Buffer is empty".to_owned(),
            IoError::InvalidConfig(s) => join("Invalid configuration: ", s.as_str()),
            IoError::CoreError(s) => join("Core error: ", s.as_str()),
            IoError::StdIoError(s) => join("IO error: ", s.as_str()),
            IoError::JsonError(s) => join("JSON error: ", s.as_str()),
            IoError::MqttError(s) => join("MQTT error: ", s.as_str()),
        }
    }
}

/// What an inference operation can fail with.
#[derive(Debug, Clone)]
pub enum InferenceError {
    NotInitialized,
    DimensionMismatch { expected: usize, got: usize },
    ForwardError(String),
    InitializationError(String),
    InvalidConfiguration(String),
    LockError(String),
    ModelError(String),
    NetworkError(String),
    NotFound(String),
    PipelineConfig(String),
    SerializationError(String),
    Timeout(String),
}

/// The result of an inference operation.
pub type InferenceResult<T> = Result<T, InferenceError>;

impl InferenceError {
    /// The text that describes an error.
    pub open spec fn text(&self) -> Seq<char> {
        match self {
            InferenceError::NotInitialized => "Engine is not initialized"@,
            InferenceError::DimensionMismatch { expected, got } => "Dimension mismatch: expected "@
                + crate::text::numeral(*expected as nat) + ", got "@ + crate::text::numeral(
                *got as nat,
            ),
            InferenceError::ForwardError(s) => "Forward error: "@ + s@,
            InferenceError::InitializationError(s) => "Initialization error: "@ + s@,
            InferenceError::InvalidConfiguration(s) => "Invalid configuration: "@ + s@,
            InferenceError::LockError(s) => "Lock error: "@ + s@,
            InferenceError::ModelError(s) => "Model error: "@ + s@,
            InferenceError::NetworkError(s) => "Network error: "@ + s@,
            InferenceError::NotFound(s) => "Not found: "@ + s@,
            InferenceError::PipelineConfig(s) => "Pipeline configuration error: "@ + s@,
            InferenceError::SerializationError(s) => "Serialization error: "@ + s@,
            InferenceError::Timeout(s) => "Timeout: "@ + s@,
        }
    }

    /// The text that describes the error.
    pub fn to_text(&self) -> (r: String)
        ensures
            r@ == self.text(),
    {
        match self {
            InferenceError::NotInitialized => "Engine is not initialized".to_owned(),
            InferenceError::DimensionMismatch { expected, got } => {
                let mut out: String = join(
                    "Dimension mismatch: expected ",
                    decimal(*expected as u64).as_str(),
                );
                out.append(", got ");
                out.append(decimal(*got as u64).as_str());
                out
            },
            InferenceError::ForwardError(s) => join("Forward error: ", s.as_str()),
            InferenceError::InitializationError(s) => join("Initialization error: ", s.as_str()),
            InferenceError::InvalidConfiguration(s) => join("Invalid configuration: ", s.as_str()),
            InferenceError::LockError(s) => join("Lock error: ", s.as_str()),
            InferenceError::ModelError(s) => join("Model error: ", s.as_str()),
            InferenceError::NetworkError(s) => join("Network error: ", s.as_str()),
            InferenceError::NotFound(s) => join("Not found: ", s.as_str()),
            InferenceError::PipelineConfig(s) => join("Pipeline configuration error: ", s.as_str()),
            InferenceError::SerializationError(s) => join("Serialization error: ", s.as_str()),
            InferenceError::Timeout(s) => join("Timeout: ", s.as_str()),
        }
    }
}

} // verus!
