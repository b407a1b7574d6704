//! Signal input and output.

pub mod backoff;
pub mod compression;
pub mod mqtt;
pub mod stream;
pub mod websocket;
pub mod zeromq;
pub mod osc;
pub mod recorder;
pub mod ros2;
pub mod audio;
pub mod file;
pub mod video;
pub mod signal;
