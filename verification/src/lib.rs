//! Streaming inference and signal I/O: the state, the decisions and the
//! formats behind an inference engine and the streams that feed it.
//!
//! Samples are carried as IEEE-754 bit patterns (`number::Single`,
//! `number::Double`): they are stored, framed, compared and kept inside
//! bounds here. The single operations on them (`arith::Arithmetic` and the
//! traits beside it) are done by the caller; which operation is applied to
//! which numbers, and in which order, is stated here.

pub mod arith;
pub mod error;
pub mod exact;
pub mod inference;
pub mod io;
pub mod laws;
pub mod matrix;
pub mod names;
pub mod number;
pub mod samples;
pub mod text;
pub mod time;
pub mod wire;
