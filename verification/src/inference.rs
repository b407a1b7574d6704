//! The inference engine: its state, its requests and its models.

pub mod adapters;
pub mod batch;
pub mod compression;
pub mod context;
pub mod engine;
pub mod hotswap;
pub mod lora;
pub mod model;
pub mod pool;
pub mod precision;
pub mod registry;
pub mod speculative;
pub mod state;
pub mod streaming;
pub mod versioning;
