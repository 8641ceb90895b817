//! Core logic of a small ray tracer: a SplitMix64 random number generator,
//! a `key = value` configuration store, the error types, and the row
//! scheduling used when rendering an image in parallel.

pub mod config;
pub mod error;
pub mod render;
pub mod rng;
pub mod settings;
pub mod splitmix;
pub mod text;

pub use config::Config;
pub use error::{AppError, ConfigError};
pub use rng::Rng;
