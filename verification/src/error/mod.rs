//! Error types.

pub mod model;

pub use model::{Error, Result};
