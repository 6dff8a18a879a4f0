//! Toolkit-independent GUI value types.
pub mod types;
