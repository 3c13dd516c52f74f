//! Locks around values.

pub mod content;
