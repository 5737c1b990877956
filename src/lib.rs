//! Plan signatures: a deterministic, readable fingerprint of a query
//! execution plan tree and of the engine settings it ran under.

pub mod text;
pub mod names;
pub mod plan;
pub mod settings;
pub mod laws;
