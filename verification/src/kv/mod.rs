//! The key-value engine.
pub mod codec;
pub mod entries;
pub mod execute;
pub mod fields;
pub mod laws;
pub mod writes;
