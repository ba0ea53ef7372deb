//! The graph engine.
pub mod edges;
pub mod effects;
pub mod execute;
