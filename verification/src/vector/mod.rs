//! The vector engine: which slot of which index holds the vector of a document.
pub mod effects;
pub mod laws;
pub mod nodes;
pub mod plan;
pub mod search;
pub mod state;
pub mod writes;
