//! Documents: the steps of putting, deleting and reading them.
pub mod batch;
pub mod body;
pub mod effects;
pub mod laws;
pub mod plan;
