//! Planning and running queries over the local engines.
pub mod beside;
pub mod catalog;
pub mod described;
pub mod engine;
pub mod execute;
pub mod found;
pub mod joins;
pub mod lateral;
pub mod matched;
pub mod ordering;
pub mod qualified;
pub mod reads;
pub mod record;
pub mod sort;
pub mod text_op;
pub mod widths;
