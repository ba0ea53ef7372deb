//! The columnar engine: reading inserted rows and applying writes.
pub mod edits;
pub mod execute;
pub mod ilp;
pub mod inserted;
pub mod laws;
pub mod lines;
pub mod ops;
pub mod payload;
pub mod rows;
pub mod selected;
pub mod values;
pub mod writes;
