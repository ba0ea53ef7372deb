//! Which handler a physical operation goes to, and which operations are
//! refused.
pub mod cluster;
pub mod columnar;
pub mod crdt;
pub mod document;
pub mod gate;
pub mod graph;
pub mod handled;
pub mod kv;
pub mod meta;
pub mod query;
pub mod spatial;
pub mod timeseries;
