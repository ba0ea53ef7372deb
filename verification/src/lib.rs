//! The deciding half of an embedded multi-model database.
//!
//! Every function here is pure: it takes what was read from storage and
//! returns the writes to perform and the answer to give. Reading, writing and
//! scheduling belong to the host application.
pub mod bytes;
pub mod chars;
pub mod columnar;
pub mod dispatch;
pub mod document;
pub mod error;
pub mod expression;
pub mod filter;
pub mod graph;
pub mod health;
pub mod json;
pub mod kv;
pub mod native;
pub mod open;
pub mod persist;
pub mod policy;
pub mod query;
pub mod render;
pub mod result;
pub mod steps;
pub mod storage;
pub mod sync;
pub mod text;
pub mod timestamp;
pub mod value;
pub mod vector;
pub mod wire;
