//! Making the in-memory state durable and bringing it back.
pub mod digits;
pub mod flush;
pub mod keys;
pub mod laws;
pub mod queue;
pub mod restore;
pub mod restored;
pub mod saved;
pub mod scan;
