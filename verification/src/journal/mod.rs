//! The journal of file changes: an append-only log from which a file can be brought
//! back as it was at any point.

pub mod laws;
pub mod log;
pub mod tool;
