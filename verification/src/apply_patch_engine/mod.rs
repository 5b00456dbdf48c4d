//! The patch engine: parsing patches, finding their lines in files by content, and
//! working out what the files hold afterwards.

pub mod engine;
pub mod file_update;
pub mod laws;
pub mod parser;
pub mod run;
pub mod seek_sequence;
pub mod written;
