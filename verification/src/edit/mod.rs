//! The hunk editor: locating hunks in a file, resolving them to text
//! operations, and applying them as one transaction.

pub mod apply;
pub mod candidate;
pub mod exact;
pub mod handler;
pub mod hunk;
pub mod indent;
pub mod laws;
pub mod locate;
pub mod matching;
pub mod place;
pub mod read;
pub mod render;
pub mod report;
pub mod resolve;
pub mod score;
pub mod transaction;
pub mod view;
