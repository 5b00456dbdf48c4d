//! What the operations are for: what their results satisfy, whatever the input.

pub mod arguments;
pub mod calls;
pub mod changes;
pub mod exec;
pub mod files;
pub mod host;
pub mod image;
pub mod journal;
pub mod ledger;
pub mod locate;
pub mod output;
pub mod patch;
pub mod patch_text;
pub mod paths;
pub mod place;
pub mod read;
pub mod scores;
pub mod search;
pub mod service;
pub mod text;
pub mod transaction;
pub mod wording;
