//! File-editing core of a workspace tool service: structured edits, patches,
//! reads, ledgers and the rules that decide what a tool call may do.

pub mod apply_patch;
pub mod apply_patch_engine;
pub mod ask_user;
pub mod authorization;
pub mod backend;
pub mod base64;
pub mod bounds;
pub mod code_delta;
pub mod confirm_apply;
pub mod conflict;
pub mod copy_range;
pub mod dashboard;
pub mod edit;
pub mod exec;
pub mod file_cache;
pub mod file_glob;
pub mod file_mutate;
pub mod file_query;
pub mod file_shared;
pub mod format;
pub mod git;
pub mod grep_tool;
pub mod image_query;
pub mod journal;
pub mod json;
pub mod json_view;
pub mod keyed;
pub mod laws;
pub mod ledger;
pub mod lines;
pub mod manager;
pub mod numbered;
pub mod order;
pub mod outside;
pub mod pending;
pub mod raw_lines;
pub mod refusal;
pub mod search;
pub mod serve;
pub mod text;
