//! Asking a vision model about an image.

pub mod backend;
pub mod image_utils;
pub mod query;
