//! Running commands: which shell, which arguments, what is kept of the output.

pub mod handler;
pub mod pipe;
pub mod register;
pub mod shell;
pub mod truncate;
