//! Reflected information about handlers and types.
pub mod handler;
pub mod ty;
