//! Type generation support for handlers.
pub mod ty;
