//! Additional reflection capabilities useful for code generation.
pub mod dependent_types;
pub mod param_visitor;
