//! Runtime representation of TypeScript types, and a router type built from them.
pub mod ts;
pub mod ts_type;
