//! Routing, type reflection and TypeScript generation for a JSON-RPC server with TypeScript
//! clients.
use vstd::prelude::*;

pub mod bindings;
pub mod builder;
pub mod codegen;
pub mod graph;
pub mod handler;
pub mod idmap;
pub mod node;
pub mod reflect;
pub mod reflection;
pub mod router;
pub mod strmap;
pub mod text;
pub mod user;
pub mod ts;
pub mod ts_router;

verus! {

} // verus!
