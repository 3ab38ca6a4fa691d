//! Type generation specific functionality.
pub mod dependencies;
pub mod export_type;
pub mod qubit_type;
pub mod registry;

use vstd::prelude::*;

verus! {

/// Components used to construct the client type for a handler.
#[derive(Debug)]
pub struct HandlerType {
    /// Unique name of the handler. This will automatically be namespaced as appropriate when the
    /// attached router is nested.
    pub name: String,
    /// Signature of this handler.
    pub signature: String,
    /// Kind of the handler, which will be used as the final part of the call in TypeScript.
    pub kind: String,
}

} // verus!
