//! Static metadata of handlers.
use vstd::prelude::*;

verus! {

/// Kind of a handler. This corresponds with the method the client calls from TypeScript.
#[derive(Clone, Copy, Debug, PartialEq, Eq, Structural)]
pub enum HandlerKind {
    Query,
    Mutation,
    Subscription,
}

impl HandlerKind {
    /// The TypeScript type constructor for handlers of this kind.
    pub open spec fn spec_ts_name(self) -> Seq<char> {
        match self {
            HandlerKind::Query => seq!['Q', 'u', 'e', 'r', 'y'],
            HandlerKind::Mutation => seq!['M', 'u', 't', 'a', 't', 'i', 'o', 'n'],
            HandlerKind::Subscription => seq![
                'S',
                'u',
                'b',
                's',
                'c',
                'r',
                'i',
                'p',
                't',
                'i',
                'o',
                'n',
            ],
        }
    }

    /// The TypeScript type constructor for handlers of this kind: `Query`, `Mutation` or
    /// `Subscription`.
    pub fn ts_name(self) -> (r: &'static str)
        ensures
            r@ == self.spec_ts_name(),
    {
        match self {
            HandlerKind::Query => {
                proof {
                    reveal_strlit("Query");
                }
                "Query"
            },
            HandlerKind::Mutation => {
                proof {
                    reveal_strlit("Mutation");
                }
                "Mutation"
            },
            HandlerKind::Subscription => {
                proof {
                    reveal_strlit("Subscription");
                }
                "Subscription"
            },
        }
    }
}

/// Static metadata associated with a handler.
#[derive(Clone, Copy, Debug)]
pub struct HandlerMeta {
    /// Kind of the handler.
    pub kind: HandlerKind,
    /// RPC name of the handler (this may differ from the name of the handler function).
    pub name: &'static str,
    /// Names of the parameters of this handler.
    pub param_names: &'static [&'static str],
}

/// A handler together with its metadata.
#[derive(Clone)]
pub struct HandlerDef<F> {
    /// Handler implementation.
    pub handler: F,
    /// Metadata for the handler.
    pub meta: HandlerMeta,
}

impl<F> HandlerDef<F> {
    /// The handler implementation.
    pub fn handler(&self) -> (r: &F)
        ensures
            *r == self.handler,
    {
        &self.handler
    }
}

} // verus!
