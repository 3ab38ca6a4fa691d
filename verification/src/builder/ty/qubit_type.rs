//! Types built into the Qubit client package.
use vstd::prelude::*;

use crate::reflection::handler::HandlerKind;
use crate::text::owned;

verus! {

/// Name of the Qubit NPM package.
pub const CLIENT_PACKAGE: &'static str = "@qubit-rs/client";

/// Built-in Qubit types.
#[derive(Clone, Copy, Debug, PartialEq, Eq, Structural)]
pub enum QubitType {
    Query,
    Mutation,
    Subscription,
    StreamHandler,
    StreamUnsubscribe,
}

impl QubitType {
    /// The name the client package exports this type under.
    pub open spec fn spec_ts_name(self) -> Seq<char> {
        match self {
            QubitType::Query => "Query"@,
            QubitType::Mutation => "Mutation"@,
            QubitType::Subscription => "Subscription"@,
            QubitType::StreamHandler => "StreamHandler"@,
            QubitType::StreamUnsubscribe => "StreamUnsubscribe"@,
        }
    }

    /// The package and the exported type corresponding to this type.
    pub fn to_ts(&self) -> (r: (String, String))
        ensures
            r.0@ == CLIENT_PACKAGE@,
            r.1@ == self.spec_ts_name(),
    {
        match self {
            QubitType::Query => (owned(CLIENT_PACKAGE), owned("Query")),
            QubitType::Mutation => (owned(CLIENT_PACKAGE), owned("Mutation")),
            QubitType::Subscription => (owned(CLIENT_PACKAGE), owned("Subscription")),
            QubitType::StreamHandler => (owned(CLIENT_PACKAGE), owned("StreamHandler")),
            QubitType::StreamUnsubscribe => (owned(CLIENT_PACKAGE), owned("StreamUnsubscribe")),
        }
    }
}

/// Each Qubit type is exported under a name of its own: two different types never share a name,
/// and the type of a handler kind is exported under the name handler signatures use for that
/// kind.
pub proof fn law_qubit_type_names(a: QubitType, b: QubitType)
    ensures
        a != b ==> a.spec_ts_name() != b.spec_ts_name(),
        QubitType::Query.spec_ts_name() == HandlerKind::Query.spec_ts_name(),
        QubitType::Mutation.spec_ts_name() == HandlerKind::Mutation.spec_ts_name(),
        QubitType::Subscription.spec_ts_name() == HandlerKind::Subscription.spec_ts_name(),
{
    reveal_strlit("Query");
    reveal_strlit("Mutation");
    reveal_strlit("Subscription");
    reveal_strlit("StreamHandler");
    reveal_strlit("StreamUnsubscribe");
    assert(QubitType::Query.spec_ts_name() =~= HandlerKind::Query.spec_ts_name());
    assert(QubitType::Mutation.spec_ts_name() =~= HandlerKind::Mutation.spec_ts_name());
    assert(QubitType::Subscription.spec_ts_name() =~= HandlerKind::Subscription.spec_ts_name());
    if a != b {
        assert(a.spec_ts_name().len() != b.spec_ts_name().len());
    }
}

} // verus!
