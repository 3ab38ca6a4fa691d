//! Handler support: markers and the names of the methods a handler is served under.
pub mod marker;

use vstd::prelude::*;

use crate::text::{owned, push_text};

verus! {

/// The methods a subscription handler registered as `method_name` is served under: the method
/// itself, the notification method `<method_name>_notif`, and the unsubscribe method
/// `<method_name>_unsub`.
pub fn subscription_methods(method_name: &str) -> (r: (String, String, String))
    ensures
        r.0@ == method_name@,
        r.1@ == method_name@ + "_notif"@,
        r.2@ == method_name@ + "_unsub"@,
{
    let mut notif = owned(method_name);
    push_text(&mut notif, "_notif");
    let mut unsub = owned(method_name);
    push_text(&mut unsub, "_unsub");
    (owned(method_name), notif, unsub)
}

/// What happens next on a subscription's stream.
pub enum StreamEvent {
    /// The stream yielded an item.
    Item,
    /// The stream is exhausted.
    End,
}

/// What the server does in answer to a [`StreamEvent`].
#[derive(Debug, PartialEq, Eq, Structural)]
pub enum StreamAction {
    /// Send the item to the subscriber.
    Send,
    /// Close the subscription, telling the subscriber how many items were sent.
    Close(u64),
}

/// The state of a subscription's stream: how many items were sent so far.
pub struct StreamProgress {
    count: u64,
}

impl StreamProgress {
    /// How many items were sent so far.
    pub closed spec fn spec_count(&self) -> nat {
        self.count as nat
    }

    /// A stream that has sent nothing.
    pub fn new() -> (r: Self)
        ensures
            r.spec_count() == 0,
    {
        StreamProgress { count: 0 }
    }

    /// How many items were sent so far.
    pub fn count(&self) -> (r: u64)
        ensures
            r == self.spec_count(),
    {
        self.count
    }

    /// The next step: an item is sent and counted; at the end of the stream the subscription is
    /// closed with the number of items sent.
    pub fn step(&mut self, event: StreamEvent) -> (r: StreamAction)
        requires
            event is Item ==> old(self).spec_count() < u64::MAX,
        ensures
            event is Item ==> r == StreamAction::Send && final(self).spec_count() == old(
                self,
            ).spec_count() + 1,
            event is End ==> r == StreamAction::Close(old(self).spec_count() as u64)
                && final(self).spec_count() == old(self).spec_count(),
    {
        match event {
            StreamEvent::Item => {
                self.count = self.count + 1;
                StreamAction::Send
            },
            StreamEvent::End => StreamAction::Close(self.count),
        }
    }
}

} // verus!
