//! The sample types that a server exposes to its clients.
use vstd::prelude::*;

use crate::text::owned;

verus! {

/// Additional information about a user.
pub struct Metadata {
    pub param_a: String,
    pub param_b: u32,
    pub param_c: bool,
}

/// A user.
pub struct User {
    pub name: String,
    pub email: String,
    pub age: u32,
    pub metadata: Metadata,
}

/// The user with the given id: every id is answered with the same sample user.
pub fn get_user(id: String) -> (r: User)
    ensures
        r.name@ == "some user"@,
        r.email@ == "email@example.com"@,
        r.age == 100,
        r.metadata.param_a@ == Seq::<char>::empty(),
        r.metadata.param_b == 123,
        r.metadata.param_c,
{
    User {
        name: owned("some user"),
        email: owned("email@example.com"),
        age: 100,
        metadata: Metadata { param_a: String::new(), param_b: 123, param_c: true },
    }
}

} // verus!
