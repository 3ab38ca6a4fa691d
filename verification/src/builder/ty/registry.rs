//! Registry of the types a client needs.
use vstd::prelude::*;

use crate::strmap::{insert_sorted, StrMap};
use crate::text::{owned, push_text};

verus! {

/// Types built into qubit that are accessible from the client.
#[derive(Clone, Copy, Debug, PartialEq, Eq, Structural, Hash, PartialOrd, Ord)]
pub enum InbuiltType {
    /// Maps between the `@qubit-rs/client` `Stream` type, and streams that handlers can use.
    Stream,
}

impl InbuiltType {
    /// The import that makes this type available.
    pub open spec fn spec_text(self) -> Seq<char> {
        match self {
            InbuiltType::Stream => "import type { Stream } from \"@qubit-rs/client\";"@,
        }
    }

    /// The import that makes this type available.
    pub fn to_string(&self) -> (r: String)
        ensures
            r@ == self.spec_text(),
    {
        match self {
            InbuiltType::Stream => owned("import type { Stream } from \"@qubit-rs/client\";"),
        }
    }
}

/// Registry of all types required to be exported.
pub struct TypeRegistry {
    /// User-generated types, by name.
    user: StrMap<String>,
    /// Inbuilt types, each once.
    inbuilt: Vec<InbuiltType>,
}

/// `export type <name> = <definition>;` and a line feed, for each type in order.
pub open spec fn user_types_text(user: Seq<(Seq<char>, String)>) -> Seq<char>
    decreases user.len(),
{
    if user.len() == 0 {
        Seq::empty()
    } else {
        user_types_text(user.drop_last()) + "export type "@ + user.last().0 + " = "@
            + user.last().1@ + ";"@ + "\n"@
    }
}

/// The import of each inbuilt type and a line feed, in order.
pub open spec fn inbuilt_text(inbuilt: Seq<InbuiltType>) -> Seq<char>
    decreases inbuilt.len(),
{
    if inbuilt.len() == 0 {
        Seq::empty()
    } else {
        inbuilt_text(inbuilt.drop_last()) + inbuilt.last().spec_text() + "\n"@
    }
}

impl TypeRegistry {
    /// The user types, in increasing name order.
    pub closed spec fn spec_user(&self) -> Seq<(Seq<char>, String)> {
        self.user.entries_view()
    }

    /// The inbuilt types, each once, in the order they were first registered.
    pub closed spec fn spec_inbuilt(&self) -> Seq<InbuiltType> {
        self.inbuilt@
    }

    #[verifier::type_invariant]
    spec fn inv(&self) -> bool {
        self.inbuilt@.no_duplicates()
    }

    /// An empty registry.
    pub fn new() -> (r: Self)
        ensures
            r.spec_user() == Seq::<(Seq<char>, String)>::empty(),
            r.spec_inbuilt() == Seq::<InbuiltType>::empty(),
    {
        TypeRegistry { user: StrMap::new(), inbuilt: Vec::new() }
    }

    /// Registers a user-defined type. Returns `true` if a type of this name has already been
    /// registered, in which case nothing changes.
    pub fn register(&mut self, name: String, definition: String) -> (r: bool)
        ensures
            r == old(self).user_view().contains_key(name@),
            r ==> final(self).spec_user() == old(self).spec_user(),
            !r ==> final(self).spec_user() == insert_sorted(
                old(self).spec_user(),
                name@,
                definition,
            ),
            final(self).spec_inbuilt() == old(self).spec_inbuilt(),
    {
        proof {
            use_type_invariant(&*self);
        }
        if self.user.contains_key(name.as_str()) {
            return true;
        }
        let mut user: StrMap<String> = StrMap::new();
        std::mem::swap(&mut user, &mut self.user);
        user.insert(name, definition);
        self.user = user;
        false
    }

    /// The user types, by name.
    pub open spec fn user_view(&self) -> Map<Seq<char>, String> {
        Map::new(
            |k: Seq<char>| crate::strmap::find(self.spec_user(), k) is Some,
            |k: Seq<char>| crate::strmap::find(self.spec_user(), k).unwrap(),
        )
    }

    /// Registers an inbuilt type, so that it is exported (once).
    pub fn inbuilt(&mut self, inbuilt: InbuiltType) -> (r: &mut Self)
        ensures
            r.spec_inbuilt().to_set() == old(self).spec_inbuilt().to_set().insert(inbuilt),
            old(self).spec_inbuilt().contains(inbuilt) ==> r.spec_inbuilt() == old(
                self,
            ).spec_inbuilt(),
            !old(self).spec_inbuilt().contains(inbuilt) ==> r.spec_inbuilt() == old(
                self,
            ).spec_inbuilt().push(inbuilt),
            r.spec_user() == old(self).spec_user(),
            *final(self) == *final(r),
    {
        proof {
            use_type_invariant(&*self);
        }
        let mut present = false;
        let mut i: usize = 0;
        while i < self.inbuilt.len()
            invariant
                i <= self.inbuilt@.len(),
                present == self.inbuilt@.take(i as int).contains(inbuilt),
            decreases self.inbuilt@.len() - i,
        {
            let ghost was = present;
            if self.inbuilt[i] == inbuilt {
                present = true;
            }
            proof {
                let t = self.inbuilt@.take(i + 1);
                assert(t =~= self.inbuilt@.take(i as int).push(self.inbuilt@[i as int]));
                if t.contains(inbuilt) {
                    let j = choose|j: int| 0 <= j < t.len() && t[j] == inbuilt;
                    if j < i {
                        assert(self.inbuilt@.take(i as int)[j] == inbuilt);
                    }
                }
                if self.inbuilt@.take(i as int).contains(inbuilt) {
                    let j = choose|j: int| 0 <= j < i && self.inbuilt@.take(i as int)[j] == inbuilt;
                    assert(t[j] == inbuilt);
                }
                if self.inbuilt@[i as int] == inbuilt {
                    assert(t[i as int] == inbuilt);
                }
            }
            i = i + 1;
        }
        proof {
            assert(self.inbuilt@.take(i as int) =~= self.inbuilt@);
        }
        if !present {
            let mut v: Vec<InbuiltType> = Vec::new();
            std::mem::swap(&mut v, &mut self.inbuilt);
            let ghost before = v@;
            v.push(inbuilt);
            proof {
                assert forall|a: InbuiltType| v@.contains(a) <==> (before.contains(a) || a == inbuilt) by {
                    if v@.contains(a) {
                        let j = choose|j: int| 0 <= j < v@.len() && v@[j] == a;
                        if j < before.len() {
                            assert(before[j] == a);
                        }
                    }
                    if before.contains(a) {
                        let j = choose|j: int| 0 <= j < before.len() && before[j] == a;
                        assert(v@[j] == a);
                    }
                    if a == inbuilt {
                        assert(v@[before.len() as int] == a);
                    }
                }
                assert(v@.to_set() =~= before.to_set().insert(inbuilt));
            }
            self.inbuilt = v;
        } else {
            proof {
                assert(self.inbuilt@.contains(inbuilt));
                assert(self.inbuilt@.to_set().contains(inbuilt));
                assert(self.inbuilt@.to_set() =~= self.inbuilt@.to_set().insert(inbuilt));
            }
        }
        self
    }

    /// The registry written out: the import of each inbuilt type, then each user type
    /// (`export type <name> = <definition>;`), each on its own line.
    pub fn to_string(&self) -> (r: String)
        ensures
            r@ == inbuilt_text(self.spec_inbuilt()) + user_types_text(self.spec_user()),
    {
        let mut r = String::new();
        let mut i: usize = 0;
        while i < self.inbuilt.len()
            invariant
                i <= self.inbuilt@.len(),
                r@ == inbuilt_text(self.inbuilt@.take(i as int)),
            decreases self.inbuilt@.len() - i,
        {
            let t = self.inbuilt[i].to_string();
            push_text(&mut r, t.as_str());
            push_text(&mut r, "\n");
            proof {
                let s = self.inbuilt@.take(i + 1);
                assert(s.drop_last() =~= self.inbuilt@.take(i as int));
            }
            i = i + 1;
        }
        proof {
            assert(self.inbuilt@.take(i as int) =~= self.inbuilt@);
        }
        let ghost mid = r@;
        let mut j: usize = 0;
        while j < self.user.len()
            invariant
                j <= self.user.entries_view().len(),
                r@ == mid + user_types_text(self.user.entries_view().take(j as int)),
            decreases self.user.entries_view().len() - j,
        {
            let (name, ty) = self.user.entry_at(j);
            push_text(&mut r, "export type ");
            push_text(&mut r, name.as_str());
            push_text(&mut r, " = ");
            push_text(&mut r, ty.as_str());
            push_text(&mut r, ";");
            push_text(&mut r, "\n");
            proof {
                let s = self.user.entries_view().take(j + 1);
                assert(s.drop_last() =~= self.user.entries_view().take(j as int));
                assert(r@ =~= mid + user_types_text(s));
            }
            j = j + 1;
        }
        proof {
            assert(self.user.entries_view().take(j as int) =~= self.user.entries_view());
        }
        r
    }
}

} // verus!
