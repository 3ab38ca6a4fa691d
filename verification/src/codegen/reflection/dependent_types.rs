//! Tracking of the custom types that other types depend on.
use vstd::prelude::*;

use crate::idmap::{insert_id_sorted, lemma_find_id_insert, IdMap};
use crate::reflection::ty::{declaration_ok, parse_declaration, parse_type_name, CodegenType};

verus! {

/// The type declared by `decl`, with its definition, as the declared name and generics and the
/// definition text.
pub open spec fn declared_type(decl: Seq<char>) -> ((Seq<char>, Seq<Seq<char>>), Seq<char>) {
    (parse_type_name(parse_declaration(decl).0), parse_declaration(decl).1)
}

/// The text form of a captured definition.
pub open spec fn definition_view(d: (CodegenType, String)) -> ((Seq<char>, Seq<Seq<char>>), Seq<
    char,
>) {
    ((d.0.spec_name(), d.0.spec_generics()), d.1@)
}

/// Utility for tracking custom types which other types may depend on.
///
/// Types are identified by numeric type ids. A type is walked in two parts: its dependencies
/// (once per type without its generic arguments) and its generic arguments (once per type).
pub struct DependentTypes {
    /// All types that have already been analysed, to prevent duplicated types or loops.
    pub visited_types: IdMap<()>,
    /// Captured definitions, keyed by the id of the type (without generics) they stem from.
    pub definitions: IdMap<(CodegenType, String)>,
}

impl DependentTypes {
    /// Whether the type `id` has been visited.
    pub open spec fn visited(&self, id: u64) -> bool {
        self.visited_types.spec_get(id) is Some
    }

    /// One visit, from `before` to `after`, of the type `type_id` whose erased form is
    /// `type_id_no_generics`, answered `r`: the answers say which of the two had not been visited;
    /// those are recorded as visited; and when the dependencies are walked and the type has a
    /// declaration, the type it declares is captured under `type_id_no_generics`.
    pub open spec fn visit_step(
        before: DependentTypes,
        after: DependentTypes,
        type_id: u64,
        type_id_no_generics: u64,
        declaration: Option<&str>,
        r: (bool, bool),
    ) -> bool {
        &&& r.0 == !before.visited(type_id_no_generics)
        &&& r.1 == !before.visited(type_id)
        &&& after.visited_types.entries_view() == {
            let s = before.visited_types.entries_view();
            let s1 = if r.0 {
                insert_id_sorted(s, type_id_no_generics, ())
            } else {
                s
            };
            if r.1 {
                insert_id_sorted(s1, type_id, ())
            } else {
                s1
            }
        }
        &&& r.0 && declaration is Some ==> exists|v: (CodegenType, String)|
            definition_view(v) == declared_type(declaration.unwrap()@)
                && after.definitions.entries_view() == insert_id_sorted(
                before.definitions.entries_view(),
                type_id_no_generics,
                v,
            )
        &&& !(r.0 && declaration is Some) ==> after.definitions.entries_view()
            == before.definitions.entries_view()
    }

    /// An instance that has visited nothing.
    pub fn new() -> (r: Self)
        ensures
            r.visited_types.entries_view() == Seq::<(u64, ())>::empty(),
            r.definitions.entries_view() == Seq::<(u64, (CodegenType, String))>::empty(),
    {
        DependentTypes { visited_types: IdMap::new(), definitions: IdMap::new() }
    }

    /// The same as [`DependentTypes::new`].
    pub fn default() -> (r: Self)
        ensures
            r.visited_types.entries_view() == Seq::<(u64, ())>::empty(),
            r.definitions.entries_view() == Seq::<(u64, (CodegenType, String))>::empty(),
    {
        Self::new()
    }

    /// A type is walked at most once: after a visit, the type and its erased form both count as
    /// visited, so visiting the type again answers that nothing is to be walked.
    pub proof fn law_visit_once(
        before: DependentTypes,
        after: DependentTypes,
        type_id: u64,
        type_id_no_generics: u64,
        declaration: Option<&str>,
        r: (bool, bool),
    )
        requires
            DependentTypes::visit_step(before, after, type_id, type_id_no_generics, declaration, r),
        ensures
            after.visited(type_id),
            after.visited(type_id_no_generics),
            forall|q: u64| #[trigger] before.visited(q) ==> after.visited(q),
    {
        let s = before.visited_types.entries_view();
        let s1 = if r.0 {
            insert_id_sorted(s, type_id_no_generics, ())
        } else {
            s
        };
        assert forall|q: u64| #[trigger] before.visited(q) implies after.visited(q) by {
            lemma_find_id_insert(s, type_id_no_generics, (), q);
            lemma_find_id_insert(s1, type_id, (), q);
        }
        lemma_find_id_insert(s, type_id_no_generics, (), type_id_no_generics);
        lemma_find_id_insert(s1, type_id, (), type_id_no_generics);
        lemma_find_id_insert(s, type_id_no_generics, (), type_id);
        lemma_find_id_insert(s1, type_id, (), type_id);
    }

    /// Visiting a type a second time changes nothing: it answers that nothing is to be walked,
    /// and the visited types and captured definitions stay as they are.
    pub proof fn law_visit_twice(
        first: DependentTypes,
        second: DependentTypes,
        third: DependentTypes,
        type_id: u64,
        type_id_no_generics: u64,
        declaration: Option<&str>,
        r1: (bool, bool),
        r2: (bool, bool),
    )
        requires
            DependentTypes::visit_step(first, second, type_id, type_id_no_generics, declaration, r1),
            DependentTypes::visit_step(second, third, type_id, type_id_no_generics, declaration, r2),
        ensures
            r2 == (false, false),
            third.visited_types.entries_view() == second.visited_types.entries_view(),
            third.definitions.entries_view() == second.definitions.entries_view(),
    {
        DependentTypes::law_visit_once(first, second, type_id, type_id_no_generics, declaration, r1);
    }

    /// Visits a type. `type_id` identifies the type, `type_id_no_generics` the same type with its
    /// generic arguments erased, and `declaration` is the declaration of the latter when it is a
    /// user type (`type <name> = <definition>;`).
    ///
    /// Returns whether the dependencies of the type must be walked (its erased form had not been
    /// visited), and whether its generic arguments must be walked (the type itself had not been
    /// visited). Both answers are decided before anything is recorded. The definition of a user
    /// type is captured the first time its dependencies are walked.
    pub fn visit(
        &mut self,
        type_id: u64,
        type_id_no_generics: u64,
        declaration: Option<&str>,
    ) -> (r: (bool, bool))
        requires
            match declaration {
                Some(d) => declaration_ok(d@),
                None => true,
            },
        ensures
            DependentTypes::visit_step(
                *old(self),
                *final(self),
                type_id,
                type_id_no_generics,
                declaration,
                r,
            ),
    {
        let visit_dependencies = !self.visited_types.contains_key(type_id_no_generics);
        let visit_generics = !self.visited_types.contains_key(type_id);
        if visit_dependencies {
            self.visited_types.insert(type_id_no_generics, ());
            match declaration {
                Some(d) => {
                    let def = CodegenType::from_type_with_definition(d);
                    let ghost dv = def;
                    self.definitions.insert(type_id_no_generics, def);
                    proof {
                        assert(definition_view(dv) == declared_type(d@));
                    }
                },
                None => {},
            }
        }
        if visit_generics {
            self.visited_types.insert(type_id, ());
        }
        (visit_dependencies, visit_generics)
    }
}

} // verus!
