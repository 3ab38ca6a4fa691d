//! Type information suitable for reflection.
use vstd::prelude::*;

use crate::reflection::ty::{parse_type_name, sub_chars, type_name_ok, CodegenType};
use crate::text::{
    chars_of, find_first, first_pos, lemma_first_pos, string_of_range, string_views,
    trim_text, trim_text_chars, trimmed,
};

verus! {

/// Whether `decl` has the shape `type <name> = <definition>;` with a well-formed name (the
/// space after `type` included).
pub open spec fn user_declaration_ok(decl: Seq<char>) -> bool {
    let i = first_pos(decl, '=');
    let tail = decl.skip(i + 1);
    &&& i < decl.len()
    &&& tail.len() > 0
    &&& tail.last() == ';'
    &&& i >= 5
    &&& decl.take(5) == "type "@
    &&& type_name_ok(decl.take(i).skip(5))
}

/// Whether `decl` has the shape `type <name> = <definition>;` with a well-formed name (see
/// [`user_declaration_ok`]).
pub fn user_declaration_is_ok(decl: &str) -> (r: bool)
    ensures
        r == user_declaration_ok(decl@),
{
    let cs = chars_of(decl);
    let i = match find_first(&cs, '=') {
        Some(i) => {
            proof {
                lemma_first_pos(cs@, '=', i as int);
            }
            i
        },
        None => {
            proof {
                lemma_first_pos(cs@, '=', cs@.len() as int);
            }
            return false;
        },
    };
    let n = cs.len();
    if i + 1 >= n {
        return false;
    }
    proof {
        assert(cs@.skip(i + 1).last() == cs@[n - 1]);
    }
    if cs[n - 1] != ';' {
        return false;
    }
    if i < 5 {
        return false;
    }
    proof {
        reveal_strlit("type ");
    }
    if !(cs[0] == 't' && cs[1] == 'y' && cs[2] == 'p' && cs[3] == 'e' && cs[4] == ' ') {
        proof {
            if cs@.take(5) == "type "@ {
                assert(cs@.take(5)[0] == cs@[0]);
                assert(cs@.take(5)[1] == cs@[1]);
                assert(cs@.take(5)[2] == cs@[2]);
                assert(cs@.take(5)[3] == cs@[3]);
                assert(cs@.take(5)[4] == cs@[4]);
            }
        }
        return false;
    }
    proof {
        assert(cs@.take(5) =~= "type "@);
    }
    let name_part = string_of_range(&cs, 5, i);
    proof {
        assert(cs@.subrange(5, i as int) =~= cs@.take(i as int).skip(5));
    }
    crate::reflection::ty::type_name_is_ok(name_part.as_str())
}

/// The declared name (the text after `type `, up to `=` or to the generic parameters, without
/// surrounding white space), the generic parameters and the definition of a declaration
/// `type <name> = <definition>;`.
pub open spec fn parse_user_declaration(decl: Seq<char>) -> (Seq<char>, Seq<Seq<char>>, Seq<char>) {
    let i = first_pos(decl, '=');
    let parsed = parse_type_name(decl.take(i).skip(5));
    (trimmed(parsed.0), parsed.1, trimmed(decl.skip(i + 1).drop_last()))
}

/// How a type is declared.
pub enum TypeDeclaration {
    /// Primitive type, no declaration required.
    Primitive,
    /// Custom user type.
    User {
        /// Type id, to de-duplicate repeated types.
        type_id: u64,
        /// Name of the type.
        name: String,
        /// Generics used within the declaration.
        generics: Vec<String>,
        /// Type definition.
        definition: String,
    },
}

/// Type information suitable for reflection.
pub struct Type {
    /// Name of the type, including any generics provided to it.
    name: String,
    /// Declaration of the type.
    declaration: TypeDeclaration,
}

impl Type {
    /// The name of the type.
    pub closed spec fn spec_name(&self) -> Seq<char> {
        self.name@
    }

    /// The declaration of the type.
    pub closed spec fn spec_declaration(&self) -> TypeDeclaration {
        self.declaration
    }

    /// The name of the type.
    pub fn name(&self) -> (r: &String)
        ensures
            r@ == self.spec_name(),
    {
        &self.name
    }

    /// The declaration of the type.
    pub fn declaration(&self) -> (r: &TypeDeclaration)
        ensures
            *r == self.spec_declaration(),
    {
        &self.declaration
    }

    /// The type named `name`; `user` holds, for a user type, the id of the type (without
    /// generic arguments) and its declaration `type <name> = <definition>;`.
    pub fn from_type(name: String, user: Option<(u64, &str)>) -> (r: Self)
        requires
            user matches Some((_, d)) ==> user_declaration_ok(d@),
        ensures
            r.spec_name() == name@,
            match user {
                None => r.spec_declaration() is Primitive,
                Some((id, d)) => r.spec_declaration() matches TypeDeclaration::User {
                    type_id,
                    name: n,
                    generics,
                    definition,
                } && type_id == id && (n@, string_views(generics@), definition@)
                    == parse_user_declaration(d@),
            },
    {
        let declaration = match user {
            None => TypeDeclaration::Primitive,
            Some((type_id, decl)) => {
                let cs = chars_of(decl);
                let i = match find_first(&cs, '=') {
                    Some(i) => {
                        proof {
                            lemma_first_pos(cs@, '=', i as int);
                        }
                        i
                    },
                    None => {
                        proof {
                            lemma_first_pos(cs@, '=', cs@.len() as int);
                        }
                        0
                    },
                };
                let n = cs.len();
                let definition_chars = sub_chars(&cs, i + 1, n - 1);
                let definition = trim_text_chars(&definition_chars);
                let name_part = string_of_range(&cs, 5, i);
                proof {
                    assert(definition_chars@ =~= cs@.skip(i + 1).drop_last());
                    assert(cs@.subrange(5, i as int) =~= cs@.take(i as int).skip(5));
                }
                let (ty_name, generics) = CodegenType::from_name_and_generics(
                    name_part.as_str(),
                ).into_parts();
                let name = trim_text(ty_name.as_str());
                TypeDeclaration::User { type_id, name, generics, definition }
            },
        };
        Type { name, declaration }
    }
}

} // verus!
