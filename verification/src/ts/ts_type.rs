//! Utilities for representing TypeScript types at runtime.
use vstd::prelude::*;

verus! {

/// Common components of [`TsType`].
#[derive(Clone, Debug)]
pub struct TsTypeCommon {
    /// TypeScript name of the type. Could be a primitive (`number`, `string`), or a
    /// user-defined type.
    pub name: String,
}

/// User-defined type.
#[derive(Clone, Debug)]
pub struct TsTypeUser {
    common: TsTypeCommon,
    /// Id of the Rust type that this refers to. The same Rust type corresponds to the same
    /// TypeScript type.
    pub id: u64,
    /// Declaration of this type.
    pub declaration: String,
}

impl TsTypeUser {
    /// The name of the type.
    pub closed spec fn spec_name(&self) -> Seq<char> {
        self.common.name@
    }

    /// The type id of the Rust type this refers to.
    pub closed spec fn spec_id(&self) -> u64 {
        self.id
    }

    /// The declaration of this type.
    pub closed spec fn spec_declaration(&self) -> String {
        self.declaration
    }

    /// The type id of the Rust type this refers to.
    pub fn type_id(&self) -> (r: u64)
        ensures
            r == self.spec_id(),
    {
        self.id
    }

    /// The declaration of this type.
    pub fn declaration_text(&self) -> (r: &String)
        ensures
            *r == self.spec_declaration(),
    {
        &self.declaration
    }

    /// A user type with the given name, type id and declaration.
    pub fn new(name: String, id: u64, declaration: String) -> (r: Self)
        ensures
            r.spec_name() == name@,
            r.spec_id() == id,
            r.spec_declaration() == declaration,
    {
        TsTypeUser { common: TsTypeCommon { name }, id, declaration }
    }

    /// The common components of this type.
    pub fn common(&self) -> (r: &TsTypeCommon)
        ensures
            r.name@ == self.spec_name(),
    {
        &self.common
    }
}

/// Type information to represent a type in TypeScript.
#[derive(Clone, Debug)]
pub enum TsType {
    /// Built-in TypeScript type.
    Primitive(TsTypeCommon),
    /// User-defined TypeScript type.
    User(TsTypeUser),
}

impl TsType {
    /// The TypeScript name of the type.
    pub open spec fn spec_name(&self) -> Seq<char> {
        match self {
            TsType::Primitive(c) => c.name@,
            TsType::User(u) => u.spec_name(),
        }
    }

    /// Determine if the type is primitive.
    pub fn is_primitive(&self) -> (r: bool)
        ensures
            r == (self is Primitive),
    {
        match self {
            TsType::Primitive(_) => true,
            TsType::User(_) => false,
        }
    }

    /// Determine if the type is user-defined.
    pub fn is_user(&self) -> (r: bool)
        ensures
            r == (self is User),
    {
        match self {
            TsType::Primitive(_) => false,
            TsType::User(_) => true,
        }
    }

    /// Type information for a type with the given TypeScript name. A type exported to a file
    /// (one with `Some` user information: its type id and declaration) is a user type;
    /// any other type is primitive.
    pub fn from_type(name: String, user: Option<(u64, String)>) -> (r: Self)
        ensures
            r.spec_name() == name@,
            match user {
                Some((id, decl)) => r matches TsType::User(u) && u.spec_id() == id
                    && u.spec_declaration() == decl,
                None => r is Primitive,
            },
    {
        match user {
            Some((id, declaration)) => TsType::User(TsTypeUser::new(name, id, declaration)),
            None => TsType::Primitive(TsTypeCommon { name }),
        }
    }

    /// The TypeScript name of the type.
    pub fn name(&self) -> (r: &String)
        ensures
            r@ == self.spec_name(),
    {
        match self {
            TsType::Primitive(c) => &c.name,
            TsType::User(u) => &u.common().name,
        }
    }
}

} // verus!
