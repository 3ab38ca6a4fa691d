//! Collection of the type declarations that a type depends on.
use vstd::prelude::*;

use crate::strmap::StrMap;

verus! {

/// A type that may depend on user type declarations, which it adds to a map of declarations
/// by name. Built-in types depend on nothing; containers depend on what their elements depend on,
/// in the order of their type parameters.
pub trait TypeDependencies {
    /// The entries of a declaration map after this type has added its dependencies to
    /// `entries`.
    spec fn with_deps(entries: Seq<(Seq<char>, String)>) -> Seq<(Seq<char>, String)>;

    /// Adds the declarations this type depends on.
    fn get_deps(dependencies: &mut StrMap<String>)
        ensures
            final(dependencies).entries_view() == Self::with_deps(old(dependencies).entries_view()),
    ;
}

impl TypeDependencies for u8 {
    open spec fn with_deps(entries: Seq<(Seq<char>, String)>) -> Seq<(Seq<char>, String)> {
        entries
    }

    fn get_deps(dependencies: &mut StrMap<String>) {
    }
}

impl TypeDependencies for u16 {
    open spec fn with_deps(entries: Seq<(Seq<char>, String)>) -> Seq<(Seq<char>, String)> {
        entries
    }

    fn get_deps(dependencies: &mut StrMap<String>) {
    }
}

impl TypeDependencies for u32 {
    open spec fn with_deps(entries: Seq<(Seq<char>, String)>) -> Seq<(Seq<char>, String)> {
        entries
    }

    fn get_deps(dependencies: &mut StrMap<String>) {
    }
}

impl TypeDependencies for u64 {
    open spec fn with_deps(entries: Seq<(Seq<char>, String)>) -> Seq<(Seq<char>, String)> {
        entries
    }

    fn get_deps(dependencies: &mut StrMap<String>) {
    }
}

impl TypeDependencies for u128 {
    open spec fn with_deps(entries: Seq<(Seq<char>, String)>) -> Seq<(Seq<char>, String)> {
        entries
    }

    fn get_deps(dependencies: &mut StrMap<String>) {
    }
}

impl TypeDependencies for usize {
    open spec fn with_deps(entries: Seq<(Seq<char>, String)>) -> Seq<(Seq<char>, String)> {
        entries
    }

    fn get_deps(dependencies: &mut StrMap<String>) {
    }
}

impl TypeDependencies for i8 {
    open spec fn with_deps(entries: Seq<(Seq<char>, String)>) -> Seq<(Seq<char>, String)> {
        entries
    }

    fn get_deps(dependencies: &mut StrMap<String>) {
    }
}

impl TypeDependencies for i16 {
    open spec fn with_deps(entries: Seq<(Seq<char>, String)>) -> Seq<(Seq<char>, String)> {
        entries
    }

    fn get_deps(dependencies: &mut StrMap<String>) {
    }
}

impl TypeDependencies for i32 {
    open spec fn with_deps(entries: Seq<(Seq<char>, String)>) -> Seq<(Seq<char>, String)> {
        entries
    }

    fn get_deps(dependencies: &mut StrMap<String>) {
    }
}

impl TypeDependencies for i64 {
    open spec fn with_deps(entries: Seq<(Seq<char>, String)>) -> Seq<(Seq<char>, String)> {
        entries
    }

    fn get_deps(dependencies: &mut StrMap<String>) {
    }
}

impl TypeDependencies for i128 {
    open spec fn with_deps(entries: Seq<(Seq<char>, String)>) -> Seq<(Seq<char>, String)> {
        entries
    }

    fn get_deps(dependencies: &mut StrMap<String>) {
    }
}

impl TypeDependencies for isize {
    open spec fn with_deps(entries: Seq<(Seq<char>, String)>) -> Seq<(Seq<char>, String)> {
        entries
    }

    fn get_deps(dependencies: &mut StrMap<String>) {
    }
}

impl TypeDependencies for String {
    open spec fn with_deps(entries: Seq<(Seq<char>, String)>) -> Seq<(Seq<char>, String)> {
        entries
    }

    fn get_deps(dependencies: &mut StrMap<String>) {
    }
}

impl TypeDependencies for &'static str {
    open spec fn with_deps(entries: Seq<(Seq<char>, String)>) -> Seq<(Seq<char>, String)> {
        entries
    }

    fn get_deps(dependencies: &mut StrMap<String>) {
    }
}

impl TypeDependencies for bool {
    open spec fn with_deps(entries: Seq<(Seq<char>, String)>) -> Seq<(Seq<char>, String)> {
        entries
    }

    fn get_deps(dependencies: &mut StrMap<String>) {
    }
}

impl TypeDependencies for char {
    open spec fn with_deps(entries: Seq<(Seq<char>, String)>) -> Seq<(Seq<char>, String)> {
        entries
    }

    fn get_deps(dependencies: &mut StrMap<String>) {
    }
}

impl TypeDependencies for () {
    open spec fn with_deps(entries: Seq<(Seq<char>, String)>) -> Seq<(Seq<char>, String)> {
        entries
    }

    fn get_deps(dependencies: &mut StrMap<String>) {
    }
}

impl<T: TypeDependencies> TypeDependencies for Vec<T> {
    open spec fn with_deps(entries: Seq<(Seq<char>, String)>) -> Seq<(Seq<char>, String)> {
        T::with_deps(entries)
    }

    fn get_deps(dependencies: &mut StrMap<String>) {
        T::get_deps(dependencies);
    }
}

impl<T: TypeDependencies> TypeDependencies for Box<T> {
    open spec fn with_deps(entries: Seq<(Seq<char>, String)>) -> Seq<(Seq<char>, String)> {
        T::with_deps(entries)
    }

    fn get_deps(dependencies: &mut StrMap<String>) {
        T::get_deps(dependencies);
    }
}

impl<T: TypeDependencies> TypeDependencies for Option<T> {
    open spec fn with_deps(entries: Seq<(Seq<char>, String)>) -> Seq<(Seq<char>, String)> {
        T::with_deps(entries)
    }

    fn get_deps(dependencies: &mut StrMap<String>) {
        T::get_deps(dependencies);
    }
}

impl<T: TypeDependencies, E: TypeDependencies> TypeDependencies for Result<T, E> {
    open spec fn with_deps(entries: Seq<(Seq<char>, String)>) -> Seq<(Seq<char>, String)> {
        E::with_deps(T::with_deps(entries))
    }

    fn get_deps(dependencies: &mut StrMap<String>) {
        T::get_deps(dependencies);
        E::get_deps(dependencies);
    }
}

impl<T0: TypeDependencies> TypeDependencies for (T0,) {
    open spec fn with_deps(entries: Seq<(Seq<char>, String)>) -> Seq<(Seq<char>, String)> {
        T0::with_deps(entries)
    }

    fn get_deps(dependencies: &mut StrMap<String>) {
        T0::get_deps(dependencies);
    }
}

impl<T0: TypeDependencies, T1: TypeDependencies> TypeDependencies for (T0, T1) {
    open spec fn with_deps(entries: Seq<(Seq<char>, String)>) -> Seq<(Seq<char>, String)> {
        T1::with_deps(T0::with_deps(entries))
    }

    fn get_deps(dependencies: &mut StrMap<String>) {
        T0::get_deps(dependencies);
        T1::get_deps(dependencies);
    }
}

impl<T0: TypeDependencies, T1: TypeDependencies, T2: TypeDependencies> TypeDependencies for (
    T0,
    T1,
    T2,
) {
    open spec fn with_deps(entries: Seq<(Seq<char>, String)>) -> Seq<(Seq<char>, String)> {
        T2::with_deps(T1::with_deps(T0::with_deps(entries)))
    }

    fn get_deps(dependencies: &mut StrMap<String>) {
        T0::get_deps(dependencies);
        T1::get_deps(dependencies);
        T2::get_deps(dependencies);
    }
}

} // verus!
