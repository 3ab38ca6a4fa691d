//! Registration of user types, so that each is declared once in the generated code.
use vstd::prelude::*;

use crate::strmap::StrMap;

verus! {

/// A type that registers the declarations of the user types it contains into a registry by
/// name. Built-in types register nothing; containers register what their elements register, in
/// the order of their type parameters.
pub trait ExportType {
    /// The entries of a registry after this type has registered its declarations into
    /// `entries`.
    spec fn with_exports(entries: Seq<(Seq<char>, String)>) -> Seq<(Seq<char>, String)>;

    /// Registers the declarations of the user types this type contains.
    fn export(registry: &mut StrMap<String>)
        ensures
            final(registry).entries_view() == Self::with_exports(old(registry).entries_view()),
    ;
}

impl ExportType for u8 {
    open spec fn with_exports(entries: Seq<(Seq<char>, String)>) -> Seq<(Seq<char>, String)> {
        entries
    }

    fn export(registry: &mut StrMap<String>) {
    }
}

impl ExportType for u16 {
    open spec fn with_exports(entries: Seq<(Seq<char>, String)>) -> Seq<(Seq<char>, String)> {
        entries
    }

    fn export(registry: &mut StrMap<String>) {
    }
}

impl ExportType for u32 {
    open spec fn with_exports(entries: Seq<(Seq<char>, String)>) -> Seq<(Seq<char>, String)> {
        entries
    }

    fn export(registry: &mut StrMap<String>) {
    }
}

impl ExportType for u64 {
    open spec fn with_exports(entries: Seq<(Seq<char>, String)>) -> Seq<(Seq<char>, String)> {
        entries
    }

    fn export(registry: &mut StrMap<String>) {
    }
}

impl ExportType for u128 {
    open spec fn with_exports(entries: Seq<(Seq<char>, String)>) -> Seq<(Seq<char>, String)> {
        entries
    }

    fn export(registry: &mut StrMap<String>) {
    }
}

impl ExportType for usize {
    open spec fn with_exports(entries: Seq<(Seq<char>, String)>) -> Seq<(Seq<char>, String)> {
        entries
    }

    fn export(registry: &mut StrMap<String>) {
    }
}

impl ExportType for i8 {
    open spec fn with_exports(entries: Seq<(Seq<char>, String)>) -> Seq<(Seq<char>, String)> {
        entries
    }

    fn export(registry: &mut StrMap<String>) {
    }
}

impl ExportType for i16 {
    open spec fn with_exports(entries: Seq<(Seq<char>, String)>) -> Seq<(Seq<char>, String)> {
        entries
    }

    fn export(registry: &mut StrMap<String>) {
    }
}

impl ExportType for i32 {
    open spec fn with_exports(entries: Seq<(Seq<char>, String)>) -> Seq<(Seq<char>, String)> {
        entries
    }

    fn export(registry: &mut StrMap<String>) {
    }
}

impl ExportType for i64 {
    open spec fn with_exports(entries: Seq<(Seq<char>, String)>) -> Seq<(Seq<char>, String)> {
        entries
    }

    fn export(registry: &mut StrMap<String>) {
    }
}

impl ExportType for i128 {
    open spec fn with_exports(entries: Seq<(Seq<char>, String)>) -> Seq<(Seq<char>, String)> {
        entries
    }

    fn export(registry: &mut StrMap<String>) {
    }
}

impl ExportType for isize {
    open spec fn with_exports(entries: Seq<(Seq<char>, String)>) -> Seq<(Seq<char>, String)> {
        entries
    }

    fn export(registry: &mut StrMap<String>) {
    }
}

impl ExportType for String {
    open spec fn with_exports(entries: Seq<(Seq<char>, String)>) -> Seq<(Seq<char>, String)> {
        entries
    }

    fn export(registry: &mut StrMap<String>) {
    }
}

impl ExportType for &'static str {
    open spec fn with_exports(entries: Seq<(Seq<char>, String)>) -> Seq<(Seq<char>, String)> {
        entries
    }

    fn export(registry: &mut StrMap<String>) {
    }
}

impl ExportType for bool {
    open spec fn with_exports(entries: Seq<(Seq<char>, String)>) -> Seq<(Seq<char>, String)> {
        entries
    }

    fn export(registry: &mut StrMap<String>) {
    }
}

impl ExportType for char {
    open spec fn with_exports(entries: Seq<(Seq<char>, String)>) -> Seq<(Seq<char>, String)> {
        entries
    }

    fn export(registry: &mut StrMap<String>) {
    }
}

impl ExportType for () {
    open spec fn with_exports(entries: Seq<(Seq<char>, String)>) -> Seq<(Seq<char>, String)> {
        entries
    }

    fn export(registry: &mut StrMap<String>) {
    }
}

impl<T: ExportType> ExportType for Vec<T> {
    open spec fn with_exports(entries: Seq<(Seq<char>, String)>) -> Seq<(Seq<char>, String)> {
        T::with_exports(entries)
    }

    fn export(registry: &mut StrMap<String>) {
        T::export(registry);
    }
}

impl<T: ExportType> ExportType for Box<T> {
    open spec fn with_exports(entries: Seq<(Seq<char>, String)>) -> Seq<(Seq<char>, String)> {
        T::with_exports(entries)
    }

    fn export(registry: &mut StrMap<String>) {
        T::export(registry);
    }
}

impl<T: ExportType> ExportType for Option<T> {
    open spec fn with_exports(entries: Seq<(Seq<char>, String)>) -> Seq<(Seq<char>, String)> {
        T::with_exports(entries)
    }

    fn export(registry: &mut StrMap<String>) {
        T::export(registry);
    }
}

impl<T: ExportType, E: ExportType> ExportType for Result<T, E> {
    open spec fn with_exports(entries: Seq<(Seq<char>, String)>) -> Seq<(Seq<char>, String)> {
        E::with_exports(T::with_exports(entries))
    }

    fn export(registry: &mut StrMap<String>) {
        T::export(registry);
        E::export(registry);
    }
}

impl<T0: ExportType> ExportType for (T0,) {
    open spec fn with_exports(entries: Seq<(Seq<char>, String)>) -> Seq<(Seq<char>, String)> {
        T0::with_exports(entries)
    }

    fn export(registry: &mut StrMap<String>) {
        T0::export(registry);
    }
}

impl<T0: ExportType, T1: ExportType> ExportType for (T0, T1) {
    open spec fn with_exports(entries: Seq<(Seq<char>, String)>) -> Seq<(Seq<char>, String)> {
        T1::with_exports(T0::with_exports(entries))
    }

    fn export(registry: &mut StrMap<String>) {
        T0::export(registry);
        T1::export(registry);
    }
}

impl<T0: ExportType, T1: ExportType, T2: ExportType> ExportType for (
    T0,
    T1,
    T2,
) {
    open spec fn with_exports(entries: Seq<(Seq<char>, String)>) -> Seq<(Seq<char>, String)> {
        T2::with_exports(T1::with_exports(T0::with_exports(entries)))
    }

    fn export(registry: &mut StrMap<String>) {
        T0::export(registry);
        T1::export(registry);
        T2::export(registry);
    }
}

} // verus!
