//! TypeScript representation of a router whose handler signatures are function types.
use vstd::prelude::*;

use crate::idmap::{insert_id_sorted, IdMap};
use crate::strmap::{insert_sorted, key_view, raw_insert, sorted_keys, StrMap};
use crate::text::{join_with, push_text};
use crate::ts::ts_type::TsType;
use crate::ts_router::{
    declarations_text, handlers_text, insert_all, lemma_insert_all_push, lemma_text_entries_insert,
    names_of, params_string, params_text, text_entries, texts_of,
};

verus! {

/// The TypeScript function type of a handler: `(a: A, b: B) => R`.
pub open spec fn lambda_signature(names: Seq<Seq<char>>, tys: Seq<Seq<char>>, ret: Seq<char>) -> Seq<
    char,
> {
    seq!['('] + params_text(names, tys) + seq![')', ' ', '=', '>', ' '] + ret
}

/// The TypeScript names of a sequence of types.
pub open spec fn ts_names(tys: Seq<TsType>) -> Seq<Seq<char>> {
    tys.map_values(|t: TsType| t.spec_name())
}

/// The type id and declaration of each user type among `tys`, in order.
pub closed spec fn user_entries(tys: Seq<TsType>) -> Seq<(u64, String)>
    decreases tys.len(),
{
    if tys.len() == 0 {
        Seq::empty()
    } else {
        let r = user_entries(tys.drop_last());
        match tys.last() {
            TsType::User(u) => r.push((u.spec_id(), u.spec_declaration())),
            TsType::Primitive(_) => r,
        }
    }
}

/// Collecting the user types of one more type of `all`.
proof fn lemma_user_entries_step(all: Seq<TsType>, i: int, start: Seq<(u64, String)>)
    requires
        0 <= i < all.len(),
    ensures
        insert_all(start, user_entries(all.take(i + 1))) == match all[i] {
            TsType::User(u) => insert_id_sorted(
                insert_all(start, user_entries(all.take(i))),
                u.spec_id(),
                u.spec_declaration(),
            ),
            TsType::Primitive(_) => insert_all(start, user_entries(all.take(i))),
        },
{
    assert(all.take(i + 1).drop_last() =~= all.take(i));
    assert(all.take(i + 1).last() == all[i]);
    match all[i] {
        TsType::User(u) => {
            lemma_insert_all_push(
                start,
                user_entries(all.take(i)),
                (u.spec_id(), u.spec_declaration()),
            );
        },
        TsType::Primitive(_) => {},
    }
}

/// Adds the declaration of `ty` to `types` when `ty` is a user type.
fn record_user_type(types: &mut IdMap<String>, ty: &TsType)
    ensures
        final(types).entries_view() == match *ty {
            TsType::User(u) => insert_id_sorted(
                old(types).entries_view(),
                u.spec_id(),
                u.spec_declaration(),
            ),
            TsType::Primitive(_) => old(types).entries_view(),
        },
{
    match ty {
        TsType::User(u) => {
            types.insert(u.type_id(), u.declaration_text().clone());
        },
        TsType::Primitive(_) => {},
    }
}

/// TypeScript representation of a router, with everything required to generate its TypeScript
/// type at runtime.
pub struct TsRouter {
    /// Declarations of all user types that must be included, keyed by type id.
    pub(crate) user_types: IdMap<String>,
    /// Handler signatures, keyed by handler name.
    pub(crate) handlers: StrMap<String>,
    /// Nested routers, keyed by the prefix they are registered at, in increasing key order.
    pub(crate) nested: Vec<(String, TsRouter)>,
}

/// The TypeScript object type of a router: `{ ` then `prefix: <nested type>, ` for each nested
/// router and `name: <signature>, ` for each handler, each in key order, then `}`.
pub closed spec fn router_type_text(r: TsRouter) -> Seq<char> {
    type_text(r)
}

spec fn type_text(r: TsRouter) -> Seq<char>
    decreases r, r.nested@.len() + 1,
{
    seq!['{', ' '] + nested_text(r, r.nested@.len() as int) + handlers_text(
        text_entries(r.handlers.entries_view()),
    ) + seq!['}']
}

/// `prefix: <nested type>, ` for the first `n` nested routers of `r`.
spec fn nested_text(r: TsRouter, n: int) -> Seq<char>
    decreases r, n,
{
    if n <= 0 || n > r.nested@.len() {
        Seq::empty()
    } else {
        let e = r.nested@[n - 1];
        nested_text(r, n - 1) + e.0@ + seq![':', ' '] + type_text(e.1) + seq![',', ' ']
    }
}


/// `acc` after copying in the user types of `r` and then, in key order, of its nested routers.
pub closed spec fn collect_types(r: TsRouter, acc: Seq<(u64, String)>) -> Seq<(u64, String)> {
    collect_all(r, acc)
}

spec fn collect_all(r: TsRouter, acc: Seq<(u64, String)>) -> Seq<(u64, String)>
    decreases r, r.nested@.len() + 1,
{
    collect_nested(
        r,
        r.nested@.len() as int,
        insert_all(acc, r.user_types.entries_view()),
    )
}

/// `acc` after collecting the user types of the first `n` nested routers of `r`.
spec fn collect_nested(r: TsRouter, n: int, acc: Seq<(u64, String)>) -> Seq<
    (u64, String),
>
    decreases r, n,
{
    if n <= 0 || n > r.nested@.len() {
        acc
    } else {
        collect_all(r.nested@[n - 1].1, collect_nested(r, n - 1, acc))
    }
}

/// `prefix: <nested type>, ` for each nested router of `s`, in order.
pub open spec fn nested_types_text(s: Seq<(Seq<char>, TsRouter)>) -> Seq<char>
    decreases s.len(),
{
    if s.len() == 0 {
        Seq::empty()
    } else {
        nested_types_text(s.drop_last()) + s.last().0 + seq![':', ' '] + router_type_text(
            s.last().1,
        ) + seq![',', ' ']
    }
}

/// `acc` after collecting the user types of each router of `s`, in order.
pub open spec fn collect_nested_types(s: Seq<(Seq<char>, TsRouter)>, acc: Seq<(u64, String)>) -> Seq<
    (u64, String),
>
    decreases s.len(),
{
    if s.len() == 0 {
        acc
    } else {
        collect_types(s.last().1, collect_nested_types(s.drop_last(), acc))
    }
}

proof fn lemma_nested_text(r: TsRouter, n: int)
    requires
        0 <= n <= r.nested@.len(),
    ensures
        nested_text(r, n) == nested_types_text(key_view(r.nested@).take(n)),
    decreases n,
{
    if n > 0 {
        lemma_nested_text(r, n - 1);
        assert(key_view(r.nested@).take(n).drop_last() =~= key_view(r.nested@).take(n - 1));
    }
}

proof fn lemma_collect_nested(r: TsRouter, n: int, acc: Seq<(u64, String)>)
    requires
        0 <= n <= r.nested@.len(),
    ensures
        collect_nested(r, n, acc) == collect_nested_types(key_view(r.nested@).take(n), acc),
    decreases n,
{
    if n > 0 {
        lemma_collect_nested(r, n - 1, acc);
        assert(key_view(r.nested@).take(n).drop_last() =~= key_view(r.nested@).take(n - 1));
    }
}

/// The type of a router is `{ `, the entry of each nested router and of each handler, then `}`.
pub proof fn lemma_router_type_text(r: TsRouter)
    ensures
        router_type_text(r) == seq!['{', ' '] + nested_types_text(r.spec_nested()) + handlers_text(
            r.spec_handlers(),
        ) + seq!['}'],
{
    lemma_nested_text(r, r.nested@.len() as int);
    assert(key_view(r.nested@).take(r.nested@.len() as int) =~= key_view(r.nested@));
}

/// Collecting the user types of a router copies in its own user types, then those of each nested
/// router in key order.
pub proof fn lemma_collect_types(r: TsRouter, acc: Seq<(u64, String)>)
    ensures
        collect_types(r, acc) == collect_nested_types(
            r.spec_nested(),
            insert_all(acc, r.spec_user_types()),
        ),
{
    lemma_collect_nested(r, r.nested@.len() as int, insert_all(acc, r.user_types.entries_view()));
    assert(key_view(r.nested@).take(r.nested@.len() as int) =~= key_view(r.nested@));
}


impl TsRouter {
    /// The user type declarations of this router, keyed by type id.
    pub closed spec fn spec_user_types(&self) -> Seq<(u64, String)> {
        self.user_types.entries_view()
    }

    /// The handler signatures of this router, keyed by handler name.
    pub closed spec fn spec_handlers(&self) -> Seq<(Seq<char>, Seq<char>)> {
        text_entries(self.handlers.entries_view())
    }

    /// The nested routers, keyed by prefix.
    pub closed spec fn spec_nested(&self) -> Seq<(Seq<char>, TsRouter)> {
        key_view(self.nested@)
    }

    #[verifier::type_invariant]
    spec fn inv(&self) -> bool {
        sorted_keys(key_view(self.nested@))
    }

    /// A router without handlers, nested routers or user types.
    pub fn new() -> (r: Self)
        ensures
            r.spec_user_types() == Seq::<(u64, String)>::empty(),
            r.spec_handlers() == Seq::<(Seq<char>, Seq<char>)>::empty(),
            r.spec_nested() == Seq::<(Seq<char>, TsRouter)>::empty(),
    {
        let r = TsRouter { user_types: IdMap::new(), handlers: StrMap::new(), nested: Vec::new() };
        assert(r.spec_handlers() =~= Seq::<(Seq<char>, Seq<char>)>::empty());
        assert(r.spec_nested() =~= Seq::<(Seq<char>, TsRouter)>::empty());
        r
    }

    /// Nests `other` under `prefix`, replacing any router nested there.
    pub fn nest(&mut self, prefix: String, other: TsRouter)
        ensures
            final(self).spec_nested() == insert_sorted(old(self).spec_nested(), prefix@, other),
            final(self).spec_handlers() == old(self).spec_handlers(),
            final(self).spec_user_types() == old(self).spec_user_types(),
    {
        proof {
            use_type_invariant(&*self);
        }
        let mut nested: Vec<(String, TsRouter)> = Vec::new();
        std::mem::swap(&mut nested, &mut self.nested);
        raw_insert(&mut nested, prefix, other);
        self.nested = nested;
    }

    /// Writes the TypeScript object type of this router to `out`.
    pub fn write_router_type(&self, out: &mut String)
        ensures
            final(out)@ == old(out)@ + router_type_text(*self),
        decreases self,
    {
        proof {
            reveal_strlit("{ ");
            reveal_strlit(": ");
            reveal_strlit(", ");
            reveal_strlit("}");
            assert("{ "@ =~= seq!['{', ' ']);
            assert(": "@ =~= seq![':', ' ']);
            assert(", "@ =~= seq![',', ' ']);
            assert("}"@ =~= seq!['}']);
        }
        let ghost start = out@;
        push_text(out, "{ ");
        let mut i: usize = 0;
        while i < self.nested.len()
            invariant
                i <= self.nested@.len(),
                out@ == start + seq!['{', ' '] + nested_text(*self, i as int),
            decreases self.nested@.len() - i,
        {
            proof {
                reveal_strlit(": ");
                reveal_strlit(", ");
                assert(": "@ =~= seq![':', ' ']);
                assert(", "@ =~= seq![',', ' ']);
            }
            let (prefix, router) = (&self.nested[i].0, &self.nested[i].1);
            push_text(out, prefix.as_str());
            push_text(out, ": ");
            proof {
                assert(decreases_to!(*self => self.nested));
                assert(decreases_to!(self.nested => self.nested@));
                assert(decreases_to!(self.nested@ => self.nested@[i as int]));
                assert(decreases_to!(self.nested@[i as int] => self.nested@[i as int].1));
            }
            router.write_router_type(out);
            push_text(out, ", ");
            proof {
                assert(router_type_text(*router) == type_text(self.nested@[i as int].1));
                assert(nested_text(*self, i + 1) == nested_text(*self, i as int)
                    + self.nested@[i as int].0@ + seq![':', ' '] + type_text(
                    self.nested@[i as int].1,
                ) + seq![',', ' ']);
                assert(out@ =~= start + seq!['{', ' '] + nested_text(*self, i + 1));
            }
            i = i + 1;
        }
        let mut j: usize = 0;
        let ghost hs = text_entries(self.handlers.entries_view());
        while j < self.handlers.len()
            invariant
                j <= hs.len(),
                hs == text_entries(self.handlers.entries_view()),
                hs.len() == self.handlers.entries_view().len(),
                out@ == start + seq!['{', ' '] + nested_text(*self, self.nested@.len() as int)
                    + handlers_text(hs.take(j as int)),
            decreases hs.len() - j,
        {
            proof {
                reveal_strlit(": ");
                reveal_strlit(", ");
                assert(": "@ =~= seq![':', ' ']);
                assert(", "@ =~= seq![',', ' ']);
            }
            let (key, handler) = self.handlers.entry_at(j);
            push_text(out, key.as_str());
            push_text(out, ": ");
            push_text(out, handler.as_str());
            push_text(out, ", ");
            proof {
                assert(hs[j as int] == (key@, handler@));
                assert(hs.take(j + 1).last() == hs[j as int]);
                assert(hs.take(j + 1).drop_last() =~= hs.take(j as int));
                assert(out@ =~= start + seq!['{', ' '] + nested_text(
                    *self,
                    self.nested@.len() as int,
                ) + handlers_text(hs.take(j + 1)));
            }
            j = j + 1;
        }
        push_text(out, "}");
        proof {
            assert(hs.take(j as int) =~= hs);
            assert(router_type_text(*self) == type_text(*self));
            assert(out@ =~= start + router_type_text(*self));
        }
    }

    /// Copies the user type declarations of this router and, in key order, of its nested
    /// routers into `user_types` (later copies replace earlier ones of the same type id).
    pub fn copy_user_types(&self, user_types: &mut IdMap<String>)
        ensures
            final(user_types).entries_view() == collect_types(*self, old(user_types).entries_view()),
        decreases self,
    {
        let mut i: usize = 0;
        let ghost start = user_types.entries_view();
        while i < self.user_types.len()
            invariant
                i <= self.user_types.entries_view().len(),
                user_types.entries_view() == insert_all(start, self.user_types.entries_view().take(i as int)),
            decreases self.user_types.entries_view().len() - i,
        {
            let (id, decl) = self.user_types.entry_at(i);
            user_types.insert(id, decl.clone());
            proof {
                lemma_insert_all_push(start, self.user_types.entries_view().take(i as int), (id, *decl));
                assert(self.user_types.entries_view().take(i + 1) =~= self.user_types.entries_view().take(i as int).push(self.user_types.entries_view()[i as int]));
            }
            i = i + 1;
        }
        proof {
            assert(self.user_types.entries_view().take(i as int) =~= self.user_types.entries_view());
        }
        let ghost own = user_types.entries_view();
        let mut k: usize = 0;
        while k < self.nested.len()
            invariant
                k <= self.nested@.len(),
                user_types.entries_view() == collect_nested(*self, k as int, own),
            decreases self.nested@.len() - k,
        {
            proof {
                assert(decreases_to!(*self => self.nested));
                assert(decreases_to!(self.nested => self.nested@));
                assert(decreases_to!(self.nested@ => self.nested@[k as int]));
                assert(decreases_to!(self.nested@[k as int] => self.nested@[k as int].1));
            }
            self.nested[k].1.copy_user_types(user_types);
            k = k + 1;
        }
    }

    /// The whole TypeScript for this router: every user type declaration (collected from this
    /// router and all nested routers, in order of type id), each on its own line, then
    /// `export type Router = <router type>;` and a line break.
    pub fn generate_typescript(&self) -> (r: String)
        ensures
            r@ == declarations_text(collect_types(*self, Seq::empty())) + seq![
                'e',
                'x',
                'p',
                'o',
                'r',
                't',
                ' ',
                't',
                'y',
                'p',
                'e',
                ' ',
                'R',
                'o',
                'u',
                't',
                'e',
                'r',
                ' ',
                '=',
                ' ',
            ] + router_type_text(*self) + seq![';', '\n'],
    {
        let mut user_types: IdMap<String> = IdMap::new();
        self.copy_user_types(&mut user_types);
        let mut out = String::new();
        let mut i: usize = 0;
        let ghost all = user_types.entries_view();
        proof {
            reveal_strlit("\n");
            reveal_strlit("export type Router = ");
            reveal_strlit(";\n");
            assert("\n"@ =~= seq!['\n']);
        }
        while i < user_types.len()
            invariant
                i <= all.len(),
                all == user_types.entries_view(),
                out@ == declarations_text(all.take(i as int)),
            decreases all.len() - i,
        {
            proof {
                reveal_strlit("\n");
                assert("\n"@ =~= seq!['\n']);
            }
            let (_, decl) = user_types.entry_at(i);
            push_text(&mut out, decl.as_str());
            push_text(&mut out, "\n");
            proof {
                assert(all.take(i + 1).drop_last() =~= all.take(i as int));
                assert(all.take(i + 1).last() == all[i as int]);
            }
            i = i + 1;
        }
        proof {
            assert(all.take(i as int) =~= all);
        }
        push_text(&mut out, "export type Router = ");
        self.write_router_type(&mut out);
        push_text(&mut out, ";\n");
        out
    }

    /// The TypeScript object type of this router.
    pub fn get_router_type(&self) -> (r: String)
        ensures
            r@ == router_type_text(*self),
    {
        let mut ty = String::new();
        self.write_router_type(&mut ty);
        ty
    }

    /// Registers a handler named `name`: its signature `(a: A, b: B) => R` is stored under its
    /// name (replacing any handler of that name), and the declarations of the user types among
    /// its parameter types and its return type are added in order, keyed by type id.
    pub fn add_handler(
        &mut self,
        name: &str,
        param_names: &[&str],
        param_types: &Vec<TsType>,
        return_type: &TsType,
    )
        requires
            param_types@.len() == param_names@.len(),
        ensures
            final(self).spec_handlers() == insert_sorted(
                old(self).spec_handlers(),
                name@,
                lambda_signature(names_of(param_names@), ts_names(param_types@), return_type.spec_name()),
            ),
            final(self).spec_user_types() == insert_all(
                old(self).spec_user_types(),
                user_entries(param_types@.push(*return_type)),
            ),
            final(self).spec_nested() == old(self).spec_nested(),
    {
        proof {
            use_type_invariant(&*self);
        }
        let mut tys: Vec<String> = Vec::new();
        let mut k: usize = 0;
        while k < param_types.len()
            invariant
                k <= param_types@.len(),
                tys@.len() == k,
                forall|t: int| 0 <= t < k ==> (#[trigger] tys@[t])@ == param_types@[t].spec_name(),
            decreases param_types@.len() - k,
        {
            tys.push(param_types[k].name().clone());
            k = k + 1;
        }
        proof {
            assert(texts_of(tys@) =~= ts_names(param_types@));
        }
        let params = params_string(param_names, &tys);
        let mut sig = String::new();
        proof {
            reveal_strlit("(");
            reveal_strlit(") => ");
        }
        push_text(&mut sig, "(");
        push_text(&mut sig, params.as_str());
        push_text(&mut sig, ") => ");
        push_text(&mut sig, return_type.name().as_str());
        proof {
            assert(sig@ =~= lambda_signature(
                names_of(param_names@),
                ts_names(param_types@),
                return_type.spec_name(),
            ));
        }
        let ghost old_h = self.handlers.entries_view();
        let key = crate::text::owned(name);
        proof {
            lemma_text_entries_insert(old_h, key@, sig);
        }
        let mut handlers: StrMap<String> = StrMap::new();
        std::mem::swap(&mut handlers, &mut self.handlers);
        handlers.insert(key, sig);
        self.handlers = handlers;
        let mut types: IdMap<String> = IdMap::new();
        std::mem::swap(&mut types, &mut self.user_types);
        let ghost start = types.entries_view();
        let ghost all = param_types@.push(*return_type);
        let mut i: usize = 0;
        while i < param_types.len()
            invariant
                i <= param_types@.len(),
                all == param_types@.push(*return_type),
                types.entries_view() == insert_all(start, user_entries(all.take(i as int))),
            decreases param_types@.len() - i,
        {
            record_user_type(&mut types, &param_types[i]);
            proof {
                lemma_user_entries_step(all, i as int, start);
            }
            i = i + 1;
        }
        record_user_type(&mut types, return_type);
        proof {
            lemma_user_entries_step(all, i as int, start);
            assert(all.take(i + 1) =~= all);
        }
        self.user_types = types;
    }
}

} // verus!
