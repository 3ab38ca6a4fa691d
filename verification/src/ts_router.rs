//! TypeScript representation of a router: handler signatures keyed by name, nested routers keyed
//! by prefix, and the declarations of the user types they mention.
use vstd::prelude::*;

use crate::idmap::{find_id, insert_id_sorted, IdMap};
use crate::reflection::handler::{HandlerKind, HandlerMeta};
use crate::strmap::{find, insert_sorted, key_view, raw_insert, sorted_keys, StrMap};
use crate::text::{join_with, push_text};

verus! {

/// `name: type` for one handler parameter.
pub open spec fn param_text(name: Seq<char>, ty: Seq<char>) -> Seq<char> {
    name + seq![':', ' '] + ty
}

/// The parameters of a handler, `name: type`, separated by `, `.
pub open spec fn params_text(names: Seq<Seq<char>>, tys: Seq<Seq<char>>) -> Seq<char> {
    join_with(
        Seq::new(names.len(), |i: int| param_text(names[i], tys[i])),
        seq![',', ' '],
    )
}

/// The TypeScript signature of a handler: `Kind<[a: A, b: B], R>`.
pub open spec fn handler_signature(
    kind: HandlerKind,
    names: Seq<Seq<char>>,
    tys: Seq<Seq<char>>,
    ret: Seq<char>,
) -> Seq<char> {
    kind.spec_ts_name() + seq!['<', '['] + params_text(names, tys) + seq![']', ',', ' '] + ret
        + seq!['>']
}

/// Texts of the parameter names of a handler.
pub open spec fn names_of(names: Seq<&str>) -> Seq<Seq<char>> {
    names.map_values(|n: &str| n@)
}

/// Texts of a sequence of strings.
pub open spec fn texts_of(s: Seq<String>) -> Seq<Seq<char>> {
    s.map_values(|x: String| x@)
}

/// `key: value, ` for each entry, in order.
pub open spec fn handlers_text(s: Seq<(Seq<char>, Seq<char>)>) -> Seq<char>
    decreases s.len(),
{
    if s.len() == 0 {
        Seq::empty()
    } else {
        handlers_text(s.drop_last()) + s.last().0 + seq![':', ' '] + s.last().1 + seq![',', ' ']
    }
}

/// Entries with string values, seen as texts.
pub open spec fn text_entries(s: Seq<(Seq<char>, String)>) -> Seq<(Seq<char>, Seq<char>)> {
    s.map_values(|e: (Seq<char>, String)| (e.0, e.1@))
}

/// Inserting commutes with seeing values as texts.
pub proof fn lemma_text_entries_insert(s: Seq<(Seq<char>, String)>, k: Seq<char>, v: String)
    ensures
        text_entries(insert_sorted(s, k, v)) == insert_sorted(text_entries(s), k, v@),
    decreases s.len(),
{
    if s.len() > 0 && s[0].0 != k && !crate::text::text_lt(k, s[0].0) {
        lemma_text_entries_insert(s.drop_first(), k, v);
        assert(text_entries(s).drop_first() =~= text_entries(s.drop_first()));
    } else if s.len() > 0 {
        assert(text_entries(s).drop_first() =~= text_entries(s.drop_first()));
    }
    assert(text_entries(insert_sorted(s, k, v)) =~= insert_sorted(text_entries(s), k, v@));
}

/// TypeScript representation of a router, with everything required to generate its TypeScript
/// type at runtime.
pub struct TsRouter {
    /// Declarations of all user types that must be included, keyed by type id.
    pub(crate) user_types: IdMap<String>,
    /// Handler signatures, keyed by handler name.
    pub(crate) handlers: StrMap<String>,
    /// Nested routers, keyed by the prefix they are registered at, in increasing key order.
    pub(crate) nested: Vec<(String, TsRouter)>,
}

/// The TypeScript object type of a router: `{ ` then `prefix: <nested type>, ` for each nested
/// router and `name: <signature>, ` for each handler, each in key order, then `}`.
pub closed spec fn router_type_text(r: TsRouter) -> Seq<char> {
    type_text(r)
}

spec fn type_text(r: TsRouter) -> Seq<char>
    decreases r, r.nested@.len() + 1,
{
    seq!['{', ' '] + nested_text(r, r.nested@.len() as int) + handlers_text(
        text_entries(r.handlers.entries_view()),
    ) + seq!['}']
}

/// `prefix: <nested type>, ` for the first `n` nested routers of `r`.
spec fn nested_text(r: TsRouter, n: int) -> Seq<char>
    decreases r, n,
{
    if n <= 0 || n > r.nested@.len() {
        Seq::empty()
    } else {
        let e = r.nested@[n - 1];
        nested_text(r, n - 1) + e.0@ + seq![':', ' '] + type_text(e.1) + seq![',', ' ']
    }
}

/// Inserts every entry of `s`, in order, into the sorted entries `acc`.
pub open spec fn insert_all(acc: Seq<(u64, String)>, s: Seq<(u64, String)>) -> Seq<(u64, String)>
    decreases s.len(),
{
    if s.len() == 0 {
        acc
    } else {
        insert_all(insert_id_sorted(acc, s[0].0, s[0].1), s.drop_first())
    }
}

/// `acc` after copying in the user types of `r` and then, in key order, of its nested routers.
pub closed spec fn collect_types(r: TsRouter, acc: Seq<(u64, String)>) -> Seq<(u64, String)> {
    collect_all(r, acc)
}

spec fn collect_all(r: TsRouter, acc: Seq<(u64, String)>) -> Seq<(u64, String)>
    decreases r, r.nested@.len() + 1,
{
    collect_nested(
        r,
        r.nested@.len() as int,
        insert_all(acc, r.user_types.entries_view()),
    )
}

/// `acc` after collecting the user types of the first `n` nested routers of `r`.
spec fn collect_nested(r: TsRouter, n: int, acc: Seq<(u64, String)>) -> Seq<
    (u64, String),
>
    decreases r, n,
{
    if n <= 0 || n > r.nested@.len() {
        acc
    } else {
        collect_all(r.nested@[n - 1].1, collect_nested(r, n - 1, acc))
    }
}

/// `prefix: <nested type>, ` for each nested router of `s`, in order.
pub open spec fn nested_types_text(s: Seq<(Seq<char>, TsRouter)>) -> Seq<char>
    decreases s.len(),
{
    if s.len() == 0 {
        Seq::empty()
    } else {
        nested_types_text(s.drop_last()) + s.last().0 + seq![':', ' '] + router_type_text(
            s.last().1,
        ) + seq![',', ' ']
    }
}

/// `acc` after collecting the user types of each router of `s`, in order.
pub open spec fn collect_nested_types(s: Seq<(Seq<char>, TsRouter)>, acc: Seq<(u64, String)>) -> Seq<
    (u64, String),
>
    decreases s.len(),
{
    if s.len() == 0 {
        acc
    } else {
        collect_types(s.last().1, collect_nested_types(s.drop_last(), acc))
    }
}

proof fn lemma_nested_text(r: TsRouter, n: int)
    requires
        0 <= n <= r.nested@.len(),
    ensures
        nested_text(r, n) == nested_types_text(key_view(r.nested@).take(n)),
    decreases n,
{
    if n > 0 {
        lemma_nested_text(r, n - 1);
        assert(key_view(r.nested@).take(n).drop_last() =~= key_view(r.nested@).take(n - 1));
    }
}

proof fn lemma_collect_nested(r: TsRouter, n: int, acc: Seq<(u64, String)>)
    requires
        0 <= n <= r.nested@.len(),
    ensures
        collect_nested(r, n, acc) == collect_nested_types(key_view(r.nested@).take(n), acc),
    decreases n,
{
    if n > 0 {
        lemma_collect_nested(r, n - 1, acc);
        assert(key_view(r.nested@).take(n).drop_last() =~= key_view(r.nested@).take(n - 1));
    }
}

/// The type of a router is `{ `, the entry of each nested router and of each handler, then `}`.
pub proof fn lemma_router_type_text(r: TsRouter)
    ensures
        router_type_text(r) == seq!['{', ' '] + nested_types_text(r.spec_nested()) + handlers_text(
            r.spec_handlers(),
        ) + seq!['}'],
{
    lemma_nested_text(r, r.nested@.len() as int);
    assert(key_view(r.nested@).take(r.nested@.len() as int) =~= key_view(r.nested@));
}

/// Collecting the user types of a router copies in its own user types, then those of each nested
/// router in key order.
pub proof fn lemma_collect_types(r: TsRouter, acc: Seq<(u64, String)>)
    ensures
        collect_types(r, acc) == collect_nested_types(
            r.spec_nested(),
            insert_all(acc, r.spec_user_types()),
        ),
{
    lemma_collect_nested(r, r.nested@.len() as int, insert_all(acc, r.user_types.entries_view()));
    assert(key_view(r.nested@).take(r.nested@.len() as int) =~= key_view(r.nested@));
}

/// Each declaration followed by a line break, in order.
pub open spec fn declarations_text(s: Seq<(u64, String)>) -> Seq<char>
    decreases s.len(),
{
    if s.len() == 0 {
        Seq::empty()
    } else {
        declarations_text(s.drop_last()) + s.last().1@ + seq!['\n']
    }
}

impl TsRouter {
    /// The user type declarations of this router, keyed by type id.
    pub closed spec fn spec_user_types(&self) -> Seq<(u64, String)> {
        self.user_types.entries_view()
    }

    /// The handler signatures of this router, keyed by handler name.
    pub closed spec fn spec_handlers(&self) -> Seq<(Seq<char>, Seq<char>)> {
        text_entries(self.handlers.entries_view())
    }

    /// The nested routers, keyed by prefix.
    pub closed spec fn spec_nested(&self) -> Seq<(Seq<char>, TsRouter)> {
        key_view(self.nested@)
    }

    #[verifier::type_invariant]
    spec fn inv(&self) -> bool {
        sorted_keys(key_view(self.nested@))
    }

    /// A router without handlers, nested routers or user types.
    pub fn new() -> (r: Self)
        ensures
            r.spec_user_types() == Seq::<(u64, String)>::empty(),
            r.spec_handlers() == Seq::<(Seq<char>, Seq<char>)>::empty(),
            r.spec_nested() == Seq::<(Seq<char>, TsRouter)>::empty(),
    {
        let r = TsRouter { user_types: IdMap::new(), handlers: StrMap::new(), nested: Vec::new() };
        assert(r.spec_handlers() =~= Seq::<(Seq<char>, Seq<char>)>::empty());
        assert(r.spec_nested() =~= Seq::<(Seq<char>, TsRouter)>::empty());
        r
    }

    /// Nests `other` under `prefix`, replacing any router nested there.
    pub fn nest(&mut self, prefix: String, other: TsRouter)
        ensures
            final(self).spec_nested() == insert_sorted(old(self).spec_nested(), prefix@, other),
            final(self).spec_handlers() == old(self).spec_handlers(),
            final(self).spec_user_types() == old(self).spec_user_types(),
    {
        proof {
            use_type_invariant(&*self);
        }
        let mut nested: Vec<(String, TsRouter)> = Vec::new();
        std::mem::swap(&mut nested, &mut self.nested);
        raw_insert(&mut nested, prefix, other);
        self.nested = nested;
    }

    /// Writes the TypeScript object type of this router to `out`.
    pub fn write_router_type(&self, out: &mut String)
        ensures
            final(out)@ == old(out)@ + router_type_text(*self),
        decreases self,
    {
        proof {
            reveal_strlit("{ ");
            reveal_strlit(": ");
            reveal_strlit(", ");
            reveal_strlit("}");
            assert("{ "@ =~= seq!['{', ' ']);
            assert(": "@ =~= seq![':', ' ']);
            assert(", "@ =~= seq![',', ' ']);
            assert("}"@ =~= seq!['}']);
        }
        let ghost start = out@;
        push_text(out, "{ ");
        let mut i: usize = 0;
        while i < self.nested.len()
            invariant
                i <= self.nested@.len(),
                out@ == start + seq!['{', ' '] + nested_text(*self, i as int),
            decreases self.nested@.len() - i,
        {
            proof {
                reveal_strlit(": ");
                reveal_strlit(", ");
                assert(": "@ =~= seq![':', ' ']);
                assert(", "@ =~= seq![',', ' ']);
            }
            let (prefix, router) = (&self.nested[i].0, &self.nested[i].1);
            push_text(out, prefix.as_str());
            push_text(out, ": ");
            proof {
                assert(decreases_to!(*self => self.nested));
                assert(decreases_to!(self.nested => self.nested@));
                assert(decreases_to!(self.nested@ => self.nested@[i as int]));
                assert(decreases_to!(self.nested@[i as int] => self.nested@[i as int].1));
            }
            router.write_router_type(out);
            push_text(out, ", ");
            proof {
                assert(router_type_text(*router) == type_text(self.nested@[i as int].1));
                assert(nested_text(*self, i + 1) == nested_text(*self, i as int)
                    + self.nested@[i as int].0@ + seq![':', ' '] + type_text(
                    self.nested@[i as int].1,
                ) + seq![',', ' ']);
                assert(out@ =~= start + seq!['{', ' '] + nested_text(*self, i + 1));
            }
            i = i + 1;
        }
        let mut j: usize = 0;
        let ghost hs = text_entries(self.handlers.entries_view());
        while j < self.handlers.len()
            invariant
                j <= hs.len(),
                hs == text_entries(self.handlers.entries_view()),
                hs.len() == self.handlers.entries_view().len(),
                out@ == start + seq!['{', ' '] + nested_text(*self, self.nested@.len() as int)
                    + handlers_text(hs.take(j as int)),
            decreases hs.len() - j,
        {
            proof {
                reveal_strlit(": ");
                reveal_strlit(", ");
                assert(": "@ =~= seq![':', ' ']);
                assert(", "@ =~= seq![',', ' ']);
            }
            let (key, handler) = self.handlers.entry_at(j);
            push_text(out, key.as_str());
            push_text(out, ": ");
            push_text(out, handler.as_str());
            push_text(out, ", ");
            proof {
                assert(hs[j as int] == (key@, handler@));
                assert(hs.take(j + 1).last() == hs[j as int]);
                assert(hs.take(j + 1).drop_last() =~= hs.take(j as int));
                assert(out@ =~= start + seq!['{', ' '] + nested_text(
                    *self,
                    self.nested@.len() as int,
                ) + handlers_text(hs.take(j + 1)));
            }
            j = j + 1;
        }
        push_text(out, "}");
        proof {
            assert(hs.take(j as int) =~= hs);
            assert(router_type_text(*self) == type_text(*self));
            assert(out@ =~= start + router_type_text(*self));
        }
    }

    /// Copies the user type declarations of this router and, in key order, of its nested
    /// routers into `user_types` (later copies replace earlier ones of the same type id).
    pub fn copy_user_types(&self, user_types: &mut IdMap<String>)
        ensures
            final(user_types).entries_view() == collect_types(*self, old(user_types).entries_view()),
        decreases self,
    {
        let mut i: usize = 0;
        let ghost start = user_types.entries_view();
        while i < self.user_types.len()
            invariant
                i <= self.user_types.entries_view().len(),
                user_types.entries_view() == insert_all(start, self.user_types.entries_view().take(i as int)),
            decreases self.user_types.entries_view().len() - i,
        {
            let (id, decl) = self.user_types.entry_at(i);
            user_types.insert(id, decl.clone());
            proof {
                lemma_insert_all_push(start, self.user_types.entries_view().take(i as int), (id, *decl));
                assert(self.user_types.entries_view().take(i + 1) =~= self.user_types.entries_view().take(i as int).push(self.user_types.entries_view()[i as int]));
            }
            i = i + 1;
        }
        proof {
            assert(self.user_types.entries_view().take(i as int) =~= self.user_types.entries_view());
        }
        let ghost own = user_types.entries_view();
        let mut k: usize = 0;
        while k < self.nested.len()
            invariant
                k <= self.nested@.len(),
                user_types.entries_view() == collect_nested(*self, k as int, own),
            decreases self.nested@.len() - k,
        {
            proof {
                assert(decreases_to!(*self => self.nested));
                assert(decreases_to!(self.nested => self.nested@));
                assert(decreases_to!(self.nested@ => self.nested@[k as int]));
                assert(decreases_to!(self.nested@[k as int] => self.nested@[k as int].1));
            }
            self.nested[k].1.copy_user_types(user_types);
            k = k + 1;
        }
    }

    /// The whole TypeScript for this router: every user type declaration (collected from this
    /// router and all nested routers, in order of type id), each on its own line, then
    /// `export type QubitServer = <router type>;` and a line break.
    pub fn generate_typescript(&self) -> (r: String)
        ensures
            r@ == declarations_text(collect_types(*self, Seq::empty())) + seq![
                'e',
                'x',
                'p',
                'o',
                'r',
                't',
                ' ',
                't',
                'y',
                'p',
                'e',
                ' ',
                'Q',
                'u',
                'b',
                'i',
                't',
                'S',
                'e',
                'r',
                'v',
                'e',
                'r',
                ' ',
                '=',
                ' ',
            ] + router_type_text(*self) + seq![';', '\n'],
    {
        let mut user_types: IdMap<String> = IdMap::new();
        self.copy_user_types(&mut user_types);
        let mut out = String::new();
        let mut i: usize = 0;
        let ghost all = user_types.entries_view();
        proof {
            reveal_strlit("\n");
            reveal_strlit("export type QubitServer = ");
            reveal_strlit(";\n");
            assert("\n"@ =~= seq!['\n']);
        }
        while i < user_types.len()
            invariant
                i <= all.len(),
                all == user_types.entries_view(),
                out@ == declarations_text(all.take(i as int)),
            decreases all.len() - i,
        {
            proof {
                reveal_strlit("\n");
                assert("\n"@ =~= seq!['\n']);
            }
            let (_, decl) = user_types.entry_at(i);
            push_text(&mut out, decl.as_str());
            push_text(&mut out, "\n");
            proof {
                assert(all.take(i + 1).drop_last() =~= all.take(i as int));
                assert(all.take(i + 1).last() == all[i as int]);
            }
            i = i + 1;
        }
        proof {
            assert(all.take(i as int) =~= all);
        }
        push_text(&mut out, "export type QubitServer = ");
        self.write_router_type(&mut out);
        push_text(&mut out, ";\n");
        out
    }

    /// Registers a handler: its signature is stored under its name (replacing any handler of
    /// that name), and the declarations of the user types it mentions, keyed by type id, are
    /// added in order. The parameter type names and the return type name are those of the
    /// handler's parameter and response types.
    pub fn add_handler(
        &mut self,
        meta: &HandlerMeta,
        param_types: &Vec<String>,
        return_type: &str,
        user_types: Vec<(u64, String)>,
    )
        requires
            param_types@.len() == meta.param_names@.len(),
        ensures
            final(self).spec_handlers() == insert_sorted(
                old(self).spec_handlers(),
                meta.name@,
                handler_signature(
                    meta.kind,
                    names_of(meta.param_names@),
                    texts_of(param_types@),
                    return_type@,
                ),
            ),
            final(self).spec_user_types() == insert_all(old(self).spec_user_types(), user_types@),
            final(self).spec_nested() == old(self).spec_nested(),
    {
        proof {
            use_type_invariant(&*self);
        }
        let sig = signature_of(meta, param_types, return_type);
        let ghost old_h = self.handlers.entries_view();
        let name = crate::text::owned(meta.name);
        proof {
            lemma_text_entries_insert(old_h, name@, sig);
        }
        let mut handlers: StrMap<String> = StrMap::new();
        std::mem::swap(&mut handlers, &mut self.handlers);
        handlers.insert(name, sig);
        self.handlers = handlers;
        let mut types: IdMap<String> = IdMap::new();
        std::mem::swap(&mut types, &mut self.user_types);
        let mut i: usize = 0;
        let ghost start = types.entries_view();
        while i < user_types.len()
            invariant
                i <= user_types@.len(),
                types.entries_view() == insert_all(start, user_types@.take(i as int)),
            decreases user_types@.len() - i,
        {
            let (id, decl) = (user_types[i].0, user_types[i].1.clone());
            types.insert(id, decl);
            proof {
                lemma_insert_all_push(start, user_types@.take(i as int), (id, decl));
                assert(user_types@.take(i + 1) =~= user_types@.take(i as int).push(user_types@[i as int]));
            }
            i = i + 1;
        }
        proof {
            assert(user_types@.take(i as int) =~= user_types@);
        }
        self.user_types = types;
    }
}


/// Walks the types a handler mentions: each type is visited once, and the declarations of user
/// types are kept by type id.
pub struct TypeCapturer {
    types: IdMap<String>,
    visited: Vec<u64>,
}

impl TypeCapturer {
    /// The captured declarations, by type id.
    pub closed spec fn spec_types(&self) -> Seq<(u64, String)> {
        self.types.entries_view()
    }

    /// The ids of the types visited so far.
    pub closed spec fn spec_visited(&self) -> Seq<u64> {
        self.visited@
    }

    /// A capturer that has visited nothing.
    pub fn new() -> (r: Self)
        ensures
            r.spec_types() == Seq::<(u64, String)>::empty(),
            r.spec_visited() == Seq::<u64>::empty(),
    {
        TypeCapturer { types: IdMap::new(), visited: Vec::new() }
    }

    /// Visits the type `type_id`; `declaration` is its declaration if it is a user type. Returns
    /// whether the type was new, in which case its dependencies and generics are to be visited
    /// next; a type already visited is left alone.
    pub fn visit(&mut self, type_id: u64, declaration: Option<String>) -> (r: bool)
        ensures
            r == !old(self).spec_visited().contains(type_id),
            r ==> final(self).spec_visited() == old(self).spec_visited().push(type_id),
            r ==> final(self).spec_types() == match declaration {
                Some(d) => insert_id_sorted(old(self).spec_types(), type_id, d),
                None => old(self).spec_types(),
            },
            !r ==> final(self).spec_visited() == old(self).spec_visited(),
            !r ==> final(self).spec_types() == old(self).spec_types(),
    {
        let mut i: usize = 0;
        while i < self.visited.len()
            invariant
                i <= self.visited@.len(),
                forall|j: int| 0 <= j < i ==> self.visited@[j] != type_id,
            decreases self.visited@.len() - i,
        {
            if self.visited[i] == type_id {
                return false;
            }
            i = i + 1;
        }
        self.visited.push(type_id);
        match declaration {
            Some(d) => self.types.insert(type_id, d),
            None => {},
        }
        true
    }

    /// The captured declarations, in order of type id.
    pub fn into_user_types(self) -> (r: Vec<(u64, String)>)
        ensures
            r@ == self.spec_types(),
    {
        let mut out: Vec<(u64, String)> = Vec::new();
        let mut i: usize = 0;
        while i < self.types.len()
            invariant
                i <= self.types.entries_view().len(),
                out@ == self.types.entries_view().take(i as int),
            decreases self.types.entries_view().len() - i,
        {
            let (id, d) = self.types.entry_at(i);
            out.push((id, d.clone()));
            proof {
                assert(self.types.entries_view().take(i + 1) =~= self.types.entries_view().take(i as int).push(self.types.entries_view()[i as int]));
            }
            i = i + 1;
        }
        proof {
            assert(self.types.entries_view().take(i as int) =~= self.types.entries_view());
        }
        out
    }
}

/// Inserting one more entry at the end of the inserted sequence.
pub proof fn lemma_insert_all_push(acc: Seq<(u64, String)>, s: Seq<(u64, String)>, e: (u64, String))
    ensures
        insert_all(acc, s.push(e)) == insert_id_sorted(insert_all(acc, s), e.0, e.1),
    decreases s.len(),
{
    if s.len() == 0 {
        assert(s.push(e).drop_first() =~= Seq::<(u64, String)>::empty());
        assert(s.push(e)[0] == e);
        assert(insert_all(insert_id_sorted(acc, e.0, e.1), Seq::<(u64, String)>::empty())
            == insert_id_sorted(acc, e.0, e.1));
    } else {
        lemma_insert_all_push(insert_id_sorted(acc, s[0].0, s[0].1), s.drop_first(), e);
        assert(s.push(e).drop_first() =~= s.drop_first().push(e));
        assert(s.push(e)[0] == s[0]);
    }
}

/// The parameters of a handler, `name: type`, separated by `, `.
pub fn params_string(names: &[&str], tys: &Vec<String>) -> (r: String)
    requires
        names@.len() == tys@.len(),
    ensures
        r@ == params_text(names_of(names@), texts_of(tys@)),
{
    let ghost parts = Seq::new(
        names@.len(),
        |i: int| param_text(names_of(names@)[i], texts_of(tys@)[i]),
    );
    let mut r = String::new();
    let mut i: usize = 0;
    proof {
        reveal_strlit(": ");
        reveal_strlit(", ");
        assert(": "@ =~= seq![':', ' ']);
        assert(", "@ =~= seq![',', ' ']);
    }
    while i < names.len()
        invariant
            i <= names@.len(),
            names@.len() == tys@.len(),
            parts == Seq::new(
                names@.len(),
                |i: int| param_text(names_of(names@)[i], texts_of(tys@)[i]),
            ),
            r@ == join_with(parts.take(i as int), seq![',', ' ']),
        decreases names@.len() - i,
    {
        proof {
            reveal_strlit(": ");
            reveal_strlit(", ");
            assert(": "@ =~= seq![':', ' ']);
            assert(", "@ =~= seq![',', ' ']);
        }
        let ghost before = r@;
        if i > 0 {
            push_text(&mut r, ", ");
        }
        push_text(&mut r, names[i]);
        push_text(&mut r, ": ");
        push_text(&mut r, tys[i].as_str());
        proof {
            let t = parts.take(i + 1);
            assert(t.drop_last() =~= parts.take(i as int));
            assert(parts[i as int] == names@[i as int]@ + seq![':', ' '] + tys@[i as int]@);
            if i == 0 {
                assert(r@ =~= t[0]);
            } else {
                assert(r@ =~= before + seq![',', ' '] + t.last());
            }
        }
        i = i + 1;
    }
    proof {
        assert(parts.take(i as int) =~= parts);
    }
    r
}

/// The signature `Kind<[a: A, b: B], R>` of a handler.
fn signature_of(meta: &HandlerMeta, param_types: &Vec<String>, return_type: &str) -> (r: String)
    requires
        param_types@.len() == meta.param_names@.len(),
    ensures
        r@ == handler_signature(
            meta.kind,
            names_of(meta.param_names@),
            texts_of(param_types@),
            return_type@,
        ),
{
    let params = params_string(meta.param_names, param_types);
    let mut r = String::new();
    proof {
        reveal_strlit("<[");
        reveal_strlit("], ");
        reveal_strlit(">");
    }
    push_text(&mut r, meta.kind.ts_name());
    push_text(&mut r, "<[");
    push_text(&mut r, params.as_str());
    push_text(&mut r, "], ");
    push_text(&mut r, return_type);
    push_text(&mut r, ">");
    r
}

} // verus!
