//! A TypeScript backend that collects handlers and user types, and writes them out.
use vstd::prelude::*;

use crate::reflection::handler::HandlerKind;
use crate::reflection::ty::{declaration_shape_ok, parse_declaration, split_declaration};
use crate::text::{has_infix, lemma_contains_concat, lemma_infix_around, lines_of, push_text, text_lines};

verus! {

/// Name of the Qubit NPM package.
pub const QUBIT_PACKAGE: &'static str = "@qubit-rs/client";

/// A user type: its name (with any generic parameters) and its definition.
#[derive(Clone, Debug)]
pub struct TsType {
    name: String,
    definition: String,
}

impl TsType {
    /// The name of the type.
    pub closed spec fn spec_name(&self) -> Seq<char> {
        self.name@
    }

    /// The definition of the type.
    pub closed spec fn spec_definition(&self) -> Seq<char> {
        self.definition@
    }

    /// The type declared by `declaration` (`type <name> = <definition>;`), which is the only
    /// form that keeps the generic parameters of a type.
    pub fn from(declaration: &str) -> (r: Self)
        requires
            declaration_shape_ok(declaration@),
        ensures
            (r.spec_name(), r.spec_definition()) == parse_declaration(declaration@),
    {
        let (name, definition) = split_declaration(declaration);
        TsType { name, definition }
    }
}

/// A handler: its kind, name, parameters (name and TypeScript type) and return type.
#[derive(Clone, Debug)]
pub struct TsHandler {
    /// Kind of the handler.
    pub kind: HandlerKind,
    /// Name of the handler.
    pub name: &'static str,
    /// Parameter names with their TypeScript types.
    pub params: Vec<(&'static str, String)>,
    /// TypeScript return type.
    pub return_ty: String,
}

/// Collects the handlers and user types of a router.
pub struct TsBackend {
    handlers: Vec<TsHandler>,
    types: Vec<TsType>,
}

/// `export type <name> = <definition>;` and a line feed, for each type in order.
pub open spec fn types_text(types: Seq<TsType>) -> Seq<char>
    decreases types.len(),
{
    if types.len() == 0 {
        Seq::empty()
    } else {
        types_text(types.drop_last()) + "export type "@ + types.last().spec_name() + " = "@
            + types.last().spec_definition() + ";"@ + "\n"@
    }
}

/// Whether some handler is of the given kind.
pub open spec fn uses_kind(handlers: Seq<TsHandler>, kind: HandlerKind) -> bool {
    exists|i: int| 0 <= i < handlers.len() && handlers[i].kind == kind
}

/// The import of the handler kinds that are used: `import { Query, Mutation, Subscription, }
/// from "@qubit-rs/client";` with only the kinds in use, in that order.
pub open spec fn imports_text(handlers: Seq<TsHandler>) -> Seq<char> {
    "import { "@ + (if uses_kind(handlers, HandlerKind::Query) {
        "Query, "@
    } else {
        Seq::empty()
    }) + (if uses_kind(handlers, HandlerKind::Mutation) {
        "Mutation, "@
    } else {
        Seq::empty()
    }) + (if uses_kind(handlers, HandlerKind::Subscription) {
        "Subscription, "@
    } else {
        Seq::empty()
    }) + "} from \""@ + QUBIT_PACKAGE@ + "\";"@ + "\n"@
}

/// The import line names exactly the handler kinds in use: it opens with `import { `; for each
/// kind some handler has, the kind's name followed by `, ` appears in it; and for each kind no
/// handler has, not even the first letter of its name appears in it.
pub proof fn law_imports_name_used_kinds(handlers: Seq<TsHandler>, k: HandlerKind)
    ensures
        imports_text(handlers).take(9) == "import { "@,
        uses_kind(handlers, k) ==> has_infix(imports_text(handlers), k.spec_ts_name() + seq![',', ' ']),
        !uses_kind(handlers, k) ==> !imports_text(handlers).contains(k.spec_ts_name()[0]),
{
    reveal_strlit("import { ");
    reveal_strlit("Query, ");
    reveal_strlit("Mutation, ");
    reveal_strlit("Subscription, ");
    reveal_strlit("} from \"");
    reveal_strlit("@qubit-rs/client");
    reveal_strlit("\";");
    reveal_strlit("\n");
    let p = "import { "@;
    let q = if uses_kind(handlers, HandlerKind::Query) {
        "Query, "@
    } else {
        Seq::empty()
    };
    let m = if uses_kind(handlers, HandlerKind::Mutation) {
        "Mutation, "@
    } else {
        Seq::empty()
    };
    let sb = if uses_kind(handlers, HandlerKind::Subscription) {
        "Subscription, "@
    } else {
        Seq::empty()
    };
    let t = "} from \""@ + QUBIT_PACKAGE@ + "\";"@ + "\n"@;
    let whole = imports_text(handlers);
    assert(whole =~= p + q + m + sb + t);
    assert(whole.take(9) =~= p);
    let c = k.spec_ts_name()[0];
    if uses_kind(handlers, k) {
        match k {
            HandlerKind::Query => {
                assert(q =~= k.spec_ts_name() + seq![',', ' ']);
                assert(has_infix(q, q)) by {
                    assert(q.subrange(0, 0int + q.len()) =~= q);
                }
                lemma_infix_around(p, q, m + sb + t, q);
                assert(whole =~= p + q + (m + sb + t));
            },
            HandlerKind::Mutation => {
                assert(m =~= k.spec_ts_name() + seq![',', ' ']);
                assert(has_infix(m, m)) by {
                    assert(m.subrange(0, 0int + m.len()) =~= m);
                }
                lemma_infix_around(p + q, m, sb + t, m);
                assert(whole =~= (p + q) + m + (sb + t));
            },
            HandlerKind::Subscription => {
                assert(sb =~= k.spec_ts_name() + seq![',', ' ']);
                assert(has_infix(sb, sb)) by {
                    assert(sb.subrange(0, 0int + sb.len()) =~= sb);
                }
                lemma_infix_around(p + q + m, sb, t, sb);
            },
        }
    } else {
        assert(!p.contains(c));
        assert(!"} from \""@.contains(c));
        assert(!"@qubit-rs/client"@.contains(c));
        assert(!"\";"@.contains(c));
        assert(!"\n"@.contains(c));
        assert(!q.contains(c));
        assert(!m.contains(c));
        assert(!sb.contains(c));
        lemma_contains_concat("} from \""@, QUBIT_PACKAGE@, c);
        lemma_contains_concat("} from \""@ + QUBIT_PACKAGE@, "\";"@, c);
        lemma_contains_concat("} from \""@ + QUBIT_PACKAGE@ + "\";"@, "\n"@, c);
        lemma_contains_concat(p, q, c);
        lemma_contains_concat(p + q, m, c);
        lemma_contains_concat(p + q + m, sb, c);
        lemma_contains_concat(p + q + m + sb, t, c);
    }
}

impl TsBackend {
    /// The registered handlers.
    pub closed spec fn spec_handlers(&self) -> Seq<TsHandler> {
        self.handlers@
    }

    /// The registered user types.
    pub closed spec fn spec_types(&self) -> Seq<TsType> {
        self.types@
    }

    /// A backend without handlers or types.
    pub fn new() -> (r: Self)
        ensures
            r.spec_handlers() == Seq::<TsHandler>::empty(),
            r.spec_types() == Seq::<TsType>::empty(),
    {
        TsBackend { handlers: Vec::new(), types: Vec::new() }
    }

    /// Registers a user type.
    pub fn register_type(&mut self, ty: TsType)
        ensures
            final(self).spec_types() == old(self).spec_types().push(ty),
            final(self).spec_handlers() == old(self).spec_handlers(),
    {
        self.types.push(ty);
    }

    /// Registers a handler.
    pub fn register_handler(&mut self, handler: TsHandler)
        ensures
            final(self).spec_handlers() == old(self).spec_handlers().push(handler),
            final(self).spec_types() == old(self).spec_types(),
    {
        self.handlers.push(handler);
    }

    /// Writes every registered user type, each exported.
    pub fn write_types(&self, writer: &mut String)
        ensures
            final(writer)@ == old(writer)@ + types_text(self.spec_types()),
    {
        let ghost start = writer@;
        let mut i: usize = 0;
        while i < self.types.len()
            invariant
                i <= self.types@.len(),
                writer@ == start + types_text(self.types@.take(i as int)),
            decreases self.types@.len() - i,
        {
            let ty = &self.types[i];
            push_text(writer, "export type ");
            push_text(writer, ty.name.as_str());
            push_text(writer, " = ");
            push_text(writer, ty.definition.as_str());
            push_text(writer, ";");
            push_text(writer, "\n");
            proof {
                let t = self.types@.take(i + 1);
                assert(t.drop_last() =~= self.types@.take(i as int));
                assert(writer@ =~= start + types_text(t));
            }
            i = i + 1;
        }
        proof {
            assert(self.types@.take(i as int) =~= self.types@);
        }
    }

    /// Writes the router type (nothing yet).
    pub fn write_router_type(&self, writer: &mut String)
        ensures
            final(writer)@ == old(writer)@,
    {
    }

    /// Writes the import of the Qubit handler kinds that the registered handlers use.
    pub fn write_qubit_imports(&self, writer: &mut String)
        ensures
            final(writer)@ == old(writer)@ + imports_text(self.spec_handlers()),
    {
        let mut query = false;
        let mut mutation = false;
        let mut subscription = false;
        let mut i: usize = 0;
        while i < self.handlers.len() && !(query && mutation && subscription)
            invariant
                i <= self.handlers@.len(),
                query == uses_kind(self.handlers@.take(i as int), HandlerKind::Query),
                mutation == uses_kind(self.handlers@.take(i as int), HandlerKind::Mutation),
                subscription == uses_kind(self.handlers@.take(i as int), HandlerKind::Subscription),
            decreases self.handlers@.len() - i,
        {
            match self.handlers[i].kind {
                HandlerKind::Query => query = true,
                HandlerKind::Mutation => mutation = true,
                HandlerKind::Subscription => subscription = true,
            }
            proof {
                let t = self.handlers@.take(i + 1);
                assert forall|k: HandlerKind| uses_kind(t, k) == (uses_kind(
                    self.handlers@.take(i as int),
                    k,
                ) || self.handlers@[i as int].kind == k) by {
                    if uses_kind(t, k) {
                        let j = choose|j: int| 0 <= j < t.len() && t[j].kind == k;
                        if j < i {
                            assert(self.handlers@.take(i as int)[j] == t[j]);
                        }
                    }
                    if uses_kind(self.handlers@.take(i as int), k) {
                        let j = choose|j: int|
                            0 <= j < i && self.handlers@.take(i as int)[j].kind == k;
                        assert(t[j] == self.handlers@.take(i as int)[j]);
                    }
                    if self.handlers@[i as int].kind == k {
                        assert(t[i as int] == self.handlers@[i as int]);
                    }
                }
            }
            i = i + 1;
        }
        proof {
            assert forall|k: HandlerKind| #[trigger] uses_kind(self.handlers@, k) ==> uses_kind(
                self.handlers@.take(i as int),
                k,
            ) by {
                if uses_kind(self.handlers@, k) && i < self.handlers@.len() {
                    assert(uses_kind(self.handlers@.take(i as int), HandlerKind::Query));
                    assert(uses_kind(self.handlers@.take(i as int), HandlerKind::Mutation));
                    assert(uses_kind(self.handlers@.take(i as int), HandlerKind::Subscription));
                }
                if uses_kind(self.handlers@, k) && i == self.handlers@.len() {
                    assert(self.handlers@.take(i as int) =~= self.handlers@);
                }
            }
            assert forall|k: HandlerKind| #[trigger] uses_kind(self.handlers@.take(i as int), k)
                ==> uses_kind(self.handlers@, k) by {
                if uses_kind(self.handlers@.take(i as int), k) {
                    let j = choose|j: int| 0 <= j < i && self.handlers@.take(i as int)[j].kind == k;
                    assert(self.handlers@[j] == self.handlers@.take(i as int)[j]);
                }
            }
        }
        let ghost start = writer@;
        push_text(writer, "import { ");
        if query {
            push_text(writer, "Query, ");
        }
        if mutation {
            push_text(writer, "Mutation, ");
        }
        if subscription {
            push_text(writer, "Subscription, ");
        }
        push_text(writer, "} from \"");
        push_text(writer, QUBIT_PACKAGE);
        push_text(writer, "\";");
        push_text(writer, "\n");
        proof {
            assert(writer@ =~= start + imports_text(self.spec_handlers()));
        }
    }
}

/// ` * <line>` for each line, in order (lines are not separated).
pub open spec fn comment_lines_text(lines: Seq<Seq<char>>) -> Seq<char>
    decreases lines.len(),
{
    if lines.len() == 0 {
        Seq::empty()
    } else {
        comment_lines_text(lines.drop_last()) + " * "@ + lines.last()
    }
}

/// Writes `content` in a comment block: `/*` and a line feed, ` * <line>` for each line of
/// `content`, then ` */` and a line feed.
pub fn write_comment_block(writer: &mut String, content: &str)
    ensures
        final(writer)@ == old(writer)@ + "/*"@ + "\n"@ + comment_lines_text(lines_of(content@))
            + " */"@ + "\n"@,
{
    let ghost start = writer@;
    push_text(writer, "/*");
    push_text(writer, "\n");
    let lines = text_lines(content);
    let ghost ls = lines_of(content@);
    let mut i: usize = 0;
    while i < lines.len()
        invariant
            i <= lines@.len(),
            lines@.len() == ls.len(),
            forall|k: int| 0 <= k < lines@.len() ==> (#[trigger] lines@[k])@ == ls[k],
            writer@ == start + "/*"@ + "\n"@ + comment_lines_text(ls.take(i as int)),
        decreases lines@.len() - i,
    {
        push_text(writer, " * ");
        push_text(writer, lines[i].as_str());
        proof {
            let t = ls.take(i + 1);
            assert(t.drop_last() =~= ls.take(i as int));
            assert(writer@ =~= start + "/*"@ + "\n"@ + comment_lines_text(t));
        }
        i = i + 1;
    }
    proof {
        assert(ls.take(i as int) =~= ls);
    }
    push_text(writer, " */");
    push_text(writer, "\n");
    proof {
        assert(writer@ =~= start + "/*"@ + "\n"@ + comment_lines_text(ls) + " */"@ + "\n"@);
    }
}

} // verus!
