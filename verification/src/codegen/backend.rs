//! Code generation backends: what is written for each part of the generated file.
use vstd::prelude::*;

use crate::codegen::{params_string_of, Codegen, HandlerCodegen, QUBIT_HEADER};
use crate::reflection::handler::HandlerKind;
use crate::reflection::ty::{law_parse_render_type, parse_type_name, CodegenType};
use crate::text::{has_infix, lemma_infix_around, push_text, trimmed};
use crate::ts_router::params_text;

verus! {

/// Backend implementation for handlers.
pub trait HandlerBackend {
    /// Text written at the start of the handler stage.
    spec fn handlers_begin_text(&self) -> Seq<char>;

    /// Text written at the end of the handler stage.
    spec fn handlers_end_text(&self) -> Seq<char>;

    /// Text written for a key.
    spec fn key_text(&self, key: Seq<char>) -> Seq<char>;

    /// Text written for a handler.
    spec fn handler_text(&self, handler: HandlerCodegen) -> Seq<char>;

    /// Text written when a nesting begins (`root` for the outermost one).
    spec fn nested_begin_text(&self, root: bool) -> Seq<char>;

    /// Text written when a nesting ends (`root` for the outermost one).
    spec fn nested_end_text(&self, root: bool) -> Seq<char>;

    /// Hook called at the start of this stage.
    fn begin(&self, writer: &mut String)
        ensures
            final(writer)@ == old(writer)@ + self.handlers_begin_text(),
    ;

    /// Hook called at the end of this stage.
    fn end(&self, writer: &mut String)
        ensures
            final(writer)@ == old(writer)@ + self.handlers_end_text(),
    ;

    /// Write the provided key.
    fn write_key(&self, key: &str, writer: &mut String)
        ensures
            final(writer)@ == old(writer)@ + self.key_text(key@),
    ;

    /// Write the provided handler.
    fn write_handler(&self, handler: &HandlerCodegen, writer: &mut String)
        ensures
            final(writer)@ == old(writer)@ + self.handler_text(*handler),
    ;

    /// Begin a nested handler. If `root` is `true`, then this is the first nesting.
    fn begin_nested(&self, root: bool, writer: &mut String)
        ensures
            final(writer)@ == old(writer)@ + self.nested_begin_text(root),
    ;

    /// End a nested handler. If `root` is `true`, then this is the first nesting.
    fn end_nested(&self, root: bool, writer: &mut String)
        ensures
            final(writer)@ == old(writer)@ + self.nested_end_text(root),
    ;
}

/// Backend implementation for types.
pub trait TypeBackend {
    /// Text written at the start of the type stage.
    spec fn types_begin_text(&self) -> Seq<char>;

    /// Text written at the end of the type stage.
    spec fn types_end_text(&self) -> Seq<char>;

    /// Text written for a type and its definition.
    spec fn type_text(&self, name: CodegenType, definition: Seq<char>) -> Seq<char>;

    /// Hook called at the start of this stage.
    fn begin(&self, writer: &mut String)
        ensures
            final(writer)@ == old(writer)@ + self.types_begin_text(),
    ;

    /// Hook called at the end of this stage.
    fn end(&self, writer: &mut String)
        ensures
            final(writer)@ == old(writer)@ + self.types_end_text(),
    ;

    /// Write the provided type.
    fn write_type(&self, name: &CodegenType, definition: &str, writer: &mut String)
        ensures
            final(writer)@ == old(writer)@ + self.type_text(*name, definition@),
    ;
}

/// Available codegen backend stages.
#[derive(Clone, Copy, Debug, PartialEq, Eq, Structural)]
pub enum BackendStage {
    /// Corresponds to [`HandlerBackend`].
    Handler,
    /// Corresponds to [`TypeBackend`].
    Type,
}

/// Code generation backend implementation: handles both handlers and types.
pub trait Backend: HandlerBackend + TypeBackend {
    /// Text written at the beginning of code generation.
    spec fn begin_text(&self) -> Seq<char>;

    /// Text written at the end of code generation.
    spec fn end_text(&self) -> Seq<char>;

    /// The code generation stages, in order. Depending on the ordering of the stages, handlers
    /// or types are written first.
    spec fn spec_stages(&self) -> Seq<BackendStage>;

    /// The code generation stages, in order.
    fn stages(&self) -> (r: Vec<BackendStage>)
        ensures
            r@ == self.spec_stages(),
    ;

    /// Hook called at the beginning of code generation.
    fn begin(&self, writer: &mut String)
        ensures
            final(writer)@ == old(writer)@ + self.begin_text(),
    ;

    /// Hook called at the end of code generation.
    fn end(&self, writer: &mut String)
        ensures
            final(writer)@ == old(writer)@ + self.end_text(),
    ;
}

/// The lines that start a generated TypeScript file: lint suppression, the header in a comment
/// block, and the client imports.
pub open spec fn preamble_text() -> Seq<char> {
    "/* eslint-disable */\n"@ + "// @ts-nocheck\n"@ + "/*\n"@ + QUBIT_HEADER@ + "\n"@ + "*/\n"@
        + "import { Query, Mutation, Subscription } from \"@qubit-rs/client\";"@ + "\n"@
}

/// Writes [`preamble_text`].
fn write_preamble(writer: &mut String)
    ensures
        final(writer)@ == old(writer)@ + preamble_text(),
{
    let ghost start = writer@;
    push_text(writer, "/* eslint-disable */\n");
    push_text(writer, "// @ts-nocheck\n");
    push_text(writer, "/*\n");
    push_text(writer, QUBIT_HEADER);
    push_text(writer, "\n");
    push_text(writer, "*/\n");
    push_text(writer, "import { Query, Mutation, Subscription } from \"@qubit-rs/client\";");
    push_text(writer, "\n");
    proof {
        assert(writer@ =~= start + preamble_text());
    }
}

/// The TypeScript signature of a handler: `Kind<[a: A, b: B], R>, `.
pub open spec fn ts_handler_text(handler: HandlerCodegen) -> Seq<char> {
    handler.spec_kind().spec_ts_name() + "<["@ + params_text(
        handler.param_names(),
        handler.param_types(),
    ) + "], "@ + handler.spec_return_ty().spec_text() + ">, "@
}

/// Writes [`ts_handler_text`].
fn write_ts_handler(handler: &HandlerCodegen, writer: &mut String)
    ensures
        final(writer)@ == old(writer)@ + ts_handler_text(*handler),
{
    let ghost start = writer@;
    push_text(writer, handler.kind().ts_name());
    push_text(writer, "<[");
    let params = params_string_of(handler.params());
    push_text(writer, params.as_str());
    push_text(writer, "], ");
    let ret = handler.return_ty().to_string();
    push_text(writer, ret.as_str());
    push_text(writer, ">, ");
    proof {
        assert(writer@ =~= start + ts_handler_text(*handler));
    }
}

/// TypeScript backend: writes the router as a named TypeScript type, after the declarations of
/// the types it depends on.
pub struct TypeScript {
    include_preamble: bool,
    router_name: String,
}

impl TypeScript {
    /// Whether the preamble is written.
    pub closed spec fn spec_include_preamble(&self) -> bool {
        self.include_preamble
    }

    /// The name of the generated router type.
    pub closed spec fn spec_router_name(&self) -> Seq<char> {
        self.router_name@
    }

    /// A backend that writes the preamble and names the router type `QubitServer`.
    pub fn new() -> (r: Self)
        ensures
            r.spec_include_preamble(),
            r.spec_router_name() == "QubitServer"@,
    {
        TypeScript { include_preamble: true, router_name: crate::text::owned("QubitServer") }
    }

    /// The same backend, naming the router type `router_name`.
    pub fn with_router_name(self, router_name: String) -> (r: Self)
        ensures
            r.spec_include_preamble() == self.spec_include_preamble(),
            r.spec_router_name() == router_name@,
    {
        let mut s = self;
        s.router_name = router_name;
        s
    }

    /// The same backend, without the preamble.
    pub fn without_preamble(self) -> (r: Self)
        ensures
            !r.spec_include_preamble(),
            r.spec_router_name() == self.spec_router_name(),
    {
        let mut s = self;
        s.include_preamble = false;
        s
    }

    /// The same as [`TypeScript::new`].
    pub fn default() -> (r: Self)
        ensures
            r.spec_include_preamble(),
            r.spec_router_name() == "QubitServer"@,
    {
        Self::new()
    }
}

impl HandlerBackend for TypeScript {
    open spec fn handlers_begin_text(&self) -> Seq<char> {
        "export type "@ + self.spec_router_name() + " = "@
    }

    open spec fn handlers_end_text(&self) -> Seq<char> {
        ";"@ + "\n"@
    }

    open spec fn key_text(&self, key: Seq<char>) -> Seq<char> {
        key + ": "@
    }

    open spec fn handler_text(&self, handler: HandlerCodegen) -> Seq<char> {
        ts_handler_text(handler)
    }

    open spec fn nested_begin_text(&self, root: bool) -> Seq<char> {
        "{ "@
    }

    open spec fn nested_end_text(&self, root: bool) -> Seq<char> {
        if root {
            "}"@
        } else {
            "}"@ + ", "@
        }
    }

    fn begin(&self, writer: &mut String) {
        push_text(writer, "export type ");
        push_text(writer, self.router_name.as_str());
        push_text(writer, " = ");
    }

    fn end(&self, writer: &mut String) {
        push_text(writer, ";");
        push_text(writer, "\n");
    }

    fn write_key(&self, key: &str, writer: &mut String) {
        push_text(writer, key);
        push_text(writer, ": ");
    }

    fn write_handler(&self, handler: &HandlerCodegen, writer: &mut String) {
        write_ts_handler(handler, writer);
    }

    fn begin_nested(&self, root: bool, writer: &mut String) {
        push_text(writer, "{ ");
    }

    fn end_nested(&self, root: bool, writer: &mut String) {
        push_text(writer, "}");
        if !root {
            push_text(writer, ", ");
        }
    }
}

impl TypeBackend for TypeScript {
    open spec fn types_begin_text(&self) -> Seq<char> {
        Seq::empty()
    }

    open spec fn types_end_text(&self) -> Seq<char> {
        Seq::empty()
    }

    open spec fn type_text(&self, name: CodegenType, definition: Seq<char>) -> Seq<char> {
        "export type "@ + name.spec_text() + " = "@ + definition
    }

    fn begin(&self, writer: &mut String) {
        proof {
            assert(writer@ =~= writer@ + Seq::<char>::empty());
        }
    }

    fn end(&self, writer: &mut String) {
        proof {
            assert(writer@ =~= writer@ + Seq::<char>::empty());
        }
    }

    fn write_type(&self, name: &CodegenType, definition: &str, writer: &mut String) {
        push_text(writer, "export type ");
        let n = name.to_string();
        push_text(writer, n.as_str());
        push_text(writer, " = ");
        push_text(writer, definition);
    }
}

impl Backend for TypeScript {
    open spec fn begin_text(&self) -> Seq<char> {
        if self.spec_include_preamble() {
            preamble_text()
        } else {
            Seq::empty()
        }
    }

    open spec fn end_text(&self) -> Seq<char> {
        Seq::empty()
    }

    open spec fn spec_stages(&self) -> Seq<BackendStage> {
        seq![BackendStage::Type, BackendStage::Handler]
    }

    fn stages(&self) -> (r: Vec<BackendStage>) {
        let r = vec![BackendStage::Type, BackendStage::Handler];
        proof {
            assert(r@ =~= seq![BackendStage::Type, BackendStage::Handler]);
        }
        r
    }

    fn begin(&self, writer: &mut String) {
        if self.include_preamble {
            write_preamble(writer);
        } else {
            proof {
                assert(writer@ =~= writer@ + Seq::<char>::empty());
            }
        }
    }

    fn end(&self, writer: &mut String) {
        proof {
            assert(writer@ =~= writer@ + Seq::<char>::empty());
        }
    }
}

/// Compact TypeScript backend: always writes the preamble, names the router type
/// `QubitServer`, and pads the closing brace of a nesting.
pub struct Ts;

impl HandlerBackend for Ts {
    open spec fn handlers_begin_text(&self) -> Seq<char> {
        "export type QubitServer = "@
    }

    open spec fn handlers_end_text(&self) -> Seq<char> {
        Seq::empty()
    }

    open spec fn key_text(&self, key: Seq<char>) -> Seq<char> {
        key + ": "@
    }

    open spec fn handler_text(&self, handler: HandlerCodegen) -> Seq<char> {
        ts_handler_text(handler)
    }

    open spec fn nested_begin_text(&self, root: bool) -> Seq<char> {
        "{ "@
    }

    open spec fn nested_end_text(&self, root: bool) -> Seq<char> {
        if root {
            " }"@
        } else {
            " }"@ + ", "@
        }
    }

    fn begin(&self, writer: &mut String) {
        push_text(writer, "export type QubitServer = ");
    }

    fn end(&self, writer: &mut String) {
        proof {
            assert(writer@ =~= writer@ + Seq::<char>::empty());
        }
    }

    fn write_key(&self, key: &str, writer: &mut String) {
        push_text(writer, key);
        push_text(writer, ": ");
    }

    fn write_handler(&self, handler: &HandlerCodegen, writer: &mut String) {
        write_ts_handler(handler, writer);
    }

    fn begin_nested(&self, root: bool, writer: &mut String) {
        push_text(writer, "{ ");
    }

    fn end_nested(&self, root: bool, writer: &mut String) {
        push_text(writer, " }");
        if !root {
            push_text(writer, ", ");
        }
    }
}

impl TypeBackend for Ts {
    open spec fn types_begin_text(&self) -> Seq<char> {
        Seq::empty()
    }

    open spec fn types_end_text(&self) -> Seq<char> {
        Seq::empty()
    }

    open spec fn type_text(&self, name: CodegenType, definition: Seq<char>) -> Seq<char> {
        "export type "@ + name.spec_text() + " = "@ + definition
    }

    fn begin(&self, writer: &mut String) {
        proof {
            assert(writer@ =~= writer@ + Seq::<char>::empty());
        }
    }

    fn end(&self, writer: &mut String) {
        proof {
            assert(writer@ =~= writer@ + Seq::<char>::empty());
        }
    }

    fn write_type(&self, name: &CodegenType, definition: &str, writer: &mut String) {
        push_text(writer, "export type ");
        let n = name.to_string();
        push_text(writer, n.as_str());
        push_text(writer, " = ");
        push_text(writer, definition);
    }
}

impl Backend for Ts {
    open spec fn begin_text(&self) -> Seq<char> {
        preamble_text()
    }

    open spec fn end_text(&self) -> Seq<char> {
        Seq::empty()
    }

    open spec fn spec_stages(&self) -> Seq<BackendStage> {
        seq![BackendStage::Type, BackendStage::Handler]
    }

    fn stages(&self) -> (r: Vec<BackendStage>) {
        let r = vec![BackendStage::Type, BackendStage::Handler];
        proof {
            assert(r@ =~= seq![BackendStage::Type, BackendStage::Handler]);
        }
        r
    }

    fn begin(&self, writer: &mut String) {
        write_preamble(writer);
    }

    fn end(&self, writer: &mut String) {
        proof {
            assert(writer@ =~= writer@ + Seq::<char>::empty());
        }
    }
}

/// The preamble opens with the lint lines and imports every handler kind from the client
/// package.
proof fn lemma_preamble_facts()
    ensures
        preamble_text().take(36) == "/* eslint-disable */\n// @ts-nocheck\n"@,
        has_infix(preamble_text(), QUBIT_HEADER@),
        has_infix(preamble_text(), "@qubit-rs/client"@),
        forall|k: HandlerKind| has_infix(preamble_text(), #[trigger] k.spec_ts_name()),
{
    reveal_strlit("/* eslint-disable */\n");
    reveal_strlit("// @ts-nocheck\n");
    reveal_strlit("/* eslint-disable */\n// @ts-nocheck\n");
    reveal_strlit("import { Query, Mutation, Subscription } from \"@qubit-rs/client\";");
    reveal_strlit("@qubit-rs/client");
    let imp = "import { Query, Mutation, Subscription } from \"@qubit-rs/client\";"@;
    let front = "/* eslint-disable */\n"@ + "// @ts-nocheck\n"@ + "/*\n"@ + QUBIT_HEADER@ + "\n"@
        + "*/\n"@;
    assert(preamble_text() == front + imp + "\n"@);
    assert(preamble_text().take(36) =~= "/* eslint-disable */\n// @ts-nocheck\n"@);
    assert(has_infix(imp, "@qubit-rs/client"@)) by {
        assert(imp.subrange(47, 47 + "@qubit-rs/client"@.len() as int) =~= "@qubit-rs/client"@);
    }
    lemma_infix_around(front, imp, "\n"@, "@qubit-rs/client"@);
    let a = "/* eslint-disable */\n"@ + "// @ts-nocheck\n"@ + "/*\n"@;
    assert(has_infix(QUBIT_HEADER@, QUBIT_HEADER@)) by {
        assert(QUBIT_HEADER@.subrange(0, 0int + QUBIT_HEADER@.len()) =~= QUBIT_HEADER@);
    }
    lemma_infix_around(a, QUBIT_HEADER@, "\n"@ + "*/\n"@ + imp + "\n"@, QUBIT_HEADER@);
    assert(preamble_text() =~= a + QUBIT_HEADER@ + ("\n"@ + "*/\n"@ + imp + "\n"@));
    assert forall|k: HandlerKind| has_infix(preamble_text(), #[trigger] k.spec_ts_name()) by {
        let at: int = match k {
            HandlerKind::Query => 9,
            HandlerKind::Mutation => 16,
            HandlerKind::Subscription => 26,
        };
        assert(imp.subrange(at, at + k.spec_ts_name().len() as int) =~= k.spec_ts_name());
        assert(has_infix(imp, k.spec_ts_name()));
        lemma_infix_around(front, imp, "\n"@, k.spec_ts_name());
    }
}

/// Every text the compact TypeScript backend generates opens with the preamble: the lint lines,
/// the header, and the import of every handler kind from the client package.
pub proof fn law_ts_generated_preamble(c: Codegen)
    ensures
        exists|pre: Seq<char>, rest: Seq<char>|
            c.generated_text(Ts) == pre + rest && pre.take(36)
                == "/* eslint-disable */\n// @ts-nocheck\n"@ && has_infix(pre, QUBIT_HEADER@)
                && has_infix(pre, "@qubit-rs/client"@)
                && forall|k: HandlerKind| has_infix(pre, #[trigger] k.spec_ts_name()),
{
    lemma_preamble_facts();
    let rest = c.stages_text(Ts, Ts.spec_stages()) + Ts.end_text();
    assert(c.generated_text(Ts) =~= preamble_text() + rest);
}

/// A TypeScript backend that writes the preamble opens every generated text with it, as the
/// compact backend does.
pub proof fn law_typescript_generated_preamble(c: Codegen, b: TypeScript)
    requires
        b.spec_include_preamble(),
    ensures
        exists|pre: Seq<char>, rest: Seq<char>|
            c.generated_text(b) == pre + rest && pre.take(36)
                == "/* eslint-disable */\n// @ts-nocheck\n"@ && has_infix(pre, QUBIT_HEADER@)
                && has_infix(pre, "@qubit-rs/client"@)
                && forall|k: HandlerKind| has_infix(pre, #[trigger] k.spec_ts_name()),
{
    lemma_preamble_facts();
    let rest = c.stages_text(b, b.spec_stages()) + b.end_text();
    assert(c.generated_text(b) =~= preamble_text() + rest);
}

/// A user type is declared under its full text, generic parameters included: what stands
/// between `export type ` and ` = ` reads back as the type's name and generics.
pub proof fn law_typescript_declares_full_type(b: TypeScript, name: CodegenType, definition: Seq<char>)
    requires
        !name.spec_name().contains('<'),
        forall|i: int|
            0 <= i < name.spec_generics().len() ==> trimmed(#[trigger] name.spec_generics()[i])
                == name.spec_generics()[i] && !name.spec_generics()[i].contains(','),
    ensures
        exists|x: Seq<char>|
            b.type_text(name, definition) == "export type "@ + x + " = "@ + definition
                && parse_type_name(x) == (name.spec_name(), name.spec_generics()),
{
    law_parse_render_type(name.spec_name(), name.spec_generics());
    assert(parse_type_name(name.spec_text()) == (name.spec_name(), name.spec_generics()));
}

/// The compact backend declares a user type under its full text too.
pub proof fn law_ts_declares_full_type(name: CodegenType, definition: Seq<char>)
    requires
        !name.spec_name().contains('<'),
        forall|i: int|
            0 <= i < name.spec_generics().len() ==> trimmed(#[trigger] name.spec_generics()[i])
                == name.spec_generics()[i] && !name.spec_generics()[i].contains(','),
    ensures
        exists|x: Seq<char>|
            Ts.type_text(name, definition) == "export type "@ + x + " = "@ + definition
                && parse_type_name(x) == (name.spec_name(), name.spec_generics()),
{
    law_parse_render_type(name.spec_name(), name.spec_generics());
    assert(parse_type_name(name.spec_text()) == (name.spec_name(), name.spec_generics()));
}

} // verus!
