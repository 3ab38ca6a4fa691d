//! Code generation from reflected handler and type information.
pub mod backend;
pub mod handler;
pub mod prefix_map;
pub mod reflection;
pub mod ts;

use vstd::prelude::*;

use crate::codegen::backend::{Backend, BackendStage, HandlerBackend, TypeBackend};
use crate::codegen::reflection::dependent_types::DependentTypes;
use crate::codegen::reflection::param_visitor::{type_view, ParamVisitor};
use crate::node::{path_view, Node};
use crate::reflection::handler::{HandlerKind, HandlerMeta};
use crate::reflection::ty::{declaration_ok, parse_type_name, type_name_ok, CodegenType};
use crate::text::{join_with, push_text};
use crate::ts_router::{param_text, params_text};

verus! {

/// Header placed in a comment block at the top of every TypeScript file.
pub const QUBIT_HEADER: &'static str = "Qubit: type-safe RPC between Rust and TypeScript.\nhttps://github.com/andogq/qubit";

/// The names of a list of parameters.
pub open spec fn param_names_of(params: Seq<(&'static str, CodegenType)>) -> Seq<Seq<char>> {
    params.map_values(|p: (&'static str, CodegenType)| p.0@)
}

/// The type texts of a list of parameters.
pub open spec fn param_types_of(params: Seq<(&'static str, CodegenType)>) -> Seq<Seq<char>> {
    params.map_values(|p: (&'static str, CodegenType)| p.1.spec_text())
}

/// The parameters `name: type`, separated by `, `.
pub fn params_string_of(params: &Vec<(&'static str, CodegenType)>) -> (r: String)
    ensures
        r@ == params_text(param_names_of(params@), param_types_of(params@)),
{
    let ghost parts = Seq::new(
        params@.len(),
        |i: int| param_text(param_names_of(params@)[i], param_types_of(params@)[i]),
    );
    let mut r = String::new();
    let mut i: usize = 0;
    while i < params.len()
        invariant
            i <= params@.len(),
            parts == Seq::new(
                params@.len(),
                |i: int| param_text(param_names_of(params@)[i], param_types_of(params@)[i]),
            ),
            r@ == join_with(parts.take(i as int), ", "@),
        decreases params@.len() - i,
    {
        let ghost before = r@;
        if i > 0 {
            push_text(&mut r, ", ");
        }
        push_text(&mut r, params[i].0);
        push_text(&mut r, ": ");
        let ty = params[i].1.to_string();
        push_text(&mut r, ty.as_str());
        proof {
            reveal_strlit(": ");
            assert(": "@ =~= seq![':', ' ']);
            let t = parts.take(i + 1);
            assert(t.drop_last() =~= parts.take(i as int));
            assert(parts[i as int] == params@[i as int].0@ + seq![':', ' ']
                + params@[i as int].1.spec_text());
            if i == 0 {
                assert(r@ =~= t[0]);
            } else {
                assert(r@ =~= before + ", "@ + t.last());
            }
        }
        i = i + 1;
    }
    proof {
        reveal_strlit(", ");
        assert(", "@ =~= seq![',', ' ']);
        assert(parts.take(i as int) =~= parts);
    }
    r
}

/// What a handler description holds, with types seen by their names and generics.
pub open spec fn codegen_view(h: HandlerCodegen) -> (
    HandlerKind,
    Seq<(&'static str, (Seq<char>, Seq<Seq<char>>))>,
    (Seq<char>, Seq<Seq<char>>),
) {
    (
        h.spec_kind(),
        h.spec_params().map_values(
            |p: (&'static str, CodegenType)| (p.0, type_view(p.1)),
        ),
        type_view(h.spec_return_ty()),
    )
}

/// Representation of a handler function, for the purpose of code generation.
#[derive(Clone, Debug, PartialEq, Eq)]
pub struct HandlerCodegen {
    /// The kind of handler.
    kind: HandlerKind,
    /// Parameter name and types that the handler accepts.
    params: Vec<(&'static str, CodegenType)>,
    /// Return type of the handler.
    return_ty: CodegenType,
}

impl HandlerCodegen {
    /// The kind of handler.
    pub closed spec fn spec_kind(&self) -> HandlerKind {
        self.kind
    }

    /// The parameters, with their names.
    pub closed spec fn spec_params(&self) -> Seq<(&'static str, CodegenType)> {
        self.params@
    }

    /// The return type.
    pub closed spec fn spec_return_ty(&self) -> CodegenType {
        self.return_ty
    }

    /// The parameter names.
    pub open spec fn param_names(&self) -> Seq<Seq<char>> {
        param_names_of(self.spec_params())
    }

    /// The texts of the parameter types.
    pub open spec fn param_types(&self) -> Seq<Seq<char>> {
        param_types_of(self.spec_params())
    }

    /// The kind of handler.
    pub fn kind(&self) -> (r: HandlerKind)
        ensures
            r == self.spec_kind(),
    {
        self.kind
    }

    /// The parameters, with their names.
    pub fn params(&self) -> (r: &Vec<(&'static str, CodegenType)>)
        ensures
            r@ == self.spec_params(),
    {
        &self.params
    }

    /// The return type.
    pub fn return_ty(&self) -> (r: &CodegenType)
        ensures
            *r == self.spec_return_ty(),
    {
        &self.return_ty
    }

    /// The description of a handler from its metadata and the TypeScript names of its
    /// parameter types (in order) and of its return type.
    pub fn from_handler(meta: &HandlerMeta, param_types: &Vec<String>, return_type: &str) -> (r:
        Self)
        requires
            meta.param_names@.len() == param_types@.len(),
            forall|i: int| 0 <= i < param_types@.len() ==> type_name_ok(#[trigger] param_types@[i]@),
            type_name_ok(return_type@),
        ensures
            r.spec_kind() == meta.kind,
            r.spec_params().len() == param_types@.len(),
            forall|i: int|
                0 <= i < param_types@.len() ==> (#[trigger] r.spec_params()[i]).0
                    == meta.param_names@[i] && type_view(r.spec_params()[i].1) == parse_type_name(
                    param_types@[i]@,
                ),
            type_view(r.spec_return_ty()) == parse_type_name(return_type@),
    {
        let params = match ParamVisitor::visit(meta.param_names, param_types) {
            Ok(p) => p,
            Err(_) => {
                proof {
                    assert(false);
                }
                Vec::new()
            },
        };
        HandlerCodegen {
            kind: meta.kind,
            params,
            return_ty: CodegenType::from_name_and_generics(return_type),
        }
    }

    /// A copy of this description.
    pub fn duplicate(&self) -> (r: Self)
        ensures
            codegen_view(r) == codegen_view(*self),
    {
        let mut params: Vec<(&'static str, CodegenType)> = Vec::new();
        let mut i: usize = 0;
        while i < self.params.len()
            invariant
                i <= self.params@.len(),
                params@.len() == i,
                forall|j: int|
                    0 <= j < i ==> (#[trigger] params@[j]).0 == self.params@[j].0 && type_view(
                        params@[j].1,
                    ) == type_view(self.params@[j].1),
            decreases self.params@.len() - i,
        {
            let p = (self.params[i].0, self.params[i].1.duplicate());
            params.push(p);
            i = i + 1;
        }
        let r = HandlerCodegen { kind: self.kind, params, return_ty: self.return_ty.duplicate() };
        proof {
            assert(codegen_view(r).1 =~= codegen_view(*self).1);
        }
        r
    }
}

/// Code generation: collects everything a [`Backend`] needs to write the router type.
pub struct Codegen {
    /// All custom types that must be declared in the resulting type.
    pub(crate) dependent_types: DependentTypes,
    /// Tree of handlers registered to this codegen instance.
    pub(crate) tree: Node<HandlerCodegen>,
}

/// The items of a node, each as its key then the handler.
pub open spec fn items_text<B: HandlerBackend>(b: B, items: Seq<(Seq<char>, HandlerCodegen)>) -> Seq<
    char,
>
    decreases items.len(),
{
    if items.len() == 0 {
        Seq::empty()
    } else {
        items_text(b, items.drop_last()) + b.key_text(items.last().0) + b.handler_text(
            items.last().1,
        )
    }
}

/// A node of the handler tree: the nesting opens, then its items and then its children (each
/// as its key then its own subtree), each in key order, and the nesting closes.
pub open spec fn tree_text<B: HandlerBackend>(b: B, n: Node<HandlerCodegen>, root: bool) -> Seq<
    char,
>
    decreases n, n.spec_children().len() + 1,
{
    b.nested_begin_text(root) + items_text(b, n.spec_items()) + children_text(
        b,
        n,
        n.spec_children().len() as int,
    ) + b.nested_end_text(root)
}

/// The first `k` children of `n`, each as its key then its subtree.
pub open spec fn children_text<B: HandlerBackend>(b: B, n: Node<HandlerCodegen>, k: int) -> Seq<
    char,
>
    decreases n, k,
{
    if k <= 0 || k > n.spec_children().len() {
        Seq::empty()
    } else {
        proof {
            n.lemma_child_decreases(k - 1);
        }
        children_text(b, n, k - 1) + b.key_text(n.spec_children()[k - 1].0) + tree_text(
            b,
            n.spec_children()[k - 1].1,
            false,
        )
    }
}

/// The declarations of the captured types, in order.
pub open spec fn types_text<B: TypeBackend>(b: B, defs: Seq<(u64, (CodegenType, String))>) -> Seq<
    char,
>
    decreases defs.len(),
{
    if defs.len() == 0 {
        Seq::empty()
    } else {
        types_text(b, defs.drop_last()) + b.type_text(defs.last().1.0, defs.last().1.1@)
    }
}

impl Codegen {
    /// The tree of handlers.
    pub closed spec fn spec_tree(&self) -> Node<HandlerCodegen> {
        self.tree
    }

    /// The captured type definitions, by type id in increasing order.
    pub closed spec fn spec_definitions(&self) -> Seq<(u64, (CodegenType, String))> {
        self.dependent_types.definitions.entries_view()
    }

    /// The types visited so far.
    pub closed spec fn spec_dependent_types(&self) -> DependentTypes {
        self.dependent_types
    }

    /// An instance without handlers or types.
    pub fn new() -> (r: Self)
        ensures
            r.spec_definitions() == Seq::<(u64, (CodegenType, String))>::empty(),
            r.spec_dependent_types().visited_types.entries_view() == Seq::<(u64, ())>::empty(),
            forall|q: Seq<Seq<char>>| r.spec_tree().lookup(q) is None,
    {
        Codegen { dependent_types: DependentTypes::new(), tree: Node::new() }
    }

    /// The same as [`Codegen::new`].
    pub fn default() -> (r: Self)
        ensures
            r.spec_definitions() == Seq::<(u64, (CodegenType, String))>::empty(),
            r.spec_dependent_types().visited_types.entries_view() == Seq::<(u64, ())>::empty(),
            forall|q: Seq<Seq<char>>| r.spec_tree().lookup(q) is None,
    {
        Self::new()
    }

    /// Stores `handler` at `path` of the handler tree.
    pub fn insert_handler(&mut self, path: &[&str], handler: HandlerCodegen)
        requires
            path@.len() > 0,
        ensures
            final(self).spec_tree().lookup(path_view(path@)) == Some(handler),
            forall|q: Seq<Seq<char>>|
                q != path_view(path@) ==> #[trigger] final(self).spec_tree().lookup(q) == old(
                    self,
                ).spec_tree().lookup(q),
            final(self).spec_dependent_types() == old(self).spec_dependent_types(),
    {
        self.tree.insert(path, handler);
    }

    /// Visits a type that a handler depends on (see [`DependentTypes::visit`]).
    pub fn visit_type(
        &mut self,
        type_id: u64,
        type_id_no_generics: u64,
        declaration: Option<&str>,
    ) -> (r: (bool, bool))
        requires
            match declaration {
                Some(d) => declaration_ok(d@),
                None => true,
            },
        ensures
            final(self).spec_tree() == old(self).spec_tree(),
            DependentTypes::visit_step(
                old(self).spec_dependent_types(),
                final(self).spec_dependent_types(),
                type_id,
                type_id_no_generics,
                declaration,
                r,
            ),
    {
        self.dependent_types.visit(type_id, type_id_no_generics, declaration)
    }

    /// The text one stage writes.
    pub open spec fn stage_text<B: Backend>(&self, b: B, stage: BackendStage) -> Seq<char> {
        match stage {
            BackendStage::Handler => b.handlers_begin_text() + tree_text(b, self.spec_tree(), true)
                + b.handlers_end_text(),
            BackendStage::Type => b.types_begin_text() + types_text(b, self.spec_definitions())
                + b.types_end_text(),
        }
    }

    /// The text the given stages write, in order.
    pub open spec fn stages_text<B: Backend>(&self, b: B, stages: Seq<BackendStage>) -> Seq<char>
        decreases stages.len(),
    {
        if stages.len() == 0 {
            Seq::empty()
        } else {
            self.stages_text(b, stages.drop_last()) + self.stage_text(b, stages.last())
        }
    }

    /// The whole generated text: the backend's beginning, each of its stages in order, and its
    /// end.
    pub open spec fn generated_text<B: Backend>(&self, b: B) -> Seq<char> {
        b.begin_text() + self.stages_text(b, b.spec_stages()) + b.end_text()
    }

    /// With the provided [`Backend`], generate the type and append it to `writer`.
    pub fn generate<B: Backend>(&self, writer: &mut String, backend: B)
        ensures
            final(writer)@ == old(writer)@ + self.generated_text(backend),
    {
        let ghost start = writer@;
        Backend::begin(&backend, writer);
        let stages = backend.stages();
        let mut i: usize = 0;
        while i < stages.len()
            invariant
                i <= stages@.len(),
                stages@ == backend.spec_stages(),
                writer@ == start + backend.begin_text() + self.stages_text(
                    backend,
                    stages@.take(i as int),
                ),
            decreases stages@.len() - i,
        {
            let ghost before = writer@;
            match stages[i] {
                BackendStage::Handler => {
                    HandlerBackend::begin(&backend, writer);
                    write_node(&self.tree, true, writer, &backend);
                    HandlerBackend::end(&backend, writer);
                },
                BackendStage::Type => {
                    TypeBackend::begin(&backend, writer);
                    let mut j: usize = 0;
                    let ghost mid = writer@;
                    let defs = &self.dependent_types.definitions;
                    while j < defs.len()
                        invariant
                            j <= defs.entries_view().len(),
                            *defs == self.dependent_types.definitions,
                            writer@ == mid + types_text(backend, defs.entries_view().take(j as int)),
                        decreases defs.entries_view().len() - j,
                    {
                        let (_, def) = defs.entry_at(j);
                        TypeBackend::write_type(&backend, &def.0, def.1.as_str(), writer);
                        proof {
                            let t = defs.entries_view().take(j + 1);
                            assert(t.drop_last() =~= defs.entries_view().take(j as int));
                        }
                        j = j + 1;
                    }
                    proof {
                        assert(defs.entries_view().take(j as int) =~= defs.entries_view());
                    }
                    TypeBackend::end(&backend, writer);
                },
            }
            proof {
                let t = stages@.take(i + 1);
                assert(t.drop_last() =~= stages@.take(i as int));
                assert(writer@ =~= before + self.stage_text(backend, stages@[i as int]));
            }
            i = i + 1;
        }
        proof {
            assert(stages@.take(i as int) =~= stages@);
        }
        Backend::end(&backend, writer);
        proof {
            assert(writer@ =~= start + self.generated_text(backend));
        }
    }
}

/// Writes the subtree `node`, as [`tree_text`].
fn write_node<B: HandlerBackend>(node: &Node<HandlerCodegen>, root: bool, writer: &mut String, backend: &B)
    ensures
        final(writer)@ == old(writer)@ + tree_text(*backend, *node, root),
    decreases *node,
{
    let ghost start = writer@;
    backend.begin_nested(root, writer);
    let mut i: usize = 0;
    while i < node.num_items()
        invariant
            i <= node.spec_items().len(),
            writer@ == start + backend.nested_begin_text(root) + items_text(
                *backend,
                node.spec_items().take(i as int),
            ),
        decreases node.spec_items().len() - i,
    {
        let (key, handler) = node.item_at(i);
        backend.write_key(key.as_str(), writer);
        backend.write_handler(handler, writer);
        proof {
            let t = node.spec_items().take(i + 1);
            assert(t.drop_last() =~= node.spec_items().take(i as int));
        }
        i = i + 1;
    }
    proof {
        assert(node.spec_items().take(i as int) =~= node.spec_items());
    }
    let mut j: usize = 0;
    while j < node.num_children()
        invariant
            j <= node.spec_children().len(),
            writer@ == start + backend.nested_begin_text(root) + items_text(
                *backend,
                node.spec_items(),
            ) + children_text(*backend, *node, j as int),
        decreases node.spec_children().len() - j,
    {
        let (key, child) = node.child_at(j);
        backend.write_key(key.as_str(), writer);
        proof {
            node.lemma_child_decreases(j as int);
        }
        write_node(child, false, writer, backend);
        j = j + 1;
    }
    backend.end_nested(root, writer);
}

} // verus!
