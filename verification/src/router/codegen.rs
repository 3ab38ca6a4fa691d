//! The code generation side of a router: the handler tree and the types its handlers use.
use vstd::prelude::*;

use crate::codegen::backend::Backend;
use crate::codegen::reflection::dependent_types::DependentTypes;
use crate::codegen::{codegen_view, Codegen, HandlerCodegen};
use crate::node::path_view;
use crate::reflection::handler::HandlerMeta;
use crate::reflection::ty::{declaration_ok, type_name_ok};

verus! {

/// Wrapper around [`Codegen`] for use with a router.
pub struct CodegenModule(pub(crate) Codegen);

/// All information required to generate the type of a handler.
pub struct HandlerRegister {
    /// Reflected information about the handler.
    pub(crate) handler: HandlerCodegen,
}

impl HandlerRegister {
    /// The reflected handler.
    pub closed spec fn spec_handler(&self) -> HandlerCodegen {
        self.handler
    }

    /// The information for a handler, from its metadata and the TypeScript names of its
    /// parameter types (in order) and of its return type.
    pub fn from_handler(meta: &HandlerMeta, param_types: &Vec<String>, return_type: &str) -> (r:
        Self)
        requires
            meta.param_names@.len() == param_types@.len(),
            forall|i: int| 0 <= i < param_types@.len() ==> type_name_ok(#[trigger] param_types@[i]@),
            type_name_ok(return_type@),
        ensures
            r.spec_handler().spec_kind() == meta.kind,
            r.spec_handler().spec_params().len() == param_types@.len(),
            forall|i: int|
                0 <= i < param_types@.len() ==> (#[trigger] r.spec_handler().spec_params()[i]).0
                    == meta.param_names@[i]
                    && crate::codegen::reflection::param_visitor::type_view(
                    r.spec_handler().spec_params()[i].1,
                ) == crate::reflection::ty::parse_type_name(param_types@[i]@),
            crate::codegen::reflection::param_visitor::type_view(
                r.spec_handler().spec_return_ty(),
            ) == crate::reflection::ty::parse_type_name(return_type@),
    {
        HandlerRegister { handler: HandlerCodegen::from_handler(meta, param_types, return_type) }
    }
}

impl CodegenModule {
    /// The collected information.
    pub closed spec fn spec_codegen(&self) -> Codegen {
        self.0
    }

    /// An instance without handlers or types.
    pub fn new() -> (r: Self)
        ensures
            r.spec_codegen().spec_definitions() == Seq::<
                (u64, (crate::reflection::ty::CodegenType, String)),
            >::empty(),
            forall|q: Seq<Seq<char>>| r.spec_codegen().spec_tree().lookup(q) is None,
    {
        CodegenModule(Codegen::new())
    }

    /// The same as [`CodegenModule::new`].
    pub fn default() -> (r: Self)
        ensures
            r.spec_codegen().spec_definitions() == Seq::<
                (u64, (crate::reflection::ty::CodegenType, String)),
            >::empty(),
            forall|q: Seq<Seq<char>>| r.spec_codegen().spec_tree().lookup(q) is None,
    {
        Self::new()
    }

    /// Generate the type with the provided backend into a string.
    pub fn generate_type<B: Backend>(&self, backend: B) -> (r: String)
        ensures
            r@ == self.spec_codegen().generated_text(backend),
    {
        let mut out = String::new();
        self.0.generate(&mut out, backend);
        out
    }

    /// Registers a handler found at `path` of the router: the handler is stored at that path of
    /// the handler tree.
    pub fn visit_handler(&mut self, path: &[&str], handler: &HandlerRegister)
        requires
            path@.len() > 0,
        ensures
            final(self).spec_codegen().spec_tree().lookup(path_view(path@)) matches Some(h)
                && codegen_view(h) == codegen_view(handler.spec_handler()),
            forall|q: Seq<Seq<char>>|
                q != path_view(path@) ==> #[trigger] final(self).spec_codegen().spec_tree().lookup(
                    q,
                ) == old(self).spec_codegen().spec_tree().lookup(q),
            final(self).spec_codegen().spec_dependent_types() == old(
                self,
            ).spec_codegen().spec_dependent_types(),
    {
        let h = handler.handler.duplicate();
        self.0.insert_handler(path, h);
    }

    /// Visits a type that a handler depends on (see [`DependentTypes::visit`]): returns whether
    /// its dependencies and whether its generic arguments must be walked.
    pub fn visit_type(
        &mut self,
        type_id: u64,
        type_id_no_generics: u64,
        declaration: Option<&str>,
    ) -> (r: (bool, bool))
        requires
            match declaration {
                Some(d) => declaration_ok(d@),
                None => true,
            },
        ensures
            final(self).spec_codegen().spec_tree() == old(self).spec_codegen().spec_tree(),
            DependentTypes::visit_step(
                old(self).spec_codegen().spec_dependent_types(),
                final(self).spec_codegen().spec_dependent_types(),
                type_id,
                type_id_no_generics,
                declaration,
                r,
            ),
    {
        self.0.visit_type(type_id, type_id_no_generics, declaration)
    }
}

} // verus!
