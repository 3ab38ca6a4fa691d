use qubit::builder::ty::dependencies::TypeDependencies;
use qubit::builder::ty::export_type::ExportType;
use qubit::strmap::StrMap;
use qubit::codegen::backend::{Ts, TypeScript};
use qubit::codegen::prefix_map::PrefixMap;
use qubit::codegen::ts::{write_comment_block, TsBackend, TsHandler, TsType as DeclaredType};
use qubit::codegen::{Codegen, HandlerCodegen, QUBIT_HEADER};
use qubit::node::Node;
use qubit::reflection::handler::{HandlerKind, HandlerMeta};
use qubit::reflection::ty::CodegenType;
use qubit::router::codegen::{CodegenModule, HandlerRegister};

fn meta(kind: HandlerKind, name: &'static str, param_names: &'static [&'static str]) -> HandlerMeta {
    HandlerMeta { kind, name, param_names }
}

fn register(kind: HandlerKind, params: &'static [&'static str], tys: &[&str], ret: &str) -> HandlerRegister {
    let tys: Vec<String> = tys.iter().map(|t| t.to_string()).collect();
    HandlerRegister::from_handler(&meta(kind, "h", params), &tys, ret)
}

#[test]
fn codegen_type_with_generics() {
    let ty = CodegenType::from_name_and_generics("Result<number,  string >");
    assert_eq!(ty.to_string(), "Result<number, string>");
    let plain = CodegenType::from_name_and_generics("boolean");
    assert_eq!(plain.to_string(), "boolean");
}

#[test]
fn codegen_type_from_declaration() {
    let (ty, definition) = CodegenType::from_type_with_definition("type Pair<A, B> = [A, B];");
    assert_eq!(ty.to_string(), "Pair<A, B>");
    assert_eq!(definition, "[A, B]");
}

#[test]
fn typescript_backend_generates_tree() {
    let mut module = CodegenModule::new();
    module.visit_handler(&["get"], &register(HandlerKind::Query, &["id"], &["number"], "string"));
    module.visit_handler(
        &["users", "create"],
        &register(HandlerKind::Mutation, &["name", "age"], &["string", "number"], "boolean"),
    );
    let out = module.generate_type(TypeScript::new().without_preamble());
    assert_eq!(
        out,
        "export type QubitServer = { get: Query<[id: number], string>, users: { create: Mutation<[name: string, age: number], boolean>, }, };\n"
    );
}

#[test]
fn typescript_backend_router_name_and_types() {
    let mut module = CodegenModule::new();
    let decl = "type User = { name: string, };";
    assert_eq!(module.visit_type(5, 5, Some(decl)), (true, true));
    module.visit_handler(&["me"], &register(HandlerKind::Subscription, &[], &[], "User"));
    let out = module.generate_type(TypeScript::new().without_preamble().with_router_name("Api".to_string()));
    assert_eq!(
        out,
        "export type User = { name: string, }export type Api = { me: Subscription<[], User>, };\n"
    );
}

#[test]
fn typescript_backend_preamble() {
    let module = CodegenModule::new();
    let out = module.generate_type(TypeScript::new());
    let expected = format!(
        "/* eslint-disable */\n// @ts-nocheck\n/*\n{}\n*/\nimport {{ Query, Mutation, Subscription }} from \"@qubit-rs/client\";\nexport type QubitServer = {{ }};\n",
        QUBIT_HEADER
    );
    assert_eq!(out, expected);
}

#[test]
fn ts_backend_pads_nesting() {
    let mut module = CodegenModule::default();
    module.visit_handler(&["a", "b"], &register(HandlerKind::Query, &[], &[], "null"));
    let out = module.generate_type(Ts);
    assert!(out.ends_with("export type QubitServer = { a: { b: Query<[], null>,  },  }"));
}

#[test]
fn codegen_replaces_handler_at_same_path() {
    let mut module = CodegenModule::new();
    module.visit_handler(&["x"], &register(HandlerKind::Query, &[], &[], "number"));
    module.visit_handler(&["x"], &register(HandlerKind::Mutation, &[], &[], "string"));
    let out = module.generate_type(TypeScript::new().without_preamble());
    assert_eq!(out, "export type QubitServer = { x: Mutation<[], string>, };\n");
}

#[test]
fn codegen_generate_into_existing_text() {
    let codegen = Codegen::new();
    let mut out = "// start\n".to_string();
    codegen.generate(&mut out, TypeScript::new().without_preamble());
    assert_eq!(out, "// start\nexport type QubitServer = { };\n");
}

#[test]
fn handler_codegen_from_meta() {
    let tys = vec!["Array<number>".to_string()];
    let h = HandlerCodegen::from_handler(&meta(HandlerKind::Query, "list", &["items"]), &tys, "void");
    assert_eq!(h.kind(), HandlerKind::Query);
    assert_eq!(h.params()[0].0, "items");
    assert_eq!(h.params()[0].1.to_string(), "Array<number>");
    assert_eq!(h.return_ty().to_string(), "void");
    let copy = h.duplicate();
    assert_eq!(copy, h);
}

#[test]
fn node_insert_creates_intermediate_nodes() {
    let mut node: Node<u32> = Node::new();
    node.insert(&["a", "b", "c"], 1);
    node.insert(&["a", "d"], 2);
    node.insert(&["e"], 3);
    assert_eq!(node.num_items(), 1);
    assert_eq!(node.num_children(), 1);
    let (key, child) = node.child_at(0);
    assert_eq!(key, "a");
    assert_eq!(child.num_items(), 1);
    assert_eq!(child.item_at(0), (&"d".to_string(), &2));
    assert_eq!(child.num_children(), 1);
}

#[test]
fn node_insert_replaces_value() {
    let mut node: Node<u32> = Node::new();
    node.insert(&["k"], 1);
    node.insert(&["k"], 5);
    assert_eq!(node.num_items(), 1);
    assert_eq!(node.item_at(0), (&"k".to_string(), &5));
}

#[test]
fn prefix_map_insert_and_nest() {
    let mut inner: PrefixMap<u32> = PrefixMap::new();
    inner.insert("x".to_string(), 1);
    inner.insert("y".to_string(), 2);
    let mut outer: PrefixMap<u32> = PrefixMap::new();
    outer.insert("a".to_string(), 0);
    outer.insert("b".to_string(), 10);
    outer.nest("n".to_string(), inner);
    let mut walker = outer.iter();
    walker.advance_key();
    walker.advance_key();
}

#[test]
fn ts_backend_imports_only_used_kinds() {
    let mut backend = TsBackend::new();
    let mut out = String::new();
    backend.write_qubit_imports(&mut out);
    assert_eq!(out, "import { } from \"@qubit-rs/client\";\n");
    backend.register_handler(TsHandler {
        kind: HandlerKind::Subscription,
        name: "s",
        params: vec![],
        return_ty: "number".to_string(),
    });
    backend.register_handler(TsHandler {
        kind: HandlerKind::Query,
        name: "q",
        params: vec![("a", "string".to_string())],
        return_ty: "number".to_string(),
    });
    let mut out = String::new();
    backend.write_qubit_imports(&mut out);
    assert_eq!(out, "import { Query, Subscription, } from \"@qubit-rs/client\";\n");
}

#[test]
fn ts_backend_writes_types() {
    let mut backend = TsBackend::new();
    backend.register_type(DeclaredType::from("type TypeB<T> = T;"));
    backend.register_type(DeclaredType::from("type TypeA = null;"));
    let mut out = String::new();
    backend.write_types(&mut out);
    backend.write_router_type(&mut out);
    assert_eq!(out, "export type TypeB<T> = T;\nexport type TypeA = null;\n");
}

#[test]
fn comment_block_lines() {
    let mut out = String::new();
    write_comment_block(&mut out, "first\r\nsecond\n");
    assert_eq!(out, "/*\n * first * second */\n");
    let mut empty = String::new();
    write_comment_block(&mut empty, "");
    assert_eq!(empty, "/*\n */\n");
}

#[test]
fn containers_of_builtin_types_add_no_declarations() {

    let mut deps: StrMap<String> = StrMap::new();
    deps.insert("User".to_string(), "{ name: string }".to_string());
    <Result<Vec<Option<u32>>, (bool, String, Box<char>)> as TypeDependencies>::get_deps(&mut deps);
    assert_eq!(deps.len(), 1);
    assert_eq!(deps.get("User"), Some(&"{ name: string }".to_string()));

    let mut registry: StrMap<String> = StrMap::new();
    <(Vec<u8>, Option<i64>) as ExportType>::export(&mut registry);
    assert_eq!(registry.len(), 0);
}
