use std::any::TypeId;
use std::collections::hash_map::DefaultHasher;
use std::hash::{Hash, Hasher};

use qubit::reflection::handler::{HandlerKind, HandlerMeta};
use qubit::ts::ts::TsRouter as LambdaRouter;
use qubit::ts::ts_type::TsType;
use qubit::ts_router::{TsRouter, TypeCapturer};
use ts_rs::{TypeVisitor, TS};

fn type_key<T: ?Sized + 'static>() -> u64 {
    let mut h = DefaultHasher::new();
    TypeId::of::<T>().hash(&mut h);
    h.finish()
}

/// The TypeScript type of `T`: a user type when `T` is exported to a file.
fn ts_type_of<T: TS + 'static + ?Sized>() -> TsType {
    let user = T::output_path().map(|_| (type_key::<T>(), T::decl()));
    TsType::from_type(T::name(), user)
}

fn names(types: &[TsType]) -> Vec<String> {
    types.iter().map(|t| t.name().clone()).collect()
}

/// Tuple of [`TS`] types, visited in order.
trait TypeTuple {
    fn visit_tys(visitor: &mut impl TypeVisitor);
}

impl TypeTuple for () {
    fn visit_tys(_visitor: &mut impl TypeVisitor) {}
}

impl<A: TS + 'static> TypeTuple for (A,) {
    fn visit_tys(visitor: &mut impl TypeVisitor) {
        visitor.visit::<A>();
    }
}

impl<A: TS + 'static, B: TS + 'static, C: TS + 'static> TypeTuple for (A, B, C) {
    fn visit_tys(visitor: &mut impl TypeVisitor) {
        visitor.visit::<A>();
        visitor.visit::<B>();
        visitor.visit::<C>();
    }
}

struct TypeCollector(Vec<TsType>);

impl TypeVisitor for TypeCollector {
    fn visit<T: TS + 'static + ?Sized>(&mut self) {
        self.0.push(ts_type_of::<T>());
    }
}

/// The TypeScript types of the types of a tuple, in order.
fn get_ts_types<P: TypeTuple>() -> Vec<TsType> {
    let mut collector = TypeCollector(Vec::new());
    P::visit_tys(&mut collector);
    collector.0
}

/// The TypeScript names of the types of a tuple, in order.
fn collect_names<P: TypeTuple>() -> Vec<String> {
    names(&get_ts_types::<P>())
}

#[test]
fn ts_valid_primitive() {
    let ts_type = ts_type_of::<u32>();
    assert_eq!(ts_type.name(), "number");
    assert!(ts_type.is_primitive());
    assert!(!ts_type.is_user());
}

#[test]
fn ts_empty() {
    assert_eq!(collect_names::<()>(), &[] as &[&str]);
}

#[test]
fn ts_single() {
    assert_eq!(collect_names::<(u32,)>(), &["number"]);
}

#[test]
fn ts_multiple() {
    assert_eq!(collect_names::<(u32, bool, String)>(), ["number", "boolean", "string"]);
}

#[test]
fn mod_valid_primitive() {
    let ts_type = ts_type_of::<u32>();
    assert_eq!(ts_type.name(), "number");
    assert!(ts_type.is_primitive());
}

#[test]
fn mod_empty() {
    let types = get_ts_types::<()>();
    assert!(types.is_empty());
}

#[test]
fn mod_single() {
    let types = get_ts_types::<(u32,)>();
    assert_eq!(types.len(), 1);
    assert_eq!(types[0].name(), "number");
}

#[test]
fn mod_multiple() {
    let types = get_ts_types::<(u32, bool, String)>();
    assert_eq!(types.len(), 3);
    assert_eq!(types[0].name(), "number");
    assert_eq!(types[1].name(), "boolean");
    assert_eq!(types[2].name(), "string");
}

#[test]
fn ts_user_type_from_type() {
    let ts_type = TsType::from_type("MyType".to_string(), Some((9, "type MyType = null;".to_string())));
    assert!(ts_type.is_user());
    assert_eq!(ts_type.name(), "MyType");
}

fn meta_a() -> HandlerMeta {
    HandlerMeta { kind: HandlerKind::Query, name: "handler_a", param_names: &["param_a", "param_b"] }
}

fn meta_b() -> HandlerMeta {
    HandlerMeta { kind: HandlerKind::Mutation, name: "create", param_names: &[] }
}

#[test]
fn ts_router_query_signature() {
    let mut router = TsRouter::new();
    router.add_handler(&meta_a(), &vec!["number".to_string(), "string".to_string()], "boolean", vec![]);
    assert_eq!(
        router.generate_typescript(),
        "export type QubitServer = { handler_a: Query<[param_a: number, param_b: string], boolean>, };\n"
    );
}

#[test]
fn ts_router_nested_and_types() {
    let mut inner = TsRouter::new();
    inner.add_handler(&meta_b(), &vec![], "User", vec![(4, "type User = { name: string };".to_string())]);
    let mut outer = TsRouter::new();
    outer.add_handler(&meta_a(), &vec!["number".to_string(), "string".to_string()], "boolean", vec![]);
    outer.nest("users".to_string(), inner);
    let out = outer.generate_typescript();
    assert!(out.starts_with("type User = { name: string };\n"));
    assert!(out.ends_with(
        "export type QubitServer = { users: { create: Mutation<[], User>, }, handler_a: Query<[param_a: number, param_b: string], boolean>, };\n"
    ));
}

#[test]
fn ts_router_replaces_handler_of_same_name() {
    let mut router = TsRouter::new();
    router.add_handler(&meta_b(), &vec![], "number", vec![]);
    router.add_handler(&meta_b(), &vec![], "string", vec![]);
    assert_eq!(
        router.generate_typescript(),
        "export type QubitServer = { create: Mutation<[], string>, };\n"
    );
}

#[test]
fn type_capturer_visits_once() {
    let mut capturer = TypeCapturer::new();
    assert!(capturer.visit(1, Some("type A = number;".to_string())));
    assert!(!capturer.visit(1, Some("type A = number;".to_string())));
    assert!(capturer.visit(2, None));
    assert_eq!(capturer.into_user_types(), vec![(1, "type A = number;".to_string())]);
}

#[test]
fn lambda_router_signature() {
    let mut router = LambdaRouter::new();
    let params = vec![ts_type_of::<u32>(), ts_type_of::<String>()];
    router.add_handler("get", &["id", "name"], &params, &ts_type_of::<bool>());
    assert_eq!(router.get_router_type(), "{ get: (id: number, name: string) => boolean, }");
}
