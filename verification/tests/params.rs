use std::any::TypeId;
use std::collections::hash_map::DefaultHasher;
use std::hash::{Hash, Hasher};

use qubit::codegen::handler::{BuiltHandler, HandlerBuilder, ParamVisitor as BuilderVisitor, TsHandlerBuilder};
use qubit::codegen::reflection::dependent_types::DependentTypes;
use qubit::codegen::reflection::param_visitor::{ParamVisitor, ParamVisitorError};
use qubit::reflection::handler::HandlerKind;
use qubit::reflection::ty::CodegenType;
use ts_rs::TS;

fn type_key<T: ?Sized + 'static>() -> u64 {
    let mut h = DefaultHasher::new();
    TypeId::of::<T>().hash(&mut h);
    h.finish()
}

type AssertHandlerBuilder = TsHandlerBuilder<TypeId>;
type AssertHandler = BuiltHandler<TypeId>;

fn param_builder() -> AssertHandlerBuilder {
    AssertHandlerBuilder::new("", HandlerKind::Query)
}

fn three_types() -> Vec<TypeId> {
    vec![TypeId::of::<u32>(), TypeId::of::<bool>(), TypeId::of::<String>()]
}

#[test]
fn handler_no_params() {
    let params = BuilderVisitor::visit(param_builder(), &[], vec![]).unwrap().params;
    assert_eq!(params, &[]);
}

#[test]
fn handler_single_param() {
    let params =
        BuilderVisitor::visit(param_builder(), &["param_a"], vec![TypeId::of::<u32>()]).unwrap().params;
    assert_eq!(params, &[("param_a", TypeId::of::<u32>())]);
}

#[test]
fn handler_multiple_params() {
    let params = BuilderVisitor::visit(
        param_builder(),
        &["param_a", "some_boolean", "cool_string"],
        three_types(),
    )
    .unwrap()
    .params;
    assert_eq!(
        params,
        &[
            ("param_a", TypeId::of::<u32>()),
            ("some_boolean", TypeId::of::<bool>()),
            ("cool_string", TypeId::of::<String>()),
        ]
    );
}

#[test]
fn handler_missing_names() {
    let Err(err) = BuilderVisitor::visit(param_builder(), &[], three_types()) else {
        panic!("expected error");
    };
    assert!(matches!(err, ParamVisitorError::MissingNames(3)));
}

#[test]
fn handler_missing_some_names() {
    let Err(err) = BuilderVisitor::visit(param_builder(), &["param_a"], three_types()) else {
        panic!("expected error");
    };
    assert!(matches!(err, ParamVisitorError::MissingNames(2)));
}

#[test]
fn handler_missing_types() {
    let Err(err) =
        BuilderVisitor::visit(param_builder(), &["param_a", "some_boolean", "cool_string"], vec![])
    else {
        panic!("expected error");
    };
    assert!(matches!(err, ParamVisitorError::MissingTypes(3)));
}

#[test]
fn handler_missing_some_types() {
    let Err(err) = BuilderVisitor::visit(
        param_builder(),
        &["param_a", "some_boolean", "cool_string"],
        vec![TypeId::of::<u32>()],
    ) else {
        panic!("expected error");
    };
    assert!(matches!(err, ParamVisitorError::MissingTypes(2)));
}

#[test]
fn handler_builder_completes() {
    let builder =
        BuilderVisitor::visit(param_builder(), &["param_a"], vec![TypeId::of::<u32>()]).unwrap();
    let handler: AssertHandler = builder.returning(TypeId::of::<bool>());
    assert_eq!(handler.return_ty, TypeId::of::<bool>());
    assert_eq!(handler.params, vec![("param_a", TypeId::of::<u32>())]);
}

fn names_of(names: &[String]) -> Vec<String> {
    names.to_vec()
}

fn codegen_type<T: TS>() -> CodegenType {
    CodegenType::from_name_and_generics(&T::name())
}

#[test]
fn param_visitor_no_params() {
    let params = ParamVisitor::visit(&[], &names_of(&[])).unwrap();
    assert_eq!(params, &[]);
}

#[test]
fn param_visitor_single_param() {
    let params = ParamVisitor::visit(&["param_a"], &names_of(&[<u32 as TS>::name()])).unwrap();
    assert_eq!(params, &[("param_a", codegen_type::<u32>())]);
}

#[test]
fn param_visitor_multiple_params() {
    let params = ParamVisitor::visit(
        &["param_a", "some_boolean", "cool_string"],
        &names_of(&[<u32 as TS>::name(), <bool as TS>::name(), <String as TS>::name()]),
    )
    .unwrap();
    assert_eq!(
        params,
        &[
            ("param_a", codegen_type::<u32>()),
            ("some_boolean", codegen_type::<bool>()),
            ("cool_string", codegen_type::<String>()),
        ]
    );
}

fn three_names() -> Vec<String> {
    names_of(&[<u32 as TS>::name(), <bool as TS>::name(), <String as TS>::name()])
}

#[test]
fn param_visitor_missing_names() {
    let err = ParamVisitor::visit(&[], &three_names()).unwrap_err();
    assert!(matches!(err, ParamVisitorError::MissingNames(3)));
}

#[test]
fn param_visitor_missing_some_names() {
    let err = ParamVisitor::visit(&["param_a"], &three_names()).unwrap_err();
    assert!(matches!(err, ParamVisitorError::MissingNames(2)));
}

#[test]
fn param_visitor_missing_types() {
    let err =
        ParamVisitor::visit(&["param_a", "some_boolean", "cool_string"], &names_of(&[])).unwrap_err();
    assert!(matches!(err, ParamVisitorError::MissingTypes(3)));
}

#[test]
fn param_visitor_missing_some_types() {
    let err = ParamVisitor::visit(
        &["param_a", "some_boolean", "cool_string"],
        &names_of(&[<u32 as TS>::name()]),
    )
    .unwrap_err();
    assert!(matches!(err, ParamVisitorError::MissingTypes(2)));
}

#[test]
fn param_visitor_error_messages() {
    assert_eq!(ParamVisitorError::MissingNames(3).to_string(), "expected 3 more parameter names");
    assert_eq!(ParamVisitorError::MissingTypes(12).to_string(), "expected 12 more parameter types");
}

#[test]
fn param_visitor_generic_type_name() {
    let params = ParamVisitor::visit(&["list"], &names_of(&["Array<number>".to_string()])).unwrap();
    assert_eq!(params[0].1.to_string(), "Array<number>");
}

#[test]
fn visit_unit() {
    let mut types = DependentTypes::new();
    let id = type_key::<()>();
    let walk = types.visit(id, id, None);
    assert_eq!(walk, (true, true));
    assert_eq!(types.visited_types.len(), 1);
    assert!(types.visited_types.contains_key(id));
    assert_eq!(types.definitions.len(), 0);
}

#[test]
fn visit_primitive() {
    let mut types = DependentTypes::new();
    let id = type_key::<u32>();
    types.visit(id, id, None);
    assert_eq!(types.visited_types.len(), 1);
    assert!(types.visited_types.contains_key(id));
    assert_eq!(types.definitions.len(), 0);
}

#[test]
fn visit_user_type_once() {
    let mut types = DependentTypes::new();
    let decl = "type MyType<T> = { value: T, };";
    assert_eq!(types.visit(7, 3, Some(decl)), (true, true));
    assert_eq!(types.visit(7, 3, Some(decl)), (false, false));
    assert_eq!(types.visit(8, 3, Some(decl)), (false, true));
    assert_eq!(types.visited_types.len(), 3);
    assert_eq!(types.definitions.len(), 1);
    let (ty, definition) = types.definitions.get(3).unwrap();
    assert_eq!(ty.to_string(), "MyType<T>");
    assert_eq!(definition, "{ value: T, }");
}
