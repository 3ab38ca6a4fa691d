use qubit::handler::{StreamAction, StreamEvent, StreamProgress};
use qubit::bindings::{bindings_index, router_type};
use qubit::builder::ty::qubit_type::QubitType;
use qubit::builder::ty::registry::{InbuiltType, TypeRegistry};
use qubit::graph::Graph;
use qubit::handler::subscription_methods;
use qubit::reflect::{Type, TypeDeclaration};
use qubit::router::rpc::{
    decoded_or_empty, input_value, method_name, nest_registrations, nested_prefix, request_body,
};
use qubit::router::Router;
use qubit::user::get_user;

#[test]
fn merge() {
    let mut graph = {
        let mut graph = Graph::new();

        let prefix_a = graph.insert_prefix(None, "a");
        let prefix_b = graph.insert_prefix(None, "b");

        graph.insert_item(prefix_a, "A");
        graph.insert_item(prefix_b, "B");

        graph
    };

    graph.merge({
        let mut graph = Graph::new();

        let prefix_c = graph.insert_prefix(None, "c");
        let prefix_d = graph.insert_prefix(None, "d");

        graph.insert_item(prefix_c, "C");
        graph.insert_item(prefix_d, "D");

        graph
    });

    assert_eq!(
        graph.iter(),
        [(vec![&"a"], &"A"), (vec![&"b"], &"B"), (vec![&"c"], &"C"), (vec![&"d"], &"D")]
    );
}

#[test]
fn graph_nest_prefixes_paths() {
    let mut graph = Graph::new();
    let top = graph.insert_prefix(None, "top");
    let mut other = Graph::new();
    let p = other.insert_prefix(None, "inner");
    other.insert_item(p, 1);
    graph.nest(top, other);
    assert_eq!(graph.iter(), [(vec![&"top", &"inner"], &1)]);
}

#[test]
fn graph_merge_returns_new_prefix_ids() {
    let mut graph: Graph<&str, u32> = Graph::new();
    graph.insert_prefix(None, "a");
    let mut other: Graph<&str, u32> = Graph::new();
    other.insert_prefix(None, "b");
    other.insert_prefix(None, "c");
    let ids = graph.merge(other);
    assert_eq!(ids.iter().map(|p| p.0).collect::<Vec<_>>(), vec![1, 2]);
}

#[test]
fn router_routes_join_prefixes() {
    let inner = Router::new().handler("get".to_string(), 1).handler("set".to_string(), 2);
    let router = Router::new().handler("ping".to_string(), 0).nest("user".to_string(), inner);
    let routes: Vec<(String, u32)> = router.route_list().into_iter().map(|(n, h)| (n, *h)).collect();
    assert_eq!(
        routes,
        vec![("ping".to_string(), 0), ("user.get".to_string(), 1), ("user.set".to_string(), 2)]
    );
}

#[test]
fn router_nested_twice() {
    let leaf = Router::new().handler("h".to_string(), 7);
    let mid = Router::new().nest("b".to_string(), leaf);
    let top = Router::new().nest("a".to_string(), mid);
    let routes: Vec<String> = top.route_list().into_iter().map(|(n, _)| n).collect();
    assert_eq!(routes, vec!["a.b.h".to_string()]);
}

#[test]
fn method_names() {
    assert_eq!(method_name(None, "get"), "get");
    assert_eq!(method_name(Some("user"), "get"), "user.get");
    assert_eq!(nested_prefix("api", None), "api");
    assert_eq!(nested_prefix("api", Some("user".to_string())), "api.user");
    let nested = nested_prefix("api", Some("user".to_string()));
    assert_eq!(method_name(Some(&nested), "get"), format!("api.{}", method_name(Some("user"), "get")));
}

#[test]
fn request_body_from_query() {
    assert_eq!(request_body(None), None);
    assert_eq!(request_body(Some("other=1")), None);
    assert_eq!(request_body(Some("input=%5B1%2C2%5D")), Some("[1,2]".to_string()));
    assert_eq!(request_body(Some("a=b&input=plain")), Some("plain".to_string()));
}

#[test]
fn input_value_lookup() {
    let pairs = vec![("a".to_string(), "1".to_string()), ("input".to_string(), "2".to_string())];
    assert_eq!(input_value(&pairs), Some(&"2".to_string()));
    assert_eq!(input_value(&vec![]), None);
    assert_eq!(decoded_or_empty(None), "");
    assert_eq!(decoded_or_empty(Some("x".to_string())), "x");
}

#[test]
fn subscription_method_names() {
    let (m, n, u) = subscription_methods("count");
    assert_eq!((m.as_str(), n.as_str(), u.as_str()), ("count", "count_notif", "count_unsub"));
}

#[test]
fn router_type_of_entries() {
    let entries = vec![
        ("get".to_string(), "Query<[], number>".to_string()),
        ("nested".to_string(), "{  }".to_string()),
    ];
    assert_eq!(router_type(&entries), "{ get: Query<[], number>, nested: {  } }");
    assert_eq!(router_type(&vec![]), "{  }");
}

#[test]
fn bindings_index_dedups_types() {
    let types = vec![
        ("./User".to_string(), "User".to_string()),
        ("@qubit-rs/client".to_string(), "Query".to_string()),
        ("./User".to_string(), "User".to_string()),
    ];
    let out = bindings_index("// header", &types, "{ }");
    assert_eq!(
        out,
        "// header\nimport type { User } from \"./User\";\nimport type { Query } from \"@qubit-rs/client\";\n\nexport type { User } from \"./User\";\nexport type { Query } from \"@qubit-rs/client\";\n\nexport type QubitServer = { };"
    );
    assert_eq!(bindings_index("", &vec![], "{ }"), "export type QubitServer = { };");
}

#[test]
fn registry_register_and_print() {
    let mut registry = TypeRegistry::new();
    assert!(!registry.register("User".to_string(), "{ name: string }".to_string()));
    assert!(registry.register("User".to_string(), "{ other: number }".to_string()));
    assert!(!registry.register("Age".to_string(), "number".to_string()));
    registry.inbuilt(InbuiltType::Stream).inbuilt(InbuiltType::Stream);
    assert_eq!(
        registry.to_string(),
        "import type { Stream } from \"@qubit-rs/client\";\nexport type Age = number;\nexport type User = { name: string };\n"
    );
}

#[test]
fn qubit_types() {
    assert_eq!(QubitType::Query.to_ts(), ("@qubit-rs/client".to_string(), "Query".to_string()));
    assert_eq!(
        QubitType::StreamUnsubscribe.to_ts(),
        ("@qubit-rs/client".to_string(), "StreamUnsubscribe".to_string())
    );
    assert_eq!(InbuiltType::Stream.to_string(), "import type { Stream } from \"@qubit-rs/client\";");
}

#[test]
fn reflect_type_from_type() {
    let ty = Type::from_type("number".to_string(), None);
    assert!(matches!(ty_declaration(&ty), TypeDeclaration::Primitive));
    let user = Type::from_type("Wrapper<number>".to_string(), Some((3, "type Wrapper<T> = { inner: T };")));
    match ty_declaration(&user) {
        TypeDeclaration::User { type_id, name, generics, definition } => {
            assert_eq!(*type_id, 3);
            assert_eq!(name, "Wrapper");
            assert_eq!(generics, &vec!["T".to_string()]);
            assert_eq!(definition, "{ inner: T }");
        }
        TypeDeclaration::Primitive => panic!("expected a user type"),
    }
    let plain = Type::from_type("Plain".to_string(), Some((4, "type Plain = null;")));
    match ty_declaration(&plain) {
        TypeDeclaration::User { name, generics, .. } => {
            assert_eq!(name, "Plain");
            assert!(generics.is_empty());
        }
        TypeDeclaration::Primitive => panic!("expected a user type"),
    }
}

fn ty_declaration(ty: &Type) -> &TypeDeclaration {
    ty.declaration()
}

#[test]
fn sample_user() {
    let user = get_user("any".to_string());
    assert_eq!(user.name, "some user");
    assert_eq!(user.email, "email@example.com");
    assert_eq!(user.age, 100);
    assert_eq!(user.metadata.param_b, 123);
    assert!(user.metadata.param_c);
    assert!(user.metadata.param_a.is_empty());
}

#[test]
fn graph_parent_inserted_later() {
    let mut graph = Graph::new();
    let child = graph.insert_prefix(Some(qubit::graph::PrefixId(1)), "child");
    graph.insert_prefix(None, "root");
    graph.insert_item(child, 'x');
    assert_eq!(graph.iter(), [(vec![&"root", &"child"], &'x')]);
}

#[test]
fn stream_progress_counts_items_then_closes() {
    let mut progress = StreamProgress::new();
    assert_eq!(progress.step(StreamEvent::End), StreamAction::Close(0));
    let mut progress2 = StreamProgress::new();
    for _ in 0..3 {
        assert_eq!(progress2.step(StreamEvent::Item), StreamAction::Send);
    }
    assert_eq!(progress2.count(), 3);
    assert_eq!(progress2.step(StreamEvent::End), StreamAction::Close(3));
    assert_eq!(progress.count(), 0);
}

#[test]
fn reflect_type_name_is_trimmed() {
    let ty = Type::from_type("Foo".to_string(), Some((11, "type Foo = { a: number };")));
    match ty_declaration(&ty) {
        TypeDeclaration::User { type_id, name, generics, definition } => {
            assert_eq!(*type_id, 11);
            assert_eq!(name, "Foo");
            assert!(generics.is_empty());
            assert_eq!(definition, "{ a: number }");
        }
        TypeDeclaration::Primitive => panic!("expected a user type"),
    }
    let generic = Type::from_type("Foo<A, B>".to_string(), Some((12, "type Foo<A, B> = A;")));
    match ty_declaration(&generic) {
        TypeDeclaration::User { name, generics, definition, .. } => {
            assert_eq!(name, "Foo");
            assert_eq!(generics, &vec!["A".to_string(), "B".to_string()]);
            assert_eq!(definition, "A");
        }
        TypeDeclaration::Primitive => panic!("expected a user type"),
    }
}

#[test]
fn nested_registrations_prefix_method_names() {
    let inner: Vec<(Option<String>, &'static str, u32)> = vec![(None, "name", 7)];
    let mut mid: Vec<(Option<String>, &'static str, u32)> = vec![(None, "own", 1)];
    nest_registrations(&mut mid, "b", inner);
    let mut outer: Vec<(Option<String>, &'static str, u32)> = vec![];
    nest_registrations(&mut outer, "a", mid);
    let names: Vec<String> = outer.iter().map(|(p, n, _)| method_name(p.as_deref(), n)).collect();
    assert_eq!(names, vec!["a.own".to_string(), "a.b.name".to_string()]);
    assert_eq!(outer[1].2, 7);
}
