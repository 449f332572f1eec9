use graphql_core::Pos;
use graphql_core::engine::resolve_object;
use graphql_core::env::{DataMap, QueryEnv, SchemaEnv};
use graphql_core::error::{Error, PathSegment, QueryError};
use graphql_core::extensions::{Extensions, NullExtension, RecordingExtension, ResolveInfo, StaticContribution};
use graphql_core::path::PathArena;
use graphql_core::query::{SelectionField, SelectionSet};
use graphql_core::query_root::{QueryRoot, execute};
use graphql_core::registry::{CacheControl, MetaField, MetaType, MetaTypeRef, Registry};
use graphql_core::resolve::{FieldSource, ObjectSource};
use graphql_core::value::{Value, Variables};

fn field(name: &str, sub: Vec<SelectionField>) -> SelectionField {
    SelectionField {
        name: name.to_string(),
        arguments: vec![],
        pos: Pos { line: 1, column: 2 },
        selection_set: SelectionSet { items: sub },
    }
}

fn mf(name: &str, ty: MetaTypeRef) -> MetaField {
    MetaField {
        name: name.to_string(),
        description: None,
        args: vec![],
        ty,
        deprecation: None,
        cache_control: CacheControl { public: true, max_age: 0 },
        external: false,
        requires_fields: None,
        provides_fields: None,
    }
}

fn named(name: &str, non_null: bool) -> MetaTypeRef {
    MetaTypeRef::Named { name: name.to_string(), non_null }
}

fn object_meta(name: &str, fields: Vec<MetaField>) -> MetaType {
    MetaType::Object {
        name: name.to_string(),
        description: None,
        fields,
        cache_control: CacheControl { public: true, max_age: 0 },
        extends: false,
        keys: None,
    }
}

fn schema_with_query(fields: Vec<MetaField>) -> SchemaEnv {
    let mut registry = Registry::new();
    registry.create_type(object_meta("Query", fields));
    SchemaEnv { registry, data: DataMap::new() }
}

fn query_env() -> QueryEnv {
    QueryEnv::new(DataMap::new(), Variables::new())
}

fn as_object(v: &Value) -> &Vec<(String, Value)> {
    match v {
        Value::Object(entries) => entries,
        _ => panic!("not an object"),
    }
}

fn as_list(v: &Value) -> &Vec<Value> {
    match v {
        Value::List(items) => items,
        _ => panic!("not a list"),
    }
}

fn is_null(v: &Value) -> bool {
    matches!(v, Value::Null)
}

fn leaf_int(v: i64) -> FieldSource {
    FieldSource::Leaf(Value::Int(v))
}

/// The output object's key order equals the query's textual field order,
/// whatever order the outcomes were recorded in.
#[test]
fn selection_order_is_textual_order() {
    let schema = schema_with_query(vec![
        mf("a", named("Int", false)),
        mf("b", named("Int", false)),
        mf("c", named("Int", false)),
    ]);
    // Source order deliberately differs from selection order.
    let src = ObjectSource {
        ty_name: "Query".to_string(),
        fields: vec![
            ("a".to_string(), leaf_int(1)),
            ("b".to_string(), leaf_int(2)),
            ("c".to_string(), leaf_int(3)),
        ],
    };
    let sel = SelectionSet {
        items: vec![field("c", vec![]), field("a", vec![]), field("b", vec![])],
    };
    let mut env = query_env();
    let mut path = PathArena::new();
    let mut ext = Extensions::<NullExtension>::new(Vec::new());
    let mut errors: Vec<Error> = Vec::new();
    let out = resolve_object(
        &schema,
        &mut env,
        &"Query".to_string(),
        &sel,
        &src,
        &mut path,
        None,
        &mut ext,
        &mut errors,
    )
    .unwrap();
    let entries = as_object(&out);
    let keys: Vec<&str> = entries.iter().map(|e| e.0.as_str()).collect();
    assert_eq!(keys, vec!["c", "a", "b"]);
    assert!(errors.is_empty());
}

/// A nullable field whose resolver fails resolves to null and its error is
/// recorded with the right path; siblings are untouched.
#[test]
fn nullable_field_failure_becomes_null() {
    let schema = schema_with_query(vec![
        mf("ok", named("Int", false)),
        mf("bad", named("Int", false)),
    ]);
    let src = ObjectSource {
        ty_name: "Query".to_string(),
        fields: vec![
            ("ok".to_string(), leaf_int(7)),
            ("bad".to_string(), FieldSource::Fail("boom".to_string())),
        ],
    };
    let sel = SelectionSet { items: vec![field("ok", vec![]), field("bad", vec![])] };
    let mut env = query_env();
    let mut path = PathArena::new();
    let mut ext = Extensions::<NullExtension>::new(Vec::new());
    let mut errors: Vec<Error> = Vec::new();
    let out = resolve_object(
        &schema,
        &mut env,
        &"Query".to_string(),
        &sel,
        &src,
        &mut path,
        None,
        &mut ext,
        &mut errors,
    )
    .unwrap();
    let entries = as_object(&out);
    assert_eq!(entries[0].0, "ok");
    assert!(matches!(entries[0].1, Value::Int(7)));
    assert_eq!(entries[1].0, "bad");
    assert!(is_null(&entries[1].1));
    assert_eq!(errors.len(), 1);
    match &errors[0] {
        Error::Query { pos, path, err } => {
            assert_eq!(pos.line, 1);
            assert_eq!(pos.column, 2);
            let segs = path.as_ref().unwrap();
            assert_eq!(segs.len(), 1);
            match &segs[0] {
                PathSegment::Name(n) => assert_eq!(n, "bad"),
                _ => panic!("wrong segment"),
            }
            match err {
                QueryError::FieldError { message } => assert_eq!(message, "boom"),
                _ => panic!("wrong error"),
            }
        }
        _ => panic!("wrong error shape"),
    }
}

/// A non-null field whose resolver fails makes the nearest nullable ancestor
/// null and discards the deeper partial result.
#[test]
fn non_null_failure_bubbles_to_nullable_ancestor() {
    let mut registry = Registry::new();
    registry.create_type(object_meta(
        "Query",
        vec![mf("outer", named("Inner", false))],
    ));
    registry.create_type(object_meta(
        "Inner",
        vec![mf("good", named("Int", false)), mf("strict", named("Int", true))],
    ));
    let schema = SchemaEnv { registry, data: DataMap::new() };
    let inner = ObjectSource {
        ty_name: "Inner".to_string(),
        fields: vec![
            ("good".to_string(), leaf_int(1)),
            ("strict".to_string(), FieldSource::Fail("down".to_string())),
        ],
    };
    let src = ObjectSource {
        ty_name: "Query".to_string(),
        fields: vec![("outer".to_string(), FieldSource::Object(inner))],
    };
    let sel = SelectionSet {
        items: vec![field("outer", vec![field("good", vec![]), field("strict", vec![])])],
    };
    let mut env = query_env();
    let mut path = PathArena::new();
    let mut ext = Extensions::<NullExtension>::new(Vec::new());
    let mut errors: Vec<Error> = Vec::new();
    let out = resolve_object(
        &schema,
        &mut env,
        &"Query".to_string(),
        &sel,
        &src,
        &mut path,
        None,
        &mut ext,
        &mut errors,
    )
    .unwrap();
    let entries = as_object(&out);
    // The nearest nullable ancestor (outer) became null; the partial result
    // for `good` was discarded.
    assert_eq!(entries.len(), 1);
    assert_eq!(entries[0].0, "outer");
    assert!(is_null(&entries[0].1));
    assert_eq!(errors.len(), 1);
    match &errors[0] {
        Error::Query { path, .. } => {
            let segs = path.as_ref().unwrap();
            let names: Vec<String> = segs
                .iter()
                .map(|s| match s {
                    PathSegment::Name(n) => n.clone(),
                    PathSegment::Index(i) => i.to_string(),
                })
                .collect();
            assert_eq!(names, vec!["outer".to_string(), "strict".to_string()]);
        }
        _ => panic!("wrong error shape"),
    }
}

/// Failing elements of a list of nullable elements become nulls with indexed
/// paths.
#[test]
fn list_elements_fail_independently() {
    let schema = schema_with_query(vec![mf(
        "xs",
        MetaTypeRef::List {
            element: Box::new(named("Int", false)),
            non_null: false,
        },
    )]);
    let src = ObjectSource {
        ty_name: "Query".to_string(),
        fields: vec![(
            "xs".to_string(),
            FieldSource::List(vec![leaf_int(1), FieldSource::Fail("eek".to_string()), leaf_int(3)]),
        )],
    };
    let sel = SelectionSet { items: vec![field("xs", vec![])] };
    let mut env = query_env();
    let mut path = PathArena::new();
    let mut ext = Extensions::<NullExtension>::new(Vec::new());
    let mut errors: Vec<Error> = Vec::new();
    let out = resolve_object(
        &schema,
        &mut env,
        &"Query".to_string(),
        &sel,
        &src,
        &mut path,
        None,
        &mut ext,
        &mut errors,
    )
    .unwrap();
    let entries = as_object(&out);
    let xs = as_list(&entries[0].1);
    assert!(matches!(xs[0], Value::Int(1)));
    assert!(is_null(&xs[1]));
    assert!(matches!(xs[2], Value::Int(3)));
    assert_eq!(errors.len(), 1);
    match &errors[0] {
        Error::Query { path, .. } => {
            let segs = path.as_ref().unwrap();
            assert!(matches!(segs[0], PathSegment::Name(_)));
            match &segs[1] {
                PathSegment::Index(i) => assert_eq!(*i, 1),
                _ => panic!("wrong segment"),
            }
        }
        _ => panic!("wrong error shape"),
    }
}

/// A missing field is a field-not-found error naming the field and the type.
#[test]
fn unknown_field_is_field_not_found() {
    let schema = schema_with_query(vec![mf("a", named("Int", false))]);
    let src = ObjectSource {
        ty_name: "Query".to_string(),
        fields: vec![("a".to_string(), leaf_int(1))],
    };
    let sel = SelectionSet { items: vec![field("nope", vec![])] };
    let mut env = query_env();
    let mut path = PathArena::new();
    let mut ext = Extensions::<NullExtension>::new(Vec::new());
    let mut errors: Vec<Error> = Vec::new();
    let out = resolve_object(
        &schema,
        &mut env,
        &"Query".to_string(),
        &sel,
        &src,
        &mut path,
        None,
        &mut ext,
        &mut errors,
    );
    match out {
        Err(Error::Query { err: QueryError::FieldNotFound { field_name, object }, .. }) => {
            assert_eq!(field_name, "nope");
            assert_eq!(object, "Query");
        }
        _ => panic!("expected field-not-found"),
    }
}

/// Every resolve id appears exactly once as a start and once as an end, even
/// with a hundred fields resolving and some of them failing.
#[test]
fn resolve_ids_pair_start_and_end() {
    let mut fields = Vec::new();
    let mut outcomes = Vec::new();
    let mut sel_items = Vec::new();
    for i in 0..100 {
        let name = format!("f{}", i);
        fields.push(mf(&name, named("Int", false)));
        let outcome = if i % 7 == 0 {
            FieldSource::Fail(format!("fail {}", i))
        } else {
            leaf_int(i as i64)
        };
        outcomes.push((name.clone(), outcome));
        sel_items.push(field(&name, vec![]));
    }
    let schema = schema_with_query(fields);
    let src = ObjectSource { ty_name: "Query".to_string(), fields: outcomes };
    let sel = SelectionSet { items: sel_items };
    let mut env = query_env();
    let mut path = PathArena::new();
    let mut ext = Extensions::new(vec![RecordingExtension::new()]);
    let mut errors: Vec<Error> = Vec::new();
    let out = resolve_object(
        &schema,
        &mut env,
        &"Query".to_string(),
        &sel,
        &src,
        &mut path,
        None,
        &mut ext,
        &mut errors,
    );
    assert!(out.is_ok());
    let rec = &ext.members[0];
    assert_eq!(rec.starts.len(), 100);
    assert_eq!(rec.ends.len(), 100);
    let mut starts = rec.starts.clone();
    let mut ends = rec.ends.clone();
    starts.sort();
    ends.sort();
    starts.dedup();
    ends.dedup();
    assert_eq!(starts.len(), 100);
    assert_eq!(ends.len(), 100);
    assert_eq!(starts, ends);
    // Every error that was recorded reached the extension chain exactly once.
    assert_eq!(rec.errors_seen, errors.len());
}

/// Data lookup layering: a type registered in both scopes resolves to the
/// query-scoped value.
#[test]
fn query_scope_shadows_schema_scope() {
    let mut schema_data = DataMap::new();
    schema_data.insert("Config".to_string(), Value::Str("schema".to_string()));
    schema_data.insert("Only".to_string(), Value::Int(5));
    let mut registry = Registry::new();
    registry.create_type(object_meta("Query", vec![]));
    let schema = SchemaEnv { registry, data: schema_data };
    let mut ctx_data = DataMap::new();
    ctx_data.insert("Config".to_string(), Value::Str("query".to_string()));
    let env = QueryEnv::new(ctx_data, Variables::new());
    let path = PathArena::new();
    let rt = MetaTypeRef::Named { name: "Int".to_string(), non_null: false };
    let parent = "Query".to_string();
    let info = ResolveInfo {
        resolve_id: graphql_core::env::ResolveId(0),
        path_node: &path,
        path_tail: None,
        parent_type: &parent,
        return_type: &rt,
        schema_env: &schema,
        query_env: &env,
    };
    match info.data_opt(&"Config".to_string()) {
        Some(Value::Str(s)) => assert_eq!(s, "query"),
        _ => panic!("expected query-scoped value"),
    }
    match info.data_opt(&"Only".to_string()) {
        Some(Value::Int(5)) => {}
        _ => panic!("expected schema-scoped value"),
    }
    assert!(info.data_opt(&"Missing".to_string()).is_none());
    match info.data(&"Missing".to_string()) {
        Err(e) => assert_eq!(e.message, "Data `Missing` does not exist."),
        Ok(_) => panic!("expected an error"),
    }
    match info.data_unchecked(&"Only".to_string()) {
        Value::Int(5) => {}
        _ => panic!("expected schema-scoped value"),
    }
}

/// A full execution produces the stable response shape, and the extension
/// side channel is absent when no extension contributes.
#[test]
fn execute_produces_response_shape() {
    let schema = schema_with_query(vec![mf("answer", named("Int", false))]);
    let root = QueryRoot {
        inner: ObjectSource {
            ty_name: "Query".to_string(),
            fields: vec![("answer".to_string(), leaf_int(42))],
        },
        entities: vec![],
        disable_introspection: false,
    };
    let sel = SelectionSet { items: vec![field("answer", vec![])] };
    let mut env = query_env();
    let mut ext = Extensions::<NullExtension>::new(Vec::new());
    let resp = execute(&schema, &mut env, &root, &sel, &mut ext);
    let data = resp.data.expect("data expected");
    let entries = as_object(&data);
    assert_eq!(entries[0].0, "answer");
    assert!(matches!(entries[0].1, Value::Int(42)));
    assert!(resp.errors.is_empty());
    assert!(resp.extensions.is_none());
}

/// A failing result reported at the logging boundary reaches the chain once
/// and comes back unchanged.
#[test]
fn log_error_reports_failures_once() {
    let mut ext = Extensions::new(vec![RecordingExtension::new()]);
    let ok: Result<i64, Error> = Ok(1);
    let ok = graphql_core::extensions::log_error(ok, &mut ext);
    assert!(matches!(ok, Ok(1)));
    assert_eq!(ext.members[0].errors_seen, 0);
    let err: Result<i64, Error> = Err(Error::Parse { message: "bad".to_string() });
    let err = graphql_core::extensions::log_error(err, &mut ext);
    assert!(err.is_err());
    assert_eq!(ext.members[0].errors_seen, 1);
}

/// Two contributions under one name merge into a single entry; the later
/// contribution wins and the name keeps its first position.
#[test]
fn later_contribution_under_a_name_wins() {
    let mut ext = Extensions::new(vec![
        StaticContribution::new("tracing".to_string(), Value::Int(1)),
        StaticContribution::new("cache".to_string(), Value::Int(2)),
        StaticContribution::new("tracing".to_string(), Value::Int(3)),
    ]);
    match ext.result() {
        Some(Value::Object(entries)) => {
            assert_eq!(entries.len(), 2);
            assert_eq!(entries[0].0, "tracing");
            assert!(matches!(entries[0].1, Value::Int(3)));
            assert_eq!(entries[1].0, "cache");
            assert!(matches!(entries[1].1, Value::Int(2)));
        }
        _ => panic!("expected a merged object"),
    }
    // Members without a contribution leave the side channel absent.
    let mut empty = Extensions::new(vec![NullExtension]);
    assert!(empty.result().is_none());
}

/// A nullable root field whose resolver fails leaves a null entry in the
/// data and the error in the response list; siblings are untouched.
#[test]
fn nullable_root_failure_keeps_response_data() {
    let schema = schema_with_query(vec![
        mf("good", named("Int", false)),
        mf("bad", named("Int", false)),
    ]);
    let root = QueryRoot {
        inner: ObjectSource {
            ty_name: "Query".to_string(),
            fields: vec![
                ("good".to_string(), leaf_int(5)),
                ("bad".to_string(), FieldSource::Fail("nope".to_string())),
            ],
        },
        entities: vec![],
        disable_introspection: false,
    };
    let sel = SelectionSet { items: vec![field("good", vec![]), field("bad", vec![])] };
    let mut env = query_env();
    let mut ext = Extensions::<NullExtension>::new(Vec::new());
    let resp = execute(&schema, &mut env, &root, &sel, &mut ext);
    let data = resp.data.expect("data expected");
    let entries = as_object(&data);
    assert!(matches!(entries[0].1, Value::Int(5)));
    assert!(is_null(&entries[1].1));
    assert_eq!(resp.errors.len(), 1);
}
