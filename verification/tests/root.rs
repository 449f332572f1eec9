use graphql_core::Pos;
use graphql_core::env::{DataMap, QueryEnv, SchemaEnv};
use graphql_core::error::{Error, PathSegment, QueryError};
use graphql_core::extensions::{Extensions, NullExtension};
use graphql_core::model::export_sdl;
use graphql_core::path::PathArena;
use graphql_core::query::{SelectionField, SelectionSet};
use graphql_core::query_root::{QueryRoot, execute};
use graphql_core::engine::resolve_object;
use graphql_core::registry::{CacheControl, MetaField, MetaType, MetaTypeRef, Registry};
use graphql_core::resolve::{FieldSource, ObjectSource};
use graphql_core::value::{Value, Variables};

fn field(name: &str, args: Vec<(String, Value)>, sub: Vec<SelectionField>) -> SelectionField {
    SelectionField {
        name: name.to_string(),
        arguments: args,
        pos: Pos { line: 9, column: 4 },
        selection_set: SelectionSet { items: sub },
    }
}

fn mf(name: &str, ty: MetaTypeRef) -> MetaField {
    MetaField {
        name: name.to_string(),
        description: None,
        args: vec![],
        ty,
        deprecation: None,
        cache_control: CacheControl { public: true, max_age: 0 },
        external: false,
        requires_fields: None,
        provides_fields: None,
    }
}

fn named(name: &str, non_null: bool) -> MetaTypeRef {
    MetaTypeRef::Named { name: name.to_string(), non_null }
}

fn object_meta(name: &str, fields: Vec<MetaField>) -> MetaType {
    MetaType::Object {
        name: name.to_string(),
        description: None,
        fields,
        cache_control: CacheControl { public: true, max_age: 0 },
        extends: false,
        keys: None,
    }
}

fn simple_schema() -> SchemaEnv {
    let mut registry = Registry::new();
    registry.create_type(object_meta("Query", vec![mf("answer", named("Int", false))]));
    SchemaEnv { registry, data: DataMap::new() }
}

fn simple_root() -> QueryRoot {
    QueryRoot {
        inner: ObjectSource {
            ty_name: "Query".to_string(),
            fields: vec![("answer".to_string(), FieldSource::Leaf(Value::Int(42)))],
        },
        entities: vec![],
        disable_introspection: false,
    }
}

fn run_root_field(
    schema: &SchemaEnv,
    root: &QueryRoot,
    f: &SelectionField,
    errors: &mut Vec<Error>,
) -> Result<Value, Error> {
    let mut env = QueryEnv::new(DataMap::new(), Variables::new());
    let mut path = PathArena::new();
    let mut ext = Extensions::<NullExtension>::new(Vec::new());
    root.resolve_field(schema, &mut env, f, &mut path, &mut ext, errors)
}

fn as_object(v: &Value) -> &Vec<(String, Value)> {
    match v {
        Value::Object(entries) => entries,
        _ => panic!("not an object"),
    }
}

/// `__type` with an unknown name returns null, not an error.
#[test]
fn type_lookup_of_unknown_name_is_null() {
    let schema = simple_schema();
    let root = simple_root();
    let f = field(
        "__type",
        vec![("name".to_string(), Value::Str("NoSuchType".to_string()))],
        vec![],
    );
    let mut errors = Vec::new();
    let out = run_root_field(&schema, &root, &f, &mut errors).unwrap();
    assert!(matches!(out, Value::Null));
    assert!(errors.is_empty());
}

/// `__type` with a known name returns that type's introspection object.
#[test]
fn type_lookup_of_known_name_describes_it() {
    let schema = simple_schema();
    let root = simple_root();
    let f = field(
        "__type",
        vec![("name".to_string(), Value::Str("Query".to_string()))],
        vec![],
    );
    let mut errors = Vec::new();
    let out = run_root_field(&schema, &root, &f, &mut errors).unwrap();
    let entries = as_object(&out);
    assert_eq!(entries[0].0, "name");
    match &entries[0].1 {
        Value::Str(s) => assert_eq!(s, "Query"),
        _ => panic!("wrong name"),
    }
    assert_eq!(entries[1].0, "kind");
    match &entries[1].1 {
        Value::Str(s) => assert_eq!(s, "OBJECT"),
        _ => panic!("wrong kind"),
    }
}

/// `__schema` with introspection disabled fails with a field-not-found error
/// carrying the field's position.
#[test]
fn disabled_introspection_rejects_schema_field() {
    let schema = simple_schema();
    let mut root = simple_root();
    root.disable_introspection = true;
    let f = field("__schema", vec![], vec![]);
    let mut errors = Vec::new();
    match run_root_field(&schema, &root, &f, &mut errors) {
        Err(Error::Query { pos, err: QueryError::FieldNotFound { field_name, object }, .. }) => {
            assert_eq!(pos.line, 9);
            assert_eq!(pos.column, 4);
            assert_eq!(field_name, "__schema");
            assert_eq!(object, "Query");
        }
        _ => panic!("expected field-not-found"),
    }
}

/// `__schema` with introspection enabled describes the schema.
#[test]
fn enabled_introspection_serves_schema_field() {
    let schema = simple_schema();
    let root = simple_root();
    let f = field("__schema", vec![], vec![]);
    let mut errors = Vec::new();
    let out = run_root_field(&schema, &root, &f, &mut errors).unwrap();
    let entries = as_object(&out);
    assert_eq!(entries[0].0, "queryType");
    let qt = as_object(&entries[0].1);
    match &qt[0].1 {
        Value::Str(s) => assert_eq!(s, "Query"),
        _ => panic!("wrong query type"),
    }
    assert_eq!(entries[1].0, "types");
    match &entries[1].1 {
        Value::List(types) => assert_eq!(types.len(), 1),
        _ => panic!("wrong types"),
    }
}

fn rep(ty: &str) -> Value {
    Value::Object(vec![("__typename".to_string(), Value::Str(ty.to_string()))])
}

/// `_entities` preserves representation input order, and an unmatched
/// representation yields a per-element error without failing its siblings.
#[test]
fn entities_preserve_input_order() {
    let mut registry = Registry::new();
    registry.create_type(object_meta("Query", vec![]));
    registry.create_type(object_meta("User", vec![mf("name", named("String", false))]));
    let schema = SchemaEnv { registry, data: DataMap::new() };
    let root = QueryRoot {
        inner: ObjectSource { ty_name: "Query".to_string(), fields: vec![] },
        entities: vec![(
            "User".to_string(),
            FieldSource::Object(ObjectSource {
                ty_name: "User".to_string(),
                fields: vec![(
                    "name".to_string(),
                    FieldSource::Leaf(Value::Str("alice".to_string())),
                )],
            }),
        )],
        disable_introspection: false,
    };
    let reps = Value::List(vec![rep("User"), rep("Unknown"), rep("User")]);
    let f = field(
        "_entities",
        vec![("representations".to_string(), reps)],
        vec![field("name", vec![], vec![])],
    );
    let mut errors = Vec::new();
    let out = run_root_field(&schema, &root, &f, &mut errors).unwrap();
    match &out {
        Value::List(items) => {
            assert_eq!(items.len(), 3);
            let first = as_object(&items[0]);
            assert_eq!(first[0].0, "name");
            assert!(matches!(items[1], Value::Null));
            let third = as_object(&items[2]);
            match &third[0].1 {
                Value::Str(s) => assert_eq!(s, "alice"),
                _ => panic!("wrong entity"),
            }
        }
        _ => panic!("not a list"),
    }
    assert_eq!(errors.len(), 1);
    match &errors[0] {
        Error::Query { path, err: QueryError::EntityNotFound, .. } => {
            let segs = path.as_ref().unwrap();
            match &segs[1] {
                PathSegment::Index(i) => assert_eq!(*i, 1),
                _ => panic!("wrong segment"),
            }
        }
        _ => panic!("wrong error"),
    }
}

/// A malformed representations argument is a type error.
#[test]
fn entities_require_a_list() {
    let schema = simple_schema();
    let root = simple_root();
    let f = field(
        "_entities",
        vec![("representations".to_string(), Value::Int(3))],
        vec![],
    );
    let mut errors = Vec::new();
    match run_root_field(&schema, &root, &f, &mut errors) {
        Err(Error::Query { err: QueryError::ExpectedType { expect }, .. }) => {
            assert_eq!(expect, "[_Any!]!");
        }
        _ => panic!("expected a type error"),
    }
}

/// `_service` returns a one-field object carrying the exported schema text.
#[test]
fn service_field_carries_sdl() {
    let schema = simple_schema();
    let root = simple_root();
    let f = field("_service", vec![], vec![]);
    let mut errors = Vec::new();
    let out = run_root_field(&schema, &root, &f, &mut errors).unwrap();
    let entries = as_object(&out);
    assert_eq!(entries.len(), 1);
    assert_eq!(entries[0].0, "sdl");
    match &entries[0].1 {
        Value::Str(s) => assert_eq!(s, "type Query {\n  answer: Int\n}\n"),
        _ => panic!("wrong sdl"),
    }
}

/// The exported schema text renders list and non-null type references.
#[test]
fn sdl_renders_type_modifiers() {
    let mut registry = Registry::new();
    registry.create_type(object_meta(
        "Query",
        vec![mf(
            "xs",
            MetaTypeRef::List {
                element: Box::new(named("Int", true)),
                non_null: true,
            },
        )],
    ));
    let sdl = export_sdl(&registry);
    assert_eq!(sdl, "type Query {\n  xs: [Int!]!\n}\n");
}

/// Any other root field is delegated to the inner root unchanged.
#[test]
fn other_fields_are_delegated() {
    let schema = simple_schema();
    let root = simple_root();
    let f = field("answer", vec![], vec![]);
    let mut errors = Vec::new();
    let out = run_root_field(&schema, &root, &f, &mut errors).unwrap();
    assert!(matches!(out, Value::Int(42)));
}

/// The two-step build: the inner type registers itself first, then its
/// registry entry gains the two introspection fields in place.
#[test]
fn create_type_info_injects_introspection_fields() {
    let mut registry = Registry::new();
    let root = QueryRoot {
        inner: ObjectSource { ty_name: "Query".to_string(), fields: vec![] },
        entities: vec![],
        disable_introspection: false,
    };
    let inner_meta = object_meta("Query", vec![mf("answer", named("Int", false))]);
    let name = root.create_type_info(&mut registry, inner_meta);
    assert_eq!(name, "Query");
    assert!(registry.contains(&"__Schema".to_string()));
    assert!(registry.contains(&"__Type".to_string()));
    assert!(registry.contains(&"_Service".to_string()));
    match registry.get(&"Query".to_string()) {
        Some(MetaType::Object { fields, .. }) => {
            let names: Vec<&str> = fields.iter().map(|f| f.name.as_str()).collect();
            assert_eq!(names, vec!["answer", "__schema", "__type"]);
        }
        _ => panic!("inner type missing"),
    }
}

/// Registration is idempotent: a second registration of the same name keeps
/// the existing entry untouched.
#[test]
fn create_type_is_idempotent() {
    let mut registry = Registry::new();
    registry.create_type(object_meta("Query", vec![mf("a", named("Int", false))]));
    let before = registry.metas.len();
    registry.create_type(object_meta("Query", vec![]));
    assert_eq!(registry.metas.len(), before);
    match registry.get(&"Query".to_string()) {
        Some(MetaType::Object { fields, .. }) => assert_eq!(fields.len(), 1),
        _ => panic!("entry lost"),
    }
}

/// A fatal root failure aborts the whole response: no data, only errors.
#[test]
fn fatal_root_failure_aborts_response() {
    let schema = simple_schema();
    let mut root = simple_root();
    root.disable_introspection = true;
    let sel = SelectionSet {
        items: vec![field("answer", vec![], vec![]), field("__schema", vec![], vec![])],
    };
    let mut env = QueryEnv::new(DataMap::new(), Variables::new());
    let mut ext = Extensions::<NullExtension>::new(Vec::new());
    let resp = execute(&schema, &mut env, &root, &sel, &mut ext);
    assert!(resp.data.is_none());
    assert_eq!(resp.errors.len(), 1);
}

/// A failing element of a list of non-null elements fails the list itself,
/// and the nullable list field becomes null.
#[test]
fn non_null_list_element_fails_the_list() {
    let mut registry = Registry::new();
    registry.create_type(object_meta(
        "Query",
        vec![mf(
            "xs",
            MetaTypeRef::List {
                element: Box::new(named("Int", true)),
                non_null: false,
            },
        )],
    ));
    let schema = SchemaEnv { registry, data: DataMap::new() };
    let src = ObjectSource {
        ty_name: "Query".to_string(),
        fields: vec![(
            "xs".to_string(),
            FieldSource::List(vec![
                FieldSource::Leaf(Value::Int(1)),
                FieldSource::Fail("eek".to_string()),
            ]),
        )],
    };
    let sel = SelectionSet { items: vec![field("xs", vec![], vec![])] };
    let mut env = QueryEnv::new(DataMap::new(), Variables::new());
    let mut path = PathArena::new();
    let mut ext = Extensions::<NullExtension>::new(Vec::new());
    let mut errors: Vec<Error> = Vec::new();
    let out = resolve_object(
        &schema,
        &mut env,
        &"Query".to_string(),
        &sel,
        &src,
        &mut path,
        None,
        &mut ext,
        &mut errors,
    )
    .unwrap();
    match &out {
        Value::Object(entries) => {
            assert_eq!(entries[0].0, "xs");
            assert!(matches!(entries[0].1, Value::Null));
        }
        _ => panic!("not an object"),
    }
    assert_eq!(errors.len(), 1);
}

/// The builder-generated objects are resolved against the field's own
/// selection set: only the requested fields come back, in selection order.
#[test]
fn introspection_is_projected_by_the_selection() {
    let schema = simple_schema();
    let root = simple_root();
    let f = field(
        "__schema",
        vec![],
        vec![field("queryType", vec![], vec![field("name", vec![], vec![])])],
    );
    let mut errors = Vec::new();
    let out = run_root_field(&schema, &root, &f, &mut errors).unwrap();
    let entries = as_object(&out);
    assert_eq!(entries.len(), 1);
    assert_eq!(entries[0].0, "queryType");
    let qt = as_object(&entries[0].1);
    assert_eq!(qt.len(), 1);
    assert_eq!(qt[0].0, "name");
    match &qt[0].1 {
        Value::Str(s) => assert_eq!(s, "Query"),
        _ => panic!("wrong query type"),
    }
    // A requested field the object does not carry reads as null.
    let f = field("_service", vec![], vec![field("nope", vec![], vec![])]);
    let out = run_root_field(&schema, &root, &f, &mut errors).unwrap();
    let entries = as_object(&out);
    assert_eq!(entries.len(), 1);
    assert_eq!(entries[0].0, "nope");
    assert!(matches!(entries[0].1, Value::Null));
    // `__type` projects too.
    let f = field(
        "__type",
        vec![("name".to_string(), Value::Str("Query".to_string()))],
        vec![field("kind", vec![], vec![])],
    );
    let out = run_root_field(&schema, &root, &f, &mut errors).unwrap();
    let entries = as_object(&out);
    assert_eq!(entries.len(), 1);
    assert_eq!(entries[0].0, "kind");
    match &entries[0].1 {
        Value::Str(s) => assert_eq!(s, "OBJECT"),
        _ => panic!("wrong kind"),
    }
}

/// Registering the root a second time injects into the existing entry and
/// leaves unrelated entries untouched.
#[test]
fn create_type_info_handles_registered_roots_and_frames_others() {
    let mut registry = Registry::new();
    registry.create_type(object_meta("Other", vec![mf("x", named("Int", false))]));
    registry.create_type(object_meta("Query", vec![mf("answer", named("Int", false))]));
    let root = QueryRoot {
        inner: ObjectSource { ty_name: "Query".to_string(), fields: vec![] },
        entities: vec![],
        disable_introspection: false,
    };
    // The inner name is already registered: injection lands in the existing
    // entry, whose own fields survive.
    let name = root.create_type_info(&mut registry, object_meta("Query", vec![]));
    assert_eq!(name, "Query");
    match registry.get(&"Query".to_string()) {
        Some(MetaType::Object { fields, .. }) => {
            let names: Vec<&str> = fields.iter().map(|f| f.name.as_str()).collect();
            assert_eq!(names, vec!["answer", "__schema", "__type"]);
            let ty_arg = &fields[2].args[0];
            assert_eq!(ty_arg.name, "name");
            match &ty_arg.ty {
                MetaTypeRef::Named { name, non_null } => {
                    assert_eq!(name, "String");
                    assert!(*non_null);
                }
                _ => panic!("wrong argument type"),
            }
            assert!(fields[1].args.is_empty());
        }
        _ => panic!("inner type missing"),
    }
    // Unrelated entries are untouched.
    match registry.get(&"Other".to_string()) {
        Some(MetaType::Object { fields, .. }) => assert_eq!(fields.len(), 1),
        _ => panic!("unrelated entry disturbed"),
    }
}
