use graphql_core::error::InputValueError;
use graphql_core::registry::Registry;
use graphql_core::types::InputValueType;
use graphql_core::types::OutputValueType;
use graphql_core::types::empty_subscription::EmptySubscription;
use graphql_core::types::upload::Upload;
use graphql_core::value::{UploadValue, Value};
use graphql_core::error::{Error, QueryError};

fn veq(a: &Value, b: &Value) -> bool {
    match (a, b) {
        (Value::Null, Value::Null) => true,
        (Value::Bool(x), Value::Bool(y)) => x == y,
        (Value::Int(x), Value::Int(y)) => x == y,
        (Value::Str(x), Value::Str(y)) => x == y,
        (Value::List(xs), Value::List(ys)) => {
            xs.len() == ys.len() && xs.iter().zip(ys.iter()).all(|(x, y)| veq(x, y))
        }
        (Value::Object(xs), Value::Object(ys)) => {
            xs.len() == ys.len()
                && xs.iter().zip(ys.iter()).all(|(x, y)| x.0 == y.0 && veq(&x.1, &y.1))
        }
        (Value::Upload(x), Value::Upload(y)) => {
            x.filename == y.filename && x.content_type == y.content_type && x.content == y.content
        }
        _ => false,
    }
}

/// Round trip: parsing a serialized integer and re-serializing yields an
/// equal value.
#[test]
fn int_round_trips() {
    let v: i64 = -12345;
    let w = v.to_value();
    assert!(veq(&w, &Value::Int(-12345)));
    let u = <i64 as InputValueType>::parse(Some(w)).unwrap();
    assert!(veq(&u.to_value(), &v.to_value()));
}

/// Round trip: parsing a serialized string and re-serializing yields an
/// equal value.
#[test]
fn string_round_trips() {
    let v = "hello".to_string();
    let w = v.to_value();
    let u = <String as InputValueType>::parse(Some(w)).unwrap();
    assert!(veq(&u.to_value(), &v.to_value()));
}

/// Round trip: parsing a serialized boolean and re-serializing yields an
/// equal value.
#[test]
fn bool_round_trips() {
    let v = true;
    let w = v.to_value();
    let u = <bool as InputValueType>::parse(Some(w)).unwrap();
    assert!(veq(&u.to_value(), &v.to_value()));
}

/// A value of the wrong shape is rejected with the offending value.
#[test]
fn wrong_shape_is_rejected() {
    match <i64 as InputValueType>::parse(Some(Value::Str("x".to_string()))) {
        Err(InputValueError::ExpectedType(Value::Str(s))) => assert_eq!(s, "x"),
        _ => panic!("expected a type error"),
    }
    // An absent input reads as null, which an integer rejects.
    assert!(<i64 as InputValueType>::parse(None).is_err());
}

/// Leaf output conversion produces the leaf value.
#[test]
fn leaf_output_conversion() {
    assert!(veq(&OutputValueType::resolve(&7i64), &Value::Int(7)));
    assert!(veq(
        &OutputValueType::resolve(&"s".to_string()),
        &Value::Str("s".to_string()),
    ));
    assert!(veq(&OutputValueType::resolve(&false), &Value::Bool(false)));
}

fn upload_value() -> UploadValue {
    UploadValue {
        filename: "notes.txt".to_string(),
        content_type: Some("text/plain".to_string()),
        content: 11,
    }
}

/// The upload scalar parses exactly the upload variant and exposes its
/// metadata.
#[test]
fn upload_parses_upload_values() {
    let up = <Upload as InputValueType>::parse(Some(Value::Upload(upload_value()))).unwrap();
    assert_eq!(up.filename(), "notes.txt");
    assert_eq!(up.content_type(), Some("text/plain"));
    assert_eq!(up.content_handle(), 11);
    match <Upload as InputValueType>::parse(Some(Value::Int(1))) {
        Err(InputValueError::ExpectedType(_)) => {}
        _ => panic!("expected a type error"),
    }
}

/// The upload scalar is write-only: its serialized form is null.
#[test]
fn upload_is_write_only() {
    let up = <Upload as InputValueType>::parse(Some(Value::Upload(upload_value()))).unwrap();
    assert!(veq(&up.to_value(), &Value::Null));
}

/// The upload scalar registers under its name.
#[test]
fn upload_registers_as_scalar() {
    let mut registry = Registry::new();
    let name = Upload::create_type_info(&mut registry);
    assert_eq!(name, "Upload");
    assert!(registry.contains(&"Upload".to_string()));
}

/// The empty subscription's one stream immediately fails with a
/// subscriptions-not-configured error, then ends.
#[test]
fn empty_subscription_stream_fails_once() {
    let sub = EmptySubscription;
    assert!(EmptySubscription::is_empty());
    let mut stream = sub.create_field_stream();
    match stream.next() {
        Some(Err(Error::Query { err: QueryError::NotConfiguredSubscriptions, path, pos })) => {
            assert!(path.is_none());
            assert_eq!(pos.line, 0);
            assert_eq!(pos.column, 0);
        }
        _ => panic!("expected the configuration error"),
    }
    assert!(stream.next().is_none());
    let mut registry = Registry::new();
    let name = EmptySubscription::create_type_info(&mut registry);
    assert_eq!(name, "EmptySubscription");
}

/// A deep copy of a value carries the same model.
#[test]
fn duplicate_is_deep() {
    let v = Value::Object(vec![
        ("xs".to_string(), Value::List(vec![Value::Int(1), Value::Null])),
        ("s".to_string(), Value::Str("t".to_string())),
    ]);
    let w = v.duplicate();
    assert!(veq(&v, &w));
}
