//! The capability interfaces leaf types implement, and the leaf types the
//! library ships: input parsing with its round-trip law, output conversion,
//! the upload scalar and the placeholder subscription root.

use vstd::prelude::*;
use crate::error::InputValueError;
use crate::value::Value;
use crate::value::ValueModel;

pub mod empty_subscription;
pub mod upload;

verus! {

/// The value an absent input stands for.
pub open spec fn unwrapped(value: Option<Value>) -> Value {
    match value {
        Some(v) => v,
        None => Value::Null,
    }
}

/// A type whose values can be parsed from query input values and serialized
/// back for default-value and introspection use.
///
/// The law every implementer must prove: for every value and every
/// serialized form of it, parsing succeeds and re-serializing yields an
/// equal value — except for write-only types, whose serialized form is null
/// and documented as non-reversible.
pub trait InputValueType: Sized {
    /// Whether the serialized form deliberately carries no information.
    spec fn spec_write_only() -> bool;

    /// What a given input value parses to; absent means rejected.
    spec fn spec_parse(value: Value) -> Option<Self>;

    /// The serialized form of a value.
    spec fn spec_to_value(v: Self) -> ValueModel;

    /// Parse an optional input value; an absent input is treated as null. A
    /// rejected value comes back inside the error.
    fn parse(value: Option<Value>) -> (r: Result<Self, InputValueError>)
        ensures
            match r {
                Ok(v) => Self::spec_parse(unwrapped(value)) == Some(v),
                Err(e) => Self::spec_parse(unwrapped(value)) is None
                    && e == InputValueError::ExpectedType(unwrapped(value)),
            },
    ;

    /// Serialize a value back.
    fn to_value(&self) -> (r: Value)
        ensures
            r.model() == Self::spec_to_value(*self),
    ;

    /// The round-trip law: parsing any serialized form of a value yields a
    /// value with the same serialized form.
    proof fn lemma_round_trip(v: Self, w: Value)
        requires
            w.model() == Self::spec_to_value(v),
        ensures
            !Self::spec_write_only() ==> match Self::spec_parse(w) {
                Some(u) => Self::spec_to_value(u) == Self::spec_to_value(v),
                None => false,
            },
    ;
}

/// A type whose values convert to an output value. Composite types go
/// through the resolution protocol instead; leaf types convert directly.
pub trait OutputValueType: Sized {
    /// The output this value converts to.
    spec fn spec_output(self) -> ValueModel;

    /// Convert the value.
    fn resolve(&self) -> (r: Value)
        ensures
            r.model() == self.spec_output(),
    ;
}

impl InputValueType for bool {
    open spec fn spec_write_only() -> bool {
        false
    }

    open spec fn spec_parse(value: Value) -> Option<bool> {
        match value {
            Value::Bool(b) => Some(b),
            _ => None,
        }
    }

    open spec fn spec_to_value(v: bool) -> ValueModel {
        ValueModel::Bool(v)
    }

    fn parse(value: Option<Value>) -> (r: Result<bool, InputValueError>) {
        let v = match value {
            Some(v) => v,
            None => Value::Null,
        };
        match v {
            Value::Bool(b) => Ok(b),
            other => Err(InputValueError::ExpectedType(other)),
        }
    }

    fn to_value(&self) -> (r: Value) {
        Value::Bool(*self)
    }

    proof fn lemma_round_trip(v: bool, w: Value) {
    }
}

impl OutputValueType for bool {
    open spec fn spec_output(self) -> ValueModel {
        ValueModel::Bool(self)
    }

    fn resolve(&self) -> (r: Value) {
        Value::Bool(*self)
    }
}

impl InputValueType for i64 {
    open spec fn spec_write_only() -> bool {
        false
    }

    open spec fn spec_parse(value: Value) -> Option<i64> {
        match value {
            Value::Int(i) => Some(i),
            _ => None,
        }
    }

    open spec fn spec_to_value(v: i64) -> ValueModel {
        ValueModel::Int(v)
    }

    fn parse(value: Option<Value>) -> (r: Result<i64, InputValueError>) {
        let v = match value {
            Some(v) => v,
            None => Value::Null,
        };
        match v {
            Value::Int(i) => Ok(i),
            other => Err(InputValueError::ExpectedType(other)),
        }
    }

    fn to_value(&self) -> (r: Value) {
        Value::Int(*self)
    }

    proof fn lemma_round_trip(v: i64, w: Value) {
    }
}

impl OutputValueType for i64 {
    open spec fn spec_output(self) -> ValueModel {
        ValueModel::Int(self)
    }

    fn resolve(&self) -> (r: Value) {
        Value::Int(*self)
    }
}

impl InputValueType for String {
    open spec fn spec_write_only() -> bool {
        false
    }

    open spec fn spec_parse(value: Value) -> Option<String> {
        match value {
            Value::Str(s) => Some(s),
            _ => None,
        }
    }

    open spec fn spec_to_value(v: String) -> ValueModel {
        ValueModel::Str(v@)
    }

    fn parse(value: Option<Value>) -> (r: Result<String, InputValueError>) {
        let v = match value {
            Some(v) => v,
            None => Value::Null,
        };
        match v {
            Value::Str(s) => Ok(s),
            other => Err(InputValueError::ExpectedType(other)),
        }
    }

    fn to_value(&self) -> (r: Value) {
        Value::Str(self.clone())
    }

    proof fn lemma_round_trip(v: String, w: Value) {
    }
}

impl OutputValueType for String {
    open spec fn spec_output(self) -> ValueModel {
        ValueModel::Str(self@)
    }

    fn resolve(&self) -> (r: Value) {
        Value::Str(self.clone())
    }
}

} // verus!
