//! The upload scalar: a file handed in through a request. The metadata is
//! plain data; the file's contents stay with the caller behind the handle in
//! [`UploadValue`], so reading the file is the caller's job.

use vstd::prelude::*;
use crate::error::InputValueError;
use crate::registry::MetaType;
use crate::registry::Registry;
use crate::types::InputValueType;
use crate::types::unwrapped;
use crate::value::UploadValue;
use crate::value::Value;
use crate::value::ValueModel;

verus! {

/// An uploaded file. Parsing accepts exactly the upload variant of a value;
/// serializing reports null, because a file is deliberately write-only: its
/// contents never round-trip through a query value.
pub struct Upload(pub UploadValue);

impl Upload {
    /// The file name the client sent.
    pub fn filename(&self) -> (r: &str)
        ensures
            r@ == self.0.filename@,
    {
        self.0.filename.as_str()
    }

    /// The content type the client sent, such as `application/json`.
    pub fn content_type(&self) -> (r: Option<&str>)
        ensures
            match r {
                Some(s) => self.0.content_type is Some && s@ == self.0.content_type->0@,
                None => self.0.content_type is None,
            },
    {
        match &self.0.content_type {
            Some(s) => Some(s.as_str()),
            None => None,
        }
    }

    /// The caller-side handle of the file contents; resolving it to a real
    /// file, and everything read from that file, is the caller's business.
    pub fn content_handle(&self) -> (r: u64)
        ensures
            r == self.0.content,
    {
        self.0.content
    }

    /// Register the upload scalar: a fresh registry gains exactly the
    /// scalar entry named `Upload` with no description, and a registry that
    /// already holds the name is left untouched.
    pub fn create_type_info(registry: &mut Registry) -> (r: String)
        requires
            old(registry).wf(),
        ensures
            final(registry).wf(),
            r@ == "Upload"@,
            old(registry).spec_get("Upload"@) is None ==> match final(registry).spec_get(
                "Upload"@,
            ) {
                Some(m) => m matches MetaType::Scalar { name, description }
                    && name@ == "Upload"@ && description is None,
                None => false,
            },
            old(registry).spec_get("Upload"@) is Some ==> *final(registry) == *old(registry),
            forall|n: Seq<char>| n != "Upload"@
                ==> final(registry).spec_get(n) == old(registry).spec_get(n),
    {
        registry.create_type(MetaType::Scalar {
            name: String::from_str("Upload"),
            description: None,
        })
    }

    /// The name the scalar registers under.
    pub fn schema_name() -> (r: String)
        ensures
            r@ == "Upload"@,
    {
        String::from_str("Upload")
    }
}

impl InputValueType for Upload {
    open spec fn spec_write_only() -> bool {
        true
    }

    open spec fn spec_parse(value: Value) -> Option<Upload> {
        match value {
            Value::Upload(u) => Some(Upload(u)),
            _ => None,
        }
    }

    open spec fn spec_to_value(v: Upload) -> ValueModel {
        ValueModel::Null
    }

    fn parse(value: Option<Value>) -> (r: Result<Upload, InputValueError>) {
        let v = match value {
            Some(v) => v,
            None => Value::Null,
        };
        match v {
            Value::Upload(u) => Ok(Upload(u)),
            other => Err(InputValueError::ExpectedType(other)),
        }
    }

    fn to_value(&self) -> (r: Value) {
        Value::Null
    }

    proof fn lemma_round_trip(v: Upload, w: Value) {
    }
}

} // verus!
