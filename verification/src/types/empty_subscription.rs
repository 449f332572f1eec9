//! The placeholder subscription root: it registers a zero-field type and its
//! one producible stream immediately fails with a subscriptions-not-
//! configured error. It exists purely as the default when no subscription
//! root is supplied.

use vstd::prelude::*;
use crate::Pos;
use crate::error::Error;
use crate::error::ErrorModel;
use crate::error::QueryError;
use crate::error::QueryErrorModel;
use crate::registry::CacheControl;
use crate::registry::MetaType;
use crate::registry::Registry;
use crate::value::Value;

verus! {

/// The unconfigured subscription root.
#[derive(Clone, Copy, PartialEq, Eq, Structural, Debug)]
pub struct EmptySubscription;

/// The lazy sequence the empty subscription produces: one
/// subscriptions-not-configured error, then nothing.
pub struct OnceErrorStream {
    pub fired: bool,
}

impl OnceErrorStream {
    /// The next element of the sequence.
    pub fn next(&mut self) -> (r: Option<Result<Value, Error>>)
        ensures
            final(self).fired == true,
            match r {
                Some(item) => {
                    &&& old(self).fired == false
                    &&& item is Err
                    &&& item->Err_0.model() == ErrorModel::Query {
                        pos: Pos { line: 0, column: 0 },
                        path: None,
                        err: QueryErrorModel::NotConfiguredSubscriptions,
                    }
                },
                None => old(self).fired == true,
            },
    {
        if self.fired {
            None
        } else {
            self.fired = true;
            Some(
                Err(
                    Error::Query {
                        pos: Pos::origin(),
                        path: None,
                        err: QueryError::NotConfiguredSubscriptions,
                    },
                ),
            )
        }
    }
}

impl EmptySubscription {
    /// The name the type registers under.
    pub fn schema_name() -> (r: String)
        ensures
            r@ == "EmptySubscription"@,
    {
        String::from_str("EmptySubscription")
    }

    /// Register the zero-field subscription type: a fresh registry gains
    /// exactly the object entry named `EmptySubscription` with no
    /// description, an empty field table, the default cache hint and no
    /// federation marks; a registry that already holds the name is left
    /// untouched.
    pub fn create_type_info(registry: &mut Registry) -> (r: String)
        requires
            old(registry).wf(),
        ensures
            final(registry).wf(),
            r@ == "EmptySubscription"@,
            old(registry).spec_get("EmptySubscription"@) is None
                ==> match final(registry).spec_get("EmptySubscription"@) {
                Some(m) => match m {
                    MetaType::Object { name, description, fields, cache_control, extends, keys }
                        => {
                        &&& name@ == "EmptySubscription"@
                        &&& description is None
                        &&& fields@.len() == 0
                        &&& cache_control == (CacheControl { public: true, max_age: 0 })
                        &&& extends == false
                        &&& keys is None
                    },
                    _ => false,
                },
                None => false,
            },
            old(registry).spec_get("EmptySubscription"@) is Some
                ==> *final(registry) == *old(registry),
            forall|n: Seq<char>| n != "EmptySubscription"@
                ==> final(registry).spec_get(n) == old(registry).spec_get(n),
    {
        registry.create_type(MetaType::Object {
            name: String::from_str("EmptySubscription"),
            description: None,
            fields: Vec::new(),
            cache_control: CacheControl { public: true, max_age: 0 },
            extends: false,
            keys: None,
        })
    }

    /// The subscription root is the empty placeholder.
    pub fn is_empty() -> (r: bool)
        ensures
            r == true,
    {
        true
    }

    /// The one stream this root can produce: it fails immediately with a
    /// subscriptions-not-configured error.
    pub fn create_field_stream(&self) -> (s: OnceErrorStream)
        ensures
            s.fired == false,
    {
        OnceErrorStream { fired: false }
    }
}

} // verus!
