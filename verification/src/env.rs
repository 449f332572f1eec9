//! The two-scope environment: a schema-lifetime data store plus the
//! registry, and a request-lifetime data store plus the variables and the
//! resolve-id source. Both stores are filled before execution and only read
//! afterwards.

use vstd::prelude::*;
use crate::registry::Registry;
use crate::value::Value;
use crate::value::Variables;

verus! {

/// A read-only store of values keyed by a caller-chosen type key. Inserting
/// under a key that is already present shadows the older value.
pub struct DataMap {
    pub entries: Vec<(String, Value)>,
}

/// The value the most recent insertion stored under a key.
pub open spec fn spec_data_lookup(entries: Seq<(String, Value)>, key: Seq<char>) -> Option<Value>
    decreases entries,
{
    if entries.len() == 0 {
        None
    } else if entries.last().0@ == key {
        Some(entries.last().1)
    } else {
        spec_data_lookup(entries.drop_last(), key)
    }
}

impl DataMap {
    pub open spec fn spec_get(self, key: Seq<char>) -> Option<Value> {
        spec_data_lookup(self.entries@, key)
    }

    pub fn new() -> (r: DataMap)
        ensures
            r.entries@.len() == 0,
            forall|k: Seq<char>| r.spec_get(k) is None,
    {
        DataMap { entries: Vec::new() }
    }

    /// Store a value under a key, shadowing any earlier value for it.
    pub fn insert(&mut self, key: String, value: Value)
        ensures
            final(self).spec_get(key@) == Some(value),
            forall|k: Seq<char>| k != key@ ==> final(self).spec_get(k) == old(self).spec_get(k),
    {
        self.entries.push((key, value));
        proof {
            assert(self.entries@.drop_last() =~= old(self).entries@);
        }
    }

    /// Look a value up by its key.
    pub fn get<'a>(&'a self, key: &String) -> (r: Option<&'a Value>)
        ensures
            match r {
                Some(v) => self.spec_get(key@) == Some(*v),
                None => self.spec_get(key@) is None,
            },
    {
        let n = self.entries.len();
        let mut i: usize = n;
        proof {
            assert(self.entries@.take(n as int) =~= self.entries@);
        }
        while i > 0
            invariant
                n == self.entries@.len(),
                i <= n,
                spec_data_lookup(self.entries@, key@)
                    == spec_data_lookup(self.entries@.take(i as int), key@),
            decreases i,
        {
            i = i - 1;
            proof {
                assert(self.entries@.take(i as int + 1).last() == self.entries@[i as int]);
                assert(self.entries@.take(i as int + 1).drop_last()
                    =~= self.entries@.take(i as int));
            }
            if self.entries[i].0 == *key {
                return Some(&self.entries[i].1);
            }
        }
        None
    }
}

/// The schema-lifetime environment: the type registry and the data the
/// schema builder stored.
pub struct SchemaEnv {
    pub registry: Registry,
    pub data: DataMap,
}

/// The identifier that pairs the start and end instrumentation events of one
/// field resolution. Unique within one request; carries no ordering promise
/// beyond that.
#[derive(Clone, Copy, PartialEq, Eq, Structural, Debug)]
pub struct ResolveId(pub u64);

/// The request-lifetime environment: request-scoped data, the variable
/// bindings, and the monotonically increasing resolve-id source.
pub struct QueryEnv {
    pub ctx_data: DataMap,
    pub variables: Variables,
    pub resolve_id: u64,
}

impl QueryEnv {
    pub fn new(ctx_data: DataMap, variables: Variables) -> (r: QueryEnv)
        ensures
            r.ctx_data == ctx_data,
            r.variables == variables,
            r.resolve_id == 0,
    {
        QueryEnv { ctx_data, variables, resolve_id: 0 }
    }

    /// Hand out the next resolve id. Ids never repeat within one request
    /// because the counter only grows.
    pub fn next_resolve_id(&mut self) -> (r: ResolveId)
        requires
            old(self).resolve_id < u64::MAX,
        ensures
            r.0 == old(self).resolve_id,
            final(self).resolve_id == old(self).resolve_id + 1,
            final(self).ctx_data == old(self).ctx_data,
            final(self).variables == old(self).variables,
    {
        let id = self.resolve_id;
        self.resolve_id = self.resolve_id + 1;
        ResolveId(id)
    }
}

} // verus!
