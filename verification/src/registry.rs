//! The type registry: the schema-lifetime catalog of type metadata, built
//! once at schema-build time and immutable afterwards.
//!
//! Type names map to metadata through an order-keeping map of the `indexmap`
//! crate, as a table from name to the index of the metadata in an append-only
//! vector; all metadata mutation happens in that vector, under proof.

use vstd::prelude::*;
use indexmap::IndexMap;

verus! {

broadcast use vstd::std_specs::vec::group_vec_axioms;

/// A cache hint attached to a type or a field: whether a shared cache may
/// store the value and for how many seconds.
#[derive(Clone, Copy, PartialEq, Eq, Structural, Debug)]
pub struct CacheControl {
    pub public: bool,
    pub max_age: usize,
}

impl Default for CacheControl {
    /// The default hint: publicly cacheable, with no age, meaning no caching.
    fn default() -> (r: CacheControl)
        ensures
            r.public == true,
            r.max_age == 0,
    {
        CacheControl { public: true, max_age: 0 }
    }
}

/// A reference to a schema type as a field's argument or return type names
/// it: a named type or a list, each optionally non-null.
pub enum MetaTypeRef {
    Named { name: String, non_null: bool },
    List { element: Box<MetaTypeRef>, non_null: bool },
}

/// Mathematical model of a [`MetaTypeRef`].
pub ghost enum TypeRefModel {
    Named { name: Seq<char>, non_null: bool },
    List { element: Box<TypeRefModel>, non_null: bool },
}

impl MetaTypeRef {
    pub open spec fn model(self) -> TypeRefModel
        decreases self,
    {
        match self {
            MetaTypeRef::Named { name, non_null } => TypeRefModel::Named {
                name: name@,
                non_null,
            },
            MetaTypeRef::List { element, non_null } => TypeRefModel::List {
                element: Box::new(element.model()),
                non_null,
            },
        }
    }

    /// Whether a field of this type may resolve to null.
    pub open spec fn spec_nullable(self) -> bool {
        match self {
            MetaTypeRef::Named { non_null, .. } => !non_null,
            MetaTypeRef::List { non_null, .. } => !non_null,
        }
    }

    pub fn nullable(&self) -> (r: bool)
        ensures
            r == self.spec_nullable(),
    {
        match self {
            MetaTypeRef::Named { non_null, .. } => !*non_null,
            MetaTypeRef::List { non_null, .. } => !*non_null,
        }
    }

    /// The type reference a list's elements resolve under; a named type is
    /// its own element type.
    pub open spec fn spec_element(self) -> MetaTypeRef {
        match self {
            MetaTypeRef::List { element, .. } => *element,
            MetaTypeRef::Named { .. } => self,
        }
    }

    pub fn element(&self) -> (r: &MetaTypeRef)
        ensures
            *r == self.spec_element(),
    {
        match self {
            MetaTypeRef::List { element, .. } => &*element,
            MetaTypeRef::Named { .. } => self,
        }
    }
}

/// The metadata of an input value: an argument of a field or a field of an
/// input object.
pub struct MetaInputValue {
    pub name: String,
    pub description: Option<String>,
    pub ty: MetaTypeRef,
    pub default_value: Option<String>,
}

/// The metadata of one field of an object or interface type.
pub struct MetaField {
    pub name: String,
    pub description: Option<String>,
    pub args: Vec<MetaInputValue>,
    pub ty: MetaTypeRef,
    pub deprecation: Option<String>,
    pub cache_control: CacheControl,
    /// Federation: the field comes from another service.
    pub external: bool,
    /// Federation: fields of other types this field needs.
    pub requires_fields: Option<String>,
    /// Federation: fields of the return type this service provides.
    pub provides_fields: Option<String>,
}

/// The registry entry of one schema type.
pub enum MetaType {
    Object {
        name: String,
        description: Option<String>,
        fields: Vec<MetaField>,
        cache_control: CacheControl,
        extends: bool,
        keys: Option<Vec<String>>,
    },
    Scalar {
        name: String,
        description: Option<String>,
    },
    Interface {
        name: String,
        description: Option<String>,
        fields: Vec<MetaField>,
        possible_types: Vec<String>,
        extends: bool,
        keys: Option<Vec<String>>,
    },
    Union {
        name: String,
        description: Option<String>,
        possible_types: Vec<String>,
    },
    Enum {
        name: String,
        description: Option<String>,
        enum_values: Vec<(String, Option<String>)>,
    },
    InputObject {
        name: String,
        description: Option<String>,
        input_fields: Vec<MetaInputValue>,
    },
}

impl MetaType {
    /// The name the entry is registered under.
    pub open spec fn spec_name(self) -> Seq<char> {
        match self {
            MetaType::Object { name, .. } => name@,
            MetaType::Scalar { name, .. } => name@,
            MetaType::Interface { name, .. } => name@,
            MetaType::Union { name, .. } => name@,
            MetaType::Enum { name, .. } => name@,
            MetaType::InputObject { name, .. } => name@,
        }
    }

    pub fn name_str(&self) -> (r: &String)
        ensures
            r@ == self.spec_name(),
    {
        match self {
            MetaType::Object { name, .. } => name,
            MetaType::Scalar { name, .. } => name,
            MetaType::Interface { name, .. } => name,
            MetaType::Union { name, .. } => name,
            MetaType::Enum { name, .. } => name,
            MetaType::InputObject { name, .. } => name,
        }
    }

    /// The field table of a composite type, if it has one.
    pub open spec fn spec_fields(self) -> Option<Seq<MetaField>> {
        match self {
            MetaType::Object { fields, .. } => Some(fields@),
            MetaType::Interface { fields, .. } => Some(fields@),
            _ => None,
        }
    }
}

/// The first field with the given name, searched in table order.
pub open spec fn spec_field_lookup(fields: Seq<MetaField>, name: Seq<char>) -> Option<MetaField>
    decreases fields,
{
    if fields.len() == 0 {
        None
    } else if fields[0].name@ == name {
        Some(fields[0])
    } else {
        spec_field_lookup(fields.skip(1), name)
    }
}

/// Find a field by name in a field table.
pub fn field_lookup<'a>(fields: &'a Vec<MetaField>, name: &String) -> (r: Option<&'a MetaField>)
    ensures
        match r {
            Some(f) => spec_field_lookup(fields@, name@) == Some(*f),
            None => spec_field_lookup(fields@, name@) is None,
        },
{
    let n = fields.len();
    let mut i: usize = 0;
    proof {
        assert(fields@.skip(0) =~= fields@);
    }
    while i < n
        invariant
            n == fields.len(),
            i <= n,
            spec_field_lookup(fields@, name@) == spec_field_lookup(fields@.skip(i as int), name@),
        decreases n - i,
    {
        if fields[i].name == *name {
            proof {
                assert(fields@.skip(i as int)[0] == fields@[i as int]);
            }
            return Some(&fields[i]);
        }
        proof {
            assert(fields@.skip(i as int).skip(1) =~= fields@.skip(i as int + 1));
            assert(fields@.skip(i as int)[0] == fields@[i as int]);
        }
        i = i + 1;
    }
    proof {
        assert(fields@.skip(n as int).len() == 0);
    }
    None
}

/// Inserting a field into a table: an existing field of the same name is
/// replaced in place, a new one is appended last, as an order-keeping map
/// inserts.
pub open spec fn spec_field_insert(fields: Seq<MetaField>, f: MetaField) -> Seq<MetaField>
    decreases fields,
{
    if fields.len() == 0 {
        seq![f]
    } else if fields[0].name@ == f.name@ {
        seq![f] + fields.skip(1)
    } else {
        seq![fields[0]] + spec_field_insert(fields.skip(1), f)
    }
}

/// The order-keeping map type of the `indexmap` crate, declared so that
/// values of it can flow through verified code.
#[verifier::external_type_specification]
#[verifier::external_body]
#[verifier::reject_recursive_types(K)]
#[verifier::reject_recursive_types(V)]
#[verifier::reject_recursive_types(S)]
pub struct ExIndexMap<K, V, S>(IndexMap<K, V, S>);

/// The name-to-index table of the registry.
pub type TypeTable = IndexMap<String, u64>;

/// What the table holds: each registered name and the index it maps to.
/// Relied on as the meaning of the `indexmap` wrappers below.
pub uninterp spec fn table_model(m: TypeTable) -> Map<Seq<char>, u64>;

pub open spec fn empty_table_model() -> Map<Seq<char>, u64> {
    Map::empty()
}

/// Relies on indexmap::IndexMap::new: returns a map with no entries.
#[verifier::external_body]
fn table_new() -> (r: TypeTable)
    ensures
        table_model(r) == empty_table_model(),
{
    IndexMap::new()
}

/// Relies on indexmap::IndexMap::get: returns the value stored under an
/// equal key, or nothing when no equal key is present.
#[verifier::external_body]
fn table_get(m: &TypeTable, k: &String) -> (r: Option<u64>)
    ensures
        r == if table_model(*m).dom().contains(k@) {
            Some(table_model(*m)[k@])
        } else {
            None::<u64>
        },
{
    m.get(k).copied()
}

/// Relies on indexmap::IndexMap::insert: stores the value under the key; an
/// equal key keeps its place in the order and gets the new value, a new key
/// is appended last.
#[verifier::external_body]
fn table_insert(m: &mut TypeTable, k: String, v: u64)
    ensures
        table_model(*final(m)) == table_model(*old(m)).insert(k@, v),
{
    m.insert(k, v);
}

/// The schema's catalog of types: unique names, each mapped to one metadata
/// entry; entries keep registration order.
pub struct Registry {
    pub names: TypeTable,
    pub metas: Vec<MetaType>,
}

impl Registry {
    /// The table and the vector describe each other: every name maps to the
    /// entry that carries it, and every entry is indexed under its name.
    pub open spec fn wf(self) -> bool {
        &&& forall|k: Seq<char>| #[trigger] self.table().dom().contains(k) ==> {
            &&& self.table()[k] < self.metas@.len()
            &&& self.metas@[self.table()[k] as int].spec_name() == k
        }
        &&& forall|i: int| 0 <= i < self.metas@.len() ==> {
            &&& #[trigger] self.table().dom().contains(self.metas@[i].spec_name())
            &&& self.table()[self.metas@[i].spec_name()] == i as u64
        }
    }

    pub open spec fn table(self) -> Map<Seq<char>, u64> {
        table_model(self.names)
    }

    /// The entry registered under a name.
    pub open spec fn spec_get(self, name: Seq<char>) -> Option<MetaType> {
        if self.table().dom().contains(name) {
            Some(self.metas@[self.table()[name] as int])
        } else {
            None
        }
    }

    pub fn new() -> (r: Registry)
        ensures
            r.wf(),
            r.metas@.len() == 0,
            r.table() == empty_table_model(),
    {
        Registry { names: table_new(), metas: Vec::new() }
    }

    /// Look a type up by its exact name.
    pub fn get<'a>(&'a self, name: &String) -> (r: Option<&'a MetaType>)
        requires
            self.wf(),
        ensures
            match r {
                Some(m) => self.spec_get(name@) == Some(*m),
                None => self.spec_get(name@) is None,
            },
    {
        match table_get(&self.names, name) {
            Some(idx) => {
                let len = self.metas.len();
                proof {
                    assert(self.table().dom().contains(name@));
                    assert(idx == self.table()[name@]);
                    assert(idx < len);
                }
                Some(&self.metas[idx as usize])
            },
            None => None,
        }
    }

    /// Whether a type of this name is registered.
    pub fn contains(&self, name: &String) -> (r: bool)
        requires
            self.wf(),
        ensures
            r == (self.spec_get(name@) is Some),
    {
        match table_get(&self.names, name) {
            Some(_) => true,
            None => false,
        }
    }

    /// Register a type. Registration is idempotent: a name already present
    /// keeps its existing entry untouched, so repeated registration of the
    /// same type is a no-op. Returns the name the type is registered under.
    pub fn create_type(&mut self, meta: MetaType) -> (r: String)
        requires
            old(self).wf(),
        ensures
            final(self).wf(),
            r@ == meta.spec_name(),
            old(self).spec_get(meta.spec_name()) is Some ==> *final(self) == *old(self),
            old(self).spec_get(meta.spec_name()) is None ==> {
                &&& final(self).metas@ == old(self).metas@.push(meta)
                &&& final(self).table() == old(self).table().insert(
                    meta.spec_name(),
                    old(self).metas@.len() as u64,
                )
            },
            final(self).spec_get(meta.spec_name()) is Some,
            forall|n: Seq<char>| n != meta.spec_name()
                ==> final(self).spec_get(n) == old(self).spec_get(n),
    {
        let name = meta.name_str().clone();
        match table_get(&self.names, &name) {
            Some(_) => name,
            None => {
                let idx = self.metas.len() as u64;
                self.metas.push(meta);
                table_insert(&mut self.names, name.clone(), idx);
                name
            },
        }
    }

    /// Insert a field into the field table of a registered object type, in
    /// place; reports whether the named type was an object. This is the
    /// second step of the root wrapper's two-step build: the inner type must
    /// already have registered itself.
    pub fn add_object_field(&mut self, ty_name: &String, field: MetaField) -> (ok: bool)
        requires
            old(self).wf(),
        ensures
            final(self).wf(),
            final(self).table() == old(self).table(),
            ok == match old(self).spec_get(ty_name@) {
                Some(m) => m is Object,
                None => false,
            },
            ok ==> {
                &&& old(self).spec_get(ty_name@) is Some
                &&& final(self).spec_get(ty_name@) is Some
                &&& is_object_with_field(
                    old(self).spec_get(ty_name@)->Some_0,
                    field,
                    final(self).spec_get(ty_name@)->Some_0,
                )
                &&& forall|n: Seq<char>| n != ty_name@
                    ==> final(self).spec_get(n) == old(self).spec_get(n)
            },
            !ok ==> *final(self) == *old(self),
    {
        match table_get(&self.names, ty_name) {
            None => false,
            Some(idx) => {
                let len = self.metas.len();
                proof {
                    assert(self.table().dom().contains(ty_name@));
                    assert(idx == self.table()[ty_name@]);
                    assert(idx < len);
                }
                let i = idx as usize;
                let is_object = match &self.metas[i] {
                    MetaType::Object { .. } => true,
                    _ => false,
                };
                if !is_object {
                    return false;
                }
                let meta = self.metas.remove(i);
                let ghost old_metas = old(self).metas@;
                match meta {
                    MetaType::Object { name, description, mut fields, cache_control, extends, keys } => {
                        insert_field(&mut fields, field);
                        let updated = MetaType::Object {
                            name,
                            description,
                            fields,
                            cache_control,
                            extends,
                            keys,
                        };
                        proof {
                            assert(is_object_with_field(old_metas[i as int], field, updated));
                        }
                        self.metas.insert(i, updated);
                        proof {
                            assert(self.metas@ =~= old_metas.update(i as int, updated));
                        }
                        true
                    },
                    _ => {
                        proof {
                            assert(false);
                        }
                        false
                    },
                }
            },
        }
    }
}

/// The second object is the first with one field inserted into its table and
/// everything else unchanged.
pub open spec fn is_object_with_field(m_old: MetaType, f: MetaField, m_new: MetaType) -> bool {
    match m_old {
        MetaType::Object { name: n1, description: d1, fields: fs1, cache_control: c1, extends: e1, keys: k1 } => {
            match m_new {
                MetaType::Object { name: n2, description: d2, fields: fs2, cache_control: c2, extends: e2, keys: k2 } => {
                    &&& n2@ == n1@
                    &&& d2 == d1
                    &&& c2 == c1
                    &&& e2 == e1
                    &&& k2 == k1
                    &&& fs2@ == spec_field_insert(fs1@, f)
                },
                _ => false,
            }
        },
        _ => false,
    }
}

/// Insert a field into a table as `spec_field_insert` says.
pub fn insert_field(fields: &mut Vec<MetaField>, f: MetaField)
    ensures
        final(fields)@ == spec_field_insert(old(fields)@, f),
{
    let n = fields.len();
    let mut i: usize = 0;
    while i < n
        invariant
            n == fields.len(),
            i <= n,
            *fields == *old(fields),
            forall|j: int| 0 <= j < i ==> old(fields)@[j].name@ != f.name@,
        decreases n - i,
    {
        if fields[i].name == f.name {
            fields.remove(i);
            fields.insert(i, f);
            proof {
                lemma_field_insert_found(old(fields)@, f, i as int);
                assert(fields@ =~= old(fields)@.update(i as int, f));
            }
            return;
        }
        i = i + 1;
    }
    fields.push(f);
    proof {
        lemma_field_insert_missing(old(fields)@, f);
    }
}

/// Where the first name match is at position `i`, insertion updates that
/// position.
proof fn lemma_field_insert_found(fields: Seq<MetaField>, f: MetaField, i: int)
    requires
        0 <= i < fields.len(),
        fields[i].name@ == f.name@,
        forall|j: int| 0 <= j < i ==> fields[j].name@ != f.name@,
    ensures
        spec_field_insert(fields, f) == fields.update(i, f),
    decreases i,
{
    if i == 0 {
        assert(spec_field_insert(fields, f) == seq![f] + fields.skip(1));
        assert(seq![f] + fields.skip(1) =~= fields.update(0, f));
    } else {
        lemma_field_insert_found(fields.skip(1), f, i - 1);
        assert(seq![fields[0]] + spec_field_insert(fields.skip(1), f)
            =~= fields.update(i, f));
    }
}

/// Where no name matches, insertion appends.
proof fn lemma_field_insert_missing(fields: Seq<MetaField>, f: MetaField)
    requires
        forall|j: int| 0 <= j < fields.len() ==> fields[j].name@ != f.name@,
    ensures
        spec_field_insert(fields, f) == fields.push(f),
    decreases fields,
{
    if fields.len() == 0 {
        assert(spec_field_insert(fields, f) =~= fields.push(f));
    } else {
        lemma_field_insert_missing(fields.skip(1), f);
        assert(seq![fields[0]] + fields.skip(1).push(f) =~= fields.push(f));
    }
}


/// Looking up the inserted field finds it; every other name is unaffected.
pub proof fn lemma_field_insert_lookup(fields: Seq<MetaField>, f: MetaField, n: Seq<char>)
    ensures
        spec_field_lookup(spec_field_insert(fields, f), f.name@) == Some(f),
        n != f.name@ ==> spec_field_lookup(spec_field_insert(fields, f), n)
            == spec_field_lookup(fields, n),
    decreases fields,
{
    reveal_with_fuel(spec_field_lookup, 3);
    if fields.len() == 0 {
        assert(spec_field_insert(fields, f) == seq![f]);
        assert(seq![f][0] == f);
        assert(seq![f].skip(1).len() == 0);
    } else if fields[0].name@ == f.name@ {
        let out = seq![f] + fields.skip(1);
        assert(out[0] == f);
        assert(out.skip(1) =~= fields.skip(1));
    } else {
        lemma_field_insert_lookup(fields.skip(1), f, n);
        let out = seq![fields[0]] + spec_field_insert(fields.skip(1), f);
        assert(out[0] == fields[0]);
        assert(out.skip(1) =~= spec_field_insert(fields.skip(1), f));
        assert(out.len() > 0);
    }
}

} // verus!
