//! Builder-generated descriptions of the schema itself: the introspection
//! objects that `__schema` and `__type` return, and the schema-definition
//! text that the federation `_service` field exports.

use vstd::prelude::*;
use vstd::string::StringExecFns;
use crate::query::SelectionField;
use crate::query::SelectionSet;
use crate::registry::MetaField;
use crate::registry::MetaType;
use crate::registry::MetaTypeRef;
use crate::registry::Registry;
use crate::value::Value;
use crate::value::ValueModel;
use crate::value::entry_seq_model;
use crate::value::value_seq_model;

verus! {

broadcast use vstd::std_specs::vec::group_vec_axioms;

/// The introspection kind of a registry entry.
pub open spec fn kind_model(m: MetaType) -> Seq<char> {
    match m {
        MetaType::Object { .. } => "OBJECT"@,
        MetaType::Scalar { .. } => "SCALAR"@,
        MetaType::Interface { .. } => "INTERFACE"@,
        MetaType::Union { .. } => "UNION"@,
        MetaType::Enum { .. } => "ENUM"@,
        MetaType::InputObject { .. } => "INPUT_OBJECT"@,
    }
}

/// An optional description as an introspection value.
pub open spec fn description_model(d: Option<String>) -> ValueModel {
    match d {
        Some(s) => ValueModel::Str(s@),
        None => ValueModel::Null,
    }
}

/// The introspection object of one type: its name, kind and description.
pub open spec fn type_introspection_model(m: MetaType) -> ValueModel {
    ValueModel::Object(
        seq![
            ("name"@, ValueModel::Str(m.spec_name())),
            ("kind"@, ValueModel::Str(kind_model(m))),
            ("description"@, description_model(spec_description(m))),
        ],
    )
}

/// The description stored in a registry entry.
pub open spec fn spec_description(m: MetaType) -> Option<String> {
    match m {
        MetaType::Object { description, .. } => description,
        MetaType::Scalar { description, .. } => description,
        MetaType::Interface { description, .. } => description,
        MetaType::Union { description, .. } => description,
        MetaType::Enum { description, .. } => description,
        MetaType::InputObject { description, .. } => description,
    }
}

/// The introspection objects of a registry's types, in registration order.
pub open spec fn types_model(metas: Seq<MetaType>) -> Seq<ValueModel>
    decreases metas,
{
    if metas.len() == 0 {
        Seq::empty()
    } else {
        types_model(metas.drop_last()).push(type_introspection_model(metas.last()))
    }
}

/// The schema introspection object: the query root type's name and the list
/// of all registered types, in registration order.
pub open spec fn schema_introspection_model(reg: Registry, root_name: Seq<char>) -> ValueModel {
    ValueModel::Object(
        seq![
            (
                "queryType"@,
                ValueModel::Object(seq![("name"@, ValueModel::Str(root_name))]),
            ),
            ("types"@, ValueModel::List(types_model(reg.metas@))),
        ],
    )
}

/// Build the introspection object of one type.
pub fn type_introspection_value(m: &MetaType) -> (v: Value)
    ensures
        v.model() == type_introspection_model(*m),
{
    let name_str = m.name_str().clone();
    let kind = match m {
        MetaType::Object { .. } => String::from_str("OBJECT"),
        MetaType::Scalar { .. } => String::from_str("SCALAR"),
        MetaType::Interface { .. } => String::from_str("INTERFACE"),
        MetaType::Union { .. } => String::from_str("UNION"),
        MetaType::Enum { .. } => String::from_str("ENUM"),
        MetaType::InputObject { .. } => String::from_str("INPUT_OBJECT"),
    };
    let description = match m {
        MetaType::Object { description, .. } => description,
        MetaType::Scalar { description, .. } => description,
        MetaType::Interface { description, .. } => description,
        MetaType::Union { description, .. } => description,
        MetaType::Enum { description, .. } => description,
        MetaType::InputObject { description, .. } => description,
    };
    let desc_value = match description {
        Some(s) => Value::Str(s.clone()),
        None => Value::Null,
    };
    let mut entries: Vec<(String, Value)> = Vec::new();
    entries.push((String::from_str("name"), Value::Str(name_str)));
    entries.push((String::from_str("kind"), Value::Str(kind)));
    entries.push((String::from_str("description"), desc_value));
    proof {
        crate::value::lemma_entry_seq_model(entries@);
        assert(entry_seq_model(entries@) =~= seq![
            ("name"@, ValueModel::Str(m.spec_name())),
            ("kind"@, ValueModel::Str(kind_model(*m))),
            ("description"@, description_model(spec_description(*m))),
        ]);
    }
    Value::Object(entries)
}

/// Build the schema introspection object.
pub fn schema_introspection_value(reg: &Registry, root_name: &String) -> (v: Value)
    ensures
        v.model() == schema_introspection_model(*reg, root_name@),
{
    let n = reg.metas.len();
    let mut types: Vec<Value> = Vec::new();
    let mut i: usize = 0;
    while i < n
        invariant
            n == reg.metas@.len(),
            i <= n,
            value_seq_model(types@) == types_model(reg.metas@.take(i as int)),
        decreases n - i,
    {
        let ghost pre = types@;
        let t = type_introspection_value(&reg.metas[i]);
        types.push(t);
        proof {
            assert(types@.drop_last() =~= pre);
            assert(reg.metas@.take(i as int + 1).drop_last() =~= reg.metas@.take(i as int));
            assert(reg.metas@.take(i as int + 1).last() == reg.metas@[i as int]);
        }
        i = i + 1;
    }
    proof {
        assert(reg.metas@.take(n as int) =~= reg.metas@);
    }
    let mut query_type: Vec<(String, Value)> = Vec::new();
    query_type.push((String::from_str("name"), Value::Str(root_name.clone())));
    let ghost qtv = query_type@;
    let ghost typesv = types@;
    let mut entries: Vec<(String, Value)> = Vec::new();
    entries.push((String::from_str("queryType"), Value::Object(query_type)));
    entries.push((String::from_str("types"), Value::List(types)));
    proof {
        crate::value::lemma_entry_seq_model(qtv);
        assert(entry_seq_model(qtv) =~= seq![("name"@, ValueModel::Str(root_name@))]);
        crate::value::lemma_entry_seq_model(entries@);
        assert(entries@[0].1.model() == ValueModel::Object(entry_seq_model(qtv)));
        assert(entries@[1].1.model() == ValueModel::List(value_seq_model(typesv)));
        assert(entry_seq_model(entries@) =~= seq![
            (
                "queryType"@,
                ValueModel::Object(seq![("name"@, ValueModel::Str(root_name@))]),
            ),
            ("types"@, ValueModel::List(types_model(reg.metas@))),
        ]);
    }
    Value::Object(entries)
}

/// The schema-definition text of one type reference.
pub open spec fn ref_text_model(t: MetaTypeRef) -> Seq<char>
    decreases t,
{
    match t {
        MetaTypeRef::Named { name, non_null } => if non_null {
            name@ + "!"@
        } else {
            name@
        },
        MetaTypeRef::List { element, non_null } => if non_null {
            "["@ + ref_text_model(*element) + "]!"@
        } else {
            "["@ + ref_text_model(*element) + "]"@
        },
    }
}

/// Render a type reference as schema-definition text.
pub fn ref_text(t: &MetaTypeRef) -> (s: String)
    ensures
        s@ == ref_text_model(*t),
    decreases *t,
{
    match t {
        MetaTypeRef::Named { name, non_null } => {
            if *non_null {
                let mut s = name.clone();
                s.append("!");
                s
            } else {
                name.clone()
            }
        },
        MetaTypeRef::List { element, non_null } => {
            let mut s = String::from_str("[");
            let inner = ref_text(&*element);
            s.append(inner.as_str());
            if *non_null {
                s.append("]!");
            } else {
                s.append("]");
            }
            s
        },
    }
}

/// The schema-definition text of the fields of one object type, in table
/// order.
pub open spec fn sdl_fields_model(fs: Seq<MetaField>) -> Seq<char>
    decreases fs,
{
    if fs.len() == 0 {
        Seq::empty()
    } else {
        sdl_fields_model(fs.drop_last()) + "  "@ + fs.last().name@ + ": "@
            + ref_text_model(fs.last().ty) + "\n"@
    }
}

/// The schema-definition text of one registry entry. Only object types are
/// exported.
pub open spec fn sdl_type_model(m: MetaType) -> Seq<char> {
    match m {
        MetaType::Object { name, fields, .. } => "type "@ + name@ + " {\n"@
            + sdl_fields_model(fields@) + "}\n"@,
        _ => Seq::empty(),
    }
}

/// The full exported schema text: every object type, in registration order.
pub open spec fn sdl_model(metas: Seq<MetaType>) -> Seq<char>
    decreases metas,
{
    if metas.len() == 0 {
        Seq::empty()
    } else {
        sdl_model(metas.drop_last()) + sdl_type_model(metas.last())
    }
}

/// Export the schema as schema-definition text.
pub fn export_sdl(reg: &Registry) -> (s: String)
    ensures
        s@ == sdl_model(reg.metas@),
{
    let n = reg.metas.len();
    let mut out = String::new();
    let mut i: usize = 0;
    while i < n
        invariant
            n == reg.metas@.len(),
            i <= n,
            out@ == sdl_model(reg.metas@.take(i as int)),
        decreases n - i,
    {
        match &reg.metas[i] {
            MetaType::Object { name, fields, .. } => {
                out.append("type ");
                out.append(name.as_str());
                out.append(" {\n");
                let fn_count = fields.len();
                let mut j: usize = 0;
                let ghost base = out@;
                while j < fn_count
                    invariant
                        fn_count == fields@.len(),
                        j <= fn_count,
                        out@ == base + sdl_fields_model(fields@.take(j as int)),
                    decreases fn_count - j,
                {
                    out.append("  ");
                    out.append(fields[j].name.as_str());
                    out.append(": ");
                    let t = ref_text(&fields[j].ty);
                    out.append(t.as_str());
                    out.append("\n");
                    proof {
                        assert(fields@.take(j as int + 1).drop_last() =~= fields@.take(j as int));
                        assert(fields@.take(j as int + 1).last() == fields@[j as int]);
                        assert(out@ =~= base + sdl_fields_model(fields@.take(j as int + 1)));
                    }
                    j = j + 1;
                }
                out.append("}\n");
                proof {
                    assert(fields@.take(fn_count as int) =~= fields@);
                    assert(reg.metas@.take(i as int + 1).drop_last() =~= reg.metas@.take(i as int));
                    assert(reg.metas@.take(i as int + 1).last() == reg.metas@[i as int]);
                    assert(out@ =~= sdl_model(reg.metas@.take(i as int + 1)));
                }
            },
            _ => {
                proof {
                    assert(reg.metas@.take(i as int + 1).drop_last() =~= reg.metas@.take(i as int));
                    assert(reg.metas@.take(i as int + 1).last() == reg.metas@[i as int]);
                    assert(out@ =~= sdl_model(reg.metas@.take(i as int + 1)));
                }
            },
        }
        i = i + 1;
    }
    proof {
        assert(reg.metas@.take(n as int) =~= reg.metas@);
    }
    out
}


/// The first entry stored under a key in a value object.
pub open spec fn spec_value_entry(entries: Seq<(String, Value)>, key: Seq<char>) -> Option<Value>
    decreases entries,
{
    if entries.len() == 0 {
        None
    } else if entries[0].0@ == key {
        Some(entries[0].1)
    } else {
        spec_value_entry(entries.skip(1), key)
    }
}

/// Find an entry of a value object by key.
pub fn value_entry<'a>(entries: &'a Vec<(String, Value)>, key: &String) -> (r: Option<&'a Value>)
    ensures
        match r {
            Some(v) => spec_value_entry(entries@, key@) == Some(*v),
            None => spec_value_entry(entries@, key@) is None,
        },
{
    let n = entries.len();
    let mut i: usize = 0;
    proof {
        assert(entries@.skip(0) =~= entries@);
    }
    while i < n
        invariant
            n == entries@.len(),
            i <= n,
            spec_value_entry(entries@, key@) == spec_value_entry(entries@.skip(i as int), key@),
        decreases n - i,
    {
        proof {
            assert(entries@.skip(i as int)[0] == entries@[i as int]);
            assert(entries@.skip(i as int).skip(1) =~= entries@.skip(i as int + 1));
        }
        if entries[i].0 == *key {
            return Some(&entries[i].1);
        }
        i = i + 1;
    }
    proof {
        assert(entries@.skip(n as int).len() == 0);
    }
    None
}

/// The first modelled entry stored under a key.
pub open spec fn spec_model_entry(
    entries: Seq<(Seq<char>, ValueModel)>,
    key: Seq<char>,
) -> Option<ValueModel>
    decreases entries,
{
    if entries.len() == 0 {
        None
    } else if entries[0].0 == key {
        Some(entries[0].1)
    } else {
        spec_model_entry(entries.skip(1), key)
    }
}

/// Looking an entry up commutes with taking models.
pub proof fn lemma_entry_lookup_model(entries: Seq<(String, Value)>, key: Seq<char>)
    ensures
        match spec_value_entry(entries, key) {
            Some(v) => spec_model_entry(entry_seq_model(entries), key) == Some(v.model()),
            None => spec_model_entry(entry_seq_model(entries), key) is None,
        },
    decreases entries,
{
    crate::value::lemma_entry_seq_model(entries);
    if entries.len() > 0 {
        lemma_entry_lookup_model(entries.skip(1), key);
        crate::value::lemma_entry_seq_model(entries.skip(1));
        assert(entry_seq_model(entries)[0] == (entries[0].0@, entries[0].1.model()));
        assert(entry_seq_model(entries).skip(1) =~= entry_seq_model(entries.skip(1)));
    }
}

/// The size of a modelled value, the decreasing measure of projection.
pub open spec fn vm_size(v: ValueModel) -> int
    decreases v,
{
    match v {
        ValueModel::List(vs) => vml_size(vs) + 1,
        ValueModel::Object(es) => vme_size(es) + 1,
        _ => 1,
    }
}

pub open spec fn vme_size(s: Seq<(Seq<char>, ValueModel)>) -> int
    decreases s,
{
    if s.len() == 0 {
        0
    } else {
        vm_size(s[0].1) + vme_size(s.skip(1)) + 1
    }
}

pub open spec fn vml_size(s: Seq<ValueModel>) -> int
    decreases s,
{
    if s.len() == 0 {
        0
    } else {
        vm_size(s[0]) + vml_size(s.skip(1)) + 1
    }
}

/// Sizes are positive.
pub proof fn lemma_vm_size_pos(v: ValueModel)
    ensures
        vm_size(v) >= 1,
    decreases v,
{
    match v {
        ValueModel::List(vs) => lemma_vml_size_pos(vs),
        ValueModel::Object(es) => lemma_vme_size_pos(es),
        _ => {},
    }
}

pub proof fn lemma_vme_size_pos(s: Seq<(Seq<char>, ValueModel)>)
    ensures
        vme_size(s) >= 0,
    decreases s,
{
    if s.len() > 0 {
        lemma_vme_size_pos(s.skip(1));
        lemma_vm_size_pos(s[0].1);
    }
}

pub proof fn lemma_vml_size_pos(s: Seq<ValueModel>)
    ensures
        vml_size(s) >= 0,
    decreases s,
{
    if s.len() > 0 {
        lemma_vml_size_pos(s.skip(1));
        lemma_vm_size_pos(s[0]);
    }
}

/// A found entry is strictly smaller than the table it came from.
pub proof fn lemma_model_entry_size(entries: Seq<(Seq<char>, ValueModel)>, key: Seq<char>)
    ensures
        match spec_model_entry(entries, key) {
            Some(v) => vm_size(v) < vme_size(entries),
            None => true,
        },
    decreases entries,
{
    if entries.len() > 0 {
        if entries[0].0 == key {
            lemma_vme_size_pos(entries.skip(1));
        } else {
            lemma_model_entry_size(entries.skip(1), key);
            lemma_vm_size_pos(entries[0].1);
        }
    }
}

/// Project a value by a selection set, as the resolution protocol does for
/// composite results whose fields are plain values: an empty selection takes
/// the whole value; against an object, the requested fields are taken in
/// selection order, each projected by its own sub-selection, a missing field
/// reading as null; against a list, every element is projected; a leaf is
/// taken whole.
pub open spec fn project_model(items: Seq<SelectionField>, v: ValueModel) -> ValueModel
    decreases vm_size(v), 1int, 0int,
    via project_model_decreases
{
    if items.len() == 0 {
        v
    } else {
        match v {
            ValueModel::Object(entries) => ValueModel::Object(
                project_entries_model(items, entries),
            ),
            ValueModel::List(vs) => ValueModel::List(project_list_model(items, vs)),
            _ => v,
        }
    }
}

#[via_fn]
proof fn project_model_decreases(items: Seq<SelectionField>, v: ValueModel) {
    match v {
        ValueModel::Object(entries) => {
            lemma_vme_size_pos(entries);
            assert(vm_size(v) == vme_size(entries) + 1);
        },
        ValueModel::List(vs) => {
            lemma_vml_size_pos(vs);
            assert(vm_size(v) == vml_size(vs) + 1);
        },
        _ => {},
    }
}

/// The projected entries of an object, in selection order.
pub open spec fn project_entries_model(
    items: Seq<SelectionField>,
    entries: Seq<(Seq<char>, ValueModel)>,
) -> Seq<(Seq<char>, ValueModel)>
    decreases vme_size(entries), 2int, items.len(),
    via project_entries_model_decreases
{
    if items.len() == 0 {
        Seq::empty()
    } else {
        let val = match spec_model_entry(entries, items[0].name@) {
            Some(v0) => project_model(items[0].selection_set.items@, v0),
            None => ValueModel::Null,
        };
        seq![(items[0].name@, val)] + project_entries_model(items.skip(1), entries)
    }
}

#[via_fn]
proof fn project_entries_model_decreases(
    items: Seq<SelectionField>,
    entries: Seq<(Seq<char>, ValueModel)>,
) {
    if items.len() > 0 {
        lemma_model_entry_size(entries, items[0].name@);
        match spec_model_entry(entries, items[0].name@) {
            Some(v0) => lemma_vm_size_pos(v0),
            None => {},
        }
    }
}

/// The projected elements of a list, in order.
pub open spec fn project_list_model(items: Seq<SelectionField>, vs: Seq<ValueModel>)
    -> Seq<ValueModel>
    decreases vml_size(vs), 2int, 0int,
    via project_list_model_decreases
{
    if vs.len() == 0 {
        Seq::empty()
    } else {
        seq![project_model(items, vs[0])] + project_list_model(items, vs.skip(1))
    }
}

#[via_fn]
proof fn project_list_model_decreases(items: Seq<SelectionField>, vs: Seq<ValueModel>) {
    if vs.len() > 0 {
        assert(vml_size(vs) == vm_size(vs[0]) + vml_size(vs.skip(1)) + 1);
        lemma_vm_size_pos(vs[0]);
        lemma_vml_size_pos(vs.skip(1));
    }
}

/// Project a value by a selection set.
pub fn project(sel: &SelectionSet, v: &Value) -> (r: Value)
    ensures
        r.model() == project_model(sel.items@, v.model()),
    decreases vm_size(v.model()), 1int, 0int,
{
    if sel.items.len() == 0 {
        return v.duplicate();
    }
    match v {
        Value::Object(entries) => {
            proof {
                lemma_vme_size_pos(entry_seq_model(entries@));
                assert(vm_size(v.model()) == vme_size(entry_seq_model(entries@)) + 1);
                assert(sel.items@.skip(0) =~= sel.items@);
            }
            Value::Object(project_entries(&sel.items, 0, entries))
        },
        Value::List(vs) => {
            proof {
                lemma_vml_size_pos(value_seq_model(vs@));
                assert(vm_size(v.model()) == vml_size(value_seq_model(vs@)) + 1);
                assert(value_seq_model(vs@).skip(0) =~= value_seq_model(vs@));
            }
            Value::List(project_list(sel, vs, 0))
        },
        other => other.duplicate(),
    }
}

/// Project the selection's fields from position `start` on.
fn project_entries(
    items: &Vec<SelectionField>,
    start: usize,
    entries: &Vec<(String, Value)>,
) -> (r: Vec<(String, Value)>)
    requires
        start <= items@.len(),
    ensures
        entry_seq_model(r@) == project_entries_model(
            items@.skip(start as int),
            entry_seq_model(entries@),
        ),
    decreases vme_size(entry_seq_model(entries@)), 2int, items@.len() - start,
{
    let ghost sub = items@.skip(start as int);
    if start == items.len() {
        proof {
            assert(sub.len() == 0);
            assert(entry_seq_model(Seq::<(String, Value)>::empty())
                =~= Seq::<(Seq<char>, ValueModel)>::empty());
        }
        return Vec::new();
    }
    proof {
        assert(sub[0] == items@[start as int]);
        assert(sub.skip(1) =~= items@.skip(start as int + 1));
        lemma_entry_lookup_model(entries@, items@[start as int].name@);
        lemma_model_entry_size(entry_seq_model(entries@), items@[start as int].name@);
    }
    let name = items[start].name.clone();
    let val = match value_entry(entries, &items[start].name) {
        Some(v0) => {
            proof {
                lemma_vm_size_pos(v0.model());
            }
            project(&items[start].selection_set, v0)
        },
        None => Value::Null,
    };
    let mut rest = project_entries(items, start + 1, entries);
    let ghost pre = rest@;
    rest.insert(0, (name, val));
    proof {
        assert(rest@ =~= seq![(rest@[0].0, val)] + pre);
        crate::value::lemma_entry_seq_model(rest@);
        crate::value::lemma_entry_seq_model(pre);
        assert(entry_seq_model(rest@)
            =~= seq![(sub[0].name@, val.model())] + entry_seq_model(pre));
    }
    rest
}

/// Project the list elements from position `start` on.
fn project_list(sel: &SelectionSet, vs: &Vec<Value>, start: usize) -> (r: Vec<Value>)
    requires
        start <= vs@.len(),
    ensures
        value_seq_model(r@) == project_list_model(
            sel.items@,
            value_seq_model(vs@).skip(start as int),
        ),
    decreases vml_size(value_seq_model(vs@).skip(start as int)), 2int, 0int,
{
    let ghost models = value_seq_model(vs@).skip(start as int);
    proof {
        crate::value::lemma_value_seq_model(vs@);
    }
    if start == vs.len() {
        proof {
            assert(models.len() == 0);
            assert(value_seq_model(Seq::<Value>::empty()) =~= Seq::<ValueModel>::empty());
        }
        return Vec::new();
    }
    proof {
        assert(models[0] == vs@[start as int].model());
        assert(models.skip(1) =~= value_seq_model(vs@).skip(start as int + 1));
        assert(vml_size(models) == vm_size(models[0]) + vml_size(models.skip(1)) + 1);
        lemma_vm_size_pos(models[0]);
        lemma_vml_size_pos(models.skip(1));
    }
    let val = project(sel, &vs[start]);
    let mut rest = project_list(sel, vs, start + 1);
    let ghost pre = rest@;
    rest.insert(0, val);
    proof {
        assert(rest@ =~= seq![val] + pre);
        crate::value::lemma_value_seq_model(rest@);
        crate::value::lemma_value_seq_model(pre);
        assert(value_seq_model(rest@) =~= seq![val.model()] + value_seq_model(pre));
    }
    rest
}

} // verus!
