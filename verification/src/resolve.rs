//! The resolution protocol: walking a selection set against resolver
//! outcomes into a JSON-shaped object, preserving the textual selection
//! order, converting failures of nullable fields into nulls, propagating
//! failures of non-null fields to the nearest nullable ancestor, extending
//! the error path at every step, and reporting every resolution to the
//! extension chain under a fresh resolve id.
//!
//! What resolvers themselves did is handed in as data: a [`FieldSource`]
//! holds, for every field a selection may request, either the resolver's
//! value, its failure, or a nested object of further outcomes. The engine is
//! verified against a specification-level interpreter (`run_selection` and
//! friends) that says exactly what value, error list, hook-event list and
//! next resolve id every resolution produces.

use vstd::prelude::*;
use crate::error::ErrorModel;
use crate::error::PathSegModel;
use crate::error::QueryErrorModel;
use crate::extensions::HookEvent;
use crate::query::SelectionField;
use crate::registry::MetaField;
use crate::registry::MetaTypeRef;
use crate::registry::Registry;
use crate::registry::spec_field_lookup;
use crate::value::Value;
use crate::value::ValueModel;

verus! {

broadcast use vstd::std_specs::vec::group_vec_axioms;

/// What the resolver of one field produced: a failure, a leaf value, a
/// nested object of further outcomes, or a list of outcomes.
pub enum FieldSource {
    /// The resolver failed with this message.
    Fail(String),
    /// The resolver returned this leaf value.
    Leaf(Value),
    /// The resolver returned a composite object; its fields resolve against
    /// the nested selection.
    Object(ObjectSource),
    /// The resolver returned a list.
    List(Vec<FieldSource>),
}

/// The resolver outcomes of one composite object: its concrete type name and
/// one outcome per resolvable field.
pub struct ObjectSource {
    pub ty_name: String,
    pub fields: Vec<(String, FieldSource)>,
}

/// The size of an outcome tree, the decreasing measure of resolution.
pub open spec fn fs_size(f: FieldSource) -> int
    decreases f,
{
    match f {
        FieldSource::Fail(_) => 1,
        FieldSource::Leaf(_) => 1,
        FieldSource::Object(o) => os_size(o) + 1,
        FieldSource::List(v) => fsl_size(v@) + 1,
    }
}

pub open spec fn os_size(o: ObjectSource) -> int
    decreases o,
{
    osf_size(o.fields@) + 1
}

pub open spec fn osf_size(s: Seq<(String, FieldSource)>) -> int
    decreases s,
{
    if s.len() == 0 {
        0
    } else {
        fs_size(s[0].1) + osf_size(s.skip(1)) + 1
    }
}

pub open spec fn fsl_size(s: Seq<FieldSource>) -> int
    decreases s,
{
    if s.len() == 0 {
        0
    } else {
        fs_size(s[0]) + fsl_size(s.skip(1)) + 1
    }
}

/// Sizes are positive, and member sizes are bounded by the whole.
pub proof fn lemma_fs_size_pos(f: FieldSource)
    ensures
        fs_size(f) >= 1,
    decreases f,
{
    match f {
        FieldSource::Object(o) => lemma_os_size_pos(o),
        FieldSource::List(v) => lemma_fsl_size_pos(v@),
        _ => {},
    }
}

pub proof fn lemma_os_size_pos(o: ObjectSource)
    ensures
        os_size(o) >= 1,
        osf_size(o.fields@) >= 0,
    decreases o,
{
    lemma_osf_size_pos(o.fields@);
}

pub proof fn lemma_osf_size_pos(s: Seq<(String, FieldSource)>)
    ensures
        osf_size(s) >= 0,
    decreases s,
{
    if s.len() > 0 {
        lemma_osf_size_pos(s.skip(1));
        lemma_fs_size_pos(s[0].1);
    }
}

pub proof fn lemma_fsl_size_pos(s: Seq<FieldSource>)
    ensures
        fsl_size(s) >= 0,
    decreases s,
{
    if s.len() > 0 {
        lemma_fsl_size_pos(s.skip(1));
        lemma_fs_size_pos(s[0]);
    }
}

/// The first outcome recorded under a field name.
pub open spec fn spec_source_lookup(
    fields: Seq<(String, FieldSource)>,
    name: Seq<char>,
) -> Option<FieldSource>
    decreases fields,
{
    if fields.len() == 0 {
        None
    } else if fields[0].0@ == name {
        Some(fields[0].1)
    } else {
        spec_source_lookup(fields.skip(1), name)
    }
}

/// A found outcome is strictly smaller than the table it came from.
pub proof fn lemma_source_lookup_size(fields: Seq<(String, FieldSource)>, name: Seq<char>)
    ensures
        match spec_source_lookup(fields, name) {
            Some(f) => fs_size(f) < osf_size(fields),
            None => true,
        },
    decreases fields,
{
    if fields.len() > 0 {
        if fields[0].0@ == name {
            lemma_osf_size_pos(fields.skip(1));
        } else {
            lemma_source_lookup_size(fields.skip(1), name);
            lemma_fs_size_pos(fields[0].1);
        }
    }
}

impl ObjectSource {
    /// Find the outcome of a field by name.
    pub fn lookup<'a>(&'a self, name: &String) -> (r: Option<&'a FieldSource>)
        ensures
            match r {
                Some(f) => spec_source_lookup(self.fields@, name@) == Some(*f),
                None => spec_source_lookup(self.fields@, name@) is None,
            },
    {
        let n = self.fields.len();
        let mut i: usize = 0;
        proof {
            assert(self.fields@.skip(0) =~= self.fields@);
        }
        while i < n
            invariant
                n == self.fields@.len(),
                i <= n,
                spec_source_lookup(self.fields@, name@)
                    == spec_source_lookup(self.fields@.skip(i as int), name@),
            decreases n - i,
        {
            proof {
                assert(self.fields@.skip(i as int)[0] == self.fields@[i as int]);
                assert(self.fields@.skip(i as int).skip(1) =~= self.fields@.skip(i as int + 1));
            }
            if self.fields[i].0 == *name {
                return Some(&self.fields[i].1);
            }
            i = i + 1;
        }
        proof {
            assert(self.fields@.skip(n as int).len() == 0);
        }
        None
    }
}

/// What one run of the interpreter produces: a value or a fatal error, the
/// recoverable errors it recorded, the hook events it emitted, and the
/// resolve-id counter after it.
pub ghost struct RunOutput {
    pub result: Result<ValueModel, ErrorModel>,
    pub errors: Seq<ErrorModel>,
    pub events: Seq<HookEvent>,
    pub next_id: int,
}

/// Like [`RunOutput`], for a whole selection set: the value is the object's
/// entries in selection order.
pub ghost struct SelOutput {
    pub result: Result<Seq<(Seq<char>, ValueModel)>, ErrorModel>,
    pub errors: Seq<ErrorModel>,
    pub events: Seq<HookEvent>,
    pub next_id: int,
}

/// Like [`RunOutput`], for a list: the value is the element sequence.
pub ghost struct ListOutput {
    pub result: Result<Seq<ValueModel>, ErrorModel>,
    pub errors: Seq<ErrorModel>,
    pub events: Seq<HookEvent>,
    pub next_id: int,
}

/// The field metadata a selection field resolves under.
pub open spec fn spec_meta_lookup(reg: Registry, parent: Seq<char>, name: Seq<char>)
    -> Option<MetaField> {
    match reg.spec_get(parent) {
        Some(m) => match m.spec_fields() {
            Some(fs) => spec_field_lookup(fs, name),
            None => None,
        },
        None => None,
    }
}

/// The error for a field that exists in neither the registry entry of its
/// parent type nor the parent's resolver outcomes.
pub open spec fn field_not_found_model(
    field: SelectionField,
    parent: Seq<char>,
    fpath: Seq<PathSegModel>,
) -> ErrorModel {
    ErrorModel::Query {
        pos: field.pos,
        path: Some(fpath),
        err: QueryErrorModel::FieldNotFound { field_name: field.name@, object: parent },
    }
}

/// The error for a resolver that failed with a message.
pub open spec fn resolver_error_model(
    field: SelectionField,
    message: Seq<char>,
    fpath: Seq<PathSegModel>,
) -> ErrorModel {
    ErrorModel::Query {
        pos: field.pos,
        path: Some(fpath),
        err: QueryErrorModel::FieldError { message },
    }
}

/// Resolve the fields of one selection set, in order, against one object
/// source. The result entries keep the textual selection order; a fatal
/// field failure aborts the rest of the selection.
pub open spec fn run_selection(
    reg: Registry,
    parent: Seq<char>,
    items: Seq<SelectionField>,
    src: ObjectSource,
    path: Seq<PathSegModel>,
    id: int,
) -> SelOutput
    decreases os_size(src), 1int, items.len(),
{
    if items.len() == 0 {
        SelOutput {
            result: Ok(Seq::empty()),
            errors: Seq::empty(),
            events: Seq::empty(),
            next_id: id,
        }
    } else {
        let f = run_field(reg, parent, items[0], src, path, id);
        match f.result {
            Err(e) => SelOutput {
                result: Err(e),
                errors: f.errors,
                events: f.events,
                next_id: f.next_id,
            },
            Ok(v) => {
                let rest = run_selection(reg, parent, items.skip(1), src, path, f.next_id);
                match rest.result {
                    Err(e) => SelOutput {
                        result: Err(e),
                        errors: f.errors + rest.errors,
                        events: f.events + rest.events,
                        next_id: rest.next_id,
                    },
                    Ok(entries) => SelOutput {
                        result: Ok(seq![(items[0].name@, v)] + entries),
                        errors: f.errors + rest.errors,
                        events: f.events + rest.events,
                        next_id: rest.next_id,
                    },
                }
            },
        }
    }
}

/// Resolve one field: look its metadata and its outcome up, resolve the
/// outcome under a fresh id bracketed by start and end events, and apply the
/// nullability rule: a failing nullable field becomes null and records its
/// error, a failing non-null field propagates its error to the parent.
pub open spec fn run_field(
    reg: Registry,
    parent: Seq<char>,
    field: SelectionField,
    src: ObjectSource,
    path: Seq<PathSegModel>,
    id: int,
) -> RunOutput
    decreases os_size(src), 0int, 0int,
    via run_field_decreases
{
    let fpath = path.push(PathSegModel::Name(field.name@));
    match spec_meta_lookup(reg, parent, field.name@) {
        None => {
            let e = field_not_found_model(field, parent, fpath);
            RunOutput {
                result: Err(e),
                errors: Seq::empty(),
                events: seq![HookEvent::ErrorLogged(e)],
                next_id: id,
            }
        },
        Some(meta) => match spec_source_lookup(src.fields@, field.name@) {
            None => {
                let e = field_not_found_model(field, parent, fpath);
                RunOutput {
                    result: Err(e),
                    errors: Seq::empty(),
                    events: seq![HookEvent::ErrorLogged(e)],
                    next_id: id,
                }
            },
            Some(outcome) => {
                let v = run_value(reg, meta.ty, field, outcome, fpath, id + 1);
                let events = seq![HookEvent::ResolveStart(id)] + v.events
                    + seq![HookEvent::ResolveEnd(id)];
                match v.result {
                    Ok(val) => RunOutput {
                        result: Ok(val),
                        errors: v.errors,
                        events,
                        next_id: v.next_id,
                    },
                    Err(e) => if meta.ty.spec_nullable() {
                        RunOutput {
                            result: Ok(ValueModel::Null),
                            errors: v.errors.push(e),
                            events,
                            next_id: v.next_id,
                        }
                    } else {
                        RunOutput {
                            result: Err(e),
                            errors: v.errors,
                            events,
                            next_id: v.next_id,
                        }
                    },
                }
            },
        },
    }
}

#[via_fn]
proof fn run_field_decreases(
    reg: Registry,
    parent: Seq<char>,
    field: SelectionField,
    src: ObjectSource,
    path: Seq<PathSegModel>,
    id: int,
) {
    lemma_source_lookup_size(src.fields@, field.name@);
    assert(os_size(src) == osf_size(src.fields@) + 1);
    match spec_source_lookup(src.fields@, field.name@) {
        Some(outcome) => lemma_fs_size_pos(outcome),
        None => {},
    }
}

/// Resolve one outcome under the field's declared type: a failure becomes a
/// positioned, path-tagged error reported to the chain; a leaf is its value;
/// an object resolves the nested selection against its own type; a list
/// resolves its elements in order under the element type.
pub open spec fn run_value(
    reg: Registry,
    ty: MetaTypeRef,
    field: SelectionField,
    outcome: FieldSource,
    path: Seq<PathSegModel>,
    id: int,
) -> RunOutput
    decreases fs_size(outcome), 2int, 0int,
    via run_value_decreases
{
    match outcome {
        FieldSource::Fail(message) => {
            let e = resolver_error_model(field, message@, path);
            RunOutput {
                result: Err(e),
                errors: Seq::empty(),
                events: seq![HookEvent::ErrorLogged(e)],
                next_id: id,
            }
        },
        FieldSource::Leaf(v) => RunOutput {
            result: Ok(v.model()),
            errors: Seq::empty(),
            events: Seq::empty(),
            next_id: id,
        },
        FieldSource::Object(osrc) => {
            let run = run_selection(reg, osrc.ty_name@, field.selection_set.items@, osrc, path, id);
            RunOutput {
                result: match run.result {
                    Ok(entries) => Ok(ValueModel::Object(entries)),
                    Err(e) => Err(e),
                },
                errors: run.errors,
                events: run.events,
                next_id: run.next_id,
            }
        },
        FieldSource::List(items) => {
            let run = run_list(reg, ty.spec_element(), field, items@, 0, path, id);
            RunOutput {
                result: match run.result {
                    Ok(vals) => Ok(ValueModel::List(vals)),
                    Err(e) => Err(e),
                },
                errors: run.errors,
                events: run.events,
                next_id: run.next_id,
            }
        },
    }
}

#[via_fn]
proof fn run_value_decreases(
    reg: Registry,
    ty: MetaTypeRef,
    field: SelectionField,
    outcome: FieldSource,
    path: Seq<PathSegModel>,
    id: int,
) {
    match outcome {
        FieldSource::Object(osrc) => {
            lemma_os_size_pos(osrc);
            assert(fs_size(outcome) == os_size(osrc) + 1);
        },
        FieldSource::List(items) => {
            lemma_fsl_size_pos(items@);
            assert(fs_size(outcome) == fsl_size(items@) + 1);
        },
        _ => {},
    }
}

/// Resolve list elements in order; each element's path gets its index, and a
/// failing element becomes null when the element type is nullable, else it
/// fails the whole list.
pub open spec fn run_list(
    reg: Registry,
    ety: MetaTypeRef,
    field: SelectionField,
    items: Seq<FieldSource>,
    idx: int,
    path: Seq<PathSegModel>,
    id: int,
) -> ListOutput
    decreases fsl_size(items), 3int, 0int,
    via run_list_decreases
{
    if items.len() == 0 {
        ListOutput {
            result: Ok(Seq::empty()),
            errors: Seq::empty(),
            events: Seq::empty(),
            next_id: id,
        }
    } else {
        let epath = path.push(PathSegModel::Index(idx));
        let v = run_value(reg, ety, field, items[0], epath, id);
        let stepped = match v.result {
            Ok(val) => Ok(val),
            Err(e) => if ety.spec_nullable() {
                Ok(ValueModel::Null)
            } else {
                Err(e)
            },
        };
        let errors0 = match v.result {
            Ok(_) => v.errors,
            Err(e) => if ety.spec_nullable() {
                v.errors.push(e)
            } else {
                v.errors
            },
        };
        match stepped {
            Err(e) => ListOutput {
                result: Err(e),
                errors: errors0,
                events: v.events,
                next_id: v.next_id,
            },
            Ok(val) => {
                let rest = run_list(reg, ety, field, items.skip(1), idx + 1, path, v.next_id);
                match rest.result {
                    Err(e) => ListOutput {
                        result: Err(e),
                        errors: errors0 + rest.errors,
                        events: v.events + rest.events,
                        next_id: rest.next_id,
                    },
                    Ok(vals) => ListOutput {
                        result: Ok(seq![val] + vals),
                        errors: errors0 + rest.errors,
                        events: v.events + rest.events,
                        next_id: rest.next_id,
                    },
                }
            },
        }
    }
}

#[via_fn]
proof fn run_list_decreases(
    reg: Registry,
    ety: MetaTypeRef,
    field: SelectionField,
    items: Seq<FieldSource>,
    idx: int,
    path: Seq<PathSegModel>,
    id: int,
) {
    if items.len() > 0 {
        assert(fsl_size(items) == fs_size(items[0]) + fsl_size(items.skip(1)) + 1);
        lemma_fs_size_pos(items[0]);
        lemma_fsl_size_pos(items.skip(1));
    }
}


/// How many times an event occurs in a log.
pub open spec fn event_count(events: Seq<HookEvent>, target: HookEvent) -> int
    decreases events,
{
    if events.len() == 0 {
        0
    } else {
        event_count(events.drop_last(), target) + if events.last() == target {
            1int
        } else {
            0int
        }
    }
}

/// Counting distributes over concatenation.
pub proof fn lemma_event_count_concat(a: Seq<HookEvent>, b: Seq<HookEvent>, t: HookEvent)
    ensures
        event_count(a + b, t) == event_count(a, t) + event_count(b, t),
    decreases b,
{
    if b.len() == 0 {
        assert(a + b =~= a);
    } else {
        lemma_event_count_concat(a, b.drop_last(), t);
        assert((a + b).drop_last() =~= a + b.drop_last());
        assert((a + b).last() == b.last());
    }
}

/// A one-event log counts one for that event and nothing else.
pub proof fn lemma_event_count_single(x: HookEvent, t: HookEvent)
    ensures
        event_count(seq![x], t) == if x == t { 1int } else { 0int },
        event_count(Seq::<HookEvent>::empty(), t) == 0,
{
    reveal_with_fuel(event_count, 2);
    assert(seq![x].drop_last() =~= Seq::<HookEvent>::empty());
    assert(seq![x].last() == x);
}

/// What a selection run does with resolve ids: the counter never shrinks,
/// and every id handed out inside the run appears exactly once as a
/// resolve-start event and exactly once as a resolve-end event, while no
/// other id appears at all. Start/end pairs are therefore always matched by
/// resolve id, however hook calls for different fields interleave.
pub proof fn lemma_selection_instrumentation(
    reg: Registry,
    parent: Seq<char>,
    items: Seq<SelectionField>,
    src: ObjectSource,
    path: Seq<PathSegModel>,
    id: int,
)
    ensures
        ({
            let run = run_selection(reg, parent, items, src, path, id);
            &&& run.next_id >= id
            &&& forall|k: int| #[trigger] event_count(run.events, HookEvent::ResolveStart(k))
                == if id <= k < run.next_id { 1int } else { 0int }
            &&& forall|k: int| #[trigger] event_count(run.events, HookEvent::ResolveEnd(k))
                == if id <= k < run.next_id { 1int } else { 0int }
        }),
    decreases os_size(src), 1int, items.len(),
{
    let run = run_selection(reg, parent, items, src, path, id);
    if items.len() == 0 {
    } else {
        lemma_field_instrumentation(reg, parent, items[0], src, path, id);
        let f = run_field(reg, parent, items[0], src, path, id);
        match f.result {
            Err(_) => {},
            Ok(_) => {
                lemma_selection_instrumentation(reg, parent, items.skip(1), src, path, f.next_id);
                let rest = run_selection(reg, parent, items.skip(1), src, path, f.next_id);
                assert forall|k: int| #[trigger] event_count(
                    run.events,
                    HookEvent::ResolveStart(k),
                ) == if id <= k < run.next_id { 1int } else { 0int } by {
                    lemma_event_count_concat(f.events, rest.events, HookEvent::ResolveStart(k));
                }
                assert forall|k: int| #[trigger] event_count(
                    run.events,
                    HookEvent::ResolveEnd(k),
                ) == if id <= k < run.next_id { 1int } else { 0int } by {
                    lemma_event_count_concat(f.events, rest.events, HookEvent::ResolveEnd(k));
                }
            },
        }
    }
}

/// As [`lemma_selection_instrumentation`], for one field.
pub proof fn lemma_field_instrumentation(
    reg: Registry,
    parent: Seq<char>,
    field: SelectionField,
    src: ObjectSource,
    path: Seq<PathSegModel>,
    id: int,
)
    ensures
        ({
            let run = run_field(reg, parent, field, src, path, id);
            &&& run.next_id >= id
            &&& forall|k: int| #[trigger] event_count(run.events, HookEvent::ResolveStart(k))
                == if id <= k < run.next_id { 1int } else { 0int }
            &&& forall|k: int| #[trigger] event_count(run.events, HookEvent::ResolveEnd(k))
                == if id <= k < run.next_id { 1int } else { 0int }
        }),
    decreases os_size(src), 0int, 0int,
{
    let run = run_field(reg, parent, field, src, path, id);
    let fpath = path.push(PathSegModel::Name(field.name@));
    match spec_meta_lookup(reg, parent, field.name@) {
        None => {
            let e = field_not_found_model(field, parent, fpath);
            assert forall|k: int| #[trigger] event_count(
                run.events,
                HookEvent::ResolveStart(k),
            ) == 0int by {
                lemma_event_count_single(HookEvent::ErrorLogged(e), HookEvent::ResolveStart(k));
            }
            assert forall|k: int| #[trigger] event_count(
                run.events,
                HookEvent::ResolveEnd(k),
            ) == 0int by {
                lemma_event_count_single(HookEvent::ErrorLogged(e), HookEvent::ResolveEnd(k));
            }
        },
        Some(meta) => match spec_source_lookup(src.fields@, field.name@) {
            None => {
                let e = field_not_found_model(field, parent, fpath);
                assert forall|k: int| #[trigger] event_count(
                    run.events,
                    HookEvent::ResolveStart(k),
                ) == 0int by {
                    lemma_event_count_single(
                        HookEvent::ErrorLogged(e),
                        HookEvent::ResolveStart(k),
                    );
                }
                assert forall|k: int| #[trigger] event_count(
                    run.events,
                    HookEvent::ResolveEnd(k),
                ) == 0int by {
                    lemma_event_count_single(HookEvent::ErrorLogged(e), HookEvent::ResolveEnd(k));
                }
            },
            Some(outcome) => {
                proof_source_member_size(src, field.name@);
                lemma_value_instrumentation(reg, meta.ty, field, outcome, fpath, id + 1);
                let v = run_value(reg, meta.ty, field, outcome, fpath, id + 1);
                let pre = seq![HookEvent::ResolveStart(id)];
                let post = seq![HookEvent::ResolveEnd(id)];
                assert forall|k: int| #[trigger] event_count(
                    run.events,
                    HookEvent::ResolveStart(k),
                ) == if id <= k < run.next_id { 1int } else { 0int } by {
                    lemma_event_count_concat(pre + v.events, post, HookEvent::ResolveStart(k));
                    lemma_event_count_concat(pre, v.events, HookEvent::ResolveStart(k));
                    lemma_event_count_single(HookEvent::ResolveStart(id), HookEvent::ResolveStart(k));
                    lemma_event_count_single(HookEvent::ResolveEnd(id), HookEvent::ResolveStart(k));
                    assert(run.events == pre + v.events + post);
                }
                assert forall|k: int| #[trigger] event_count(
                    run.events,
                    HookEvent::ResolveEnd(k),
                ) == if id <= k < run.next_id { 1int } else { 0int } by {
                    lemma_event_count_concat(pre + v.events, post, HookEvent::ResolveEnd(k));
                    lemma_event_count_concat(pre, v.events, HookEvent::ResolveEnd(k));
                    lemma_event_count_single(HookEvent::ResolveStart(id), HookEvent::ResolveEnd(k));
                    lemma_event_count_single(HookEvent::ResolveEnd(id), HookEvent::ResolveEnd(k));
                    assert(run.events == pre + v.events + post);
                }
            },
        },
    }
}

/// The size fact `lemma_field_instrumentation` needs before recursing into
/// the looked-up outcome.
proof fn proof_source_member_size(src: ObjectSource, name: Seq<char>)
    ensures
        match spec_source_lookup(src.fields@, name) {
            Some(outcome) => fs_size(outcome) < os_size(src) && fs_size(outcome) >= 1,
            None => true,
        },
{
    lemma_source_lookup_size(src.fields@, name);
    match spec_source_lookup(src.fields@, name) {
        Some(outcome) => lemma_fs_size_pos(outcome),
        None => {},
    }
}

/// As [`lemma_selection_instrumentation`], for one outcome.
pub proof fn lemma_value_instrumentation(
    reg: Registry,
    ty: MetaTypeRef,
    field: SelectionField,
    outcome: FieldSource,
    path: Seq<PathSegModel>,
    id: int,
)
    ensures
        ({
            let run = run_value(reg, ty, field, outcome, path, id);
            &&& run.next_id >= id
            &&& forall|k: int| #[trigger] event_count(run.events, HookEvent::ResolveStart(k))
                == if id <= k < run.next_id { 1int } else { 0int }
            &&& forall|k: int| #[trigger] event_count(run.events, HookEvent::ResolveEnd(k))
                == if id <= k < run.next_id { 1int } else { 0int }
        }),
    decreases fs_size(outcome), 2int, 0int,
{
    let run = run_value(reg, ty, field, outcome, path, id);
    match outcome {
        FieldSource::Fail(message) => {
            let e = resolver_error_model(field, message@, path);
            assert forall|k: int| #[trigger] event_count(
                run.events,
                HookEvent::ResolveStart(k),
            ) == 0int by {
                lemma_event_count_single(HookEvent::ErrorLogged(e), HookEvent::ResolveStart(k));
            }
            assert forall|k: int| #[trigger] event_count(
                run.events,
                HookEvent::ResolveEnd(k),
            ) == 0int by {
                lemma_event_count_single(HookEvent::ErrorLogged(e), HookEvent::ResolveEnd(k));
            }
        },
        FieldSource::Leaf(_) => {},
        FieldSource::Object(osrc) => {
            lemma_os_size_pos(osrc);
            lemma_selection_instrumentation(
                reg,
                osrc.ty_name@,
                field.selection_set.items@,
                osrc,
                path,
                id,
            );
        },
        FieldSource::List(items) => {
            lemma_fsl_size_pos(items@);
            lemma_list_instrumentation(reg, ty.spec_element(), field, items@, 0, path, id);
        },
    }
}

/// As [`lemma_selection_instrumentation`], for a list tail.
pub proof fn lemma_list_instrumentation(
    reg: Registry,
    ety: MetaTypeRef,
    field: SelectionField,
    items: Seq<FieldSource>,
    idx: int,
    path: Seq<PathSegModel>,
    id: int,
)
    ensures
        ({
            let run = run_list(reg, ety, field, items, idx, path, id);
            &&& run.next_id >= id
            &&& forall|k: int| #[trigger] event_count(run.events, HookEvent::ResolveStart(k))
                == if id <= k < run.next_id { 1int } else { 0int }
            &&& forall|k: int| #[trigger] event_count(run.events, HookEvent::ResolveEnd(k))
                == if id <= k < run.next_id { 1int } else { 0int }
        }),
    decreases fsl_size(items), 3int, 0int,
{
    let run = run_list(reg, ety, field, items, idx, path, id);
    if items.len() == 0 {
    } else {
        assert(fsl_size(items) == fs_size(items[0]) + fsl_size(items.skip(1)) + 1);
        lemma_fs_size_pos(items[0]);
        lemma_fsl_size_pos(items.skip(1));
        let epath = path.push(PathSegModel::Index(idx));
        lemma_value_instrumentation(reg, ety, field, items[0], epath, id);
        let v = run_value(reg, ety, field, items[0], epath, id);
        let failed = v.result is Err && !ety.spec_nullable();
        if !failed {
            lemma_list_instrumentation(reg, ety, field, items.skip(1), idx + 1, path, v.next_id);
            let rest = run_list(reg, ety, field, items.skip(1), idx + 1, path, v.next_id);
            assert forall|k: int| #[trigger] event_count(
                run.events,
                HookEvent::ResolveStart(k),
            ) == if id <= k < run.next_id { 1int } else { 0int } by {
                lemma_event_count_concat(v.events, rest.events, HookEvent::ResolveStart(k));
            }
            assert forall|k: int| #[trigger] event_count(
                run.events,
                HookEvent::ResolveEnd(k),
            ) == if id <= k < run.next_id { 1int } else { 0int } by {
                lemma_event_count_concat(v.events, rest.events, HookEvent::ResolveEnd(k));
            }
        }
    }
}


/// The output object's key order equals the query's textual field order: a
/// successful selection run yields exactly one entry per selected field, in
/// selection order, under the field's own name — independently of what any
/// resolver did or in which order outcomes were produced.
pub proof fn lemma_selection_order(
    reg: Registry,
    parent: Seq<char>,
    items: Seq<SelectionField>,
    src: ObjectSource,
    path: Seq<PathSegModel>,
    id: int,
)
    ensures
        ({
            let run = run_selection(reg, parent, items, src, path, id);
            run.result is Ok ==> {
                &&& run.result->Ok_0.len() == items.len()
                &&& forall|i: int| 0 <= i < items.len()
                    ==> (#[trigger] run.result->Ok_0[i]).0 == items[i].name@
            }
        }),
    decreases items,
{
    if items.len() > 0 {
        let f = run_field(reg, parent, items[0], src, path, id);
        match f.result {
            Err(_) => {},
            Ok(_) => {
                lemma_selection_order(reg, parent, items.skip(1), src, path, f.next_id);
            },
        }
    }
}

/// The nullability rule, stated of one field whose resolver outcome fails:
/// a nullable field resolves to null and its error is recorded in the error
/// list (tagged, for a direct resolver failure, with the field's position
/// and its full path); a non-null field propagates the error to its parent
/// instead, recording nothing here.
pub proof fn lemma_field_nullability(
    reg: Registry,
    parent: Seq<char>,
    field: SelectionField,
    src: ObjectSource,
    path: Seq<PathSegModel>,
    id: int,
)
    ensures
        ({
            let run = run_field(reg, parent, field, src, path, id);
            let fpath = path.push(PathSegModel::Name(field.name@));
            match spec_meta_lookup(reg, parent, field.name@) {
                Some(meta) => match spec_source_lookup(src.fields@, field.name@) {
                    Some(outcome) => {
                        let v = run_value(reg, meta.ty, field, outcome, fpath, id + 1);
                        &&& (v.result is Err && meta.ty.spec_nullable()) ==> {
                            &&& run.result == Ok::<ValueModel, ErrorModel>(ValueModel::Null)
                            &&& run.errors == v.errors.push(v.result->Err_0)
                        }
                        &&& (v.result is Err && !meta.ty.spec_nullable()) ==> {
                            &&& run.result == Err::<ValueModel, ErrorModel>(v.result->Err_0)
                            &&& run.errors == v.errors
                        }
                        &&& (outcome is Fail) ==> v.result == Err::<ValueModel, ErrorModel>(
                            resolver_error_model(field, outcome->Fail_0@, fpath),
                        )
                    },
                    None => true,
                },
                None => true,
            }
        }),
{
}

/// A fatal field failure discards the whole selection level: when the first
/// field of a selection fails fatally, the selection's result is that very
/// error and none of the sibling entries survive.
pub proof fn lemma_selection_fatal(
    reg: Registry,
    parent: Seq<char>,
    items: Seq<SelectionField>,
    src: ObjectSource,
    path: Seq<PathSegModel>,
    id: int,
)
    requires
        items.len() > 0,
        run_field(reg, parent, items[0], src, path, id).result is Err,
    ensures
        ({
            let run = run_selection(reg, parent, items, src, path, id);
            let f = run_field(reg, parent, items[0], src, path, id);
            &&& run.result == Err::<Seq<(Seq<char>, ValueModel)>, ErrorModel>(f.result->Err_0)
            &&& run.errors == f.errors
        }),
{
}


/// A selection run splits at any position: when the first `k` fields
/// succeed, the whole run is the run of those fields followed by the run of
/// the remaining fields starting at the counter the prefix left behind, with
/// entries, errors and events concatenated in order.
pub proof fn lemma_selection_split(
    reg: Registry,
    parent: Seq<char>,
    items: Seq<SelectionField>,
    src: ObjectSource,
    path: Seq<PathSegModel>,
    id: int,
    k: int,
)
    requires
        0 <= k <= items.len(),
        run_selection(reg, parent, items.take(k), src, path, id).result is Ok,
    ensures
        ({
            let whole = run_selection(reg, parent, items, src, path, id);
            let pre = run_selection(reg, parent, items.take(k), src, path, id);
            let rest = run_selection(reg, parent, items.skip(k), src, path, pre.next_id);
            &&& whole.result == (match rest.result {
                Ok(es) => Ok::<Seq<(Seq<char>, ValueModel)>, ErrorModel>(
                    pre.result->Ok_0 + es,
                ),
                Err(e) => Err::<Seq<(Seq<char>, ValueModel)>, ErrorModel>(e),
            })
            &&& whole.errors == pre.errors + rest.errors
            &&& whole.events == pre.events + rest.events
            &&& whole.next_id == rest.next_id
        }),
    decreases k,
{
    let whole = run_selection(reg, parent, items, src, path, id);
    let pre = run_selection(reg, parent, items.take(k), src, path, id);
    let rest = run_selection(reg, parent, items.skip(k), src, path, pre.next_id);
    if k == 0 {
        assert(items.take(0).len() == 0);
        assert(items.skip(0) =~= items);
        assert(pre.result->Ok_0 + rest.result->Ok_0 =~= rest.result->Ok_0) by {
            match rest.result {
                Ok(es) => {
                    assert(pre.result->Ok_0 =~= Seq::<(Seq<char>, ValueModel)>::empty());
                },
                Err(_) => {},
            }
        }
        assert(whole.errors =~= pre.errors + rest.errors);
        assert(whole.events =~= pre.events + rest.events);
    } else {
        let f = run_field(reg, parent, items[0], src, path, id);
        assert(items.take(k)[0] == items[0]);
        assert(items.take(k).skip(1) =~= items.skip(1).take(k - 1));
        assert(f.result is Ok);
        lemma_selection_split(reg, parent, items.skip(1), src, path, f.next_id, k - 1);
        let pre2 = run_selection(reg, parent, items.skip(1).take(k - 1), src, path, f.next_id);
        let rest2 = run_selection(
            reg,
            parent,
            items.skip(1).skip(k - 1),
            src,
            path,
            pre2.next_id,
        );
        assert(items.skip(1).skip(k - 1) =~= items.skip(k));
        assert(pre.next_id == pre2.next_id);
        match rest.result {
            Ok(es) => {
                assert(whole.result->Ok_0 =~= pre.result->Ok_0 + es) by {
                    assert(whole.result->Ok_0 == seq![(items[0].name@, f.result->Ok_0)]
                        + (pre2.result->Ok_0 + es));
                    assert(pre.result->Ok_0 == seq![(items[0].name@, f.result->Ok_0)]
                        + pre2.result->Ok_0);
                }
            },
            Err(_) => {},
        }
        assert(whole.errors =~= pre.errors + rest.errors) by {
            assert(whole.errors == f.errors + (pre2.errors + rest2.errors));
            assert(pre.errors == f.errors + pre2.errors);
        }
        assert(whole.events =~= pre.events + rest.events) by {
            assert(whole.events == f.events + (pre2.events + rest2.events));
            assert(pre.events == f.events + pre2.events);
        }
    }
}

/// A successful selection run has a successful run over every prefix.
pub proof fn lemma_selection_prefix_ok(
    reg: Registry,
    parent: Seq<char>,
    items: Seq<SelectionField>,
    src: ObjectSource,
    path: Seq<PathSegModel>,
    id: int,
    k: int,
)
    requires
        0 <= k <= items.len(),
        run_selection(reg, parent, items, src, path, id).result is Ok,
    ensures
        run_selection(reg, parent, items.take(k), src, path, id).result is Ok,
    decreases k,
{
    if k > 0 {
        let f = run_field(reg, parent, items[0], src, path, id);
        assert(f.result is Ok);
        lemma_selection_prefix_ok(reg, parent, items.skip(1), src, path, f.next_id, k - 1);
        assert(items.take(k)[0] == items[0]);
        assert(items.take(k).skip(1) =~= items.skip(1).take(k - 1));
    }
}

/// The nullability law, end to end over a whole selection level: in a
/// selection whose run succeeds, a field whose declared type is nullable and
/// whose outcome resolution fails contributes a null entry under its own
/// name at its own position, and the failure's error — tagged with the
/// field's position and full path — stands in the run's error list; every
/// other entry is untouched, being fixed by its own field's run.
pub proof fn lemma_nullable_failure_end_to_end(
    reg: Registry,
    parent: Seq<char>,
    items: Seq<SelectionField>,
    src: ObjectSource,
    path: Seq<PathSegModel>,
    id: int,
    k: int,
)
    requires
        0 <= k < items.len(),
        run_selection(reg, parent, items, src, path, id).result is Ok,
        ({
            let fid = run_selection(reg, parent, items.take(k), src, path, id).next_id;
            let fpath = path.push(PathSegModel::Name(items[k].name@));
            match spec_meta_lookup(reg, parent, items[k].name@) {
                Some(meta) => {
                    &&& meta.ty.spec_nullable()
                    &&& match spec_source_lookup(src.fields@, items[k].name@) {
                        Some(outcome) => run_value(
                            reg,
                            meta.ty,
                            items[k],
                            outcome,
                            fpath,
                            fid + 1,
                        ).result is Err,
                        None => false,
                    }
                },
                None => false,
            }
        }),
    ensures
        ({
            let whole = run_selection(reg, parent, items, src, path, id);
            let fid = run_selection(reg, parent, items.take(k), src, path, id).next_id;
            let fpath = path.push(PathSegModel::Name(items[k].name@));
            let meta = spec_meta_lookup(reg, parent, items[k].name@)->Some_0;
            let outcome = spec_source_lookup(src.fields@, items[k].name@)->Some_0;
            let failure = run_value(reg, meta.ty, items[k], outcome, fpath, fid + 1).result
                ->Err_0;
            &&& whole.result->Ok_0[k] == (items[k].name@, ValueModel::Null)
            &&& exists|i: int| 0 <= i < whole.errors.len() && whole.errors[i] == failure
        }),
{
    lemma_selection_prefix_ok(reg, parent, items, src, path, id, k);
    lemma_selection_split(reg, parent, items, src, path, id, k);
    let pre = run_selection(reg, parent, items.take(k), src, path, id);
    let fid = pre.next_id;
    let f = run_field(reg, parent, items[k], src, path, fid);
    assert(items.skip(k)[0] == items[k]);
    let whole = run_selection(reg, parent, items, src, path, id);
    let rest = run_selection(reg, parent, items.skip(k), src, path, fid);
    assert(f.result == Ok::<ValueModel, ErrorModel>(ValueModel::Null));
    assert(rest.result is Ok);
    lemma_selection_order(reg, parent, items.take(k), src, path, id);
    assert(pre.result->Ok_0.len() == k);
    assert(whole.result->Ok_0[k] == rest.result->Ok_0[0]);
    assert(rest.result->Ok_0[0] == (items[k].name@, ValueModel::Null));
    let meta = spec_meta_lookup(reg, parent, items[k].name@)->Some_0;
    let fpath = path.push(PathSegModel::Name(items[k].name@));
    let outcome = spec_source_lookup(src.fields@, items[k].name@)->Some_0;
    let vrun = run_value(reg, meta.ty, items[k], outcome, fpath, fid + 1);
    let failure = vrun.result->Err_0;
    assert(f.errors == vrun.errors.push(failure));
    let i = pre.errors.len() + f.errors.len() - 1;
    assert(whole.errors[i as int] == failure) by {
        let rest2 = run_selection(
            reg,
            parent,
            items.skip(k).skip(1),
            src,
            path,
            f.next_id,
        );
        assert(rest.errors == f.errors + rest2.errors);
        assert(whole.errors == pre.errors + (f.errors + rest2.errors));
        assert(f.errors[f.errors.len() - 1] == failure);
    }
}

/// The propagation law, end to end over a whole selection level: when the
/// fields before position `k` succeed and field `k`'s declared type is
/// non-null and its outcome resolution fails, the whole selection fails with
/// exactly that error — no entries survive, so deeper partial results are
/// discarded — and the error list holds the errors recorded so far plus the
/// failing field's own recoverable errors.
pub proof fn lemma_non_null_failure_aborts(
    reg: Registry,
    parent: Seq<char>,
    items: Seq<SelectionField>,
    src: ObjectSource,
    path: Seq<PathSegModel>,
    id: int,
    k: int,
)
    requires
        0 <= k < items.len(),
        run_selection(reg, parent, items.take(k), src, path, id).result is Ok,
        ({
            let fid = run_selection(reg, parent, items.take(k), src, path, id).next_id;
            let fpath = path.push(PathSegModel::Name(items[k].name@));
            match spec_meta_lookup(reg, parent, items[k].name@) {
                Some(meta) => {
                    &&& !meta.ty.spec_nullable()
                    &&& match spec_source_lookup(src.fields@, items[k].name@) {
                        Some(outcome) => run_value(
                            reg,
                            meta.ty,
                            items[k],
                            outcome,
                            fpath,
                            fid + 1,
                        ).result is Err,
                        None => false,
                    }
                },
                None => false,
            }
        }),
    ensures
        ({
            let whole = run_selection(reg, parent, items, src, path, id);
            let pre = run_selection(reg, parent, items.take(k), src, path, id);
            let fpath = path.push(PathSegModel::Name(items[k].name@));
            let meta = spec_meta_lookup(reg, parent, items[k].name@)->Some_0;
            let outcome = spec_source_lookup(src.fields@, items[k].name@)->Some_0;
            let vrun = run_value(reg, meta.ty, items[k], outcome, fpath, pre.next_id + 1);
            &&& whole.result == Err::<Seq<(Seq<char>, ValueModel)>, ErrorModel>(
                vrun.result->Err_0,
            )
            &&& whole.errors == pre.errors + vrun.errors
        }),
{
    lemma_selection_split(reg, parent, items, src, path, id, k);
    let pre = run_selection(reg, parent, items.take(k), src, path, id);
    let f = run_field(reg, parent, items[k], src, path, pre.next_id);
    assert(items.skip(k)[0] == items[k]);
    assert(f.result is Err);
}

} // verus!
