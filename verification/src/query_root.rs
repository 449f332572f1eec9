//! The root wrapper: it decorates a user-supplied root object with the
//! introspection fields `__schema` and `__type` and the federation fields
//! `_entities` and `_service`, intercepting those four reserved names at the
//! top of a query before delegating everything else to the inner root.

use vstd::prelude::*;
use vstd::string::StringExecFns;
use crate::env::QueryEnv;
use crate::env::SchemaEnv;
use crate::error::Error;
use crate::error::ErrorModel;
use crate::error::PathSegModel;
use crate::error::PathSegment;
use crate::error::QueryError;
use crate::error::QueryErrorModel;
use crate::error::error_seq_model;
use crate::error::lemma_error_seq_model_push;
use crate::extensions::Extension;
use crate::extensions::Extensions;
use crate::extensions::HookEvent;
use crate::model::schema_introspection_model;
use crate::model::project;
use crate::model::project_model;
use crate::model::spec_value_entry;
use crate::model::value_entry;
use crate::model::schema_introspection_value;
use crate::model::sdl_model;
use crate::model::export_sdl;
use crate::model::type_introspection_model;
use crate::model::type_introspection_value;
use crate::path::PathArena;
use crate::path::spec_chain;
use crate::query::SelectionField;
use crate::query::SelectionSet;
use crate::query::spec_argument;
use crate::resolve::FieldSource;
use crate::resolve::ListOutput;
use crate::resolve::ObjectSource;
use crate::resolve::RunOutput;
use crate::resolve::SelOutput;
use crate::resolve::run_field;
use crate::resolve::run_selection;
use crate::resolve::spec_source_lookup;
use crate::resolve::field_not_found_model;
use crate::resolve::resolver_error_model;
use crate::resolve::lemma_field_instrumentation;
use crate::resolve::lemma_selection_instrumentation;
use crate::resolve::event_count;
use crate::resolve::lemma_event_count_concat;
use crate::resolve::lemma_event_count_single;
use crate::registry::Registry;
use crate::value::Value;
use crate::value::ValueModel;
use crate::value::entry_seq_model;
use crate::value::value_seq_model;

verus! {

broadcast use vstd::std_specs::vec::group_vec_axioms;

/// The root wrapper around the inner query root. The inner root's resolver
/// outcomes and the entity outcomes for federation are data; the wrapper
/// owns the dispatch on the four reserved field names.
pub struct QueryRoot {
    /// The user root's resolver outcomes.
    pub inner: ObjectSource,
    /// Federation entities: the outcome to resolve for each entity type name
    /// a representation may name in its `__typename` entry.
    pub entities: Vec<(String, FieldSource)>,
    /// When set, `__schema` fails with a field-not-found error instead of
    /// exposing the schema.
    pub disable_introspection: bool,
}

/// The entity type name a representation declares, when it is an object with
/// a string under `__typename`.
pub open spec fn spec_rep_ty(rep: Value) -> Option<Seq<char>> {
    match rep {
        Value::Object(fs) => match spec_value_entry(fs@, "__typename"@) {
            Some(v) => match v {
                Value::Str(s) => Some(s@),
                _ => None,
            },
            None => None,
        },
        _ => None,
    }
}

/// The per-element error for a representation that names no known entity.
pub open spec fn entity_not_found_model(
    field: SelectionField,
    epath: Seq<PathSegModel>,
) -> ErrorModel {
    ErrorModel::Query {
        pos: field.pos,
        path: Some(epath),
        err: QueryErrorModel::EntityNotFound,
    }
}

/// Resolve one representation to an entity value. Every failure here is
/// per-element: the element becomes null and the error is recorded, so
/// sibling representations are never affected.
pub open spec fn entity_element_run(
    reg: Registry,
    root: QueryRoot,
    field: SelectionField,
    rep: Value,
    epath: Seq<PathSegModel>,
    id: int,
) -> RunOutput {
    match spec_rep_ty(rep) {
        None => entity_miss(field, epath, id),
        Some(t) => match spec_source_lookup(root.entities@, t) {
            None => entity_miss(field, epath, id),
            Some(outcome) => match outcome {
                FieldSource::Leaf(v) => RunOutput {
                    result: Ok(v.model()),
                    errors: Seq::empty(),
                    events: Seq::empty(),
                    next_id: id,
                },
                FieldSource::Fail(m) => {
                    let e = resolver_error_model(field, m@, epath);
                    RunOutput {
                        result: Ok(ValueModel::Null),
                        errors: seq![e],
                        events: seq![HookEvent::ErrorLogged(e)],
                        next_id: id,
                    }
                },
                FieldSource::Object(osrc) => {
                    let run = run_selection(
                        reg,
                        osrc.ty_name@,
                        field.selection_set.items@,
                        osrc,
                        epath,
                        id,
                    );
                    match run.result {
                        Ok(entries) => RunOutput {
                            result: Ok(ValueModel::Object(entries)),
                            errors: run.errors,
                            events: run.events,
                            next_id: run.next_id,
                        },
                        Err(e) => RunOutput {
                            result: Ok(ValueModel::Null),
                            errors: run.errors.push(e),
                            events: run.events,
                            next_id: run.next_id,
                        },
                    }
                },
                FieldSource::List(_) => entity_miss(field, epath, id),
            },
        },
    }
}

/// The unmatched-representation outcome: a null element plus a recorded
/// entity-not-found error.
pub open spec fn entity_miss(field: SelectionField, epath: Seq<PathSegModel>, id: int)
    -> RunOutput {
    let e = entity_not_found_model(field, epath);
    RunOutput {
        result: Ok(ValueModel::Null),
        errors: seq![e],
        events: seq![HookEvent::ErrorLogged(e)],
        next_id: id,
    }
}

/// Resolve representations in input order: the output list has one element
/// per representation, in the same order, and a failing representation never
/// disturbs its siblings.
pub open spec fn entities_run(
    reg: Registry,
    root: QueryRoot,
    field: SelectionField,
    reps: Seq<Value>,
    idx: int,
    fpath: Seq<PathSegModel>,
    id: int,
) -> ListOutput
    decreases reps,
{
    if reps.len() == 0 {
        ListOutput {
            result: Ok(Seq::empty()),
            errors: Seq::empty(),
            events: Seq::empty(),
            next_id: id,
        }
    } else {
        let epath = fpath.push(PathSegModel::Index(idx));
        let e = entity_element_run(reg, root, field, reps[0], epath, id);
        let rest = entities_run(reg, root, field, reps.skip(1), idx + 1, fpath, e.next_id);
        ListOutput {
            result: match (e.result, rest.result) {
                (Ok(v), Ok(vs)) => Ok(seq![v] + vs),
                (_, _) => Err(arbitrary()),
            },
            errors: e.errors + rest.errors,
            events: e.events + rest.events,
            next_id: rest.next_id,
        }
    }
}

/// Both sides of `entities_run` are always successes, and the output list is
/// exactly as long as the input list: one entity per representation, in
/// input order.
pub proof fn lemma_entities_run_ok(
    reg: Registry,
    root: QueryRoot,
    field: SelectionField,
    reps: Seq<Value>,
    idx: int,
    fpath: Seq<PathSegModel>,
    id: int,
)
    ensures
        ({
            let run = entities_run(reg, root, field, reps, idx, fpath, id);
            &&& run.result is Ok
            &&& run.result->Ok_0.len() == reps.len()
            &&& run.next_id >= id
        }),
    decreases reps,
{
    if reps.len() > 0 {
        let epath = fpath.push(PathSegModel::Index(idx));
        let e = entity_element_run(reg, root, field, reps[0], epath, id);
        lemma_entity_element_next(reg, root, field, reps[0], epath, id);
        lemma_entities_run_ok(reg, root, field, reps.skip(1), idx + 1, fpath, e.next_id);
    }
}

/// An entity element never rolls the id counter back.
pub proof fn lemma_entity_element_next(
    reg: Registry,
    root: QueryRoot,
    field: SelectionField,
    rep: Value,
    epath: Seq<PathSegModel>,
    id: int,
)
    ensures
        entity_element_run(reg, root, field, rep, epath, id).next_id >= id,
        entity_element_run(reg, root, field, rep, epath, id).result is Ok,
{
    match spec_rep_ty(rep) {
        None => {},
        Some(t) => match spec_source_lookup(root.entities@, t) {
            None => {},
            Some(outcome) => match outcome {
                FieldSource::Object(osrc) => {
                    lemma_selection_instrumentation(
                        reg,
                        osrc.ty_name@,
                        field.selection_set.items@,
                        osrc,
                        epath,
                        id,
                    );
                },
                _ => {},
            },
        },
    }
}

/// Resolve one root-level field: the four reserved names are intercepted —
/// `__schema`, `__type` and `_service` resolve their builder-generated
/// objects projected by the field's own selection set — and everything else
/// is delegated to the inner root's outcomes under the ordinary field rules.
pub open spec fn root_field_run(
    reg: Registry,
    root: QueryRoot,
    field: SelectionField,
    id: int,
) -> RunOutput {
    let fpath = seq![PathSegModel::Name(field.name@)];
    if field.name@ == "__schema"@ {
        if root.disable_introspection {
            let e = field_not_found_model(field, root.inner.ty_name@, fpath);
            RunOutput {
                result: Err(e),
                errors: Seq::empty(),
                events: seq![HookEvent::ErrorLogged(e)],
                next_id: id,
            }
        } else {
            RunOutput {
                result: Ok(
                    project_model(
                        field.selection_set.items@,
                        schema_introspection_model(reg, root.inner.ty_name@),
                    ),
                ),
                errors: Seq::empty(),
                events: seq![HookEvent::ResolveStart(id), HookEvent::ResolveEnd(id)],
                next_id: id + 1,
            }
        }
    } else if field.name@ == "__type"@ {
        match spec_argument(field.arguments@, "name"@) {
            Some(v) => match v {
                Value::Str(s) => RunOutput {
                    result: Ok(
                        match reg.spec_get(s@) {
                            Some(m) => project_model(
                                field.selection_set.items@,
                                type_introspection_model(m),
                            ),
                            None => ValueModel::Null,
                        },
                    ),
                    errors: Seq::empty(),
                    events: seq![HookEvent::ResolveStart(id), HookEvent::ResolveEnd(id)],
                    next_id: id + 1,
                },
                _ => argument_miss(field, "String!"@, fpath, id),
            },
            None => argument_miss(field, "String!"@, fpath, id),
        }
    } else if field.name@ == "_entities"@ {
        match spec_argument(field.arguments@, "representations"@) {
            Some(v) => match v {
                Value::List(reps) => {
                    let run = entities_run(reg, root, field, reps@, 0, fpath, id + 1);
                    RunOutput {
                        result: match run.result {
                            Ok(vals) => Ok(ValueModel::List(vals)),
                            Err(e) => Err(e),
                        },
                        errors: run.errors,
                        events: seq![HookEvent::ResolveStart(id)] + run.events
                            + seq![HookEvent::ResolveEnd(id)],
                        next_id: run.next_id,
                    }
                },
                _ => argument_miss(field, "[_Any!]!"@, fpath, id),
            },
            None => argument_miss(field, "[_Any!]!"@, fpath, id),
        }
    } else if field.name@ == "_service"@ {
        RunOutput {
            result: Ok(
                project_model(
                    field.selection_set.items@,
                    ValueModel::Object(
                        seq![("sdl"@, ValueModel::Str(sdl_model(reg.metas@)))],
                    ),
                ),
            ),
            errors: Seq::empty(),
            events: seq![HookEvent::ResolveStart(id), HookEvent::ResolveEnd(id)],
            next_id: id + 1,
        }
    } else {
        run_field(reg, root.inner.ty_name@, field, root.inner, Seq::empty(), id)
    }
}

/// The fatal error for a reserved field whose required argument is missing
/// or of the wrong shape.
pub open spec fn argument_miss(
    field: SelectionField,
    expect: Seq<char>,
    fpath: Seq<PathSegModel>,
    id: int,
) -> RunOutput {
    let e = ErrorModel::Query {
        pos: field.pos,
        path: Some(fpath),
        err: QueryErrorModel::ExpectedType { expect },
    };
    RunOutput {
        result: Err(e),
        errors: Seq::empty(),
        events: seq![HookEvent::ErrorLogged(e)],
        next_id: id,
    }
}

/// Resolve a whole root selection set, in order; a fatal root field aborts
/// the query.
pub open spec fn root_run(
    reg: Registry,
    root: QueryRoot,
    items: Seq<SelectionField>,
    id: int,
) -> SelOutput
    decreases items,
{
    if items.len() == 0 {
        SelOutput {
            result: Ok(Seq::empty()),
            errors: Seq::empty(),
            events: Seq::empty(),
            next_id: id,
        }
    } else {
        let f = root_field_run(reg, root, items[0], id);
        match f.result {
            Err(e) => SelOutput {
                result: Err(e),
                errors: f.errors,
                events: f.events,
                next_id: f.next_id,
            },
            Ok(v) => {
                let rest = root_run(reg, root, items.skip(1), f.next_id);
                match rest.result {
                    Err(e) => SelOutput {
                        result: Err(e),
                        errors: f.errors + rest.errors,
                        events: f.events + rest.events,
                        next_id: rest.next_id,
                    },
                    Ok(entries) => SelOutput {
                        result: Ok(seq![(items[0].name@, v)] + entries),
                        errors: f.errors + rest.errors,
                        events: f.events + rest.events,
                        next_id: rest.next_id,
                    },
                }
            },
        }
    }
}

/// A root field never rolls the id counter back.
pub proof fn lemma_root_field_next(reg: Registry, root: QueryRoot, field: SelectionField, id: int)
    ensures
        root_field_run(reg, root, field, id).next_id >= id,
{
    let fpath = seq![PathSegModel::Name(field.name@)];
    if field.name@ == "_entities"@ {
        match spec_argument(field.arguments@, "representations"@) {
            Some(v) => match v {
                Value::List(reps) => {
                    lemma_entities_run_ok(reg, root, field, reps@, 0, fpath, id + 1);
                },
                _ => {},
            },
            None => {},
        }
    } else if !(field.name@ == "__schema"@ || field.name@ == "__type"@
        || field.name@ == "_service"@) {
        lemma_field_instrumentation(
            reg,
            root.inner.ty_name@,
            field,
            root.inner,
            Seq::empty(),
            id,
        );
    }
}

/// A root run never rolls the id counter back.
pub proof fn lemma_root_run_next(reg: Registry, root: QueryRoot, items: Seq<SelectionField>, id: int)
    ensures
        root_run(reg, root, items, id).next_id >= id,
    decreases items,
{
    if items.len() > 0 {
        lemma_root_field_next(reg, root, items[0], id);
        let f = root_field_run(reg, root, items[0], id);
        match f.result {
            Err(_) => {},
            Ok(_) => {
                lemma_root_run_next(reg, root, items.skip(1), f.next_id);
            },
        }
    }
}


/// The response of one executed query: the data value when execution
/// succeeded, every error that was recorded, and the extensions'
/// side-channel output when any extension contributed one.
pub struct Response {
    pub data: Option<Value>,
    pub errors: Vec<Error>,
    pub extensions: Option<Value>,
}

/// Find an entity outcome by type name.
fn entity_lookup<'a>(entities: &'a Vec<(String, FieldSource)>, name: &String)
    -> (r: Option<&'a FieldSource>)
    ensures
        match r {
            Some(f) => spec_source_lookup(entities@, name@) == Some(*f),
            None => spec_source_lookup(entities@, name@) is None,
        },
{
    let n = entities.len();
    let mut i: usize = 0;
    proof {
        assert(entities@.skip(0) =~= entities@);
    }
    while i < n
        invariant
            n == entities@.len(),
            i <= n,
            spec_source_lookup(entities@, name@)
                == spec_source_lookup(entities@.skip(i as int), name@),
        decreases n - i,
    {
        proof {
            assert(entities@.skip(i as int)[0] == entities@[i as int]);
            assert(entities@.skip(i as int).skip(1) =~= entities@.skip(i as int + 1));
        }
        if entities[i].0 == *name {
            return Some(&entities[i].1);
        }
        i = i + 1;
    }
    proof {
        assert(entities@.skip(n as int).len() == 0);
    }
    None
}


/// Resolve representations from position `start` on, in input order.
fn resolve_entities<E: Extension>(
    root: &QueryRoot,
    schema: &SchemaEnv,
    env: &mut QueryEnv,
    field: &SelectionField,
    reps: &Vec<Value>,
    start: usize,
    path: &mut PathArena,
    fidx: usize,
    ext: &mut Extensions<E>,
    errors: &mut Vec<Error>,
) -> (r: Vec<Value>)
    requires
        schema.registry.wf(),
        old(path).wf(),
        old(path).valid(Some(fidx)),
        start <= reps@.len(),
        entities_run(
            schema.registry,
            *root,
            *field,
            reps@.skip(start as int),
            start as int,
            spec_chain(old(path).nodes@, Some(fidx)),
            old(env).resolve_id as int,
        ).next_id <= u64::MAX,
    ensures
        ({
            let run = entities_run(
                schema.registry,
                *root,
                *field,
                reps@.skip(start as int),
                start as int,
                spec_chain(old(path).nodes@, Some(fidx)),
                old(env).resolve_id as int,
            );
            &&& final(env).resolve_id as int == run.next_id
            &&& final(env).ctx_data == old(env).ctx_data
            &&& final(env).variables == old(env).variables
            &&& final(ext).log@ == old(ext).log@ + run.events
            &&& error_seq_model(final(errors)@) == error_seq_model(old(errors)@) + run.errors
            &&& final(path).wf()
            &&& old(path).nodes@.len() <= final(path).nodes@.len()
            &&& forall|nd: Option<usize>| old(path).valid(nd)
                ==> #[trigger] spec_chain(final(path).nodes@, nd)
                    == spec_chain(old(path).nodes@, nd)
            &&& run.result is Ok
            &&& value_seq_model(r@) == run.result->Ok_0
        }),
    decreases reps@.len() - start,
{
    let ghost fpath = spec_chain(old(path).nodes@, Some(fidx));
    let ghost id0 = old(env).resolve_id as int;
    let ghost items = reps@.skip(start as int);
    let ghost run = entities_run(schema.registry, *root, *field, items, start as int, fpath, id0);
    proof {
        lemma_entities_run_ok(schema.registry, *root, *field, items, start as int, fpath, id0);
    }
    if start == reps.len() {
        proof {
            assert(items.len() == 0);
            assert(old(ext).log@ + run.events =~= old(ext).log@);
            assert(error_seq_model(errors@) + run.errors =~= error_seq_model(errors@));
            assert(value_seq_model(Seq::<Value>::empty()) =~= Seq::<ValueModel>::empty());
        }
        return Vec::new();
    }
    proof {
        assert(items[0] == reps@[start as int]);
        assert(items.skip(1) =~= reps@.skip(start as int + 1));
    }
    let ghost epath = fpath.push(PathSegModel::Index(start as int));
    let ghost erun = entity_element_run(schema.registry, *root, *field, reps@[start as int], epath, id0);
    proof {
        lemma_entity_element_next(schema.registry, *root, *field, reps@[start as int], epath, id0);
        lemma_entities_run_ok(
            schema.registry,
            *root,
            *field,
            items.skip(1),
            start as int + 1,
            fpath,
            erun.next_id,
        );
    }
    let eidx = path.push_node(PathSegment::Index(start), Some(fidx));
    proof {
        assert(spec_chain(path.nodes@, Some(eidx)) == epath);
    }
    let ghost log1 = ext.log@;
    let ghost errs1 = errors@;
    let typename_key = String::from_str("__typename");
    let rep_ty: Option<&String> = match &reps[start] {
        Value::Object(fs) => match value_entry(fs, &typename_key) {
            Some(v) => match v {
                Value::Str(t) => Some(t),
                _ => None,
            },
            None => None,
        },
        _ => None,
    };
    let outcome: Option<&FieldSource> = match rep_ty {
        Some(t) => entity_lookup(&root.entities, t),
        None => None,
    };
    let matched: Option<&FieldSource> = match outcome {
        Some(f) => match f {
            FieldSource::List(_) => None,
            _ => Some(f),
        },
        None => None,
    };
    let ghost missed = (match spec_rep_ty(reps@[start as int]) {
        Some(t) => match spec_source_lookup(root.entities@, t) {
            Some(o) => o is List,
            None => true,
        },
        None => true,
    });
    let elem = match matched {
        None => {
            let segs = path.materialize(Some(eidx));
            let e = Error::Query {
                pos: field.pos,
                path: Some(segs),
                err: QueryError::EntityNotFound,
            };
            ext.error(&e);
            let ghost pre = errors@;
            errors.push(e);
            proof {
                lemma_error_seq_model_push(pre, e);
                assert(ext.log@ =~= log1 + erun.events);
                assert(error_seq_model(errors@) =~= error_seq_model(errs1) + erun.errors);
            }
            Value::Null
        },
        Some(f) => match f {
            FieldSource::Leaf(v) => {
                proof {
                    assert(ext.log@ =~= log1 + erun.events);
                    assert(error_seq_model(errors@) =~= error_seq_model(errs1) + erun.errors);
                }
                v.duplicate()
            },
            FieldSource::Fail(m) => {
                let segs = path.materialize(Some(eidx));
                let e = Error::Query {
                    pos: field.pos,
                    path: Some(segs),
                    err: QueryError::FieldError { message: m.clone() },
                };
                ext.error(&e);
                let ghost pre = errors@;
                errors.push(e);
                proof {
                    lemma_error_seq_model_push(pre, e);
                    assert(ext.log@ =~= log1 + erun.events);
                    assert(error_seq_model(errors@) =~= error_seq_model(errs1) + erun.errors);
                }
                Value::Null
            },
            FieldSource::Object(osrc) => {
                match crate::engine::resolve_object(
                    schema,
                    env,
                    &osrc.ty_name,
                    &field.selection_set,
                    osrc,
                    path,
                    Some(eidx),
                    ext,
                    errors,
                ) {
                    Ok(v) => {
                        proof {
                            assert(ext.log@ =~= log1 + erun.events);
                            assert(error_seq_model(errors@)
                                =~= error_seq_model(errs1) + erun.errors);
                        }
                        v
                    },
                    Err(e) => {
                        let ghost pre = errors@;
                        errors.push(e);
                        proof {
                            lemma_error_seq_model_push(pre, e);
                            assert(ext.log@ =~= log1 + erun.events);
                            assert(error_seq_model(errors@)
                                =~= error_seq_model(errs1) + erun.errors);
                        }
                        Value::Null
                    },
                }
            },
            FieldSource::List(_) => vstd::pervasive::unreached(),
        },
    };
    let ghost rest = entities_run(
        schema.registry,
        *root,
        *field,
        items.skip(1),
        start as int + 1,
        fpath,
        erun.next_id,
    );
    proof {
        assert(spec_chain(path.nodes@, Some(fidx)) == fpath);
    }
    let mut vals = resolve_entities(root, schema, env, field, reps, start + 1, path, fidx, ext, errors);
    let ghost pre = vals@;
    vals.insert(0, elem);
    proof {
        assert(vals@ =~= seq![elem] + pre);
        crate::value::lemma_value_seq_model(vals@);
        crate::value::lemma_value_seq_model(pre);
        assert(value_seq_model(vals@) =~= seq![elem.model()] + value_seq_model(pre));
        assert(ext.log@ =~= old(ext).log@ + (erun.events + rest.events));
        assert(error_seq_model(errors@) =~= error_seq_model(old(errors)@) + (erun.errors + rest.errors));
    }
    vals
}


impl QueryRoot {
    /// Resolve one root-level field: `__schema` when introspection is
    /// enabled, `__type` by registry lookup with null for an unknown name,
    /// `_entities` in representation input order, `_service` carrying the
    /// exported schema text — each of these resolved against the field's own
    /// selection set — and anything else delegated to the inner root.
    pub fn resolve_field<E: Extension>(
        &self,
        schema: &SchemaEnv,
        env: &mut QueryEnv,
        field: &SelectionField,
        path: &mut PathArena,
        ext: &mut Extensions<E>,
        errors: &mut Vec<Error>,
    ) -> (r: Result<Value, Error>)
        requires
            schema.registry.wf(),
            old(path).wf(),
            root_field_run(schema.registry, *self, *field, old(env).resolve_id as int).next_id
                <= u64::MAX,
        ensures
            ({
                let run = root_field_run(
                    schema.registry,
                    *self,
                    *field,
                    old(env).resolve_id as int,
                );
                &&& final(env).resolve_id as int == run.next_id
                &&& final(env).ctx_data == old(env).ctx_data
                &&& final(env).variables == old(env).variables
                &&& final(ext).log@ == old(ext).log@ + run.events
                &&& error_seq_model(final(errors)@) == error_seq_model(old(errors)@) + run.errors
                &&& final(path).wf()
                &&& forall|nd: Option<usize>| old(path).valid(nd)
                    ==> #[trigger] spec_chain(final(path).nodes@, nd)
                        == spec_chain(old(path).nodes@, nd)
                &&& match r {
                    Ok(v) => run.result is Ok && v.model() == run.result->Ok_0,
                    Err(e) => run.result is Err && e.model() == run.result->Err_0,
                }
            }),
    {
        let ghost id0 = old(env).resolve_id as int;
        let ghost run = root_field_run(schema.registry, *self, *field, id0);
        let ghost fpath = seq![PathSegModel::Name(field.name@)];
        let fidx = path.push_node(PathSegment::Name(field.name.clone()), None);
        proof {
            assert(spec_chain(path.nodes@, Some(fidx)) =~= fpath);
        }
        if field.name == String::from_str("__schema") {
            if self.disable_introspection {
                let segs = path.materialize(Some(fidx));
                let e = Error::Query {
                    pos: field.pos,
                    path: Some(segs),
                    err: QueryError::FieldNotFound {
                        field_name: field.name.clone(),
                        object: self.inner.ty_name.clone(),
                    },
                };
                ext.error(&e);
                proof {
                    assert(old(ext).log@.push(HookEvent::ErrorLogged(e.model()))
                        =~= old(ext).log@ + run.events);
                    assert(error_seq_model(errors@) + run.errors =~= error_seq_model(errors@));
                }
                Err(e)
            } else {
                let id = env.next_resolve_id();
                let rt = crate::registry::MetaTypeRef::Named {
                    name: String::from_str("__Schema"),
                    non_null: true,
                };
                {
                    let info = crate::extensions::ResolveInfo {
                        resolve_id: id,
                        path_node: &*path,
                        path_tail: Some(fidx),
                        parent_type: &self.inner.ty_name,
                        return_type: &rt,
                        schema_env: schema,
                        query_env: &*env,
                    };
                    ext.resolve_start(&info);
                }
                let full = schema_introspection_value(&schema.registry, &self.inner.ty_name);
                let v = project(&field.selection_set, &full);
                {
                    let info = crate::extensions::ResolveInfo {
                        resolve_id: id,
                        path_node: &*path,
                        path_tail: Some(fidx),
                        parent_type: &self.inner.ty_name,
                        return_type: &rt,
                        schema_env: schema,
                        query_env: &*env,
                    };
                    ext.resolve_end(&info);
                }
                proof {
                    assert(ext.log@ =~= old(ext).log@ + run.events);
                    assert(error_seq_model(errors@) + run.errors =~= error_seq_model(errors@));
                }
                Ok(v)
            }
        } else if field.name == String::from_str("__type") {
            let name_key = String::from_str("name");
            let arg = field.argument(&name_key);
            let ty_name: Option<&String> = match arg {
                Some(v) => match v {
                    Value::Str(s) => Some(s),
                    _ => None,
                },
                None => None,
            };
            match ty_name {
                Some(t) => {
                    let id = env.next_resolve_id();
                    let rt = crate::registry::MetaTypeRef::Named {
                        name: String::from_str("__Type"),
                        non_null: false,
                    };
                    {
                        let info = crate::extensions::ResolveInfo {
                            resolve_id: id,
                            path_node: &*path,
                            path_tail: Some(fidx),
                            parent_type: &self.inner.ty_name,
                            return_type: &rt,
                            schema_env: schema,
                            query_env: &*env,
                        };
                        ext.resolve_start(&info);
                    }
                    let v = match schema.registry.get(t) {
                        Some(m) => {
                            let full = type_introspection_value(m);
                            project(&field.selection_set, &full)
                        },
                        None => Value::Null,
                    };
                    {
                        let info = crate::extensions::ResolveInfo {
                            resolve_id: id,
                            path_node: &*path,
                            path_tail: Some(fidx),
                            parent_type: &self.inner.ty_name,
                            return_type: &rt,
                            schema_env: schema,
                            query_env: &*env,
                        };
                        ext.resolve_end(&info);
                    }
                    proof {
                        assert(ext.log@ =~= old(ext).log@ + run.events);
                        assert(error_seq_model(errors@) + run.errors
                            =~= error_seq_model(errors@));
                    }
                    Ok(v)
                },
                None => {
                    let segs = path.materialize(Some(fidx));
                    let e = Error::Query {
                        pos: field.pos,
                        path: Some(segs),
                        err: QueryError::ExpectedType {
                            expect: String::from_str("String!"),
                        },
                    };
                    ext.error(&e);
                    proof {
                        assert(old(ext).log@.push(HookEvent::ErrorLogged(e.model()))
                            =~= old(ext).log@ + run.events);
                        assert(error_seq_model(errors@) + run.errors
                            =~= error_seq_model(errors@));
                    }
                    Err(e)
                },
            }
        } else if field.name == String::from_str("_entities") {
            let reps_key = String::from_str("representations");
            let arg = field.argument(&reps_key);
            let reps: Option<&Vec<Value>> = match arg {
                Some(v) => match v {
                    Value::List(reps) => Some(reps),
                    _ => None,
                },
                None => None,
            };
            match reps {
                Some(reps) => {
                    let ghost erun = entities_run(
                        schema.registry,
                        *self,
                        *field,
                        reps@,
                        0,
                        fpath,
                        id0 + 1,
                    );
                    proof {
                        lemma_entities_run_ok(
                            schema.registry,
                            *self,
                            *field,
                            reps@,
                            0,
                            fpath,
                            id0 + 1,
                        );
                    }
                    let id = env.next_resolve_id();
                    let rt = crate::registry::MetaTypeRef::List {
                        element: Box::new(crate::registry::MetaTypeRef::Named {
                            name: String::from_str("_Entity"),
                            non_null: false,
                        }),
                        non_null: true,
                    };
                    {
                        let info = crate::extensions::ResolveInfo {
                            resolve_id: id,
                            path_node: &*path,
                            path_tail: Some(fidx),
                            parent_type: &self.inner.ty_name,
                            return_type: &rt,
                            schema_env: schema,
                            query_env: &*env,
                        };
                        ext.resolve_start(&info);
                    }
                    proof {
                        assert(reps@.skip(0) =~= reps@);
                        assert(spec_chain(path.nodes@, Some(fidx)) == fpath);
                    }
                    let ghost log1 = ext.log@;
                    let vals = resolve_entities(
                        self,
                        schema,
                        env,
                        field,
                        reps,
                        0,
                        path,
                        fidx,
                        ext,
                        errors,
                    );
                    {
                        let info = crate::extensions::ResolveInfo {
                            resolve_id: id,
                            path_node: &*path,
                            path_tail: Some(fidx),
                            parent_type: &self.inner.ty_name,
                            return_type: &rt,
                            schema_env: schema,
                            query_env: &*env,
                        };
                        ext.resolve_end(&info);
                    }
                    proof {
                        assert(ext.log@ =~= old(ext).log@ + (seq![HookEvent::ResolveStart(id0)]
                            + erun.events + seq![HookEvent::ResolveEnd(id0)]));
                    }
                    Ok(Value::List(vals))
                },
                None => {
                    let segs = path.materialize(Some(fidx));
                    let e = Error::Query {
                        pos: field.pos,
                        path: Some(segs),
                        err: QueryError::ExpectedType {
                            expect: String::from_str("[_Any!]!"),
                        },
                    };
                    ext.error(&e);
                    proof {
                        assert(old(ext).log@.push(HookEvent::ErrorLogged(e.model()))
                            =~= old(ext).log@ + run.events);
                        assert(error_seq_model(errors@) + run.errors
                            =~= error_seq_model(errors@));
                    }
                    Err(e)
                },
            }
        } else if field.name == String::from_str("_service") {
            let id = env.next_resolve_id();
            let rt = crate::registry::MetaTypeRef::Named {
                name: String::from_str("_Service"),
                non_null: true,
            };
            {
                let info = crate::extensions::ResolveInfo {
                    resolve_id: id,
                    path_node: &*path,
                    path_tail: Some(fidx),
                    parent_type: &self.inner.ty_name,
                    return_type: &rt,
                    schema_env: schema,
                    query_env: &*env,
                };
                ext.resolve_start(&info);
            }
            let sdl = export_sdl(&schema.registry);
            let mut entries: Vec<(String, Value)> = Vec::new();
            entries.push((String::from_str("sdl"), Value::Str(sdl)));
            let full = Value::Object(entries);
            let v = project(&field.selection_set, &full);
            {
                let info = crate::extensions::ResolveInfo {
                    resolve_id: id,
                    path_node: &*path,
                    path_tail: Some(fidx),
                    parent_type: &self.inner.ty_name,
                    return_type: &rt,
                    schema_env: schema,
                    query_env: &*env,
                };
                ext.resolve_end(&info);
            }
            proof {
                crate::value::lemma_entry_seq_model(full->Object_0@);
                assert(full.model() == ValueModel::Object(
                    seq![("sdl"@, ValueModel::Str(sdl_model(schema.registry.metas@)))],
                )) by {
                    assert(entry_seq_model(full->Object_0@)
                        =~= seq![("sdl"@, ValueModel::Str(sdl_model(schema.registry.metas@)))]);
                }
                assert(ext.log@ =~= old(ext).log@ + run.events);
                assert(error_seq_model(errors@) + run.errors =~= error_seq_model(errors@));
            }
            Ok(v)
        } else {
            proof {
                assert(spec_chain(path.nodes@, None) =~= Seq::<PathSegModel>::empty());
            }
            crate::engine::resolve_object_field(
                schema,
                env,
                &self.inner.ty_name,
                field,
                &self.inner,
                path,
                None,
                ext,
                errors,
            )
        }
    }
}


/// Resolve root selection fields from position `start` on, in order.
fn resolve_root_items<E: Extension>(
    root: &QueryRoot,
    schema: &SchemaEnv,
    env: &mut QueryEnv,
    sel: &SelectionSet,
    start: usize,
    path: &mut PathArena,
    ext: &mut Extensions<E>,
    errors: &mut Vec<Error>,
) -> (r: Result<Vec<(String, Value)>, Error>)
    requires
        schema.registry.wf(),
        old(path).wf(),
        start <= sel.items@.len(),
        root_run(
            schema.registry,
            *root,
            sel.items@.skip(start as int),
            old(env).resolve_id as int,
        ).next_id <= u64::MAX,
    ensures
        ({
            let run = root_run(
                schema.registry,
                *root,
                sel.items@.skip(start as int),
                old(env).resolve_id as int,
            );
            &&& final(env).resolve_id as int == run.next_id
            &&& final(env).ctx_data == old(env).ctx_data
            &&& final(env).variables == old(env).variables
            &&& final(ext).log@ == old(ext).log@ + run.events
            &&& error_seq_model(final(errors)@) == error_seq_model(old(errors)@) + run.errors
            &&& final(path).wf()
            &&& match r {
                Ok(entries) => run.result is Ok
                    && entry_seq_model(entries@) == run.result->Ok_0,
                Err(e) => run.result is Err && e.model() == run.result->Err_0,
            }
        }),
    decreases sel.items@.len() - start,
{
    let ghost items = sel.items@.skip(start as int);
    let ghost id0 = old(env).resolve_id as int;
    let ghost run = root_run(schema.registry, *root, items, id0);
    if start == sel.items.len() {
        proof {
            assert(items.len() == 0);
            assert(old(ext).log@ + run.events =~= old(ext).log@);
            assert(error_seq_model(errors@) + run.errors =~= error_seq_model(errors@));
            assert(entry_seq_model(Seq::<(String, Value)>::empty())
                =~= Seq::<(Seq<char>, ValueModel)>::empty());
        }
        return Ok(Vec::new());
    }
    proof {
        assert(items[0] == sel.items@[start as int]);
        assert(items.skip(1) =~= sel.items@.skip(start as int + 1));
        lemma_root_field_next(schema.registry, *root, items[0], id0);
        lemma_root_run_next(
            schema.registry,
            *root,
            items.skip(1),
            root_field_run(schema.registry, *root, items[0], id0).next_id,
        );
    }
    let ghost frun = root_field_run(schema.registry, *root, items[0], id0);
    let ghost log1 = old(ext).log@;
    let ghost errs1 = errors@;
    let f_res = root.resolve_field(schema, env, &sel.items[start], path, ext, errors);
    match f_res {
        Err(e) => Err(e),
        Ok(v) => {
            let ghost rest = root_run(schema.registry, *root, items.skip(1), frun.next_id);
            let rest_res = resolve_root_items(root, schema, env, sel, start + 1, path, ext, errors);
            match rest_res {
                Err(e) => {
                    proof {
                        assert(ext.log@ =~= log1 + (frun.events + rest.events));
                        assert(error_seq_model(errors@)
                            =~= error_seq_model(errs1) + (frun.errors + rest.errors));
                    }
                    Err(e)
                },
                Ok(mut entries) => {
                    let ghost pre = entries@;
                    let name = sel.items[start].name.clone();
                    entries.insert(0, (name, v));
                    proof {
                        assert(entries@ =~= seq![(entries@[0].0, v)] + pre);
                        crate::value::lemma_entry_seq_model(entries@);
                        crate::value::lemma_entry_seq_model(pre);
                        assert(entry_seq_model(entries@)
                            =~= seq![(items[0].name@, v.model())] + entry_seq_model(pre));
                        assert(ext.log@ =~= log1 + (frun.events + rest.events));
                        assert(error_seq_model(errors@)
                            =~= error_seq_model(errs1) + (frun.errors + rest.errors));
                    }
                    Ok(entries)
                },
            }
        },
    }
}

impl QueryRoot {
    /// Execute a whole root selection set against this wrapper: on success
    /// the data object holds one entry per selected field, in the query's
    /// textual order; a fatal root failure aborts with no data.
    pub fn resolve<E: Extension>(
        &self,
        schema: &SchemaEnv,
        env: &mut QueryEnv,
        sel: &SelectionSet,
        path: &mut PathArena,
        ext: &mut Extensions<E>,
        errors: &mut Vec<Error>,
    ) -> (r: Result<Value, Error>)
        requires
            schema.registry.wf(),
            old(path).wf(),
            root_run(schema.registry, *self, sel.items@, old(env).resolve_id as int).next_id
                <= u64::MAX,
        ensures
            ({
                let run = root_run(schema.registry, *self, sel.items@, old(env).resolve_id as int);
                &&& final(env).resolve_id as int == run.next_id
                &&& final(ext).log@ == old(ext).log@ + run.events
                &&& error_seq_model(final(errors)@) == error_seq_model(old(errors)@) + run.errors
                &&& match r {
                    Ok(v) => run.result is Ok
                        && v.model() == ValueModel::Object(run.result->Ok_0),
                    Err(e) => run.result is Err && e.model() == run.result->Err_0,
                }
            }),
    {
        proof {
            assert(sel.items@.skip(0) =~= sel.items@);
        }
        match resolve_root_items(self, schema, env, sel, 0, path, ext, errors) {
            Ok(entries) => Ok(Value::Object(entries)),
            Err(e) => Err(e),
        }
    }
}

/// Execute one request: tell the extension chain that execution starts,
/// resolve the root selection, tell the chain that execution ended, and
/// gather the side-channel output. The response always has the same shape: a
/// data value on success, the list of every recorded error (plus the fatal
/// one when the query aborted), and the extensions' output when any
/// extension contributed.
pub fn execute<E: Extension>(
    schema: &SchemaEnv,
    env: &mut QueryEnv,
    root: &QueryRoot,
    sel: &SelectionSet,
    ext: &mut Extensions<E>,
) -> (r: Response)
    requires
        schema.registry.wf(),
        root_run(schema.registry, *root, sel.items@, old(env).resolve_id as int).next_id
            <= u64::MAX,
    ensures
        ({
            let run = root_run(schema.registry, *root, sel.items@, old(env).resolve_id as int);
            &&& final(env).resolve_id as int == run.next_id
            &&& final(ext).log@ == old(ext).log@ + seq![HookEvent::ExecutionStart] + run.events
                + seq![HookEvent::ExecutionEnd]
            &&& match run.result {
                Ok(entries) => {
                    &&& r.data is Some
                    &&& r.data->0.model() == ValueModel::Object(entries)
                    &&& error_seq_model(r.errors@) == run.errors
                },
                Err(e) => {
                    &&& r.data is None
                    &&& error_seq_model(r.errors@) == run.errors.push(e)
                },
            }
            &&& match r.extensions {
                Some(v) => v is Object,
                None => true,
            }
        }),
{
    let ghost run = root_run(schema.registry, *root, sel.items@, old(env).resolve_id as int);
    ext.execution_start();
    let mut errors: Vec<Error> = Vec::new();
    let mut path = PathArena::new();
    let ghost log1 = ext.log@;
    let result = root.resolve(schema, env, sel, &mut path, ext, &mut errors);
    ext.execution_end();
    let extensions = ext.result();
    proof {
        assert(ext.log@ =~= old(ext).log@ + seq![HookEvent::ExecutionStart] + run.events
            + seq![HookEvent::ExecutionEnd]);
        assert(error_seq_model(Seq::<Error>::empty()).len() == 0);
    }
    match result {
        Ok(v) => {
            proof {
                assert(error_seq_model(errors@)
                    =~= error_seq_model(Seq::<Error>::empty()) + run.errors);
                assert(error_seq_model(errors@) =~= run.errors);
            }
            Response { data: Some(v), errors, extensions }
        },
        Err(e) => {
            let ghost pre = errors@;
            errors.push(e);
            proof {
                lemma_error_seq_model_push(pre, e);
                assert(error_seq_model(errors@) =~= run.errors.push(e.model()));
            }
            Response { data: None, errors, extensions }
        },
    }
}


/// The introspection field the root wrapper injects for `__schema`: it
/// returns the non-null `__Schema` type and takes no arguments.
pub open spec fn is_schema_field(f: crate::registry::MetaField) -> bool {
    &&& f.name@ == "__schema"@
    &&& match f.ty {
        crate::registry::MetaTypeRef::Named { name, non_null } => name@ == "__Schema"@
            && non_null,
        _ => false,
    }
    &&& f.args@.len() == 0
}

/// The introspection field the root wrapper injects for `__type`: it
/// returns the nullable `__Type` type and takes exactly one argument,
/// `name`, of the non-null `String` type.
pub open spec fn is_type_field(f: crate::registry::MetaField) -> bool {
    &&& f.name@ == "__type"@
    &&& match f.ty {
        crate::registry::MetaTypeRef::Named { name, non_null } => name@ == "__Type"@
            && !non_null,
        _ => false,
    }
    &&& f.args@.len() == 1
    &&& f.args@[0].name@ == "name"@
    &&& match f.args@[0].ty {
        crate::registry::MetaTypeRef::Named { name, non_null } => name@ == "String"@
            && non_null,
        _ => false,
    }
}

/// Whether the root wrapper's registration can inject its two introspection
/// fields into the entry named by the inner type: either the name is free
/// and the inner type registers itself as an object, or the name is already
/// registered as an object (repeated registration is a no-op, and the
/// injection lands in the existing entry).
pub open spec fn injection_applies(reg: Registry, inner_meta: crate::registry::MetaType) -> bool {
    let nm = inner_meta.spec_name();
    match reg.spec_get(nm) {
        Some(m0) => m0 is Object,
        None => inner_meta is Object && nm != "__Schema"@ && nm != "__Type"@
            && nm != "_Service"@,
    }
}

/// The object entry the injection starts from: the entry already registered
/// under the inner name, or the inner metadata itself when the name is free.
pub open spec fn injection_base(reg: Registry, inner_meta: crate::registry::MetaType)
    -> crate::registry::MetaType {
    match reg.spec_get(inner_meta.spec_name()) {
        Some(m0) => m0,
        None => inner_meta,
    }
}

impl QueryRoot {
    /// Register the schema's own types and the inner root's type, then
    /// inject the two introspection fields into the inner type's field
    /// table. The order is load-bearing: the inner type registers itself
    /// first, and only then is its registry entry extended in place; without
    /// that second step introspection would omit the injected fields.
    pub fn create_type_info(&self, registry: &mut Registry, inner_meta: crate::registry::MetaType)
        -> (r: String)
        requires
            old(registry).wf(),
        ensures
            final(registry).wf(),
            r@ == inner_meta.spec_name(),
            final(registry).spec_get(inner_meta.spec_name()) is Some,
            final(registry).spec_get("__Schema"@) is Some,
            final(registry).spec_get("__Type"@) is Some,
            final(registry).spec_get("_Service"@) is Some,
            forall|n: Seq<char>| n != inner_meta.spec_name() && n != "__Schema"@
                && n != "__Type"@ && n != "_Service"@
                ==> final(registry).spec_get(n) == old(registry).spec_get(n),
            ({
                let fs0 = injection_base(*old(registry), inner_meta).spec_fields();
                injection_applies(*old(registry), inner_meta) ==> match final(registry).spec_get(
                    inner_meta.spec_name(),
                ) {
                    Some(m) => {
                        &&& m is Object
                        &&& match crate::registry::spec_field_lookup(
                            m.spec_fields()->Some_0,
                            "__schema"@,
                        ) {
                            Some(f) => is_schema_field(f),
                            None => false,
                        }
                        &&& match crate::registry::spec_field_lookup(
                            m.spec_fields()->Some_0,
                            "__type"@,
                        ) {
                            Some(f) => is_type_field(f),
                            None => false,
                        }
                        &&& forall|n: Seq<char>| n != "__schema"@ && n != "__type"@
                            ==> #[trigger] crate::registry::spec_field_lookup(
                                m.spec_fields()->Some_0,
                                n,
                            ) == crate::registry::spec_field_lookup(fs0->Some_0, n)
                    },
                    None => false,
                }
            }),
    {
        let schema_meta = crate::registry::MetaType::Object {
            name: String::from_str("__Schema"),
            description: None,
            fields: introspection_fields_schema(),
            cache_control: crate::registry::CacheControl { public: true, max_age: 0 },
            extends: false,
            keys: None,
        };
        registry.create_type(schema_meta);
        let type_meta = crate::registry::MetaType::Object {
            name: String::from_str("__Type"),
            description: None,
            fields: introspection_fields_type(),
            cache_control: crate::registry::CacheControl { public: true, max_age: 0 },
            extends: false,
            keys: None,
        };
        registry.create_type(type_meta);
        let service_meta = crate::registry::MetaType::Object {
            name: String::from_str("_Service"),
            description: None,
            fields: service_fields(),
            cache_control: crate::registry::CacheControl { public: true, max_age: 0 },
            extends: false,
            keys: None,
        };
        registry.create_type(service_meta);
        let ghost inner_name = inner_meta.spec_name();
        let ghost base = injection_base(*old(registry), inner_meta);
        let ghost fs0 = base.spec_fields();
        let ghost applies = injection_applies(*old(registry), inner_meta);
        proof {
            if applies {
                assert(registry.spec_get(inner_name) == old(registry).spec_get(inner_name));
            }
        }
        let ghost before_inner = *registry;
        let name = registry.create_type(inner_meta);
        proof {
            if applies {
                assert(registry.spec_get(inner_name) == Some(base));
            }
        }
        let schema_field = crate::registry::MetaField {
            name: String::from_str("__schema"),
            description: Some(
                String::from_str("Access the current type schema of this server."),
            ),
            args: Vec::new(),
            ty: crate::registry::MetaTypeRef::Named {
                name: String::from_str("__Schema"),
                non_null: true,
            },
            deprecation: None,
            cache_control: crate::registry::CacheControl { public: true, max_age: 0 },
            external: false,
            requires_fields: None,
            provides_fields: None,
        };
        let ghost gschema_field = schema_field;
        registry.add_object_field(&name, schema_field);
        let mut type_args: Vec<crate::registry::MetaInputValue> = Vec::new();
        type_args.push(crate::registry::MetaInputValue {
            name: String::from_str("name"),
            description: None,
            ty: crate::registry::MetaTypeRef::Named {
                name: String::from_str("String"),
                non_null: true,
            },
            default_value: None,
        });
        let type_field = crate::registry::MetaField {
            name: String::from_str("__type"),
            description: Some(
                String::from_str("Request the type information of a single type."),
            ),
            args: type_args,
            ty: crate::registry::MetaTypeRef::Named {
                name: String::from_str("__Type"),
                non_null: false,
            },
            deprecation: None,
            cache_control: crate::registry::CacheControl { public: true, max_age: 0 },
            external: false,
            requires_fields: None,
            provides_fields: None,
        };
        let ghost gtype_field = type_field;
        registry.add_object_field(&name, type_field);
        proof {
            reveal_strlit("__schema");
            reveal_strlit("__type");
            assert("__schema"@.len() == 8);
            assert("__type"@.len() == 6);
            if applies {
                crate::registry::lemma_field_insert_lookup(
                    fs0->Some_0,
                    gschema_field,
                    "__type"@,
                );
                crate::registry::lemma_field_insert_lookup(
                    crate::registry::spec_field_insert(fs0->Some_0, gschema_field),
                    gtype_field,
                    "__schema"@,
                );
                assert forall|n: Seq<char>| n != "__schema"@ && n != "__type"@
                    implies #[trigger] crate::registry::spec_field_lookup(
                        crate::registry::spec_field_insert(
                            crate::registry::spec_field_insert(fs0->Some_0, gschema_field),
                            gtype_field,
                        ),
                        n,
                    ) == crate::registry::spec_field_lookup(fs0->Some_0, n) by {
                    crate::registry::lemma_field_insert_lookup(fs0->Some_0, gschema_field, n);
                    crate::registry::lemma_field_insert_lookup(
                        crate::registry::spec_field_insert(fs0->Some_0, gschema_field),
                        gtype_field,
                        n,
                    );
                }
            }
        }
        name
    }
}

/// The field table of the `__Schema` introspection type.
fn introspection_fields_schema() -> (r: Vec<crate::registry::MetaField>)
{
    let mut fields: Vec<crate::registry::MetaField> = Vec::new();
    fields.push(crate::registry::MetaField {
        name: String::from_str("queryType"),
        description: None,
        args: Vec::new(),
        ty: crate::registry::MetaTypeRef::Named {
            name: String::from_str("__Type"),
            non_null: true,
        },
        deprecation: None,
        cache_control: crate::registry::CacheControl { public: true, max_age: 0 },
        external: false,
        requires_fields: None,
        provides_fields: None,
    });
    fields.push(crate::registry::MetaField {
        name: String::from_str("types"),
        description: None,
        args: Vec::new(),
        ty: crate::registry::MetaTypeRef::List {
            element: Box::new(crate::registry::MetaTypeRef::Named {
                name: String::from_str("__Type"),
                non_null: true,
            }),
            non_null: true,
        },
        deprecation: None,
        cache_control: crate::registry::CacheControl { public: true, max_age: 0 },
        external: false,
        requires_fields: None,
        provides_fields: None,
    });
    fields
}

/// The field table of the `__Type` introspection type.
fn introspection_fields_type() -> (r: Vec<crate::registry::MetaField>)
{
    let mut fields: Vec<crate::registry::MetaField> = Vec::new();
    fields.push(crate::registry::MetaField {
        name: String::from_str("name"),
        description: None,
        args: Vec::new(),
        ty: crate::registry::MetaTypeRef::Named {
            name: String::from_str("String"),
            non_null: false,
        },
        deprecation: None,
        cache_control: crate::registry::CacheControl { public: true, max_age: 0 },
        external: false,
        requires_fields: None,
        provides_fields: None,
    });
    fields.push(crate::registry::MetaField {
        name: String::from_str("kind"),
        description: None,
        args: Vec::new(),
        ty: crate::registry::MetaTypeRef::Named {
            name: String::from_str("String"),
            non_null: true,
        },
        deprecation: None,
        cache_control: crate::registry::CacheControl { public: true, max_age: 0 },
        external: false,
        requires_fields: None,
        provides_fields: None,
    });
    fields.push(crate::registry::MetaField {
        name: String::from_str("description"),
        description: None,
        args: Vec::new(),
        ty: crate::registry::MetaTypeRef::Named {
            name: String::from_str("String"),
            non_null: false,
        },
        deprecation: None,
        cache_control: crate::registry::CacheControl { public: true, max_age: 0 },
        external: false,
        requires_fields: None,
        provides_fields: None,
    });
    fields
}

/// The field table of the federation `_Service` type.
fn service_fields() -> (r: Vec<crate::registry::MetaField>)
{
    let mut fields: Vec<crate::registry::MetaField> = Vec::new();
    fields.push(crate::registry::MetaField {
        name: String::from_str("sdl"),
        description: None,
        args: Vec::new(),
        ty: crate::registry::MetaTypeRef::Named {
            name: String::from_str("String"),
            non_null: false,
        },
        deprecation: None,
        cache_control: crate::registry::CacheControl { public: true, max_age: 0 },
        external: false,
        requires_fields: None,
        provides_fields: None,
    });
    fields
}


/// As the engine's instrumentation law, for one entity element: ids never
/// shrink, and each id handed out inside appears exactly once per phase.
pub proof fn lemma_entity_element_instr(
    reg: Registry,
    root: QueryRoot,
    field: SelectionField,
    rep: Value,
    epath: Seq<PathSegModel>,
    id: int,
)
    ensures
        ({
            let run = entity_element_run(reg, root, field, rep, epath, id);
            &&& run.next_id >= id
            &&& forall|k: int| #[trigger] event_count(run.events, HookEvent::ResolveStart(k))
                == if id <= k < run.next_id { 1int } else { 0int }
            &&& forall|k: int| #[trigger] event_count(run.events, HookEvent::ResolveEnd(k))
                == if id <= k < run.next_id { 1int } else { 0int }
        }),
{
    let run = entity_element_run(reg, root, field, rep, epath, id);
    match spec_rep_ty(rep) {
        None => {
            lemma_miss_counts(field, epath, id);
        },
        Some(t) => match spec_source_lookup(root.entities@, t) {
            None => {
                lemma_miss_counts(field, epath, id);
            },
            Some(outcome) => match outcome {
                FieldSource::Object(osrc) => {
                    lemma_selection_instrumentation(
                        reg,
                        osrc.ty_name@,
                        field.selection_set.items@,
                        osrc,
                        epath,
                        id,
                    );
                },
                FieldSource::Fail(m) => {
                    let e = resolver_error_model(field, m@, epath);
                    assert forall|k: int| #[trigger] event_count(
                        run.events,
                        HookEvent::ResolveStart(k),
                    ) == 0int by {
                        lemma_event_count_single(
                            HookEvent::ErrorLogged(e),
                            HookEvent::ResolveStart(k),
                        );
                    }
                    assert forall|k: int| #[trigger] event_count(
                        run.events,
                        HookEvent::ResolveEnd(k),
                    ) == 0int by {
                        lemma_event_count_single(
                            HookEvent::ErrorLogged(e),
                            HookEvent::ResolveEnd(k),
                        );
                    }
                },
                FieldSource::Leaf(_) => {},
                FieldSource::List(_) => {
                    lemma_miss_counts(field, epath, id);
                },
            },
        },
    }
}

/// The unmatched-representation outcome emits no resolve events.
proof fn lemma_miss_counts(field: SelectionField, epath: Seq<PathSegModel>, id: int)
    ensures
        ({
            let run = entity_miss(field, epath, id);
            &&& forall|k: int| #[trigger] event_count(run.events, HookEvent::ResolveStart(k))
                == 0int
            &&& forall|k: int| #[trigger] event_count(run.events, HookEvent::ResolveEnd(k))
                == 0int
        }),
{
    let run = entity_miss(field, epath, id);
    let e = entity_not_found_model(field, epath);
    assert forall|k: int| #[trigger] event_count(run.events, HookEvent::ResolveStart(k))
        == 0int by {
        lemma_event_count_single(HookEvent::ErrorLogged(e), HookEvent::ResolveStart(k));
    }
    assert forall|k: int| #[trigger] event_count(run.events, HookEvent::ResolveEnd(k))
        == 0int by {
        lemma_event_count_single(HookEvent::ErrorLogged(e), HookEvent::ResolveEnd(k));
    }
}

/// As the engine's instrumentation law, for a run over representations.
pub proof fn lemma_entities_instr(
    reg: Registry,
    root: QueryRoot,
    field: SelectionField,
    reps: Seq<Value>,
    idx: int,
    fpath: Seq<PathSegModel>,
    id: int,
)
    ensures
        ({
            let run = entities_run(reg, root, field, reps, idx, fpath, id);
            &&& run.next_id >= id
            &&& forall|k: int| #[trigger] event_count(run.events, HookEvent::ResolveStart(k))
                == if id <= k < run.next_id { 1int } else { 0int }
            &&& forall|k: int| #[trigger] event_count(run.events, HookEvent::ResolveEnd(k))
                == if id <= k < run.next_id { 1int } else { 0int }
        }),
    decreases reps,
{
    let run = entities_run(reg, root, field, reps, idx, fpath, id);
    if reps.len() > 0 {
        let epath = fpath.push(PathSegModel::Index(idx));
        let e = entity_element_run(reg, root, field, reps[0], epath, id);
        lemma_entity_element_instr(reg, root, field, reps[0], epath, id);
        lemma_entities_instr(reg, root, field, reps.skip(1), idx + 1, fpath, e.next_id);
        let rest = entities_run(reg, root, field, reps.skip(1), idx + 1, fpath, e.next_id);
        assert forall|k: int| #[trigger] event_count(
            run.events,
            HookEvent::ResolveStart(k),
        ) == if id <= k < run.next_id { 1int } else { 0int } by {
            lemma_event_count_concat(e.events, rest.events, HookEvent::ResolveStart(k));
        }
        assert forall|k: int| #[trigger] event_count(
            run.events,
            HookEvent::ResolveEnd(k),
        ) == if id <= k < run.next_id { 1int } else { 0int } by {
            lemma_event_count_concat(e.events, rest.events, HookEvent::ResolveEnd(k));
        }
    }
}

/// As the engine's instrumentation law, for one root field: the reserved
/// fields take one id each and bracket their work with one start and one end
/// event; delegated fields follow the engine's law.
pub proof fn lemma_root_field_instr(
    reg: Registry,
    root: QueryRoot,
    field: SelectionField,
    id: int,
)
    ensures
        ({
            let run = root_field_run(reg, root, field, id);
            &&& run.next_id >= id
            &&& forall|k: int| #[trigger] event_count(run.events, HookEvent::ResolveStart(k))
                == if id <= k < run.next_id { 1int } else { 0int }
            &&& forall|k: int| #[trigger] event_count(run.events, HookEvent::ResolveEnd(k))
                == if id <= k < run.next_id { 1int } else { 0int }
        }),
{
    let run = root_field_run(reg, root, field, id);
    let fpath = seq![PathSegModel::Name(field.name@)];
    if field.name@ == "__schema"@ {
        if root.disable_introspection {
            lemma_reserved_error_counts(run);
        } else {
            lemma_reserved_bracket_counts(run, id);
        }
    } else if field.name@ == "__type"@ {
        match spec_argument(field.arguments@, "name"@) {
            Some(v) => match v {
                Value::Str(_) => lemma_reserved_bracket_counts(run, id),
                _ => lemma_reserved_error_counts(run),
            },
            None => lemma_reserved_error_counts(run),
        }
    } else if field.name@ == "_entities"@ {
        match spec_argument(field.arguments@, "representations"@) {
            Some(v) => match v {
                Value::List(reps) => {
                    lemma_entities_instr(reg, root, field, reps@, 0, fpath, id + 1);
                    let erun = entities_run(reg, root, field, reps@, 0, fpath, id + 1);
                    let pre = seq![HookEvent::ResolveStart(id)];
                    let post = seq![HookEvent::ResolveEnd(id)];
                    assert forall|k: int| #[trigger] event_count(
                        run.events,
                        HookEvent::ResolveStart(k),
                    ) == if id <= k < run.next_id { 1int } else { 0int } by {
                        lemma_event_count_concat(
                            pre + erun.events,
                            post,
                            HookEvent::ResolveStart(k),
                        );
                        lemma_event_count_concat(pre, erun.events, HookEvent::ResolveStart(k));
                        lemma_event_count_single(
                            HookEvent::ResolveStart(id),
                            HookEvent::ResolveStart(k),
                        );
                        lemma_event_count_single(
                            HookEvent::ResolveEnd(id),
                            HookEvent::ResolveStart(k),
                        );
                        assert(run.events == pre + erun.events + post);
                    }
                    assert forall|k: int| #[trigger] event_count(
                        run.events,
                        HookEvent::ResolveEnd(k),
                    ) == if id <= k < run.next_id { 1int } else { 0int } by {
                        lemma_event_count_concat(
                            pre + erun.events,
                            post,
                            HookEvent::ResolveEnd(k),
                        );
                        lemma_event_count_concat(pre, erun.events, HookEvent::ResolveEnd(k));
                        lemma_event_count_single(
                            HookEvent::ResolveStart(id),
                            HookEvent::ResolveEnd(k),
                        );
                        lemma_event_count_single(
                            HookEvent::ResolveEnd(id),
                            HookEvent::ResolveEnd(k),
                        );
                        assert(run.events == pre + erun.events + post);
                    }
                },
                _ => lemma_reserved_error_counts(run),
            },
            None => lemma_reserved_error_counts(run),
        }
    } else if field.name@ == "_service"@ {
        lemma_reserved_bracket_counts(run, id);
    } else {
        lemma_field_instrumentation(reg, root.inner.ty_name@, field, root.inner, Seq::empty(), id);
    }
}

/// A reserved field that fails before starting emits only the error event.
proof fn lemma_reserved_error_counts(run: RunOutput)
    requires
        exists|e: ErrorModel| run.events == seq![HookEvent::ErrorLogged(e)],
    ensures
        forall|k: int| #[trigger] event_count(run.events, HookEvent::ResolveStart(k)) == 0int,
        forall|k: int| #[trigger] event_count(run.events, HookEvent::ResolveEnd(k)) == 0int,
{
    let e = choose|e: ErrorModel| run.events == seq![HookEvent::ErrorLogged(e)];
    assert forall|k: int| #[trigger] event_count(run.events, HookEvent::ResolveStart(k))
        == 0int by {
        lemma_event_count_single(HookEvent::ErrorLogged(e), HookEvent::ResolveStart(k));
    }
    assert forall|k: int| #[trigger] event_count(run.events, HookEvent::ResolveEnd(k))
        == 0int by {
        lemma_event_count_single(HookEvent::ErrorLogged(e), HookEvent::ResolveEnd(k));
    }
}

/// A reserved field that succeeds emits exactly one start and one end under
/// its own id.
proof fn lemma_reserved_bracket_counts(run: RunOutput, id: int)
    requires
        run.events == seq![HookEvent::ResolveStart(id), HookEvent::ResolveEnd(id)],
        run.next_id == id + 1,
    ensures
        forall|k: int| #[trigger] event_count(run.events, HookEvent::ResolveStart(k))
            == if id <= k < run.next_id { 1int } else { 0int },
        forall|k: int| #[trigger] event_count(run.events, HookEvent::ResolveEnd(k))
            == if id <= k < run.next_id { 1int } else { 0int },
{
    assert(run.events.drop_last() =~= seq![HookEvent::ResolveStart(id)]);
    assert forall|k: int| #[trigger] event_count(run.events, HookEvent::ResolveStart(k))
        == if id <= k < run.next_id { 1int } else { 0int } by {
        lemma_event_count_single(HookEvent::ResolveStart(id), HookEvent::ResolveStart(k));
    }
    assert forall|k: int| #[trigger] event_count(run.events, HookEvent::ResolveEnd(k))
        == if id <= k < run.next_id { 1int } else { 0int } by {
        lemma_event_count_single(HookEvent::ResolveStart(id), HookEvent::ResolveEnd(k));
    }
}

/// The instrumentation law at the top of a query: over a whole root run,
/// resolve-start and resolve-end events are matched one to one by resolve
/// id, however hook calls interleave, and every id handed out during the run
/// appears in exactly one such pair.
pub proof fn lemma_root_run_instr(
    reg: Registry,
    root: QueryRoot,
    items: Seq<SelectionField>,
    id: int,
)
    ensures
        ({
            let run = root_run(reg, root, items, id);
            &&& run.next_id >= id
            &&& forall|k: int| #[trigger] event_count(run.events, HookEvent::ResolveStart(k))
                == if id <= k < run.next_id { 1int } else { 0int }
            &&& forall|k: int| #[trigger] event_count(run.events, HookEvent::ResolveEnd(k))
                == if id <= k < run.next_id { 1int } else { 0int }
        }),
    decreases items,
{
    let run = root_run(reg, root, items, id);
    if items.len() > 0 {
        lemma_root_field_instr(reg, root, items[0], id);
        let f = root_field_run(reg, root, items[0], id);
        match f.result {
            Err(_) => {},
            Ok(_) => {
                lemma_root_run_instr(reg, root, items.skip(1), f.next_id);
                let rest = root_run(reg, root, items.skip(1), f.next_id);
                assert forall|k: int| #[trigger] event_count(
                    run.events,
                    HookEvent::ResolveStart(k),
                ) == if id <= k < run.next_id { 1int } else { 0int } by {
                    lemma_event_count_concat(f.events, rest.events, HookEvent::ResolveStart(k));
                }
                assert forall|k: int| #[trigger] event_count(
                    run.events,
                    HookEvent::ResolveEnd(k),
                ) == if id <= k < run.next_id { 1int } else { 0int } by {
                    lemma_event_count_concat(f.events, rest.events, HookEvent::ResolveEnd(k));
                }
            },
        }
    }
}

/// The ordering law at the top of a query: a successful root run yields one
/// entry per selected field, under the field's own name, in the query's
/// textual order.
pub proof fn lemma_root_run_order(
    reg: Registry,
    root: QueryRoot,
    items: Seq<SelectionField>,
    id: int,
)
    ensures
        ({
            let run = root_run(reg, root, items, id);
            run.result is Ok ==> {
                &&& run.result->Ok_0.len() == items.len()
                &&& forall|i: int| 0 <= i < items.len()
                    ==> (#[trigger] run.result->Ok_0[i]).0 == items[i].name@
            }
        }),
    decreases items,
{
    if items.len() > 0 {
        let f = root_field_run(reg, root, items[0], id);
        match f.result {
            Err(_) => {},
            Ok(_) => {
                lemma_root_run_order(reg, root, items.skip(1), f.next_id);
            },
        }
    }
}


/// A representation run splits at any position: the whole run is the run of
/// the first `k` representations followed by the run of the rest, with
/// elements, errors and events concatenated in order.
pub proof fn lemma_entities_split(
    reg: Registry,
    root: QueryRoot,
    field: SelectionField,
    reps: Seq<Value>,
    idx: int,
    fpath: Seq<PathSegModel>,
    id: int,
    k: int,
)
    requires
        0 <= k <= reps.len(),
    ensures
        ({
            let whole = entities_run(reg, root, field, reps, idx, fpath, id);
            let pre = entities_run(reg, root, field, reps.take(k), idx, fpath, id);
            let rest = entities_run(reg, root, field, reps.skip(k), idx + k, fpath, pre.next_id);
            &&& whole.result is Ok
            &&& pre.result is Ok
            &&& rest.result is Ok
            &&& whole.result->Ok_0 == pre.result->Ok_0 + rest.result->Ok_0
            &&& whole.errors == pre.errors + rest.errors
            &&& whole.events == pre.events + rest.events
            &&& whole.next_id == rest.next_id
        }),
    decreases k,
{
    lemma_entities_run_ok(reg, root, field, reps, idx, fpath, id);
    lemma_entities_run_ok(reg, root, field, reps.take(k), idx, fpath, id);
    let whole = entities_run(reg, root, field, reps, idx, fpath, id);
    let pre = entities_run(reg, root, field, reps.take(k), idx, fpath, id);
    let rest = entities_run(reg, root, field, reps.skip(k), idx + k, fpath, pre.next_id);
    lemma_entities_run_ok(reg, root, field, reps.skip(k), idx + k, fpath, pre.next_id);
    if k == 0 {
        assert(reps.take(0).len() == 0);
        assert(reps.skip(0) =~= reps);
        assert(pre.result->Ok_0 + rest.result->Ok_0 =~= rest.result->Ok_0);
        assert(whole.errors =~= pre.errors + rest.errors);
        assert(whole.events =~= pre.events + rest.events);
    } else {
        let epath = fpath.push(PathSegModel::Index(idx));
        let e = entity_element_run(reg, root, field, reps[0], epath, id);
        assert(reps.take(k)[0] == reps[0]);
        assert(reps.take(k).skip(1) =~= reps.skip(1).take(k - 1));
        lemma_entities_split(reg, root, field, reps.skip(1), idx + 1, fpath, e.next_id, k - 1);
        let pre2 = entities_run(
            reg,
            root,
            field,
            reps.skip(1).take(k - 1),
            idx + 1,
            fpath,
            e.next_id,
        );
        let rest2 = entities_run(
            reg,
            root,
            field,
            reps.skip(1).skip(k - 1),
            idx + k,
            fpath,
            pre2.next_id,
        );
        assert(reps.skip(1).skip(k - 1) =~= reps.skip(k));
        lemma_entity_element_next(reg, root, field, reps[0], epath, id);
        assert(whole.result->Ok_0 =~= pre.result->Ok_0 + rest.result->Ok_0) by {
            assert(whole.result->Ok_0 == seq![e.result->Ok_0]
                + (pre2.result->Ok_0 + rest2.result->Ok_0));
            assert(pre.result->Ok_0 == seq![e.result->Ok_0] + pre2.result->Ok_0);
        }
        assert(whole.errors =~= pre.errors + rest.errors) by {
            assert(whole.errors == e.errors + (pre2.errors + rest2.errors));
            assert(pre.errors == e.errors + pre2.errors);
        }
        assert(whole.events =~= pre.events + rest.events) by {
            assert(whole.events == e.events + (pre2.events + rest2.events));
            assert(pre.events == e.events + pre2.events);
        }
    }
}

/// The per-element entity-error law, end to end: a representation that names
/// no resolvable entity yields a null element at its own position, and one
/// entity-not-found error tagged with that element's index stands in the
/// run's error list; the run still succeeds with one element per
/// representation, so sibling representations are untouched.
pub proof fn lemma_unmatched_rep_end_to_end(
    reg: Registry,
    root: QueryRoot,
    field: SelectionField,
    reps: Seq<Value>,
    idx: int,
    fpath: Seq<PathSegModel>,
    id: int,
    k: int,
)
    requires
        0 <= k < reps.len(),
        ({
            match spec_rep_ty(reps[k]) {
                None => true,
                Some(t) => match spec_source_lookup(root.entities@, t) {
                    None => true,
                    Some(o) => o is List,
                },
            }
        }),
    ensures
        ({
            let whole = entities_run(reg, root, field, reps, idx, fpath, id);
            let failure = entity_not_found_model(
                field,
                fpath.push(PathSegModel::Index(idx + k)),
            );
            &&& whole.result is Ok
            &&& whole.result->Ok_0.len() == reps.len()
            &&& whole.result->Ok_0[k] == ValueModel::Null
            &&& exists|i: int| 0 <= i < whole.errors.len() && whole.errors[i] == failure
        }),
{
    lemma_entities_run_ok(reg, root, field, reps, idx, fpath, id);
    lemma_entities_split(reg, root, field, reps, idx, fpath, id, k);
    let whole = entities_run(reg, root, field, reps, idx, fpath, id);
    let pre = entities_run(reg, root, field, reps.take(k), idx, fpath, id);
    let rest = entities_run(reg, root, field, reps.skip(k), idx + k, fpath, pre.next_id);
    lemma_entities_run_ok(reg, root, field, reps.take(k), idx, fpath, id);
    assert(reps.skip(k)[0] == reps[k]);
    let epath = fpath.push(PathSegModel::Index(idx + k));
    let e = entity_element_run(reg, root, field, reps[k], epath, pre.next_id);
    assert(e == entity_miss(field, epath, pre.next_id));
    let failure = entity_not_found_model(field, epath);
    assert(whole.result->Ok_0[k] == rest.result->Ok_0[0]);
    let i = pre.errors.len() as int;
    assert(whole.errors[i] == failure) by {
        let rest2 = entities_run(
            reg,
            root,
            field,
            reps.skip(k).skip(1),
            idx + k + 1,
            fpath,
            e.next_id,
        );
        assert(rest.errors == e.errors + rest2.errors);
        assert(whole.errors == pre.errors + (e.errors + rest2.errors));
        assert(e.errors[0] == failure);
    }
}


/// A root run splits at any position: when the first `k` fields succeed, the
/// whole run is the run of those fields followed by the run of the rest,
/// starting at the counter the prefix left behind.
pub proof fn lemma_root_split(
    reg: Registry,
    root: QueryRoot,
    items: Seq<SelectionField>,
    id: int,
    k: int,
)
    requires
        0 <= k <= items.len(),
        root_run(reg, root, items.take(k), id).result is Ok,
    ensures
        ({
            let whole = root_run(reg, root, items, id);
            let pre = root_run(reg, root, items.take(k), id);
            let rest = root_run(reg, root, items.skip(k), pre.next_id);
            &&& whole.result == (match rest.result {
                Ok(es) => Ok::<Seq<(Seq<char>, ValueModel)>, ErrorModel>(
                    pre.result->Ok_0 + es,
                ),
                Err(e) => Err::<Seq<(Seq<char>, ValueModel)>, ErrorModel>(e),
            })
            &&& whole.errors == pre.errors + rest.errors
            &&& whole.events == pre.events + rest.events
            &&& whole.next_id == rest.next_id
        }),
    decreases k,
{
    let whole = root_run(reg, root, items, id);
    let pre = root_run(reg, root, items.take(k), id);
    let rest = root_run(reg, root, items.skip(k), pre.next_id);
    if k == 0 {
        assert(items.take(0).len() == 0);
        assert(items.skip(0) =~= items);
        assert(pre.result->Ok_0 + rest.result->Ok_0 =~= rest.result->Ok_0) by {
            match rest.result {
                Ok(es) => {
                    assert(pre.result->Ok_0 =~= Seq::<(Seq<char>, ValueModel)>::empty());
                },
                Err(_) => {},
            }
        }
        assert(whole.errors =~= pre.errors + rest.errors);
        assert(whole.events =~= pre.events + rest.events);
    } else {
        let f = root_field_run(reg, root, items[0], id);
        assert(items.take(k)[0] == items[0]);
        assert(items.take(k).skip(1) =~= items.skip(1).take(k - 1));
        assert(f.result is Ok);
        lemma_root_split(reg, root, items.skip(1), f.next_id, k - 1);
        let pre2 = root_run(reg, root, items.skip(1).take(k - 1), f.next_id);
        let rest2 = root_run(reg, root, items.skip(1).skip(k - 1), pre2.next_id);
        assert(items.skip(1).skip(k - 1) =~= items.skip(k));
        assert(pre.next_id == pre2.next_id);
        match rest.result {
            Ok(es) => {
                assert(whole.result->Ok_0 =~= pre.result->Ok_0 + es) by {
                    assert(whole.result->Ok_0 == seq![(items[0].name@, f.result->Ok_0)]
                        + (pre2.result->Ok_0 + es));
                    assert(pre.result->Ok_0 == seq![(items[0].name@, f.result->Ok_0)]
                        + pre2.result->Ok_0);
                }
            },
            Err(_) => {},
        }
        assert(whole.errors =~= pre.errors + rest.errors) by {
            assert(whole.errors == f.errors + (pre2.errors + rest2.errors));
            assert(pre.errors == f.errors + pre2.errors);
        }
        assert(whole.events =~= pre.events + rest.events) by {
            assert(whole.events == f.events + (pre2.events + rest2.events));
            assert(pre.events == f.events + pre2.events);
        }
    }
}

/// A successful root run has a successful run over every prefix.
pub proof fn lemma_root_prefix_ok(
    reg: Registry,
    root: QueryRoot,
    items: Seq<SelectionField>,
    id: int,
    k: int,
)
    requires
        0 <= k <= items.len(),
        root_run(reg, root, items, id).result is Ok,
    ensures
        root_run(reg, root, items.take(k), id).result is Ok,
    decreases k,
{
    if k > 0 {
        let f = root_field_run(reg, root, items[0], id);
        assert(f.result is Ok);
        lemma_root_prefix_ok(reg, root, items.skip(1), f.next_id, k - 1);
        assert(items.take(k)[0] == items[0]);
        assert(items.take(k).skip(1) =~= items.skip(1).take(k - 1));
    }
}

/// Whether a root field name is one of the four reserved names the wrapper
/// intercepts.
pub open spec fn is_reserved_root_name(name: Seq<char>) -> bool {
    name == "__schema"@ || name == "__type"@ || name == "_entities"@ || name == "_service"@
}

/// The nullability law at the top of a query: in a root run that succeeds, a
/// delegated field whose declared type is nullable and whose outcome
/// resolution fails contributes a null entry under its own name at its own
/// position, and the failure's positioned, path-tagged error stands in the
/// run's error list; every other entry is untouched, being fixed by its own
/// field's run.
pub proof fn lemma_root_nullable_failure(
    reg: Registry,
    root: QueryRoot,
    items: Seq<SelectionField>,
    id: int,
    k: int,
)
    requires
        0 <= k < items.len(),
        root_run(reg, root, items, id).result is Ok,
        !is_reserved_root_name(items[k].name@),
        ({
            let fid = root_run(reg, root, items.take(k), id).next_id;
            let fpath = seq![PathSegModel::Name(items[k].name@)];
            match crate::resolve::spec_meta_lookup(reg, root.inner.ty_name@, items[k].name@) {
                Some(meta) => {
                    &&& meta.ty.spec_nullable()
                    &&& match spec_source_lookup(root.inner.fields@, items[k].name@) {
                        Some(outcome) => crate::resolve::run_value(
                            reg,
                            meta.ty,
                            items[k],
                            outcome,
                            fpath,
                            fid + 1,
                        ).result is Err,
                        None => false,
                    }
                },
                None => false,
            }
        }),
    ensures
        ({
            let whole = root_run(reg, root, items, id);
            let fid = root_run(reg, root, items.take(k), id).next_id;
            let fpath = seq![PathSegModel::Name(items[k].name@)];
            let meta = crate::resolve::spec_meta_lookup(
                reg,
                root.inner.ty_name@,
                items[k].name@,
            )->Some_0;
            let outcome = spec_source_lookup(root.inner.fields@, items[k].name@)->Some_0;
            let failure = crate::resolve::run_value(
                reg,
                meta.ty,
                items[k],
                outcome,
                fpath,
                fid + 1,
            ).result->Err_0;
            &&& whole.result->Ok_0[k] == (items[k].name@, ValueModel::Null)
            &&& exists|i: int| 0 <= i < whole.errors.len() && whole.errors[i] == failure
        }),
{
    lemma_root_prefix_ok(reg, root, items, id, k);
    lemma_root_split(reg, root, items, id, k);
    let whole = root_run(reg, root, items, id);
    let pre = root_run(reg, root, items.take(k), id);
    let fid = pre.next_id;
    let rest = root_run(reg, root, items.skip(k), fid);
    assert(items.skip(k)[0] == items[k]);
    let f = root_field_run(reg, root, items[k], fid);
    let fpath = seq![PathSegModel::Name(items[k].name@)];
    assert(f == run_field(reg, root.inner.ty_name@, items[k], root.inner, Seq::empty(), fid));
    assert(Seq::<PathSegModel>::empty().push(PathSegModel::Name(items[k].name@)) =~= fpath);
    let meta = crate::resolve::spec_meta_lookup(reg, root.inner.ty_name@, items[k].name@)
        ->Some_0;
    let outcome = spec_source_lookup(root.inner.fields@, items[k].name@)->Some_0;
    let vrun = crate::resolve::run_value(reg, meta.ty, items[k], outcome, fpath, fid + 1);
    let failure = vrun.result->Err_0;
    assert(f.result == Ok::<ValueModel, ErrorModel>(ValueModel::Null));
    assert(rest.result is Ok);
    lemma_root_run_order(reg, root, items.take(k), id);
    assert(pre.result->Ok_0.len() == k);
    assert(whole.result->Ok_0[k] == rest.result->Ok_0[0]);
    assert(f.errors == vrun.errors.push(failure));
    let i = pre.errors.len() + f.errors.len() - 1;
    assert(whole.errors[i as int] == failure) by {
        let rest2 = root_run(reg, root, items.skip(k).skip(1), f.next_id);
        assert(rest.errors == f.errors + rest2.errors);
        assert(whole.errors == pre.errors + (f.errors + rest2.errors));
        assert(f.errors[f.errors.len() - 1] == failure);
    }
}

/// The abort law at the top of a query: when the fields before position `k`
/// succeed and field `k` fails fatally, the whole root run fails with
/// exactly that error and no entries survive; through `execute` that leaves
/// a response with no data and only the error list populated.
pub proof fn lemma_root_fatal_aborts(
    reg: Registry,
    root: QueryRoot,
    items: Seq<SelectionField>,
    id: int,
    k: int,
)
    requires
        0 <= k < items.len(),
        root_run(reg, root, items.take(k), id).result is Ok,
        root_field_run(
            reg,
            root,
            items[k],
            root_run(reg, root, items.take(k), id).next_id,
        ).result is Err,
    ensures
        ({
            let whole = root_run(reg, root, items, id);
            let pre = root_run(reg, root, items.take(k), id);
            let f = root_field_run(reg, root, items[k], pre.next_id);
            &&& whole.result == Err::<Seq<(Seq<char>, ValueModel)>, ErrorModel>(
                f.result->Err_0,
            )
            &&& whole.errors == pre.errors + f.errors
        }),
{
    lemma_root_split(reg, root, items, id, k);
    let pre = root_run(reg, root, items.take(k), id);
    let f = root_field_run(reg, root, items[k], pre.next_id);
    assert(items.skip(k)[0] == items[k]);
    let rest = root_run(reg, root, items.skip(k), pre.next_id);
    assert(rest.result == Err::<Seq<(Seq<char>, ValueModel)>, ErrorModel>(f.result->Err_0));
    assert(rest.errors =~= f.errors);
}

} // verus!
