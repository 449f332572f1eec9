//! The executable resolution engine. Each function implements one
//! specification-level interpreter function from `resolve` and is proved to
//! return its value, record its errors, emit its hook events, and advance
//! the resolve-id counter exactly as the interpreter says.

use vstd::prelude::*;
use crate::env::QueryEnv;
use crate::env::SchemaEnv;
use crate::error::Error;
use crate::error::QueryError;
use crate::error::PathSegment;
use crate::error::error_seq_model;
use crate::error::lemma_error_seq_model_push;
use crate::extensions::Extension;
use crate::extensions::Extensions;
use crate::extensions::HookEvent;
use crate::extensions::ResolveInfo;
use crate::path::PathArena;
use crate::path::spec_chain;
use crate::query::SelectionField;
use crate::query::SelectionSet;
use crate::registry::MetaType;
use crate::registry::MetaTypeRef;
use crate::registry::field_lookup;
use crate::resolve::FieldSource;
use crate::resolve::ObjectSource;
use crate::resolve::fs_size;
use crate::resolve::fsl_size;
use crate::resolve::os_size;
use crate::resolve::lemma_fs_size_pos;
use crate::resolve::lemma_fsl_size_pos;
use crate::resolve::lemma_os_size_pos;
use crate::resolve::lemma_source_lookup_size;
use crate::resolve::lemma_field_instrumentation;
use crate::resolve::lemma_list_instrumentation;
use crate::resolve::lemma_selection_instrumentation;
use crate::resolve::lemma_value_instrumentation;
use crate::resolve::run_field;
use crate::resolve::run_list;
use crate::resolve::run_selection;
use crate::resolve::run_value;
use crate::value::Value;
use crate::value::ValueModel;
use crate::value::entry_seq_model;
use crate::value::lemma_entry_seq_model;
use crate::value::lemma_value_seq_model;
use crate::value::value_seq_model;

verus! {

broadcast use vstd::std_specs::vec::group_vec_axioms;

/// Resolve a whole selection set against an object source. The returned
/// object's keys are exactly the selection's field names in their textual
/// order, whatever the outcomes were; errors, hook events and resolve ids
/// follow `run_selection`.
pub fn resolve_object<E: Extension>(
    schema: &SchemaEnv,
    env: &mut QueryEnv,
    parent: &String,
    sel: &SelectionSet,
    src: &ObjectSource,
    path: &mut PathArena,
    tail: Option<usize>,
    ext: &mut Extensions<E>,
    errors: &mut Vec<Error>,
) -> (r: Result<Value, Error>)
    requires
        schema.registry.wf(),
        old(path).wf(),
        old(path).valid(tail),
        run_selection(
            schema.registry,
            parent@,
            sel.items@,
            *src,
            spec_chain(old(path).nodes@, tail),
            old(env).resolve_id as int,
        ).next_id <= u64::MAX,
    ensures
        ({
            let run = run_selection(
                schema.registry,
                parent@,
                sel.items@,
                *src,
                spec_chain(old(path).nodes@, tail),
                old(env).resolve_id as int,
            );
            &&& final(env).resolve_id as int == run.next_id
            &&& final(env).ctx_data == old(env).ctx_data
            &&& final(env).variables == old(env).variables
            &&& final(ext).log@ == old(ext).log@ + run.events
            &&& error_seq_model(final(errors)@) == error_seq_model(old(errors)@) + run.errors
            &&& final(path).wf()
            &&& old(path).nodes@.len() <= final(path).nodes@.len()
            &&& forall|nd: Option<usize>| old(path).valid(nd)
                ==> #[trigger] spec_chain(final(path).nodes@, nd)
                    == spec_chain(old(path).nodes@, nd)
            &&& match r {
                Ok(v) => run.result is Ok
                    && v.model() == ValueModel::Object(run.result->Ok_0),
                Err(e) => run.result is Err && e.model() == run.result->Err_0,
            }
        }),
{
    proof {
        assert(sel.items@.skip(0) =~= sel.items@);
    }
    match resolve_items(schema, env, parent, sel, 0, src, path, tail, ext, errors) {
        Ok(entries) => Ok(Value::Object(entries)),
        Err(e) => Err(e),
    }
}

/// Resolve the selection's fields from position `start` on, in order.
fn resolve_items<E: Extension>(
    schema: &SchemaEnv,
    env: &mut QueryEnv,
    parent: &String,
    sel: &SelectionSet,
    start: usize,
    src: &ObjectSource,
    path: &mut PathArena,
    tail: Option<usize>,
    ext: &mut Extensions<E>,
    errors: &mut Vec<Error>,
) -> (r: Result<Vec<(String, Value)>, Error>)
    requires
        schema.registry.wf(),
        old(path).wf(),
        old(path).valid(tail),
        start <= sel.items@.len(),
        run_selection(
            schema.registry,
            parent@,
            sel.items@.skip(start as int),
            *src,
            spec_chain(old(path).nodes@, tail),
            old(env).resolve_id as int,
        ).next_id <= u64::MAX,
    ensures
        ({
            let run = run_selection(
                schema.registry,
                parent@,
                sel.items@.skip(start as int),
                *src,
                spec_chain(old(path).nodes@, tail),
                old(env).resolve_id as int,
            );
            &&& final(env).resolve_id as int == run.next_id
            &&& final(env).ctx_data == old(env).ctx_data
            &&& final(env).variables == old(env).variables
            &&& final(ext).log@ == old(ext).log@ + run.events
            &&& error_seq_model(final(errors)@) == error_seq_model(old(errors)@) + run.errors
            &&& final(path).wf()
            &&& old(path).nodes@.len() <= final(path).nodes@.len()
            &&& forall|nd: Option<usize>| old(path).valid(nd)
                ==> #[trigger] spec_chain(final(path).nodes@, nd)
                    == spec_chain(old(path).nodes@, nd)
            &&& match r {
                Ok(entries) => run.result is Ok
                    && entry_seq_model(entries@) == run.result->Ok_0,
                Err(e) => run.result is Err && e.model() == run.result->Err_0,
            }
        }),
    decreases os_size(*src), 1int, sel.items@.len() - start,
{
    let ghost items = sel.items@.skip(start as int);
    let ghost chain0 = spec_chain(old(path).nodes@, tail);
    let ghost id0 = old(env).resolve_id as int;
    let ghost run = run_selection(schema.registry, parent@, items, *src, chain0, id0);
    if start == sel.items.len() {
        proof {
            assert(items.len() == 0);
            assert(old(ext).log@ + run.events =~= old(ext).log@);
            assert(error_seq_model(errors@) + run.errors =~= error_seq_model(errors@));
            assert(entry_seq_model(Seq::<(String, Value)>::empty())
                =~= Seq::<(Seq<char>, ValueModel)>::empty());
        }
        return Ok(Vec::new());
    }
    proof {
        assert(items[0] == sel.items@[start as int]);
        assert(items.skip(1) =~= sel.items@.skip(start as int + 1));
        lemma_field_instrumentation(
            schema.registry,
            parent@,
            items[0],
            *src,
            chain0,
            id0,
        );
        lemma_selection_instrumentation(
            schema.registry,
            parent@,
            items.skip(1),
            *src,
            chain0,
            run_field(schema.registry, parent@, items[0], *src, chain0, id0).next_id,
        );
    }
    let ghost frun = run_field(schema.registry, parent@, items[0], *src, chain0, id0);
    let ghost log1 = old(ext).log@;
    let ghost errs1 = errors@;
    let f_res = resolve_object_field(
        schema,
        env,
        parent,
        &sel.items[start],
        src,
        path,
        tail,
        ext,
        errors,
    );
    match f_res {
        Err(e) => {
            proof {
                assert(run.events == frun.events);
            }
            Err(e)
        },
        Ok(v) => {
            let ghost rest = run_selection(
                schema.registry,
                parent@,
                items.skip(1),
                *src,
                chain0,
                frun.next_id,
            );
            proof {
                assert(spec_chain(path.nodes@, tail) == chain0);
            }
            let rest_res = resolve_items(
                schema,
                env,
                parent,
                sel,
                start + 1,
                src,
                path,
                tail,
                ext,
                errors,
            );
            match rest_res {
                Err(e) => {
                    proof {
                        assert(ext.log@ == log1 + frun.events + rest.events);
                        assert(log1 + frun.events + rest.events
                            =~= log1 + (frun.events + rest.events));
                        assert(error_seq_model(errors@)
                            =~= error_seq_model(errs1) + (frun.errors + rest.errors));
                    }
                    Err(e)
                },
                Ok(mut entries) => {
                    let ghost pre = entries@;
                    let name = sel.items[start].name.clone();
                    entries.insert(0, (name, v));
                    proof {
                        assert(entries@ =~= seq![(entries@[0].0, v)] + pre);
                        lemma_entry_seq_model(entries@);
                        lemma_entry_seq_model(pre);
                        assert(entry_seq_model(entries@)
                            =~= seq![(items[0].name@, v.model())] + entry_seq_model(pre));
                        assert(ext.log@ == log1 + frun.events + rest.events);
                        assert(log1 + frun.events + rest.events
                            =~= log1 + (frun.events + rest.events));
                        assert(error_seq_model(errors@)
                            =~= error_seq_model(errs1) + (frun.errors + rest.errors));
                    }
                    Ok(entries)
                },
            }
        },
    }
}

/// Resolve one field of a selection set: find its metadata and its outcome,
/// resolve the outcome under a fresh resolve id bracketed by start and end
/// hooks, and apply the nullability rule.
pub fn resolve_object_field<E: Extension>(
    schema: &SchemaEnv,
    env: &mut QueryEnv,
    parent: &String,
    field: &SelectionField,
    src: &ObjectSource,
    path: &mut PathArena,
    tail: Option<usize>,
    ext: &mut Extensions<E>,
    errors: &mut Vec<Error>,
) -> (r: Result<Value, Error>)
    requires
        schema.registry.wf(),
        old(path).wf(),
        old(path).valid(tail),
        run_field(
            schema.registry,
            parent@,
            *field,
            *src,
            spec_chain(old(path).nodes@, tail),
            old(env).resolve_id as int,
        ).next_id <= u64::MAX,
    ensures
        ({
            let run = run_field(
                schema.registry,
                parent@,
                *field,
                *src,
                spec_chain(old(path).nodes@, tail),
                old(env).resolve_id as int,
            );
            &&& final(env).resolve_id as int == run.next_id
            &&& final(env).ctx_data == old(env).ctx_data
            &&& final(env).variables == old(env).variables
            &&& final(ext).log@ == old(ext).log@ + run.events
            &&& error_seq_model(final(errors)@) == error_seq_model(old(errors)@) + run.errors
            &&& final(path).wf()
            &&& old(path).nodes@.len() <= final(path).nodes@.len()
            &&& forall|nd: Option<usize>| old(path).valid(nd)
                ==> #[trigger] spec_chain(final(path).nodes@, nd)
                    == spec_chain(old(path).nodes@, nd)
            &&& match r {
                Ok(v) => run.result is Ok && v.model() == run.result->Ok_0,
                Err(e) => run.result is Err && e.model() == run.result->Err_0,
            }
        }),
    decreases os_size(*src), 0int, 0int,
{
    let ghost chain0 = spec_chain(old(path).nodes@, tail);
    let ghost id0 = old(env).resolve_id as int;
    let ghost run = run_field(schema.registry, parent@, *field, *src, chain0, id0);
    let ghost fpath = chain0.push(crate::error::PathSegModel::Name(field.name@));
    let idx = path.push_node(PathSegment::Name(field.name.clone()), tail);
    proof {
        assert(spec_chain(path.nodes@, Some(idx)) == fpath);
    }
    let meta = match schema.registry.get(parent) {
        Some(m) => match m {
            MetaType::Object { fields, .. } => field_lookup(fields, &field.name),
            MetaType::Interface { fields, .. } => field_lookup(fields, &field.name),
            _ => None,
        },
        None => None,
    };
    let meta = match meta {
        None => {
            let segs = path.materialize(Some(idx));
            let e = Error::Query {
                pos: field.pos,
                path: Some(segs),
                err: QueryError::FieldNotFound {
                    field_name: field.name.clone(),
                    object: parent.clone(),
                },
            };
            ext.error(&e);
            proof {
                assert(old(ext).log@.push(HookEvent::ErrorLogged(e.model()))
                    =~= old(ext).log@ + run.events);
                assert(error_seq_model(errors@) + run.errors =~= error_seq_model(errors@));
            }
            return Err(e);
        },
        Some(meta) => meta,
    };
    let outcome = match src.lookup(&field.name) {
        None => {
            let segs = path.materialize(Some(idx));
            let e = Error::Query {
                pos: field.pos,
                path: Some(segs),
                err: QueryError::FieldNotFound {
                    field_name: field.name.clone(),
                    object: parent.clone(),
                },
            };
            ext.error(&e);
            proof {
                assert(old(ext).log@.push(HookEvent::ErrorLogged(e.model()))
                    =~= old(ext).log@ + run.events);
                assert(error_seq_model(errors@) + run.errors =~= error_seq_model(errors@));
            }
            return Err(e);
        },
        Some(outcome) => outcome,
    };
    let ghost vrun = run_value(schema.registry, meta.ty, *field, *outcome, fpath, id0 + 1);
    proof {
        lemma_value_instrumentation(
            schema.registry,
            meta.ty,
            *field,
            *outcome,
            fpath,
            id0 + 1,
        );
        lemma_source_lookup_size(src.fields@, field.name@);
        lemma_fs_size_pos(*outcome);
    }
    let id = env.next_resolve_id();
    {
        let info = ResolveInfo {
            resolve_id: id,
            path_node: &*path,
            path_tail: Some(idx),
            parent_type: parent,
            return_type: &meta.ty,
            schema_env: schema,
            query_env: &*env,
        };
        ext.resolve_start(&info);
    }
    let ghost log1 = ext.log@;
    let ghost errs1 = errors@;
    let v_res = resolve_value(
        schema,
        env,
        &meta.ty,
        field,
        outcome,
        path,
        Some(idx),
        ext,
        errors,
    );
    {
        let info = ResolveInfo {
            resolve_id: id,
            path_node: &*path,
            path_tail: Some(idx),
            parent_type: parent,
            return_type: &meta.ty,
            schema_env: schema,
            query_env: &*env,
        };
        ext.resolve_end(&info);
    }
    proof {
        assert(ext.log@ =~= old(ext).log@ + (seq![HookEvent::ResolveStart(id0)] + vrun.events
            + seq![HookEvent::ResolveEnd(id0)]));
    }
    match v_res {
        Ok(val) => Ok(val),
        Err(e) => {
            if meta.ty.nullable() {
                let ghost pre = errors@;
                errors.push(e);
                proof {
                    lemma_error_seq_model_push(pre, e);
                    assert(error_seq_model(errors@)
                        =~= error_seq_model(old(errors)@) + vrun.errors.push(e.model()));
                }
                Ok(Value::Null)
            } else {
                Err(e)
            }
        },
    }
}

/// Resolve one outcome under its declared type.
fn resolve_value<E: Extension>(
    schema: &SchemaEnv,
    env: &mut QueryEnv,
    ty: &MetaTypeRef,
    field: &SelectionField,
    outcome: &FieldSource,
    path: &mut PathArena,
    tail: Option<usize>,
    ext: &mut Extensions<E>,
    errors: &mut Vec<Error>,
) -> (r: Result<Value, Error>)
    requires
        schema.registry.wf(),
        old(path).wf(),
        old(path).valid(tail),
        run_value(
            schema.registry,
            *ty,
            *field,
            *outcome,
            spec_chain(old(path).nodes@, tail),
            old(env).resolve_id as int,
        ).next_id <= u64::MAX,
    ensures
        ({
            let run = run_value(
                schema.registry,
                *ty,
                *field,
                *outcome,
                spec_chain(old(path).nodes@, tail),
                old(env).resolve_id as int,
            );
            &&& final(env).resolve_id as int == run.next_id
            &&& final(env).ctx_data == old(env).ctx_data
            &&& final(env).variables == old(env).variables
            &&& final(ext).log@ == old(ext).log@ + run.events
            &&& error_seq_model(final(errors)@) == error_seq_model(old(errors)@) + run.errors
            &&& final(path).wf()
            &&& old(path).nodes@.len() <= final(path).nodes@.len()
            &&& forall|nd: Option<usize>| old(path).valid(nd)
                ==> #[trigger] spec_chain(final(path).nodes@, nd)
                    == spec_chain(old(path).nodes@, nd)
            &&& match r {
                Ok(v) => run.result is Ok && v.model() == run.result->Ok_0,
                Err(e) => run.result is Err && e.model() == run.result->Err_0,
            }
        }),
    decreases fs_size(*outcome), 2int, 0int,
{
    let ghost chain0 = spec_chain(old(path).nodes@, tail);
    let ghost id0 = old(env).resolve_id as int;
    let ghost run = run_value(schema.registry, *ty, *field, *outcome, chain0, id0);
    match outcome {
        FieldSource::Fail(message) => {
            let segs = path.materialize(tail);
            let e = Error::Query {
                pos: field.pos,
                path: Some(segs),
                err: QueryError::FieldError { message: message.clone() },
            };
            ext.error(&e);
            proof {
                assert(old(ext).log@.push(HookEvent::ErrorLogged(e.model()))
                    =~= old(ext).log@ + run.events);
                assert(error_seq_model(errors@) + run.errors =~= error_seq_model(errors@));
            }
            Err(e)
        },
        FieldSource::Leaf(v) => {
            proof {
                assert(old(ext).log@ + run.events =~= old(ext).log@);
                assert(error_seq_model(errors@) + run.errors =~= error_seq_model(errors@));
            }
            Ok(v.duplicate())
        },
        FieldSource::Object(osrc) => {
            proof {
                lemma_os_size_pos(*osrc);
                assert(fs_size(*outcome) == os_size(*osrc) + 1);
                assert(field.selection_set.items@.skip(0) =~= field.selection_set.items@);
            }
            match resolve_items(
                schema,
                env,
                &osrc.ty_name,
                &field.selection_set,
                0,
                osrc,
                path,
                tail,
                ext,
                errors,
            ) {
                Ok(entries) => Ok(Value::Object(entries)),
                Err(e) => Err(e),
            }
        },
        FieldSource::List(items) => {
            proof {
                lemma_fsl_size_pos(items@);
                assert(fs_size(*outcome) == fsl_size(items@) + 1);
                assert(items@.skip(0) =~= items@);
            }
            match resolve_list(schema, env, ty.element(), field, items, 0, path, tail, ext, errors)
            {
                Ok(vals) => Ok(Value::List(vals)),
                Err(e) => Err(e),
            }
        },
    }
}

/// Resolve list elements from position `start` on, each under the element
/// type and an index path segment.
fn resolve_list<E: Extension>(
    schema: &SchemaEnv,
    env: &mut QueryEnv,
    ety: &MetaTypeRef,
    field: &SelectionField,
    items: &Vec<FieldSource>,
    start: usize,
    path: &mut PathArena,
    tail: Option<usize>,
    ext: &mut Extensions<E>,
    errors: &mut Vec<Error>,
) -> (r: Result<Vec<Value>, Error>)
    requires
        schema.registry.wf(),
        old(path).wf(),
        old(path).valid(tail),
        start <= items@.len(),
        run_list(
            schema.registry,
            *ety,
            *field,
            items@.skip(start as int),
            start as int,
            spec_chain(old(path).nodes@, tail),
            old(env).resolve_id as int,
        ).next_id <= u64::MAX,
    ensures
        ({
            let run = run_list(
                schema.registry,
                *ety,
                *field,
                items@.skip(start as int),
                start as int,
                spec_chain(old(path).nodes@, tail),
                old(env).resolve_id as int,
            );
            &&& final(env).resolve_id as int == run.next_id
            &&& final(env).ctx_data == old(env).ctx_data
            &&& final(env).variables == old(env).variables
            &&& final(ext).log@ == old(ext).log@ + run.events
            &&& error_seq_model(final(errors)@) == error_seq_model(old(errors)@) + run.errors
            &&& final(path).wf()
            &&& old(path).nodes@.len() <= final(path).nodes@.len()
            &&& forall|nd: Option<usize>| old(path).valid(nd)
                ==> #[trigger] spec_chain(final(path).nodes@, nd)
                    == spec_chain(old(path).nodes@, nd)
            &&& match r {
                Ok(vals) => run.result is Ok && value_seq_model(vals@) == run.result->Ok_0,
                Err(e) => run.result is Err && e.model() == run.result->Err_0,
            }
        }),
    decreases fsl_size(items@.skip(start as int)), 3int, 0int,
{
    let ghost litems = items@.skip(start as int);
    let ghost chain0 = spec_chain(old(path).nodes@, tail);
    let ghost id0 = old(env).resolve_id as int;
    let ghost run = run_list(schema.registry, *ety, *field, litems, start as int, chain0, id0);
    if start == items.len() {
        proof {
            assert(litems.len() == 0);
            assert(old(ext).log@ + run.events =~= old(ext).log@);
            assert(error_seq_model(errors@) + run.errors =~= error_seq_model(errors@));
            assert(value_seq_model(Seq::<Value>::empty()) =~= Seq::<ValueModel>::empty());
        }
        return Ok(Vec::new());
    }
    proof {
        assert(litems[0] == items@[start as int]);
        assert(litems.skip(1) =~= items@.skip(start as int + 1));
        assert(fsl_size(litems) == fs_size(litems[0]) + fsl_size(litems.skip(1)) + 1);
        lemma_fs_size_pos(litems[0]);
        lemma_fsl_size_pos(litems.skip(1));
    }
    let ghost epath = chain0.push(crate::error::PathSegModel::Index(start as int));
    let eidx = path.push_node(PathSegment::Index(start), tail);
    proof {
        assert(spec_chain(path.nodes@, Some(eidx)) == epath);
        lemma_value_instrumentation(schema.registry, *ety, *field, litems[0], epath, id0);
    }
    let ghost vrun = run_value(schema.registry, *ety, *field, litems[0], epath, id0);
    proof {
        if !(vrun.result is Err && !ety.spec_nullable()) {
            lemma_list_instrumentation(
                schema.registry,
                *ety,
                *field,
                litems.skip(1),
                start as int + 1,
                chain0,
                vrun.next_id,
            );
        }
    }
    let ghost log1 = ext.log@;
    let ghost errs1 = errors@;
    let v_res = resolve_value(
        schema,
        env,
        ety,
        field,
        &items[start],
        path,
        Some(eidx),
        ext,
        errors,
    );
    let stepped = match v_res {
        Ok(val) => Ok(val),
        Err(e) => {
            if ety.nullable() {
                let ghost pre = errors@;
                errors.push(e);
                proof {
                    lemma_error_seq_model_push(pre, e);
                    assert(error_seq_model(errors@)
                        =~= error_seq_model(old(errors)@) + vrun.errors.push(e.model()));
                }
                Ok(Value::Null)
            } else {
                Err(e)
            }
        },
    };
    let ghost errors0 = (match vrun.result {
        Ok(_) => vrun.errors,
        Err(em) => if ety.spec_nullable() {
            vrun.errors.push(em)
        } else {
            vrun.errors
        },
    });
    match stepped {
        Err(e) => Err(e),
        Ok(val) => {
            let ghost errs2 = errors@;
            let ghost rest = run_list(
                schema.registry,
                *ety,
                *field,
                litems.skip(1),
                start as int + 1,
                chain0,
                vrun.next_id,
            );
            proof {
                lemma_list_instrumentation(
                    schema.registry,
                    *ety,
                    *field,
                    litems.skip(1),
                    start as int + 1,
                    chain0,
                    vrun.next_id,
                );
                assert(spec_chain(path.nodes@, tail) == chain0);
            }
            let rest_res = resolve_list(
                schema,
                env,
                ety,
                field,
                items,
                start + 1,
                path,
                tail,
                ext,
                errors,
            );
            match rest_res {
                Err(e) => {
                    proof {
                        assert(ext.log@ =~= old(ext).log@ + (vrun.events + rest.events));
                        assert(error_seq_model(errors@)
                            =~= error_seq_model(old(errors)@) + (errors0 + rest.errors));
                    }
                    Err(e)
                },
                Ok(mut vals) => {
                    let ghost pre = vals@;
                    vals.insert(0, val);
                    proof {
                        assert(vals@ =~= seq![val] + pre);
                        lemma_value_seq_model(vals@);
                        lemma_value_seq_model(pre);
                        assert(value_seq_model(vals@) =~= seq![val.model()] + value_seq_model(pre));
                        assert(ext.log@ =~= old(ext).log@ + (vrun.events + rest.events));
                        assert(error_seq_model(errors@)
                            =~= error_seq_model(old(errors)@) + (errors0 + rest.errors));
                    }
                    Ok(vals)
                },
            }
        },
    }
}

} // verus!
