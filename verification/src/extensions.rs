//! The extension chain: an ordered sequence of observers that the engine
//! tells about every phase of execution. The chain fans each hook out to
//! every member in registration order; its ghost log records one event per
//! hook call on the chain, and each member carries its own ghost record of
//! the calls it was shown, so the fan-out itself is part of the contracts:
//! a chain that skipped a member could not account for that member's record.

use vstd::prelude::*;
use vstd::string::StringExecFns;
use crate::env::QueryEnv;
use crate::env::ResolveId;
use crate::env::SchemaEnv;
use crate::error::Error;
use crate::error::ErrorModel;
use crate::error::FieldError;
use crate::error::FieldResult;
use crate::error::PathSegModel;
use crate::path::PathArena;
use crate::path::spec_chain;
use crate::query::SelectionSet;
use crate::registry::MetaTypeRef;
use crate::value::Value;
use crate::value::ValueModel;
use crate::value::Variables;
use crate::value::entry_seq_model;

verus! {

/// One hook invocation, as the ghost log records it.
pub ghost enum HookEvent {
    ParseStart,
    ParseEnd,
    ValidationStart,
    ValidationEnd,
    ExecutionStart,
    ExecutionEnd,
    ResolveStart(int),
    ResolveEnd(int),
    ErrorLogged(ErrorModel),
}

/// What one member was shown by one hook call, with the call's arguments:
/// the record a tracking extension keeps in its ghost hook log.
pub ghost enum MemberEvent {
    ParseStart { query_source: Seq<char>, variables: Variables },
    ParseEnd { document: SelectionSet },
    ValidationStart,
    ValidationEnd,
    ExecutionStart,
    ExecutionEnd,
    ResolveStart { info: ResolveInfoModel },
    ResolveEnd { info: ResolveInfoModel },
    ErrorReported { error: ErrorModel },
    ResultTaken { result: Option<Value> },
}

/// Mathematical content of a [`ResolveInfo`]: the resolve id, the chain its
/// path node stands for, and the parent and return types.
pub ghost struct ResolveInfoModel {
    pub resolve_id: ResolveId,
    pub path: Seq<PathSegModel>,
    pub parent_type: Seq<char>,
    pub return_type: MetaTypeRef,
}

pub open spec fn info_model(info: ResolveInfo) -> ResolveInfoModel {
    ResolveInfoModel {
        resolve_id: info.resolve_id,
        path: spec_chain(info.path_node.nodes@, info.path_tail),
        parent_type: info.parent_type@,
        return_type: *info.return_type,
    }
}

/// The borrowed view of one field resolution that start and end hooks
/// receive. Because sibling fields may resolve concurrently, start and end
/// calls for different fields may interleave: an extension that correlates
/// them must key its state by `resolve_id`, never by call order.
pub struct ResolveInfo<'a> {
    pub resolve_id: ResolveId,
    /// The arena holding the path nodes of this request.
    pub path_node: &'a PathArena,
    /// The node the current root-to-field chain ends at.
    pub path_tail: Option<usize>,
    pub parent_type: &'a String,
    pub return_type: &'a MetaTypeRef,
    pub schema_env: &'a SchemaEnv,
    pub query_env: &'a QueryEnv,
}

/// The query-scope value for a key, or failing that the schema-scope value.
pub open spec fn spec_layered_lookup(
    schema_env: SchemaEnv,
    query_env: QueryEnv,
    key: Seq<char>,
) -> Option<Value> {
    match query_env.ctx_data.spec_get(key) {
        Some(v) => Some(v),
        None => schema_env.data.spec_get(key),
    }
}

/// The message a failed data lookup reports.
pub open spec fn data_missing_message(key: Seq<char>) -> Seq<char> {
    "Data `"@ + key + "` does not exist."@
}

impl<'a> ResolveInfo<'a> {
    /// Get data stored under a key, looking in the query scope first and the
    /// schema scope second, so a request can shadow global data without
    /// mutating shared state.
    pub fn data_opt(&self, key: &String) -> (r: Option<&'a Value>)
        ensures
            match r {
                Some(v) => spec_layered_lookup(*self.schema_env, *self.query_env, key@)
                    == Some(*v),
                None => spec_layered_lookup(*self.schema_env, *self.query_env, key@) is None,
            },
    {
        match self.query_env.ctx_data.get(key) {
            Some(v) => Some(v),
            None => self.schema_env.data.get(key),
        }
    }

    /// Like [`Self::data_opt`], but a miss is reported as an error naming the
    /// key.
    pub fn data(&self, key: &String) -> (r: FieldResult<&'a Value>)
        ensures
            match r {
                Ok(v) => spec_layered_lookup(*self.schema_env, *self.query_env, key@)
                    == Some(*v),
                Err(e) => {
                    &&& spec_layered_lookup(*self.schema_env, *self.query_env, key@) is None
                    &&& e.message@ == data_missing_message(key@)
                },
            },
    {
        match self.data_opt(key) {
            Some(v) => Ok(v),
            None => {
                let mut message = String::from_str("Data `");
                message.append(key.as_str());
                message.append("` does not exist.");
                Err(FieldError { message })
            },
        }
    }

    /// Like [`Self::data_opt`], for data the caller knows is present; a miss
    /// would be a bug in the program, not a user error, so absent keys are
    /// ruled out instead of handled.
    pub fn data_unchecked(&self, key: &String) -> (r: &'a Value)
        requires
            spec_layered_lookup(*self.schema_env, *self.query_env, key@) is Some,
        ensures
            spec_layered_lookup(*self.schema_env, *self.query_env, key@) == Some(*r),
    {
        match self.data_opt(key) {
            Some(v) => v,
            None => vstd::pervasive::unreached(),
        }
    }
}

/// An observer of execution phases, implemented by the library's users.
/// Hooks are free to do anything to the extension's own state; the engine
/// promises only when they are called, not what they see in what order.
/// Implementers that pair `resolve_start` with `resolve_end` must match them
/// by the resolve id in [`ResolveInfo`].
///
/// Each hook carries a ghost obligation: a tracking implementation (one
/// whose `tracks_hooks` is true) must extend its own `hook_log` by exactly
/// the call it was shown. That record is what binds the chain's fan-out
/// contracts: the chain can only prove a member's record grew by calling the
/// member. An implementation that does not need that guarantee sets
/// `tracks_hooks` to false and every hook obligation is vacuous.
pub trait Extension: Sized {
    /// Whether this implementation keeps the ghost record of the hook calls
    /// it has been shown.
    spec fn tracks_hooks() -> bool;

    /// The hook calls this member has been shown, oldest first.
    spec fn hook_log(&self) -> Seq<MemberEvent>;

    /// The name this member contributes under, if any.
    spec fn spec_name(&self) -> Option<Seq<char>>;

    /// The key under which this extension contributes to the side-channel
    /// result map; an extension without a name contributes nothing.
    fn name(&self) -> (r: Option<String>)
        ensures
            Self::tracks_hooks() ==> match r {
                Some(s) => self.spec_name() == Some(s@),
                None => self.spec_name() is None,
            },
    ;

    /// The query text is about to be parsed.
    fn parse_start(&mut self, query_source: &str, variables: &Variables)
        ensures
            Self::tracks_hooks() ==> final(self).hook_log() == old(self).hook_log().push(
                MemberEvent::ParseStart { query_source: query_source@, variables: *variables },
            ),
    ;

    /// The document was parsed.
    fn parse_end(&mut self, document: &SelectionSet)
        ensures
            Self::tracks_hooks() ==> final(self).hook_log() == old(self).hook_log().push(
                MemberEvent::ParseEnd { document: *document },
            ),
    ;

    /// Validation is about to run.
    fn validation_start(&mut self)
        ensures
            Self::tracks_hooks() ==> final(self).hook_log() == old(self).hook_log().push(
                MemberEvent::ValidationStart,
            ),
    ;

    /// Validation finished.
    fn validation_end(&mut self)
        ensures
            Self::tracks_hooks() ==> final(self).hook_log() == old(self).hook_log().push(
                MemberEvent::ValidationEnd,
            ),
    ;

    /// Execution is about to start.
    fn execution_start(&mut self)
        ensures
            Self::tracks_hooks() ==> final(self).hook_log() == old(self).hook_log().push(
                MemberEvent::ExecutionStart,
            ),
    ;

    /// Execution finished.
    fn execution_end(&mut self)
        ensures
            Self::tracks_hooks() ==> final(self).hook_log() == old(self).hook_log().push(
                MemberEvent::ExecutionEnd,
            ),
    ;

    /// A field resolution is starting.
    fn resolve_start(&mut self, info: &ResolveInfo)
        ensures
            Self::tracks_hooks() ==> final(self).hook_log() == old(self).hook_log().push(
                MemberEvent::ResolveStart { info: info_model(*info) },
            ),
    ;

    /// A field resolution ended.
    fn resolve_end(&mut self, info: &ResolveInfo)
        ensures
            Self::tracks_hooks() ==> final(self).hook_log() == old(self).hook_log().push(
                MemberEvent::ResolveEnd { info: info_model(*info) },
            ),
    ;

    /// An error reached the logging boundary.
    fn error(&mut self, err: &Error)
        ensures
            Self::tracks_hooks() ==> final(self).hook_log() == old(self).hook_log().push(
                MemberEvent::ErrorReported { error: err.model() },
            ),
    ;

    /// The extension's contribution to the side-channel result map.
    fn result(&mut self) -> (r: Option<Value>)
        ensures
            Self::tracks_hooks() ==> final(self).hook_log() == old(self).hook_log().push(
                MemberEvent::ResultTaken { result: r },
            ),
    ;
}

/// One member's delivery record for the side-channel gathering: a named
/// member's `result` is taken exactly once, an unnamed member's never.
pub open spec fn result_delivery<E: Extension>(
    before: Seq<E>,
    after: Seq<E>,
    rs: Seq<Option<Value>>,
) -> bool {
    &&& rs.len() == before.len()
    &&& after.len() == before.len()
    &&& forall|i: int| 0 <= i < before.len() ==> #[trigger] after[i].hook_log()
        == (match before[i].spec_name() {
        Some(_) => before[i].hook_log().push(MemberEvent::ResultTaken { result: rs[i] }),
        None => before[i].hook_log(),
    })
}

/// The named contributions of the members, in registration order: one
/// modelled entry per member whose name and result were both present.
pub open spec fn gathered_contributions<E: Extension>(
    members: Seq<E>,
    rs: Seq<Option<Value>>,
) -> Seq<(Seq<char>, ValueModel)>
    decreases members,
{
    if members.len() == 0 || rs.len() == 0 {
        Seq::empty()
    } else {
        gathered_contributions(members.drop_last(), rs.drop_last()) + (match (
            members.last().spec_name(),
            rs.last(),
        ) {
            (Some(n), Some(v)) => seq![(n, v.model())],
            _ => Seq::empty(),
        })
    }
}

/// Inserting a modelled contribution: a used name is replaced in place, a
/// new name is appended last.
pub open spec fn spec_model_insert(
    entries: Seq<(Seq<char>, ValueModel)>,
    key: Seq<char>,
    value: ValueModel,
) -> Seq<(Seq<char>, ValueModel)>
    decreases entries,
{
    if entries.len() == 0 {
        seq![(key, value)]
    } else if entries[0].0 == key {
        seq![(key, value)] + entries.skip(1)
    } else {
        seq![entries[0]] + spec_model_insert(entries.skip(1), key, value)
    }
}

/// Contributions merged in gathering order, a later contribution under a
/// used name replacing the earlier one in place.
pub open spec fn merged_contribution_models(pairs: Seq<(Seq<char>, ValueModel)>)
    -> Seq<(Seq<char>, ValueModel)>
    decreases pairs,
{
    if pairs.len() == 0 {
        Seq::empty()
    } else {
        spec_model_insert(
            merged_contribution_models(pairs.drop_last()),
            pairs.last().0,
            pairs.last().1,
        )
    }
}

/// What the chain's side-channel output is, given what the members handed
/// back: absent exactly when no named member contributed, else the merged
/// contributions as one object.
pub open spec fn result_output<E: Extension>(
    members: Seq<E>,
    rs: Seq<Option<Value>>,
    r: Option<Value>,
) -> bool {
    let merged = merged_contribution_models(gathered_contributions(members, rs));
    match r {
        None => merged.len() == 0,
        Some(v) => merged.len() > 0 && v is Object
            && entry_seq_model(v->Object_0@) == merged,
    }
}

/// The ordered chain of extensions. Every hook is broadcast to every member
/// in registration order; the chain's ghost log records one event per hook
/// call on the chain, and each tracking member's own ghost record grows by
/// the call delivered to it.
pub struct Extensions<E: Extension> {
    pub members: Vec<E>,
    pub log: Ghost<Seq<HookEvent>>,
}

impl<E: Extension> Extensions<E> {
    pub fn new(members: Vec<E>) -> (r: Extensions<E>)
        ensures
            r.log@.len() == 0,
            r.members == members,
    {
        Extensions { members, log: Ghost(Seq::empty()) }
    }

    /// The query text is about to be parsed. Broadcast to every member in registration order, with the
    /// arguments unchanged: under a tracking member type, each member's own
    /// hook record grows by exactly this call.
    pub fn parse_start(&mut self, query_source: &str, variables: &Variables)
        ensures
            final(self).log@ == old(self).log@.push(HookEvent::ParseStart),
            final(self).members@.len() == old(self).members@.len(),
            E::tracks_hooks() ==> forall|i: int| 0 <= i < old(self).members@.len()
                ==> #[trigger] final(self).members@[i].hook_log()
                    == old(self).members@[i].hook_log().push(
                    MemberEvent::ParseStart { query_source: query_source@, variables: *variables },
                ),
    {
        let n = self.members.len();
        let mut i: usize = 0;
        while i < n
            invariant
                n == self.members@.len(),
                n == old(self).members@.len(),
                i <= n,
                self.log@ == old(self).log@,
                forall|j: int| i <= j < n ==> self.members@[j] == old(self).members@[j],
                E::tracks_hooks() ==> forall|j: int| 0 <= j < i
                    ==> #[trigger] self.members@[j].hook_log()
                        == old(self).members@[j].hook_log().push(
                            MemberEvent::ParseStart { query_source: query_source@, variables: *variables },
                        ),
            decreases n - i,
        {
            let ghost pre = self.members@;
            let mut m = self.members.remove(i);
            m.parse_start(query_source, variables);
            self.members.insert(i, m);
            proof {
                assert(self.members@ =~= pre.update(i as int, self.members@[i as int]));
            }
            i = i + 1;
        }
        self.log = Ghost(self.log@.push(HookEvent::ParseStart));
    }

    /// The document was parsed. Broadcast to every member in registration order, with the
    /// arguments unchanged: under a tracking member type, each member's own
    /// hook record grows by exactly this call.
    pub fn parse_end(&mut self, document: &SelectionSet)
        ensures
            final(self).log@ == old(self).log@.push(HookEvent::ParseEnd),
            final(self).members@.len() == old(self).members@.len(),
            E::tracks_hooks() ==> forall|i: int| 0 <= i < old(self).members@.len()
                ==> #[trigger] final(self).members@[i].hook_log()
                    == old(self).members@[i].hook_log().push(
                    MemberEvent::ParseEnd { document: *document },
                ),
    {
        let n = self.members.len();
        let mut i: usize = 0;
        while i < n
            invariant
                n == self.members@.len(),
                n == old(self).members@.len(),
                i <= n,
                self.log@ == old(self).log@,
                forall|j: int| i <= j < n ==> self.members@[j] == old(self).members@[j],
                E::tracks_hooks() ==> forall|j: int| 0 <= j < i
                    ==> #[trigger] self.members@[j].hook_log()
                        == old(self).members@[j].hook_log().push(
                            MemberEvent::ParseEnd { document: *document },
                        ),
            decreases n - i,
        {
            let ghost pre = self.members@;
            let mut m = self.members.remove(i);
            m.parse_end(document);
            self.members.insert(i, m);
            proof {
                assert(self.members@ =~= pre.update(i as int, self.members@[i as int]));
            }
            i = i + 1;
        }
        self.log = Ghost(self.log@.push(HookEvent::ParseEnd));
    }

    /// Validation is about to run. Broadcast to every member in registration order, with the
    /// arguments unchanged: under a tracking member type, each member's own
    /// hook record grows by exactly this call.
    pub fn validation_start(&mut self)
        ensures
            final(self).log@ == old(self).log@.push(HookEvent::ValidationStart),
            final(self).members@.len() == old(self).members@.len(),
            E::tracks_hooks() ==> forall|i: int| 0 <= i < old(self).members@.len()
                ==> #[trigger] final(self).members@[i].hook_log()
                    == old(self).members@[i].hook_log().push(
                    MemberEvent::ValidationStart,
                ),
    {
        let n = self.members.len();
        let mut i: usize = 0;
        while i < n
            invariant
                n == self.members@.len(),
                n == old(self).members@.len(),
                i <= n,
                self.log@ == old(self).log@,
                forall|j: int| i <= j < n ==> self.members@[j] == old(self).members@[j],
                E::tracks_hooks() ==> forall|j: int| 0 <= j < i
                    ==> #[trigger] self.members@[j].hook_log()
                        == old(self).members@[j].hook_log().push(
                            MemberEvent::ValidationStart,
                        ),
            decreases n - i,
        {
            let ghost pre = self.members@;
            let mut m = self.members.remove(i);
            m.validation_start();
            self.members.insert(i, m);
            proof {
                assert(self.members@ =~= pre.update(i as int, self.members@[i as int]));
            }
            i = i + 1;
        }
        self.log = Ghost(self.log@.push(HookEvent::ValidationStart));
    }

    /// Validation finished. Broadcast to every member in registration order, with the
    /// arguments unchanged: under a tracking member type, each member's own
    /// hook record grows by exactly this call.
    pub fn validation_end(&mut self)
        ensures
            final(self).log@ == old(self).log@.push(HookEvent::ValidationEnd),
            final(self).members@.len() == old(self).members@.len(),
            E::tracks_hooks() ==> forall|i: int| 0 <= i < old(self).members@.len()
                ==> #[trigger] final(self).members@[i].hook_log()
                    == old(self).members@[i].hook_log().push(
                    MemberEvent::ValidationEnd,
                ),
    {
        let n = self.members.len();
        let mut i: usize = 0;
        while i < n
            invariant
                n == self.members@.len(),
                n == old(self).members@.len(),
                i <= n,
                self.log@ == old(self).log@,
                forall|j: int| i <= j < n ==> self.members@[j] == old(self).members@[j],
                E::tracks_hooks() ==> forall|j: int| 0 <= j < i
                    ==> #[trigger] self.members@[j].hook_log()
                        == old(self).members@[j].hook_log().push(
                            MemberEvent::ValidationEnd,
                        ),
            decreases n - i,
        {
            let ghost pre = self.members@;
            let mut m = self.members.remove(i);
            m.validation_end();
            self.members.insert(i, m);
            proof {
                assert(self.members@ =~= pre.update(i as int, self.members@[i as int]));
            }
            i = i + 1;
        }
        self.log = Ghost(self.log@.push(HookEvent::ValidationEnd));
    }

    /// Execution is about to start. Broadcast to every member in registration order, with the
    /// arguments unchanged: under a tracking member type, each member's own
    /// hook record grows by exactly this call.
    pub fn execution_start(&mut self)
        ensures
            final(self).log@ == old(self).log@.push(HookEvent::ExecutionStart),
            final(self).members@.len() == old(self).members@.len(),
            E::tracks_hooks() ==> forall|i: int| 0 <= i < old(self).members@.len()
                ==> #[trigger] final(self).members@[i].hook_log()
                    == old(self).members@[i].hook_log().push(
                    MemberEvent::ExecutionStart,
                ),
    {
        let n = self.members.len();
        let mut i: usize = 0;
        while i < n
            invariant
                n == self.members@.len(),
                n == old(self).members@.len(),
                i <= n,
                self.log@ == old(self).log@,
                forall|j: int| i <= j < n ==> self.members@[j] == old(self).members@[j],
                E::tracks_hooks() ==> forall|j: int| 0 <= j < i
                    ==> #[trigger] self.members@[j].hook_log()
                        == old(self).members@[j].hook_log().push(
                            MemberEvent::ExecutionStart,
                        ),
            decreases n - i,
        {
            let ghost pre = self.members@;
            let mut m = self.members.remove(i);
            m.execution_start();
            self.members.insert(i, m);
            proof {
                assert(self.members@ =~= pre.update(i as int, self.members@[i as int]));
            }
            i = i + 1;
        }
        self.log = Ghost(self.log@.push(HookEvent::ExecutionStart));
    }

    /// Execution finished. Broadcast to every member in registration order, with the
    /// arguments unchanged: under a tracking member type, each member's own
    /// hook record grows by exactly this call.
    pub fn execution_end(&mut self)
        ensures
            final(self).log@ == old(self).log@.push(HookEvent::ExecutionEnd),
            final(self).members@.len() == old(self).members@.len(),
            E::tracks_hooks() ==> forall|i: int| 0 <= i < old(self).members@.len()
                ==> #[trigger] final(self).members@[i].hook_log()
                    == old(self).members@[i].hook_log().push(
                    MemberEvent::ExecutionEnd,
                ),
    {
        let n = self.members.len();
        let mut i: usize = 0;
        while i < n
            invariant
                n == self.members@.len(),
                n == old(self).members@.len(),
                i <= n,
                self.log@ == old(self).log@,
                forall|j: int| i <= j < n ==> self.members@[j] == old(self).members@[j],
                E::tracks_hooks() ==> forall|j: int| 0 <= j < i
                    ==> #[trigger] self.members@[j].hook_log()
                        == old(self).members@[j].hook_log().push(
                            MemberEvent::ExecutionEnd,
                        ),
            decreases n - i,
        {
            let ghost pre = self.members@;
            let mut m = self.members.remove(i);
            m.execution_end();
            self.members.insert(i, m);
            proof {
                assert(self.members@ =~= pre.update(i as int, self.members@[i as int]));
            }
            i = i + 1;
        }
        self.log = Ghost(self.log@.push(HookEvent::ExecutionEnd));
    }

    /// A field resolution is starting. Broadcast to every member in registration order, with the
    /// arguments unchanged: under a tracking member type, each member's own
    /// hook record grows by exactly this call.
    pub fn resolve_start(&mut self, info: &ResolveInfo)
        ensures
            final(self).log@ == old(self).log@.push(HookEvent::ResolveStart(info.resolve_id.0 as int)),
            final(self).members@.len() == old(self).members@.len(),
            E::tracks_hooks() ==> forall|i: int| 0 <= i < old(self).members@.len()
                ==> #[trigger] final(self).members@[i].hook_log()
                    == old(self).members@[i].hook_log().push(
                    MemberEvent::ResolveStart { info: info_model(*info) },
                ),
    {
        let n = self.members.len();
        let mut i: usize = 0;
        while i < n
            invariant
                n == self.members@.len(),
                n == old(self).members@.len(),
                i <= n,
                self.log@ == old(self).log@,
                forall|j: int| i <= j < n ==> self.members@[j] == old(self).members@[j],
                E::tracks_hooks() ==> forall|j: int| 0 <= j < i
                    ==> #[trigger] self.members@[j].hook_log()
                        == old(self).members@[j].hook_log().push(
                            MemberEvent::ResolveStart { info: info_model(*info) },
                        ),
            decreases n - i,
        {
            let ghost pre = self.members@;
            let mut m = self.members.remove(i);
            m.resolve_start(info);
            self.members.insert(i, m);
            proof {
                assert(self.members@ =~= pre.update(i as int, self.members@[i as int]));
            }
            i = i + 1;
        }
        self.log = Ghost(self.log@.push(HookEvent::ResolveStart(info.resolve_id.0 as int)));
    }

    /// A field resolution ended. Broadcast to every member in registration order, with the
    /// arguments unchanged: under a tracking member type, each member's own
    /// hook record grows by exactly this call.
    pub fn resolve_end(&mut self, info: &ResolveInfo)
        ensures
            final(self).log@ == old(self).log@.push(HookEvent::ResolveEnd(info.resolve_id.0 as int)),
            final(self).members@.len() == old(self).members@.len(),
            E::tracks_hooks() ==> forall|i: int| 0 <= i < old(self).members@.len()
                ==> #[trigger] final(self).members@[i].hook_log()
                    == old(self).members@[i].hook_log().push(
                    MemberEvent::ResolveEnd { info: info_model(*info) },
                ),
    {
        let n = self.members.len();
        let mut i: usize = 0;
        while i < n
            invariant
                n == self.members@.len(),
                n == old(self).members@.len(),
                i <= n,
                self.log@ == old(self).log@,
                forall|j: int| i <= j < n ==> self.members@[j] == old(self).members@[j],
                E::tracks_hooks() ==> forall|j: int| 0 <= j < i
                    ==> #[trigger] self.members@[j].hook_log()
                        == old(self).members@[j].hook_log().push(
                            MemberEvent::ResolveEnd { info: info_model(*info) },
                        ),
            decreases n - i,
        {
            let ghost pre = self.members@;
            let mut m = self.members.remove(i);
            m.resolve_end(info);
            self.members.insert(i, m);
            proof {
                assert(self.members@ =~= pre.update(i as int, self.members@[i as int]));
            }
            i = i + 1;
        }
        self.log = Ghost(self.log@.push(HookEvent::ResolveEnd(info.resolve_id.0 as int)));
    }

    /// An error reached the logging boundary. Broadcast to every member in registration order, with the
    /// arguments unchanged: under a tracking member type, each member's own
    /// hook record grows by exactly this call.
    pub fn error(&mut self, err: &Error)
        ensures
            final(self).log@ == old(self).log@.push(HookEvent::ErrorLogged(err.model())),
            final(self).members@.len() == old(self).members@.len(),
            E::tracks_hooks() ==> forall|i: int| 0 <= i < old(self).members@.len()
                ==> #[trigger] final(self).members@[i].hook_log()
                    == old(self).members@[i].hook_log().push(
                    MemberEvent::ErrorReported { error: err.model() },
                ),
    {
        let n = self.members.len();
        let mut i: usize = 0;
        while i < n
            invariant
                n == self.members@.len(),
                n == old(self).members@.len(),
                i <= n,
                self.log@ == old(self).log@,
                forall|j: int| i <= j < n ==> self.members@[j] == old(self).members@[j],
                E::tracks_hooks() ==> forall|j: int| 0 <= j < i
                    ==> #[trigger] self.members@[j].hook_log()
                        == old(self).members@[j].hook_log().push(
                            MemberEvent::ErrorReported { error: err.model() },
                        ),
            decreases n - i,
        {
            let ghost pre = self.members@;
            let mut m = self.members.remove(i);
            m.error(err);
            self.members.insert(i, m);
            proof {
                assert(self.members@ =~= pre.update(i as int, self.members@[i as int]));
            }
            i = i + 1;
        }
        self.log = Ghost(self.log@.push(HookEvent::ErrorLogged(err.model())));
    }

    /// Gather the side-channel result: every member that declares a name and
    /// returns a result contributes one named entry, in registration order;
    /// a later contribution under an already-used name replaces the earlier
    /// one in place; if nothing is contributed the side channel is entirely
    /// absent, not an empty object. Under a tracking member type the
    /// contract also binds the gathering: a named member's `result` is taken
    /// exactly once, an unnamed member's never, and the output is exactly
    /// the merge of what the members handed back.
    pub fn result(&mut self) -> (r: Option<Value>)
        ensures
            final(self).log@ == old(self).log@,
            final(self).members@.len() == old(self).members@.len(),
            match r {
                Some(v) => v is Object,
                None => true,
            },
            E::tracks_hooks() ==> exists|rs: Seq<Option<Value>>| {
                &&& #[trigger] result_delivery(old(self).members@, final(self).members@, rs)
                &&& result_output(old(self).members@, rs, r)
            },
    {
        let n = self.members.len();
        let mut pairs: Vec<(String, Value)> = Vec::new();
        let ghost mut rs: Seq<Option<Value>> = Seq::empty();
        let mut i: usize = 0;
        while i < n
            invariant
                n == self.members@.len(),
                n == old(self).members@.len(),
                i <= n,
                self.log@ == old(self).log@,
                rs.len() == i,
                forall|j: int| i <= j < n ==> self.members@[j] == old(self).members@[j],
                E::tracks_hooks() ==> forall|j: int| 0 <= j < i
                    ==> #[trigger] self.members@[j].hook_log()
                        == (match old(self).members@[j].spec_name() {
                        Some(_) => old(self).members@[j].hook_log().push(
                            MemberEvent::ResultTaken { result: rs[j] },
                        ),
                        None => old(self).members@[j].hook_log(),
                    }),
                E::tracks_hooks() ==> entry_seq_model(pairs@) == merged_contribution_models(
                    gathered_contributions(old(self).members@.take(i as int), rs),
                ),
            decreases n - i,
        {
            let ghost members_pre = old(self).members@.take(i as int);
            let ghost rs_pre = rs;
            let ghost pairs_pre = pairs@;
            let ghost vec_pre = self.members@;
            let mut m = self.members.remove(i);
            let name = m.name();
            match name {
                Some(key) => {
                    let ghost gkey = key;
                    let res = m.result();
                    proof {
                        rs = rs.push(res);
                    }
                    match res {
                        Some(v) => {
                            let ghost gv = v;
                            insert_contribution(&mut pairs, key, v);
                            proof {
                                if E::tracks_hooks() {
                                    lemma_insert_contribution_model(pairs_pre, gkey, gv);
                                }
                            }
                        },
                        None => {},
                    }
                },
                None => {
                    proof {
                        rs = rs.push(None);
                    }
                },
            }
            self.members.insert(i, m);
            proof {
                assert(self.members@ =~= vec_pre.update(i as int, self.members@[i as int]));
            }
            proof {
                if E::tracks_hooks() {
                    let members_now = old(self).members@.take(i as int + 1);
                    assert(members_now.drop_last() =~= members_pre);
                    assert(rs.drop_last() =~= rs_pre);
                    assert(members_now.last() == old(self).members@[i as int]);
                    let gath_pre = gathered_contributions(members_pre, rs_pre);
                    let gath_now = gathered_contributions(members_now, rs);
                    match old(self).members@[i as int].spec_name() {
                        Some(nm) => {
                            match rs.last() {
                                Some(v) => {
                                    assert(gath_now =~= gath_pre.push((nm, v.model())));
                                    assert(gath_now.drop_last() =~= gath_pre);
                                },
                                None => {
                                    assert(gath_now =~= gath_pre);
                                },
                            }
                        },
                        None => {
                            assert(gath_now =~= gath_pre);
                        },
                    }
                }
            }
            i = i + 1;
        }
        proof {
            if E::tracks_hooks() {
                assert(old(self).members@.take(n as int) =~= old(self).members@);
            }
        }
        let out = merge_contributions(pairs);
        proof {
            if E::tracks_hooks() {
                crate::value::lemma_entry_seq_model(pairs@);
                let merged = merged_contribution_models(
                    gathered_contributions(old(self).members@, rs),
                );
                assert(merged.len() == pairs@.len());
                assert(result_delivery(old(self).members@, self.members@, rs));
                assert(result_output(old(self).members@, rs, out));
            }
        }
        out
    }
}

/// Merge gathered contributions into the side-channel output: no
/// contribution means no output at all, otherwise the contributions become
/// one object in gathering order.
pub fn merge_contributions(pairs: Vec<(String, Value)>) -> (r: Option<Value>)
    ensures
        pairs@.len() == 0 ==> r is None,
        pairs@.len() > 0 ==> r == Some(Value::Object(pairs)),
{
    if pairs.len() == 0 {
        None
    } else {
        Some(Value::Object(pairs))
    }
}

/// Report the error of a failed result to the extension chain, and hand the
/// result back unchanged; a success is not reported and leaves the chain
/// untouched. Every error that reaches this boundary is logged exactly once,
/// and delivered to every member as the error hook promises.
pub fn log_error<T, E: Extension>(
    result: Result<T, Error>,
    extensions: &mut Extensions<E>,
) -> (r: Result<T, Error>)
    ensures
        r == result,
        final(extensions).members@.len() == old(extensions).members@.len(),
        match result {
            Ok(_) => *final(extensions) == *old(extensions),
            Err(e) => {
                &&& final(extensions).log@ == old(extensions).log@.push(
                    HookEvent::ErrorLogged(e.model()),
                )
                &&& E::tracks_hooks() ==> forall|i: int|
                    0 <= i < old(extensions).members@.len()
                        ==> #[trigger] final(extensions).members@[i].hook_log()
                            == old(extensions).members@[i].hook_log().push(
                            MemberEvent::ErrorReported { error: e.model() },
                        )
            },
        },
{
    match &result {
        Err(e) => {
            extensions.error(e);
        },
        Ok(_) => {},
    }
    result
}


/// Inserting a contribution into the gathered entries: an entry under the
/// same name is replaced in place, a new name is appended last.
pub open spec fn spec_contribution_insert(
    entries: Seq<(String, Value)>,
    key: String,
    value: Value,
) -> Seq<(String, Value)>
    decreases entries,
{
    if entries.len() == 0 {
        seq![(key, value)]
    } else if entries[0].0@ == key@ {
        seq![(key, value)] + entries.skip(1)
    } else {
        seq![entries[0]] + spec_contribution_insert(entries.skip(1), key, value)
    }
}

/// Insert a contribution as `spec_contribution_insert` says.
pub fn insert_contribution(entries: &mut Vec<(String, Value)>, key: String, value: Value)
    ensures
        final(entries)@ == spec_contribution_insert(old(entries)@, key, value),
{
    let n = entries.len();
    let mut i: usize = 0;
    while i < n
        invariant
            n == entries@.len(),
            i <= n,
            *entries == *old(entries),
            forall|j: int| 0 <= j < i ==> old(entries)@[j].0@ != key@,
        decreases n - i,
    {
        if entries[i].0 == key {
            entries.remove(i);
            entries.insert(i, (key, value));
            proof {
                lemma_contribution_insert_found(old(entries)@, key, value, i as int);
                assert(entries@ =~= old(entries)@.update(i as int, (key, value)));
            }
            return;
        }
        i = i + 1;
    }
    entries.push((key, value));
    proof {
        lemma_contribution_insert_missing(old(entries)@, key, value);
    }
}

/// Where the first name match is at position `i`, insertion updates that
/// position.
proof fn lemma_contribution_insert_found(
    entries: Seq<(String, Value)>,
    key: String,
    value: Value,
    i: int,
)
    requires
        0 <= i < entries.len(),
        entries[i].0@ == key@,
        forall|j: int| 0 <= j < i ==> entries[j].0@ != key@,
    ensures
        spec_contribution_insert(entries, key, value) == entries.update(i, (key, value)),
    decreases i,
{
    if i == 0 {
        assert(seq![(key, value)] + entries.skip(1) =~= entries.update(0, (key, value)));
    } else {
        lemma_contribution_insert_found(entries.skip(1), key, value, i - 1);
        assert(seq![entries[0]] + spec_contribution_insert(entries.skip(1), key, value)
            =~= entries.update(i, (key, value)));
    }
}

/// Where no name matches, insertion appends.
proof fn lemma_contribution_insert_missing(entries: Seq<(String, Value)>, key: String, value: Value)
    requires
        forall|j: int| 0 <= j < entries.len() ==> entries[j].0@ != key@,
    ensures
        spec_contribution_insert(entries, key, value) == entries.push((key, value)),
    decreases entries,
{
    if entries.len() == 0 {
        assert(spec_contribution_insert(entries, key, value) =~= entries.push((key, value)));
    } else {
        lemma_contribution_insert_missing(entries.skip(1), key, value);
        assert(seq![entries[0]] + entries.skip(1).push((key, value))
            =~= entries.push((key, value)));
    }
}


/// Inserting a contribution commutes with taking models.
proof fn lemma_insert_contribution_model(entries: Seq<(String, Value)>, key: String, value: Value)
    ensures
        entry_seq_model(spec_contribution_insert(entries, key, value))
            == spec_model_insert(entry_seq_model(entries), key@, value.model()),
    decreases entries,
{
    crate::value::lemma_entry_seq_model(entries);
    if entries.len() == 0 {
        crate::value::lemma_entry_seq_model(seq![(key, value)]);
        assert(entry_seq_model(seq![(key, value)])
            =~= seq![(key@, value.model())]);
    } else {
        crate::value::lemma_entry_seq_model(entries.skip(1));
        assert(entry_seq_model(entries).skip(1) =~= entry_seq_model(entries.skip(1)));
        if entries[0].0@ == key@ {
            let out = seq![(key, value)] + entries.skip(1);
            crate::value::lemma_entry_seq_model(out);
            assert(entry_seq_model(out)
                =~= seq![(key@, value.model())] + entry_seq_model(entries).skip(1));
        } else {
            lemma_insert_contribution_model(entries.skip(1), key, value);
            let out = seq![entries[0]] + spec_contribution_insert(entries.skip(1), key, value);
            crate::value::lemma_entry_seq_model(out);
            crate::value::lemma_entry_seq_model(
                spec_contribution_insert(entries.skip(1), key, value),
            );
            assert(entry_seq_model(out) =~= seq![(entries[0].0@, entries[0].1.model())]
                + entry_seq_model(spec_contribution_insert(entries.skip(1), key, value)));
        }
    }
}



/// An extension that observes nothing: the default member when no
/// instrumentation is wanted.
pub struct NullExtension;

impl Extension for NullExtension {
    open spec fn tracks_hooks() -> bool {
        false
    }

    open spec fn hook_log(&self) -> Seq<MemberEvent> {
        Seq::empty()
    }

    open spec fn spec_name(&self) -> Option<Seq<char>> {
        None
    }

    fn name(&self) -> (r: Option<String>) {
        None
    }

    fn parse_start(&mut self, query_source: &str, variables: &Variables) {
    }

    fn parse_end(&mut self, document: &SelectionSet) {
    }

    fn validation_start(&mut self) {
    }

    fn validation_end(&mut self) {
    }

    fn execution_start(&mut self) {
    }

    fn execution_end(&mut self) {
    }

    fn resolve_start(&mut self, info: &ResolveInfo) {
    }

    fn resolve_end(&mut self, info: &ResolveInfo) {
    }

    fn error(&mut self, err: &Error) {
    }

    fn result(&mut self) -> (r: Option<Value>) {
        None
    }
}

/// A tracking extension that records the resolve ids it is shown and counts
/// the errors reported to it, keyed by nothing but the ids, as the pairing
/// rule demands.
pub struct RecordingExtension {
    /// The ids whose resolution started, in arrival order.
    pub starts: Vec<u64>,
    /// The ids whose resolution ended, in arrival order.
    pub ends: Vec<u64>,
    /// How many errors reached this member (saturating).
    pub errors_seen: usize,
    /// The ghost record of every hook call shown to this member.
    pub log: Ghost<Seq<MemberEvent>>,
}

impl RecordingExtension {
    pub fn new() -> (r: RecordingExtension)
        ensures
            r.starts@.len() == 0,
            r.ends@.len() == 0,
            r.errors_seen == 0,
            r.log@.len() == 0,
    {
        RecordingExtension {
            starts: Vec::new(),
            ends: Vec::new(),
            errors_seen: 0,
            log: Ghost(Seq::empty()),
        }
    }
}

impl Extension for RecordingExtension {
    open spec fn tracks_hooks() -> bool {
        true
    }

    open spec fn hook_log(&self) -> Seq<MemberEvent> {
        self.log@
    }

    open spec fn spec_name(&self) -> Option<Seq<char>> {
        None
    }

    fn name(&self) -> (r: Option<String>) {
        None
    }

    fn parse_start(&mut self, query_source: &str, variables: &Variables) {
        self.log = Ghost(self.log@.push(
            MemberEvent::ParseStart { query_source: query_source@, variables: *variables },
        ));
    }

    fn parse_end(&mut self, document: &SelectionSet) {
        self.log = Ghost(self.log@.push(MemberEvent::ParseEnd { document: *document }));
    }

    fn validation_start(&mut self) {
        self.log = Ghost(self.log@.push(MemberEvent::ValidationStart));
    }

    fn validation_end(&mut self) {
        self.log = Ghost(self.log@.push(MemberEvent::ValidationEnd));
    }

    fn execution_start(&mut self) {
        self.log = Ghost(self.log@.push(MemberEvent::ExecutionStart));
    }

    fn execution_end(&mut self) {
        self.log = Ghost(self.log@.push(MemberEvent::ExecutionEnd));
    }

    fn resolve_start(&mut self, info: &ResolveInfo) {
        self.starts.push(info.resolve_id.0);
        self.log = Ghost(self.log@.push(MemberEvent::ResolveStart { info: info_model(*info) }));
    }

    fn resolve_end(&mut self, info: &ResolveInfo) {
        self.ends.push(info.resolve_id.0);
        self.log = Ghost(self.log@.push(MemberEvent::ResolveEnd { info: info_model(*info) }));
    }

    fn error(&mut self, err: &Error) {
        if self.errors_seen < usize::MAX {
            self.errors_seen = self.errors_seen + 1;
        }
        self.log = Ghost(self.log@.push(MemberEvent::ErrorReported { error: err.model() }));
    }

    fn result(&mut self) -> (r: Option<Value>) {
        self.log = Ghost(self.log@.push(MemberEvent::ResultTaken { result: None }));
        None
    }
}

/// A tracking extension that contributes one fixed named entry to the
/// side-channel result map.
pub struct StaticContribution {
    pub key: String,
    pub payload: Value,
    /// The ghost record of every hook call shown to this member.
    pub log: Ghost<Seq<MemberEvent>>,
}

impl StaticContribution {
    pub fn new(key: String, payload: Value) -> (r: StaticContribution)
        ensures
            r.key == key,
            r.payload == payload,
            r.log@.len() == 0,
    {
        StaticContribution { key, payload, log: Ghost(Seq::empty()) }
    }
}

impl Extension for StaticContribution {
    open spec fn tracks_hooks() -> bool {
        true
    }

    open spec fn hook_log(&self) -> Seq<MemberEvent> {
        self.log@
    }

    open spec fn spec_name(&self) -> Option<Seq<char>> {
        Some(self.key@)
    }

    fn name(&self) -> (r: Option<String>) {
        Some(self.key.clone())
    }

    fn parse_start(&mut self, query_source: &str, variables: &Variables) {
        self.log = Ghost(self.log@.push(
            MemberEvent::ParseStart { query_source: query_source@, variables: *variables },
        ));
    }

    fn parse_end(&mut self, document: &SelectionSet) {
        self.log = Ghost(self.log@.push(MemberEvent::ParseEnd { document: *document }));
    }

    fn validation_start(&mut self) {
        self.log = Ghost(self.log@.push(MemberEvent::ValidationStart));
    }

    fn validation_end(&mut self) {
        self.log = Ghost(self.log@.push(MemberEvent::ValidationEnd));
    }

    fn execution_start(&mut self) {
        self.log = Ghost(self.log@.push(MemberEvent::ExecutionStart));
    }

    fn execution_end(&mut self) {
        self.log = Ghost(self.log@.push(MemberEvent::ExecutionEnd));
    }

    fn resolve_start(&mut self, info: &ResolveInfo) {
        self.log = Ghost(self.log@.push(MemberEvent::ResolveStart { info: info_model(*info) }));
    }

    fn resolve_end(&mut self, info: &ResolveInfo) {
        self.log = Ghost(self.log@.push(MemberEvent::ResolveEnd { info: info_model(*info) }));
    }

    fn error(&mut self, err: &Error) {
        self.log = Ghost(self.log@.push(MemberEvent::ErrorReported { error: err.model() }));
    }

    fn result(&mut self) -> (r: Option<Value>) {
        let payload = self.payload.duplicate();
        let out = Some(payload);
        proof {
            self.log@ = self.log@.push(MemberEvent::ResultTaken { result: out });
        }
        out
    }
}

} // verus!
