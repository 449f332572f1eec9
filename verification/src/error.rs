//! The structured, positioned, path-aware errors that flow out of resolution.

use vstd::prelude::*;
use crate::Pos;
use crate::value::Value;
use crate::value::ValueModel;

verus! {

/// One step of the path from the query root to a field: a field name or a
/// list index.
#[derive(Debug)]
pub enum PathSegment {
    Name(String),
    Index(usize),
}

/// Mathematical model of a [`PathSegment`].
pub ghost enum PathSegModel {
    Name(Seq<char>),
    Index(int),
}

impl PathSegment {
    pub open spec fn model(self) -> PathSegModel {
        match self {
            PathSegment::Name(s) => PathSegModel::Name(s@),
            PathSegment::Index(i) => PathSegModel::Index(i as int),
        }
    }

    /// A copy whose model is the same.
    pub fn clone_seg(&self) -> (r: PathSegment)
        ensures
            r.model() == self.model(),
    {
        match self {
            PathSegment::Name(s) => PathSegment::Name(s.clone()),
            PathSegment::Index(i) => PathSegment::Index(*i),
        }
    }
}

/// The models of a path, in root-to-leaf order.
pub open spec fn path_model(s: Seq<PathSegment>) -> Seq<PathSegModel>
    decreases s,
{
    if s.len() == 0 {
        Seq::empty()
    } else {
        path_model(s.drop_last()).push(s.last().model())
    }
}

/// Each position of `path_model` is the model of the segment there.
pub proof fn lemma_path_model(s: Seq<PathSegment>)
    ensures
        path_model(s).len() == s.len(),
        forall|i: int| 0 <= i < s.len() ==> path_model(s)[i] == s[i].model(),
    decreases s,
{
    if s.len() > 0 {
        lemma_path_model(s.drop_last());
    }
}

/// What went wrong while executing a query, without the position and path
/// context that [`Error::Query`] adds.
#[derive(Debug)]
pub enum QueryError {
    /// The selected field does not exist on the object type.
    FieldNotFound { field_name: String, object: String },
    /// A subscription was requested but no subscription root is configured.
    NotConfiguredSubscriptions,
    /// An argument was missing or did not have the expected shape.
    ExpectedType { expect: String },
    /// A federation representation matched no known entity type.
    EntityNotFound,
    /// The resolver itself failed; the message is the resolver's.
    FieldError { message: String },
}

/// Mathematical model of a [`QueryError`].
pub ghost enum QueryErrorModel {
    FieldNotFound { field_name: Seq<char>, object: Seq<char> },
    NotConfiguredSubscriptions,
    ExpectedType { expect: Seq<char> },
    EntityNotFound,
    FieldError { message: Seq<char> },
}

impl QueryError {
    pub open spec fn model(self) -> QueryErrorModel {
        match self {
            QueryError::FieldNotFound { field_name, object } => QueryErrorModel::FieldNotFound {
                field_name: field_name@,
                object: object@,
            },
            QueryError::NotConfiguredSubscriptions => QueryErrorModel::NotConfiguredSubscriptions,
            QueryError::ExpectedType { expect } => QueryErrorModel::ExpectedType {
                expect: expect@,
            },
            QueryError::EntityNotFound => QueryErrorModel::EntityNotFound,
            QueryError::FieldError { message } => QueryErrorModel::FieldError {
                message: message@,
            },
        }
    }
}

/// An error of the engine: either a fatal pre-execution failure reported by
/// the parser or validator, or an execution failure carrying the position of
/// the failing field and the path from the root to it.
#[derive(Debug)]
pub enum Error {
    /// The query text could not be parsed; nothing was executed.
    Parse { message: String },
    /// The document failed validation; nothing was executed.
    Validation { message: String },
    /// A failure during execution, attributed to a position and a path.
    Query { pos: Pos, path: Option<Vec<PathSegment>>, err: QueryError },
}

/// Mathematical model of an [`Error`].
pub ghost enum ErrorModel {
    Parse { message: Seq<char> },
    Validation { message: Seq<char> },
    Query { pos: Pos, path: Option<Seq<PathSegModel>>, err: QueryErrorModel },
}

impl Error {
    pub open spec fn model(self) -> ErrorModel {
        match self {
            Error::Parse { message } => ErrorModel::Parse { message: message@ },
            Error::Validation { message } => ErrorModel::Validation { message: message@ },
            Error::Query { pos, path, err } => ErrorModel::Query {
                pos,
                path: match path {
                    Some(p) => Some(path_model(p@)),
                    None => None,
                },
                err: err.model(),
            },
        }
    }
}

/// The models of a sequence of errors, in order.
pub open spec fn error_seq_model(s: Seq<Error>) -> Seq<ErrorModel>
    decreases s,
{
    if s.len() == 0 {
        Seq::empty()
    } else {
        error_seq_model(s.drop_last()).push(s.last().model())
    }
}

/// Each position of `error_seq_model` is the model of the error there.
pub proof fn lemma_error_seq_model(s: Seq<Error>)
    ensures
        error_seq_model(s).len() == s.len(),
        forall|i: int| 0 <= i < s.len() ==> error_seq_model(s)[i] == s[i].model(),
    decreases s,
{
    if s.len() > 0 {
        lemma_error_seq_model(s.drop_last());
    }
}

/// Appending one error extends the modelled sequence by its model.
pub proof fn lemma_error_seq_model_push(s: Seq<Error>, e: Error)
    ensures
        error_seq_model(s.push(e)) == error_seq_model(s).push(e.model()),
{
    assert(s.push(e).drop_last() =~= s);
    assert(error_seq_model(s.push(e)) =~= error_seq_model(s).push(e.model()));
}

/// The error a failed input parse reports: either the value did not have the
/// type the target expected, or the implementer refused it with a message.
#[derive(Debug)]
pub enum InputValueError {
    ExpectedType(Value),
    Custom(String),
}

/// Mathematical model of an [`InputValueError`].
pub ghost enum InputValueErrorModel {
    ExpectedType(ValueModel),
    Custom(Seq<char>),
}

impl InputValueError {
    pub open spec fn model(self) -> InputValueErrorModel {
        match self {
            InputValueError::ExpectedType(v) => InputValueErrorModel::ExpectedType(v.model()),
            InputValueError::Custom(m) => InputValueErrorModel::Custom(m@),
        }
    }
}

/// The error of a failed context-data lookup.
#[derive(Debug)]
pub struct FieldError {
    pub message: String,
}

/// The result of an operation that can fail with a [`FieldError`].
pub type FieldResult<T> = Result<T, FieldError>;

} // verus!
