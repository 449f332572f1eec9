//! JSON-shaped values: the inputs handed to resolvers and the results the
//! resolution protocol assembles.

use vstd::prelude::*;

verus! {

broadcast use vstd::std_specs::vec::group_vec_axioms;

/// An uploaded file as the engine sees it: the metadata is plain data, the
/// file contents stay outside the library behind an opaque handle that the
/// caller resolves to a real file.
#[derive(Debug)]
pub struct UploadValue {
    pub filename: String,
    pub content_type: Option<String>,
    /// Caller-side handle for the file contents.
    pub content: u64,
}

/// Mathematical model of an [`UploadValue`].
pub ghost struct UploadModel {
    pub filename: Seq<char>,
    pub content_type: Option<Seq<char>>,
    pub content: u64,
}

impl UploadValue {
    pub open spec fn model(self) -> UploadModel {
        UploadModel {
            filename: self.filename@,
            content_type: match self.content_type {
                Some(s) => Some(s@),
                None => None,
            },
            content: self.content,
        }
    }

    /// A copy whose model is the same.
    pub fn clone_data(&self) -> (r: UploadValue)
        ensures
            r.model() == self.model(),
    {
        UploadValue {
            filename: self.filename.clone(),
            content_type: match &self.content_type {
                Some(s) => Some(s.clone()),
                None => None,
            },
            content: self.content,
        }
    }
}

/// A query value: an argument handed in by the caller or a piece of the
/// JSON-shaped result the engine assembles. Object entries keep their
/// insertion order.
#[derive(Debug)]
pub enum Value {
    Null,
    Bool(bool),
    Int(i64),
    Str(String),
    List(Vec<Value>),
    Object(Vec<(String, Value)>),
    Upload(UploadValue),
}

/// Mathematical model of a [`Value`]: strings become character sequences and
/// vectors become sequences, so that contracts can speak of values without
/// caring how they are allocated.
pub ghost enum ValueModel {
    Null,
    Bool(bool),
    Int(i64),
    Str(Seq<char>),
    List(Seq<ValueModel>),
    Object(Seq<(Seq<char>, ValueModel)>),
    Upload(UploadModel),
}

impl Value {
    pub open spec fn model(self) -> ValueModel
        decreases self,
    {
        match self {
            Value::Null => ValueModel::Null,
            Value::Bool(b) => ValueModel::Bool(b),
            Value::Int(i) => ValueModel::Int(i),
            Value::Str(s) => ValueModel::Str(s@),
            Value::List(vs) => ValueModel::List(value_seq_model(vs@)),
            Value::Object(fs) => ValueModel::Object(entry_seq_model(fs@)),
            Value::Upload(u) => ValueModel::Upload(u.model()),
        }
    }

    /// A deep copy whose model is the same.
    pub fn duplicate(&self) -> (r: Value)
        ensures
            r.model() == self.model(),
        decreases self,
    {
        match self {
            Value::Null => Value::Null,
            Value::Bool(b) => Value::Bool(*b),
            Value::Int(i) => Value::Int(*i),
            Value::Str(s) => Value::Str(s.clone()),
            Value::List(vs) => {
                let n = vs.len();
                let mut out: Vec<Value> = Vec::new();
                let mut i: usize = 0;
                while i < n
                    invariant
                        n == vs.len(),
                        i <= n,
                        out@.len() == i,
                        value_seq_model(out@) == value_seq_model(vs@.take(i as int)),
                        *self == Value::List(*vs),
                    decreases n - i,
                {
                    proof {
                        assert(decreases_to!(*self => (*self)->List_0));
                        assert(decreases_to!(*vs => vs@[i as int]));
                    }
                    let ghost pre = out@;
                    let item = vs[i].duplicate();
                    out.push(item);
                    proof {
                        assert(out@.drop_last() =~= pre);
                        assert(vs@.take(i as int + 1).drop_last() =~= vs@.take(i as int));
                        assert(vs@.take(i as int + 1).last() == vs@[i as int]);
                    }
                    i = i + 1;
                }
                proof {
                    assert(vs@.take(n as int) =~= vs@);
                }
                Value::List(out)
            },
            Value::Object(fs) => {
                let n = fs.len();
                let mut out: Vec<(String, Value)> = Vec::new();
                let mut i: usize = 0;
                while i < n
                    invariant
                        n == fs.len(),
                        i <= n,
                        out@.len() == i,
                        entry_seq_model(out@) == entry_seq_model(fs@.take(i as int)),
                        *self == Value::Object(*fs),
                    decreases n - i,
                {
                    proof {
                        assert(decreases_to!(*self => (*self)->Object_0));
                        assert(decreases_to!(*fs => fs@[i as int]));
                        assert(decreases_to!(fs@[i as int] => fs@[i as int].1));
                    }
                    let ghost pre = out@;
                    let name = fs[i].0.clone();
                    let item = fs[i].1.duplicate();
                    out.push((name, item));
                    proof {
                        assert(out@.drop_last() =~= pre);
                        assert(fs@.take(i as int + 1).drop_last() =~= fs@.take(i as int));
                        assert(fs@.take(i as int + 1).last() == fs@[i as int]);
                    }
                    i = i + 1;
                }
                proof {
                    assert(fs@.take(n as int) =~= fs@);
                }
                Value::Object(out)
            },
            Value::Upload(u) => Value::Upload(u.clone_data()),
        }
    }
}

/// The models of a sequence of values, in order.
pub open spec fn value_seq_model(s: Seq<Value>) -> Seq<ValueModel>
    decreases s,
{
    if s.len() == 0 {
        Seq::empty()
    } else {
        value_seq_model(s.drop_last()).push(s.last().model())
    }
}

/// The models of a sequence of named entries, in order.
pub open spec fn entry_seq_model(s: Seq<(String, Value)>) -> Seq<(Seq<char>, ValueModel)>
    decreases s,
{
    if s.len() == 0 {
        Seq::empty()
    } else {
        entry_seq_model(s.drop_last()).push((s.last().0@, s.last().1.model()))
    }
}

/// Each position of `value_seq_model` is the model of the value there.
pub proof fn lemma_value_seq_model(s: Seq<Value>)
    ensures
        value_seq_model(s).len() == s.len(),
        forall|i: int| 0 <= i < s.len() ==> value_seq_model(s)[i] == s[i].model(),
    decreases s,
{
    if s.len() > 0 {
        lemma_value_seq_model(s.drop_last());
    }
}

/// Each position of `entry_seq_model` is the modelled entry there.
pub proof fn lemma_entry_seq_model(s: Seq<(String, Value)>)
    ensures
        entry_seq_model(s).len() == s.len(),
        forall|i: int| 0 <= i < s.len() ==> entry_seq_model(s)[i]
            == (s[i].0@, s[i].1.model()),
    decreases s,
{
    if s.len() > 0 {
        lemma_entry_seq_model(s.drop_last());
    }
}

/// The variable bindings of one request, already resolved to values by the
/// caller.
pub struct Variables {
    pub entries: Vec<(String, Value)>,
}

impl Variables {
    pub fn new() -> (r: Variables)
        ensures
            r.entries@.len() == 0,
    {
        Variables { entries: Vec::new() }
    }
}

} // verus!
