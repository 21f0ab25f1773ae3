//! Runtime values and their mathematical model.

use vstd::prelude::*;
use crate::ast::BuiltinKind;

verus! {

/// A fully reduced value. A set holds its members, and a record its entries,
/// in ascending order (see `crate::order`).
#[derive(Debug)]
pub enum Value {
    Bool(bool),
    Int(i64),
    String(String),
    List(Vec<Value>),
    SetOf(Vec<Value>),
    Record(Vec<(Value, Value)>),
    Builtin(Builtin),
}

/// A native callable: what it does, and the value it was taken from.
#[derive(Debug)]
pub struct Builtin {
    pub kind: BuiltinKind,
    pub subject: Box<Value>,
}

/// The mathematical model of a value.
pub ghost enum Val {
    Bool(bool),
    Int(int),
    Str(Seq<char>),
    List(Seq<Val>),
    SetOf(Seq<Val>),
    Record(Seq<(Val, Val)>),
    Builtin(BuiltinKind, Box<Val>),
}

impl Value {
    /// The model of this value.
    pub open spec fn model(self) -> Val
        decreases self,
    {
        match self {
            Value::Bool(b) => Val::Bool(b),
            Value::Int(i) => Val::Int(i as int),
            Value::String(s) => Val::Str(s@),
            Value::List(xs) => Val::List(
                Seq::new(xs@.len(), |i: int| if 0 <= i < xs@.len() { xs@[i].model() } else { Val::Bool(false) }),
            ),
            Value::SetOf(xs) => Val::SetOf(
                Seq::new(xs@.len(), |i: int| if 0 <= i < xs@.len() { xs@[i].model() } else { Val::Bool(false) }),
            ),
            Value::Record(xs) => Val::Record(
                Seq::new(
                    xs@.len(),
                    |i: int| if 0 <= i < xs@.len() { (xs@[i].0.model(), xs@[i].1.model()) } else { (Val::Bool(false), Val::Bool(false)) },
                ),
            ),
            Value::Builtin(b) => Val::Builtin(b.kind, Box::new((*b.subject).model())),
        }
    }
}

impl View for Value {
    type V = Val;

    open spec fn view(&self) -> Val {
        self.model()
    }
}

/// The models of a sequence of values, in order.
pub open spec fn views(xs: Seq<Value>) -> Seq<Val> {
    Seq::new(xs.len(), |i: int| xs[i]@)
}

/// The models of a sequence of entries, in order.
pub open spec fn pair_views(xs: Seq<(Value, Value)>) -> Seq<(Val, Val)> {
    Seq::new(xs.len(), |i: int| (xs[i].0@, xs[i].1@))
}

/// A list and a set are modelled by the models of their items, in order.
pub proof fn lemma_model_of_items(xs: Vec<Value>)
    ensures
        Value::List(xs)@ == Val::List(views(xs@)),
        Value::SetOf(xs)@ == Val::SetOf(views(xs@)),
{
    assert(Value::List(xs).model()->List_0 =~= views(xs@));
    assert(Value::SetOf(xs).model()->SetOf_0 =~= views(xs@));
}

/// A record is modelled by the models of its entries, in order.
pub proof fn lemma_model_of_entries(xs: Vec<(Value, Value)>)
    ensures
        Value::Record(xs)@ == Val::Record(pair_views(xs@)),
{
    assert(Value::Record(xs).model()->Record_0 =~= pair_views(xs@));
}

impl Value {
    /// A deep copy: a value with the same model.
    pub fn duplicate(&self) -> (r: Value)
        ensures
            r@ == self@,
        decreases *self, 0nat,
    {
        match self {
            Value::Bool(b) => Value::Bool(*b),
            Value::Int(i) => Value::Int(*i),
            Value::String(s) => Value::String(s.clone()),
            Value::List(xs) => {
                let ys = duplicate_items(xs);
                proof {
                    lemma_model_of_items(*xs);
                    lemma_model_of_items(ys);
                }
                Value::List(ys)
            },
            Value::SetOf(xs) => {
                let ys = duplicate_items(xs);
                proof {
                    lemma_model_of_items(*xs);
                    lemma_model_of_items(ys);
                }
                Value::SetOf(ys)
            },
            Value::Record(xs) => {
                let ys = duplicate_entries(xs);
                proof {
                    lemma_model_of_entries(*xs);
                    lemma_model_of_entries(ys);
                }
                Value::Record(ys)
            },
            Value::Builtin(b) => Value::Builtin(
                Builtin { kind: b.kind, subject: Box::new(b.subject.duplicate()) },
            ),
        }
    }
}

/// Deep copies of the items of `xs`, in order.
pub fn duplicate_items(xs: &Vec<Value>) -> (r: Vec<Value>)
    ensures
        views(r@) == views(xs@),
    decreases *xs, 1nat,
{
    let mut out: Vec<Value> = Vec::new();
    let mut i: usize = 0;
    while i < xs.len()
        invariant
            i <= xs.len(),
            out@.len() == i,
            forall|j: int| 0 <= j < i ==> out@[j]@ == xs@[j]@,
        decreases xs.len() - i,
    {
        let v = xs[i].duplicate();
        out.push(v);
        i += 1;
    }
    assert(views(out@) =~= views(xs@));
    out
}

/// Deep copies of the entries of `xs`, in order.
pub fn duplicate_entries(xs: &Vec<(Value, Value)>) -> (r: Vec<(Value, Value)>)
    ensures
        pair_views(r@) == pair_views(xs@),
    decreases *xs, 1nat,
{
    let mut out: Vec<(Value, Value)> = Vec::new();
    let mut i: usize = 0;
    while i < xs.len()
        invariant
            i <= xs.len(),
            out@.len() == i,
            forall|j: int| 0 <= j < i ==> out@[j].0@ == xs@[j].0@ && out@[j].1@ == xs@[j].1@,
        decreases xs.len() - i,
    {
        let k = xs[i].0.duplicate();
        let v = xs[i].1.duplicate();
        out.push((k, v));
        i += 1;
    }
    assert(pair_views(out@) =~= pair_views(xs@));
    out
}

} // verus!
