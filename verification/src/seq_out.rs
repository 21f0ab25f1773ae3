//! The accumulator of a collection literal, which settles on its first
//! element whether the literal is a set or a record.

use vstd::prelude::*;
use crate::ast::{Error, Shape, Span};
use crate::collection::{extend_record, extend_set, record_extend, set_extend};
use crate::value::{lemma_model_of_entries, lemma_model_of_items, pair_views, views, Val, Value};
use crate::wellformed::{gathered_well_formed, lemma_literal_well_formed, well_formed};

verus! {

/// What a literal has gathered so far.
pub enum SeqOut {
    /// A list literal: only bare elements are taken.
    List(Vec<Value>),
    /// A set, because the first element, at the span, was a bare element.
    SetOf(Span, Vec<Value>),
    /// A record, because the first element, at the span, was `key: value`.
    Record(Span, Vec<(Value, Value)>),
    /// No element yet: a set or a record.
    SetOrRecord,
}

/// The model of an accumulator.
pub ghost enum Gathered {
    List(Seq<Val>),
    SetOf(Span, Seq<Val>),
    Record(Span, Seq<(Val, Val)>),
    SetOrRecord,
}

impl View for SeqOut {
    type V = Gathered;

    open spec fn view(&self) -> Gathered {
        match self {
            SeqOut::List(xs) => Gathered::List(views(xs@)),
            SeqOut::SetOf(span, xs) => Gathered::SetOf(*span, views(xs@)),
            SeqOut::Record(span, xs) => Gathered::Record(*span, pair_views(xs@)),
            SeqOut::SetOrRecord => Gathered::SetOrRecord,
        }
    }
}

/// The accumulator once it has agreed to take a bare element at `scalar`: an
/// undecided one becomes a set with `scalar` as evidence, a record refuses
/// and names the clause that made it a record.
pub open spec fn scalar_slot(out: Gathered, scalar: Span) -> Result<Gathered, Error> {
    match out {
        Gathered::SetOrRecord => Ok(Gathered::SetOf(scalar, Seq::empty())),
        Gathered::List(_) => Ok(out),
        Gathered::SetOf(_, _) => Ok(out),
        Gathered::Record(first, _) => Err(
            Error::ShapeConflict { at: scalar, expected: Shape::KeyValue, evidence: Some(first) },
        ),
    }
}

/// The accumulator once it has agreed to take a `key: value` pair at `kv`: an
/// undecided one becomes a record with `kv` as evidence, a set refuses and
/// names the clause that made it a set, a list refuses without evidence.
pub open spec fn pair_slot(out: Gathered, kv: Span) -> Result<Gathered, Error> {
    match out {
        Gathered::SetOrRecord => Ok(Gathered::Record(kv, Seq::empty())),
        Gathered::List(_) => Err(
            Error::ShapeConflict { at: kv, expected: Shape::Scalar, evidence: None },
        ),
        Gathered::SetOf(first, _) => Err(
            Error::ShapeConflict { at: kv, expected: Shape::Scalar, evidence: Some(first) },
        ),
        Gathered::Record(_, _) => Ok(out),
    }
}

/// The accumulator with `v` appended; a record or an undecided one stays.
pub open spec fn with_value(out: Gathered, v: Val) -> Gathered {
    match out {
        Gathered::List(xs) => Gathered::List(xs.push(v)),
        Gathered::SetOf(first, xs) => Gathered::SetOf(first, xs.push(v)),
        _ => out,
    }
}

/// The accumulator with the pair appended; anything but a record stays.
pub open spec fn with_entry(out: Gathered, k: Val, v: Val) -> Gathered {
    match out {
        Gathered::Record(first, xs) => Gathered::Record(first, xs.push((k, v))),
        _ => out,
    }
}

/// The value of a brace literal that gathered `out`: nothing gives the empty
/// set, bare elements a set, pairs a record in which the last pair of a
/// key wins.
pub open spec fn brace_value(out: Gathered) -> Val {
    match out {
        Gathered::SetOrRecord => Val::SetOf(Seq::empty()),
        Gathered::SetOf(_, xs) => Val::SetOf(set_extend(Seq::empty(), xs)),
        Gathered::Record(_, xs) => Val::Record(record_extend(Seq::empty(), xs)),
        Gathered::List(xs) => Val::List(xs),
    }
}

/// The value of a bracket literal that gathered `out`.
pub open spec fn bracket_value(out: Gathered) -> Val {
    match out {
        Gathered::List(xs) => Val::List(xs),
        _ => brace_value(out),
    }
}

impl SeqOut {
    /// Asks for room for a bare element at `scalar`.
    pub fn values(&mut self, scalar: Span) -> (r: Result<(), Error>)
        ensures
            match r {
                Ok(_) => scalar_slot(old(self)@, scalar) == Ok::<Gathered, Error>(final(self)@),
                Err(e) => scalar_slot(old(self)@, scalar) == Err::<Gathered, Error>(e)
                    && final(self)@ == old(self)@,
            },
    {
        match self {
            SeqOut::SetOrRecord => {
                *self = SeqOut::SetOf(scalar, Vec::new());
                assert(self@->SetOf_1 =~= Seq::<Val>::empty());
                Ok(())
            },
            SeqOut::List(_) => Ok(()),
            SeqOut::SetOf(_, _) => Ok(()),
            SeqOut::Record(first, _) => Err(
                Error::ShapeConflict {
                    at: scalar,
                    expected: Shape::KeyValue,
                    evidence: Some(*first),
                },
            ),
        }
    }

    /// Asks for room for a `key: value` pair at `kv`.
    pub fn keys_values(&mut self, kv: Span) -> (r: Result<(), Error>)
        ensures
            match r {
                Ok(_) => pair_slot(old(self)@, kv) == Ok::<Gathered, Error>(final(self)@),
                Err(e) => pair_slot(old(self)@, kv) == Err::<Gathered, Error>(e) && final(self)@
                    == old(self)@,
            },
    {
        match self {
            SeqOut::SetOrRecord => {
                *self = SeqOut::Record(kv, Vec::new());
                assert(self@->Record_1 =~= Seq::<(Val, Val)>::empty());
                Ok(())
            },
            SeqOut::List(_) => Err(
                Error::ShapeConflict { at: kv, expected: Shape::Scalar, evidence: None },
            ),
            SeqOut::SetOf(first, _) => Err(
                Error::ShapeConflict { at: kv, expected: Shape::Scalar, evidence: Some(*first) },
            ),
            SeqOut::Record(_, _) => Ok(()),
        }
    }

    /// Appends a bare element.
    pub fn push_value(&mut self, v: Value)
        ensures
            final(self)@ == with_value(old(self)@, v@),
    {
        match self {
            SeqOut::List(xs) => {
                xs.push(v);
                assert(views(xs@) =~= views(old(self)->List_0@).push(v@));
            },
            SeqOut::SetOf(_, xs) => {
                xs.push(v);
                assert(views(xs@) =~= views(old(self)->SetOf_1@).push(v@));
            },
            _ => {},
        }
    }

    /// Appends a `key: value` pair.
    pub fn push_entry(&mut self, k: Value, v: Value)
        ensures
            final(self)@ == with_entry(old(self)@, k@, v@),
    {
        match self {
            SeqOut::Record(_, xs) => {
                xs.push((k, v));
                assert(pair_views(xs@) =~= pair_views(old(self)->Record_1@).push((k@, v@)));
            },
            _ => {},
        }
    }

    /// The value of the brace literal that gathered this.
    pub fn into_brace_value(self) -> (r: Value)
        ensures
            r@ == brace_value(self@),
            gathered_well_formed(self@) ==> well_formed(r@),
    {
        proof {
            if gathered_well_formed(self@) {
                lemma_literal_well_formed(self@);
            }
        }
        match self {
            SeqOut::SetOrRecord => {
                let xs: Vec<Value> = Vec::new();
                proof {
                    lemma_model_of_items(xs);
                    assert(views(xs@) =~= Seq::<Val>::empty());
                }
                Value::SetOf(xs)
            },
            SeqOut::SetOf(_, values) => {
                let mut xs: Vec<Value> = Vec::new();
                assert(views(xs@) =~= Seq::<Val>::empty());
                extend_set(&mut xs, &values);
                proof {
                    lemma_model_of_items(xs);
                }
                Value::SetOf(xs)
            },
            SeqOut::Record(_, entries) => {
                let mut xs: Vec<(Value, Value)> = Vec::new();
                assert(pair_views(xs@) =~= Seq::<(Val, Val)>::empty());
                extend_record(&mut xs, &entries);
                proof {
                    lemma_model_of_entries(xs);
                }
                Value::Record(xs)
            },
            SeqOut::List(values) => {
                proof {
                    lemma_model_of_items(values);
                }
                Value::List(values)
            },
        }
    }

    /// The value of the bracket literal that gathered this.
    pub fn into_bracket_value(self) -> (r: Value)
        ensures
            r@ == bracket_value(self@),
            gathered_well_formed(self@) ==> well_formed(r@),
    {
        proof {
            if gathered_well_formed(self@) {
                lemma_literal_well_formed(self@);
            }
        }
        self.into_brace_value()
    }
}

} // verus!
