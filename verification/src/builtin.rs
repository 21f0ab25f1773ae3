//! Field access and the builtins that it yields.

use vstd::prelude::*;
use vstd::string::StringSliceAdditionalSpecFns;
use crate::ast::{BuiltinKind, Error, Mismatch};
use crate::collection::{contains_item, get_entry, has_item, record_get};
use crate::ops::outcome;
use crate::value::{lemma_model_of_entries, lemma_model_of_items, views, Builtin, Val, Value};
use crate::wellformed::{
    all_well_formed, lemma_call_well_formed, lemma_field_well_formed, well_formed,
};

verus! {

/// The number of arguments that a builtin takes.
pub open spec fn arity(kind: BuiltinKind) -> nat {
    match kind {
        BuiltinKind::StringLen => 0,
        BuiltinKind::MapContains => 1,
        BuiltinKind::MapGet => 2,
        BuiltinKind::ListContains => 1,
    }
}

/// The length of a string in bytes, as an integer value; one too long for
/// the integers counts as the largest of them.
pub open spec fn byte_len(s: Seq<char>) -> int {
    let n = vstd::utf8::encode_utf8(s).len() as int;
    if n <= i64::MAX {
        n
    } else {
        i64::MAX as int
    }
}

/// The builtin of kind `kind`, taken from `subject`, called with `args`. A
/// wrong number of arguments is an arity error; a subject of the wrong type,
/// which field access never yields, cannot be called.
pub open spec fn call_spec(kind: BuiltinKind, subject: Val, args: Seq<Val>) -> Result<Val, Error> {
    if args.len() != arity(kind) {
        Err(Error::Arity(kind))
    } else {
        match (kind, subject) {
            (BuiltinKind::StringLen, Val::Str(s)) => Ok(Val::Int(byte_len(s))),
            (BuiltinKind::MapContains, Val::Record(xs)) => Ok(
                Val::Bool(record_get(xs, args[0]) is Some),
            ),
            (BuiltinKind::MapGet, Val::Record(xs)) => match record_get(xs, args[0]) {
                Some(v) => Ok(v),
                None => Ok(args[1]),
            },
            (BuiltinKind::ListContains, Val::List(xs)) => Ok(Val::Bool(has_item(xs, args[0]))),
            _ => Err(Error::NotCallable),
        }
    }
}

/// The field `field` of `base`. A string has `len`, a list has `contains`, a
/// record has `contains` and `get`, which hide keys of these names, and then
/// its keys. Nothing else has fields.
pub open spec fn field_spec(base: Val, field: Seq<char>) -> Result<Val, Error> {
    match base {
        Val::Str(_) => if field == "len"@ {
            Ok(Val::Builtin(BuiltinKind::StringLen, Box::new(base)))
        } else {
            Err(Error::UndefinedField)
        },
        Val::Record(xs) => if field == "contains"@ {
            Ok(Val::Builtin(BuiltinKind::MapContains, Box::new(base)))
        } else if field == "get"@ {
            Ok(Val::Builtin(BuiltinKind::MapGet, Box::new(base)))
        } else {
            match record_get(xs, Val::Str(field)) {
                Some(v) => Ok(v),
                None => Err(Error::UndefinedField),
            }
        },
        Val::List(_) => if field == "contains"@ {
            Ok(Val::Builtin(BuiltinKind::ListContains, Box::new(base)))
        } else {
            Err(Error::UndefinedField)
        },
        _ => Err(Error::TypeMismatch(Mismatch::FieldBase)),
    }
}

impl BuiltinKind {
    /// The number of arguments that the builtin takes.
    pub fn arity(self) -> (r: usize)
        ensures
            r == arity(self),
    {
        match self {
            BuiltinKind::StringLen => 0,
            BuiltinKind::MapContains => 1,
            BuiltinKind::MapGet => 2,
            BuiltinKind::ListContains => 1,
        }
    }

    /// The dotted name of the builtin, for diagnostics.
    pub fn name(self) -> (r: &'static str)
        ensures
            r@ == match self {
                BuiltinKind::StringLen => "String.len"@,
                BuiltinKind::MapContains => "Map.contains"@,
                BuiltinKind::MapGet => "Map.get"@,
                BuiltinKind::ListContains => "List.contains"@,
            },
    {
        match self {
            BuiltinKind::StringLen => "String.len",
            BuiltinKind::MapContains => "Map.contains",
            BuiltinKind::MapGet => "Map.get",
            BuiltinKind::ListContains => "List.contains",
        }
    }
}

fn builtin_over(kind: BuiltinKind, v: &Value) -> (r: Builtin)
    ensures
        Value::Builtin(r)@ == Val::Builtin(kind, Box::new(v@)),
{
    Builtin { kind, subject: Box::new(v.duplicate()) }
}

/// `len` of the string `s`.
pub fn builtin_string_len(s: &str) -> (r: Builtin)
    ensures
        Value::Builtin(r)@ == Val::Builtin(BuiltinKind::StringLen, Box::new(Val::Str(s@))),
{
    let subject = Value::String(s.to_owned());
    assert(subject@ == Val::Str(s@));
    Builtin { kind: BuiltinKind::StringLen, subject: Box::new(subject) }
}

/// `contains` of the record `v`.
pub fn builtin_map_contains(v: &Value) -> (r: Builtin)
    ensures
        Value::Builtin(r)@ == Val::Builtin(BuiltinKind::MapContains, Box::new(v@)),
{
    builtin_over(BuiltinKind::MapContains, v)
}

/// `contains` of the list `v`.
pub fn builtin_list_contains(v: &Value) -> (r: Builtin)
    ensures
        Value::Builtin(r)@ == Val::Builtin(BuiltinKind::ListContains, Box::new(v@)),
{
    builtin_over(BuiltinKind::ListContains, v)
}

/// `get` of the record `v`.
pub fn builtin_map_get(v: &Value) -> (r: Builtin)
    ensures
        Value::Builtin(r)@ == Val::Builtin(BuiltinKind::MapGet, Box::new(v@)),
{
    builtin_over(BuiltinKind::MapGet, v)
}

impl Builtin {
    /// Calls the builtin with `args`.
    pub fn call(&self, args: &Vec<Value>) -> (r: Result<Value, Error>)
        ensures
            outcome(r) == call_spec(self.kind, (*self.subject)@, views(args@)),
            well_formed((*self.subject)@) && all_well_formed(views(args@)) ==> (r matches Ok(v)
                ==> well_formed(v@)),
    {
        proof {
            if well_formed((*self.subject)@) && all_well_formed(views(args@)) {
                lemma_call_well_formed(self.kind, (*self.subject)@, views(args@));
            }
        }
        if args.len() != self.kind.arity() {
            return Err(Error::Arity(self.kind));
        }
        match &*self.subject {
            Value::String(s) => match self.kind {
                BuiltinKind::StringLen => {
                    let n: u64 = s.as_str().as_bytes().len() as u64;
                    if n <= 0x7fff_ffff_ffff_ffffu64 {
                        Ok(Value::Int(n as i64))
                    } else {
                        Ok(Value::Int(0x7fff_ffff_ffff_ffff))
                    }
                },
                _ => Err(Error::NotCallable),
            },
            Value::Record(xs) => {
                proof {
                    lemma_model_of_entries(*xs);
                }
                match self.kind {
                    BuiltinKind::MapContains => Ok(Value::Bool(get_entry(xs, &args[0]).is_some())),
                    BuiltinKind::MapGet => match get_entry(xs, &args[0]) {
                        Some(v) => Ok(v.duplicate()),
                        None => Ok(args[1].duplicate()),
                    },
                    _ => Err(Error::NotCallable),
                }
            },
            Value::List(xs) => {
                proof {
                    lemma_model_of_items(*xs);
                }
                match self.kind {
                    BuiltinKind::ListContains => Ok(Value::Bool(contains_item(xs, &args[0]))),
                    _ => Err(Error::NotCallable),
                }
            },
            _ => Err(Error::NotCallable),
        }
    }
}

fn is_name(field: &String, name: &str) -> (r: bool)
    ensures
        r == (field@ == name@),
{
    let n = name.to_owned();
    *field == n
}

/// Resolves the field `field` of `base`.
pub fn eval_field(base: &Value, field: &String) -> (r: Result<Value, Error>)
    ensures
        outcome(r) == field_spec(base@, field@),
        well_formed(base@) ==> (r matches Ok(v) ==> well_formed(v@)),
{
    proof {
        if well_formed(base@) {
            lemma_field_well_formed(base@, field@);
        }
    }
    match base {
        Value::String(s) => {
            if is_name(field, "len") {
                Ok(Value::Builtin(builtin_string_len(s.as_str())))
            } else {
                Err(Error::UndefinedField)
            }
        },
        Value::Record(xs) => {
            proof {
                lemma_model_of_entries(*xs);
            }
            if is_name(field, "contains") {
                Ok(Value::Builtin(builtin_map_contains(base)))
            } else if is_name(field, "get") {
                Ok(Value::Builtin(builtin_map_get(base)))
            } else {
                let key = Value::String(field.clone());
                match get_entry(xs, &key) {
                    Some(v) => Ok(v.duplicate()),
                    None => Err(Error::UndefinedField),
                }
            }
        },
        Value::List(xs) => {
            proof {
                lemma_model_of_items(*xs);
            }
            if is_name(field, "contains") {
                Ok(Value::Builtin(builtin_list_contains(base)))
            } else {
                Err(Error::UndefinedField)
            }
        },
        _ => Err(Error::TypeMismatch(Mismatch::FieldBase)),
    }
}

} // verus!
