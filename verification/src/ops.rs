//! Unary and binary operators.

use vstd::prelude::*;
use crate::ast::{BinOp, Error, Mismatch, Span, UnOp};
use crate::collection::{extend_record, extend_set, record_extend, set_extend};
use crate::value::{lemma_model_of_entries, lemma_model_of_items, Val, Value};
use crate::wellformed::{lemma_binop_well_formed, well_formed};

verus! {

/// What evaluation gives, with the value taken by its model.
pub open spec fn outcome(r: Result<Value, Error>) -> Result<Val, Error> {
    match r {
        Ok(v) => Ok(v@),
        Err(e) => Err(e),
    }
}

/// Whether `n` is a 64-bit signed integer.
pub open spec fn fits(n: int) -> bool {
    i64::MIN <= n <= i64::MAX
}

/// The unary operator applied: negation of a boolean, nothing else.
pub open spec fn unop_spec(op: UnOp, v: Val) -> Result<Val, Error> {
    match (op, v) {
        (UnOp::Neg, Val::Bool(x)) => Ok(Val::Bool(!x)),
        _ => Err(Error::TypeMismatch(Mismatch::UnaryOperand)),
    }
}

/// The binary operator applied. Union joins two records, with the right one
/// winning on a shared key, two sets, or a set and the items of a list.
/// Addition and multiplication fail where the result is no 64-bit integer.
pub open spec fn binop_spec(op: BinOp, span: Span, lhs: Val, rhs: Val) -> Result<Val, Error> {
    match (op, lhs, rhs) {
        (BinOp::Union, Val::Record(xs), Val::Record(ys)) => Ok(Val::Record(record_extend(xs, ys))),
        (BinOp::Union, Val::SetOf(xs), Val::SetOf(ys)) => Ok(Val::SetOf(set_extend(xs, ys))),
        (BinOp::Union, Val::SetOf(xs), Val::List(ys)) => Ok(Val::SetOf(set_extend(xs, ys))),
        (BinOp::And, Val::Bool(x), Val::Bool(y)) => Ok(Val::Bool(x && y)),
        (BinOp::Or, Val::Bool(x), Val::Bool(y)) => Ok(Val::Bool(x || y)),
        (BinOp::Add, Val::Int(x), Val::Int(y)) => if fits(x + y) {
            Ok(Val::Int(x + y))
        } else {
            Err(Error::Overflow { op: BinOp::Add, span })
        },
        (BinOp::Mul, Val::Int(x), Val::Int(y)) => if fits(x * y) {
            Ok(Val::Int(x * y))
        } else {
            Err(Error::Overflow { op: BinOp::Mul, span })
        },
        (BinOp::Lt, Val::Int(x), Val::Int(y)) => Ok(Val::Bool(x < y)),
        (BinOp::Gt, Val::Int(x), Val::Int(y)) => Ok(Val::Bool(x > y)),
        (BinOp::LtEq, Val::Int(x), Val::Int(y)) => Ok(Val::Bool(x <= y)),
        (BinOp::GtEq, Val::Int(x), Val::Int(y)) => Ok(Val::Bool(x >= y)),
        _ => Err(Error::TypeMismatch(Mismatch::BinaryOperands)),
    }
}

/// Applies a unary operator.
pub fn eval_unop(op: UnOp, v: Value) -> (r: Result<Value, Error>)
    ensures
        outcome(r) == unop_spec(op, v@),
{
    match (op, v) {
        (UnOp::Neg, Value::Bool(x)) => Ok(Value::Bool(!x)),
        _ => Err(Error::TypeMismatch(Mismatch::UnaryOperand)),
    }
}

/// Applies a binary operator; `op_span` is where the operator stands.
pub fn eval_binop(op: BinOp, op_span: Span, lhs: Value, rhs: Value) -> (r: Result<Value, Error>)
    ensures
        outcome(r) == binop_spec(op, op_span, lhs@, rhs@),
        well_formed(lhs@) && well_formed(rhs@) ==> (r matches Ok(v) ==> well_formed(v@)),
{
    proof {
        if well_formed(lhs@) && well_formed(rhs@) {
            lemma_binop_well_formed(op, op_span, lhs@, rhs@);
        }
    }
    match (op, lhs, rhs) {
        (BinOp::Union, Value::Record(xs), Value::Record(ys)) => {
            let mut result = xs;
            proof {
                lemma_model_of_entries(xs);
                lemma_model_of_entries(ys);
            }
            extend_record(&mut result, &ys);
            proof {
                lemma_model_of_entries(result);
            }
            Ok(Value::Record(result))
        },
        (BinOp::Union, Value::SetOf(xs), Value::SetOf(ys)) => {
            let mut result = xs;
            proof {
                lemma_model_of_items(xs);
                lemma_model_of_items(ys);
            }
            extend_set(&mut result, &ys);
            proof {
                lemma_model_of_items(result);
            }
            Ok(Value::SetOf(result))
        },
        (BinOp::Union, Value::SetOf(xs), Value::List(ys)) => {
            let mut result = xs;
            proof {
                lemma_model_of_items(xs);
                lemma_model_of_items(ys);
            }
            extend_set(&mut result, &ys);
            proof {
                lemma_model_of_items(result);
            }
            Ok(Value::SetOf(result))
        },
        (BinOp::And, Value::Bool(x), Value::Bool(y)) => Ok(Value::Bool(x && y)),
        (BinOp::Or, Value::Bool(x), Value::Bool(y)) => Ok(Value::Bool(x || y)),
        (BinOp::Add, Value::Int(x), Value::Int(y)) => match x.checked_add(y) {
            Some(z) => Ok(Value::Int(z)),
            None => Err(Error::Overflow { op: BinOp::Add, span: op_span }),
        },
        (BinOp::Mul, Value::Int(x), Value::Int(y)) => match x.checked_mul(y) {
            Some(z) => Ok(Value::Int(z)),
            None => Err(Error::Overflow { op: BinOp::Mul, span: op_span }),
        },
        (BinOp::Lt, Value::Int(x), Value::Int(y)) => Ok(Value::Bool(x < y)),
        (BinOp::Gt, Value::Int(x), Value::Int(y)) => Ok(Value::Bool(x > y)),
        (BinOp::LtEq, Value::Int(x), Value::Int(y)) => Ok(Value::Bool(x <= y)),
        (BinOp::GtEq, Value::Int(x), Value::Int(y)) => Ok(Value::Bool(x >= y)),
        _ => Err(Error::TypeMismatch(Mismatch::BinaryOperands)),
    }
}

} // verus!
