//! Evaluation turns syntax trees into values.

use vstd::prelude::*;
use crate::ast::{Clause, Error, Expr, Mismatch};
use crate::builtin::{call_spec, eval_field, field_spec};
use crate::env::{lookup_in, Env};
use crate::ops::{binop_spec, eval_binop, eval_unop, outcome, unop_spec};
use crate::seq_out::{
    brace_value, bracket_value, pair_slot, scalar_slot, with_entry, with_value, Gathered, SeqOut,
};
use crate::wellformed::{
    gathered_well_formed, lemma_clause_well_formed, lemma_eval_well_formed, scope_well_formed,
    well_formed,
};
use crate::value::{lemma_model_of_entries, lemma_model_of_items, pair_views, views, Val, Value};

verus! {

/// The model of an environment: names and values, outermost first.
pub type Scope = Seq<(Seq<char>, Val)>;

/// The value of `e` under `env`, or the first error met when the parts of `e`
/// are evaluated strictly, left to right. Only the chosen branch of a
/// conditional is looked at.
pub open spec fn eval_spec(env: Scope, e: Expr) -> Result<Val, Error>
    decreases e, 0nat,
{
    match e {
        Expr::BraceLit(cs) => match clauses_spec(env, cs, 0, Gathered::SetOrRecord) {
            Ok(out) => Ok(brace_value(out)),
            Err(err) => Err(err),
        },
        Expr::BracketLit(cs) => match clauses_spec(env, cs, 0, Gathered::List(Seq::empty())) {
            Ok(out) => Ok(bracket_value(out)),
            Err(err) => Err(err),
        },
        Expr::BoolLit(b) => Ok(Val::Bool(b)),
        Expr::IntegerLit(i) => Ok(Val::Int(i as int)),
        Expr::StringLit(s) => Ok(Val::Str(s@)),
        Expr::IfThenElse(condition, yes, no) => match eval_spec(env, *condition) {
            Err(err) => Err(err),
            Ok(Val::Bool(true)) => eval_spec(env, *yes),
            Ok(Val::Bool(false)) => eval_spec(env, *no),
            Ok(_) => Err(Error::TypeMismatch(Mismatch::Condition)),
        },
        Expr::Var(name) => match lookup_in(env, name@) {
            Some(v) => Ok(v),
            None => Err(Error::UndefinedVariable),
        },
        Expr::Field { field, inner } => match eval_spec(env, *inner) {
            Err(err) => Err(err),
            Ok(base) => field_spec(base, field@),
        },
        Expr::Let { ident, value, body } => match eval_spec(env, *value) {
            Err(err) => Err(err),
            Ok(v) => eval_spec(env.push((ident@, v)), *body),
        },
        Expr::Call { function, args } => match eval_spec(env, *function) {
            Err(err) => Err(err),
            Ok(callee) => match args_spec(env, args, 0, Seq::empty()) {
                Err(err) => Err(err),
                Ok(values) => match callee {
                    Val::Builtin(kind, subject) => call_spec(kind, *subject, values),
                    _ => Err(Error::NotCallable),
                },
            },
        },
        Expr::Lam(_, _) => Err(Error::UnsupportedLambda),
        Expr::UnOp(op, operand) => match eval_spec(env, *operand) {
            Err(err) => Err(err),
            Ok(v) => unop_spec(op, v),
        },
        Expr::BinOp { op, op_span, lhs, rhs } => match eval_spec(env, *lhs) {
            Err(err) => Err(err),
            Ok(l) => match eval_spec(env, *rhs) {
                Err(err) => Err(err),
                Ok(r) => binop_spec(op, op_span, l, r),
            },
        },
    }
}

/// The values of the arguments from position `i` on, appended to `done`.
pub open spec fn args_spec(env: Scope, args: Vec<Expr>, i: int, done: Seq<Val>) -> Result<
    Seq<Val>,
    Error,
>
    decreases args, args.len() - i,
{
    if i < 0 || i >= args.len() {
        Ok(done)
    } else {
        match eval_spec(env, args[i]) {
            Err(err) => Err(err),
            Ok(v) => args_spec(env, args, i + 1, done.push(v)),
        }
    }
}

/// What the clauses from position `i` on add to `out`.
pub open spec fn clauses_spec(env: Scope, cs: Vec<Clause>, i: int, out: Gathered) -> Result<
    Gathered,
    Error,
>
    decreases cs, cs.len() - i,
{
    if i < 0 || i >= cs.len() {
        Ok(out)
    } else {
        match clause_spec(env, cs[i], out) {
            Err(err) => Err(err),
            Ok(next) => clauses_spec(env, cs, i + 1, next),
        }
    }
}

/// What the clause `c` adds to `out`. An element first asks `out` for room and
/// is evaluated after that. A loop takes one name over a list or a set and
/// two over a record, and visits the items in the order in which they are
/// held.
pub open spec fn clause_spec(env: Scope, c: Clause, out: Gathered) -> Result<Gathered, Error>
    decreases c, 0nat,
{
    match c {
        Clause::Elem { span, value } => match scalar_slot(out, span) {
            Err(err) => Err(err),
            Ok(ready) => match eval_spec(env, *value) {
                Err(err) => Err(err),
                Ok(v) => Ok(with_value(ready, v)),
            },
        },
        Clause::Assoc { op_span, key, value } => match pair_slot(out, op_span) {
            Err(err) => Err(err),
            Ok(ready) => match eval_spec(env, *key) {
                Err(err) => Err(err),
                Ok(k) => match eval_spec(env, *value) {
                    Err(err) => Err(err),
                    Ok(v) => Ok(with_entry(ready, k, v)),
                },
            },
        },
        Clause::For { idents, collection, body } => match eval_spec(env, *collection) {
            Err(err) => Err(err),
            Ok(Val::List(xs)) => if idents.len() == 1 {
                items_spec(env, idents[0]@, xs, 0, *body, out)
            } else {
                Err(Error::UnsupportedIteration)
            },
            Ok(Val::SetOf(xs)) => if idents.len() == 1 {
                items_spec(env, idents[0]@, xs, 0, *body, out)
            } else {
                Err(Error::UnsupportedIteration)
            },
            Ok(Val::Record(xs)) => if idents.len() == 2 {
                entries_spec(env, idents[0]@, idents[1]@, xs, 0, *body, out)
            } else {
                Err(Error::UnsupportedIteration)
            },
            Ok(_) => Err(Error::UnsupportedIteration),
        },
        Clause::If { condition, body } => match eval_spec(env, *condition) {
            Err(err) => Err(err),
            Ok(Val::Bool(true)) => clause_spec(env, *body, out),
            Ok(Val::Bool(false)) => Ok(out),
            Ok(_) => Err(Error::TypeMismatch(Mismatch::Guard)),
        },
        Clause::Let { ident, value, body } => match eval_spec(env, *value) {
            Err(err) => Err(err),
            Ok(v) => clause_spec(env.push((ident@, v)), *body, out),
        },
    }
}

/// What `body` adds to `out` when it runs once for each of `items` from
/// position `i` on, with `name` bound to the item.
pub open spec fn items_spec(
    env: Scope,
    name: Seq<char>,
    items: Seq<Val>,
    i: int,
    body: Clause,
    out: Gathered,
) -> Result<Gathered, Error>
    decreases body, 1 + items.len() - i,
{
    if i < 0 || i >= items.len() {
        Ok(out)
    } else {
        match clause_spec(env.push((name, items[i])), body, out) {
            Err(err) => Err(err),
            Ok(next) => items_spec(env, name, items, i + 1, body, next),
        }
    }
}

/// What `body` adds to `out` when it runs once for each of `entries` from
/// position `i` on, with `key` bound to the entry's key and, inside it,
/// `value` to its value.
pub open spec fn entries_spec(
    env: Scope,
    key: Seq<char>,
    value: Seq<char>,
    entries: Seq<(Val, Val)>,
    i: int,
    body: Clause,
    out: Gathered,
) -> Result<Gathered, Error>
    decreases body, 1 + entries.len() - i,
{
    if i < 0 || i >= entries.len() {
        Ok(out)
    } else {
        match clause_spec(
            env.push((key, entries[i].0)).push((value, entries[i].1)),
            body,
            out,
        ) {
            Err(err) => Err(err),
            Ok(next) => entries_spec(env, key, value, entries, i + 1, body, next),
        }
    }
}

/// Evaluates `expr` under `env`. The environment is the same afterwards,
/// whether evaluation succeeds or fails. Where the values bound in `env` are
/// well formed, so is the result.
#[verifier::loop_isolation(false)]
pub fn eval(env: &mut Env, expr: &Expr) -> (r: Result<Value, Error>)
    ensures
        outcome(r) == eval_spec(old(env)@, *expr),
        final(env)@ == old(env)@,
        scope_well_formed(old(env)@) ==> (r matches Ok(v) ==> well_formed(v@)),
    decreases *expr, 0nat,
{
    proof {
        if scope_well_formed(env@) {
            lemma_eval_well_formed(env@, *expr);
        }
    }
    match expr {
        Expr::BraceLit(seqs) => {
            let mut out = SeqOut::SetOrRecord;
            let mut i: usize = 0;
            while i < seqs.len()
                invariant
                    i <= seqs.len(),
                    env@ == old(env)@,
                    clauses_spec(old(env)@, *seqs, 0, Gathered::SetOrRecord) == clauses_spec(
                        old(env)@,
                        *seqs,
                        i as int,
                        out@,
                    ),
                decreases seqs.len() - i,
            {
                match eval_seq(env, &seqs[i], &mut out) {
                    Ok(_) => {},
                    Err(err) => {
                        return Err(err);
                    },
                }
                i += 1;
            }
            Ok(out.into_brace_value())
        },
        Expr::BracketLit(seqs) => {
            let mut out = SeqOut::List(Vec::new());
            assert(out@ == Gathered::List(Seq::empty())) by {
                assert(out@->List_0 =~= Seq::<Val>::empty());
            }
            let mut i: usize = 0;
            while i < seqs.len()
                invariant
                    i <= seqs.len(),
                    env@ == old(env)@,
                    clauses_spec(old(env)@, *seqs, 0, Gathered::List(Seq::empty()))
                        == clauses_spec(old(env)@, *seqs, i as int, out@),
                decreases seqs.len() - i,
            {
                match eval_seq(env, &seqs[i], &mut out) {
                    Ok(_) => {},
                    Err(err) => {
                        return Err(err);
                    },
                }
                i += 1;
            }
            Ok(out.into_bracket_value())
        },
        Expr::BoolLit(b) => Ok(Value::Bool(*b)),
        Expr::IntegerLit(i) => Ok(Value::Int(*i)),
        Expr::StringLit(s) => Ok(Value::String(s.clone())),
        Expr::IfThenElse(if_, then_, else_) => {
            let cond = eval(env, if_)?;
            match cond {
                Value::Bool(true) => eval(env, then_),
                Value::Bool(false) => eval(env, else_),
                _ => Err(Error::TypeMismatch(Mismatch::Condition)),
            }
        },
        Expr::Var(var) => match env.lookup(var) {
            Some(value) => Ok(value.duplicate()),
            None => Err(Error::UndefinedVariable),
        },
        Expr::Field { field, inner } => {
            let base = eval(env, inner)?;
            eval_field(&base, field)
        },
        Expr::Let { ident, value, body } => {
            let v_value = eval(env, value)?;
            env.push(ident.clone(), v_value);
            let result = eval(env, body);
            env.pop();
            assert(env@ =~= old(env)@);
            result
        },
        Expr::Call { function, args } => {
            let fun = eval(env, function)?;
            let mut values: Vec<Value> = Vec::new();
            assert(views(values@) =~= Seq::<Val>::empty());
            let mut i: usize = 0;
            while i < args.len()
                invariant
                    i <= args.len(),
                    env@ == old(env)@,
                    args_spec(old(env)@, *args, 0, Seq::empty()) == args_spec(
                        old(env)@,
                        *args,
                        i as int,
                        views(values@),
                    ),
                decreases args.len() - i,
            {
                let ghost before = views(values@);
                let v = eval(env, &args[i])?;
                values.push(v);
                assert(views(values@) =~= before.push(v@));
                i += 1;
            }
            match fun {
                Value::Builtin(f) => f.call(&values),
                _ => Err(Error::NotCallable),
            }
        },
        Expr::Lam(_, _) => Err(Error::UnsupportedLambda),
        Expr::UnOp(op, value_expr) => {
            let value = eval(env, value_expr)?;
            eval_unop(*op, value)
        },
        Expr::BinOp { op, op_span, lhs, rhs } => {
            let l = eval(env, lhs)?;
            let r = eval(env, rhs)?;
            eval_binop(*op, *op_span, l, r)
        },
    }
}

/// What came of a clause, with the accumulator as it is afterwards.
pub open spec fn gathered(r: Result<(), Error>, out: Gathered) -> Result<Gathered, Error> {
    match r {
        Ok(_) => Ok(out),
        Err(e) => Err(e),
    }
}

/// Evaluates the clause `seq` under `env` into the accumulator `out`. The
/// environment is the same afterwards, whether evaluation succeeds or fails.
/// Where the values in `env` and in `out` are well formed, so are those in
/// `out` after a success.
#[verifier::loop_isolation(false)]
pub fn eval_seq(env: &mut Env, seq: &Clause, out: &mut SeqOut) -> (r: Result<(), Error>)
    ensures
        gathered(r, final(out)@) == clause_spec(old(env)@, *seq, old(out)@),
        final(env)@ == old(env)@,
        scope_well_formed(old(env)@) && gathered_well_formed(old(out)@) && r is Ok
            ==> gathered_well_formed(final(out)@),
    decreases *seq, 0nat,
{
    proof {
        if scope_well_formed(env@) && gathered_well_formed(out@) {
            lemma_clause_well_formed(env@, *seq, out@);
        }
    }
    match seq {
        Clause::Elem { span, value } => {
            out.values(*span)?;
            let v = eval(env, value)?;
            out.push_value(v);
            Ok(())
        },
        Clause::Assoc { op_span, key, value } => {
            out.keys_values(*op_span)?;
            let k = eval(env, key)?;
            let v = eval(env, value)?;
            out.push_entry(k, v);
            Ok(())
        },
        Clause::For { idents, collection, body } => {
            let collection_value = eval(env, collection)?;
            match collection_value {
                Value::List(xs) => {
                    proof {
                        lemma_model_of_items(xs);
                    }
                    if idents.len() == 1 {
                        each_item(env, &idents[0], &xs, body, out)
                    } else {
                        Err(Error::UnsupportedIteration)
                    }
                },
                Value::SetOf(xs) => {
                    proof {
                        lemma_model_of_items(xs);
                    }
                    if idents.len() == 1 {
                        each_item(env, &idents[0], &xs, body, out)
                    } else {
                        Err(Error::UnsupportedIteration)
                    }
                },
                Value::Record(xs) => {
                    proof {
                        lemma_model_of_entries(xs);
                    }
                    if idents.len() == 2 {
                        each_entry(env, &idents[0], &idents[1], &xs, body, out)
                    } else {
                        Err(Error::UnsupportedIteration)
                    }
                },
                _ => Err(Error::UnsupportedIteration),
            }
        },
        Clause::If { condition, body } => {
            let cond = eval(env, condition)?;
            match cond {
                Value::Bool(true) => eval_seq(env, body, out),
                Value::Bool(false) => Ok(()),
                _ => Err(Error::TypeMismatch(Mismatch::Guard)),
            }
        },
        Clause::Let { ident, value, body } => {
            let v = eval(env, value)?;
            env.push(ident.clone(), v);
            let result = eval_seq(env, body, out);
            env.pop();
            assert(env@ =~= old(env)@);
            result
        },
    }
}

/// Runs `body` once for each of `items`, in order, with `name` bound to the
/// item.
fn each_item(env: &mut Env, name: &String, items: &Vec<Value>, body: &Clause, out: &mut SeqOut) -> (r:
    Result<(), Error>)
    ensures
        gathered(r, final(out)@) == items_spec(
            old(env)@,
            name@,
            views(items@),
            0,
            *body,
            old(out)@,
        ),
        final(env)@ == old(env)@,
    decreases *body, 1 + items.len(),
{
    let mut i: usize = 0;
    while i < items.len()
        invariant
            i <= items.len(),
            env@ == old(env)@,
            items_spec(old(env)@, name@, views(items@), 0, *body, old(out)@) == items_spec(
                old(env)@,
                name@,
                views(items@),
                i as int,
                *body,
                out@,
            ),
        decreases items.len() - i,
    {
        env.push(name.clone(), items[i].duplicate());
        let result = eval_seq(env, body, out);
        env.pop();
        assert(env@ =~= old(env)@);
        match result {
            Ok(_) => {},
            Err(err) => {
                return Err(err);
            },
        }
        i += 1;
    }
    Ok(())
}

/// Runs `body` once for each of `entries`, in order, with `key` bound to the
/// entry's key and `value` to its value.
fn each_entry(
    env: &mut Env,
    key: &String,
    value: &String,
    entries: &Vec<(Value, Value)>,
    body: &Clause,
    out: &mut SeqOut,
) -> (r: Result<(), Error>)
    ensures
        gathered(r, final(out)@) == entries_spec(
            old(env)@,
            key@,
            value@,
            pair_views(entries@),
            0,
            *body,
            old(out)@,
        ),
        final(env)@ == old(env)@,
    decreases *body, 1 + entries.len(),
{
    let mut i: usize = 0;
    while i < entries.len()
        invariant
            i <= entries.len(),
            env@ == old(env)@,
            entries_spec(old(env)@, key@, value@, pair_views(entries@), 0, *body, old(out)@)
                == entries_spec(
                old(env)@,
                key@,
                value@,
                pair_views(entries@),
                i as int,
                *body,
                out@,
            ),
        decreases entries.len() - i,
    {
        env.push(key.clone(), entries[i].0.duplicate());
        env.push(value.clone(), entries[i].1.duplicate());
        let result = eval_seq(env, body, out);
        env.pop();
        env.pop();
        assert(env@ =~= old(env)@);
        match result {
            Ok(_) => {},
            Err(err) => {
                return Err(err);
            },
        }
        i += 1;
    }
    Ok(())
}

} // verus!
