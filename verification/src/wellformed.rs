//! Well-formed values, and the proof that evaluation yields nothing else.

use vstd::prelude::*;
use crate::ast::{BinOp, BuiltinKind, Clause, Expr, Span};
use crate::builtin::{call_spec, field_spec};
use crate::collection::{
    ascending, key_index, keys_ascending, lemma_key_index_found, lemma_record_extend_ascending,
    lemma_set_extend_ascending, lemma_set_extend_members, put_from, record_extend, record_get,
    set_extend,
};
use crate::env::binding_index;
use crate::eval::{args_spec, clause_spec, clauses_spec, entries_spec, eval_spec, items_spec, Scope};
use crate::ops::{binop_spec, fits};
use crate::order::{compare, order_of, Order};
use crate::seq_out::{
    brace_value, bracket_value, pair_slot, scalar_slot, with_entry, with_value, Gathered,
};
use crate::value::{lemma_model_of_entries, lemma_model_of_items, pair_views, views, Val, Value};

verus! {

/// Whether a builtin of kind `kind` can have been taken from `subject`.
pub open spec fn suits(kind: BuiltinKind, subject: Val) -> bool {
    match kind {
        BuiltinKind::StringLen => subject is Str,
        BuiltinKind::MapContains => subject is Record,
        BuiltinKind::MapGet => subject is Record,
        BuiltinKind::ListContains => subject is List,
    }
}

/// A value is well formed where its integers are 64-bit, the members of its
/// sets and the keys of its records ascend, and each builtin stands over a
/// value that it suits; all the way down.
pub open spec fn well_formed(v: Val) -> bool
    decreases v,
{
    match v {
        Val::Bool(_) => true,
        Val::Int(i) => fits(i),
        Val::Str(_) => true,
        Val::List(xs) => forall|i: int| 0 <= i < xs.len() ==> well_formed(#[trigger] xs[i]),
        Val::SetOf(xs) => ascending(xs) && forall|i: int|
            0 <= i < xs.len() ==> well_formed(#[trigger] xs[i]),
        Val::Record(xs) => keys_ascending(xs) && forall|i: int|
            0 <= i < xs.len() ==> well_formed((#[trigger] xs[i]).0) && well_formed(xs[i].1),
        Val::Builtin(kind, subject) => suits(kind, *subject) && well_formed(*subject),
    }
}

/// Each of `xs` is well formed.
pub open spec fn all_well_formed(xs: Seq<Val>) -> bool {
    forall|i: int| 0 <= i < xs.len() ==> well_formed(#[trigger] xs[i])
}

/// Each key and each value of `xs` is well formed.
pub open spec fn entries_well_formed(xs: Seq<(Val, Val)>) -> bool {
    forall|i: int| 0 <= i < xs.len() ==> well_formed((#[trigger] xs[i]).0) && well_formed(xs[i].1)
}

/// Each value bound in `env` is well formed.
pub open spec fn scope_well_formed(env: Scope) -> bool {
    forall|i: int| 0 <= i < env.len() ==> well_formed((#[trigger] env[i]).1)
}

/// Everything gathered in `out` is well formed.
pub open spec fn gathered_well_formed(out: Gathered) -> bool {
    match out {
        Gathered::List(xs) => all_well_formed(xs),
        Gathered::SetOf(_, xs) => all_well_formed(xs),
        Gathered::Record(_, xs) => entries_well_formed(xs),
        Gathered::SetOrRecord => true,
    }
}

proof fn lemma_set_extend_wf(s: Seq<Val>, items: Seq<Val>)
    requires
        all_well_formed(s),
        all_well_formed(items),
    ensures
        all_well_formed(set_extend(s, items)),
{
    lemma_set_extend_members(s, items);
    let r = set_extend(s, items);
    assert forall|i: int| 0 <= i < r.len() implies well_formed(#[trigger] r[i]) by {
        let a = r[i];
        assert(r.contains(a));
        if s.contains(a) {
            let j = choose|j: int| 0 <= j < s.len() && s[j] == a;
            assert(well_formed(s[j]));
        } else {
            let j = choose|j: int| 0 <= j < items.len() && items[j] == a;
            assert(well_formed(items[j]));
        }
    }
}

proof fn lemma_put_from_wf(s: Seq<(Val, Val)>, k: Val, v: Val, i: int)
    requires
        entries_well_formed(s),
        well_formed(k),
        well_formed(v),
        0 <= i <= s.len(),
    ensures
        entries_well_formed(put_from(s, k, v, i)),
    decreases i,
{
    let r = put_from(s, k, v, i);
    if i > 0 && order_of(s[i - 1].0, k) == Order::Greater {
        lemma_put_from_wf(s, k, v, i - 1);
    } else if i > 0 && order_of(s[i - 1].0, k) == Order::Equal {
        assert forall|j: int| 0 <= j < r.len() implies well_formed((#[trigger] r[j]).0)
            && well_formed(r[j].1) by {
            assert(well_formed(s[j].0) && well_formed(s[j].1));
        }
    } else {
        assert(r == s.insert(i, (k, v)));
        assert forall|j: int| 0 <= j < r.len() implies well_formed((#[trigger] r[j]).0)
            && well_formed(r[j].1) by {
            if j < i {
                assert(well_formed(s[j].0) && well_formed(s[j].1));
            } else if j > i {
                assert(well_formed(s[j - 1].0) && well_formed(s[j - 1].1));
            }
        }
    }
}

proof fn lemma_record_extend_wf(s: Seq<(Val, Val)>, entries: Seq<(Val, Val)>)
    requires
        entries_well_formed(s),
        entries_well_formed(entries),
    ensures
        entries_well_formed(record_extend(s, entries)),
    decreases entries.len(),
{
    if entries.len() > 0 {
        let front = entries.drop_last();
        assert forall|i: int| 0 <= i < front.len() implies well_formed((#[trigger] front[i]).0)
            && well_formed(front[i].1) by {
            assert(well_formed(entries[i].0) && well_formed(entries[i].1));
        }
        lemma_record_extend_wf(s, front);
        let last = entries[entries.len() - 1];
        assert(well_formed(last.0) && well_formed(last.1));
        let mid = record_extend(s, front);
        lemma_put_from_wf(mid, last.0, last.1, mid.len() as int);
    }
}

proof fn lemma_record_get_wf(s: Seq<(Val, Val)>, q: Val)
    requires
        entries_well_formed(s),
    ensures
        record_get(s, q) matches Some(v) ==> well_formed(v),
{
    lemma_key_index_found(s, q, s.len() as int);
    let i = key_index(s, q, s.len() as int);
    if i >= 0 {
        assert(well_formed(s[i].0) && well_formed(s[i].1));
    }
}

proof fn lemma_lookup_wf(env: Scope, name: Seq<char>, i: int)
    requires
        scope_well_formed(env),
        0 <= i <= env.len(),
    ensures
        -1 <= binding_index(env, name, i) < i,
        binding_index(env, name, i) >= 0 ==> well_formed(env[binding_index(env, name, i)].1),
    decreases i,
{
    if i > 0 {
        if env[i - 1].0 == name {
            assert(well_formed(env[i - 1].1));
        } else {
            lemma_lookup_wf(env, name, i - 1);
        }
    }
}

/// Field access on a well-formed value yields a well-formed value.
pub proof fn lemma_field_well_formed(base: Val, field: Seq<char>)
    requires
        well_formed(base),
    ensures
        field_spec(base, field) matches Ok(v) ==> well_formed(v),
{
    match base {
        Val::Record(xs) => {
            lemma_record_get_wf(xs, Val::Str(field));
        },
        _ => {},
    }
}

/// A builtin over a well-formed value, called with well-formed arguments,
/// returns a well-formed value.
pub proof fn lemma_call_well_formed(kind: BuiltinKind, subject: Val, args: Seq<Val>)
    requires
        well_formed(subject),
        all_well_formed(args),
    ensures
        call_spec(kind, subject, args) matches Ok(v) ==> well_formed(v),
{
    match subject {
        Val::Record(xs) => {
            if args.len() > 0 {
                lemma_record_get_wf(xs, args[0]);
            }
            if args.len() > 1 {
                assert(well_formed(args[1]));
            }
        },
        _ => {},
    }
}

/// An operator applied to well-formed values yields a well-formed value.
pub proof fn lemma_binop_well_formed(op: BinOp, span: Span, lhs: Val, rhs: Val)
    requires
        well_formed(lhs),
        well_formed(rhs),
    ensures
        binop_spec(op, span, lhs, rhs) matches Ok(v) ==> well_formed(v),
{
    match (op, lhs, rhs) {
        (BinOp::Union, Val::Record(xs), Val::Record(ys)) => {
            lemma_record_extend_ascending(xs, ys);
            lemma_record_extend_wf(xs, ys);
        },
        (BinOp::Union, Val::SetOf(xs), Val::SetOf(ys)) => {
            lemma_set_extend_ascending(xs, ys);
            lemma_set_extend_wf(xs, ys);
        },
        (BinOp::Union, Val::SetOf(xs), Val::List(ys)) => {
            lemma_set_extend_ascending(xs, ys);
            lemma_set_extend_wf(xs, ys);
        },
        _ => {},
    }
}

/// What a literal makes of well-formed elements is well formed.
pub proof fn lemma_literal_well_formed(out: Gathered)
    requires
        gathered_well_formed(out),
    ensures
        well_formed(brace_value(out)),
        well_formed(bracket_value(out)),
{
    match out {
        Gathered::SetOf(_, xs) => {
            lemma_set_extend_ascending(Seq::empty(), xs);
            lemma_set_extend_wf(Seq::empty(), xs);
        },
        Gathered::Record(_, xs) => {
            lemma_record_extend_ascending(Seq::empty(), xs);
            lemma_record_extend_wf(Seq::empty(), xs);
        },
        _ => {},
    }
}

proof fn lemma_scope_push_wf(env: Scope, name: Seq<char>, v: Val)
    requires
        scope_well_formed(env),
        well_formed(v),
    ensures
        scope_well_formed(env.push((name, v))),
{
    let r = env.push((name, v));
    assert forall|i: int| 0 <= i < r.len() implies well_formed((#[trigger] r[i]).1) by {
        if i < env.len() {
            assert(well_formed(env[i].1));
        }
    }
}

proof fn lemma_slots_wf(out: Gathered, span: Span)
    requires
        gathered_well_formed(out),
    ensures
        scalar_slot(out, span) matches Ok(o) ==> gathered_well_formed(o),
        pair_slot(out, span) matches Ok(o) ==> gathered_well_formed(o),
{
}

proof fn lemma_with_wf(out: Gathered, k: Val, v: Val)
    requires
        gathered_well_formed(out),
        well_formed(k),
        well_formed(v),
    ensures
        gathered_well_formed(with_value(out, v)),
        gathered_well_formed(with_entry(out, k, v)),
{
    match out {
        Gathered::List(xs) => {
            let r = xs.push(v);
            assert forall|i: int| 0 <= i < r.len() implies well_formed(#[trigger] r[i]) by {
                if i < xs.len() {
                    assert(well_formed(xs[i]));
                }
            }
        },
        Gathered::SetOf(_, xs) => {
            let r = xs.push(v);
            assert forall|i: int| 0 <= i < r.len() implies well_formed(#[trigger] r[i]) by {
                if i < xs.len() {
                    assert(well_formed(xs[i]));
                }
            }
        },
        Gathered::Record(_, xs) => {
            let r = xs.push((k, v));
            assert forall|i: int| 0 <= i < r.len() implies well_formed((#[trigger] r[i]).0)
                && well_formed(r[i].1) by {
                if i < xs.len() {
                    assert(well_formed(xs[i].0) && well_formed(xs[i].1));
                }
            }
        },
        Gathered::SetOrRecord => {},
    }
}

/// Under an environment of well-formed values, an expression evaluates to a
/// well-formed value.
pub proof fn lemma_eval_well_formed(env: Scope, e: Expr)
    requires
        scope_well_formed(env),
    ensures
        eval_spec(env, e) matches Ok(v) ==> well_formed(v),
    decreases e, 0nat,
{
    match e {
        Expr::BraceLit(cs) => {
            lemma_clauses_well_formed(env, cs, 0, Gathered::SetOrRecord);
            if let Ok(out) = clauses_spec(env, cs, 0, Gathered::SetOrRecord) {
                lemma_literal_well_formed(out);
            }
        },
        Expr::BracketLit(cs) => {
            lemma_clauses_well_formed(env, cs, 0, Gathered::List(Seq::empty()));
            if let Ok(out) = clauses_spec(env, cs, 0, Gathered::List(Seq::empty())) {
                lemma_literal_well_formed(out);
            }
        },
        Expr::BoolLit(_) => {},
        Expr::IntegerLit(_) => {},
        Expr::StringLit(_) => {},
        Expr::IfThenElse(condition, yes, no) => {
            lemma_eval_well_formed(env, *condition);
            lemma_eval_well_formed(env, *yes);
            lemma_eval_well_formed(env, *no);
        },
        Expr::Var(name) => {
            lemma_lookup_wf(env, name@, env.len() as int);
        },
        Expr::Field { field, inner } => {
            lemma_eval_well_formed(env, *inner);
            if let Ok(base) = eval_spec(env, *inner) {
                lemma_field_well_formed(base, field@);
            }
        },
        Expr::Let { ident, value, body } => {
            lemma_eval_well_formed(env, *value);
            if let Ok(v) = eval_spec(env, *value) {
                lemma_scope_push_wf(env, ident@, v);
                lemma_eval_well_formed(env.push((ident@, v)), *body);
            }
        },
        Expr::Call { function, args } => {
            lemma_eval_well_formed(env, *function);
            lemma_args_well_formed(env, args, 0, Seq::empty());
            if let Ok(Val::Builtin(kind, subject)) = eval_spec(env, *function) {
                if let Ok(values) = args_spec(env, args, 0, Seq::empty()) {
                    lemma_call_well_formed(kind, *subject, values);
                }
            }
        },
        Expr::Lam(_, _) => {},
        Expr::UnOp(op, operand) => {
            lemma_eval_well_formed(env, *operand);
        },
        Expr::BinOp { op, op_span, lhs, rhs } => {
            lemma_eval_well_formed(env, *lhs);
            lemma_eval_well_formed(env, *rhs);
            if let Ok(l) = eval_spec(env, *lhs) {
                if let Ok(r) = eval_spec(env, *rhs) {
                    lemma_binop_well_formed(op, op_span, l, r);
                }
            }
        },
    }
}

proof fn lemma_args_well_formed(env: Scope, args: Vec<Expr>, i: int, done: Seq<Val>)
    requires
        scope_well_formed(env),
        all_well_formed(done),
    ensures
        args_spec(env, args, i, done) matches Ok(values) ==> all_well_formed(values),
    decreases args, args.len() - i,
{
    if 0 <= i < args.len() {
        lemma_eval_well_formed(env, args[i]);
        if let Ok(v) = eval_spec(env, args[i]) {
            let next = done.push(v);
            assert forall|j: int| 0 <= j < next.len() implies well_formed(#[trigger] next[j]) by {
                if j < done.len() {
                    assert(well_formed(done[j]));
                }
            }
            lemma_args_well_formed(env, args, i + 1, next);
        }
    }
}

proof fn lemma_clauses_well_formed(env: Scope, cs: Vec<Clause>, i: int, out: Gathered)
    requires
        scope_well_formed(env),
        gathered_well_formed(out),
    ensures
        clauses_spec(env, cs, i, out) matches Ok(o) ==> gathered_well_formed(o),
    decreases cs, cs.len() - i,
{
    if 0 <= i < cs.len() {
        lemma_clause_well_formed(env, cs[i], out);
        if let Ok(next) = clause_spec(env, cs[i], out) {
            lemma_clauses_well_formed(env, cs, i + 1, next);
        }
    }
}

/// Under an environment of well-formed values, a clause adds only well-formed
/// values to an accumulator.
pub proof fn lemma_clause_well_formed(env: Scope, c: Clause, out: Gathered)
    requires
        scope_well_formed(env),
        gathered_well_formed(out),
    ensures
        clause_spec(env, c, out) matches Ok(o) ==> gathered_well_formed(o),
    decreases c, 0nat,
{
    match c {
        Clause::Elem { span, value } => {
            lemma_slots_wf(out, span);
            lemma_eval_well_formed(env, *value);
            if let Ok(ready) = scalar_slot(out, span) {
                if let Ok(v) = eval_spec(env, *value) {
                    lemma_with_wf(ready, v, v);
                }
            }
        },
        Clause::Assoc { op_span, key, value } => {
            lemma_slots_wf(out, op_span);
            lemma_eval_well_formed(env, *key);
            lemma_eval_well_formed(env, *value);
            if let Ok(ready) = pair_slot(out, op_span) {
                if let Ok(k) = eval_spec(env, *key) {
                    if let Ok(v) = eval_spec(env, *value) {
                        lemma_with_wf(ready, k, v);
                    }
                }
            }
        },
        Clause::For { idents, collection, body } => {
            lemma_eval_well_formed(env, *collection);
            match eval_spec(env, *collection) {
                Ok(Val::List(xs)) => {
                    if idents.len() == 1 {
                        lemma_items_well_formed(env, idents[0]@, xs, 0, *body, out);
                    }
                },
                Ok(Val::SetOf(xs)) => {
                    if idents.len() == 1 {
                        lemma_items_well_formed(env, idents[0]@, xs, 0, *body, out);
                    }
                },
                Ok(Val::Record(xs)) => {
                    if idents.len() == 2 {
                        lemma_entries_well_formed(env, idents[0]@, idents[1]@, xs, 0, *body, out);
                    }
                },
                _ => {},
            }
        },
        Clause::If { condition, body } => {
            lemma_eval_well_formed(env, *condition);
            lemma_clause_well_formed(env, *body, out);
        },
        Clause::Let { ident, value, body } => {
            lemma_eval_well_formed(env, *value);
            if let Ok(v) = eval_spec(env, *value) {
                lemma_scope_push_wf(env, ident@, v);
                lemma_clause_well_formed(env.push((ident@, v)), *body, out);
            }
        },
    }
}

proof fn lemma_items_well_formed(
    env: Scope,
    name: Seq<char>,
    items: Seq<Val>,
    i: int,
    body: Clause,
    out: Gathered,
)
    requires
        scope_well_formed(env),
        all_well_formed(items),
        gathered_well_formed(out),
    ensures
        items_spec(env, name, items, i, body, out) matches Ok(o) ==> gathered_well_formed(o),
    decreases body, 1 + items.len() - i,
{
    if 0 <= i < items.len() {
        assert(well_formed(items[i]));
        lemma_scope_push_wf(env, name, items[i]);
        lemma_clause_well_formed(env.push((name, items[i])), body, out);
        if let Ok(next) = clause_spec(env.push((name, items[i])), body, out) {
            lemma_items_well_formed(env, name, items, i + 1, body, next);
        }
    }
}

proof fn lemma_entries_well_formed(
    env: Scope,
    key: Seq<char>,
    value: Seq<char>,
    entries: Seq<(Val, Val)>,
    i: int,
    body: Clause,
    out: Gathered,
)
    requires
        scope_well_formed(env),
        entries_well_formed(entries),
        gathered_well_formed(out),
    ensures
        entries_spec(env, key, value, entries, i, body, out) matches Ok(o)
            ==> gathered_well_formed(o),
    decreases body, 1 + entries.len() - i,
{
    if 0 <= i < entries.len() {
        assert(well_formed(entries[i].0) && well_formed(entries[i].1));
        lemma_scope_push_wf(env, key, entries[i].0);
        lemma_scope_push_wf(env.push((key, entries[i].0)), value, entries[i].1);
        let inner = env.push((key, entries[i].0)).push((value, entries[i].1));
        lemma_clause_well_formed(inner, body, out);
        if let Ok(next) = clause_spec(inner, body, out) {
            lemma_entries_well_formed(env, key, value, entries, i + 1, body, next);
        }
    }
}

proof fn lemma_well_formed_unfolds(v: Val)
    ensures
        v matches Val::List(xs) ==> well_formed(v) == all_well_formed(xs),
        v matches Val::SetOf(xs) ==> well_formed(v) == (ascending(xs) && all_well_formed(xs)),
        v matches Val::Record(xs) ==> well_formed(v) == (keys_ascending(xs)
            && entries_well_formed(xs)),
{
}

fn items_ascend(xs: &Vec<Value>) -> (r: bool)
    ensures
        r == ascending(views(xs@)),
{
    let mut i: usize = 1;
    while i < xs.len()
        invariant
            1 <= i,
            forall|a: int, b: int|
                0 <= a && b == a + 1 && b < i ==> #[trigger] order_of(
                    views(xs@)[a],
                    views(xs@)[b],
                ) == Order::Less,
        decreases xs.len() - i,
    {
        match compare(&xs[i - 1], &xs[i]) {
            Order::Less => {},
            _ => {
                assert(order_of(views(xs@)[i - 1], views(xs@)[i as int]) != Order::Less);
                return false;
            },
        }
        i += 1;
    }
    true
}

fn keys_ascend(xs: &Vec<(Value, Value)>) -> (r: bool)
    ensures
        r == keys_ascending(pair_views(xs@)),
{
    let mut i: usize = 1;
    while i < xs.len()
        invariant
            1 <= i,
            forall|a: int, b: int|
                0 <= a && b == a + 1 && b < i ==> #[trigger] order_of(
                    pair_views(xs@)[a].0,
                    pair_views(xs@)[b].0,
                ) == Order::Less,
        decreases xs.len() - i,
    {
        match compare(&xs[i - 1].0, &xs[i].0) {
            Order::Less => {},
            _ => {
                assert(order_of(pair_views(xs@)[i - 1].0, pair_views(xs@)[i as int].0)
                    != Order::Less);
                return false;
            },
        }
        i += 1;
    }
    true
}

fn items_are_well_formed(xs: &Vec<Value>) -> (r: bool)
    ensures
        r == all_well_formed(views(xs@)),
    decreases *xs, 1nat,
{
    let mut i: usize = 0;
    while i < xs.len()
        invariant
            i <= xs.len(),
            forall|j: int| 0 <= j < i ==> well_formed(#[trigger] views(xs@)[j]),
        decreases xs.len() - i,
    {
        if !xs[i].is_well_formed() {
            assert(!well_formed(views(xs@)[i as int]));
            return false;
        }
        i += 1;
    }
    true
}

fn entries_are_well_formed(xs: &Vec<(Value, Value)>) -> (r: bool)
    ensures
        r == entries_well_formed(pair_views(xs@)),
    decreases *xs, 1nat,
{
    let mut i: usize = 0;
    while i < xs.len()
        invariant
            i <= xs.len(),
            forall|j: int|
                0 <= j < i ==> well_formed((#[trigger] pair_views(xs@)[j]).0) && well_formed(
                    pair_views(xs@)[j].1,
                ),
        decreases xs.len() - i,
    {
        if !xs[i].0.is_well_formed() || !xs[i].1.is_well_formed() {
            assert(!(well_formed(pair_views(xs@)[i as int].0) && well_formed(
                pair_views(xs@)[i as int].1,
            )));
            return false;
        }
        i += 1;
    }
    true
}

impl Value {
    /// Whether the value is well formed. Evaluation needs no such test of its
    /// own results; it is for values that come from elsewhere.
    pub fn is_well_formed(&self) -> (r: bool)
        ensures
            r == well_formed(self@),
        decreases *self, 0nat,
    {
        match self {
            Value::Bool(_) => true,
            Value::Int(_) => true,
            Value::String(_) => true,
            Value::List(xs) => {
                proof {
                    lemma_model_of_items(*xs);
                }
                let r = items_are_well_formed(xs);
                proof {
                    lemma_well_formed_unfolds(self@);
                }
                r
            },
            Value::SetOf(xs) => {
                proof {
                    lemma_model_of_items(*xs);
                }
                proof {
                    lemma_well_formed_unfolds(self@);
                }
                items_ascend(xs) && items_are_well_formed(xs)
            },
            Value::Record(xs) => {
                proof {
                    lemma_model_of_entries(*xs);
                }
                proof {
                    lemma_well_formed_unfolds(self@);
                }
                keys_ascend(xs) && entries_are_well_formed(xs)
            },
            Value::Builtin(b) => {
                proof {
                    let subject = *b.subject;
                    assert(self@ == Val::Builtin(b.kind, Box::new(subject@)));
                    assert(subject@ is Str <==> subject is String);
                    assert(subject@ is Record <==> subject is Record);
                    assert(subject@ is List <==> subject is List);
                }
                let fit = match (b.kind, &*b.subject) {
                    (BuiltinKind::StringLen, Value::String(_)) => true,
                    (BuiltinKind::MapContains, Value::Record(_)) => true,
                    (BuiltinKind::MapGet, Value::Record(_)) => true,
                    (BuiltinKind::ListContains, Value::List(_)) => true,
                    _ => false,
                };
                fit && b.subject.is_well_formed()
            },
        }
    }
}

} // verus!
