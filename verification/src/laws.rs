//! Laws of union, of binding, of conditionals and of the shape of literals,
//! proved of every input.

use vstd::prelude::*;
use crate::ast::{BinOp, Span};
use crate::order::{order_of, Order};
use crate::collection::{
    all_plain, lemma_ascending_throughout, lemma_record_get_is_membership, lemma_set_rebuilt, lemma_set_extend_commutes, ascending, keys_ascending, lemma_record_extend_ascending, lemma_record_rebuilt,
    lemma_record_extend_get, lemma_set_extend_ascending, lemma_set_extend_members, record_extend,
    record_get, set_extend,
};
use crate::ast::{BuiltinKind, Error, Expr, Shape};
use crate::seq_out::{pair_slot, scalar_slot, Gathered};
use crate::builtin::call_spec;
use crate::env::lookup_in;
use crate::eval::{eval_spec, Scope};
use crate::ops::binop_spec;
use crate::value::Val;

verus! {

/// The union of a record with the empty record is that record.
pub proof fn law_record_union_empty_right(m: Seq<(Val, Val)>, span: Span)
    ensures
        binop_spec(BinOp::Union, span, Val::Record(m), Val::Record(Seq::empty())) == Ok::<
            Val,
            Error,
        >(Val::Record(m)),
{
}

/// The union of the empty record with a record whose keys ascend is that
/// record.
pub proof fn law_record_union_empty_left(m: Seq<(Val, Val)>, span: Span)
    requires
        keys_ascending(m),
    ensures
        binop_spec(BinOp::Union, span, Val::Record(Seq::empty()), Val::Record(m)) == Ok::<
            Val,
            Error,
        >(Val::Record(m)),
{
    lemma_record_rebuilt(m);
}

/// The union of two records whose left one has ascending keys has ascending
/// keys: no key occurs twice in it.
pub proof fn law_record_union_ascending(m: Seq<(Val, Val)>, n: Seq<(Val, Val)>, span: Span)
    requires
        keys_ascending(m),
    ensures
        binop_spec(BinOp::Union, span, Val::Record(m), Val::Record(n)) matches Ok(Val::Record(u))
            && keys_ascending(u),
{
    lemma_record_extend_ascending(m, n);
}

/// In the union of two records a key is bound to what the right record binds
/// it to, and to what the left one does where the right one has no such key;
/// so the union has the keys of both, and no others.
pub proof fn law_record_union_right_biased(
    m: Seq<(Val, Val)>,
    n: Seq<(Val, Val)>,
    span: Span,
    key: Val,
)
    ensures
        binop_spec(BinOp::Union, span, Val::Record(m), Val::Record(n)) == Ok::<
            Val,
            Error,
        >(Val::Record(record_extend(m, n))),
        record_get(record_extend(m, n), key) == match record_get(n, key) {
            Some(v) => Some(v),
            None => record_get(m, key),
        },
        record_get(record_extend(m, n), key) is Some <==> record_get(m, key) is Some
            || record_get(n, key) is Some,
{
    lemma_record_extend_get(m, n, key);
}

/// The union of two sets holds the members of both and nothing else, whichever
/// of the two stands left. Where the left one ascends, so does the union, and
/// then no member of it equals another. Where both ascend and hold no
/// builtin, the union is the same whichever stands left.
pub proof fn law_set_union(s: Seq<Val>, t: Seq<Val>, span: Span)
    ensures
        binop_spec(BinOp::Union, span, Val::SetOf(s), Val::SetOf(t)) == Ok::<
            Val,
            Error,
        >(Val::SetOf(set_extend(s, t))),
        set_extend(s, t).to_set() == s.to_set().union(t.to_set()),
        set_extend(s, t).to_set() == set_extend(t, s).to_set(),
        ascending(s) ==> ascending(set_extend(s, t)),
        ascending(s) ==> forall|i: int, j: int|
            0 <= i < j < set_extend(s, t).len() ==> order_of(
                #[trigger] set_extend(s, t)[i],
                #[trigger] set_extend(s, t)[j],
            ) == Order::Less,
        ascending(s) && ascending(t) && all_plain(s) && all_plain(t) ==> set_extend(s, t)
            == set_extend(t, s),
{
    lemma_set_extend_members(s, t);
    lemma_set_extend_members(t, s);
    assert(set_extend(s, t).to_set() =~= s.to_set().union(t.to_set()));
    assert(set_extend(t, s).to_set() =~= s.to_set().union(t.to_set()));
    if ascending(s) {
        lemma_set_extend_ascending(s, t);
        let u = set_extend(s, t);
        assert forall|i: int, j: int| 0 <= i < j < u.len() implies order_of(
            #[trigger] u[i],
            #[trigger] u[j],
        ) == Order::Less by {
            lemma_ascending_throughout(u, i, j);
        }
        if ascending(t) && all_plain(s) && all_plain(t) {
            lemma_set_extend_commutes(s, t);
        }
    }
}

/// The union of a set with the empty set is that set, and so is the union of
/// the empty set with it where it ascends.
pub proof fn law_set_union_empty(s: Seq<Val>, span: Span)
    ensures
        binop_spec(BinOp::Union, span, Val::SetOf(s), Val::SetOf(Seq::empty())) == Ok::<
            Val,
            Error,
        >(Val::SetOf(s)),
        ascending(s) ==> binop_spec(BinOp::Union, span, Val::SetOf(Seq::empty()), Val::SetOf(s))
            == Ok::<Val, Error>(Val::SetOf(s)),
{
    if ascending(s) {
        lemma_set_rebuilt(s);
    }
}

/// The union of a set with a list holds the members of the set and the items
/// of the list and nothing else; where the set ascends, so does the union.
pub proof fn law_set_union_list(s: Seq<Val>, items: Seq<Val>, span: Span)
    ensures
        binop_spec(BinOp::Union, span, Val::SetOf(s), Val::List(items)) == Ok::<
            Val,
            Error,
        >(Val::SetOf(set_extend(s, items))),
        set_extend(s, items).to_set() == s.to_set().union(items.to_set()),
        ascending(s) ==> ascending(set_extend(s, items)),
{
    lemma_set_extend_members(s, items);
    assert(set_extend(s, items).to_set() =~= s.to_set().union(items.to_set()));
    if ascending(s) {
        lemma_set_extend_ascending(s, items);
    }
}

/// A conditional whose condition is false is its else-branch, whatever the
/// then-branch would give; one whose condition is true is its then-branch.
pub proof fn law_conditional_takes_one_branch(env: Scope, condition: Expr, yes: Expr, no: Expr)
    ensures
        eval_spec(env, condition) == Ok::<Val, Error>(Val::Bool(false)) ==> eval_spec(
            env,
            Expr::IfThenElse(Box::new(condition), Box::new(yes), Box::new(no)),
        ) == eval_spec(env, no),
        eval_spec(env, condition) == Ok::<Val, Error>(Val::Bool(true)) ==> eval_spec(
            env,
            Expr::IfThenElse(Box::new(condition), Box::new(yes), Box::new(no)),
        ) == eval_spec(env, yes),
{
}

/// The innermost binding of a name hides the outer ones, and a binding of
/// one name hides no other name.
pub proof fn law_innermost_binding_wins(env: Scope, name: Seq<char>, v: Val, other: Seq<char>)
    ensures
        lookup_in(env.push((name, v)), name) == Some(v),
        other != name ==> lookup_in(env.push((name, v)), other) == lookup_in(env, other),
{
    let inner = env.push((name, v));
    assert(inner[inner.len() - 1] == (name, v));
    if other != name {
        lemma_binding_index_prefix(inner, env, other, env.len() as int);
    }
}

proof fn lemma_binding_index_prefix(a: Scope, b: Scope, name: Seq<char>, i: int)
    requires
        0 <= i <= a.len(),
        i <= b.len(),
        forall|j: int| 0 <= j < i ==> a[j] == b[j],
    ensures
        crate::env::binding_index(a, name, i) == crate::env::binding_index(b, name, i),
        crate::env::binding_index(a, name, i) < i,
    decreases i,
{
    if i > 0 {
        lemma_binding_index_prefix(a, b, name, i - 1);
    }
}

/// A `let` evaluates its body with the name bound to the value of the bound
/// expression, which is itself evaluated without that binding.
pub proof fn law_let_binds_in_body_only(
    env: Scope,
    name: String,
    value: Expr,
    body: Expr,
    v: Val,
)
    requires
        eval_spec(env, value) == Ok::<Val, Error>(v),
    ensures
        eval_spec(env, Expr::Let { ident: name, value: Box::new(value), body: Box::new(body) })
            == eval_spec(env.push((name@, v)), body),
{
}

/// A brace literal without clauses is the empty set.
pub proof fn law_empty_braces_are_a_set(env: Scope, clauses: Vec<crate::ast::Clause>)
    requires
        clauses@.len() == 0,
    ensures
        eval_spec(env, Expr::BraceLit(clauses)) == Ok::<Val, Error>(Val::SetOf(Seq::empty())),
{
    assert(crate::eval::clauses_spec(env, clauses, 0, Gathered::SetOrRecord) == Ok::<
        Gathered,
        Error,
    >(Gathered::SetOrRecord));
}

/// `contains` of a record says whether one of its keys equals the argument,
/// and `get` gives the default exactly where none does.
pub proof fn law_record_builtins_go_by_keys(m: Seq<(Val, Val)>, key: Val, default: Val)
    ensures
        call_spec(BuiltinKind::MapContains, Val::Record(m), seq![key]) == Ok::<Val, Error>(
            Val::Bool(
                exists|i: int| 0 <= i < m.len() && order_of(#[trigger] m[i].0, key) == Order::Equal,
            ),
        ),
        !(exists|i: int| 0 <= i < m.len() && order_of(#[trigger] m[i].0, key) == Order::Equal)
            ==> call_spec(BuiltinKind::MapGet, Val::Record(m), seq![key, default]) == Ok::<
            Val,
            Error,
        >(default),
{
    lemma_record_get_is_membership(m, key);
}

/// The first element that a brace literal takes decides its shape, and
/// every later element of the other shape is refused with that first
/// element as evidence, however many elements were taken in between. A list
/// literal refuses a pair without evidence.
pub proof fn law_first_element_decides(
    first: Span,
    later: Span,
    values: Seq<Val>,
    entries: Seq<(Val, Val)>,
)
    ensures
        scalar_slot(Gathered::SetOrRecord, first) == Ok::<Gathered, Error>(
            Gathered::SetOf(first, Seq::empty()),
        ),
        pair_slot(Gathered::SetOrRecord, first) == Ok::<Gathered, Error>(
            Gathered::Record(first, Seq::empty()),
        ),
        pair_slot(Gathered::SetOf(first, values), later) == Err::<Gathered, Error>(
            Error::ShapeConflict { at: later, expected: Shape::Scalar, evidence: Some(first) },
        ),
        scalar_slot(Gathered::Record(first, entries), later) == Err::<Gathered, Error>(
            Error::ShapeConflict { at: later, expected: Shape::KeyValue, evidence: Some(first) },
        ),
        pair_slot(Gathered::List(values), later) == Err::<Gathered, Error>(
            Error::ShapeConflict { at: later, expected: Shape::Scalar, evidence: None },
        ),
        scalar_slot(Gathered::SetOf(first, values), later) == Ok::<Gathered, Error>(
            Gathered::SetOf(first, values),
        ),
        pair_slot(Gathered::Record(first, entries), later) == Ok::<Gathered, Error>(
            Gathered::Record(first, entries),
        ),
{
}

} // verus!
