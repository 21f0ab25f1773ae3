//! The total order on values by which sets and records are kept.

use vstd::prelude::*;
use vstd::string::StringSliceAdditionalSpecFns;
use crate::value::{lemma_model_of_entries, lemma_model_of_items, pair_views, views, Val, Value};

verus! {

/// The outcome of comparing two values.
#[derive(Clone, Copy, Debug, PartialEq, Eq, Structural)]
pub enum Order {
    Less,
    Equal,
    Greater,
}

/// The rank of a value's kind: values of different kinds order by it.
pub open spec fn rank(v: Val) -> int {
    match v {
        Val::Bool(_) => 0,
        Val::Int(_) => 1,
        Val::Str(_) => 2,
        Val::List(_) => 3,
        Val::SetOf(_) => 4,
        Val::Record(_) => 5,
        Val::Builtin(_, _) => 6,
    }
}

pub open spec fn order_of_ints(a: int, b: int) -> Order {
    if a < b {
        Order::Less
    } else if a == b {
        Order::Equal
    } else {
        Order::Greater
    }
}

/// Lexicographic order of two byte strings, from position `i` on.
pub open spec fn order_of_bytes(a: Seq<u8>, b: Seq<u8>, i: int) -> Order
    decreases a.len() - i,
{
    if i >= a.len() || i < 0 {
        if i >= b.len() { Order::Equal } else { Order::Less }
    } else if i >= b.len() {
        Order::Greater
    } else if a[i] != b[i] {
        order_of_ints(a[i] as int, b[i] as int)
    } else {
        order_of_bytes(a, b, i + 1)
    }
}

/// How `a` stands to `b`: by kind first, then booleans with `false` first,
/// integers by size, strings by their bytes, lists, sets and records
/// lexicographically by their items. No builtin equals any builtin.
pub open spec fn order_of(a: Val, b: Val) -> Order
    decreases a, 0nat,
{
    match (a, b) {
        (Val::Bool(x), Val::Bool(y)) => order_of_ints(if x { 1 } else { 0 }, if y { 1 } else { 0 }),
        (Val::Int(x), Val::Int(y)) => order_of_ints(x, y),
        (Val::Str(x), Val::Str(y)) => order_of_bytes(
            vstd::utf8::encode_utf8(x),
            vstd::utf8::encode_utf8(y),
            0,
        ),
        (Val::List(xs), Val::List(ys)) => order_of_items(xs, ys, 0),
        (Val::SetOf(xs), Val::SetOf(ys)) => order_of_items(xs, ys, 0),
        (Val::Record(xs), Val::Record(ys)) => order_of_entries(xs, ys, 0),
        (Val::Builtin(_, _), Val::Builtin(_, _)) => Order::Less,
        _ => order_of_ints(rank(a), rank(b)),
    }
}

/// Lexicographic order of two sequences of values, from position `i` on.
pub open spec fn order_of_items(xs: Seq<Val>, ys: Seq<Val>, i: int) -> Order
    decreases xs, xs.len() - i,
{
    if i >= xs.len() || i < 0 {
        if i >= ys.len() { Order::Equal } else { Order::Less }
    } else if i >= ys.len() {
        Order::Greater
    } else {
        match order_of(xs[i], ys[i]) {
            Order::Equal => order_of_items(xs, ys, i + 1),
            other => other,
        }
    }
}

/// Lexicographic order of two sequences of entries, from position `i` on;
/// within an entry the key counts before the value.
pub open spec fn order_of_entries(xs: Seq<(Val, Val)>, ys: Seq<(Val, Val)>, i: int) -> Order
    decreases xs, xs.len() - i,
{
    if i >= xs.len() || i < 0 {
        if i >= ys.len() { Order::Equal } else { Order::Less }
    } else if i >= ys.len() {
        Order::Greater
    } else {
        match order_of(xs[i].0, ys[i].0) {
            Order::Equal => match order_of(xs[i].1, ys[i].1) {
                Order::Equal => order_of_entries(xs, ys, i + 1),
                other => other,
            },
            other => other,
        }
    }
}

fn compare_ints(a: i64, b: i64) -> (r: Order)
    ensures
        r == order_of_ints(a as int, b as int),
{
    if a < b {
        Order::Less
    } else if a == b {
        Order::Equal
    } else {
        Order::Greater
    }
}

fn compare_bytes(a: &[u8], b: &[u8]) -> (r: Order)
    ensures
        r == order_of_bytes(a@, b@, 0),
{
    let mut i: usize = 0;
    while i < a.len() && i < b.len() && a[i] == b[i]
        invariant
            i <= a.len(),
            i <= b.len(),
            order_of_bytes(a@, b@, 0) == order_of_bytes(a@, b@, i as int),
        decreases a.len() - i,
    {
        i += 1;
    }
    if i >= a.len() {
        if i >= b.len() {
            Order::Equal
        } else {
            Order::Less
        }
    } else if i >= b.len() {
        Order::Greater
    } else {
        compare_ints(a[i] as i64, b[i] as i64)
    }
}

fn rank_of(v: &Value) -> (r: i64)
    ensures
        r == rank(v@),
{
    match v {
        Value::Bool(_) => 0,
        Value::Int(_) => 1,
        Value::String(_) => 2,
        Value::List(_) => 3,
        Value::SetOf(_) => 4,
        Value::Record(_) => 5,
        Value::Builtin(_) => 6,
    }
}

/// Compares two values in the order by which sets and records are kept.
pub fn compare(a: &Value, b: &Value) -> (r: Order)
    ensures
        r == order_of(a@, b@),
    decreases *a, 0nat,
{
    match (a, b) {
        (Value::Bool(x), Value::Bool(y)) => compare_ints(if *x { 1 } else { 0 }, if *y { 1 } else { 0 }),
        (Value::Int(x), Value::Int(y)) => compare_ints(*x, *y),
        (Value::String(x), Value::String(y)) => compare_bytes(
            x.as_str().as_bytes(),
            y.as_str().as_bytes(),
        ),
        (Value::List(xs), Value::List(ys)) => {
            proof {
                lemma_model_of_items(*xs);
                lemma_model_of_items(*ys);
            }
            compare_items(xs, ys, 0)
        },
        (Value::SetOf(xs), Value::SetOf(ys)) => {
            proof {
                lemma_model_of_items(*xs);
                lemma_model_of_items(*ys);
            }
            compare_items(xs, ys, 0)
        },
        (Value::Record(xs), Value::Record(ys)) => {
            proof {
                lemma_model_of_entries(*xs);
                lemma_model_of_entries(*ys);
            }
            compare_entries(xs, ys, 0)
        },
        (Value::Builtin(_), Value::Builtin(_)) => Order::Less,
        _ => compare_ints(rank_of(a), rank_of(b)),
    }
}

fn compare_items(xs: &Vec<Value>, ys: &Vec<Value>, i: usize) -> (r: Order)
    ensures
        r == order_of_items(views(xs@), views(ys@), i as int),
    decreases *xs, xs.len() - i,
{
    if i >= xs.len() {
        if i >= ys.len() {
            Order::Equal
        } else {
            Order::Less
        }
    } else if i >= ys.len() {
        Order::Greater
    } else {
        match compare(&xs[i], &ys[i]) {
            Order::Equal => compare_items(xs, ys, i + 1),
            other => other,
        }
    }
}

fn compare_entries(xs: &Vec<(Value, Value)>, ys: &Vec<(Value, Value)>, i: usize) -> (r: Order)
    ensures
        r == order_of_entries(pair_views(xs@), pair_views(ys@), i as int),
    decreases *xs, xs.len() - i,
{
    if i >= xs.len() {
        if i >= ys.len() {
            Order::Equal
        } else {
            Order::Less
        }
    } else if i >= ys.len() {
        Order::Greater
    } else {
        match compare(&xs[i].0, &ys[i].0) {
            Order::Equal => match compare(&xs[i].1, &ys[i].1) {
                Order::Equal => compare_entries(xs, ys, i + 1),
                other => other,
            },
            other => other,
        }
    }
}

/// Byte strings that compare equal are equal from position `i` on.
pub proof fn lemma_equal_bytes(a: Seq<u8>, b: Seq<u8>, i: int)
    requires
        0 <= i <= a.len(),
        i <= b.len(),
        order_of_bytes(a, b, i) == Order::Equal,
    ensures
        a.len() == b.len(),
        forall|j: int| i <= j < a.len() ==> a[j] == b[j],
    decreases a.len() - i,
{
    if i < a.len() && i < b.len() && a[i] == b[i] {
        lemma_equal_bytes(a, b, i + 1);
    }
}

/// Values that compare equal are the same value.
pub proof fn lemma_equal_is_same(a: Val, b: Val)
    requires
        order_of(a, b) == Order::Equal,
    ensures
        a == b,
    decreases a, 0nat,
{
    match (a, b) {
        (Val::Str(x), Val::Str(y)) => {
            let ex = vstd::utf8::encode_utf8(x);
            let ey = vstd::utf8::encode_utf8(y);
            lemma_equal_bytes(ex, ey, 0);
            assert(ex =~= ey);
            vstd::utf8::encode_utf8_decode_utf8(x);
            vstd::utf8::encode_utf8_decode_utf8(y);
        },
        (Val::List(xs), Val::List(ys)) => {
            lemma_equal_items(xs, ys, 0);
            assert(xs =~= ys);
        },
        (Val::SetOf(xs), Val::SetOf(ys)) => {
            lemma_equal_items(xs, ys, 0);
            assert(xs =~= ys);
        },
        (Val::Record(xs), Val::Record(ys)) => {
            lemma_equal_entries(xs, ys, 0);
            assert(xs =~= ys);
        },
        _ => {},
    }
}

/// Sequences of values that compare equal are the same from position `i` on.
pub proof fn lemma_equal_items(xs: Seq<Val>, ys: Seq<Val>, i: int)
    requires
        0 <= i <= xs.len(),
        i <= ys.len(),
        order_of_items(xs, ys, i) == Order::Equal,
    ensures
        xs.len() == ys.len(),
        forall|j: int| i <= j < xs.len() ==> xs[j] == ys[j],
    decreases xs, xs.len() - i,
{
    if i < xs.len() && i < ys.len() {
        lemma_equal_is_same(xs[i], ys[i]);
        lemma_equal_items(xs, ys, i + 1);
    }
}

/// Sequences of entries that compare equal are the same from position `i` on.
pub proof fn lemma_equal_entries(xs: Seq<(Val, Val)>, ys: Seq<(Val, Val)>, i: int)
    requires
        0 <= i <= xs.len(),
        i <= ys.len(),
        order_of_entries(xs, ys, i) == Order::Equal,
    ensures
        xs.len() == ys.len(),
        forall|j: int| i <= j < xs.len() ==> xs[j] == ys[j],
    decreases xs, xs.len() - i,
{
    if i < xs.len() && i < ys.len() {
        lemma_equal_is_same(xs[i].0, ys[i].0);
        lemma_equal_is_same(xs[i].1, ys[i].1);
        lemma_equal_entries(xs, ys, i + 1);
    }
}

/// `a` after `b` means `b` before `a`, for byte strings.
pub proof fn lemma_swap_bytes(a: Seq<u8>, b: Seq<u8>, i: int)
    requires
        0 <= i,
        order_of_bytes(a, b, i) == Order::Greater,
    ensures
        order_of_bytes(b, a, i) == Order::Less,
    decreases a.len() - i,
{
    if i < a.len() && i < b.len() && a[i] == b[i] {
        lemma_swap_bytes(a, b, i + 1);
    }
}

/// Where `a` stands after `b`, `b` stands before `a`.
pub proof fn lemma_swap(a: Val, b: Val)
    requires
        order_of(a, b) == Order::Greater,
    ensures
        order_of(b, a) == Order::Less,
    decreases a, 0nat,
{
    match (a, b) {
        (Val::Str(x), Val::Str(y)) => {
            lemma_swap_bytes(vstd::utf8::encode_utf8(x), vstd::utf8::encode_utf8(y), 0);
        },
        (Val::List(xs), Val::List(ys)) => {
            lemma_swap_items(xs, ys, 0);
        },
        (Val::SetOf(xs), Val::SetOf(ys)) => {
            lemma_swap_items(xs, ys, 0);
        },
        (Val::Record(xs), Val::Record(ys)) => {
            lemma_swap_entries(xs, ys, 0);
        },
        _ => {},
    }
}

/// Where `xs` stands after `ys` from position `i` on, `ys` stands before `xs`.
pub proof fn lemma_swap_items(xs: Seq<Val>, ys: Seq<Val>, i: int)
    requires
        0 <= i,
        order_of_items(xs, ys, i) == Order::Greater,
    ensures
        order_of_items(ys, xs, i) == Order::Less,
    decreases xs, xs.len() - i,
{
    if i < xs.len() && i < ys.len() {
        match order_of(xs[i], ys[i]) {
            Order::Equal => {
                lemma_equal_is_same(xs[i], ys[i]);
                lemma_swap_items(xs, ys, i + 1);
            },
            Order::Greater => {
                lemma_swap(xs[i], ys[i]);
            },
            Order::Less => {},
        }
    }
}

/// Where `xs` stands after `ys` from position `i` on, `ys` stands before `xs`.
pub proof fn lemma_swap_entries(xs: Seq<(Val, Val)>, ys: Seq<(Val, Val)>, i: int)
    requires
        0 <= i,
        order_of_entries(xs, ys, i) == Order::Greater,
    ensures
        order_of_entries(ys, xs, i) == Order::Less,
    decreases xs, xs.len() - i,
{
    if i < xs.len() && i < ys.len() {
        match order_of(xs[i].0, ys[i].0) {
            Order::Equal => {
                lemma_equal_is_same(xs[i].0, ys[i].0);
                match order_of(xs[i].1, ys[i].1) {
                    Order::Equal => {
                        lemma_equal_is_same(xs[i].1, ys[i].1);
                        lemma_swap_entries(xs, ys, i + 1);
                    },
                    Order::Greater => {
                        lemma_swap(xs[i].1, ys[i].1);
                    },
                    Order::Less => {},
                }
            },
            Order::Greater => {
                lemma_swap(xs[i].0, ys[i].0);
            },
            Order::Less => {},
        }
    }
}

/// Whether no builtin occurs in `v`.
pub open spec fn plain(v: Val) -> bool
    decreases v,
{
    match v {
        Val::List(xs) => forall|i: int| 0 <= i < xs.len() ==> plain(#[trigger] xs[i]),
        Val::SetOf(xs) => forall|i: int| 0 <= i < xs.len() ==> plain(#[trigger] xs[i]),
        Val::Record(xs) => forall|i: int|
            0 <= i < xs.len() ==> plain((#[trigger] xs[i]).0) && plain(xs[i].1),
        Val::Builtin(_, _) => false,
        _ => true,
    }
}

proof fn lemma_same_bytes(a: Seq<u8>, i: int)
    requires
        0 <= i,
    ensures
        order_of_bytes(a, a, i) == Order::Equal,
    decreases a.len() - i,
{
    if i < a.len() {
        lemma_same_bytes(a, i + 1);
    }
}

/// A value without builtins equals itself.
pub proof fn lemma_reflexive(a: Val)
    requires
        plain(a),
    ensures
        order_of(a, a) == Order::Equal,
    decreases a, 0nat,
{
    match a {
        Val::Str(x) => {
            lemma_same_bytes(vstd::utf8::encode_utf8(x), 0);
        },
        Val::List(xs) => {
            lemma_reflexive_items(xs, 0);
        },
        Val::SetOf(xs) => {
            lemma_reflexive_items(xs, 0);
        },
        Val::Record(xs) => {
            lemma_reflexive_entries(xs, 0);
        },
        _ => {},
    }
}

proof fn lemma_reflexive_items(xs: Seq<Val>, i: int)
    requires
        0 <= i,
        forall|j: int| 0 <= j < xs.len() ==> plain(#[trigger] xs[j]),
    ensures
        order_of_items(xs, xs, i) == Order::Equal,
    decreases xs, xs.len() - i,
{
    if i < xs.len() {
        assert(plain(xs[i]));
        lemma_reflexive(xs[i]);
        lemma_reflexive_items(xs, i + 1);
    }
}

proof fn lemma_reflexive_entries(xs: Seq<(Val, Val)>, i: int)
    requires
        0 <= i,
        forall|j: int| 0 <= j < xs.len() ==> plain((#[trigger] xs[j]).0) && plain(xs[j].1),
    ensures
        order_of_entries(xs, xs, i) == Order::Equal,
    decreases xs, xs.len() - i,
{
    if i < xs.len() {
        assert(plain(xs[i].0) && plain(xs[i].1));
        lemma_reflexive(xs[i].0);
        lemma_reflexive(xs[i].1);
        lemma_reflexive_entries(xs, i + 1);
    }
}

proof fn lemma_transitive_bytes(a: Seq<u8>, b: Seq<u8>, c: Seq<u8>, i: int)
    requires
        0 <= i,
        order_of_bytes(a, b, i) == Order::Less,
        order_of_bytes(b, c, i) == Order::Less,
    ensures
        order_of_bytes(a, c, i) == Order::Less,
    decreases a.len() - i,
{
    if i < a.len() && i < b.len() && i < c.len() && a[i] == b[i] && b[i] == c[i] {
        lemma_transitive_bytes(a, b, c, i + 1);
    }
}

/// What stands before a value stands before everything after that value.
pub proof fn lemma_transitive(a: Val, b: Val, c: Val)
    requires
        order_of(a, b) == Order::Less,
        order_of(b, c) == Order::Less,
    ensures
        order_of(a, c) == Order::Less,
    decreases a, 0nat,
{
    match (a, b, c) {
        (Val::Str(x), Val::Str(y), Val::Str(z)) => {
            lemma_transitive_bytes(
                vstd::utf8::encode_utf8(x),
                vstd::utf8::encode_utf8(y),
                vstd::utf8::encode_utf8(z),
                0,
            );
        },
        (Val::List(xs), Val::List(ys), Val::List(zs)) => {
            lemma_transitive_items(xs, ys, zs, 0);
        },
        (Val::SetOf(xs), Val::SetOf(ys), Val::SetOf(zs)) => {
            lemma_transitive_items(xs, ys, zs, 0);
        },
        (Val::Record(xs), Val::Record(ys), Val::Record(zs)) => {
            lemma_transitive_entries(xs, ys, zs, 0);
        },
        _ => {},
    }
}

proof fn lemma_transitive_items(xs: Seq<Val>, ys: Seq<Val>, zs: Seq<Val>, i: int)
    requires
        0 <= i,
        order_of_items(xs, ys, i) == Order::Less,
        order_of_items(ys, zs, i) == Order::Less,
    ensures
        order_of_items(xs, zs, i) == Order::Less,
    decreases xs, xs.len() - i,
{
    if i < xs.len() && i < ys.len() && i < zs.len() {
        let e1 = order_of(xs[i], ys[i]);
        let e2 = order_of(ys[i], zs[i]);
        if e1 == Order::Equal {
            lemma_equal_is_same(xs[i], ys[i]);
        }
        if e2 == Order::Equal {
            lemma_equal_is_same(ys[i], zs[i]);
        }
        if e1 == Order::Less && e2 == Order::Less {
            lemma_transitive(xs[i], ys[i], zs[i]);
        }
        if e1 == Order::Equal && e2 == Order::Equal {
            lemma_transitive_items(xs, ys, zs, i + 1);
        }
    }
}

proof fn lemma_transitive_pair(a: Val, b: Val, c: Val)
    requires
        order_of(a, b) != Order::Greater,
        order_of(b, c) != Order::Greater,
    ensures
        order_of(a, c) != Order::Greater,
        order_of(a, c) == Order::Equal ==> order_of(a, b) == Order::Equal && order_of(b, c)
            == Order::Equal,
    decreases a, 1nat,
{
    let e1 = order_of(a, b);
    let e2 = order_of(b, c);
    if e1 == Order::Equal {
        lemma_equal_is_same(a, b);
    }
    if e2 == Order::Equal {
        lemma_equal_is_same(b, c);
    }
    if e1 == Order::Less && e2 == Order::Less {
        lemma_transitive(a, b, c);
    }
}

proof fn lemma_transitive_entries(
    xs: Seq<(Val, Val)>,
    ys: Seq<(Val, Val)>,
    zs: Seq<(Val, Val)>,
    i: int,
)
    requires
        0 <= i,
        order_of_entries(xs, ys, i) == Order::Less,
        order_of_entries(ys, zs, i) == Order::Less,
    ensures
        order_of_entries(xs, zs, i) == Order::Less,
    decreases xs, xs.len() - i,
{
    if i < xs.len() && i < ys.len() && i < zs.len() {
        lemma_transitive_pair(xs[i].0, ys[i].0, zs[i].0);
        if order_of(xs[i].0, zs[i].0) == Order::Equal {
            lemma_transitive_pair(xs[i].1, ys[i].1, zs[i].1);
            if order_of(xs[i].1, zs[i].1) == Order::Equal {
                lemma_transitive_entries(xs, ys, zs, i + 1);
            }
        }
    }
}

} // verus!
