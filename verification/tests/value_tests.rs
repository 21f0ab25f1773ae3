use rcl::ast::{BinOp, BuiltinKind, Error, Mismatch, Span, UnOp};
use rcl::builtin::{
    builtin_list_contains, builtin_map_contains, builtin_map_get, builtin_string_len, eval_field,
};
use rcl::collection::{contains_item, extend_record, extend_set, get_entry, insert_value, put_entry};
use rcl::ops::{eval_binop, eval_unop};
use rcl::order::{compare, Order};
use rcl::seq_out::SeqOut;
use rcl::value::{duplicate_entries, duplicate_items, Builtin, Value};

fn i(n: i64) -> Value {
    Value::Int(n)
}

fn s(t: &str) -> Value {
    Value::String(t.to_string())
}

fn eq(a: &Value, b: &Value) -> bool {
    compare(a, b) == Order::Equal
}

#[test]
fn kinds_order_by_rank() {
    let builtin = Value::Builtin(builtin_string_len("x"));
    let ladder = vec![
        Value::Bool(true),
        i(-100),
        s(""),
        Value::List(vec![]),
        Value::SetOf(vec![]),
        Value::Record(vec![]),
        builtin,
    ];
    for a in 0..ladder.len() {
        for b in 0..ladder.len() {
            if a < b {
                assert_eq!(compare(&ladder[a], &ladder[b]), Order::Less);
                assert_eq!(compare(&ladder[b], &ladder[a]), Order::Greater);
            }
        }
    }
}

#[test]
fn values_order_within_a_kind() {
    assert_eq!(compare(&Value::Bool(false), &Value::Bool(true)), Order::Less);
    assert_eq!(compare(&Value::Bool(true), &Value::Bool(true)), Order::Equal);
    assert_eq!(compare(&i(2), &i(-3)), Order::Greater);
    assert_eq!(compare(&s("a"), &s("ab")), Order::Less);
    assert_eq!(compare(&s("b"), &s("ab")), Order::Greater);
    assert_eq!(compare(&s("ab"), &s("ab")), Order::Equal);
    assert_eq!(compare(&s("z"), &s("\u{e9}")), Order::Less);
    let l = |xs: Vec<i64>| Value::List(xs.into_iter().map(i).collect());
    assert_eq!(compare(&l(vec![1, 2]), &l(vec![1, 2, 0])), Order::Less);
    assert_eq!(compare(&l(vec![1, 3]), &l(vec![1, 2, 0])), Order::Greater);
    assert_eq!(compare(&l(vec![1, 2]), &l(vec![1, 2])), Order::Equal);
    let r = |k: &str, v: i64| Value::Record(vec![(s(k), i(v))]);
    assert_eq!(compare(&r("a", 2), &r("b", 1)), Order::Less);
    assert_eq!(compare(&r("a", 2), &r("a", 1)), Order::Greater);
    assert_eq!(compare(&r("a", 2), &r("a", 2)), Order::Equal);
}

#[test]
fn builtins_never_compare_equal() {
    let a = Value::Builtin(builtin_string_len("x"));
    let b = Value::Builtin(builtin_string_len("x"));
    assert_eq!(compare(&a, &b), Order::Less);
    assert_eq!(compare(&b, &a), Order::Less);
    let mut set = vec![i(1)];
    insert_value(&mut set, a);
    insert_value(&mut set, b);
    assert_eq!(set.len(), 3);
    assert!(eq(&set[0], &i(1)));
}

#[test]
fn duplicate_gives_an_equal_value() {
    let v = Value::Record(vec![
        (s("k"), Value::List(vec![i(1), Value::SetOf(vec![s("x")])])),
        (s("l"), Value::Bool(true)),
    ]);
    assert!(eq(&v.duplicate(), &v));
    let items = vec![i(1), s("a")];
    let copy = duplicate_items(&items);
    assert_eq!(copy.len(), 2);
    assert!(eq(&copy[0], &i(1)) && eq(&copy[1], &s("a")));
    let entries = vec![(i(1), s("a"))];
    let copy = duplicate_entries(&entries);
    assert!(eq(&copy[0].0, &i(1)) && eq(&copy[0].1, &s("a")));
    let b = Value::Builtin(builtin_map_get(&v)).duplicate();
    assert!(matches!(b, Value::Builtin(Builtin { kind: BuiltinKind::MapGet, subject }) if eq(&subject, &v)));
}

#[test]
fn insert_value_keeps_the_set_ascending() {
    let mut xs: Vec<Value> = Vec::new();
    for n in [5, 1, 3, 1, 9, 5, 0] {
        insert_value(&mut xs, i(n));
    }
    assert!(eq(&Value::List(xs), &Value::List(vec![i(0), i(1), i(3), i(5), i(9)])));
}

#[test]
fn extend_set_adds_each_item() {
    let mut xs = vec![i(2), i(4)];
    extend_set(&mut xs, &vec![i(4), i(3), i(1), i(3)]);
    assert!(eq(&Value::List(xs), &Value::List(vec![i(1), i(2), i(3), i(4)])));
}

#[test]
fn put_entry_overwrites_and_inserts() {
    let mut m: Vec<(Value, Value)> = Vec::new();
    put_entry(&mut m, s("b"), i(1));
    put_entry(&mut m, s("a"), i(2));
    put_entry(&mut m, s("c"), i(3));
    put_entry(&mut m, s("b"), i(4));
    let expected = Value::Record(vec![(s("a"), i(2)), (s("b"), i(4)), (s("c"), i(3))]);
    assert!(eq(&Value::Record(m), &expected));
}

#[test]
fn extend_record_lets_later_entries_win() {
    let mut m = vec![(s("a"), i(1))];
    extend_record(&mut m, &vec![(s("a"), i(2)), (s("b"), i(3)), (s("a"), i(4))]);
    assert!(eq(&Value::Record(m), &Value::Record(vec![(s("a"), i(4)), (s("b"), i(3))])));
}

#[test]
fn get_entry_and_contains_item() {
    let m = vec![(s("a"), i(1)), (s("b"), i(2))];
    assert!(eq(get_entry(&m, &s("b")).unwrap(), &i(2)));
    assert!(get_entry(&m, &s("c")).is_none());
    assert!(get_entry(&m, &i(1)).is_none());
    let xs = vec![i(1), s("x")];
    assert!(contains_item(&xs, &s("x")));
    assert!(!contains_item(&xs, &s("y")));
    assert!(!contains_item(&Vec::new(), &i(1)));
}

#[test]
fn operators_on_values() {
    assert!(eq(&eval_unop(UnOp::Neg, Value::Bool(true)).unwrap(), &Value::Bool(false)));
    assert_eq!(
        eval_unop(UnOp::Neg, s("x")).unwrap_err(),
        Error::TypeMismatch(Mismatch::UnaryOperand)
    );
    let span = Span { start: 3, len: 2 };
    assert!(eq(&eval_binop(BinOp::Add, span, i(40), i(2)).unwrap(), &i(42)));
    assert!(eq(&eval_binop(BinOp::Mul, span, i(i64::MAX), i(1)).unwrap(), &i(i64::MAX)));
    assert_eq!(
        eval_binop(BinOp::Add, span, i(i64::MIN), i(-1)).unwrap_err(),
        Error::Overflow { op: BinOp::Add, span }
    );
    assert_eq!(
        eval_binop(BinOp::Add, span, i(1), Value::Bool(true)).unwrap_err(),
        Error::TypeMismatch(Mismatch::BinaryOperands)
    );
}

#[test]
fn builtins_have_dotted_names() {
    assert_eq!(BuiltinKind::StringLen.name(), "String.len");
    assert_eq!(BuiltinKind::MapContains.name(), "Map.contains");
    assert_eq!(BuiltinKind::MapGet.name(), "Map.get");
    assert_eq!(BuiltinKind::ListContains.name(), "List.contains");
    assert_eq!(BuiltinKind::MapGet.arity(), 2);
    assert_eq!(BuiltinKind::StringLen.arity(), 0);
}

#[test]
fn builtins_close_over_their_subject() {
    let m = Value::Record(vec![(s("a"), i(1))]);
    let contains = builtin_map_contains(&m);
    assert!(eq(&contains.call(&vec![s("a")]).unwrap(), &Value::Bool(true)));
    assert!(eq(&contains.call(&vec![i(1)]).unwrap(), &Value::Bool(false)));
    let get = builtin_map_get(&m);
    assert!(eq(&get.call(&vec![s("a"), i(0)]).unwrap(), &i(1)));
    assert!(eq(&get.call(&vec![s("z"), i(0)]).unwrap(), &i(0)));
    let has = builtin_list_contains(&Value::List(vec![i(1), i(2)]));
    assert!(eq(&has.call(&vec![i(2)]).unwrap(), &Value::Bool(true)));
    let len = builtin_string_len("hello");
    assert!(eq(&len.call(&vec![]).unwrap(), &i(5)));
    assert_eq!(len.call(&vec![i(1)]).unwrap_err(), Error::Arity(BuiltinKind::StringLen));
}

#[test]
fn builtin_over_the_wrong_subject_cannot_be_called() {
    let odd = Builtin { kind: BuiltinKind::MapGet, subject: Box::new(i(1)) };
    assert_eq!(odd.call(&vec![i(1), i(2)]).unwrap_err(), Error::NotCallable);
    assert_eq!(odd.call(&vec![]).unwrap_err(), Error::Arity(BuiltinKind::MapGet));
}

#[test]
fn field_resolution_on_values() {
    let name = |t: &str| t.to_string();
    assert!(matches!(
        eval_field(&s("x"), &name("len")).unwrap(),
        Value::Builtin(Builtin { kind: BuiltinKind::StringLen, .. })
    ));
    assert!(matches!(
        eval_field(&Value::List(vec![]), &name("contains")).unwrap(),
        Value::Builtin(Builtin { kind: BuiltinKind::ListContains, .. })
    ));
    let m = Value::Record(vec![(s("k"), i(3))]);
    assert!(eq(&eval_field(&m, &name("k")).unwrap(), &i(3)));
    assert_eq!(eval_field(&m, &name("j")).unwrap_err(), Error::UndefinedField);
    assert_eq!(
        eval_field(&Value::Bool(true), &name("k")).unwrap_err(),
        Error::TypeMismatch(Mismatch::FieldBase)
    );
}

#[test]
fn accumulator_commits_once() {
    let a = Span { start: 1, len: 1 };
    let b = Span { start: 2, len: 1 };
    let mut out = SeqOut::SetOrRecord;
    out.keys_values(a).unwrap();
    out.push_entry(s("k"), i(1));
    out.keys_values(b).unwrap();
    out.push_entry(s("k"), i(2));
    assert!(matches!(&out, SeqOut::Record(first, entries) if *first == a && entries.len() == 2));
    assert_eq!(out.values(b).unwrap_err().evidence(), Some(a));
    assert!(eq(&out.into_brace_value(), &Value::Record(vec![(s("k"), i(2))])));

    let mut list = SeqOut::List(Vec::new());
    list.values(a).unwrap();
    list.push_value(i(2));
    list.values(b).unwrap();
    list.push_value(i(1));
    assert!(list.keys_values(b).is_err());
    assert!(eq(&list.into_bracket_value(), &Value::List(vec![i(2), i(1)])));
}

#[test]
fn record_union_with_empty_record_is_identity() {
    let span = Span { start: 0, len: 1 };
    let m = || Value::Record(vec![(s("a"), i(1)), (s("b"), i(2))]);
    let right = eval_binop(BinOp::Union, span, m(), Value::Record(vec![])).unwrap();
    assert!(eq(&right, &m()));
    let left = eval_binop(BinOp::Union, span, Value::Record(vec![]), m()).unwrap();
    assert!(eq(&left, &m()));
    let both = eval_binop(BinOp::Union, span, Value::Record(vec![]), Value::Record(vec![])).unwrap();
    assert!(matches!(both, Value::Record(ref xs) if xs.is_empty()));
}

#[test]
fn set_union_on_values_is_order_independent() {
    let span = Span { start: 0, len: 1 };
    let a = || Value::SetOf(vec![i(1), i(5), s("x")]);
    let b = || Value::SetOf(vec![Value::Bool(false), i(2), i(5)]);
    let expected = Value::SetOf(vec![Value::Bool(false), i(1), i(2), i(5), s("x")]);
    assert!(eq(&eval_binop(BinOp::Union, span, a(), b()).unwrap(), &expected));
    assert!(eq(&eval_binop(BinOp::Union, span, b(), a()).unwrap(), &expected));
}

#[test]
fn well_formed_values_are_told_apart() {
    assert!(i(1).is_well_formed());
    assert!(Value::SetOf(vec![Value::Bool(false), i(2), i(5)]).is_well_formed());
    assert!(!Value::SetOf(vec![i(2), i(5), Value::Bool(false)]).is_well_formed());
    assert!(!Value::SetOf(vec![i(2), i(2)]).is_well_formed());
    assert!(Value::List(vec![i(2), i(2), i(1)]).is_well_formed());
    assert!(!Value::List(vec![Value::SetOf(vec![i(2), i(1)])]).is_well_formed());
    assert!(Value::Record(vec![(s("a"), i(2)), (s("b"), i(1))]).is_well_formed());
    assert!(!Value::Record(vec![(s("b"), i(2)), (s("a"), i(1))]).is_well_formed());
    assert!(!Value::Record(vec![(s("a"), i(2)), (s("a"), i(1))]).is_well_formed());
    assert!(!Value::Record(vec![(s("a"), Value::SetOf(vec![i(2), i(1)]))]).is_well_formed());
    assert!(Value::Builtin(builtin_string_len("x")).is_well_formed());
    assert!(Value::Builtin(builtin_map_get(&Value::Record(vec![]))).is_well_formed());
    assert!(!Value::Builtin(builtin_map_get(&i(1))).is_well_formed());
    assert!(!Value::Builtin(builtin_list_contains(&Value::List(vec![Value::SetOf(vec![i(2), i(1)])])))
        .is_well_formed());
}
