use rcl::ast::{BinOp, BuiltinKind, Clause, Error, Expr, Mismatch, Shape, Span, UnOp};
use rcl::env::Env;
use rcl::eval::{eval, eval_seq};
use rcl::order::{compare, Order};
use rcl::seq_out::SeqOut;
use rcl::value::Value;

fn sp(start: usize) -> Span {
    Span { start, len: 1 }
}

fn num(i: i64) -> Expr {
    Expr::IntegerLit(i)
}

fn string(s: &str) -> Expr {
    Expr::StringLit(s.to_string())
}

fn var(s: &str) -> Expr {
    Expr::Var(s.to_string())
}

fn elem(at: usize, e: Expr) -> Clause {
    Clause::Elem { span: sp(at), value: Box::new(e) }
}

fn assoc(at: usize, k: Expr, v: Expr) -> Clause {
    Clause::Assoc { op_span: sp(at), key: Box::new(k), value: Box::new(v) }
}

fn binop(op: BinOp, l: Expr, r: Expr) -> Expr {
    Expr::BinOp { op, op_span: sp(7), lhs: Box::new(l), rhs: Box::new(r) }
}

fn let_in(name: &str, value: Expr, body: Expr) -> Expr {
    Expr::Let { ident: name.to_string(), value: Box::new(value), body: Box::new(body) }
}

fn field(inner: Expr, name: &str) -> Expr {
    Expr::Field { field: name.to_string(), inner: Box::new(inner) }
}

fn call(f: Expr, args: Vec<Expr>) -> Expr {
    Expr::Call { function: Box::new(f), args }
}

fn run(e: &Expr) -> Result<Value, Error> {
    let mut env = Env::new();
    let r = eval(&mut env, e);
    assert_eq!(env.bindings.len(), 0);
    r
}

fn vi(i: i64) -> Value {
    Value::Int(i)
}

fn vs(s: &str) -> Value {
    Value::String(s.to_string())
}

fn same(a: &Value, b: &Value) -> bool {
    compare(a, b) == Order::Equal
}

fn assert_value(e: &Expr, expected: Value) {
    let got = run(e).unwrap();
    assert!(same(&got, &expected), "got {:?}, expected {:?}", got, expected);
}

fn record_a(i: i64) -> Expr {
    Expr::BraceLit(vec![assoc(0, string("a"), num(i))])
}

#[test]
fn literals_evaluate_to_themselves() {
    assert_value(&Expr::BoolLit(true), Value::Bool(true));
    assert_value(&num(-5), vi(-5));
    assert_value(&string("hi"), vs("hi"));
}

#[test]
fn record_union_is_right_biased() {
    let e = binop(BinOp::Union, record_a(1), record_a(2));
    assert_value(&e, Value::Record(vec![(vs("a"), vi(2))]));
}

#[test]
fn comprehension_over_nothing_is_an_empty_set() {
    let e = Expr::BraceLit(vec![Clause::For {
        idents: vec!["x".to_string()],
        collection: Box::new(Expr::BracketLit(vec![])),
        body: Box::new(assoc(1, var("x"), var("x"))),
    }]);
    assert!(matches!(run(&e).unwrap(), Value::SetOf(ref xs) if xs.is_empty()));
}

#[test]
fn record_union_has_keys_of_both() {
    let l = Expr::BraceLit(vec![assoc(0, string("a"), num(1)), assoc(1, string("c"), num(3))]);
    let r = Expr::BraceLit(vec![assoc(0, string("b"), num(2)), assoc(1, string("c"), num(4))]);
    assert_value(
        &binop(BinOp::Union, l, r),
        Value::Record(vec![(vs("a"), vi(1)), (vs("b"), vi(2)), (vs("c"), vi(4))]),
    );
}

#[test]
fn set_union_is_order_independent() {
    let s = || Expr::BraceLit(vec![elem(0, num(2)), elem(1, num(1))]);
    let t = || Expr::BraceLit(vec![elem(0, num(3)), elem(1, num(2))]);
    let expected = || Value::SetOf(vec![vi(1), vi(2), vi(3)]);
    assert_value(&binop(BinOp::Union, s(), t()), expected());
    assert_value(&binop(BinOp::Union, t(), s()), expected());
}

#[test]
fn set_union_list_merges_duplicates() {
    let s = Expr::BraceLit(vec![elem(0, num(1)), elem(1, num(2))]);
    let l = Expr::BracketLit(vec![elem(0, num(2)), elem(1, num(3)), elem(2, num(3))]);
    assert_value(&binop(BinOp::Union, s, l), Value::SetOf(vec![vi(1), vi(2), vi(3)]));
}

#[test]
fn union_is_not_defined_with_list_on_the_left() {
    let s = || Expr::BraceLit(vec![elem(0, num(1))]);
    let l = || Expr::BracketLit(vec![elem(0, num(2))]);
    assert_eq!(
        run(&binop(BinOp::Union, l(), s())).unwrap_err(),
        Error::TypeMismatch(Mismatch::BinaryOperands)
    );
    assert_eq!(
        run(&binop(BinOp::Union, l(), l())).unwrap_err(),
        Error::TypeMismatch(Mismatch::BinaryOperands)
    );
}

#[test]
fn addition_overflow_fails() {
    let e = binop(BinOp::Add, num(i64::MAX), num(1));
    assert_eq!(run(&e).unwrap_err(), Error::Overflow { op: BinOp::Add, span: sp(7) });
    assert_eq!(run(&e).unwrap_err().message(), "Addition would overflow.");
    assert_value(&binop(BinOp::Add, num(i64::MAX - 1), num(1)), vi(i64::MAX));
    assert_value(&binop(BinOp::Add, num(2), num(3)), vi(5));
}

#[test]
fn multiplication_overflow_fails() {
    let e = binop(BinOp::Mul, num(i64::MAX), num(2));
    assert_eq!(run(&e).unwrap_err(), Error::Overflow { op: BinOp::Mul, span: sp(7) });
    assert_eq!(run(&e).unwrap_err().message(), "Multiplication would overflow.");
    assert_value(&binop(BinOp::Mul, num(-6), num(7)), vi(-42));
    assert_eq!(
        run(&binop(BinOp::Mul, num(i64::MIN), num(-1))).unwrap_err(),
        Error::Overflow { op: BinOp::Mul, span: sp(7) }
    );
}

#[test]
fn empty_brace_literal_is_empty_set() {
    let v = run(&Expr::BraceLit(vec![])).unwrap();
    assert!(matches!(v, Value::SetOf(ref xs) if xs.is_empty()));
    assert!(matches!(run(&Expr::BracketLit(vec![])).unwrap(), Value::List(ref xs) if xs.is_empty()));
}

#[test]
fn scalar_then_pair_names_the_scalar_as_evidence() {
    let e = Expr::BraceLit(vec![elem(10, num(1)), assoc(20, string("a"), num(2))]);
    let err = run(&e).unwrap_err();
    assert_eq!(
        err,
        Error::ShapeConflict { at: sp(20), expected: Shape::Scalar, evidence: Some(sp(10)) }
    );
    assert_eq!(err.evidence(), Some(sp(10)));
    assert_eq!(err.help(), None);
    assert_eq!(err.message(), "Expected scalar element, not key-value.");
}

#[test]
fn pair_then_scalar_names_the_pair_as_evidence() {
    let e = Expr::BraceLit(vec![assoc(10, string("a"), num(2)), elem(20, num(1))]);
    let err = run(&e).unwrap_err();
    assert_eq!(
        err,
        Error::ShapeConflict { at: sp(20), expected: Shape::KeyValue, evidence: Some(sp(10)) }
    );
    assert_eq!(err.message(), "Expected key-value, not a scalar element.");
}

#[test]
fn shape_conflict_comes_before_the_element_is_evaluated() {
    let e = Expr::BraceLit(vec![elem(10, num(1)), assoc(20, var("nope"), num(2))]);
    assert!(matches!(run(&e).unwrap_err(), Error::ShapeConflict { .. }));
}

#[test]
fn pair_in_bracket_literal_has_a_hint() {
    let e = Expr::BracketLit(vec![assoc(3, string("a"), num(1))]);
    let err = run(&e).unwrap_err();
    assert_eq!(err, Error::ShapeConflict { at: sp(3), expected: Shape::Scalar, evidence: None });
    assert_eq!(
        err.help().unwrap(),
        "Key-value pairs are allowed in records, which are enclosed in '{}', not '[]'."
    );
    assert_eq!(err.evidence(), None);
}

#[test]
fn two_binders_visit_record_entries_in_key_order() {
    let record = || {
        Expr::BraceLit(vec![assoc(0, string("b"), num(2)), assoc(1, string("a"), num(1))])
    };
    let pairs = Expr::BracketLit(vec![Clause::For {
        idents: vec!["k".to_string(), "v".to_string()],
        collection: Box::new(record()),
        body: Box::new(elem(5, Expr::BracketLit(vec![elem(6, var("k")), elem(7, var("v"))]))),
    }]);
    assert_value(
        &pairs,
        Value::List(vec![
            Value::List(vec![vs("a"), vi(1)]),
            Value::List(vec![vs("b"), vi(2)]),
        ]),
    );
}

#[test]
fn one_binder_visits_list_and_set_items_in_stored_order() {
    let over = |collection: Expr| {
        Expr::BracketLit(vec![Clause::For {
            idents: vec!["x".to_string()],
            collection: Box::new(collection),
            body: Box::new(elem(5, binop(BinOp::Mul, var("x"), num(10)))),
        }])
    };
    let items = || vec![elem(0, num(3)), elem(1, num(1)), elem(2, num(3))];
    assert_value(&over(Expr::BracketLit(items())), Value::List(vec![vi(30), vi(10), vi(30)]));
    assert_value(&over(Expr::BraceLit(items())), Value::List(vec![vi(10), vi(30)]));
}

#[test]
fn iteration_with_wrong_binder_count_is_unsupported() {
    let over = |idents: Vec<&str>, collection: Expr| {
        Expr::BracketLit(vec![Clause::For {
            idents: idents.into_iter().map(|s| s.to_string()).collect(),
            collection: Box::new(collection),
            body: Box::new(elem(5, num(0))),
        }])
    };
    let list = || Expr::BracketLit(vec![elem(0, num(1))]);
    assert_eq!(run(&over(vec!["a", "b"], list())).unwrap_err(), Error::UnsupportedIteration);
    assert_eq!(run(&over(vec!["a"], record_a(1))).unwrap_err(), Error::UnsupportedIteration);
    assert_eq!(run(&over(vec![], list())).unwrap_err(), Error::UnsupportedIteration);
    assert_eq!(run(&over(vec!["a"], num(1))).unwrap_err(), Error::UnsupportedIteration);
    assert_eq!(
        run(&over(vec!["a", "b", "c"], record_a(1))).unwrap_err(),
        Error::UnsupportedIteration
    );
}

#[test]
fn inner_let_shadows_and_outer_binding_returns() {
    let inner = || let_in("x", num(2), var("x"));
    assert_value(&let_in("x", num(1), inner()), vi(2));
    let both = let_in(
        "x",
        num(1),
        Expr::BracketLit(vec![elem(0, inner()), elem(1, var("x"))]),
    );
    assert_value(&both, Value::List(vec![vi(2), vi(1)]));
}

#[test]
fn let_is_not_recursive() {
    assert_eq!(run(&let_in("x", var("x"), num(1))).unwrap_err(), Error::UndefinedVariable);
}

#[test]
fn binding_is_released_when_the_body_fails() {
    let mut env = Env::new();
    env.push("y".to_string(), vi(9));
    let e = let_in("x", num(1), var("nope"));
    assert_eq!(eval(&mut env, &e).unwrap_err(), Error::UndefinedVariable);
    assert_eq!(env.bindings.len(), 1);
    assert!(env.lookup(&"x".to_string()).is_none());
    assert!(same(env.lookup(&"y".to_string()).unwrap(), &vi(9)));
}

#[test]
fn environment_lookup_finds_innermost() {
    let mut env = Env::new();
    assert!(env.lookup(&"x".to_string()).is_none());
    env.push("x".to_string(), vi(1));
    env.push("y".to_string(), vi(5));
    env.push("x".to_string(), vi(2));
    assert!(same(env.lookup(&"x".to_string()).unwrap(), &vi(2)));
    env.pop();
    assert!(same(env.lookup(&"x".to_string()).unwrap(), &vi(1)));
    assert!(same(env.lookup(&"y".to_string()).unwrap(), &vi(5)));
    env.pop();
    env.pop();
    env.pop();
    assert_eq!(env.bindings.len(), 0);
}

#[test]
fn string_len_counts_bytes() {
    assert_value(&call(field(string("abc"), "len"), vec![]), vi(3));
    assert_value(&call(field(string(""), "len"), vec![]), vi(0));
    assert_value(&call(field(string("\u{e9}"), "len"), vec![]), vi(2));
}

#[test]
fn list_contains_tests_membership() {
    let list = || Expr::BracketLit(vec![elem(0, num(1)), elem(1, num(2))]);
    assert_value(&call(field(list(), "contains"), vec![num(2)]), Value::Bool(true));
    assert_value(&call(field(list(), "contains"), vec![num(3)]), Value::Bool(false));
    assert_value(&call(field(list(), "contains"), vec![string("2")]), Value::Bool(false));
}

#[test]
fn map_contains_and_get() {
    let m = || record_a(1);
    assert_value(&call(field(m(), "contains"), vec![string("a")]), Value::Bool(true));
    assert_value(&call(field(m(), "contains"), vec![string("b")]), Value::Bool(false));
    assert_value(&call(field(m(), "get"), vec![string("a"), num(0)]), vi(1));
    assert_value(&call(field(m(), "get"), vec![string("b"), num(0)]), vi(0));
}

#[test]
fn builtin_names_shadow_record_keys() {
    let m = || {
        Expr::BraceLit(vec![
            assoc(0, string("contains"), num(1)),
            assoc(1, string("get"), num(2)),
            assoc(2, string("len"), num(3)),
        ])
    };
    assert!(matches!(run(&field(m(), "contains")).unwrap(), Value::Builtin(b) if b.kind == BuiltinKind::MapContains));
    assert!(matches!(run(&field(m(), "get")).unwrap(), Value::Builtin(b) if b.kind == BuiltinKind::MapGet));
    assert_value(&field(m(), "len"), vi(3));
}

#[test]
fn field_access_reads_record_keys() {
    assert_value(&field(record_a(7), "a"), vi(7));
    assert_eq!(run(&field(record_a(7), "b")).unwrap_err(), Error::UndefinedField);
    assert_eq!(run(&field(string("s"), "contains")).unwrap_err(), Error::UndefinedField);
    assert_eq!(
        run(&field(Expr::BracketLit(vec![]), "len")).unwrap_err(),
        Error::UndefinedField
    );
    assert_eq!(run(&field(num(1), "len")).unwrap_err(), Error::TypeMismatch(Mismatch::FieldBase));
    assert_eq!(
        run(&field(Expr::BraceLit(vec![]), "contains")).unwrap_err(),
        Error::TypeMismatch(Mismatch::FieldBase)
    );
}

#[test]
fn wrong_argument_count_is_an_arity_error() {
    assert_eq!(
        run(&call(field(string("abc"), "len"), vec![num(1)])).unwrap_err(),
        Error::Arity(BuiltinKind::StringLen)
    );
    assert_eq!(
        run(&call(field(record_a(1), "contains"), vec![])).unwrap_err(),
        Error::Arity(BuiltinKind::MapContains)
    );
    assert_eq!(
        run(&call(field(record_a(1), "get"), vec![string("a")])).unwrap_err(),
        Error::Arity(BuiltinKind::MapGet)
    );
    let list = Expr::BracketLit(vec![]);
    assert_eq!(
        run(&call(field(list, "contains"), vec![num(1), num(2)])).unwrap_err(),
        Error::Arity(BuiltinKind::ListContains)
    );
    assert_eq!(Error::Arity(BuiltinKind::MapGet).message(), "Map.get takes two arguments.");
}

#[test]
fn calling_a_non_builtin_is_not_callable() {
    assert_eq!(run(&call(num(1), vec![])).unwrap_err(), Error::NotCallable);
    assert_eq!(run(&call(string("f"), vec![num(1)])).unwrap_err(), Error::NotCallable);
}

#[test]
fn arguments_are_evaluated_before_the_call() {
    assert_eq!(run(&call(num(1), vec![var("nope")])).unwrap_err(), Error::UndefinedVariable);
}

#[test]
fn untaken_branch_is_not_evaluated() {
    let e = Expr::IfThenElse(
        Box::new(Expr::BoolLit(false)),
        Box::new(var("nope")),
        Box::new(num(1)),
    );
    assert_value(&e, vi(1));
    let e = Expr::IfThenElse(
        Box::new(Expr::BoolLit(true)),
        Box::new(num(2)),
        Box::new(var("nope")),
    );
    assert_value(&e, vi(2));
    let e = Expr::IfThenElse(Box::new(num(0)), Box::new(num(2)), Box::new(num(3)));
    assert_eq!(run(&e).unwrap_err(), Error::TypeMismatch(Mismatch::Condition));
}

#[test]
fn lambda_is_unsupported() {
    let e = Expr::Lam(vec!["x".to_string()], Box::new(var("x")));
    assert_eq!(run(&e).unwrap_err(), Error::UnsupportedLambda);
}

#[test]
fn undefined_variable_fails() {
    assert_eq!(run(&var("x")).unwrap_err(), Error::UndefinedVariable);
    assert_eq!(Error::UndefinedVariable.message(), "Variable not found.");
}

#[test]
fn negation_is_defined_on_booleans_only() {
    assert_value(&Expr::UnOp(UnOp::Neg, Box::new(Expr::BoolLit(true))), Value::Bool(false));
    assert_value(&Expr::UnOp(UnOp::Neg, Box::new(Expr::BoolLit(false))), Value::Bool(true));
    assert_eq!(
        run(&Expr::UnOp(UnOp::Neg, Box::new(num(1)))).unwrap_err(),
        Error::TypeMismatch(Mismatch::UnaryOperand)
    );
}

#[test]
fn boolean_operators_do_not_short_circuit() {
    let t = || Expr::BoolLit(true);
    let f = || Expr::BoolLit(false);
    assert_value(&binop(BinOp::And, t(), f()), Value::Bool(false));
    assert_value(&binop(BinOp::And, t(), t()), Value::Bool(true));
    assert_value(&binop(BinOp::Or, f(), t()), Value::Bool(true));
    assert_value(&binop(BinOp::Or, f(), f()), Value::Bool(false));
    assert_eq!(run(&binop(BinOp::And, f(), var("nope"))).unwrap_err(), Error::UndefinedVariable);
    assert_eq!(run(&binop(BinOp::Or, t(), var("nope"))).unwrap_err(), Error::UndefinedVariable);
    assert_eq!(
        run(&binop(BinOp::And, t(), num(1))).unwrap_err(),
        Error::TypeMismatch(Mismatch::BinaryOperands)
    );
}

#[test]
fn left_operand_is_evaluated_first() {
    let bad_field = field(num(1), "x");
    assert_eq!(
        run(&binop(BinOp::Add, bad_field, var("nope"))).unwrap_err(),
        Error::TypeMismatch(Mismatch::FieldBase)
    );
}

#[test]
fn comparisons_on_integers() {
    assert_value(&binop(BinOp::Lt, num(1), num(2)), Value::Bool(true));
    assert_value(&binop(BinOp::Lt, num(2), num(2)), Value::Bool(false));
    assert_value(&binop(BinOp::Gt, num(3), num(2)), Value::Bool(true));
    assert_value(&binop(BinOp::Gt, num(2), num(2)), Value::Bool(false));
    assert_value(&binop(BinOp::LtEq, num(2), num(2)), Value::Bool(true));
    assert_value(&binop(BinOp::LtEq, num(3), num(2)), Value::Bool(false));
    assert_value(&binop(BinOp::GtEq, num(2), num(2)), Value::Bool(true));
    assert_value(&binop(BinOp::GtEq, num(1), num(2)), Value::Bool(false));
    assert_eq!(
        run(&binop(BinOp::Lt, string("a"), string("b"))).unwrap_err(),
        Error::TypeMismatch(Mismatch::BinaryOperands)
    );
}

#[test]
fn set_literal_sorts_and_merges() {
    let e = Expr::BraceLit(vec![
        elem(0, string("b")),
        elem(1, num(3)),
        elem(2, string("a")),
        elem(3, Expr::BoolLit(true)),
        elem(4, num(3)),
        elem(5, string("ab")),
    ]);
    assert_value(
        &e,
        Value::SetOf(vec![Value::Bool(true), vi(3), vs("a"), vs("ab"), vs("b")]),
    );
}

#[test]
fn record_literal_last_write_wins() {
    let e = Expr::BraceLit(vec![
        assoc(0, string("a"), num(1)),
        assoc(1, string("b"), num(5)),
        assoc(2, string("a"), num(2)),
    ]);
    assert_value(&e, Value::Record(vec![(vs("a"), vi(2)), (vs("b"), vi(5))]));
}

#[test]
fn comprehension_guard_and_let() {
    let items = Expr::BracketLit(vec![elem(0, num(1)), elem(1, num(2)), elem(2, num(3))]);
    let e = Expr::BracketLit(vec![Clause::For {
        idents: vec!["x".to_string()],
        collection: Box::new(items),
        body: Box::new(Clause::If {
            condition: Box::new(binop(BinOp::Gt, var("x"), num(1))),
            body: Box::new(Clause::Let {
                ident: "y".to_string(),
                value: Box::new(binop(BinOp::Add, var("x"), var("x"))),
                body: Box::new(elem(9, var("y"))),
            }),
        }),
    }]);
    assert_value(&e, Value::List(vec![vi(4), vi(6)]));
    let bad = Expr::BracketLit(vec![Clause::If {
        condition: Box::new(num(1)),
        body: Box::new(elem(0, num(1))),
    }]);
    assert_eq!(run(&bad).unwrap_err(), Error::TypeMismatch(Mismatch::Guard));
}

#[test]
fn comprehension_decides_shape_at_first_accepted_element() {
    let e = Expr::BraceLit(vec![
        Clause::If { condition: Box::new(Expr::BoolLit(false)), body: Box::new(elem(1, num(1))) },
        assoc(2, string("a"), num(1)),
    ]);
    assert_value(&e, Value::Record(vec![(vs("a"), vi(1))]));
}

#[test]
fn clause_evaluation_fills_the_accumulator() {
    let mut env = Env::new();
    let mut out = SeqOut::SetOrRecord;
    eval_seq(&mut env, &elem(4, num(1)), &mut out).unwrap();
    eval_seq(&mut env, &elem(5, num(0)), &mut out).unwrap();
    match &out {
        SeqOut::SetOf(first, values) => {
            assert_eq!(*first, sp(4));
            assert_eq!(values.len(), 2);
            assert!(same(&values[0], &vi(1)));
            assert!(same(&values[1], &vi(0)));
        }
        _ => panic!("not a set"),
    }
    let err = eval_seq(&mut env, &assoc(6, num(1), num(1)), &mut out).unwrap_err();
    assert_eq!(err.evidence(), Some(sp(4)));
    assert!(same(&out.into_brace_value(), &Value::SetOf(vec![vi(0), vi(1)])));
}

#[test]
fn bindings_are_released_when_a_loop_body_fails() {
    let mut env = Env::new();
    env.push("outer".to_string(), vi(1));
    let over_list = Expr::BracketLit(vec![Clause::For {
        idents: vec!["x".to_string()],
        collection: Box::new(Expr::BracketLit(vec![elem(0, num(1)), elem(1, num(2))])),
        body: Box::new(elem(2, var("nope"))),
    }]);
    assert_eq!(eval(&mut env, &over_list).unwrap_err(), Error::UndefinedVariable);
    assert_eq!(env.bindings.len(), 1);
    let over_record = Expr::BracketLit(vec![Clause::For {
        idents: vec!["k".to_string(), "v".to_string()],
        collection: Box::new(record_a(1)),
        body: Box::new(Clause::Let {
            ident: "y".to_string(),
            value: Box::new(var("v")),
            body: Box::new(elem(2, field(var("y"), "len"))),
        }),
    }]);
    assert_eq!(
        eval(&mut env, &over_record).unwrap_err(),
        Error::TypeMismatch(Mismatch::FieldBase)
    );
    assert_eq!(env.bindings.len(), 1);
    assert!(same(env.lookup(&"outer".to_string()).unwrap(), &vi(1)));
}

#[test]
fn every_error_has_its_text() {
    let span = sp(0);
    let cases = vec![
        (Error::TypeMismatch(Mismatch::Condition), "Condition should be boolean."),
        (Error::TypeMismatch(Mismatch::Guard), "Comprehension condition should be boolean."),
        (
            Error::TypeMismatch(Mismatch::UnaryOperand),
            "The unary operator is not supported for this value.",
        ),
        (
            Error::TypeMismatch(Mismatch::BinaryOperands),
            "The binary operator is not supported for this value.",
        ),
        (
            Error::TypeMismatch(Mismatch::FieldBase),
            "Can only access fields on records, strings and lists for now.",
        ),
        (Error::UndefinedVariable, "Variable not found."),
        (Error::UndefinedField, "No such field in this value."),
        (Error::NotCallable, "Can only call functions."),
        (Error::UnsupportedLambda, "Functions are not implemented."),
        (Error::Arity(BuiltinKind::StringLen), "String.len takes no arguments."),
        (Error::Arity(BuiltinKind::MapContains), "Map.contains takes a single argument."),
        (Error::Arity(BuiltinKind::MapGet), "Map.get takes two arguments."),
        (Error::Arity(BuiltinKind::ListContains), "List.contains takes a single argument."),
        (Error::Overflow { op: BinOp::Add, span }, "Addition would overflow."),
        (Error::Overflow { op: BinOp::Mul, span }, "Multiplication would overflow."),
        (
            Error::ShapeConflict { at: span, expected: Shape::KeyValue, evidence: Some(span) },
            "Expected key-value, not a scalar element.",
        ),
        (
            Error::ShapeConflict { at: span, expected: Shape::Scalar, evidence: None },
            "Expected scalar element, not key-value.",
        ),
        (Error::UnsupportedIteration, "Iteration is not supported like this."),
    ];
    for (error, text) in cases {
        assert_eq!(error.message(), text);
    }
}

#[test]
fn nested_collections_are_ordered_as_values() {
    let inner = |a: i64, b: i64| Expr::BracketLit(vec![elem(0, num(a)), elem(1, num(b))]);
    let e = Expr::BraceLit(vec![
        elem(0, inner(2, 1)),
        elem(1, inner(1, 9)),
        elem(2, inner(1, 9)),
        elem(3, Expr::BracketLit(vec![elem(0, num(1))])),
    ]);
    assert_value(
        &e,
        Value::SetOf(vec![
            Value::List(vec![vi(1)]),
            Value::List(vec![vi(1), vi(9)]),
            Value::List(vec![vi(2), vi(1)]),
        ]),
    );
}

#[test]
fn evaluation_yields_well_formed_values() {
    let e = Expr::BraceLit(vec![
        assoc(0, string("z"), Expr::BraceLit(vec![elem(1, num(3)), elem(2, num(1))])),
        assoc(3, string("a"), field(string("s"), "len")),
        assoc(4, string("z"), Expr::BraceLit(vec![elem(5, num(9)), elem(6, num(-9))])),
    ]);
    let v = run(&e).unwrap();
    assert!(v.is_well_formed());
    match v {
        Value::Record(entries) => {
            assert_eq!(entries.len(), 2);
            assert!(same(&entries[0].0, &vs("a")));
            assert!(same(&entries[1].1, &Value::SetOf(vec![vi(-9), vi(9)])));
        }
        _ => panic!("not a record"),
    }
}
