use entremets::value::{
    holds_member, same_members, Rank, Transaction, TransactionState, Value,
};

fn num(i: i16) -> Value {
    Value::Integer(i)
}

#[test]
fn equality_is_structural() {
    let a = Value::Tuple(vec![num(1), Value::String("x".to_string())]);
    let b = Value::Tuple(vec![num(1), Value::String("x".to_string())]);
    assert!(a.same(&b));
    assert!(!a.same(&Value::Tuple(vec![num(1)])));
    assert!(!a.same(&Value::SetOf(vec![num(1), Value::String("x".to_string())])));
    assert!(!Value::Scalar(Box::new(num(1))).same(&num(1)));
    assert!(Value::Nil.same(&Value::Nil));
    assert!(Value::Tx(Transaction(TransactionState::Running))
        .same(&Value::Tx(Transaction(TransactionState::Running))));
    assert!(!Value::Tx(Transaction(TransactionState::Running))
        .same(&Value::Tx(Transaction(TransactionState::Aborted))));
}

#[test]
fn sets_do_not_canonicalize() {
    let a = Value::SetOf(vec![num(1), num(2)]);
    let b = Value::SetOf(vec![num(2), num(1)]);
    assert!(!a.same(&b));
    assert!(same_members(&vec![num(1), num(2)], &vec![num(1), num(2)]));
    assert!(holds_member(&vec![num(1), num(2)], &num(2)));
    assert!(!holds_member(&vec![num(1), num(2)], &num(3)));
}

#[test]
fn a_copy_has_the_same_content() {
    let a = Value::SetOf(vec![
        Value::Tuple(vec![num(1), Value::Bool(true)]),
        Value::Scalar(Box::new(Value::String("s".to_string()))),
    ]);
    assert!(a.clone().same(&a));
    assert_eq!(a.clone(), a);
}

#[test]
fn integers_are_ordered_by_number() {
    assert_eq!(num(1).rank(&num(2)), Some(Rank::Before));
    assert_eq!(num(2).rank(&num(2)), Some(Rank::Same));
    assert_eq!(num(3).rank(&num(2)), Some(Rank::After));
    assert_eq!(num(-5).rank(&num(2)), Some(Rank::Before));
}

#[test]
fn tuples_and_sets_are_ordered_member_by_member() {
    let a = Value::Tuple(vec![num(1), num(5)]);
    let b = Value::Tuple(vec![num(1), num(7)]);
    let short = Value::Tuple(vec![num(1)]);
    assert_eq!(a.rank(&b), Some(Rank::Before));
    assert_eq!(b.rank(&a), Some(Rank::After));
    assert_eq!(a.rank(&a), Some(Rank::Same));
    assert_eq!(short.rank(&a), Some(Rank::Before));
    assert_eq!(a.rank(&short), Some(Rank::After));
    assert_eq!(
        Value::SetOf(vec![num(2)]).rank(&Value::SetOf(vec![num(1), num(9)])),
        Some(Rank::After)
    );
}

#[test]
fn other_values_have_no_order() {
    assert_eq!(num(1).rank(&Value::Bool(true)), None);
    assert_eq!(Value::Nil.rank(&Value::Nil), None);
    assert_eq!(
        Value::String("a".to_string()).rank(&Value::String("b".to_string())),
        None
    );
    assert_eq!(
        Value::Tuple(vec![num(1), Value::Nil]).rank(&Value::Tuple(vec![num(1), Value::Nil])),
        None
    );
    assert_eq!(Value::Tuple(vec![num(1)]).rank(&Value::SetOf(vec![num(1)])), None);
}

#[test]
fn a_scalar_stands_for_what_it_wraps() {
    assert_eq!(Value::Scalar(Box::new(num(7))).as_integer(), Some(7));
    assert_eq!(num(7).as_integer(), Some(7));
    assert_eq!(Value::Bool(true).as_integer(), None);
    assert_eq!(
        Value::Scalar(Box::new(Value::Scalar(Box::new(num(7))))).as_integer(),
        None
    );
    assert_eq!(Value::Scalar(Box::new(Value::Bool(false))).as_bool(), Some(false));
    assert_eq!(Value::Bool(true).as_bool(), Some(true));
    assert_eq!(num(1).as_bool(), None);
    assert_eq!(Value::SetOf(vec![num(1)]).as_set(), Some(&vec![num(1)]));
    assert_eq!(
        Value::Scalar(Box::new(Value::SetOf(vec![num(1)]))).as_set(),
        Some(&vec![num(1)])
    );
    assert_eq!(Value::Tuple(vec![num(1)]).as_set(), None);
    assert_eq!(Value::Tuple(vec![num(1)]).as_tuple(), Some(&vec![num(1)]));
    assert_eq!(Value::SetOf(vec![num(1)]).as_tuple(), None);
}

#[test]
fn values_are_written_out() {
    assert_eq!(Value::Nil.to_text(), "nil");
    assert_eq!(Value::Bool(true).to_text(), "true");
    assert_eq!(Value::Bool(false).to_text(), "false");
    assert_eq!(num(-12).to_text(), "-12");
    assert_eq!(Value::String("'abc'".to_string()).to_text(), "'abc'");
    assert_eq!(Value::SetOf(vec![num(1), num(2)]).to_text(), "{1, 2}");
    assert_eq!(Value::SetOf(vec![]).to_text(), "{}");
    assert_eq!(
        Value::Tuple(vec![num(1), Value::Tuple(vec![num(2), num(3)])]).to_text(),
        "(1, (2, 3))"
    );
    assert_eq!(Value::Scalar(Box::new(num(4))).to_text(), "(4)");
    assert_eq!(
        Value::Tx(Transaction(TransactionState::NotExisting)).to_text(),
        "non started transaction"
    );
    assert_eq!(
        Value::Tx(Transaction(TransactionState::Running)).to_text(),
        "running transaction"
    );
    assert_eq!(
        Value::Tx(Transaction(TransactionState::Aborted)).to_text(),
        "aborted transaction"
    );
    assert_eq!(
        Value::Tx(Transaction(TransactionState::Committed)).to_text(),
        "committed transaction"
    );
}
