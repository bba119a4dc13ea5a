use entremets::ast::{Expression, IsolationLevel, SqlExpression, Statement, Variable};
use entremets::parser::Parser;
use entremets::sql_eval::SqlEngineError;
use entremets::sql_interpreter::SqlDatabase;
use entremets::store::{
    bind_cell, find_cell, Lock, Row, RowId, Table, TransactionContext, TransactionId,
    UniqueIndex,
};
use entremets::value::Value;

fn sql(text: &str) -> SqlExpression {
    let mut parser = Parser::new(format!("`{text}`\n"));
    parser.advance().unwrap();
    let mut statements = vec![];
    parser.statement(&mut statements).unwrap();
    match statements.remove(0) {
        Statement::Expression(Expression::Sql(sql)) => sql,
        other => panic!("no query: {other:?}"),
    }
}

fn run(db: &mut SqlDatabase, text: &str) -> Result<Value, SqlEngineError> {
    db.execute(&sql(text), None)
}

fn run_in(db: &mut SqlDatabase, tx: TransactionId, text: &str) -> Result<Value, SqlEngineError> {
    db.execute(&sql(text), Some(tx))
}

fn num(i: i16) -> Value {
    Value::Integer(i)
}

fn accounts() -> SqlDatabase {
    let mut db = SqlDatabase::new();
    run(&mut db, "insert into a(id, balance) values (1, 100), (2, 50), (3, 75)").unwrap();
    db
}

#[test]
fn a_new_database_is_empty() {
    let db = SqlDatabase::new();
    assert!(db.tables.is_empty());
    assert!(db.transactions.is_empty());
    assert!(db.foreign_keys.is_empty());
    assert_eq!(db.cur_tx, TransactionId(usize::MAX));
    assert_eq!(db.tx, TransactionId(0));
    assert_eq!(db.rid, RowId(0));
    assert!(db.can_open());
}

#[test]
fn transactions_get_fresh_identifiers() {
    let mut db = SqlDatabase::new();
    let first = db.open_transaction(IsolationLevel::ReadCommitted);
    let second = db.open_transaction(IsolationLevel::ReadCommitted);
    assert_eq!(first, TransactionId(1));
    assert_eq!(second, TransactionId(2));
    assert_eq!(db.transactions.len(), 2);
    assert_eq!(db.find_tx(second), Some(1));
    assert_eq!(db.find_tx(TransactionId(9)), None);
    db.commit(&first);
    let third = db.open_transaction(IsolationLevel::ReadCommitted);
    assert_eq!(third, TransactionId(3));
}

#[test]
fn a_statement_of_its_own_commits() {
    let db = accounts();
    assert!(db.transactions.is_empty());
    assert_eq!(db.tables.len(), 1);
    assert_eq!(db.tables[0].0, "a");
    assert_eq!(db.tables[0].1.columns, vec!["id".to_string(), "balance".to_string()]);
    assert_eq!(db.tables[0].1.rows.len(), 3);
    assert_eq!(db.tables[0].1.rows[0].rid, RowId(1));
    assert_eq!(db.tables[0].1.rows[2].rid, RowId(3));
    assert_eq!(db.rid, RowId(3));
    assert_eq!(db.tx, TransactionId(1));
}

#[test]
fn a_select_of_one_row_gives_its_value() {
    let mut db = accounts();
    assert_eq!(run(&mut db, "select balance from a where id = 1"), Ok(num(100)));
    assert_eq!(
        run(&mut db, "select id, balance from a where id = 2"),
        Ok(Value::Tuple(vec![num(2), num(50)]))
    );
    assert_eq!(
        run(&mut db, "select * from a where id = 3"),
        Ok(Value::Tuple(vec![num(3), num(75)]))
    );
}

#[test]
fn a_select_of_other_numbers_of_rows_gives_a_set() {
    let mut db = accounts();
    assert_eq!(
        run(&mut db, "select balance from a"),
        Ok(Value::SetOf(vec![num(100), num(50), num(75)]))
    );
    assert_eq!(run(&mut db, "select balance from a where id = 9"), Ok(Value::SetOf(vec![])));
    assert_eq!(run(&mut db, "select balance from nowhere"), Ok(Value::SetOf(vec![])));
    assert_eq!(
        run(&mut db, "select id from a where balance > 60"),
        Ok(Value::SetOf(vec![num(1), num(3)]))
    );
}

#[test]
fn rows_are_counted() {
    let mut db = accounts();
    assert_eq!(run(&mut db, "select count(*) from a"), Ok(num(3)));
    assert_eq!(run(&mut db, "select count(id) from a where balance < 80"), Ok(num(2)));
    assert_eq!(run(&mut db, "select count(*) from nowhere"), Ok(num(0)));
}

#[test]
fn rows_are_ordered_cut_and_kept_in_insert_order() {
    let mut db = accounts();
    assert_eq!(
        run(&mut db, "select id from a order by balance"),
        Ok(Value::SetOf(vec![num(2), num(3), num(1)]))
    );
    assert_eq!(
        run(&mut db, "select id from a order by balance limit 2"),
        Ok(Value::SetOf(vec![num(2), num(3)]))
    );
    assert_eq!(run(&mut db, "select id from a order by balance limit 1 offset 1"), Ok(num(3)));
    assert_eq!(
        run(&mut db, "select id from a offset 1"),
        Ok(Value::SetOf(vec![num(2), num(3)]))
    );
    assert_eq!(run(&mut db, "select id from a limit 0"), Ok(Value::SetOf(vec![])));
    assert_eq!(run(&mut db, "select id from a offset 7"), Ok(Value::SetOf(vec![])));
    run(&mut db, "insert into a(id, balance) values (4, 50)").unwrap();
    assert_eq!(
        run(&mut db, "select id from a order by balance"),
        Ok(Value::SetOf(vec![num(2), num(4), num(3), num(1)]))
    );
}

#[test]
fn conditions_use_the_operators_of_the_query_language() {
    let mut db = accounts();
    assert_eq!(run(&mut db, "select id from a where balance between 50 and 75"),
        Ok(Value::SetOf(vec![num(2), num(3)])));
    assert_eq!(run(&mut db, "select id from a where id in (1, 3)"),
        Ok(Value::SetOf(vec![num(1), num(3)])));
    assert_eq!(run(&mut db, "select id from a where id <> 2 and balance >= 100"), Ok(num(1)));
    assert_eq!(run(&mut db, "select id from a where balance - 50 = id - 2"), Ok(num(2)));
    assert_eq!(
        run(&mut db, "select id from a where balance = id * 25"),
        Ok(Value::SetOf(vec![num(2), num(3)]))
    );
    assert_eq!(run(&mut db, "select id from a where balance % 2 = 1"), Ok(num(3)));
    assert_eq!(run(&mut db, "select id from a where balance / 2 = 50"), Ok(num(1)));
    assert_eq!(run(&mut db, "select id from a where balance <= 50"), Ok(num(2)));
}

#[test]
fn expressions_that_are_no_statements_are_evaluated() {
    let mut db = SqlDatabase::new();
    assert_eq!(db.execute(&SqlExpression::Integer(4), None), Ok(num(4)));
    assert_eq!(db.execute(&SqlExpression::Bool(true), None), Ok(Value::Bool(true)));
    assert_eq!(
        db.execute(&SqlExpression::Value(Value::Nil), None),
        Ok(Value::Nil)
    );
    let up = SqlExpression::UpVariable(Variable { name: "x".to_string() });
    assert_eq!(
        db.execute(&up, None),
        Err(SqlEngineError::SqlTypeError(up.clone(), "expression".to_string()))
    );
    assert!(db.transactions.len() == 1);
}

#[test]
fn failures_name_what_went_wrong() {
    let mut db = accounts();
    assert_eq!(
        run(&mut db, "select nothing from a where id = 1"),
        Err(SqlEngineError::UnknownVariable("nothing".to_string()))
    );
    assert_eq!(
        run(&mut db, "select id from a where nothing = 1"),
        Err(SqlEngineError::UnknownVariable("nothing".to_string()))
    );
    assert!(matches!(
        run(&mut db, "select id from a where id + 1"),
        Ok(Value::SetOf(_))
    ));
    assert!(matches!(
        run(&mut db, "select id from a where (1, 2) + 1 = 2"),
        Err(SqlEngineError::SqlTypeError(_, expected)) if expected == "integer"
    ));
    assert!(matches!(
        run(&mut db, "select id from a where id / 0 = 2"),
        Err(SqlEngineError::SqlTypeError(_, expected)) if expected == "non-zero integer"
    ));
    assert!(matches!(
        run(&mut db, "select id from a where id % 0 = 2"),
        Err(SqlEngineError::SqlTypeError(_, expected)) if expected == "non-zero integer"
    ));
    assert!(matches!(
        run(&mut db, "select id from a where id in 3"),
        Err(SqlEngineError::SqlTypeError(_, expected)) if expected == "set"
    ));
    assert!(matches!(
        run(&mut db, "select id from a where id and id"),
        Err(SqlEngineError::SqlTypeError(_, expected)) if expected == "bool"
    ));
    assert!(matches!(
        run(&mut db, "select id from a where id < 'x'"),
        Err(SqlEngineError::SqlTypeError(_, expected)) if expected == "comparable"
    ));
    let no_tuple = SqlExpression::Insert {
        relation: Variable { name: "a".to_string() },
        columns: vec![Variable { name: "id".to_string() }],
        values: vec![SqlExpression::Integer(1)],
    };
    assert_eq!(
        db.execute(&no_tuple, None),
        Err(SqlEngineError::SqlTypeError(SqlExpression::Integer(1), "tuple".to_string()))
    );
}

#[test]
fn a_transaction_reads_its_own_writes_and_others_do_not() {
    let mut db = accounts();
    let t1 = db.open_transaction(IsolationLevel::ReadCommitted);
    let t2 = db.open_transaction(IsolationLevel::ReadCommitted);
    assert_eq!(run_in(&mut db, t1, "insert into a(id, balance) values (4, 1)"), Ok(Value::Nil));
    assert_eq!(
        run_in(&mut db, t1, "update a set balance := balance + 10 where id = 1"),
        Ok(num(1))
    );
    assert_eq!(run_in(&mut db, t1, "select count(*) from a"), Ok(num(4)));
    assert_eq!(run_in(&mut db, t1, "select balance from a where id = 1"), Ok(num(110)));
    assert_eq!(run_in(&mut db, t2, "select count(*) from a"), Ok(num(3)));
    assert_eq!(run_in(&mut db, t2, "select balance from a where id = 1"), Ok(num(100)));
    assert_eq!(run(&mut db, "select balance from a where id = 1"), Ok(num(100)));
    db.commit(&t1);
    assert_eq!(run_in(&mut db, t2, "select count(*) from a"), Ok(num(4)));
    assert_eq!(run_in(&mut db, t2, "select balance from a where id = 1"), Ok(num(110)));
}

#[test]
fn an_update_keeps_the_row_identifier_and_moves_the_row_to_the_end() {
    let mut db = accounts();
    assert_eq!(run(&mut db, "update a set balance := 0, id := id + 10 where id = 1"), Ok(num(1)));
    let rows = &db.tables[0].1.rows;
    assert_eq!(rows.len(), 3);
    assert_eq!(rows[2].rid, RowId(1));
    assert_eq!(find_cell(&rows[2].tuples, &"id".to_string()), Some(&num(11)));
    assert_eq!(find_cell(&rows[2].tuples, &"balance".to_string()), Some(&num(0)));
    assert_eq!(rows[0].rid, RowId(2));
    assert_eq!(run(&mut db, "update a set balance := 1"), Ok(num(3)));
    assert_eq!(run(&mut db, "update a set balance := 1 where id = 77"), Ok(num(0)));
}

#[test]
fn assignments_see_the_row_as_it_was() {
    let mut db = accounts();
    run(&mut db, "update a set balance := id, id := balance where id = 2").unwrap();
    assert_eq!(
        run(&mut db, "select id, balance from a where balance = 2"),
        Ok(Value::Tuple(vec![num(50), num(2)]))
    );
}

#[test]
fn abort_discards_and_commit_applies() {
    let mut db = accounts();
    let t1 = db.open_transaction(IsolationLevel::ReadCommitted);
    run_in(&mut db, t1, "delete from a where id = 1").unwrap();
    run_in(&mut db, t1, "insert into a(id, balance) values (9, 9)").unwrap();
    db.abort(&t1);
    assert!(db.transactions.is_empty());
    assert_eq!(run(&mut db, "select count(*) from a"), Ok(num(3)));
    let t2 = db.open_transaction(IsolationLevel::ReadCommitted);
    assert_eq!(run_in(&mut db, t2, "delete from a where id = 1"), Ok(num(1)));
    assert_eq!(run_in(&mut db, t2, "select count(*) from a"), Ok(num(2)));
    db.commit(&t2);
    assert_eq!(run(&mut db, "select id from a"), Ok(Value::SetOf(vec![num(2), num(3)])));
}

#[test]
fn commit_then_abort_has_no_effect() {
    let mut db = accounts();
    let t1 = db.open_transaction(IsolationLevel::ReadCommitted);
    let other = db.open_transaction(IsolationLevel::ReadCommitted);
    run_in(&mut db, t1, "insert into a(id, balance) values (4, 4)").unwrap();
    run_in(&mut db, other, "insert into a(id, balance) values (5, 5)").unwrap();
    db.commit(&t1);
    let after_commit = db.clone();
    db.abort(&t1);
    assert_eq!(db, after_commit);
    db.commit(&t1);
    assert_eq!(db, after_commit);
    db.abort(&TransactionId(42));
    assert_eq!(db, after_commit);
    db.abort(&other);
    let after_abort = db.clone();
    db.abort(&other);
    assert_eq!(db, after_abort);
}

#[test]
fn a_unique_index_refuses_a_committed_tuple() {
    let mut db = SqlDatabase::new();
    run(&mut db, "create unique index on u(k)").unwrap();
    assert_eq!(db.tables[0].1.unique, vec![UniqueIndex { columns: vec!["k".to_string()] }]);
    assert_eq!(run(&mut db, "insert into u(k, v) values (1, 10)"), Ok(Value::Nil));
    assert_eq!(
        run(&mut db, "insert into u(k, v) values (1, 20)"),
        Err(SqlEngineError::UnicityViolation)
    );
    assert_eq!(run(&mut db, "insert into u(k, v) values (2, 10)"), Ok(Value::Nil));
    assert_eq!(
        run(&mut db, "update u set k := 1 where k = 2"),
        Err(SqlEngineError::UnicityViolation)
    );
    assert_eq!(run(&mut db, "update u set v := 11 where k = 1"), Ok(num(1)));
    assert_eq!(run(&mut db, "update u set k := 3 where k = 1"), Ok(num(1)));
    db.abort(&db.cur_tx.clone());
}

#[test]
fn a_unique_index_on_several_columns_compares_the_tuple() {
    let mut db = SqlDatabase::new();
    run(&mut db, "create unique index on u(a, b)").unwrap();
    assert_eq!(run(&mut db, "insert into u(a, b) values (1, 1), (1, 2), (2, 1)"), Ok(Value::Nil));
    assert_eq!(
        run(&mut db, "insert into u(a, b) values (1, 2)"),
        Err(SqlEngineError::UnicityViolation)
    );
}

#[test]
fn a_pending_insert_locks_its_unique_tuple() {
    let mut db = SqlDatabase::new();
    run(&mut db, "create unique index on u(k)").unwrap();
    let t1 = db.open_transaction(IsolationLevel::ReadCommitted);
    let t2 = db.open_transaction(IsolationLevel::ReadCommitted);
    assert_eq!(run_in(&mut db, t1, "insert into u(k) values (1)"), Ok(Value::Nil));
    let lock = Lock::Unique(
        "u".to_string(),
        UniqueIndex { columns: vec!["k".to_string()] },
        Value::Tuple(vec![num(1)]),
    );
    assert_eq!(db.transactions[0].1.locks, vec![lock.clone()]);
    assert_eq!(
        run_in(&mut db, t2, "insert into u(k) values (1)"),
        Err(SqlEngineError::Locked(lock))
    );
    assert_eq!(run_in(&mut db, t2, "insert into u(k) values (2)"), Ok(Value::Nil));
    db.commit(&t1);
    assert_eq!(
        run_in(&mut db, t2, "insert into u(k) values (1)"),
        Err(SqlEngineError::UnicityViolation)
    );
    assert_eq!(run_in(&mut db, t1, "insert into u(k) values (1)"), Err(SqlEngineError::UnicityViolation));
}

#[test]
fn locks_conflict_as_the_rules_say() {
    let update = Lock::RowUpdate(RowId(1));
    let share = Lock::RowForKeyShare(RowId(1));
    let other = Lock::RowUpdate(RowId(2));
    let unique = Lock::Unique(
        "u".to_string(),
        UniqueIndex { columns: vec!["k".to_string()] },
        Value::Tuple(vec![num(1)]),
    );
    assert!(update.conflicts_with(&update));
    assert!(update.conflicts_with(&share));
    assert!(share.conflicts_with(&update));
    assert!(!share.conflicts_with(&share));
    assert!(!update.conflicts_with(&other));
    assert!(!update.conflicts_with(&unique));
    assert!(!unique.conflicts_with(&update));
    assert!(unique.conflicts_with(&unique.clone()));
    assert!(update.same(&Lock::RowUpdate(RowId(1))));
    assert!(!update.same(&share));
}

#[test]
fn a_transaction_never_conflicts_with_its_own_locks() {
    let mut db = accounts();
    let t1 = db.open_transaction(IsolationLevel::ReadCommitted);
    let t2 = db.open_transaction(IsolationLevel::ReadCommitted);
    assert_eq!(db.request(t1, Lock::RowUpdate(RowId(1))), Ok(()));
    assert_eq!(db.request(t1, Lock::RowUpdate(RowId(1))), Ok(()));
    assert_eq!(db.request(t1, Lock::RowForKeyShare(RowId(1))), Ok(()));
    assert!(!db.is_locked(t1, &Lock::RowUpdate(RowId(1))));
    assert!(db.is_locked(t2, &Lock::RowUpdate(RowId(1))));
    assert!(db.is_locked(t2, &Lock::RowForKeyShare(RowId(1))));
    assert_eq!(db.request(t2, Lock::RowUpdate(RowId(1))), Err(Lock::RowUpdate(RowId(1))));
    assert_eq!(db.request(t2, Lock::RowUpdate(RowId(2))), Ok(()));
    assert_eq!(db.request(t2, Lock::RowForKeyShare(RowId(3))), Ok(()));
    assert_eq!(db.request(t1, Lock::RowForKeyShare(RowId(3))), Ok(()));
    assert_eq!(
        db.request(t1, Lock::RowUpdate(RowId(3))),
        Err(Lock::RowUpdate(RowId(3)))
    );
    db.commit(&t2);
    assert_eq!(db.request(t1, Lock::RowUpdate(RowId(3))), Ok(()));
}

#[test]
fn a_locking_select_locks_each_row_it_scans() {
    let mut db = accounts();
    let t1 = db.open_transaction(IsolationLevel::ReadCommitted);
    let t2 = db.open_transaction(IsolationLevel::ReadCommitted);
    assert_eq!(
        run_in(&mut db, t1, "select balance from a where id = 1 for update"),
        Ok(num(100))
    );
    assert_eq!(
        db.transactions[0].1.locks,
        vec![
            Lock::RowUpdate(RowId(1)),
            Lock::RowUpdate(RowId(2)),
            Lock::RowUpdate(RowId(3))
        ]
    );
    assert_eq!(
        run_in(&mut db, t2, "select balance from a where id = 2 for update"),
        Err(SqlEngineError::Locked(Lock::RowUpdate(RowId(1))))
    );
    assert!(db.transactions[1].1.locks.is_empty());
    assert_eq!(run_in(&mut db, t2, "select balance from a where id = 2"), Ok(num(50)));
    assert_eq!(
        run_in(&mut db, t2, "update a set balance := 0 where id = 2"),
        Err(SqlEngineError::Locked(Lock::RowUpdate(RowId(2))))
    );
    assert_eq!(
        run_in(&mut db, t2, "delete from a where id = 3"),
        Err(SqlEngineError::Locked(Lock::RowUpdate(RowId(3))))
    );
    db.abort(&t1);
    assert_eq!(run_in(&mut db, t2, "update a set balance := 0 where id = 2"), Ok(num(1)));
}

#[test]
fn a_failed_statement_of_its_own_leaves_its_transaction_open() {
    let mut db = accounts();
    let t1 = db.open_transaction(IsolationLevel::ReadCommitted);
    run_in(&mut db, t1, "update a set balance := 0 where id = 2").unwrap();
    assert_eq!(
        run(&mut db, "select balance from a for update"),
        Err(SqlEngineError::Locked(Lock::RowUpdate(RowId(2))))
    );
    assert_eq!(db.transactions.len(), 2);
    assert_eq!(db.cur_tx, TransactionId(3));
    assert_eq!(db.transactions[1].1.locks, vec![Lock::RowUpdate(RowId(1))]);
}

#[test]
fn a_foreign_key_asks_for_a_parent_and_shares_its_key() {
    let mut db = SqlDatabase::new();
    run(&mut db, "insert into users(id) values (1), (2)").unwrap();
    run(&mut db, "alter table orders add constraint fk foreign key(user_id) references users(id)")
        .unwrap();
    assert_eq!(db.foreign_keys.len(), 1);
    assert_eq!(db.foreign_keys[0].relation, "orders");
    assert_eq!(db.foreign_keys[0].columns, vec!["user_id".to_string()]);
    assert_eq!(db.foreign_keys[0].foreign_relation, "users");
    assert_eq!(db.foreign_keys[0].foreign_columns, vec!["id".to_string()]);
    assert_eq!(
        run(&mut db, "insert into orders(user_id) values (3)"),
        Err(SqlEngineError::ForeignKeyViolation)
    );
    let t1 = db.open_transaction(IsolationLevel::ReadCommitted);
    let t2 = db.open_transaction(IsolationLevel::ReadCommitted);
    assert_eq!(run_in(&mut db, t1, "insert into orders(user_id) values (1)"), Ok(Value::Nil));
    let t1_at = db.find_tx(t1).unwrap();
    assert_eq!(db.transactions[t1_at].1.locks, vec![Lock::RowForKeyShare(RowId(1))]);
    assert_eq!(
        run_in(&mut db, t2, "delete from users where id = 1"),
        Err(SqlEngineError::Locked(Lock::RowUpdate(RowId(1))))
    );
    assert_eq!(run_in(&mut db, t2, "insert into orders(user_id) values (1)"), Ok(Value::Nil));
    assert_eq!(
        run_in(&mut db, t2, "update orders set user_id := 5"),
        Err(SqlEngineError::ForeignKeyViolation)
    );
    assert_eq!(run_in(&mut db, t2, "delete from users where id = 2"), Ok(num(1)));
    assert_eq!(
        run_in(&mut db, t1, "insert into orders(user_id) values (2)"),
        Err(SqlEngineError::Locked(Lock::RowForKeyShare(RowId(2))))
    );
}

#[test]
fn a_delete_takes_the_rows_that_refer_to_the_row_with_it() {
    let mut db = SqlDatabase::new();
    run(&mut db, "insert into users(id) values (1), (2)").unwrap();
    run(&mut db, "alter table orders add constraint fk foreign key(user_id) references users(id)")
        .unwrap();
    run(&mut db, "insert into orders(user_id, item) values (1, 10), (2, 20), (1, 30)").unwrap();
    assert_eq!(run(&mut db, "delete from users where id = 1"), Ok(num(1)));
    assert_eq!(run(&mut db, "select item from orders"), Ok(num(20)));
    assert_eq!(run(&mut db, "select id from users"), Ok(num(2)));
    assert_eq!(run(&mut db, "delete from orders"), Ok(num(1)));
    assert_eq!(run(&mut db, "select count(*) from users"), Ok(num(1)));
}

#[test]
fn rows_project_on_columns() {
    let mut row = Row { tuples: vec![], rid: RowId(1) };
    bind_cell(&mut row.tuples, "a".to_string(), num(1));
    bind_cell(&mut row.tuples, "b".to_string(), num(2));
    bind_cell(&mut row.tuples, "a".to_string(), num(3));
    assert_eq!(row.tuples, vec![("a".to_string(), num(3)), ("b".to_string(), num(2))]);
    assert_eq!(row.to_value(&vec!["b".to_string()]), num(2));
    assert_eq!(
        row.to_value(&vec!["b".to_string(), "a".to_string()]),
        Value::Tuple(vec![num(2), num(3)])
    );
    assert_eq!(row.to_value(&vec![]), Value::Tuple(vec![]));
    assert_eq!(row.keys(), vec!["a".to_string(), "b".to_string()]);
    assert_eq!(row.values(), vec![num(3), num(2)]);
    assert_eq!(row.missing_column(&vec!["a".to_string(), "z".to_string()]), Some("z".to_string()));
    assert_eq!(row.missing_column(&vec!["a".to_string()]), None);
    assert_eq!(
        row.values_at(&vec!["z".to_string(), "a".to_string()]),
        vec![Value::Nil, num(3)]
    );
    let index = UniqueIndex { columns: vec!["b".to_string(), "z".to_string()] };
    assert_eq!(index.tuple_from(&row), Value::Tuple(vec![num(2), Value::Nil]));
}

#[test]
fn contexts_and_tables_start_empty() {
    let context = TransactionContext::new();
    assert!(context.changes.is_empty());
    assert!(context.locks.is_empty());
    let table = Table::default();
    assert!(table.columns.is_empty());
    assert!(table.rows.is_empty());
    assert!(table.unique.is_empty());
}

#[test]
fn a_tuple_shorter_than_the_columns_leaves_nil() {
    let mut db = SqlDatabase::new();
    let insert = SqlExpression::Insert {
        relation: Variable { name: "t".to_string() },
        columns: vec![Variable { name: "a".to_string() }, Variable { name: "b".to_string() }],
        values: vec![SqlExpression::Tuple(vec![SqlExpression::Integer(1)])],
    };
    assert_eq!(db.execute(&insert, None), Ok(Value::Nil));
    assert_eq!(
        db.tables[0].1.rows[0].tuples,
        vec![("a".to_string(), num(1)), ("b".to_string(), Value::Nil)]
    );
}

#[test]
fn the_database_says_whether_identifiers_are_left() {
    let mut db = accounts();
    let insert = sql("insert into a(id) values (1), (2)");
    assert!(db.has_room(&insert, None));
    db.rid = RowId(usize::MAX - 1);
    assert!(!db.has_room(&insert, None));
    assert!(db.has_room(&sql("insert into a(id) values (1)"), None));
    assert!(db.has_room(&sql("select id from a"), None));
    db.tx = TransactionId(usize::MAX);
    assert!(!db.has_room(&sql("select id from a"), None));
    assert!(db.has_room(&sql("select id from a"), Some(TransactionId(1))));
    assert!(!db.can_open());
}

#[test]
fn a_unique_index_does_not_look_at_what_its_own_transaction_has_pending() {
    let mut db = SqlDatabase::new();
    run(&mut db, "create unique index on u(k)").unwrap();
    let t1 = db.open_transaction(IsolationLevel::ReadCommitted);
    assert_eq!(run_in(&mut db, t1, "insert into u(k) values (1)"), Ok(Value::Nil));
    assert_eq!(run_in(&mut db, t1, "insert into u(k) values (1)"), Ok(Value::Nil));
    db.commit(&t1);
    assert_eq!(run(&mut db, "select count(*) from u where k = 1"), Ok(num(2)));
    assert_eq!(db.tables[0].1.rows[0].rid, RowId(1));
    assert_eq!(db.tables[0].1.rows[1].rid, RowId(2));
}

#[test]
fn a_unique_index_declared_late_leaves_the_rows_that_are_there() {
    let mut db = SqlDatabase::new();
    run(&mut db, "insert into u(k) values (1), (1)").unwrap();
    run(&mut db, "create unique index on u(k)").unwrap();
    assert_eq!(run(&mut db, "select count(*) from u where k = 1"), Ok(num(2)));
    assert_eq!(
        run(&mut db, "insert into u(k) values (1)"),
        Err(SqlEngineError::UnicityViolation)
    );
}

#[test]
fn an_update_of_a_key_that_rows_refer_to_leaves_those_rows() {
    let mut db = SqlDatabase::new();
    run(&mut db, "insert into users(id) values (1)").unwrap();
    run(&mut db, "alter table orders add constraint fk foreign key(user_id) references users(id)")
        .unwrap();
    run(&mut db, "insert into orders(user_id) values (1)").unwrap();
    assert_eq!(run(&mut db, "update users set id := 2 where id = 1"), Ok(num(1)));
    assert_eq!(run(&mut db, "select user_id from orders"), Ok(num(1)));
    assert_eq!(run(&mut db, "select id from users"), Ok(num(2)));
}

#[test]
fn row_identifiers_stay_distinct_through_updates_and_commits() {
    let mut db = accounts();
    let t1 = db.open_transaction(IsolationLevel::ReadCommitted);
    let t2 = db.open_transaction(IsolationLevel::ReadCommitted);
    run_in(&mut db, t1, "update a set balance := 1 where id = 1").unwrap();
    run_in(&mut db, t1, "update a set balance := 2 where id = 1").unwrap();
    run_in(&mut db, t1, "insert into a(id, balance) values (4, 4)").unwrap();
    run_in(&mut db, t2, "insert into b(id) values (5)").unwrap();
    run_in(&mut db, t2, "update a set balance := 3 where id = 2").unwrap();
    run_in(&mut db, t2, "delete from a where id = 3").unwrap();
    db.commit(&t2);
    db.commit(&t1);
    let mut rids: Vec<usize> = db
        .tables
        .iter()
        .flat_map(|(_, table)| table.rows.iter().map(|row| row.rid.0))
        .collect();
    rids.sort();
    assert_eq!(rids, vec![1, 2, 4, 5]);
    assert_eq!(run(&mut db, "select balance from a where id = 1"), Ok(num(2)));
}

#[test]
fn what_the_tables_say_leaves_the_row_identifiers_out() {
    let mut db = SqlDatabase::new();
    run(&mut db, "insert into accounts(id, balance) values (1, 100), (2, 50)").unwrap();
    let hashed = db.hash();
    assert_eq!(hashed.len(), 1);
    assert_eq!(hashed[0].0, "accounts");
    assert_eq!(hashed[0].1.len(), 2);
    assert_eq!(hashed[0].1[0].keys, vec!["id".to_string(), "balance".to_string()]);
    assert_eq!(hashed[0].1[0].values, vec![num(1), num(100)]);
    assert_eq!(hashed[0].1[1].values, vec![num(2), num(50)]);
    assert_eq!(
        hashed[0].1[1].pairs(),
        vec![("id".to_string(), num(2)), ("balance".to_string(), num(50))]
    );
}

#[test]
fn rows_that_say_the_same_hash_the_same_whatever_their_identifiers() {
    let mut first = SqlDatabase::new();
    run(&mut first, "insert into accounts(id) values (1)").unwrap();
    let mut second = SqlDatabase::new();
    run(&mut second, "insert into accounts(id) values (7)").unwrap();
    run(&mut second, "delete from accounts where id = 7").unwrap();
    run(&mut second, "insert into accounts(id) values (1)").unwrap();
    assert_ne!(first.tables[0].1.rows[0].rid, second.tables[0].1.rows[0].rid);
    assert_eq!(first.hash(), second.hash());
    assert_eq!(first.tables[0].1.rows[0].hash(), second.tables[0].1.rows[0].hash());
}
