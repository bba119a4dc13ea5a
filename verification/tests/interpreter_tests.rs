use entremets::ast::{Expression, Operator, SqlExpression, Statement, Variable};
use entremets::interpreter::{Interpreter, InterpreterError, PropertyCheck};
use entremets::parser::Parser;
use entremets::reify::reify_expression;
use entremets::sql_eval::SqlEngineError;
use entremets::sql_interpreter::SqlDatabase;
use entremets::state::{ProcessState, State, TransactionInfo};
use entremets::store::{find_cell, Lock, RowId, TransactionId};
use entremets::value::{Transaction, TransactionState, Value};

fn num(i: i16) -> Value {
    Value::Integer(i)
}

fn var(name: &str) -> Variable {
    Variable { name: name.to_string() }
}

fn statements(source: &str) -> Vec<Statement> {
    let mets = Parser::new(format!("process do\n{source}\nend\n")).compile().expect("reads");
    mets.processes.into_iter().next().unwrap()
}

fn statement(source: &str) -> Statement {
    statements(source).remove(0)
}

fn expression(source: &str) -> Expression {
    match statement(source) {
        Statement::Expression(e) => e,
        other => panic!("no expression: {other:?}"),
    }
}

fn blank(processes: usize) -> State {
    State {
        pc: vec![0; processes],
        processes: (0..processes).map(|_| ProcessState::Running).collect(),
        txs: (0..processes)
            .map(|_| TransactionInfo { id: None, name: None, state: TransactionState::NotExisting })
            .collect(),
        sql: SqlDatabase::new(),
        locals: vec![],
        ancestors: vec![],
        eventually: vec![],
    }
}

fn after(state: State, idx: usize, source: &str) -> (State, Result<usize, InterpreterError>) {
    let mut interpreter = Interpreter::new(state);
    interpreter.idx = idx;
    let moved = interpreter.statement(&statement(source));
    (interpreter.next_state(), moved)
}

fn value_in(state: &State, source: &str) -> Result<Value, InterpreterError> {
    let mut interpreter = Interpreter::new(state.clone());
    interpreter.interpret(&expression(source))
}

fn local<'a>(state: &'a State, name: &str) -> Option<&'a Value> {
    find_cell(&state.locals, &name.to_string())
}

#[test]
fn arithmetic_and_comparisons_are_evaluated() {
    let state = blank(1);
    assert_eq!(value_in(&state, "1 + 2 * 3"), Ok(num(7)));
    assert_eq!(value_in(&state, "10 - 3 - 4"), Ok(num(3)));
    assert_eq!(value_in(&state, "10 * 3 % 4"), Ok(num(2)));
    assert_eq!(value_in(&state, "7 / 2"), Ok(num(3)));
    assert_eq!(value_in(&state, "(7) + 1"), Ok(num(8)));
    assert_eq!(value_in(&state, "1 < 2"), Ok(Value::Bool(true)));
    assert_eq!(value_in(&state, "2 <= 2"), Ok(Value::Bool(true)));
    assert_eq!(value_in(&state, "1 > 2"), Ok(Value::Bool(false)));
    assert_eq!(value_in(&state, "1 >= 2"), Ok(Value::Bool(false)));
    assert_eq!(value_in(&state, "1 = 1"), Ok(Value::Bool(true)));
    assert_eq!(value_in(&state, "1 <> 1"), Ok(Value::Bool(false)));
    assert_eq!(value_in(&state, "(1, 2) = (1, 2)"), Ok(Value::Bool(true)));
    assert_eq!(value_in(&state, "(1) = 1"), Ok(Value::Bool(false)));
    assert_eq!(value_in(&state, "2 in {1, 2}"), Ok(Value::Bool(true)));
    assert_eq!(value_in(&state, "3 in {1, 2}"), Ok(Value::Bool(false)));
    assert_eq!(value_in(&state, "1 = 1 and 2 = 3"), Ok(Value::Bool(false)));
    assert_eq!(value_in(&state, "1 = 1 or 2 = 3"), Ok(Value::Bool(true)));
    assert_eq!(value_in(&state, "'a'"), Ok(Value::String("'a'".to_string())));
    assert_eq!(value_in(&state, "{1, (2)}"), Ok(Value::SetOf(vec![num(1), Value::Scalar(Box::new(num(2)))])));
    assert_eq!(value_in(&state, "()"), Ok(Value::Tuple(vec![])));
}

#[test]
fn operands_of_the_wrong_kind_are_type_errors() {
    let state = blank(1);
    assert_eq!(
        value_in(&state, "1 + (1, 2)"),
        Err(InterpreterError::TypeError(
            Expression::Tuple(vec![Expression::Integer(1), Expression::Integer(2)]),
            Value::Tuple(vec![num(1), num(2)]),
            "integer".to_string()
        ))
    );
    assert_eq!(
        value_in(&state, "1 and 2 = 2"),
        Err(InterpreterError::TypeError(Expression::Integer(1), num(1), "bool".to_string()))
    );
    assert_eq!(
        value_in(&state, "1 in 2"),
        Err(InterpreterError::TypeError(Expression::Integer(2), num(2), "set".to_string()))
    );
    assert_eq!(
        value_in(&state, "1 / 0"),
        Err(InterpreterError::TypeError(
            Expression::Integer(0),
            num(0),
            "non-zero integer".to_string()
        ))
    );
    assert_eq!(
        value_in(&state, "1 % 0"),
        Err(InterpreterError::TypeError(
            Expression::Integer(0),
            num(0),
            "non-zero integer".to_string()
        ))
    );
    assert_eq!(
        value_in(&state, "1.committed"),
        Err(InterpreterError::TypeError(Expression::Integer(1), num(1), "transaction".to_string()))
    );
    let mut interpreter = Interpreter::new(blank(1));
    assert_eq!(interpreter.assert_integer(&expression("(3)")), Ok(3));
    assert_eq!(interpreter.assert_bool(&expression("1 = 1")), Ok(true));
    assert_eq!(interpreter.assert_set(&expression("{4}")), Ok(vec![num(4)]));
    assert_eq!(
        interpreter.assert_transaction(&expression("t")),
        Ok(Transaction(TransactionState::NotExisting))
    );
    assert!(interpreter.assert_integer(&expression("{4}")).is_err());
    assert!(interpreter.assert_bool(&expression("4")).is_err());
    assert!(interpreter.assert_set(&expression("4")).is_err());
    assert_eq!(
        interpreter.interpret_binary(&Expression::Integer(2), &Operator::Multiply, &Expression::Integer(4)),
        Ok(num(8))
    );
}

#[test]
fn variables_are_read_from_the_state_that_the_statement_started_from() {
    let (state, moved) = after(blank(1), 0, "let x := 5");
    assert_eq!(moved, Ok(1));
    assert_eq!(local(&state, "x"), Some(&num(5)));
    assert_eq!(value_in(&state, "x + 1"), Ok(num(6)));
    assert_eq!(
        value_in(&state, "y"),
        Ok(Value::Tx(Transaction(TransactionState::NotExisting)))
    );
    let (both, _) = after(state, 0, "(x := 6, x)");
    assert_eq!(local(&both, "x"), Some(&num(6)));
    let mut interpreter = Interpreter::new(both);
    assert_eq!(
        interpreter.interpret(&expression("(x := 7, x)")),
        Ok(Value::Tuple(vec![Value::Nil, num(6)]))
    );
    assert_eq!(local(&interpreter.next_state, "x"), Some(&num(7)));
    assert_eq!(local(&interpreter.state, "x"), Some(&num(6)));
}

#[test]
fn begin_commit_and_abort_follow_the_transaction() {
    let code = statements("transaction t1 read_committed do\n`insert into a(id) values (1)`\nend");
    let (begun, moved) = after(blank(2), 1, "transaction t1 read_committed do\nend");
    assert_eq!(moved, Ok(1));
    assert_eq!(code.len(), 3);
    assert_eq!(begun.txs[1].id, Some(TransactionId(1)));
    assert_eq!(begun.txs[1].name, Some("t1".to_string()));
    assert_eq!(begun.txs[1].state, TransactionState::Running);
    assert_eq!(begun.txs[0].id, None);
    assert_eq!(local(&begun, "t1"), Some(&Value::Tx(Transaction(TransactionState::Running))));
    assert_eq!(begun.sql.transactions.len(), 1);
    assert_eq!(value_in(&begun, "t1.committed"), Ok(Value::Bool(false)));
    assert_eq!(value_in(&begun, "t1.aborted"), Ok(Value::Bool(false)));

    let (inserted, _) = after(begun.clone(), 1, "`insert into a(id) values (1)`");
    assert_eq!(inserted.sql.transactions[0].1.changes.len(), 1);
    assert!(inserted.sql.tables[0].1.rows.is_empty());

    let (committed, moved) = after(inserted.clone(), 1, "commit");
    assert_eq!(moved, Ok(1));
    assert_eq!(committed.txs[1].id, None);
    assert_eq!(committed.txs[1].state, TransactionState::Committed);
    assert_eq!(committed.sql.tables[0].1.rows.len(), 1);
    assert!(committed.sql.transactions.is_empty());
    assert_eq!(value_in(&committed, "t1.committed"), Ok(Value::Bool(true)));
    assert_eq!(value_in(&committed, "t1.aborted"), Ok(Value::Bool(false)));
    let (again, _) = after(committed.clone(), 1, "commit");
    assert_eq!(again, committed);

    let (aborted, moved) = after(inserted, 1, "abort");
    assert_eq!(moved, Ok(1));
    assert_eq!(aborted.txs[1].id, None);
    assert_eq!(aborted.txs[1].state, TransactionState::Aborted);
    assert!(aborted.sql.tables[0].1.rows.is_empty());
    assert!(aborted.sql.transactions.is_empty());
    assert_eq!(value_in(&aborted, "t1.aborted"), Ok(Value::Bool(true)));
    assert_eq!(value_in(&aborted, "t1.committed"), Ok(Value::Bool(false)));
    assert_eq!(value_in(&aborted, "t1.whatever"), Ok(Value::Bool(false)));
}

#[test]
fn latch_and_jumps_move_the_process() {
    let (latched, moved) = after(blank(2), 0, "latch");
    assert_eq!(moved, Ok(1));
    assert_eq!(latched.processes, vec![ProcessState::Latching, ProcessState::Running]);
    let condition = |text: &str| Statement::If(expression(text), 5);
    let mut interpreter = Interpreter::new(blank(1));
    assert_eq!(interpreter.statement(&condition("1 = 1")), Ok(1));
    assert_eq!(interpreter.statement(&condition("1 = 2")), Ok(5));
    assert_eq!(interpreter.statement(&condition("(1 = 2)")), Ok(5));
    assert_eq!(interpreter.statement(&Statement::Else(3)), Ok(3));
    assert_eq!(
        interpreter.statement(&condition("1")),
        Err(InterpreterError::TypeError(Expression::Integer(1), num(1), "bool".to_string()))
    );
    assert_eq!(
        interpreter.statement(&Statement::Always(Expression::Integer(1))),
        Err(InterpreterError::Unexpected("unexpected statement in process".to_string()))
    );
    interpreter.idx = 4;
    assert_eq!(
        interpreter.statement(&Statement::Latch),
        Err(InterpreterError::Unexpected("no such process".to_string()))
    );
}

#[test]
fn a_lock_that_cannot_be_had_blocks_the_process() {
    let (filled, _) = after(blank(2), 0, "`insert into a(id) values (1)`");
    let (first, _) = after(filled, 0, "begin read_committed");
    let (second, _) = after(first, 1, "begin read_committed");
    let (holding, moved) = after(second, 0, "`update a set id := 2 where id = 1`");
    assert_eq!(moved, Ok(1));
    let (blocked, moved) = after(holding.clone(), 1, "`update a set id := 3 where id = 1`");
    assert_eq!(moved, Ok(0));
    assert_eq!(blocked.processes[1], ProcessState::Locked(Lock::RowUpdate(RowId(1))));
    assert_eq!(blocked.processes[0], ProcessState::Running);
    assert_eq!(blocked.sql.tables, holding.sql.tables);
    assert_eq!(blocked.sql.transactions, holding.sql.transactions);
}

#[test]
fn a_violated_unique_index_or_foreign_key_is_stepped_past() {
    let (indexed, _) = after(blank(1), 0, "`create unique index on u(k)`");
    let (filled, _) = after(indexed, 0, "`insert into u(k) values (1)`");
    let (same, moved) = after(filled.clone(), 0, "`insert into u(k) values (1)`");
    assert_eq!(moved, Ok(1));
    assert_eq!(same.sql.tables, filled.sql.tables);
    assert!(same.sql.transactions.is_empty());
    assert_eq!(same.processes[0], ProcessState::Running);
    let (keyed, _) = after(
        same,
        0,
        "`alter table c add constraint fk foreign key(k) references u(k)`",
    );
    let (orphan, moved) = after(keyed.clone(), 0, "`insert into c(k) values (7)`");
    assert_eq!(moved, Ok(1));
    assert_eq!(orphan.sql.tables, keyed.sql.tables);
    assert!(orphan.sql.transactions.is_empty());
}

#[test]
fn other_failures_of_the_database_end_the_run() {
    let (state, moved) = after(blank(1), 0, "`select id from a where x = 1 for update`");
    assert_eq!(moved, Ok(1));
    let (filled, _) = after(state, 0, "`insert into a(id) values (1)`");
    let (failed, moved) = after(filled.clone(), 0, "`select id from a where x = 1`");
    assert_eq!(
        moved,
        Err(InterpreterError::SqlEngineError(SqlEngineError::UnknownVariable("x".to_string())))
    );
    assert!(failed.sql.transactions.is_empty());
    assert_eq!(failed.sql.tables, filled.sql.tables);
}

#[test]
fn queries_get_the_values_of_the_variables() {
    let (x, _) = after(blank(1), 0, "let x := 4");
    let (filled, _) = after(x, 0, "`insert into a(id, v) values ($x, $nothing)`");
    assert_eq!(
        filled.sql.tables[0].1.rows[0].tuples,
        vec![("id".to_string(), num(4)), ("v".to_string(), Value::Nil)]
    );
    assert_eq!(value_in(&filled, "`select id from a where id = $x`"), Ok(num(4)));
    let interpreter = Interpreter::new(filled);
    let sql = match expression("`select id from a where id = $x order by $x`") {
        Expression::Sql(sql) => sql,
        other => panic!("no query: {other:?}"),
    };
    let reified = interpreter.reify_up_variable(&sql).unwrap();
    assert_eq!(
        reified,
        SqlExpression::Select {
            columns: vec![entremets::ast::SelectItem::Column(entremets::ast::Item::Column(
                "id".to_string()
            ))],
            from: var("a"),
            condition: Some(Box::new(SqlExpression::Binary {
                left: Box::new(SqlExpression::Var(var("id"))),
                operator: entremets::ast::SqlOperator::Equal,
                right: Box::new(SqlExpression::Value(num(4))),
            })),
            order_by: Some(Box::new(SqlExpression::Value(num(4)))),
            limit: None,
            offset: None,
            locking: false,
        }
    );
}

#[test]
fn putting_values_in_twice_is_putting_them_in_once() {
    let locals = vec![("x".to_string(), num(1)), ("y".to_string(), Value::String("s".to_string()))];
    let later = vec![("x".to_string(), num(2))];
    let queries = [
        "select a from t where a = $x and b in ($y, $z) order by $x",
        "update t set a := $x, b := b + $x where a = $y",
        "insert into t(a, b) values ($x, $y), (1, ($x))",
        "delete from t where a between $x and $y",
        "create unique index on t(a)",
    ];
    for text in queries {
        let sql = match expression(&format!("`{text}`")) {
            Expression::Sql(sql) => sql,
            other => panic!("no query: {other:?}"),
        };
        let once = reify_expression(&sql, &locals);
        assert_eq!(reify_expression(&once, &locals), once);
        assert_eq!(reify_expression(&once, &later), once);
        assert_eq!(reify_expression(&once, &vec![]), once);
    }
    let up = SqlExpression::UpVariable(var("x"));
    assert_eq!(reify_expression(&up, &locals), SqlExpression::Value(num(1)));
    assert_eq!(reify_expression(&up, &vec![]), SqlExpression::Value(Value::Nil));
}

#[test]
fn properties_are_checked_on_committed_data() {
    let (filled, _) = after(blank(1), 0, "`insert into a(id) values (1)`");
    let (begun, _) = after(filled, 0, "begin read_committed");
    let (pending, _) = after(begun, 0, "`insert into a(id) values (2)`");
    assert_eq!(value_in(&pending, "`select count(*) from a`"), Ok(num(2)));
    let mut interpreter = Interpreter::new(pending.clone());
    assert_eq!(interpreter.running_tx(), Some(TransactionId(2)));
    let count = |n: i16| expression(&format!("`select count(*) from a` = {n}"));
    assert_eq!(
        interpreter.check_property(&Statement::Always(count(1))),
        Ok(PropertyCheck::Always(true))
    );
    assert_eq!(
        interpreter.check_property(&Statement::Always(count(2))),
        Ok(PropertyCheck::Always(false))
    );
    assert_eq!(
        interpreter.check_property(&Statement::Never(count(2))),
        Ok(PropertyCheck::Always(true))
    );
    assert_eq!(
        interpreter.check_property(&Statement::Never(count(1))),
        Ok(PropertyCheck::Always(false))
    );
    assert_eq!(
        interpreter.check_property(&Statement::Never(Expression::Integer(1))),
        Ok(PropertyCheck::Always(false))
    );
    assert_eq!(
        interpreter.check_property(&Statement::Eventually(count(1))),
        Ok(PropertyCheck::Eventually(true))
    );
    assert_eq!(
        interpreter.check_property(&Statement::Eventually(count(2))),
        Ok(PropertyCheck::Eventually(false))
    );
    assert_eq!(
        interpreter.check_property(&Statement::Latch),
        Err(InterpreterError::Unexpected("unsupported property: Latch".to_string()))
    );
    assert_eq!(
        interpreter.check_property(&Statement::Else(3)),
        Err(InterpreterError::Unexpected("unsupported property: Else(3)".to_string()))
    );
    assert!(!interpreter.checking);
    assert_eq!(interpreter.next_state, pending);
    assert_eq!(interpreter.state, pending);
}

#[test]
fn the_interpreter_hands_out_the_state_in_the_making() {
    let mut interpreter = Interpreter::new(blank(1));
    assert_eq!(interpreter.idx, 0);
    assert!(!interpreter.checking);
    interpreter.statement(&statement("let x := 1")).unwrap();
    let made = interpreter.next_state();
    assert_eq!(local(&made, "x"), Some(&num(1)));
    assert_eq!(interpreter.next_state, blank(1));
    assert_eq!(interpreter.state, blank(1));
}

#[test]
fn a_query_for_a_transaction_that_is_not_open_fails_for_good() {
    let mut state = blank(1);
    state.txs[0] = TransactionInfo {
        id: Some(TransactionId(7)),
        name: None,
        state: TransactionState::Running,
    };
    let (next, moved) = after(state, 0, "`insert into a(id) values (1)`");
    assert_eq!(
        moved,
        Err(InterpreterError::Unexpected("transaction is not open".to_string()))
    );
    assert!(next.sql.tables.is_empty());
    assert!(next.sql.transactions.is_empty());
}
