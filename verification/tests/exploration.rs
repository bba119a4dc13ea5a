use std::collections::HashSet;
use entremets::ast::Statement;
use entremets::engine::{init_state, model_checker, Exploration, Report, Violation};
use entremets::parser::Parser;
use entremets::reporter::summary;
use entremets::sql_interpreter::SqlDatabase;
use entremets::state::{ProcessState, RcState, State, TransactionInfo};
use entremets::store::{Lock, RowId, TransactionId};
use entremets::value::{TransactionState, Value};

fn compile(source: &str) -> entremets::ast::Mets {
    Parser::new(source.to_string()).compile().expect("the model reads")
}

fn explore(source: &str) -> Report {
    model_checker(&compile(source)).expect("the exploration ends")
}

fn steps_to(report: &Report, mut at: usize) -> usize {
    let mut steps = 0;
    while at > 0 {
        at = report.states[at].ancestors[0].0;
        steps += 1;
    }
    steps
}

fn culprit(report: &Report) -> usize {
    match report.violation.as_ref().expect("something was found") {
        Violation::PropertyViolation { state, .. } => state.0,
        Violation::Deadlock { state, .. } => state.0,
    }
}

fn shaped(report: &Report, code: &[usize], properties: usize) {
    for (i, state) in report.states.iter().enumerate() {
        assert_eq!(state.pc.len(), code.len());
        assert_eq!(state.processes.len(), code.len());
        assert_eq!(state.txs.len(), code.len());
        assert_eq!(state.eventually.len(), properties);
        for (p, length) in code.iter().enumerate() {
            assert!(state.pc[p] <= *length);
            assert_eq!(state.pc[p] == *length, state.processes[p] == ProcessState::Finished);
        }
        if i > 0 {
            let parent = state.ancestors[0].0;
            assert!(parent < i);
            for (id, flag) in report.states[parent].eventually.iter().enumerate() {
                if *flag == Some(true) {
                    assert_eq!(state.eventually[id], Some(true));
                }
            }
        }
    }
}

const LOST_UPDATE: &str = "init do\n`insert into a(id, balance) values (1, 100)`\nend\n\
process do\nbegin read_committed\nlet x := `select balance from a where id = 1`\n`update a set balance := $x + 10 where id = 1`\ncommit\nend\n\
process do\nbegin read_committed\nlet y := `select balance from a where id = 1`\n`update a set balance := $y + 10 where id = 1`\ncommit\nend\n";

const NO_LOST_UPDATE: &str = "init do\n`insert into a(id, balance) values (1, 100)`\nend\n\
process do\nbegin read_committed\nlet x := `select balance from a where id = 1 for update`\n`update a set balance := $x + 10 where id = 1`\ncommit\nend\n\
process do\nbegin read_committed\nlet y := `select balance from a where id = 1 for update`\n`update a set balance := $y + 10 where id = 1`\ncommit\nend\n";

#[test]
fn the_empty_model_has_one_state() {
    let report = explore("");
    assert_eq!(report.states_explored, 1);
    assert_eq!(report.states.len(), 1);
    assert_eq!(report.violation, None);
    assert_eq!(report.expanded, vec![0]);
    assert_eq!(summary(&compile(""), &report), "No counter example found\nStates explored: 1");
}

#[test]
fn without_processes_always_must_hold_at_the_start() {
    let holds = explore("init do\nlet a := 1\nend\nproperty always(a = 1)\n");
    assert_eq!(holds.violation, None);
    assert_eq!(holds.states_explored, 1);
    let fails = explore("init do\nlet a := 1\nend\nproperty always(a = 2)\n");
    assert!(matches!(
        fails.violation,
        Some(Violation::PropertyViolation { property: Statement::Always(_), state: RcState(0) })
    ));
    assert_eq!(fails.states_explored, 0);
    let never = explore("init do\nlet a := 1\nend\nproperty never(a = 1)\n");
    assert!(matches!(
        never.violation,
        Some(Violation::PropertyViolation { property: Statement::Never(_), state: RcState(0) })
    ));
}

#[test]
fn without_processes_eventually_must_hold_at_the_start() {
    let holds = explore("init do\nlet a := 1\nend\nproperty eventually(a = 1)\n");
    assert_eq!(holds.violation, None);
    assert_eq!(holds.states[0].eventually, vec![Some(true)]);
    let fails = explore("init do\nlet a := 1\nend\nproperty eventually(a = 2)\n");
    assert!(matches!(
        fails.violation,
        Some(Violation::PropertyViolation { property: Statement::Eventually(_), state: RcState(0) })
    ));
    assert_eq!(fails.states_explored, 1);
    assert_eq!(fails.states[0].eventually, vec![Some(false)]);
}

#[test]
fn a_process_without_code_has_finished() {
    let report = explore("process do\nend\nprocess do\nlatch\nend\n");
    assert_eq!(report.violation, None);
    assert_eq!(
        report.states[0].processes,
        vec![ProcessState::Finished, ProcessState::Running]
    );
    assert_eq!(report.states_explored, 2);
    shaped(&report, &[0, 1], 0);
}

#[test]
fn the_setup_runs_in_order_and_commits() {
    let mets = compile(
        "init do\nbegin read_committed\n`insert into a(id) values (1)`\nlet n := `select count(*) from a`\nif n = 1 do\nlet seen := 1\nelse\nlet seen := 0\nend\nend\nprocess do\nlatch\nend\nproperty always(1 = 1)\n",
    );
    let state = init_state(&mets).expect("the setup runs");
    assert_eq!(state.pc, vec![0]);
    assert_eq!(state.processes, vec![ProcessState::Running]);
    assert_eq!(
        state.txs,
        vec![TransactionInfo { id: None, name: None, state: TransactionState::NotExisting }]
    );
    assert_eq!(state.eventually, vec![None]);
    assert!(state.ancestors.is_empty());
    assert!(state.sql.transactions.is_empty());
    assert_eq!(state.sql.tables[0].1.rows.len(), 1);
    assert_eq!(
        state.locals,
        vec![("n".to_string(), Value::Integer(1)), ("seen".to_string(), Value::Integer(1))]
    );
}

#[test]
fn a_setup_that_fails_ends_the_exploration() {
    let mets = compile("init do\nlet a := 1 + (1, 2)\nend\n");
    assert!(init_state(&mets).is_err());
    let text = model_checker(&mets).expect_err("no report");
    assert!(text.contains("TypeError"), "{text}");
    assert!(text.contains("integer"), "{text}");
    let unknown = compile("process do\n`select a from t where b = 1`\nend\ninit do\n`insert into t(a) values (1)`\nend\n");
    let text = model_checker(&unknown).expect_err("no report");
    assert!(text.contains("UnknownVariable(\"b\")"), "{text}");
}

#[test]
fn a_latching_process_is_released_when_the_other_has_finished() {
    let report = explore(
        "process do\nlatch\nlet a := 1\nend\nprocess do\nlet b := 1\nend\nproperty eventually(a = 1)\nproperty eventually(b = 1)\n",
    );
    assert_eq!(report.violation, None);
    shaped(&report, &[2, 1], 2);
    let last = &report.states[*report.expanded.last().unwrap()];
    assert_eq!(last.processes, vec![ProcessState::Finished, ProcessState::Finished]);
    assert_eq!(last.eventually, vec![Some(true), Some(true)]);
    assert!(report
        .states
        .iter()
        .any(|s| s.processes == vec![ProcessState::Latching, ProcessState::Running]));
    assert!(report
        .states
        .iter()
        .any(|s| s.processes == vec![ProcessState::Running, ProcessState::Finished] && s.pc == vec![1, 1]));
}

#[test]
fn latching_processes_release_one_another() {
    let report = explore(
        "process do\nlatch\nlet a := 1\nend\nprocess do\nlatch\nlet b := 1\nend\nproperty eventually(a = 1 and b = 1)\n",
    );
    assert_eq!(report.violation, None);
    assert!(report
        .states
        .iter()
        .any(|s| s.processes == vec![ProcessState::Running, ProcessState::Running] && s.pc == vec![1, 1]));
    assert!(!report
        .states
        .iter()
        .any(|s| s.processes == vec![ProcessState::Latching, ProcessState::Latching]));
}

#[test]
fn one_of_two_updates_of_a_row_waits() {
    let report = explore(
        "init do\n`insert into a(id, v) values (1, 0)`\nend\n\
         process do\nbegin read_committed\n`update a set v := 1 where id = 1`\ncommit\nend\n\
         process do\nbegin read_committed\n`update a set v := 2 where id = 1`\ncommit\nend\n\
         property eventually(`select v from a where id = 1` > 0)\n",
    );
    assert_eq!(report.violation, None);
    shaped(&report, &[3, 3], 1);
    assert!(report
        .states
        .iter()
        .any(|s| s.processes[1] == ProcessState::Locked(Lock::RowUpdate(RowId(1)))));
    assert!(report
        .states
        .iter()
        .any(|s| s.processes[0] == ProcessState::Locked(Lock::RowUpdate(RowId(1)))));
    let last = report.states.last().unwrap();
    assert_eq!(last.processes, vec![ProcessState::Finished, ProcessState::Finished]);
}

#[test]
fn lost_update() {
    let source = format!(
        "{LOST_UPDATE}property eventually(`select balance from a where id = 1` = 120)\n"
    );
    let report = explore(&source);
    shaped(&report, &[4, 4], 1);
    let at = culprit(&report);
    assert!(matches!(
        report.violation,
        Some(Violation::PropertyViolation { property: Statement::Eventually(_), .. })
    ));
    assert!(steps_to(&report, at) <= 8);
    assert_eq!(steps_to(&report, at), 8);
    let last = &report.states[at];
    assert_eq!(last.processes, vec![ProcessState::Finished, ProcessState::Finished]);
    assert_eq!(last.eventually, vec![Some(false)]);
    assert_eq!(
        last.sql.tables[0].1.rows[0].tuples,
        vec![("id".to_string(), Value::Integer(1)), ("balance".to_string(), Value::Integer(110))]
    );
    let never = format!("{LOST_UPDATE}property never(`select balance from a where id = 1` = 110 and finished = 2)\n");
    assert_eq!(explore(&never).violation, None);
}

#[test]
fn not_lost_update() {
    let source = format!(
        "{NO_LOST_UPDATE}property eventually(`select balance from a where id = 1` = 120)\nproperty never(`select balance from a where id = 1` > 120)\n"
    );
    let report = explore(&source);
    assert_eq!(report.violation, None);
    shaped(&report, &[4, 4], 2);
    let done: Vec<&State> = report
        .states
        .iter()
        .filter(|s| s.processes == vec![ProcessState::Finished, ProcessState::Finished])
        .collect();
    assert!(!done.is_empty());
    for state in done {
        assert_eq!(
            state.sql.tables[0].1.rows[0].tuples[1],
            ("balance".to_string(), Value::Integer(120))
        );
    }
}

#[test]
fn unique_contraint() {
    let report = explore(
        "init do\n`create unique index on u(k)`\nend\n\
         process do\ntransaction t1 read_committed do\n`insert into u(k) values (1)`\nend\nend\n\
         process do\ntransaction t2 read_committed do\n`insert into u(k) values (1)`\nend\nend\n\
         property eventually(`select count(*) from u where k = 1` = 1)\n\
         property never(`select count(*) from u where k = 1` > 1)\n",
    );
    assert_eq!(report.violation, None);
    shaped(&report, &[3, 3], 2);
    let lock_waits = report
        .states
        .iter()
        .filter(|s| s.processes.iter().any(|p| matches!(p, ProcessState::Locked(Lock::Unique(..)))))
        .count();
    assert!(lock_waits > 0);
    for state in &report.states {
        if state.processes == vec![ProcessState::Finished, ProcessState::Finished] {
            assert_eq!(state.sql.tables[0].1.rows.len(), 1);
        }
    }
}

#[test]
fn duplicate_creation() {
    let report = explore(
        "init do\n`create unique index on u(k)`\nend\n\
         process do\n`insert into u(k) values (1)`\nend\n\
         process do\n`insert into u(k) values (1)`\nend\n\
         property eventually(`select count(*) from u where k = 1` = 1)\n",
    );
    assert_eq!(report.violation, None);
    assert_eq!(report.states_explored, 4);
    assert_eq!(report.states.len(), 5);
}

#[test]
fn delete() {
    let report = explore(
        "init do\n`insert into users(id) values (1)`\n`alter table orders add constraint fk foreign key(user_id) references users(id)`\nend\n\
         process do\n`delete from users where id = 1`\nend\n\
         process do\n`insert into orders(user_id) values (1)`\nend\n\
         property never(`select count(*) from orders` > `select count(*) from users`)\n",
    );
    assert_eq!(report.violation, None);
    assert_eq!(report.states_explored, 5);
    for state in &report.states {
        if state.processes == vec![ProcessState::Finished, ProcessState::Finished] {
            assert!(state.sql.tables.iter().all(|(_, table)| table.rows.is_empty()));
        }
    }
}

#[test]
fn deadlocks() {
    let source = "init do\n`insert into a(id, v) values (1, 0), (2, 0)`\nend\n\
         process do\nbegin read_committed\n`update a set v := 1 where id = 1`\n`update a set v := 1 where id = 2`\ncommit\nend\n\
         process do\nbegin read_committed\n`update a set v := 2 where id = 2`\n`update a set v := 2 where id = 1`\ncommit\nend\n";
    let report = explore(source);
    let at = culprit(&report);
    match report.violation.as_ref().unwrap() {
        Violation::Deadlock { cycle, state } => {
            assert_eq!(cycle, &HashSet::from([0, 1]));
            assert_eq!(state.0, report.states.len() - 1);
        }
        other => panic!("no deadlock: {other:?}"),
    }
    assert_eq!(
        report.states[at].processes,
        vec![
            ProcessState::Locked(Lock::RowUpdate(RowId(2))),
            ProcessState::Locked(Lock::RowUpdate(RowId(1)))
        ]
    );
    assert_eq!(report.states[at].pc, vec![2, 2]);
    assert_eq!(steps_to(&report, at), 6);
    assert_eq!(report.states[at].find_deadlocks(), Some(HashSet::from([0, 1])));
    assert_eq!(
        summary(&compile(source), &report),
        format!(
            "System ran into a deadlock:\n\
             Process 0 waits for the update lock on row 2\n\
             Process 1 waits for the update lock on row 1\n\
             Process 0: begin read committed\n\
             Process 0: update a set v := 1 where id = 1\n\
             Process 1: begin read committed\n\
             Process 1: update a set v := 2 where id = 2\n\
             \nStates explored: {}",
            report.states_explored
        )
    );
}

#[test]
fn locking_selects_that_scan_every_row_do_not_deadlock() {
    let report = explore(
        "init do\n`insert into a(id, v) values (1, 0), (2, 0)`\nend\n\
         process do\nbegin read_committed\n`select v from a where id = 1 for update`\n`select v from a where id = 2 for update`\ncommit\nend\n\
         process do\nbegin read_committed\n`select v from a where id = 2 for update`\n`select v from a where id = 1 for update`\ncommit\nend\n",
    );
    assert_eq!(report.violation, None);
    assert!(report
        .states
        .iter()
        .any(|s| s.processes[1] == ProcessState::Locked(Lock::RowUpdate(RowId(1)))));
}

#[test]
fn a_flag_that_is_set_is_eventually_set() {
    let report = explore("init do\nlet flag := 0\nend\nprocess do\nlet flag := 1\nlet flag := 0\nend\nproperty eventually(flag = 1)\n");
    assert_eq!(report.violation, None);
    assert_eq!(report.states_explored, 3);
    assert_eq!(report.states[0].eventually, vec![Some(false)]);
    assert_eq!(report.states[1].eventually, vec![Some(true)]);
    assert_eq!(report.states[2].eventually, vec![Some(true)]);
}

#[test]
fn a_flag_that_may_stay_unset_is_reported_at_the_end() {
    let source = "init do\n`insert into f(flag) values (0)`\nend\n\
         process do\ntransaction t read_committed do\n`update f set flag := 1`\nif `select count(*) from g` = 0 do\nabort\nend\nend\nend\n\
         property eventually(`select flag from f` = 1)\n";
    let mets = compile(source);
    assert_eq!(mets.processes[0].len(), 4);
    let report = explore(source);
    let at = culprit(&report);
    assert!(matches!(
        report.violation,
        Some(Violation::PropertyViolation { property: Statement::Eventually(_), .. })
    ));
    assert_eq!(report.states[at].processes, vec![ProcessState::Finished]);
    assert_eq!(
        report.states[at].sql.tables[0].1.rows[0].tuples,
        vec![("flag".to_string(), Value::Integer(0))]
    );
    assert_eq!(report.states[at].eventually, vec![Some(false)]);
}

#[test]
fn symmetric_processes_are_explored_once_per_state() {
    let report = explore("process do\nlet x := 1\nend\nprocess do\nlet y := 1\nend\n");
    assert_eq!(report.violation, None);
    assert_eq!(report.states_explored, 4);
    assert_eq!(report.states.len(), 5);
    assert_eq!(report.expanded, vec![0, 1, 2, 3]);
    assert_eq!(report.states[3].ancestors, vec![RcState(1), RcState(2)]);
    assert_eq!(report.states[3].hash().same(&report.states[4].hash()), true);
    let three = explore(
        "process do\nlet x := 1\nend\nprocess do\nlet y := 1\nend\nprocess do\nlet z := 1\nend\n",
    );
    assert_eq!(three.states_explored, 8);
    assert_eq!(three.states.len(), 13);
    let longer = explore("process do\nlet x := 1\nlet x2 := 1\nend\nprocess do\nlet y := 1\nlet y2 := 1\nend\n");
    assert_eq!(longer.states_explored, 9);
    assert!(longer.states_explored < 19);
}

#[test]
fn what_tells_states_apart_ignores_order_and_row_identifiers() {
    let base = State {
        pc: vec![1],
        processes: vec![ProcessState::Running],
        txs: vec![TransactionInfo { id: None, name: None, state: TransactionState::NotExisting }],
        sql: SqlDatabase::new(),
        locals: vec![("x".to_string(), Value::Integer(1)), ("y".to_string(), Value::Integer(2))],
        ancestors: vec![],
        eventually: vec![Some(false)],
    };
    let mut swapped = base.clone();
    swapped.locals.reverse();
    swapped.ancestors.push(RcState(3));
    swapped.txs[0].id = Some(TransactionId(4));
    assert!(base.hash().same(&swapped.hash()));
    let mut other = base.clone();
    other.locals[1].1 = Value::Integer(3);
    assert!(!base.hash().same(&other.hash()));
    let mut moved = base.clone();
    moved.pc[0] = 2;
    assert!(!base.hash().same(&moved.hash()));
    let mut waiting = base.clone();
    waiting.processes[0] = ProcessState::Latching;
    assert!(!base.hash().same(&waiting.hash()));
    let mut flagged = base.clone();
    flagged.eventually[0] = Some(true);
    assert!(!base.hash().same(&flagged.hash()));
    let mut more = base.clone();
    more.locals.push(("z".to_string(), Value::Nil));
    assert!(!base.hash().same(&more.hash()));
    assert!(!more.hash().same(&base.hash()));
}

#[test]
fn an_exploration_moves_state_by_state() {
    let mets = compile("process do\nlet x := 1\nend\n");
    let mut exploration = Exploration {
        states: vec![init_state(&mets).unwrap()],
        cursor: 0,
        visited: vec![],
        owners: vec![],
        states_explored: 0,
    };
    assert_eq!(exploration.explore_next(&mets), Ok(None));
    assert_eq!(exploration.cursor, 1);
    assert_eq!(exploration.states.len(), 2);
    assert_eq!(exploration.states_explored, 1);
    assert_eq!(exploration.states[1].ancestors, vec![RcState(0)]);
    let again = exploration.states[1].clone();
    exploration.states.push(again);
    assert_eq!(exploration.explore_next(&mets), Ok(None));
    assert_eq!(exploration.states_explored, 2);
    assert_eq!(exploration.states.len(), 3);
    assert_eq!(exploration.explore_next(&mets), Ok(None));
    assert_eq!(exploration.states_explored, 2);
    assert_eq!(exploration.states.len(), 3);
    assert_eq!(exploration.visited.len(), 2);
    assert_eq!(exploration.owners, vec![0, 1]);
    assert_eq!(exploration.states[1].ancestors, vec![RcState(0), RcState(0)]);
    assert_eq!(RcState::new(1).borrow(&exploration.states), &exploration.states[1]);
}
