use entremets::ast::IsolationLevel;
use std::collections::HashSet;
use entremets::sql_interpreter::SqlDatabase;
use entremets::state::{ProcessState, RcState, State, TransactionInfo};
use entremets::store::{Lock, RowId, TransactionId};
use entremets::value::TransactionState;

fn info(id: Option<TransactionId>) -> TransactionInfo {
    TransactionInfo {
        id,
        name: None,
        state: if id.is_some() { TransactionState::Running } else { TransactionState::NotExisting },
    }
}

fn state(processes: Vec<ProcessState>, holds: Vec<Vec<Lock>>) -> State {
    let mut sql = SqlDatabase::new();
    let mut txs = vec![];
    for locks in holds {
        let id = sql.open_transaction(IsolationLevel::ReadCommitted);
        for lock in locks {
            sql.hold(id, lock);
        }
        txs.push(info(Some(id)));
    }
    while txs.len() < processes.len() {
        txs.push(info(None));
    }
    State {
        pc: vec![0; processes.len()],
        processes,
        txs,
        sql,
        locals: vec![],
        ancestors: vec![],
        eventually: vec![],
    }
}

fn waits(row: usize) -> ProcessState {
    ProcessState::Locked(Lock::RowUpdate(RowId(row)))
}

#[test]
fn a_waiting_process_runs_again_once_the_lock_is_free() {
    let mut held = state(
        vec![waits(1), ProcessState::Running],
        vec![vec![], vec![Lock::RowUpdate(RowId(1))]],
    );
    held.unlock_locks();
    assert_eq!(held.processes, vec![waits(1), ProcessState::Running]);
    held.sql.commit(&TransactionId(2));
    held.unlock_locks();
    assert_eq!(held.processes, vec![ProcessState::Running, ProcessState::Running]);
}

#[test]
fn a_key_share_lock_holds_an_update_back_and_another_key_share_not() {
    let mut shared = state(
        vec![waits(1), ProcessState::Locked(Lock::RowForKeyShare(RowId(1))), ProcessState::Finished],
        vec![vec![], vec![], vec![Lock::RowForKeyShare(RowId(1))]],
    );
    shared.unlock_locks();
    assert_eq!(
        shared.processes,
        vec![waits(1), ProcessState::Running, ProcessState::Finished]
    );
}

#[test]
fn a_process_does_not_wait_for_its_own_transaction() {
    let mut own = state(vec![waits(1)], vec![vec![Lock::RowUpdate(RowId(1))]]);
    assert!(!own.is_held_against(Some(TransactionId(1)), &Lock::RowUpdate(RowId(1))));
    assert!(own.is_held_against(None, &Lock::RowUpdate(RowId(1))));
    assert!(own.is_held_against(Some(TransactionId(2)), &Lock::RowUpdate(RowId(1))));
    assert!(!own.is_held_against(None, &Lock::RowUpdate(RowId(2))));
    own.unlock_locks();
    assert_eq!(own.processes, vec![ProcessState::Running]);
}

#[test]
fn latches_open_when_every_process_latches_or_has_finished() {
    let mut all = state(
        vec![ProcessState::Latching, ProcessState::Finished, ProcessState::Latching],
        vec![],
    );
    all.unlock_latches();
    assert_eq!(
        all.processes,
        vec![ProcessState::Running, ProcessState::Finished, ProcessState::Running]
    );
    let mut running = state(vec![ProcessState::Latching, ProcessState::Running], vec![]);
    running.unlock_latches();
    assert_eq!(running.processes, vec![ProcessState::Latching, ProcessState::Running]);
    let mut waiting = state(vec![ProcessState::Latching, waits(1)], vec![]);
    waiting.unlock_latches();
    assert_eq!(waiting.processes, vec![ProcessState::Latching, waits(1)]);
    let mut none = state(vec![], vec![]);
    none.unlock_latches();
    assert!(none.processes.is_empty());
    let mut done = state(vec![ProcessState::Finished], vec![]);
    done.unlock_latches();
    assert_eq!(done.processes, vec![ProcessState::Finished]);
}

#[test]
fn processes_that_wait_on_one_another_are_a_deadlock() {
    let two = state(
        vec![waits(2), waits(1)],
        vec![vec![Lock::RowUpdate(RowId(1))], vec![Lock::RowUpdate(RowId(2))]],
    );
    assert_eq!(two.find_deadlocks(), Some(HashSet::from([0, 1])));
    let three = state(
        vec![waits(2), waits(3), waits(1), ProcessState::Running],
        vec![
            vec![Lock::RowUpdate(RowId(1))],
            vec![Lock::RowUpdate(RowId(2))],
            vec![Lock::RowUpdate(RowId(3))],
            vec![Lock::RowUpdate(RowId(4))],
        ],
    );
    assert_eq!(three.find_deadlocks(), Some(HashSet::from([0, 1, 2])));
}

#[test]
fn a_process_behind_a_deadlock_is_no_part_of_it() {
    let behind = state(
        vec![waits(2), waits(1), waits(1)],
        vec![vec![Lock::RowUpdate(RowId(1))], vec![Lock::RowUpdate(RowId(2))], vec![]],
    );
    assert_eq!(behind.find_deadlocks(), Some(HashSet::from([0, 1])));
    let before = state(
        vec![waits(1), waits(2), waits(1)],
        vec![vec![], vec![Lock::RowUpdate(RowId(1))], vec![Lock::RowUpdate(RowId(2))]],
    );
    assert_eq!(before.find_deadlocks(), Some(HashSet::from([1, 2])));
}

#[test]
fn of_two_deadlocks_the_one_of_the_first_process_is_given() {
    let two = state(
        vec![waits(2), waits(1), waits(4), waits(3)],
        vec![
            vec![Lock::RowUpdate(RowId(1))],
            vec![Lock::RowUpdate(RowId(2))],
            vec![Lock::RowUpdate(RowId(3))],
            vec![Lock::RowUpdate(RowId(4))],
        ],
    );
    assert_eq!(two.find_deadlocks(), Some(HashSet::from([0, 1])));
}

#[test]
fn a_chain_of_waiting_processes_is_no_deadlock() {
    let chain = state(
        vec![waits(2), waits(3), ProcessState::Running],
        vec![
            vec![Lock::RowUpdate(RowId(1))],
            vec![Lock::RowUpdate(RowId(2))],
            vec![Lock::RowUpdate(RowId(3))],
        ],
    );
    assert_eq!(chain.find_deadlocks(), None);
    let free = state(vec![waits(9)], vec![vec![]]);
    assert_eq!(free.find_deadlocks(), None);
    let own = state(vec![waits(1)], vec![vec![Lock::RowUpdate(RowId(1))]]);
    assert_eq!(own.find_deadlocks(), None);
    let leaked = state(
        vec![waits(1), ProcessState::Finished],
        vec![vec![], vec![Lock::RowUpdate(RowId(1))]],
    );
    assert_eq!(leaked.find_deadlocks(), None);
    assert_eq!(state(vec![], vec![]).find_deadlocks(), None);
}

#[test]
fn process_states_compare_by_content() {
    assert!(waits(1).same(&waits(1)));
    assert!(!waits(1).same(&waits(2)));
    assert!(!waits(1).same(&ProcessState::Running));
    assert!(ProcessState::Latching.same(&ProcessState::Latching));
    assert!(ProcessState::Finished.same(&ProcessState::Finished));
    assert_eq!(waits(1).clone(), waits(1));
}

#[test]
fn a_state_in_the_store_is_changed_through_its_reference() {
    let mut store = vec![
        state(vec![ProcessState::Running], vec![]),
        state(vec![ProcessState::Latching], vec![]),
    ];
    let second = RcState::new(1);
    assert_eq!(second.borrow(&store).processes, vec![ProcessState::Latching]);
    second.borrow_mut(&mut store).ancestors.push(RcState::new(0));
    assert_eq!(store[1].ancestors, vec![RcState::new(0)]);
    assert_eq!(store[0].ancestors, vec![]);
}
