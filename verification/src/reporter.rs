//! Putting what an exploration has found into words.

use crate::ast::{statements_of, Mets, Statement, StatementModel};
use crate::engine::{code_of, Report, Violation};
use crate::format::{count, nat_text};
use crate::grammar::{Fault, KindModel};
use crate::parser::{IntegerError, ParserError, ParserErrorKind};
use crate::render::{
    debug_text, lock_text, position, position_text, quoted, select_item_text, statement_text,
};
use crate::scanner::{Position, ScannerError, ScannerErrorModel};
use crate::state::{ProcessModel, ProcessState, State, StateModel};
use std::collections::HashSet;
use vstd::prelude::*;
use vstd::string::*;

verus! {

broadcast use vstd::std_specs::hash::group_hash_axioms;

/// The state from which the state at `at` was first reached, if it was
/// reached from an earlier one.
pub open spec fn parent_of(states: Seq<State>, at: int) -> Option<int> {
    if 0 < at < states.len() && states[at]@.ancestors.len() > 0 && states[at]@.ancestors[0].0
        < at {
        Some(states[at]@.ancestors[0].0 as int)
    } else {
        None
    }
}

/// The way back from the state at `at`: the state, the state from which it
/// was first reached, and so on, down to a state that was not reached from
/// an earlier one.
pub open spec fn way_back(states: Seq<State>, at: int) -> Seq<int>
    decreases at,
{
    match parent_of(states, at) {
        Some(p) => seq![at] + way_back(states, p),
        None => seq![at],
    }
}

/// The first process, from position `from` on, that stands elsewhere in
/// `after` than in `before`.
pub open spec fn first_moved(before: Seq<usize>, after: Seq<usize>, from: int) -> Option<int>
    decreases before.len() - from,
{
    if from < 0 || from >= before.len() || from >= after.len() {
        None
    } else if before[from] != after[from] {
        Some(from)
    } else {
        first_moved(before, after, from + 1)
    }
}

/// The statement at which the process stands in the state, if it stands at
/// one.
pub open spec fn statement_at(mets: &Mets, s: StateModel, process: int) -> Option<StatementModel> {
    if 0 <= process < code_of(mets).len() && process < s.pc.len() && s.pc[process] < code_of(
        mets,
    )[process].len() {
        Some(code_of(mets)[process][s.pc[process] as int])
    } else {
        None
    }
}

/// The line of a report for the step from one state to the next: the
/// process that has moved and the statement that it has run; nothing where
/// no process has moved.
pub open spec fn step_text(mets: &Mets, before: StateModel, after: StateModel) -> Seq<char> {
    match first_moved(before.pc, after.pc, 0) {
        Some(process) => match statement_at(mets, before, process) {
            Some(s) => "Process "@ + nat_text(process as nat) + ": "@ + statement_text(s) + "\n"@,
            None => "Process "@ + nat_text(process as nat) + "\n"@,
        },
        None => Seq::empty(),
    }
}

/// The lines for the steps along a way back, from its far end down to
/// position `from`: the first step taken comes first.
pub open spec fn steps_text(
    mets: &Mets,
    states: Seq<State>,
    way: Seq<int>,
    from: int,
    done: Seq<char>,
) -> Seq<char>
    decreases from,
{
    if from <= 0 || from >= way.len() {
        done
    } else {
        steps_text(
            mets,
            states,
            way,
            from - 1,
            done + step_text(mets, states[way[from]]@, states[way[from - 1]]@),
        )
    }
}

/// The line of a report for a process in a deadlock: what it waits for.
pub open spec fn waiting_text(s: StateModel, process: int) -> Seq<char> {
    if 0 <= process < s.processes.len() {
        match s.processes[process] {
            ProcessModel::Locked(lock) => "Process "@ + nat_text(process as nat) + " waits for "@
                + lock_text(lock) + "\n"@,
            _ => "Process "@ + nat_text(process as nat) + "\n"@,
        }
    } else {
        "Process "@ + nat_text(process as nat) + "\n"@
    }
}

/// The lines for the processes of a deadlock from process `from` on, in
/// rising order.
pub open spec fn waiters_text(s: StateModel, cycle: Set<usize>, from: int, done: Seq<char>) -> Seq<
    char,
>
    decreases s.processes.len() - from,
{
    if from < 0 || from >= s.processes.len() {
        done
    } else if cycle.contains(from as usize) {
        waiters_text(s, cycle, from + 1, done + waiting_text(s, from))
    } else {
        waiters_text(s, cycle, from + 1, done)
    }
}

/// The head of a report on something found wrong.
pub open spec fn head_text(v: Violation, states: Seq<State>) -> Seq<char> {
    match v {
        Violation::PropertyViolation { property, state } => "Following property was violated: "@
            + statement_text(property@) + "\nThe following counter example was found:\n"@,
        Violation::Deadlock { cycle, state } => if state.0 < states.len() {
            waiters_text(states[state.0 as int]@, cycle@, 0, "System ran into a deadlock:\n"@)
        } else {
            "System ran into a deadlock:\n"@
        },
    }
}

/// The state that a report says something is wrong in.
pub open spec fn culprit(v: Violation) -> int {
    match v {
        Violation::PropertyViolation { property, state } => state.0 as int,
        Violation::Deadlock { cycle, state } => state.0 as int,
    }
}

/// The text of a report: what was found wrong and the steps that lead
/// there from the state in which the processes start, or that nothing was
/// found wrong; then the number of states explored.
pub open spec fn summary_text(mets: &Mets, report: &Report) -> Seq<char> {
    (match report.violation {
        Some(v) => steps_text(
            mets,
            report.states@,
            way_back(report.states@, culprit(v)),
            way_back(report.states@, culprit(v)).len() - 1,
            head_text(v, report.states@),
        ),
        None => "No counter example found"@,
    }) + "\nStates explored: "@ + nat_text(report.states_explored as nat)
}

/// The way back from a state is not empty and stays within the states.
pub proof fn lemma_way_back(states: Seq<State>, at: int)
    requires
        0 <= at < states.len(),
    ensures
        way_back(states, at).len() > 0,
        forall|k: int|
            0 <= k < way_back(states, at).len() ==> 0 <= (#[trigger] way_back(states, at)[k])
                < states.len(),
    decreases at,
{
    match parent_of(states, at) {
        Some(p) => {
            lemma_way_back(states, p);
            let rest = way_back(states, p);
            assert forall|k: int| 0 <= k < way_back(states, at).len() implies 0 <= (
            #[trigger] way_back(states, at)[k]) < states.len() by {
                if k > 0 {
                    assert(way_back(states, at)[k] == rest[k - 1]);
                }
            }
        },
        None => {},
    }
}

/// The way back from the state at `at`.
fn trace_back(states: &Vec<State>, at: usize) -> (r: Vec<usize>)
    requires
        at < states@.len(),
    ensures
        r@.len() == way_back(states@, at as int).len(),
        forall|k: int| 0 <= k < r@.len() ==> r@[k] as int == way_back(states@, at as int)[k],
        forall|k: int| 0 <= k < r@.len() ==> r@[k] < states@.len(),
        r@.len() > 0,
{
    let mut way: Vec<usize> = Vec::new();
    let mut current = at;
    let ghost mut done: Seq<int> = Seq::empty();
    loop
        invariant_except_break
            current < states@.len(),
            done.len() == way@.len(),
            forall|k: int| 0 <= k < way@.len() ==> way@[k] as int == done[k],
            forall|k: int| 0 <= k < way@.len() ==> way@[k] < states@.len(),
            way_back(states@, at as int) == done + way_back(states@, current as int),
        ensures
            done.len() == way@.len(),
            forall|k: int| 0 <= k < way@.len() ==> way@[k] as int == done[k],
            forall|k: int| 0 <= k < way@.len() ==> way@[k] < states@.len(),
            way_back(states@, at as int) == done,
            way@.len() > 0,
        decreases current,
    {
        way.push(current);
        let ghost before = done;
        proof {
            done = done.push(current as int);
        }
        let state = &states[current];
        if current > 0 && state.ancestors.len() > 0 && state.ancestors[0].0 < current {
            let parent = state.ancestors[0].0;
            proof {
                assert(parent_of(states@, current as int) == Some(parent as int));
                assert(done + way_back(states@, parent as int) =~= before + way_back(
                    states@,
                    current as int,
                ));
            }
            current = parent;
        } else {
            proof {
                assert(parent_of(states@, current as int).is_none());
                assert(done =~= before + way_back(states@, current as int));
            }
            break ;
        }
    }
    way
}

/// The first process that stands elsewhere in `after` than in `before`.
fn find_moved(before: &Vec<usize>, after: &Vec<usize>) -> (r: Option<usize>)
    ensures
        match r {
            Some(p) => first_moved(before@, after@, 0) == Some(p as int) && p < before@.len(),
            None => first_moved(before@, after@, 0).is_none(),
        },
{
    let mut i: usize = 0;
    while i < before.len() && i < after.len()
        invariant
            first_moved(before@, after@, 0) == first_moved(before@, after@, i as int),
        decreases before.len() - i,
    {
        if before[i] != after[i] {
            return Some(i);
        }
        i += 1;
    }
    None
}

/// Adds the line for the step from one state to the next.
fn add_step(out: &mut String, mets: &Mets, before: &State, after: &State)
    ensures
        final(out)@ == old(out)@ + step_text(mets, before@, after@),
{
    match find_moved(&before.pc, &after.pc) {
        Some(process) => {
            let mut line = String::from_str("Process ");
            line.append(count(process).as_str());
            if process < mets.processes.len() && before.pc[process]
                < mets.processes[process].len() {
                assert(code_of(mets)[process as int] == statements_of(
                    mets.processes@[process as int]@,
                ));
                assert(statements_of(mets.processes@[process as int]@)[before.pc@[process as int] as int]
                    == mets.processes@[process as int]@[before.pc@[process as int] as int]@);
                line.append(": ");
                line.append(mets.processes[process][before.pc[process]].to_text().as_str());
                line.append("\n");
            } else {
                line.append("\n");
            }
            out.append(line.as_str());
        },
        None => {
            out.append(String::new().as_str());
        },
    }
}

/// Adds the line for a process in a deadlock.
fn add_waiter(out: &mut String, state: &State, process: usize)
    ensures
        final(out)@ == old(out)@ + waiting_text(state@, process as int),
{
    let mut line = String::from_str("Process ");
    line.append(count(process).as_str());
    if process < state.processes.len() {
        assert(state@.processes[process as int] == state.processes@[process as int]@);
        match &state.processes[process] {
            ProcessState::Locked(lock) => {
                line.append(" waits for ");
                line.append(lock.to_text().as_str());
                line.append("\n");
            },
            _ => {
                line.append("\n");
            },
        }
    } else {
        line.append("\n");
    }
    out.append(line.as_str());
}

/// The head of a report on something found wrong.
fn head(v: &Violation, states: &Vec<State>) -> (r: String)
    ensures
        r@ == head_text(*v, states@),
{
    match v {
        Violation::PropertyViolation { property, state } => {
            let mut out = String::from_str("Following property was violated: ");
            out.append(property.to_text().as_str());
            out.append("\nThe following counter example was found:\n");
            out
        },
        Violation::Deadlock { cycle, state } => {
            let mut out = String::from_str("System ran into a deadlock:\n");
            if state.0 < states.len() {
                let n = states[state.0].processes.len();
                let mut i: usize = 0;
                while i < n
                    invariant
                        i <= n,
                        state.0 < states@.len(),
                        n == states@[state.0 as int]@.processes.len(),
                        waiters_text(
                            states@[state.0 as int]@,
                            cycle@,
                            0,
                            "System ran into a deadlock:\n"@,
                        ) == waiters_text(states@[state.0 as int]@, cycle@, i as int, out@),
                    decreases n - i,
                {
                    if cycle.contains(&i) {
                        add_waiter(&mut out, &states[state.0], i);
                    }
                    i += 1;
                }
            }
            out
        },
    }
}

/// The text of a report: what was found wrong and the steps that lead
/// there from the state in which the processes start, or that nothing was
/// found wrong; then the number of states explored.
pub fn summary(mets: &Mets, report: &Report) -> (r: String)
    ensures
        r@ == summary_text(mets, report),
{
    let mut out = match &report.violation {
        Some(v) => {
            let at = match v {
                Violation::PropertyViolation { property, state } => state.0,
                Violation::Deadlock { cycle, state } => state.0,
            };
            let mut text = head(v, &report.states);
            if at >= report.states.len() {
                assert(parent_of(report.states@, at as int).is_none());
                text
            } else {
            let way = trace_back(&report.states, at);
            let ghost path = way_back(report.states@, at as int);
            let mut k: usize = way.len() - 1;
            while k > 0
                invariant
                    k < way@.len(),
                    way@.len() == path.len(),
                    forall|j: int| 0 <= j < way@.len() ==> way@[j] as int == path[j],
                    forall|j: int| 0 <= j < way@.len() ==> way@[j] < report.states@.len(),
                    steps_text(
                        mets,
                        report.states@,
                        path,
                        path.len() - 1,
                        head_text(*v, report.states@),
                    ) == steps_text(mets, report.states@, path, k as int, text@),
                decreases k,
            {
                add_step(&mut text, mets, &report.states[way[k]], &report.states[way[k - 1]]);
                k -= 1;
            }
            text
            }
        },
        None => String::from_str("No counter example found"),
    };
    out.append("\nStates explored: ");
    out.append(count(report.states_explored).as_str());
    out
}

/// Why a number could not be read, in the words of the standard library.
pub open spec fn integer_error_text(e: IntegerError) -> Seq<char> {
    match e {
        IntegerError::InvalidDigit => "ParseIntError { kind: InvalidDigit }"@,
        IntegerError::Overflow => "ParseIntError { kind: PosOverflow }"@,
    }
}

/// A failure of the scanner, field by field, behind `head`.
pub open spec fn scanner_error_text(e: ScannerErrorModel, head: Seq<char>) -> Seq<char> {
    position_text(
        e.position,
        head + "ScannerError { expected: "@ + debug_text(e.expected) + ", lexeme: "@ + debug_text(
            e.lexeme,
        ) + ", position: "@,
    ) + " }"@
}

/// Why a text could not be read, behind `head`: what went wrong at the
/// token at which reading stood.
pub open spec fn reason_text(e: Fault, head: Seq<char>) -> Seq<char> {
    match e.kind {
        KindModel::ParseInt(why) => head + "Could not parse integer from lexeme "@ + debug_text(
            e.current.lexeme,
        ) + ": "@ + integer_error_text(why),
        KindModel::Scanner(why) => scanner_error_text(
            why,
            head + "Could not parse token "@ + debug_text(e.current.lexeme) + ": "@,
        ),
        KindModel::Unexpected(message) => head + "Unexpected token "@ + debug_text(
            e.current.lexeme,
        ) + ": "@ + message,
        KindModel::AggregateError(item) => head + "Column "@ + select_item_text(item)
            + " must appear in group by"@,
    }
}

/// The text of a failure to read a model from a file: the name of the
/// file, the line and the column at which the token starts at which
/// reading stood, and what went wrong there.
pub open spec fn failure_text(file: Seq<char>, e: Fault) -> Seq<char> {
    reason_text(
        e,
        "Error at "@ + file + ":"@ + nat_text(e.current.position.start_line as nat) + ":"@
            + nat_text(e.current.position.start_col as nat) + ": "@,
    )
}

/// Why a number could not be read, in the words of the standard library.
fn integer_error(e: IntegerError) -> (r: &'static str)
    ensures
        r@ == integer_error_text(e),
{
    match e {
        IntegerError::InvalidDigit => "ParseIntError { kind: InvalidDigit }",
        IntegerError::Overflow => "ParseIntError { kind: PosOverflow }",
    }
}

/// Adds a failure of the scanner to `out`.
fn scanner_error(out: &mut String, e: &ScannerError)
    ensures
        final(out)@ == scanner_error_text(e@, old(out)@),
{
    out.append("ScannerError { expected: ");
    out.append(quoted(&e.expected).as_str());
    out.append(", lexeme: ");
    out.append(quoted(&e.lexeme).as_str());
    out.append(", position: ");
    position(out, &e.position);
    out.append(" }");
}

/// The text of a failure to read a model from the file named `file`.
pub fn failure(file: &str, error: &ParserError) -> (r: String)
    ensures
        r@ == failure_text(file@, error@),
{
    let mut out = String::from_str("Error at ");
    out.append(file);
    out.append(":");
    out.append(count(error.current.position.start_line).as_str());
    out.append(":");
    out.append(count(error.current.position.start_col).as_str());
    out.append(": ");
    match &error.kind {
        ParserErrorKind::ParseInt(why) => {
            out.append("Could not parse integer from lexeme ");
            out.append(quoted(&error.current.lexeme).as_str());
            out.append(": ");
            out.append(integer_error(*why));
        },
        ParserErrorKind::Scanner(why) => {
            out.append("Could not parse token ");
            out.append(quoted(&error.current.lexeme).as_str());
            out.append(": ");
            scanner_error(&mut out, why);
        },
        ParserErrorKind::Unexpected(message) => {
            out.append("Unexpected token ");
            out.append(quoted(&error.current.lexeme).as_str());
            out.append(": ");
            out.append(message.as_str());
        },
        ParserErrorKind::AggregateError(item) => {
            out.append("Column ");
            out.append(item.to_text().as_str());
            out.append(" must appear in group by");
        },
    }
    out
}

} // verus!
