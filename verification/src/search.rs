//! What an exploration computes, stated step by step over the models of the
//! states: the search that the explorer carries out.

use crate::ast::{Mets, StatementModel};
use crate::engine::{code_of, fired, initial, merged, properties_of};
use crate::interpreter::{
    check, lemma_statement_keeps, Env, InterpreterErrorModel, PropertyCheck,
};
use crate::state::{
    deadlock_of, lemma_first_on_cycle, reaches, unlatched, unlocked, RcState, StateKey,
    StateModel,
};
use vstd::prelude::*;

verus! {

/// What is wrong with a model, over the model of its states.
pub enum ViolationModel {
    PropertyViolation { property: StatementModel, state: RcState },
    Deadlock { cycle: Set<usize>, state: RcState },
}

/// What an exploration has found, over the model of its states.
pub struct ReportModel {
    pub states_explored: nat,
    pub violation: Option<ViolationModel>,
    pub states: Seq<StateModel>,
    pub expanded: Seq<usize>,
}

/// An exploration under way: the states reached, the position of the next
/// state to look at, and what tells the expanded states apart, with the
/// position of each.
pub struct ProgressModel {
    pub states: Seq<StateModel>,
    pub cursor: nat,
    pub visited: Seq<StateKey>,
    pub owners: Seq<usize>,
}

/// What the check of the properties on a state gives: the first property
/// that must always hold and does not, or the flags of the state set once
/// more.
pub enum Verdict {
    Broken(usize),
    Clear(Seq<Option<bool>>),
}

/// What the steps of the processes from a state give: a failure, the states
/// with one at the end in which processes wait on one another, or the states
/// that the steps have led to and whether no process could take one.
pub enum Spread {
    Failed(InterpreterErrorModel),
    Deadlock(Seq<StateModel>, Set<usize>),
    Done(Seq<StateModel>, bool),
}

/// What looking at a state gives: the exploration goes on, has found
/// something wrong, or has failed.
pub enum Outcome {
    Going(ProgressModel),
    Found(ProgressModel, ViolationModel),
    Failed(InterpreterErrorModel),
}

/// The first position from `from` on at which the key stands.
pub open spec fn position_of(visited: Seq<StateKey>, key: StateKey, from: int) -> Option<usize>
    decreases visited.len() - from,
{
    if from < 0 || from >= visited.len() {
        None
    } else if visited[from] == key {
        Some(from as usize)
    } else {
        position_of(visited, key, from + 1)
    }
}

/// The first flag from `from` on that says that a property has not held.
pub open spec fn first_unset(flags: Seq<Option<bool>>, from: int) -> Option<usize>
    decreases flags.len() - from,
{
    if from < 0 || from >= flags.len() {
        None
    } else if flags[from] == Some(false) {
        Some(from as usize)
    } else {
        first_unset(flags, from + 1)
    }
}

/// The check of the properties from `from` on, in order, on a state: a
/// property that cannot be checked ends it with a failure, one that must
/// always hold and does not ends it with that property, and one that must
/// hold at some point has its flag set once more.
pub open spec fn verdict(
    properties: Seq<StatementModel>,
    s: StateModel,
    from: int,
    flags: Seq<Option<bool>>,
) -> Result<Verdict, InterpreterErrorModel>
    decreases properties.len() - from,
{
    if from < 0 || from >= properties.len() {
        Ok(Verdict::Clear(flags))
    } else {
        match check(properties[from], s) {
            Err(x) => Err(x),
            Ok(PropertyCheck::Always(holds)) => if holds {
                verdict(properties, s, from + 1, flags)
            } else {
                Ok(Verdict::Broken(from as usize))
            },
            Ok(PropertyCheck::Eventually(holds)) => verdict(
                properties,
                s,
                from + 1,
                flags.update(from, merged(flags[from], holds)),
            ),
        }
    }
}

/// The steps of the processes from `idx` on, each from the state `from`
/// that stands at position `at`: each process that can run takes one step.
/// A step that fails ends the steps. The state that a step leads to is
/// added to the states; where processes wait on one another in it, that
/// ends the steps, else its waiting processes are looked at again.
pub open spec fn spread(
    code: Seq<Seq<StatementModel>>,
    from: StateModel,
    at: usize,
    idx: int,
    states: Seq<StateModel>,
    is_final: bool,
) -> Spread
    decreases code.len() - idx,
{
    if idx < 0 || idx >= code.len() {
        Spread::Done(states, is_final)
    } else if !(from.processes[idx] is Running) {
        spread(code, from, at, idx + 1, states, is_final)
    } else {
        match fired(code, from, idx, RcState(at)) {
            Err(x) => Spread::Failed(x),
            Ok(next) => match deadlock_of(next) {
                Some(cycle) => Spread::Deadlock(states.push(next), cycle),
                None => spread(
                    code,
                    from,
                    at,
                    idx + 1,
                    states.push(unlatched(unlocked(next))),
                    false,
                ),
            },
        }
    }
}

/// The deadlock found in the last of the states.
pub open spec fn deadlock_found(states: Seq<StateModel>, cycle: Set<usize>) -> ViolationModel {
    ViolationModel::Deadlock { cycle, state: RcState((states.len() - 1) as usize) }
}

/// The exploration after the state at the cursor, which nothing tells apart
/// from the expanded state at position `k` among the expanded, has handed
/// its ancestors to that state.
pub open spec fn folded(p: ProgressModel, k: int) -> ProgressModel {
    let to = p.owners[k] as int;
    let from = p.cursor as int;
    ProgressModel {
        states: p.states.update(
            to,
            StateModel { ancestors: p.states[to].ancestors + p.states[from].ancestors, ..p.states[to] },
        ),
        cursor: p.cursor + 1,
        ..p
    }
}

/// The exploration after the state at the cursor is noted as expanded,
/// under `key` and with the given flags.
pub open spec fn entered(p: ProgressModel, key: StateKey, flags: Seq<Option<bool>>) -> ProgressModel {
    let at = p.cursor as int;
    ProgressModel {
        states: p.states.update(at, StateModel { eventually: flags, ..p.states[at] }),
        visited: p.visited.push(key),
        owners: p.owners.push(p.cursor as usize),
        ..p
    }
}

/// What expanding the state at the cursor gives once it is noted as
/// expanded: each process that can run takes a step. A state in which
/// processes wait on one another is reported. So is, where no process can
/// run, the first property that must hold at some point and has not.
pub open spec fn expanded(p: ProgressModel, mets: &Mets) -> Outcome {
    let at = p.cursor as int;
    match spread(code_of(mets), p.states[at], p.cursor as usize, 0, p.states, true) {
        Spread::Failed(x) => Outcome::Failed(x),
        Spread::Deadlock(states, cycle) => Outcome::Found(
            ProgressModel { states, ..p },
            deadlock_found(states, cycle),
        ),
        Spread::Done(states, is_final) => match first_unset(p.states[at].eventually, 0) {
            Some(id) if is_final => Outcome::Found(
                ProgressModel { states, ..p },
                ViolationModel::PropertyViolation {
                    property: properties_of(mets)[id as int],
                    state: RcState(p.cursor as usize),
                },
            ),
            _ => Outcome::Going(ProgressModel { states, cursor: p.cursor + 1, ..p }),
        },
    }
}

/// What looking at the state at the cursor gives. A state that nothing
/// tells apart from one expanded before hands its ancestors to that one.
/// Any other state has the properties checked on it; where they hold, it is
/// noted as expanded, with its flags set once more, and expanded.
pub open spec fn step(p: ProgressModel, mets: &Mets) -> Outcome {
    let at = p.cursor as int;
    let s = p.states[at];
    match position_of(p.visited, s.key(), 0) {
        Some(k) => Outcome::Going(folded(p, k as int)),
        None => match verdict(properties_of(mets), s, 0, s.eventually) {
            Err(x) => Outcome::Failed(x),
            Ok(Verdict::Broken(id)) => Outcome::Found(
                p,
                ViolationModel::PropertyViolation {
                    property: properties_of(mets)[id as int],
                    state: RcState(p.cursor as usize),
                },
            ),
            Ok(Verdict::Clear(flags)) => expanded(entered(p, s.key(), flags), mets),
        },
    }
}

/// What the exploration gives from here on: the states are looked at in the
/// order reached, until one of them shows something wrong, a step fails, or
/// none is left.
pub open spec fn run(p: ProgressModel, mets: &Mets) -> Outcome
    decreases usize::MAX - p.cursor,
{
    if p.cursor >= p.states.len() || p.cursor >= usize::MAX {
        Outcome::Going(p)
    } else {
        match step(p, mets) {
            Outcome::Going(q) => if q.cursor == p.cursor + 1 {
                run(q, mets)
            } else {
                Outcome::Going(q)
            },
            other => other,
        }
    }
}

/// The exploration that has only the first state, not yet looked at.
pub open spec fn start(first: StateModel) -> ProgressModel {
    ProgressModel { states: seq![first], cursor: 0, visited: Seq::empty(), owners: Seq::empty() }
}

/// What an exploration that has ended reports.
pub open spec fn report_of(p: ProgressModel, violation: Option<ViolationModel>) -> ReportModel {
    ReportModel {
        states_explored: p.visited.len(),
        violation,
        states: p.states,
        expanded: p.owners,
    }
}

/// What the exploration of a model gives: the setup is run, and the states
/// are explored from the state in which the processes start. The report
/// holds the first thing found wrong, or nothing where every state was
/// looked at. A statement or a property that fails for good ends the
/// exploration with that failure.
pub open spec fn explored(mets: &Mets) -> Result<ReportModel, InterpreterErrorModel> {
    match initial(mets) {
        Err(x) => Err(x),
        Ok(first) => match run(start(first), mets) {
            Outcome::Failed(x) => Err(x),
            Outcome::Found(p, v) => Ok(report_of(p, Some(v))),
            Outcome::Going(p) => Ok(report_of(p, None)),
        },
    }
}

/// A step that leads into a state in which a process waits, along what
/// process waits for what process, for itself ends the steps from a state:
/// that state is the last of the states, and its deadlock is what is
/// found.
pub proof fn lemma_deadlock_reported(
    code: Seq<Seq<StatementModel>>,
    from: StateModel,
    at: usize,
    idx: int,
    states: Seq<StateModel>,
    is_final: bool,
    next: StateModel,
    p: int,
)
    requires
        0 <= idx < code.len(),
        from.processes[idx] is Running,
        fired(code, from, idx, RcState(at)) == Ok::<StateModel, InterpreterErrorModel>(next),
        0 <= p < next.processes.len(),
        reaches(next, p, p),
    ensures
        deadlock_of(next) is Some,
        spread(code, from, at, idx, states, is_final) == Spread::Deadlock(
            states.push(next),
            deadlock_of(next)->Some_0,
        ),
{
    lemma_first_on_cycle(next, 0, p);
}

/// A state that nothing tells apart from one expanded before is not
/// expanded again: looking at it adds no state and expands none, and the
/// expanded state gets its ancestors behind its own and is else as it was.
pub proof fn lemma_seen_once(p: ProgressModel, mets: &Mets, k: int)
    requires
        p.cursor < p.states.len(),
        p.owners.len() == p.visited.len(),
        forall|j: int| 0 <= j < p.owners.len() ==> (#[trigger] p.owners[j]) < p.states.len(),
        0 <= k < p.visited.len(),
        p.visited.len() <= usize::MAX,
        p.visited[k] == p.states[p.cursor as int].key(),
    ensures
        step(p, mets) is Going,
        step(p, mets)->Going_0.visited == p.visited,
        step(p, mets)->Going_0.owners == p.owners,
        step(p, mets)->Going_0.states.len() == p.states.len(),
        step(p, mets)->Going_0.cursor == p.cursor + 1,
        position_of(p.visited, p.states[p.cursor as int].key(), 0) is Some,
        step(p, mets) == Outcome::Going(
            folded(p, position_of(p.visited, p.states[p.cursor as int].key(), 0)->Some_0 as int),
        ),
        distinct(p.visited) ==> position_of(p.visited, p.states[p.cursor as int].key(), 0)
            == Some(k as usize),
{
    lemma_position_found(p.visited, p.states[p.cursor as int].key(), 0, k);
}

/// A key that stands at a position from `from` on is found.
pub proof fn lemma_position_found(visited: Seq<StateKey>, key: StateKey, from: int, k: int)
    requires
        0 <= from <= k < visited.len(),
        visited.len() <= usize::MAX,
        visited[k] == key,
    ensures
        position_of(visited, key, from) is Some,
        from <= position_of(visited, key, from)->Some_0 <= k,
        visited[position_of(visited, key, from)->Some_0 as int] == key,
    decreases k - from,
{
    if visited[from] != key {
        lemma_position_found(visited, key, from + 1, k);
    }
}

/// A model without processes has one state, the state in which it starts,
/// and that state is looked at once. The exploration fails where a
/// property cannot be checked on it. It reports the first property that
/// must always hold and does not hold in it; where there is none, the
/// first property that must hold at some point and does not hold in it;
/// and nothing where there is none either.
pub proof fn lemma_no_processes(mets: &Mets, first: StateModel)
    requires
        mets@.processes.len() == 0,
        initial(mets) == Ok::<StateModel, InterpreterErrorModel>(first),
    ensures
        match verdict(properties_of(mets), first, 0, first.eventually) {
            Err(x) => explored(mets) == Err::<ReportModel, InterpreterErrorModel>(x),
            Ok(Verdict::Broken(id)) => explored(mets) == Ok::<ReportModel, InterpreterErrorModel>(
                ReportModel {
                    states_explored: 0,
                    violation: Some(
                        ViolationModel::PropertyViolation {
                            property: properties_of(mets)[id as int],
                            state: RcState(0),
                        },
                    ),
                    states: seq![first],
                    expanded: Seq::empty(),
                },
            ),
            Ok(Verdict::Clear(flags)) => explored(mets) == Ok::<ReportModel, InterpreterErrorModel>(
                ReportModel {
                    states_explored: 1,
                    violation: match first_unset(flags, 0) {
                        Some(id) => Some(
                            ViolationModel::PropertyViolation {
                                property: properties_of(mets)[id as int],
                                state: RcState(0),
                            },
                        ),
                        None => None,
                    },
                    states: seq![StateModel { eventually: flags, ..first }],
                    expanded: seq![0usize],
                },
            ),
        },
{
    let p = start(first);
    assert(p.states[0] == first);
    assert(position_of(p.visited, first.key(), 0) is None);
    reveal_with_fuel(run, 2);
    match verdict(properties_of(mets), first, 0, first.eventually) {
        Err(x) => {
            assert(step(p, mets) == Outcome::Failed(x));
        },
        Ok(Verdict::Broken(id)) => {
            assert(step(p, mets) == Outcome::Found(
                p,
                ViolationModel::PropertyViolation {
                    property: properties_of(mets)[id as int],
                    state: RcState(0),
                },
            ));
            assert(p.visited.len() == 0);
        },
        Ok(Verdict::Clear(flags)) => {
            let q = entered(p, first.key(), flags);
            let marked = StateModel { eventually: flags, ..first };
            assert(q.states =~= seq![marked]);
            assert(q.visited =~= seq![first.key()]);
            assert(q.owners =~= seq![0usize]);
            assert(q.states[0] == marked);
            assert(spread(code_of(mets), marked, 0, 0, q.states, true) == Spread::Done(
                q.states,
                true,
            ));
            assert(step(p, mets) == expanded(q, mets));
            match first_unset(flags, 0) {
                Some(id) => {
                    assert(expanded(q, mets) == Outcome::Found(
                        ProgressModel { states: q.states, ..q },
                        ViolationModel::PropertyViolation {
                            property: properties_of(mets)[id as int],
                            state: RcState(0),
                        },
                    ));
                },
                None => {
                    let after = ProgressModel { states: q.states, cursor: 1, ..q };
                    assert(expanded(q, mets) == Outcome::Going(after));
                    assert(run(after, mets) == Outcome::Going(after));
                },
            }
        },
    }
}

/// The flags after the check of the properties: the flag of each property
/// that must hold at some point and was checked is set where it was set or
/// the property holds now, and every other flag is as it was. A flag that
/// was set stays set.
pub proof fn lemma_verdict_flags(
    properties: Seq<StatementModel>,
    s: StateModel,
    from: int,
    flags: Seq<Option<bool>>,
    id: int,
)
    requires
        0 <= from,
        flags.len() == properties.len(),
        0 <= id < flags.len(),
        verdict(properties, s, from, flags) is Ok,
        verdict(properties, s, from, flags)->Ok_0 is Clear,
    ensures
        verdict(properties, s, from, flags)->Ok_0->Clear_0.len() == flags.len(),
        verdict(properties, s, from, flags)->Ok_0->Clear_0[id] == (if id >= from {
            match check(properties[id], s) {
                Ok(PropertyCheck::Eventually(holds)) => merged(flags[id], holds),
                _ => flags[id],
            }
        } else {
            flags[id]
        }),
        flags[id] == Some(true) ==> verdict(properties, s, from, flags)->Ok_0->Clear_0[id] == Some(
            true,
        ),
    decreases properties.len() - from,
{
    if from < properties.len() {
        match check(properties[from], s) {
            Ok(PropertyCheck::Always(holds)) => {
                lemma_verdict_flags(properties, s, from + 1, flags, id);
            },
            Ok(PropertyCheck::Eventually(holds)) => {
                lemma_verdict_flags(
                    properties,
                    s,
                    from + 1,
                    flags.update(from, merged(flags[from], holds)),
                    id,
                );
            },
            Err(_) => {},
        }
    }
}

/// The state that a step leads to has the flags of the state that the step
/// was taken from, and that state as its only ancestor.
pub proof fn lemma_fired_flags(
    code: Seq<Seq<StatementModel>>,
    from: StateModel,
    idx: int,
    parent: RcState,
    next: StateModel,
)
    requires
        fired(code, from, idx, parent) == Ok::<StateModel, InterpreterErrorModel>(next),
    ensures
        next.eventually == from.eventually,
        next.ancestors == seq![parent],
{
    lemma_statement_keeps(
        code[idx][from.pc[idx] as int],
        Env { locals: from.locals, tx: from.txs[idx].id },
        from,
        idx,
    );
}

/// Whether no two of the keys are the same.
pub open spec fn distinct(visited: Seq<StateKey>) -> bool {
    forall|a: int, b: int| 0 <= a < b < visited.len() ==> visited[a] != visited[b]
}

/// A key that is not found stands nowhere from `from` on.
pub proof fn lemma_position_none(visited: Seq<StateKey>, key: StateKey, from: int)
    requires
        0 <= from,
        position_of(visited, key, from) is None,
    ensures
        forall|k: int| from <= k < visited.len() ==> visited[k] != key,
    decreases visited.len() - from,
{
    if from < visited.len() {
        lemma_position_none(visited, key, from + 1);
    }
}

/// Looking at a state keeps the keys of the expanded states distinct, one
/// for each expanded state: a state is expanded, and counted, only where
/// its key is new.
pub proof fn lemma_step_distinct(p: ProgressModel, mets: &Mets)
    requires
        distinct(p.visited),
        p.owners.len() == p.visited.len(),
    ensures
        match step(p, mets) {
            Outcome::Going(q) => distinct(q.visited) && q.owners.len() == q.visited.len()
                && p.visited.len() <= q.visited.len() <= p.visited.len() + 1,
            Outcome::Found(q, _) => distinct(q.visited) && q.owners.len() == q.visited.len(),
            Outcome::Failed(_) => true,
        },
{
    let s = p.states[p.cursor as int];
    if position_of(p.visited, s.key(), 0) is None {
        lemma_position_none(p.visited, s.key(), 0);
        let more = p.visited.push(s.key());
        assert(distinct(more));
    }
}

} // verus!
