//! The exploration of every run of a model: state by state, breadth first,
//! each state expanded once.

use crate::ast::{statements_of, Mets, Statement, StatementModel};
use crate::interpreter::{
    check, in_range, statement, Env, Interpreter, InterpreterError, InterpreterErrorModel, Moved,
    PropertyCheck,
};
use crate::sql_interpreter::SqlDatabase;
use crate::search::{
    deadlock_found, entered, expanded, explored, first_unset, folded, position_of, report_of, run,
    spread, start, step, verdict, Outcome, ProgressModel, ReportModel, Spread, Verdict,
    ViolationModel,
};
use crate::state::{
    deadlock_of, processes_of, unlatched, unlocked, HashableState, InfoModel,
    ProcessModel, ProcessState, RcState, State, StateKey, StateModel, TransactionInfo,
};
use crate::value::TransactionState;
use std::collections::HashSet;
use vstd::prelude::*;
use vstd::string::*;

verus! {

broadcast use vstd::std_specs::hash::group_hash_axioms;

/// What an exploration can find wrong with a model.
#[derive(Debug, PartialEq, Eq)]
pub enum Violation {
    /// The property does not hold in the state, or has not held on the way
    /// to the state, where no process can run any more.
    PropertyViolation { property: Statement, state: RcState },
    /// The processes are on a cycle of processes that wait for one another
    /// in the state.
    Deadlock { cycle: HashSet<usize>, state: RcState },
}

/// What an exploration has found.
#[derive(Debug, PartialEq, Eq)]
pub struct Report {
    /// The number of states that were expanded.
    pub states_explored: usize,
    pub violation: Option<Violation>,
    /// Every state that was reached, in the order reached; the references
    /// to states in this report are positions in this list.
    pub states: Vec<State>,
    /// The positions of the states that were expanded, in the order
    /// expanded.
    pub expanded: Vec<usize>,
}

/// What ends an exploration before it has an answer.
#[derive(Debug, PartialEq, Eq)]
pub enum CheckerError {
    InterpreterError(InterpreterError),
}

impl View for Violation {
    type V = ViolationModel;

    open spec fn view(&self) -> ViolationModel {
        match self {
            Violation::PropertyViolation { property, state } => ViolationModel::PropertyViolation {
                property: property@,
                state: *state,
            },
            Violation::Deadlock { cycle, state } => ViolationModel::Deadlock {
                cycle: cycle@,
                state: *state,
            },
        }
    }
}

/// The models of the states of a list.
pub open spec fn state_models(states: Seq<State>) -> Seq<StateModel> {
    states.map_values(|s: State| s@)
}

/// What tells the states apart that the items of a list were taken from.
pub open spec fn keys_of(visited: Seq<HashableState>) -> Seq<StateKey> {
    visited.map_values(|h: HashableState| h.key())
}

impl View for Report {
    type V = ReportModel;

    open spec fn view(&self) -> ReportModel {
        ReportModel {
            states_explored: self.states_explored as nat,
            violation: match self.violation {
                Some(v) => Some(v@),
                None => None,
            },
            states: state_models(self.states@),
            expanded: self.expanded@,
        }
    }
}

impl From<InterpreterError> for CheckerError {
    fn from(value: InterpreterError) -> (r: Self) {
        CheckerError::InterpreterError(value)
    }
}

impl vstd::std_specs::convert::FromSpecImpl<InterpreterError> for CheckerError {
    open spec fn obeys_from_spec() -> bool {
        true
    }

    open spec fn from_spec(value: InterpreterError) -> Self {
        CheckerError::InterpreterError(value)
    }
}

impl View for CheckerError {
    type V = InterpreterErrorModel;

    open spec fn view(&self) -> InterpreterErrorModel {
        match self {
            CheckerError::InterpreterError(x) => x@,
        }
    }
}

/// The code of the processes of a model.
pub open spec fn code_of(mets: &Mets) -> Seq<Seq<StatementModel>> {
    mets@.processes
}

/// The properties of a model.
pub open spec fn properties_of(mets: &Mets) -> Seq<StatementModel> {
    mets@.properties
}

/// Whether a state fits a model: it has a position, an activity and a
/// transaction for each process and a flag for each property; no process is
/// past the end of its code, and the processes at the end of their code are
/// those that have finished.
pub open spec fn shaped(s: StateModel, code: Seq<Seq<StatementModel>>, properties: nat) -> bool {
    &&& s.pc.len() == code.len()
    &&& s.processes.len() == code.len()
    &&& s.txs.len() == code.len()
    &&& s.eventually.len() == properties
    &&& forall|i: int|
        0 <= i < code.len() ==> (#[trigger] s.pc[i]) <= code[i].len() && (s.processes[i]
            is Finished <==> s.pc[i] == code[i].len())
}

/// Whether every flag that is set in `parent` is set in `child`.
pub open spec fn carried(parent: Seq<Option<bool>>, child: Seq<Option<bool>>) -> bool {
    &&& parent.len() == child.len()
    &&& forall|id: int|
        0 <= id < parent.len() && parent[id] == Some(true) ==> #[trigger] child[id] == Some(true)
}

/// Whether no process of the state can run.
pub open spec fn quiet(s: StateModel) -> bool {
    forall|i: int| 0 <= i < s.processes.len() ==> !((#[trigger] s.processes[i]) is Running)
}

/// The state in the making after the process has moved forward by `offset`
/// statements from a state reached from `parent`: a process that reaches the
/// end of its code has finished.
pub open spec fn advanced(next: StateModel, idx: int, offset: nat, length: nat, parent: RcState) -> StateModel {
    let pc = (next.pc[idx] + offset) as usize;
    StateModel {
        pc: next.pc.update(idx, pc),
        processes: if pc == length {
            next.processes.update(idx, ProcessModel::Finished)
        } else {
            next.processes
        },
        ancestors: seq![parent],
        ..next
    }
}

/// The state that one step of process `idx` leads to from `from`, before
/// waiting processes are looked at again; a failure where the statement
/// fails for good or would take the process past the end of its code.
pub open spec fn fired(
    code: Seq<Seq<StatementModel>>,
    from: StateModel,
    idx: int,
    parent: RcState,
) -> Result<StateModel, InterpreterErrorModel> {
    let env = Env { locals: from.locals, tx: from.txs[idx].id };
    let (next, moved) = statement(code[idx][from.pc[idx] as int], env, from, idx);
    match moved {
        Err(x) => Err(x),
        Ok(offset) => if from.pc[idx] + offset > code[idx].len() {
            Err(InterpreterErrorModel::Unexpected("jump past the end"@))
        } else {
            Ok(advanced(next, idx, offset, code[idx].len(), parent))
        },
    }
}

/// Whether every jump in the code of the processes stays within the code
/// of its process.
pub open spec fn code_fits(code: Seq<Seq<StatementModel>>) -> bool {
    forall|i: int, k: int|
        0 <= i < code.len() && 0 <= k < code[i].len() ==> match #[trigger] code[i][k] {
            StatementModel::If(_, offset) => k + offset <= code[i].len(),
            StatementModel::Else(offset) => k + offset <= code[i].len(),
            _ => true,
        }
}

/// In a model whose jumps stay within their blocks, the jumps of the code
/// of the processes stay within the code.
pub proof fn lemma_fits_code(mets: &Mets)
    requires
        crate::ast::fits(mets),
    ensures
        code_fits(code_of(mets)),
{
    assert forall|i: int, k: int|
        0 <= i < code_of(mets).len() && 0 <= k < code_of(mets)[i].len() implies match #[trigger] code_of(
            mets,
        )[i][k] {
            StatementModel::If(_, offset) => k + offset <= code_of(mets)[i].len(),
            StatementModel::Else(offset) => k + offset <= code_of(mets)[i].len(),
            _ => true,
        } by {
        let code = mets.processes@[i]@;
        assert(crate::ast::jumps_fit(code));
        assert(crate::ast::jump_fits(code[k], k, code.len() as int));
        assert(code_of(mets)[i][k] == code[k]@);
    }
}

/// In a model whose jumps stay within their blocks, a step of a process
/// that stands within its code leaves it within its code: the step never
/// fails for having gone past the end.
pub proof fn lemma_step_stays(code: Seq<Seq<StatementModel>>, from: StateModel, idx: int, env: Env)
    requires
        code_fits(code),
        0 <= idx < code.len(),
        idx < from.pc.len(),
        from.pc[idx] < code[idx].len(),
    ensures
        match statement(code[idx][from.pc[idx] as int], env, from, idx).1 {
            Ok(offset) => from.pc[idx] + offset <= code[idx].len(),
            Err(_) => true,
        },
{
    crate::interpreter::lemma_statement_offset(code[idx][from.pc[idx] as int], env, from, idx);
}

/// The flag of a property that must hold at some point, after one more
/// state in which it holds or not: set once it has held.
pub open spec fn merged(flag: Option<bool>, holds: bool) -> Option<bool> {
    Some(flag == Some(true) || holds)
}

/// Whether what a report says is wrong with a model is so.
pub open spec fn sound(v: Violation, states: Seq<State>, mets: &Mets) -> bool {
    match v {
        Violation::PropertyViolation { property, state } => {
            &&& state.0 < states.len()
            &&& exists|id: int|
                0 <= id < properties_of(mets).len() && property@ == #[trigger] properties_of(
                    mets,
                )[id] && (check(properties_of(mets)[id], states[state.0 as int]@) == Ok::<
                    PropertyCheck,
                    InterpreterErrorModel,
                >(PropertyCheck::Always(false)) || (quiet(states[state.0 as int]@)
                    && states[state.0 as int]@.eventually[id] == Some(false)))
        },
        Violation::Deadlock { cycle, state } => {
            &&& state.0 < states.len()
            &&& deadlock_of(states[state.0 as int]@) == Some(cycle@)
        },
    }
}

/// Whether the states reached so far fit the model and hang together: each
/// but the first was reached from an earlier one, its first ancestor, and
/// has every flag set that is set there.
pub open spec fn reached(states: Seq<State>, mets: &Mets) -> bool {
    &&& states.len() > 0
    &&& forall|i: int|
        0 <= i < states.len() ==> shaped(
            (#[trigger] states[i])@,
            code_of(mets),
            properties_of(mets).len(),
        )
    &&& forall|i: int|
        0 < i < states.len() ==> (#[trigger] states[i])@.ancestors.len() > 0
            && states[i]@.ancestors[0].0 < i && carried(
            states[states[i]@.ancestors[0].0 as int]@.eventually,
            states[i]@.eventually,
        )
}

/// Whether no two of the keys are the same.
pub open spec fn distinct_keys(visited: Seq<HashableState>) -> bool {
    forall|a: int, b: int|
        0 <= a < b < visited.len() ==> (#[trigger] visited[a]).key() != (
        #[trigger] visited[b]).key()
}

/// What is left of what tells a state apart once the flags are put aside.
#[verifier::opaque]
pub open spec fn core_of(key: crate::state::StateKey) -> crate::state::StateKey {
    crate::state::StateKey { eventually: Seq::empty(), ..key }
}

/// What tells a state apart from others, flags aside.
pub open spec fn core_key(s: StateModel) -> crate::state::StateKey {
    core_of(s.key())
}

/// States that differ at most in ancestors and flags are not told apart,
/// flags aside.
pub proof fn lemma_same_core_key(a: StateModel, b: StateModel)
    requires
        same_core(a, b),
    ensures
        core_key(a) == core_key(b),
{
    reveal(core_of);
}

/// Whether every property of the model that must always hold holds in the
/// state, and every property can be checked on it.
#[verifier::opaque]
pub open spec fn passes(s: StateModel, mets: &Mets) -> bool {
    forall|id: int|
        0 <= id < properties_of(mets).len() ==> match #[trigger] check(properties_of(mets)[id], s) {
            Ok(PropertyCheck::Always(holds)) => holds,
            Ok(PropertyCheck::Eventually(_)) => true,
            Err(_) => false,
        }
}

/// Whether the state, whatever its ancestors and flags, passes the
/// properties that must always hold.
#[verifier::opaque]
pub open spec fn cleared(s: StateModel, mets: &Mets) -> bool {
    exists|m: StateModel| #[trigger] same_core(m, s) && passes(m, mets)
}

/// A state that passes the properties is cleared.
pub proof fn lemma_cleared(s: StateModel, mets: &Mets)
    requires
        passes(s, mets),
    ensures
        cleared(s, mets),
{
    reveal(cleared);
    assert(same_core(s, s));
}

/// A cleared state stays cleared whatever becomes of its ancestors and
/// flags.
pub proof fn lemma_cleared_kept(a: StateModel, b: StateModel, mets: &Mets)
    requires
        cleared(a, mets),
        same_core(a, b),
    ensures
        cleared(b, mets),
{
    reveal(cleared);
    let m = choose|m: StateModel| #[trigger] same_core(m, a) && passes(m, mets);
    assert(same_core(m, b));
}

/// Whether an expanded state is accounted for: it has passed the
/// properties that must always hold, and its key is, flags aside, what
/// tells it apart.
pub open spec fn owned(states: Seq<State>, key: HashableState, owner: usize, mets: &Mets) -> bool {
    &&& owner < states.len()
    &&& cleared(states[owner as int]@, mets)
    &&& core_of(key.key()) == core_key(states[owner as int]@)
}

/// Whether a state is, flags aside, not told apart from an expanded one.
pub open spec fn matched(states: Seq<State>, owners: Seq<usize>, j: int) -> bool {
    exists|k: int|
        0 <= k < owners.len() && (#[trigger] owners[k]) < states.len() && core_key(states[j]@)
            == core_key(states[owners[k] as int]@)
}

/// Whether the states looked at so far are accounted for: each expanded
/// state has passed the properties that must always hold, and each state
/// before `cursor` is, flags aside, not told apart from an expanded one.
pub open spec fn accounted(
    states: Seq<State>,
    cursor: int,
    visited: Seq<HashableState>,
    owners: Seq<usize>,
    mets: &Mets,
) -> bool {
    &&& visited.len() == owners.len()
    &&& forall|k: int| 0 <= k < owners.len() ==> #[trigger] owned(states, visited[k], owners[k], mets)
    &&& forall|j: int| 0 <= j < cursor && j < states.len() ==> #[trigger] matched(states, owners, j)
}

/// Looking at a state that is not told apart from one expanded before keeps
/// the states accounted for.
pub proof fn lemma_accounted_seen(
    before: Seq<State>,
    after: Seq<State>,
    cursor: int,
    visited: Seq<HashableState>,
    owners: Seq<usize>,
    seen: int,
    mets: &Mets,
)
    requires
        accounted(before, cursor, visited, owners, mets),
        0 <= cursor < before.len(),
        after.len() >= before.len(),
        forall|i: int| 0 <= i < before.len() ==> same_core(before[i]@, (#[trigger] after[i])@),
        0 <= seen < visited.len(),
        visited[seen].key() == before[cursor]@.key(),
    ensures
        accounted(after, cursor + 1, visited, owners, mets),
{
    assert forall|k: int| 0 <= k < owners.len() implies #[trigger] owned(
        after,
        visited[k],
        owners[k],
        mets,
    ) by {
        assert(owned(before, visited[k], owners[k], mets));
        let o = owners[k] as int;
        assert(same_core(before[o]@, after[o]@));
        lemma_cleared_kept(before[o]@, after[o]@, mets);
        lemma_same_core_key(before[o]@, after[o]@);
    }
    assert forall|j: int| 0 <= j < cursor + 1 && j < after.len() implies #[trigger] matched(
        after,
        owners,
        j,
    ) by {
        assert(same_core(before[j]@, after[j]@));
        lemma_same_core_key(before[j]@, after[j]@);
        let k = if j < cursor {
            assert(matched(before, owners, j));
            choose|k: int|
                0 <= k < owners.len() && (#[trigger] owners[k]) < before.len() && core_key(
                    before[j]@,
                ) == core_key(before[owners[k] as int]@)
        } else {
            assert(owned(before, visited[seen], owners[seen], mets));
            seen
        };
        let o = owners[k] as int;
        assert(same_core(before[o]@, after[o]@));
        lemma_same_core_key(before[o]@, after[o]@);
        assert(core_key(after[j]@) == core_key(after[owners[k] as int]@));
    }
}

/// Expanding a state that has passed the properties that must always hold
/// keeps the states accounted for.
pub proof fn lemma_accounted_expanded(
    before: Seq<State>,
    after: Seq<State>,
    cursor: int,
    visited: Seq<HashableState>,
    owners: Seq<usize>,
    key: HashableState,
    mets: &Mets,
)
    requires
        accounted(before, cursor, visited, owners, mets),
        0 <= cursor < before.len(),
        cursor <= usize::MAX,
        after.len() >= before.len(),
        forall|i: int| 0 <= i < before.len() ==> same_core(before[i]@, (#[trigger] after[i])@),
        key.key() == before[cursor]@.key(),
        cleared(before[cursor]@, mets),
    ensures
        accounted(after, cursor + 1, visited.push(key), owners.push(cursor as usize), mets),
{
    let seen = visited.push(key);
    let own = owners.push(cursor as usize);
    assert forall|k: int| 0 <= k < own.len() implies #[trigger] owned(after, seen[k], own[k], mets) by {
        if k < owners.len() {
            assert(owned(before, visited[k], owners[k], mets));
        }
        let o = own[k] as int;
        assert(same_core(before[o]@, after[o]@));
        lemma_same_core_key(before[o]@, after[o]@);
        lemma_cleared_kept(before[o]@, after[o]@, mets);
    }
    assert forall|j: int| 0 <= j < cursor + 1 && j < after.len() implies #[trigger] matched(
        after,
        own,
        j,
    ) by {
        assert(same_core(before[j]@, after[j]@));
        lemma_same_core_key(before[j]@, after[j]@);
        let k = if j < cursor {
            assert(matched(before, owners, j));
            choose|k: int|
                0 <= k < owners.len() && (#[trigger] owners[k]) < before.len() && core_key(
                    before[j]@,
                ) == core_key(before[owners[k] as int]@)
        } else {
            owners.len() as int
        };
        let o = own[k] as int;
        assert(same_core(before[o]@, after[o]@));
        lemma_same_core_key(before[o]@, after[o]@);
        assert(core_key(after[j]@) == core_key(after[own[k] as int]@));
    }
}

/// Whether the database of every state is sound: in none of them do two
/// committed rows share a row identifier.
pub open spec fn healthy(states: Seq<State>) -> bool {
    forall|i: int| 0 <= i < states.len() ==> crate::integrity::sound((#[trigger] states[i])@.sql)
}

/// An exploration under way.
pub struct Exploration {
    /// The states reached so far, in the order reached.
    pub states: Vec<State>,
    /// The position of the next state to look at.
    pub cursor: usize,
    /// What tells the expanded states apart, in the order expanded.
    pub visited: Vec<HashableState>,
    /// The positions of the expanded states, in the order expanded.
    pub owners: Vec<usize>,
    /// The number of states expanded.
    pub states_explored: usize,
}

impl View for Exploration {
    type V = ProgressModel;

    open spec fn view(&self) -> ProgressModel {
        ProgressModel {
            states: state_models(self.states@),
            cursor: self.cursor as nat,
            visited: keys_of(self.visited@),
            owners: self.owners@,
        }
    }
}

impl Exploration {
    /// Whether the exploration is in order between two states: the states
    /// hang together, every state was reached from one already looked at,
    /// and no state was expanded twice.
    pub open spec fn wf(&self, mets: &Mets) -> bool {
        &&& reached(self.states@, mets)
        &&& self.cursor <= self.states@.len()
        &&& forall|i: int|
            0 < i < self.states@.len() ==> (#[trigger] self.states@[i])@.ancestors[0].0
                < self.cursor
        &&& self.visited@.len() == self.owners@.len()
        &&& self.states_explored == self.visited@.len()
        &&& self.visited@.len() <= self.cursor
        &&& forall|k: int| 0 <= k < self.owners@.len() ==> (#[trigger] self.owners@[k]) < self.cursor
        &&& distinct_keys(self.visited@)
    }

    /// The position among the expanded states of one that nothing tells
    /// apart from the state that `key` was taken from.
    fn seen(&self, key: &HashableState) -> (r: Option<usize>)
        ensures
            match r {
                Some(k) => k < self.visited@.len() && self.visited@[k as int].key() == key.key(),
                None => forall|k: int|
                    0 <= k < self.visited@.len() ==> (#[trigger] self.visited@[k]).key()
                        != key.key(),
            },
            r == position_of(keys_of(self.visited@), key.key(), 0),
    {
        let mut k: usize = 0;
        while k < self.visited.len()
            invariant
                k <= self.visited.len(),
                forall|j: int| 0 <= j < k ==> (#[trigger] self.visited@[j]).key() != key.key(),
                position_of(keys_of(self.visited@), key.key(), 0) == position_of(
                    keys_of(self.visited@),
                    key.key(),
                    k as int,
                ),
            decreases self.visited.len() - k,
        {
            assert(keys_of(self.visited@)[k as int] == self.visited@[k as int].key());
            if self.visited[k].same(key) {
                return Some(k);
            }
            k += 1;
        }
        None
    }

    /// Gives the ancestors of the state at `from` to the state at `to` as
    /// further ancestors.
    fn absorb(&mut self, to: usize, from: usize)
        requires
            to < old(self).states@.len(),
            from < old(self).states@.len(),
        ensures
            final(self).states@.len() == old(self).states@.len(),
            forall|i: int|
                0 <= i < old(self).states@.len() && i != to ==> final(self).states@[i] == old(
                    self,
                ).states@[i],
            final(self).states@[to as int]@ == (StateModel {
                ancestors: old(self).states@[to as int]@.ancestors + old(
                    self,
                ).states@[from as int]@.ancestors,
                ..old(self).states@[to as int]@
            }),
            final(self).cursor == old(self).cursor,
            final(self).visited == old(self).visited,
            final(self).owners == old(self).owners,
            final(self).states_explored == old(self).states_explored,
    {
        let more = self.states[from].ancestors.clone();
        let ghost before = self.states@[to as int]@;
        let mut i: usize = 0;
        while i < more.len()
            invariant
                i <= more.len(),
                to < self.states@.len(),
                more@ == old(self).states@[from as int]@.ancestors,
                self.states@.len() == old(self).states@.len(),
                forall|j: int|
                    0 <= j < old(self).states@.len() && j != to ==> self.states@[j] == old(
                        self,
                    ).states@[j],
                self.states@[to as int]@ == (StateModel {
                    ancestors: before.ancestors + more@.subrange(0, i as int),
                    ..before
                }),
                before == old(self).states@[to as int]@,
                self.cursor == old(self).cursor,
                self.visited == old(self).visited,
                self.owners == old(self).owners,
                self.states_explored == old(self).states_explored,
            decreases more.len() - i,
        {
            let ghost had = self.states@[to as int]@.ancestors;
            self.states[to].ancestors.push(more[i]);
            assert(self.states@[to as int]@.ancestors =~= before.ancestors + more@.subrange(
                0,
                i + 1,
            ));
            i += 1;
        }
        assert(more@.subrange(0, more@.len() as int) =~= more@);
    }

    /// Adds a state that a step from the state at `at` has led to.
    fn add(&mut self, mets: &Mets, next: State, at: usize)
        requires
            reached(old(self).states@, mets),
            at < old(self).states@.len(),
            shaped(next@, code_of(mets), properties_of(mets).len()),
            next@.ancestors.len() > 0,
            next@.ancestors[0] == RcState(at),
            carried(old(self).states@[at as int]@.eventually, next@.eventually),
        ensures
            reached(final(self).states@, mets),
            final(self).states@ == old(self).states@.push(next),
            state_models(final(self).states@) == state_models(old(self).states@).push(next@),
            final(self).cursor == old(self).cursor,
            final(self).visited == old(self).visited,
            final(self).owners == old(self).owners,
            final(self).states_explored == old(self).states_explored,
    {
        let ghost before = self.states@;
        self.states.push(next);
        proof {
            assert(state_models(self.states@) =~= state_models(before).push(next@));
            assert forall|i: int| 0 <= i < self.states@.len() implies shaped(
                (#[trigger] self.states@[i])@,
                code_of(mets),
                properties_of(mets).len(),
            ) by {
                if i < before.len() {
                    assert(self.states@[i] == before[i]);
                }
            }
            assert forall|i: int| 0 < i < self.states@.len() implies (
            #[trigger] self.states@[i])@.ancestors.len() > 0 && self.states@[i]@.ancestors[0].0 < i
                && carried(
                self.states@[self.states@[i]@.ancestors[0].0 as int]@.eventually,
                self.states@[i]@.eventually,
            ) by {
                if i < before.len() {
                    assert(self.states@[i] == before[i]);
                    assert(self.states@[before[i]@.ancestors[0].0 as int]
                        == before[before[i]@.ancestors[0].0 as int]);
                } else {
                    assert(self.states@[at as int] == before[at as int]);
                }
            }
        }
    }

    /// Takes a step of each process that can run from the state at `at`,
    /// which is the state that the interpreter starts from, and adds the
    /// states that the steps lead to. Says whether no process could run,
    /// and gives the deadlock that a step has led into, if one has.
    fn successors(&mut self, mets: &Mets, interpreter: &mut Interpreter, at: usize) -> (r: Result<
        (bool, Option<Violation>),
        CheckerError,
    >)
        requires
            reached(old(self).states@, mets),
            at < old(self).states@.len(),
            old(interpreter).state@ == old(self).states@[at as int]@,
            old(interpreter).next_state@ == old(interpreter).state@,
            !old(interpreter).checking,
        ensures
            final(self).cursor == old(self).cursor,
            final(self).visited == old(self).visited,
            final(self).owners == old(self).owners,
            final(self).states_explored == old(self).states_explored,
            match r {
                Ok((is_final, found)) => {
                    &&& reached(final(self).states@, mets)
                    &&& final(self).states@.len() >= old(self).states@.len()
                    &&& forall|i: int|
                        0 <= i < old(self).states@.len() ==> final(self).states@[i] == old(
                            self,
                        ).states@[i]
                    &&& forall|i: int|
                        old(self).states@.len() <= i < final(self).states@.len() ==> (
                        #[trigger] final(self).states@[i])@.ancestors[0] == RcState(at)
                    &&& (is_final ==> quiet(old(self).states@[at as int]@))
                    &&& (crate::integrity::sound(old(interpreter).state@.sql) ==> forall|i: int|
                        old(self).states@.len() <= i < final(self).states@.len()
                            ==> crate::integrity::sound((#[trigger] final(self).states@[i])@.sql))
                    &&& match found {
                        Some(v) => sound(v, final(self).states@, mets),
                        None => true,
                    }
                },
                Err(_) => true,
            },
            match r {
                Ok((is_final, None)) => spread(
                    code_of(mets),
                    old(interpreter).state@,
                    at,
                    0,
                    state_models(old(self).states@),
                    true,
                ) == Spread::Done(state_models(final(self).states@), is_final),
                Ok((_, Some(v))) => match spread(
                    code_of(mets),
                    old(interpreter).state@,
                    at,
                    0,
                    state_models(old(self).states@),
                    true,
                ) {
                    Spread::Deadlock(states, cycle) => states == state_models(final(self).states@)
                        && v@ == deadlock_found(states, cycle),
                    _ => false,
                },
                Err(x) => spread(
                    code_of(mets),
                    old(interpreter).state@,
                    at,
                    0,
                    state_models(old(self).states@),
                    true,
                ) == Spread::Failed(x@),
            },
    {
        let ghost base = self.states@;
        let ghost from = interpreter.state@;
        let n = mets.processes.len();
        let mut is_final = true;
        let mut idx: usize = 0;
        assert(shaped(base[at as int]@, code_of(mets), properties_of(mets).len()));
        while idx < n
            invariant
                idx <= n,
                n == mets.processes@.len(),
                at < base.len(),
                base == old(self).states@,
                from == old(interpreter).state@,
                reached(base, mets),
                reached(self.states@, mets),
                self.states@.len() >= base.len(),
                forall|i: int| 0 <= i < base.len() ==> self.states@[i] == base[i],
                forall|i: int|
                    base.len() <= i < self.states@.len() ==> (#[trigger] self.states@[i])@.ancestors[0]
                        == RcState(at),
                interpreter.state@ == base[at as int]@,
                interpreter.state@ == from,
                interpreter.next_state@ == interpreter.state@,
                !interpreter.checking,
                crate::integrity::sound(from.sql) ==> forall|i: int|
                    base.len() <= i < self.states@.len() ==> crate::integrity::sound(
                        (#[trigger] self.states@[i])@.sql,
                    ),
                is_final ==> forall|i: int|
                    0 <= i < idx ==> !((#[trigger] base[at as int]@.processes[i]) is Running),
                spread(code_of(mets), from, at, 0, state_models(base), true) == spread(
                    code_of(mets),
                    from,
                    at,
                    idx as int,
                    state_models(self.states@),
                    is_final,
                ),
                self.cursor == old(self).cursor,
                self.visited == old(self).visited,
                self.owners == old(self).owners,
                self.states_explored == old(self).states_explored,
            decreases n - idx,
        {
            assert(interpreter.state@.processes[idx as int] == interpreter.state.processes@[idx as int]@);
            let running = match &interpreter.state.processes[idx] {
                ProcessState::Running => true,
                _ => false,
            };
            if running {
                let ghost before = self.states@;
                match fire(mets, interpreter, idx, at) {
                    Err(x) => {
                        return Err(x);
                    },
                    Ok(mut next) => {
                        let ghost fresh = next@;
                        match next.find_deadlocks() {
                            Some(cycle) => {
                                self.add(mets, next, at);
                                let position = self.states.len() - 1;
                                proof {
                                    assert(self.states@[position as int]@ == fresh);
                                    assert(deadlock_of(fresh) == Some(cycle@));
                                    assert forall|i: int|
                                        base.len() <= i < self.states@.len()
                                            && crate::integrity::sound(
                                            from.sql,
                                        ) implies crate::integrity::sound(
                                        (#[trigger] self.states@[i])@.sql,
                                    ) by {
                                        if i < before.len() {
                                            assert(self.states@[i] == before[i]);
                                        }
                                    }
                                    assert forall|i: int|
                                        base.len() <= i < self.states@.len() implies (
                                    #[trigger] self.states@[i])@.ancestors[0] == RcState(at) by {
                                        if i < before.len() {
                                            assert(self.states@[i] == before[i]);
                                        }
                                    }
                                }
                                return Ok(
                                    (
                                        false,
                                        Some(
                                            Violation::Deadlock { cycle, state: RcState(position) },
                                        ),
                                    ),
                                );
                            },
                            None => {},
                        }
                        next.unlock_locks();
                        let ghost loosened = next@;
                        next.unlock_latches();
                        let ghost m = next@;
                        proof {
                            assert(deadlock_of(fresh).is_none());
                            assert(m == unlatched(unlocked(fresh)));
                            assert forall|i: int| 0 <= i < code_of(mets).len() implies (
                            #[trigger] m.pc[i]) <= code_of(mets)[i].len() && (m.processes[i]
                                is Finished <==> m.pc[i] == code_of(mets)[i].len()) by {
                                assert(fresh.pc[i] <= code_of(mets)[i].len());
                                assert(loosened.processes[i] == crate::state::released(
                                    fresh.processes[i],
                                    fresh.txs[i].id,
                                    fresh.sql,
                                ));
                            }
                        }
                        self.add(mets, next, at);
                        proof {
                            assert(self.states@[before.len() as int]@ == m);
                            assert(m.sql == fresh.sql);
                            assert forall|i: int|
                                base.len() <= i < self.states@.len() && crate::integrity::sound(
                                    from.sql,
                                ) implies crate::integrity::sound(
                                (#[trigger] self.states@[i])@.sql,
                            ) by {
                                if i < before.len() {
                                    assert(self.states@[i] == before[i]);
                                }
                            }
                            assert forall|i: int|
                                base.len() <= i < self.states@.len() implies (
                            #[trigger] self.states@[i])@.ancestors[0] == RcState(at) by {
                                if i < before.len() {
                                    assert(self.states@[i] == before[i]);
                                }
                            }
                        }
                        is_final = false;
                    },
                }
            }
            idx += 1;
        }
        Ok((is_final, None))
    }

    /// Hands the ancestors of the state at the cursor to the expanded state
    /// at position `k` among the expanded, and moves on.
    fn fold_in(&mut self, mets: &Mets, k: usize)
        requires
            old(self).wf(mets),
            old(self).cursor < old(self).states@.len(),
            k < old(self).owners@.len(),
        ensures
            final(self).wf(mets),
            final(self).cursor == old(self).cursor + 1,
            final(self).visited == old(self).visited,
            final(self).owners == old(self).owners,
            final(self).states_explored == old(self).states_explored,
            final(self).states@.len() == old(self).states@.len(),
            forall|i: int|
                0 <= i < old(self).states@.len() ==> same_core(
                    old(self).states@[i]@,
                    (#[trigger] final(self).states@[i])@,
                ),
            final(self)@ == folded(old(self)@, k as int),
    {
        let total = self.states.len();
        let at = self.cursor;
        let to = self.owners[k];
        let ghost before = self.states@;
        self.absorb(to, at);
        self.cursor = at + 1;
        proof {
            assert(state_models(before)[to as int] == before[to as int]@);
            assert(state_models(before)[at as int] == before[at as int]@);
            assert(self@.states =~= folded(old(self)@, k as int).states);
            assert forall|i: int| 0 <= i < self.states@.len() implies shaped(
                (#[trigger] self.states@[i])@,
                code_of(mets),
                properties_of(mets).len(),
            ) by {
                assert(shaped(before[i]@, code_of(mets), properties_of(mets).len()));
            }
            assert forall|i: int| 0 < i < self.states@.len() implies (
            #[trigger] self.states@[i])@.ancestors.len() > 0 && self.states@[i]@.ancestors[0].0 < i
                && self.states@[i]@.ancestors[0].0 < self.cursor && carried(
                self.states@[self.states@[i]@.ancestors[0].0 as int]@.eventually,
                self.states@[i]@.eventually,
            ) by {
                let p = before[i]@.ancestors[0].0 as int;
                assert(before[i]@.ancestors.len() > 0);
                assert(self.states@[i]@.ancestors[0] == before[i]@.ancestors[0]);
                assert(self.states@[p]@.eventually == before[p]@.eventually);
                assert(self.states@[i]@.eventually == before[i]@.eventually);
            }
        }
    }

    /// Notes the state at the cursor as expanded, under `key`, with the
    /// flags that the check of the properties on it has given.
    fn enter(&mut self, mets: &Mets, key: HashableState, flags: &Vec<Option<bool>>)
        requires
            old(self).wf(mets),
            old(self).cursor < old(self).states@.len(),
            carried(old(self).states@[old(self).cursor as int]@.eventually, flags@),
            forall|k: int|
                0 <= k < old(self).visited@.len() ==> (#[trigger] old(self).visited@[k]).key()
                    != key.key(),
        ensures
            reached(final(self).states@, mets),
            final(self).cursor == old(self).cursor,
            final(self).states@.len() == old(self).states@.len(),
            forall|i: int|
                0 <= i < old(self).states@.len() && i != old(self).cursor ==> final(self).states@[i] == old(self).states@[i],
            final(self).states@[old(self).cursor as int]@ == (StateModel {
                eventually: flags@,
                ..old(self).states@[old(self).cursor as int]@
            }),
            forall|i: int|
                0 < i < final(self).states@.len() ==> (#[trigger] final(self).states@[i])@.ancestors[0].0 < final(self).cursor,
            final(self).visited@ == old(self).visited@.push(key),
            final(self).owners@ == old(self).owners@.push(old(self).cursor),
            final(self).states_explored == old(self).states_explored + 1,
            distinct_keys(final(self).visited@),
            final(self)@ == entered(old(self)@, key.key(), flags@),
    {
        let total = self.states.len();
        let at = self.cursor;
        let ghost before = self.states@;
        let ghost seen_before = self.visited@;
        self.visited.push(key);
        self.owners.push(at);
        self.states_explored = self.states_explored + 1;
        let merged_flags = flags.clone();
        assert(merged_flags@ =~= flags@);
        self.states[at].eventually = merged_flags;
        proof {
            assert(state_models(before)[at as int] == before[at as int]@);
            assert(self@.visited =~= keys_of(seen_before).push(key.key()));
            assert(self.states@[at as int]@ == (StateModel {
                eventually: flags@,
                ..before[at as int]@
            }));
            assert(self@.states =~= entered(old(self)@, key.key(), flags@).states);
            assert forall|i: int| 0 <= i < self.states@.len() implies shaped(
                (#[trigger] self.states@[i])@,
                code_of(mets),
                properties_of(mets).len(),
            ) by {
                assert(shaped(before[i]@, code_of(mets), properties_of(mets).len()));
                if i != at {
                    assert(self.states@[i] == before[i]);
                }
            }
            assert forall|i: int| 0 < i < self.states@.len() implies (
            #[trigger] self.states@[i])@.ancestors.len() > 0 && self.states@[i]@.ancestors[0].0 < i
                && self.states@[i]@.ancestors[0].0 < at && carried(
                self.states@[self.states@[i]@.ancestors[0].0 as int]@.eventually,
                self.states@[i]@.eventually,
            ) by {
                let p = before[i]@.ancestors[0].0 as int;
                assert(before[i]@.ancestors.len() > 0);
                assert(p < at);
                assert(self.states@[p] == before[p]);
                assert(carried(before[p]@.eventually, before[i]@.eventually));
                if i != at {
                    assert(self.states@[i] == before[i]);
                }
            }
            assert forall|a: int, b: int| 0 <= a < b < self.visited@.len() implies (
            #[trigger] self.visited@[a]).key() != (#[trigger] self.visited@[b]).key() by {
                if b < seen_before.len() {
                    assert(self.visited@[a] == seen_before[a]);
                    assert(self.visited@[b] == seen_before[b]);
                } else {
                    assert(self.visited@[a] == seen_before[a]);
                }
            }
        }
    }

    /// Moves on from the state at the cursor once it has been expanded.
    fn move_on(&mut self, mets: &Mets, Ghost(before): Ghost<Seq<State>>)
        requires
            reached(old(self).states@, mets),
            old(self).cursor < before.len(),
            before.len() <= old(self).states@.len(),
            forall|i: int| 0 <= i < before.len() ==> old(self).states@[i] == before[i],
            forall|i: int| 0 < i < before.len() ==> (#[trigger] before[i])@.ancestors[0].0 < old(
                self,
            ).cursor,
            forall|i: int|
                before.len() <= i < old(self).states@.len() ==> (#[trigger] old(
                    self,
                ).states@[i])@.ancestors[0] == RcState(old(self).cursor),
            old(self).visited@.len() == old(self).owners@.len(),
            old(self).states_explored == old(self).visited@.len(),
            old(self).visited@.len() <= old(self).cursor + 1,
            forall|k: int|
                0 <= k < old(self).owners@.len() ==> (#[trigger] old(self).owners@[k]) <= old(
                    self,
                ).cursor,
            distinct_keys(old(self).visited@),
        ensures
            final(self).wf(mets),
            final(self).cursor == old(self).cursor + 1,
            final(self).states == old(self).states,
            final(self).visited == old(self).visited,
            final(self).owners == old(self).owners,
    {
        let total = self.states.len();
        self.cursor = self.cursor + 1;
        proof {
            assert forall|i: int| 0 < i < self.states@.len() implies (
            #[trigger] self.states@[i])@.ancestors[0].0 < self.cursor by {
                if i < before.len() {
                    assert(self.states@[i] == before[i]);
                }
            }
        }
    }

    /// Looks at the state at the cursor. A state that nothing tells apart
    /// from one expanded before hands its ancestors to that one. Any other
    /// state has the properties checked on it and is expanded. Gives what
    /// was found wrong, if anything was.
    pub fn explore_next(&mut self, mets: &Mets) -> (r: Result<Option<Violation>, CheckerError>)
        requires
            old(self).wf(mets),
            old(self).cursor < old(self).states@.len(),
        ensures
            match r {
                Ok(None) => final(self).wf(mets) && final(self).cursor == old(self).cursor + 1
                    && final(self).visited@.len() <= old(self).visited@.len() + 1 && (forall|
                    k: int,
                |
                    0 <= k < old(self).visited@.len() ==> final(self).visited@[k] == old(
                        self,
                    ).visited@[k]) && (exists|k: int|
                    0 <= k < final(self).visited@.len() && (#[trigger] final(self).visited@[k]).key()
                        == old(self).states@[old(self).cursor as int]@.key()),
                Ok(Some(v)) => reached(final(self).states@, mets) && sound(
                    v,
                    final(self).states@,
                    mets,
                ) && final(self).states_explored <= final(self).states@.len()
                    && final(self).states_explored == final(self).visited@.len(),
                Err(_) => true,
            },
            match r {
                Ok(None) => step(old(self)@, mets) == Outcome::Going(final(self)@),
                Ok(Some(v)) => step(old(self)@, mets) == Outcome::Found(final(self)@, v@),
                Err(x) => step(old(self)@, mets) == Outcome::Failed(x@),
            },
            r.is_ok() ==> same_core(old(self).states@[0]@, final(self).states@[0]@),
            r.is_ok() && healthy(old(self).states@) ==> healthy(final(self).states@),
            r == Ok::<Option<Violation>, CheckerError>(None) && (exists|k: int|
                0 <= k < old(self).visited@.len() && (#[trigger] old(self).visited@[k]).key()
                    == old(self).states@[old(self).cursor as int]@.key()) ==> final(self).visited
                == old(self).visited && final(self).states@.len() == old(self).states@.len()
                && final(self).states_explored == old(self).states_explored,
            r == Ok::<Option<Violation>, CheckerError>(None) && accounted(
                old(self).states@,
                old(self).cursor as int,
                old(self).visited@,
                old(self).owners@,
                mets,
            ) ==> accounted(
                final(self).states@,
                final(self).cursor as int,
                final(self).visited@,
                final(self).owners@,
                mets,
            ),
    {
        let total = self.states.len();
        let at = self.cursor;
        let key = self.states[at].hash();
        assert(old(self)@.states[at as int] == self.states@[at as int]@);
        match self.seen(&key) {
            Some(k) => {
                self.fold_in(mets, k);
                proof {
                    if healthy(old(self).states@) {
                        assert forall|i: int| 0 <= i < self.states@.len() implies crate::integrity::sound(
                            (#[trigger] self.states@[i])@.sql,
                        ) by {
                            assert(same_core(old(self).states@[i]@, self.states@[i]@));
                            assert(crate::integrity::sound(old(self).states@[i]@.sql));
                        }
                    }
                    if accounted(
                        old(self).states@,
                        old(self).cursor as int,
                        old(self).visited@,
                        old(self).owners@,
                        mets,
                    ) {
                        lemma_accounted_seen(
                            old(self).states@,
                            self.states@,
                            at as int,
                            old(self).visited@,
                            old(self).owners@,
                            k as int,
                            mets,
                        );
                    }
                }
                return Ok(None);
            },
            None => {},
        }
        let mut interpreter = Interpreter::new(self.states[at].clone());
        let mut flags = self.states[at].eventually.clone();
        assert(flags@ =~= self.states@[at as int]@.eventually);
        match check_properties(mets, &mut interpreter, &mut flags) {
            Err(x) => {
                return Err(x);
            },
            Ok(Some(id)) => {
                assert(properties_of(mets)[id as int] == mets.properties@[id as int]@);
                return Ok(
                    Some(
                        Violation::PropertyViolation {
                            property: mets.properties[id].clone(),
                            state: RcState(at),
                        },
                    ),
                );
            },
            Ok(None) => {},
        }
        let ghost start = self.states@;
        let ghost seen_before = self.visited@;
        self.enter(mets, key, &flags);
        let again = flags.clone();
        assert(again@ =~= flags@);
        interpreter.state.eventually = again;
        interpreter.next_state.eventually = flags;
        let ghost merged_states = self.states@;
        proof {
            if healthy(old(self).states@) {
                assert forall|i: int| 0 <= i < merged_states.len() implies crate::integrity::sound(
                    (#[trigger] merged_states[i])@.sql,
                ) by {
                    assert(crate::integrity::sound(start[i]@.sql));
                    if i != at {
                        assert(merged_states[i] == start[i]);
                    }
                }
                assert(crate::integrity::sound(interpreter.state@.sql));
            }
        }
        match self.successors(mets, &mut interpreter, at) {
            Err(x) => Err(x),
            Ok((is_final, found)) => {
                proof {
                    if healthy(old(self).states@) {
                        assert forall|i: int| 0 <= i < self.states@.len() implies crate::integrity::sound(
                            (#[trigger] self.states@[i])@.sql,
                        ) by {
                            if i < merged_states.len() {
                                assert(self.states@[i] == merged_states[i]);
                            }
                        }
                    }
                }
                match found {
                    Some(v) => {
                        return Ok(Some(v));
                    },
                    None => {},
                }
                if is_final {
                    match first_unmet(&self.states[at].eventually) {
                        Some(id) => {
                            assert(properties_of(mets)[id as int] == mets.properties@[id as int]@);
                            return Ok(
                                Some(
                                    Violation::PropertyViolation {
                                        property: mets.properties[id].clone(),
                                        state: RcState(at),
                                    },
                                ),
                            );
                        },
                        None => {},
                    }
                }
                self.move_on(mets, Ghost(merged_states));
                proof {
                    assert(self.visited@[seen_before.len() as int].key() == start[at as int]@.key());
                    if accounted(
                        old(self).states@,
                        old(self).cursor as int,
                        old(self).visited@,
                        old(self).owners@,
                        mets,
                    ) {
                        assert(passes(start[at as int]@, mets)) by {
                            reveal(passes);
                        }
                        lemma_cleared(start[at as int]@, mets);
                        assert forall|i: int| 0 <= i < start.len() implies same_core(
                            start[i]@,
                            (#[trigger] self.states@[i])@,
                        ) by {
                            assert(self.states@[i] == merged_states[i]);
                            if i != at {
                                assert(merged_states[i] == start[i]);
                            }
                        }
                        lemma_accounted_expanded(
                            start,
                            self.states@,
                            at as int,
                            seen_before,
                            old(self).owners@,
                            self.visited@[seen_before.len() as int],
                            mets,
                        );
                        assert(self.visited@ =~= seen_before.push(
                            self.visited@[seen_before.len() as int],
                        ));
                    }
                }
                Ok(None)
            },
        }
    }
}

/// Sets the flag of the property once more, given whether it holds now.
fn merge_flag(flags: &mut Vec<Option<bool>>, id: usize, holds: bool)
    requires
        id < old(flags)@.len(),
    ensures
        final(flags)@ == old(flags)@.update(id as int, merged(old(flags)@[id as int], holds)),
{
    let had = match flags[id] {
        Some(b) => b,
        None => false,
    };
    flags.set(id, Some(had || holds));
}

/// Checks the properties of the model on the state that the interpreter
/// starts from, in order. Gives the first property that must always hold
/// and does not; where there is none, each property that must hold at some
/// point has its flag set once more.
fn check_properties(mets: &Mets, interpreter: &mut Interpreter, flags: &mut Vec<Option<bool>>) -> (r:
    Result<Option<usize>, CheckerError>)
    requires
        old(flags)@.len() == mets.properties@.len(),
    ensures
        final(interpreter).state == old(interpreter).state,
        final(interpreter).idx == old(interpreter).idx,
        final(interpreter).checking == old(interpreter).checking,
        final(flags)@.len() == old(flags)@.len(),
        carried(old(flags)@, final(flags)@),
        match r {
            Ok(Some(id)) => id < mets.properties@.len() && check(
                properties_of(mets)[id as int],
                old(interpreter).state@,
            ) == Ok::<PropertyCheck, InterpreterErrorModel>(PropertyCheck::Always(false)),
            Ok(None) => final(interpreter).next_state@ == old(interpreter).state@ && forall|id: int|
                0 <= id < mets.properties@.len() ==> match #[trigger] check(
                    properties_of(mets)[id],
                    old(interpreter).state@,
                ) {
                    Ok(PropertyCheck::Always(holds)) => holds && final(flags)@[id] == old(
                        flags,
                    )@[id],
                    Ok(PropertyCheck::Eventually(holds)) => final(flags)@[id] == merged(
                        old(flags)@[id],
                        holds,
                    ),
                    Err(_) => false,
                },
            Err(_) => true,
        },
        match r {
            Ok(Some(id)) => verdict(properties_of(mets), old(interpreter).state@, 0, old(flags)@)
                == Ok::<Verdict, InterpreterErrorModel>(Verdict::Broken(id)),
            Ok(None) => verdict(properties_of(mets), old(interpreter).state@, 0, old(flags)@)
                == Ok::<Verdict, InterpreterErrorModel>(Verdict::Clear(final(flags)@)),
            Err(x) => verdict(properties_of(mets), old(interpreter).state@, 0, old(flags)@)
                == Err::<Verdict, InterpreterErrorModel>(x@),
        },
{
    let mut id: usize = 0;
    if mets.properties.len() == 0 {
        let fresh = interpreter.state.clone();
        interpreter.next_state = fresh;
    }
    while id < mets.properties.len()
        invariant
            id <= mets.properties@.len(),
            flags@.len() == mets.properties@.len(),
            old(flags)@.len() == mets.properties@.len(),
            interpreter.state == old(interpreter).state,
            interpreter.idx == old(interpreter).idx,
            interpreter.checking == old(interpreter).checking,
            interpreter.next_state@ == old(interpreter).state@ || id == 0,
            mets.properties@.len() == 0 ==> interpreter.next_state@ == old(interpreter).state@,
            carried(old(flags)@, flags@),
            forall|k: int| id <= k < flags@.len() ==> flags@[k] == old(flags)@[k],
            verdict(properties_of(mets), old(interpreter).state@, 0, old(flags)@) == verdict(
                properties_of(mets),
                old(interpreter).state@,
                id as int,
                flags@,
            ),
            forall|k: int|
                0 <= k < id ==> match #[trigger] check(
                    properties_of(mets)[k],
                    old(interpreter).state@,
                ) {
                    Ok(PropertyCheck::Always(holds)) => holds && flags@[k] == old(flags)@[k],
                    Ok(PropertyCheck::Eventually(holds)) => flags@[k] == merged(
                        old(flags)@[k],
                        holds,
                    ),
                    Err(_) => false,
                },
        decreases mets.properties.len() - id,
    {
        assert(properties_of(mets)[id as int] == mets.properties@[id as int]@);
        match interpreter.check_property(&mets.properties[id]) {
            Err(x) => {
                return Err(CheckerError::from(x));
            },
            Ok(PropertyCheck::Always(holds)) => {
                if !holds {
                    return Ok(Some(id));
                }
            },
            Ok(PropertyCheck::Eventually(holds)) => {
                merge_flag(flags, id, holds);
            },
        }
        id += 1;
    }
    Ok(None)
}

/// Takes one step of process `idx` from the state that the interpreter
/// starts from, which is the state at `parent`, and gives the state that
/// the step leads to, before waiting processes are looked at again.
fn fire(mets: &Mets, interpreter: &mut Interpreter, idx: usize, parent: usize) -> (r: Result<
    State,
    CheckerError,
>)
    requires
        shaped(old(interpreter).state@, code_of(mets), properties_of(mets).len()),
        old(interpreter).next_state@ == old(interpreter).state@,
        !old(interpreter).checking,
        idx < mets.processes@.len(),
        old(interpreter).state@.processes[idx as int] is Running,
    ensures
        final(interpreter).state == old(interpreter).state,
        final(interpreter).checking == old(interpreter).checking,
        final(interpreter).next_state@ == old(interpreter).state@,
        crate::integrity::sound(old(interpreter).state@.sql) && r.is_ok() ==> crate::integrity::sound(
            r.unwrap()@.sql,
        ),
        match r {
            Ok(s) => fired(code_of(mets), old(interpreter).state@, idx as int, RcState(parent))
                == Ok::<StateModel, InterpreterErrorModel>(s@) && shaped(
                s@,
                code_of(mets),
                properties_of(mets).len(),
            ) && s@.eventually == old(interpreter).state@.eventually,
            Err(CheckerError::InterpreterError(x)) => fired(
                code_of(mets),
                old(interpreter).state@,
                idx as int,
                RcState(parent),
            ) == Err::<StateModel, InterpreterErrorModel>(x@),
        },
{
    interpreter.idx = idx;
    let code = &mets.processes[idx];
    assert(code_of(mets)[idx as int] == statements_of(code@));
    let at = interpreter.state.pc[idx];
    assert(at < code@.len());
    assert(statements_of(code@)[at as int] == code@[at as int]@);
    let moved = interpreter.statement(&code[at]);
    let mut next = interpreter.next_state();
    match moved {
        Err(x) => Err(CheckerError::InterpreterError(x)),
        Ok(offset) => {
            if offset > code.len() - at {
                return Err(
                    CheckerError::InterpreterError(
                        InterpreterError::Unexpected(String::from_str("jump past the end")),
                    ),
                );
            }
            let ghost before = next@;
            let pc = at + offset;
            next.pc.set(idx, pc);
            if pc == code.len() {
                next.processes.set(idx, ProcessState::Finished);
                assert(next@.processes =~= before.processes.update(
                    idx as int,
                    ProcessModel::Finished,
                ));
            } else {
                assert(next@.processes =~= before.processes);
            }
            let mut ancestors: Vec<RcState> = Vec::new();
            ancestors.push(RcState(parent));
            next.ancestors = ancestors;
            assert(next@.ancestors =~= seq![RcState(parent)]);
            proof {
                let s = next@;
                assert forall|i: int| 0 <= i < code_of(mets).len() implies (#[trigger] s.pc[i])
                    <= code_of(mets)[i].len() && (s.processes[i] is Finished <==> s.pc[i]
                    == code_of(mets)[i].len()) by {
                    assert(s.pc[i] == if i == idx { pc } else { old(interpreter).state@.pc[i] });
                }
            }
            Ok(next)
        },
    }
}

/// The first property that must hold at some point and has not held.
fn first_unmet(flags: &Vec<Option<bool>>) -> (r: Option<usize>)
    ensures
        match r {
            Some(id) => id < flags@.len() && flags@[id as int] == Some(false),
            None => forall|id: int| 0 <= id < flags@.len() ==> flags@[id] != Some(false),
        },
        r == first_unset(flags@, 0),
{
    let mut id: usize = 0;
    while id < flags.len()
        invariant
            id <= flags.len(),
            forall|k: int| 0 <= k < id ==> flags@[k] != Some(false),
            first_unset(flags@, 0) == first_unset(flags@, id as int),
        decreases flags.len() - id,
    {
        match flags[id] {
            Some(false) => {
                return Some(id);
            },
            _ => {},
        }
        id += 1;
    }
    None
}

/// The state that setting a model up starts from: one process that stands
/// for the setup, an empty database, no variables.
pub open spec fn seed() -> StateModel {
    StateModel {
        pc: seq![0usize],
        processes: seq![ProcessModel::Running],
        txs: seq![InfoModel { id: None, name: None, state: TransactionState::NotExisting }],
        sql: crate::sql_interpreter::empty_db(),
        locals: Seq::empty(),
        ancestors: Seq::empty(),
        eventually: Seq::empty(),
    }
}

/// The transaction that the setup is in, if it is in one.
pub open spec fn running_in(s: StateModel) -> Option<crate::store::TransactionId> {
    if s.txs.len() > 0 {
        s.txs[0].id
    } else {
        None
    }
}

/// The state after the statements of the setup from position `pc` on, each
/// run on the state that the one before has left. A statement that fails
/// for good, or would have to wait, ends the setup.
pub open spec fn setup(code: Seq<StatementModel>, s: StateModel, pc: int) -> Result<
    StateModel,
    InterpreterErrorModel,
>
    decreases code.len() - pc,
{
    if pc < 0 || pc >= code.len() {
        Ok(s)
    } else {
        let env = Env { locals: s.locals, tx: running_in(s) };
        let step = statement(code[pc], env, s, 0);
        match step.1 {
            Err(x) => Err(x),
            Ok(offset) => if offset <= 0 {
                Err(InterpreterErrorModel::Unexpected("setup cannot wait"@))
            } else if pc + offset >= code.len() {
                Ok(step.0)
            } else {
                setup(code, step.0, pc + offset)
            },
        }
    }
}

/// The state in which the processes of a model start, over the database
/// and the variables that the setup has left: every process at the start
/// of its code and running, or finished where it has no code; no
/// transactions; no flag set.
pub open spec fn first_state(mets: &Mets, after: StateModel) -> StateModel {
    StateModel {
        pc: Seq::new(code_of(mets).len(), |i: int| 0usize),
        processes: Seq::new(
            code_of(mets).len(),
            |i: int|
                if code_of(mets)[i].len() == 0 {
                    ProcessModel::Finished
                } else {
                    ProcessModel::Running
                },
        ),
        txs: Seq::new(
            code_of(mets).len(),
            |i: int| InfoModel { id: None, name: None, state: TransactionState::NotExisting },
        ),
        sql: match running_in(after) {
            Some(t) => after.sql.commit(t),
            None => after.sql,
        },
        locals: after.locals,
        ancestors: Seq::empty(),
        eventually: Seq::new(properties_of(mets).len(), |i: int| None::<bool>),
    }
}

/// The state in which the processes of a model start: the setup is run,
/// and what it has left pending is committed.
pub open spec fn initial(mets: &Mets) -> Result<StateModel, InterpreterErrorModel> {
    match setup(statements_of(mets.init@), seed(), 0) {
        Err(x) => Err(x),
        Ok(after) => Ok(first_state(mets, after)),
    }
}

/// Whether two states differ at most in their ancestors and flags.
pub open spec fn same_core(a: StateModel, b: StateModel) -> bool {
    &&& a.pc == b.pc
    &&& a.processes == b.processes
    &&& a.txs == b.txs
    &&& a.sql == b.sql
    &&& a.locals == b.locals
}

/// Runs one statement of the setup on the state that the one before has
/// left, and gives the state that it leaves and the number of statements to
/// move forward by.
fn setup_step(current: State, stmt: &Statement) -> (r: Result<(State, usize), InterpreterError>)
    requires
        current@.txs.len() == 1,
        current@.processes.len() == 1,
    ensures
        match r {
            Ok((next, offset)) => statement(
                stmt@,
                Env { locals: current@.locals, tx: running_in(current@) },
                current@,
                0,
            ) == (next@, Ok::<nat, InterpreterErrorModel>(offset as nat)) && offset > 0
                && next@.txs.len() == 1 && next@.processes.len() == 1 && (crate::integrity::sound(
                current@.sql,
            ) ==> crate::integrity::sound(next@.sql)),
            Err(x) => statement(
                stmt@,
                Env { locals: current@.locals, tx: running_in(current@) },
                current@,
                0,
            ).1 == Err::<nat, InterpreterErrorModel>(x@) || (statement(
                stmt@,
                Env { locals: current@.locals, tx: running_in(current@) },
                current@,
                0,
            ).1 == Ok::<nat, InterpreterErrorModel>(0nat) && x@
                == InterpreterErrorModel::Unexpected("setup cannot wait"@)),
        },
{
    let mut interpreter = Interpreter::new(current);
    let moved = interpreter.statement(stmt);
    let next = interpreter.next_state();
    match moved {
        Err(x) => Err(x),
        Ok(offset) => {
            if offset == 0 {
                Err(InterpreterError::Unexpected(String::from_str("setup cannot wait")))
            } else {
                Ok((next, offset))
            }
        },
    }
}

/// Runs the setup of a model and gives the state in which its processes
/// start.
pub fn init_state(mets: &Mets) -> (r: Result<State, CheckerError>)
    ensures
        match r {
            Ok(s) => initial(mets) == Ok::<StateModel, InterpreterErrorModel>(s@) && shaped(
                s@,
                code_of(mets),
                properties_of(mets).len(),
            ) && crate::integrity::sound(s@.sql),
            Err(CheckerError::InterpreterError(x)) => initial(mets) == Err::<
                StateModel,
                InterpreterErrorModel,
            >(x@),
        },
{
    let mut pcs: Vec<usize> = Vec::new();
    pcs.push(0);
    let mut processes: Vec<ProcessState> = Vec::new();
    processes.push(ProcessState::Running);
    let mut txs: Vec<TransactionInfo> = Vec::new();
    txs.push(TransactionInfo { id: None, name: None, state: TransactionState::NotExisting });
    let mut current = State {
        pc: pcs,
        processes,
        txs,
        sql: SqlDatabase::new(),
        locals: Vec::new(),
        ancestors: Vec::new(),
        eventually: Vec::new(),
    };
    proof {
        assert(current@.pc =~= seed().pc);
        assert(current@.processes =~= seed().processes);
        assert(current@.txs =~= seed().txs);
        assert(current@.locals =~= seed().locals);
        assert(current@.ancestors =~= seed().ancestors);
        assert(current@.eventually =~= seed().eventually);
        assert(current@ == seed());
    }
    let length = mets.init.len();
    let mut pc: usize = 0;
    while pc < length
        invariant
            pc <= length,
            length == mets.init@.len(),
            current@.txs.len() == 1,
            current@.processes.len() == 1,
            crate::integrity::sound(current@.sql),
            setup(statements_of(mets.init@), seed(), 0) == setup(
                statements_of(mets.init@),
                current@,
                pc as int,
            ),
        decreases length - pc,
    {
        assert(statements_of(mets.init@)[pc as int] == mets.init@[pc as int]@);
        match setup_step(current, &mets.init[pc]) {
            Err(x) => {
                return Err(CheckerError::from(x));
            },
            Ok((next, offset)) => {
                current = next;
                if offset >= length - pc {
                    pc = length;
                } else {
                    pc = pc + offset;
                }
            },
        }
    }
    assert(current@.txs[0] == current.txs@[0]@);
    match current.txs[0].id {
        Some(t) => {
            current.sql.commit(&t);
        },
        None => {},
    }
    let n = mets.processes.len();
    let mut pcs: Vec<usize> = Vec::new();
    let mut processes: Vec<ProcessState> = Vec::new();
    let mut txs: Vec<TransactionInfo> = Vec::new();
    let mut i: usize = 0;
    while i < n
        invariant
            i <= n,
            n == mets.processes@.len(),
            pcs@.len() == i,
            processes@.len() == i,
            txs@.len() == i,
            forall|k: int| 0 <= k < i ==> pcs@[k] == 0,
            forall|k: int|
                0 <= k < i ==> processes@[k]@ == if code_of(mets)[k].len() == 0 {
                    ProcessModel::Finished
                } else {
                    ProcessModel::Running
                },
            forall|k: int|
                0 <= k < i ==> txs@[k]@ == (InfoModel {
                    id: None,
                    name: None,
                    state: TransactionState::NotExisting,
                }),
        decreases n - i,
    {
        assert(code_of(mets)[i as int] == statements_of(mets.processes@[i as int]@));
        pcs.push(0);
        if mets.processes[i].len() == 0 {
            processes.push(ProcessState::Finished);
        } else {
            processes.push(ProcessState::Running);
        }
        txs.push(TransactionInfo { id: None, name: None, state: TransactionState::NotExisting });
        i += 1;
    }
    let mut eventually: Vec<Option<bool>> = Vec::new();
    let mut j: usize = 0;
    while j < mets.properties.len()
        invariant
            j <= mets.properties@.len(),
            eventually@.len() == j,
            forall|k: int| 0 <= k < j ==> eventually@[k].is_none(),
        decreases mets.properties.len() - j,
    {
        eventually.push(None);
        j += 1;
    }
    let ghost after = current@;
    let first = State {
        pc: pcs,
        processes,
        txs,
        sql: current.sql,
        locals: current.locals,
        ancestors: Vec::new(),
        eventually,
    };
    proof {
        let expected = first_state(mets, (StateModel { sql: after.sql, ..after }));
        assert(first@.pc =~= expected.pc);
        assert(first@.processes =~= expected.processes);
        assert(first@.txs =~= expected.txs);
        assert(first@.ancestors =~= expected.ancestors);
        assert(first@.eventually =~= expected.eventually);
    }
    Ok(first)
}

/// Whether an exploration that has found nothing wrong has looked at every
/// state: each expanded state has passed the properties that must always
/// hold, and each state reached is, flags aside, not told apart from an
/// expanded one.
pub open spec fn settled(states: Seq<State>, expanded: Seq<usize>, mets: &Mets) -> bool {
    &&& forall|k: int|
        0 <= k < expanded.len() ==> (#[trigger] expanded[k]) < states.len() && cleared(
            states[expanded[k] as int]@,
            mets,
        )
    &&& forall|j: int| 0 <= j < states.len() ==> #[trigger] matched(states, expanded, j)
}

/// Explores every run of a model, breadth first, and reports the first
/// thing found wrong, or that nothing is.
pub fn private_model_checker(mets: &Mets) -> (r: Result<Report, CheckerError>)
    ensures
        match r {
            Ok(report) => {
                &&& reached(report.states@, mets)
                &&& healthy(report.states@)
                &&& report.states_explored <= report.states@.len()
                &&& report.states_explored == report.expanded@.len()
                &&& initial(mets).is_ok()
                &&& same_core(initial(mets)->Ok_0, report.states@[0]@)
                &&& match report.violation {
                    Some(v) => sound(v, report.states@, mets),
                    None => settled(report.states@, report.expanded@, mets),
                }
            },
            Err(_) => true,
        },
        match r {
            Ok(report) => explored(mets) == Ok::<ReportModel, InterpreterErrorModel>(report@),
            Err(x) => explored(mets) == Err::<ReportModel, InterpreterErrorModel>(x@),
        },
{
    let first = match init_state(mets) {
        Ok(s) => s,
        Err(x) => {
            return Err(x);
        },
    };
    let ghost start_state = first@;
    let mut states: Vec<State> = Vec::new();
    states.push(first);
    let mut exploration = Exploration {
        states,
        cursor: 0,
        visited: Vec::new(),
        owners: Vec::new(),
        states_explored: 0,
    };
    proof {
        assert(accounted(
            exploration.states@,
            exploration.cursor as int,
            exploration.visited@,
            exploration.owners@,
            mets,
        ));
        assert(exploration@.states =~= start(start_state).states);
        assert(exploration@.visited =~= start(start_state).visited);
        assert(exploration@ == start(start_state));
    }
    while exploration.cursor < exploration.states.len()
        invariant
            exploration.wf(mets),
            run(start(start_state), mets) == run(exploration@, mets),
            healthy(exploration.states@),
            accounted(
                exploration.states@,
                exploration.cursor as int,
                exploration.visited@,
                exploration.owners@,
                mets,
            ),
            initial(mets) == Ok::<StateModel, InterpreterErrorModel>(start_state),
            same_core(start_state, exploration.states@[0]@),
        decreases usize::MAX - exploration.cursor,
    {
        match exploration.explore_next(mets) {
            Err(x) => {
                return Err(x);
            },
            Ok(Some(v)) => {
                return Ok(
                    Report {
                        states_explored: exploration.states_explored,
                        violation: Some(v),
                        states: exploration.states,
                        expanded: exploration.owners,
                    },
                );
            },
            Ok(None) => {},
        }
    }
    proof {
        assert forall|k: int| 0 <= k < exploration.owners@.len() implies (
        #[trigger] exploration.owners@[k]) < exploration.states@.len() && cleared(
            exploration.states@[exploration.owners@[k] as int]@,
            mets,
        ) by {
            assert(owned(
                exploration.states@,
                exploration.visited@[k],
                exploration.owners@[k],
                mets,
            ));
        }
    }
    Ok(
        Report {
            states_explored: exploration.states_explored,
            violation: None,
            states: exploration.states,
            expanded: exploration.owners,
        },
    )
}

/// What went wrong, in words. This is the text that the standard library's
/// `Debug` formatting gives for the error; nothing is claimed of it.
#[verifier::external_body]
fn describe(error: &CheckerError) -> String {
    format!("{error:?}")
}

/// Explores every run of a model and reports what it has found; where the
/// exploration ends before it has an answer, says why in words.
pub fn model_checker(mets: &Mets) -> (r: Result<Report, String>)
    ensures
        match r {
            Ok(report) => {
                &&& reached(report.states@, mets)
                &&& healthy(report.states@)
                &&& report.states_explored <= report.states@.len()
                &&& report.states_explored == report.expanded@.len()
                &&& initial(mets).is_ok()
                &&& same_core(initial(mets)->Ok_0, report.states@[0]@)
                &&& match report.violation {
                    Some(v) => sound(v, report.states@, mets),
                    None => settled(report.states@, report.expanded@, mets),
                }
            },
            Err(_) => true,
        },
        match r {
            Ok(report) => explored(mets) == Ok::<ReportModel, InterpreterErrorModel>(report@),
            Err(_) => explored(mets).is_err(),
        },
{
    match private_model_checker(mets) {
        Ok(report) => Ok(report),
        Err(error) => Err(describe(&error)),
    }
}

} // verus!
