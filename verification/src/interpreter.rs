//! Running one statement of a process on a state, and checking a property.

use crate::arith::{add16, div16, mul16, quotient, rem16, remainder, sub16, wrap16};
use crate::ast::{
    expr_children, expr_models_of, lemma_expr_children, opt_name, ExprModel, Expression, Operator,
    SqlExpression, SqlModel, Statement, StatementModel, Variable,
};
use crate::reify::{reify, reify_expression};
use crate::sql_eval::{SqlEngineError, SqlErrorModel};
use crate::sql_interpreter::{tx_ids, DbModel};
use crate::sql_write::{execute, rows_needed};
use crate::state::{InfoModel, ProcessModel, ProcessState, State, StateModel, TransactionInfo};
use crate::store::{bind_cell, cell, find_cell, with_cell, Cells, TransactionId};
use crate::value::{
    bool_in, holds_member, integer_in, lemma_model_of_members, models_of, set_in, Transaction,
    TransactionState, Value, ValueModel,
};
use vstd::prelude::*;
use vstd::string::*;

verus! {

/// What ends a run for good.
#[derive(Debug, PartialEq, Eq)]
pub enum InterpreterError {
    /// The model asks for something that cannot be done.
    Unexpected(String),
    /// The expression has the value, which is not of the expected kind.
    TypeError(Expression, Value, String),
    /// The database failed in a way that a program cannot step past.
    SqlEngineError(SqlEngineError),
}

/// The mathematical content of an [`InterpreterError`].
pub enum InterpreterErrorModel {
    Unexpected(Seq<char>),
    TypeError(ExprModel, ValueModel, Seq<char>),
    SqlEngineError(SqlErrorModel),
}

impl From<SqlEngineError> for InterpreterError {
    fn from(value: SqlEngineError) -> (r: Self) {
        InterpreterError::SqlEngineError(value)
    }
}

impl vstd::std_specs::convert::FromSpecImpl<SqlEngineError> for InterpreterError {
    open spec fn obeys_from_spec() -> bool {
        true
    }

    open spec fn from_spec(value: SqlEngineError) -> Self {
        InterpreterError::SqlEngineError(value)
    }
}

impl View for InterpreterError {
    type V = InterpreterErrorModel;

    open spec fn view(&self) -> InterpreterErrorModel {
        match self {
            InterpreterError::Unexpected(s) => InterpreterErrorModel::Unexpected(s@),
            InterpreterError::TypeError(e, v, s) => InterpreterErrorModel::TypeError(e@, v@, s@),
            InterpreterError::SqlEngineError(x) => InterpreterErrorModel::SqlEngineError(x@),
        }
    }
}

/// What the check of a property says.
#[derive(Clone, Copy, Debug, PartialEq, Eq, Structural)]
pub enum PropertyCheck {
    /// Whether a property that must hold in every state holds in this one.
    Always(bool),
    /// Whether a property that must hold at some point holds in this state.
    Eventually(bool),
}

/// The outcome of evaluating an expression.
pub type Outcome = Result<ValueModel, InterpreterErrorModel>;

/// The content of the outcome of an evaluation.
pub open spec fn outcome_of(r: Result<Value, InterpreterError>) -> Outcome {
    match r {
        Ok(v) => Ok(v@),
        Err(x) => Err(x@),
    }
}

/// What a running statement reads of the state that it started from: the
/// variables, and the transaction that the process is in.
pub struct Env {
    pub locals: Cells,
    pub tx: Option<TransactionId>,
}

/// The kinds of value that an operator can ask of an operand.
#[derive(Clone, Copy, Debug, PartialEq, Eq, Structural)]
pub enum Kind {
    Any,
    Integer,
    Truth,
    Members,
}

/// The name of a kind in a type error.
pub open spec fn kind_name(kind: Kind) -> Seq<char> {
    match kind {
        Kind::Any => "value"@,
        Kind::Integer => "integer"@,
        Kind::Truth => "bool"@,
        Kind::Members => "set"@,
    }
}

/// Whether the value is of the kind, as it stands or inside a scalar.
pub open spec fn fits(kind: Kind, v: ValueModel) -> bool {
    match kind {
        Kind::Any => true,
        Kind::Integer => integer_in(v).is_some(),
        Kind::Truth => bool_in(v).is_some(),
        Kind::Members => set_in(v).is_some(),
    }
}

/// The kind that an operator asks of its left operand.
pub open spec fn left_kind(op: Operator) -> Kind {
    match op {
        Operator::Equal | Operator::NotEqual | Operator::Included => Kind::Any,
        Operator::And | Operator::Or => Kind::Truth,
        _ => Kind::Integer,
    }
}

/// The kind that an operator asks of its right operand.
pub open spec fn right_kind(op: Operator) -> Kind {
    match op {
        Operator::Equal | Operator::NotEqual => Kind::Any,
        Operator::Included => Kind::Members,
        Operator::And | Operator::Or => Kind::Truth,
        _ => Kind::Integer,
    }
}

/// The evaluated operand where it is of the kind asked for; else a type
/// error that names the operand, its value and the kind.
pub open spec fn operand(kind: Kind, e: ExprModel, r: Outcome) -> Outcome {
    match r {
        Err(x) => Err(x),
        Ok(v) => if fits(kind, v) {
            Ok(v)
        } else {
            Err(InterpreterErrorModel::TypeError(e, v, kind_name(kind)))
        },
    }
}

/// The result of an operator on operands of the kinds that it asks for.
/// Dividing by zero is a type error on the divisor.
pub open spec fn combine(op: Operator, l: ValueModel, r: ValueModel, right: ExprModel) -> Outcome {
    match op {
        Operator::Add => Ok(
            ValueModel::Integer(wrap16(integer_in(l).unwrap() + integer_in(r).unwrap())),
        ),
        Operator::Subtract => Ok(
            ValueModel::Integer(wrap16(integer_in(l).unwrap() - integer_in(r).unwrap())),
        ),
        Operator::Multiply => Ok(
            ValueModel::Integer(wrap16(integer_in(l).unwrap() * integer_in(r).unwrap())),
        ),
        Operator::Divide => if integer_in(r).unwrap() == 0 {
            Err(InterpreterErrorModel::TypeError(right, r, "non-zero integer"@))
        } else {
            Ok(
                ValueModel::Integer(
                    wrap16(quotient(integer_in(l).unwrap(), integer_in(r).unwrap())),
                ),
            )
        },
        Operator::Rem => if integer_in(r).unwrap() == 0 {
            Err(InterpreterErrorModel::TypeError(right, r, "non-zero integer"@))
        } else {
            Ok(ValueModel::Integer(remainder(integer_in(l).unwrap(), integer_in(r).unwrap())))
        },
        Operator::Equal => Ok(ValueModel::Bool(l == r)),
        Operator::NotEqual => Ok(ValueModel::Bool(l != r)),
        Operator::Less => Ok(ValueModel::Bool(integer_in(l).unwrap() < integer_in(r).unwrap())),
        Operator::LessEqual => Ok(
            ValueModel::Bool(integer_in(l).unwrap() <= integer_in(r).unwrap()),
        ),
        Operator::Greater => Ok(ValueModel::Bool(integer_in(l).unwrap() > integer_in(r).unwrap())),
        Operator::GreaterEqual => Ok(
            ValueModel::Bool(integer_in(l).unwrap() >= integer_in(r).unwrap()),
        ),
        Operator::Included => Ok(ValueModel::Bool(set_in(r).unwrap().contains(l))),
        Operator::And => Ok(ValueModel::Bool(bool_in(l).unwrap() && bool_in(r).unwrap())),
        Operator::Or => Ok(ValueModel::Bool(bool_in(l).unwrap() || bool_in(r).unwrap())),
    }
}

/// Whether the database has the identifiers left that running the query may
/// need.
pub open spec fn room(db: DbModel, query: SqlModel, tx: Option<TransactionId>) -> bool {
    (tx.is_none() ==> db.tx.0 < usize::MAX) && db.rid.0 + rows_needed(query) <= usize::MAX
}

/// What running a query of a program does to the database and what it gives:
/// the values of the program's variables are put in, and the query runs for
/// the transaction that the process is in, or for one of its own. Where it
/// fails in a transaction of its own, that transaction is aborted. A query
/// for a transaction that is not open fails for good.
pub open spec fn run_sql(db: DbModel, sql: SqlModel, env: Env) -> (DbModel, Outcome) {
    let query = reify(sql, env.locals);
    if env.tx.is_some() && !db.has_tx(env.tx.unwrap()) {
        (db, Err(InterpreterErrorModel::Unexpected("transaction is not open"@)))
    } else if !room(db, query, env.tx) {
        (db, Err(InterpreterErrorModel::Unexpected("out of identifiers"@)))
    } else {
        let (after, r) = execute(db, query, env.tx);
        match r {
            Ok(v) => (after, Ok(v)),
            Err(x) => (
                if env.tx.is_none() {
                    after.abort(after.cur_tx)
                } else {
                    after
                },
                Err(InterpreterErrorModel::SqlEngineError(x)),
            ),
        }
    }
}

/// What a member of a transaction handle says of a transaction in the state.
pub open spec fn member_holds(state: TransactionState, member: Seq<char>) -> bool {
    match state {
        TransactionState::NotExisting => false,
        TransactionState::Running => false,
        TransactionState::Aborted => member == "aborted"@,
        TransactionState::Committed => member == "committed"@,
    }
}

/// What evaluating an expression does to the state in the making and what it
/// gives. Variables are read from the state that the statement started
/// from; assignments and queries act on the state in the making. Operands
/// are evaluated from left to right, and the first failure ends the
/// evaluation.
pub open spec fn interp(e: ExprModel, env: Env, next: StateModel) -> (StateModel, Outcome)
    decreases e, 0nat,
{
    match e {
        ExprModel::Sql(sql) => {
            let (db, r) = run_sql(next.sql, sql, env);
            (StateModel { sql: db, ..next }, r)
        },
        ExprModel::Assignment(name, inner) => {
            let (after, r) = interp(*inner, env, next);
            match r {
                Err(x) => (after, Err(x)),
                Ok(v) => (
                    StateModel { locals: with_cell(after.locals, name, v, 0), ..after },
                    Ok(ValueModel::Nil),
                ),
            }
        },
        ExprModel::Binary { left, operator, right } => {
            let (first, l) = interp(*left, env, next);
            match operand(left_kind(operator), *left, l) {
                Err(x) => (first, Err(x)),
                Ok(lv) => {
                    let (second, r) = interp(*right, env, first);
                    match operand(right_kind(operator), *right, r) {
                        Err(x) => (second, Err(x)),
                        Ok(rv) => (second, combine(operator, lv, rv, *right)),
                    }
                },
            }
        },
        ExprModel::Var(name) => (
            next,
            Ok(
                match cell(env.locals, name) {
                    Some(v) => v,
                    None => ValueModel::Tx(TransactionState::NotExisting),
                },
            ),
        ),
        ExprModel::Integer(i) => (next, Ok(ValueModel::Integer(i))),
        ExprModel::Str(s) => (next, Ok(ValueModel::Str(s))),
        ExprModel::SetOf(items) => {
            let (after, r) = interp_list(items, env, next, 0, Seq::empty());
            match r {
                Ok(values) => (after, Ok(ValueModel::SetOf(values))),
                Err(x) => (after, Err(x)),
            }
        },
        ExprModel::Tuple(items) => {
            let (after, r) = interp_list(items, env, next, 0, Seq::empty());
            match r {
                Ok(values) => (after, Ok(ValueModel::Tuple(values))),
                Err(x) => (after, Err(x)),
            }
        },
        ExprModel::Member { call_site, member } => {
            let (after, r) = interp(*call_site, env, next);
            match r {
                Err(x) => (after, Err(x)),
                Ok(ValueModel::Tx(state)) => (
                    after,
                    Ok(ValueModel::Bool(member_holds(state, member))),
                ),
                Ok(v) => (
                    after,
                    Err(InterpreterErrorModel::TypeError(*call_site, v, "transaction"@)),
                ),
            }
        },
        ExprModel::Scalar(inner) => {
            let (after, r) = interp(*inner, env, next);
            match r {
                Ok(v) => (after, Ok(ValueModel::Scalar(Box::new(v)))),
                Err(x) => (after, Err(x)),
            }
        },
    }
}

/// What evaluating the expressions from position `from` on, in order, does
/// to the state in the making, and their values after those in `done`.
pub open spec fn interp_list(
    items: Seq<ExprModel>,
    env: Env,
    next: StateModel,
    from: int,
    done: Seq<ValueModel>,
) -> (StateModel, Result<Seq<ValueModel>, InterpreterErrorModel>)
    decreases items, items.len() - from,
{
    if from < 0 || from >= items.len() {
        (next, Ok(done))
    } else {
        let (after, r) = interp(items[from], env, next);
        match r {
            Ok(v) => interp_list(items, env, after, from + 1, done.push(v)),
            Err(x) => (after, Err(x)),
        }
    }
}

/// Whether the state has a process at the position.
pub open spec fn in_range(next: StateModel, idx: int) -> bool {
    0 <= idx < next.txs.len() && idx < next.processes.len()
}

/// The variables with the handle of a named transaction set to the state.
pub open spec fn bind_tx(locals: Cells, name: Option<Seq<char>>, state: TransactionState) -> Cells {
    match name {
        Some(n) => with_cell(locals, n, ValueModel::Tx(state), 0),
        None => locals,
    }
}

/// The state after the process has begun a transaction.
pub open spec fn begun(next: StateModel, idx: int, name: Option<Seq<char>>) -> StateModel {
    let db = next.sql.open();
    StateModel {
        sql: db,
        txs: next.txs.update(
            idx,
            InfoModel { id: Some(db.tx), name, state: TransactionState::Running },
        ),
        locals: bind_tx(next.locals, name, TransactionState::Running),
        ..next
    }
}

/// The state after the process has committed: nothing changes unless its
/// transaction is running.
pub open spec fn committed(next: StateModel, idx: int) -> StateModel {
    let info = next.txs[idx];
    if info.state == TransactionState::Running {
        StateModel {
            sql: match info.id {
                Some(t) => next.sql.commit(t),
                None => next.sql,
            },
            txs: next.txs.update(
                idx,
                InfoModel { id: None, name: info.name, state: TransactionState::Committed },
            ),
            locals: bind_tx(next.locals, info.name, TransactionState::Committed),
            ..next
        }
    } else {
        next
    }
}

/// The state after the process has aborted.
pub open spec fn aborted(next: StateModel, idx: int) -> StateModel {
    let info = next.txs[idx];
    StateModel {
        sql: match info.id {
            Some(t) => next.sql.abort(t),
            None => next.sql,
        },
        txs: next.txs.update(
            idx,
            InfoModel { id: None, name: info.name, state: TransactionState::Aborted },
        ),
        locals: bind_tx(next.locals, info.name, TransactionState::Aborted),
        ..next
    }
}

/// The state with the process at the position doing `p`.
pub open spec fn with_process(next: StateModel, idx: int, p: ProcessModel) -> StateModel {
    StateModel { processes: next.processes.update(idx, p), ..next }
}

/// The outcome of a statement: the number of statements to move forward by.
pub type Moved = Result<nat, InterpreterErrorModel>;

/// What a statement of a process does to the state in the making, and by how
/// many statements the process moves forward, before failures of the
/// database are looked at.
pub open spec fn perform(s: StatementModel, env: Env, next: StateModel, idx: int) -> (
    StateModel,
    Moved,
) {
    if !in_range(next, idx) {
        (next, Err(InterpreterErrorModel::Unexpected("no such process"@)))
    } else {
        match s {
            StatementModel::Begin(_, name) => if next.sql.tx.0 < usize::MAX {
                (begun(next, idx, name), Ok(1))
            } else {
                (next, Err(InterpreterErrorModel::Unexpected("out of identifiers"@)))
            },
            StatementModel::Commit => (committed(next, idx), Ok(1)),
            StatementModel::Abort => (aborted(next, idx), Ok(1)),
            StatementModel::Expression(e) => {
                let (after, r) = interp(e, env, next);
                match r {
                    Ok(_) => (after, Ok(1)),
                    Err(x) => (after, Err(x)),
                }
            },
            StatementModel::Latch => (with_process(next, idx, ProcessModel::Latching), Ok(1)),
            StatementModel::If(e, offset) => {
                let (after, r) = interp(e, env, next);
                match operand(Kind::Truth, e, r) {
                    Err(x) => (after, Err(x)),
                    Ok(v) => (
                        after,
                        Ok(
                            if bool_in(v).unwrap() {
                                1
                            } else {
                                offset
                            },
                        ),
                    ),
                }
            },
            StatementModel::Else(offset) => (next, Ok(offset)),
            _ => (next, Err(InterpreterErrorModel::Unexpected("unexpected statement in process"@))),
        }
    }
}

/// What a statement of a process does and by how much the process moves. A
/// violated unique index or foreign key is stepped past; a lock that cannot
/// be had leaves the process where it is, waiting for the lock. Any other
/// failure ends the run.
#[verifier::opaque]
pub open spec fn statement(s: StatementModel, env: Env, next: StateModel, idx: int) -> (
    StateModel,
    Moved,
) {
    let (after, moved) = perform(s, env, next, idx);
    match moved {
        Err(InterpreterErrorModel::SqlEngineError(SqlErrorModel::UnicityViolation)) => (
            after,
            Ok(1),
        ),
        Err(InterpreterErrorModel::SqlEngineError(SqlErrorModel::ForeignKeyViolation)) => (
            after,
            Ok(1),
        ),
        Err(InterpreterErrorModel::SqlEngineError(SqlErrorModel::Locked(lock))) => (
            with_process(after, idx, ProcessModel::Locked(lock)),
            Ok(0),
        ),
        _ => (after, moved),
    }
}

/// A statement moves its process forward by no more than one statement
/// unless it is a jump, which moves it by what the jump says.
pub proof fn lemma_statement_offset(s: StatementModel, env: Env, next: StateModel, idx: int)
    ensures
        match statement(s, env, next, idx).1 {
            Ok(offset) => offset <= 1 || s == StatementModel::If(s->If_0, offset) || s
                == StatementModel::Else(offset),
            Err(_) => true,
        },
{
    reveal(statement);
}

/// What the check of a property on a state says. The property is evaluated
/// outside any transaction of a process, on a copy of the state, so it sees
/// committed data only and changes nothing.
pub open spec fn check(property: StatementModel, state: StateModel) -> Result<
    PropertyCheck,
    InterpreterErrorModel,
> {
    let env = Env { locals: state.locals, tx: None };
    match property {
        StatementModel::Always(e) => match interp(e, env, state).1 {
            Ok(v) => Ok(PropertyCheck::Always(v == ValueModel::Bool(true))),
            Err(x) => Err(x),
        },
        StatementModel::Never(e) => match interp(e, env, state).1 {
            Ok(v) => Ok(PropertyCheck::Always(v == ValueModel::Bool(false))),
            Err(x) => Err(x),
        },
        StatementModel::Eventually(e) => match interp(e, env, state).1 {
            Ok(v) => Ok(PropertyCheck::Eventually(v == ValueModel::Bool(true))),
            Err(x) => Err(x),
        },
        _ => Err(
            InterpreterErrorModel::Unexpected(
                "unsupported property: "@ + crate::render::statement_debug_text(property),
            ),
        ),
    }
}

/// The kind that an operator asks of its left operand.
fn left_kind_of(op: Operator) -> (k: Kind)
    ensures
        k == left_kind(op),
{
    match op {
        Operator::Equal | Operator::NotEqual | Operator::Included => Kind::Any,
        Operator::And | Operator::Or => Kind::Truth,
        _ => Kind::Integer,
    }
}

/// The kind that an operator asks of its right operand.
fn right_kind_of(op: Operator) -> (k: Kind)
    ensures
        k == right_kind(op),
{
    match op {
        Operator::Equal | Operator::NotEqual => Kind::Any,
        Operator::Included => Kind::Members,
        Operator::And | Operator::Or => Kind::Truth,
        _ => Kind::Integer,
    }
}

/// The evaluated operand where it is of the kind asked for.
fn check_operand(kind: Kind, e: &Expression, r: Result<Value, InterpreterError>) -> (out: Result<
    Value,
    InterpreterError,
>)
    ensures
        outcome_of(out) == operand(kind, e@, outcome_of(r)),
{
    match r {
        Err(x) => Err(x),
        Ok(v) => {
            let fitting = match kind {
                Kind::Any => true,
                Kind::Integer => v.as_integer().is_some(),
                Kind::Truth => v.as_bool().is_some(),
                Kind::Members => v.as_set().is_some(),
            };
            if fitting {
                Ok(v)
            } else {
                let name = match kind {
                    Kind::Any => String::from_str("value"),
                    Kind::Integer => String::from_str("integer"),
                    Kind::Truth => String::from_str("bool"),
                    Kind::Members => String::from_str("set"),
                };
                Err(InterpreterError::TypeError(e.clone(), v, name))
            }
        },
    }
}

/// The integer that a value of the integer kind stands for.
fn integer_from(v: &Value) -> (r: i16)
    requires
        integer_in(v@).is_some(),
    ensures
        r as int == integer_in(v@).unwrap(),
{
    match v.as_integer() {
        Some(i) => i,
        None => 0,
    }
}

/// The truth value that a value of the truth kind stands for.
fn bool_from(v: &Value) -> (r: bool)
    requires
        bool_in(v@).is_some(),
    ensures
        r == bool_in(v@).unwrap(),
{
    match v.as_bool() {
        Some(b) => b,
        None => false,
    }
}

/// The result of an operator on operands of the kinds that it asks for.
fn combine_values(op: Operator, l: &Value, r: &Value, right: &Expression) -> (out: Result<
    Value,
    InterpreterError,
>)
    requires
        fits(left_kind(op), l@),
        fits(right_kind(op), r@),
    ensures
        outcome_of(out) == combine(op, l@, r@, right@),
{
    match op {
        Operator::Add => Ok(Value::Integer(add16(integer_from(l), integer_from(r)))),
        Operator::Subtract => Ok(Value::Integer(sub16(integer_from(l), integer_from(r)))),
        Operator::Multiply => Ok(Value::Integer(mul16(integer_from(l), integer_from(r)))),
        Operator::Divide => {
            let b = integer_from(r);
            if b == 0 {
                Err(
                    InterpreterError::TypeError(
                        right.clone(),
                        r.clone(),
                        String::from_str("non-zero integer"),
                    ),
                )
            } else {
                Ok(Value::Integer(div16(integer_from(l), b)))
            }
        },
        Operator::Rem => {
            let b = integer_from(r);
            if b == 0 {
                Err(
                    InterpreterError::TypeError(
                        right.clone(),
                        r.clone(),
                        String::from_str("non-zero integer"),
                    ),
                )
            } else {
                Ok(Value::Integer(rem16(integer_from(l), b)))
            }
        },
        Operator::Equal => Ok(Value::Bool(l.same(r))),
        Operator::NotEqual => Ok(Value::Bool(!l.same(r))),
        Operator::Less => Ok(Value::Bool(integer_from(l) < integer_from(r))),
        Operator::LessEqual => Ok(Value::Bool(integer_from(l) <= integer_from(r))),
        Operator::Greater => Ok(Value::Bool(integer_from(l) > integer_from(r))),
        Operator::GreaterEqual => Ok(Value::Bool(integer_from(l) >= integer_from(r))),
        Operator::Included => match r.as_set() {
            Some(items) => Ok(Value::Bool(holds_member(items, l))),
            None => Ok(Value::Bool(false)),
        },
        Operator::And => {
            let a = bool_from(l);
            let b = bool_from(r);
            Ok(Value::Bool(a && b))
        },
        Operator::Or => {
            let a = bool_from(l);
            let b = bool_from(r);
            Ok(Value::Bool(a || b))
        },
    }
}

/// What a member of a transaction handle says of a transaction in the state.
fn member_says(state: TransactionState, member: &String) -> (r: bool)
    ensures
        r == member_holds(state, member@),
{
    match state {
        TransactionState::NotExisting => false,
        TransactionState::Running => false,
        TransactionState::Aborted => *member == String::from_str("aborted"),
        TransactionState::Committed => *member == String::from_str("committed"),
    }
}

/// Runs the statements of one process, one at a time, each on the state
/// that it started from and into a state in the making.
pub struct Interpreter {
    /// The process whose statement runs.
    pub idx: usize,
    /// Whether a property is being checked rather than a statement run.
    pub checking: bool,
    /// The state that the statement started from.
    pub state: State,
    /// The state in the making.
    pub next_state: State,
}

impl Interpreter {
    /// What a statement that runs now reads of the state it started from.
    pub open spec fn env(&self) -> Env {
        Env {
            locals: self.state@.locals,
            tx: if self.checking || self.idx >= self.state@.txs.len() {
                None
            } else {
                self.state@.txs[self.idx as int].id
            },
        }
    }

    /// An interpreter for the statements that start from `state`.
    pub fn new(state: State) -> (r: Interpreter)
        ensures
            r.idx == 0,
            !r.checking,
            r.state@ == state@,
            r.next_state@ == state@,
    {
        Interpreter { idx: 0, checking: false, next_state: state.clone(), state }
    }

    /// Hands out the state in the making and starts a new one from the state
    /// that statements start from.
    pub fn next_state(&mut self) -> (r: State)
        ensures
            r@ == old(self).next_state@,
            final(self).next_state@ == old(self).state@,
            final(self).state == old(self).state,
            final(self).idx == old(self).idx,
            final(self).checking == old(self).checking,
    {
        let mut fresh = self.state.clone();
        core::mem::swap(&mut self.next_state, &mut fresh);
        fresh
    }

    /// The transaction that the process is in, as a running statement sees
    /// it: none while a property is checked.
    pub fn running_tx(&self) -> (r: Option<TransactionId>)
        ensures
            r == self.env().tx,
    {
        if self.checking || self.idx >= self.state.txs.len() {
            None
        } else {
            assert(self.state@.txs[self.idx as int] == self.state.txs@[self.idx as int]@);
            self.state.txs[self.idx].id
        }
    }

    /// The query with the values of the program's variables put in.
    pub fn reify_up_variable(&self, expr: &SqlExpression) -> (r: Result<
        SqlExpression,
        InterpreterError,
    >)
        ensures
            r.is_ok(),
            r.unwrap()@ == reify(expr@, self.env().locals),
    {
        Ok(reify_expression(expr, &self.state.locals))
    }

    /// Runs a query of the program on the database of the state in the making.
    fn run_query(&mut self, sql: &SqlExpression) -> (r: Result<Value, InterpreterError>)
        ensures
            (final(self).next_state@.sql, outcome_of(r)) == run_sql(
                old(self).next_state@.sql,
                sql@,
                old(self).env(),
            ),
            final(self).next_state@ == (StateModel {
                sql: final(self).next_state@.sql,
                ..old(self).next_state@
            }),
            final(self).state == old(self).state,
            final(self).idx == old(self).idx,
            final(self).checking == old(self).checking,
            crate::integrity::sound(old(self).next_state@.sql) ==> crate::integrity::sound(
                final(self).next_state@.sql,
            ),
    {
        let query = reify_expression(sql, &self.state.locals);
        let tx = self.running_tx();
        match tx {
            Some(t) => {
                if self.next_state.sql.find_tx(t).is_none() {
                    return Err(
                        InterpreterError::Unexpected(String::from_str("transaction is not open")),
                    );
                }
            },
            None => {},
        }
        if !self.next_state.sql.has_room(&query, tx) {
            return Err(InterpreterError::Unexpected(String::from_str("out of identifiers")));
        }
        match self.next_state.sql.execute(&query, tx) {
            Ok(v) => Ok(v),
            Err(x) => {
                if tx.is_none() {
                    let own = self.next_state.sql.cur_tx;
                    self.next_state.sql.abort(&own);
                }
                Err(InterpreterError::from(x))
            },
        }
    }

    /// Evaluates the expressions in order.
    fn interpret_list(&mut self, items: &Vec<Expression>) -> (r: Result<
        Vec<Value>,
        InterpreterError,
    >)
        ensures
            match r {
                Ok(values) => interp_list(
                    expr_children(*items),
                    old(self).env(),
                    old(self).next_state@,
                    0,
                    Seq::empty(),
                ) == (
                    final(self).next_state@,
                    Ok::<Seq<ValueModel>, InterpreterErrorModel>(models_of(values@)),
                ),
                Err(x) => interp_list(
                    expr_children(*items),
                    old(self).env(),
                    old(self).next_state@,
                    0,
                    Seq::empty(),
                ) == (final(self).next_state@, Err::<Seq<ValueModel>, InterpreterErrorModel>(x@)),
            },
            final(self).next_state@ == (StateModel {
                sql: final(self).next_state@.sql,
                locals: final(self).next_state@.locals,
                ..old(self).next_state@
            }),
            final(self).state == old(self).state,
            final(self).idx == old(self).idx,
            final(self).checking == old(self).checking,
            crate::integrity::sound(old(self).next_state@.sql) ==> crate::integrity::sound(
                final(self).next_state@.sql,
            ),
        decreases items, 1nat,
    {
        proof {
            lemma_expr_children(*items);
        }
        let mut out: Vec<Value> = Vec::new();
        let mut i: usize = 0;
        assert(models_of(out@) =~= Seq::empty());
        while i < items.len()
            invariant
                i <= items.len(),
                expr_children(*items) == expr_models_of(items@),
                self.next_state@ == (StateModel {
                    sql: self.next_state@.sql,
                    locals: self.next_state@.locals,
                    ..old(self).next_state@
                }),
                self.state == old(self).state,
                self.idx == old(self).idx,
                self.checking == old(self).checking,
                crate::integrity::sound(old(self).next_state@.sql) ==> crate::integrity::sound(
                    self.next_state@.sql,
                ),
                interp_list(
                    expr_children(*items),
                    old(self).env(),
                    old(self).next_state@,
                    0,
                    Seq::empty(),
                ) == interp_list(
                    expr_children(*items),
                    old(self).env(),
                    self.next_state@,
                    i as int,
                    models_of(out@),
                ),
            decreases items.len() - i,
        {
            assert(expr_models_of(items@)[i as int] == items@[i as int]@);
            match self.interpret(&items[i]) {
                Ok(v) => {
                    let ghost before = models_of(out@);
                    let ghost m = v@;
                    out.push(v);
                    assert(models_of(out@) =~= before.push(m));
                },
                Err(x) => {
                    return Err(x);
                },
            }
            i += 1;
        }
        Ok(out)
    }

    /// Evaluates a binary expression: the left operand, then the right one,
    /// then the operator.
    pub fn interpret_binary(&mut self, left: &Expression, operator: &Operator, right: &Expression) -> (r:
        Result<Value, InterpreterError>)
        ensures
            (final(self).next_state@, outcome_of(r)) == interp(
                ExprModel::Binary {
                    left: Box::new(left@),
                    operator: *operator,
                    right: Box::new(right@),
                },
                old(self).env(),
                old(self).next_state@,
            ),
            final(self).next_state@ == (StateModel {
                sql: final(self).next_state@.sql,
                locals: final(self).next_state@.locals,
                ..old(self).next_state@
            }),
            final(self).state == old(self).state,
            final(self).idx == old(self).idx,
            final(self).checking == old(self).checking,
            crate::integrity::sound(old(self).next_state@.sql) ==> crate::integrity::sound(
                final(self).next_state@.sql,
            ),
    {
        let l = self.interpret(left);
        match check_operand(left_kind_of(*operator), left, l) {
            Err(x) => Err(x),
            Ok(lv) => {
                let r = self.interpret(right);
                match check_operand(right_kind_of(*operator), right, r) {
                    Err(x) => Err(x),
                    Ok(rv) => combine_values(*operator, &lv, &rv, right),
                }
            },
        }
    }

    /// Evaluates an expression on the state in the making.
    pub fn interpret(&mut self, expression: &Expression) -> (r: Result<Value, InterpreterError>)
        ensures
            (final(self).next_state@, outcome_of(r)) == interp(
                expression@,
                old(self).env(),
                old(self).next_state@,
            ),
            final(self).next_state@ == (StateModel {
                sql: final(self).next_state@.sql,
                locals: final(self).next_state@.locals,
                ..old(self).next_state@
            }),
            final(self).state == old(self).state,
            final(self).idx == old(self).idx,
            final(self).checking == old(self).checking,
            crate::integrity::sound(old(self).next_state@.sql) ==> crate::integrity::sound(
                final(self).next_state@.sql,
            ),
        decreases expression, 0nat,
    {
        match expression {
            Expression::Sql(sql) => self.run_query(sql),
            Expression::Assignment(variable, inner) => match self.interpret(&**inner) {
                Err(x) => Err(x),
                Ok(v) => {
                    bind_cell(&mut self.next_state.locals, variable.name.clone(), v);
                    Ok(Value::Nil)
                },
            },
            Expression::Binary { left, operator, right } => {
                let l = self.interpret(&**left);
                match check_operand(left_kind_of(*operator), &**left, l) {
                    Err(x) => Err(x),
                    Ok(lv) => {
                        let r = self.interpret(&**right);
                        match check_operand(right_kind_of(*operator), &**right, r) {
                            Err(x) => Err(x),
                            Ok(rv) => combine_values(*operator, &lv, &rv, &**right),
                        }
                    },
                }
            },
            Expression::Var(variable) => match find_cell(&self.state.locals, &variable.name) {
                Some(v) => Ok(v.clone()),
                None => Ok(Value::Tx(Transaction(TransactionState::NotExisting))),
            },
            Expression::Integer(i) => Ok(Value::Integer(*i)),
            Expression::String(s) => Ok(Value::String(s.clone())),
            Expression::SetOf(items) => match self.interpret_list(items) {
                Ok(values) => {
                    proof {
                        lemma_model_of_members(values);
                    }
                    Ok(Value::SetOf(values))
                },
                Err(x) => Err(x),
            },
            Expression::Tuple(items) => match self.interpret_list(items) {
                Ok(values) => {
                    proof {
                        lemma_model_of_members(values);
                    }
                    Ok(Value::Tuple(values))
                },
                Err(x) => Err(x),
            },
            Expression::Member { call_site, member } => match self.interpret(&**call_site) {
                Err(x) => Err(x),
                Ok(Value::Tx(t)) => Ok(Value::Bool(member_says(t.0, &member.name))),
                Ok(v) => Err(
                    InterpreterError::TypeError(
                        (&**call_site).clone(),
                        v,
                        String::from_str("transaction"),
                    ),
                ),
            },
            Expression::Scalar(inner) => match self.interpret(&**inner) {
                Ok(v) => Ok(Value::Scalar(Box::new(v))),
                Err(x) => Err(x),
            },
        }
    }

    /// Evaluates an expression that must give an integer.
    pub fn assert_integer(&mut self, expr: &Expression) -> (r: Result<i16, InterpreterError>)
        ensures
            match r {
                Ok(i) => operand(
                    Kind::Integer,
                    expr@,
                    interp(expr@, old(self).env(), old(self).next_state@).1,
                ).is_ok() && integer_in(
                    interp(expr@, old(self).env(), old(self).next_state@).1->Ok_0,
                ) == Some(i as int),
                Err(x) => operand(
                    Kind::Integer,
                    expr@,
                    interp(expr@, old(self).env(), old(self).next_state@).1,
                ) == Err::<ValueModel, InterpreterErrorModel>(x@),
            },
            final(self).next_state@ == interp(expr@, old(self).env(), old(self).next_state@).0,
            final(self).state == old(self).state,
            final(self).idx == old(self).idx,
            final(self).checking == old(self).checking,
            crate::integrity::sound(old(self).next_state@.sql) ==> crate::integrity::sound(
                final(self).next_state@.sql,
            ),
    {
        let r = self.interpret(expr);
        match check_operand(Kind::Integer, expr, r) {
            Ok(v) => Ok(integer_from(&v)),
            Err(x) => Err(x),
        }
    }

    /// Evaluates an expression that must give a truth value.
    pub fn assert_bool(&mut self, expr: &Expression) -> (r: Result<bool, InterpreterError>)
        ensures
            match r {
                Ok(b) => operand(
                    Kind::Truth,
                    expr@,
                    interp(expr@, old(self).env(), old(self).next_state@).1,
                ).is_ok() && bool_in(
                    interp(expr@, old(self).env(), old(self).next_state@).1->Ok_0,
                ) == Some(b),
                Err(x) => operand(
                    Kind::Truth,
                    expr@,
                    interp(expr@, old(self).env(), old(self).next_state@).1,
                ) == Err::<ValueModel, InterpreterErrorModel>(x@),
            },
            final(self).next_state@ == interp(expr@, old(self).env(), old(self).next_state@).0,
            final(self).next_state@ == (StateModel {
                sql: final(self).next_state@.sql,
                locals: final(self).next_state@.locals,
                ..old(self).next_state@
            }),
            final(self).state == old(self).state,
            final(self).idx == old(self).idx,
            final(self).checking == old(self).checking,
            crate::integrity::sound(old(self).next_state@.sql) ==> crate::integrity::sound(
                final(self).next_state@.sql,
            ),
    {
        let r = self.interpret(expr);
        match check_operand(Kind::Truth, expr, r) {
            Ok(v) => Ok(bool_from(&v)),
            Err(x) => Err(x),
        }
    }

    /// Evaluates an expression that must give a set, and gives its members.
    pub fn assert_set(&mut self, expr: &Expression) -> (r: Result<Vec<Value>, InterpreterError>)
        ensures
            match r {
                Ok(items) => operand(
                    Kind::Members,
                    expr@,
                    interp(expr@, old(self).env(), old(self).next_state@).1,
                ).is_ok() && set_in(
                    interp(expr@, old(self).env(), old(self).next_state@).1->Ok_0,
                ) == Some(models_of(items@)),
                Err(x) => operand(
                    Kind::Members,
                    expr@,
                    interp(expr@, old(self).env(), old(self).next_state@).1,
                ) == Err::<ValueModel, InterpreterErrorModel>(x@),
            },
            final(self).next_state@ == interp(expr@, old(self).env(), old(self).next_state@).0,
            final(self).state == old(self).state,
            final(self).idx == old(self).idx,
            final(self).checking == old(self).checking,
            crate::integrity::sound(old(self).next_state@.sql) ==> crate::integrity::sound(
                final(self).next_state@.sql,
            ),
    {
        let r = self.interpret(expr);
        match check_operand(Kind::Members, expr, r) {
            Ok(v) => match v.as_set() {
                Some(items) => Ok(crate::value::clone_members(items)),
                None => Ok(Vec::new()),
            },
            Err(x) => Err(x),
        }
    }

    /// Evaluates an expression that must give a transaction handle.
    pub fn assert_transaction(&mut self, expr: &Expression) -> (r: Result<
        Transaction,
        InterpreterError,
    >)
        ensures
            match r {
                Ok(t) => interp(expr@, old(self).env(), old(self).next_state@).1 == Ok::<
                    ValueModel,
                    InterpreterErrorModel,
                >(ValueModel::Tx(t.0)),
                Err(x) => match interp(expr@, old(self).env(), old(self).next_state@).1 {
                    Err(y) => x@ == y,
                    Ok(v) => !(v is Tx) && x@ == InterpreterErrorModel::TypeError(
                        expr@,
                        v,
                        "transaction"@,
                    ),
                },
            },
            final(self).next_state@ == interp(expr@, old(self).env(), old(self).next_state@).0,
            final(self).state == old(self).state,
            final(self).idx == old(self).idx,
            final(self).checking == old(self).checking,
            crate::integrity::sound(old(self).next_state@.sql) ==> crate::integrity::sound(
                final(self).next_state@.sql,
            ),
    {
        match self.interpret(expr) {
            Err(x) => Err(x),
            Ok(Value::Tx(t)) => Ok(t),
            Ok(v) => Err(
                InterpreterError::TypeError(expr.clone(), v, String::from_str("transaction")),
            ),
        }
    }

    /// Sets the handle of a named transaction among the variables.
    fn bind_handle(&mut self, name: &Option<String>, state: TransactionState)
        ensures
            final(self).next_state@ == (StateModel {
                locals: bind_tx(
                    old(self).next_state@.locals,
                    crate::state::opt_string(*name),
                    state,
                ),
                ..old(self).next_state@
            }),
            final(self).state == old(self).state,
            final(self).idx == old(self).idx,
            final(self).checking == old(self).checking,
            crate::integrity::sound(old(self).next_state@.sql) ==> crate::integrity::sound(
                final(self).next_state@.sql,
            ),
    {
        match name {
            Some(n) => {
                bind_cell(&mut self.next_state.locals, n.clone(), Value::Tx(Transaction(state)));
            },
            None => {},
        }
    }

    /// Runs a statement before failures of the database are looked at.
    pub fn priv_statement(&mut self, statement: &Statement) -> (r: Result<usize, InterpreterError>)
        ensures
            match r {
                Ok(offset) => perform(
                    statement@,
                    old(self).env(),
                    old(self).next_state@,
                    old(self).idx as int,
                ) == (final(self).next_state@, Ok::<nat, InterpreterErrorModel>(offset as nat)),
                Err(x) => perform(
                    statement@,
                    old(self).env(),
                    old(self).next_state@,
                    old(self).idx as int,
                ) == (final(self).next_state@, Err::<nat, InterpreterErrorModel>(x@)),
            },
            final(self).next_state@.processes.len() == old(self).next_state@.processes.len(),
            forall|i: int|
                0 <= i < old(self).next_state@.processes.len() && i != old(self).idx ==> (
                #[trigger] final(self).next_state@.processes[i]) == old(self).next_state@.processes[i],
            old(self).idx < old(self).next_state@.processes.len() && !(old(self).next_state@.processes[old(self).idx as int] is Finished) ==> !(final(self).next_state@.processes[old(self).idx as int] is Finished),
            final(self).next_state@.txs.len() == old(self).next_state@.txs.len(),
            final(self).next_state@.pc == old(self).next_state@.pc,
            final(self).next_state@.ancestors == old(self).next_state@.ancestors,
            final(self).next_state@.eventually == old(self).next_state@.eventually,
            final(self).state == old(self).state,
            final(self).idx == old(self).idx,
            final(self).checking == old(self).checking,
            crate::integrity::sound(old(self).next_state@.sql) ==> crate::integrity::sound(
                final(self).next_state@.sql,
            ),
    {
        let idx = self.idx;
        if idx >= self.next_state.txs.len() || idx >= self.next_state.processes.len() {
            return Err(InterpreterError::Unexpected(String::from_str("no such process")));
        }
        assert(self.next_state@.txs[idx as int] == self.next_state.txs@[idx as int]@);
        match statement {
            Statement::Begin(isolation, tx_name) => {
                if !self.next_state.sql.can_open() {
                    return Err(
                        InterpreterError::Unexpected(String::from_str("out of identifiers")),
                    );
                }
                let id = self.next_state.sql.open_transaction(*isolation);
                let name: Option<String> = match tx_name {
                    Some(v) => Some(v.name.clone()),
                    None => None,
                };
                let ghost before = self.next_state@.txs;
                let info = TransactionInfo {
                    id: Some(id),
                    name: match tx_name {
                        Some(v) => Some(v.name.clone()),
                        None => None,
                    },
                    state: TransactionState::Running,
                };
                let ghost m = info@;
                self.next_state.txs[idx] = info;
                assert(self.next_state@.txs =~= before.update(idx as int, m));
                self.bind_handle(&name, TransactionState::Running);
                Ok(1)
            },
            Statement::Commit => {
                if self.next_state.txs[idx].state == TransactionState::Running {
                    match self.next_state.txs[idx].id {
                        Some(t) => {
                            self.next_state.sql.commit(&t);
                        },
                        None => {},
                    }
                    let name: Option<String> = match &self.next_state.txs[idx].name {
                        Some(n) => Some(n.clone()),
                        None => None,
                    };
                    let ghost before = self.next_state@.txs;
                    let info = TransactionInfo {
                        id: None,
                        name: match &name {
                            Some(n) => Some(n.clone()),
                            None => None,
                        },
                        state: TransactionState::Committed,
                    };
                    let ghost m = info@;
                    self.next_state.txs[idx] = info;
                    assert(self.next_state@.txs =~= before.update(idx as int, m));
                    self.bind_handle(&name, TransactionState::Committed);
                }
                Ok(1)
            },
            Statement::Abort => {
                match self.next_state.txs[idx].id {
                    Some(t) => {
                        self.next_state.sql.abort(&t);
                    },
                    None => {},
                }
                let name: Option<String> = match &self.next_state.txs[idx].name {
                    Some(n) => Some(n.clone()),
                    None => None,
                };
                let ghost before = self.next_state@.txs;
                let info = TransactionInfo {
                    id: None,
                    name: match &name {
                        Some(n) => Some(n.clone()),
                        None => None,
                    },
                    state: TransactionState::Aborted,
                };
                let ghost m = info@;
                self.next_state.txs[idx] = info;
                assert(self.next_state@.txs =~= before.update(idx as int, m));
                self.bind_handle(&name, TransactionState::Aborted);
                Ok(1)
            },
            Statement::Expression(expr) => match self.interpret(expr) {
                Ok(_) => Ok(1),
                Err(x) => Err(x),
            },
            Statement::Latch => {
                let ghost before = self.next_state@.processes;
                self.next_state.processes[idx] = ProcessState::Latching;
                assert(self.next_state@.processes =~= before.update(
                    idx as int,
                    ProcessModel::Latching,
                ));
                Ok(1)
            },
            Statement::If(expr, offset) => match self.assert_bool(expr) {
                Err(x) => Err(x),
                Ok(cond) => if cond {
                    Ok(1)
                } else {
                    Ok(*offset)
                },
            },
            Statement::Else(offset) => Ok(*offset),
            _ => Err(
                InterpreterError::Unexpected(String::from_str("unexpected statement in process")),
            ),
        }
    }

    /// Runs a statement of the process on the state in the making and says
    /// by how many statements the process moves forward: by none where it
    /// must wait for a lock, by one where nothing else is said.
    pub fn statement(&mut self, statement: &Statement) -> (r: Result<usize, InterpreterError>)
        ensures
            match r {
                Ok(offset) => crate::interpreter::statement(
                    statement@,
                    old(self).env(),
                    old(self).next_state@,
                    old(self).idx as int,
                ) == (final(self).next_state@, Ok::<nat, InterpreterErrorModel>(offset as nat)),
                Err(x) => crate::interpreter::statement(
                    statement@,
                    old(self).env(),
                    old(self).next_state@,
                    old(self).idx as int,
                ) == (final(self).next_state@, Err::<nat, InterpreterErrorModel>(x@)),
            },
            final(self).next_state@.processes.len() == old(self).next_state@.processes.len(),
            forall|i: int|
                0 <= i < old(self).next_state@.processes.len() && i != old(self).idx ==> (
                #[trigger] final(self).next_state@.processes[i]) == old(self).next_state@.processes[i],
            old(self).idx < old(self).next_state@.processes.len() && !(old(self).next_state@.processes[old(self).idx as int] is Finished) ==> !(final(self).next_state@.processes[old(self).idx as int] is Finished),
            final(self).next_state@.txs.len() == old(self).next_state@.txs.len(),
            final(self).next_state@.pc == old(self).next_state@.pc,
            final(self).next_state@.ancestors == old(self).next_state@.ancestors,
            final(self).next_state@.eventually == old(self).next_state@.eventually,
            final(self).state == old(self).state,
            final(self).idx == old(self).idx,
            final(self).checking == old(self).checking,
            crate::integrity::sound(old(self).next_state@.sql) ==> crate::integrity::sound(
                final(self).next_state@.sql,
            ),
    {
        proof {
            reveal(crate::interpreter::statement);
        }
        match self.priv_statement(statement) {
            Err(InterpreterError::SqlEngineError(SqlEngineError::UnicityViolation)) => Ok(1),
            Err(InterpreterError::SqlEngineError(SqlEngineError::ForeignKeyViolation)) => Ok(1),
            Err(InterpreterError::SqlEngineError(SqlEngineError::Locked(lock))) => {
                let idx = self.idx;
                if idx < self.next_state.processes.len() {
                    let ghost before = self.next_state@.processes;
                    let ghost m = lock@;
                    self.next_state.processes[idx] = ProcessState::Locked(lock);
                    assert(self.next_state@.processes =~= before.update(
                        idx as int,
                        ProcessModel::Locked(m),
                    ));
                }
                Ok(0)
            },
            other => other,
        }
    }

    /// Checks a property on the state that statements start from. The state
    /// in the making is started anew before and after.
    pub fn check_property(&mut self, property: &Statement) -> (r: Result<
        PropertyCheck,
        InterpreterError,
    >)
        ensures
            match r {
                Ok(c) => check(property@, old(self).state@) == Ok::<
                    PropertyCheck,
                    InterpreterErrorModel,
                >(c),
                Err(x) => check(property@, old(self).state@) == Err::<
                    PropertyCheck,
                    InterpreterErrorModel,
                >(x@),
            },
            final(self).next_state@ == old(self).state@,
            final(self).state == old(self).state,
            final(self).idx == old(self).idx,
            final(self).checking == old(self).checking,
    {
        let was = self.checking;
        self.checking = true;
        self.next_state = self.state.clone();
        let res = match property {
            Statement::Always(e) => match self.interpret(e) {
                Ok(v) => Ok(PropertyCheck::Always(v.same(&Value::Bool(true)))),
                Err(x) => Err(x),
            },
            Statement::Never(e) => match self.interpret(e) {
                Ok(v) => Ok(PropertyCheck::Always(v.same(&Value::Bool(false)))),
                Err(x) => Err(x),
            },
            Statement::Eventually(e) => match self.interpret(e) {
                Ok(v) => Ok(PropertyCheck::Eventually(v.same(&Value::Bool(true)))),
                Err(x) => Err(x),
            },
            other => {
                let mut text = String::from_str("unsupported property: ");
                text.append(crate::render::debugged(other).as_str());
                Err(InterpreterError::Unexpected(text))
            },
        };
        self.checking = was;
        self.next_state = self.state.clone();
        res
    }
}

/// Whether two states differ at most in the database and the variables.
pub open spec fn same_frame(a: StateModel, b: StateModel) -> bool {
    &&& a.pc == b.pc
    &&& a.processes == b.processes
    &&& a.txs == b.txs
    &&& a.ancestors == b.ancestors
    &&& a.eventually == b.eventually
}

/// Evaluating an expression changes at most the database and the
/// variables.
pub proof fn lemma_interp_frame(e: ExprModel, env: Env, next: StateModel)
    ensures
        same_frame(next, interp(e, env, next).0),
    decreases e, 0nat,
{
    match e {
        ExprModel::Assignment(name, inner) => {
            lemma_interp_frame(*inner, env, next);
        },
        ExprModel::Binary { left, operator, right } => {
            lemma_interp_frame(*left, env, next);
            lemma_interp_frame(*right, env, interp(*left, env, next).0);
        },
        ExprModel::SetOf(items) => {
            lemma_interp_list_frame(items, env, next, 0, Seq::empty());
        },
        ExprModel::Tuple(items) => {
            lemma_interp_list_frame(items, env, next, 0, Seq::empty());
        },
        ExprModel::Member { call_site, member } => {
            lemma_interp_frame(*call_site, env, next);
        },
        ExprModel::Scalar(inner) => {
            lemma_interp_frame(*inner, env, next);
        },
        _ => {},
    }
}

/// Evaluating expressions in order changes at most the database and the
/// variables.
pub proof fn lemma_interp_list_frame(
    items: Seq<ExprModel>,
    env: Env,
    next: StateModel,
    from: int,
    done: Seq<ValueModel>,
)
    ensures
        same_frame(next, interp_list(items, env, next, from, done).0),
    decreases items, items.len() - from,
{
    if 0 <= from < items.len() {
        lemma_interp_frame(items[from], env, next);
        let (after, r) = interp(items[from], env, next);
        match r {
            Ok(v) => {
                lemma_interp_list_frame(items, env, after, from + 1, done.push(v));
            },
            Err(_) => {},
        }
    }
}

/// A statement leaves the positions, the flags and the ancestors of the
/// state as they were, and changes what no process but its own is doing.
pub proof fn lemma_statement_keeps(s: StatementModel, env: Env, next: StateModel, idx: int)
    ensures
        statement(s, env, next, idx).0.pc == next.pc,
        statement(s, env, next, idx).0.eventually == next.eventually,
        statement(s, env, next, idx).0.ancestors == next.ancestors,
        statement(s, env, next, idx).0.processes.len() == next.processes.len(),
        forall|j: int|
            0 <= j < next.processes.len() && j != idx ==> statement(
                s,
                env,
                next,
                idx,
            ).0.processes[j] == next.processes[j],
{
    reveal(statement);
    match s {
        StatementModel::Expression(e) => {
            lemma_interp_frame(e, env, next);
        },
        StatementModel::If(e, _) => {
            lemma_interp_frame(e, env, next);
        },
        _ => {},
    }
}

/// A statement whose query cannot have a lock moves its process by
/// nothing and leaves it waiting for that lock: the positions and what the
/// other processes are doing stay as they were.
pub proof fn lemma_locked_waits(
    s: StatementModel,
    env: Env,
    next: StateModel,
    idx: int,
    lock: crate::store::LockModel,
)
    requires
        in_range(next, idx),
        perform(s, env, next, idx).1 == Err::<nat, InterpreterErrorModel>(
            InterpreterErrorModel::SqlEngineError(SqlErrorModel::Locked(lock)),
        ),
    ensures
        statement(s, env, next, idx).1 == Ok::<nat, InterpreterErrorModel>(0),
        statement(s, env, next, idx).0.processes == next.processes.update(
            idx,
            ProcessModel::Locked(lock),
        ),
        statement(s, env, next, idx).0.pc == next.pc,
{
    reveal(statement);
    match s {
        StatementModel::Expression(e) => {
            lemma_interp_frame(e, env, next);
        },
        StatementModel::If(e, _) => {
            lemma_interp_frame(e, env, next);
        },
        _ => {},
    }
}

/// A statement whose query violates a unique index or a foreign key is
/// stepped past: its process moves on by one statement, and what the
/// processes are doing stays as it was.
pub proof fn lemma_violation_stepped_past(s: StatementModel, env: Env, next: StateModel, idx: int)
    requires
        in_range(next, idx),
        perform(s, env, next, idx).1 == Err::<nat, InterpreterErrorModel>(
            InterpreterErrorModel::SqlEngineError(SqlErrorModel::UnicityViolation),
        ) || perform(s, env, next, idx).1 == Err::<nat, InterpreterErrorModel>(
            InterpreterErrorModel::SqlEngineError(SqlErrorModel::ForeignKeyViolation),
        ),
    ensures
        statement(s, env, next, idx).1 == Ok::<nat, InterpreterErrorModel>(1),
        statement(s, env, next, idx).0 == perform(s, env, next, idx).0,
        statement(s, env, next, idx).0.processes == next.processes,
{
    reveal(statement);
    match s {
        StatementModel::Expression(e) => {
            lemma_interp_frame(e, env, next);
        },
        StatementModel::If(e, _) => {
            lemma_interp_frame(e, env, next);
        },
        _ => {},
    }
}

} // verus!
