//! The value of a query expression in the scope of a row.

use crate::arith::{add16, div16, mul16, quotient, rem16, remainder, sub16, wrap16};
use crate::ast::{
    lemma_sql_children, sql_children, sql_models_of, SqlExpression, SqlModel, SqlOperator,
};
use crate::store::{cell, find_cell, Cells, Lock, LockModel, Row};
use crate::value::{
    bool_in, holds_member, integer_in, lemma_model_of_members, models_of, rank_of, set_in,
    tuple_in, Rank, Value, ValueModel,
};
use vstd::prelude::*;
use vstd::string::*;

verus! {

/// What can go wrong while a query runs.
#[derive(Debug, PartialEq, Eq)]
pub enum SqlEngineError {
    /// Another transaction holds a lock that stands against the one asked for.
    Locked(Lock),
    /// The expression did not have a value of the expected kind.
    SqlTypeError(SqlExpression, String),
    /// The row would share a unique tuple with a committed row.
    UnicityViolation,
    /// The row refers to a row that is not there.
    ForeignKeyViolation,
    /// The name stands for no column in scope.
    UnknownVariable(String),
}

/// The mathematical content of a [`SqlEngineError`].
pub enum SqlErrorModel {
    Locked(LockModel),
    SqlTypeError(SqlModel, Seq<char>),
    UnicityViolation,
    ForeignKeyViolation,
    UnknownVariable(Seq<char>),
}

impl View for SqlEngineError {
    type V = SqlErrorModel;

    open spec fn view(&self) -> SqlErrorModel {
        match self {
            SqlEngineError::Locked(l) => SqlErrorModel::Locked(l@),
            SqlEngineError::SqlTypeError(e, s) => SqlErrorModel::SqlTypeError(e@, s@),
            SqlEngineError::UnicityViolation => SqlErrorModel::UnicityViolation,
            SqlEngineError::ForeignKeyViolation => SqlErrorModel::ForeignKeyViolation,
            SqlEngineError::UnknownVariable(n) => SqlErrorModel::UnknownVariable(n@),
        }
    }
}

/// The outcome of evaluating a query expression.
pub type Evaluated = Result<ValueModel, SqlErrorModel>;

/// The content of the outcome of an evaluation.
pub open spec fn evaluated_of(r: Result<Value, SqlEngineError>) -> Evaluated {
    match r {
        Ok(v) => Ok(v@),
        Err(e) => Err(e@),
    }
}

/// The cells in scope, where a row is.
pub open spec fn scope_of(scope: Option<&Row>) -> Option<Cells> {
    match scope {
        Some(row) => Some(row@.cells),
        None => None,
    }
}

/// A value without the scalar around it, if it has one.
pub open spec fn unscalar(v: ValueModel) -> ValueModel {
    match v {
        ValueModel::Scalar(inner) => *inner,
        _ => v,
    }
}

/// The integer that an evaluated operand stands for; a type error on the
/// operand where it stands for none.
pub open spec fn integer_operand(e: SqlModel, v: Evaluated) -> Result<int, SqlErrorModel> {
    match v {
        Err(x) => Err(x),
        Ok(value) => match integer_in(value) {
            Some(i) => Ok(i),
            None => Err(SqlErrorModel::SqlTypeError(e, "integer"@)),
        },
    }
}

/// The truth value that an evaluated operand stands for; a type error on the
/// operand where it stands for none.
pub open spec fn bool_operand(e: SqlModel, v: Evaluated) -> Result<bool, SqlErrorModel> {
    match v {
        Err(x) => Err(x),
        Ok(value) => match bool_in(value) {
            Some(b) => Ok(b),
            None => Err(SqlErrorModel::SqlTypeError(e, "bool"@)),
        },
    }
}

/// The result of an arithmetic operator on two integers. Dividing by zero is
/// a type error on the divisor.
pub open spec fn arithmetic(op: SqlOperator, a: int, b: int, divisor: SqlModel) -> Evaluated {
    match op {
        SqlOperator::Add => Ok(ValueModel::Integer(wrap16(a + b))),
        SqlOperator::Subtract => Ok(ValueModel::Integer(wrap16(a - b))),
        SqlOperator::Multiply => Ok(ValueModel::Integer(wrap16(a * b))),
        SqlOperator::Divide => if b == 0 {
            Err(SqlErrorModel::SqlTypeError(divisor, "non-zero integer"@))
        } else {
            Ok(ValueModel::Integer(wrap16(quotient(a, b))))
        },
        _ => if b == 0 {
            Err(SqlErrorModel::SqlTypeError(divisor, "non-zero integer"@))
        } else {
            Ok(ValueModel::Integer(remainder(a, b)))
        },
    }
}

/// Whether an order between two values answers a comparison operator.
pub open spec fn rank_answers(op: SqlOperator, rank: Rank) -> bool {
    match op {
        SqlOperator::Less => rank == Rank::Before,
        SqlOperator::LessEqual => rank != Rank::After,
        SqlOperator::Greater => rank == Rank::After,
        _ => rank != Rank::Before,
    }
}

/// The bounds of a `between`: the two integers of a tuple of two.
pub open spec fn bounds_in(v: ValueModel) -> Option<(int, int)> {
    match tuple_in(v) {
        Some(items) => if items.len() == 2 {
            match (integer_in(items[0]), integer_in(items[1])) {
                (Some(low), Some(high)) => Some((low, high)),
                _ => None,
            }
        } else {
            None
        },
        None => None,
    }
}

/// The result of a binary operator on its evaluated operands. The left
/// operand is looked at first; the first failure is the result.
pub open spec fn apply_binary(
    op: SqlOperator,
    left: SqlModel,
    l: Evaluated,
    right: SqlModel,
    r: Evaluated,
) -> Evaluated {
    match op {
        SqlOperator::Add | SqlOperator::Subtract | SqlOperator::Multiply | SqlOperator::Divide
        | SqlOperator::Rem => match integer_operand(left, l) {
            Err(x) => Err(x),
            Ok(a) => match integer_operand(right, r) {
                Err(x) => Err(x),
                Ok(b) => arithmetic(op, a, b, right),
            },
        },
        SqlOperator::Equal => match (l, r) {
            (Err(x), _) => Err(x),
            (_, Err(x)) => Err(x),
            (Ok(a), Ok(b)) => Ok(ValueModel::Bool(a == b)),
        },
        SqlOperator::NotEqual => match (l, r) {
            (Err(x), _) => Err(x),
            (_, Err(x)) => Err(x),
            (Ok(a), Ok(b)) => Ok(ValueModel::Bool(a != b)),
        },
        SqlOperator::Less | SqlOperator::LessEqual | SqlOperator::Greater
        | SqlOperator::GreaterEqual => match (l, r) {
            (Err(x), _) => Err(x),
            (_, Err(x)) => Err(x),
            (Ok(a), Ok(b)) => match rank_of(unscalar(a), unscalar(b)) {
                Some(rank) => Ok(ValueModel::Bool(rank_answers(op, rank))),
                None => Err(SqlErrorModel::SqlTypeError(left, "comparable"@)),
            },
        },
        SqlOperator::In => match (l, r) {
            (Err(x), _) => Err(x),
            (_, Err(x)) => Err(x),
            (Ok(a), Ok(b)) => match set_in(b) {
                Some(items) => Ok(ValueModel::Bool(items.contains(a))),
                None => Err(SqlErrorModel::SqlTypeError(right, "set"@)),
            },
        },
        SqlOperator::Between => match integer_operand(left, l) {
            Err(x) => Err(x),
            Ok(a) => match r {
                Err(x) => Err(x),
                Ok(b) => match bounds_in(b) {
                    Some((low, high)) => Ok(ValueModel::Bool(low <= a && a <= high)),
                    None => Err(SqlErrorModel::SqlTypeError(right, "bounds"@)),
                },
            },
        },
        SqlOperator::And => match bool_operand(left, l) {
            Err(x) => Err(x),
            Ok(a) => match bool_operand(right, r) {
                Err(x) => Err(x),
                Ok(b) => Ok(ValueModel::Bool(a && b)),
            },
        },
    }
}

/// The value of a query expression in a scope: literals and values stand for
/// themselves, a name for the cell of that name in the row in scope, a tuple
/// or set for its members' values in order, a binary expression for its
/// operator applied to its operands. A statement has no value here.
pub open spec fn eval(e: SqlModel, scope: Option<Cells>) -> Evaluated
    decreases e, 0nat,
{
    match e {
        SqlModel::Integer(i) => Ok(ValueModel::Integer(i)),
        SqlModel::Str(s) => Ok(ValueModel::Str(s)),
        SqlModel::Bool(b) => Ok(ValueModel::Bool(b)),
        SqlModel::Value(v) => Ok(v),
        SqlModel::Var(name) => match scope {
            Some(cells) => match cell(cells, name) {
                Some(v) => Ok(v),
                None => Err(SqlErrorModel::UnknownVariable(name)),
            },
            None => Err(SqlErrorModel::UnknownVariable(name)),
        },
        SqlModel::Scalar(inner) => match eval(*inner, scope) {
            Ok(v) => Ok(ValueModel::Scalar(Box::new(v))),
            Err(x) => Err(x),
        },
        SqlModel::Tuple(items) => match eval_list(items, scope, 0, Seq::empty()) {
            Ok(values) => Ok(ValueModel::Tuple(values)),
            Err(x) => Err(x),
        },
        SqlModel::SetOf(items) => match eval_list(items, scope, 0, Seq::empty()) {
            Ok(values) => Ok(ValueModel::SetOf(values)),
            Err(x) => Err(x),
        },
        SqlModel::Binary { left, operator, right } => apply_binary(
            operator,
            *left,
            eval(*left, scope),
            *right,
            eval(*right, scope),
        ),
        _ => Err(SqlErrorModel::SqlTypeError(e, "expression"@)),
    }
}

/// The values of the expressions from position `from` on, after those in
/// `done`; the first failure where one fails.
pub open spec fn eval_list(
    items: Seq<SqlModel>,
    scope: Option<Cells>,
    from: int,
    done: Seq<ValueModel>,
) -> Result<Seq<ValueModel>, SqlErrorModel>
    decreases items, items.len() - from,
{
    if from < 0 || from >= items.len() {
        Ok(done)
    } else {
        match eval(items[from], scope) {
            Ok(v) => eval_list(items, scope, from + 1, done.push(v)),
            Err(x) => Err(x),
        }
    }
}

/// The integer that an evaluated operand stands for.
fn integer_from(e: &SqlExpression, v: Result<Value, SqlEngineError>) -> (r: Result<
    i16,
    SqlEngineError,
>)
    ensures
        match r {
            Ok(i) => integer_operand(e@, evaluated_of(v)) == Ok::<int, SqlErrorModel>(i as int),
            Err(x) => integer_operand(e@, evaluated_of(v)) == Err::<int, SqlErrorModel>(x@),
        },
{
    match v {
        Err(x) => Err(x),
        Ok(value) => match value.as_integer() {
            Some(i) => Ok(i),
            None => Err(SqlEngineError::SqlTypeError(e.clone(), String::from_str("integer"))),
        },
    }
}

/// The truth value that an evaluated operand stands for.
fn bool_from(e: &SqlExpression, v: Result<Value, SqlEngineError>) -> (r: Result<
    bool,
    SqlEngineError,
>)
    ensures
        match r {
            Ok(b) => bool_operand(e@, evaluated_of(v)) == Ok::<bool, SqlErrorModel>(b),
            Err(x) => bool_operand(e@, evaluated_of(v)) == Err::<bool, SqlErrorModel>(x@),
        },
{
    match v {
        Err(x) => Err(x),
        Ok(value) => match value.as_bool() {
            Some(b) => Ok(b),
            None => Err(SqlEngineError::SqlTypeError(e.clone(), String::from_str("bool"))),
        },
    }
}

/// The result of an arithmetic operator on two integers.
fn compute(op: SqlOperator, a: i16, b: i16, divisor: &SqlExpression) -> (r: Result<
    Value,
    SqlEngineError,
>)
    requires
        op == SqlOperator::Add || op == SqlOperator::Subtract || op == SqlOperator::Multiply || op
            == SqlOperator::Divide || op == SqlOperator::Rem,
    ensures
        evaluated_of(r) == arithmetic(op, a as int, b as int, divisor@),
{
    match op {
        SqlOperator::Add => Ok(Value::Integer(add16(a, b))),
        SqlOperator::Subtract => Ok(Value::Integer(sub16(a, b))),
        SqlOperator::Multiply => Ok(Value::Integer(mul16(a, b))),
        SqlOperator::Divide => if b == 0 {
            Err(
                SqlEngineError::SqlTypeError(
                    divisor.clone(),
                    String::from_str("non-zero integer"),
                ),
            )
        } else {
            Ok(Value::Integer(div16(a, b)))
        },
        _ => if b == 0 {
            Err(
                SqlEngineError::SqlTypeError(
                    divisor.clone(),
                    String::from_str("non-zero integer"),
                ),
            )
        } else {
            Ok(Value::Integer(rem16(a, b)))
        },
    }
}

/// A value without the scalar around it, if it has one.
fn strip(v: &Value) -> (r: &Value)
    ensures
        r@ == unscalar(v@),
{
    match v {
        Value::Scalar(inner) => &**inner,
        _ => v,
    }
}

/// Whether an order between two values answers a comparison operator.
fn answers(op: SqlOperator, rank: Rank) -> (r: bool)
    ensures
        r == rank_answers(op, rank),
{
    match op {
        SqlOperator::Less => rank == Rank::Before,
        SqlOperator::LessEqual => rank != Rank::After,
        SqlOperator::Greater => rank == Rank::After,
        _ => rank != Rank::Before,
    }
}

/// The bounds of a `between`.
fn bounds_from(v: &Value) -> (r: Option<(i16, i16)>)
    ensures
        match r {
            Some((low, high)) => bounds_in(v@) == Some((low as int, high as int)),
            None => bounds_in(v@).is_none(),
        },
{
    match v.as_tuple() {
        Some(items) => {
            if items.len() == 2 {
                assert(models_of(items@)[0] == items@[0]@);
                assert(models_of(items@)[1] == items@[1]@);
                match (items[0].as_integer(), items[1].as_integer()) {
                    (Some(low), Some(high)) => Some((low, high)),
                    _ => None,
                }
            } else {
                None
            }
        },
        None => None,
    }
}

/// The result of a binary operator on its evaluated operands.
fn apply(
    op: SqlOperator,
    left: &SqlExpression,
    l: Result<Value, SqlEngineError>,
    right: &SqlExpression,
    r: Result<Value, SqlEngineError>,
) -> (out: Result<Value, SqlEngineError>)
    ensures
        evaluated_of(out) == apply_binary(op, left@, evaluated_of(l), right@, evaluated_of(r)),
{
    match op {
        SqlOperator::Add | SqlOperator::Subtract | SqlOperator::Multiply | SqlOperator::Divide
        | SqlOperator::Rem => {
            match integer_from(left, l) {
                Err(x) => Err(x),
                Ok(a) => match integer_from(right, r) {
                    Err(x) => Err(x),
                    Ok(b) => compute(op, a, b, right),
                },
            }
        },
        SqlOperator::Equal => match (l, r) {
            (Err(x), _) => Err(x),
            (_, Err(x)) => Err(x),
            (Ok(a), Ok(b)) => Ok(Value::Bool(a.same(&b))),
        },
        SqlOperator::NotEqual => match (l, r) {
            (Err(x), _) => Err(x),
            (_, Err(x)) => Err(x),
            (Ok(a), Ok(b)) => Ok(Value::Bool(!a.same(&b))),
        },
        SqlOperator::Less | SqlOperator::LessEqual | SqlOperator::Greater
        | SqlOperator::GreaterEqual => match (l, r) {
            (Err(x), _) => Err(x),
            (_, Err(x)) => Err(x),
            (Ok(a), Ok(b)) => match strip(&a).rank(strip(&b)) {
                Some(rank) => Ok(Value::Bool(answers(op, rank))),
                None => Err(
                    SqlEngineError::SqlTypeError(left.clone(), String::from_str("comparable")),
                ),
            },
        },
        SqlOperator::In => match (l, r) {
            (Err(x), _) => Err(x),
            (_, Err(x)) => Err(x),
            (Ok(a), Ok(b)) => match b.as_set() {
                Some(items) => Ok(Value::Bool(holds_member(items, &a))),
                None => Err(SqlEngineError::SqlTypeError(right.clone(), String::from_str("set"))),
            },
        },
        SqlOperator::Between => match integer_from(left, l) {
            Err(x) => Err(x),
            Ok(a) => match r {
                Err(x) => Err(x),
                Ok(b) => match bounds_from(&b) {
                    Some((low, high)) => Ok(Value::Bool(low <= a && a <= high)),
                    None => Err(
                        SqlEngineError::SqlTypeError(right.clone(), String::from_str("bounds")),
                    ),
                },
            },
        },
        SqlOperator::And => match bool_from(left, l) {
            Err(x) => Err(x),
            Ok(a) => match bool_from(right, r) {
                Err(x) => Err(x),
                Ok(b) => Ok(Value::Bool(a && b)),
            },
        },
    }
}

/// The values of a list of query expressions in a scope, in order.
pub fn evaluate_list(items: &Vec<SqlExpression>, scope: Option<&Row>) -> (r: Result<
    Vec<Value>,
    SqlEngineError,
>)
    ensures
        match r {
            Ok(values) => eval_list(sql_children(*items), scope_of(scope), 0, Seq::empty()) == Ok::<
                Seq<ValueModel>,
                SqlErrorModel,
            >(models_of(values@)),
            Err(x) => eval_list(sql_children(*items), scope_of(scope), 0, Seq::empty()) == Err::<
                Seq<ValueModel>,
                SqlErrorModel,
            >(x@),
        },
    decreases items, 1nat,
{
    proof {
        lemma_sql_children(*items);
    }
    let mut out: Vec<Value> = Vec::new();
    let mut i: usize = 0;
    assert(models_of(out@) =~= Seq::empty());
    while i < items.len()
        invariant
            i <= items.len(),
            sql_children(*items) == sql_models_of(items@),
            eval_list(sql_children(*items), scope_of(scope), 0, Seq::empty()) == eval_list(
                sql_children(*items),
                scope_of(scope),
                i as int,
                models_of(out@),
            ),
        decreases items.len() - i,
    {
        assert(sql_models_of(items@)[i as int] == items@[i as int]@);
        match evaluate(&items[i], scope) {
            Ok(v) => {
                let ghost before = models_of(out@);
                let ghost m = v@;
                out.push(v);
                assert(models_of(out@) =~= before.push(m));
            },
            Err(x) => {
                return Err(x);
            },
        }
        i += 1;
    }
    Ok(out)
}

/// The value of a query expression in the scope of a row, or of none.
pub fn evaluate(e: &SqlExpression, scope: Option<&Row>) -> (r: Result<Value, SqlEngineError>)
    ensures
        evaluated_of(r) == eval(e@, scope_of(scope)),
    decreases e, 0nat,
{
    match e {
        SqlExpression::Integer(i) => Ok(Value::Integer(*i)),
        SqlExpression::String(s) => Ok(Value::String(s.clone())),
        SqlExpression::Bool(b) => Ok(Value::Bool(*b)),
        SqlExpression::Value(v) => Ok(v.clone()),
        SqlExpression::Var(var) => match scope {
            Some(row) => match find_cell(&row.tuples, &var.name) {
                Some(v) => Ok(v.clone()),
                None => Err(SqlEngineError::UnknownVariable(var.name.clone())),
            },
            None => Err(SqlEngineError::UnknownVariable(var.name.clone())),
        },
        SqlExpression::Scalar(inner) => match evaluate(&**inner, scope) {
            Ok(v) => Ok(Value::Scalar(Box::new(v))),
            Err(x) => Err(x),
        },
        SqlExpression::Tuple(items) => match evaluate_list(items, scope) {
            Ok(values) => {
                proof {
                    lemma_model_of_members(values);
                }
                Ok(Value::Tuple(values))
            },
            Err(x) => Err(x),
        },
        SqlExpression::SetOf(items) => match evaluate_list(items, scope) {
            Ok(values) => {
                proof {
                    lemma_model_of_members(values);
                }
                Ok(Value::SetOf(values))
            },
            Err(x) => Err(x),
        },
        SqlExpression::Binary { left, operator, right } => {
            let l = evaluate(&**left, scope);
            let r = evaluate(&**right, scope);
            apply(*operator, &**left, l, &**right, r)
        },
        _ => Err(SqlEngineError::SqlTypeError(e.clone(), String::from_str("expression"))),
    }
}

} // verus!
