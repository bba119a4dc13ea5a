//! Putting the values of program variables into a query expression.

use crate::ast::{
    clone_select_items, clone_variables, lemma_sql_children, sql_children, sql_models_of,
    sql_opt_model_of, SqlExpression, SqlModel,
};
use crate::store::{cell, cells_of, find_cell, Cells};
use crate::value::{Value, ValueModel};
use vstd::prelude::*;

verus! {

/// The query expression with each variable of the surrounding program
/// replaced by the value that the variables give it, or by nil where they
/// give it none. Nothing else changes.
pub open spec fn reify(e: SqlModel, locals: Cells) -> SqlModel
    decreases e, 0nat,
{
    match e {
        SqlModel::Select { columns, from, condition, order_by, limit, offset, locking } => {
            SqlModel::Select {
                columns,
                from,
                condition: reify_opt(condition, locals),
                order_by: reify_opt(order_by, locals),
                limit,
                offset,
                locking,
            }
        },
        SqlModel::Update { relation, updates, condition } => SqlModel::Update {
            relation,
            updates: reify_all(updates, locals),
            condition: reify_opt(condition, locals),
        },
        SqlModel::Delete { relation, condition } => SqlModel::Delete {
            relation,
            condition: reify_opt(condition, locals),
        },
        SqlModel::Insert { relation, columns, values } => SqlModel::Insert {
            relation,
            columns,
            values: reify_all(values, locals),
        },
        SqlModel::Binary { left, operator, right } => SqlModel::Binary {
            left: Box::new(reify(*left, locals)),
            operator,
            right: Box::new(reify(*right, locals)),
        },
        SqlModel::Scalar(inner) => SqlModel::Scalar(Box::new(reify(*inner, locals))),
        SqlModel::Tuple(items) => SqlModel::Tuple(reify_all(items, locals)),
        SqlModel::Assignment(name, inner) => SqlModel::Assignment(
            name,
            Box::new(reify(*inner, locals)),
        ),
        SqlModel::SetOf(items) => SqlModel::SetOf(reify_all(items, locals)),
        SqlModel::UpVariable(name) => SqlModel::Value(
            match cell(locals, name) {
                Some(v) => v,
                None => ValueModel::Nil,
            },
        ),
        _ => e,
    }
}

/// The optional query expression with the values of the variables put in.
pub open spec fn reify_opt(o: Option<Box<SqlModel>>, locals: Cells) -> Option<Box<SqlModel>>
    decreases o, 0nat,
{
    match o {
        Some(inner) => Some(Box::new(reify(*inner, locals))),
        None => None,
    }
}

/// The query expressions with the values of the variables put in, one by one.
pub open spec fn reify_all(items: Seq<SqlModel>, locals: Cells) -> Seq<SqlModel>
    decreases items, 1nat,
{
    Seq::new(
        items.len(),
        |i: int|
            if 0 <= i < items.len() {
                reify(items[i], locals)
            } else {
                SqlModel::Bool(false)
            },
    )
}

/// Whether the query expression holds no variable of the surrounding program.
pub open spec fn is_reified(e: SqlModel) -> bool
    decreases e, 0nat,
{
    match e {
        SqlModel::Select { condition, order_by, .. } => opt_is_reified(condition)
            && opt_is_reified(order_by),
        SqlModel::Update { updates, condition, .. } => all_reified(updates) && opt_is_reified(
            condition,
        ),
        SqlModel::Delete { condition, .. } => opt_is_reified(condition),
        SqlModel::Insert { values, .. } => all_reified(values),
        SqlModel::Binary { left, right, .. } => is_reified(*left) && is_reified(*right),
        SqlModel::Scalar(inner) => is_reified(*inner),
        SqlModel::Tuple(items) => all_reified(items),
        SqlModel::Assignment(_, inner) => is_reified(*inner),
        SqlModel::SetOf(items) => all_reified(items),
        SqlModel::UpVariable(_) => false,
        _ => true,
    }
}

/// Whether the optional query expression holds no variable of the
/// surrounding program.
pub open spec fn opt_is_reified(o: Option<Box<SqlModel>>) -> bool
    decreases o, 0nat,
{
    match o {
        Some(inner) => is_reified(*inner),
        None => true,
    }
}

/// Whether none of the query expressions holds a variable of the surrounding
/// program.
pub open spec fn all_reified(items: Seq<SqlModel>) -> bool
    decreases items, 1nat,
{
    forall|i: int| 0 <= i < items.len() ==> is_reified(#[trigger] items[i])
}

/// Putting values in leaves no variable of the surrounding program behind.
pub proof fn lemma_reify_leaves_none(e: SqlModel, locals: Cells)
    ensures
        is_reified(reify(e, locals)),
    decreases e, 0nat,
{
    match e {
        SqlModel::Select { condition, order_by, .. } => {
            lemma_reify_opt_leaves_none(condition, locals);
            lemma_reify_opt_leaves_none(order_by, locals);
        },
        SqlModel::Update { updates, condition, .. } => {
            lemma_reify_all_leaves_none(updates, locals);
            lemma_reify_opt_leaves_none(condition, locals);
        },
        SqlModel::Delete { condition, .. } => {
            lemma_reify_opt_leaves_none(condition, locals);
        },
        SqlModel::Insert { values, .. } => {
            lemma_reify_all_leaves_none(values, locals);
        },
        SqlModel::Binary { left, right, .. } => {
            lemma_reify_leaves_none(*left, locals);
            lemma_reify_leaves_none(*right, locals);
        },
        SqlModel::Scalar(inner) => {
            lemma_reify_leaves_none(*inner, locals);
        },
        SqlModel::Tuple(items) => {
            lemma_reify_all_leaves_none(items, locals);
        },
        SqlModel::Assignment(_, inner) => {
            lemma_reify_leaves_none(*inner, locals);
        },
        SqlModel::SetOf(items) => {
            lemma_reify_all_leaves_none(items, locals);
        },
        _ => {},
    }
}

/// Putting values in leaves no variable behind in an optional expression.
pub proof fn lemma_reify_opt_leaves_none(o: Option<Box<SqlModel>>, locals: Cells)
    ensures
        opt_is_reified(reify_opt(o, locals)),
    decreases o, 0nat,
{
    match o {
        Some(inner) => {
            lemma_reify_leaves_none(*inner, locals);
        },
        None => {},
    }
}

/// Putting values in leaves no variable behind in a list of expressions.
pub proof fn lemma_reify_all_leaves_none(items: Seq<SqlModel>, locals: Cells)
    ensures
        all_reified(reify_all(items, locals)),
    decreases items, 1nat,
{
    assert forall|i: int| 0 <= i < reify_all(items, locals).len() implies is_reified(
        #[trigger] reify_all(items, locals)[i],
    ) by {
        lemma_reify_leaves_none(items[i], locals);
    }
}

/// An expression without variables of the surrounding program is what
/// putting values in gives back, whatever the variables hold.
pub proof fn lemma_reify_unchanged(e: SqlModel, locals: Cells)
    requires
        is_reified(e),
    ensures
        reify(e, locals) == e,
    decreases e, 0nat,
{
    match e {
        SqlModel::Select { condition, order_by, .. } => {
            lemma_reify_opt_unchanged(condition, locals);
            lemma_reify_opt_unchanged(order_by, locals);
        },
        SqlModel::Update { updates, condition, .. } => {
            lemma_reify_all_unchanged(updates, locals);
            lemma_reify_opt_unchanged(condition, locals);
        },
        SqlModel::Delete { condition, .. } => {
            lemma_reify_opt_unchanged(condition, locals);
        },
        SqlModel::Insert { values, .. } => {
            lemma_reify_all_unchanged(values, locals);
        },
        SqlModel::Binary { left, right, .. } => {
            lemma_reify_unchanged(*left, locals);
            lemma_reify_unchanged(*right, locals);
        },
        SqlModel::Scalar(inner) => {
            lemma_reify_unchanged(*inner, locals);
        },
        SqlModel::Tuple(items) => {
            lemma_reify_all_unchanged(items, locals);
        },
        SqlModel::Assignment(_, inner) => {
            lemma_reify_unchanged(*inner, locals);
        },
        SqlModel::SetOf(items) => {
            lemma_reify_all_unchanged(items, locals);
        },
        _ => {},
    }
}

/// An optional expression without variables is what putting values in gives back.
pub proof fn lemma_reify_opt_unchanged(o: Option<Box<SqlModel>>, locals: Cells)
    requires
        opt_is_reified(o),
    ensures
        reify_opt(o, locals) == o,
    decreases o, 0nat,
{
    match o {
        Some(inner) => {
            lemma_reify_unchanged(*inner, locals);
        },
        None => {},
    }
}

/// A list of expressions without variables is what putting values in gives back.
pub proof fn lemma_reify_all_unchanged(items: Seq<SqlModel>, locals: Cells)
    requires
        all_reified(items),
    ensures
        reify_all(items, locals) == items,
    decreases items, 1nat,
{
    assert forall|i: int| 0 <= i < items.len() implies reify_all(items, locals)[i] == items[i] by {
        lemma_reify_unchanged(items[i], locals);
    }
    assert(reify_all(items, locals) =~= items);
}

/// Putting values in twice gives what putting them in once gives: the second
/// time finds no variable to replace, whatever the variables then hold.
pub proof fn lemma_reify_idempotent(e: SqlModel, locals: Cells, later: Cells)
    ensures
        reify(reify(e, locals), later) == reify(e, locals),
{
    lemma_reify_leaves_none(e, locals);
    lemma_reify_unchanged(reify(e, locals), later);
}

/// The optional query expression with the values of the variables put in.
fn reify_optional(o: &Option<Box<SqlExpression>>, locals: &Vec<(String, Value)>) -> (r: Option<
    Box<SqlExpression>,
>)
    ensures
        sql_opt_model_of(r) == reify_opt(sql_opt_model_of(*o), cells_of(locals@)),
    decreases o, 1nat,
{
    match o {
        Some(inner) => Some(Box::new(reify_expression(&**inner, locals))),
        None => None,
    }
}

/// The query expressions with the values of the variables put in.
fn reify_list(items: &Vec<SqlExpression>, locals: &Vec<(String, Value)>) -> (r: Vec<SqlExpression>)
    ensures
        sql_children(r) == reify_all(sql_children(*items), cells_of(locals@)),
    decreases items, 1nat,
{
    proof {
        lemma_sql_children(*items);
    }
    let mut out: Vec<SqlExpression> = Vec::new();
    let mut i: usize = 0;
    while i < items.len()
        invariant
            i <= items.len(),
            out@.len() == i,
            sql_children(*items) == sql_models_of(items@),
            forall|k: int| 0 <= k < i ==> out@[k]@ == reify(items@[k]@, cells_of(locals@)),
        decreases items.len() - i,
    {
        out.push(reify_expression(&items[i], locals));
        i += 1;
    }
    proof {
        lemma_sql_children(out);
        assert(sql_models_of(out@) =~= reify_all(sql_models_of(items@), cells_of(locals@)));
    }
    out
}

/// The query expression with each variable of the surrounding program
/// replaced by its value among `locals`, or by nil where it has none.
pub fn reify_expression(expr: &SqlExpression, locals: &Vec<(String, Value)>) -> (r: SqlExpression)
    ensures
        r@ == reify(expr@, cells_of(locals@)),
    decreases expr, 0nat,
{
    match expr {
        SqlExpression::Select { columns, from, condition, order_by, limit, offset, locking } => {
            SqlExpression::Select {
                columns: clone_select_items(columns),
                from: from.clone(),
                condition: reify_optional(condition, locals),
                order_by: reify_optional(order_by, locals),
                limit: *limit,
                offset: *offset,
                locking: *locking,
            }
        },
        SqlExpression::Update { relation, updates, condition } => SqlExpression::Update {
            relation: relation.clone(),
            updates: reify_list(updates, locals),
            condition: reify_optional(condition, locals),
        },
        SqlExpression::Delete { relation, condition } => SqlExpression::Delete {
            relation: relation.clone(),
            condition: reify_optional(condition, locals),
        },
        SqlExpression::Insert { relation, columns, values } => SqlExpression::Insert {
            relation: relation.clone(),
            columns: clone_variables(columns),
            values: reify_list(values, locals),
        },
        SqlExpression::Binary { left, operator, right } => SqlExpression::Binary {
            left: Box::new(reify_expression(&**left, locals)),
            operator: *operator,
            right: Box::new(reify_expression(&**right, locals)),
        },
        SqlExpression::Scalar(inner) => SqlExpression::Scalar(
            Box::new(reify_expression(&**inner, locals)),
        ),
        SqlExpression::Tuple(items) => SqlExpression::Tuple(reify_list(items, locals)),
        SqlExpression::Assignment(var, inner) => SqlExpression::Assignment(
            var.clone(),
            Box::new(reify_expression(&**inner, locals)),
        ),
        SqlExpression::SetOf(items) => SqlExpression::SetOf(reify_list(items, locals)),
        SqlExpression::UpVariable(var) => SqlExpression::Value(
            match find_cell(locals, &var.name) {
                Some(v) => v.clone(),
                None => Value::Nil,
            },
        ),
        other => other.clone(),
    }
}

} // verus!
