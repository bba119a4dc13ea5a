//! The texts of values, expressions and statements, as a report shows them.

use crate::ast::{
    expr_children, lemma_expr_children, lemma_sql_children, names_of, opt_int, select_items_of,
    sql_children, sql_opt_model_of, ExprModel, Expression, IsolationLevel, Item, ItemModel,
    Operator, SelectItem, SelectItemModel, SqlExpression, SqlModel, SqlOperator, Statement,
    StatementModel, Variable,
};
use crate::format::{
    count, int_text, integer, intersperse, joined, nat_text, natural, texts_of,
};
use crate::scanner::{Position, Token, TokenKind, TokenModel};
use crate::store::{Lock, LockModel};
use crate::value::{
    lemma_model_of_members, models_of, TransactionState, Value, ValueModel,
};
use vstd::prelude::*;
use vstd::string::*;

verus! {

/// The text of a value: `nil`, a truth value, a number, a string as it is,
/// the members of a set between braces and of a tuple between parentheses,
/// a scalar between parentheses, a transaction by its state.
pub open spec fn value_text(v: ValueModel) -> Seq<char>
    decreases v, 0nat,
{
    match v {
        ValueModel::Nil => "nil"@,
        ValueModel::Tx(TransactionState::NotExisting) => "non started transaction"@,
        ValueModel::Tx(TransactionState::Running) => "running transaction"@,
        ValueModel::Tx(TransactionState::Aborted) => "aborted transaction"@,
        ValueModel::Tx(TransactionState::Committed) => "committed transaction"@,
        ValueModel::Bool(b) => if b {
            "true"@
        } else {
            "false"@
        },
        ValueModel::Integer(i) => int_text(i),
        ValueModel::Str(s) => s,
        ValueModel::SetOf(items) => joined(value_texts(items), ","@, 0, "{"@) + "}"@,
        ValueModel::Tuple(items) => joined(value_texts(items), ","@, 0, "("@) + ")"@,
        ValueModel::Scalar(inner) => "("@ + value_text(*inner) + ")"@,
    }
}

/// The texts of values, one by one.
pub open spec fn value_texts(items: Seq<ValueModel>) -> Seq<Seq<char>>
    decreases items, 1nat,
{
    Seq::new(
        items.len(),
        |i: int|
            if 0 <= i < items.len() {
                value_text(items[i])
            } else {
                Seq::empty()
            },
    )
}

/// The texts of values, one by one.
fn values_to_texts(items: &Vec<Value>) -> (r: Vec<String>)
    ensures
        texts_of(r@) == value_texts(models_of(items@)),
    decreases items, 1nat,
{
    let mut out: Vec<String> = Vec::new();
    let mut i: usize = 0;
    while i < items.len()
        invariant
            i <= items.len(),
            out@.len() == i,
            forall|k: int| 0 <= k < i ==> out@[k]@ == value_text(items@[k]@),
        decreases items.len() - i,
    {
        out.push(items[i].to_text());
        i += 1;
    }
    assert(texts_of(out@) =~= value_texts(models_of(items@)));
    out
}

impl Value {
    /// The text of this value.
    pub fn to_text(&self) -> (r: String)
        ensures
            r@ == value_text(self@),
        decreases self, 0nat,
    {
        match self {
            Value::Nil => String::from_str("nil"),
            Value::Tx(t) => match t.0 {
                TransactionState::NotExisting => String::from_str("non started transaction"),
                TransactionState::Running => String::from_str("running transaction"),
                TransactionState::Aborted => String::from_str("aborted transaction"),
                TransactionState::Committed => String::from_str("committed transaction"),
            },
            Value::Bool(b) => if *b {
                String::from_str("true")
            } else {
                String::from_str("false")
            },
            Value::Integer(i) => integer(*i),
            Value::String(s) => s.clone(),
            Value::SetOf(items) => {
                proof {
                    lemma_model_of_members(*items);
                }
                let texts = values_to_texts(items);
                let mut out = String::from_str("{");
                intersperse(&mut out, &texts, ",");
                out.append("}");
                out
            },
            Value::Tuple(items) => {
                proof {
                    lemma_model_of_members(*items);
                }
                let texts = values_to_texts(items);
                let mut out = String::from_str("(");
                intersperse(&mut out, &texts, ",");
                out.append(")");
                out
            },
            Value::Scalar(inner) => {
                let mut out = String::from_str("(");
                out.append((&**inner).to_text().as_str());
                out.append(")");
                out
            },
        }
    }
}

/// The text of an isolation level.
pub open spec fn level_text(level: IsolationLevel) -> Seq<char> {
    "read committed"@
}

impl IsolationLevel {
    /// The text of this isolation level.
    pub fn to_text(&self) -> (r: String)
        ensures
            r@ == level_text(*self),
    {
        String::from_str("read committed")
    }
}

impl Variable {
    /// The text of this name: the name.
    pub fn to_text(&self) -> (r: String)
        ensures
            r@ == self@,
    {
        self.name.clone()
    }
}

/// The text of what a select item names.
pub open spec fn item_text(item: ItemModel) -> Seq<char> {
    match item {
        ItemModel::Wildcard => "*"@,
        ItemModel::Column(c) => c,
    }
}

impl Item {
    /// The text of this item.
    pub fn to_text(&self) -> (r: String)
        ensures
            r@ == item_text(self@),
    {
        match self {
            Item::Wildcard => String::from_str("*"),
            Item::Column(c) => c.clone(),
        }
    }
}

/// The text of an entry of a select list.
pub open spec fn select_item_text(item: SelectItemModel) -> Seq<char> {
    match item {
        SelectItemModel::Column(i) => item_text(i),
        SelectItemModel::Count(i) => "count("@ + item_text(i) + ")"@,
    }
}

impl SelectItem {
    /// The text of this entry of a select list.
    pub fn to_text(&self) -> (r: String)
        ensures
            r@ == select_item_text(self@),
    {
        match self {
            SelectItem::Column(i) => i.to_text(),
            SelectItem::Count(i) => {
                let mut out = String::from_str("count(");
                out.append(i.to_text().as_str());
                out.append(")");
                out
            },
        }
    }
}

/// The texts of the entries of a select list.
pub open spec fn select_item_texts(items: Seq<SelectItemModel>) -> Seq<Seq<char>> {
    items.map_values(|i: SelectItemModel| select_item_text(i))
}

/// The sign of an operator of the query language.
pub open spec fn sql_operator_text(op: SqlOperator) -> Seq<char> {
    match op {
        SqlOperator::Add => "+"@,
        SqlOperator::Subtract => "-"@,
        SqlOperator::Multiply => "*"@,
        SqlOperator::Divide => "/"@,
        SqlOperator::Rem => "%"@,
        SqlOperator::Equal => "="@,
        SqlOperator::NotEqual => "<>"@,
        SqlOperator::Less => "<"@,
        SqlOperator::LessEqual => "<="@,
        SqlOperator::Greater => ">"@,
        SqlOperator::GreaterEqual => ">="@,
        SqlOperator::In => "in"@,
        SqlOperator::Between => "between"@,
        SqlOperator::And => "and"@,
    }
}

/// The sign of an operator of the modelling language.
pub open spec fn operator_text(op: Operator) -> Seq<char> {
    match op {
        Operator::Add => "+"@,
        Operator::Subtract => "-"@,
        Operator::Multiply => "*"@,
        Operator::Divide => "/"@,
        Operator::Rem => "%"@,
        Operator::Equal => "="@,
        Operator::NotEqual => "<>"@,
        Operator::Less => "<"@,
        Operator::LessEqual => "<="@,
        Operator::Greater => ">"@,
        Operator::GreaterEqual => ">="@,
        Operator::Included => "in"@,
        Operator::And => "and"@,
        Operator::Or => "or"@,
    }
}

/// The sign of an operator of the query language.
fn sql_operator_sign(op: SqlOperator) -> (r: &'static str)
    ensures
        r@ == sql_operator_text(op),
{
    match op {
        SqlOperator::Add => "+",
        SqlOperator::Subtract => "-",
        SqlOperator::Multiply => "*",
        SqlOperator::Divide => "/",
        SqlOperator::Rem => "%",
        SqlOperator::Equal => "=",
        SqlOperator::NotEqual => "<>",
        SqlOperator::Less => "<",
        SqlOperator::LessEqual => "<=",
        SqlOperator::Greater => ">",
        SqlOperator::GreaterEqual => ">=",
        SqlOperator::In => "in",
        SqlOperator::Between => "between",
        SqlOperator::And => "and",
    }
}

/// The sign of an operator of the modelling language.
fn operator_sign(op: Operator) -> (r: &'static str)
    ensures
        r@ == operator_text(op),
{
    match op {
        Operator::Add => "+",
        Operator::Subtract => "-",
        Operator::Multiply => "*",
        Operator::Divide => "/",
        Operator::Rem => "%",
        Operator::Equal => "=",
        Operator::NotEqual => "<>",
        Operator::Less => "<",
        Operator::LessEqual => "<=",
        Operator::Greater => ">",
        Operator::GreaterEqual => ">=",
        Operator::Included => "in",
        Operator::And => "and",
        Operator::Or => "or",
    }
}

/// The text of an optional number behind a word; nothing where there is no
/// number.
pub open spec fn number_clause(word: Seq<char>, n: Option<int>) -> Seq<char> {
    match n {
        Some(i) => word + int_text(i),
        None => Seq::empty(),
    }
}

/// The text of a query expression, as it is written in a model.
pub open spec fn sql_text(e: SqlModel) -> Seq<char>
    decreases e, 0nat,
{
    match e {
        SqlModel::Select { columns, from, condition, order_by, limit, offset, locking } => joined(
            select_item_texts(columns),
            ","@,
            0,
            "select "@,
        ) + " from "@ + from + sql_clause(" where "@, condition) + sql_clause(
            " order by "@,
            order_by,
        ) + number_clause(" limit "@, limit) + number_clause(" offset "@, offset) + (if locking {
            " for update"@
        } else {
            Seq::empty()
        }),
        SqlModel::Update { relation, updates, condition } => joined(
            sql_texts(updates),
            ","@,
            0,
            "update "@ + relation + " set "@,
        ) + sql_clause(" where "@, condition),
        SqlModel::Delete { relation, condition } => "delete from "@ + relation + sql_clause(
            " where "@,
            condition,
        ),
        SqlModel::Insert { relation, columns, values } => joined(
            sql_texts(values),
            ","@,
            0,
            joined(columns, ","@, 0, "insert into "@ + relation + " ("@) + ") values "@,
        ),
        SqlModel::Create { relation, columns } => joined(
            columns,
            ","@,
            0,
            "create unique index on "@ + relation + "("@,
        ) + ")"@,
        SqlModel::Alter {
            constraint_name,
            relation,
            columns,
            reference_relation,
            reference_columns,
        } => joined(
            reference_columns,
            ","@,
            0,
            joined(
                columns,
                ","@,
                0,
                "alter table "@ + relation + " add constraint "@ + constraint_name
                    + " foreign key("@,
            ) + ") references "@ + reference_relation + "("@,
        ) + ")"@,
        SqlModel::Binary { left, operator, right } => sql_text(*left) + " "@ + sql_operator_text(
            operator,
        ) + " "@ + sql_text(*right),
        SqlModel::Scalar(inner) => "("@ + sql_text(*inner) + ")"@,
        SqlModel::Tuple(items) => joined(sql_texts(items), ","@, 0, "("@) + ")"@,
        SqlModel::Assignment(name, inner) => name + " := "@ + sql_text(*inner),
        SqlModel::SetOf(items) => joined(sql_texts(items), ","@, 0, "("@) + ")"@,
        SqlModel::Var(name) => name,
        SqlModel::Integer(i) => int_text(i),
        SqlModel::Str(s) => s,
        SqlModel::Bool(b) => if b {
            "true"@
        } else {
            "false"@
        },
        SqlModel::UpVariable(name) => "$"@ + name,
        SqlModel::Value(v) => value_text(v),
    }
}

/// The text of an optional query expression behind a word; nothing where
/// there is no expression.
pub open spec fn sql_clause(word: Seq<char>, o: Option<Box<SqlModel>>) -> Seq<char>
    decreases o, 0nat,
{
    match o {
        Some(inner) => word + sql_text(*inner),
        None => Seq::empty(),
    }
}

/// The texts of query expressions, one by one.
pub open spec fn sql_texts(items: Seq<SqlModel>) -> Seq<Seq<char>>
    decreases items, 1nat,
{
    Seq::new(
        items.len(),
        |i: int|
            if 0 <= i < items.len() {
                sql_text(items[i])
            } else {
                Seq::empty()
            },
    )
}

/// The texts of the entries of a select list.
fn select_items_to_texts(items: &Vec<SelectItem>) -> (r: Vec<String>)
    ensures
        texts_of(r@) == select_item_texts(select_items_of(items@)),
{
    let mut out: Vec<String> = Vec::new();
    let mut i: usize = 0;
    while i < items.len()
        invariant
            i <= items.len(),
            out@.len() == i,
            forall|k: int| 0 <= k < i ==> out@[k]@ == select_item_text(items@[k]@),
        decreases items.len() - i,
    {
        out.push(items[i].to_text());
        i += 1;
    }
    assert(texts_of(out@) =~= select_item_texts(select_items_of(items@)));
    out
}

/// The names of a list of variables.
fn names_to_texts(items: &Vec<Variable>) -> (r: Vec<String>)
    ensures
        texts_of(r@) == names_of(items@),
{
    let mut out: Vec<String> = Vec::new();
    let mut i: usize = 0;
    while i < items.len()
        invariant
            i <= items.len(),
            out@.len() == i,
            forall|k: int| 0 <= k < i ==> out@[k]@ == items@[k]@,
        decreases items.len() - i,
    {
        out.push(items[i].name.clone());
        i += 1;
    }
    assert(texts_of(out@) =~= names_of(items@));
    out
}

/// The texts of query expressions, one by one.
fn sql_to_texts(items: &Vec<SqlExpression>) -> (r: Vec<String>)
    ensures
        texts_of(r@) == sql_texts(sql_children(*items)),
    decreases items, 1nat,
{
    proof {
        lemma_sql_children(*items);
    }
    let mut out: Vec<String> = Vec::new();
    let mut i: usize = 0;
    while i < items.len()
        invariant
            i <= items.len(),
            out@.len() == i,
            forall|k: int| 0 <= k < i ==> out@[k]@ == sql_text(items@[k]@),
        decreases items.len() - i,
    {
        out.push(items[i].to_text());
        i += 1;
    }
    assert(texts_of(out@) =~= sql_texts(crate::ast::sql_models_of(items@)));
    out
}

/// The text of an optional query expression behind a word.
fn sql_clause_text(word: &str, o: &Option<Box<SqlExpression>>) -> (r: String)
    ensures
        r@ == sql_clause(word@, sql_opt_model_of(*o)),
    decreases o, 1nat,
{
    match o {
        Some(inner) => {
            let mut out = String::from_str(word);
            out.append((&**inner).to_text().as_str());
            out
        },
        None => String::new(),
    }
}

/// The text of an optional number behind a word.
fn number_clause_text(word: &str, n: Option<i16>) -> (r: String)
    ensures
        r@ == number_clause(word@, opt_int(n)),
{
    match n {
        Some(i) => {
            let mut out = String::from_str(word);
            out.append(integer(i).as_str());
            out
        },
        None => String::new(),
    }
}

impl SqlExpression {
    /// The text of this query expression, as it is written in a model.
    pub fn to_text(&self) -> (r: String)
        ensures
            r@ == sql_text(self@),
        decreases self, 0nat,
    {
        match self {
            SqlExpression::Select { columns, from, condition, order_by, limit, offset, locking } => {
                let texts = select_items_to_texts(columns);
                let mut out = String::from_str("select ");
                intersperse(&mut out, &texts, ",");
                out.append(" from ");
                out.append(from.name.as_str());
                out.append(sql_clause_text(" where ", condition).as_str());
                out.append(sql_clause_text(" order by ", order_by).as_str());
                out.append(number_clause_text(" limit ", *limit).as_str());
                out.append(number_clause_text(" offset ", *offset).as_str());
                if *locking {
                    out.append(" for update");
                } else {
                    out.append(String::new().as_str());
                }
                out
            },
            SqlExpression::Update { relation, updates, condition } => {
                let texts = sql_to_texts(updates);
                let mut out = String::from_str("update ");
                out.append(relation.name.as_str());
                out.append(" set ");
                intersperse(&mut out, &texts, ",");
                out.append(sql_clause_text(" where ", condition).as_str());
                out
            },
            SqlExpression::Delete { relation, condition } => {
                let mut out = String::from_str("delete from ");
                out.append(relation.name.as_str());
                out.append(sql_clause_text(" where ", condition).as_str());
                out
            },
            SqlExpression::Insert { relation, columns, values } => {
                let names = names_to_texts(columns);
                let texts = sql_to_texts(values);
                let mut out = String::from_str("insert into ");
                out.append(relation.name.as_str());
                out.append(" (");
                intersperse(&mut out, &names, ",");
                out.append(") values ");
                intersperse(&mut out, &texts, ",");
                out
            },
            SqlExpression::Create { relation, columns } => {
                let names = names_to_texts(columns);
                let mut out = String::from_str("create unique index on ");
                out.append(relation.name.as_str());
                out.append("(");
                intersperse(&mut out, &names, ",");
                out.append(")");
                out
            },
            SqlExpression::Alter {
                constraint_name,
                relation,
                columns,
                reference_relation,
                reference_columns,
            } => {
                let names = names_to_texts(columns);
                let targets = names_to_texts(reference_columns);
                let mut out = String::from_str("alter table ");
                out.append(relation.name.as_str());
                out.append(" add constraint ");
                out.append(constraint_name.name.as_str());
                out.append(" foreign key(");
                intersperse(&mut out, &names, ",");
                out.append(") references ");
                out.append(reference_relation.name.as_str());
                out.append("(");
                intersperse(&mut out, &targets, ",");
                out.append(")");
                out
            },
            SqlExpression::Binary { left, operator, right } => {
                let mut out = (&**left).to_text();
                out.append(" ");
                out.append(sql_operator_sign(*operator));
                out.append(" ");
                out.append((&**right).to_text().as_str());
                out
            },
            SqlExpression::Scalar(inner) => {
                let mut out = String::from_str("(");
                out.append((&**inner).to_text().as_str());
                out.append(")");
                out
            },
            SqlExpression::Tuple(items) => {
                let texts = sql_to_texts(items);
                let mut out = String::from_str("(");
                intersperse(&mut out, &texts, ",");
                out.append(")");
                out
            },
            SqlExpression::Assignment(var, inner) => {
                let mut out = var.name.clone();
                out.append(" := ");
                out.append((&**inner).to_text().as_str());
                out
            },
            SqlExpression::SetOf(items) => {
                let texts = sql_to_texts(items);
                let mut out = String::from_str("(");
                intersperse(&mut out, &texts, ",");
                out.append(")");
                out
            },
            SqlExpression::Var(var) => var.name.clone(),
            SqlExpression::Integer(i) => integer(*i),
            SqlExpression::String(s) => s.clone(),
            SqlExpression::Bool(b) => if *b {
                String::from_str("true")
            } else {
                String::from_str("false")
            },
            SqlExpression::UpVariable(var) => {
                let mut out = String::from_str("$");
                out.append(var.name.as_str());
                out
            },
            SqlExpression::Value(v) => v.to_text(),
        }
    }
}

/// The text of an expression, as it is written in a model.
pub open spec fn expression_text(e: ExprModel) -> Seq<char>
    decreases e, 0nat,
{
    match e {
        ExprModel::Sql(sql) => sql_text(sql),
        ExprModel::Binary { left, operator, right } => expression_text(*left) + " "@
            + operator_text(operator) + " "@ + expression_text(*right),
        ExprModel::Member { call_site, member } => expression_text(*call_site) + "."@ + member,
        ExprModel::Assignment(name, inner) => name + " := "@ + expression_text(*inner),
        ExprModel::Var(name) => name,
        ExprModel::Integer(i) => int_text(i),
        ExprModel::Str(s) => s,
        ExprModel::SetOf(items) => joined(expression_texts(items), ","@, 0, "{"@) + "}"@,
        ExprModel::Tuple(items) => joined(expression_texts(items), ","@, 0, "("@) + ")"@,
        ExprModel::Scalar(inner) => "("@ + expression_text(*inner) + ")"@,
    }
}

/// The texts of expressions, one by one.
pub open spec fn expression_texts(items: Seq<ExprModel>) -> Seq<Seq<char>>
    decreases items, 1nat,
{
    Seq::new(
        items.len(),
        |i: int|
            if 0 <= i < items.len() {
                expression_text(items[i])
            } else {
                Seq::empty()
            },
    )
}

/// The texts of expressions, one by one.
fn expressions_to_texts(items: &Vec<Expression>) -> (r: Vec<String>)
    ensures
        texts_of(r@) == expression_texts(expr_children(*items)),
    decreases items, 1nat,
{
    proof {
        lemma_expr_children(*items);
    }
    let mut out: Vec<String> = Vec::new();
    let mut i: usize = 0;
    while i < items.len()
        invariant
            i <= items.len(),
            out@.len() == i,
            forall|k: int| 0 <= k < i ==> out@[k]@ == expression_text(items@[k]@),
        decreases items.len() - i,
    {
        out.push(items[i].to_text());
        i += 1;
    }
    assert(texts_of(out@) =~= expression_texts(crate::ast::expr_models_of(items@)));
    out
}

impl Expression {
    /// The text of this expression, as it is written in a model.
    pub fn to_text(&self) -> (r: String)
        ensures
            r@ == expression_text(self@),
        decreases self, 0nat,
    {
        match self {
            Expression::Sql(sql) => sql.to_text(),
            Expression::Binary { left, operator, right } => {
                let mut out = (&**left).to_text();
                out.append(" ");
                out.append(operator_sign(*operator));
                out.append(" ");
                out.append((&**right).to_text().as_str());
                out
            },
            Expression::Member { call_site, member } => {
                let mut out = (&**call_site).to_text();
                out.append(".");
                out.append(member.name.as_str());
                out
            },
            Expression::Assignment(var, inner) => {
                let mut out = var.name.clone();
                out.append(" := ");
                out.append((&**inner).to_text().as_str());
                out
            },
            Expression::Var(var) => var.name.clone(),
            Expression::Integer(i) => integer(*i),
            Expression::String(s) => s.clone(),
            Expression::SetOf(items) => {
                let texts = expressions_to_texts(items);
                let mut out = String::from_str("{");
                intersperse(&mut out, &texts, ",");
                out.append("}");
                out
            },
            Expression::Tuple(items) => {
                let texts = expressions_to_texts(items);
                let mut out = String::from_str("(");
                intersperse(&mut out, &texts, ",");
                out.append(")");
                out
            },
            Expression::Scalar(inner) => {
                let mut out = String::from_str("(");
                out.append((&**inner).to_text().as_str());
                out.append(")");
                out
            },
        }
    }
}

/// The text of a statement, as a report shows it.
pub open spec fn statement_text(s: StatementModel) -> Seq<char> {
    match s {
        StatementModel::Begin(level, Some(name)) => "begin "@ + level_text(level) + " ("@ + name
            + ")"@,
        StatementModel::Begin(level, None) => "begin "@ + level_text(level),
        StatementModel::Commit => "commit"@,
        StatementModel::Abort => "abort"@,
        StatementModel::Expression(e) => expression_text(e),
        StatementModel::Latch => "latch"@,
        StatementModel::If(e, _) => "if "@ + expression_text(e) + " do"@,
        StatementModel::Else(_) => "else"@,
        StatementModel::Always(e) => "always("@ + expression_text(e) + ")"@,
        StatementModel::Never(e) => "never("@ + expression_text(e) + ")"@,
        StatementModel::Eventually(e) => "eventually("@ + expression_text(e) + ")"@,
    }
}

impl Statement {
    /// The text of this statement, as a report shows it.
    pub fn to_text(&self) -> (r: String)
        ensures
            r@ == statement_text(self@),
    {
        match self {
            Statement::Begin(level, Some(name)) => {
                let mut out = String::from_str("begin ");
                out.append(level.to_text().as_str());
                out.append(" (");
                out.append(name.name.as_str());
                out.append(")");
                out
            },
            Statement::Begin(level, None) => {
                let mut out = String::from_str("begin ");
                out.append(level.to_text().as_str());
                out
            },
            Statement::Commit => String::from_str("commit"),
            Statement::Abort => String::from_str("abort"),
            Statement::Expression(e) => e.to_text(),
            Statement::Latch => String::from_str("latch"),
            Statement::If(e, _) => {
                let mut out = String::from_str("if ");
                out.append(e.to_text().as_str());
                out.append(" do");
                out
            },
            Statement::Else(_) => String::from_str("else"),
            Statement::Always(e) => {
                let mut out = String::from_str("always(");
                out.append(e.to_text().as_str());
                out.append(")");
                out
            },
            Statement::Never(e) => {
                let mut out = String::from_str("never(");
                out.append(e.to_text().as_str());
                out.append(")");
                out
            },
            Statement::Eventually(e) => {
                let mut out = String::from_str("eventually(");
                out.append(e.to_text().as_str());
                out.append(")");
                out
            },
        }
    }
}

/// The text of a lock.
pub open spec fn lock_text(lock: LockModel) -> Seq<char> {
    match lock {
        LockModel::RowUpdate(rid) => "the update lock on row "@ + nat_text(rid.0 as nat),
        LockModel::RowForKeyShare(rid) => "the key share lock on row "@ + nat_text(rid.0 as nat),
        LockModel::Unique(table, _, value) => "the unique lock on "@ + value_text(value) + " in "@
            + table,
    }
}

impl Lock {
    /// The text of this lock.
    pub fn to_text(&self) -> (r: String)
        ensures
            r@ == lock_text(self@),
    {
        match self {
            Lock::RowUpdate(rid) => {
                let mut out = String::from_str("the update lock on row ");
                out.append(crate::format::count(rid.0).as_str());
                out
            },
            Lock::RowForKeyShare(rid) => {
                let mut out = String::from_str("the key share lock on row ");
                out.append(crate::format::count(rid.0).as_str());
                out
            },
            Lock::Unique(table, _, value) => {
                let mut out = String::from_str("the unique lock on ");
                out.append(value.to_text().as_str());
                out.append(" in ");
                out.append(table.as_str());
                out
            },
        }
    }
}

/// What the standard library's `Debug` formatting gives for a text: the
/// text between double quotes, its special characters escaped.
pub uninterp spec fn debug_text(text: Seq<char>) -> Seq<char>;

/// The text as the standard library's `Debug` formatting gives it, which
/// is what `format!` gives for `{:?}`. The result is taken to be that
/// formatting of the text, a function of the text alone; nothing more is
/// claimed of it.
#[verifier::external_body]
pub(crate) fn quoted(text: &String) -> (r: String)
    ensures
        r@ == debug_text(text@),
{
    format!("{text:?}")
}

/// What the standard library's `Debug` formatting gives for a statement:
/// its variant with the fields of the variant, and so on down the
/// statement.
pub uninterp spec fn statement_debug_text(s: StatementModel) -> Seq<char>;

/// The statement as the standard library's `Debug` formatting gives it,
/// which is what `format!` gives for `{:?}`. The result is taken to be that
/// formatting, a function of what the statement says; nothing more is
/// claimed of it.
#[verifier::external_body]
pub(crate) fn debugged(statement: &Statement) -> (r: String)
    ensures
        r@ == statement_debug_text(statement@),
{
    format!("{statement:?}")
}

/// The name of a kind of token.
pub open spec fn kind_text(kind: TokenKind) -> Seq<char> {
    match kind {
        TokenKind::Newline => "Newline"@,
        TokenKind::ColonEqual => "ColonEqual"@,
        TokenKind::Comma => "Comma"@,
        TokenKind::Dot => "Dot"@,
        TokenKind::Star => "Star"@,
        TokenKind::Plus => "Plus"@,
        TokenKind::Minus => "Minus"@,
        TokenKind::Percent => "Percent"@,
        TokenKind::Slash => "Slash"@,
        TokenKind::Equal => "Equal"@,
        TokenKind::Different => "Different"@,
        TokenKind::LeftArrow => "LeftArrow"@,
        TokenKind::Backtick => "Backtick"@,
        TokenKind::Dollar => "Dollar"@,
        TokenKind::LessEqual => "LessEqual"@,
        TokenKind::GreaterEqual => "GreaterEqual"@,
        TokenKind::LeftParen => "LeftParen"@,
        TokenKind::RightParen => "RightParen"@,
        TokenKind::LeftBracket => "LeftBracket"@,
        TokenKind::RightBracket => "RightBracket"@,
        TokenKind::LeftBrace => "LeftBrace"@,
        TokenKind::RightBrace => "RightBrace"@,
        TokenKind::LeftCarret => "LeftCarret"@,
        TokenKind::RightCarret => "RightCarret"@,
        TokenKind::If => "If"@,
        TokenKind::Else => "Else"@,
        TokenKind::Do => "Do"@,
        TokenKind::End => "End"@,
        TokenKind::Transaction => "Transaction"@,
        TokenKind::Begin => "Begin"@,
        TokenKind::Commit => "Commit"@,
        TokenKind::Abort => "Abort"@,
        TokenKind::Count => "Count"@,
        TokenKind::Create => "Create"@,
        TokenKind::Unique => "Unique"@,
        TokenKind::Index => "Index"@,
        TokenKind::On => "On"@,
        TokenKind::Select => "Select"@,
        TokenKind::From => "From"@,
        TokenKind::Where => "Where"@,
        TokenKind::Order => "Order"@,
        TokenKind::By => "By"@,
        TokenKind::Limit => "Limit"@,
        TokenKind::Offset => "Offset"@,
        TokenKind::Insert => "Insert"@,
        TokenKind::Delete => "Delete"@,
        TokenKind::Into => "Into"@,
        TokenKind::Values => "Values"@,
        TokenKind::Update => "Update"@,
        TokenKind::For => "For"@,
        TokenKind::SetKeyword => "Set"@,
        TokenKind::Between => "Between"@,
        TokenKind::Alter => "Alter"@,
        TokenKind::Table => "Table"@,
        TokenKind::Add => "Add"@,
        TokenKind::Constraint => "Constraint"@,
        TokenKind::Foreign => "Foreign"@,
        TokenKind::Key => "Key"@,
        TokenKind::References => "References"@,
        TokenKind::In => "In"@,
        TokenKind::And => "And"@,
        TokenKind::Or => "Or"@,
        TokenKind::Always => "Always"@,
        TokenKind::Never => "Never"@,
        TokenKind::Eventually => "Eventually"@,
        TokenKind::Property => "Property"@,
        TokenKind::Process => "Process"@,
        TokenKind::Latch => "Latch"@,
        TokenKind::Init => "Init"@,
        TokenKind::Let => "Let"@,
        TokenKind::Identifier => "Identifier"@,
        TokenKind::Number => "Number"@,
        TokenKind::String => "String"@,
        TokenKind::Eof => "Eof"@,
        TokenKind::Error => "Error"@,
    }
}

/// The name of a kind of token.
pub fn kind_name(kind: TokenKind) -> (r: &'static str)
    ensures
        r@ == kind_text(kind),
{
    match kind {
        TokenKind::Newline => "Newline",
        TokenKind::ColonEqual => "ColonEqual",
        TokenKind::Comma => "Comma",
        TokenKind::Dot => "Dot",
        TokenKind::Star => "Star",
        TokenKind::Plus => "Plus",
        TokenKind::Minus => "Minus",
        TokenKind::Percent => "Percent",
        TokenKind::Slash => "Slash",
        TokenKind::Equal => "Equal",
        TokenKind::Different => "Different",
        TokenKind::LeftArrow => "LeftArrow",
        TokenKind::Backtick => "Backtick",
        TokenKind::Dollar => "Dollar",
        TokenKind::LessEqual => "LessEqual",
        TokenKind::GreaterEqual => "GreaterEqual",
        TokenKind::LeftParen => "LeftParen",
        TokenKind::RightParen => "RightParen",
        TokenKind::LeftBracket => "LeftBracket",
        TokenKind::RightBracket => "RightBracket",
        TokenKind::LeftBrace => "LeftBrace",
        TokenKind::RightBrace => "RightBrace",
        TokenKind::LeftCarret => "LeftCarret",
        TokenKind::RightCarret => "RightCarret",
        TokenKind::If => "If",
        TokenKind::Else => "Else",
        TokenKind::Do => "Do",
        TokenKind::End => "End",
        TokenKind::Transaction => "Transaction",
        TokenKind::Begin => "Begin",
        TokenKind::Commit => "Commit",
        TokenKind::Abort => "Abort",
        TokenKind::Count => "Count",
        TokenKind::Create => "Create",
        TokenKind::Unique => "Unique",
        TokenKind::Index => "Index",
        TokenKind::On => "On",
        TokenKind::Select => "Select",
        TokenKind::From => "From",
        TokenKind::Where => "Where",
        TokenKind::Order => "Order",
        TokenKind::By => "By",
        TokenKind::Limit => "Limit",
        TokenKind::Offset => "Offset",
        TokenKind::Insert => "Insert",
        TokenKind::Delete => "Delete",
        TokenKind::Into => "Into",
        TokenKind::Values => "Values",
        TokenKind::Update => "Update",
        TokenKind::For => "For",
        TokenKind::SetKeyword => "Set",
        TokenKind::Between => "Between",
        TokenKind::Alter => "Alter",
        TokenKind::Table => "Table",
        TokenKind::Add => "Add",
        TokenKind::Constraint => "Constraint",
        TokenKind::Foreign => "Foreign",
        TokenKind::Key => "Key",
        TokenKind::References => "References",
        TokenKind::In => "In",
        TokenKind::And => "And",
        TokenKind::Or => "Or",
        TokenKind::Always => "Always",
        TokenKind::Never => "Never",
        TokenKind::Eventually => "Eventually",
        TokenKind::Property => "Property",
        TokenKind::Process => "Process",
        TokenKind::Latch => "Latch",
        TokenKind::Init => "Init",
        TokenKind::Let => "Let",
        TokenKind::Identifier => "Identifier",
        TokenKind::Number => "Number",
        TokenKind::String => "String",
        TokenKind::Eof => "Eof",
        TokenKind::Error => "Error",
    }
}

/// Where a token stands, field by field, behind `head`.
pub open spec fn position_text(p: Position, head: Seq<char>) -> Seq<char> {
    head + "Position { start_line: "@ + nat_text(p.start_line as nat) + ", start_col: "@ + nat_text(
        p.start_col as nat,
    ) + ", end_line: "@ + nat_text(p.end_line as nat) + ", end_col: "@ + nat_text(
        p.end_col as nat,
    ) + " }"@
}

/// A token, field by field, behind `head`: its kind, its text between
/// double quotes, and where it stands.
pub open spec fn token_text(t: TokenModel, head: Seq<char>) -> Seq<char> {
    position_text(
        t.position,
        head + "Token { kind: "@ + kind_text(t.kind) + ", lexeme: "@ + debug_text(t.lexeme)
            + ", position: "@,
    ) + " }"@
}

/// Adds where a token stands to `out`.
pub fn position(out: &mut String, p: &Position)
    ensures
        final(out)@ == position_text(*p, old(out)@),
{
    out.append("Position { start_line: ");
    out.append(count(p.start_line).as_str());
    out.append(", start_col: ");
    out.append(count(p.start_col).as_str());
    out.append(", end_line: ");
    out.append(count(p.end_line).as_str());
    out.append(", end_col: ");
    out.append(count(p.end_col).as_str());
    out.append(" }");
}

/// Adds a token to `out`.
pub fn token(out: &mut String, t: &Token)
    ensures
        final(out)@ == token_text(t@, old(out)@),
{
    out.append("Token { kind: ");
    out.append(kind_name(t.kind));
    out.append(", lexeme: ");
    out.append(quoted(&t.lexeme).as_str());
    out.append(", position: ");
    position(out, &t.position);
    out.append(" }");
}

} // verus!
