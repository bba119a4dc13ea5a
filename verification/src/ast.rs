//! The syntax trees of model programs and of the embedded query language,
//! with the mathematical content of each.

use crate::value::{Value, ValueModel};
use vstd::prelude::*;

verus! {

/// The isolation level that a transaction is opened with.
#[derive(Copy, Debug, PartialEq, Eq, Structural)]
pub enum IsolationLevel {
    ReadCommitted,
}

impl Clone for IsolationLevel {
    fn clone(&self) -> (r: Self)
        ensures
            r == *self,
    {
        *self
    }
}

/// A name: of a variable, a relation, a column or a member.
#[derive(Debug, PartialEq, Eq)]
pub struct Variable {
    pub name: String,
}

impl View for Variable {
    type V = Seq<char>;

    open spec fn view(&self) -> Seq<char> {
        self.name@
    }
}

impl Clone for Variable {
    fn clone(&self) -> (r: Self)
        ensures
            r@ == self@,
    {
        Variable { name: self.name.clone() }
    }
}

/// The names in a list of variables, in order.
pub open spec fn names_of(vars: Seq<Variable>) -> Seq<Seq<char>> {
    vars.map_values(|v: Variable| v@)
}

/// A copy of a list of names.
pub fn clone_variables(vars: &Vec<Variable>) -> (r: Vec<Variable>)
    ensures
        names_of(r@) == names_of(vars@),
{
    let mut out: Vec<Variable> = Vec::new();
    let mut i: usize = 0;
    while i < vars.len()
        invariant
            i <= vars.len(),
            out@.len() == i,
            forall|k: int| 0 <= k < i ==> out@[k]@ == vars@[k]@,
        decreases vars.len() - i,
    {
        out.push(vars[i].clone());
        i += 1;
    }
    assert(names_of(out@) =~= names_of(vars@));
    out
}

/// What a select item names: every column, or one.
#[derive(Debug, PartialEq, Eq)]
pub enum Item {
    Wildcard,
    Column(String),
}

/// The mathematical content of an [`Item`].
pub enum ItemModel {
    Wildcard,
    Column(Seq<char>),
}

impl View for Item {
    type V = ItemModel;

    open spec fn view(&self) -> ItemModel {
        match self {
            Item::Wildcard => ItemModel::Wildcard,
            Item::Column(c) => ItemModel::Column(c@),
        }
    }
}

impl Clone for Item {
    fn clone(&self) -> (r: Self)
        ensures
            r@ == self@,
    {
        match self {
            Item::Wildcard => Item::Wildcard,
            Item::Column(c) => Item::Column(c.clone()),
        }
    }
}

/// One entry of a select list: a projection or a row count.
#[derive(Debug, PartialEq, Eq)]
pub enum SelectItem {
    Column(Item),
    Count(Item),
}

/// The mathematical content of a [`SelectItem`].
pub enum SelectItemModel {
    Column(ItemModel),
    Count(ItemModel),
}

impl View for SelectItem {
    type V = SelectItemModel;

    open spec fn view(&self) -> SelectItemModel {
        match self {
            SelectItem::Column(i) => SelectItemModel::Column(i@),
            SelectItem::Count(i) => SelectItemModel::Count(i@),
        }
    }
}

impl Clone for SelectItem {
    fn clone(&self) -> (r: Self)
        ensures
            r@ == self@,
    {
        match self {
            SelectItem::Column(i) => SelectItem::Column(i.clone()),
            SelectItem::Count(i) => SelectItem::Count(i.clone()),
        }
    }
}

/// The contents of a select list, in order.
pub open spec fn select_items_of(items: Seq<SelectItem>) -> Seq<SelectItemModel> {
    items.map_values(|i: SelectItem| i@)
}

/// A copy of a select list.
pub fn clone_select_items(items: &Vec<SelectItem>) -> (r: Vec<SelectItem>)
    ensures
        select_items_of(r@) == select_items_of(items@),
{
    let mut out: Vec<SelectItem> = Vec::new();
    let mut i: usize = 0;
    while i < items.len()
        invariant
            i <= items.len(),
            out@.len() == i,
            forall|k: int| 0 <= k < i ==> out@[k]@ == items@[k]@,
        decreases items.len() - i,
    {
        out.push(items[i].clone());
        i += 1;
    }
    assert(select_items_of(out@) =~= select_items_of(items@));
    out
}

/// The binary operators of the modelling language.
#[derive(Copy, Debug, PartialEq, Eq, Structural)]
pub enum Operator {
    Add,
    Subtract,
    Multiply,
    Divide,
    Rem,
    Equal,
    NotEqual,
    Less,
    LessEqual,
    Greater,
    GreaterEqual,
    Included,
    And,
    Or,
}

impl Clone for Operator {
    fn clone(&self) -> (r: Self)
        ensures
            r == *self,
    {
        *self
    }
}

/// The binary operators of the query language.
#[derive(Copy, Debug, PartialEq, Eq, Structural)]
pub enum SqlOperator {
    Add,
    Subtract,
    Multiply,
    Divide,
    Rem,
    Equal,
    NotEqual,
    Less,
    LessEqual,
    Greater,
    GreaterEqual,
    In,
    Between,
    And,
}

impl Clone for SqlOperator {
    fn clone(&self) -> (r: Self)
        ensures
            r == *self,
    {
        *self
    }
}

/// An expression of the query language.
#[derive(Debug, PartialEq, Eq)]
#[allow(inconsistent_fields)]
pub enum SqlExpression {
    Select {
        columns: Vec<SelectItem>,
        from: Variable,
        condition: Option<Box<SqlExpression>>,
        order_by: Option<Box<SqlExpression>>,
        limit: Option<i16>,
        offset: Option<i16>,
        locking: bool,
    },
    Update { relation: Variable, updates: Vec<SqlExpression>, condition: Option<Box<SqlExpression>> },
    Delete { relation: Variable, condition: Option<Box<SqlExpression>> },
    Insert { relation: Variable, columns: Vec<Variable>, values: Vec<SqlExpression> },
    Create { relation: Variable, columns: Vec<Variable> },
    Alter {
        constraint_name: Variable,
        relation: Variable,
        columns: Vec<Variable>,
        reference_relation: Variable,
        reference_columns: Vec<Variable>,
    },
    Binary { left: Box<SqlExpression>, operator: SqlOperator, right: Box<SqlExpression> },
    Scalar(Box<SqlExpression>),
    Tuple(Vec<SqlExpression>),
    Assignment(Variable, Box<SqlExpression>),
    SetOf(Vec<SqlExpression>),
    Var(Variable),
    Integer(i16),
    String(String),
    Bool(bool),
    /// A variable of the surrounding program, written with a leading `$`.
    UpVariable(Variable),
    /// A value put in the place of a variable of the surrounding program.
    Value(Value),
}

/// The mathematical content of a [`SqlExpression`].
#[allow(inconsistent_fields)]
pub enum SqlModel {
    Select {
        columns: Seq<SelectItemModel>,
        from: Seq<char>,
        condition: Option<Box<SqlModel>>,
        order_by: Option<Box<SqlModel>>,
        limit: Option<int>,
        offset: Option<int>,
        locking: bool,
    },
    Update { relation: Seq<char>, updates: Seq<SqlModel>, condition: Option<Box<SqlModel>> },
    Delete { relation: Seq<char>, condition: Option<Box<SqlModel>> },
    Insert { relation: Seq<char>, columns: Seq<Seq<char>>, values: Seq<SqlModel> },
    Create { relation: Seq<char>, columns: Seq<Seq<char>> },
    Alter {
        constraint_name: Seq<char>,
        relation: Seq<char>,
        columns: Seq<Seq<char>>,
        reference_relation: Seq<char>,
        reference_columns: Seq<Seq<char>>,
    },
    Binary { left: Box<SqlModel>, operator: SqlOperator, right: Box<SqlModel> },
    Scalar(Box<SqlModel>),
    Tuple(Seq<SqlModel>),
    Assignment(Seq<char>, Box<SqlModel>),
    SetOf(Seq<SqlModel>),
    Var(Seq<char>),
    Integer(int),
    Str(Seq<char>),
    Bool(bool),
    UpVariable(Seq<char>),
    Value(ValueModel),
}

/// The content of an optional 16-bit integer.
pub open spec fn opt_int(o: Option<i16>) -> Option<int> {
    match o {
        Some(i) => Some(i as int),
        None => None,
    }
}

/// The mathematical content of a query expression.
pub open spec fn sql_model_of(e: SqlExpression) -> SqlModel
    decreases e, 0nat,
{
    match e {
        SqlExpression::Select { columns, from, condition, order_by, limit, offset, locking } => {
            SqlModel::Select {
                columns: select_items_of(columns@),
                from: from@,
                condition: sql_opt_model_of(condition),
                order_by: sql_opt_model_of(order_by),
                limit: opt_int(limit),
                offset: opt_int(offset),
                locking,
            }
        },
        SqlExpression::Update { relation, updates, condition } => SqlModel::Update {
            relation: relation@,
            updates: sql_children(updates),
            condition: sql_opt_model_of(condition),
        },
        SqlExpression::Delete { relation, condition } => SqlModel::Delete {
            relation: relation@,
            condition: sql_opt_model_of(condition),
        },
        SqlExpression::Insert { relation, columns, values } => SqlModel::Insert {
            relation: relation@,
            columns: names_of(columns@),
            values: sql_children(values),
        },
        SqlExpression::Create { relation, columns } => SqlModel::Create {
            relation: relation@,
            columns: names_of(columns@),
        },
        SqlExpression::Alter {
            constraint_name,
            relation,
            columns,
            reference_relation,
            reference_columns,
        } => SqlModel::Alter {
            constraint_name: constraint_name@,
            relation: relation@,
            columns: names_of(columns@),
            reference_relation: reference_relation@,
            reference_columns: names_of(reference_columns@),
        },
        SqlExpression::Binary { left, operator, right } => SqlModel::Binary {
            left: Box::new(sql_model_of(*left)),
            operator,
            right: Box::new(sql_model_of(*right)),
        },
        SqlExpression::Scalar(inner) => SqlModel::Scalar(Box::new(sql_model_of(*inner))),
        SqlExpression::Tuple(items) => SqlModel::Tuple(sql_children(items)),
        SqlExpression::Assignment(var, inner) => SqlModel::Assignment(
            var@,
            Box::new(sql_model_of(*inner)),
        ),
        SqlExpression::SetOf(items) => SqlModel::SetOf(sql_children(items)),
        SqlExpression::Var(var) => SqlModel::Var(var@),
        SqlExpression::Integer(i) => SqlModel::Integer(i as int),
        SqlExpression::String(s) => SqlModel::Str(s@),
        SqlExpression::Bool(b) => SqlModel::Bool(b),
        SqlExpression::UpVariable(var) => SqlModel::UpVariable(var@),
        SqlExpression::Value(v) => SqlModel::Value(v@),
    }
}

/// The content of an optional query expression.
pub open spec fn sql_opt_model_of(o: Option<Box<SqlExpression>>) -> Option<Box<SqlModel>>
    decreases o, 0nat,
{
    match o {
        Some(inner) => Some(Box::new(sql_model_of(*inner))),
        None => None,
    }
}

/// The contents of the query expressions under a node, in order.
pub open spec fn sql_children(items: Vec<SqlExpression>) -> Seq<SqlModel>
    decreases items, 1nat,
{
    Seq::new(
        items@.len(),
        |i: int|
            if 0 <= i < items@.len() {
                sql_model_of(items@[i])
            } else {
                SqlModel::Bool(false)
            },
    )
}

impl View for SqlExpression {
    type V = SqlModel;

    open spec fn view(&self) -> SqlModel {
        sql_model_of(*self)
    }
}

/// The contents of a sequence of query expressions, item by item.
pub open spec fn sql_models_of(items: Seq<SqlExpression>) -> Seq<SqlModel> {
    items.map_values(|e: SqlExpression| e@)
}

/// The contents of the expressions under a node are those of its items.
pub proof fn lemma_sql_children(items: Vec<SqlExpression>)
    ensures
        sql_children(items) == sql_models_of(items@),
{
    assert(sql_children(items) =~= sql_models_of(items@));
}

/// A copy of an optional query expression.
pub fn clone_sql_opt(o: &Option<Box<SqlExpression>>) -> (r: Option<Box<SqlExpression>>)
    ensures
        sql_opt_model_of(r) == sql_opt_model_of(*o),
    decreases o, 1nat,
{
    match o {
        Some(inner) => Some(Box::new((&**inner).clone())),
        None => None,
    }
}

/// A copy of a list of query expressions.
pub fn clone_sql_list(items: &Vec<SqlExpression>) -> (r: Vec<SqlExpression>)
    ensures
        sql_children(r) == sql_children(*items),
    decreases items, 1nat,
{
    let mut out: Vec<SqlExpression> = Vec::new();
    let mut i: usize = 0;
    while i < items.len()
        invariant
            i <= items.len(),
            out@.len() == i,
            forall|k: int| 0 <= k < i ==> out@[k]@ == items@[k]@,
        decreases items.len() - i,
    {
        out.push(items[i].clone());
        i += 1;
    }
    assert(sql_children(out) =~= sql_children(*items));
    out
}

impl Clone for SqlExpression {
    fn clone(&self) -> (r: Self)
        ensures
            r@ == self@,
        decreases self, 0nat,
    {
        match self {
            SqlExpression::Select { columns, from, condition, order_by, limit, offset, locking } => {
                SqlExpression::Select {
                    columns: clone_select_items(columns),
                    from: from.clone(),
                    condition: clone_sql_opt(condition),
                    order_by: clone_sql_opt(order_by),
                    limit: *limit,
                    offset: *offset,
                    locking: *locking,
                }
            },
            SqlExpression::Update { relation, updates, condition } => SqlExpression::Update {
                relation: relation.clone(),
                updates: clone_sql_list(updates),
                condition: clone_sql_opt(condition),
            },
            SqlExpression::Delete { relation, condition } => SqlExpression::Delete {
                relation: relation.clone(),
                condition: clone_sql_opt(condition),
            },
            SqlExpression::Insert { relation, columns, values } => SqlExpression::Insert {
                relation: relation.clone(),
                columns: clone_variables(columns),
                values: clone_sql_list(values),
            },
            SqlExpression::Create { relation, columns } => SqlExpression::Create {
                relation: relation.clone(),
                columns: clone_variables(columns),
            },
            SqlExpression::Alter {
                constraint_name,
                relation,
                columns,
                reference_relation,
                reference_columns,
            } => SqlExpression::Alter {
                constraint_name: constraint_name.clone(),
                relation: relation.clone(),
                columns: clone_variables(columns),
                reference_relation: reference_relation.clone(),
                reference_columns: clone_variables(reference_columns),
            },
            SqlExpression::Binary { left, operator, right } => SqlExpression::Binary {
                left: Box::new((&**left).clone()),
                operator: *operator,
                right: Box::new((&**right).clone()),
            },
            SqlExpression::Scalar(inner) => SqlExpression::Scalar(Box::new((&**inner).clone())),
            SqlExpression::Tuple(items) => SqlExpression::Tuple(clone_sql_list(items)),
            SqlExpression::Assignment(var, inner) => SqlExpression::Assignment(
                var.clone(),
                Box::new((&**inner).clone()),
            ),
            SqlExpression::SetOf(items) => SqlExpression::SetOf(clone_sql_list(items)),
            SqlExpression::Var(var) => SqlExpression::Var(var.clone()),
            SqlExpression::Integer(i) => SqlExpression::Integer(*i),
            SqlExpression::String(s) => SqlExpression::String(s.clone()),
            SqlExpression::Bool(b) => SqlExpression::Bool(*b),
            SqlExpression::UpVariable(var) => SqlExpression::UpVariable(var.clone()),
            SqlExpression::Value(v) => SqlExpression::Value(v.clone()),
        }
    }
}

/// An expression of the modelling language.
#[derive(Debug, PartialEq, Eq)]
pub enum Expression {
    Sql(SqlExpression),
    Binary { left: Box<Expression>, operator: Operator, right: Box<Expression> },
    Member { call_site: Box<Expression>, member: Variable },
    Assignment(Variable, Box<Expression>),
    Var(Variable),
    Integer(i16),
    String(String),
    SetOf(Vec<Expression>),
    Tuple(Vec<Expression>),
    Scalar(Box<Expression>),
}

/// The mathematical content of an [`Expression`].
pub enum ExprModel {
    Sql(SqlModel),
    Binary { left: Box<ExprModel>, operator: Operator, right: Box<ExprModel> },
    Member { call_site: Box<ExprModel>, member: Seq<char> },
    Assignment(Seq<char>, Box<ExprModel>),
    Var(Seq<char>),
    Integer(int),
    Str(Seq<char>),
    SetOf(Seq<ExprModel>),
    Tuple(Seq<ExprModel>),
    Scalar(Box<ExprModel>),
}

/// The mathematical content of an expression.
pub open spec fn expr_model_of(e: Expression) -> ExprModel
    decreases e, 0nat,
{
    match e {
        Expression::Sql(sql) => ExprModel::Sql(sql@),
        Expression::Binary { left, operator, right } => ExprModel::Binary {
            left: Box::new(expr_model_of(*left)),
            operator,
            right: Box::new(expr_model_of(*right)),
        },
        Expression::Member { call_site, member } => ExprModel::Member {
            call_site: Box::new(expr_model_of(*call_site)),
            member: member@,
        },
        Expression::Assignment(var, inner) => ExprModel::Assignment(
            var@,
            Box::new(expr_model_of(*inner)),
        ),
        Expression::Var(var) => ExprModel::Var(var@),
        Expression::Integer(i) => ExprModel::Integer(i as int),
        Expression::String(s) => ExprModel::Str(s@),
        Expression::SetOf(items) => ExprModel::SetOf(expr_children(items)),
        Expression::Tuple(items) => ExprModel::Tuple(expr_children(items)),
        Expression::Scalar(inner) => ExprModel::Scalar(Box::new(expr_model_of(*inner))),
    }
}

/// The contents of the expressions under a node, in order.
pub open spec fn expr_children(items: Vec<Expression>) -> Seq<ExprModel>
    decreases items, 1nat,
{
    Seq::new(
        items@.len(),
        |i: int|
            if 0 <= i < items@.len() {
                expr_model_of(items@[i])
            } else {
                ExprModel::Integer(0)
            },
    )
}

impl View for Expression {
    type V = ExprModel;

    open spec fn view(&self) -> ExprModel {
        expr_model_of(*self)
    }
}

/// The contents of a sequence of expressions, item by item.
pub open spec fn expr_models_of(items: Seq<Expression>) -> Seq<ExprModel> {
    items.map_values(|e: Expression| e@)
}

/// The contents of the expressions under a node are those of its items.
pub proof fn lemma_expr_children(items: Vec<Expression>)
    ensures
        expr_children(items) == expr_models_of(items@),
{
    assert(expr_children(items) =~= expr_models_of(items@));
}

/// A copy of a list of expressions.
pub fn clone_expr_list(items: &Vec<Expression>) -> (r: Vec<Expression>)
    ensures
        expr_children(r) == expr_children(*items),
    decreases items, 1nat,
{
    let mut out: Vec<Expression> = Vec::new();
    let mut i: usize = 0;
    while i < items.len()
        invariant
            i <= items.len(),
            out@.len() == i,
            forall|k: int| 0 <= k < i ==> out@[k]@ == items@[k]@,
        decreases items.len() - i,
    {
        out.push(items[i].clone());
        i += 1;
    }
    assert(expr_children(out) =~= expr_children(*items));
    out
}

impl Clone for Expression {
    fn clone(&self) -> (r: Self)
        ensures
            r@ == self@,
        decreases self, 0nat,
    {
        match self {
            Expression::Sql(sql) => Expression::Sql(sql.clone()),
            Expression::Binary { left, operator, right } => Expression::Binary {
                left: Box::new((&**left).clone()),
                operator: *operator,
                right: Box::new((&**right).clone()),
            },
            Expression::Member { call_site, member } => Expression::Member {
                call_site: Box::new((&**call_site).clone()),
                member: member.clone(),
            },
            Expression::Assignment(var, inner) => Expression::Assignment(
                var.clone(),
                Box::new((&**inner).clone()),
            ),
            Expression::Var(var) => Expression::Var(var.clone()),
            Expression::Integer(i) => Expression::Integer(*i),
            Expression::String(s) => Expression::String(s.clone()),
            Expression::SetOf(items) => Expression::SetOf(clone_expr_list(items)),
            Expression::Tuple(items) => Expression::Tuple(clone_expr_list(items)),
            Expression::Scalar(inner) => Expression::Scalar(Box::new((&**inner).clone())),
        }
    }
}

/// One step of a process, or a property of the model.
///
/// `If` holds the number of statements to move forward by when its condition
/// is false, `Else` the number to move forward by in any case.
#[derive(Debug, PartialEq, Eq)]
pub enum Statement {
    Begin(IsolationLevel, Option<Variable>),
    Commit,
    Abort,
    Expression(Expression),
    Latch,
    If(Expression, usize),
    Else(usize),
    Always(Expression),
    Never(Expression),
    Eventually(Expression),
}

/// The mathematical content of a [`Statement`].
pub enum StatementModel {
    Begin(IsolationLevel, Option<Seq<char>>),
    Commit,
    Abort,
    Expression(ExprModel),
    Latch,
    If(ExprModel, nat),
    Else(nat),
    Always(ExprModel),
    Never(ExprModel),
    Eventually(ExprModel),
}

/// The content of an optional name.
pub open spec fn opt_name(o: Option<Variable>) -> Option<Seq<char>> {
    match o {
        Some(v) => Some(v@),
        None => None,
    }
}

impl View for Statement {
    type V = StatementModel;

    open spec fn view(&self) -> StatementModel {
        match self {
            Statement::Begin(level, name) => StatementModel::Begin(*level, opt_name(*name)),
            Statement::Commit => StatementModel::Commit,
            Statement::Abort => StatementModel::Abort,
            Statement::Expression(e) => StatementModel::Expression(e@),
            Statement::Latch => StatementModel::Latch,
            Statement::If(e, offset) => StatementModel::If(e@, *offset as nat),
            Statement::Else(offset) => StatementModel::Else(*offset as nat),
            Statement::Always(e) => StatementModel::Always(e@),
            Statement::Never(e) => StatementModel::Never(e@),
            Statement::Eventually(e) => StatementModel::Eventually(e@),
        }
    }
}

impl Clone for Statement {
    fn clone(&self) -> (r: Self)
        ensures
            r@ == self@,
    {
        match self {
            Statement::Begin(level, name) => Statement::Begin(
                *level,
                match name {
                    Some(v) => Some(v.clone()),
                    None => None,
                },
            ),
            Statement::Commit => Statement::Commit,
            Statement::Abort => Statement::Abort,
            Statement::Expression(e) => Statement::Expression(e.clone()),
            Statement::Latch => Statement::Latch,
            Statement::If(e, offset) => Statement::If(e.clone(), *offset),
            Statement::Else(offset) => Statement::Else(*offset),
            Statement::Always(e) => Statement::Always(e.clone()),
            Statement::Never(e) => Statement::Never(e.clone()),
            Statement::Eventually(e) => Statement::Eventually(e.clone()),
        }
    }
}

/// The contents of a list of statements, in order.
pub open spec fn statements_of(code: Seq<Statement>) -> Seq<StatementModel> {
    code.map_values(|s: Statement| s@)
}

/// A model: what sets the database up, the processes, and the properties.
#[derive(Debug, PartialEq, Eq)]
pub struct Mets {
    pub init: Vec<Statement>,
    pub processes: Vec<Vec<Statement>>,
    pub properties: Vec<Statement>,
}

/// What a model says: the statements of its setup, of each of its
/// processes, and its properties.
pub struct MetsModel {
    pub init: Seq<StatementModel>,
    pub processes: Seq<Seq<StatementModel>>,
    pub properties: Seq<StatementModel>,
}

impl View for Mets {
    type V = MetsModel;

    open spec fn view(&self) -> MetsModel {
        MetsModel {
            init: statements_of(self.init@),
            processes: self.processes@.map_values(|c: Vec<Statement>| statements_of(c@)),
            properties: statements_of(self.properties@),
        }
    }
}

/// Whether the jump of a statement at position `at`, if it has one, is a
/// jump forwards that stays within the first `end` statements.
pub open spec fn jump_fits(s: Statement, at: int, end: int) -> bool {
    match s {
        Statement::If(_, offset) => offset >= 1 && at + offset <= end,
        Statement::Else(offset) => offset >= 1 && at + offset <= end,
        _ => true,
    }
}

/// Whether every jump in a list of statements stays within the list.
pub open spec fn jumps_fit(code: Seq<Statement>) -> bool {
    forall|k: int| 0 <= k < code.len() ==> jump_fits(#[trigger] code[k], k, code.len() as int)
}

/// Whether every jump in what has been read of the model stays within its
/// block.
pub open spec fn fits(mets: &Mets) -> bool {
    &&& jumps_fit(mets.init@)
    &&& forall|i: int| 0 <= i < mets.processes@.len() ==> jumps_fit((#[trigger] mets.processes@[i])@)
}


} // verus!
