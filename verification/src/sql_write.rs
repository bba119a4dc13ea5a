//! What the statements that change the database do: insert, update, delete,
//! and the two schema edits; and how a statement is run for a transaction.

use crate::arith::{count16, wrap16};
use crate::ast::{
    lemma_sql_children, names_of, opt_int, select_items_of, sql_children, sql_models_of,
    sql_opt_model_of, IsolationLevel, SqlExpression, SqlModel, Variable,
};
use crate::sql_eval::{eval, evaluate, evaluated_of, Evaluated, SqlEngineError, SqlErrorModel};
use crate::sql_interpreter::{
    ensure_table, keeps_open, lemma_keeps_wf, lemma_table_index, lemma_tx_index,
    lemma_tx_index_ids, lemma_with_keeps, table_index, tx_ids, tx_index, ContextEntries, DbModel,
    SqlDatabase,
};
use crate::sql_select::{answers_condition, row_answers, select};
use crate::store::{
    bind_cell, cells_of, clone_indexes, indexes_of, keys_of, locks_of, rows_of, strings_of,
    unique_tuple, values_at, with_cell, Cells, ChangeModel, Changes, ForeignKey, ForeignKeyModel,
    Lock, LockModel, Row, RowId, RowModel, TableModel, TransactionId, UniqueIndex,
};
use crate::value::{clone_members, models_of, same_members, tuple_in, Value, ValueModel};
use vstd::prelude::*;
use vstd::string::*;

verus! {

/// The first of the locks, from position `from` on, that marks a pending
/// insert into `table` of the unique tuple that the cells have under the
/// lock's index.
pub open spec fn unique_hit(locks: Seq<LockModel>, table: Seq<char>, cells: Cells, from: int) -> Option<
    LockModel,
>
    decreases locks.len() - from,
{
    if from < 0 || from >= locks.len() {
        None
    } else {
        match locks[from] {
            LockModel::Unique(t, index, v) => if t == table && unique_tuple(index, cells) == v {
                Some(locks[from])
            } else {
                unique_hit(locks, table, cells, from + 1)
            },
            _ => unique_hit(locks, table, cells, from + 1),
        }
    }
}

/// The first lock of a transaction other than `tx`, from position `from` on,
/// that marks a pending insert of a unique tuple of the cells.
pub open spec fn unique_blocker(
    txs: ContextEntries,
    tx: TransactionId,
    table: Seq<char>,
    cells: Cells,
    from: int,
) -> Option<LockModel>
    decreases txs.len() - from,
{
    if from < 0 || from >= txs.len() {
        None
    } else if txs[from].0 != tx && unique_hit(txs[from].1.locks, table, cells, 0).is_some() {
        unique_hit(txs[from].1.locks, table, cells, 0)
    } else {
        unique_blocker(txs, tx, table, cells, from + 1)
    }
}

/// Whether one of the rows, other than the row's own version, has the row's
/// unique tuple under the index.
pub open spec fn shares_tuple(rows: Seq<RowModel>, index: Seq<Seq<char>>, row: RowModel) -> bool {
    exists|r: int|
        0 <= r < rows.len() && (#[trigger] rows[r]).rid != row.rid && unique_tuple(
            index,
            rows[r].cells,
        ) == unique_tuple(index, row.cells)
}

/// Whether one of the rows, other than the row's own version, has the row's
/// unique tuple under one of the indexes.
pub open spec fn shares_unique(
    rows: Seq<RowModel>,
    indexes: Seq<Seq<Seq<char>>>,
    row: RowModel,
) -> bool {
    exists|u: int| 0 <= u < indexes.len() && shares_tuple(rows, #[trigger] indexes[u], row)
}

/// Whether the row may enter the table: locked out where another transaction
/// has a pending insert of one of its unique tuples, a violation where a
/// committed row has one of them.
pub open spec fn check_unique(db: DbModel, tx: TransactionId, table: Seq<char>, row: RowModel) -> Result<
    (),
    SqlErrorModel,
> {
    match unique_blocker(db.transactions, tx, table, row.cells, 0) {
        Some(lock) => Err(SqlErrorModel::Locked(lock)),
        None => if shares_unique(db.table(table).rows, db.table(table).unique, row) {
            Err(SqlErrorModel::UnicityViolation)
        } else {
            Ok(())
        },
    }
}

/// Whether the child cells refer to the parent cells under the foreign key.
pub open spec fn refers_to(fk: ForeignKeyModel, child: Cells, parent: Cells) -> bool {
    values_at(parent, fk.foreign_columns) == values_at(child, fk.columns)
}

/// The first of the rows, from position `from` on, that the cells refer to.
pub open spec fn parent_of(parents: Seq<RowModel>, fk: ForeignKeyModel, cells: Cells, from: int) -> Option<
    RowModel,
>
    decreases parents.len() - from,
{
    if from < 0 || from >= parents.len() {
        None
    } else if refers_to(fk, cells, parents[from].cells) {
        Some(parents[from])
    } else {
        parent_of(parents, fk, cells, from + 1)
    }
}

/// The foreign keys of `table` from position `from` on, held against the
/// cells: for each, the first row that the cells refer to, among those that
/// the current transaction sees, is locked for key share. A key without such
/// a row is violated; a lock that another transaction stands against fails.
pub open spec fn check_keys(db: DbModel, table: Seq<char>, cells: Cells, from: int) -> (
    DbModel,
    Result<(), SqlErrorModel>,
)
    decreases db.foreign_keys.len() - from,
{
    if from < 0 || from >= db.foreign_keys.len() {
        (db, Ok(()))
    } else {
        let fk = db.foreign_keys[from];
        if fk.relation != table {
            check_keys(db, table, cells, from + 1)
        } else {
            match parent_of(db.rows(db.cur_tx, fk.foreign_relation), fk, cells, 0) {
                None => (db, Err(SqlErrorModel::ForeignKeyViolation)),
                Some(parent) => {
                    let lock = LockModel::RowForKeyShare(parent.rid);
                    if db.blocked(db.cur_tx, lock) {
                        (db, Err(SqlErrorModel::Locked(lock)))
                    } else {
                        check_keys(db.with_lock(db.cur_tx, lock), table, cells, from + 1)
                    }
                },
            }
        }
    }
}

/// The database with a lock on the unique tuple of the cells under each of
/// the indexes from position `from` on.
pub open spec fn with_unique_locks(
    db: DbModel,
    tx: TransactionId,
    table: Seq<char>,
    indexes: Seq<Seq<Seq<char>>>,
    cells: Cells,
    from: int,
) -> DbModel
    decreases indexes.len() - from,
{
    if from < 0 || from >= indexes.len() {
        db
    } else {
        with_unique_locks(
            db.with_lock(
                tx,
                LockModel::Unique(table, indexes[from], unique_tuple(indexes[from], cells)),
            ),
            tx,
            table,
            indexes,
            cells,
            from + 1,
        )
    }
}

/// The cells that bind the columns from position `from` on to the values at
/// the same positions, and to nil where the values run out.
pub open spec fn bind_all(
    columns: Seq<Seq<char>>,
    values: Seq<ValueModel>,
    from: int,
    cells: Cells,
) -> Cells
    decreases columns.len() - from,
{
    if from < 0 || from >= columns.len() {
        cells
    } else {
        bind_all(
            columns,
            values,
            from + 1,
            with_cell(
                cells,
                columns[from],
                if from < values.len() {
                    values[from]
                } else {
                    ValueModel::Nil
                },
                0,
            ),
        )
    }
}

/// The tables with the column order of the table named `table` set to
/// `columns` where it had none.
pub open spec fn seed_columns(
    tables: Seq<(Seq<char>, TableModel)>,
    table: Seq<char>,
    columns: Seq<Seq<char>>,
) -> Seq<(Seq<char>, TableModel)> {
    match table_index(tables, table, 0) {
        Some(i) => if tables[i].1.columns.len() == 0 {
            tables.update(i, (tables[i].0, TableModel { columns, ..tables[i].1 }))
        } else {
            tables
        },
        None => tables,
    }
}

/// The insert of one row: the row gets the next row identifier; it must pass
/// the unique indexes and the foreign keys of the table; the table comes to
/// be if it was not there and takes its column order from the first insert;
/// the transaction locks the row's unique tuples and records the insert.
pub open spec fn insert_row(
    db: DbModel,
    table: Seq<char>,
    columns: Seq<Seq<char>>,
    values: Seq<ValueModel>,
) -> (DbModel, Result<(), SqlErrorModel>) {
    let rid = RowId((db.rid.0 + 1) as usize);
    let numbered = DbModel { rid, ..db };
    let row = RowModel { cells: bind_all(columns, values, 0, Seq::empty()), rid };
    match check_unique(numbered, numbered.cur_tx, table, row) {
        Err(x) => (numbered, Err(x)),
        Ok(_) => {
            let (keyed, outcome) = check_keys(numbered, table, row.cells, 0);
            match outcome {
                Err(x) => (keyed, Err(x)),
                Ok(_) => {
                    let seeded = DbModel {
                        tables: seed_columns(ensure_table(keyed.tables, table), table, columns),
                        ..keyed
                    };
                    let locked = with_unique_locks(
                        seeded,
                        seeded.cur_tx,
                        table,
                        seeded.table(table).unique,
                        row.cells,
                        0,
                    );
                    (locked.with_change(locked.cur_tx, ChangeModel::Insert(table, row)), Ok(()))
                },
            }
        },
    }
}

/// The inserts of the tuples from position `from` on, in order, up to the
/// first that fails.
pub open spec fn insert_rows(
    db: DbModel,
    table: Seq<char>,
    columns: Seq<Seq<char>>,
    tuples: Seq<Seq<ValueModel>>,
    from: int,
) -> (DbModel, Evaluated)
    decreases tuples.len() - from,
{
    if from < 0 || from >= tuples.len() {
        (db, Ok(ValueModel::Nil))
    } else {
        let (next, outcome) = insert_row(db, table, columns, tuples[from]);
        match outcome {
            Err(x) => (next, Err(x)),
            Ok(_) => insert_rows(next, table, columns, tuples, from + 1),
        }
    }
}

/// The tuples that the expressions from position `from` on stand for.
pub open spec fn tuples_of(values: Seq<SqlModel>, from: int, done: Seq<Seq<ValueModel>>) -> Result<
    Seq<Seq<ValueModel>>,
    SqlErrorModel,
>
    decreases values.len() - from,
{
    if from < 0 || from >= values.len() {
        Ok(done)
    } else {
        match eval(values[from], None) {
            Err(x) => Err(x),
            Ok(v) => match tuple_in(v) {
                Some(items) => tuples_of(values, from + 1, done.push(items)),
                None => Err(SqlErrorModel::SqlTypeError(values[from], "tuple"@)),
            },
        }
    }
}

/// What an insert does to the database and what it gives.
pub open spec fn insert(
    db: DbModel,
    relation: Seq<char>,
    columns: Seq<Seq<char>>,
    values: Seq<SqlModel>,
) -> (DbModel, Evaluated) {
    match tuples_of(values, 0, Seq::empty()) {
        Err(x) => (db, Err(x)),
        Ok(tuples) => insert_rows(db, relation, columns, tuples, 0),
    }
}

/// The cells after the assignments from position `from` on, each value
/// taken in the scope of the row as it was.
pub open spec fn assigned(scope: Cells, updates: Seq<SqlModel>, from: int, cells: Cells) -> Result<
    Cells,
    SqlErrorModel,
>
    decreases updates.len() - from,
{
    if from < 0 || from >= updates.len() {
        Ok(cells)
    } else {
        match updates[from] {
            SqlModel::Assignment(name, e) => match eval(*e, Some(scope)) {
                Ok(v) => assigned(scope, updates, from + 1, with_cell(cells, name, v, 0)),
                Err(x) => Err(x),
            },
            other => Err(SqlErrorModel::SqlTypeError(other, "assignment"@)),
        }
    }
}

/// The update of one row: the new version keeps the row identifier; it must
/// pass the unique indexes and foreign keys of the table; the transaction
/// must get the update lock on the row; it then locks the new unique tuples
/// and records the old version's delete and the new version's insert.
pub open spec fn update_row(db: DbModel, table: Seq<char>, updates: Seq<SqlModel>, row: RowModel) -> (
    DbModel,
    Result<(), SqlErrorModel>,
) {
    match assigned(row.cells, updates, 0, row.cells) {
        Err(x) => (db, Err(x)),
        Ok(cells) => {
            let version = RowModel { cells, rid: row.rid };
            match check_unique(db, db.cur_tx, table, version) {
                Err(x) => (db, Err(x)),
                Ok(_) => {
                    let (keyed, outcome) = check_keys(db, table, cells, 0);
                    match outcome {
                        Err(x) => (keyed, Err(x)),
                        Ok(_) => {
                            let lock = LockModel::RowUpdate(row.rid);
                            if keyed.blocked(keyed.cur_tx, lock) {
                                (keyed, Err(SqlErrorModel::Locked(lock)))
                            } else {
                                let locked = with_unique_locks(
                                    keyed,
                                    keyed.cur_tx,
                                    table,
                                    keyed.table(table).unique,
                                    cells,
                                    0,
                                ).with_lock(keyed.cur_tx, lock);
                                (
                                    locked.with_change(
                                        locked.cur_tx,
                                        ChangeModel::Delete(table, row),
                                    ).with_change(
                                        locked.cur_tx,
                                        ChangeModel::Insert(table, version),
                                    ),
                                    Ok(()),
                                )
                            }
                        },
                    }
                },
            }
        },
    }
}

/// The updates of the rows from position `from` on that answer the
/// condition, up to the first failure; the number of rows updated.
pub open spec fn update_rows(
    db: DbModel,
    table: Seq<char>,
    updates: Seq<SqlModel>,
    condition: Option<Box<SqlModel>>,
    rows: Seq<RowModel>,
    from: int,
    count: int,
) -> (DbModel, Evaluated)
    decreases rows.len() - from,
{
    if from < 0 || from >= rows.len() {
        (db, Ok(ValueModel::Integer(wrap16(count))))
    } else {
        match answers_condition(condition, rows[from].cells) {
            Err(x) => (db, Err(x)),
            Ok(false) => update_rows(db, table, updates, condition, rows, from + 1, count),
            Ok(true) => {
                let (next, outcome) = update_row(db, table, updates, rows[from]);
                match outcome {
                    Err(x) => (next, Err(x)),
                    Ok(_) => update_rows(next, table, updates, condition, rows, from + 1, count + 1),
                }
            },
        }
    }
}

/// What an update does to the database and what it gives.
pub open spec fn update(
    db: DbModel,
    relation: Seq<char>,
    updates: Seq<SqlModel>,
    condition: Option<Box<SqlModel>>,
) -> (DbModel, Evaluated) {
    update_rows(db, relation, updates, condition, db.rows(db.cur_tx, relation), 0, 0)
}

/// The deletes of the rows, from position `from` on, that refer to the
/// parent cells under the foreign key.
pub open spec fn child_deletes(
    children: Seq<RowModel>,
    fk: ForeignKeyModel,
    parent: Cells,
    from: int,
    done: Seq<ChangeModel>,
) -> Seq<ChangeModel>
    decreases children.len() - from,
{
    if from < 0 || from >= children.len() {
        done
    } else {
        child_deletes(
            children,
            fk,
            parent,
            from + 1,
            if refers_to(fk, children[from].cells, parent) {
                done.push(ChangeModel::Delete(fk.relation, children[from]))
            } else {
                done
            },
        )
    }
}

/// The deletes that the delete of a row of `table` brings with it: of the
/// rows that refer to it under each foreign key, from position `from` on,
/// that refers to `table`.
pub open spec fn cascades(
    db: DbModel,
    table: Seq<char>,
    parent: Cells,
    from: int,
    done: Seq<ChangeModel>,
) -> Seq<ChangeModel>
    decreases db.foreign_keys.len() - from,
{
    if from < 0 || from >= db.foreign_keys.len() {
        done
    } else {
        let fk = db.foreign_keys[from];
        cascades(
            db,
            table,
            parent,
            from + 1,
            if fk.foreign_relation == table {
                child_deletes(db.rows(db.cur_tx, fk.relation), fk, parent, 0, done)
            } else {
                done
            },
        )
    }
}

/// The database with the changes from position `from` on recorded for the
/// transaction.
pub open spec fn record_all(db: DbModel, tx: TransactionId, changes: Seq<ChangeModel>, from: int) -> DbModel
    decreases changes.len() - from,
{
    if from < 0 || from >= changes.len() {
        db
    } else {
        record_all(db.with_change(tx, changes[from]), tx, changes, from + 1)
    }
}

/// The delete of one row: the transaction must get the update lock on the
/// row; it then records the delete of the row and of the rows that refer to
/// it.
pub open spec fn delete_row(db: DbModel, table: Seq<char>, row: RowModel) -> (
    DbModel,
    Result<(), SqlErrorModel>,
) {
    let extra = cascades(db, table, row.cells, 0, Seq::empty());
    let lock = LockModel::RowUpdate(row.rid);
    if db.blocked(db.cur_tx, lock) {
        (db, Err(SqlErrorModel::Locked(lock)))
    } else {
        (
            record_all(
                db.with_lock(db.cur_tx, lock).with_change(
                    db.cur_tx,
                    ChangeModel::Delete(table, row),
                ),
                db.cur_tx,
                extra,
                0,
            ),
            Ok(()),
        )
    }
}

/// The deletes of the rows from position `from` on that answer the
/// condition, up to the first failure; the number of rows deleted.
pub open spec fn delete_rows(
    db: DbModel,
    table: Seq<char>,
    condition: Option<Box<SqlModel>>,
    rows: Seq<RowModel>,
    from: int,
    count: int,
) -> (DbModel, Evaluated)
    decreases rows.len() - from,
{
    if from < 0 || from >= rows.len() {
        (db, Ok(ValueModel::Integer(wrap16(count))))
    } else {
        match answers_condition(condition, rows[from].cells) {
            Err(x) => (db, Err(x)),
            Ok(false) => delete_rows(db, table, condition, rows, from + 1, count),
            Ok(true) => {
                let (next, outcome) = delete_row(db, table, rows[from]);
                match outcome {
                    Err(x) => (next, Err(x)),
                    Ok(_) => delete_rows(next, table, condition, rows, from + 1, count + 1),
                }
            },
        }
    }
}

/// What a delete does to the database and what it gives.
pub open spec fn delete(db: DbModel, relation: Seq<char>, condition: Option<Box<SqlModel>>) -> (
    DbModel,
    Evaluated,
) {
    delete_rows(db, relation, condition, db.rows(db.cur_tx, relation), 0, 0)
}

/// The database with one more unique index on the table, which comes to be
/// if it was not there.
pub open spec fn create_index(db: DbModel, relation: Seq<char>, columns: Seq<Seq<char>>) -> DbModel {
    let present = ensure_table(db.tables, relation);
    match table_index(present, relation, 0) {
        Some(i) => DbModel {
            tables: present.update(
                i,
                (present[i].0, TableModel { unique: present[i].1.unique.push(columns), ..present[i].1 }),
            ),
            ..db
        },
        None => db,
    }
}

/// The database with one more foreign key.
pub open spec fn add_key(db: DbModel, fk: ForeignKeyModel) -> DbModel {
    DbModel { foreign_keys: db.foreign_keys.push(fk), ..db }
}

/// What a query expression does to the database, on behalf of the current
/// transaction, and what it gives. An expression that is no statement leaves
/// the database as it is and gives its value outside any row.
pub open spec fn interpret(db: DbModel, e: SqlModel) -> (DbModel, Evaluated) {
    match e {
        SqlModel::Select { columns, from, condition, order_by, limit, offset, locking } => select(
            db,
            columns,
            from,
            condition,
            order_by,
            limit,
            offset,
            locking,
        ),
        SqlModel::Update { relation, updates, condition } => update(db, relation, updates, condition),
        SqlModel::Delete { relation, condition } => delete(db, relation, condition),
        SqlModel::Insert { relation, columns, values } => insert(db, relation, columns, values),
        SqlModel::Create { relation, columns } => (
            create_index(db, relation, columns),
            Ok(ValueModel::Nil),
        ),
        SqlModel::Alter {
            constraint_name,
            relation,
            columns,
            reference_relation,
            reference_columns,
        } => (
            add_key(
                db,
                ForeignKeyModel {
                    relation,
                    columns,
                    foreign_relation: reference_relation,
                    foreign_columns: reference_columns,
                },
            ),
            Ok(ValueModel::Nil),
        ),
        _ => (db, eval(e, None)),
    }
}

/// The number of row identifiers that a query expression may need.
pub open spec fn rows_needed(e: SqlModel) -> nat {
    match e {
        SqlModel::Insert { values, .. } => values.len(),
        _ => 0,
    }
}

/// What running a query expression for a transaction does and gives. With a
/// transaction given, the expression acts on its behalf. With none, a
/// transaction is opened for it and committed where the expression
/// succeeds; where it fails the transaction is left open, as the current one.
pub open spec fn execute(db: DbModel, e: SqlModel, opt_tx: Option<TransactionId>) -> (
    DbModel,
    Evaluated,
) {
    let started = match opt_tx {
        Some(tx) => DbModel { cur_tx: tx, ..db },
        None => DbModel { cur_tx: db.open().tx, ..db.open() },
    };
    let (after, outcome) = interpret(started, e);
    match outcome {
        Err(x) => (after, Err(x)),
        Ok(v) => (
            if opt_tx.is_none() {
                after.commit(after.cur_tx)
            } else {
                after
            },
            Ok(v),
        ),
    }
}

/// The contents of a list of tuples, in order.
pub open spec fn tuples_view(items: Seq<Vec<Value>>) -> Seq<Seq<ValueModel>> {
    items.map_values(|t: Vec<Value>| models_of(t@))
}

/// The first of the locks that marks a pending insert of a unique tuple of
/// the row.
fn find_unique_hit(locks: &Vec<Lock>, table: &String, row: &Row) -> (r: Option<Lock>)
    ensures
        match r {
            Some(l) => unique_hit(locks_of(locks@), table@, row@.cells, 0) == Some(l@),
            None => unique_hit(locks_of(locks@), table@, row@.cells, 0).is_none(),
        },
{
    let mut i: usize = 0;
    while i < locks.len()
        invariant
            i <= locks.len(),
            unique_hit(locks_of(locks@), table@, row@.cells, 0) == unique_hit(
                locks_of(locks@),
                table@,
                row@.cells,
                i as int,
            ),
        decreases locks.len() - i,
    {
        assert(locks_of(locks@)[i as int] == locks@[i as int]@);
        match &locks[i] {
            Lock::Unique(t, index, v) => {
                if *t == *table && index.tuple_from(row).same(v) {
                    return Some(locks[i].clone());
                }
            },
            _ => {},
        }
        i += 1;
    }
    None
}

/// Whether one of the rows, other than the row's own version, has the row's
/// unique tuple under the index.
fn has_tuple(rows: &Vec<Row>, index: &UniqueIndex, row: &Row) -> (r: bool)
    ensures
        r == shares_tuple(rows_of(rows@), index@, row@),
{
    let wanted = index.tuple_from(row);
    let mut i: usize = 0;
    while i < rows.len()
        invariant
            i <= rows.len(),
            wanted@ == unique_tuple(index@, row@.cells),
            forall|k: int|
                0 <= k < i ==> !((#[trigger] rows_of(rows@)[k]).rid != row@.rid && unique_tuple(
                    index@,
                    rows_of(rows@)[k].cells,
                ) == unique_tuple(index@, row@.cells)),
        decreases rows.len() - i,
    {
        assert(rows_of(rows@)[i as int] == rows@[i as int]@);
        if rows[i].rid.0 != row.rid.0 && index.tuple_from(&rows[i]).same(&wanted) {
            return true;
        }
        i += 1;
    }
    false
}

/// The first of the rows that the row refers to under the foreign key.
fn find_parent(parents: &Vec<Row>, fk: &ForeignKey, row: &Row) -> (r: Option<RowId>)
    ensures
        match r {
            Some(rid) => parent_of(rows_of(parents@), fk@, row@.cells, 0).is_some() && parent_of(
                rows_of(parents@),
                fk@,
                row@.cells,
                0,
            ).unwrap().rid == rid,
            None => parent_of(rows_of(parents@), fk@, row@.cells, 0).is_none(),
        },
{
    let wanted = row.values_at(&fk.columns);
    let mut i: usize = 0;
    while i < parents.len()
        invariant
            i <= parents.len(),
            models_of(wanted@) == values_at(row@.cells, fk@.columns),
            parent_of(rows_of(parents@), fk@, row@.cells, 0) == parent_of(
                rows_of(parents@),
                fk@,
                row@.cells,
                i as int,
            ),
        decreases parents.len() - i,
    {
        assert(rows_of(parents@)[i as int] == parents@[i as int]@);
        let have = parents[i].values_at(&fk.foreign_columns);
        if same_members(&have, &wanted) {
            return Some(parents[i].rid);
        }
        i += 1;
    }
    None
}

/// The deletes of the rows that refer to the parent under the foreign key.
fn collect_children(children: &Vec<Row>, fk: &ForeignKey, parent: &Row, done: &mut Vec<Changes>)
    ensures
        crate::store::changes_of(final(done)@) == child_deletes(
            rows_of(children@),
            fk@,
            parent@.cells,
            0,
            crate::store::changes_of(old(done)@),
        ),
{
    let wanted = parent.values_at(&fk.foreign_columns);
    let mut i: usize = 0;
    while i < children.len()
        invariant
            i <= children.len(),
            models_of(wanted@) == values_at(parent@.cells, fk@.foreign_columns),
            child_deletes(
                rows_of(children@),
                fk@,
                parent@.cells,
                0,
                crate::store::changes_of(old(done)@),
            ) == child_deletes(
                rows_of(children@),
                fk@,
                parent@.cells,
                i as int,
                crate::store::changes_of(done@),
            ),
        decreases children.len() - i,
    {
        assert(rows_of(children@)[i as int] == children@[i as int]@);
        let have = children[i].values_at(&fk.columns);
        if same_members(&wanted, &have) {
            let ghost before = crate::store::changes_of(done@);
            let change = Changes::Delete(fk.relation.clone(), children[i].clone());
            let ghost m = change@;
            done.push(change);
            assert(crate::store::changes_of(done@) =~= before.push(m));
        }
        i += 1;
    }
}

/// The names of a list of variables as strings.
fn names(vars: &Vec<Variable>) -> (r: Vec<String>)
    ensures
        strings_of(r@) == names_of(vars@),
{
    let mut out: Vec<String> = Vec::new();
    let mut i: usize = 0;
    while i < vars.len()
        invariant
            i <= vars.len(),
            out@.len() == i,
            forall|k: int| 0 <= k < i ==> out@[k]@ == vars@[k]@,
        decreases vars.len() - i,
    {
        out.push(vars[i].name.clone());
        i += 1;
    }
    assert(strings_of(out@) =~= names_of(vars@));
    out
}

/// The row that binds the columns to the values.
fn build_row(columns: &Vec<String>, values: &Vec<Value>, rid: RowId) -> (r: Row)
    ensures
        r@ == (RowModel {
            cells: bind_all(strings_of(columns@), models_of(values@), 0, Seq::empty()),
            rid,
        }),
{
    let mut tuples: Vec<(String, Value)> = Vec::new();
    let mut i: usize = 0;
    assert(cells_of(tuples@) =~= Seq::empty());
    while i < columns.len()
        invariant
            i <= columns.len(),
            bind_all(strings_of(columns@), models_of(values@), 0, Seq::empty()) == bind_all(
                strings_of(columns@),
                models_of(values@),
                i as int,
                cells_of(tuples@),
            ),
        decreases columns.len() - i,
    {
        assert(strings_of(columns@)[i as int] == columns@[i as int]@);
        let value = if i < values.len() {
            assert(models_of(values@)[i as int] == values@[i as int]@);
            values[i].clone()
        } else {
            Value::Nil
        };
        bind_cell(&mut tuples, columns[i].clone(), value);
        i += 1;
    }
    Row { tuples, rid }
}

/// The tuples that the expressions stand for.
fn tuples_from(exprs: &Vec<SqlExpression>) -> (r: Result<Vec<Vec<Value>>, SqlEngineError>)
    ensures
        match r {
            Ok(tuples) => tuples_of(sql_children(*exprs), 0, Seq::empty()) == Ok::<
                Seq<Seq<ValueModel>>,
                SqlErrorModel,
            >(tuples_view(tuples@)) && tuples@.len() == exprs@.len(),
            Err(x) => tuples_of(sql_children(*exprs), 0, Seq::empty()) == Err::<
                Seq<Seq<ValueModel>>,
                SqlErrorModel,
            >(x@),
        },
{
    proof {
        lemma_sql_children(*exprs);
    }
    let mut out: Vec<Vec<Value>> = Vec::new();
    let mut i: usize = 0;
    assert(tuples_view(out@) =~= Seq::empty());
    while i < exprs.len()
        invariant
            i <= exprs.len(),
            out@.len() == i,
            sql_children(*exprs) == sql_models_of(exprs@),
            tuples_of(sql_children(*exprs), 0, Seq::empty()) == tuples_of(
                sql_children(*exprs),
                i as int,
                tuples_view(out@),
            ),
        decreases exprs.len() - i,
    {
        assert(sql_models_of(exprs@)[i as int] == exprs@[i as int]@);
        match evaluate(&exprs[i], None) {
            Err(x) => {
                return Err(x);
            },
            Ok(v) => match v.as_tuple() {
                Some(items) => {
                    let ghost before = tuples_view(out@);
                    let copy = clone_members(items);
                    out.push(copy);
                    assert(tuples_view(out@) =~= before.push(models_of(items@)));
                },
                None => {
                    return Err(
                        SqlEngineError::SqlTypeError(exprs[i].clone(), String::from_str("tuple")),
                    );
                },
            },
        }
        i += 1;
    }
    Ok(out)
}

impl SqlDatabase {
    /// Whether the row may enter the table, as far as unique indexes go.
    pub fn check_unique_values(&self, tx: &TransactionId, table: &String, row: &Row) -> (r: Result<
        (),
        SqlEngineError,
    >)
        ensures
            match r {
                Ok(_) => check_unique(self@, *tx, table@, row@).is_ok(),
                Err(x) => check_unique(self@, *tx, table@, row@) == Err::<(), SqlErrorModel>(x@),
            },
    {
        let mut i: usize = 0;
        while i < self.transactions.len()
            invariant
                i <= self.transactions.len(),
                unique_blocker(self@.transactions, *tx, table@, row@.cells, 0) == unique_blocker(
                    self@.transactions,
                    *tx,
                    table@,
                    row@.cells,
                    i as int,
                ),
            decreases self.transactions.len() - i,
        {
            assert(self@.transactions[i as int] == (
                self.transactions@[i as int].0,
                self.transactions@[i as int].1@,
            ));
            if self.transactions[i].0.0 != tx.0 {
                match find_unique_hit(&self.transactions[i].1.locks, table, row) {
                    Some(lock) => {
                        return Err(SqlEngineError::Locked(lock));
                    },
                    None => {},
                }
            }
            i += 1;
        }
        match self.find_table(table) {
            None => {
                assert(!shares_unique(self@.table(table@).rows, self@.table(table@).unique, row@));
                Ok(())
            },
            Some(t) => {
                assert(self@.tables[t as int].1 == self.tables@[t as int].1@);
                let entry = &self.tables[t].1;
                let mut u: usize = 0;
                while u < entry.unique.len()
                    invariant
                        u <= entry.unique.len(),
                        entry@ == self@.table(table@),
                        unique_blocker(self@.transactions, *tx, table@, row@.cells, 0).is_none(),
                        forall|k: int|
                            0 <= k < u ==> !shares_tuple(
                                entry@.rows,
                                #[trigger] entry@.unique[k],
                                row@,
                            ),
                    decreases entry.unique.len() - u,
                {
                    assert(entry@.unique[u as int] == entry.unique@[u as int]@);
                    if has_tuple(&entry.rows, &entry.unique[u], row) {
                        assert(shares_tuple(entry@.rows, entry@.unique[u as int], row@));
                        return Err(SqlEngineError::UnicityViolation);
                    }
                    u += 1;
                }
                Ok(())
            },
        }
    }

    /// Holds the foreign keys of the table against the row.
    fn check_foreign_keys(&mut self, table: &String, row: &Row) -> (r: Result<(), SqlEngineError>)
        ensures
            match r {
                Ok(_) => check_keys(old(self)@, table@, row@.cells, 0) == (
                    final(self)@,
                    Ok::<(), SqlErrorModel>(()),
                ),
                Err(x) => check_keys(old(self)@, table@, row@.cells, 0) == (
                    final(self)@,
                    Err::<(), SqlErrorModel>(x@),
                ),
            },
            keeps_open(old(self)@, final(self)@),
            final(self)@.rid == old(self)@.rid,
            final(self)@.tables == old(self)@.tables,
            final(self)@.foreign_keys == old(self)@.foreign_keys,
    {
        let mut i: usize = 0;
        while i < self.foreign_keys.len()
            invariant
                i <= self.foreign_keys.len(),
                check_keys(old(self)@, table@, row@.cells, 0) == check_keys(
                    self@,
                    table@,
                    row@.cells,
                    i as int,
                ),
                keeps_open(old(self)@, self@),
                self@.rid == old(self)@.rid,
                self@.tables == old(self)@.tables,
                self@.foreign_keys == old(self)@.foreign_keys,
            decreases self.foreign_keys.len() - i,
        {
            assert(self@.foreign_keys[i as int] == self.foreign_keys@[i as int]@);
            if self.foreign_keys[i].relation == *table {
                let fk = self.foreign_keys[i].clone();
                let tx = self.cur_tx;
                let parents = self.rows(&tx, &fk.foreign_relation);
                match find_parent(&parents, &fk, row) {
                    None => {
                        return Err(SqlEngineError::ForeignKeyViolation);
                    },
                    Some(rid) => {
                        let ghost before = self@;
                        match self.request(tx, Lock::RowForKeyShare(rid)) {
                            Ok(_) => {
                                proof {
                                    lemma_with_keeps(
                                        before,
                                        tx,
                                        LockModel::RowForKeyShare(rid),
                                        ChangeModel::Delete(table@, row@),
                                    );
                                }
                            },
                            Err(lock) => {
                                return Err(SqlEngineError::Locked(lock));
                            },
                        }
                    },
                }
            }
            i += 1;
        }
        Ok(())
    }

    /// Locks the unique tuples of the row under the indexes of the table.
    fn lock_unique(&mut self, table: &String, row: &Row)
        ensures
            final(self)@ == with_unique_locks(
                old(self)@,
                old(self)@.cur_tx,
                table@,
                old(self)@.table(table@).unique,
                row@.cells,
                0,
            ),
            keeps_open(old(self)@, final(self)@),
            final(self)@.rid == old(self)@.rid,
            final(self)@.tables == old(self)@.tables,
            final(self)@.foreign_keys == old(self)@.foreign_keys,
    {
        let indexes: Vec<UniqueIndex> = match self.find_table(table) {
            Some(t) => {
                assert(self@.tables[t as int].1 == self.tables@[t as int].1@);
                clone_indexes(&self.tables[t].1.unique)
            },
            None => {
                let empty: Vec<UniqueIndex> = Vec::new();
                assert(indexes_of(empty@) =~= Seq::empty());
                empty
            },
        };
        let tx = self.cur_tx;
        let mut i: usize = 0;
        while i < indexes.len()
            invariant
                i <= indexes.len(),
                tx == old(self)@.cur_tx,
                indexes_of(indexes@) == old(self)@.table(table@).unique,
                with_unique_locks(
                    old(self)@,
                    tx,
                    table@,
                    indexes_of(indexes@),
                    row@.cells,
                    0,
                ) == with_unique_locks(self@, tx, table@, indexes_of(indexes@), row@.cells, i as int),
                keeps_open(old(self)@, self@),
                self@.rid == old(self)@.rid,
                self@.tables == old(self)@.tables,
                self@.foreign_keys == old(self)@.foreign_keys,
            decreases indexes.len() - i,
        {
            assert(indexes_of(indexes@)[i as int] == indexes@[i as int]@);
            let lock = Lock::Unique(table.clone(), indexes[i].clone(), indexes[i].tuple_from(row));
            proof {
                lemma_with_keeps(self@, tx, lock@, ChangeModel::Delete(table@, row@));
            }
            self.hold(tx, lock);
            i += 1;
        }
    }

    /// Sets the column order of the table where it has none.
    fn seed(&mut self, table: &String, columns: &Vec<String>)
        ensures
            final(self)@ == (DbModel {
                tables: seed_columns(
                    ensure_table(old(self)@.tables, table@),
                    table@,
                    strings_of(columns@),
                ),
                ..old(self)@
            }),
    {
        let t = self.table_entry(table);
        assert(self@.tables[t as int].1 == self.tables@[t as int].1@);
        if self.tables[t].1.columns.len() == 0 {
            let ghost before = self@.tables;
            self.tables[t].1.columns = crate::store::clone_strings(columns);
            proof {
                assert(before[t as int].1.columns.len() == 0);
                assert(self@.tables =~= seed_columns(before, table@, strings_of(columns@)));
            }
        } else {
            assert(self@.tables[t as int].1.columns.len() != 0);
        }
    }

    /// Inserts one row on behalf of the current transaction.
    fn insert_one(&mut self, table: &String, columns: &Vec<String>, values: &Vec<Value>) -> (r:
        Result<(), SqlEngineError>)
        requires
            old(self)@.rid.0 < usize::MAX,
        ensures
            match r {
                Ok(_) => insert_row(old(self)@, table@, strings_of(columns@), models_of(values@))
                    == (final(self)@, Ok::<(), SqlErrorModel>(())),
                Err(x) => insert_row(old(self)@, table@, strings_of(columns@), models_of(values@))
                    == (final(self)@, Err::<(), SqlErrorModel>(x@)),
            },
            keeps_open(old(self)@, final(self)@),
            final(self)@.rid.0 == old(self)@.rid.0 + 1,
    {
        let rid = self.rid.increment();
        let row = build_row(columns, values, rid);
        let tx = self.cur_tx;
        match self.check_unique_values(&tx, table, &row) {
            Err(x) => Err(x),
            Ok(_) => match self.check_foreign_keys(table, &row) {
                Err(x) => Err(x),
                Ok(_) => {
                    self.seed(table, columns);
                    self.lock_unique(table, &row);
                    let change = Changes::Insert(table.clone(), row);
                    proof {
                        lemma_with_keeps(self@, tx, LockModel::RowUpdate(rid), change@);
                    }
                    self.record(tx, change);
                    Ok(())
                },
            },
        }
    }

    /// Runs an insert on behalf of the current transaction.
    pub fn interpret_insert(
        &mut self,
        relation: &Variable,
        columns: &Vec<Variable>,
        exprs: &Vec<SqlExpression>,
    ) -> (r: Result<Value, SqlEngineError>)
        requires
            old(self)@.rid.0 + exprs@.len() <= usize::MAX,
        ensures
            (final(self)@, evaluated_of(r)) == insert(
                old(self)@,
                relation@,
                names_of(columns@),
                sql_children(*exprs),
            ),
            keeps_open(old(self)@, final(self)@),
    {
        match tuples_from(exprs) {
            Err(x) => Err(x),
            Ok(tuples) => {
                let column_names = names(columns);
                let mut i: usize = 0;
                while i < tuples.len()
                    invariant
                        i <= tuples.len(),
                        tuples@.len() == exprs@.len(),
                        tuples_of(sql_children(*exprs), 0, Seq::empty()) == Ok::<
                            Seq<Seq<ValueModel>>,
                            SqlErrorModel,
                        >(tuples_view(tuples@)),
                        self@.rid.0 + (tuples@.len() - i) <= usize::MAX,
                        strings_of(column_names@) == names_of(columns@),
                        keeps_open(old(self)@, self@),
                        insert_rows(
                            old(self)@,
                            relation@,
                            names_of(columns@),
                            tuples_view(tuples@),
                            0,
                        ) == insert_rows(
                            self@,
                            relation@,
                            names_of(columns@),
                            tuples_view(tuples@),
                            i as int,
                        ),
                    decreases tuples.len() - i,
                {
                    assert(tuples_view(tuples@)[i as int] == models_of(tuples@[i as int]@));
                    match self.insert_one(&relation.name, &column_names, &tuples[i]) {
                        Err(x) => {
                            return Err(x);
                        },
                        Ok(_) => {},
                    }
                    i += 1;
                }
                Ok(Value::Nil)
            },
        }
    }

    /// The cells of the row after the assignments.
    fn assign(row: &Row, updates: &Vec<SqlExpression>) -> (r: Result<Row, SqlEngineError>)
        ensures
            match r {
                Ok(version) => assigned(row@.cells, sql_children(*updates), 0, row@.cells) == Ok::<
                    Cells,
                    SqlErrorModel,
                >(version@.cells) && version@.rid == row@.rid,
                Err(x) => assigned(row@.cells, sql_children(*updates), 0, row@.cells) == Err::<
                    Cells,
                    SqlErrorModel,
                >(x@),
            },
    {
        proof {
            lemma_sql_children(*updates);
        }
        let mut version = row.clone();
        let mut i: usize = 0;
        while i < updates.len()
            invariant
                i <= updates.len(),
                version@.rid == row@.rid,
                sql_children(*updates) == sql_models_of(updates@),
                assigned(row@.cells, sql_children(*updates), 0, row@.cells) == assigned(
                    row@.cells,
                    sql_children(*updates),
                    i as int,
                    version@.cells,
                ),
            decreases updates.len() - i,
        {
            assert(sql_models_of(updates@)[i as int] == updates@[i as int]@);
            match &updates[i] {
                SqlExpression::Assignment(name, e) => match evaluate(&**e, Some(row)) {
                    Ok(v) => {
                        bind_cell(&mut version.tuples, name.name.clone(), v);
                    },
                    Err(x) => {
                        return Err(x);
                    },
                },
                other => {
                    return Err(
                        SqlEngineError::SqlTypeError(other.clone(), String::from_str("assignment")),
                    );
                },
            }
            i += 1;
        }
        Ok(version)
    }

    /// Updates one row on behalf of the current transaction.
    pub fn updates(&mut self, updates: &Vec<SqlExpression>, table: &String, row: &Row) -> (r:
        Result<(), SqlEngineError>)
        ensures
            match r {
                Ok(_) => update_row(old(self)@, table@, sql_children(*updates), row@) == (
                    final(self)@,
                    Ok::<(), SqlErrorModel>(()),
                ),
                Err(x) => update_row(old(self)@, table@, sql_children(*updates), row@) == (
                    final(self)@,
                    Err::<(), SqlErrorModel>(x@),
                ),
            },
            keeps_open(old(self)@, final(self)@),
            final(self)@.rid == old(self)@.rid,
    {
        match Self::assign(row, updates) {
            Err(x) => Err(x),
            Ok(version) => {
                let tx = self.cur_tx;
                match self.check_unique_values(&tx, table, &version) {
                    Err(x) => Err(x),
                    Ok(_) => match self.check_foreign_keys(table, &version) {
                        Err(x) => Err(x),
                        Ok(_) => {
                            let lock = Lock::RowUpdate(row.rid);
                            if self.is_locked(tx, &lock) {
                                return Err(SqlEngineError::Locked(lock));
                            }
                            self.lock_unique(table, &version);
                            let gone = Changes::Delete(table.clone(), row.clone());
                            let come = Changes::Insert(table.clone(), version);
                            proof {
                                lemma_with_keeps(self@, tx, lock@, gone@);
                                lemma_with_keeps(self@.with_lock(tx, lock@), tx, lock@, gone@);
                                lemma_with_keeps(
                                    self@.with_lock(tx, lock@).with_change(tx, gone@),
                                    tx,
                                    lock@,
                                    come@,
                                );
                            }
                            self.hold(tx, lock);
                            self.record(tx, gone);
                            self.record(tx, come);
                            Ok(())
                        },
                    },
                }
            },
        }
    }

    /// Runs an update on behalf of the current transaction.
    pub fn interpret_update(
        &mut self,
        relation: &Variable,
        updates: &Vec<SqlExpression>,
        condition: &Option<Box<SqlExpression>>,
    ) -> (r: Result<Value, SqlEngineError>)
        ensures
            (final(self)@, evaluated_of(r)) == update(
                old(self)@,
                relation@,
                sql_children(*updates),
                sql_opt_model_of(*condition),
            ),
            keeps_open(old(self)@, final(self)@),
            final(self)@.rid == old(self)@.rid,
    {
        let tx = self.cur_tx;
        let rows = self.rows(&tx, &relation.name);
        let mut count: usize = 0;
        let mut i: usize = 0;
        while i < rows.len()
            invariant
                i <= rows.len(),
                count <= i,
                rows_of(rows@) == old(self)@.rows(old(self)@.cur_tx, relation@),
                keeps_open(old(self)@, self@),
                self@.rid == old(self)@.rid,
                update_rows(
                    old(self)@,
                    relation@,
                    sql_children(*updates),
                    sql_opt_model_of(*condition),
                    rows_of(rows@),
                    0,
                    0,
                ) == update_rows(
                    self@,
                    relation@,
                    sql_children(*updates),
                    sql_opt_model_of(*condition),
                    rows_of(rows@),
                    i as int,
                    count as int,
                ),
            decreases rows.len() - i,
        {
            assert(rows_of(rows@)[i as int] == rows@[i as int]@);
            match row_answers(condition, &rows[i]) {
                Err(x) => {
                    return Err(x);
                },
                Ok(false) => {},
                Ok(true) => {
                    match self.updates(updates, &relation.name, &rows[i]) {
                        Err(x) => {
                            return Err(x);
                        },
                        Ok(_) => {
                            count += 1;
                        },
                    }
                },
            }
            i += 1;
        }
        Ok(Value::Integer(count16(count)))
    }

    /// The deletes that the delete of the row brings with it.
    fn collect_cascades(&self, table: &String, row: &Row) -> (r: Vec<Changes>)
        ensures
            crate::store::changes_of(r@) == cascades(self@, table@, row@.cells, 0, Seq::empty()),
    {
        let mut done: Vec<Changes> = Vec::new();
        let mut i: usize = 0;
        assert(crate::store::changes_of(done@) =~= Seq::empty());
        while i < self.foreign_keys.len()
            invariant
                i <= self.foreign_keys.len(),
                cascades(self@, table@, row@.cells, 0, Seq::empty()) == cascades(
                    self@,
                    table@,
                    row@.cells,
                    i as int,
                    crate::store::changes_of(done@),
                ),
            decreases self.foreign_keys.len() - i,
        {
            assert(self@.foreign_keys[i as int] == self.foreign_keys@[i as int]@);
            if self.foreign_keys[i].foreign_relation == *table {
                let tx = self.cur_tx;
                let children = self.rows(&tx, &self.foreign_keys[i].relation);
                collect_children(&children, &self.foreign_keys[i], row, &mut done);
            }
            i += 1;
        }
        done
    }

    /// Records the changes for the transaction, in order.
    fn record_changes(&mut self, tx: TransactionId, changes: Vec<Changes>)
        ensures
            final(self)@ == record_all(old(self)@, tx, crate::store::changes_of(changes@), 0),
            keeps_open(old(self)@, final(self)@),
            final(self)@.rid == old(self)@.rid,
    {
        let mut i: usize = 0;
        while i < changes.len()
            invariant
                i <= changes.len(),
                keeps_open(old(self)@, self@),
                self@.rid == old(self)@.rid,
                record_all(old(self)@, tx, crate::store::changes_of(changes@), 0) == record_all(
                    self@,
                    tx,
                    crate::store::changes_of(changes@),
                    i as int,
                ),
            decreases changes.len() - i,
        {
            assert(crate::store::changes_of(changes@)[i as int] == changes@[i as int]@);
            let change = changes[i].clone();
            proof {
                lemma_with_keeps(self@, tx, LockModel::RowUpdate(RowId(0)), change@);
            }
            self.record(tx, change);
            i += 1;
        }
    }

    /// Deletes one row on behalf of the current transaction.
    fn delete_one(&mut self, table: &String, row: &Row) -> (r: Result<(), SqlEngineError>)
        ensures
            match r {
                Ok(_) => delete_row(old(self)@, table@, row@) == (
                    final(self)@,
                    Ok::<(), SqlErrorModel>(()),
                ),
                Err(x) => delete_row(old(self)@, table@, row@) == (
                    final(self)@,
                    Err::<(), SqlErrorModel>(x@),
                ),
            },
            keeps_open(old(self)@, final(self)@),
            final(self)@.rid == old(self)@.rid,
    {
        let extra = self.collect_cascades(table, row);
        let tx = self.cur_tx;
        let lock = Lock::RowUpdate(row.rid);
        if self.is_locked(tx, &lock) {
            return Err(SqlEngineError::Locked(lock));
        }
        let gone = Changes::Delete(table.clone(), row.clone());
        proof {
            lemma_with_keeps(self@, tx, lock@, gone@);
            lemma_with_keeps(self@.with_lock(tx, lock@), tx, lock@, gone@);
        }
        self.hold(tx, lock);
        self.record(tx, gone);
        self.record_changes(tx, extra);
        Ok(())
    }

    /// Runs a delete on behalf of the current transaction.
    pub fn interpret_delete(
        &mut self,
        relation: &Variable,
        condition: &Option<Box<SqlExpression>>,
    ) -> (r: Result<Value, SqlEngineError>)
        ensures
            (final(self)@, evaluated_of(r)) == delete(
                old(self)@,
                relation@,
                sql_opt_model_of(*condition),
            ),
            keeps_open(old(self)@, final(self)@),
            final(self)@.rid == old(self)@.rid,
    {
        let tx = self.cur_tx;
        let rows = self.rows(&tx, &relation.name);
        let mut count: usize = 0;
        let mut i: usize = 0;
        while i < rows.len()
            invariant
                i <= rows.len(),
                count <= i,
                rows_of(rows@) == old(self)@.rows(old(self)@.cur_tx, relation@),
                keeps_open(old(self)@, self@),
                self@.rid == old(self)@.rid,
                delete_rows(
                    old(self)@,
                    relation@,
                    sql_opt_model_of(*condition),
                    rows_of(rows@),
                    0,
                    0,
                ) == delete_rows(
                    self@,
                    relation@,
                    sql_opt_model_of(*condition),
                    rows_of(rows@),
                    i as int,
                    count as int,
                ),
            decreases rows.len() - i,
        {
            assert(rows_of(rows@)[i as int] == rows@[i as int]@);
            match row_answers(condition, &rows[i]) {
                Err(x) => {
                    return Err(x);
                },
                Ok(false) => {},
                Ok(true) => {
                    match self.delete_one(&relation.name, &rows[i]) {
                        Err(x) => {
                            return Err(x);
                        },
                        Ok(_) => {
                            count += 1;
                        },
                    }
                },
            }
            i += 1;
        }
        Ok(Value::Integer(count16(count)))
    }

    /// Declares a unique index on the table.
    pub fn create_unique_index(&mut self, relation: &Variable, columns: &Vec<Variable>)
        ensures
            final(self)@ == create_index(old(self)@, relation@, names_of(columns@)),
            keeps_open(old(self)@, final(self)@),
            final(self)@.rid == old(self)@.rid,
    {
        let t = self.table_entry(&relation.name);
        let ghost present = self@.tables;
        let index = UniqueIndex { columns: names(columns) };
        self.tables[t].1.unique.push(index);
        proof {
            assert(self@.tables[t as int].1.unique =~= present[t as int].1.unique.push(
                names_of(columns@),
            ));
            assert(self@.tables =~= create_index(old(self)@, relation@, names_of(columns@)).tables);
        }
    }

    /// Declares a foreign key.
    pub fn add_foreign_key(
        &mut self,
        relation: &Variable,
        columns: &Vec<Variable>,
        reference_relation: &Variable,
        reference_columns: &Vec<Variable>,
    )
        ensures
            final(self)@ == add_key(
                old(self)@,
                ForeignKeyModel {
                    relation: relation@,
                    columns: names_of(columns@),
                    foreign_relation: reference_relation@,
                    foreign_columns: names_of(reference_columns@),
                },
            ),
            keeps_open(old(self)@, final(self)@),
            final(self)@.rid == old(self)@.rid,
    {
        let ghost before = self@.foreign_keys;
        let fk = ForeignKey {
            relation: relation.name.clone(),
            columns: names(columns),
            foreign_relation: reference_relation.name.clone(),
            foreign_columns: names(reference_columns),
        };
        let ghost m = fk@;
        self.foreign_keys.push(fk);
        assert(self@.foreign_keys =~= before.push(m));
    }

    /// Runs a query expression on behalf of the current transaction.
    pub fn interpret(&mut self, expr: &SqlExpression) -> (r: Result<Value, SqlEngineError>)
        requires
            old(self)@.rid.0 + rows_needed(expr@) <= usize::MAX,
        ensures
            (final(self)@, evaluated_of(r)) == interpret(old(self)@, expr@),
            keeps_open(old(self)@, final(self)@),
            crate::integrity::sound(old(self)@) ==> crate::integrity::sound(final(self)@),
    {
        proof {
            if crate::integrity::sound(self@) {
                crate::integrity_statements::lemma_interpret_sound(self@, expr@);
            }
        }
        match expr {
            SqlExpression::Select { columns, from, condition, order_by, limit, offset, locking } => {
                let r = self.interpret_select(
                    columns,
                    from,
                    condition,
                    order_by,
                    *limit,
                    *offset,
                    *locking,
                );
                r
            },
            SqlExpression::Update { relation, updates, condition } => self.interpret_update(
                relation,
                updates,
                condition,
            ),
            SqlExpression::Delete { relation, condition } => self.interpret_delete(
                relation,
                condition,
            ),
            SqlExpression::Insert { relation, columns, values } => {
                proof {
                    lemma_sql_children(*values);
                }
                self.interpret_insert(relation, columns, values)
            },
            SqlExpression::Create { relation, columns } => {
                self.create_unique_index(relation, columns);
                Ok(Value::Nil)
            },
            SqlExpression::Alter {
                constraint_name,
                relation,
                columns,
                reference_relation,
                reference_columns,
            } => {
                self.add_foreign_key(relation, columns, reference_relation, reference_columns);
                Ok(Value::Nil)
            },
            _ => evaluate(expr, None),
        }
    }

    /// Whether the database has the identifiers left that running the
    /// expression may need.
    pub fn has_room(&self, expr: &SqlExpression, opt_tx: Option<TransactionId>) -> (r: bool)
        ensures
            r == ((opt_tx.is_none() ==> self@.tx.0 < usize::MAX) && self@.rid.0 + rows_needed(
                expr@,
            ) <= usize::MAX),
    {
        let needed: usize = match expr {
            SqlExpression::Insert { values, .. } => {
                proof {
                    lemma_sql_children(*values);
                }
                values.len()
            },
            _ => 0,
        };
        (opt_tx.is_some() || self.tx.0 < usize::MAX) && needed <= usize::MAX - self.rid.0
    }

    /// Runs a query expression for a transaction, which must be open, or in
    /// a transaction of its own where none is given: opened for it, and
    /// committed if it succeeds.
    pub fn execute(&mut self, expr: &SqlExpression, opt_tx: Option<TransactionId>) -> (r: Result<
        Value,
        SqlEngineError,
    >)
        requires
            opt_tx.is_some() ==> old(self)@.has_tx(opt_tx.unwrap()),
            opt_tx.is_none() ==> old(self)@.tx.0 < usize::MAX,
            old(self)@.rid.0 + rows_needed(expr@) <= usize::MAX,
        ensures
            (final(self)@, evaluated_of(r)) == execute(old(self)@, expr@, opt_tx),
            crate::integrity::sound(old(self)@) ==> crate::integrity::sound(final(self)@),
            old(self)@.wf() ==> final(self)@.wf(),
            opt_tx.is_some() ==> final(self)@.tx == old(self)@.tx && tx_ids(
                final(self)@.transactions,
            ) == tx_ids(old(self)@.transactions),
            opt_tx.is_none() ==> final(self)@.tx.0 == old(self)@.tx.0 + 1,
            opt_tx.is_none() && r.is_ok() && old(self)@.wf() ==> tx_ids(final(self)@.transactions)
                == tx_ids(old(self)@.transactions),
            opt_tx.is_none() && r.is_err() ==> final(self)@.cur_tx == final(self)@.tx && tx_ids(
                final(self)@.transactions,
            ) == tx_ids(old(self)@.transactions).push(final(self)@.cur_tx),
    {
        let ghost begun = old(self)@;
        proof {
            if crate::integrity::sound(self@) {
                crate::integrity_statements::lemma_execute_sound(self@, expr@, opt_tx);
            }
        }
        match opt_tx {
            Some(tx) => {
                self.cur_tx = tx;
            },
            None => {
                let id = self.open_transaction(IsolationLevel::ReadCommitted);
                self.cur_tx = id;
            },
        }
        let ghost started = self@;
        proof {
            if opt_tx.is_none() {
                assert(tx_ids(started.transactions) =~= tx_ids(begun.transactions).push(
                    started.cur_tx,
                ));
            } else {
                assert(tx_ids(started.transactions) =~= tx_ids(begun.transactions));
            }
            if begun.wf() {
                if opt_tx.is_none() {
                    assert(started.wf());
                } else {
                    lemma_keeps_wf(begun, DbModel { cur_tx: begun.cur_tx, ..started });
                }
            }
        }
        match self.interpret(expr) {
            Err(x) => {
                proof {
                    if begun.wf() {
                        lemma_keeps_wf(started, self@);
                    }
                }
                Err(x)
            },
            Ok(v) => {
                proof {
                    if begun.wf() {
                        lemma_keeps_wf(started, self@);
                    }
                }
                if opt_tx.is_none() {
                    let tx = self.cur_tx;
                    let ghost after = self@;
                    self.commit(&tx);
                    proof {
                        if begun.wf() {
                            lemma_tx_index_ids(after.transactions, started.transactions, tx, 0);
                            lemma_tx_index(started.transactions, tx, 0);
                            let last = begun.transactions.len() as int;
                            assert(started.transactions[last].0 == tx);
                            assert(tx_index(started.transactions, tx, 0) == Some(last)) by {
                                match tx_index(started.transactions, tx, 0) {
                                    Some(found) => {
                                        if found < last {
                                            assert(started.transactions[found]
                                                == begun.transactions[found]);
                                            assert(begun.transactions[found].0.0 <= begun.tx.0);
                                        }
                                    },
                                    None => {},
                                }
                            }
                            assert(tx_ids(self@.transactions) =~= tx_ids(begun.transactions)) by {
                                assert(after.transactions.len() == tx_ids(
                                    after.transactions,
                                ).len());
                                assert forall|k: int| 0 <= k < last implies tx_ids(
                                    self@.transactions,
                                )[k] == tx_ids(begun.transactions)[k] by {
                                    assert(tx_ids(after.transactions)[k] == tx_ids(
                                        started.transactions,
                                    )[k]);
                                }
                            }
                        }
                    }
                }
                Ok(v)
            },
        }
    }
}

} // verus!
