//! Every statement keeps a sound database sound.

use crate::ast::SqlModel;
use crate::integrity::{
    lemma_sound_commit, lemma_sound_open, distinct_rids, distinct_rows, free, holds_update, inserts, lemma_can_commit_more, lemma_ensure_table_rows,
    lemma_index_after_update, lemma_only_locks, lemma_only_locks_twice, lemma_places_after,
    lemma_sound_delete, lemma_sound_frame, lemma_sound_insert, lemma_sound_next_rid,
    lemma_sound_same_rows, lemma_visible_places, lemma_with_change, lemma_with_lock_only,
    occupied, only_locks, places_of, rid_in, single, sound, table_rows, unused, guarded,
};
use crate::sql_eval::{Evaluated, SqlErrorModel};
use crate::sql_interpreter::{
    ensure_table, lemma_table_index, lemma_tx_index, table_index, tx_index, DbModel,
};
use crate::sql_select::{scan, select};
use crate::sql_write::{
    add_key, assigned, cascades, check_keys, check_unique, child_deletes, create_index, delete,
    delete_row, delete_rows, execute, insert, insert_row, insert_rows, interpret, record_all,
    rows_needed, seed_columns, tuples_of, update, update_row, update_rows, with_unique_locks,
};
use crate::store::{
    Cells, ChangeModel, LockModel, RowId, RowModel, TableModel, TransactionId,
};
use crate::value::ValueModel;
use vstd::prelude::*;

verus! {

/// The scan of a select does nothing but take locks for the transaction
/// that the database acts for.
pub proof fn lemma_scan_locks(
    db: DbModel,
    rows: Seq<RowModel>,
    condition: Option<Box<SqlModel>>,
    locking: bool,
    from: int,
    kept: Seq<RowModel>,
)
    ensures
        only_locks(db, scan(db, rows, condition, locking, from, kept).0, db.cur_tx),
    decreases rows.len() - from,
{
    lemma_with_lock_only(db, db.cur_tx, LockModel::RowUpdate(RowId(0)));
    if 0 <= from < rows.len() {
        let row = rows[from];
        let lock = LockModel::RowUpdate(row.rid);
        if locking && db.blocked(db.cur_tx, lock) {
            lemma_same(db);
        } else {
            let locked = if locking {
                db.with_lock(db.cur_tx, lock)
            } else {
                db
            };
            lemma_with_lock_only(db, db.cur_tx, lock);
            lemma_same(db);
            match crate::sql_select::answers_condition(condition, row.cells) {
                Err(_) => {},
                Ok(keep) => {
                    let more = if keep {
                        kept.push(row)
                    } else {
                        kept
                    };
                    lemma_scan_locks(locked, rows, condition, locking, from + 1, more);
                    lemma_only_locks_twice(
                        db,
                        locked,
                        scan(locked, rows, condition, locking, from + 1, more).0,
                        db.cur_tx,
                    );
                },
            }
        }
    } else {
        lemma_same(db);
    }
}

/// A database is itself but for no locks.
pub proof fn lemma_same(db: DbModel)
    ensures
        forall|tx: TransactionId| #[trigger] only_locks(db, db, tx),
{
}

/// Holding the foreign keys of a table against a row does nothing but take
/// locks for the transaction that the database acts for.
pub proof fn lemma_check_keys_locks(db: DbModel, table: Seq<char>, cells: Cells, from: int)
    ensures
        only_locks(db, check_keys(db, table, cells, from).0, db.cur_tx),
    decreases db.foreign_keys.len() - from,
{
    lemma_same(db);
    if 0 <= from < db.foreign_keys.len() {
        let fk = db.foreign_keys[from];
        if fk.relation != table {
            lemma_check_keys_locks(db, table, cells, from + 1);
        } else {
            match crate::sql_write::parent_of(
                db.rows(db.cur_tx, fk.foreign_relation),
                fk,
                cells,
                0,
            ) {
                None => {},
                Some(parent) => {
                    let lock = LockModel::RowForKeyShare(parent.rid);
                    if !db.blocked(db.cur_tx, lock) {
                        let locked = db.with_lock(db.cur_tx, lock);
                        lemma_with_lock_only(db, db.cur_tx, lock);
                        lemma_check_keys_locks(locked, table, cells, from + 1);
                        lemma_only_locks_twice(
                            db,
                            locked,
                            check_keys(locked, table, cells, from + 1).0,
                            db.cur_tx,
                        );
                    }
                },
            }
        }
    }
}

/// Locking the unique tuples of a row does nothing but take locks.
pub proof fn lemma_unique_locks(
    db: DbModel,
    tx: TransactionId,
    table: Seq<char>,
    indexes: Seq<Seq<Seq<char>>>,
    cells: Cells,
    from: int,
)
    ensures
        only_locks(db, with_unique_locks(db, tx, table, indexes, cells, from), tx),
    decreases indexes.len() - from,
{
    lemma_same(db);
    if 0 <= from < indexes.len() {
        let lock = LockModel::Unique(
            table,
            indexes[from],
            crate::store::unique_tuple(indexes[from], cells),
        );
        let locked = db.with_lock(tx, lock);
        lemma_with_lock_only(db, tx, lock);
        lemma_unique_locks(locked, tx, table, indexes, cells, from + 1);
        lemma_only_locks_twice(
            db,
            locked,
            with_unique_locks(locked, tx, table, indexes, cells, from + 1),
            tx,
        );
    }
}

/// A select keeps a sound database sound: it does nothing but take locks.
pub proof fn lemma_select_sound(
    db: DbModel,
    columns: Seq<crate::ast::SelectItemModel>,
    from: Seq<char>,
    condition: Option<Box<SqlModel>>,
    order_by: Option<Box<SqlModel>>,
    limit: Option<int>,
    offset: Option<int>,
    locking: bool,
)
    ensures
        only_locks(
            db,
            select(db, columns, from, condition, order_by, limit, offset, locking).0,
            db.cur_tx,
        ),
        sound(db) ==> sound(
            select(db, columns, from, condition, order_by, limit, offset, locking).0,
        ),
{
    lemma_scan_locks(db, db.rows(db.cur_tx, from), condition, locking, 0, Seq::empty());
    lemma_only_locks(
        db,
        select(db, columns, from, condition, order_by, limit, offset, locking).0,
        db.cur_tx,
    );
}

/// Where locks were taken, an identifier that nothing had is one that
/// nothing has.
pub proof fn lemma_unused_kept(before: DbModel, after: DbModel, tx: TransactionId, r: RowId)
    requires
        only_locks(before, after, tx),
        unused(before, r),
    ensures
        unused(after, r),
{
    assert forall|i: int| 0 <= i < after.transactions.len() implies !inserts(
        (#[trigger] after.transactions[i]).1.changes,
        r,
        0,
    ) by {
        assert(after.transactions[i].1.changes == before.transactions[i].1.changes);
    }
}

/// Setting the column order of a table, which comes to be if it was not
/// there, changes no rows.
pub proof fn lemma_seed_rows(
    tables: crate::sql_interpreter::TableEntries,
    table: Seq<char>,
    columns: Seq<Seq<char>>,
    name: Seq<char>,
)
    ensures
        table_rows(seed_columns(ensure_table(tables, table), table, columns), name) == table_rows(
            tables,
            name,
        ),
{
    let present = ensure_table(tables, table);
    lemma_ensure_table_rows(tables, table, name);
    lemma_table_index(present, table, 0);
    match table_index(present, table, 0) {
        Some(i) => {
            if present[i].1.columns.len() == 0 {
                let seeded = TableModel { columns, ..present[i].1 };
                lemma_index_after_update(present, i, seeded, name, 0);
                lemma_table_index(present, name, 0);
            }
        },
        None => {},
    }
}

/// The insert of a row keeps a sound database sound, and gives out one row
/// identifier.
pub proof fn lemma_insert_row_sound(
    db: DbModel,
    table: Seq<char>,
    columns: Seq<Seq<char>>,
    values: Seq<ValueModel>,
)
    requires
        sound(db),
        db.rid.0 < usize::MAX,
    ensures
        sound(insert_row(db, table, columns, values).0),
        insert_row(db, table, columns, values).0.rid.0 == db.rid.0 + 1,
{
    let rid = RowId((db.rid.0 + 1) as usize);
    let numbered = DbModel { rid, ..db };
    let tx = numbered.cur_tx;
    lemma_sound_next_rid(db);
    let row = RowModel { cells: crate::sql_write::bind_all(columns, values, 0, Seq::empty()), rid };
    match check_unique(numbered, tx, table, row) {
        Err(_) => {},
        Ok(_) => {
            let (keyed, outcome) = check_keys(numbered, table, row.cells, 0);
            lemma_check_keys_locks(numbered, table, row.cells, 0);
            lemma_only_locks(numbered, keyed, tx);
            lemma_unused_kept(numbered, keyed, tx, rid);
            match outcome {
                Err(_) => {},
                Ok(_) => {
                    let tables = seed_columns(ensure_table(keyed.tables, table), table, columns);
                    let seeded = DbModel { tables, ..keyed };
                    assert forall|name: Seq<char>| #[trigger]
                        table_rows(tables, name) == table_rows(keyed.tables, name) by {
                        lemma_seed_rows(keyed.tables, table, columns, name);
                    }
                    lemma_sound_same_rows(keyed, tables);
                    assert(unused(seeded, rid));
                    let locked = with_unique_locks(
                        seeded,
                        tx,
                        table,
                        seeded.table(table).unique,
                        row.cells,
                        0,
                    );
                    lemma_unique_locks(seeded, tx, table, seeded.table(table).unique, row.cells, 0);
                    lemma_only_locks(seeded, locked, tx);
                    lemma_unused_kept(seeded, locked, tx, rid);
                    lemma_fresh_insert(locked, tx, table, row);
                },
            }
        },
    }
}

/// Recording the insert of a row whose identifier nothing has keeps a
/// database sound.
pub proof fn lemma_fresh_insert(db: DbModel, tx: TransactionId, table: Seq<char>, row: RowModel)
    requires
        sound(db),
        unused(db, row.rid),
        row.rid.0 <= db.rid.0,
    ensures
        sound(db.with_change(tx, ChangeModel::Insert(table, row))),
        db.with_change(tx, ChangeModel::Insert(table, row)).rid == db.rid,
{
    lemma_tx_index(db.transactions, tx, 0);
    lemma_with_change(db, tx, ChangeModel::Insert(table, row));
    let places = occupied(db.tables);
    let mine = db.context(tx).changes;
    match tx_index(db.transactions, tx, 0) {
        Some(at) => {
            assert(guarded(db, db.transactions[at].1));
            lemma_places_after(places, mine, 0);
            assert forall|t: Seq<char>| !(#[trigger] places_of(db, tx).contains((t, row.rid))) by {
                if places_of(db, tx).contains((t, row.rid)) {
                    assert(places.contains((t, row.rid)) || inserts(mine, row.rid, 0));
                }
            }
            lemma_sound_insert(db, tx, table, row);
        },
        None => {},
    }
}

/// The inserts of rows keep a sound database sound.
pub proof fn lemma_insert_rows_sound(
    db: DbModel,
    table: Seq<char>,
    columns: Seq<Seq<char>>,
    tuples: Seq<Seq<ValueModel>>,
    from: int,
)
    requires
        sound(db),
        0 <= from,
        db.rid.0 + (tuples.len() - from) <= usize::MAX,
    ensures
        sound(insert_rows(db, table, columns, tuples, from).0),
    decreases tuples.len() - from,
{
    if from < tuples.len() {
        let (next, outcome) = insert_row(db, table, columns, tuples[from]);
        lemma_insert_row_sound(db, table, columns, tuples[from]);
        match outcome {
            Err(_) => {},
            Ok(_) => {
                lemma_insert_rows_sound(next, table, columns, tuples, from + 1);
            },
        }
    }
}

/// The tuples that expressions stand for are as many as the expressions.
pub proof fn lemma_tuples_count(values: Seq<SqlModel>, from: int, done: Seq<Seq<ValueModel>>)
    requires
        0 <= from <= values.len(),
    ensures
        match tuples_of(values, from, done) {
            Ok(tuples) => tuples.len() == done.len() + values.len() - from,
            Err(_) => true,
        },
    decreases values.len() - from,
{
    if from < values.len() {
        match crate::sql_eval::eval(values[from], None) {
            Err(_) => {},
            Ok(v) => match crate::value::tuple_in(v) {
                Some(items) => {
                    lemma_tuples_count(values, from + 1, done.push(items));
                },
                None => {},
            },
        }
    }
}

/// An insert keeps a sound database sound.
pub proof fn lemma_insert_sound(
    db: DbModel,
    relation: Seq<char>,
    columns: Seq<Seq<char>>,
    values: Seq<SqlModel>,
)
    requires
        sound(db),
        db.rid.0 + values.len() <= usize::MAX,
    ensures
        sound(insert(db, relation, columns, values).0),
{
    lemma_tuples_count(values, 0, Seq::empty());
    match tuples_of(values, 0, Seq::empty()) {
        Err(_) => {},
        Ok(tuples) => {
            lemma_insert_rows_sound(db, relation, columns, tuples, 0);
        },
    }
}

/// Whether the transaction that the database acts for, if it is open, has
/// a row with the identifier in the table.
pub open spec fn sees(db: DbModel, table: Seq<char>, r: RowId) -> bool {
    db.has_tx(db.cur_tx) ==> places_of(db, db.cur_tx).contains((table, r))
}

/// A lock that a transaction has taken is one that it holds.
pub proof fn lemma_lock_held(db: DbModel, tx: TransactionId, r: RowId)
    requires
        db.has_tx(tx),
    ensures
        holds_update(db.with_lock(tx, LockModel::RowUpdate(r)).context(tx).locks, r),
{
    let after = db.with_lock(tx, LockModel::RowUpdate(r));
    lemma_tx_index(db.transactions, tx, 0);
    let at = tx_index(db.transactions, tx, 0).unwrap();
    assert forall|i: int| 0 <= i < db.transactions.len() implies (#[trigger] after.transactions[i]).0
        == db.transactions[i].0 by {}
    crate::integrity::lemma_index_by_ids(db.transactions, after.transactions, tx, 0);
    let locks = after.context(tx).locks;
    assert(locks[db.transactions[at].1.locks.len() as int] == LockModel::RowUpdate(r));
}

/// The update of a row that the transaction sees keeps a sound database
/// sound, and takes no place and leaves none.
pub proof fn lemma_update_row_sound(
    db: DbModel,
    table: Seq<char>,
    updates: Seq<SqlModel>,
    row: RowModel,
)
    requires
        sound(db),
        sees(db, table, row.rid),
    ensures
        sound(update_row(db, table, updates, row).0),
        update_row(db, table, updates, row).0.cur_tx == db.cur_tx,
        update_row(db, table, updates, row).0.rid == db.rid,
        update_row(db, table, updates, row).0.tables == db.tables,
        update_row(db, table, updates, row).0.has_tx(db.cur_tx) == db.has_tx(db.cur_tx),
        places_of(update_row(db, table, updates, row).0, db.cur_tx) == places_of(db, db.cur_tx),
{
    let tx = db.cur_tx;
    let rid = row.rid;
    lemma_same(db);
    lemma_only_locks(db, db, tx);
    match assigned(row.cells, updates, 0, row.cells) {
        Err(_) => {},
        Ok(cells) => {
            let version = RowModel { cells, rid };
            match check_unique(db, tx, table, version) {
                Err(_) => {},
                Ok(_) => {
                    let (keyed, outcome) = check_keys(db, table, cells, 0);
                    lemma_check_keys_locks(db, table, cells, 0);
                    lemma_only_locks(db, keyed, tx);
                    assert(places_of(keyed, tx) == places_of(db, tx));
                    match outcome {
                        Err(_) => {},
                        Ok(_) => {
                            let lock = LockModel::RowUpdate(rid);
                            if !keyed.blocked(tx, lock) {
                                let uniqued = with_unique_locks(
                                    keyed,
                                    tx,
                                    table,
                                    keyed.table(table).unique,
                                    cells,
                                    0,
                                );
                                lemma_unique_locks(
                                    keyed,
                                    tx,
                                    table,
                                    keyed.table(table).unique,
                                    cells,
                                    0,
                                );
                                let locked = uniqued.with_lock(tx, lock);
                                lemma_with_lock_only(uniqued, tx, lock);
                                lemma_only_locks_twice(keyed, uniqued, locked, tx);
                                lemma_only_locks(keyed, uniqued, tx);
                                lemma_only_locks(keyed, locked, tx);
                                assert(places_of(locked, tx) == places_of(db, tx));
                                let gone = ChangeModel::Delete(table, row);
                                let come = ChangeModel::Insert(table, version);
                                let deleted = locked.with_change(tx, gone);
                                lemma_sound_delete(locked, tx, table, row);
                                lemma_with_change(locked, tx, gone);
                                lemma_with_change(deleted, tx, come);
                                lemma_tx_index(locked.transactions, tx, 0);
                                match tx_index(locked.transactions, tx, 0) {
                                    None => {
                                        assert(!locked.has_tx(tx));
                                    },
                                    Some(at) => {
                                        assert(locked.has_tx(tx));
                                        assert(uniqued.has_tx(tx));
                                        lemma_lock_held(uniqued, tx, rid);
                                        lemma_reinsert(
                                            keyed,
                                            locked,
                                            tx,
                                            table,
                                            row,
                                            version,
                                        );
                                    },
                                }
                            }
                        },
                    }
                },
            }
        },
    }
}

/// Recording the delete of a row that a transaction sees and then the
/// insert of a row with its identifier keeps a database sound, and takes
/// no place and leaves none, where the transaction holds the update lock
/// on the row and nothing stood against its taking it.
pub proof fn lemma_reinsert(
    checked: DbModel,
    db: DbModel,
    tx: TransactionId,
    table: Seq<char>,
    row: RowModel,
    version: RowModel,
)
    requires
        sound(checked),
        sound(db),
        only_locks(checked, db, tx),
        !checked.blocked(tx, LockModel::RowUpdate(row.rid)),
        db.has_tx(tx),
        holds_update(db.context(tx).locks, row.rid),
        places_of(db, tx).contains((table, row.rid)),
        version.rid == row.rid,
    ensures
        sound(
            db.with_change(tx, ChangeModel::Delete(table, row)).with_change(
                tx,
                ChangeModel::Insert(table, version),
            ),
        ),
        places_of(
            db.with_change(tx, ChangeModel::Delete(table, row)).with_change(
                tx,
                ChangeModel::Insert(table, version),
            ),
            tx,
        ) == places_of(db, tx),
{
    let rid = row.rid;
    let gone = ChangeModel::Delete(table, row);
    let come = ChangeModel::Insert(table, version);
    let deleted = db.with_change(tx, gone);
    let after = deleted.with_change(tx, come);
    let places = occupied(db.tables);
    lemma_tx_index(db.transactions, tx, 0);
    let at = tx_index(db.transactions, tx, 0).unwrap();
    let mine = db.transactions[at].1.changes;
    assert(guarded(db, db.transactions[at].1));
    lemma_sound_delete(db, tx, table, row);
    lemma_with_change(db, tx, gone);
    lemma_with_change(deleted, tx, come);
    lemma_places_after(places, mine, 0);
    lemma_can_commit_more(places, mine, gone, 0);
    let seen = places_of(db, tx);
    assert(places_of(deleted, tx) == seen.remove((table, rid)));
    assert forall|t: Seq<char>| !(#[trigger] places_of(deleted, tx).contains((t, rid))) by {
        if places_of(deleted, tx).contains((t, rid)) {
            assert(seen.contains((t, rid)));
            assert(seen.contains((table, rid)));
        }
    }
    assert(rid.0 <= db.rid.0) by {
        if !places.contains((table, rid)) {
            assert(inserts(mine, rid, 0));
        }
    }
    assert forall|i: int|
        0 <= i < deleted.transactions.len() && (#[trigger] deleted.transactions[i]).0
            != tx implies !inserts(deleted.transactions[i].1.changes, rid, 0) by {
        assert(deleted.transactions[i] == db.transactions[i]);
        assert(db.transactions[i].0 == checked.transactions[i].0);
        assert(db.transactions[i] == checked.transactions[i]);
        if inserts(db.transactions[i].1.changes, rid, 0) {
            assert(guarded(db, db.transactions[i].1));
            if holds_update(db.transactions[i].1.locks, rid) {
                let k = choose|k: int|
                    0 <= k < db.transactions[i].1.locks.len() && #[trigger] db.transactions[i].1.locks[k]
                        == LockModel::RowUpdate(rid);
                assert(crate::store::conflicts(
                    LockModel::RowUpdate(rid),
                    checked.transactions[i].1.locks[k],
                ));
                assert(crate::store::any_conflict(
                    LockModel::RowUpdate(rid),
                    checked.transactions[i].1.locks,
                ));
                assert(checked.blocked(tx, LockModel::RowUpdate(rid)));
            } else {
                assert(free(places, rid));
                assert(!places.contains((table, rid)));
                assert(inserts(mine, rid, 0));
                assert(!(inserts(db.transactions[at].1.changes, rid, 0) && inserts(
                    db.transactions[i].1.changes,
                    rid,
                    0,
                )));
            }
        }
    }
    assert(holds_update(deleted.context(tx).locks, rid)) by {
        assert(deleted.context(tx).locks == db.context(tx).locks) by {
            lemma_tx_index(deleted.transactions, tx, 0);
            assert forall|i: int| 0 <= i < db.transactions.len() implies (
            #[trigger] deleted.transactions[i]).0 == db.transactions[i].0 by {}
            crate::integrity::lemma_index_by_ids(db.transactions, deleted.transactions, tx, 0);
        }
    }
    lemma_sound_insert(deleted, tx, table, version);
    lemma_can_commit_more(places, mine.push(gone), come, 0);
    assert(places_of(after, tx) == places_of(deleted, tx).insert((table, rid)));
    assert(places_of(after, tx) =~= seen);
}

/// The updates of rows that the transaction sees keep a sound database
/// sound.
pub proof fn lemma_update_rows_sound(
    db: DbModel,
    table: Seq<char>,
    updates: Seq<SqlModel>,
    condition: Option<Box<SqlModel>>,
    rows: Seq<RowModel>,
    from: int,
    count: int,
)
    requires
        sound(db),
        0 <= from,
        forall|k: int| from <= k < rows.len() ==> sees(db, table, (#[trigger] rows[k]).rid),
    ensures
        sound(update_rows(db, table, updates, condition, rows, from, count).0),
    decreases rows.len() - from,
{
    if from < rows.len() {
        match crate::sql_select::answers_condition(condition, rows[from].cells) {
            Err(_) => {},
            Ok(false) => {
                lemma_update_rows_sound(db, table, updates, condition, rows, from + 1, count);
            },
            Ok(true) => {
                let (next, outcome) = update_row(db, table, updates, rows[from]);
                assert(sees(db, table, rows[from].rid));
                lemma_update_row_sound(db, table, updates, rows[from]);
                match outcome {
                    Err(_) => {},
                    Ok(_) => {
                        assert forall|k: int| from + 1 <= k < rows.len() implies sees(
                            next,
                            table,
                            (#[trigger] rows[k]).rid,
                        ) by {
                            assert(sees(db, table, rows[k].rid));
                        }
                        lemma_update_rows_sound(
                            next,
                            table,
                            updates,
                            condition,
                            rows,
                            from + 1,
                            count + 1,
                        );
                    },
                }
            },
        }
    }
}

/// A transaction sees the rows that it sees.
pub proof fn lemma_rows_seen(db: DbModel, table: Seq<char>)
    requires
        sound(db),
    ensures
        forall|k: int|
            0 <= k < db.rows(db.cur_tx, table).len() ==> sees(
                db,
                table,
                (#[trigger] db.rows(db.cur_tx, table)[k]).rid,
            ),
{
    let tx = db.cur_tx;
    lemma_tx_index(db.transactions, tx, 0);
    match tx_index(db.transactions, tx, 0) {
        Some(at) => {
            let places = occupied(db.tables);
            let mine = db.transactions[at].1.changes;
            assert(guarded(db, db.transactions[at].1));
            assert(db.table(table).rows == table_rows(db.tables, table));
            assert(distinct_rows(table_rows(db.tables, table)));
            assert forall|r: RowId|
                #![trigger rid_in(table_rows(db.tables, table), r)]
                #![trigger places.contains((table, r))]
                rid_in(table_rows(db.tables, table), r) <==> places.contains((table, r)) by {}
            lemma_visible_places(table_rows(db.tables, table), table, mine, 0, places);
            let rows = db.rows(tx, table);
            assert forall|k: int| 0 <= k < rows.len() implies sees(
                db,
                table,
                (#[trigger] rows[k]).rid,
            ) by {
                assert(rid_in(rows, rows[k].rid));
            }
        },
        None => {},
    }
}

/// An update keeps a sound database sound.
pub proof fn lemma_update_sound(
    db: DbModel,
    relation: Seq<char>,
    updates: Seq<SqlModel>,
    condition: Option<Box<SqlModel>>,
)
    requires
        sound(db),
    ensures
        sound(update(db, relation, updates, condition).0),
{
    lemma_rows_seen(db, relation);
    lemma_update_rows_sound(
        db,
        relation,
        updates,
        condition,
        db.rows(db.cur_tx, relation),
        0,
        0,
    );
}

/// Whether every change is a delete.
pub open spec fn all_deletes(changes: Seq<ChangeModel>) -> bool {
    forall|k: int| 0 <= k < changes.len() ==> (#[trigger] changes[k]) is Delete
}

/// The deletes of the rows that refer to a row are deletes.
pub proof fn lemma_child_deletes(
    children: Seq<RowModel>,
    fk: crate::store::ForeignKeyModel,
    parent: Cells,
    from: int,
    done: Seq<ChangeModel>,
)
    requires
        all_deletes(done),
    ensures
        all_deletes(child_deletes(children, fk, parent, from, done)),
    decreases children.len() - from,
{
    if 0 <= from < children.len() {
        let more = if crate::sql_write::refers_to(fk, children[from].cells, parent) {
            done.push(ChangeModel::Delete(fk.relation, children[from]))
        } else {
            done
        };
        assert forall|k: int| 0 <= k < more.len() implies (#[trigger] more[k]) is Delete by {
            if k < done.len() {
                assert(more[k] == done[k]);
            }
        }
        lemma_child_deletes(children, fk, parent, from + 1, more);
    }
}

/// The deletes that the delete of a row brings with it are deletes.
pub proof fn lemma_cascades(
    db: DbModel,
    table: Seq<char>,
    parent: Cells,
    from: int,
    done: Seq<ChangeModel>,
)
    requires
        all_deletes(done),
    ensures
        all_deletes(cascades(db, table, parent, from, done)),
    decreases db.foreign_keys.len() - from,
{
    if 0 <= from < db.foreign_keys.len() {
        let fk = db.foreign_keys[from];
        if fk.foreign_relation == table {
            lemma_child_deletes(db.rows(db.cur_tx, fk.relation), fk, parent, 0, done);
        }
        let more = if fk.foreign_relation == table {
            child_deletes(db.rows(db.cur_tx, fk.relation), fk, parent, 0, done)
        } else {
            done
        };
        lemma_cascades(db, table, parent, from + 1, more);
    }
}

/// Recording deletes keeps a sound database sound.
pub proof fn lemma_record_deletes(
    db: DbModel,
    tx: TransactionId,
    changes: Seq<ChangeModel>,
    from: int,
)
    requires
        sound(db),
        all_deletes(changes),
    ensures
        sound(record_all(db, tx, changes, from)),
    decreases changes.len() - from,
{
    if 0 <= from < changes.len() {
        let change = changes[from];
        assert(change is Delete);
        lemma_sound_delete(db, tx, change->Delete_0, change->Delete_1);
        lemma_record_deletes(db.with_change(tx, change), tx, changes, from + 1);
    }
}

/// The delete of a row keeps a sound database sound.
pub proof fn lemma_delete_row_sound(db: DbModel, table: Seq<char>, row: RowModel)
    requires
        sound(db),
    ensures
        sound(delete_row(db, table, row).0),
{
    let extra = cascades(db, table, row.cells, 0, Seq::empty());
    lemma_cascades(db, table, row.cells, 0, Seq::empty());
    let lock = LockModel::RowUpdate(row.rid);
    if !db.blocked(db.cur_tx, lock) {
        let locked = db.with_lock(db.cur_tx, lock);
        lemma_with_lock_only(db, db.cur_tx, lock);
        lemma_only_locks(db, locked, db.cur_tx);
        lemma_sound_delete(locked, db.cur_tx, table, row);
        lemma_record_deletes(
            locked.with_change(db.cur_tx, ChangeModel::Delete(table, row)),
            db.cur_tx,
            extra,
            0,
        );
    }
}

/// The deletes of rows keep a sound database sound.
pub proof fn lemma_delete_rows_sound(
    db: DbModel,
    table: Seq<char>,
    condition: Option<Box<SqlModel>>,
    rows: Seq<RowModel>,
    from: int,
    count: int,
)
    requires
        sound(db),
    ensures
        sound(delete_rows(db, table, condition, rows, from, count).0),
    decreases rows.len() - from,
{
    if 0 <= from < rows.len() {
        match crate::sql_select::answers_condition(condition, rows[from].cells) {
            Err(_) => {},
            Ok(false) => {
                lemma_delete_rows_sound(db, table, condition, rows, from + 1, count);
            },
            Ok(true) => {
                let (next, outcome) = delete_row(db, table, rows[from]);
                lemma_delete_row_sound(db, table, rows[from]);
                match outcome {
                    Err(_) => {},
                    Ok(_) => {
                        lemma_delete_rows_sound(next, table, condition, rows, from + 1, count + 1);
                    },
                }
            },
        }
    }
}

/// Declaring a unique index keeps a sound database sound.
pub proof fn lemma_create_index_sound(db: DbModel, relation: Seq<char>, columns: Seq<Seq<char>>)
    requires
        sound(db),
    ensures
        sound(create_index(db, relation, columns)),
{
    let present = ensure_table(db.tables, relation);
    lemma_table_index(present, relation, 0);
    match table_index(present, relation, 0) {
        Some(i) => {
            let table = TableModel { unique: present[i].1.unique.push(columns), ..present[i].1 };
            let tables = present.update(i, (present[i].0, table));
            assert forall|name: Seq<char>| #[trigger]
                table_rows(tables, name) == table_rows(db.tables, name) by {
                lemma_ensure_table_rows(db.tables, relation, name);
                lemma_index_after_update(present, i, table, name, 0);
                lemma_table_index(present, name, 0);
            }
            lemma_sound_same_rows(db, tables);
        },
        None => {},
    }
}

/// Every statement keeps a sound database sound: whatever a transaction
/// does, no two committed rows will share a row identifier.
pub proof fn lemma_interpret_sound(db: DbModel, e: SqlModel)
    requires
        sound(db),
        db.rid.0 + rows_needed(e) <= usize::MAX,
    ensures
        sound(interpret(db, e).0),
{
    match e {
        SqlModel::Select { columns, from, condition, order_by, limit, offset, locking } => {
            lemma_select_sound(db, columns, from, condition, order_by, limit, offset, locking);
        },
        SqlModel::Update { relation, updates, condition } => {
            lemma_update_sound(db, relation, updates, condition);
        },
        SqlModel::Delete { relation, condition } => {
            lemma_delete_rows_sound(
                db,
                relation,
                condition,
                db.rows(db.cur_tx, relation),
                0,
                0,
            );
        },
        SqlModel::Insert { relation, columns, values } => {
            lemma_insert_sound(db, relation, columns, values);
        },
        SqlModel::Create { relation, columns } => {
            lemma_create_index_sound(db, relation, columns);
        },
        SqlModel::Alter { .. } => {
            lemma_sound_frame(db, interpret(db, e).0);
        },
        _ => {},
    }
}

/// Running a statement for a transaction, or in a transaction of its own,
/// keeps a sound database sound.
pub proof fn lemma_execute_sound(db: DbModel, e: SqlModel, opt_tx: Option<TransactionId>)
    requires
        sound(db),
        opt_tx.is_none() ==> db.tx.0 < usize::MAX,
        db.rid.0 + rows_needed(e) <= usize::MAX,
    ensures
        sound(execute(db, e, opt_tx).0),
{
    let started = match opt_tx {
        Some(tx) => DbModel { cur_tx: tx, ..db },
        None => DbModel { cur_tx: db.open().tx, ..db.open() },
    };
    match opt_tx {
        Some(tx) => {
            lemma_sound_frame(db, started);
        },
        None => {
            lemma_sound_open(db);
            lemma_sound_frame(db.open(), started);
        },
    }
    lemma_interpret_sound(started, e);
    let (after, outcome) = interpret(started, e);
    match outcome {
        Err(_) => {},
        Ok(_) => {
            if opt_tx.is_none() {
                lemma_sound_commit(after, after.cur_tx);
            }
        },
    }
}

/// Where the foreign keys of a table are held against a row without
/// failure, the transaction sees, for each of them, a row that the row
/// refers to.
pub proof fn lemma_check_keys_parents(db: DbModel, table: Seq<char>, cells: Cells, from: int)
    requires
        0 <= from,
        check_keys(db, table, cells, from).1.is_ok(),
    ensures
        forall|k: int|
            from <= k < db.foreign_keys.len() && (#[trigger] db.foreign_keys[k]).relation == table
                ==> crate::sql_write::parent_of(
                db.rows(db.cur_tx, db.foreign_keys[k].foreign_relation),
                db.foreign_keys[k],
                cells,
                0,
            ).is_some(),
    decreases db.foreign_keys.len() - from,
{
    if from < db.foreign_keys.len() {
        let fk = db.foreign_keys[from];
        if fk.relation != table {
            lemma_check_keys_parents(db, table, cells, from + 1);
        } else {
            match crate::sql_write::parent_of(
                db.rows(db.cur_tx, fk.foreign_relation),
                fk,
                cells,
                0,
            ) {
                None => {},
                Some(parent) => {
                    let lock = LockModel::RowForKeyShare(parent.rid);
                    let locked = db.with_lock(db.cur_tx, lock);
                    lemma_with_lock_only(db, db.cur_tx, lock);
                    lemma_only_locks(db, locked, db.cur_tx);
                    lemma_check_keys_parents(locked, table, cells, from + 1);
                    assert forall|k: int|
                        from + 1 <= k < db.foreign_keys.len() && (#[trigger] db.foreign_keys[k]).relation
                            == table implies crate::sql_write::parent_of(
                        db.rows(db.cur_tx, db.foreign_keys[k].foreign_relation),
                        db.foreign_keys[k],
                        cells,
                        0,
                    ).is_some() by {
                        assert(locked.foreign_keys[k] == db.foreign_keys[k]);
                        assert(locked.context(db.cur_tx).changes == db.context(db.cur_tx).changes);
                        assert(locked.rows(db.cur_tx, db.foreign_keys[k].foreign_relation)
                            == db.rows(db.cur_tx, db.foreign_keys[k].foreign_relation));
                    }
                },
            }
        }
    }
}

/// The row that a row is found to refer to is one of the rows and has the
/// values that the row refers to.
pub proof fn lemma_parent_found(
    parents: Seq<RowModel>,
    fk: crate::store::ForeignKeyModel,
    cells: Cells,
    from: int,
)
    requires
        0 <= from,
    ensures
        match crate::sql_write::parent_of(parents, fk, cells, from) {
            Some(parent) => exists|k: int|
                from <= k < parents.len() && #[trigger] parents[k] == parent
                    && crate::sql_write::refers_to(fk, cells, parent.cells),
            None => forall|k: int|
                from <= k < parents.len() ==> !crate::sql_write::refers_to(
                    fk,
                    cells,
                    (#[trigger] parents[k]).cells,
                ),
        },
    decreases parents.len() - from,
{
    if from < parents.len() {
        if !crate::sql_write::refers_to(fk, cells, parents[from].cells) {
            lemma_parent_found(parents, fk, cells, from + 1);
            match crate::sql_write::parent_of(parents, fk, cells, from + 1) {
                Some(parent) => {
                    let k = choose|k: int|
                        from + 1 <= k < parents.len() && #[trigger] parents[k] == parent
                            && crate::sql_write::refers_to(fk, cells, parent.cells);
                    assert(from <= k && parents[k] == parent);
                },
                None => {},
            }
        } else {
            assert(parents[from] == parents[from]);
        }
    }
}

/// A row that is inserted has, when it is inserted, for each foreign key
/// of its table a row that its transaction sees and that it refers to; it
/// shares no unique tuple with a committed row of its table; and no other
/// transaction has a pending insert of one of its unique tuples.
pub proof fn lemma_insert_row_checked(
    db: DbModel,
    table: Seq<char>,
    columns: Seq<Seq<char>>,
    values: Seq<ValueModel>,
)
    requires
        insert_row(db, table, columns, values).1.is_ok(),
    ensures
        ({
            let cells = crate::sql_write::bind_all(columns, values, 0, Seq::empty());
            let row = RowModel { cells, rid: RowId((db.rid.0 + 1) as usize) };
            &&& !crate::sql_write::shares_unique(db.table(table).rows, db.table(table).unique, row)
            &&& crate::sql_write::unique_blocker(db.transactions, db.cur_tx, table, cells, 0).is_none()
            &&& forall|k: int|
                0 <= k < db.foreign_keys.len() && (#[trigger] db.foreign_keys[k]).relation == table
                    ==> exists|p: int|
                    0 <= p < db.rows(db.cur_tx, db.foreign_keys[k].foreign_relation).len()
                        && crate::sql_write::refers_to(
                        db.foreign_keys[k],
                        cells,
                        (#[trigger] db.rows(db.cur_tx, db.foreign_keys[k].foreign_relation)[p]).cells,
                    )
        }),
{
    let rid = RowId((db.rid.0 + 1) as usize);
    let numbered = DbModel { rid, ..db };
    let cells = crate::sql_write::bind_all(columns, values, 0, Seq::empty());
    lemma_check_keys_parents(numbered, table, cells, 0);
    assert forall|k: int|
        0 <= k < db.foreign_keys.len() && (#[trigger] db.foreign_keys[k]).relation
            == table implies exists|p: int|
        0 <= p < db.rows(db.cur_tx, db.foreign_keys[k].foreign_relation).len()
            && crate::sql_write::refers_to(
            db.foreign_keys[k],
            cells,
            (#[trigger] db.rows(db.cur_tx, db.foreign_keys[k].foreign_relation)[p]).cells,
        ) by {
        let fk = db.foreign_keys[k];
        let parents = db.rows(db.cur_tx, fk.foreign_relation);
        assert(numbered.foreign_keys[k] == fk);
        assert(numbered.rows(numbered.cur_tx, fk.foreign_relation) == parents);
        lemma_parent_found(parents, fk, cells, 0);
        let parent = crate::sql_write::parent_of(parents, fk, cells, 0).unwrap();
        let p = choose|p: int|
            0 <= p < parents.len() && #[trigger] parents[p] == parent && crate::sql_write::refers_to(
                fk,
                cells,
                parent.cells,
            );
        assert(crate::sql_write::refers_to(fk, cells, parents[p].cells));
    }
}

/// An update of a row whose lock another transaction stands against
/// fails with that lock, where the new version has passed the checks
/// before: the tables and what the transactions have changed stay as they
/// were.
pub proof fn lemma_update_waits(db: DbModel, table: Seq<char>, updates: Seq<SqlModel>, row: RowModel)
    requires
        crate::sql_write::assigned(row.cells, updates, 0, row.cells) is Ok,
        crate::sql_write::check_unique(
            db,
            db.cur_tx,
            table,
            RowModel {
                cells: crate::sql_write::assigned(row.cells, updates, 0, row.cells)->Ok_0,
                rid: row.rid,
            },
        ) is Ok,
        crate::sql_write::check_keys(
            db,
            table,
            crate::sql_write::assigned(row.cells, updates, 0, row.cells)->Ok_0,
            0,
        ).1 is Ok,
        crate::sql_write::check_keys(
            db,
            table,
            crate::sql_write::assigned(row.cells, updates, 0, row.cells)->Ok_0,
            0,
        ).0.blocked(db.cur_tx, LockModel::RowUpdate(row.rid)),
    ensures
        crate::sql_write::update_row(db, table, updates, row).1 == Err::<(), SqlErrorModel>(
            SqlErrorModel::Locked(LockModel::RowUpdate(row.rid)),
        ),
        only_locks(db, crate::sql_write::update_row(db, table, updates, row).0, db.cur_tx),
{
    let cells = crate::sql_write::assigned(row.cells, updates, 0, row.cells)->Ok_0;
    lemma_check_keys_locks(db, table, cells, 0);
}

/// A locking select that comes to a row whose lock another transaction
/// stands against fails with that lock and takes no lock more.
pub proof fn lemma_scan_waits(
    db: DbModel,
    rows: Seq<RowModel>,
    condition: Option<Box<SqlModel>>,
    from: int,
    kept: Seq<RowModel>,
)
    requires
        0 <= from < rows.len(),
        db.blocked(db.cur_tx, LockModel::RowUpdate(rows[from].rid)),
    ensures
        crate::sql_select::scan(db, rows, condition, true, from, kept) == (
            db,
            Err::<Seq<RowModel>, SqlErrorModel>(
                SqlErrorModel::Locked(LockModel::RowUpdate(rows[from].rid)),
            ),
        ),
{
}

/// An insert of a row that shares a unique tuple with a committed row, and
/// that no pending insert of another transaction locks out, is a violation
/// of the index: nothing is recorded, and only the row identifier is used
/// up.
pub proof fn lemma_insert_violates(
    db: DbModel,
    table: Seq<char>,
    columns: Seq<Seq<char>>,
    values: Seq<ValueModel>,
)
    requires
        crate::sql_write::unique_blocker(
            db.transactions,
            db.cur_tx,
            table,
            crate::sql_write::bind_all(columns, values, 0, Seq::empty()),
            0,
        ) is None,
        crate::sql_write::shares_unique(
            db.table(table).rows,
            db.table(table).unique,
            RowModel {
                cells: crate::sql_write::bind_all(columns, values, 0, Seq::empty()),
                rid: RowId((db.rid.0 + 1) as usize),
            },
        ),
    ensures
        crate::sql_write::insert_row(db, table, columns, values) == (
            DbModel { rid: RowId((db.rid.0 + 1) as usize), ..db },
            Err::<(), SqlErrorModel>(SqlErrorModel::UnicityViolation),
        ),
{
    let rid = RowId((db.rid.0 + 1) as usize);
    let numbered = DbModel { rid, ..db };
    assert(numbered.table(table) == db.table(table));
}

/// What a transaction sees of a table after one more change is what it
/// saw, with the change made.
pub proof fn lemma_visible_push(
    rows: Seq<RowModel>,
    table: Seq<char>,
    changes: Seq<ChangeModel>,
    change: ChangeModel,
    from: int,
)
    requires
        0 <= from <= changes.len(),
    ensures
        crate::sql_interpreter::visible(rows, table, changes.push(change), from)
            == crate::sql_interpreter::apply_change(
            crate::sql_interpreter::visible(rows, table, changes, from),
            table,
            change,
        ),
    decreases changes.len() - from,
{
    let more = changes.push(change);
    reveal_with_fuel(crate::sql_interpreter::visible, 2);
    if from < changes.len() {
        assert(more[from] == changes[from]);
        lemma_visible_push(
            crate::sql_interpreter::apply_change(rows, table, changes[from]),
            table,
            changes,
            change,
            from + 1,
        );
    } else {
        assert(more[from] == change);
    }
}

/// Setting the column order of a table, which comes to be if it was not
/// there, changes no unique index.
pub proof fn lemma_seed_unique(
    tables: crate::sql_interpreter::TableEntries,
    table: Seq<char>,
    columns: Seq<Seq<char>>,
    name: Seq<char>,
)
    ensures
        crate::integrity::table_unique(
            seed_columns(ensure_table(tables, table), table, columns),
            name,
        ) == crate::integrity::table_unique(tables, name),
{
    let present = ensure_table(tables, table);
    lemma_table_index(tables, table, 0);
    crate::integrity::lemma_index_after_push(tables, (table, crate::store::empty_table()), name, 0);
    crate::integrity::lemma_index_after_push(tables, (table, crate::store::empty_table()), table, 0);
    lemma_table_index(tables, name, 0);
    lemma_table_index(present, table, 0);
    match table_index(present, table, 0) {
        Some(i) => {
            if present[i].1.columns.len() == 0 {
                let seeded = TableModel { columns, ..present[i].1 };
                lemma_index_after_update(present, i, seeded, name, 0);
                lemma_table_index(present, name, 0);
            }
        },
        None => {},
    }
}

/// The row that an insert gives to a table.
pub open spec fn inserted_row(db: DbModel, columns: Seq<Seq<char>>, values: Seq<ValueModel>) -> RowModel {
    RowModel {
        cells: crate::sql_write::bind_all(columns, values, 0, Seq::empty()),
        rid: RowId((db.rid.0 + 1) as usize),
    }
}

/// After the insert of a row, its transaction sees the row at the end of
/// the table and every other table as before; unique indexes and foreign
/// keys are as they were.
pub proof fn lemma_insert_seen(
    db: DbModel,
    table: Seq<char>,
    columns: Seq<Seq<char>>,
    values: Seq<ValueModel>,
    name: Seq<char>,
)
    requires
        insert_row(db, table, columns, values).1 is Ok,
        db.has_tx(db.cur_tx),
    ensures
        insert_row(db, table, columns, values).0.cur_tx == db.cur_tx,
        insert_row(db, table, columns, values).0.foreign_keys == db.foreign_keys,
        insert_row(db, table, columns, values).0.has_tx(db.cur_tx),
        insert_row(db, table, columns, values).0.table(name).unique == db.table(name).unique,
        insert_row(db, table, columns, values).0.rows(db.cur_tx, name) == (if name == table {
            db.rows(db.cur_tx, name).push(inserted_row(db, columns, values))
        } else {
            db.rows(db.cur_tx, name)
        }),
{
    let tx = db.cur_tx;
    let row = inserted_row(db, columns, values);
    let numbered = DbModel { rid: row.rid, ..db };
    let keyed = check_keys(numbered, table, row.cells, 0).0;
    lemma_check_keys_locks(numbered, table, row.cells, 0);
    lemma_only_locks(numbered, keyed, tx);
    let seeded = DbModel {
        tables: seed_columns(ensure_table(keyed.tables, table), table, columns),
        ..keyed
    };
    lemma_seed_rows(keyed.tables, table, columns, name);
    lemma_seed_unique(keyed.tables, table, columns, name);
    let locked = with_unique_locks(seeded, tx, table, seeded.table(table).unique, row.cells, 0);
    lemma_unique_locks(seeded, tx, table, seeded.table(table).unique, row.cells, 0);
    lemma_only_locks(seeded, locked, tx);
    let change = ChangeModel::Insert(table, row);
    let after = locked.with_change(tx, change);
    lemma_with_change(locked, tx, change);
    assert(after == insert_row(db, table, columns, values).0);
    assert(seeded.context(tx) == keyed.context(tx));
    assert(seeded.has_tx(tx) == keyed.has_tx(tx));
    assert(numbered.context(tx) == db.context(tx));
    assert(numbered.has_tx(tx) == db.has_tx(tx));
    let changes = db.context(tx).changes;
    assert(keyed.context(tx).changes == numbered.context(tx).changes);
    assert(keyed.has_tx(tx) == numbered.has_tx(tx));
    assert(locked.context(tx).changes == seeded.context(tx).changes);
    assert(locked.has_tx(tx) == seeded.has_tx(tx));
    assert(locked.has_tx(tx));
    assert(locked.context(tx).changes == changes);
    assert(after.context(tx).changes == changes.push(change));
    assert(after.table(name).rows == table_rows(after.tables, name));
    assert(db.table(name).rows == table_rows(db.tables, name));
    assert(after.table(name).unique == crate::integrity::table_unique(after.tables, name));
    assert(db.table(name).unique == crate::integrity::table_unique(db.tables, name));
    lemma_visible_push(db.table(name).rows, name, changes, change, 0);
}

/// The rows that a transaction sees of a table share no unique tuple after
/// an insert where they shared none before and where the row shares none
/// with them. The insert itself holds the row against the committed rows
/// only.
pub proof fn lemma_insert_unique(
    db: DbModel,
    table: Seq<char>,
    columns: Seq<Seq<char>>,
    values: Seq<ValueModel>,
)
    requires
        insert_row(db, table, columns, values).1 is Ok,
        db.has_tx(db.cur_tx),
        crate::integrity::unique_rows(db.rows(db.cur_tx, table), db.table(table).unique),
        !crate::sql_write::shares_unique(
            db.rows(db.cur_tx, table),
            db.table(table).unique,
            inserted_row(db, columns, values),
        ),
    ensures
        crate::integrity::unique_rows(
            insert_row(db, table, columns, values).0.rows(db.cur_tx, table),
            insert_row(db, table, columns, values).0.table(table).unique,
        ),
{
    lemma_insert_seen(db, table, columns, values, table);
    let row = inserted_row(db, columns, values);
    let rows = db.rows(db.cur_tx, table);
    let indexes = db.table(table).unique;
    let more = rows.push(row);
    assert forall|u: int, i: int, j: int|
        #![trigger indexes[u], more[i], more[j]]
        0 <= u < indexes.len() && 0 <= i < more.len() && 0 <= j < more.len() && more[i].rid
            != more[j].rid implies crate::store::unique_tuple(indexes[u], more[i].cells)
        != crate::store::unique_tuple(indexes[u], more[j].cells) by {
        assert(!crate::sql_write::shares_tuple(rows, indexes[u], row));
        if i < rows.len() && j < rows.len() {
            assert(more[i] == rows[i] && more[j] == rows[j]);
        } else if i < rows.len() {
            assert(more[i] == rows[i]);
        } else if j < rows.len() {
            assert(more[j] == rows[j]);
        }
    }
}

/// Under a foreign key, every row that a transaction sees of the referring
/// table refers to a row that it sees of the other table after an insert,
/// where that held before: the insert asks for a row to refer to.
pub proof fn lemma_insert_parents(
    db: DbModel,
    table: Seq<char>,
    columns: Seq<Seq<char>>,
    values: Seq<ValueModel>,
    k: int,
)
    requires
        insert_row(db, table, columns, values).1 is Ok,
        db.has_tx(db.cur_tx),
        0 <= k < db.foreign_keys.len(),
        crate::integrity::referred(
            db.rows(db.cur_tx, db.foreign_keys[k].relation),
            db.rows(db.cur_tx, db.foreign_keys[k].foreign_relation),
            db.foreign_keys[k],
        ),
    ensures
        crate::integrity::referred(
            insert_row(db, table, columns, values).0.rows(db.cur_tx, db.foreign_keys[k].relation),
            insert_row(db, table, columns, values).0.rows(
                db.cur_tx,
                db.foreign_keys[k].foreign_relation,
            ),
            db.foreign_keys[k],
        ),
{
    let fk = db.foreign_keys[k];
    let after = insert_row(db, table, columns, values).0;
    lemma_insert_seen(db, table, columns, values, fk.relation);
    lemma_insert_seen(db, table, columns, values, fk.foreign_relation);
    lemma_insert_row_checked(db, table, columns, values);
    let row = inserted_row(db, columns, values);
    let children = db.rows(db.cur_tx, fk.relation);
    let parents = db.rows(db.cur_tx, fk.foreign_relation);
    let children_after = after.rows(db.cur_tx, fk.relation);
    let parents_after = after.rows(db.cur_tx, fk.foreign_relation);
    assert forall|c: int| 0 <= c < children_after.len() implies crate::integrity::has_parent(
        #[trigger] children_after[c],
        parents_after,
        fk,
    ) by {
        if c < children.len() {
            assert(children_after[c] == children[c]);
            assert(crate::integrity::has_parent(children[c], parents, fk));
            let p = choose|p: int|
                0 <= p < parents.len() && crate::sql_write::refers_to(
                    fk,
                    children[c].cells,
                    (#[trigger] parents[p]).cells,
                );
            assert(parents_after[p] == parents[p]);
        } else {
            assert(fk.relation == table);
            assert(children_after[c] == row);
            let p = choose|p: int|
                0 <= p < parents.len() && crate::sql_write::refers_to(
                    fk,
                    row.cells,
                    (#[trigger] parents[p]).cells,
                );
            assert(parents_after[p] == parents[p]);
        }
    }
    assert(crate::integrity::referred(children_after, parents_after, fk));
}

/// The version that an update gives to a row.
pub open spec fn updated_row(updates: Seq<SqlModel>, row: RowModel) -> RowModel {
    RowModel {
        cells: crate::sql_write::assigned(row.cells, updates, 0, row.cells)->Ok_0,
        rid: row.rid,
    }
}

/// After the update of a row, its transaction sees the table without the
/// row and with the new version at the end, and every other table as
/// before; unique indexes and foreign keys are as they were.
pub proof fn lemma_update_seen(
    db: DbModel,
    table: Seq<char>,
    updates: Seq<SqlModel>,
    row: RowModel,
    name: Seq<char>,
)
    requires
        crate::sql_write::update_row(db, table, updates, row).1 is Ok,
        db.has_tx(db.cur_tx),
    ensures
        crate::sql_write::update_row(db, table, updates, row).0.cur_tx == db.cur_tx,
        crate::sql_write::update_row(db, table, updates, row).0.foreign_keys == db.foreign_keys,
        crate::sql_write::update_row(db, table, updates, row).0.table(name).unique == db.table(
            name,
        ).unique,
        crate::sql_write::update_row(db, table, updates, row).0.rows(db.cur_tx, name) == (if name
            == table {
            crate::sql_interpreter::without_rid(db.rows(db.cur_tx, name), row.rid).push(
                updated_row(updates, row),
            )
        } else {
            db.rows(db.cur_tx, name)
        }),
{
    let tx = db.cur_tx;
    let version = updated_row(updates, row);
    let keyed = check_keys(db, table, version.cells, 0).0;
    lemma_check_keys_locks(db, table, version.cells, 0);
    lemma_only_locks(db, keyed, tx);
    let lock = LockModel::RowUpdate(row.rid);
    let tupled = with_unique_locks(
        keyed,
        keyed.cur_tx,
        table,
        keyed.table(table).unique,
        version.cells,
        0,
    );
    lemma_unique_locks(keyed, tx, table, keyed.table(table).unique, version.cells, 0);
    lemma_only_locks(keyed, tupled, tx);
    let locked = tupled.with_lock(tx, lock);
    lemma_with_lock_only(tupled, tx, lock);
    lemma_only_locks(tupled, locked, tx);
    let gone = ChangeModel::Delete(table, row);
    let come = ChangeModel::Insert(table, version);
    let middle = locked.with_change(tx, gone);
    lemma_with_change(locked, tx, gone);
    let after = middle.with_change(tx, come);
    lemma_with_change(middle, tx, come);
    assert(after == crate::sql_write::update_row(db, table, updates, row).0);
    let changes = db.context(tx).changes;
    assert(keyed.context(tx).changes == changes);
    assert(tupled.context(tx).changes == changes);
    assert(locked.context(tx).changes == changes);
    assert(keyed.has_tx(tx) && tupled.has_tx(tx) && locked.has_tx(tx));
    assert(middle.context(tx).changes == changes.push(gone));
    assert(middle.has_tx(tx)) by {
        lemma_tx_index(locked.transactions, tx, 0);
        lemma_tx_index(middle.transactions, tx, 0);
    }
    assert(after.context(tx).changes == changes.push(gone).push(come));
    assert(after.tables == db.tables);
    lemma_visible_push(db.table(name).rows, name, changes, gone, 0);
    lemma_visible_push(db.table(name).rows, name, changes.push(gone), come, 0);
}

/// The rows that a transaction sees of a table share no unique tuple after
/// an update where they shared none before and where the new version
/// shares none with the other rows. The update itself holds the new
/// version against the committed rows only.
pub proof fn lemma_update_unique(db: DbModel, table: Seq<char>, updates: Seq<SqlModel>, row: RowModel)
    requires
        crate::sql_write::update_row(db, table, updates, row).1 is Ok,
        db.has_tx(db.cur_tx),
        crate::integrity::unique_rows(db.rows(db.cur_tx, table), db.table(table).unique),
        !crate::sql_write::shares_unique(
            db.rows(db.cur_tx, table),
            db.table(table).unique,
            updated_row(updates, row),
        ),
    ensures
        crate::integrity::unique_rows(
            crate::sql_write::update_row(db, table, updates, row).0.rows(db.cur_tx, table),
            crate::sql_write::update_row(db, table, updates, row).0.table(table).unique,
        ),
{
    lemma_update_seen(db, table, updates, row, table);
    let version = updated_row(updates, row);
    let rows = db.rows(db.cur_tx, table);
    let indexes = db.table(table).unique;
    let kept = crate::sql_interpreter::without_rid(rows, row.rid);
    let more = kept.push(version);
    assert forall|i: int| 0 <= i < kept.len() implies rows.contains(#[trigger] kept[i]) by {
        assert(kept.contains(kept[i]));
        rows.lemma_filter_contains_rev(|r: RowModel| r.rid != row.rid, kept[i]);
    }
    assert forall|u: int, i: int, j: int|
        #![trigger indexes[u], more[i], more[j]]
        0 <= u < indexes.len() && 0 <= i < more.len() && 0 <= j < more.len() && more[i].rid
            != more[j].rid implies crate::store::unique_tuple(indexes[u], more[i].cells)
        != crate::store::unique_tuple(indexes[u], more[j].cells) by {
        assert(!crate::sql_write::shares_tuple(rows, indexes[u], version));
        if i < kept.len() && j < kept.len() {
            assert(rows.contains(kept[i]) && rows.contains(kept[j]));
            let a = choose|a: int| 0 <= a < rows.len() && rows[a] == kept[i];
            let b = choose|b: int| 0 <= b < rows.len() && rows[b] == kept[j];
            assert(more[i] == rows[a] && more[j] == rows[b]);
        } else if i < kept.len() {
            assert(rows.contains(kept[i]));
            let a = choose|a: int| 0 <= a < rows.len() && rows[a] == kept[i];
            assert(more[i] == rows[a]);
        } else if j < kept.len() {
            assert(rows.contains(kept[j]));
            let b = choose|b: int| 0 <= b < rows.len() && rows[b] == kept[j];
            assert(more[j] == rows[b]);
        }
    }
}

} // verus!
