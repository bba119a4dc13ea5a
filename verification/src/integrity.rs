//! Why no two committed rows ever share a row identifier.
//!
//! A database is sound where its committed rows have distinct identifiers
//! and the pending changes of its open transactions can be committed, in
//! any order of the transactions, without breaking that. Every operation of
//! the database keeps a sound database sound.

use crate::sql_interpreter::{
    apply_change, commit_change, commit_changes, ensure_table, lemma_table_index,
    lemma_tx_index, table_index, tx_index, visible, without_rid, ContextEntries, DbModel,
    TableEntries,
};
use crate::store::{
    any_conflict, conflicts, empty_table, ChangeModel, ContextModel, LockModel, RowId, RowModel,
    TableModel, TransactionId,
};
use vstd::prelude::*;

verus! {

/// A place that a row can take: a table name with a row identifier.
pub type Place = (Seq<char>, RowId);

/// Whether one of the rows has the identifier.
pub open spec fn rid_in(rows: Seq<RowModel>, r: RowId) -> bool {
    exists|k: int| 0 <= k < rows.len() && (#[trigger] rows[k]).rid == r
}

/// Whether no two of the rows share an identifier.
pub open spec fn distinct_rows(rows: Seq<RowModel>) -> bool {
    forall|a: int, b: int|
        0 <= a < b < rows.len() ==> (#[trigger] rows[a]).rid != (#[trigger] rows[b]).rid
}

/// Taking an identifier out of rows leaves the other identifiers, and
/// leaves distinct identifiers distinct.
pub proof fn lemma_without_rid(rows: Seq<RowModel>, x: RowId)
    ensures
        forall|r: RowId|
            #![trigger rid_in(without_rid(rows, x), r)]
            #![trigger rid_in(rows, r)]
            rid_in(without_rid(rows, x), r) <==> rid_in(rows, r) && r != x,
        distinct_rows(rows) ==> distinct_rows(without_rid(rows, x)),
    decreases rows.len(),
{
    let keep = |r: RowModel| r.rid != x;
    reveal(Seq::filter);
    if rows.len() == 0 {
        assert(without_rid(rows, x) =~= rows);
    } else {
        let front = rows.drop_last();
        let last = rows.last();
        lemma_without_rid(front, x);
        let kept = without_rid(front, x);
        assert(without_rid(rows, x) == if keep(last) {
            kept.push(last)
        } else {
            kept
        });
        assert forall|r: RowId|
            #![trigger rid_in(without_rid(rows, x), r)]
            #![trigger rid_in(rows, r)]
            rid_in(without_rid(rows, x), r) <==> rid_in(rows, r) && r != x by {
            if rid_in(without_rid(rows, x), r) {
                let k = choose|k: int|
                    0 <= k < without_rid(rows, x).len() && (#[trigger] without_rid(rows, x)[k]).rid
                        == r;
                if k < kept.len() {
                    assert(kept[k].rid == r);
                    assert(rid_in(kept, r));
                    let j = choose|j: int| 0 <= j < front.len() && (#[trigger] front[j]).rid == r;
                    assert(rows[j].rid == r);
                } else {
                    assert(rows[rows.len() - 1].rid == r);
                }
            }
            if rid_in(rows, r) && r != x {
                let j = choose|j: int| 0 <= j < rows.len() && (#[trigger] rows[j]).rid == r;
                if j < front.len() {
                    assert(front[j].rid == r);
                    assert(rid_in(front, r));
                    let k = choose|k: int| 0 <= k < kept.len() && (#[trigger] kept[k]).rid == r;
                    assert(without_rid(rows, x)[k].rid == r);
                } else {
                    assert(without_rid(rows, x)[kept.len() as int].rid == r);
                }
            }
        }
        if distinct_rows(rows) {
            assert(distinct_rows(front)) by {
                assert forall|a: int, b: int| 0 <= a < b < front.len() implies (
                #[trigger] front[a]).rid != (#[trigger] front[b]).rid by {
                    assert(rows[a].rid != rows[b].rid);
                }
            }
            if keep(last) {
                assert forall|a: int, b: int| 0 <= a < b < kept.push(last).len() implies (
                #[trigger] kept.push(last)[a]).rid != (#[trigger] kept.push(last)[b]).rid by {
                    if b < kept.len() {
                        assert(kept[a].rid != kept[b].rid);
                    } else {
                        assert(rid_in(kept, kept[a].rid));
                        assert(rid_in(front, kept[a].rid));
                        let j = choose|j: int|
                            0 <= j < front.len() && (#[trigger] front[j]).rid == kept[a].rid;
                        assert(rows[j].rid != rows[rows.len() - 1].rid);
                    }
                }
            }
        }
    }
}

/// Whether no table has a row with the identifier among the places.
pub open spec fn free(places: Set<Place>, r: RowId) -> bool {
    forall|t: Seq<char>| !(#[trigger] places.contains((t, r)))
}

/// Whether each identifier among the places is in one table only.
pub open spec fn single(places: Set<Place>) -> bool {
    forall|t1: Seq<char>, t2: Seq<char>, r: RowId|
        (#[trigger] places.contains((t1, r))) && (#[trigger] places.contains((t2, r))) ==> t1 == t2
}

/// Whether a change can be made to the places without giving an identifier
/// a second row: an insert needs the identifier to be free.
pub open spec fn allowed(places: Set<Place>, change: ChangeModel) -> bool {
    match change {
        ChangeModel::Insert(_, row) => free(places, row.rid),
        ChangeModel::Delete(_, _) => true,
    }
}

/// The places after a change.
pub open spec fn after_change(places: Set<Place>, change: ChangeModel) -> Set<Place> {
    match change {
        ChangeModel::Insert(t, row) => places.insert((t, row.rid)),
        ChangeModel::Delete(t, row) => places.remove((t, row.rid)),
    }
}

/// Whether the changes from position `from` on can be made to the places,
/// in order.
pub open spec fn can_commit(places: Set<Place>, changes: Seq<ChangeModel>, from: int) -> bool
    decreases changes.len() - from,
{
    if from < 0 || from >= changes.len() {
        true
    } else {
        allowed(places, changes[from]) && can_commit(
            after_change(places, changes[from]),
            changes,
            from + 1,
        )
    }
}

/// The places after the changes from position `from` on.
pub open spec fn places_after(places: Set<Place>, changes: Seq<ChangeModel>, from: int) -> Set<
    Place,
>
    decreases changes.len() - from,
{
    if from < 0 || from >= changes.len() {
        places
    } else {
        places_after(after_change(places, changes[from]), changes, from + 1)
    }
}

/// Whether one of the changes from position `from` on inserts a row with
/// the identifier.
pub open spec fn inserts(changes: Seq<ChangeModel>, r: RowId, from: int) -> bool {
    exists|k: int|
        from <= k < changes.len() && 0 <= k && (#[trigger] changes[k]) is Insert
            && changes[k]->Insert_1.rid == r
}

/// A change that is allowed leaves each identifier in one table only.
pub proof fn lemma_change_single(places: Set<Place>, change: ChangeModel)
    requires
        single(places),
        allowed(places, change),
    ensures
        single(after_change(places, change)),
{
    let next = after_change(places, change);
    assert forall|t1: Seq<char>, t2: Seq<char>, r: RowId|
        (#[trigger] next.contains((t1, r))) && (#[trigger] next.contains((t2, r))) implies t1
        == t2 by {
        match change {
            ChangeModel::Insert(t, row) => {
                if r == row.rid {
                    assert(!places.contains((t1, r)));
                    assert(!places.contains((t2, r)));
                } else {
                    assert(places.contains((t1, r)));
                    assert(places.contains((t2, r)));
                }
            },
            ChangeModel::Delete(t, row) => {
                assert(places.contains((t1, r)));
                assert(places.contains((t2, r)));
            },
        }
    }
}

/// Changes that can be made leave each identifier in one table only, and
/// take up no place that was not taken before or is inserted into.
pub proof fn lemma_places_after(places: Set<Place>, changes: Seq<ChangeModel>, from: int)
    requires
        0 <= from,
        single(places),
        can_commit(places, changes, from),
    ensures
        single(places_after(places, changes, from)),
        forall|t: Seq<char>, r: RowId| #[trigger]
            places_after(places, changes, from).contains((t, r)) ==> places.contains((t, r))
                || inserts(changes, r, from),
    decreases changes.len() - from,
{
    if from < changes.len() {
        let next = after_change(places, changes[from]);
        lemma_change_single(places, changes[from]);
        lemma_places_after(next, changes, from + 1);
        assert forall|t: Seq<char>, r: RowId| #[trigger]
            places_after(places, changes, from).contains((t, r)) implies places.contains((t, r))
            || inserts(changes, r, from) by {
            if next.contains((t, r)) {
                if !places.contains((t, r)) {
                    assert(changes[from] is Insert && changes[from]->Insert_1.rid == r);
                }
            } else {
                assert(inserts(changes, r, from + 1));
                let k = choose|k: int|
                    from + 1 <= k < changes.len() && 0 <= k && (#[trigger] changes[k]) is Insert
                        && changes[k]->Insert_1.rid == r;
                assert(from <= k && changes[k] is Insert);
            }
        }
    }
}

/// Changes that can be made to places can be made to other places that
/// hold nothing more, but for identifiers that the changes do not insert.
pub proof fn lemma_can_commit_elsewhere(
    places: Set<Place>,
    other: Set<Place>,
    changes: Seq<ChangeModel>,
    from: int,
)
    requires
        0 <= from,
        can_commit(places, changes, from),
        forall|t: Seq<char>, r: RowId| #[trigger]
            other.contains((t, r)) ==> places.contains((t, r)) || !inserts(changes, r, from),
    ensures
        can_commit(other, changes, from),
    decreases changes.len() - from,
{
    if from < changes.len() {
        let change = changes[from];
        let next = after_change(places, change);
        let other_next = after_change(other, change);
        match change {
            ChangeModel::Insert(t0, row) => {
                assert(inserts(changes, row.rid, from));
                assert forall|t: Seq<char>| !(#[trigger] other.contains((t, row.rid))) by {
                    assert(!places.contains((t, row.rid)));
                }
            },
            ChangeModel::Delete(_, _) => {},
        }
        assert forall|t: Seq<char>, r: RowId| #[trigger]
            other_next.contains((t, r)) implies next.contains((t, r)) || !inserts(
            changes,
            r,
            from + 1,
        ) by {
            if inserts(changes, r, from + 1) {
                let k = choose|k: int|
                    from + 1 <= k < changes.len() && 0 <= k && (#[trigger] changes[k]) is Insert
                        && changes[k]->Insert_1.rid == r;
                assert(from <= k && changes[k] is Insert);
                assert(inserts(changes, r, from));
                match change {
                    ChangeModel::Insert(t0, row) => {
                        if (t, r) != (t0, row.rid) {
                            assert(other.contains((t, r)));
                            assert(places.contains((t, r)));
                        }
                    },
                    ChangeModel::Delete(t0, row) => {
                        assert(other.contains((t, r)));
                        assert(places.contains((t, r)));
                    },
                }
            }
        }
        lemma_can_commit_elsewhere(next, other_next, changes, from + 1);
    }
}

/// Changes that can be made can be made with one more change behind them
/// that is allowed once they are made, and lead to the places after it.
pub proof fn lemma_can_commit_more(
    places: Set<Place>,
    changes: Seq<ChangeModel>,
    change: ChangeModel,
    from: int,
)
    requires
        0 <= from <= changes.len(),
        can_commit(places, changes, from),
        allowed(places_after(places, changes, from), change),
    ensures
        can_commit(places, changes.push(change), from),
        places_after(places, changes.push(change), from) == after_change(
            places_after(places, changes, from),
            change,
        ),
    decreases changes.len() - from,
{
    let more = changes.push(change);
    if from < changes.len() {
        assert(more[from] == changes[from]);
        let next = after_change(places, changes[from]);
        lemma_can_commit_more(next, changes, change, from + 1);
        assert(can_commit(next, more, from + 1));
        assert(after_change(places, more[from]) == next);
        assert(allowed(places, more[from]));
        assert(can_commit(places, more, from));
        assert(places_after(places, more, from) == places_after(next, more, from + 1));
        assert(places_after(places, changes, from) == places_after(next, changes, from + 1));
    } else {
        assert(more[from] == change);
        assert(places_after(places, changes, from) == places);
        assert(allowed(places, more[from]));
        assert(can_commit(after_change(places, more[from]), more, from + 1));
        assert(can_commit(places, more, from));
        assert(places_after(places, more, from) == places_after(
            after_change(places, change),
            more,
            from + 1,
        ));
        assert(places_after(after_change(places, change), more, from + 1) == after_change(
            places,
            change,
        ));
    }
}

/// The rows of a table after changes that can be made are distinct, and are
/// those whose places are taken after the changes.
pub proof fn lemma_visible_places(
    rows: Seq<RowModel>,
    table: Seq<char>,
    changes: Seq<ChangeModel>,
    from: int,
    places: Set<Place>,
)
    requires
        0 <= from,
        distinct_rows(rows),
        forall|r: RowId|
            #![trigger rid_in(rows, r)]
            #![trigger places.contains((table, r))]
            rid_in(rows, r) <==> places.contains((table, r)),
        can_commit(places, changes, from),
    ensures
        distinct_rows(visible(rows, table, changes, from)),
        forall|r: RowId|
            #![trigger rid_in(visible(rows, table, changes, from), r)]
            #![trigger places_after(places, changes, from).contains((table, r))]
            rid_in(visible(rows, table, changes, from), r) <==> places_after(
                places,
                changes,
                from,
            ).contains((table, r)),
    decreases changes.len() - from,
{
    if from < changes.len() {
        let change = changes[from];
        let next_rows = apply_change(rows, table, change);
        let next = after_change(places, change);
        match change {
            ChangeModel::Insert(t, row) => {
                if t == table {
                    assert(!places.contains((table, row.rid)));
                    assert(!rid_in(rows, row.rid));
                    assert forall|a: int, b: int| 0 <= a < b < next_rows.len() implies (
                    #[trigger] next_rows[a]).rid != (#[trigger] next_rows[b]).rid by {
                        if b < rows.len() {
                            assert(rows[a].rid != rows[b].rid);
                        } else {
                            assert(rows[a].rid != row.rid);
                        }
                    }
                    assert forall|r: RowId|
                        #![trigger rid_in(next_rows, r)]
                        #![trigger next.contains((table, r))]
                        rid_in(next_rows, r) <==> next.contains((table, r)) by {
                        assert(rid_in(rows, r) <==> places.contains((table, r)));
                        if rid_in(next_rows, r) {
                            let k = choose|k: int|
                                0 <= k < next_rows.len() && (#[trigger] next_rows[k]).rid == r;
                            if k < rows.len() {
                                assert(rows[k].rid == r);
                            }
                        }
                        if next.contains((table, r)) {
                            if r == row.rid {
                                assert(next_rows[rows.len() as int].rid == r);
                            } else {
                                assert(rid_in(rows, r));
                                let k = choose|k: int|
                                    0 <= k < rows.len() && (#[trigger] rows[k]).rid == r;
                                assert(next_rows[k].rid == r);
                            }
                        }
                    }
                } else {
                    assert forall|r: RowId|
                        #![trigger rid_in(next_rows, r)]
                        #![trigger next.contains((table, r))]
                        rid_in(next_rows, r) <==> next.contains((table, r)) by {
                        assert(rid_in(rows, r) <==> places.contains((table, r)));}
                }
            },
            ChangeModel::Delete(t, row) => {
                if t == table {
                    lemma_without_rid(rows, row.rid);
                } else {
                    assert forall|r: RowId|
                        #![trigger rid_in(next_rows, r)]
                        #![trigger next.contains((table, r))]
                        rid_in(next_rows, r) <==> next.contains((table, r)) by {
                        assert(rid_in(rows, r) <==> places.contains((table, r)));}
                }
            },
        }
        lemma_visible_places(next_rows, table, changes, from + 1, next);
    }
}

/// The committed rows of the table named `name`; none where there is no
/// such table.
pub open spec fn table_rows(tables: TableEntries, name: Seq<char>) -> Seq<RowModel> {
    match table_index(tables, name, 0) {
        Some(i) => tables[i].1.rows,
        None => Seq::empty(),
    }
}

/// Changing what a table holds, but not its name, changes no position of a
/// table.
pub proof fn lemma_index_after_update(
    tables: TableEntries,
    at: int,
    table: TableModel,
    name: Seq<char>,
    from: int,
)
    requires
        0 <= at < tables.len(),
        0 <= from,
    ensures
        table_index(tables.update(at, (tables[at].0, table)), name, from) == table_index(
            tables,
            name,
            from,
        ),
    decreases tables.len() - from,
{
    let changed = tables.update(at, (tables[at].0, table));
    if from < tables.len() {
        assert(changed[from].0 == tables[from].0);
        if tables[from].0 != name {
            lemma_index_after_update(tables, at, table, name, from + 1);
        }
    }
}

/// A table added at the end is found under its name where no table had the
/// name, and changes no other position.
pub proof fn lemma_index_after_push(
    tables: TableEntries,
    added: (Seq<char>, TableModel),
    name: Seq<char>,
    from: int,
)
    requires
        0 <= from <= tables.len(),
    ensures
        table_index(tables.push(added), name, from) == match table_index(tables, name, from) {
            Some(i) => Some(i),
            None => if added.0 == name {
                Some(tables.len() as int)
            } else {
                None
            },
        },
    decreases tables.len() - from,
{
    let more = tables.push(added);
    if from < tables.len() {
        assert(more[from] == tables[from]);
        if tables[from].0 != name {
            lemma_index_after_push(tables, added, name, from + 1);
        }
    } else {
        assert(more[from] == added);
        assert(table_index(more, name, from + 1).is_none());
    }
}

/// Taking an identifier out of no rows leaves no rows.
pub proof fn lemma_without_rid_empty(x: RowId)
    ensures
        without_rid(Seq::<RowModel>::empty(), x) == Seq::<RowModel>::empty(),
{
    reveal(Seq::filter);
    assert(without_rid(Seq::<RowModel>::empty(), x) =~= Seq::<RowModel>::empty());
}

/// A committed change does to the rows of each table what the change says.
pub proof fn lemma_commit_change_rows(tables: TableEntries, change: ChangeModel, name: Seq<char>)
    ensures
        table_rows(commit_change(tables, change), name) == apply_change(
            table_rows(tables, name),
            name,
            change,
        ),
{
    lemma_table_index(tables, name, 0);
    match change {
        ChangeModel::Insert(t, row) => {
            let present = ensure_table(tables, t);
            lemma_table_index(tables, t, 0);
            lemma_index_after_push(tables, (t, empty_table()), t, 0);
            lemma_index_after_push(tables, (t, empty_table()), name, 0);
            lemma_table_index(present, t, 0);
            let i = table_index(present, t, 0).unwrap();
            let table = TableModel { rows: present[i].1.rows.push(row), ..present[i].1 };
            lemma_index_after_update(present, i, table, name, 0);
            lemma_table_index(present, name, 0);
            if t == name {
                if table_index(tables, t, 0).is_none() {
                    assert(present[i].1.rows =~= Seq::<RowModel>::empty());
                }
            }
        },
        ChangeModel::Delete(t, row) => {
            lemma_table_index(tables, t, 0);
            match table_index(tables, t, 0) {
                Some(i) => {
                    let table = TableModel {
                        rows: without_rid(tables[i].1.rows, row.rid),
                        ..tables[i].1
                    };
                    lemma_index_after_update(tables, i, table, name, 0);
                },
                None => {
                    lemma_without_rid_empty(row.rid);
                },
            }
        },
    }
}

/// Committed changes do to the rows of each table what the changes say:
/// what a transaction sees of a table before it commits is what the table
/// holds once it has committed.
pub proof fn lemma_commit_changes_rows(
    tables: TableEntries,
    changes: Seq<ChangeModel>,
    from: int,
    name: Seq<char>,
)
    requires
        0 <= from,
    ensures
        table_rows(commit_changes(tables, changes, from), name) == visible(
            table_rows(tables, name),
            name,
            changes,
            from,
        ),
    decreases changes.len() - from,
{
    if from < changes.len() {
        lemma_commit_change_rows(tables, changes[from], name);
        lemma_commit_changes_rows(commit_change(tables, changes[from]), changes, from + 1, name);
    }
}

/// The places that the committed rows take.
pub open spec fn occupied(tables: TableEntries) -> Set<Place> {
    Set::new(|p: Place| rid_in(table_rows(tables, p.0), p.1))
}

/// Whether no two committed rows share an identifier: not within a table,
/// not between tables.
pub open spec fn distinct_rids(tables: TableEntries) -> bool {
    &&& forall|name: Seq<char>| distinct_rows(#[trigger] table_rows(tables, name))
    &&& single(occupied(tables))
}

/// Changes that can be committed keep the committed rows distinct, and the
/// places taken afterwards are those that the changes lead to.
pub proof fn lemma_commit_distinct(tables: TableEntries, changes: Seq<ChangeModel>)
    requires
        distinct_rids(tables),
        can_commit(occupied(tables), changes, 0),
    ensures
        distinct_rids(commit_changes(tables, changes, 0)),
        occupied(commit_changes(tables, changes, 0)) == places_after(occupied(tables), changes, 0),
{
    let after = commit_changes(tables, changes, 0);
    let places = occupied(tables);
    assert forall|name: Seq<char>| distinct_rows(#[trigger] table_rows(after, name)) && (forall|
        r: RowId,
    |
        rid_in(table_rows(after, name), r) <==> #[trigger] places_after(places, changes, 0).contains(
            (name, r),
        )) by {
        lemma_commit_changes_rows(tables, changes, 0, name);
        assert(distinct_rows(table_rows(tables, name)));
        assert forall|r: RowId|
            #![trigger rid_in(table_rows(tables, name), r)]
            #![trigger places.contains((name, r))]
            rid_in(table_rows(tables, name), r) <==> places.contains((name, r)) by {}
        lemma_visible_places(table_rows(tables, name), name, changes, 0, places);
    }
    assert forall|p: Place| occupied(after).contains(p) <==> places_after(
        places,
        changes,
        0,
    ).contains(p) by {
        assert(distinct_rows(table_rows(after, p.0)));
        assert(rid_in(table_rows(after, p.0), p.1) <==> places_after(places, changes, 0).contains(
            (p.0, p.1),
        ));
        assert((p.0, p.1) == p);
    }
    assert(occupied(after) =~= places_after(places, changes, 0));
    lemma_places_after(places, changes, 0);
}

/// Whether one of the locks is the update lock on the row.
pub open spec fn holds_update(locks: Seq<LockModel>, r: RowId) -> bool {
    exists|k: int| 0 <= k < locks.len() && #[trigger] locks[k] == LockModel::RowUpdate(r)
}

/// Whether a transaction is in order within a database: its changes can be
/// committed as the tables stand, and each row identifier that it inserts
/// has been given out, and is either one that it holds the update lock on
/// or one that no committed row has.
pub open spec fn guarded(db: DbModel, context: ContextModel) -> bool {
    &&& can_commit(occupied(db.tables), context.changes, 0)
    &&& forall|r: RowId| #[trigger]
        inserts(context.changes, r, 0) ==> r.0 <= db.rid.0 && (holds_update(context.locks, r)
            || free(occupied(db.tables), r))
}

/// Whether no two open transactions insert a row with the same identifier.
pub open spec fn apart(transactions: ContextEntries) -> bool {
    forall|i: int, j: int, r: RowId|
        #![trigger inserts(transactions[i].1.changes, r, 0), inserts(transactions[j].1.changes, r, 0)]
        0 <= i < transactions.len() && 0 <= j < transactions.len() && i != j ==> !(inserts(
            transactions[i].1.changes,
            r,
            0,
        ) && inserts(transactions[j].1.changes, r, 0))
}

/// Whether a database is sound: no two committed rows share a row
/// identifier, every identifier in use has been given out, every open
/// transaction is in order, and no two of them insert the same identifier.
pub open spec fn sound(db: DbModel) -> bool {
    &&& db.wf()
    &&& distinct_rids(db.tables)
    &&& forall|t: Seq<char>, r: RowId| #[trigger]
        occupied(db.tables).contains((t, r)) ==> r.0 <= db.rid.0
    &&& forall|i: int|
        0 <= i < db.transactions.len() ==> guarded(db, (#[trigger] db.transactions[i]).1)
    &&& apart(db.transactions)
}

/// In a sound database no two committed rows share a row identifier: two
/// rows of one table do not, and rows of two tables do not.
pub proof fn lemma_sound_distinct(db: DbModel, t1: Seq<char>, a: int, t2: Seq<char>, b: int)
    requires
        sound(db),
        0 <= a < db.table(t1).rows.len(),
        0 <= b < db.table(t2).rows.len(),
        t1 != t2 || a != b,
    ensures
        db.table(t1).rows[a].rid != db.table(t2).rows[b].rid,
{
    assert(db.table(t1).rows == table_rows(db.tables, t1));
    assert(db.table(t2).rows == table_rows(db.tables, t2));
    let rows1 = table_rows(db.tables, t1);
    let rows2 = table_rows(db.tables, t2);
    if t1 == t2 {
        assert(distinct_rows(rows1));
        if a < b {
            assert(rows1[a].rid != rows1[b].rid);
        } else {
            assert(rows1[b].rid != rows1[a].rid);
        }
    } else {
        if rows1[a].rid == rows2[b].rid {
            let r = rows1[a].rid;
            assert(rid_in(rows1, r));
            assert(rid_in(rows2, r));
            assert(occupied(db.tables).contains((t1, r)));
            assert(occupied(db.tables).contains((t2, r)));
        }
    }
}

/// The empty database is sound.
pub proof fn lemma_sound_empty()
    ensures
        sound(crate::sql_interpreter::empty_db()),
{
    let db = crate::sql_interpreter::empty_db();
    assert forall|name: Seq<char>| table_rows(db.tables, name) == Seq::<RowModel>::empty() by {}
    assert forall|t: Seq<char>, r: RowId| !(#[trigger] occupied(db.tables).contains((t, r))) by {
        assert(table_rows(db.tables, t) == Seq::<RowModel>::empty());
    }
}

/// A database is sound whatever transaction it acts for and whatever
/// foreign keys it has.
pub proof fn lemma_sound_frame(db: DbModel, other: DbModel)
    requires
        sound(db),
        other.tables == db.tables,
        other.transactions == db.transactions,
        other.tx == db.tx,
        other.rid.0 >= db.rid.0,
    ensures
        sound(other),
{
    assert forall|i: int| 0 <= i < other.transactions.len() implies guarded(
        other,
        (#[trigger] other.transactions[i]).1,
    ) by {
        assert(guarded(db, db.transactions[i].1));
    }
}

/// A database stays sound where its tables change but the rows of each
/// table stay.
pub proof fn lemma_sound_same_rows(db: DbModel, tables: TableEntries)
    requires
        sound(db),
        forall|name: Seq<char>| #[trigger] table_rows(tables, name) == table_rows(db.tables, name),
    ensures
        sound(DbModel { tables, ..db }),
        occupied(tables) == occupied(db.tables),
{
    let other = DbModel { tables, ..db };
    assert forall|p: Place| occupied(tables).contains(p) <==> occupied(db.tables).contains(p) by {
        assert(table_rows(tables, p.0) == table_rows(db.tables, p.0));
    }
    assert(occupied(tables) =~= occupied(db.tables));
    assert forall|name: Seq<char>| distinct_rows(#[trigger] table_rows(tables, name)) by {
        assert(distinct_rows(table_rows(db.tables, name)));
    }
    assert forall|i: int| 0 <= i < other.transactions.len() implies guarded(
        other,
        (#[trigger] other.transactions[i]).1,
    ) by {
        assert(guarded(db, db.transactions[i].1));
    }
}

/// Making sure that a table is there changes no rows.
pub proof fn lemma_ensure_table_rows(tables: TableEntries, name: Seq<char>, other: Seq<char>)
    ensures
        table_rows(ensure_table(tables, name), other) == table_rows(tables, other),
        table_index(ensure_table(tables, name), name, 0).is_some(),
{
    lemma_table_index(tables, name, 0);
    lemma_index_after_push(tables, (name, empty_table()), other, 0);
    lemma_index_after_push(tables, (name, empty_table()), name, 0);
    lemma_table_index(tables, other, 0);
    if table_index(tables, name, 0).is_none() {
        assert(empty_table().rows =~= Seq::<RowModel>::empty());
    }
}

/// Opening a transaction keeps a database sound.
pub proof fn lemma_sound_open(db: DbModel)
    requires
        sound(db),
        db.tx.0 < usize::MAX,
    ensures
        sound(db.open()),
{
    let after = db.open();
    let n = db.transactions.len() as int;
    assert forall|i: int| 0 <= i < after.transactions.len() implies guarded(
        after,
        (#[trigger] after.transactions[i]).1,
    ) by {
        if i < n {
            assert(after.transactions[i] == db.transactions[i]);
            assert(guarded(db, db.transactions[i].1));
        } else {
            assert(after.transactions[i].1.changes.len() == 0);
        }
    }
    assert forall|i: int, j: int, r: RowId|
        #![trigger inserts(after.transactions[i].1.changes, r, 0), inserts(after.transactions[j].1.changes, r, 0)]
        0 <= i < after.transactions.len() && 0 <= j < after.transactions.len() && i
            != j implies !(inserts(after.transactions[i].1.changes, r, 0) && inserts(
        after.transactions[j].1.changes,
        r,
        0,
    )) by {
        if i < n && j < n {
            assert(after.transactions[i] == db.transactions[i]);
            assert(after.transactions[j] == db.transactions[j]);
        } else if i == n {
            assert(after.transactions[i].1.changes.len() == 0);
        } else {
            assert(after.transactions[j].1.changes.len() == 0);
        }
    }
    assert forall|i: int, j: int| 0 <= i < j < after.transactions.len() implies (
    #[trigger] after.transactions[i]).0 != (#[trigger] after.transactions[j]).0 by {
        if j < n {
            assert(after.transactions[i] == db.transactions[i]);
            assert(after.transactions[j] == db.transactions[j]);
        } else {
            assert(after.transactions[i] == db.transactions[i]);
            assert(db.transactions[i].0.0 <= db.tx.0);
        }
    }
    assert forall|i: int| 0 <= i < after.transactions.len() implies (
    #[trigger] after.transactions[i]).0.0 <= after.tx.0 by {
        if i < n {
            assert(after.transactions[i] == db.transactions[i]);
        }
    }
}

/// A database without one of its transactions is sound where it was.
pub proof fn lemma_sound_without(db: DbModel, at: int)
    requires
        sound(db),
        0 <= at < db.transactions.len(),
    ensures
        sound(DbModel { transactions: db.transactions.remove(at), ..db }),
{
    let rest = db.transactions.remove(at);
    let after = DbModel { transactions: rest, ..db };
    assert forall|k: int| 0 <= k < rest.len() implies #[trigger] rest[k] == db.transactions[if k
        < at {
        k
    } else {
        k + 1
    }] by {}
    assert forall|i: int| 0 <= i < rest.len() implies guarded(after, (#[trigger] rest[i]).1) by {
        let k = if i < at {
            i
        } else {
            i + 1
        };
        assert(rest[i] == db.transactions[k]);
        assert(guarded(db, db.transactions[k].1));
    }
    assert forall|i: int, j: int, r: RowId|
        #![trigger inserts(rest[i].1.changes, r, 0), inserts(rest[j].1.changes, r, 0)]
        0 <= i < rest.len() && 0 <= j < rest.len() && i != j implies !(inserts(
        rest[i].1.changes,
        r,
        0,
    ) && inserts(rest[j].1.changes, r, 0)) by {
        let ki = if i < at {
            i
        } else {
            i + 1
        };
        let kj = if j < at {
            j
        } else {
            j + 1
        };
        assert(rest[i] == db.transactions[ki]);
        assert(rest[j] == db.transactions[kj]);
        assert(!(inserts(db.transactions[ki].1.changes, r, 0) && inserts(
            db.transactions[kj].1.changes,
            r,
            0,
        )));
    }
    assert forall|i: int, j: int| 0 <= i < j < rest.len() implies (#[trigger] rest[i]).0 != (
    #[trigger] rest[j]).0 by {
        let ki = if i < at {
            i
        } else {
            i + 1
        };
        let kj = if j < at {
            j
        } else {
            j + 1
        };
        assert(rest[i] == db.transactions[ki]);
        assert(rest[j] == db.transactions[kj]);
        assert(db.transactions[ki].0 != db.transactions[kj].0);
    }
    assert forall|i: int| 0 <= i < rest.len() implies (#[trigger] rest[i]).0.0 <= after.tx.0 by {
        let k = if i < at {
            i
        } else {
            i + 1
        };
        assert(rest[i] == db.transactions[k]);
        assert(db.transactions[k].0.0 <= db.tx.0);
    }
}

/// Aborting a transaction keeps a database sound.
pub proof fn lemma_sound_abort(db: DbModel, tx: TransactionId)
    requires
        sound(db),
    ensures
        sound(db.abort(tx)),
{
    lemma_tx_index(db.transactions, tx, 0);
    match tx_index(db.transactions, tx, 0) {
        Some(i) => {
            lemma_sound_without(db, i);
        },
        None => {},
    }
}

/// Committing a transaction keeps a database sound: in particular, no two
/// committed rows share a row identifier afterwards.
pub proof fn lemma_sound_commit(db: DbModel, tx: TransactionId)
    requires
        sound(db),
    ensures
        sound(db.commit(tx)),
{
    lemma_tx_index(db.transactions, tx, 0);
    match tx_index(db.transactions, tx, 0) {
        Some(at) => {
            let mine = db.transactions[at].1.changes;
            let places = occupied(db.tables);
            let tables = commit_changes(db.tables, mine, 0);
            assert(guarded(db, db.transactions[at].1));
            lemma_commit_distinct(db.tables, mine);
            lemma_places_after(places, mine, 0);
            let taken = occupied(tables);
            let moved = DbModel { tables, ..db };
            assert forall|t: Seq<char>, r: RowId| #[trigger]
                taken.contains((t, r)) implies r.0 <= db.rid.0 by {
                if !places.contains((t, r)) {
                    assert(inserts(mine, r, 0));
                }
            }
            assert forall|i: int| 0 <= i < db.transactions.len() && i != at implies guarded(
                moved,
                (#[trigger] db.transactions[i]).1,
            ) by {
                let theirs = db.transactions[i].1;
                assert(guarded(db, theirs));
                assert forall|t: Seq<char>, r: RowId| #[trigger]
                    taken.contains((t, r)) implies places.contains((t, r)) || !inserts(
                    theirs.changes,
                    r,
                    0,
                ) by {
                    if !places.contains((t, r)) {
                        assert(inserts(mine, r, 0));
                        assert(!(inserts(db.transactions[at].1.changes, r, 0) && inserts(
                            db.transactions[i].1.changes,
                            r,
                            0,
                        )));
                    }
                }
                lemma_can_commit_elsewhere(places, taken, theirs.changes, 0);
                assert forall|r: RowId| #[trigger] inserts(theirs.changes, r, 0) implies r.0
                    <= moved.rid.0 && (holds_update(theirs.locks, r) || free(taken, r)) by {
                    if !holds_update(theirs.locks, r) {
                        assert(free(places, r));
                        assert forall|t: Seq<char>| !(#[trigger] taken.contains((t, r))) by {
                            if taken.contains((t, r)) {
                                assert(!places.contains((t, r)));
                                assert(inserts(mine, r, 0));
                                assert(!(inserts(db.transactions[at].1.changes, r, 0) && inserts(
                                    db.transactions[i].1.changes,
                                    r,
                                    0,
                                )));
                            }
                        }
                    }
                }
            }
            // with the transaction still in place, all but it are in order
            let rest = db.transactions.remove(at);
            let after = db.commit(tx);
            assert(after == DbModel { transactions: rest, ..moved });
            lemma_sound_without(db, at);
            assert forall|i: int| 0 <= i < rest.len() implies guarded(
                after,
                (#[trigger] rest[i]).1,
            ) by {
                let k = if i < at {
                    i
                } else {
                    i + 1
                };
                assert(rest[i] == db.transactions[k]);
                assert(guarded(moved, db.transactions[k].1));
            }
        },
        None => {},
    }
}

/// One more change inserts what the changes inserted and what it inserts.
pub proof fn lemma_inserts_push(changes: Seq<ChangeModel>, change: ChangeModel, r: RowId)
    ensures
        inserts(changes.push(change), r, 0) <==> inserts(changes, r, 0) || (change is Insert
            && change->Insert_1.rid == r),
{
    let more = changes.push(change);
    if inserts(more, r, 0) {
        let k = choose|k: int|
            0 <= k < more.len() && 0 <= k && (#[trigger] more[k]) is Insert
                && more[k]->Insert_1.rid == r;
        if k < changes.len() {
            assert(changes[k] == more[k]);
        }
    }
    if inserts(changes, r, 0) {
        let k = choose|k: int|
            0 <= k < changes.len() && 0 <= k && (#[trigger] changes[k]) is Insert
                && changes[k]->Insert_1.rid == r;
        assert(more[k] == changes[k]);
    }
    if change is Insert && change->Insert_1.rid == r {
        assert(more[changes.len() as int] == change);
    }
}

/// Whether `after` is `before` but for locks that the transaction `tx` has
/// taken since.
pub open spec fn only_locks(before: DbModel, after: DbModel, tx: TransactionId) -> bool {
    &&& after.cur_tx == before.cur_tx
    &&& after.tables == before.tables
    &&& after.foreign_keys == before.foreign_keys
    &&& after.tx == before.tx
    &&& after.rid == before.rid
    &&& after.transactions.len() == before.transactions.len()
    &&& forall|i: int|
        0 <= i < before.transactions.len() ==> (#[trigger] after.transactions[i]).0
            == before.transactions[i].0 && after.transactions[i].1.changes
            == before.transactions[i].1.changes && (before.transactions[i].0 != tx
            ==> after.transactions[i] == before.transactions[i]) && (forall|r: RowId| #[trigger]
            holds_update(before.transactions[i].1.locks, r) ==> holds_update(
                after.transactions[i].1.locks,
                r,
            ))
}

/// Taking locks twice is taking locks.
pub proof fn lemma_only_locks_twice(a: DbModel, b: DbModel, c: DbModel, tx: TransactionId)
    requires
        only_locks(a, b, tx),
        only_locks(b, c, tx),
    ensures
        only_locks(a, c, tx),
{
    assert forall|i: int| 0 <= i < a.transactions.len() implies (#[trigger] c.transactions[i]).0
        == a.transactions[i].0 && c.transactions[i].1.changes == a.transactions[i].1.changes && (
    a.transactions[i].0 != tx ==> c.transactions[i] == a.transactions[i]) && (forall|r: RowId| #[trigger]
        holds_update(a.transactions[i].1.locks, r) ==> holds_update(
            c.transactions[i].1.locks,
            r,
        )) by {
        assert(b.transactions[i].0 == a.transactions[i].0);
        assert(c.transactions[i].0 == b.transactions[i].0);
        assert forall|r: RowId| #[trigger]
            holds_update(a.transactions[i].1.locks, r) implies holds_update(
            c.transactions[i].1.locks,
            r,
        ) by {
            assert(holds_update(b.transactions[i].1.locks, r));
        }
    }
}

/// Which transactions are found depends on their identifiers alone.
pub proof fn lemma_index_by_ids(a: ContextEntries, b: ContextEntries, id: TransactionId, from: int)
    requires
        a.len() == b.len(),
        forall|i: int| 0 <= i < a.len() ==> (#[trigger] b[i]).0 == a[i].0,
        0 <= from,
    ensures
        tx_index(a, id, from) == tx_index(b, id, from),
    decreases a.len() - from,
{
    if from < a.len() {
        assert(b[from].0 == a[from].0);
        if a[from].0 != id {
            lemma_index_by_ids(a, b, id, from + 1);
        }
    }
}

/// A lock taken is only a lock taken.
pub proof fn lemma_with_lock_only(db: DbModel, tx: TransactionId, lock: LockModel)
    ensures
        only_locks(db, db.with_lock(tx, lock), tx),
{
    let after = db.with_lock(tx, lock);
    lemma_tx_index(db.transactions, tx, 0);
    match tx_index(db.transactions, tx, 0) {
        Some(at) => {
            assert forall|i: int| 0 <= i < db.transactions.len() implies (
            #[trigger] after.transactions[i]).0 == db.transactions[i].0
                && after.transactions[i].1.changes == db.transactions[i].1.changes && (
            db.transactions[i].0 != tx ==> after.transactions[i] == db.transactions[i]) && (forall|
                r: RowId,
            | #[trigger]
                holds_update(db.transactions[i].1.locks, r) ==> holds_update(
                    after.transactions[i].1.locks,
                    r,
                )) by {
                assert forall|r: RowId| #[trigger]
                    holds_update(db.transactions[i].1.locks, r) implies holds_update(
                    after.transactions[i].1.locks,
                    r,
                ) by {
                    let k = choose|k: int|
                        0 <= k < db.transactions[i].1.locks.len() && #[trigger] db.transactions[i].1.locks[k]
                            == LockModel::RowUpdate(r);
                    if i == at {
                        assert(after.transactions[i].1.locks[k] == LockModel::RowUpdate(r));
                    } else {
                        assert(after.transactions[i] == db.transactions[i]);
                    }
                }
            }
        },
        None => {
            assert forall|i: int| 0 <= i < db.transactions.len() implies forall|r: RowId| #[trigger]
                holds_update(db.transactions[i].1.locks, r) ==> holds_update(
                    (#[trigger] after.transactions[i]).1.locks,
                    r,
                ) by {}
        },
    }
}

/// Locks that a transaction takes keep a database sound, and change
/// neither what any transaction has pending nor what stands against the
/// transaction.
pub proof fn lemma_only_locks(before: DbModel, after: DbModel, tx: TransactionId)
    requires
        only_locks(before, after, tx),
    ensures
        sound(before) ==> sound(after),
        forall|id: TransactionId| #[trigger]
            after.context(id).changes == before.context(id).changes,
        forall|id: TransactionId| #[trigger] after.has_tx(id) == before.has_tx(id),
        forall|wanted: LockModel| #[trigger] after.blocked(tx, wanted) == before.blocked(tx, wanted),
        forall|id: TransactionId, r: RowId| #[trigger]
            holds_update(before.context(id).locks, r) ==> holds_update(after.context(id).locks, r),
{
    assert forall|id: TransactionId| #[trigger]
        after.context(id).changes == before.context(id).changes by {
        lemma_index_by_ids(before.transactions, after.transactions, id, 0);
        lemma_tx_index(before.transactions, id, 0);
    }
    assert forall|id: TransactionId| #[trigger] after.has_tx(id) == before.has_tx(id) by {
        lemma_index_by_ids(before.transactions, after.transactions, id, 0);
    }
    assert forall|id: TransactionId, r: RowId| #[trigger]
        holds_update(before.context(id).locks, r) implies holds_update(
        after.context(id).locks,
        r,
    ) by {
        lemma_index_by_ids(before.transactions, after.transactions, id, 0);
        lemma_tx_index(before.transactions, id, 0);
        match tx_index(before.transactions, id, 0) {
            Some(i) => {
                assert(after.transactions[i].0 == before.transactions[i].0);
                assert(holds_update(before.transactions[i].1.locks, r));
            },
            None => {},
        }
    }
    assert forall|wanted: LockModel| #[trigger]
        after.blocked(tx, wanted) == before.blocked(tx, wanted) by {
        if before.blocked(tx, wanted) {
            let i = choose|i: int|
                0 <= i < before.transactions.len() && (#[trigger] before.transactions[i]).0 != tx
                    && any_conflict(wanted, before.transactions[i].1.locks);
            assert(after.transactions[i] == before.transactions[i]);
        }
        if after.blocked(tx, wanted) {
            let i = choose|i: int|
                0 <= i < after.transactions.len() && (#[trigger] after.transactions[i]).0 != tx
                    && any_conflict(wanted, after.transactions[i].1.locks);
            assert(after.transactions[i].0 == before.transactions[i].0);
            assert(after.transactions[i] == before.transactions[i]);
        }
    }
    if sound(before) {
        assert forall|i: int| 0 <= i < after.transactions.len() implies guarded(
            after,
            (#[trigger] after.transactions[i]).1,
        ) by {
            assert(guarded(before, before.transactions[i].1));
            assert(after.transactions[i].1.changes == before.transactions[i].1.changes);
            assert forall|r: RowId| #[trigger]
                inserts(after.transactions[i].1.changes, r, 0) implies r.0 <= after.rid.0 && (
            holds_update(after.transactions[i].1.locks, r) || free(occupied(after.tables), r)) by {
                if holds_update(before.transactions[i].1.locks, r) {
                    assert(holds_update(after.transactions[i].1.locks, r));
                }
            }
        }
        assert forall|i: int, j: int, r: RowId|
            #![trigger inserts(after.transactions[i].1.changes, r, 0), inserts(after.transactions[j].1.changes, r, 0)]
            0 <= i < after.transactions.len() && 0 <= j < after.transactions.len() && i
                != j implies !(inserts(after.transactions[i].1.changes, r, 0) && inserts(
            after.transactions[j].1.changes,
            r,
            0,
        )) by {
            assert(after.transactions[i].1.changes == before.transactions[i].1.changes);
            assert(after.transactions[j].1.changes == before.transactions[j].1.changes);
            assert(!(inserts(before.transactions[i].1.changes, r, 0) && inserts(
                before.transactions[j].1.changes,
                r,
                0,
            )));
        }
        assert forall|i: int, j: int| 0 <= i < j < after.transactions.len() implies (
        #[trigger] after.transactions[i]).0 != (#[trigger] after.transactions[j]).0 by {
            assert(after.transactions[i].0 == before.transactions[i].0);
            assert(after.transactions[j].0 == before.transactions[j].0);
        }
        assert forall|i: int| 0 <= i < after.transactions.len() implies (
        #[trigger] after.transactions[i]).0.0 <= after.tx.0 by {
            assert(after.transactions[i].0 == before.transactions[i].0);
        }
    }
}

/// The places that a transaction's rows take: those of the committed rows
/// after its pending changes.
pub open spec fn places_of(db: DbModel, tx: TransactionId) -> Set<Place> {
    places_after(occupied(db.tables), db.context(tx).changes, 0)
}

/// Whether no committed row and no pending insert has the identifier.
pub open spec fn unused(db: DbModel, r: RowId) -> bool {
    &&& free(occupied(db.tables), r)
    &&& forall|i: int|
        0 <= i < db.transactions.len() ==> !inserts((#[trigger] db.transactions[i]).1.changes, r, 0)
}

/// A change that a transaction records is its only change: the other
/// transactions keep what they have, and the transaction its locks.
pub proof fn lemma_with_change(db: DbModel, tx: TransactionId, change: ChangeModel)
    ensures
        match tx_index(db.transactions, tx, 0) {
            Some(at) => {
                let after = db.with_change(tx, change);
                &&& 0 <= at < db.transactions.len()
                &&& db.transactions[at].0 == tx
                &&& after.transactions.len() == db.transactions.len()
                &&& after.transactions[at].0 == tx
                &&& after.transactions[at].1.locks == db.transactions[at].1.locks
                &&& after.transactions[at].1.changes == db.transactions[at].1.changes.push(change)
                &&& forall|i: int|
                    0 <= i < db.transactions.len() && i != at ==> #[trigger] after.transactions[i]
                        == db.transactions[i]
                &&& after.context(tx).changes == db.context(tx).changes.push(change)
                &&& after.tables == db.tables
                &&& after.rid == db.rid
                &&& after.tx == db.tx
                &&& after.cur_tx == db.cur_tx
            },
            None => db.with_change(tx, change) == db,
        },
        db.wf() ==> db.with_change(tx, change).wf(),
{
    lemma_tx_index(db.transactions, tx, 0);
    let after = db.with_change(tx, change);
    match tx_index(db.transactions, tx, 0) {
        Some(at) => {
            assert forall|i: int| 0 <= i < db.transactions.len() implies (
            #[trigger] after.transactions[i]).0 == db.transactions[i].0 by {}
            lemma_index_by_ids(db.transactions, after.transactions, tx, 0);
            if db.wf() {
                assert forall|i: int, j: int| 0 <= i < j < after.transactions.len() implies (
                #[trigger] after.transactions[i]).0 != (#[trigger] after.transactions[j]).0 by {
                    assert(after.transactions[i].0 == db.transactions[i].0);
                    assert(after.transactions[j].0 == db.transactions[j].0);
                }
                assert forall|i: int| 0 <= i < after.transactions.len() implies (
                #[trigger] after.transactions[i]).0.0 <= after.tx.0 by {
                    assert(after.transactions[i].0 == db.transactions[i].0);
                }
            }
        },
        None => {},
    }
}

/// Recording a delete keeps a database sound.
pub proof fn lemma_sound_delete(db: DbModel, tx: TransactionId, table: Seq<char>, row: RowModel)
    requires
        sound(db),
    ensures
        sound(db.with_change(tx, ChangeModel::Delete(table, row))),
{
    let change = ChangeModel::Delete(table, row);
    let after = db.with_change(tx, change);
    lemma_with_change(db, tx, change);
    match tx_index(db.transactions, tx, 0) {
        Some(at) => {
            let before = db.transactions[at].1.changes;
            assert(guarded(db, db.transactions[at].1));
            lemma_can_commit_more(occupied(db.tables), before, change, 0);
            assert forall|i: int| 0 <= i < after.transactions.len() implies guarded(
                after,
                (#[trigger] after.transactions[i]).1,
            ) by {
                if i == at {
                    assert forall|r: RowId| #[trigger]
                        inserts(after.transactions[i].1.changes, r, 0) implies r.0 <= after.rid.0
                        && (holds_update(after.transactions[i].1.locks, r) || free(
                        occupied(after.tables),
                        r,
                    )) by {
                        lemma_inserts_push(before, change, r);
                        assert(inserts(before, r, 0));
                    }
                } else {
                    assert(after.transactions[i] == db.transactions[i]);
                    assert(guarded(db, db.transactions[i].1));
                }
            }
            assert forall|i: int, j: int, r: RowId|
                #![trigger inserts(after.transactions[i].1.changes, r, 0), inserts(after.transactions[j].1.changes, r, 0)]
                0 <= i < after.transactions.len() && 0 <= j < after.transactions.len() && i
                    != j implies !(inserts(after.transactions[i].1.changes, r, 0) && inserts(
                after.transactions[j].1.changes,
                r,
                0,
            )) by {
                lemma_inserts_push(before, change, r);
                if i != at {
                    assert(after.transactions[i] == db.transactions[i]);
                }
                if j != at {
                    assert(after.transactions[j] == db.transactions[j]);
                }
                assert(!(inserts(db.transactions[i].1.changes, r, 0) && inserts(
                    db.transactions[j].1.changes,
                    r,
                    0,
                )));
            }
        },
        None => {},
    }
}

/// Recording an insert keeps a database sound where the identifier of the
/// row is free among the places of the transaction's rows, has been given
/// out, is inserted by no other transaction, and is one that the
/// transaction holds the update lock on or that no committed row has.
pub proof fn lemma_sound_insert(db: DbModel, tx: TransactionId, table: Seq<char>, row: RowModel)
    requires
        sound(db),
        row.rid.0 <= db.rid.0,
        free(places_of(db, tx), row.rid),
        holds_update(db.context(tx).locks, row.rid) || free(occupied(db.tables), row.rid),
        forall|i: int|
            0 <= i < db.transactions.len() && (#[trigger] db.transactions[i]).0 != tx ==> !inserts(
                db.transactions[i].1.changes,
                row.rid,
                0,
            ),
    ensures
        sound(db.with_change(tx, ChangeModel::Insert(table, row))),
{
    let change = ChangeModel::Insert(table, row);
    let after = db.with_change(tx, change);
    lemma_with_change(db, tx, change);
    match tx_index(db.transactions, tx, 0) {
        Some(at) => {
            let before = db.transactions[at].1.changes;
            assert(guarded(db, db.transactions[at].1));
            assert(db.context(tx) == db.transactions[at].1);
            lemma_can_commit_more(occupied(db.tables), before, change, 0);
            assert forall|i: int| 0 <= i < after.transactions.len() implies guarded(
                after,
                (#[trigger] after.transactions[i]).1,
            ) by {
                if i == at {
                    assert forall|r: RowId| #[trigger]
                        inserts(after.transactions[i].1.changes, r, 0) implies r.0 <= after.rid.0
                        && (holds_update(after.transactions[i].1.locks, r) || free(
                        occupied(after.tables),
                        r,
                    )) by {
                        lemma_inserts_push(before, change, r);
                        if r != row.rid {
                            assert(inserts(before, r, 0));
                        }
                    }
                } else {
                    assert(after.transactions[i] == db.transactions[i]);
                    assert(guarded(db, db.transactions[i].1));
                }
            }
            assert forall|i: int, j: int, r: RowId|
                #![trigger inserts(after.transactions[i].1.changes, r, 0), inserts(after.transactions[j].1.changes, r, 0)]
                0 <= i < after.transactions.len() && 0 <= j < after.transactions.len() && i
                    != j implies !(inserts(after.transactions[i].1.changes, r, 0) && inserts(
                after.transactions[j].1.changes,
                r,
                0,
            )) by {
                lemma_inserts_push(before, change, r);
                if i != at {
                    assert(after.transactions[i] == db.transactions[i]);
                    assert(db.transactions[i].0 != db.transactions[at].0);
                }
                if j != at {
                    assert(after.transactions[j] == db.transactions[j]);
                    assert(db.transactions[j].0 != db.transactions[at].0);
                }
                assert(!(inserts(db.transactions[i].1.changes, r, 0) && inserts(
                    db.transactions[j].1.changes,
                    r,
                    0,
                )));
            }
        },
        None => {},
    }
}

/// Giving out the next row identifier keeps a database sound, and nothing
/// has that identifier yet.
pub proof fn lemma_sound_next_rid(db: DbModel)
    requires
        sound(db),
        db.rid.0 < usize::MAX,
    ensures
        sound(DbModel { rid: RowId((db.rid.0 + 1) as usize), ..db }),
        unused(DbModel { rid: RowId((db.rid.0 + 1) as usize), ..db }, RowId((db.rid.0 + 1) as usize)),
{
    let next = RowId((db.rid.0 + 1) as usize);
    let after = DbModel { rid: next, ..db };
    lemma_sound_frame(db, after);
    assert forall|t: Seq<char>| !(#[trigger] occupied(db.tables).contains((t, next))) by {
        if occupied(db.tables).contains((t, next)) {
            assert(next.0 <= db.rid.0);
        }
    }
    assert forall|i: int| 0 <= i < db.transactions.len() implies !inserts(
        (#[trigger] db.transactions[i]).1.changes,
        next,
        0,
    ) by {
        assert(guarded(db, db.transactions[i].1));
        if inserts(db.transactions[i].1.changes, next, 0) {
            assert(next.0 <= db.rid.0);
        }
    }
}

/// The unique indexes of the table named `name`; none where there is no
/// such table.
pub open spec fn table_unique(tables: TableEntries, name: Seq<char>) -> Seq<Seq<Seq<char>>> {
    match table_index(tables, name, 0) {
        Some(i) => tables[i].1.unique,
        None => Seq::empty(),
    }
}

/// A committed change leaves the unique indexes of each table as they
/// were.
pub proof fn lemma_commit_change_unique(tables: TableEntries, change: ChangeModel, name: Seq<char>)
    ensures
        table_unique(commit_change(tables, change), name) == table_unique(tables, name),
{
    lemma_table_index(tables, name, 0);
    match change {
        ChangeModel::Insert(t, row) => {
            let present = ensure_table(tables, t);
            lemma_table_index(tables, t, 0);
            lemma_index_after_push(tables, (t, empty_table()), t, 0);
            lemma_index_after_push(tables, (t, empty_table()), name, 0);
            lemma_table_index(present, t, 0);
            let i = table_index(present, t, 0).unwrap();
            let table = TableModel { rows: present[i].1.rows.push(row), ..present[i].1 };
            lemma_index_after_update(present, i, table, name, 0);
            lemma_table_index(present, name, 0);
        },
        ChangeModel::Delete(t, row) => {
            lemma_table_index(tables, t, 0);
            match table_index(tables, t, 0) {
                Some(i) => {
                    let table = TableModel {
                        rows: without_rid(tables[i].1.rows, row.rid),
                        ..tables[i].1
                    };
                    lemma_index_after_update(tables, i, table, name, 0);
                },
                None => {},
            }
        },
    }
}

/// Committed changes leave the unique indexes of each table as they were.
pub proof fn lemma_commit_changes_unique(
    tables: TableEntries,
    changes: Seq<ChangeModel>,
    from: int,
    name: Seq<char>,
)
    requires
        0 <= from,
    ensures
        table_unique(commit_changes(tables, changes, from), name) == table_unique(tables, name),
    decreases changes.len() - from,
{
    if from < changes.len() {
        lemma_commit_change_unique(tables, changes[from], name);
        lemma_commit_changes_unique(commit_change(tables, changes[from]), changes, from + 1, name);
    }
}

/// What a table holds once a transaction has committed is what the
/// transaction saw of it, under the unique indexes that the table had; the
/// foreign keys stay as they were.
pub proof fn lemma_commit_seen(db: DbModel, tx: TransactionId, name: Seq<char>)
    requires
        db.has_tx(tx),
    ensures
        db.commit(tx).table(name).rows == db.rows(tx, name),
        db.commit(tx).table(name).unique == db.table(name).unique,
        db.commit(tx).foreign_keys == db.foreign_keys,
{
    let at = tx_index(db.transactions, tx, 0).unwrap();
    let mine = db.transactions[at].1.changes;
    lemma_commit_changes_rows(db.tables, mine, 0, name);
    lemma_commit_changes_unique(db.tables, mine, 0, name);
    assert(db.commit(tx).table(name).rows == table_rows(db.commit(tx).tables, name));
    assert(db.table(name).rows == table_rows(db.tables, name));
    assert(db.commit(tx).table(name).unique == table_unique(db.commit(tx).tables, name));
    assert(db.table(name).unique == table_unique(db.tables, name));
}

/// Whether no two of the rows, other than versions of one row, have the
/// same unique tuple under one of the indexes.
pub open spec fn unique_rows(rows: Seq<RowModel>, indexes: Seq<Seq<Seq<char>>>) -> bool {
    forall|u: int, i: int, j: int|
        #![trigger indexes[u], rows[i], rows[j]]
        0 <= u < indexes.len() && 0 <= i < rows.len() && 0 <= j < rows.len() && rows[i].rid
            != rows[j].rid ==> crate::store::unique_tuple(indexes[u], rows[i].cells)
            != crate::store::unique_tuple(indexes[u], rows[j].cells)
}

/// The committed rows of a table share no unique tuple once a transaction
/// has committed where the rows that the transaction saw of the table
/// shared none. A row that is inserted is held against the committed rows
/// and against the pending inserts of other transactions: a transaction
/// that inserts one unique tuple twice, or an index declared over rows that
/// share a tuple, is what this leaves out.
pub proof fn lemma_commit_unique(db: DbModel, tx: TransactionId, name: Seq<char>)
    requires
        db.has_tx(tx),
        unique_rows(db.rows(tx, name), db.table(name).unique),
    ensures
        unique_rows(db.commit(tx).table(name).rows, db.commit(tx).table(name).unique),
{
    lemma_commit_seen(db, tx, name);
}

/// Whether the row refers, under the foreign key, to one of the rows.
pub open spec fn has_parent(
    child: RowModel,
    parents: Seq<RowModel>,
    fk: crate::store::ForeignKeyModel,
) -> bool {
    exists|p: int|
        0 <= p < parents.len() && crate::sql_write::refers_to(
            fk,
            child.cells,
            (#[trigger] parents[p]).cells,
        )
}

/// Whether each of the rows refers, under the foreign key, to one of the
/// rows of the other list.
pub open spec fn referred(
    children: Seq<RowModel>,
    parents: Seq<RowModel>,
    fk: crate::store::ForeignKeyModel,
) -> bool {
    forall|c: int| 0 <= c < children.len() ==> has_parent(#[trigger] children[c], parents, fk)
}

/// Under a foreign key, every committed row of the referring table has a
/// committed row that it refers to once a transaction has committed,
/// where that held of the rows that the transaction saw of the two tables.
/// An insert asks for a row to refer to and a delete takes the referring
/// rows with it: an update that changes the key of a row referred to, and
/// a delete whose referring rows are referred to in turn, are what this
/// leaves out.
pub proof fn lemma_commit_parents(db: DbModel, tx: TransactionId, k: int)
    requires
        db.has_tx(tx),
        0 <= k < db.foreign_keys.len(),
        referred(
            db.rows(tx, db.foreign_keys[k].relation),
            db.rows(tx, db.foreign_keys[k].foreign_relation),
            db.foreign_keys[k],
        ),
    ensures
        db.commit(tx).foreign_keys == db.foreign_keys,
        referred(
            db.commit(tx).table(db.foreign_keys[k].relation).rows,
            db.commit(tx).table(db.foreign_keys[k].foreign_relation).rows,
            db.foreign_keys[k],
        ),
{
    lemma_commit_seen(db, tx, db.foreign_keys[k].relation);
    lemma_commit_seen(db, tx, db.foreign_keys[k].foreign_relation);
}

} // verus!
