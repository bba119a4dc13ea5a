//! The transactional database: tables, open transactions with their pending
//! changes and locks, and what commit and abort do to them.

use crate::ast::IsolationLevel;
use crate::store::{
    any_conflict, blocks, clone_keys, clone_rows, empty_context, empty_table, keys_of, locks_of,
    rows_of, ChangeModel, Changes, ContextModel, ForeignKey, ForeignKeyModel, Lock, LockModel, Row,
    RowId, RowModel, Table, TableModel, TransactionContext, TransactionId,
};
use vstd::prelude::*;

verus! {

/// The tables of a database by name, in the order in which they came to be.
pub type TableEntries = Seq<(Seq<char>, TableModel)>;

/// The open transactions of a database, in the order in which they were opened.
pub type ContextEntries = Seq<(TransactionId, ContextModel)>;

/// The content of a list of named tables.
pub open spec fn tables_of(items: Seq<(String, Table)>) -> TableEntries {
    items.map_values(|t: (String, Table)| (t.0@, t.1@))
}

/// The content of a list of open transactions.
pub open spec fn contexts_of(items: Seq<(TransactionId, TransactionContext)>) -> ContextEntries {
    items.map_values(|t: (TransactionId, TransactionContext)| (t.0, t.1@))
}

/// The position of the first table named `name` at or after `from`.
pub open spec fn table_index(tables: TableEntries, name: Seq<char>, from: int) -> Option<int>
    decreases tables.len() - from,
{
    if from < 0 || from >= tables.len() {
        None
    } else if tables[from].0 == name {
        Some(from)
    } else {
        table_index(tables, name, from + 1)
    }
}

/// The position of the first transaction with identifier `id` at or after `from`.
pub open spec fn tx_index(txs: ContextEntries, id: TransactionId, from: int) -> Option<int>
    decreases txs.len() - from,
{
    if from < 0 || from >= txs.len() {
        None
    } else if txs[from].0 == id {
        Some(from)
    } else {
        tx_index(txs, id, from + 1)
    }
}

/// What `tx_index` finds is a position of `id`, and the first one.
pub proof fn lemma_tx_index(txs: ContextEntries, id: TransactionId, from: int)
    requires
        0 <= from,
    ensures
        match tx_index(txs, id, from) {
            Some(i) => from <= i < txs.len() && txs[i].0 == id && forall|k: int|
                from <= k < i ==> txs[k].0 != id,
            None => forall|k: int| from <= k < txs.len() ==> txs[k].0 != id,
        },
    decreases txs.len() - from,
{
    if from < txs.len() && txs[from].0 != id {
        lemma_tx_index(txs, id, from + 1);
    }
}

/// What `table_index` finds is a position of `name`, and the first one.
pub proof fn lemma_table_index(tables: TableEntries, name: Seq<char>, from: int)
    requires
        0 <= from,
    ensures
        match table_index(tables, name, from) {
            Some(i) => from <= i < tables.len() && tables[i].0 == name && forall|k: int|
                from <= k < i ==> tables[k].0 != name,
            None => forall|k: int| from <= k < tables.len() ==> tables[k].0 != name,
        },
    decreases tables.len() - from,
{
    if from < tables.len() && tables[from].0 != name {
        lemma_table_index(tables, name, from + 1);
    }
}

/// The rows without those that carry the identifier `rid`.
pub open spec fn without_rid(rows: Seq<RowModel>, rid: RowId) -> Seq<RowModel> {
    rows.filter(|r: RowModel| r.rid != rid)
}

/// The rows of the table named `table` after one change: an insert into it
/// adds the row at the end, a delete from it takes the row's identifier out.
pub open spec fn apply_change(rows: Seq<RowModel>, table: Seq<char>, change: ChangeModel) -> Seq<
    RowModel,
> {
    match change {
        ChangeModel::Insert(t, r) => if t == table {
            rows.push(r)
        } else {
            rows
        },
        ChangeModel::Delete(t, r) => if t == table {
            without_rid(rows, r.rid)
        } else {
            rows
        },
    }
}

/// The rows of the table named `table` after the changes from position `from`
/// on, in order.
pub open spec fn visible(
    rows: Seq<RowModel>,
    table: Seq<char>,
    changes: Seq<ChangeModel>,
    from: int,
) -> Seq<RowModel>
    decreases changes.len() - from,
{
    if from < 0 || from >= changes.len() {
        rows
    } else {
        visible(apply_change(rows, table, changes[from]), table, changes, from + 1)
    }
}

/// The tables with a table named `name` among them: added empty at the end
/// where there was none.
pub open spec fn ensure_table(tables: TableEntries, name: Seq<char>) -> TableEntries {
    if table_index(tables, name, 0).is_some() {
        tables
    } else {
        tables.push((name, empty_table()))
    }
}

/// The tables after one committed change.
pub open spec fn commit_change(tables: TableEntries, change: ChangeModel) -> TableEntries {
    match change {
        ChangeModel::Insert(t, r) => {
            let present = ensure_table(tables, t);
            let i = table_index(present, t, 0).unwrap();
            present.update(
                i,
                (present[i].0, TableModel { rows: present[i].1.rows.push(r), ..present[i].1 }),
            )
        },
        ChangeModel::Delete(t, r) => match table_index(tables, t, 0) {
            Some(i) => tables.update(
                i,
                (
                    tables[i].0,
                    TableModel { rows: without_rid(tables[i].1.rows, r.rid), ..tables[i].1 },
                ),
            ),
            None => tables,
        },
    }
}

/// The tables after the committed changes from position `from` on, in order.
pub open spec fn commit_changes(tables: TableEntries, changes: Seq<ChangeModel>, from: int) -> TableEntries
    decreases changes.len() - from,
{
    if from < 0 || from >= changes.len() {
        tables
    } else {
        commit_changes(commit_change(tables, changes[from]), changes, from + 1)
    }
}

/// The mathematical content of a [`SqlDatabase`].
pub struct DbModel {
    pub cur_tx: TransactionId,
    pub tables: TableEntries,
    pub foreign_keys: Seq<ForeignKeyModel>,
    pub transactions: ContextEntries,
    pub tx: TransactionId,
    pub rid: RowId,
}

impl DbModel {
    /// The table named `name`; the empty table where there is none.
    pub open spec fn table(self, name: Seq<char>) -> TableModel {
        match table_index(self.tables, name, 0) {
            Some(i) => self.tables[i].1,
            None => empty_table(),
        }
    }

    /// Whether the transaction is open.
    pub open spec fn has_tx(self, id: TransactionId) -> bool {
        tx_index(self.transactions, id, 0).is_some()
    }

    /// What the transaction has done; nothing where it is not open.
    pub open spec fn context(self, id: TransactionId) -> ContextModel {
        match tx_index(self.transactions, id, 0) {
            Some(i) => self.transactions[i].1,
            None => empty_context(),
        }
    }

    /// The rows of a table as the transaction sees them: the committed rows,
    /// then its own inserts, without what it has deleted.
    pub open spec fn rows(self, tx: TransactionId, table: Seq<char>) -> Seq<RowModel> {
        visible(self.table(table).rows, table, self.context(tx).changes, 0)
    }

    /// Whether a transaction other than `tx` holds a lock that stands
    /// against `wanted`.
    pub open spec fn blocked(self, tx: TransactionId, wanted: LockModel) -> bool {
        exists|i: int|
            0 <= i < self.transactions.len() && (#[trigger] self.transactions[i]).0 != tx
                && any_conflict(wanted, self.transactions[i].1.locks)
    }

    /// Identifiers of open transactions occur once and are among those given out.
    pub open spec fn wf(self) -> bool {
        &&& forall|i: int, j: int|
            0 <= i < j < self.transactions.len() ==> (#[trigger] self.transactions[i]).0 != (
            #[trigger] self.transactions[j]).0
        &&& forall|i: int|
            0 <= i < self.transactions.len() ==> (#[trigger] self.transactions[i]).0.0 <= self.tx.0
    }

    /// The database with one more transaction open, under the next identifier.
    pub open spec fn open(self) -> DbModel {
        let id = TransactionId((self.tx.0 + 1) as usize);
        DbModel { tx: id, transactions: self.transactions.push((id, empty_context())), ..self }
    }

    /// The database with `lock` added to what the transaction holds.
    pub open spec fn with_lock(self, tx: TransactionId, lock: LockModel) -> DbModel {
        match tx_index(self.transactions, tx, 0) {
            Some(i) => DbModel {
                transactions: self.transactions.update(
                    i,
                    (
                        tx,
                        ContextModel {
                            locks: self.transactions[i].1.locks.push(lock),
                            ..self.transactions[i].1
                        },
                    ),
                ),
                ..self
            },
            None => self,
        }
    }

    /// The database with `change` added to what the transaction has pending.
    pub open spec fn with_change(self, tx: TransactionId, change: ChangeModel) -> DbModel {
        match tx_index(self.transactions, tx, 0) {
            Some(i) => DbModel {
                transactions: self.transactions.update(
                    i,
                    (
                        tx,
                        ContextModel {
                            changes: self.transactions[i].1.changes.push(change),
                            ..self.transactions[i].1
                        },
                    ),
                ),
                ..self
            },
            None => self,
        }
    }

    /// The database after the transaction has committed: its changes applied
    /// to the tables in the order made, the transaction and its locks gone.
    /// A transaction that is not open commits nothing.
    pub open spec fn commit(self, tx: TransactionId) -> DbModel {
        match tx_index(self.transactions, tx, 0) {
            Some(i) => DbModel {
                tables: commit_changes(self.tables, self.transactions[i].1.changes, 0),
                transactions: self.transactions.remove(i),
                ..self
            },
            None => self,
        }
    }

    /// The database after the transaction has aborted: the transaction, its
    /// changes and its locks gone. A transaction that is not open aborts nothing.
    pub open spec fn abort(self, tx: TransactionId) -> DbModel {
        match tx_index(self.transactions, tx, 0) {
            Some(i) => DbModel { transactions: self.transactions.remove(i), ..self },
            None => self,
        }
    }
}

/// The identifiers of the open transactions, in order.
pub open spec fn tx_ids(txs: ContextEntries) -> Seq<TransactionId> {
    Seq::new(txs.len(), |i: int| txs[i].0)
}

/// Whether `after` has the transactions of `before` open and no others, acts
/// for the same transaction and has given out the same transaction
/// identifiers.
pub open spec fn keeps_open(before: DbModel, after: DbModel) -> bool {
    &&& after.cur_tx == before.cur_tx
    &&& after.tx == before.tx
    &&& tx_ids(after.transactions) == tx_ids(before.transactions)
}

/// Which transactions are found depends on their identifiers alone.
pub proof fn lemma_tx_index_ids(a: ContextEntries, b: ContextEntries, id: TransactionId, from: int)
    requires
        tx_ids(a) == tx_ids(b),
        0 <= from,
    ensures
        tx_index(a, id, from) == tx_index(b, id, from),
    decreases a.len() - from,
{
    assert(a.len() == tx_ids(a).len());
    assert(b.len() == tx_ids(b).len());
    if from < a.len() {
        assert(a[from].0 == tx_ids(a)[from]);
        assert(b[from].0 == tx_ids(b)[from]);
        if a[from].0 != id {
            lemma_tx_index_ids(a, b, id, from + 1);
        }
    }
}

/// A database that keeps the transactions of a well-formed one is well formed.
pub proof fn lemma_keeps_wf(before: DbModel, after: DbModel)
    requires
        keeps_open(before, after),
        before.wf(),
    ensures
        after.wf(),
{
    assert(after.transactions.len() == tx_ids(after.transactions).len());
    assert(before.transactions.len() == tx_ids(before.transactions).len());
    assert forall|i: int| 0 <= i < after.transactions.len() implies (
    #[trigger] after.transactions[i]).0 == before.transactions[i].0 by {
        assert(after.transactions[i].0 == tx_ids(after.transactions)[i]);
        assert(before.transactions[i].0 == tx_ids(before.transactions)[i]);
    }
    assert forall|i: int, j: int| 0 <= i < j < after.transactions.len() implies (
    #[trigger] after.transactions[i]).0 != (#[trigger] after.transactions[j]).0 by {
        assert(before.transactions[i].0 != before.transactions[j].0);
    }
    assert forall|i: int| 0 <= i < after.transactions.len() implies (
    #[trigger] after.transactions[i]).0.0 <= after.tx.0 by {
        assert(before.transactions[i].0.0 <= before.tx.0);
    }
}

/// Taking a lock or recording a change keeps the open transactions.
pub proof fn lemma_with_keeps(db: DbModel, tx: TransactionId, lock: LockModel, change: ChangeModel)
    ensures
        keeps_open(db, db.with_lock(tx, lock)),
        keeps_open(db, db.with_change(tx, change)),
{
    lemma_tx_index(db.transactions, tx, 0);
    assert(tx_ids(db.with_lock(tx, lock).transactions) =~= tx_ids(db.transactions));
    assert(tx_ids(db.with_change(tx, change).transactions) =~= tx_ids(db.transactions));
}

/// Aborting a transaction that is not open changes nothing.
pub proof fn lemma_abort_not_open(db: DbModel, tx: TransactionId)
    requires
        !db.has_tx(tx),
    ensures
        db.abort(tx) == db,
{
}

/// Once a transaction has committed it is no longer open, so that aborting
/// it then changes nothing.
pub proof fn lemma_commit_then_abort(db: DbModel, tx: TransactionId)
    requires
        db.wf(),
    ensures
        !db.commit(tx).has_tx(tx),
        db.commit(tx).abort(tx) == db.commit(tx),
{
    lemma_tx_index(db.transactions, tx, 0);
    match tx_index(db.transactions, tx, 0) {
        Some(i) => {
            let rest = db.transactions.remove(i);
            assert forall|k: int| 0 <= k < rest.len() implies rest[k].0 != tx by {
                if k < i {
                    assert(rest[k] == db.transactions[k]);
                } else {
                    assert(rest[k] == db.transactions[k + 1]);
                    assert(db.transactions[i].0 != db.transactions[k + 1].0);
                }
            }
            lemma_tx_index(rest, tx, 0);
        },
        None => {},
    }
}

/// Once a transaction has aborted it is no longer open, so that aborting it
/// again changes nothing.
pub proof fn lemma_abort_twice(db: DbModel, tx: TransactionId)
    requires
        db.wf(),
    ensures
        !db.abort(tx).has_tx(tx),
        db.abort(tx).abort(tx) == db.abort(tx),
{
    lemma_tx_index(db.transactions, tx, 0);
    match tx_index(db.transactions, tx, 0) {
        Some(i) => {
            let rest = db.transactions.remove(i);
            assert forall|k: int| 0 <= k < rest.len() implies rest[k].0 != tx by {
                if k < i {
                    assert(rest[k] == db.transactions[k]);
                } else {
                    assert(rest[k] == db.transactions[k + 1]);
                    assert(db.transactions[i].0 != db.transactions[k + 1].0);
                }
            }
            lemma_tx_index(rest, tx, 0);
        },
        None => {},
    }
}

/// A database: committed tables, declared foreign keys, and the open
/// transactions with what each has pending.
#[derive(Debug, PartialEq, Eq)]
pub struct SqlDatabase {
    /// The transaction on whose behalf the running statement acts.
    pub cur_tx: TransactionId,
    pub tables: Vec<(String, Table)>,
    pub foreign_keys: Vec<ForeignKey>,
    pub transactions: Vec<(TransactionId, TransactionContext)>,
    /// The last transaction identifier given out.
    pub tx: TransactionId,
    /// The last row identifier given out.
    pub rid: RowId,
}

impl View for SqlDatabase {
    type V = DbModel;

    open spec fn view(&self) -> DbModel {
        DbModel {
            cur_tx: self.cur_tx,
            tables: tables_of(self.tables@),
            foreign_keys: keys_of(self.foreign_keys@),
            transactions: contexts_of(self.transactions@),
            tx: self.tx,
            rid: self.rid,
        }
    }
}

impl Clone for SqlDatabase {
    fn clone(&self) -> (r: Self)
        ensures
            r@ == self@,
    {
        let mut tables: Vec<(String, Table)> = Vec::new();
        let mut i: usize = 0;
        while i < self.tables.len()
            invariant
                i <= self.tables.len(),
                tables@.len() == i,
                forall|k: int|
                    0 <= k < i ==> tables@[k].0@ == self.tables@[k].0@ && tables@[k].1@
                        == self.tables@[k].1@,
            decreases self.tables.len() - i,
        {
            tables.push((self.tables[i].0.clone(), self.tables[i].1.clone()));
            i += 1;
        }
        assert(tables_of(tables@) =~= tables_of(self.tables@));
        let mut transactions: Vec<(TransactionId, TransactionContext)> = Vec::new();
        let mut j: usize = 0;
        while j < self.transactions.len()
            invariant
                j <= self.transactions.len(),
                transactions@.len() == j,
                forall|k: int|
                    0 <= k < j ==> transactions@[k].0 == self.transactions@[k].0
                        && transactions@[k].1@ == self.transactions@[k].1@,
            decreases self.transactions.len() - j,
        {
            transactions.push((self.transactions[j].0, self.transactions[j].1.clone()));
            j += 1;
        }
        assert(contexts_of(transactions@) =~= contexts_of(self.transactions@));
        SqlDatabase {
            cur_tx: self.cur_tx,
            tables,
            foreign_keys: clone_keys(&self.foreign_keys),
            transactions,
            tx: self.tx,
            rid: self.rid,
        }
    }
}

/// Takes out of `rows` those that carry the identifier `rid`.
pub fn remove_rid(rows: &mut Vec<Row>, rid: RowId)
    ensures
        rows_of(final(rows)@) == without_rid(rows_of(old(rows)@), rid),
{
    let ghost all = rows_of(rows@);
    let ghost keep = |r: RowModel| r.rid != rid;
    let mut out: Vec<Row> = Vec::new();
    let mut i: usize = 0;
    assert(all.subrange(0, 0) =~= Seq::<RowModel>::empty());
    assert(rows_of(out@) =~= all.subrange(0, 0).filter(keep));
    while i < rows.len()
        invariant
            i <= rows.len(),
            rows@ == old(rows)@,
            all == rows_of(rows@),
            keep == |r: RowModel| r.rid != rid,
            rows_of(out@) == all.subrange(0, i as int).filter(keep),
        decreases rows.len() - i,
    {
        let ghost before = rows_of(out@);
        assert(all.subrange(0, i + 1).drop_last() =~= all.subrange(0, i as int));
        assert(all.subrange(0, i + 1).last() == all[i as int]);
        assert(all[i as int] == rows@[i as int]@);
        reveal(Seq::filter);
        if rows[i].rid.0 != rid.0 {
            out.push(rows[i].clone());
            assert(rows_of(out@) =~= before.push(all[i as int]));
        }
        i += 1;
    }
    assert(all.subrange(0, rows.len() as int) =~= all);
    *rows = out;
}

/// The database without tables, foreign keys or open transactions, which has
/// given out no identifier yet.
pub open spec fn empty_db() -> DbModel {
    DbModel {
        cur_tx: TransactionId(usize::MAX),
        tables: Seq::empty(),
        foreign_keys: Seq::empty(),
        transactions: Seq::empty(),
        tx: TransactionId(0),
        rid: RowId(0),
    }
}

impl SqlDatabase {
    /// What the tables say, without the identifiers of their rows: each
    /// table's name with what each of its rows says, in order.
    pub fn hash(&self) -> (r: Vec<(String, Vec<crate::store::HashableRow>)>)
        ensures
            crate::state::tables_key(crate::state::key_tables_of(r@)) == crate::state::tables_key(
                self@.tables,
            ),
    {
        let mut global: Vec<(String, Vec<crate::store::HashableRow>)> = Vec::new();
        let mut i: usize = 0;
        while i < self.tables.len()
            invariant
                i <= self.tables.len(),
                global@.len() == i,
                forall|k: int|
                    0 <= k < i ==> global@[k].0@ == self.tables@[k].0@ && crate::state::rows_key(
                        crate::store::hashed_rows(global@[k].1@),
                    ) == crate::state::rows_key(rows_of(self.tables@[k].1.rows@)),
            decreases self.tables.len() - i,
        {
            let table = &self.tables[i].1;
            let mut rows: Vec<crate::store::HashableRow> = Vec::new();
            let mut j: usize = 0;
            while j < table.rows.len()
                invariant
                    j <= table.rows.len(),
                    rows@.len() == j,
                    forall|k: int| 0 <= k < j ==> rows@[k]@ == table.rows@[k]@.cells,
                decreases table.rows.len() - j,
            {
                rows.push(table.rows[j].hash());
                j += 1;
            }
            assert(crate::state::rows_key(crate::store::hashed_rows(rows@))
                =~= crate::state::rows_key(rows_of(table.rows@)));
            global.push((self.tables[i].0.clone(), rows));
            i += 1;
        }
        proof {
            let hashed = crate::state::key_tables_of(global@);
            assert forall|k: int| 0 <= k < hashed.len() implies (#[trigger] hashed[k]).0
                == self@.tables[k].0 && crate::state::rows_key(hashed[k].1.rows)
                == crate::state::rows_key(self@.tables[k].1.rows) by {
                assert(self@.tables[k] == (self.tables@[k].0@, self.tables@[k].1@));
            }
            crate::state::lemma_same_tables_key(hashed, self@.tables);
        }
        global
    }

    /// The database without tables, foreign keys or open transactions.
    pub fn new() -> (r: SqlDatabase)
        ensures
            r@ == empty_db(),
            crate::integrity::sound(r@),
            r@.tables == Seq::<(Seq<char>, TableModel)>::empty(),
            r@.foreign_keys == Seq::<ForeignKeyModel>::empty(),
            r@.transactions == Seq::<(TransactionId, ContextModel)>::empty(),
            r@.cur_tx == TransactionId(usize::MAX),
            r@.tx == TransactionId(0),
            r@.rid == RowId(0),
            r@.wf(),
    {
        let db = SqlDatabase {
            cur_tx: TransactionId(usize::MAX),
            tables: Vec::new(),
            foreign_keys: Vec::new(),
            transactions: Vec::new(),
            tx: TransactionId(0),
            rid: RowId(0),
        };
        assert(db@.tables =~= Seq::empty());
        assert(db@.foreign_keys =~= Seq::empty());
        assert(db@.transactions =~= Seq::empty());
        proof {
            crate::integrity::lemma_sound_empty();
        }
        db
    }

    /// The position of the transaction among the open ones.
    pub fn find_tx(&self, tx: TransactionId) -> (r: Option<usize>)
        ensures
            match r {
                Some(i) => tx_index(self@.transactions, tx, 0) == Some(i as int) && i
                    < self.transactions.len(),
                None => tx_index(self@.transactions, tx, 0).is_none(),
            },
    {
        let mut i: usize = 0;
        while i < self.transactions.len()
            invariant
                i <= self.transactions.len(),
                tx_index(self@.transactions, tx, 0) == tx_index(self@.transactions, tx, i as int),
            decreases self.transactions.len() - i,
        {
            assert(self@.transactions[i as int].0 == self.transactions@[i as int].0);
            if self.transactions[i].0.0 == tx.0 {
                return Some(i);
            }
            i += 1;
        }
        None
    }

    /// The position of the table named `name`.
    pub fn find_table(&self, name: &String) -> (r: Option<usize>)
        ensures
            match r {
                Some(i) => table_index(self@.tables, name@, 0) == Some(i as int) && i
                    < self.tables.len(),
                None => table_index(self@.tables, name@, 0).is_none(),
            },
    {
        let mut i: usize = 0;
        while i < self.tables.len()
            invariant
                i <= self.tables.len(),
                table_index(self@.tables, name@, 0) == table_index(self@.tables, name@, i as int),
            decreases self.tables.len() - i,
        {
            assert(self@.tables[i as int].0 == self.tables@[i as int].0@);
            if self.tables[i].0 == *name {
                return Some(i);
            }
            i += 1;
        }
        None
    }

    /// Whether another transaction can be opened: whether an identifier is left.
    pub fn can_open(&self) -> (r: bool)
        ensures
            r == (self@.tx.0 < usize::MAX),
    {
        self.tx.0 < usize::MAX
    }

    /// Opens a transaction and returns its identifier, which no transaction
    /// of this database has had before.
    pub fn open_transaction(&mut self, isolation: IsolationLevel) -> (id: TransactionId)
        requires
            old(self)@.tx.0 < usize::MAX,
        ensures
            final(self)@ == old(self)@.open(),
            id == final(self)@.tx,
            old(self)@.wf() ==> final(self)@.wf() && !old(self)@.has_tx(id),
            crate::integrity::sound(old(self)@) ==> crate::integrity::sound(final(self)@),
    {
        proof {
            if crate::integrity::sound(self@) {
                crate::integrity::lemma_sound_open(self@);
            }
        }
        let ghost before = self@.transactions;
        let id = self.tx.increment();
        self.transactions.push((id, TransactionContext::new()));
        proof {
            assert(self@.transactions =~= before.push((id, empty_context())));
            lemma_tx_index(before, id, 0);
        }
        id
    }

    /// Whether a transaction other than `tx` holds a lock that stands against
    /// `wanted`.
    pub fn is_locked(&self, tx: TransactionId, wanted: &Lock) -> (r: bool)
        ensures
            r == self@.blocked(tx, wanted@),
    {
        let mut i: usize = 0;
        while i < self.transactions.len()
            invariant
                i <= self.transactions.len(),
                forall|k: int|
                    0 <= k < i ==> !((#[trigger] self@.transactions[k]).0 != tx && any_conflict(
                        wanted@,
                        self@.transactions[k].1.locks,
                    )),
            decreases self.transactions.len() - i,
        {
            assert(self@.transactions[i as int] == (
                self.transactions@[i as int].0,
                self.transactions@[i as int].1@,
            ));
            if self.transactions[i].0.0 != tx.0 && blocks(&self.transactions[i].1.locks, wanted) {
                return true;
            }
            i += 1;
        }
        false
    }

    /// Adds `lock` to what the transaction holds.
    pub fn hold(&mut self, tx: TransactionId, lock: Lock)
        ensures
            final(self)@ == old(self)@.with_lock(tx, lock@),
    {
        match self.find_tx(tx) {
            Some(i) => {
                let ghost before = self@;
                self.transactions[i].1.locks.push(lock);
                proof {
                    lemma_tx_index(before.transactions, tx, 0);
                    assert(self@.transactions[i as int].1.locks =~= before.transactions[i as int].1.locks.push(
                        lock@,
                    ));
                    assert(self@.transactions =~= before.with_lock(tx, lock@).transactions);
                }
            },
            None => {},
        }
    }

    /// Adds `change` to what the transaction has pending.
    pub fn record(&mut self, tx: TransactionId, change: Changes)
        ensures
            final(self)@ == old(self)@.with_change(tx, change@),
    {
        match self.find_tx(tx) {
            Some(i) => {
                let ghost before = self@;
                self.transactions[i].1.changes.push(change);
                proof {
                    lemma_tx_index(before.transactions, tx, 0);
                    assert(self@.transactions[i as int].1.changes
                        =~= before.transactions[i as int].1.changes.push(change@));
                    assert(self@.transactions =~= before.with_change(tx, change@).transactions);
                }
            },
            None => {},
        }
    }

    /// Asks for `lock` on behalf of `tx`: refused where another transaction
    /// holds a lock that stands against it, else added to what `tx` holds.
    pub fn request(&mut self, tx: TransactionId, lock: Lock) -> (r: Result<(), Lock>)
        ensures
            match r {
                Ok(_) => !old(self)@.blocked(tx, lock@) && final(self)@ == old(self)@.with_lock(
                    tx,
                    lock@,
                ),
                Err(l) => old(self)@.blocked(tx, lock@) && final(self)@ == old(self)@ && l@
                    == lock@,
            },
    {
        if self.is_locked(tx, &lock) {
            Err(lock)
        } else {
            self.hold(tx, lock);
            Ok(())
        }
    }

    /// The rows of the table as the transaction sees them: the committed
    /// rows, then its own inserts, without what it has deleted.
    pub fn rows(&self, tx: &TransactionId, table_name: &String) -> (r: Vec<Row>)
        ensures
            rows_of(r@) == self@.rows(*tx, table_name@),
    {
        let mut rows: Vec<Row> = match self.find_table(table_name) {
            Some(i) => {
                assert(self@.tables[i as int].1 == self.tables@[i as int].1@);
                clone_rows(&self.tables[i].1.rows)
            },
            None => {
                let empty: Vec<Row> = Vec::new();
                assert(rows_of(empty@) =~= empty_table().rows);
                empty
            },
        };
        match self.find_tx(*tx) {
            Some(t) => {
                assert(self@.transactions[t as int].1 == self.transactions@[t as int].1@);
                let changes = &self.transactions[t].1.changes;
                let mut k: usize = 0;
                while k < changes.len()
                    invariant
                        k <= changes.len(),
                        self@.context(*tx).changes == self.transactions@[t as int].1@.changes,
                        changes == &self.transactions@[t as int].1.changes,
                        self@.rows(*tx, table_name@) == visible(
                            rows_of(rows@),
                            table_name@,
                            self@.context(*tx).changes,
                            k as int,
                        ),
                    decreases changes.len() - k,
                {
                    assert(self@.context(*tx).changes[k as int] == changes@[k as int]@);
                    match &changes[k] {
                        Changes::Insert(t, row) => {
                            if *t == *table_name {
                                let ghost before = rows_of(rows@);
                                rows.push(row.clone());
                                assert(rows_of(rows@) =~= before.push(row@));
                            }
                        },
                        Changes::Delete(t, row) => {
                            if *t == *table_name {
                                remove_rid(&mut rows, row.rid);
                            }
                        },
                    }
                    k += 1;
                }
            },
            None => {},
        }
        rows
    }

    /// Makes sure that there is a table named `name` and returns its position.
    pub fn table_entry(&mut self, name: &String) -> (i: usize)
        ensures
            final(self)@ == (DbModel { tables: ensure_table(old(self)@.tables, name@), ..old(self)@ }),
            table_index(final(self)@.tables, name@, 0) == Some(i as int),
            i < final(self).tables.len(),
    {
        match self.find_table(name) {
            Some(i) => i,
            None => {
                let ghost before = self@.tables;
                self.tables.push((name.clone(), Table::default()));
                proof {
                    assert(self@.tables =~= before.push((name@, empty_table())));
                    lemma_table_index(before, name@, 0);
                    lemma_table_index(self@.tables, name@, 0);
                    let last = before.len() as int;
                    assert(self@.tables[last].0 == name@);
                    match table_index(self@.tables, name@, 0) {
                        Some(found) => {
                            if found < last {
                                assert(self@.tables[found] == before[found]);
                            }
                        },
                        None => {},
                    }
                }
                self.tables.len() - 1
            },
        }
    }

    /// Applies one committed change to the tables.
    pub fn apply(&mut self, change: Changes)
        ensures
            final(self)@ == (DbModel {
                tables: commit_change(old(self)@.tables, change@),
                ..old(self)@
            }),
    {
        match change {
            Changes::Insert(t, row) => {
                let i = self.table_entry(&t);
                let ghost present = self@.tables;
                let ghost r = row@;
                self.tables[i].1.rows.push(row);
                proof {
                    assert(self@.tables[i as int].1.rows =~= present[i as int].1.rows.push(r));
                    assert(self@.tables =~= commit_change(old(self)@.tables, change@));
                }
            },
            Changes::Delete(t, row) => {
                match self.find_table(&t) {
                    Some(i) => {
                        let ghost before = self@.tables;
                        remove_rid(&mut self.tables[i].1.rows, row.rid);
                        proof {
                            assert(self@.tables =~= commit_change(before, change@));
                        }
                    },
                    None => {},
                }
            },
        }
    }

    /// Commits the transaction: applies its changes to the tables in the
    /// order made and releases its locks with it. Nothing happens where the
    /// transaction is not open.
    pub fn commit(&mut self, tx: &TransactionId)
        ensures
            final(self)@ == old(self)@.commit(*tx),
            old(self)@.wf() ==> final(self)@.wf(),
            crate::integrity::sound(old(self)@) ==> crate::integrity::sound(final(self)@),
    {
        proof {
            if crate::integrity::sound(self@) {
                crate::integrity::lemma_sound_commit(self@, *tx);
            }
        }
        match self.find_tx(*tx) {
            Some(i) => {
                let ghost before = self@;
                let entry = self.transactions.remove(i);
                proof {
                    assert(self@.transactions =~= before.transactions.remove(i as int));
                    assert(entry.1@ == before.transactions[i as int].1);
                }
                let mut changes = entry.1.changes;
                let ghost all = crate::store::changes_of(changes@);
                let mut k: usize = 0;
                let n = changes.len();
                let mut pending: Vec<Changes> = Vec::new();
                // take the changes in the order made
                while changes.len() > 0
                    invariant
                        changes@.len() + pending@.len() == n,
                        forall|j: int|
                            0 <= j < pending@.len() ==> pending@[j]@ == all[n - 1 - j],
                        forall|j: int| 0 <= j < changes@.len() ==> changes@[j]@ == all[j],
                        all.len() == n,
                    decreases changes.len(),
                {
                    let c = changes.pop().unwrap();
                    pending.push(c);
                }
                while pending.len() > 0
                    invariant
                        k + pending@.len() == n,
                        all.len() == n,
                        forall|j: int|
                            0 <= j < pending@.len() ==> pending@[j]@ == all[n - 1 - j],
                        self@.transactions == before.transactions.remove(i as int),
                        self@.cur_tx == before.cur_tx,
                        self@.foreign_keys == before.foreign_keys,
                        self@.tx == before.tx,
                        self@.rid == before.rid,
                        commit_changes(before.tables, all, 0) == commit_changes(
                            self@.tables,
                            all,
                            k as int,
                        ),
                    decreases pending.len(),
                {
                    let c = pending.pop().unwrap();
                    self.apply(c);
                    k += 1;
                }
                proof {
                    lemma_tx_index(before.transactions, *tx, 0);
                }
            },
            None => {},
        }
    }

    /// Aborts the transaction: drops its changes and releases its locks.
    /// Nothing happens where the transaction is not open.
    pub fn abort(&mut self, tx: &TransactionId)
        ensures
            final(self)@ == old(self)@.abort(*tx),
            old(self)@.wf() ==> final(self)@.wf(),
            crate::integrity::sound(old(self)@) ==> crate::integrity::sound(final(self)@),
    {
        proof {
            if crate::integrity::sound(self@) {
                crate::integrity::lemma_sound_abort(self@, *tx);
            }
        }
        match self.find_tx(*tx) {
            Some(i) => {
                let ghost before = self@;
                let _ = self.transactions.remove(i);
                proof {
                    assert(self@.transactions =~= before.transactions.remove(i as int));
                }
            },
            None => {},
        }
    }
}

} // verus!
