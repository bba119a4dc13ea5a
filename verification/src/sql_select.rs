//! What a `select` does: scan, lock, filter, order, cut and project.

use crate::arith::{count16, wrap16};
use crate::ast::{
    select_items_of, sql_opt_model_of, Item, ItemModel, SelectItem, SelectItemModel, SqlExpression,
    SqlModel, Variable,
};
use crate::sql_eval::{eval, evaluate, evaluated_of, Evaluated, SqlEngineError, SqlErrorModel};
use crate::sql_interpreter::{DbModel, SqlDatabase};
use crate::store::{
    clone_strings, first_missing, lemma_first_missing, projection, rows_of, strings_of, Cells,
    Lock, LockModel, Row, RowModel,
};
use crate::value::{lemma_model_of_members, models_of, rank_of, Rank, Value, ValueModel};
use vstd::prelude::*;

verus! {

/// Whether a row answers a condition: every row answers the absent
/// condition, and a row answers a condition whose value in the scope of the
/// row is true.
pub open spec fn answers_condition(condition: Option<Box<SqlModel>>, cells: Cells) -> Result<
    bool,
    SqlErrorModel,
> {
    match condition {
        None => Ok(true),
        Some(c) => match eval(*c, Some(cells)) {
            Ok(v) => Ok(v == ValueModel::Bool(true)),
            Err(x) => Err(x),
        },
    }
}

/// The scan of a select over `rows` from position `from` on. Each row is
/// first locked for update where the select locks, which fails where another
/// transaction stands against it, and then tested. The result is the
/// database with the locks taken so far, and the rows kept or the first
/// failure.
pub open spec fn scan(
    db: DbModel,
    rows: Seq<RowModel>,
    condition: Option<Box<SqlModel>>,
    locking: bool,
    from: int,
    kept: Seq<RowModel>,
) -> (DbModel, Result<Seq<RowModel>, SqlErrorModel>)
    decreases rows.len() - from,
{
    if from < 0 || from >= rows.len() {
        (db, Ok(kept))
    } else {
        let row = rows[from];
        let lock = LockModel::RowUpdate(row.rid);
        if locking && db.blocked(db.cur_tx, lock) {
            (db, Err(SqlErrorModel::Locked(lock)))
        } else {
            let locked = if locking {
                db.with_lock(db.cur_tx, lock)
            } else {
                db
            };
            match answers_condition(condition, row.cells) {
                Err(x) => (locked, Err(x)),
                Ok(keep) => scan(
                    locked,
                    rows,
                    condition,
                    locking,
                    from + 1,
                    if keep {
                        kept.push(row)
                    } else {
                        kept
                    },
                ),
            }
        }
    }
}

/// The values of the ordering expression for the rows from `from` on.
pub open spec fn order_keys(
    rows: Seq<RowModel>,
    order: SqlModel,
    from: int,
    done: Seq<ValueModel>,
) -> Result<Seq<ValueModel>, SqlErrorModel>
    decreases rows.len() - from,
{
    if from < 0 || from >= rows.len() {
        Ok(done)
    } else {
        match eval(order, Some(rows[from].cells)) {
            Ok(v) => order_keys(rows, order, from + 1, done.push(v)),
            Err(x) => Err(x),
        }
    }
}

/// Where a key goes among sorted keys: before the first key, from `from`
/// on, that comes after it; at the end where none does.
pub open spec fn place(keys: Seq<ValueModel>, key: ValueModel, from: int) -> int
    decreases keys.len() - from,
{
    if from < 0 || from >= keys.len() {
        keys.len() as int
    } else if rank_of(keys[from], key) == Some(Rank::After) {
        from
    } else {
        place(keys, key, from + 1)
    }
}

/// The place of a key is a position among the keys or just behind them.
pub proof fn lemma_place(keys: Seq<ValueModel>, key: ValueModel, from: int)
    requires
        0 <= from <= keys.len(),
    ensures
        from <= place(keys, key, from) <= keys.len(),
    decreases keys.len() - from,
{
    if from < keys.len() && rank_of(keys[from], key) != Some(Rank::After) {
        lemma_place(keys, key, from + 1);
    }
}

/// The rows from `from` on, each put at the place of its key among those
/// sorted so far: rows in the order of their keys, rows whose keys do not
/// differ in the order they came in.
pub open spec fn sort_rows(
    keys: Seq<ValueModel>,
    rows: Seq<RowModel>,
    from: int,
    sorted_keys: Seq<ValueModel>,
    sorted: Seq<RowModel>,
) -> Seq<RowModel>
    decreases rows.len() - from,
{
    if from < 0 || from >= rows.len() || from >= keys.len() {
        sorted
    } else {
        let at = place(sorted_keys, keys[from], 0);
        sort_rows(
            keys,
            rows,
            from + 1,
            sorted_keys.insert(at, keys[from]),
            sorted.insert(at, rows[from]),
        )
    }
}

/// The rows in the order asked for; as they are where no order is asked for.
pub open spec fn ordered(rows: Seq<RowModel>, order: Option<Box<SqlModel>>) -> Result<
    Seq<RowModel>,
    SqlErrorModel,
> {
    match order {
        None => Ok(rows),
        Some(o) => match order_keys(rows, *o, 0, Seq::empty()) {
            Ok(keys) => Ok(sort_rows(keys, rows, 0, Seq::empty(), Seq::empty())),
            Err(x) => Err(x),
        },
    }
}

/// A count brought into the range from zero to `most`.
pub open spec fn within(n: int, most: int) -> int {
    if n < 0 {
        0
    } else if n > most {
        most
    } else {
        n
    }
}

/// The rows after `offset` of them are skipped and at most `limit` taken.
pub open spec fn window(rows: Seq<RowModel>, limit: Option<int>, offset: Option<int>) -> Seq<
    RowModel,
> {
    let start = match offset {
        Some(o) => within(o, rows.len() as int),
        None => 0,
    };
    let count = match limit {
        Some(l) => within(l, rows.len() - start),
        None => rows.len() - start,
    };
    rows.subrange(start, start + count)
}

/// Whether the select list asks for a count.
pub open spec fn has_count(items: Seq<SelectItemModel>) -> bool {
    exists|i: int| 0 <= i < items.len() && (#[trigger] items[i]) is Count
}

/// The columns that the select list names from position `from` on, a
/// wildcard standing for the table's columns in their order.
pub open spec fn selected_columns(
    items: Seq<SelectItemModel>,
    table_columns: Seq<Seq<char>>,
    from: int,
    done: Seq<Seq<char>>,
) -> Seq<Seq<char>>
    decreases items.len() - from,
{
    if from < 0 || from >= items.len() {
        done
    } else {
        selected_columns(
            items,
            table_columns,
            from + 1,
            match items[from] {
                SelectItemModel::Column(ItemModel::Wildcard) => done + table_columns,
                SelectItemModel::Column(ItemModel::Column(c)) => done.push(c),
                SelectItemModel::Count(_) => done,
            },
        )
    }
}

/// The projections of the rows from `from` on; a row that lacks one of the
/// columns makes the name unknown.
pub open spec fn project_rows(
    rows: Seq<RowModel>,
    columns: Seq<Seq<char>>,
    from: int,
    done: Seq<ValueModel>,
) -> Result<Seq<ValueModel>, SqlErrorModel>
    decreases rows.len() - from,
{
    if from < 0 || from >= rows.len() {
        Ok(done)
    } else {
        match first_missing(rows[from].cells, columns, 0) {
            Some(name) => Err(SqlErrorModel::UnknownVariable(name)),
            None => project_rows(
                rows,
                columns,
                from + 1,
                done.push(projection(rows[from].cells, columns)),
            ),
        }
    }
}

/// What a select gives for the rows it has kept: their number where the list
/// asks for a count; else their projections, as the one value where there is
/// one row, as a set otherwise.
pub open spec fn select_result(
    rows: Seq<RowModel>,
    items: Seq<SelectItemModel>,
    table_columns: Seq<Seq<char>>,
) -> Evaluated {
    if has_count(items) {
        Ok(ValueModel::Integer(wrap16(rows.len() as int)))
    } else {
        match project_rows(
            rows,
            selected_columns(items, table_columns, 0, Seq::empty()),
            0,
            Seq::empty(),
        ) {
            Err(x) => Err(x),
            Ok(values) => Ok(
                if values.len() == 1 {
                    values[0]
                } else {
                    ValueModel::SetOf(values)
                },
            ),
        }
    }
}

/// What a select does to the database and what it gives.
pub open spec fn select(
    db: DbModel,
    columns: Seq<SelectItemModel>,
    from: Seq<char>,
    condition: Option<Box<SqlModel>>,
    order_by: Option<Box<SqlModel>>,
    limit: Option<int>,
    offset: Option<int>,
    locking: bool,
) -> (DbModel, Evaluated) {
    let (after, scanned) = scan(db, db.rows(db.cur_tx, from), condition, locking, 0, Seq::empty());
    match scanned {
        Err(x) => (after, Err(x)),
        Ok(kept) => match ordered(kept, order_by) {
            Err(x) => (after, Err(x)),
            Ok(sorted) => (
                after,
                select_result(window(sorted, limit, offset), columns, after.table(from).columns),
            ),
        },
    }
}

/// Whether a row answers a condition.
pub fn row_answers(condition: &Option<Box<SqlExpression>>, row: &Row) -> (r: Result<
    bool,
    SqlEngineError,
>)
    ensures
        match r {
            Ok(b) => answers_condition(sql_opt_model_of(*condition), row@.cells) == Ok::<
                bool,
                SqlErrorModel,
            >(b),
            Err(x) => answers_condition(sql_opt_model_of(*condition), row@.cells) == Err::<
                bool,
                SqlErrorModel,
            >(x@),
        },
{
    match condition {
        None => Ok(true),
        Some(c) => match evaluate(&**c, Some(row)) {
            Ok(v) => Ok(v.same(&Value::Bool(true))),
            Err(x) => Err(x),
        },
    }
}

/// The values of the ordering expression for the rows, in order.
fn keys_for(rows: &Vec<Row>, order: &SqlExpression) -> (r: Result<Vec<Value>, SqlEngineError>)
    ensures
        match r {
            Ok(keys) => order_keys(rows_of(rows@), order@, 0, Seq::empty()) == Ok::<
                Seq<ValueModel>,
                SqlErrorModel,
            >(models_of(keys@)) && keys@.len() == rows@.len(),
            Err(x) => order_keys(rows_of(rows@), order@, 0, Seq::empty()) == Err::<
                Seq<ValueModel>,
                SqlErrorModel,
            >(x@),
        },
{
    let mut out: Vec<Value> = Vec::new();
    let mut i: usize = 0;
    assert(models_of(out@) =~= Seq::empty());
    while i < rows.len()
        invariant
            i <= rows.len(),
            out@.len() == i,
            order_keys(rows_of(rows@), order@, 0, Seq::empty()) == order_keys(
                rows_of(rows@),
                order@,
                i as int,
                models_of(out@),
            ),
        decreases rows.len() - i,
    {
        assert(rows_of(rows@)[i as int] == rows@[i as int]@);
        match evaluate(order, Some(&rows[i])) {
            Ok(v) => {
                let ghost before = models_of(out@);
                let ghost m = v@;
                out.push(v);
                assert(models_of(out@) =~= before.push(m));
            },
            Err(x) => {
                return Err(x);
            },
        }
        i += 1;
    }
    Ok(out)
}

/// Where a key goes among sorted keys.
fn place_of(keys: &Vec<Value>, key: &Value) -> (r: usize)
    ensures
        r as int == place(models_of(keys@), key@, 0),
        r <= keys.len(),
{
    let mut i: usize = 0;
    while i < keys.len()
        invariant
            i <= keys.len(),
            place(models_of(keys@), key@, 0) == place(models_of(keys@), key@, i as int),
        decreases keys.len() - i,
    {
        assert(models_of(keys@)[i as int] == keys@[i as int]@);
        match keys[i].rank(key) {
            Some(Rank::After) => {
                return i;
            },
            _ => {},
        }
        i += 1;
    }
    i
}

/// The rows in the order of their keys.
fn sort_by_keys(keys: &Vec<Value>, rows: &Vec<Row>) -> (r: Vec<Row>)
    requires
        keys@.len() == rows@.len(),
    ensures
        rows_of(r@) == sort_rows(models_of(keys@), rows_of(rows@), 0, Seq::empty(), Seq::empty()),
{
    let mut sorted_keys: Vec<Value> = Vec::new();
    let mut sorted: Vec<Row> = Vec::new();
    let mut i: usize = 0;
    assert(models_of(sorted_keys@) =~= Seq::empty());
    assert(rows_of(sorted@) =~= Seq::empty());
    while i < rows.len()
        invariant
            i <= rows.len(),
            keys@.len() == rows@.len(),
            sorted_keys@.len() == sorted@.len(),
            sort_rows(models_of(keys@), rows_of(rows@), 0, Seq::empty(), Seq::empty())
                == sort_rows(
                models_of(keys@),
                rows_of(rows@),
                i as int,
                models_of(sorted_keys@),
                rows_of(sorted@),
            ),
        decreases rows.len() - i,
    {
        assert(rows_of(rows@)[i as int] == rows@[i as int]@);
        assert(models_of(keys@)[i as int] == keys@[i as int]@);
        let at = place_of(&sorted_keys, &keys[i]);
        let ghost keys_before = models_of(sorted_keys@);
        let ghost rows_before = rows_of(sorted@);
        sorted_keys.insert(at, keys[i].clone());
        sorted.insert(at, rows[i].clone());
        assert(models_of(sorted_keys@) =~= keys_before.insert(at as int, keys@[i as int]@));
        assert(rows_of(sorted@) =~= rows_before.insert(at as int, rows@[i as int]@));
        i += 1;
    }
    sorted
}

/// The rows in the order asked for.
fn order_rows(rows: Vec<Row>, order: &Option<Box<SqlExpression>>) -> (r: Result<
    Vec<Row>,
    SqlEngineError,
>)
    ensures
        match r {
            Ok(sorted) => ordered(rows_of(rows@), sql_opt_model_of(*order)) == Ok::<
                Seq<RowModel>,
                SqlErrorModel,
            >(rows_of(sorted@)),
            Err(x) => ordered(rows_of(rows@), sql_opt_model_of(*order)) == Err::<
                Seq<RowModel>,
                SqlErrorModel,
            >(x@),
        },
{
    match order {
        None => Ok(rows),
        Some(o) => match keys_for(&rows, &**o) {
            Ok(keys) => Ok(sort_by_keys(&keys, &rows)),
            Err(x) => Err(x),
        },
    }
}

/// A count brought into the range from zero to `most`.
fn clamp_count(n: i16, most: usize) -> (r: usize)
    ensures
        r as int == within(n as int, most as int),
{
    if n < 0 {
        0
    } else if n as usize > most {
        most
    } else {
        n as usize
    }
}

/// The rows after `offset` of them are skipped and at most `limit` taken.
fn cut(rows: &Vec<Row>, limit: Option<i16>, offset: Option<i16>) -> (r: Vec<Row>)
    ensures
        rows_of(r@) == window(
            rows_of(rows@),
            crate::ast::opt_int(limit),
            crate::ast::opt_int(offset),
        ),
{
    let start: usize = match offset {
        Some(o) => clamp_count(o, rows.len()),
        None => 0,
    };
    let count: usize = match limit {
        Some(l) => clamp_count(l, rows.len() - start),
        None => rows.len() - start,
    };
    let mut out: Vec<Row> = Vec::new();
    let mut i: usize = 0;
    while i < count
        invariant
            i <= count,
            start + count <= rows.len(),
            out@.len() == i,
            forall|k: int| 0 <= k < i ==> out@[k]@ == rows@[start + k]@,
        decreases count - i,
    {
        out.push(rows[start + i].clone());
        i += 1;
    }
    assert(rows_of(out@) =~= rows_of(rows@).subrange(start as int, start + count));
    out
}

/// Whether the select list asks for a count.
fn asks_count(items: &Vec<SelectItem>) -> (r: bool)
    ensures
        r == has_count(select_items_of(items@)),
{
    let mut i: usize = 0;
    while i < items.len()
        invariant
            i <= items.len(),
            forall|k: int| 0 <= k < i ==> !((#[trigger] select_items_of(items@)[k]) is Count),
        decreases items.len() - i,
    {
        assert(select_items_of(items@)[i as int] == items@[i as int]@);
        match &items[i] {
            SelectItem::Count(_) => {
                return true;
            },
            _ => {},
        }
        i += 1;
    }
    false
}

/// The columns that the select list names.
fn columns_of(items: &Vec<SelectItem>, table_columns: &Vec<String>) -> (r: Vec<String>)
    ensures
        strings_of(r@) == selected_columns(
            select_items_of(items@),
            strings_of(table_columns@),
            0,
            Seq::empty(),
        ),
{
    let mut out: Vec<String> = Vec::new();
    let mut i: usize = 0;
    assert(strings_of(out@) =~= Seq::empty());
    while i < items.len()
        invariant
            i <= items.len(),
            selected_columns(select_items_of(items@), strings_of(table_columns@), 0, Seq::empty())
                == selected_columns(
                select_items_of(items@),
                strings_of(table_columns@),
                i as int,
                strings_of(out@),
            ),
        decreases items.len() - i,
    {
        assert(select_items_of(items@)[i as int] == items@[i as int]@);
        let ghost before = strings_of(out@);
        match &items[i] {
            SelectItem::Column(Item::Wildcard) => {
                let mut k: usize = 0;
                while k < table_columns.len()
                    invariant
                        k <= table_columns.len(),
                        strings_of(out@) == before + strings_of(table_columns@).subrange(
                            0,
                            k as int,
                        ),
                    decreases table_columns.len() - k,
                {
                    let ghost inner = strings_of(out@);
                    out.push(table_columns[k].clone());
                    assert(strings_of(out@) =~= inner.push(table_columns@[k as int]@));
                    assert(strings_of(table_columns@).subrange(0, k + 1) =~= strings_of(
                        table_columns@,
                    ).subrange(0, k as int).push(table_columns@[k as int]@));
                    assert(strings_of(out@) =~= before + strings_of(table_columns@).subrange(
                        0,
                        k + 1,
                    ));
                    k += 1;
                }
                assert(strings_of(table_columns@).subrange(0, table_columns.len() as int)
                    =~= strings_of(table_columns@));
            },
            SelectItem::Column(Item::Column(c)) => {
                out.push(c.clone());
                assert(strings_of(out@) =~= before.push(c@));
            },
            SelectItem::Count(_) => {},
        }
        i += 1;
    }
    out
}

/// The projections of the rows on the columns.
fn project(rows: &Vec<Row>, columns: &Vec<String>) -> (r: Result<Vec<Value>, SqlEngineError>)
    ensures
        match r {
            Ok(values) => project_rows(rows_of(rows@), strings_of(columns@), 0, Seq::empty())
                == Ok::<Seq<ValueModel>, SqlErrorModel>(models_of(values@)),
            Err(x) => project_rows(rows_of(rows@), strings_of(columns@), 0, Seq::empty()) == Err::<
                Seq<ValueModel>,
                SqlErrorModel,
            >(x@),
        },
{
    let mut out: Vec<Value> = Vec::new();
    let mut i: usize = 0;
    assert(models_of(out@) =~= Seq::empty());
    while i < rows.len()
        invariant
            i <= rows.len(),
            project_rows(rows_of(rows@), strings_of(columns@), 0, Seq::empty()) == project_rows(
                rows_of(rows@),
                strings_of(columns@),
                i as int,
                models_of(out@),
            ),
        decreases rows.len() - i,
    {
        assert(rows_of(rows@)[i as int] == rows@[i as int]@);
        match rows[i].missing_column(columns) {
            Some(name) => {
                return Err(SqlEngineError::UnknownVariable(name));
            },
            None => {
                let ghost before = models_of(out@);
                let v = rows[i].to_value(columns);
                let ghost m = v@;
                out.push(v);
                assert(models_of(out@) =~= before.push(m));
            },
        }
        i += 1;
    }
    Ok(out)
}

/// What a select gives for the rows it has kept.
fn result_for(rows: &Vec<Row>, items: &Vec<SelectItem>, table_columns: &Vec<String>) -> (r: Result<
    Value,
    SqlEngineError,
>)
    ensures
        evaluated_of(r) == select_result(
            rows_of(rows@),
            select_items_of(items@),
            strings_of(table_columns@),
        ),
{
    if asks_count(items) {
        Ok(Value::Integer(count16(rows.len())))
    } else {
        let columns = columns_of(items, table_columns);
        match project(rows, &columns) {
            Err(x) => Err(x),
            Ok(mut values) => {
                if values.len() == 1 {
                    assert(models_of(values@)[0] == values@[0]@);
                    Ok(values.remove(0))
                } else {
                    proof {
                        lemma_model_of_members(values);
                    }
                    Ok(Value::SetOf(values))
                }
            },
        }
    }
}

impl SqlDatabase {
    /// The scan of a select over the rows.
    fn scan_rows(
        &mut self,
        rows: &Vec<Row>,
        condition: &Option<Box<SqlExpression>>,
        locking: bool,
    ) -> (r: Result<Vec<Row>, SqlEngineError>)
        ensures
            match r {
                Ok(kept) => scan(
                    old(self)@,
                    rows_of(rows@),
                    sql_opt_model_of(*condition),
                    locking,
                    0,
                    Seq::empty(),
                ) == (final(self)@, Ok::<Seq<RowModel>, SqlErrorModel>(rows_of(kept@))),
                Err(x) => scan(
                    old(self)@,
                    rows_of(rows@),
                    sql_opt_model_of(*condition),
                    locking,
                    0,
                    Seq::empty(),
                ) == (final(self)@, Err::<Seq<RowModel>, SqlErrorModel>(x@)),
            },
            final(self)@.cur_tx == old(self)@.cur_tx,
            final(self)@.tx == old(self)@.tx,
            final(self)@.rid == old(self)@.rid,
            final(self)@.tables == old(self)@.tables,
            final(self)@.foreign_keys == old(self)@.foreign_keys,
            crate::sql_interpreter::tx_ids(final(self)@.transactions)
                == crate::sql_interpreter::tx_ids(old(self)@.transactions),
    {
        let mut kept: Vec<Row> = Vec::new();
        let mut i: usize = 0;
        assert(rows_of(kept@) =~= Seq::empty());
        while i < rows.len()
            invariant
                i <= rows.len(),
                self@.cur_tx == old(self)@.cur_tx,
                self@.tx == old(self)@.tx,
                self@.rid == old(self)@.rid,
                self@.tables == old(self)@.tables,
                self@.foreign_keys == old(self)@.foreign_keys,
                crate::sql_interpreter::tx_ids(self@.transactions)
                    == crate::sql_interpreter::tx_ids(old(self)@.transactions),
                scan(
                    old(self)@,
                    rows_of(rows@),
                    sql_opt_model_of(*condition),
                    locking,
                    0,
                    Seq::empty(),
                ) == scan(
                    self@,
                    rows_of(rows@),
                    sql_opt_model_of(*condition),
                    locking,
                    i as int,
                    rows_of(kept@),
                ),
            decreases rows.len() - i,
        {
            assert(rows_of(rows@)[i as int] == rows@[i as int]@);
            if locking {
                let tx = self.cur_tx;
                proof {
                    crate::sql_interpreter::lemma_with_keeps(
                        self@,
                        tx,
                        LockModel::RowUpdate(rows[i as int].rid),
                        crate::store::ChangeModel::Delete(Seq::empty(), rows[i as int]@),
                    );
                }
                match self.request(tx, Lock::RowUpdate(rows[i].rid)) {
                    Ok(_) => {},
                    Err(lock) => {
                        return Err(SqlEngineError::Locked(lock));
                    },
                }
            }
            match row_answers(condition, &rows[i]) {
                Err(x) => {
                    return Err(x);
                },
                Ok(keep) => {
                    if keep {
                        let ghost before = rows_of(kept@);
                        kept.push(rows[i].clone());
                        assert(rows_of(kept@) =~= before.push(rows@[i as int]@));
                    }
                },
            }
            i += 1;
        }
        Ok(kept)
    }

    /// The column order of the table named `name`; none where there is no
    /// such table.
    pub fn columns_of_table(&self, name: &String) -> (r: Vec<String>)
        ensures
            strings_of(r@) == self@.table(name@).columns,
    {
        match self.find_table(name) {
            Some(i) => {
                assert(self@.tables[i as int].1 == self.tables@[i as int].1@);
                clone_strings(&self.tables[i].1.columns)
            },
            None => {
                let empty: Vec<String> = Vec::new();
                assert(strings_of(empty@) =~= Seq::empty());
                empty
            },
        }
    }

    /// Runs a select on behalf of the current transaction.
    pub fn interpret_select(
        &mut self,
        item_list: &Vec<SelectItem>,
        from: &Variable,
        condition: &Option<Box<SqlExpression>>,
        order_by: &Option<Box<SqlExpression>>,
        limit: Option<i16>,
        offset: Option<i16>,
        for_update: bool,
    ) -> (r: Result<Value, SqlEngineError>)
        ensures
            (final(self)@, evaluated_of(r)) == select(
                old(self)@,
                select_items_of(item_list@),
                from@,
                sql_opt_model_of(*condition),
                sql_opt_model_of(*order_by),
                crate::ast::opt_int(limit),
                crate::ast::opt_int(offset),
                for_update,
            ),
            crate::sql_interpreter::keeps_open(old(self)@, final(self)@),
            final(self)@.rid == old(self)@.rid,
    {
        let tx = self.cur_tx;
        let rows = self.rows(&tx, &from.name);
        match self.scan_rows(&rows, condition, for_update) {
            Err(x) => Err(x),
            Ok(kept) => match order_rows(kept, order_by) {
                Err(x) => Err(x),
                Ok(sorted) => {
                    let cut_rows = cut(&sorted, limit, offset);
                    let table_columns = self.columns_of_table(&from.name);
                    result_for(&cut_rows, item_list, &table_columns)
                },
            },
        }
    }
}

} // verus!
