//! Rows, tables, pending changes and locks: what a database is made of.

use crate::value::{clone_members, lemma_model_of_members, models_of, Value, ValueModel};
use vstd::prelude::*;

verus! {

/// The identifier of a transaction.
#[derive(Copy, Debug, PartialEq, Eq, Structural, Hash)]
pub struct TransactionId(pub usize);

impl Clone for TransactionId {
    fn clone(&self) -> (r: Self)
        ensures
            r == *self,
    {
        *self
    }
}

impl TransactionId {
    /// Moves on to the next identifier and gives it.
    pub fn increment(&mut self) -> (r: TransactionId)
        requires
            old(self).0 < usize::MAX,
        ensures
            final(self).0 == old(self).0 + 1,
            r == *final(self),
    {
        self.0 = self.0 + 1;
        TransactionId(self.0)
    }
}

/// The identifier of a row: given at insert, kept through updates, never
/// given twice.
#[derive(Copy, Debug, PartialEq, Eq, Structural, Hash)]
pub struct RowId(pub usize);

impl Clone for RowId {
    fn clone(&self) -> (r: Self)
        ensures
            r == *self,
    {
        *self
    }
}

impl RowId {
    /// Moves on to the next identifier and gives it.
    pub fn increment(&mut self) -> (r: RowId)
        requires
            old(self).0 < usize::MAX,
        ensures
            final(self).0 == old(self).0 + 1,
            r == *final(self),
    {
        self.0 = self.0 + 1;
        RowId(self.0)
    }
}

/// The names in a list of strings, in order.
pub open spec fn strings_of(items: Seq<String>) -> Seq<Seq<char>> {
    items.map_values(|s: String| s@)
}

/// A copy of a list of strings.
pub fn clone_strings(items: &Vec<String>) -> (r: Vec<String>)
    ensures
        strings_of(r@) == strings_of(items@),
{
    let mut out: Vec<String> = Vec::new();
    let mut i: usize = 0;
    while i < items.len()
        invariant
            i <= items.len(),
            out@.len() == i,
            forall|k: int| 0 <= k < i ==> out@[k]@ == items@[k]@,
        decreases items.len() - i,
    {
        out.push(items[i].clone());
        i += 1;
    }
    assert(strings_of(out@) =~= strings_of(items@));
    out
}

/// Whether two lists of strings hold the same names in the same order.
pub fn same_strings(a: &Vec<String>, b: &Vec<String>) -> (r: bool)
    ensures
        r == (strings_of(a@) == strings_of(b@)),
{
    if a.len() != b.len() {
        assert(strings_of(a@).len() != strings_of(b@).len());
        return false;
    }
    let mut i: usize = 0;
    while i < a.len()
        invariant
            i <= a.len(),
            a.len() == b.len(),
            forall|k: int| 0 <= k < i ==> a@[k]@ == b@[k]@,
        decreases a.len() - i,
    {
        if a[i] != b[i] {
            assert(strings_of(a@)[i as int] != strings_of(b@)[i as int]);
            return false;
        }
        i += 1;
    }
    assert(strings_of(a@) =~= strings_of(b@));
    true
}

/// The cells of a row: column names with their values.
pub type Cells = Seq<(Seq<char>, ValueModel)>;

/// The content of a list of named values.
pub open spec fn cells_of(items: Seq<(String, Value)>) -> Cells {
    items.map_values(|c: (String, Value)| (c.0@, c.1@))
}

/// The value of the first cell named `name` at or after position `from`.
pub open spec fn cell_from(cells: Cells, name: Seq<char>, from: int) -> Option<ValueModel>
    decreases cells.len() - from,
{
    if from < 0 || from >= cells.len() {
        None
    } else if cells[from].0 == name {
        Some(cells[from].1)
    } else {
        cell_from(cells, name, from + 1)
    }
}

/// The value that the cells give to `name`, if any.
pub open spec fn cell(cells: Cells, name: Seq<char>) -> Option<ValueModel> {
    cell_from(cells, name, 0)
}

/// The cells with `name` bound to `value`: in place where the name is bound
/// already, at the end otherwise.
pub open spec fn with_cell(cells: Cells, name: Seq<char>, value: ValueModel, from: int) -> Cells
    decreases cells.len() - from,
{
    if from < 0 || from >= cells.len() {
        cells.push((name, value))
    } else if cells[from].0 == name {
        cells.update(from, (name, value))
    } else {
        with_cell(cells, name, value, from + 1)
    }
}

/// The value bound to `name` in a list of named values.
pub fn find_cell<'a>(items: &'a Vec<(String, Value)>, name: &String) -> (r: Option<&'a Value>)
    ensures
        match r {
            Some(v) => cell(cells_of(items@), name@) == Some(v@),
            None => cell(cells_of(items@), name@).is_none(),
        },
{
    let mut i: usize = 0;
    while i < items.len()
        invariant
            i <= items.len(),
            cell(cells_of(items@), name@) == cell_from(cells_of(items@), name@, i as int),
        decreases items.len() - i,
    {
        assert(cells_of(items@)[i as int] == (items@[i as int].0@, items@[i as int].1@));
        if items[i].0 == *name {
            return Some(&items[i].1);
        }
        i += 1;
    }
    None
}

/// Binds `name` to `value` in a list of named values.
pub fn bind_cell(items: &mut Vec<(String, Value)>, name: String, value: Value)
    ensures
        cells_of(final(items)@) == with_cell(cells_of(old(items)@), name@, value@, 0),
{
    let mut i: usize = 0;
    while i < items.len()
        invariant
            i <= items.len(),
            items@ == old(items)@,
            with_cell(cells_of(items@), name@, value@, 0) == with_cell(
                cells_of(items@),
                name@,
                value@,
                i as int,
            ),
        decreases items.len() - i,
    {
        assert(cells_of(items@)[i as int] == (items@[i as int].0@, items@[i as int].1@));
        if items[i].0 == name {
            let ghost before = items@;
            items[i] = (name, value);
            assert(cells_of(items@) =~= cells_of(before).update(i as int, (name@, value@)));
            return ;
        }
        i += 1;
    }
    let ghost before = items@;
    items.push((name, value));
    assert(cells_of(items@) =~= cells_of(before).push((name@, value@)));
}

/// A copy of a list of named values.
pub fn clone_cells(items: &Vec<(String, Value)>) -> (r: Vec<(String, Value)>)
    ensures
        cells_of(r@) == cells_of(items@),
{
    let mut out: Vec<(String, Value)> = Vec::new();
    let mut i: usize = 0;
    while i < items.len()
        invariant
            i <= items.len(),
            out@.len() == i,
            forall|k: int| 0 <= k < i ==> out@[k].0@ == items@[k].0@ && out@[k].1@ == items@[k].1@,
        decreases items.len() - i,
    {
        out.push((items[i].0.clone(), items[i].1.clone()));
        i += 1;
    }
    assert(cells_of(out@) =~= cells_of(items@));
    out
}

/// A row of a table.
#[derive(Debug, PartialEq, Eq)]
pub struct Row {
    pub tuples: Vec<(String, Value)>,
    pub rid: RowId,
}

/// The mathematical content of a [`Row`].
pub struct RowModel {
    pub cells: Cells,
    pub rid: RowId,
}

impl View for Row {
    type V = RowModel;

    open spec fn view(&self) -> RowModel {
        RowModel { cells: cells_of(self.tuples@), rid: self.rid }
    }
}

impl Clone for Row {
    fn clone(&self) -> (r: Self)
        ensures
            r@ == self@,
    {
        Row { tuples: clone_cells(&self.tuples), rid: self.rid }
    }
}

/// What a row says, without its identifier: the names of its columns and,
/// in the same order, their values.
#[derive(Debug, PartialEq, Eq)]
pub struct HashableRow {
    pub keys: Vec<String>,
    pub values: Vec<Value>,
}

impl View for HashableRow {
    type V = Cells;

    open spec fn view(&self) -> Cells {
        Seq::new(
            if self.keys@.len() <= self.values@.len() {
                self.keys@.len()
            } else {
                self.values@.len()
            },
            |i: int| (self.keys@[i]@, self.values@[i]@),
        )
    }
}

impl HashableRow {
    /// The names with their values, in order.
    pub fn pairs(&self) -> (r: Vec<(String, Value)>)
        ensures
            cells_of(r@) == self@,
    {
        let mut out: Vec<(String, Value)> = Vec::new();
        let mut i: usize = 0;
        while i < self.keys.len() && i < self.values.len()
            invariant
                i <= self.keys.len(),
                i <= self.values.len(),
                out@.len() == i,
                forall|k: int|
                    0 <= k < i ==> out@[k].0@ == self.keys@[k]@ && out@[k].1@ == self.values@[k]@,
            decreases self.keys.len() - i,
        {
            out.push((self.keys[i].clone(), self.values[i].clone()));
            i += 1;
        }
        assert(cells_of(out@) =~= self@);
        out
    }
}

/// The rows that stand for what rows say without their identifiers: each
/// with the identifier 0.
pub open spec fn hashed_rows(rows: Seq<HashableRow>) -> Seq<RowModel> {
    rows.map_values(|h: HashableRow| RowModel { cells: h@, rid: RowId(0) })
}

/// The contents of a list of rows, in order.
pub open spec fn rows_of(rows: Seq<Row>) -> Seq<RowModel> {
    rows.map_values(|r: Row| r@)
}

/// The values of a row at the given columns, in order; a column that the row
/// lacks counts as nil.
pub open spec fn values_at(cells: Cells, columns: Seq<Seq<char>>) -> Seq<ValueModel> {
    Seq::new(
        columns.len(),
        |i: int|
            match cell(cells, columns[i]) {
                Some(v) => v,
                None => ValueModel::Nil,
            },
    )
}

/// Whether the row has a cell for each of the columns.
pub open spec fn has_columns(cells: Cells, columns: Seq<Seq<char>>) -> bool {
    forall|i: int| 0 <= i < columns.len() ==> (#[trigger] cell(cells, columns[i])).is_some()
}

/// The projection of a row on columns: the one value where one column is
/// asked for, else the tuple of the values in the order asked.
pub open spec fn projection(cells: Cells, columns: Seq<Seq<char>>) -> ValueModel {
    if columns.len() == 1 {
        values_at(cells, columns)[0]
    } else {
        ValueModel::Tuple(values_at(cells, columns))
    }
}

/// The first of the columns, from position `from` on, that the row lacks.
pub open spec fn first_missing(cells: Cells, columns: Seq<Seq<char>>, from: int) -> Option<
    Seq<char>,
>
    decreases columns.len() - from,
{
    if from < 0 || from >= columns.len() {
        None
    } else if cell(cells, columns[from]).is_none() {
        Some(columns[from])
    } else {
        first_missing(cells, columns, from + 1)
    }
}

/// Where no column is missing, the row has them all.
pub proof fn lemma_first_missing(cells: Cells, columns: Seq<Seq<char>>, from: int)
    requires
        0 <= from,
    ensures
        first_missing(cells, columns, from).is_none() <==> (forall|i: int|
            from <= i < columns.len() ==> (#[trigger] cell(cells, columns[i])).is_some()),
    decreases columns.len() - from,
{
    if from < columns.len() {
        lemma_first_missing(cells, columns, from + 1);
        if cell(cells, columns[from]).is_some() {
            assert forall|i: int| from <= i < columns.len() && first_missing(
                cells,
                columns,
                from,
            ).is_none() implies (#[trigger] cell(cells, columns[i])).is_some() by {
                if i > from {
                }
            }
        }
    }
}

impl Row {
    /// The values of this row at the given columns; a column that the row
    /// lacks counts as nil.
    pub fn values_at(&self, columns: &Vec<String>) -> (r: Vec<Value>)
        ensures
            models_of(r@) == values_at(self@.cells, strings_of(columns@)),
    {
        let mut out: Vec<Value> = Vec::new();
        let mut i: usize = 0;
        while i < columns.len()
            invariant
                i <= columns.len(),
                out@.len() == i,
                forall|k: int|
                    0 <= k < i ==> out@[k]@ == values_at(self@.cells, strings_of(columns@))[k],
            decreases columns.len() - i,
        {
            assert(strings_of(columns@)[i as int] == columns@[i as int]@);
            match find_cell(&self.tuples, &columns[i]) {
                Some(v) => out.push(v.clone()),
                None => out.push(Value::Nil),
            }
            i += 1;
        }
        assert(models_of(out@) =~= values_at(self@.cells, strings_of(columns@)));
        out
    }

    /// The first of the columns that this row lacks, if it lacks one.
    pub fn missing_column(&self, columns: &Vec<String>) -> (r: Option<String>)
        ensures
            match r {
                Some(name) => first_missing(self@.cells, strings_of(columns@), 0) == Some(name@),
                None => first_missing(self@.cells, strings_of(columns@), 0).is_none(),
            },
            r.is_none() <==> has_columns(self@.cells, strings_of(columns@)),
    {
        proof {
            lemma_first_missing(self@.cells, strings_of(columns@), 0);
        }
        let mut i: usize = 0;
        while i < columns.len()
            invariant
                i <= columns.len(),
                first_missing(self@.cells, strings_of(columns@), 0) == first_missing(
                    self@.cells,
                    strings_of(columns@),
                    i as int,
                ),
            decreases columns.len() - i,
        {
            assert(strings_of(columns@)[i as int] == columns@[i as int]@);
            if find_cell(&self.tuples, &columns[i]).is_none() {
                return Some(columns[i].clone());
            }
            i += 1;
        }
        None
    }

    /// The projection of this row on the given columns: the stored value
    /// where one column is asked for, else the tuple of the values in the
    /// order asked.
    pub fn to_value(&self, columns: &Vec<String>) -> (r: Value)
        requires
            has_columns(self@.cells, strings_of(columns@)),
        ensures
            r@ == projection(self@.cells, strings_of(columns@)),
    {
        let mut values = self.values_at(columns);
        if columns.len() == 1 {
            assert(models_of(values@).len() == values@.len());
            assert(strings_of(columns@).len() == columns@.len());
            assert(models_of(values@)[0] == values@[0]@);
            values.remove(0)
        } else {
            proof {
                lemma_model_of_members(values);
            }
            Value::Tuple(values)
        }
    }

    /// What this row says, without its identifier.
    pub fn hash(&self) -> (r: HashableRow)
        ensures
            r@ == self@.cells,
    {
        let mut keys: Vec<String> = Vec::new();
        let mut values: Vec<Value> = Vec::new();
        let mut i: usize = 0;
        while i < self.tuples.len()
            invariant
                i <= self.tuples.len(),
                keys@.len() == i,
                values@.len() == i,
                forall|k: int|
                    0 <= k < i ==> keys@[k]@ == self.tuples@[k].0@ && values@[k]@
                        == self.tuples@[k].1@,
            decreases self.tuples.len() - i,
        {
            keys.push(self.tuples[i].0.clone());
            values.push(self.tuples[i].1.clone());
            i += 1;
        }
        let r = HashableRow { keys, values };
        assert(r@ =~= self@.cells);
        r
    }

    /// The column names of this row, in the order of its cells.
    pub fn keys(&self) -> (r: Vec<String>)
        ensures
            strings_of(r@) == self@.cells.map_values(|c: (Seq<char>, ValueModel)| c.0),
    {
        let mut out: Vec<String> = Vec::new();
        let mut i: usize = 0;
        while i < self.tuples.len()
            invariant
                i <= self.tuples.len(),
                out@.len() == i,
                forall|k: int| 0 <= k < i ==> out@[k]@ == self.tuples@[k].0@,
            decreases self.tuples.len() - i,
        {
            out.push(self.tuples[i].0.clone());
            i += 1;
        }
        assert(strings_of(out@) =~= self@.cells.map_values(|c: (Seq<char>, ValueModel)| c.0));
        out
    }

    /// The values of this row, in the order of its cells.
    pub fn values(&self) -> (r: Vec<Value>)
        ensures
            models_of(r@) == self@.cells.map_values(|c: (Seq<char>, ValueModel)| c.1),
    {
        let mut out: Vec<Value> = Vec::new();
        let mut i: usize = 0;
        while i < self.tuples.len()
            invariant
                i <= self.tuples.len(),
                out@.len() == i,
                forall|k: int| 0 <= k < i ==> out@[k]@ == self.tuples@[k].1@,
            decreases self.tuples.len() - i,
        {
            out.push(self.tuples[i].1.clone());
            i += 1;
        }
        assert(models_of(out@) =~= self@.cells.map_values(|c: (Seq<char>, ValueModel)| c.1));
        out
    }
}

/// A copy of a list of rows.
pub fn clone_rows(rows: &Vec<Row>) -> (r: Vec<Row>)
    ensures
        rows_of(r@) == rows_of(rows@),
{
    let mut out: Vec<Row> = Vec::new();
    let mut i: usize = 0;
    while i < rows.len()
        invariant
            i <= rows.len(),
            out@.len() == i,
            forall|k: int| 0 <= k < i ==> out@[k]@ == rows@[k]@,
        decreases rows.len() - i,
    {
        out.push(rows[i].clone());
        i += 1;
    }
    assert(rows_of(out@) =~= rows_of(rows@));
    out
}

/// A unique index: the columns whose values no two rows of the table share.
#[derive(Debug, PartialEq, Eq, Hash)]
pub struct UniqueIndex {
    pub columns: Vec<String>,
}

impl View for UniqueIndex {
    type V = Seq<Seq<char>>;

    open spec fn view(&self) -> Seq<Seq<char>> {
        strings_of(self.columns@)
    }
}

impl Clone for UniqueIndex {
    fn clone(&self) -> (r: Self)
        ensures
            r@ == self@,
    {
        UniqueIndex { columns: clone_strings(&self.columns) }
    }
}

/// The unique tuple of a row under an index: its values at the index's columns.
pub open spec fn unique_tuple(index: Seq<Seq<char>>, cells: Cells) -> ValueModel {
    ValueModel::Tuple(values_at(cells, index))
}

impl UniqueIndex {
    /// The unique tuple of `row` under this index.
    pub fn tuple_from(&self, row: &Row) -> (r: Value)
        ensures
            r@ == unique_tuple(self@, row@.cells),
    {
        let values = row.values_at(&self.columns);
        proof {
            lemma_model_of_members(values);
        }
        Value::Tuple(values)
    }
}

/// The contents of a list of unique indexes, in order.
pub open spec fn indexes_of(items: Seq<UniqueIndex>) -> Seq<Seq<Seq<char>>> {
    items.map_values(|u: UniqueIndex| u@)
}

/// A copy of a list of unique indexes.
pub fn clone_indexes(items: &Vec<UniqueIndex>) -> (r: Vec<UniqueIndex>)
    ensures
        indexes_of(r@) == indexes_of(items@),
{
    let mut out: Vec<UniqueIndex> = Vec::new();
    let mut i: usize = 0;
    while i < items.len()
        invariant
            i <= items.len(),
            out@.len() == i,
            forall|k: int| 0 <= k < i ==> out@[k]@ == items@[k]@,
        decreases items.len() - i,
    {
        out.push(items[i].clone());
        i += 1;
    }
    assert(indexes_of(out@) =~= indexes_of(items@));
    out
}

/// A foreign key: the rows of `relation` refer, by `columns`, to rows of
/// `foreign_relation` with the same values at `foreign_columns`.
#[derive(Debug, PartialEq, Eq)]
pub struct ForeignKey {
    pub relation: String,
    pub columns: Vec<String>,
    pub foreign_relation: String,
    pub foreign_columns: Vec<String>,
}

/// The mathematical content of a [`ForeignKey`].
pub struct ForeignKeyModel {
    pub relation: Seq<char>,
    pub columns: Seq<Seq<char>>,
    pub foreign_relation: Seq<char>,
    pub foreign_columns: Seq<Seq<char>>,
}

impl View for ForeignKey {
    type V = ForeignKeyModel;

    open spec fn view(&self) -> ForeignKeyModel {
        ForeignKeyModel {
            relation: self.relation@,
            columns: strings_of(self.columns@),
            foreign_relation: self.foreign_relation@,
            foreign_columns: strings_of(self.foreign_columns@),
        }
    }
}

impl Clone for ForeignKey {
    fn clone(&self) -> (r: Self)
        ensures
            r@ == self@,
    {
        ForeignKey {
            relation: self.relation.clone(),
            columns: clone_strings(&self.columns),
            foreign_relation: self.foreign_relation.clone(),
            foreign_columns: clone_strings(&self.foreign_columns),
        }
    }
}

/// The contents of a list of foreign keys, in order.
pub open spec fn keys_of(items: Seq<ForeignKey>) -> Seq<ForeignKeyModel> {
    items.map_values(|k: ForeignKey| k@)
}

/// A copy of a list of foreign keys.
pub fn clone_keys(items: &Vec<ForeignKey>) -> (r: Vec<ForeignKey>)
    ensures
        keys_of(r@) == keys_of(items@),
{
    let mut out: Vec<ForeignKey> = Vec::new();
    let mut i: usize = 0;
    while i < items.len()
        invariant
            i <= items.len(),
            out@.len() == i,
            forall|k: int| 0 <= k < i ==> out@[k]@ == items@[k]@,
        decreases items.len() - i,
    {
        out.push(items[i].clone());
        i += 1;
    }
    assert(keys_of(out@) =~= keys_of(items@));
    out
}

/// A table: its column order, its committed rows, its unique indexes.
#[derive(Debug, PartialEq, Eq)]
pub struct Table {
    pub columns: Vec<String>,
    pub rows: Vec<Row>,
    pub unique: Vec<UniqueIndex>,
}

/// The mathematical content of a [`Table`].
pub struct TableModel {
    pub columns: Seq<Seq<char>>,
    pub rows: Seq<RowModel>,
    pub unique: Seq<Seq<Seq<char>>>,
}

impl View for Table {
    type V = TableModel;

    open spec fn view(&self) -> TableModel {
        TableModel {
            columns: strings_of(self.columns@),
            rows: rows_of(self.rows@),
            unique: indexes_of(self.unique@),
        }
    }
}

/// The table without columns, rows or indexes.
pub open spec fn empty_table() -> TableModel {
    TableModel { columns: Seq::empty(), rows: Seq::empty(), unique: Seq::empty() }
}

impl Clone for Table {
    fn clone(&self) -> (r: Self)
        ensures
            r@ == self@,
    {
        Table {
            columns: clone_strings(&self.columns),
            rows: clone_rows(&self.rows),
            unique: clone_indexes(&self.unique),
        }
    }
}

impl Default for Table {
    fn default() -> (r: Self)
        ensures
            r@ == empty_table(),
    {
        let t = Table { columns: Vec::new(), rows: Vec::new(), unique: Vec::new() };
        assert(t@.columns =~= Seq::empty());
        assert(t@.rows =~= Seq::empty());
        assert(t@.unique =~= Seq::empty());
        t
    }
}

/// A change that a transaction has made and not yet committed.
#[derive(Debug, PartialEq, Eq)]
pub enum Changes {
    Insert(String, Row),
    Delete(String, Row),
}

/// The mathematical content of a [`Changes`].
pub enum ChangeModel {
    Insert(Seq<char>, RowModel),
    Delete(Seq<char>, RowModel),
}

impl View for Changes {
    type V = ChangeModel;

    open spec fn view(&self) -> ChangeModel {
        match self {
            Changes::Insert(t, r) => ChangeModel::Insert(t@, r@),
            Changes::Delete(t, r) => ChangeModel::Delete(t@, r@),
        }
    }
}

impl Clone for Changes {
    fn clone(&self) -> (r: Self)
        ensures
            r@ == self@,
    {
        match self {
            Changes::Insert(t, r) => Changes::Insert(t.clone(), r.clone()),
            Changes::Delete(t, r) => Changes::Delete(t.clone(), r.clone()),
        }
    }
}

/// The contents of a list of changes, in order.
pub open spec fn changes_of(items: Seq<Changes>) -> Seq<ChangeModel> {
    items.map_values(|c: Changes| c@)
}

/// A copy of a list of changes.
pub fn clone_changes(items: &Vec<Changes>) -> (r: Vec<Changes>)
    ensures
        changes_of(r@) == changes_of(items@),
{
    let mut out: Vec<Changes> = Vec::new();
    let mut i: usize = 0;
    while i < items.len()
        invariant
            i <= items.len(),
            out@.len() == i,
            forall|k: int| 0 <= k < i ==> out@[k]@ == items@[k]@,
        decreases items.len() - i,
    {
        out.push(items[i].clone());
        i += 1;
    }
    assert(changes_of(out@) =~= changes_of(items@));
    out
}

/// A lock that a transaction holds until it commits or aborts.
#[derive(Debug, PartialEq, Eq, Hash)]
pub enum Lock {
    /// The right to update or delete the row.
    RowUpdate(RowId),
    /// The right to rely on the row as the target of a foreign key.
    RowForKeyShare(RowId),
    /// A pending insert of the value under the index of the table.
    Unique(String, UniqueIndex, Value),
}

/// The mathematical content of a [`Lock`].
pub enum LockModel {
    RowUpdate(RowId),
    RowForKeyShare(RowId),
    Unique(Seq<char>, Seq<Seq<char>>, ValueModel),
}

impl View for Lock {
    type V = LockModel;

    open spec fn view(&self) -> LockModel {
        match self {
            Lock::RowUpdate(r) => LockModel::RowUpdate(*r),
            Lock::RowForKeyShare(r) => LockModel::RowForKeyShare(*r),
            Lock::Unique(t, i, v) => LockModel::Unique(t@, i@, v@),
        }
    }
}

impl Clone for Lock {
    fn clone(&self) -> (r: Self)
        ensures
            r@ == self@,
    {
        match self {
            Lock::RowUpdate(r) => Lock::RowUpdate(*r),
            Lock::RowForKeyShare(r) => Lock::RowForKeyShare(*r),
            Lock::Unique(t, i, v) => Lock::Unique(t.clone(), i.clone(), v.clone()),
        }
    }
}

/// Whether a lock that one transaction asks for cannot be had while another
/// transaction holds `held`: an update lock against an update or key-share
/// lock on the same row, a key-share lock against an update lock on the same
/// row, a pending unique value against the same pending value.
pub open spec fn conflicts(wanted: LockModel, held: LockModel) -> bool {
    match (wanted, held) {
        (LockModel::RowUpdate(r), LockModel::RowUpdate(h)) => r == h,
        (LockModel::RowUpdate(r), LockModel::RowForKeyShare(h)) => r == h,
        (LockModel::RowForKeyShare(r), LockModel::RowUpdate(h)) => r == h,
        (LockModel::Unique(t, i, v), LockModel::Unique(ht, hi, hv)) => t == ht && i == hi && v
            == hv,
        _ => false,
    }
}

impl Lock {
    /// Whether the two locks have the same content.
    pub fn same(&self, other: &Lock) -> (r: bool)
        ensures
            r == (self@ == other@),
    {
        match (self, other) {
            (Lock::RowUpdate(a), Lock::RowUpdate(b)) => a.0 == b.0,
            (Lock::RowForKeyShare(a), Lock::RowForKeyShare(b)) => a.0 == b.0,
            (Lock::Unique(t, i, v), Lock::Unique(ht, hi, hv)) => *t == *ht && same_strings(
                &i.columns,
                &hi.columns,
            ) && v.same(hv),
            _ => false,
        }
    }

    /// Whether this lock, asked for by one transaction, cannot be had while
    /// another transaction holds `held`.
    pub fn conflicts_with(&self, held: &Lock) -> (r: bool)
        ensures
            r == conflicts(self@, held@),
    {
        match (self, held) {
            (Lock::RowUpdate(a), Lock::RowUpdate(b)) => a.0 == b.0,
            (Lock::RowUpdate(a), Lock::RowForKeyShare(b)) => a.0 == b.0,
            (Lock::RowForKeyShare(a), Lock::RowUpdate(b)) => a.0 == b.0,
            (Lock::Unique(t, i, v), Lock::Unique(ht, hi, hv)) => *t == *ht && same_strings(
                &i.columns,
                &hi.columns,
            ) && v.same(hv),
            _ => false,
        }
    }
}

/// The contents of a list of locks, in order.
pub open spec fn locks_of(items: Seq<Lock>) -> Seq<LockModel> {
    items.map_values(|l: Lock| l@)
}

/// A copy of a list of locks.
pub fn clone_locks(items: &Vec<Lock>) -> (r: Vec<Lock>)
    ensures
        locks_of(r@) == locks_of(items@),
{
    let mut out: Vec<Lock> = Vec::new();
    let mut i: usize = 0;
    while i < items.len()
        invariant
            i <= items.len(),
            out@.len() == i,
            forall|k: int| 0 <= k < i ==> out@[k]@ == items@[k]@,
        decreases items.len() - i,
    {
        out.push(items[i].clone());
        i += 1;
    }
    assert(locks_of(out@) =~= locks_of(items@));
    out
}

/// Whether one of the held locks stands against the wanted one.
pub open spec fn any_conflict(wanted: LockModel, held: Seq<LockModel>) -> bool {
    exists|i: int| 0 <= i < held.len() && conflicts(wanted, #[trigger] held[i])
}

/// Whether one of the held locks stands against the wanted one.
pub fn blocks(held: &Vec<Lock>, wanted: &Lock) -> (r: bool)
    ensures
        r == any_conflict(wanted@, locks_of(held@)),
{
    let mut i: usize = 0;
    while i < held.len()
        invariant
            i <= held.len(),
            forall|k: int| 0 <= k < i ==> !conflicts(wanted@, #[trigger] locks_of(held@)[k]),
        decreases held.len() - i,
    {
        assert(locks_of(held@)[i as int] == held@[i as int]@);
        if wanted.conflicts_with(&held[i]) {
            return true;
        }
        i += 1;
    }
    false
}

/// What an open transaction has done so far: its pending changes, in the
/// order made, and the locks it holds.
#[derive(Debug, PartialEq, Eq)]
pub struct TransactionContext {
    pub changes: Vec<Changes>,
    pub locks: Vec<Lock>,
}

/// The mathematical content of a [`TransactionContext`].
pub struct ContextModel {
    pub changes: Seq<ChangeModel>,
    pub locks: Seq<LockModel>,
}

impl View for TransactionContext {
    type V = ContextModel;

    open spec fn view(&self) -> ContextModel {
        ContextModel { changes: changes_of(self.changes@), locks: locks_of(self.locks@) }
    }
}

/// The context of a transaction that has done nothing yet.
pub open spec fn empty_context() -> ContextModel {
    ContextModel { changes: Seq::empty(), locks: Seq::empty() }
}

impl Clone for TransactionContext {
    fn clone(&self) -> (r: Self)
        ensures
            r@ == self@,
    {
        TransactionContext { changes: clone_changes(&self.changes), locks: clone_locks(&self.locks) }
    }
}

impl TransactionContext {
    /// The context of a transaction that has done nothing yet.
    pub fn new() -> (r: Self)
        ensures
            r@ == empty_context(),
    {
        let c = TransactionContext { changes: Vec::new(), locks: Vec::new() };
        assert(c@.changes =~= Seq::empty());
        assert(c@.locks =~= Seq::empty());
        c
    }
}

} // verus!
