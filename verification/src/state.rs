//! The global state of a model: where each process stands, the database,
//! the variables, and what is needed to tell two states apart.

use crate::sql_interpreter::{tables_of, DbModel, SqlDatabase, TableEntries};
use crate::store::{hashed_rows, HashableRow, 
    any_conflict, blocks, cell, cell_from, cells_of, clone_cells, find_cell, rows_of, Cells, Lock,
    LockModel, Row, RowModel, TransactionId,
};
use crate::value::{TransactionState, Value, ValueModel};
use std::collections::HashSet;
use vstd::prelude::*;

verus! {

broadcast use vstd::std_specs::hash::group_hash_axioms;

/// What a process is doing.
#[derive(Debug, PartialEq, Eq, Hash)]
pub enum ProcessState {
    Running,
    /// Waiting until every process waits at a latch or has finished.
    Latching,
    /// Waiting for a lock that another transaction stands against.
    Locked(Lock),
    Finished,
}

/// The mathematical content of a [`ProcessState`].
pub enum ProcessModel {
    Running,
    Latching,
    Locked(LockModel),
    Finished,
}

impl View for ProcessState {
    type V = ProcessModel;

    open spec fn view(&self) -> ProcessModel {
        match self {
            ProcessState::Running => ProcessModel::Running,
            ProcessState::Latching => ProcessModel::Latching,
            ProcessState::Locked(l) => ProcessModel::Locked(l@),
            ProcessState::Finished => ProcessModel::Finished,
        }
    }
}

impl Clone for ProcessState {
    fn clone(&self) -> (r: Self)
        ensures
            r@ == self@,
    {
        match self {
            ProcessState::Running => ProcessState::Running,
            ProcessState::Latching => ProcessState::Latching,
            ProcessState::Locked(l) => ProcessState::Locked(l.clone()),
            ProcessState::Finished => ProcessState::Finished,
        }
    }
}

impl ProcessState {
    /// Whether the two have the same content.
    pub fn same(&self, other: &ProcessState) -> (r: bool)
        ensures
            r == (self@ == other@),
    {
        match (self, other) {
            (ProcessState::Running, ProcessState::Running) => true,
            (ProcessState::Latching, ProcessState::Latching) => true,
            (ProcessState::Locked(a), ProcessState::Locked(b)) => a.same(b),
            (ProcessState::Finished, ProcessState::Finished) => true,
            _ => false,
        }
    }
}

/// The contents of a list of process states, in order.
pub open spec fn processes_of(items: Seq<ProcessState>) -> Seq<ProcessModel> {
    items.map_values(|p: ProcessState| p@)
}

/// A copy of a list of process states.
pub fn clone_processes(items: &Vec<ProcessState>) -> (r: Vec<ProcessState>)
    ensures
        processes_of(r@) == processes_of(items@),
{
    let mut out: Vec<ProcessState> = Vec::new();
    let mut i: usize = 0;
    while i < items.len()
        invariant
            i <= items.len(),
            out@.len() == i,
            forall|k: int| 0 <= k < i ==> out@[k]@ == items@[k]@,
        decreases items.len() - i,
    {
        out.push(items[i].clone());
        i += 1;
    }
    assert(processes_of(out@) =~= processes_of(items@));
    out
}

/// What a process knows of its transaction.
#[derive(Debug, PartialEq, Eq)]
pub struct TransactionInfo {
    pub id: Option<TransactionId>,
    pub name: Option<String>,
    pub state: TransactionState,
}

/// The mathematical content of a [`TransactionInfo`].
pub struct InfoModel {
    pub id: Option<TransactionId>,
    pub name: Option<Seq<char>>,
    pub state: TransactionState,
}

/// The content of an optional string.
pub open spec fn opt_string(o: Option<String>) -> Option<Seq<char>> {
    match o {
        Some(s) => Some(s@),
        None => None,
    }
}

impl View for TransactionInfo {
    type V = InfoModel;

    open spec fn view(&self) -> InfoModel {
        InfoModel { id: self.id, name: opt_string(self.name), state: self.state }
    }
}

impl Clone for TransactionInfo {
    fn clone(&self) -> (r: Self)
        ensures
            r@ == self@,
    {
        TransactionInfo {
            id: self.id,
            name: match &self.name {
                Some(s) => Some(s.clone()),
                None => None,
            },
            state: self.state,
        }
    }
}

/// The contents of a list of transaction infos, in order.
pub open spec fn infos_of(items: Seq<TransactionInfo>) -> Seq<InfoModel> {
    items.map_values(|t: TransactionInfo| t@)
}

/// A copy of a list of transaction infos.
pub fn clone_infos(items: &Vec<TransactionInfo>) -> (r: Vec<TransactionInfo>)
    ensures
        infos_of(r@) == infos_of(items@),
{
    let mut out: Vec<TransactionInfo> = Vec::new();
    let mut i: usize = 0;
    while i < items.len()
        invariant
            i <= items.len(),
            out@.len() == i,
            forall|k: int| 0 <= k < i ==> out@[k]@ == items@[k]@,
        decreases items.len() - i,
    {
        out.push(items[i].clone());
        i += 1;
    }
    assert(infos_of(out@) =~= infos_of(items@));
    out
}

/// A reference to a state that an exploration has stored: its position in
/// the store.
#[derive(Copy, Debug, PartialEq, Eq, Structural, Hash)]
pub struct RcState(pub usize);

impl Clone for RcState {
    fn clone(&self) -> (r: Self)
        ensures
            r == *self,
    {
        *self
    }
}

impl RcState {
    /// The reference to the state stored at `position`.
    pub fn new(position: usize) -> (r: RcState)
        ensures
            r.0 == position,
    {
        RcState(position)
    }

    /// The state that this reference stands for.
    pub fn borrow<'a>(&self, store: &'a Vec<State>) -> (r: &'a State)
        requires
            self.0 < store@.len(),
        ensures
            *r == store@[self.0 as int],
    {
        &store[self.0]
    }

    /// The state that this reference stands for, to be changed in place:
    /// no other state changes.
    pub fn borrow_mut<'a>(&self, store: &'a mut Vec<State>) -> (r: &'a mut State)
        requires
            self.0 < old(store)@.len(),
        ensures
            *r == old(store)@[self.0 as int],
            final(store)@ == old(store)@.update(self.0 as int, *final(r)),
    {
        &mut store[self.0]
    }
}

/// The global state of a model at one point of a run.
#[derive(Debug, PartialEq, Eq)]
pub struct State {
    /// The position of each process in its code.
    pub pc: Vec<usize>,
    pub processes: Vec<ProcessState>,
    pub txs: Vec<TransactionInfo>,
    pub sql: SqlDatabase,
    /// The variables of the model with their values.
    pub locals: Vec<(String, Value)>,
    /// The states from which this one was reached, the first found first.
    pub ancestors: Vec<RcState>,
    /// For each property, whether it is one that must hold at some point
    /// and, if so, whether it has held on the way here.
    pub eventually: Vec<Option<bool>>,
}

/// The mathematical content of a [`State`].
pub struct StateModel {
    pub pc: Seq<usize>,
    pub processes: Seq<ProcessModel>,
    pub txs: Seq<InfoModel>,
    pub sql: DbModel,
    pub locals: Cells,
    pub ancestors: Seq<RcState>,
    pub eventually: Seq<Option<bool>>,
}

impl View for State {
    type V = StateModel;

    open spec fn view(&self) -> StateModel {
        StateModel {
            pc: self.pc@,
            processes: processes_of(self.processes@),
            txs: infos_of(self.txs@),
            sql: self.sql@,
            locals: cells_of(self.locals@),
            ancestors: self.ancestors@,
            eventually: self.eventually@,
        }
    }
}

impl Clone for State {
    fn clone(&self) -> (r: Self)
        ensures
            r@ == self@,
    {
        let pc = self.pc.clone();
        let ancestors = self.ancestors.clone();
        let eventually = self.eventually.clone();
        assert(pc@ =~= self.pc@);
        assert(ancestors@ =~= self.ancestors@);
        assert(eventually@ =~= self.eventually@);
        State {
            pc,
            processes: clone_processes(&self.processes),
            txs: clone_infos(&self.txs),
            sql: self.sql.clone(),
            locals: clone_cells(&self.locals),
            ancestors,
            eventually,
        }
    }
}

/// What the cells say as a mapping: each name that occurs with the value of
/// its first cell.
pub open spec fn cells_map(cells: Cells) -> Map<Seq<char>, ValueModel> {
    Map::new(|k: Seq<char>| cell(cells, k).is_some(), |k: Seq<char>| cell(cells, k).unwrap())
}

/// A name has a value in the cells, from `from` on, exactly where a cell
/// from there on has the name.
pub proof fn lemma_cell_occurs(cells: Cells, name: Seq<char>, from: int)
    requires
        0 <= from,
    ensures
        cell_from(cells, name, from).is_some() <==> (exists|i: int|
            from <= i < cells.len() && (#[trigger] cells[i]).0 == name),
    decreases cells.len() - from,
{
    if from < cells.len() {
        if cells[from].0 == name {
        } else {
            lemma_cell_occurs(cells, name, from + 1);
            if cell_from(cells, name, from).is_some() {
                let i = choose|i: int| from + 1 <= i < cells.len() && (#[trigger] cells[i]).0 == name;
                assert(from <= i < cells.len() && cells[i].0 == name);
            }
            if exists|i: int| from <= i < cells.len() && (#[trigger] cells[i]).0 == name {
                let i = choose|i: int| from <= i < cells.len() && (#[trigger] cells[i]).0 == name;
                assert(from + 1 <= i < cells.len() && cells[i].0 == name);
            }
        }
    }
}

/// Whether every name of `a` has in `b` the value that it has in `a`.
fn agrees(a: &Vec<(String, Value)>, b: &Vec<(String, Value)>) -> (r: bool)
    ensures
        r == (forall|i: int|
            0 <= i < a@.len() ==> cell(cells_of(b@), (#[trigger] cells_of(a@)[i]).0) == cell(
                cells_of(a@),
                cells_of(a@)[i].0,
            )),
{
    let mut i: usize = 0;
    while i < a.len()
        invariant
            i <= a.len(),
            forall|k: int|
                0 <= k < i ==> cell(cells_of(b@), (#[trigger] cells_of(a@)[k]).0) == cell(
                    cells_of(a@),
                    cells_of(a@)[k].0,
                ),
        decreases a.len() - i,
    {
        assert(cells_of(a@)[i as int] == (a@[i as int].0@, a@[i as int].1@));
        let in_a = find_cell(a, &a[i].0);
        let in_b = find_cell(b, &a[i].0);
        let same = match (in_a, in_b) {
            (Some(x), Some(y)) => x.same(y),
            (None, None) => true,
            _ => false,
        };
        if !same {
            return false;
        }
        i += 1;
    }
    true
}

/// Whether two lists of named values say the same as mappings.
pub fn same_cells(a: &Vec<(String, Value)>, b: &Vec<(String, Value)>) -> (r: bool)
    ensures
        r == (cells_map(cells_of(a@)) == cells_map(cells_of(b@))),
{
    let forth = agrees(a, b);
    let back = agrees(b, a);
    let ghost ca = cells_of(a@);
    let ghost cb = cells_of(b@);
    proof {
        if forth && back {
            assert forall|k: Seq<char>| cell(ca, k) == cell(cb, k) by {
                lemma_cell_occurs(ca, k, 0);
                lemma_cell_occurs(cb, k, 0);
                if cell(ca, k).is_some() {
                    let i = choose|i: int| 0 <= i < ca.len() && (#[trigger] ca[i]).0 == k;
                    assert(cell(cb, ca[i].0) == cell(ca, ca[i].0));
                } else if cell(cb, k).is_some() {
                    let i = choose|i: int| 0 <= i < cb.len() && (#[trigger] cb[i]).0 == k;
                    assert(cell(ca, cb[i].0) == cell(cb, cb[i].0));
                }
            }
            assert(cells_map(ca) =~= cells_map(cb));
        } else {
            let k = if !forth {
                let i = choose|i: int|
                    0 <= i < ca.len() && cell(cb, (#[trigger] ca[i]).0) != cell(ca, ca[i].0);
                ca[i].0
            } else {
                let i = choose|i: int|
                    0 <= i < cb.len() && cell(ca, (#[trigger] cb[i]).0) != cell(cb, cb[i].0);
                cb[i].0
            };
            assert(cell(ca, k) != cell(cb, k));
            if cells_map(ca) == cells_map(cb) {
                assert(cells_map(ca).dom().contains(k) == cells_map(cb).dom().contains(k));
                assert(cells_map(ca)[k] == cells_map(cb)[k]);
                assert(false);
            }
        }
    }
    forth && back
}

/// What the rows say, without their identifiers, in order.
pub open spec fn rows_key(rows: Seq<RowModel>) -> Seq<Map<Seq<char>, ValueModel>> {
    Seq::new(rows.len(), |i: int| cells_map(rows[i].cells))
}

/// Whether two lists of rows say the same, row by row.
pub fn same_rows(a: &Vec<HashableRow>, b: &Vec<HashableRow>) -> (r: bool)
    ensures
        r == (rows_key(hashed_rows(a@)) == rows_key(hashed_rows(b@))),
{
    if a.len() != b.len() {
        assert(rows_key(hashed_rows(a@)).len() != rows_key(hashed_rows(b@)).len());
        return false;
    }
    let mut i: usize = 0;
    while i < a.len()
        invariant
            i <= a.len(),
            a.len() == b.len(),
            forall|k: int| 0 <= k < i ==> cells_map(a@[k]@) == cells_map(b@[k]@),
        decreases a.len() - i,
    {
        let left = a[i].pairs();
        let right = b[i].pairs();
        if !same_cells(&left, &right) {
            assert(rows_key(hashed_rows(a@))[i as int] == cells_map(a@[i as int]@));
            assert(rows_key(hashed_rows(b@))[i as int] == cells_map(b@[i as int]@));
            return false;
        }
        i += 1;
    }
    assert(rows_key(hashed_rows(a@)) =~= rows_key(hashed_rows(b@)));
    true
}

/// The rows of the first table named `name`, from position `from` on.
pub open spec fn table_rows_from(tables: TableEntries, name: Seq<char>, from: int) -> Option<
    Seq<RowModel>,
>
    decreases tables.len() - from,
{
    if from < 0 || from >= tables.len() {
        None
    } else if tables[from].0 == name {
        Some(tables[from].1.rows)
    } else {
        table_rows_from(tables, name, from + 1)
    }
}

/// What the tables say as a mapping: each table name with what its rows say.
pub open spec fn tables_key(tables: TableEntries) -> Map<Seq<char>, Seq<Map<Seq<char>, ValueModel>>> {
    Map::new(
        |k: Seq<char>| table_rows_from(tables, k, 0).is_some(),
        |k: Seq<char>| rows_key(table_rows_from(tables, k, 0).unwrap()),
    )
}

/// A name has rows in the tables, from `from` on, exactly where a table from
/// there on has the name.
pub proof fn lemma_table_occurs(tables: TableEntries, name: Seq<char>, from: int)
    requires
        0 <= from,
    ensures
        table_rows_from(tables, name, from).is_some() <==> (exists|i: int|
            from <= i < tables.len() && (#[trigger] tables[i]).0 == name),
    decreases tables.len() - from,
{
    if from < tables.len() {
        if tables[from].0 == name {
        } else {
            lemma_table_occurs(tables, name, from + 1);
            if table_rows_from(tables, name, from).is_some() {
                let i = choose|i: int|
                    from + 1 <= i < tables.len() && (#[trigger] tables[i]).0 == name;
                assert(from <= i < tables.len() && tables[i].0 == name);
            }
            if exists|i: int| from <= i < tables.len() && (#[trigger] tables[i]).0 == name {
                let i = choose|i: int| from <= i < tables.len() && (#[trigger] tables[i]).0 == name;
                assert(from + 1 <= i < tables.len() && tables[i].0 == name);
            }
        }
    }
}

/// What a table name stands for in a key: what its rows say, if it is there.
pub open spec fn table_key(tables: TableEntries, name: Seq<char>) -> Option<
    Seq<Map<Seq<char>, ValueModel>>,
> {
    match table_rows_from(tables, name, 0) {
        Some(rows) => Some(rows_key(rows)),
        None => None,
    }
}

/// The rows of the table named `name`, if it is there.
fn find_rows<'a>(tables: &'a Vec<(String, Vec<HashableRow>)>, name: &String) -> (r: Option<
    &'a Vec<HashableRow>,
>)
    ensures
        match r {
            Some(rows) => table_rows_from(key_tables_of(tables@), name@, 0) == Some(
                hashed_rows(rows@),
            ),
            None => table_rows_from(key_tables_of(tables@), name@, 0).is_none(),
        },
{
    let mut i: usize = 0;
    while i < tables.len()
        invariant
            i <= tables.len(),
            table_rows_from(key_tables_of(tables@), name@, 0) == table_rows_from(
                key_tables_of(tables@),
                name@,
                i as int,
            ),
        decreases tables.len() - i,
    {
        assert(key_tables_of(tables@)[i as int].0 == tables@[i as int].0@);
        assert(key_tables_of(tables@)[i as int].1.rows == hashed_rows(tables@[i as int].1@));
        if tables[i].0 == *name {
            return Some(&tables[i].1);
        }
        i += 1;
    }
    None
}

/// The content of a list of named row lists, as tables without columns,
/// indexes or row identifiers.
pub open spec fn key_tables_of(items: Seq<(String, Vec<HashableRow>)>) -> TableEntries {
    items.map_values(
        |t: (String, Vec<HashableRow>)|
            (
                t.0@,
                crate::store::TableModel {
                    columns: Seq::empty(),
                    rows: hashed_rows(t.1@),
                    unique: Seq::empty(),
                },
            ),
    )
}

/// Whether every table of `a` says in `b` what it says in `a`.
fn tables_agree(a: &Vec<(String, Vec<HashableRow>)>, b: &Vec<(String, Vec<HashableRow>)>) -> (r:
    bool)
    ensures
        r == (forall|i: int|
            0 <= i < a@.len() ==> table_key(
                key_tables_of(b@),
                (#[trigger] key_tables_of(a@)[i]).0,
            ) == table_key(key_tables_of(a@), key_tables_of(a@)[i].0)),
{
    let mut i: usize = 0;
    while i < a.len()
        invariant
            i <= a.len(),
            forall|k: int|
                0 <= k < i ==> table_key(key_tables_of(b@), (#[trigger] key_tables_of(a@)[k]).0)
                    == table_key(key_tables_of(a@), key_tables_of(a@)[k].0),
        decreases a.len() - i,
    {
        assert(key_tables_of(a@)[i as int].0 == a@[i as int].0@);
        let in_a = find_rows(a, &a[i].0);
        let in_b = find_rows(b, &a[i].0);
        let same = match (in_a, in_b) {
            (Some(x), Some(y)) => same_rows(x, y),
            (None, None) => true,
            _ => false,
        };
        if !same {
            return false;
        }
        i += 1;
    }
    true
}

/// Whether two lists of tables say the same as mappings.
fn same_tables(a: &Vec<(String, Vec<HashableRow>)>, b: &Vec<(String, Vec<HashableRow>)>) -> (r: bool)
    ensures
        r == (tables_key(key_tables_of(a@)) == tables_key(key_tables_of(b@))),
{
    let forth = tables_agree(a, b);
    let back = tables_agree(b, a);
    let ghost ta = key_tables_of(a@);
    let ghost tb = key_tables_of(b@);
    proof {
        if forth && back {
            assert forall|k: Seq<char>| table_key(ta, k) == table_key(tb, k) by {
                lemma_table_occurs(ta, k, 0);
                lemma_table_occurs(tb, k, 0);
                if table_rows_from(ta, k, 0).is_some() {
                    let i = choose|i: int| 0 <= i < ta.len() && (#[trigger] ta[i]).0 == k;
                    assert(table_key(tb, ta[i].0) == table_key(ta, ta[i].0));
                } else if table_rows_from(tb, k, 0).is_some() {
                    let i = choose|i: int| 0 <= i < tb.len() && (#[trigger] tb[i]).0 == k;
                    assert(table_key(ta, tb[i].0) == table_key(tb, tb[i].0));
                }
            }
            assert(tables_key(ta) =~= tables_key(tb)) by {
                assert forall|k: Seq<char>| tables_key(ta).dom().contains(k) == tables_key(
                    tb,
                ).dom().contains(k) by {
                    assert(table_key(ta, k) == table_key(tb, k));
                }
                assert forall|k: Seq<char>| tables_key(ta).dom().contains(k) implies tables_key(
                    ta,
                )[k] == tables_key(tb)[k] by {
                    assert(table_key(ta, k) == table_key(tb, k));
                }
            }
        } else {
            let k = if !forth {
                let i = choose|i: int|
                    0 <= i < ta.len() && table_key(tb, (#[trigger] ta[i]).0) != table_key(
                        ta,
                        ta[i].0,
                    );
                ta[i].0
            } else {
                let i = choose|i: int|
                    0 <= i < tb.len() && table_key(ta, (#[trigger] tb[i]).0) != table_key(
                        tb,
                        tb[i].0,
                    );
                tb[i].0
            };
            assert(table_key(ta, k) != table_key(tb, k));
            if tables_key(ta) == tables_key(tb) {
                assert(tables_key(ta).dom().contains(k) == tables_key(tb).dom().contains(k));
                assert(tables_key(ta)[k] == tables_key(tb)[k]);
                assert(false);
            }
        }
    }
    forth && back
}

/// What tells two states apart: where the processes stand and what they are
/// doing, what the committed rows of each table say, what the variables
/// hold, and which properties have held. The order in which tables, columns
/// or variables came to be plays no part, nor do row identifiers.
pub struct StateKey {
    pub pc: Seq<usize>,
    pub processes: Seq<ProcessModel>,
    pub tables: Map<Seq<char>, Seq<Map<Seq<char>, ValueModel>>>,
    pub locals: Map<Seq<char>, ValueModel>,
    pub eventually: Seq<Option<bool>>,
}

/// Tables that have the same names in the same order, and whose rows say
/// the same, say the same from `from` on.
pub proof fn lemma_same_rows_say(a: TableEntries, b: TableEntries, name: Seq<char>, from: int)
    requires
        0 <= from,
        a.len() == b.len(),
        forall|i: int|
            0 <= i < a.len() ==> (#[trigger] a[i]).0 == b[i].0 && rows_key(a[i].1.rows) == rows_key(
                b[i].1.rows,
            ),
    ensures
        match (table_rows_from(a, name, from), table_rows_from(b, name, from)) {
            (Some(x), Some(y)) => rows_key(x) == rows_key(y),
            (None, None) => true,
            _ => false,
        },
    decreases a.len() - from,
{
    if from < a.len() {
        assert(a[from].0 == b[from].0);
        if a[from].0 != name {
            lemma_same_rows_say(a, b, name, from + 1);
        }
    }
}

/// Tables that have the same names in the same order, and whose rows say
/// the same, say the same.
pub proof fn lemma_same_tables_key(a: TableEntries, b: TableEntries)
    requires
        a.len() == b.len(),
        forall|i: int|
            0 <= i < a.len() ==> (#[trigger] a[i]).0 == b[i].0 && rows_key(a[i].1.rows) == rows_key(
                b[i].1.rows,
            ),
    ensures
        tables_key(a) == tables_key(b),
{
    assert forall|k: Seq<char>|
        table_rows_from(a, k, 0).is_some() == table_rows_from(b, k, 0).is_some() && (
        table_rows_from(a, k, 0).is_some() ==> rows_key(table_rows_from(a, k, 0).unwrap())
            == rows_key(table_rows_from(b, k, 0).unwrap())) by {
        lemma_same_rows_say(a, b, k, 0);
    }
    assert(tables_key(a) =~= tables_key(b));
}

impl StateModel {
    /// What tells this state apart from others.
    pub open spec fn key(self) -> StateKey {
        StateKey {
            pc: self.pc,
            processes: self.processes,
            tables: tables_key(self.sql.tables),
            locals: cells_map(self.locals),
            eventually: self.eventually,
        }
    }
}

/// What is kept of a state to tell it apart from others.
#[derive(Debug, PartialEq, Eq)]
pub struct HashableState {
    pub pc: Vec<usize>,
    pub state: Vec<ProcessState>,
    pub global: Vec<(String, Vec<HashableRow>)>,
    pub locals: Vec<(String, Value)>,
    pub eventually: Vec<Option<bool>>,
}

impl HashableState {
    /// What tells the state that this was taken from apart from others.
    pub open spec fn key(&self) -> StateKey {
        StateKey {
            pc: self.pc@,
            processes: processes_of(self.state@),
            tables: tables_key(key_tables_of(self.global@)),
            locals: cells_map(cells_of(self.locals@)),
            eventually: self.eventually@,
        }
    }

    /// Whether the two were taken from states that nothing tells apart.
    pub fn same(&self, other: &HashableState) -> (r: bool)
        ensures
            r == (self.key() == other.key()),
    {
        if self.pc.len() != other.pc.len() || self.state.len() != other.state.len()
            || self.eventually.len() != other.eventually.len() {
            assert(processes_of(self.state@).len() == self.state@.len());
            assert(processes_of(other.state@).len() == other.state@.len());
            return false;
        }
        let mut i: usize = 0;
        while i < self.pc.len()
            invariant
                i <= self.pc.len(),
                self.pc.len() == other.pc.len(),
                forall|k: int| 0 <= k < i ==> self.pc@[k] == other.pc@[k],
            decreases self.pc.len() - i,
        {
            if self.pc[i] != other.pc[i] {
                return false;
            }
            i += 1;
        }
        assert(self.pc@ =~= other.pc@);
        let mut j: usize = 0;
        while j < self.state.len()
            invariant
                j <= self.state.len(),
                self.state.len() == other.state.len(),
                forall|k: int| 0 <= k < j ==> self.state@[k]@ == other.state@[k]@,
            decreases self.state.len() - j,
        {
            if !self.state[j].same(&other.state[j]) {
                assert(processes_of(self.state@)[j as int] != processes_of(other.state@)[j as int]);
                return false;
            }
            j += 1;
        }
        assert(processes_of(self.state@) =~= processes_of(other.state@));
        let mut e: usize = 0;
        while e < self.eventually.len()
            invariant
                e <= self.eventually.len(),
                self.eventually.len() == other.eventually.len(),
                forall|k: int| 0 <= k < e ==> self.eventually@[k] == other.eventually@[k],
            decreases self.eventually.len() - e,
        {
            let same = match (self.eventually[e], other.eventually[e]) {
                (Some(x), Some(y)) => x == y,
                (None, None) => true,
                _ => false,
            };
            if !same {
                return false;
            }
            e += 1;
        }
        assert(self.eventually@ =~= other.eventually@);
        same_cells(&self.locals, &other.locals) && same_tables(&self.global, &other.global)
    }
}

/// Whether a transaction other than the waiting process's own holds a lock
/// that stands against the one it waits for.
pub open spec fn held_against(db: DbModel, owner: Option<TransactionId>, wanted: LockModel) -> bool {
    exists|i: int|
        0 <= i < db.transactions.len() && Some((#[trigger] db.transactions[i]).0) != owner
            && any_conflict(wanted, db.transactions[i].1.locks)
}

/// What a process is doing once the locks are looked at again: a process
/// that waits for a lock runs again where no other transaction stands
/// against the lock any more.
pub open spec fn released(p: ProcessModel, owner: Option<TransactionId>, db: DbModel) -> ProcessModel {
    match p {
        ProcessModel::Locked(lock) => if held_against(db, owner, lock) {
            p
        } else {
            ProcessModel::Running
        },
        _ => p,
    }
}

/// Whether every process waits at a latch or has finished.
pub open spec fn all_latched(processes: Seq<ProcessModel>) -> bool {
    forall|i: int|
        0 <= i < processes.len() ==> (#[trigger] processes[i]) is Latching || processes[i]
            is Finished
}

/// Whether process `p` waits for a lock that the transaction of process `q`
/// stands against.
pub open spec fn waits_for(s: StateModel, p: int, q: int) -> bool {
    &&& 0 <= p < s.processes.len()
    &&& 0 <= q < s.txs.len()
    &&& p < s.txs.len()
    &&& s.processes[p] is Locked
    &&& s.txs[q].id.is_some()
    &&& s.txs[q].id != s.txs[p].id
    &&& any_conflict(s.processes[p]->Locked_0, s.sql.context(s.txs[q].id.unwrap()).locks)
}

/// Whether `q` is reached from `p` along what process waits for what
/// process, in at least one step and at most `steps`.
pub open spec fn reaches_within(s: StateModel, p: int, q: int, steps: nat) -> bool
    decreases steps,
{
    steps > 0 && (waits_for(s, p, q) || exists|m: int| #[trigger]
        waits_for(s, p, m) && reaches_within(s, m, q, (steps - 1) as nat))
}

/// Whether `q` is reached from `p` along what process waits for what
/// process, in at least one step.
pub open spec fn reaches(s: StateModel, p: int, q: int) -> bool {
    exists|steps: nat| reaches_within(s, p, q, steps)
}

/// What is reached from `p` reaches what waits for it in one step more.
pub proof fn lemma_reach_then(s: StateModel, p: int, m: int, q: int, steps: nat)
    requires
        reaches_within(s, p, m, steps),
        waits_for(s, m, q),
    ensures
        reaches_within(s, p, q, steps + 1),
    decreases steps,
{
    assert(reaches_within(s, m, q, 1));
    if waits_for(s, p, m) {
        lemma_reach_longer(s, m, q, 1, steps);
    } else {
        let n = choose|n: int| #[trigger]
            waits_for(s, p, n) && reaches_within(s, n, m, (steps - 1) as nat);
        lemma_reach_then(s, n, m, q, (steps - 1) as nat);
    }
}

/// What is reached in some steps is reached in more.
pub proof fn lemma_reach_longer(s: StateModel, p: int, q: int, steps: nat, more: nat)
    requires
        reaches_within(s, p, q, steps),
        steps <= more,
    ensures
        reaches_within(s, p, q, more),
    decreases steps,
{
    if !waits_for(s, p, q) {
        let n = choose|n: int| #[trigger]
            waits_for(s, p, n) && reaches_within(s, n, q, (steps - 1) as nat);
        lemma_reach_longer(s, n, q, (steps - 1) as nat, (more - 1) as nat);
    }
}

/// Whether a process waits for `q` that is `p` or is marked.
pub open spec fn fed(s: StateModel, p: int, marks: Seq<bool>, q: int) -> bool {
    exists|a: int| (a == p || marked(marks, a)) && #[trigger] waits_for(s, a, q)
}

/// Whether the marking holds every process that `p` or a marked process
/// waits for.
pub open spec fn closed(s: StateModel, p: int, marks: Seq<bool>) -> bool {
    forall|q: int| #[trigger] fed(s, p, marks, q) ==> marked(marks, q)
}

/// A marking that holds every process that `p` or a marked process waits
/// for holds every process reached from `p` or from a marked process.
pub proof fn lemma_closed(s: StateModel, p: int, marks: Seq<bool>, a: int, q: int, steps: nat)
    requires
        closed(s, p, marks),
        a == p || marked(marks, a),
        reaches_within(s, a, q, steps),
    ensures
        marked(marks, q),
    decreases steps,
{
    if waits_for(s, a, q) {
        assert(fed(s, p, marks, q));
    } else {
        let n = choose|n: int| #[trigger]
            waits_for(s, a, n) && reaches_within(s, n, q, (steps - 1) as nat);
        assert(fed(s, p, marks, n));
        lemma_closed(s, p, marks, n, q, (steps - 1) as nat);
    }
}

/// Whether a marking of the processes marks `p`.
pub open spec fn marked(marks: Seq<bool>, p: int) -> bool {
    0 <= p < marks.len() && marks[p]
}

/// The number of marks among the first `upto`.
pub open spec fn marks_in(marks: Seq<bool>, upto: int) -> nat
    decreases upto,
{
    if upto <= 0 || upto > marks.len() {
        0
    } else {
        marks_in(marks, upto - 1) + if marks[upto - 1] {
            1nat
        } else {
            0nat
        }
    }
}

/// Setting a mark gives one mark more.
pub proof fn lemma_mark(marks: Seq<bool>, p: int, upto: int)
    requires
        0 <= p < marks.len(),
        !marks[p],
        0 <= upto <= marks.len(),
    ensures
        marks_in(marks.update(p, true), upto) == marks_in(marks, upto) + (if p < upto {
            1nat
        } else {
            0nat
        }),
        marks_in(marks, upto) <= upto,
    decreases upto,
{
    if upto > 0 {
        lemma_mark(marks, p, upto - 1);
    }
}

/// There are no more marks than places.
pub proof fn lemma_marks_bound(marks: Seq<bool>, upto: int)
    requires
        0 <= upto <= marks.len(),
    ensures
        marks_in(marks, upto) <= upto,
    decreases upto,
{
    if upto > 0 {
        lemma_marks_bound(marks, upto - 1);
    }
}

/// The state once the locks are looked at again: each process that waits
/// for a lock which no other transaction stands against runs again.
pub open spec fn unlocked(s: StateModel) -> StateModel {
    StateModel {
        processes: Seq::new(
            s.processes.len(),
            |i: int| released(s.processes[i], s.txs[i].id, s.sql),
        ),
        ..s
    }
}

/// The state once the latches are looked at again: where every process
/// waits at a latch or has finished, those that wait at a latch run again.
pub open spec fn unlatched(s: StateModel) -> StateModel {
    StateModel {
        processes: Seq::new(
            s.processes.len(),
            |i: int|
                if all_latched(s.processes) && s.processes[i] is Latching {
                    ProcessModel::Running
                } else {
                    s.processes[i]
                },
        ),
        ..s
    }
}

/// The first process from `from` on that waits, along what process waits
/// for what process, for itself.
pub open spec fn first_on_cycle(s: StateModel, from: int) -> Option<int>
    decreases s.processes.len() - from,
{
    if from < 0 || from >= s.processes.len() {
        None
    } else if reaches(s, from, from) {
        Some(from)
    } else {
        first_on_cycle(s, from + 1)
    }
}

/// Whether `q` is on a cycle with `first`: each is reached from the other
/// along what process waits for what process.
pub open spec fn on_cycle_with(s: StateModel, first: int, q: int) -> bool {
    reaches(s, first, q) && reaches(s, q, first)
}

/// The processes on a cycle with `first`.
pub open spec fn cycle_of(s: StateModel, first: int) -> Set<usize> {
    Set::new(|q: usize| q < s.processes.len() && on_cycle_with(s, first, q as int))
}

/// The deadlock of a state: the processes on a cycle with the first
/// process that waits for itself, if there is one. Processes that only
/// wait behind the cycle are no part of it.
pub open spec fn deadlock_of(s: StateModel) -> Option<Set<usize>> {
    match first_on_cycle(s, 0) {
        Some(first) => Some(cycle_of(s, first)),
        None => None,
    }
}

/// Where a process from `from` on waits for itself, there is a first such
/// process, not behind it.
pub proof fn lemma_first_on_cycle(s: StateModel, from: int, p: int)
    requires
        0 <= from <= p < s.processes.len(),
        reaches(s, p, p),
    ensures
        first_on_cycle(s, from) is Some,
        from <= first_on_cycle(s, from)->Some_0 <= p,
        reaches(s, first_on_cycle(s, from)->Some_0, first_on_cycle(s, from)->Some_0),
    decreases p - from,
{
    if !reaches(s, from, from) {
        lemma_first_on_cycle(s, from + 1, p);
    }
}

/// The first process from `from` on that waits for itself is one of the
/// processes and waits for itself; where there is none, no process from
/// `from` on waits for itself.
pub proof fn lemma_first_found(s: StateModel, from: int)
    requires
        0 <= from,
    ensures
        match first_on_cycle(s, from) {
            Some(first) => from <= first < s.processes.len() && reaches(s, first, first),
            None => forall|p: int| from <= p < s.processes.len() ==> !reaches(s, p, p),
        },
    decreases s.processes.len() - from,
{
    if from < s.processes.len() && !reaches(s, from, from) {
        lemma_first_found(s, from + 1);
    }
}

/// The deadlock of a state holds the first process that waits for itself,
/// and the processes that it holds are those on a cycle with that process:
/// no process that only waits behind the cycle is one of them.
pub proof fn lemma_deadlock_members(s: StateModel)
    requires
        s.processes.len() <= usize::MAX,
        deadlock_of(s) is Some,
    ensures
        first_on_cycle(s, 0) is Some,
        deadlock_of(s)->Some_0.contains(first_on_cycle(s, 0)->Some_0 as usize),
        forall|q: int|
            0 <= q < s.processes.len() ==> (deadlock_of(s)->Some_0.contains(q as usize)
                <==> on_cycle_with(s, first_on_cycle(s, 0)->Some_0, q)),
        forall|q: usize| deadlock_of(s)->Some_0.contains(q) ==> q < s.processes.len(),
{
    lemma_first_found(s, 0);
}

/// Two processes that wait for each other are a deadlock.
pub proof fn lemma_mutual_wait(s: StateModel, a: int, b: int)
    requires
        waits_for(s, a, b),
        waits_for(s, b, a),
    ensures
        deadlock_of(s) is Some,
{
    assert(reaches_within(s, b, a, 1));
    assert(reaches_within(s, a, a, 2));
    lemma_first_on_cycle(s, 0, a);
}

impl State {
    /// What is kept of this state to tell it apart from others.
    pub fn hash(&self) -> (r: HashableState)
        ensures
            r.key() == self@.key(),
    {
        let pc = self.pc.clone();
        let eventually = self.eventually.clone();
        assert(pc@ =~= self.pc@);
        assert(eventually@ =~= self.eventually@);
        HashableState {
            pc,
            state: clone_processes(&self.processes),
            global: self.sql.hash(),
            locals: clone_cells(&self.locals),
            eventually,
        }
    }

    /// Whether a transaction other than `owner` holds a lock that stands
    /// against `wanted`.
    pub fn is_held_against(&self, owner: Option<TransactionId>, wanted: &Lock) -> (r: bool)
        ensures
            r == held_against(self@.sql, owner, wanted@),
    {
        let mut i: usize = 0;
        while i < self.sql.transactions.len()
            invariant
                i <= self.sql.transactions.len(),
                forall|k: int|
                    0 <= k < i ==> !(Some((#[trigger] self@.sql.transactions[k]).0) != owner
                        && any_conflict(wanted@, self@.sql.transactions[k].1.locks)),
            decreases self.sql.transactions.len() - i,
        {
            assert(self@.sql.transactions[i as int] == (
                self.sql.transactions@[i as int].0,
                self.sql.transactions@[i as int].1@,
            ));
            let other = match owner {
                Some(t) => t.0 != self.sql.transactions[i].0.0,
                None => true,
            };
            if other && blocks(&self.sql.transactions[i].1.locks, wanted) {
                return true;
            }
            i += 1;
        }
        false
    }

    /// Whether process `p` waits for a lock that the transaction of process
    /// `q` stands against.
    fn waits(&self, p: usize, q: usize) -> (r: bool)
        requires
            self.processes@.len() == self.txs@.len(),
            p < self.processes@.len(),
            q < self.processes@.len(),
        ensures
            r == waits_for(self@, p as int, q as int),
    {
        assert(self@.processes[p as int] == self.processes@[p as int]@);
        assert(self@.txs[p as int] == self.txs@[p as int]@);
        assert(self@.txs[q as int] == self.txs@[q as int]@);
        match &self.processes[p] {
            ProcessState::Locked(lock) => match self.txs[q].id {
                Some(t) => {
                    let other = match self.txs[p].id {
                        Some(own) => own.0 != t.0,
                        None => true,
                    };
                    if other {
                        match self.sql.find_tx(t) {
                            Some(at) => {
                                assert(self@.sql.transactions[at as int].1
                                    == self.sql.transactions@[at as int].1@);
                                blocks(&self.sql.transactions[at].1.locks, lock)
                            },
                            None => {
                                assert(self@.sql.context(t).locks.len() == 0);
                                false
                            },
                        }
                    } else {
                        false
                    }
                },
                None => false,
            },
            _ => false,
        }
    }

    /// Whether process `p` or a marked process waits for process `q`.
    fn is_fed(&self, p: usize, marks: &Vec<bool>, q: usize) -> (r: bool)
        requires
            self.processes@.len() == self.txs@.len(),
            marks@.len() == self.processes@.len(),
            p < self.processes@.len(),
            q < self.processes@.len(),
        ensures
            r == fed(self@, p as int, marks@, q as int),
    {
        let mut a: usize = 0;
        while a < marks.len()
            invariant
                a <= marks.len(),
                self.processes@.len() == self.txs@.len(),
                marks@.len() == self.processes@.len(),
                p < self.processes@.len(),
                q < self.processes@.len(),
                forall|k: int|
                    0 <= k < a ==> !((k == p || marked(marks@, k)) && #[trigger] waits_for(
                        self@,
                        k,
                        q as int,
                    )),
            decreases marks.len() - a,
        {
            if (a == p || marks[a]) && self.waits(a, q) {
                return true;
            }
            a += 1;
        }
        false
    }

    /// One pass over the processes: each that `p` or a marked process waits
    /// for gets a mark. Says whether a mark was set.
    fn grow(&self, p: usize, marks: &mut Vec<bool>) -> (changed: bool)
        requires
            self.processes@.len() == self.txs@.len(),
            old(marks)@.len() == self.processes@.len(),
            p < self.processes@.len(),
            forall|q: int| marked(old(marks)@, q) ==> reaches(self@, p as int, q),
        ensures
            final(marks)@.len() == old(marks)@.len(),
            forall|q: int| marked(final(marks)@, q) ==> reaches(self@, p as int, q),
            !changed ==> final(marks)@ == old(marks)@ && closed(self@, p as int, final(marks)@),
            changed ==> marks_in(final(marks)@, final(marks)@.len() as int) > marks_in(
                old(marks)@,
                old(marks)@.len() as int,
            ),
    {
        let n = marks.len();
        let mut changed = false;
        let mut q: usize = 0;
        while q < n
            invariant
                q <= n,
                n == marks@.len(),
                n == self.processes@.len(),
                self.processes@.len() == self.txs@.len(),
                p < n,
                forall|k: int| marked(marks@, k) ==> reaches(self@, p as int, k),
                !changed ==> marks@ == old(marks)@,
                !changed ==> forall|k: int|
                    0 <= k < q && #[trigger] fed(self@, p as int, marks@, k) ==> marked(marks@, k),
                changed ==> marks_in(marks@, n as int) > marks_in(old(marks)@, n as int),
                marks_in(marks@, n as int) >= marks_in(old(marks)@, n as int),
            decreases n - q,
        {
            if !marks[q] && self.is_fed(p, marks, q) {
                let ghost before = marks@;
                proof {
                    let a = choose|a: int|
                        (a == p || marked(before, a)) && #[trigger] waits_for(self@, a, q as int);
                    if a == p {
                        assert(reaches_within(self@, p as int, q as int, 1));
                    } else {
                        let steps = choose|steps: nat|
                            reaches_within(self@, p as int, a, steps);
                        lemma_reach_then(self@, p as int, a, q as int, steps);
                    }
                    lemma_mark(before, q as int, n as int);
                }
                marks.set(q, true);
                changed = true;
            }
            q += 1;
        }
        proof {
            if !changed {
                assert forall|k: int| #[trigger] fed(self@, p as int, marks@, k) implies marked(
                    marks@,
                    k,
                ) by {
                    let a = choose|a: int|
                        (a == p || marked(marks@, a)) && #[trigger] waits_for(self@, a, k);
                    assert(0 <= k < n);
                }
            }
        }
        changed
    }

    /// The processes reached from `p` along what process waits for what
    /// process, as a marking.
    fn reach(&self, p: usize) -> (marks: Vec<bool>)
        requires
            self.processes@.len() == self.txs@.len(),
            p < self.processes@.len(),
        ensures
            marks@.len() == self.processes@.len(),
            forall|q: int| 0 <= q < marks@.len() ==> marks@[q] == reaches(self@, p as int, q),
            forall|q: int| reaches(self@, p as int, q) ==> marked(marks@, q),
    {
        let n = self.processes.len();
        let mut marks: Vec<bool> = Vec::new();
        let mut i: usize = 0;
        while i < n
            invariant
                i <= n,
                marks@.len() == i,
                forall|k: int| 0 <= k < i ==> !marks@[k],
            decreases n - i,
        {
            marks.push(false);
            i += 1;
        }
        let mut changed = true;
        while changed
            invariant
                n == self.processes@.len(),
                self.processes@.len() == self.txs@.len(),
                p < n,
                marks@.len() == n,
                forall|q: int| marked(marks@, q) ==> reaches(self@, p as int, q),
                !changed ==> closed(self@, p as int, marks@),
            decreases
                    n - marks_in(marks@, n as int),
                    if changed {
                        1int
                    } else {
                        0int
                    },
        {
            proof {
                lemma_marks_bound(marks@, n as int);
            }
            changed = self.grow(p, &mut marks);
            proof {
                lemma_marks_bound(marks@, n as int);
            }
        }
        proof {
            assert forall|q: int| reaches(self@, p as int, q) implies marked(marks@, q) by {
                let steps = choose|steps: nat| reaches_within(self@, p as int, q, steps);
                lemma_closed(self@, p as int, marks@, p as int, q, steps);
            }
            assert forall|q: int| 0 <= q < marks@.len() implies marks@[q] == reaches(
                self@,
                p as int,
                q,
            ) by {
                if marks@[q] {
                    assert(marked(marks@, q));
                    assert(reaches(self@, p as int, q));
                } else if reaches(self@, p as int, q) {
                    assert(marked(marks@, q));
                }
            }
        }
        marks
    }

    /// The processes on a cycle with `first`, which waits for itself and
    /// reaches the processes marked in `forward`.
    fn cycle(&self, first: usize, forward: &Vec<bool>) -> (r: HashSet<usize>)
        requires
            self.processes@.len() == self.txs@.len(),
            first < self.processes@.len(),
            forward@.len() == self.processes@.len(),
            forall|q: int|
                0 <= q < forward@.len() ==> forward@[q] == reaches(self@, first as int, q),
        ensures
            r@ == cycle_of(self@, first as int),
    {
        let n = self.processes.len();
        let mut on: HashSet<usize> = HashSet::new();
        let mut q: usize = 0;
        while q < n
            invariant
                q <= n,
                n == self.processes@.len(),
                self.processes@.len() == self.txs@.len(),
                first < n,
                forward@.len() == n,
                forall|k: int|
                    0 <= k < forward@.len() ==> forward@[k] == reaches(self@, first as int, k),
                on@ == Set::new(|x: usize| x < q && on_cycle_with(self@, first as int, x as int)),
            decreases n - q,
        {
            if forward[q] {
                let back = self.reach(q);
                if back[first] {
                    on.insert(q);
                }
            }
            q += 1;
            assert(on@ =~= Set::new(
                |x: usize| x < q && on_cycle_with(self@, first as int, x as int),
            ));
        }
        assert(on@ =~= cycle_of(self@, first as int));
        on
    }

    /// The deadlock of the state: the processes on a cycle with the first
    /// process that waits, along what process waits for what process, for
    /// itself. `None` says that no process waits for itself.
    pub fn find_deadlocks(&self) -> (r: Option<HashSet<usize>>)
        requires
            self.processes@.len() == self.txs@.len(),
        ensures
            match r {
                Some(cycle) => deadlock_of(self@) == Some(cycle@),
                None => deadlock_of(self@).is_none(),
            },
    {
        let n = self.processes.len();
        let mut p: usize = 0;
        while p < n
            invariant
                p <= n,
                n == self.processes@.len(),
                self.processes@.len() == self.txs@.len(),
                first_on_cycle(self@, 0) == first_on_cycle(self@, p as int),
            decreases n - p,
        {
            let forward = self.reach(p);
            if forward[p] {
                let cycle = self.cycle(p, &forward);
                return Some(cycle);
            }
            p += 1;
        }
        None
    }

    /// Lets each process run again that waits for a lock which no other
    /// transaction stands against any more.
    pub fn unlock_locks(&mut self)
        requires
            old(self).processes@.len() == old(self).txs@.len(),
        ensures
            final(self)@.processes.len() == old(self)@.processes.len(),
            forall|i: int|
                0 <= i < old(self)@.processes.len() ==> (#[trigger] final(self)@.processes[i])
                    == released(old(self)@.processes[i], old(self)@.txs[i].id, old(self)@.sql),
            final(self)@ == (StateModel { processes: final(self)@.processes, ..old(self)@ }),
            final(self)@ == unlocked(old(self)@),
    {
        let mut i: usize = 0;
        while i < self.processes.len()
            invariant
                i <= self.processes.len(),
                self.processes@.len() == old(self).processes@.len(),
                self.processes@.len() == self.txs@.len(),
                self@ == (StateModel { processes: self@.processes, ..old(self)@ }),
                forall|k: int|
                    0 <= k < i ==> (#[trigger] self@.processes[k]) == released(
                        old(self)@.processes[k],
                        old(self)@.txs[k].id,
                        old(self)@.sql,
                    ),
                forall|k: int|
                    i <= k < self.processes@.len() ==> (#[trigger] self@.processes[k]) == old(
                        self,
                    )@.processes[k],
            decreases self.processes.len() - i,
        {
            assert(self@.processes[i as int] == self.processes@[i as int]@);
            assert(self@.txs[i as int] == self.txs@[i as int]@);
            let free = match &self.processes[i] {
                ProcessState::Locked(lock) => !self.is_held_against(self.txs[i].id, lock),
                _ => false,
            };
            if free {
                let ghost before = self@.processes;
                self.processes[i] = ProcessState::Running;
                assert(self@.processes =~= before.update(i as int, ProcessModel::Running));
            }
            i += 1;
        }
        assert(self@.processes =~= unlocked(old(self)@).processes);
    }

    /// Lets every process that waits at a latch run again, where every
    /// process waits at a latch or has finished.
    pub fn unlock_latches(&mut self)
        ensures
            final(self)@.processes.len() == old(self)@.processes.len(),
            forall|i: int|
                0 <= i < old(self)@.processes.len() ==> (#[trigger] final(self)@.processes[i])
                    == if all_latched(old(self)@.processes) && old(self)@.processes[i]
                    is Latching {
                    ProcessModel::Running
                } else {
                    old(self)@.processes[i]
                },
            final(self)@ == (StateModel { processes: final(self)@.processes, ..old(self)@ }),
            final(self)@ == unlatched(old(self)@),
    {
        let mut i: usize = 0;
        while i < self.processes.len()
            invariant
                i <= self.processes.len(),
                self@ == old(self)@,
                forall|k: int|
                    0 <= k < i ==> (#[trigger] self@.processes[k]) is Latching
                        || self@.processes[k] is Finished,
            decreases self.processes.len() - i,
        {
            assert(self@.processes[i as int] == self.processes@[i as int]@);
            match &self.processes[i] {
                ProcessState::Latching => {},
                ProcessState::Finished => {},
                _ => {
                    assert(!all_latched(old(self)@.processes));
                    assert(self@.processes =~= unlatched(old(self)@).processes);
                    return ;
                },
            }
            i += 1;
        }
        assert(all_latched(old(self)@.processes));
        let mut j: usize = 0;
        while j < self.processes.len()
            invariant
                j <= self.processes.len(),
                self.processes@.len() == old(self).processes@.len(),
                self@ == (StateModel { processes: self@.processes, ..old(self)@ }),
                forall|k: int|
                    0 <= k < j ==> (#[trigger] self@.processes[k]) == if old(self)@.processes[k]
                        is Latching {
                        ProcessModel::Running
                    } else {
                        old(self)@.processes[k]
                    },
                forall|k: int|
                    j <= k < self.processes@.len() ==> (#[trigger] self@.processes[k]) == old(
                        self,
                    )@.processes[k],
            decreases self.processes.len() - j,
        {
            assert(self@.processes[j as int] == self.processes@[j as int]@);
            let latching = match &self.processes[j] {
                ProcessState::Latching => true,
                _ => false,
            };
            if latching {
                let ghost before = self@.processes;
                self.processes[j] = ProcessState::Running;
                assert(self@.processes =~= before.update(j as int, ProcessModel::Running));
            }
            j += 1;
        }
        assert(self@.processes =~= unlatched(old(self)@).processes);
    }
}

} // verus!
