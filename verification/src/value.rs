//! The values that model programs compute with, and their mathematical content.

use vstd::prelude::*;

verus! {

/// The lifecycle of a transaction as a model program can observe it.
#[derive(Copy, Debug, PartialEq, Eq, Structural, Hash)]
pub enum TransactionState {
    NotExisting,
    Running,
    Aborted,
    Committed,
}

impl Clone for TransactionState {
    fn clone(&self) -> (r: Self)
        ensures
            r == *self,
    {
        *self
    }
}

/// A handle on a transaction, as stored in a model variable.
#[derive(Copy, Debug, PartialEq, Eq, Structural, Hash)]
pub struct Transaction(pub TransactionState);

impl Clone for Transaction {
    fn clone(&self) -> (r: Self)
        ensures
            r == *self,
    {
        *self
    }
}

/// The mathematical content of a [`Value`].
pub enum ValueModel {
    Nil,
    Tx(TransactionState),
    Bool(bool),
    Integer(int),
    Str(Seq<char>),
    SetOf(Seq<ValueModel>),
    Tuple(Seq<ValueModel>),
    Scalar(Box<ValueModel>),
}

/// A value of the modelling language.
///
/// Sets keep their members in the order in which they were built and are
/// compared member by member.
#[derive(Debug, PartialEq, Eq, Hash)]
pub enum Value {
    Nil,
    Tx(Transaction),
    Bool(bool),
    Integer(i16),
    String(String),
    SetOf(Vec<Value>),
    Tuple(Vec<Value>),
    Scalar(Box<Value>),
}

/// The mathematical content of a value.
pub open spec fn model_of(v: Value) -> ValueModel
    decreases v,
{
    match v {
        Value::Nil => ValueModel::Nil,
        Value::Tx(t) => ValueModel::Tx(t.0),
        Value::Bool(b) => ValueModel::Bool(b),
        Value::Integer(i) => ValueModel::Integer(i as int),
        Value::String(s) => ValueModel::Str(s@),
        Value::SetOf(items) => ValueModel::SetOf(
            Seq::new(
                items@.len(),
                |i: int|
                    if 0 <= i < items@.len() {
                        model_of(items@[i])
                    } else {
                        ValueModel::Nil
                    },
            ),
        ),
        Value::Tuple(items) => ValueModel::Tuple(
            Seq::new(
                items@.len(),
                |i: int|
                    if 0 <= i < items@.len() {
                        model_of(items@[i])
                    } else {
                        ValueModel::Nil
                    },
            ),
        ),
        Value::Scalar(inner) => ValueModel::Scalar(Box::new(model_of(*inner))),
    }
}

impl View for Value {
    type V = ValueModel;

    open spec fn view(&self) -> ValueModel {
        model_of(*self)
    }
}

/// The contents of a sequence of values, item by item.
pub open spec fn models_of(items: Seq<Value>) -> Seq<ValueModel> {
    items.map_values(|v: Value| v@)
}

/// The content of a set or tuple is the content of its members, in order.
pub proof fn lemma_model_of_members(items: Vec<Value>)
    ensures
        Value::SetOf(items)@ == ValueModel::SetOf(models_of(items@)),
        Value::Tuple(items)@ == ValueModel::Tuple(models_of(items@)),
{
    match Value::SetOf(items)@ {
        ValueModel::SetOf(s) => {
            assert(s =~= models_of(items@));
        },
        _ => {},
    }
    match Value::Tuple(items)@ {
        ValueModel::Tuple(s) => {
            assert(s =~= models_of(items@));
        },
        _ => {},
    }
}

/// How one value stands to another where the two can be ordered.
#[derive(Clone, Copy, Debug, PartialEq, Eq, Structural)]
pub enum Rank {
    Before,
    Same,
    After,
}

/// The order of two values: integers by number, sets and tuples member by
/// member with the shorter first among equals, a scalar as what it wraps.
/// Any other pair has no order.
pub open spec fn rank_of(a: ValueModel, b: ValueModel) -> Option<Rank>
    decreases a, 0nat,
{
    match (a, b) {
        (ValueModel::Integer(x), ValueModel::Integer(y)) => Some(
            if x < y {
                Rank::Before
            } else if x == y {
                Rank::Same
            } else {
                Rank::After
            },
        ),
        (ValueModel::Tuple(xs), ValueModel::Tuple(ys)) => rank_of_members(xs, ys, 0),
        (ValueModel::SetOf(xs), ValueModel::SetOf(ys)) => rank_of_members(xs, ys, 0),
        (ValueModel::Scalar(x), ValueModel::Scalar(y)) => rank_of(*x, *y),
        _ => None,
    }
}

/// The order of two member lists from position `from` on.
pub open spec fn rank_of_members(xs: Seq<ValueModel>, ys: Seq<ValueModel>, from: int) -> Option<
    Rank,
>
    decreases xs, xs.len() - from,
{
    if from < 0 {
        None
    } else if from >= xs.len() && from >= ys.len() {
        Some(Rank::Same)
    } else if from >= xs.len() {
        Some(Rank::Before)
    } else if from >= ys.len() {
        Some(Rank::After)
    } else {
        match rank_of(xs[from], ys[from]) {
            Some(Rank::Same) => rank_of_members(xs, ys, from + 1),
            other => other,
        }
    }
}

/// The integer that a value stands for: an integer, or a scalar around one.
pub open spec fn integer_in(v: ValueModel) -> Option<int> {
    match v {
        ValueModel::Integer(i) => Some(i),
        ValueModel::Scalar(inner) => match *inner {
            ValueModel::Integer(i) => Some(i),
            _ => None,
        },
        _ => None,
    }
}

/// The truth value that a value stands for: a boolean, or a scalar around one.
pub open spec fn bool_in(v: ValueModel) -> Option<bool> {
    match v {
        ValueModel::Bool(b) => Some(b),
        ValueModel::Scalar(inner) => match *inner {
            ValueModel::Bool(b) => Some(b),
            _ => None,
        },
        _ => None,
    }
}

/// The members that a value stands for as a set: a set, or a scalar around one.
pub open spec fn set_in(v: ValueModel) -> Option<Seq<ValueModel>> {
    match v {
        ValueModel::SetOf(items) => Some(items),
        ValueModel::Scalar(inner) => match *inner {
            ValueModel::SetOf(items) => Some(items),
            _ => None,
        },
        _ => None,
    }
}

/// The members that a value stands for as a tuple: a tuple, or a scalar around one.
pub open spec fn tuple_in(v: ValueModel) -> Option<Seq<ValueModel>> {
    match v {
        ValueModel::Tuple(items) => Some(items),
        ValueModel::Scalar(inner) => match *inner {
            ValueModel::Tuple(items) => Some(items),
            _ => None,
        },
        _ => None,
    }
}

impl Clone for Value {
    fn clone(&self) -> (r: Self)
        ensures
            r@ == self@,
        decreases self,
    {
        match self {
            Value::Nil => Value::Nil,
            Value::Tx(t) => Value::Tx(*t),
            Value::Bool(b) => Value::Bool(*b),
            Value::Integer(i) => Value::Integer(*i),
            Value::String(s) => Value::String(s.clone()),
            Value::SetOf(items) => {
                let copy = clone_members(items);
                proof {
                    lemma_model_of_members(*items);
                    lemma_model_of_members(copy);
                }
                Value::SetOf(copy)
            },
            Value::Tuple(items) => {
                let copy = clone_members(items);
                proof {
                    lemma_model_of_members(*items);
                    lemma_model_of_members(copy);
                }
                Value::Tuple(copy)
            },
            Value::Scalar(inner) => Value::Scalar(Box::new((&**inner).clone())),
        }
    }
}

/// A copy of a list of values.
pub fn clone_members(items: &Vec<Value>) -> (r: Vec<Value>)
    ensures
        models_of(r@) == models_of(items@),
    decreases items,
{
    let mut out: Vec<Value> = Vec::new();
    let mut i: usize = 0;
    while i < items.len()
        invariant
            i <= items.len(),
            out@.len() == i,
            forall|k: int| 0 <= k < i ==> out@[k]@ == items@[k]@,
        decreases items.len() - i,
    {
        out.push(items[i].clone());
        i += 1;
    }
    assert(models_of(out@) =~= models_of(items@));
    out
}

/// Whether two lists of values have the same content.
pub fn same_members(a: &Vec<Value>, b: &Vec<Value>) -> (r: bool)
    ensures
        r == (models_of(a@) == models_of(b@)),
    decreases a,
{
    if a.len() != b.len() {
        assert(models_of(a@).len() != models_of(b@).len());
        return false;
    }
    let mut i: usize = 0;
    while i < a.len()
        invariant
            i <= a.len(),
            a.len() == b.len(),
            forall|k: int| 0 <= k < i ==> a@[k]@ == b@[k]@,
        decreases a.len() - i,
    {
        if !a[i].same(&b[i]) {
            assert(models_of(a@)[i as int] != models_of(b@)[i as int]);
            return false;
        }
        i += 1;
    }
    assert(models_of(a@) =~= models_of(b@));
    true
}

/// Whether a list of values holds one with the content of `v`.
pub fn holds_member(items: &Vec<Value>, v: &Value) -> (r: bool)
    ensures
        r == models_of(items@).contains(v@),
{
    let mut i: usize = 0;
    while i < items.len()
        invariant
            i <= items.len(),
            forall|k: int| 0 <= k < i ==> items@[k]@ != v@,
        decreases items.len() - i,
    {
        if items[i].same(v) {
            assert(models_of(items@)[i as int] == v@);
            return true;
        }
        i += 1;
    }
    assert forall|k: int| 0 <= k < models_of(items@).len() implies models_of(items@)[k] != v@ by {
        assert(models_of(items@)[k] == items@[k]@);
    }
    false
}

impl Value {
    /// Structural equality: whether the two values have the same content.
    pub fn same(&self, other: &Value) -> (r: bool)
        ensures
            r == (self@ == other@),
        decreases self,
    {
        match (self, other) {
            (Value::Nil, Value::Nil) => true,
            (Value::Tx(a), Value::Tx(b)) => a.0 == b.0,
            (Value::Bool(a), Value::Bool(b)) => *a == *b,
            (Value::Integer(a), Value::Integer(b)) => *a == *b,
            (Value::String(a), Value::String(b)) => *a == *b,
            (Value::SetOf(a), Value::SetOf(b)) => {
                proof {
                    lemma_model_of_members(*a);
                    lemma_model_of_members(*b);
                }
                same_members(a, b)
            },
            (Value::Tuple(a), Value::Tuple(b)) => {
                proof {
                    lemma_model_of_members(*a);
                    lemma_model_of_members(*b);
                }
                same_members(a, b)
            },
            (Value::Scalar(a), Value::Scalar(b)) => (&**a).same(&**b),
            _ => false,
        }
    }

    /// The order of two values, where they have one.
    pub fn rank(&self, other: &Value) -> (r: Option<Rank>)
        ensures
            r == rank_of(self@, other@),
        decreases self, 0nat,
    {
        match (self, other) {
            (Value::Integer(a), Value::Integer(b)) => Some(
                if *a < *b {
                    Rank::Before
                } else if *a == *b {
                    Rank::Same
                } else {
                    Rank::After
                },
            ),
            (Value::Tuple(a), Value::Tuple(b)) => {
                proof {
                    lemma_model_of_members(*a);
                    lemma_model_of_members(*b);
                }
                rank_members(a, b)
            },
            (Value::SetOf(a), Value::SetOf(b)) => {
                proof {
                    lemma_model_of_members(*a);
                    lemma_model_of_members(*b);
                }
                rank_members(a, b)
            },
            (Value::Scalar(a), Value::Scalar(b)) => (&**a).rank(&**b),
            _ => None,
        }
    }

    /// The integer that this value stands for, if it stands for one.
    pub fn as_integer(&self) -> (r: Option<i16>)
        ensures
            match r {
                Some(i) => integer_in(self@) == Some(i as int),
                None => integer_in(self@).is_none(),
            },
    {
        proof {
            reveal_with_fuel(model_of, 2);
        }
        match self {
            Value::Integer(i) => Some(*i),
            Value::Scalar(inner) => match &**inner {
                Value::Integer(i) => Some(*i),
                _ => None,
            },
            _ => None,
        }
    }

    /// The truth value that this value stands for, if it stands for one.
    pub fn as_bool(&self) -> (r: Option<bool>)
        ensures
            r == bool_in(self@),
    {
        proof {
            reveal_with_fuel(model_of, 2);
        }
        match self {
            Value::Bool(b) => Some(*b),
            Value::Scalar(inner) => match &**inner {
                Value::Bool(b) => Some(*b),
                _ => None,
            },
            _ => None,
        }
    }

    /// The members of the set that this value stands for, if it stands for one.
    pub fn as_set(&self) -> (r: Option<&Vec<Value>>)
        ensures
            match r {
                Some(items) => set_in(self@) == Some(models_of(items@)),
                None => set_in(self@).is_none(),
            },
    {
        proof {
            reveal_with_fuel(model_of, 2);
        }
        match self {
            Value::SetOf(items) => {
                proof {
                    lemma_model_of_members(*items);
                }
                Some(items)
            },
            Value::Scalar(inner) => match &**inner {
                Value::SetOf(items) => {
                    proof {
                        lemma_model_of_members(*items);
                    }
                    Some(items)
                },
                _ => None,
            },
            _ => None,
        }
    }

    /// The members of the tuple that this value stands for, if it stands for one.
    pub fn as_tuple(&self) -> (r: Option<&Vec<Value>>)
        ensures
            match r {
                Some(items) => tuple_in(self@) == Some(models_of(items@)),
                None => tuple_in(self@).is_none(),
            },
    {
        proof {
            reveal_with_fuel(model_of, 2);
        }
        match self {
            Value::Tuple(items) => {
                proof {
                    lemma_model_of_members(*items);
                }
                Some(items)
            },
            Value::Scalar(inner) => match &**inner {
                Value::Tuple(items) => {
                    proof {
                        lemma_model_of_members(*items);
                    }
                    Some(items)
                },
                _ => None,
            },
            _ => None,
        }
    }
}

/// The order of two lists of values, member by member.
pub fn rank_members(a: &Vec<Value>, b: &Vec<Value>) -> (r: Option<Rank>)
    ensures
        r == rank_of_members(models_of(a@), models_of(b@), 0),
    decreases a, 1nat,
{
    let mut i: usize = 0;
    while i < a.len() && i < b.len()
        invariant
            i <= a.len(),
            i <= b.len(),
            rank_of_members(models_of(a@), models_of(b@), 0) == rank_of_members(
                models_of(a@),
                models_of(b@),
                i as int,
            ),
        decreases a.len() - i,
    {
        let here = a[i].rank(&b[i]);
        assert(models_of(a@)[i as int] == a@[i as int]@);
        assert(models_of(b@)[i as int] == b@[i as int]@);
        match here {
            Some(Rank::Same) => {},
            _ => {
                return here;
            },
        }
        i += 1;
    }
    if i >= a.len() && i >= b.len() {
        Some(Rank::Same)
    } else if i >= a.len() {
        Some(Rank::Before)
    } else {
        Some(Rank::After)
    }
}

} // verus!
