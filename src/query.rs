use vstd::prelude::*;

use crate::types::{records_view, ToDo, ToDoView};
use crate::value::{resolve_path, todo_json, Json};

verus! {

/// What can go wrong in a query.
#[derive(Debug, PartialEq, Eq, Structural, Clone, Copy)]
pub enum DbError {
    /// A missing table, record or field.
    NotFound,
    /// A record with the same id (or the same content) is already there.
    AlreadyExists,
    /// Stored data that breaks the store's rules.
    InvalidData,
    /// A path segment applied to a node that is not a map.
    InvalidInput,
}

/// A predicate on the value found at the active field.
#[derive(Debug, PartialEq)]
pub enum Comparator {
    Equals(String),
    NotEquals(String),
    LessThan(u64),
    GreaterThan(u64),
    In(Vec<String>),
    Between((u64, u64)),
}

/// A terminal operation on a table.
#[derive(Debug, PartialEq)]
pub enum MethodName {
    /// Insert a record; the flag says whether a missing table is created.
    Create(String, ToDo, bool),
    Read(String),
    Update(String, ToDo),
    Delete(String),
}

/// One entry of the operation queue.
#[derive(Debug, PartialEq)]
pub enum Runner {
    Done,
    Method(MethodName),
    Compare(Comparator),
    Where(String),
}

/// The mathematical content of a `Comparator`.
pub enum ComparatorView {
    Equals(Seq<char>),
    NotEquals(Seq<char>),
    LessThan(u64),
    GreaterThan(u64),
    In(Seq<Seq<char>>),
    Between(u64, u64),
}

/// The mathematical content of a `MethodName`.
pub enum MethodView {
    Create(Seq<char>, ToDoView, bool),
    Read(Seq<char>),
    Update(Seq<char>, ToDoView),
    Delete(Seq<char>),
}

/// The mathematical content of a `Runner`.
pub enum RunnerView {
    Done,
    Method(MethodView),
    Compare(ComparatorView),
    Where(Seq<char>),
}

impl View for Comparator {
    type V = ComparatorView;

    open spec fn view(&self) -> ComparatorView {
        match self {
            Comparator::Equals(s) => ComparatorView::Equals(s@),
            Comparator::NotEquals(s) => ComparatorView::NotEquals(s@),
            Comparator::LessThan(n) => ComparatorView::LessThan(*n),
            Comparator::GreaterThan(n) => ComparatorView::GreaterThan(*n),
            Comparator::In(vs) => ComparatorView::In(vs.deep_view()),
            Comparator::Between((a, b)) => ComparatorView::Between(*a, *b),
        }
    }
}

impl View for MethodName {
    type V = MethodView;

    open spec fn view(&self) -> MethodView {
        match self {
            MethodName::Create(t, item, up) => MethodView::Create(t@, item@, *up),
            MethodName::Read(t) => MethodView::Read(t@),
            MethodName::Update(t, item) => MethodView::Update(t@, item@),
            MethodName::Delete(t) => MethodView::Delete(t@),
        }
    }
}

impl View for Runner {
    type V = RunnerView;

    open spec fn view(&self) -> RunnerView {
        match self {
            Runner::Done => RunnerView::Done,
            Runner::Method(m) => RunnerView::Method(m@),
            Runner::Compare(c) => RunnerView::Compare(c@),
            Runner::Where(f) => RunnerView::Where(f@),
        }
    }
}

impl Clone for Comparator {
    fn clone(&self) -> (r: Self)
        ensures
            r@ == self@,
    {
        broadcast use vstd::std_specs::vec::group_vec_axioms;

        match self {
            Comparator::Equals(s) => Comparator::Equals(s.clone()),
            Comparator::NotEquals(s) => Comparator::NotEquals(s.clone()),
            Comparator::LessThan(n) => Comparator::LessThan(*n),
            Comparator::GreaterThan(n) => Comparator::GreaterThan(*n),
            Comparator::In(vs) => Comparator::In(vs.clone()),
            Comparator::Between((a, b)) => Comparator::Between((*a, *b)),
        }
    }
}

impl Clone for MethodName {
    fn clone(&self) -> (r: Self)
        ensures
            r@ == self@,
    {
        match self {
            MethodName::Create(t, item, up) => MethodName::Create(t.clone(), item.clone(), *up),
            MethodName::Read(t) => MethodName::Read(t.clone()),
            MethodName::Update(t, item) => MethodName::Update(t.clone(), item.clone()),
            MethodName::Delete(t) => MethodName::Delete(t.clone()),
        }
    }
}

impl Clone for Runner {
    fn clone(&self) -> (r: Self)
        ensures
            r@ == self@,
    {
        match self {
            Runner::Done => Runner::Done,
            Runner::Method(m) => Runner::Method(m.clone()),
            Runner::Compare(c) => Runner::Compare(c.clone()),
            Runner::Where(f) => Runner::Where(f.clone()),
        }
    }
}

impl MethodView {
    /// The table the operation works on.
    pub open spec fn table(self) -> Seq<char> {
        match self {
            MethodView::Create(t, _, _) => t,
            MethodView::Read(t) => t,
            MethodView::Update(t, _) => t,
            MethodView::Delete(t) => t,
        }
    }
}

impl MethodName {
    /// The table the operation works on.
    pub fn table_name(&self) -> (r: &String)
        ensures
            r@ == self@.table(),
    {
        match self {
            MethodName::Create(t, _, _) => t,
            MethodName::Read(t) => t,
            MethodName::Update(t, _) => t,
            MethodName::Delete(t) => t,
        }
    }
}

/// Whether a value satisfies a comparator. The string comparators hold
/// of string values only and the numeric ones of numbers only: a value of
/// the other kind never satisfies them. `Between` is inclusive at both ends.
pub open spec fn compare_holds(v: Json, c: ComparatorView) -> bool {
    match c {
        ComparatorView::Equals(s) => v matches Json::Str(x) && x == s,
        ComparatorView::NotEquals(s) => v matches Json::Str(x) && x != s,
        ComparatorView::LessThan(n) => v matches Json::Number(x) && x < n,
        ComparatorView::GreaterThan(n) => v matches Json::Number(x) && x > n,
        ComparatorView::In(vs) => v matches Json::Str(x) && vs.contains(x),
        ComparatorView::Between(a, b) => v matches Json::Number(x) && a <= x && x <= b,
    }
}

/// The tables of a store: table name to the records it holds.
pub type Tables = Map<Seq<char>, Seq<ToDoView>>;

/// No two records of the sequence share an id.
pub open spec fn ids_unique(recs: Seq<ToDoView>) -> bool {
    forall|i: int, j: int|
        0 <= i < recs.len() && 0 <= j < recs.len() && i != j ==> recs[i].id != recs[j].id
}

/// Every table of the store keeps its ids unique (and so holds no two
/// equal records).
pub open spec fn tables_wf(db: Tables) -> bool {
    forall|n: Seq<char>| #[trigger] db.contains_key(n) ==> ids_unique(db[n])
}

/// Some record of the sequence has this id.
pub open spec fn has_id(recs: Seq<ToDoView>, id: Seq<char>) -> bool {
    exists|i: int| 0 <= i < recs.len() && recs[i].id == id
}

/// The records of a table, or none where the store has no such table.
pub open spec fn table_or_empty(db: Tables, name: Seq<char>) -> Seq<ToDoView> {
    if db.contains_key(name) {
        db[name]
    } else {
        Seq::empty()
    }
}

/// The state of the runner between two operations of the queue.
pub struct RunState {
    /// The current result set.
    pub results: Seq<ToDoView>,
    /// The path that comparisons look at, set by the latest `Where`.
    pub field: Option<Seq<char>>,
    /// The terminal operation to commit, set by the latest method.
    pub method: Option<MethodView>,
}

/// Whether a record passes a comparison at the active field: the value
/// there must resolve and satisfy the comparator. With no active field, or
/// where the path does not resolve, the record is dropped.
pub open spec fn keeps(r: ToDoView, field: Option<Seq<char>>, c: ComparatorView) -> bool {
    match field {
        Some(f) => match resolve_path(todo_json(r), f) {
            Ok(v) => compare_holds(v, c),
            Err(_) => false,
        },
        None => false,
    }
}

/// The records of `results` that pass a comparison at `field`, in order.
pub open spec fn narrow(results: Seq<ToDoView>, field: Option<Seq<char>>, c: ComparatorView) -> Seq<ToDoView> {
    results.filter(|r: ToDoView| keeps(r, field, c))
}

pub open spec fn field_view(field: Option<&String>) -> Option<Seq<char>> {
    match field {
        Some(f) => Some(f@),
        None => None,
    }
}

/// The state after one operation. A method loads its table into the
/// result set (a missing table gives an empty set) and becomes the pending
/// method; `Where` sets the active field; a comparison narrows the result
/// set; `Done` changes nothing.
pub open spec fn step(db: Tables, st: RunState, op: RunnerView) -> RunState {
    match op {
        RunnerView::Method(m) => RunState {
            results: table_or_empty(db, m.table()),
            field: st.field,
            method: Some(m),
        },
        RunnerView::Where(f) => RunState { results: st.results, field: Some(f), method: st.method },
        RunnerView::Compare(c) => RunState {
            results: narrow(st.results, st.field, c),
            field: st.field,
            method: st.method,
        },
        RunnerView::Done => st,
    }
}

pub open spec fn initial_state() -> RunState {
    RunState { results: Seq::empty(), field: None, method: None }
}

/// The state after the operations of `ops`, front to back.
pub open spec fn scan(db: Tables, ops: Seq<RunnerView>) -> RunState
    decreases ops.len(),
{
    if ops.len() == 0 {
        initial_state()
    } else {
        step(db, scan(db, ops.drop_last()), ops.last())
    }
}

/// A table with the record of `item`'s id replaced by `item`.
pub open spec fn replace_id(recs: Seq<ToDoView>, item: ToDoView) -> Seq<ToDoView> {
    recs.map_values(|r: ToDoView| if r.id == item.id { item } else { r })
}

/// A table without the records whose id occurs in `gone`.
pub open spec fn remove_ids(recs: Seq<ToDoView>, gone: Seq<ToDoView>) -> Seq<ToDoView> {
    recs.filter(|r: ToDoView| !has_id(gone, r.id))
}

/// What committing the pending method does: the answer, and the tables
/// afterwards.
/// - Create: `NotFound` where the table is missing and may not be created;
///   `AlreadyExists` where the table holds a record with the new record's
///   id (an equal record has that id too); else the record is added,
///   creating the table where it was missing.
/// - Read: no change.
/// - Update: `NotFound` where no record of the result set has the new
///   record's id; else that record is replaced and the answer is the new
///   record alone.
/// - Delete: every record whose id is in the result set leaves the table.
pub open spec fn commit(db: Tables, st: RunState) -> (Result<Seq<ToDoView>, DbError>, Tables) {
    match st.method {
        Some(MethodView::Create(t, item, up)) => {
            if !db.contains_key(t) && !up {
                (Err(DbError::NotFound), db)
            } else if has_id(table_or_empty(db, t), item.id) {
                (Err(DbError::AlreadyExists), db)
            } else {
                (Ok(st.results), db.insert(t, table_or_empty(db, t).push(item)))
            }
        },
        Some(MethodView::Update(t, item)) => {
            if !has_id(st.results, item.id) {
                (Err(DbError::NotFound), db)
            } else if db.contains_key(t) {
                (Ok(seq![item]), db.insert(t, replace_id(db[t], item)))
            } else {
                (Ok(seq![item]), db)
            }
        },
        Some(MethodView::Delete(t)) => {
            if db.contains_key(t) {
                (Ok(st.results), db.insert(t, remove_ids(db[t], st.results)))
            } else {
                (Ok(st.results), db)
            }
        },
        _ => (Ok(st.results), db),
    }
}

/// The outcome of running a queue of operations against the tables.
pub open spec fn run_outcome(db: Tables, ops: Seq<RunnerView>) -> (
    Result<Seq<ToDoView>, DbError>,
    Tables,
) {
    commit(db, scan(db, ops))
}

/// The answer of `run`, as views.
pub open spec fn answer_view(r: Result<Vec<ToDo>, DbError>) -> Result<Seq<ToDoView>, DbError> {
    match r {
        Ok(v) => Ok(records_view(v@)),
        Err(e) => Err(e),
    }
}

} // verus!
