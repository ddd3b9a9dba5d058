use vstd::prelude::*;

use crate::query::{
    answer_view, commit, compare_holds, field_view, has_id, ids_unique, keeps, narrow, remove_ids,
    replace_id, run_outcome, scan, table_or_empty, tables_wf, Comparator, ComparatorView, DbError,
    MethodName, MethodView, RunState, Runner, RunnerView, Tables,
};
use crate::types::{records_view, ToDo, ToDoView};
use crate::value::{get_nested_value, value_json, Value};

verus! {

/// A named table of records, as it is stored and handed to and from the
/// persistence layer.
#[derive(Debug, PartialEq)]
pub struct Table {
    pub name: String,
    pub records: Vec<ToDo>,
}

/// The name and records of a table, as views.
pub open spec fn table_view(t: Table) -> (Seq<char>, Seq<ToDoView>) {
    (t.name@, records_view(t.records@))
}

pub open spec fn table_views(ts: Seq<Table>) -> Seq<(Seq<char>, Seq<ToDoView>)> {
    ts.map_values(|t: Table| table_view(t))
}

/// The map from name to records that a list of tables stands for.
pub open spec fn tables_map(vs: Seq<(Seq<char>, Seq<ToDoView>)>) -> Tables
    decreases vs.len(),
{
    if vs.len() == 0 {
        Map::empty()
    } else {
        tables_map(vs.drop_last()).insert(vs.last().0, vs.last().1)
    }
}

/// No two tables share a name.
pub open spec fn names_unique(vs: Seq<(Seq<char>, Seq<ToDoView>)>) -> bool {
    forall|i: int, j: int| 0 <= i < vs.len() && 0 <= j < vs.len() && i != j ==> vs[i].0 != vs[j].0
}

/// What a store accepts as its tables: unique names, and unique ids
/// within each table.
pub open spec fn valid_tables(vs: Seq<(Seq<char>, Seq<ToDoView>)>) -> bool {
    &&& names_unique(vs)
    &&& forall|i: int| 0 <= i < vs.len() ==> ids_unique(#[trigger] vs[i].1)
}

proof fn lemma_tables_map_contains(vs: Seq<(Seq<char>, Seq<ToDoView>)>, n: Seq<char>)
    ensures
        tables_map(vs).contains_key(n) <==> exists|i: int| 0 <= i < vs.len() && vs[i].0 == n,
    decreases vs.len(),
{
    if vs.len() > 0 {
        let prev = vs.drop_last();
        lemma_tables_map_contains(prev, n);
        if tables_map(prev).contains_key(n) {
            let i = choose|i: int| 0 <= i < prev.len() && prev[i].0 == n;
            assert(vs[i].0 == n);
        }
        if exists|i: int| 0 <= i < vs.len() && vs[i].0 == n {
            let i = choose|i: int| 0 <= i < vs.len() && vs[i].0 == n;
            if i < vs.len() - 1 {
                assert(prev[i].0 == n);
            }
        }
    }
}

proof fn lemma_tables_map_get(vs: Seq<(Seq<char>, Seq<ToDoView>)>, i: int)
    requires
        names_unique(vs),
        0 <= i < vs.len(),
    ensures
        tables_map(vs).contains_key(vs[i].0),
        tables_map(vs)[vs[i].0] == vs[i].1,
    decreases vs.len(),
{
    lemma_tables_map_contains(vs, vs[i].0);
    if i < vs.len() - 1 {
        let prev = vs.drop_last();
        assert(prev[i] == vs[i]);
        lemma_tables_map_get(prev, i);
    }
}

proof fn lemma_tables_map_update(
    vs: Seq<(Seq<char>, Seq<ToDoView>)>,
    i: int,
    recs: Seq<ToDoView>,
)
    requires
        names_unique(vs),
        0 <= i < vs.len(),
    ensures
        names_unique(vs.update(i, (vs[i].0, recs))),
        tables_map(vs.update(i, (vs[i].0, recs))) == tables_map(vs).insert(vs[i].0, recs),
{
    let ws = vs.update(i, (vs[i].0, recs));
    let m1 = tables_map(ws);
    let m2 = tables_map(vs).insert(vs[i].0, recs);
    assert forall|n: Seq<char>| m1.contains_key(n) <==> m2.contains_key(n) by {
        lemma_tables_map_contains(ws, n);
        lemma_tables_map_contains(vs, n);
        if exists|j: int| 0 <= j < vs.len() && vs[j].0 == n {
            let j = choose|j: int| 0 <= j < vs.len() && vs[j].0 == n;
            assert(ws[j].0 == n);
        }
        if exists|j: int| 0 <= j < ws.len() && ws[j].0 == n {
            let j = choose|j: int| 0 <= j < ws.len() && ws[j].0 == n;
            assert(vs[j].0 == n);
        }
    }
    assert forall|n: Seq<char>| m1.contains_key(n) implies m1[n] == m2[n] by {
        lemma_tables_map_contains(ws, n);
        let j = choose|j: int| 0 <= j < ws.len() && ws[j].0 == n;
        lemma_tables_map_get(ws, j);
        if j != i {
            lemma_tables_map_get(vs, j);
        }
    }
    assert(m1 =~= m2);
}

proof fn lemma_tables_map_push(vs: Seq<(Seq<char>, Seq<ToDoView>)>, v: (Seq<char>, Seq<ToDoView>))
    requires
        names_unique(vs),
        !tables_map(vs).contains_key(v.0),
    ensures
        names_unique(vs.push(v)),
        tables_map(vs.push(v)) == tables_map(vs).insert(v.0, v.1),
{
    assert(vs.push(v).drop_last() =~= vs);
    assert forall|i: int| 0 <= i < vs.len() implies vs[i].0 != v.0 by {
        lemma_tables_map_contains(vs, v.0);
    }
}

proof fn lemma_valid_tables_wf(vs: Seq<(Seq<char>, Seq<ToDoView>)>)
    requires
        valid_tables(vs),
    ensures
        tables_wf(tables_map(vs)),
{
    assert forall|n: Seq<char>| #[trigger] tables_map(vs).contains_key(n) implies ids_unique(
        tables_map(vs)[n],
    ) by {
        lemma_tables_map_contains(vs, n);
        let j = choose|j: int| 0 <= j < vs.len() && vs[j].0 == n;
        lemma_tables_map_get(vs, j);
    }
}

proof fn lemma_ids_unique_filter(recs: Seq<ToDoView>, p: spec_fn(ToDoView) -> bool)
    requires
        ids_unique(recs),
    ensures
        ids_unique(recs.filter(p)),
    decreases recs.len(),
{
    reveal(Seq::filter);
    if recs.len() > 0 {
        let prev = recs.drop_last();
        assert(ids_unique(prev));
        lemma_ids_unique_filter(prev, p);
        if p(recs.last()) {
            let f = prev.filter(p);
            assert forall|k: int| 0 <= k < f.len() implies f[k].id != recs.last().id by {
                assert(f.contains(f[k]));
                prev.lemma_filter_contains_rev(p, f[k]);
                let m = choose|m: int| 0 <= m < prev.len() && prev[m] == f[k];
                assert(recs[m] == prev[m]);
            }
        }
    }
}

proof fn lemma_ids_unique_replace(recs: Seq<ToDoView>, item: ToDoView)
    requires
        ids_unique(recs),
    ensures
        ids_unique(replace_id(recs, item)),
{
}

proof fn lemma_ids_unique_push(recs: Seq<ToDoView>, item: ToDoView)
    requires
        ids_unique(recs),
        !has_id(recs, item.id),
    ensures
        ids_unique(recs.push(item)),
{
    assert forall|i: int| 0 <= i < recs.len() implies recs.push(item)[i].id != item.id by {
        assert(recs.push(item)[i] == recs[i]);
    }
}

/// A copy of a list of records, view for view.
fn clone_records(v: &Vec<ToDo>) -> (r: Vec<ToDo>)
    ensures
        records_view(r@) == records_view(v@),
{
    let mut out: Vec<ToDo> = Vec::new();
    let mut i: usize = 0;
    while i < v.len()
        invariant
            i <= v.len(),
            out@.len() == i,
            forall|j: int| 0 <= j < i ==> (#[trigger] out@[j])@ == v@[j]@,
        decreases v.len() - i,
    {
        out.push(v[i].clone());
        i = i + 1;
    }
    assert(records_view(out@) =~= records_view(v@));
    out
}

/// Whether some record of `recs` has the id `id`.
fn contains_id(recs: &Vec<ToDo>, id: &String) -> (r: bool)
    ensures
        r == has_id(records_view(recs@), id@),
{
    let mut i: usize = 0;
    while i < recs.len()
        invariant
            i <= recs.len(),
            forall|j: int| 0 <= j < i ==> recs@[j].id@ != id@,
        decreases recs.len() - i,
    {
        if recs[i].id == *id {
            assert(records_view(recs@)[i as int].id == id@);
            return true;
        }
        i = i + 1;
    }
    proof {
        if has_id(records_view(recs@), id@) {
            let j = choose|j: int|
                0 <= j < records_view(recs@).len() && records_view(recs@)[j].id == id@;
            assert(recs@[j].id@ == id@);
        }
    }
    false
}


proof fn lemma_filter_take_step(s: Seq<ToDoView>, p: spec_fn(ToDoView) -> bool, j: int)
    requires
        0 <= j < s.len(),
    ensures
        s.take(j + 1).filter(p) == if p(s[j]) {
            s.take(j).filter(p).push(s[j])
        } else {
            s.take(j).filter(p)
        },
{
    reveal(Seq::filter);
    assert(s.take(j + 1).drop_last() =~= s.take(j));
}

/// The records of `recs` that pass a comparison at `field`, in order.
fn filter_records(recs: &Vec<ToDo>, field: Option<&String>, c: &Comparator) -> (r: Vec<ToDo>)
    ensures
        records_view(r@) == narrow(records_view(recs@), field_view(field), c@),
{
    let ghost all = records_view(recs@);
    let ghost f = field_view(field);
    let mut out: Vec<ToDo> = Vec::new();
    let mut i: usize = 0;
    proof {
        reveal(Seq::filter);
        assert(all.take(0) =~= Seq::<ToDoView>::empty());
        assert(records_view(out@) =~= Seq::<ToDoView>::empty());
    }
    while i < recs.len()
        invariant
            i <= recs.len(),
            all == records_view(recs@),
            f == field_view(field),
            records_view(out@) == narrow(all.take(i as int), f, c@),
        decreases recs.len() - i,
    {
        let keep = match field {
            Some(path) => {
                let tree = recs[i].to_value();
                match get_nested_value(&tree, path.as_str()) {
                    Ok(v) => filter_with_compare(v, c),
                    Err(_) => false,
                }
            },
            None => false,
        };
        proof {
            lemma_filter_take_step(all, |r: ToDoView| keeps(r, f, c@), i as int);
            assert(keep == keeps(all[i as int], f, c@));
        }
        if keep {
            let ghost prev = out@;
            out.push(recs[i].clone());
            proof {
                assert(records_view(out@) =~= records_view(prev).push(all[i as int]));
            }
        }
        i = i + 1;
    }
    proof {
        assert(all.take(i as int) =~= all);
    }
    out
}

/// Whether one of `vs` equals `x`.
fn contains_string(vs: &Vec<String>, x: &String) -> (r: bool)
    ensures
        r == vs.deep_view().contains(x@),
{
    let mut i: usize = 0;
    while i < vs.len()
        invariant
            i <= vs.len(),
            forall|j: int| 0 <= j < i ==> vs@[j]@ != x@,
        decreases vs.len() - i,
    {
        if vs[i] == *x {
            assert(vs.deep_view()[i as int] == x@);
            return true;
        }
        i = i + 1;
    }
    proof {
        if vs.deep_view().contains(x@) {
            let j = choose|j: int| 0 <= j < vs.deep_view().len() && vs.deep_view()[j] == x@;
            assert(vs@[j]@ == x@);
        }
    }
    false
}

/// Whether `value` satisfies the comparator.
fn filter_with_compare(value: &Value, comparator: &Comparator) -> (r: bool)
    ensures
        r == compare_holds(value@, comparator@),
{
    proof {
        reveal_with_fuel(value_json, 1);
    }
    match comparator {
        Comparator::Equals(s) => match value {
            Value::Str(x) => *x == *s,
            _ => false,
        },
        Comparator::NotEquals(s) => match value {
            Value::Str(x) => !(*x == *s),
            _ => false,
        },
        Comparator::LessThan(n) => match value {
            Value::Number(x) => *x < *n,
            _ => false,
        },
        Comparator::GreaterThan(n) => match value {
            Value::Number(x) => *x > *n,
            _ => false,
        },
        Comparator::In(vs) => match value {
            Value::Str(x) => contains_string(vs, x),
            _ => false,
        },
        Comparator::Between((a, b)) => match value {
            Value::Number(x) => *a <= *x && *x <= *b,
            _ => false,
        },
    }
}

/// Whether no two records of `recs` share an id.
fn ids_unique_exec(recs: &Vec<ToDo>) -> (r: bool)
    ensures
        r == ids_unique(records_view(recs@)),
{
    let ghost v = records_view(recs@);
    let mut i: usize = 0;
    while i < recs.len()
        invariant
            v == records_view(recs@),
            i <= recs.len(),
            forall|a: int, b: int|
                0 <= a < i && 0 <= b < recs.len() && a != b ==> v[a].id != v[b].id,
        decreases recs.len() - i,
    {
        let mut j: usize = i + 1;
        while j < recs.len()
            invariant
                v == records_view(recs@),
                i < recs.len(),
                i + 1 <= j <= recs.len(),
                forall|b: int| i < b < j ==> v[i as int].id != v[b].id,
            decreases recs.len() - j,
        {
            if recs[i].id == recs[j].id {
                assert(v[i as int].id == v[j as int].id);
                return false;
            }
            j = j + 1;
        }
        i = i + 1;
    }
    true
}

/// Whether no two tables of `ts` share a name.
fn names_unique_exec(ts: &Vec<Table>) -> (r: bool)
    ensures
        r == names_unique(table_views(ts@)),
{
    let ghost v = table_views(ts@);
    let mut i: usize = 0;
    while i < ts.len()
        invariant
            v == table_views(ts@),
            i <= ts.len(),
            forall|a: int, b: int| 0 <= a < i && 0 <= b < ts.len() && a != b ==> v[a].0 != v[b].0,
        decreases ts.len() - i,
    {
        let mut j: usize = i + 1;
        while j < ts.len()
            invariant
                v == table_views(ts@),
                i < ts.len(),
                i + 1 <= j <= ts.len(),
                forall|b: int| i < b < j ==> v[i as int].0 != v[b].0,
            decreases ts.len() - j,
        {
            if ts[i].name == ts[j].name {
                assert(v[i as int].0 == v[j as int].0);
                return false;
            }
            j = j + 1;
        }
        i = i + 1;
    }
    true
}

/// What a saved copy of tables `db` is: tables that a store accepts and
/// that stand for exactly `db`.
pub open spec fn saved_tables(db: Tables, ts: Seq<Table>) -> bool {
    &&& valid_tables(table_views(ts))
    &&& tables_map(table_views(ts)) == db
}

/// `k` is the position of the first record of `recs` with id `id`.
pub open spec fn first_with_id(recs: Seq<ToDoView>, id: Seq<char>, k: int) -> bool {
    &&& 0 <= k < recs.len()
    &&& recs[k].id == id
    &&& forall|j: int| 0 <= j < k ==> recs[j].id != id
}

/// A document store: named tables of records, and a queue of operations
/// that `run` executes.
pub struct JsonDB {
    tables: Vec<Table>,
    runners: Vec<Runner>,
}

impl View for JsonDB {
    type V = Tables;

    closed spec fn view(&self) -> Tables {
        tables_map(table_views(self.tables@))
    }
}

impl JsonDB {
    /// The queue of operations not yet run, front first.
    pub closed spec fn queue(&self) -> Seq<RunnerView> {
        self.runners@.map_values(|r: Runner| r@)
    }

    /// Table names are unique, ids are unique within each table, and the
    /// queue holds no `Done`.
    pub closed spec fn wf(&self) -> bool {
        &&& valid_tables(table_views(self.tables@))
        &&& forall|i: int| 0 <= i < self.runners@.len() ==> !(#[trigger] self.runners@[i]@ is Done)
    }

    /// A well-formed store keeps the ids of each table unique.
    pub proof fn lemma_wf_tables(&self)
        requires
            self.wf(),
        ensures
            tables_wf(self@),
    {
        lemma_valid_tables_wf(table_views(self.tables@));
    }

    /// An empty store: no tables, nothing queued.
    pub fn new() -> (r: JsonDB)
        ensures
            r.wf(),
            r@ == Map::<Seq<char>, Seq<ToDoView>>::empty(),
            r.queue() == Seq::<RunnerView>::empty(),
    {
        let r = JsonDB { tables: Vec::new(), runners: Vec::new() };
        assert(table_views(r.tables@) =~= Seq::empty());
        assert(r.queue() =~= Seq::empty());
        r
    }

    /// The position of the table called `name`.
    fn table_index(&self, name: &String) -> (r: Option<usize>)
        requires
            self.wf(),
        ensures
            match r {
                Some(k) => k < self.tables@.len() && self.tables@[k as int].name@ == name@,
                None => !self@.contains_key(name@),
            },
    {
        let mut i: usize = 0;
        while i < self.tables.len()
            invariant
                i <= self.tables@.len(),
                forall|j: int| 0 <= j < i ==> self.tables@[j].name@ != name@,
            decreases self.tables.len() - i,
        {
            if self.tables[i].name == *name {
                return Some(i);
            }
            i = i + 1;
        }
        proof {
            let vs = table_views(self.tables@);
            lemma_tables_map_contains(vs, name@);
            if self@.contains_key(name@) {
                let j = choose|j: int| 0 <= j < vs.len() && vs[j].0 == name@;
                assert(self.tables@[j].name@ == name@);
            }
        }
        None
    }

    proof fn lemma_table_at(&self, k: int)
        requires
            self.wf(),
            0 <= k < self.tables@.len(),
        ensures
            self@.contains_key(self.tables@[k].name@),
            self@[self.tables@[k].name@] == records_view(self.tables@[k].records@),
    {
        let vs = table_views(self.tables@);
        assert(vs[k] == table_view(self.tables@[k]));
        lemma_tables_map_get(vs, k);
    }

    /// The records of table `name`, or `NotFound`.
    pub fn get_table_vec(&self, table_name: &str) -> (r: Result<Vec<ToDo>, DbError>)
        requires
            self.wf(),
        ensures
            match r {
                Ok(v) => self@.contains_key(table_name@) && records_view(v@) == self@[table_name@],
                Err(e) => !self@.contains_key(table_name@) && e == DbError::NotFound,
            },
    {
        let name = table_name.to_owned();
        match self.table_index(&name) {
            Some(k) => {
                proof {
                    self.lemma_table_at(k as int);
                }
                Ok(clone_records(&self.tables[k].records))
            },
            None => Err(DbError::NotFound),
        }
    }

    /// Replaces the records of the table at position `k`.
    fn set_records(&mut self, k: usize, records: Vec<ToDo>)
        requires
            old(self).wf(),
            k < old(self).tables@.len(),
            ids_unique(records_view(records@)),
        ensures
            final(self).wf(),
            final(self).runners == old(self).runners,
            final(self)@ == old(self)@.insert(
                old(self).tables@[k as int].name@,
                records_view(records@),
            ),
    {
        let ghost vs = table_views(self.tables@);
        let name = self.tables[k].name.clone();
        let t = Table { name, records };
        self.tables.set(k, t);
        proof {
            assert(table_views(self.tables@) =~= vs.update(k as int, (vs[k as int].0, records_view(records@))));
            lemma_tables_map_update(vs, k as int, records_view(records@));
        }
    }

    /// Appends a table; its name must be new.
    fn push_table(&mut self, name: String, records: Vec<ToDo>)
        requires
            old(self).wf(),
            !old(self)@.contains_key(name@),
            ids_unique(records_view(records@)),
        ensures
            final(self).wf(),
            final(self).runners == old(self).runners,
            final(self)@ == old(self)@.insert(name@, records_view(records@)),
    {
        let ghost vs = table_views(self.tables@);
        let ghost n = name@;
        self.tables.push(Table { name, records });
        proof {
            assert(table_views(self.tables@) =~= vs.push((n, records_view(records@))));
            lemma_tables_map_push(vs, (n, records_view(records@)));
        }
    }

    /// Adds an empty table called `name` unless there is one already.
    pub fn add_table(&mut self, table_name: &str) -> (r: Result<(), DbError>)
        requires
            old(self).wf(),
        ensures
            r is Ok,
            final(self).wf(),
            final(self).queue() == old(self).queue(),
            final(self)@ == if old(self)@.contains_key(table_name@) {
                old(self)@
            } else {
                old(self)@.insert(table_name@, Seq::empty())
            },
    {
        let name = table_name.to_owned();
        match self.table_index(&name) {
            Some(k) => {
                proof {
                    self.lemma_table_at(k as int);
                }
            },
            None => {
                let records: Vec<ToDo> = Vec::new();
                assert(records_view(records@) =~= Seq::empty());
                self.push_table(name, records);
            },
        }
        Ok(())
    }
}

impl JsonDB {
    /// Inserts `new_item` into table `table_name`, first creating the table
    /// where it is missing and `or` is set.
    fn insert_into_table(
        &mut self,
        table_name: &String,
        new_item: &ToDo,
        or: bool,
    ) -> (r: Result<(), DbError>)
        requires
            old(self).wf(),
        ensures
            final(self).wf(),
            final(self).runners == old(self).runners,
            !old(self)@.contains_key(table_name@) && !or ==> r == Err::<(), DbError>(
                DbError::NotFound,
            ) && final(self)@ == old(self)@,
            (old(self)@.contains_key(table_name@) || or) && has_id(
                table_or_empty(old(self)@, table_name@),
                new_item@.id,
            ) ==> r == Err::<(), DbError>(DbError::AlreadyExists) && final(self)@ == old(self)@,
            (old(self)@.contains_key(table_name@) || or) && !has_id(
                table_or_empty(old(self)@, table_name@),
                new_item@.id,
            ) ==> r is Ok && final(self)@ == old(self)@.insert(
                table_name@,
                table_or_empty(old(self)@, table_name@).push(new_item@),
            ),
    {
        match self.table_index(table_name) {
            Some(k) => {
                proof {
                    self.lemma_table_at(k as int);
                }
                if contains_id(&self.tables[k].records, &new_item.id) {
                    return Err(DbError::AlreadyExists);
                }
                let mut records = clone_records(&self.tables[k].records);
                let ghost prev = records@;
                records.push(new_item.clone());
                proof {
                    assert(records_view(records@) =~= records_view(prev).push(new_item@));
                    lemma_valid_tables_wf(table_views(self.tables@));
                    lemma_ids_unique_push(records_view(prev), new_item@);
                }
                self.set_records(k, records);
                Ok(())
            },
            None => {
                if !or {
                    return Err(DbError::NotFound);
                }
                let mut records: Vec<ToDo> = Vec::new();
                records.push(new_item.clone());
                proof {
                    assert(records_view(records@) =~= Seq::<ToDoView>::empty().push(new_item@));
                }
                self.push_table(table_name.clone(), records);
                Ok(())
            },
        }
    }

    /// Replaces, in table `table_name`, the record with `new_item`'s id.
    fn replace_record(&mut self, table_name: &String, new_item: &ToDo)
        requires
            old(self).wf(),
        ensures
            final(self).wf(),
            final(self).runners == old(self).runners,
            final(self)@ == if old(self)@.contains_key(table_name@) {
                old(self)@.insert(table_name@, replace_id(old(self)@[table_name@], new_item@))
            } else {
                old(self)@
            },
    {
        match self.table_index(table_name) {
            Some(k) => {
                proof {
                    self.lemma_table_at(k as int);
                    lemma_valid_tables_wf(table_views(self.tables@));
                }
                let ghost before = records_view(self.tables@[k as int].records@);
                let mut out: Vec<ToDo> = Vec::new();
                let mut j: usize = 0;
                while j < self.tables[k].records.len()
                    invariant
                        k < self.tables@.len(),
                        before == records_view(self.tables@[k as int].records@),
                        j <= before.len(),
                        out@.len() == j,
                        forall|l: int|
                            0 <= l < j ==> (#[trigger] out@[l])@ == replace_id(before, new_item@)[l],
                    decreases before.len() - j,
                {
                    if self.tables[k].records[j].id == new_item.id {
                        out.push(new_item.clone());
                    } else {
                        out.push(self.tables[k].records[j].clone());
                    }
                    j = j + 1;
                }
                proof {
                    assert(records_view(out@) =~= replace_id(before, new_item@));
                    lemma_ids_unique_replace(before, new_item@);
                }
                self.set_records(k, out);
            },
            None => {},
        }
    }

    /// Removes from table `table_name` every record whose id occurs in `gone`.
    fn remove_records(&mut self, table_name: &String, gone: &Vec<ToDo>)
        requires
            old(self).wf(),
        ensures
            final(self).wf(),
            final(self).runners == old(self).runners,
            final(self)@ == if old(self)@.contains_key(table_name@) {
                old(self)@.insert(table_name@, remove_ids(old(self)@[table_name@], records_view(gone@)))
            } else {
                old(self)@
            },
    {
        match self.table_index(table_name) {
            Some(k) => {
                proof {
                    self.lemma_table_at(k as int);
                    lemma_valid_tables_wf(table_views(self.tables@));
                }
                let ghost before = records_view(self.tables@[k as int].records@);
                let ghost gone_v = records_view(gone@);
                let ghost p = |r: ToDoView| !has_id(gone_v, r.id);
                let mut out: Vec<ToDo> = Vec::new();
                let mut j: usize = 0;
                proof {
                    reveal(Seq::filter);
                    assert(before.take(0) =~= Seq::<ToDoView>::empty());
                    assert(records_view(out@) =~= Seq::<ToDoView>::empty());
                }
                while j < self.tables[k].records.len()
                    invariant
                        k < self.tables@.len(),
                        before == records_view(self.tables@[k as int].records@),
                        gone_v == records_view(gone@),
                        p == (|r: ToDoView| !has_id(gone_v, r.id)),
                        j <= before.len(),
                        records_view(out@) == before.take(j as int).filter(p),
                    decreases before.len() - j,
                {
                    proof {
                        lemma_filter_take_step(before, p, j as int);
                    }
                    if !contains_id(gone, &self.tables[k].records[j].id) {
                        let ghost prev = out@;
                        out.push(self.tables[k].records[j].clone());
                        proof {
                            assert(records_view(out@) =~= records_view(prev).push(before[j as int]));
                        }
                    }
                    j = j + 1;
                }
                proof {
                    assert(before.take(j as int) =~= before);
                    lemma_ids_unique_filter(before, p);
                }
                self.set_records(k, out);
            },
            None => {},
        }
    }

    /// Performs the pending method's effect on the tables (see `commit`).
    fn commit_method(
        &mut self,
        method: Option<&MethodName>,
        results: Vec<ToDo>,
        Ghost(st): Ghost<RunState>,
    ) -> (r: Result<Vec<ToDo>, DbError>)
        requires
            old(self).wf(),
            st.results == records_view(results@),
            st.method == match method {
                Some(m) => Some(m@),
                None => None::<MethodView>,
            },
        ensures
            final(self).wf(),
            final(self).runners == old(self).runners,
            answer_view(r) == commit(old(self)@, st).0,
            final(self)@ == commit(old(self)@, st).1,
    {
        match method {
            Some(MethodName::Create(table, new_item, or)) => {
                match self.insert_into_table(table, new_item, *or) {
                    Ok(()) => Ok(results),
                    Err(e) => Err(e),
                }
            },
            Some(MethodName::Update(table, new_item)) => {
                if !contains_id(&results, &new_item.id) {
                    return Err(DbError::NotFound);
                }
                self.replace_record(table, new_item);
                let mut out: Vec<ToDo> = Vec::new();
                out.push(new_item.clone());
                assert(records_view(out@) =~= seq![new_item@]);
                Ok(out)
            },
            Some(MethodName::Delete(table)) => {
                self.remove_records(table, &results);
                Ok(results)
            },
            _ => Ok(results),
        }
    }

    /// Executes the queued operations, front to back, and empties the queue.
    ///
    /// A method loads its table into the result set, `Where` sets the field
    /// that later comparisons look at (the latest one wins), a comparison
    /// narrows the result set; at the end the latest method is committed
    /// and the result set returned (see `run_outcome`). The caller persists
    /// the tables after a successful run.
    pub fn run(&mut self) -> (r: Result<Vec<ToDo>, DbError>)
        requires
            old(self).wf(),
        ensures
            final(self).wf(),
            final(self).queue() == Seq::<RunnerView>::empty(),
            answer_view(r) == run_outcome(old(self)@, old(self).queue()).0,
            final(self)@ == run_outcome(old(self)@, old(self).queue()).1,
    {
        let ghost db = self@;
        let ghost queue = self.queue();
        let mut ops: Vec<Runner> = Vec::new();
        std::mem::swap(&mut ops, &mut self.runners);
        let ghost n = ops@.len();
        ops.push(Runner::Done);
        let total = ops.len();
        let mut results: Vec<ToDo> = Vec::new();
        let mut field: Option<&String> = None;
        let mut method: Option<&MethodName> = None;
        let mut i: usize = 0;
        proof {
            assert(queue.take(0) =~= Seq::<RunnerView>::empty());
            assert(records_view(results@) =~= Seq::<ToDoView>::empty());
        }
        loop
            invariant
                self.wf(),
                self@ == db,
                self.runners@.len() == 0,
                ops@.len() == n + 1,
                total == n + 1,
                queue.len() == n,
                ops@[n as int]@ is Done,
                forall|j: int| 0 <= j < n ==> (#[trigger] ops@[j])@ == queue[j],
                forall|j: int| 0 <= j < n ==> !(#[trigger] queue[j] is Done),
                i <= n,
                scan(db, queue.take(i as int)) == (RunState {
                    results: records_view(results@),
                    field: field_view(field),
                    method: match method {
                        Some(m) => Some(m@),
                        None => None::<MethodView>,
                    },
                }),
            ensures
                i == n,
                scan(db, queue) == (RunState {
                    results: records_view(results@),
                    field: field_view(field),
                    method: match method {
                        Some(m) => Some(m@),
                        None => None::<MethodView>,
                    },
                }),
            decreases n - i,
        {
            proof {
                if i < n {
                    assert(queue.take(i + 1).drop_last() =~= queue.take(i as int));
                    assert(queue.take(i + 1).last() == queue[i as int]);
                } else {
                    assert(queue.take(i as int) =~= queue);
                }
            }
            match &ops[i] {
                Runner::Done => {
                    break;
                },
                Runner::Method(m) => {
                    results =
                    match self.get_table_vec(m.table_name().as_str()) {
                        Ok(v) => v,
                        Err(_) => Vec::new(),
                    };
                    proof {
                        if !db.contains_key(m@.table()) {
                            assert(records_view(results@) =~= Seq::<ToDoView>::empty());
                        }
                    }
                    method = Some(m);
                },
                Runner::Where(f) => {
                    field = Some(f);
                },
                Runner::Compare(c) => {
                    results = filter_records(&results, field, c);
                },
            }
            assert(i < n);
            i = i + 1;
        }
        let ghost st = scan(db, queue);
        self.commit_method(method, results, Ghost(st))
    }
}

impl JsonDB {
    fn push_op(&mut self, op: Runner)
        requires
            old(self).wf(),
            !(op@ is Done),
        ensures
            final(self).wf(),
            final(self)@ == old(self)@,
            final(self).queue() == old(self).queue().push(op@),
    {
        let ghost q = self.queue();
        self.runners.push(op);
        assert(self.queue() =~= q.push(op@));
    }

    /// Queues the creation of `item` in `table`; the table must exist.
    pub fn insert(&mut self, table: &str, item: ToDo) -> (r: &mut Self)
        requires
            old(self).wf(),
        ensures
            r.wf(),
            r@ == old(self)@,
            r.queue() == old(self).queue().push(RunnerView::Method(MethodView::Create(table@, item@, false))),
            *final(self) == *final(r),
    {
        self.push_op(Runner::Method(MethodName::Create(table.to_owned(), item, false)));
        self
    }

    /// Queues the creation of `item` in `table`, creating the table if it is missing.
    pub fn insert_or(&mut self, table: &str, item: ToDo) -> (r: &mut Self)
        requires
            old(self).wf(),
        ensures
            r.wf(),
            r@ == old(self)@,
            r.queue() == old(self).queue().push(RunnerView::Method(MethodView::Create(table@, item@, true))),
            *final(self) == *final(r),
    {
        self.push_op(Runner::Method(MethodName::Create(table.to_owned(), item, true)));
        self
    }

    /// Queues a read of `table`.
    pub fn find(&mut self, table: &str) -> (r: &mut Self)
        requires
            old(self).wf(),
        ensures
            r.wf(),
            r@ == old(self)@,
            r.queue() == old(self).queue().push(RunnerView::Method(MethodView::Read(table@))),
            *final(self) == *final(r),
    {
        self.push_op(Runner::Method(MethodName::Read(table.to_owned())));
        self
    }

    /// Queues the replacement of the record of `table` with `data`'s id.
    pub fn update(&mut self, table: &str, data: ToDo) -> (r: &mut Self)
        requires
            old(self).wf(),
        ensures
            r.wf(),
            r@ == old(self)@,
            r.queue() == old(self).queue().push(RunnerView::Method(MethodView::Update(table@, data@))),
            *final(self) == *final(r),
    {
        self.push_op(Runner::Method(MethodName::Update(table.to_owned(), data)));
        self
    }

    /// Queues the removal of the matching records of `table`.
    pub fn delete(&mut self, table: &str) -> (r: &mut Self)
        requires
            old(self).wf(),
        ensures
            r.wf(),
            r@ == old(self)@,
            r.queue() == old(self).queue().push(RunnerView::Method(MethodView::Delete(table@))),
            *final(self) == *final(r),
    {
        self.push_op(Runner::Method(MethodName::Delete(table.to_owned())));
        self
    }

    /// Sets the dot-separated path that the following comparisons look at.
    pub fn where_(&mut self, field: &str) -> (r: &mut Self)
        requires
            old(self).wf(),
        ensures
            r.wf(),
            r@ == old(self)@,
            r.queue() == old(self).queue().push(RunnerView::Where(field@)),
            *final(self) == *final(r),
    {
        self.push_op(Runner::Where(field.to_owned()));
        self
    }

    /// Keeps the records whose field is the string `value`.
    pub fn equals(&mut self, value: &str) -> (r: &mut Self)
        requires
            old(self).wf(),
        ensures
            r.wf(),
            r@ == old(self)@,
            r.queue() == old(self).queue().push(RunnerView::Compare(ComparatorView::Equals(value@))),
            *final(self) == *final(r),
    {
        self.push_op(Runner::Compare(Comparator::Equals(value.to_owned())));
        self
    }

    /// Keeps the records whose field is a string other than `value`.
    pub fn not_equals(&mut self, value: &str) -> (r: &mut Self)
        requires
            old(self).wf(),
        ensures
            r.wf(),
            r@ == old(self)@,
            r.queue() == old(self).queue().push(RunnerView::Compare(ComparatorView::NotEquals(value@))),
            *final(self) == *final(r),
    {
        self.push_op(Runner::Compare(Comparator::NotEquals(value.to_owned())));
        self
    }

    /// Keeps the records whose field is one of the strings `values`.
    pub fn in_(&mut self, values: Vec<String>) -> (r: &mut Self)
        requires
            old(self).wf(),
        ensures
            r.wf(),
            r@ == old(self)@,
            r.queue() == old(self).queue().push(RunnerView::Compare(ComparatorView::In(values.deep_view()))),
            *final(self) == *final(r),
    {
        self.push_op(Runner::Compare(Comparator::In(values)));
        self
    }

    /// Keeps the records whose field is a number below `value`.
    pub fn less_than(&mut self, value: u64) -> (r: &mut Self)
        requires
            old(self).wf(),
        ensures
            r.wf(),
            r@ == old(self)@,
            r.queue() == old(self).queue().push(RunnerView::Compare(ComparatorView::LessThan(value))),
            *final(self) == *final(r),
    {
        self.push_op(Runner::Compare(Comparator::LessThan(value)));
        self
    }

    /// Keeps the records whose field is a number above `value`.
    pub fn greater_than(&mut self, value: u64) -> (r: &mut Self)
        requires
            old(self).wf(),
        ensures
            r.wf(),
            r@ == old(self)@,
            r.queue() == old(self).queue().push(RunnerView::Compare(ComparatorView::GreaterThan(value))),
            *final(self) == *final(r),
    {
        self.push_op(Runner::Compare(Comparator::GreaterThan(value)));
        self
    }

    /// Keeps the records whose field is a number from `start` to `end`, both included.
    pub fn between(&mut self, start: u64, end: u64) -> (r: &mut Self)
        requires
            old(self).wf(),
        ensures
            r.wf(),
            r@ == old(self)@,
            r.queue() == old(self).queue().push(RunnerView::Compare(ComparatorView::Between(start, end))),
            *final(self) == *final(r),
    {
        self.push_op(Runner::Compare(Comparator::Between((start, end))));
        self
    }
}

impl JsonDB {
    /// A store holding `tables`, with an empty queue. `InvalidData` where two
    /// tables share a name or two records of a table share an id.
    pub fn load(tables: Vec<Table>) -> (r: Result<JsonDB, DbError>)
        ensures
            r is Ok <==> valid_tables(table_views(tables@)),
            r matches Ok(db) ==> db.wf() && db@ == tables_map(table_views(tables@)) && db.queue()
                == Seq::<RunnerView>::empty(),
            r matches Err(e) ==> e == DbError::InvalidData,
    {
        if !names_unique_exec(&tables) {
            return Err(DbError::InvalidData);
        }
        let ghost v = table_views(tables@);
        let mut i: usize = 0;
        while i < tables.len()
            invariant
                v == table_views(tables@),
                i <= tables.len(),
                forall|j: int| 0 <= j < i ==> ids_unique(#[trigger] v[j].1),
            decreases tables.len() - i,
        {
            if !ids_unique_exec(&tables[i].records) {
                assert(!ids_unique(v[i as int].1));
                return Err(DbError::InvalidData);
            }
            i = i + 1;
        }
        let db = JsonDB { tables, runners: Vec::new() };
        assert(db.queue() =~= Seq::<RunnerView>::empty());
        Ok(db)
    }

    /// A copy of the tables, for saving: loading it gives back this store's
    /// tables.
    pub fn to_tables(&self) -> (r: Vec<Table>)
        requires
            self.wf(),
        ensures
            saved_tables(self@, r@),
    {
        let ghost v = table_views(self.tables@);
        let mut out: Vec<Table> = Vec::new();
        let mut i: usize = 0;
        while i < self.tables.len()
            invariant
                v == table_views(self.tables@),
                i <= self.tables@.len(),
                out@.len() == i,
                forall|j: int| 0 <= j < i ==> table_view(#[trigger] out@[j]) == v[j],
            decreases self.tables.len() - i,
        {
            let t = Table {
                name: self.tables[i].name.clone(),
                records: clone_records(&self.tables[i].records),
            };
            out.push(t);
            i = i + 1;
        }
        assert(table_views(out@) =~= v);
        out
    }

    /// The method that `run` would commit: the latest one in the queue.
    pub fn pending_method(&self) -> (r: Option<&MethodName>)
        ensures
            scan(self@, self.queue()).method == match r {
                Some(m) => Some(m@),
                None => None::<MethodView>,
            },
    {
        let ghost q = self.queue();
        let mut found: Option<&MethodName> = None;
        let mut i: usize = 0;
        proof {
            assert(q.take(0) =~= Seq::<RunnerView>::empty());
        }
        while i < self.runners.len()
            invariant
                q == self.queue(),
                i <= self.runners@.len(),
                scan(self@, q.take(i as int)).method == match found {
                    Some(m) => Some(m@),
                    None => None::<MethodView>,
                },
            decreases self.runners.len() - i,
        {
            proof {
                assert(q.take(i + 1).drop_last() =~= q.take(i as int));
            }
            match &self.runners[i] {
                Runner::Method(m) => {
                    found = Some(m);
                },
                _ => {},
            }
            i = i + 1;
        }
        proof {
            assert(q.take(i as int) =~= q);
        }
        found
    }

    /// In a single list of records, replaces the first record with id `id`
    /// by `todo` and returns `todo`; `NotFound` where no record has that id.
    pub fn update_todo(records: &mut Vec<ToDo>, id: &str, todo: ToDo) -> (r: Result<ToDo, DbError>)
        ensures
            r is Ok <==> has_id(records_view(old(records)@), id@),
            r matches Ok(t) ==> t@ == todo@ && exists|k: int|
                first_with_id(records_view(old(records)@), id@, k) && records_view(final(records)@)
                    == records_view(old(records)@).update(k, todo@),
            r matches Err(e) ==> e == DbError::NotFound && final(records)@ == old(records)@,
    {
        let key = id.to_owned();
        let ghost before = records_view(records@);
        let mut i: usize = 0;
        while i < records.len()
            invariant
                before == records_view(records@),
                records@ == old(records)@,
                key@ == id@,
                i <= records.len(),
                forall|j: int| 0 <= j < i ==> before[j].id != id@,
            decreases records.len() - i,
        {
            if records[i].id == key {
                records.set(i, todo.clone());
                proof {
                    assert(first_with_id(before, id@, i as int));
                    assert(before[i as int].id == id@);
                    assert(records_view(records@) =~= before.update(i as int, todo@));
                }
                return Ok(todo);
            }
            i = i + 1;
        }
        Err(DbError::NotFound)
    }
}

} // verus!
