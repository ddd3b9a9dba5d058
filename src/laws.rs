use vstd::prelude::*;

use crate::json_db::{saved_tables, table_views, tables_map, valid_tables, JsonDB, Table};
use crate::query::{
    has_id, ids_unique, keeps, narrow, remove_ids, replace_id, run_outcome, scan, table_or_empty,
    tables_wf, ComparatorView, DbError, MethodView, RunnerView, Tables,
};
use crate::types::ToDoView;
use crate::value::{resolve_path, todo_json, Json};

verus! {

/// Every record of the result set comes from the table of the pending
/// method.
proof fn lemma_results_from_table(db: Tables, ops: Seq<RunnerView>)
    ensures
        scan(db, ops).method matches Some(m) ==> forall|i: int|
            0 <= i < scan(db, ops).results.len() ==> table_or_empty(db, m.table()).contains(
                #[trigger] scan(db, ops).results[i],
            ),
    decreases ops.len(),
{
    if ops.len() > 0 {
        let prev = ops.drop_last();
        lemma_results_from_table(db, prev);
        let st = scan(db, prev);
        match ops.last() {
            RunnerView::Method(m) => {
                let t = table_or_empty(db, m.table());
                assert forall|i: int| 0 <= i < t.len() implies t.contains(#[trigger] t[i]) by {}
            },
            RunnerView::Compare(c) => {
                if let Some(m) = st.method {
                    let f = narrow(st.results, st.field, c);
                    assert forall|i: int| 0 <= i < f.len() implies table_or_empty(
                        db,
                        m.table(),
                    ).contains(#[trigger] f[i]) by {
                        assert(f.contains(f[i]));
                        st.results.lemma_filter_contains_rev(
                            |r: ToDoView| keeps(r, st.field, c),
                            f[i],
                        );
                    }
                }
            },
            _ => {},
        }
    }
}

/// In a table with unique ids, a record shares its id with some record of
/// a subset exactly when it belongs to that subset.
proof fn lemma_has_id_iff_contains(recs: Seq<ToDoView>, sub: Seq<ToDoView>, x: ToDoView)
    requires
        ids_unique(recs),
        forall|i: int| 0 <= i < sub.len() ==> recs.contains(#[trigger] sub[i]),
        recs.contains(x),
    ensures
        has_id(sub, x.id) <==> sub.contains(x),
{
    if has_id(sub, x.id) {
        let i = choose|i: int| 0 <= i < sub.len() && sub[i].id == x.id;
        assert(recs.contains(sub[i]));
        let m = choose|m: int| 0 <= m < recs.len() && recs[m] == sub[i];
        let l = choose|l: int| 0 <= l < recs.len() && recs[l] == x;
        assert(m == l);
        assert(sub.contains(x));
    }
    if sub.contains(x) {
        let i = choose|i: int| 0 <= i < sub.len() && sub[i] == x;
        assert(sub[i].id == x.id);
    }
}

proof fn lemma_filter_all(s: Seq<ToDoView>, p: spec_fn(ToDoView) -> bool)
    requires
        forall|x: ToDoView| #[trigger] p(x),
    ensures
        s.filter(p) == s,
    decreases s.len(),
{
    reveal(Seq::filter);
    if s.len() > 0 {
        lemma_filter_all(s.drop_last(), p);
        assert(s.drop_last().push(s.last()) =~= s);
    }
}

/// Saving a well-formed store and loading what was saved gives back an
/// identical table map: `load` accepts every copy that `to_tables` hands
/// out, and the store it builds has the tables of the one that was saved.
pub proof fn lemma_save_then_load(db: JsonDB, saved: Seq<Table>)
    requires
        db.wf(),
        saved_tables(db@, saved),
    ensures
        valid_tables(table_views(saved)),
        tables_map(table_views(saved)) == db@,
{
}

/// Once a record has been created in a table, creating a record with the
/// same id there fails with `AlreadyExists` and changes nothing; so does
/// creating the very same record again.
pub proof fn lemma_create_twice_fails(
    db: Tables,
    first: Seq<RunnerView>,
    second: Seq<RunnerView>,
    t: Seq<char>,
    a: ToDoView,
    b: ToDoView,
    up1: bool,
    up2: bool,
)
    requires
        scan(db, first).method == Some(MethodView::Create(t, a, up1)),
        run_outcome(db, first).0 is Ok,
        b.id == a.id,
        scan(run_outcome(db, first).1, second).method == Some(MethodView::Create(t, b, up2)),
    ensures
        run_outcome(run_outcome(db, first).1, second) == (
            Err::<Seq<ToDoView>, DbError>(DbError::AlreadyExists),
            run_outcome(db, first).1,
        ),
{
    let db2 = run_outcome(db, first).1;
    let recs = table_or_empty(db, t).push(a);
    assert(db2 == db.insert(t, recs));
    assert(table_or_empty(db2, t) == recs);
    assert(recs[recs.len() - 1].id == b.id);
}

/// A delete removes from its table exactly the records that its filters
/// matched, and nothing else; where they matched nothing, no table changes.
pub proof fn lemma_delete_removes_matches(db: Tables, ops: Seq<RunnerView>, t: Seq<char>)
    requires
        tables_wf(db),
        db.contains_key(t),
        scan(db, ops).method == Some(MethodView::Delete(t)),
    ensures
        run_outcome(db, ops).0 == Ok::<Seq<ToDoView>, DbError>(scan(db, ops).results),
        run_outcome(db, ops).1.dom() == db.dom(),
        forall|n: Seq<char>| n != t ==> run_outcome(db, ops).1[n] == #[trigger] db[n],
        forall|x: ToDoView|
            run_outcome(db, ops).1[t].contains(x) <==> db[t].contains(x) && !scan(
                db,
                ops,
            ).results.contains(x),
        scan(db, ops).results.len() == 0 ==> run_outcome(db, ops).1 == db,
{
    let st = scan(db, ops);
    let recs = db[t];
    let p = |r: ToDoView| !has_id(st.results, r.id);
    let after = remove_ids(recs, st.results);
    lemma_results_from_table(db, ops);
    assert(run_outcome(db, ops).1 == db.insert(t, after));
    assert(db.insert(t, after).dom() =~= db.dom());
    assert forall|x: ToDoView| after.contains(x) <==> recs.contains(x) && !st.results.contains(x) by {
        if after.contains(x) {
            recs.lemma_filter_contains_rev(p, x);
            let k = choose|k: int| 0 <= k < after.len() && after[k] == x;
            recs.lemma_filter_pred(p, k);
            lemma_has_id_iff_contains(recs, st.results, x);
        }
        if recs.contains(x) && !st.results.contains(x) {
            lemma_has_id_iff_contains(recs, st.results, x);
            let k = choose|k: int| 0 <= k < recs.len() && recs[k] == x;
            recs.lemma_filter_contains(p, k);
        }
    }
    if st.results.len() == 0 {
        assert forall|x: ToDoView| #[trigger] p(x) by {}
        lemma_filter_all(recs, p);
        assert(db.insert(t, after) =~= db);
    }
}

/// An update keeps the number of records of every table, and fails with
/// `NotFound`, changing nothing, where its table has no record with the
/// new record's id.
pub proof fn lemma_update_keeps_cardinality(
    db: Tables,
    ops: Seq<RunnerView>,
    t: Seq<char>,
    item: ToDoView,
)
    requires
        scan(db, ops).method == Some(MethodView::Update(t, item)),
    ensures
        run_outcome(db, ops).1.dom() == db.dom(),
        forall|n: Seq<char>|
            #[trigger] db.contains_key(n) ==> run_outcome(db, ops).1[n].len() == db[n].len(),
        !has_id(table_or_empty(db, t), item.id) ==> run_outcome(db, ops) == (
            Err::<Seq<ToDoView>, DbError>(DbError::NotFound),
            db,
        ),
{
    let st = scan(db, ops);
    lemma_results_from_table(db, ops);
    let db2 = run_outcome(db, ops).1;
    if has_id(st.results, item.id) && db.contains_key(t) {
        assert(db2 == db.insert(t, replace_id(db[t], item)));
        assert(db2.dom() =~= db.dom());
    }
    if has_id(st.results, item.id) {
        let i = choose|i: int| 0 <= i < st.results.len() && st.results[i].id == item.id;
        assert(table_or_empty(db, t).contains(st.results[i]));
        let m = choose|m: int|
            0 <= m < table_or_empty(db, t).len() && table_or_empty(db, t)[m] == st.results[i];
        assert(has_id(table_or_empty(db, t), item.id));
    }
}

/// `Between(a, b)` with `a <= b` keeps a record whose field is exactly `a`
/// or exactly `b`.
pub proof fn lemma_between_includes_ends(r: ToDoView, field: Seq<char>, a: u64, b: u64, x: u64)
    requires
        a <= b,
        x == a || x == b,
        resolve_path(todo_json(r), field) == Ok::<Json, DbError>(Json::Number(x)),
    ensures
        keeps(r, Some(field), ComparatorView::Between(a, b)),
{
}

/// Running an empty queue (what a second `run` without new builder calls
/// does, since `run` leaves the queue empty) answers with no records and
/// changes no table.
pub proof fn lemma_empty_run_is_noop(db: Tables)
    ensures
        run_outcome(db, Seq::<RunnerView>::empty()) == (
            Ok::<Seq<ToDoView>, DbError>(Seq::<ToDoView>::empty()),
            db,
        ),
{
}

} // verus!
