use ohmydb::{Date, DbError, JsonDB, MethodName, Name, Status, Table, ToDo, User};

fn todo(id: &str, point: u64, status: Status) -> ToDo {
    ToDo {
        id: id.to_string(),
        text: format!("task {}", id),
        status,
        user: User {
            name: Name { first: "Ada".to_string(), last: "Lovelace".to_string() },
            email: "ada@example.com".to_string(),
        },
        date: Date { start: "2024-01-01".to_string(), end: "2024-12-31".to_string() },
        point,
        tags: vec!["work".to_string()],
    }
}

fn ids(records: &[ToDo]) -> Vec<String> {
    let mut v: Vec<String> = records.iter().map(|t| t.id.clone()).collect();
    v.sort();
    v
}

fn table_ids(db: &mut JsonDB, table: &str) -> Vec<String> {
    ids(&db.find(table).run().unwrap())
}

/// A store with table "todo" holding ids 1..=4 with points 100, 200, 300, 400;
/// 1 and 3 pending, 2 and 4 completed.
fn four_records() -> JsonDB {
    let mut db = JsonDB::new();
    db.add_table("todo").unwrap();
    for (id, point, status) in [
        ("1", 100, Status::Pending),
        ("2", 200, Status::Completed),
        ("3", 300, Status::Pending),
        ("4", 400, Status::Completed),
    ] {
        db.insert("todo", todo(id, point, status)).run().unwrap();
    }
    db
}

#[test]
fn todo_table_scenario() {
    let mut db = JsonDB::new();
    db.add_table("todo").unwrap();
    db.insert("todo", todo("1", 100, Status::Pending)).run().unwrap();
    db.insert("todo", todo("2", 600, Status::Completed)).run().unwrap();

    let low = db.find("todo").where_("point").less_than(500).run().unwrap();
    assert_eq!(ids(&low), vec!["1"]);

    let done = db.find("todo").where_("status").equals("Completed").run().unwrap();
    assert_eq!(ids(&done), vec!["2"]);

    db.delete("todo").where_("status").equals("Pending").run().unwrap();
    assert_eq!(table_ids(&mut db, "todo"), vec!["2"]);

    let mut changed = todo("2", 50, Status::Completed);
    changed.text = "task 2, revised".to_string();
    let updated = db.update("todo", changed.clone()).run().unwrap();
    assert_eq!(updated, vec![changed.clone()]);

    let saved = db.to_tables();
    assert_eq!(saved.len(), 1);
    assert_eq!(saved[0].name, "todo");
    assert_eq!(saved[0].records.len(), 1);
    assert_eq!(saved[0].records[0].point, 50);
    assert_eq!(saved[0].records[0], changed);
}

#[test]
fn save_then_load_round_trip() {
    let mut db = four_records();
    db.insert_or("people", todo("9", 900, Status::Archived)).run().unwrap();
    let saved = db.to_tables();
    let mut loaded = JsonDB::load(db.to_tables()).unwrap();
    let mut again = loaded.to_tables();
    let mut first = saved;
    first.sort_by(|a, b| a.name.cmp(&b.name));
    again.sort_by(|a, b| a.name.cmp(&b.name));
    assert_eq!(again, first);
    assert_eq!(table_ids(&mut loaded, "todo"), vec!["1", "2", "3", "4"]);
    assert_eq!(table_ids(&mut loaded, "people"), vec!["9"]);
}

#[test]
fn load_rejects_duplicate_table_names() {
    let tables = vec![
        Table { name: "a".to_string(), records: vec![] },
        Table { name: "a".to_string(), records: vec![] },
    ];
    assert!(matches!(JsonDB::load(tables), Err(DbError::InvalidData)));
}

#[test]
fn load_rejects_duplicate_ids() {
    let tables = vec![Table {
        name: "a".to_string(),
        records: vec![todo("1", 1, Status::Pending), todo("1", 2, Status::Completed)],
    }];
    assert!(matches!(JsonDB::load(tables), Err(DbError::InvalidData)));
}

#[test]
fn load_empty_gives_empty_store() {
    let db = JsonDB::load(vec![]).unwrap();
    assert!(db.to_tables().is_empty());
}

#[test]
fn create_same_id_twice_fails() {
    let mut db = JsonDB::new();
    db.add_table("todo").unwrap();
    db.insert("todo", todo("1", 100, Status::Pending)).run().unwrap();
    let second = db.insert("todo", todo("1", 999, Status::Completed)).run();
    assert_eq!(second, Err(DbError::AlreadyExists));
    assert_eq!(db.to_tables()[0].records, vec![todo("1", 100, Status::Pending)]);
}

#[test]
fn create_identical_record_twice_fails() {
    let mut db = JsonDB::new();
    db.insert_or("todo", todo("1", 100, Status::Pending)).run().unwrap();
    let second = db.insert_or("todo", todo("1", 100, Status::Pending)).run();
    assert_eq!(second, Err(DbError::AlreadyExists));
    assert_eq!(table_ids(&mut db, "todo"), vec!["1"]);
}

#[test]
fn create_in_missing_table_is_not_found() {
    let mut db = JsonDB::new();
    let r = db.insert("nowhere", todo("1", 100, Status::Pending)).run();
    assert_eq!(r, Err(DbError::NotFound));
    assert!(db.to_tables().is_empty());
}

#[test]
fn create_or_makes_the_table() {
    let mut db = JsonDB::new();
    let r = db.insert_or("fresh", todo("1", 100, Status::Pending)).run().unwrap();
    assert!(r.is_empty());
    assert_eq!(table_ids(&mut db, "fresh"), vec!["1"]);
}

#[test]
fn create_returns_the_table_before_insertion() {
    let mut db = four_records();
    let r = db.insert("todo", todo("5", 500, Status::Pending)).run().unwrap();
    assert_eq!(ids(&r), vec!["1", "2", "3", "4"]);
}

#[test]
fn delete_removes_only_matches() {
    let mut db = four_records();
    let gone = db.delete("todo").where_("point").greater_than(250).run().unwrap();
    assert_eq!(ids(&gone), vec!["3", "4"]);
    assert_eq!(table_ids(&mut db, "todo"), vec!["1", "2"]);
}

#[test]
fn delete_matching_nothing_changes_nothing() {
    let mut db = four_records();
    let before = db.to_tables();
    let gone = db.delete("todo").where_("point").greater_than(10_000).run().unwrap();
    assert!(gone.is_empty());
    assert_eq!(db.to_tables(), before);
}

#[test]
fn delete_without_filter_empties_table() {
    let mut db = four_records();
    db.delete("todo").run().unwrap();
    assert!(table_ids(&mut db, "todo").is_empty());
}

#[test]
fn delete_missing_table_is_empty_no_op() {
    let mut db = four_records();
    let before = db.to_tables();
    assert_eq!(db.delete("other").run(), Ok(vec![]));
    assert_eq!(db.to_tables(), before);
}

#[test]
fn update_keeps_record_count() {
    let mut db = four_records();
    let r = db.update("todo", todo("3", 333, Status::Completed)).run().unwrap();
    assert_eq!(r, vec![todo("3", 333, Status::Completed)]);
    let all = db.find("todo").run().unwrap();
    assert_eq!(all.len(), 4);
    let three: Vec<&ToDo> = all.iter().filter(|t| t.id == "3").collect();
    assert_eq!(three, vec![&todo("3", 333, Status::Completed)]);
}

#[test]
fn update_unknown_id_is_not_found() {
    let mut db = four_records();
    let before = db.to_tables();
    let r = db.update("todo", todo("42", 1, Status::Pending)).run();
    assert_eq!(r, Err(DbError::NotFound));
    assert_eq!(db.to_tables(), before);
}

#[test]
fn update_outside_filter_is_not_found() {
    let mut db = four_records();
    let r = db
        .update("todo", todo("3", 1, Status::Pending))
        .where_("status")
        .equals("Completed")
        .run();
    assert_eq!(r, Err(DbError::NotFound));
}

#[test]
fn between_includes_both_ends() {
    let mut db = four_records();
    let r = db.find("todo").where_("point").between(200, 300).run().unwrap();
    assert_eq!(ids(&r), vec!["2", "3"]);
}

#[test]
fn between_reversed_bounds_is_empty() {
    let mut db = four_records();
    let r = db.find("todo").where_("point").between(300, 200).run().unwrap();
    assert!(r.is_empty());
}

#[test]
fn queue_is_empty_after_run() {
    let mut db = four_records();
    db.find("todo").where_("point").less_than(250);
    assert!(db.pending_method().is_some());
    db.run().unwrap();
    assert!(db.pending_method().is_none());
}

#[test]
fn second_run_is_empty_no_op() {
    let mut db = four_records();
    db.delete("todo").where_("point").less_than(250).run().unwrap();
    let before = db.to_tables();
    assert_eq!(db.run(), Ok(vec![]));
    assert_eq!(db.to_tables(), before);
}

#[test]
fn latest_where_wins() {
    let mut db = four_records();
    let r = db.find("todo").where_("status").where_("point").less_than(250).run().unwrap();
    assert_eq!(ids(&r), vec!["1", "2"]);
}

#[test]
fn chained_filters_narrow() {
    let mut db = four_records();
    let r = db
        .find("todo")
        .where_("status")
        .equals("Pending")
        .where_("point")
        .greater_than(150)
        .run()
        .unwrap();
    assert_eq!(ids(&r), vec!["3"]);
}

#[test]
fn not_equals_and_in() {
    let mut db = four_records();
    let r = db.find("todo").where_("id").not_equals("2").run().unwrap();
    assert_eq!(ids(&r), vec!["1", "3", "4"]);
    let r = db
        .find("todo")
        .where_("id")
        .in_(vec!["1".to_string(), "4".to_string(), "9".to_string()])
        .run()
        .unwrap();
    assert_eq!(ids(&r), vec!["1", "4"]);
}

#[test]
fn kind_mismatch_excludes() {
    let mut db = four_records();
    assert!(db.find("todo").where_("point").equals("100").run().unwrap().is_empty());
    assert!(db.find("todo").where_("point").not_equals("100").run().unwrap().is_empty());
    assert!(db.find("todo").where_("status").less_than(5).run().unwrap().is_empty());
}

#[test]
fn unresolved_field_excludes() {
    let mut db = four_records();
    assert!(db.find("todo").where_("user.age").greater_than(0).run().unwrap().is_empty());
    assert!(db.find("todo").where_("id.x").equals("1").run().unwrap().is_empty());
}

#[test]
fn compare_without_where_keeps_nothing() {
    let mut db = four_records();
    assert!(db.find("todo").equals("1").run().unwrap().is_empty());
}

#[test]
fn nested_field_filter() {
    let mut db = four_records();
    let mut other = todo("5", 500, Status::Pending);
    other.user.name.first = "Grace".to_string();
    db.insert("todo", other).run().unwrap();
    let r = db.find("todo").where_("user.name.first").equals("Grace").run().unwrap();
    assert_eq!(ids(&r), vec!["5"]);
}

#[test]
fn find_missing_table_is_empty() {
    let mut db = JsonDB::new();
    assert_eq!(db.find("nothing").run(), Ok(vec![]));
}

#[test]
fn add_table_is_idempotent() {
    let mut db = four_records();
    db.add_table("todo").unwrap();
    assert_eq!(table_ids(&mut db, "todo"), vec!["1", "2", "3", "4"]);
    db.add_table("empty").unwrap();
    assert_eq!(db.get_table_vec("empty"), Ok(vec![]));
    assert_eq!(db.get_table_vec("missing"), Err(DbError::NotFound));
}

#[test]
fn pending_method_is_the_latest() {
    let mut db = JsonDB::new();
    db.find("a").where_("x").delete("b");
    assert_eq!(db.pending_method(), Some(&MethodName::Delete("b".to_string())));
}

#[test]
fn update_todo_in_record_list() {
    let mut records = vec![todo("1", 1, Status::Pending), todo("2", 2, Status::Pending)];
    let r = JsonDB::update_todo(&mut records, "2", todo("2", 22, Status::Completed));
    assert_eq!(r, Ok(todo("2", 22, Status::Completed)));
    assert_eq!(records, vec![todo("1", 1, Status::Pending), todo("2", 22, Status::Completed)]);
    let r = JsonDB::update_todo(&mut records, "3", todo("3", 3, Status::Pending));
    assert_eq!(r, Err(DbError::NotFound));
    assert_eq!(records.len(), 2);
}
