use ohmydb::{
    get_field_by_name, get_key_chain_value, get_nested_value, split_key_chain, Date, DbError, Name,
    Status, ToDo, User, Value,
};

fn todo(id: &str, point: u64, status: Status) -> ToDo {
    ToDo {
        id: id.to_string(),
        text: format!("task {}", id),
        status,
        user: User {
            name: Name { first: "Ada".to_string(), last: "Lovelace".to_string() },
            email: "ada@example.com".to_string(),
        },
        date: Date { start: "2024-01-01".to_string(), end: "2024-12-31".to_string() },
        point,
        tags: vec!["work".to_string()],
    }
}

#[test]
fn default_todo_fields() {
    let t = ToDo::default();
    assert_eq!(t.id, "1");
    assert_eq!(t.text, "Learn Rust");
    assert_eq!(t.status, Status::Pending);
    assert_eq!(t.user.name.first, "John");
    assert_eq!(t.user.name.last, "Doe");
    assert_eq!(t.user.email, "admin@gmail.com");
    assert_eq!(t.date.start, "2024-01-01");
    assert_eq!(t.date.end, "2025-01-01");
    assert_eq!(t.point, 100);
    assert_eq!(t.tags, vec!["rust".to_string(), "programming".to_string()]);
}

#[test]
fn default_status_is_archived() {
    assert_eq!(Status::default(), Status::Archived);
}

#[test]
fn clone_keeps_every_field() {
    let t = todo("7", 70, Status::Completed);
    let c = t.clone();
    assert_eq!(c, t);
}

#[test]
fn record_tree_has_fields_in_order() {
    let t = todo("3", 300, Status::Pending);
    match t.to_value() {
        Value::Object(entries) => {
            let keys: Vec<&str> = entries.iter().map(|(k, _)| k.as_str()).collect();
            assert_eq!(keys, vec!["id", "text", "status", "user", "date", "point", "tags"]);
            assert_eq!(entries[2].1, Value::Str("Pending".to_string()));
            assert_eq!(entries[5].1, Value::Number(300));
            assert_eq!(entries[6].1, Value::Array(vec![Value::Str("work".to_string())]));
        }
        other => panic!("expected a map, got {:?}", other),
    }
}

#[test]
fn nested_path_resolves() {
    let tree = todo("3", 300, Status::Pending).to_value();
    assert_eq!(get_nested_value(&tree, "user.name.first"), Ok(&Value::Str("Ada".to_string())));
    assert_eq!(get_nested_value(&tree, "point"), Ok(&Value::Number(300)));
    assert_eq!(get_nested_value(&tree, "status"), Ok(&Value::Str("Pending".to_string())));
}

#[test]
fn missing_segment_is_not_found() {
    let tree = todo("3", 300, Status::Pending).to_value();
    assert_eq!(get_nested_value(&tree, "user.phone"), Err(DbError::NotFound));
    assert_eq!(get_nested_value(&tree, ""), Err(DbError::NotFound));
}

#[test]
fn segment_into_scalar_is_invalid_input() {
    let tree = todo("3", 300, Status::Pending).to_value();
    assert_eq!(get_nested_value(&tree, "id.length"), Err(DbError::InvalidInput));
}

#[test]
fn no_positional_array_indexing() {
    let tree = todo("3", 300, Status::Pending).to_value();
    assert_eq!(get_nested_value(&tree, "tags.0"), Err(DbError::InvalidInput));
}

#[test]
fn field_by_name_does_not_split() {
    let tree = Value::Object(vec![("a.b".to_string(), Value::Bool(true))]);
    assert_eq!(get_field_by_name(&tree, "a.b"), Ok(&Value::Bool(true)));
    assert_eq!(get_nested_value(&tree, "a.b"), Err(DbError::NotFound));
    assert_eq!(get_field_by_name(&Value::Null, "a"), Err(DbError::InvalidInput));
}

#[test]
fn first_entry_with_a_key_wins() {
    let tree = Value::Object(vec![
        ("k".to_string(), Value::Number(1)),
        ("k".to_string(), Value::Number(2)),
    ]);
    assert_eq!(get_field_by_name(&tree, "k"), Ok(&Value::Number(1)));
}

#[test]
fn key_chain_value_is_optional() {
    let tree = todo("3", 300, Status::Pending).to_value();
    assert_eq!(get_key_chain_value(&tree, "date.end"), Some(&Value::Str("2024-12-31".to_string())));
    assert_eq!(get_key_chain_value(&tree, "date.middle"), None);
}

#[test]
fn key_chain_splits_at_every_dot() {
    assert_eq!(split_key_chain("a.b.c"), vec!["a".to_string(), "b".to_string(), "c".to_string()]);
    assert_eq!(split_key_chain(""), vec!["".to_string()]);
    assert_eq!(split_key_chain("a..b."), vec!["a".to_string(), "".to_string(), "b".to_string(), "".to_string()]);
}
