use vstd::prelude::*;
use vstd::string::*;

use crate::query::DbError;
use crate::types::{Date, DateView, Name, NameView, Status, ToDo, ToDoView, User, UserView};

verus! {

/// The mathematical form of a structural value: the tree that a record
/// projects to, as JSON would show it.
pub enum Json {
    Null,
    Bool(bool),
    Number(u64),
    Str(Seq<char>),
    Array(Seq<Json>),
    Object(Seq<(Seq<char>, Json)>),
}

/// A structural value: null, a boolean, an unsigned number, a string, an
/// array, or a map from keys to values (kept in insertion order).
#[derive(Debug, PartialEq)]
pub enum Value {
    Null,
    Bool(bool),
    Number(u64),
    Str(String),
    Array(Vec<Value>),
    Object(Vec<(String, Value)>),
}

/// The tree that a value stands for.
pub open spec fn value_json(v: &Value) -> Json
    decreases v,
{
    match v {
        Value::Null => Json::Null,
        Value::Bool(b) => Json::Bool(*b),
        Value::Number(n) => Json::Number(*n),
        Value::Str(s) => Json::Str(s@),
        Value::Array(items) => Json::Array(
            Seq::new(
                items@.len(),
                |i: int|
                    if 0 <= i < items@.len() {
                        value_json(&items@[i])
                    } else {
                        Json::Null
                    },
            ),
        ),
        Value::Object(entries) => Json::Object(
            Seq::new(
                entries@.len(),
                |i: int|
                    if 0 <= i < entries@.len() {
                        (entries@[i].0@, value_json(&entries@[i].1))
                    } else {
                        (Seq::empty(), Json::Null)
                    },
            ),
        ),
    }
}

impl View for Value {
    type V = Json;

    open spec fn view(&self) -> Json {
        value_json(self)
    }
}

// ----- projection of records -----

pub open spec fn status_json(s: Status) -> Json {
    match s {
        Status::Pending => Json::Str("Pending"@),
        Status::Completed => Json::Str("Completed"@),
        Status::Archived => Json::Str("Archived"@),
    }
}

pub open spec fn name_json(n: NameView) -> Json {
    Json::Object(seq![("first"@, Json::Str(n.first)), ("last"@, Json::Str(n.last))])
}

pub open spec fn user_json(u: UserView) -> Json {
    Json::Object(seq![("name"@, name_json(u.name)), ("email"@, Json::Str(u.email))])
}

pub open spec fn date_json(d: DateView) -> Json {
    Json::Object(seq![("start"@, Json::Str(d.start)), ("end"@, Json::Str(d.end))])
}

/// The tree of a record: a map with one entry per field, in field order;
/// the status is its variant's name, the tags an array of strings.
pub open spec fn todo_json(t: ToDoView) -> Json {
    Json::Object(
        seq![
            ("id"@, Json::Str(t.id)),
            ("text"@, Json::Str(t.text)),
            ("status"@, status_json(t.status)),
            ("user"@, user_json(t.user)),
            ("date"@, date_json(t.date)),
            ("point"@, Json::Number(t.point)),
            ("tags"@, Json::Array(t.tags.map_values(|s: Seq<char>| Json::Str(s)))),
        ],
    )
}

fn entry(key: &str, v: Value) -> (r: (String, Value))
    ensures
        r.0@ == key@,
        r.1 == v,
{
    (key.to_owned(), v)
}

impl Status {
    /// The value tree of a status: its variant's name.
    pub fn to_value(&self) -> (r: Value)
        ensures
            r@ == status_json(*self),
    {
        let s = match self {
            Status::Pending => "Pending",
            Status::Completed => "Completed",
            Status::Archived => "Archived",
        };
        Value::Str(s.to_owned())
    }
}

impl Name {
    pub fn to_value(&self) -> (r: Value)
        ensures
            r@ == name_json(self@),
    {
        let mut entries: Vec<(String, Value)> = Vec::new();
        entries.push(entry("first", Value::Str(self.first.clone())));
        entries.push(entry("last", Value::Str(self.last.clone())));
        let r = Value::Object(entries);
        proof {
            reveal_with_fuel(value_json, 2);
            assert(r@->Object_0 =~= name_json(self@)->Object_0);
        }
        r
    }
}

impl User {
    pub fn to_value(&self) -> (r: Value)
        ensures
            r@ == user_json(self@),
    {
        let mut entries: Vec<(String, Value)> = Vec::new();
        entries.push(entry("name", self.name.to_value()));
        entries.push(entry("email", Value::Str(self.email.clone())));
        let r = Value::Object(entries);
        proof {
            reveal_with_fuel(value_json, 2);
            assert(r@->Object_0 =~= user_json(self@)->Object_0);
        }
        r
    }
}

impl Date {
    pub fn to_value(&self) -> (r: Value)
        ensures
            r@ == date_json(self@),
    {
        let mut entries: Vec<(String, Value)> = Vec::new();
        entries.push(entry("start", Value::Str(self.start.clone())));
        entries.push(entry("end", Value::Str(self.end.clone())));
        let r = Value::Object(entries);
        proof {
            reveal_with_fuel(value_json, 2);
            assert(r@->Object_0 =~= date_json(self@)->Object_0);
        }
        r
    }
}

/// An array of string values, one per string.
fn strings_to_value(v: &Vec<String>) -> (r: Value)
    ensures
        r@ == Json::Array(v.deep_view().map_values(|s: Seq<char>| Json::Str(s))),
{
    let mut items: Vec<Value> = Vec::new();
    let mut i: usize = 0;
    while i < v.len()
        invariant
            i <= v.len(),
            items.len() == i,
            forall|j: int| 0 <= j < i ==> (#[trigger] items[j])@ == Json::Str(v[j]@),
        decreases v.len() - i,
    {
        items.push(Value::Str(v[i].clone()));
        i = i + 1;
    }
    let r = Value::Array(items);
    proof {
        reveal_with_fuel(value_json, 2);
        assert(r@->Array_0 =~= v.deep_view().map_values(|s: Seq<char>| Json::Str(s)));
    }
    r
}

impl ToDo {
    /// The value tree of the record (see `todo_json`).
    pub fn to_value(&self) -> (r: Value)
        ensures
            r@ == todo_json(self@),
    {
        let mut entries: Vec<(String, Value)> = Vec::new();
        entries.push(entry("id", Value::Str(self.id.clone())));
        entries.push(entry("text", Value::Str(self.text.clone())));
        entries.push(entry("status", self.status.to_value()));
        entries.push(entry("user", self.user.to_value()));
        entries.push(entry("date", self.date.to_value()));
        entries.push(entry("point", Value::Number(self.point)));
        entries.push(entry("tags", strings_to_value(&self.tags)));
        let r = Value::Object(entries);
        proof {
            reveal_with_fuel(value_json, 2);
            assert(r@->Object_0 =~= todo_json(self@)->Object_0);
        }
        r
    }
}

// ----- paths -----

/// The segments of a dot-separated path: the text between dots, so that
/// `n` dots give `n + 1` segments, some of them possibly empty.
pub open spec fn split_path(s: Seq<char>) -> Seq<Seq<char>>
    decreases s.len(),
{
    if s.len() == 0 {
        seq![Seq::empty()]
    } else {
        let prev = split_path(s.drop_last());
        if s.last() == '.' {
            prev.push(Seq::empty())
        } else {
            prev.update(prev.len() - 1, prev.last().push(s.last()))
        }
    }
}

proof fn lemma_split_path_nonempty(s: Seq<char>)
    ensures
        split_path(s).len() >= 1,
    decreases s.len(),
{
    if s.len() > 0 {
        lemma_split_path_nonempty(s.drop_last());
    }
}

/// The segments of `path`, split at each '.'.
pub fn split_key_chain(path: &str) -> (r: Vec<String>)
    ensures
        r.deep_view() == split_path(path@),
{
    let n = path.unicode_len();
    let mut parts: Vec<String> = Vec::new();
    let mut start: usize = 0;
    let mut i: usize = 0;
    proof {
        assert(path@.subrange(0, 0) =~= Seq::<char>::empty());
        assert(parts.deep_view() =~= Seq::<Seq<char>>::empty());
        assert(split_path(Seq::<char>::empty()) == seq![Seq::<char>::empty()]);
    }
    while i < n
        invariant
            n == path@.len(),
            start <= i <= n,
            parts.deep_view().push(path@.subrange(start as int, i as int)) == split_path(
                path@.subrange(0, i as int),
            ),
        decreases n - i,
    {
        let c = path.get_char(i);
        proof {
            let s = path@.subrange(0, i + 1);
            assert(s.drop_last() =~= path@.subrange(0, i as int));
            lemma_split_path_nonempty(s.drop_last());
        }
        if c == '.' {
            let seg = path.substring_char(start, i).to_owned();
            parts.push(seg);
            start = i + 1;
            proof {
                assert(path@.subrange(start as int, (i + 1) as int) =~= Seq::<char>::empty());
            }
        } else {
            proof {
                assert(path@.subrange(start as int, (i + 1) as int) =~= path@.subrange(
                    start as int,
                    i as int,
                ).push(c));
            }
        }
        i = i + 1;
        proof {
            assert(parts.deep_view().push(path@.subrange(start as int, i as int))
                =~= split_path(path@.subrange(0, i as int)));
        }
    }
    let last = path.substring_char(start, n).to_owned();
    parts.push(last);
    proof {
        assert(path@.subrange(0, n as int) =~= path@);
        assert(parts.deep_view() =~= split_path(path@));
    }
    parts
}

// ----- resolution -----

/// The value under `key` in a map's entries: that of the first entry
/// with this key.
pub open spec fn lookup(entries: Seq<(Seq<char>, Json)>, key: Seq<char>) -> Option<Json>
    decreases entries.len(),
{
    if entries.len() == 0 {
        None
    } else if entries[0].0 == key {
        Some(entries[0].1)
    } else {
        lookup(entries.drop_first(), key)
    }
}

/// One map-key lookup: `InvalidInput` on a node that is not a map,
/// `NotFound` where the map has no such key.
pub open spec fn field_of(v: Json, key: Seq<char>) -> Result<Json, DbError> {
    match v {
        Json::Object(entries) => match lookup(entries, key) {
            Some(c) => Ok(c),
            None => Err(DbError::NotFound),
        },
        _ => Err(DbError::InvalidInput),
    }
}

/// The value at a sequence of keys, looked up one after the other.
pub open spec fn resolve(v: Json, keys: Seq<Seq<char>>) -> Result<Json, DbError>
    decreases keys.len(),
{
    if keys.len() == 0 {
        Ok(v)
    } else {
        match field_of(v, keys[0]) {
            Ok(c) => resolve(c, keys.drop_first()),
            Err(e) => Err(e),
        }
    }
}

/// The value at a dot-separated path.
pub open spec fn resolve_path(v: Json, path: Seq<char>) -> Result<Json, DbError> {
    resolve(v, split_path(path))
}

pub open spec fn result_view(r: Result<&Value, DbError>) -> Result<Json, DbError> {
    match r {
        Ok(v) => Ok(v@),
        Err(e) => Err(e),
    }
}

proof fn lemma_resolve_step(v: Json, keys: Seq<Seq<char>>, i: int, c: Json)
    requires
        0 <= i < keys.len(),
        resolve(v, keys.take(i)) == Ok::<Json, DbError>(c),
    ensures
        resolve(v, keys.take(i + 1)) == match field_of(c, keys[i]) {
            Ok(d) => Ok(d),
            Err(e) => Err(e),
        },
    decreases i,
{
    assert(keys.take(i + 1)[0] == keys[0]);
    if i == 0 {
        assert(keys.take(0) =~= Seq::<Seq<char>>::empty());
        assert(keys.take(1).drop_first() =~= Seq::<Seq<char>>::empty());
        match field_of(c, keys[0]) {
            Ok(d) => {
                assert(resolve(d, keys.take(1).drop_first()) == Ok::<Json, DbError>(d));
            },
            Err(e) => {},
        }
    } else {
        assert(keys.take(i)[0] == keys[0]);
        match field_of(v, keys[0]) {
            Ok(c0) => {
                let rest = keys.drop_first();
                assert(keys.take(i).drop_first() =~= rest.take(i - 1));
                assert(keys.take(i + 1).drop_first() =~= rest.take(i));
                assert(rest[i - 1] == keys[i]);
                lemma_resolve_step(c0, rest, i - 1, c);
            },
            Err(e) => {},
        }
    }
}

proof fn lemma_resolve_error_stays(v: Json, keys: Seq<Seq<char>>, i: int, e: DbError)
    requires
        0 <= i <= keys.len(),
        resolve(v, keys.take(i)) == Err::<Json, DbError>(e),
    ensures
        resolve(v, keys) == Err::<Json, DbError>(e),
    decreases i,
{
    if i > 0 {
        assert(keys.take(i)[0] == keys[0]);
        match field_of(v, keys[0]) {
            Ok(c0) => {
                let rest = keys.drop_first();
                assert(keys.take(i).drop_first() =~= rest.take(i - 1));
                lemma_resolve_error_stays(c0, rest, i - 1, e);
            },
            Err(e0) => {},
        }
    }
}

/// The value under `field` in a map node (one lookup, no splitting).
pub fn get_field_by_name<'a>(data: &'a Value, field: &str) -> (r: Result<&'a Value, DbError>)
    ensures
        result_view(r) == field_of(data@, field@),
{
    match data {
        Value::Object(entries) => {
            let ghost es = data@->Object_0;
            let key = field.to_owned();
            let mut i: usize = 0;
            assert(es.subrange(0, es.len() as int) =~= es);
            while i < entries.len()
                invariant
                    data@ == Json::Object(es),
                    es.len() == entries.len(),
                    forall|j: int| 0 <= j < entries.len() ==> es[j].0 == (#[trigger] entries[j]).0@,
                    forall|j: int| 0 <= j < entries.len() ==> es[j].1 == (#[trigger] entries[j]).1@,
                    i <= entries.len(),
                    key@ == field@,
                    lookup(es, field@) == lookup(es.subrange(i as int, es.len() as int), field@),
                decreases entries.len() - i,
            {
                let ghost rest = es.subrange(i as int, es.len() as int);
                assert(rest[0] == es[i as int]);
                assert(rest.drop_first() =~= es.subrange(i + 1, es.len() as int));
                if entries[i].0 == key {
                    return Ok(&entries[i].1);
                }
                i = i + 1;
            }
            Err(DbError::NotFound)
        },
        _ => Err(DbError::InvalidInput),
    }
}

/// The value at a dot-separated path: each segment is a map-key lookup.
/// `NotFound` where a segment is absent, `InvalidInput` where a segment is
/// applied to a node that is not a map.
pub fn get_nested_value<'a>(data: &'a Value, key_chain: &str) -> (r: Result<&'a Value, DbError>)
    ensures
        result_view(r) == resolve_path(data@, key_chain@),
{
    let parts = split_key_chain(key_chain);
    let ghost keys = parts.deep_view();
    let mut current: &Value = data;
    let mut i: usize = 0;
    proof {
        assert(keys.take(0) =~= Seq::<Seq<char>>::empty());
    }
    while i < parts.len()
        invariant
            keys == parts.deep_view(),
            keys == split_path(key_chain@),
            i <= parts.len(),
            resolve(data@, keys.take(i as int)) == Ok::<Json, DbError>(current@),
        decreases parts.len() - i,
    {
        proof {
            lemma_resolve_step(data@, keys, i as int, current@);
        }
        match get_field_by_name(current, parts[i].as_str()) {
            Ok(next) => {
                current = next;
            },
            Err(e) => {
                proof {
                    lemma_resolve_error_stays(data@, keys, i + 1, e);
                }
                return Err(e);
            },
        }
        i = i + 1;
    }
    proof {
        assert(keys.take(i as int) =~= keys);
    }
    Ok(current)
}

/// The value at a dot-separated path, or `None` where it cannot be resolved.
pub fn get_key_chain_value<'a>(data: &'a Value, key_chain: &str) -> (r: Option<&'a Value>)
    ensures
        r matches Some(v) ==> resolve_path(data@, key_chain@) == Ok::<Json, DbError>(v@),
        r is None <==> resolve_path(data@, key_chain@) is Err,
{
    match get_nested_value(data, key_chain) {
        Ok(v) => Some(v),
        Err(_) => None,
    }
}

} // verus!
