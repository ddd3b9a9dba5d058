use vstd::prelude::*;

verus! {

/// Progress of a to-do item.
#[derive(Debug, PartialEq, Eq, Structural, Clone, Copy, Hash)]
pub enum Status {
    Pending,
    Completed,
    Archived,
}

impl Default for Status {
    fn default() -> (r: Status)
        ensures
            r == Status::Archived,
    {
        Status::Archived
    }
}

/// A person's first and last name.
#[derive(Debug, PartialEq, Eq, Hash, Default)]
pub struct Name {
    pub first: String,
    pub last: String,
}

/// The owner of a to-do item.
#[derive(Debug, PartialEq, Eq, Hash, Default)]
pub struct User {
    pub name: Name,
    pub email: String,
}

/// The period a to-do item covers, as two date strings.
#[derive(Debug, PartialEq, Eq, Hash, Default)]
pub struct Date {
    pub start: String,
    pub end: String,
}

/// A record of the store, identified by `id`.
#[derive(Debug, PartialEq, Eq, Hash)]
pub struct ToDo {
    pub id: String,
    pub text: String,
    pub status: Status,
    pub user: User,
    pub date: Date,
    pub point: u64,
    pub tags: Vec<String>,
}

/// Either one record or a list of them.
#[derive(Debug)]
pub enum Data {
    SingleTodo(ToDo),
    ListOfTodos(Vec<ToDo>),
}

/// The mathematical content of a `Name`.
pub struct NameView {
    pub first: Seq<char>,
    pub last: Seq<char>,
}

/// The mathematical content of a `User`.
pub struct UserView {
    pub name: NameView,
    pub email: Seq<char>,
}

/// The mathematical content of a `Date`.
pub struct DateView {
    pub start: Seq<char>,
    pub end: Seq<char>,
}

/// The mathematical content of a `ToDo`: two records are the same
/// record exactly when their views are equal.
pub struct ToDoView {
    pub id: Seq<char>,
    pub text: Seq<char>,
    pub status: Status,
    pub user: UserView,
    pub date: DateView,
    pub point: u64,
    pub tags: Seq<Seq<char>>,
}

impl View for Name {
    type V = NameView;

    open spec fn view(&self) -> NameView {
        NameView { first: self.first@, last: self.last@ }
    }
}

impl View for User {
    type V = UserView;

    open spec fn view(&self) -> UserView {
        UserView { name: self.name@, email: self.email@ }
    }
}

impl View for Date {
    type V = DateView;

    open spec fn view(&self) -> DateView {
        DateView { start: self.start@, end: self.end@ }
    }
}

impl View for ToDo {
    type V = ToDoView;

    open spec fn view(&self) -> ToDoView {
        ToDoView {
            id: self.id@,
            text: self.text@,
            status: self.status,
            user: self.user@,
            date: self.date@,
            point: self.point,
            tags: self.tags.deep_view(),
        }
    }
}

/// The views of a sequence of records, in the same order.
pub open spec fn records_view(v: Seq<ToDo>) -> Seq<ToDoView> {
    v.map_values(|t: ToDo| t@)
}

impl Clone for Name {
    fn clone(&self) -> (r: Self)
        ensures
            r@ == self@,
    {
        Name { first: self.first.clone(), last: self.last.clone() }
    }
}

impl Clone for User {
    fn clone(&self) -> (r: Self)
        ensures
            r@ == self@,
    {
        User { name: self.name.clone(), email: self.email.clone() }
    }
}

impl Clone for Date {
    fn clone(&self) -> (r: Self)
        ensures
            r@ == self@,
    {
        Date { start: self.start.clone(), end: self.end.clone() }
    }
}

impl Clone for ToDo {
    fn clone(&self) -> (r: Self)
        ensures
            r@ == self@,
    {
        broadcast use vstd::std_specs::vec::group_vec_axioms;

        ToDo {
            id: self.id.clone(),
            text: self.text.clone(),
            status: self.status,
            user: self.user.clone(),
            date: self.date.clone(),
            point: self.point,
            tags: self.tags.clone(),
        }
    }
}

/// The view of the record that `ToDo::default` returns.
pub open spec fn default_todo() -> ToDoView {
    ToDoView {
        id: "1"@,
        text: "Learn Rust"@,
        status: Status::Pending,
        user: UserView {
            name: NameView { first: "John"@, last: "Doe"@ },
            email: "admin@gmail.com"@,
        },
        date: DateView { start: "2024-01-01"@, end: "2025-01-01"@ },
        point: 100,
        tags: seq!["rust"@, "programming"@],
    }
}

impl Default for ToDo {
    fn default() -> (r: Self)
        ensures
            r@ == default_todo(),
    {
        let mut tags: Vec<String> = Vec::new();
        tags.push("rust".to_owned());
        tags.push("programming".to_owned());
        let r = ToDo {
            id: "1".to_owned(),
            text: "Learn Rust".to_owned(),
            status: Status::Pending,
            user: User {
                name: Name { first: "John".to_owned(), last: "Doe".to_owned() },
                email: "admin@gmail.com".to_owned(),
            },
            date: Date { start: "2024-01-01".to_owned(), end: "2025-01-01".to_owned() },
            point: 100,
            tags,
        };
        assert(r.tags.deep_view() =~= seq!["rust"@, "programming"@]);
        r
    }
}

} // verus!
