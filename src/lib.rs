pub mod json_db;
pub mod laws;
pub mod query;
pub mod types;
pub mod value;

pub use json_db::{JsonDB, Table};
pub use query::{Comparator, DbError, MethodName, Runner};
pub use types::{Data, Date, Name, Status, ToDo, User};
pub use value::{get_field_by_name, get_key_chain_value, get_nested_value, split_key_chain, Value};
