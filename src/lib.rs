//! A read-only reader for the SQLite 3 database file format.
//!
//! The library decodes the paged B-tree storage of a database image held in
//! memory, rebuilds rows from records, walks table and index B-trees, reads the
//! schema catalog, and answers a small subset of SQL.
use vstd::prelude::*;

pub mod catalog;
pub mod cell;
pub mod commands;
pub mod database;
pub mod error;
pub mod record;
pub mod schema;
pub mod text;
pub mod varint;
pub mod view;

pub use catalog::{SchemaObject, TableRow, TableRows};
pub use cell::Cell;
pub use commands::{execute_command, ComparisonOperator, QueryOutput, WhereCondition};
pub use database::{Database, IndexCell};
pub use error::DbError;
pub use record::{Record, RecordHeader, RecordValue};
pub use schema::{ColumnInfo, TableSchema};
pub use varint::read_varint;
pub use view::{AppMode, InputMode, QueryResult, ViewState};

verus! {

} // verus!
