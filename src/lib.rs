//! Content-addressed, verifiable storage records: self-addressing identifiers,
//! versioned lineages, storable metadata and a backend-neutral query algebra
//! with a relational and a document dialect.

pub mod binding;
pub mod canonical;
pub mod cesr;
pub mod distinct;
pub mod error;
pub mod naming;
pub mod postgres;
pub mod query;
pub mod record;
pub mod repository;
pub mod said;
pub mod sql;
pub mod storable;
pub mod surreal;
pub mod text;
pub mod time;

pub use error::StorageError;
pub use naming::{to_camel_case, ColumnType};
pub use query::{Delete, Filter, Join, Order, Query, Value};
pub use record::{FieldDecl, FieldRole, FieldValue, Record, RecordSchema};
pub use repository::{ConnectionConfig, UnversionedRepository, VersionedRepository};
pub use said::SaidEncoding;
pub use storable::{build_insert_sql, Storable};
pub use time::StorageDatetime;
