//! A read-only query engine over a single in-memory database image in the
//! SQLite file format.
//!
//! The caller hands every function the raw bytes of the database file; the
//! library decodes the page-structured storage and answers a small family of
//! introspection and SELECT queries. Nothing here performs I/O: reading the
//! file and printing results belong to the surrounding program.
//!
//! The layers, from the bottom up: byte helpers (`bytes`), the varint codec
//! (`varint`), the serial-type catalog (`serial`), the pager and page-header
//! decoder (`page`), the record decoder (`record`), the B-tree walker
//! (`btree`) and its visitors (`visitors`), the schema reader (`schema`),
//! the DDL column resolver (`ddl`), the SQL command parser (`sql`), the
//! query executor (`engine`), and the dispatcher (`dispatch`). The module
//! `laws` states and proves the properties that tie the layers together.

pub mod btree;
pub mod bytes;
pub mod ddl;
pub mod dispatch;
pub mod engine;
pub mod error;
pub mod laws;
pub mod page;
pub mod record;
pub mod schema;
pub mod serial;
pub mod sql;
pub mod varint;
pub mod visitors;
