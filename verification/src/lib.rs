//! Reconstructs the state of a relational table at arbitrary points in time
//! by aligning a point-in-time snapshot with the ordered stream of row-level
//! changes recorded in a text change log.
//!
//! The stream is parsed from the log's line grammar into invertible row
//! operations ([`parser`], [`lines`], [`operation`]); a conditional applier
//! decides whether the store's current state admits each operation and what
//! statement performs it ([`applier`]); a normaliser anchors the snapshot to
//! a deterministic position inside the time window around its approximate
//! timestamp ([`normaliser`], [`timestamp`]); and a cursor walks the aligned
//! stream in either direction ([`manager`], [`pensieve`]). The embedded SQL
//! store itself is an outside collaborator: the library plans statements and
//! decisions, and the caller runs them.

pub mod applier;
pub mod binlog_sql;
pub mod lines;
pub mod loader;
pub mod manager;
pub mod normaliser;
pub mod operation;
pub mod parser;
pub mod pensieve;
pub mod schema;
pub mod script;
pub mod strutil;
pub mod timestamp;

pub use operation::{BinlogOperation, OperationType};
