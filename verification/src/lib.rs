//! A hierarchical spreadsheet document.
//!
//! Cells are addressed by paths of `(row, col)` pairs from a named root down
//! through nested grids, hold grammar nodes, and are edited through a single
//! state-transition function.
//!
//! - [`coordinate`]: addresses and their algebra.
//! - [`address`]: the textual form of addresses, read and written;
//!   [`address_laws`]: reading and writing invert each other.
//! - [`grammar`]: the nodes that cells hold.
//! - [`table`]: a keyed table that keeps the order of arrival.
//! - [`session`]: a document, its invariants and its queries;
//!   [`session_laws`]: the written form of a document is read back.
//! - [`engine`]: the operations that change a document; [`engine_laws`]:
//!   which invariants they keep, and when.
//! - [`model`]: the state of the application and its actions;
//!   [`model_laws`]: what the transitions keep.
//! - [`driver`]: the files of a driver.
//! - [`error`]: the reasons for which an operation is refused.

pub mod address;
pub mod address_laws;
pub mod coordinate;
pub mod driver;
pub mod engine;
pub mod engine_laws;
pub mod error;
pub mod grammar;
pub mod model;
pub mod model_laws;
pub mod session;
pub mod session_laws;
pub mod table;
