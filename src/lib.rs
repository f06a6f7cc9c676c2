//! A spreadsheet-like table kept in a Loro CRDT document: ordered columns,
//! ordered rows, and one nested map of cells per row.
pub mod cell;
pub mod engine;
pub mod ids;
pub mod keys;
pub mod laws;
pub mod table;

pub use cell::parse_cell;
pub use ids::next_unique_id;
pub use table::{is_scalar, Column, DecodeError, EncodeError, ImportError, LoroTable, Row, Rows};
