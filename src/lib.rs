//! Converts streams of chess game records into CSV tables of per-game
//! metadata: a fixed field schema selects and orders the header tags kept,
//! one row is emitted per game, and progress is reported periodically.

pub mod converter;
pub mod laws;
pub mod model;
pub mod schema;
pub mod table;

pub use converter::{convert, Converter, PROGRESS_INTERVAL};
pub use model::GameEvent;
pub use schema::{field_bytes, field_index, field_name, fields, is_recognized, FIELD_COUNT};
pub use table::{encode_row, header_row};
