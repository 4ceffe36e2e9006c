//! Parse events and the table that a sequence of them describes.
use crate::schema::{recognized, schema, FIELD_COUNT};
use crate::table::csv_record;
use vstd::prelude::*;

verus! {

/// One event of a game-record parser, as far as the table is concerned.
pub enum GameEvent {
    /// A header tag pair of the current game.
    Header { key: Vec<u8>, value: Vec<u8> },
    /// Move text, an annotation, a comment, a variation or an outcome: not kept.
    Other,
    /// All headers and moves of the current game have been delivered.
    EndGame,
}

/// The values collected for the game in progress: one optional value per
/// column.
pub open spec fn empty_record() -> Seq<Option<Seq<u8>>> {
    Seq::new(FIELD_COUNT as nat, |i: int| None)
}

/// The column that a recognized key names.
pub open spec fn slot_of(key: Seq<u8>) -> int {
    choose|i: int| 0 <= i < FIELD_COUNT && schema()[i] == key
}

/// The record after a header: a recognized key overwrites its column's value,
/// any other key leaves the record unchanged.
pub open spec fn with_header(
    record: Seq<Option<Seq<u8>>>,
    key: Seq<u8>,
    value: Seq<u8>,
) -> Seq<Option<Seq<u8>>> {
    if recognized(key) {
        record.update(slot_of(key), Some(value))
    } else {
        record
    }
}

/// The row for a record: each column's value, or an empty cell where none
/// was seen.
pub open spec fn row_of(record: Seq<Option<Seq<u8>>>) -> Seq<Seq<u8>> {
    Seq::new(
        record.len(),
        |i: int|
            match record[i] {
                Some(v) => v,
                None => Seq::empty(),
            },
    )
}

/// The state reached after some events: the record of the game in progress
/// and the data rows emitted so far.
pub struct TableState {
    pub record: Seq<Option<Seq<u8>>>,
    pub rows: Seq<Seq<Seq<u8>>>,
}

/// The effect of one event.
pub open spec fn step(s: TableState, e: GameEvent) -> TableState {
    match e {
        GameEvent::Header { key, value } => TableState {
            record: with_header(s.record, key@, value@),
            rows: s.rows,
        },
        GameEvent::Other => s,
        GameEvent::EndGame => TableState { record: empty_record(), rows: s.rows.push(row_of(s.record)) },
    }
}

/// The state after `events`, starting from an empty record and no rows.
pub open spec fn run(events: Seq<GameEvent>) -> TableState
    decreases events.len(),
{
    if events.len() == 0 {
        TableState { record: empty_record(), rows: Seq::empty() }
    } else {
        step(run(events.drop_last()), events.last())
    }
}

/// The table for `events`: the header row, then one data row per game.
pub open spec fn table(events: Seq<GameEvent>) -> Seq<Seq<Seq<u8>>> {
    seq![schema()] + run(events).rows
}

/// The CSV bytes of `rows`, one record after another.
pub open spec fn records_bytes(rows: Seq<Seq<Seq<u8>>>) -> Seq<u8>
    decreases rows.len(),
{
    if rows.len() == 0 {
        Seq::empty()
    } else {
        records_bytes(rows.drop_last()) + csv_record(rows.last())
    }
}

/// The CSV bytes of the table for `events`.
pub open spec fn table_bytes(events: Seq<GameEvent>) -> Seq<u8> {
    records_bytes(table(events))
}

} // verus!
