//! Encoding of table rows as CSV records.
use crate::schema::{fields, schema};
use vstd::prelude::*;

verus! {

#[verifier::external_type_specification]
#[verifier::external_body]
pub struct ExCsvError(csv::Error);

/// Whether a byte forces its field into quotes: the delimiter `,`, the quote
/// `"`, or a line break `\r` or `\n`.
pub open spec fn is_special(b: u8) -> bool {
    b == 44 || b == 34 || b == 13 || b == 10
}

/// Whether a field has to be quoted.
pub open spec fn needs_quotes(field: Seq<u8>) -> bool {
    exists|k: int| 0 <= k < field.len() && is_special(#[trigger] field[k])
}

/// A field's bytes with every quote doubled.
pub open spec fn doubled_quotes(field: Seq<u8>) -> Seq<u8>
    decreases field.len(),
{
    if field.len() == 0 {
        Seq::empty()
    } else {
        doubled_quotes(field.drop_last()) + if field.last() == 34 {
            seq![34u8, 34u8]
        } else {
            seq![field.last()]
        }
    }
}

/// One field as written in a record: quoted, with quotes doubled, where it
/// holds a special byte; as it is otherwise.
pub open spec fn csv_field(field: Seq<u8>) -> Seq<u8> {
    if needs_quotes(field) {
        seq![34u8] + doubled_quotes(field) + seq![34u8]
    } else {
        field
    }
}

/// The written fields, separated by commas.
pub open spec fn joined_fields(cells: Seq<Seq<u8>>) -> Seq<u8>
    decreases cells.len(),
{
    if cells.len() == 0 {
        Seq::empty()
    } else if cells.len() == 1 {
        csv_field(cells[0])
    } else {
        joined_fields(cells.drop_last()) + seq![44u8] + csv_field(cells.last())
    }
}

/// One CSV record holding `cells` in order: the joined fields (or `""` where
/// they would leave the line empty), then a line feed.
pub open spec fn csv_record(cells: Seq<Seq<u8>>) -> Seq<u8> {
    let body = joined_fields(cells);
    (if body.len() == 0 {
        seq![34u8, 34u8]
    } else {
        body
    }) + seq![10u8]
}

/// Relies on `csv::Writer::write_record` over an in-memory buffer (created by
/// `csv::Writer::from_writer` with the default settings, taken back by
/// `csv::Writer::into_inner`): it writes the record as `csv_record` states,
/// and it cannot fail, since writing to a `Vec` never fails and a single
/// record cannot differ in length from an earlier one.
#[verifier::external_body]
fn write_csv_record(cells: &Vec<Vec<u8>>) -> (r: Result<Vec<u8>, csv::Error>)
    ensures
        r is Ok,
        r matches Ok(b) ==> b@ == csv_record(cells.deep_view()),
{
    let mut writer = csv::Writer::from_writer(Vec::new());
    writer.write_record(cells)?;
    writer.into_inner().map_err(|e| csv::Error::from(e.into_error()))
}

/// Encodes one row of cells as a CSV record.
pub fn encode_row(cells: &Vec<Vec<u8>>) -> (r: Vec<u8>)
    ensures
        r@ == csv_record(cells.deep_view()),
{
    match write_csv_record(cells) {
        Ok(b) => b,
        Err(_) => {
            // ruled out by the writer's contract
            proof {
                assert(false);
            }
            Vec::new()
        },
    }
}

/// Encodes the header row: the schema's column names, in column order.
pub fn header_row() -> (r: Vec<u8>)
    ensures
        r@ == csv_record(schema()),
{
    let names = fields();
    encode_row(&names)
}

} // verus!
