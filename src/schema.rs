//! The fixed, ordered list of header tags that become the table's columns.
use crate::table::{csv_record, is_special, joined_fields, needs_quotes};
use vstd::prelude::*;
use vstd::slice::slice_to_vec;
use vstd::string::{is_ascii, is_ascii_spec_bytes};
use vstd::utf8::is_ascii_chars;

verus! {

/// Number of columns of the output table.
pub const FIELD_COUNT: usize = 11;

/// The name of column `i`.
pub open spec fn schema_name(i: int) -> Seq<char> {
    if i == 0 {
        "Event"@
    } else if i == 1 {
        "White"@
    } else if i == 2 {
        "Black"@
    } else if i == 3 {
        "Result"@
    } else if i == 4 {
        "UTCDate"@
    } else if i == 5 {
        "UTCTime"@
    } else if i == 6 {
        "WhiteElo"@
    } else if i == 7 {
        "BlackElo"@
    } else if i == 8 {
        "Opening"@
    } else if i == 9 {
        "TimeControl"@
    } else {
        "Termination"@
    }
}

/// The bytes of an ASCII text: one byte per character.
pub open spec fn ascii_bytes(s: Seq<char>) -> Seq<u8> {
    Seq::new(s.len(), |k: int| s[k] as u8)
}

/// The schema: every column name as bytes, in column order.
pub open spec fn schema() -> Seq<Seq<u8>> {
    Seq::new(FIELD_COUNT as nat, |i: int| ascii_bytes(schema_name(i)))
}

/// Whether `key` names a column.
pub open spec fn recognized(key: Seq<u8>) -> bool {
    exists|i: int| 0 <= i < FIELD_COUNT && schema()[i] == key
}

/// Every column name is ASCII and needs no quotes, no two columns share a
/// name, and the header record is the names separated by commas.
pub proof fn lemma_schema_names()
    ensures
        forall|i: int| 0 <= i < FIELD_COUNT ==> is_ascii_chars(#[trigger] schema_name(i)),
        forall|i: int| 0 <= i < FIELD_COUNT ==> !needs_quotes(#[trigger] schema()[i]),
        csv_record(schema()) == ascii_bytes(
            "Event,White,Black,Result,UTCDate,UTCTime,WhiteElo,BlackElo,Opening,TimeControl,Termination\n"@,
        ),
        forall|i: int, j: int|
            0 <= i < FIELD_COUNT && 0 <= j < FIELD_COUNT && i != j ==> #[trigger] schema()[i]
                != #[trigger] schema()[j],
{
    reveal_strlit("Event");
    reveal_strlit("White");
    reveal_strlit("Black");
    reveal_strlit("Result");
    reveal_strlit("UTCDate");
    reveal_strlit("UTCTime");
    reveal_strlit("WhiteElo");
    reveal_strlit("BlackElo");
    reveal_strlit("Opening");
    reveal_strlit("TimeControl");
    reveal_strlit("Termination");
    reveal_strlit(
        "Event,White,Black,Result,UTCDate,UTCTime,WhiteElo,BlackElo,Opening,TimeControl,Termination\n",
    );
    assert forall|i: int| 0 <= i < FIELD_COUNT implies !needs_quotes(#[trigger] schema()[i]) by {
        assert forall|k: int| 0 <= k < schema()[i].len() implies !is_special(
            #[trigger] schema()[i][k],
        ) by {
            assert(schema()[i][k] == schema_name(i)[k] as u8);
        }
    }
    assert forall|i: int, j: int|
        0 <= i < FIELD_COUNT && 0 <= j < FIELD_COUNT && i != j implies #[trigger] schema()[i]
            != #[trigger] schema()[j] by {
        if schema()[i] == schema()[j] {
            assert(schema()[i].len() == schema()[j].len());
            assert(schema()[i][0] == schema()[j][0]);
            assert(schema()[i][1] == schema()[j][1]);
            assert(schema()[i][4] == schema()[j][4]);
            assert(schema()[i][5] == schema()[j][5]);
        }
    }
    reveal_with_fuel(joined_fields, 12);
    assert(csv_record(schema()) =~= ascii_bytes(
        "Event,White,Black,Result,UTCDate,UTCTime,WhiteElo,BlackElo,Opening,TimeControl,Termination\n"@,
    ));
}

/// Column names are pairwise distinct.
pub proof fn lemma_schema_unique(i: int, j: int)
    requires
        0 <= i < FIELD_COUNT,
        0 <= j < FIELD_COUNT,
        i != j,
    ensures
        schema()[i] != schema()[j],
{
    lemma_schema_names();
}

/// The name of column `i`.
pub fn field_name(i: usize) -> (r: &'static str)
    requires
        i < FIELD_COUNT,
    ensures
        r@ == schema_name(i as int),
        is_ascii(r),
{
    proof {
        lemma_schema_names();
        assert(is_ascii_chars(schema_name(i as int)));
    }
    let r = if i == 0 {
        "Event"
    } else if i == 1 {
        "White"
    } else if i == 2 {
        "Black"
    } else if i == 3 {
        "Result"
    } else if i == 4 {
        "UTCDate"
    } else if i == 5 {
        "UTCTime"
    } else if i == 6 {
        "WhiteElo"
    } else if i == 7 {
        "BlackElo"
    } else if i == 8 {
        "Opening"
    } else if i == 9 {
        "TimeControl"
    } else {
        "Termination"
    };
    assert(r@ == schema_name(i as int));
    r
}

/// The bytes of the name of column `i`.
pub fn field_bytes(i: usize) -> (r: Vec<u8>)
    requires
        i < FIELD_COUNT,
    ensures
        r@ == schema()[i as int],
{
    let name = field_name(i);
    proof {
        is_ascii_spec_bytes(name);
    }
    let r = slice_to_vec(name.as_bytes());
    assert(r@ =~= schema()[i as int]);
    r
}

/// All column names as bytes, in column order.
pub fn fields() -> (r: Vec<Vec<u8>>)
    ensures
        r.deep_view() == schema(),
{
    let mut r: Vec<Vec<u8>> = Vec::new();
    let mut i: usize = 0;
    while i < FIELD_COUNT
        invariant
            i <= FIELD_COUNT,
            r@.len() == i,
            forall|k: int| 0 <= k < i ==> (#[trigger] r@[k]).deep_view() == schema()[k],
        decreases FIELD_COUNT - i,
    {
        let name = field_bytes(i);
        assert(name.deep_view() =~= name@);
        r.push(name);
        i = i + 1;
    }
    assert(r.deep_view() =~= schema());
    r
}

/// Whether two byte strings are equal.
fn bytes_equal(a: &[u8], b: &[u8]) -> (r: bool)
    ensures
        r == (a@ == b@),
{
    if a.len() != b.len() {
        return false;
    }
    let mut i: usize = 0;
    while i < a.len()
        invariant
            a@.len() == b@.len(),
            i <= a@.len(),
            forall|k: int| 0 <= k < i ==> a@[k] == b@[k],
        decreases a@.len() - i,
    {
        if a[i] != b[i] {
            return false;
        }
        i = i + 1;
    }
    assert(a@ =~= b@);
    true
}

/// The column that `key` names, if any.
pub fn field_index(key: &[u8]) -> (r: Option<usize>)
    ensures
        r matches Some(i) ==> i < FIELD_COUNT && schema()[i as int] == key@,
        r is None <==> !recognized(key@),
{
    let mut i: usize = 0;
    while i < FIELD_COUNT
        invariant
            i <= FIELD_COUNT,
            forall|k: int| 0 <= k < i ==> schema()[k] != key@,
        decreases FIELD_COUNT - i,
    {
        let name = field_bytes(i);
        if bytes_equal(name.as_slice(), key) {
            return Some(i);
        }
        i = i + 1;
    }
    None
}

/// Whether `key` names a column.
pub fn is_recognized(key: &[u8]) -> (r: bool)
    ensures
        r == recognized(key@),
{
    field_index(key).is_some()
}

} // verus!
