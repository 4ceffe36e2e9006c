//! The game event consumer: collects the recognized headers of each game and
//! emits its row when the game ends.
use crate::model::{empty_record, row_of, run, slot_of, table, table_bytes, with_header, GameEvent};
use crate::model::{records_bytes, step, TableState};
use crate::schema::{field_index, lemma_schema_unique, schema, FIELD_COUNT};
use crate::table::{csv_record, encode_row, header_row};
use vstd::prelude::*;
use vstd::slice::slice_to_vec;

verus! {

/// Games between two progress reports.
pub const PROGRESS_INTERVAL: u64 = 100000;

/// Whether a progress report is due once `games` games are complete.
pub open spec fn is_progress_point(games: nat) -> bool {
    games > 0 && games % (PROGRESS_INTERVAL as nat) == 0
}

/// Turns the parse events of one archive into CSV rows.
pub struct Converter {
    slots: Vec<Option<Vec<u8>>>,
    num_games: u64,
}

impl Converter {
    /// The values collected so far for the game in progress.
    pub closed spec fn record(&self) -> Seq<Option<Seq<u8>>> {
        self.slots.deep_view()
    }

    /// The number of games completed.
    pub closed spec fn games(&self) -> nat {
        self.num_games as nat
    }

    /// The record has one slot per column.
    pub open spec fn wf(&self) -> bool {
        self.record().len() == FIELD_COUNT
    }

    /// A converter with an empty record and no completed game.
    pub fn new() -> (r: Converter)
        ensures
            r.wf(),
            r.record() == empty_record(),
            r.games() == 0,
    {
        let mut slots: Vec<Option<Vec<u8>>> = Vec::new();
        let mut i: usize = 0;
        while i < FIELD_COUNT
            invariant
                i <= FIELD_COUNT,
                slots@.len() == i,
                forall|k: int| 0 <= k < i ==> (#[trigger] slots@[k]) is None,
            decreases FIELD_COUNT - i,
        {
            slots.push(None);
            i = i + 1;
        }
        let r = Converter { slots, num_games: 0 };
        assert(r.record() =~= empty_record());
        r
    }

    /// Records a header of the game in progress. A recognized key overwrites
    /// the value of its column; any other key is dropped.
    pub fn header(&mut self, key: &[u8], value: &[u8])
        requires
            old(self).wf(),
        ensures
            final(self).wf(),
            final(self).record() == with_header(old(self).record(), key@, value@),
            final(self).games() == old(self).games(),
    {
        match field_index(key) {
            Some(i) => {
                proof {
                    let j = slot_of(key@);
                    if j != i as int {
                        lemma_schema_unique(i as int, j);
                    }
                }
                let v = slice_to_vec(value);
                assert(v.deep_view() =~= value@);
                self.slots.set(i, Some(v));
                assert(self.record() =~= old(self).record().update(i as int, Some(value@)));
            },
            None => {},
        }
    }

    /// The row of the game in progress: each column's value, or an empty
    /// cell where none was seen.
    pub fn row(&self) -> (r: Vec<Vec<u8>>)
        requires
            self.wf(),
        ensures
            r.deep_view() == row_of(self.record()),
    {
        let mut r: Vec<Vec<u8>> = Vec::new();
        let mut i: usize = 0;
        while i < FIELD_COUNT
            invariant
                self.wf(),
                i <= FIELD_COUNT,
                r@.len() == i,
                forall|k: int| 0 <= k < i ==> (#[trigger] r@[k]).deep_view() == row_of(self.record())[k],
            decreases FIELD_COUNT - i,
        {
            let cell = match &self.slots[i] {
                Some(v) => slice_to_vec(v.as_slice()),
                None => Vec::new(),
            };
            assert(cell.deep_view() =~= row_of(self.record())[i as int]);
            r.push(cell);
            i = i + 1;
        }
        assert(r.deep_view() =~= row_of(self.record()));
        r
    }

    /// Empties every slot of the record, keeping its storage.
    fn clear(&mut self)
        requires
            old(self).wf(),
        ensures
            final(self).record() == empty_record(),
            final(self).games() == old(self).games(),
    {
        let mut i: usize = 0;
        while i < FIELD_COUNT
            invariant
                i <= FIELD_COUNT,
                self.slots@.len() == FIELD_COUNT,
                self.num_games == old(self).num_games,
                forall|k: int| 0 <= k < i ==> (#[trigger] self.slots@[k]) is None,
            decreases FIELD_COUNT - i,
        {
            self.slots.set(i, None);
            i = i + 1;
        }
        assert(self.record() =~= empty_record());
    }

    /// Ends the game in progress: returns its row as a CSV record, counts the
    /// game and starts an empty record.
    pub fn end_game(&mut self) -> (r: Vec<u8>)
        requires
            old(self).wf(),
            old(self).games() < u64::MAX,
        ensures
            final(self).wf(),
            r@ == csv_record(row_of(old(self).record())),
            final(self).record() == empty_record(),
            final(self).games() == old(self).games() + 1,
    {
        let cells = self.row();
        let b = encode_row(&cells);
        self.clear();
        self.num_games = self.num_games + 1;
        b
    }

    /// Handles one parse event. The result holds the CSV record of the game
    /// that the event ended, if it ended one.
    pub fn handle(&mut self, event: &GameEvent) -> (r: Option<Vec<u8>>)
        requires
            old(self).wf(),
            old(self).games() < u64::MAX,
        ensures
            final(self).wf(),
            final(self).record() == step(
                TableState { record: old(self).record(), rows: Seq::empty() },
                *event,
            ).record,
            r is Some <==> event is EndGame,
            r matches Some(b) ==> b@ == csv_record(row_of(old(self).record())),
            final(self).games() == old(self).games() + if event is EndGame {
                1nat
            } else {
                0nat
            },
    {
        match event {
            GameEvent::Header { key, value } => {
                self.header(key.as_slice(), value.as_slice());
                None
            },
            GameEvent::Other => None,
            GameEvent::EndGame => Some(self.end_game()),
        }
    }

    /// The number of games completed.
    pub fn num_games(&self) -> (r: u64)
        ensures
            r as nat == self.games(),
    {
        self.num_games
    }

    /// Whether a progress report is due for the games completed so far.
    pub fn progress_due(&self) -> (r: bool)
        ensures
            r == is_progress_point(self.games()),
    {
        self.num_games > 0 && self.num_games % PROGRESS_INTERVAL == 0
    }
}

/// Converts the parse events of one archive into the CSV bytes of its table:
/// the header row, then one row per game, in game order.
pub fn convert(events: &Vec<GameEvent>) -> (r: Vec<u8>)
    ensures
        r@ == table_bytes(events@),
{
    let mut out = header_row();
    let mut conv = Converter::new();
    let mut i: usize = 0;
    assert(events@.take(0) =~= Seq::<GameEvent>::empty());
    assert(table(events@.take(0)) =~= seq![schema()]);
    assert(seq![schema()].drop_last() =~= Seq::<Seq<Seq<u8>>>::empty());
    assert(records_bytes(Seq::<Seq<Seq<u8>>>::empty()) == Seq::<u8>::empty());
    assert(seq![schema()].last() == schema());
    assert(records_bytes(seq![schema()]) == records_bytes(Seq::<Seq<Seq<u8>>>::empty())
        + csv_record(schema()));
    assert(out@ =~= table_bytes(events@.take(0)));
    while i < events.len()
        invariant
            i <= events@.len(),
            conv.wf(),
            conv.games() <= i,
            conv.record() == run(events@.take(i as int)).record,
            out@ == table_bytes(events@.take(i as int)),
        decreases events@.len() - i,
    {
        let ghost before = events@.take(i as int);
        let ghost after = events@.take(i + 1);
        assert(after.drop_last() =~= before);
        match conv.handle(&events[i]) {
            Some(mut b) => {
                proof {
                    let rows = run(after).rows;
                    assert(table(after).drop_last() =~= table(before));
                    assert(table(after).last() == rows.last());
                }
                out.append(&mut b);
            },
            None => {
                assert(table(after) =~= table(before));
            },
        }
        i = i + 1;
    }
    assert(events@.take(events@.len() as int) =~= events@);
    out
}

} // verus!
