//! Properties of the table that a sequence of parse events describes.
use crate::converter::{is_progress_point, PROGRESS_INTERVAL};
use crate::model::{
    empty_record, records_bytes, row_of, run, slot_of, step, table, table_bytes, GameEvent,
};
use crate::schema::{ascii_bytes, lemma_schema_names, lemma_schema_unique, recognized, schema, FIELD_COUNT};
use crate::table::{csv_record, joined_fields, needs_quotes};
use vstd::prelude::*;

verus! {

/// The number of games that `events` complete.
pub open spec fn games_in(events: Seq<GameEvent>) -> nat
    decreases events.len(),
{
    if events.len() == 0 {
        0
    } else {
        games_in(events.drop_last()) + if events.last() is EndGame {
            1nat
        } else {
            0nat
        }
    }
}

/// The last value that the headers of `game` give to the tag `name`.
pub open spec fn last_value(game: Seq<GameEvent>, name: Seq<u8>) -> Option<Seq<u8>>
    decreases game.len(),
{
    if game.len() == 0 {
        None
    } else {
        match game.last() {
            GameEvent::Header { key, value } => if key@ == name {
                Some(value@)
            } else {
                last_value(game.drop_last(), name)
            },
            _ => last_value(game.drop_last(), name),
        }
    }
}

/// The cell that the headers of `game` give to column `i`.
pub open spec fn cell_of(game: Seq<GameEvent>, i: int) -> Seq<u8> {
    match last_value(game, schema()[i]) {
        Some(v) => v,
        None => Seq::empty(),
    }
}

/// Whether `events` begin a game: nothing came before, or a game just ended.
pub open spec fn at_game_start(events: Seq<GameEvent>) -> bool {
    events.len() == 0 || events.last() is EndGame
}

/// Whether `game` holds no end-of-game event.
pub open spec fn within_one_game(game: Seq<GameEvent>) -> bool {
    forall|k: int| 0 <= k < game.len() ==> !(#[trigger] game[k] is EndGame)
}

/// Two events with the same contents.
pub open spec fn same_event(a: GameEvent, b: GameEvent) -> bool {
    match (a, b) {
        (GameEvent::Header { key: k1, value: v1 }, GameEvent::Header { key: k2, value: v2 }) => k1@
            == k2@ && v1@ == v2@,
        (GameEvent::Other, GameEvent::Other) => true,
        (GameEvent::EndGame, GameEvent::EndGame) => true,
        _ => false,
    }
}

/// The number of progress reports made while `n` games complete one by one.
pub open spec fn progress_reports(n: nat) -> nat
    decreases n,
{
    if n == 0 {
        0
    } else {
        progress_reports((n - 1) as nat) + if is_progress_point(n) {
            1nat
        } else {
            0nat
        }
    }
}

proof fn lemma_data_row_count(events: Seq<GameEvent>)
    ensures
        run(events).rows.len() == games_in(events),
    decreases events.len(),
{
    if events.len() > 0 {
        lemma_data_row_count(events.drop_last());
    }
}

/// A table has exactly one row more than its events have games: the header
/// row, then one data row per game.
pub proof fn lemma_table_row_count(events: Seq<GameEvent>)
    ensures
        table(events).len() == games_in(events) + 1,
{
    lemma_data_row_count(events);
}

/// The first row of every table is the schema's column names, in column
/// order.
pub proof fn lemma_header_row(events: Seq<GameEvent>)
    ensures
        table(events)[0] == schema(),
{
}

/// A game's record starts empty.
proof fn lemma_record_empty_at_start(events: Seq<GameEvent>)
    requires
        at_game_start(events),
    ensures
        run(events).record == empty_record(),
{
}

/// Within a game, the record holds for each column the last value that the
/// game's headers gave it, and no row is emitted.
proof fn lemma_record_within_game(prefix: Seq<GameEvent>, game: Seq<GameEvent>)
    requires
        at_game_start(prefix),
        within_one_game(game),
    ensures
        run(prefix + game).rows == run(prefix).rows,
        run(prefix + game).record.len() == FIELD_COUNT,
        forall|i: int|
            0 <= i < FIELD_COUNT ==> #[trigger] run(prefix + game).record[i] == last_value(
                game,
                schema()[i],
            ),
    decreases game.len(),
{
    if game.len() == 0 {
        assert(prefix + game =~= prefix);
        lemma_record_empty_at_start(prefix);
    } else {
        let g = game.drop_last();
        let e = game.last();
        assert((prefix + game).drop_last() =~= prefix + g);
        assert(within_one_game(g)) by {
            assert forall|k: int| 0 <= k < g.len() implies !(#[trigger] g[k] is EndGame) by {
                assert(g[k] == game[k]);
            }
        }
        assert(!(e is EndGame)) by {
            assert(e == game[game.len() - 1]);
        }
        lemma_record_within_game(prefix, g);
        let before = run(prefix + g);
        let after = run(prefix + game);
        assert(after == step(before, e));
        match e {
            GameEvent::Header { key, value } => {
                assert forall|i: int| 0 <= i < FIELD_COUNT implies #[trigger] after.record[i]
                    == last_value(game, schema()[i]) by {
                    if recognized(key@) {
                        let j = slot_of(key@);
                        if i != j {
                            lemma_schema_unique(i, j);
                        }
                    }
                }
            },
            _ => {},
        }
    }
}

/// Each game adds one data row after the rows of earlier games. The row has
/// one cell per column; each cell holds the last value that the game's
/// headers gave its column, and is empty exactly where no header gave it one
/// or the last one given was empty.
pub proof fn lemma_game_row(prefix: Seq<GameEvent>, game: Seq<GameEvent>)
    requires
        at_game_start(prefix),
        within_one_game(game),
    ensures
        ({
            let rows = run(prefix + game.push(GameEvent::EndGame)).rows;
            &&& rows.drop_last() == run(prefix).rows
            &&& rows.len() == run(prefix).rows.len() + 1
            &&& rows.last().len() == FIELD_COUNT
            &&& forall|i: int| 0 <= i < FIELD_COUNT ==> #[trigger] rows.last()[i] == cell_of(game, i)
            &&& forall|i: int|
                0 <= i < FIELD_COUNT ==> (#[trigger] rows.last()[i].len() == 0 <==> (last_value(
                    game,
                    schema()[i],
                ) is None || last_value(game, schema()[i])->Some_0.len() == 0))
        }),
{
    let all = prefix + game.push(GameEvent::EndGame);
    assert(all.drop_last() =~= prefix + game);
    lemma_record_within_game(prefix, game);
}

/// The last value given wins: where a game gives a recognized tag a value and
/// later another one, with no further header for that tag, its row holds the
/// later value in that tag's column.
pub proof fn lemma_later_value_wins(
    prefix: Seq<GameEvent>,
    first: Seq<GameEvent>,
    middle: Seq<GameEvent>,
    rest: Seq<GameEvent>,
    key: Vec<u8>,
    earlier: Vec<u8>,
    later: Vec<u8>,
)
    requires
        at_game_start(prefix),
        within_one_game(first),
        within_one_game(middle),
        within_one_game(rest),
        recognized(key@),
        forall|k: int|
            0 <= k < rest.len() ==> !(#[trigger] rest[k] matches GameEvent::Header { key: k2, .. }
                && k2@ == key@),
    ensures
        ({
            let game = first.push(GameEvent::Header { key, value: earlier }) + middle.push(
                GameEvent::Header { key, value: later },
            ) + rest;
            run(prefix + game.push(GameEvent::EndGame)).rows.last()[slot_of(key@)] == later@
        }),
{
    let game = first.push(GameEvent::Header { key, value: earlier }) + middle.push(
        GameEvent::Header { key, value: later },
    ) + rest;
    let head = first.push(GameEvent::Header { key, value: earlier }) + middle.push(
        GameEvent::Header { key, value: later },
    );
    assert(within_one_game(game)) by {
        assert forall|k: int| 0 <= k < game.len() implies !(#[trigger] game[k] is EndGame) by {
            if k < first.len() {
                assert(game[k] == first[k]);
            } else if k == first.len() {
            } else if k < first.len() + 1 + middle.len() {
                assert(game[k] == middle[k - first.len() - 1]);
            } else if k == first.len() + 1 + middle.len() {
            } else {
                assert(game[k] == rest[k - head.len()]);
            }
        }
    }
    let j = slot_of(key@);
    assert(schema()[j] == key@);
    lemma_last_value_skips(head, rest, key@);
    assert(head.last() == GameEvent::Header { key, value: later });
    lemma_game_row(prefix, game);
}

/// A suffix without a header for `name` leaves its last value unchanged.
proof fn lemma_last_value_skips(head: Seq<GameEvent>, rest: Seq<GameEvent>, name: Seq<u8>)
    requires
        forall|k: int|
            0 <= k < rest.len() ==> !(#[trigger] rest[k] matches GameEvent::Header { key: k2, .. }
                && k2@ == name),
    ensures
        last_value(head + rest, name) == last_value(head, name),
    decreases rest.len(),
{
    if rest.len() == 0 {
        assert(head + rest =~= head);
    } else {
        let r = rest.drop_last();
        assert((head + rest).drop_last() =~= head + r);
        assert((head + rest).last() == rest[rest.len() - 1]);
        lemma_last_value_skips(head, r, name);
    }
}

/// Later events never change or reorder the rows already emitted: rows come
/// out in the order in which their games appear.
pub proof fn lemma_rows_keep_order(events: Seq<GameEvent>, more: Seq<GameEvent>)
    ensures
        run(events).rows.len() <= run(events + more).rows.len(),
        run(events + more).rows.take(run(events).rows.len() as int) == run(events).rows,
    decreases more.len(),
{
    if more.len() == 0 {
        assert(events + more =~= events);
        assert(run(events).rows.take(run(events).rows.len() as int) =~= run(events).rows);
    } else {
        let m = more.drop_last();
        assert((events + more).drop_last() =~= events + m);
        lemma_rows_keep_order(events, m);
        let n = run(events).rows.len() as int;
        let before = run(events + m).rows;
        let after = run(events + more).rows;
        assert(after.take(n) =~= before.take(n));
    }
}

proof fn lemma_same_events_same_state(a: Seq<GameEvent>, b: Seq<GameEvent>)
    requires
        a.len() == b.len(),
        forall|k: int| 0 <= k < a.len() ==> same_event(#[trigger] a[k], b[k]),
    ensures
        run(a) == run(b),
    decreases a.len(),
{
    if a.len() > 0 {
        let n = a.len() - 1;
        assert(same_event(a[n], b[n]));
        lemma_same_events_same_state(a.drop_last(), b.drop_last());
    }
}

/// Conversion is deterministic: events with the same contents give the same
/// table bytes.
pub proof fn lemma_same_events_same_bytes(a: Seq<GameEvent>, b: Seq<GameEvent>)
    requires
        a.len() == b.len(),
        forall|k: int| 0 <= k < a.len() ==> same_event(#[trigger] a[k], b[k]),
    ensures
        table_bytes(a) == table_bytes(b),
{
    lemma_same_events_same_state(a, b);
}

/// While `n` games complete one by one, a progress report falls due exactly
/// once per full interval.
pub proof fn lemma_progress_reports(n: nat)
    ensures
        progress_reports(n) == n / (PROGRESS_INTERVAL as nat),
    decreases n,
{
    if n > 0 {
        lemma_progress_reports((n - 1) as nat);
        let p = PROGRESS_INTERVAL as nat;
        if n % p == 0 {
            assert(n / p == (n - 1) as nat / p + 1) by (nonlinear_arith)
                requires
                    n > 0,
                    p == 100000,
                    n % p == 0,
            ;
        } else {
            assert(n / p == (n - 1) as nat / p) by (nonlinear_arith)
                requires
                    n > 0,
                    p == 100000,
                    n % p != 0,
            ;
        }
    }
}

/// The header row is the column names separated by commas, then a line feed.
pub proof fn lemma_header_bytes()
    ensures
        csv_record(schema()) == ascii_bytes(
            "Event,White,Black,Result,UTCDate,UTCTime,WhiteElo,BlackElo,Opening,TimeControl,Termination\n"@,
        ),
{
    lemma_schema_names();
}

/// A two-game archive: the first game names its event, its white player and
/// its result; the second names nothing. The table is the header row, the
/// first game's row with those three values in their columns, and a row of
/// empty cells.
pub proof fn lemma_two_game_table(events: Seq<GameEvent>)
    requires
        events.len() == 5,
        events[0] matches GameEvent::Header { key, value } && key@ == ascii_bytes("Event"@)
            && value@ == ascii_bytes("Rated Blitz"@),
        events[1] matches GameEvent::Header { key, value } && key@ == ascii_bytes("White"@)
            && value@ == ascii_bytes("alice"@),
        events[2] matches GameEvent::Header { key, value } && key@ == ascii_bytes("Result"@)
            && value@ == ascii_bytes("1-0"@),
        events[3] is EndGame,
        events[4] is EndGame,
    ensures
        table_bytes(events) == ascii_bytes(
            "Event,White,Black,Result,UTCDate,UTCTime,WhiteElo,BlackElo,Opening,TimeControl,Termination\nRated Blitz,alice,,1-0,,,,,,,\n,,,,,,,,,,\n"@,
        ),
{
    lemma_schema_names();
    reveal_strlit("Rated Blitz");
    reveal_strlit("alice");
    reveal_strlit("1-0");
    reveal_strlit(
        "Event,White,Black,Result,UTCDate,UTCTime,WhiteElo,BlackElo,Opening,TimeControl,Termination\nRated Blitz,alice,,1-0,,,,,,,\n,,,,,,,,,,\n",
    );
    reveal_strlit(
        "Event,White,Black,Result,UTCDate,UTCTime,WhiteElo,BlackElo,Opening,TimeControl,Termination\n",
    );
    assert(schema()[0] == ascii_bytes("Event"@));
    assert(schema()[1] == ascii_bytes("White"@));
    assert(schema()[3] == ascii_bytes("Result"@));
    assert(slot_of(schema()[0]) == 0) by {
        if slot_of(schema()[0]) != 0 {
            lemma_schema_unique(0, slot_of(schema()[0]));
        }
    }
    assert(slot_of(schema()[1]) == 1) by {
        if slot_of(schema()[1]) != 1 {
            lemma_schema_unique(1, slot_of(schema()[1]));
        }
    }
    assert(slot_of(schema()[3]) == 3) by {
        if slot_of(schema()[3]) != 3 {
            lemma_schema_unique(3, slot_of(schema()[3]));
        }
    }
    let e1 = events.take(1);
    let e2 = events.take(2);
    let e3 = events.take(3);
    let e4 = events.take(4);
    assert(e1.drop_last() =~= Seq::<GameEvent>::empty());
    assert(e2.drop_last() =~= e1);
    assert(e3.drop_last() =~= e2);
    assert(e4.drop_last() =~= e3);
    assert(events.drop_last() =~= e4);
    assert(recognized(schema()[0]));
    assert(recognized(schema()[1]));
    assert(recognized(schema()[3]));
    assert(e1.last() == events[0]);
    assert(e2.last() == events[1]);
    assert(e3.last() == events[2]);
    assert(e4.last() == events[3]);
    let r1 = empty_record().update(0, Some(ascii_bytes("Rated Blitz"@)));
    let r2 = r1.update(1, Some(ascii_bytes("alice"@)));
    let r3 = r2.update(3, Some(ascii_bytes("1-0"@)));
    assert(run(Seq::<GameEvent>::empty()).record == empty_record());
    assert(run(e1).record == r1);
    assert(run(e2).record == r2);
    assert(run(e3).record == r3);
    assert(run(e3).rows == Seq::<Seq<Seq<u8>>>::empty());
    let row1 = row_of(r3);
    let row2 = row_of(empty_record());
    assert(run(e4).rows =~= seq![row1]);
    assert(run(e4).record == empty_record());
    assert(run(events).rows =~= seq![row1, row2]);
    let t = table(events);
    assert(t =~= seq![schema(), row1, row2]);
    assert(t.drop_last() =~= seq![schema(), row1]);
    assert(t.drop_last().drop_last() =~= seq![schema()]);
    assert(t.drop_last().drop_last().drop_last() =~= Seq::<Seq<Seq<u8>>>::empty());
    assert(!needs_quotes(row1[0]));
    assert(!needs_quotes(row1[1]));
    assert(!needs_quotes(row1[3]));
    reveal_with_fuel(joined_fields, 12);
    assert(csv_record(row1) =~= ascii_bytes("Rated Blitz,alice,,1-0,,,,,,,\n"@)) by {
        reveal_strlit("Rated Blitz,alice,,1-0,,,,,,,\n");
    }
    assert(csv_record(row2) =~= ascii_bytes(",,,,,,,,,,\n"@)) by {
        reveal_strlit(",,,,,,,,,,\n");
    }
    let h = csv_record(schema());
    assert(seq![schema()].drop_last() =~= Seq::<Seq<Seq<u8>>>::empty());
    assert(seq![schema(), row1].drop_last() =~= seq![schema()]);
    assert(records_bytes(Seq::<Seq<Seq<u8>>>::empty()) == Seq::<u8>::empty());
    assert(records_bytes(seq![schema()]) =~= h);
    assert(records_bytes(seq![schema(), row1]) == records_bytes(seq![schema()]) + csv_record(
        row1,
    ));
    assert(records_bytes(t) == records_bytes(seq![schema(), row1]) + csv_record(row2));
    assert(table_bytes(events) =~= h + csv_record(row1) + csv_record(row2));
    assert(table_bytes(events) =~= ascii_bytes(
        "Event,White,Black,Result,UTCDate,UTCTime,WhiteElo,BlackElo,Opening,TimeControl,Termination\nRated Blitz,alice,,1-0,,,,,,,\n,,,,,,,,,,\n"@,
    ));
}

} // verus!
