use pgn_to_csv::{
    convert, encode_row, field_bytes, field_index, field_name, fields, header_row, is_recognized,
    Converter, GameEvent, FIELD_COUNT, PROGRESS_INTERVAL,
};

const HEADER: &str =
    "Event,White,Black,Result,UTCDate,UTCTime,WhiteElo,BlackElo,Opening,TimeControl,Termination\n";

fn header(key: &str, value: &str) -> GameEvent {
    GameEvent::Header { key: key.as_bytes().to_vec(), value: value.as_bytes().to_vec() }
}

fn text(bytes: Vec<u8>) -> String {
    String::from_utf8(bytes).unwrap()
}

#[test]
fn schema_names_in_order() {
    let names: Vec<&str> = (0..FIELD_COUNT).map(field_name).collect();
    assert_eq!(
        names,
        vec![
            "Event", "White", "Black", "Result", "UTCDate", "UTCTime", "WhiteElo", "BlackElo",
            "Opening", "TimeControl", "Termination"
        ]
    );
    let all = fields();
    assert_eq!(all.len(), FIELD_COUNT);
    for (i, name) in all.iter().enumerate() {
        assert_eq!(name, &field_bytes(i));
        assert_eq!(name.as_slice(), names[i].as_bytes());
    }
}

#[test]
fn recognized_keys_map_to_their_column() {
    assert_eq!(field_index(b"Event"), Some(0));
    assert_eq!(field_index(b"Result"), Some(3));
    assert_eq!(field_index(b"Termination"), Some(10));
    assert_eq!(field_index(b"Site"), None);
    assert_eq!(field_index(b"event"), None);
    assert_eq!(field_index(b"Even"), None);
    assert_eq!(field_index(b""), None);
    assert!(is_recognized(b"TimeControl"));
    assert!(!is_recognized(b"ECO"));
}

#[test]
fn header_row_is_schema() {
    assert_eq!(text(header_row()), HEADER);
}

#[test]
fn encode_row_quotes_delimiters() {
    let cells = vec![b"a,b".to_vec(), b"say \"hi\"".to_vec(), Vec::new(), b"plain".to_vec()];
    assert_eq!(text(encode_row(&cells)), "\"a,b\",\"say \"\"hi\"\"\",,plain\n");
}

#[test]
fn two_game_archive() {
    let events = vec![
        header("Event", "Rated Blitz"),
        header("White", "alice"),
        header("Result", "1-0"),
        GameEvent::Other,
        GameEvent::EndGame,
        header("Site", "https://example.org"),
        GameEvent::Other,
        GameEvent::EndGame,
    ];
    let out = text(convert(&events));
    let lines: Vec<&str> = out.lines().collect();
    assert_eq!(lines.len(), 3);
    assert_eq!(format!("{}\n", lines[0]), HEADER);
    assert_eq!(lines[1], "Rated Blitz,alice,,1-0,,,,,,,");
    assert_eq!(lines[2], ",,,,,,,,,,");
    assert_eq!(
        out,
        format!("{}Rated Blitz,alice,,1-0,,,,,,,\n,,,,,,,,,,\n", HEADER)
    );
}

#[test]
fn empty_archive_has_header_only() {
    assert_eq!(text(convert(&Vec::new())), HEADER);
}

#[test]
fn one_row_per_game_with_full_width() {
    let mut events = Vec::new();
    for g in 0..5 {
        if g % 2 == 0 {
            events.push(header("WhiteElo", "1500"));
        }
        events.push(GameEvent::EndGame);
    }
    let out = text(convert(&events));
    let lines: Vec<&str> = out.lines().collect();
    assert_eq!(lines.len(), 6);
    for line in &lines[1..] {
        assert_eq!(line.split(',').count(), FIELD_COUNT);
    }
    assert_eq!(lines[1], ",,,,,,1500,,,,");
    assert_eq!(lines[2], ",,,,,,,,,,");
}

#[test]
fn later_duplicate_header_wins() {
    let events = vec![
        header("White", "first"),
        header("Black", "bob"),
        header("White", "second"),
        GameEvent::EndGame,
    ];
    let out = text(convert(&events));
    assert_eq!(out.lines().nth(1).unwrap(), ",second,bob,,,,,,,,");
}

#[test]
fn rows_follow_game_order_and_column_order() {
    let events = vec![
        header("Termination", "Normal"),
        header("Event", "one"),
        GameEvent::EndGame,
        header("Event", "two"),
        GameEvent::EndGame,
        header("Event", "three"),
        GameEvent::EndGame,
    ];
    let out = text(convert(&events));
    let lines: Vec<&str> = out.lines().collect();
    assert_eq!(lines[1], "one,,,,,,,,,,Normal");
    assert_eq!(lines[2], "two,,,,,,,,,,");
    assert_eq!(lines[3], "three,,,,,,,,,,");
}

#[test]
fn values_pass_through_verbatim() {
    let events = vec![
        header("Opening", "Sicilian Defense, Najdorf"),
        header("UTCDate", "2013.01.01"),
        header("BlackElo", "?"),
        GameEvent::EndGame,
    ];
    let out = text(convert(&events));
    assert_eq!(out.lines().nth(1).unwrap(), ",,,,2013.01.01,,,?,\"Sicilian Defense, Najdorf\",,");
}

#[test]
fn empty_value_matches_absent_tag() {
    let given_empty = convert(&vec![header("Black", ""), GameEvent::EndGame]);
    let never_seen = convert(&vec![GameEvent::EndGame]);
    assert_eq!(given_empty, never_seen);
}

#[test]
fn single_empty_cell_is_quoted() {
    assert_eq!(text(encode_row(&vec![Vec::new()])), "\"\"\n");
    assert_eq!(text(encode_row(&vec![b"line\r\nbreak".to_vec()])), "\"line\r\nbreak\"\n");
}

#[test]
fn conversion_is_deterministic() {
    let events = vec![
        header("Event", "Rated Blitz"),
        header("TimeControl", "300+0"),
        GameEvent::EndGame,
        GameEvent::EndGame,
    ];
    let first = convert(&events);
    let second = convert(&events);
    assert_eq!(first, second);
}

#[test]
fn converter_emits_rows_at_end_of_game() {
    let mut conv = Converter::new();
    assert_eq!(conv.num_games(), 0);
    assert_eq!(conv.handle(&header("Black", "carol")), None);
    assert_eq!(conv.handle(&GameEvent::Other), None);
    let row = conv.handle(&GameEvent::EndGame).unwrap();
    assert_eq!(text(row), ",,carol,,,,,,,,\n");
    assert_eq!(conv.num_games(), 1);
    let row = conv.end_game();
    assert_eq!(text(row), ",,,,,,,,,,\n");
    assert_eq!(conv.num_games(), 2);
}

#[test]
fn converter_row_and_reset() {
    let mut conv = Converter::new();
    conv.header(b"UTCTime", b"12:00:00");
    conv.header(b"Annotator", b"nobody");
    let row = conv.row();
    assert_eq!(row.len(), FIELD_COUNT);
    assert_eq!(row[5], b"12:00:00".to_vec());
    assert!(row.iter().enumerate().all(|(i, c)| i == 5 || c.is_empty()));
    conv.end_game();
    assert!(conv.row().iter().all(|c| c.is_empty()));
}

fn count_progress(games: u64) -> u64 {
    let mut conv = Converter::new();
    let mut reports = 0;
    assert!(!conv.progress_due());
    for _ in 0..games {
        conv.end_game();
        if conv.progress_due() {
            reports += 1;
        }
    }
    reports
}

#[test]
fn progress_reported_once_per_interval() {
    assert_eq!(PROGRESS_INTERVAL, 100000);
    assert_eq!(count_progress(99999), 0);
    assert_eq!(count_progress(100000), 1);
    assert_eq!(count_progress(250000), 2);
}

