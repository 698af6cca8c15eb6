use logbook_integrity::calendar::{Date, DateTime, Time};
use logbook_integrity::lex::{expect_literal, expect_value, parse_date, parse_number, parse_time};
use logbook_integrity::parse::{entry_times, EntryParser};
use logbook_integrity::{Block, Entry, Mark};

fn date(year: u32, month: u32, day: u32) -> Date {
    Date { year, month, day }
}

#[test]
fn numbers_parse_in_decimal() {
    assert_eq!(parse_number("0", "n"), Ok(0));
    assert_eq!(parse_number("0042", "n"), Ok(42));
    assert_eq!(parse_number("4294967295", "n"), Ok(4294967295));
    assert_eq!(
        parse_number("4294967296", "n"),
        Err("bad n - number too large".to_string()),
    );
    assert_eq!(
        parse_number("12a", "n"),
        Err("bad n - expected a decimal number".to_string()),
    );
    assert_eq!(
        parse_number("", "n"),
        Err("bad n - expected a decimal number".to_string()),
    );
}

#[test]
fn dates_parse_as_month_day_year() {
    assert_eq!(parse_date("1/2/2023", "d"), Ok(date(2023, 1, 2)));
    assert_eq!(parse_date("12/31/2023", "d"), Ok(date(2023, 12, 31)));
    assert_eq!(parse_date("2/29/2024", "d"), Ok(date(2024, 2, 29)));
    let bad = Err("bad d - not a month/day/year date".to_string());
    assert_eq!(parse_date("2/29/2023", "d"), bad);
    assert_eq!(parse_date("13/1/2023", "d"), bad);
    assert_eq!(parse_date("4/31/2023", "d"), bad);
    assert_eq!(parse_date("1/2/23", "d"), bad);
    assert_eq!(parse_date("1-2-2023", "d"), bad);
}

#[test]
fn times_parse_on_a_twelve_hour_clock() {
    assert_eq!(parse_time("12:00", "AM", "t"), Ok(Time { hour: 0, minute: 0 }));
    assert_eq!(parse_time("12:30", "PM", "t"), Ok(Time { hour: 12, minute: 30 }));
    assert_eq!(parse_time("9:05", "PM", "t"), Ok(Time { hour: 21, minute: 5 }));
    assert_eq!(parse_time("1:30", "AM", "t"), Ok(Time { hour: 1, minute: 30 }));
    let bad = Err("bad t - not an hour:minute clock time".to_string());
    assert_eq!(parse_time("13:00", "PM", "t"), bad);
    assert_eq!(parse_time("9:60", "PM", "t"), bad);
    assert_eq!(parse_time("9:30", "pm", "t"), bad);
    assert_eq!(parse_time("930", "PM", "t"), bad);
}

#[test]
fn token_primitives_report_what_is_missing() {
    assert_eq!(expect_value(Some("x"), "name", "here"), Ok("x"));
    assert_eq!(
        expect_value(None, "name", "here"),
        Err("no name in here".to_string()),
    );
    assert_eq!(expect_literal(Some("to"), "to", "sep"), Ok(()));
    assert_eq!(
        expect_literal(Some("of"), "to", "sep"),
        Err("got of for sep, expected to".to_string()),
    );
    assert_eq!(
        expect_literal(None, "to", "sep"),
        Err("no sep, expected to".to_string()),
    );
}

#[test]
fn calendar_steps_by_one_day() {
    assert_eq!(date(2023, 1, 2).next_day(), Some(date(2023, 1, 3)));
    assert_eq!(date(2023, 1, 31).next_day(), Some(date(2023, 2, 1)));
    assert_eq!(date(2023, 12, 31).next_day(), Some(date(2024, 1, 1)));
    assert_eq!(date(2024, 2, 28).next_day(), Some(date(2024, 2, 29)));
    assert_eq!(date(2023, 2, 28).next_day(), Some(date(2023, 3, 1)));
    assert_eq!(date(9999, 12, 31).next_day(), None);
    assert_eq!(date(2023, 3, 1).prev_day(), Some(date(2023, 2, 28)));
    assert_eq!(date(2024, 3, 1).prev_day(), Some(date(2024, 2, 29)));
    assert_eq!(date(2023, 1, 1).prev_day(), Some(date(2022, 12, 31)));
    assert_eq!(date(0, 1, 1).prev_day(), None);
    assert!(date(2023, 1, 2).is_valid());
    assert!(!date(2023, 2, 29).is_valid());
}

#[test]
fn entry_times_follow_the_day_advance_rules() {
    let (started, finished, effective) = entry_times(
        date(2023, 1, 2),
        Time { hour: 23, minute: 45 },
        Time { hour: 0, minute: 15 },
    )
    .unwrap();
    assert_eq!(started, DateTime { date: date(2023, 1, 2), time: Time { hour: 23, minute: 45 } });
    assert_eq!(finished, DateTime { date: date(2023, 1, 3), time: Time { hour: 0, minute: 15 } });
    assert_eq!(effective, date(2023, 1, 2));

    let (started, _, effective) = entry_times(
        date(2023, 1, 2),
        Time { hour: 1, minute: 30 },
        Time { hour: 2, minute: 0 },
    )
    .unwrap();
    assert_eq!(started.date, date(2023, 1, 2));
    assert_eq!(effective, date(2023, 1, 1));

    let (_, finished, effective) = entry_times(
        date(2023, 1, 2),
        Time { hour: 21, minute: 30 },
        Time { hour: 22, minute: 0 },
    )
    .unwrap();
    assert_eq!(finished.date, date(2023, 1, 2));
    assert_eq!(effective, date(2023, 1, 2));
}

#[test]
fn parser_can_be_driven_chunk_by_chunk() {
    let parser = EntryParser::new(Mark::new(date(2023, 1, 2), 5));
    let parser = parser.advance("5-5\n1/2/2023-1/2/2023");
    let parser = parser.advance(
        "Entry 5: 1/2/2023 started 9:30 PM finished 10:00 PM\n    Subject A\nText.",
    );
    let parser = parser.advance("-----");
    let (entries, errors) = parser.finish(Some(Mark::new(date(2023, 1, 2), 5)));
    assert_eq!(errors, Vec::<String>::new());
    assert_eq!(entries.len(), 1);
    assert_eq!(*entries[0].position(), Mark::new(date(2023, 1, 2), 5));
}

#[test]
fn blocks_and_entries_expose_their_fields() {
    let mut block = Block::new("Subject".to_string(), "text".to_string());
    assert_eq!(block.subject(), "Subject");
    assert_eq!(block.text(), "text");
    block.text_mut().push_str(" and more");
    assert_eq!(block.text(), "text and more");

    let position = Mark::new(date(2023, 1, 2), 5);
    let started = DateTime { date: date(2023, 1, 2), time: Time { hour: 21, minute: 30 } };
    let finished = DateTime { date: date(2023, 1, 2), time: Time { hour: 22, minute: 0 } };
    let mut entry = Entry::new(position, started, finished, vec![block]);
    assert_eq!(*entry.position(), position);
    assert_eq!(entry.started(), started);
    assert_eq!(entry.finished(), finished);
    assert_eq!(entry.recorded_date(), date(2023, 1, 2));
    assert_eq!(entry.contents().len(), 1);
    entry.contents_mut().push(Block::new("Another".to_string(), String::new()));
    assert_eq!(entry.contents().len(), 2);
}
