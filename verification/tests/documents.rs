use logbook_integrity::calendar::{Date, Time};
use logbook_integrity::{Entry, Logbook, Mark};
use logbook_integrity::parse::parse;

fn date(year: u32, month: u32, day: u32) -> Date {
    Date { year, month, day }
}

/// Re-derive an entry's finish day and attributed day from its own header
/// fields, by the same day-advance rules the parser uses.
fn recheck(entry: &Entry) {
    let started = entry.started();
    let finished = entry.finished();
    let position = entry.position();
    let before = started.time.hour < finished.time.hour
        || (started.time.hour == finished.time.hour && started.time.minute < finished.time.minute);
    if before {
        assert_eq!(finished.date, started.date);
    } else {
        assert_eq!(Some(finished.date), started.date.next_day());
    }
    if started.time.hour > 6 {
        assert_eq!(position.effective_date(), started.date);
    } else {
        assert_eq!(Some(position.effective_date()), started.date.prev_day());
    }
}

fn valid_document() -> String {
    let mut doc = String::new();
    doc.push_str("Logbook\nEntries from 1/2/2023 - 5 to 1/4/2023 - 7\n\n-----\n\n");
    doc.push_str("5-7\n1/2/2023-1/4/2023\n\n");
    doc.push_str("Entry 5: 1/2/2023 started 9:30 PM finished 10:00 PM\n    Subject A\nSome text.\n\n");
    doc.push_str("Entry 6: 1/3/2023 started 10:00 PM finished 9:30 PM\n    Subject B\nMore text.\n\n");
    doc.push_str("Entry 7: 1/4/2023 started 9:00 PM finished 9:45 PM\n    Subject C\nFinal text.\n\n");
    doc.push_str("-----");
    doc
}

#[test]
fn valid_document_has_no_diagnostics() {
    let (logbook, diagnostics) = parse(&valid_document()).unwrap();
    assert_eq!(diagnostics, Vec::<String>::new());
    let entries = logbook.entries();
    assert_eq!(entries.len(), 3);
    assert_eq!(*entries[0].position(), Mark::new(date(2023, 1, 2), 5));
    assert_eq!(*entries[1].position(), Mark::new(date(2023, 1, 3), 6));
    assert_eq!(*entries[2].position(), Mark::new(date(2023, 1, 4), 7));
    for window in 0..entries.len() - 1 {
        let a = entries[window].position();
        let b = entries[window + 1].position();
        assert_eq!(Some(b.effective_date()), a.effective_date().next_day());
        assert_eq!(b.entry_number(), a.entry_number() + 1);
    }
    assert_eq!(*logbook.start(), Mark::new(date(2023, 1, 2), 5));
    assert_eq!(*logbook.end(), Some(Mark::new(date(2023, 1, 4), 7)));
}

#[test]
fn removed_entry_reports_the_gap_once_and_resyncs() {
    let mut doc = String::new();
    doc.push_str("Logbook\nEntries from 1/2/2023 - 5 to 1/4/2023 - 7\n\n-----\n\n");
    doc.push_str("5-7\n1/2/2023-1/4/2023\n\n");
    doc.push_str("Entry 5: 1/2/2023 started 9:30 PM finished 10:00 PM\n    Subject A\nSome text.\n\n");
    doc.push_str("Entry 7: 1/4/2023 started 9:00 PM finished 9:45 PM\n    Subject C\nFinal text.\n\n");
    doc.push_str("-----");
    let (logbook, diagnostics) = parse(&doc).unwrap();
    assert_eq!(
        diagnostics,
        vec![
            "Missing entry for 2023-01-03\nnear entry 7".to_string(),
            "Expected 6 for entry number, got 7\nnear entry 7".to_string(),
        ],
    );
    let gap_reports = diagnostics
        .iter()
        .filter(|d| d.starts_with("Missing entry for"))
        .count();
    assert_eq!(gap_reports, 1);
    let entries = logbook.entries();
    assert_eq!(entries.len(), 2);
    assert_eq!(*entries[0].position(), Mark::new(date(2023, 1, 2), 5));
    assert_eq!(*entries[1].position(), Mark::new(date(2023, 1, 4), 7));
}

#[test]
fn header_end_number_mismatch_is_one_diagnostic_on_its_page() {
    let mut doc = String::new();
    doc.push_str("Logbook\nEntries from 1/2/2023 - 5 to 1/4/2023 - 7\n\n-----\n\n");
    doc.push_str("5-9\n1/2/2023-1/3/2023\n\n");
    doc.push_str("Entry 5: 1/2/2023 started 9:30 PM finished 10:00 PM\n    Subject A\nSome text.\n\n");
    doc.push_str("Entry 6: 1/3/2023 started 10:00 PM finished 9:30 PM\n    Subject B\nMore text.\n\n");
    doc.push_str("-----\n\n");
    doc.push_str("7-7\n1/4/2023-1/4/2023\n\n");
    doc.push_str("Entry 7: 1/4/2023 started 9:00 PM finished 9:45 PM\n    Subject C\nFinal text.\n\n");
    doc.push_str("-----");
    let (logbook, diagnostics) = parse(&doc).unwrap();
    assert_eq!(
        diagnostics,
        vec!["page header end number mismatch: header ends on 9, last entry is 6\nnear entry 7"
            .to_string()],
    );
    assert_eq!(logbook.entries().len(), 3);
}

#[test]
fn split_entry_reconstructs_with_no_separator() {
    let mut doc = String::new();
    doc.push_str("Logbook\nEntries from 1/2/2023 - 5 to 1/2/2023 - 5\n\n-----\n\n");
    doc.push_str("5-5\n1/2/2023-1/2/2023\n\n");
    doc.push_str("Entry 5: 1/2/2023 started 9:30 PM finished 10:00 PM\n    Subject A\nfirst half (->)\n\n");
    doc.push_str("-----\n\n");
    doc.push_str("5-5\n1/2/2023-1/2/2023\n\n");
    doc.push_str("(->) second half\n\n");
    doc.push_str("-----");
    let (logbook, diagnostics) = parse(&doc).unwrap();
    assert_eq!(diagnostics, Vec::<String>::new());
    let entries = logbook.entries();
    assert_eq!(entries.len(), 1);
    let blocks = entries[0].contents();
    assert_eq!(blocks.len(), 1);
    assert_eq!(blocks[0].subject(), "Subject A");
    assert_eq!(blocks[0].text(), "first halfsecond half");
}

#[test]
fn entry_past_midnight_finishes_next_day() {
    let mut doc = String::new();
    doc.push_str("Logbook\nEntries from 1/2/2023 - 5 to 1/2/2023 - 5\n\n-----\n\n");
    doc.push_str("5-5\n1/2/2023-1/2/2023\n\n");
    doc.push_str("Entry 5: 1/2/2023 started 11:45 PM finished 12:15 AM\n    Late night\nText.\n\n");
    doc.push_str("-----");
    let (logbook, diagnostics) = parse(&doc).unwrap();
    assert_eq!(diagnostics, Vec::<String>::new());
    let entry = &logbook.entries()[0];
    assert_eq!(entry.started().date, date(2023, 1, 2));
    assert_eq!(entry.started().time, Time { hour: 23, minute: 45 });
    assert_eq!(entry.finished().date, date(2023, 1, 3));
    assert_eq!(entry.finished().time, Time { hour: 0, minute: 15 });
    assert_eq!(entry.position().effective_date(), date(2023, 1, 2));
}

#[test]
fn small_hours_entry_attributed_to_previous_day() {
    let mut doc = String::new();
    doc.push_str("Logbook\nEntries from 1/2/2023 - 5 to 1/2/2023 - 5\n\n-----\n\n");
    doc.push_str("5-5\n1/3/2023-1/3/2023\n\n");
    doc.push_str("Entry 5: 1/3/2023 started 1:30 AM finished 2:00 AM\n    Small hours\nText.\n\n");
    doc.push_str("-----");
    let (logbook, diagnostics) = parse(&doc).unwrap();
    assert_eq!(diagnostics, Vec::<String>::new());
    let entry = &logbook.entries()[0];
    assert_eq!(entry.started().date, date(2023, 1, 3));
    assert_eq!(entry.position().effective_date(), date(2023, 1, 2));
    assert_eq!(
        Some(entry.position().effective_date()),
        entry.started().date.prev_day(),
    );
    assert_eq!(entry.recorded_date(), date(2023, 1, 3));
}

#[test]
fn entries_recheck_against_their_own_fields_even_with_diagnostics() {
    let mut doc = String::new();
    doc.push_str("Logbook\nEntries from 1/2/2023 - 5 to 1/4/2023 - 7\n\n-----\n\n");
    doc.push_str("5-7\n1/2/2023-1/4/2023\n\n");
    doc.push_str("Entry 5: 1/2/2023 started 11:45 PM finished 12:15 AM\n    Subject A\nSome text.\n\n");
    doc.push_str("Entry 7: 1/4/2023 started 1:30 AM finished 2:00 AM\n    Subject C\nFinal text.\n\n");
    doc.push_str("-----");
    let (logbook, diagnostics) = parse(&doc).unwrap();
    assert!(!diagnostics.is_empty());
    for entry in logbook.entries() {
        recheck(entry);
    }
}

#[test]
fn open_ended_logbook_skips_the_end_check() {
    let mut doc = String::new();
    doc.push_str("Logbook\nEntries from 1/2/2023 - 5 to 1/9/2023 - _\n\n-----\n\n");
    doc.push_str("5-5\n1/2/2023-1/2/2023\n\n");
    doc.push_str("Entry 5: 1/2/2023 started 9:30 PM finished 10:00 PM\n    Subject A\nSome text.\n\n");
    doc.push_str("-----");
    let (logbook, diagnostics) = parse(&doc).unwrap();
    assert_eq!(diagnostics, Vec::<String>::new());
    assert_eq!(*logbook.end(), None);
    assert_eq!(logbook.entries().len(), 1);
}

#[test]
fn end_mark_mismatch_is_reported() {
    let mut doc = String::new();
    doc.push_str("Logbook\nEntries from 1/2/2023 - 5 to 1/9/2023 - 9\n\n-----\n\n");
    doc.push_str("5-5\n1/2/2023-1/2/2023\n\n");
    doc.push_str("Entry 5: 1/2/2023 started 9:30 PM finished 10:00 PM\n    Subject A\nSome text.\n\n");
    doc.push_str("-----");
    let (_, diagnostics) = parse(&doc).unwrap();
    assert_eq!(
        diagnostics,
        vec![
            "logbook does not end with specified end date and/or entry number, \
             expected 2023-01-09 9 but got 2023-01-02 5\nnear entry 6"
                .to_string(),
        ],
    );
}

#[test]
fn declared_end_with_no_entries_is_reported() {
    let doc = "Logbook\nEntries from 1/2/2023 - 5 to 1/2/2023 - 5\n\n-----\n\n-----";
    let (logbook, diagnostics) = parse(doc).unwrap();
    assert_eq!(logbook.entries().len(), 0);
    assert_eq!(
        diagnostics,
        vec![
            "expected page header, got page break\nnear entry 5".to_string(),
            "an end entry was specified but the logbook contains no entries\nnear entry 5"
                .to_string(),
        ],
    );
}

#[test]
fn missing_page_boundary_marker_is_fatal() {
    assert_eq!(
        parse("no marker here at all").unwrap_err(),
        "Could not parse preamble - no page boundary markers",
    );
}

#[test]
fn missing_entry_range_is_fatal() {
    assert_eq!(
        parse("Logbook without a range\n\n-----\n\n-----").unwrap_err(),
        "Could not parse preamble - no entry range found",
    );
}

#[test]
fn bad_preamble_number_is_fatal() {
    assert_eq!(
        parse("Entries from 1/2/2023 - x to 1/9/2023 - 9\n\n-----\n\n-----").unwrap_err(),
        "Could not parse preamble - bad start entry number - expected a decimal number",
    );
}

#[test]
fn truncated_preamble_range_is_fatal() {
    assert_eq!(
        parse("Entries from 1/2/2023 - 5\n\n-----\n\n-----").unwrap_err(),
        "Could not parse preamble - no entry range separator, expected to",
    );
}

#[test]
fn garbled_page_header_is_reported_and_page_skips_checks() {
    let mut doc = String::new();
    doc.push_str("Logbook\nEntries from 1/2/2023 - 5 to 1/2/2023 - _\n\n-----\n\n");
    doc.push_str("not a header\n\n");
    doc.push_str("Entry 5: 1/2/2023 started 9:30 PM finished 10:00 PM\n    Subject A\nSome text.\n\n");
    doc.push_str("-----");
    let (logbook, diagnostics) = parse(&doc).unwrap();
    assert_eq!(
        diagnostics,
        vec![
            "no separator between number and date ranges of page header\nnear entry 5".to_string(),
        ],
    );
    assert_eq!(logbook.entries().len(), 1);
}

#[test]
fn content_without_subject_line_is_fatal() {
    let mut doc = String::new();
    doc.push_str("Logbook\nEntries from 1/2/2023 - 5 to 1/2/2023 - _\n\n-----\n\n");
    doc.push_str("5-5\n1/2/2023-1/2/2023\n\n");
    doc.push_str("Entry 5: 1/2/2023 started 9:30 PM finished 10:00 PM\norphaned text\n\n");
    doc.push_str("-----");
    assert_eq!(parse(&doc).unwrap_err(), "no subject line\nnear entry 6");
}

#[test]
fn bad_entry_time_is_reported_and_entry_dropped() {
    let mut doc = String::new();
    doc.push_str("Logbook\nEntries from 1/2/2023 - 5 to 1/2/2023 - _\n\n-----\n\n");
    doc.push_str("5-5\n1/2/2023-1/2/2023\n\n");
    doc.push_str("Entry 5: 1/2/2023 started 25:30 PM finished 10:00 PM\n    Subject A\nText.\n\n");
    doc.push_str("-----");
    let (logbook, diagnostics) = parse(&doc).unwrap();
    assert_eq!(logbook.entries().len(), 0);
    assert!(diagnostics.contains(
        &"bad entry start time - not an hour:minute clock time\nnear entry 6".to_string(),
    ));
}

#[test]
fn misspelled_keyword_is_reported_but_entry_kept() {
    let mut doc = String::new();
    doc.push_str("Logbook\nEntries from 1/2/2023 - 5 to 1/2/2023 - _\n\n-----\n\n");
    doc.push_str("5-5\n1/2/2023-1/2/2023\n\n");
    doc.push_str("Entry 5: 1/2/2023 begun 9:30 PM finished 10:00 PM\n    Subject A\nText.\n\n");
    doc.push_str("-----");
    let (logbook, diagnostics) = parse(&doc).unwrap();
    assert_eq!(logbook.entries().len(), 1);
    assert!(diagnostics.contains(
        &"got begun for entry header started, expected started\nnear entry 6".to_string(),
    ));
}

#[test]
fn trailing_text_after_header_is_reported() {
    let mut doc = String::new();
    doc.push_str("Logbook\nEntries from 1/2/2023 - 5 to 1/2/2023 - _\n\n-----\n\n");
    doc.push_str("5-5\n1/2/2023-1/2/2023\n\n");
    doc.push_str("Entry 5: 1/2/2023 started 9:30 PM finished 10:00 PM extra\n    Subject A\nText.\n\n");
    doc.push_str("-----");
    let (logbook, diagnostics) = parse(&doc).unwrap();
    assert_eq!(logbook.entries().len(), 1);
    assert!(diagnostics.contains(
        &"Unexpected text after entry header: extra\nnear entry 6".to_string(),
    ));
}

#[test]
fn missing_continuation_marker_is_reported() {
    let mut doc = String::new();
    doc.push_str("Logbook\nEntries from 1/2/2023 - 5 to 1/2/2023 - _\n\n-----\n\n");
    doc.push_str("5-5\n1/2/2023-1/2/2023\n\n");
    doc.push_str("Entry 5: 1/2/2023 started 9:30 PM finished 10:00 PM\n    Subject A\nfirst half (->)\n\n");
    doc.push_str("-----\n\n");
    doc.push_str("5-5\n1/2/2023-1/2/2023\n\n");
    doc.push_str("second half\n\n");
    doc.push_str("-----");
    let (logbook, diagnostics) = parse(&doc).unwrap();
    assert_eq!(logbook.entries().len(), 1);
    assert!(diagnostics.contains(
        &"no continuation marker after multi-page split\nnear entry 6".to_string(),
    ));
    assert_eq!(logbook.entries()[0].contents()[0].text(), "first halfsecond half");
}

#[test]
fn logbook_accessors_expose_the_parts() {
    let start = Mark::new(date(2023, 1, 2), 5);
    let logbook = Logbook::new(start.clone(), None, Vec::new());
    assert_eq!(*logbook.start(), start);
    assert_eq!(*logbook.end(), None);
    assert!(logbook.entries().is_empty());
    assert_eq!(start.effective_date(), date(2023, 1, 2));
    assert_eq!(start.entry_number(), 5);
}
