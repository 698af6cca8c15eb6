use vstd::prelude::*;
use crate::calendar::Date;
use crate::calendar::DateTime;
use crate::calendar::Time;
use crate::calendar::spec_next_day;
use crate::calendar::spec_prev_day;
use crate::calendar::time_lt;
use crate::lex::expect_literal;
use crate::lex::expect_value;
use crate::lex::msg_bad_date;
use crate::lex::msg_bad_number;
use crate::lex::msg_bad_time;
use crate::lex::msg_literal_mismatch;
use crate::lex::msg_literal_missing;
use crate::lex::msg_no_value;
use crate::lex::msg_number_too_large;
use crate::lex::parse_date;
use crate::lex::parse_number;
use crate::lex::parse_time;
use crate::lex::spec_parse_date;
use crate::lex::spec_parse_time;
use crate::text::all_digits;
use crate::text::dec_str;
use crate::text::has_prefix;
use crate::text::has_suffix;
use crate::text::spec_date_str;
use crate::text::spec_digits_val;
use crate::text::spec_find;
use crate::text::spec_lines;
use crate::text::spec_split;
use crate::text::spec_tokens;
use crate::Block;
use crate::BlockView;
use crate::Entry;
use crate::EntryView;
use crate::Logbook;
use crate::Mark;

verus! {

// ----- fixed pieces of the format -----

/// The page boundary marker.
pub open spec fn page_marker() -> Seq<char> {
    seq!['-', '-', '-', '-', '-']
}

/// The separator between components: one blank line.
pub open spec fn component_separator() -> Seq<char> {
    seq!['\n', '\n']
}

/// The indent that opens a subject line.
pub open spec fn subject_prefix() -> Seq<char> {
    seq![' ', ' ', ' ', ' ']
}

/// The marker closing a line of an entry that continues on a later page.
pub open spec fn multi_page_suffix() -> Seq<char> {
    seq![' ', '(', '-', '>', ')']
}

/// The marker opening the resumed line of a continued entry.
pub open spec fn multi_page_prefix() -> Seq<char> {
    seq!['(', '-', '>', ')', ' ']
}

/// The phrase that announces the entry range of the preamble.
pub open spec fn entry_range_start() -> Seq<char> {
    seq!['E', 'n', 't', 'r', 'i', 'e', 's', ' ', 'f', 'r', 'o', 'm']
}

/// Hour before which an entry counts as written on the previous day.
pub const NEXT_DAY: u32 = 6;

// ----- diagnostics -----

/// "expected page header, got page break"
pub open spec fn msg_break_expected_header() -> Seq<char> {
    "expected page header, got page break"@
}

/// "expected at least one entry after page header, got page break"
pub open spec fn msg_break_expected_entry() -> Seq<char> {
    "expected at least one entry after page header, got page break"@
}

/// "page header end date mismatch: ..."
pub open spec fn msg_page_end_date(header: Date, entry: Date) -> Seq<char> {
    "page header end date mismatch: header ends on "@ + spec_date_str(header)
        + ", last entry is "@ + spec_date_str(entry)
}

/// "page header end number mismatch: ..."
pub open spec fn msg_page_end_number(header: u32, entry: u32) -> Seq<char> {
    "page header end number mismatch: header ends on "@ + dec_str(header as int)
        + ", last entry is "@ + dec_str(entry as int)
}

/// "page header start date mismatch: ..."
pub open spec fn msg_page_start_date(header: Date, entry: Date) -> Seq<char> {
    "page header start date mismatch: header starts on "@ + spec_date_str(header)
        + ", first entry is "@ + spec_date_str(entry)
}

/// "page header start number mismatch: ..."
pub open spec fn msg_page_start_number(header: u32, entry: u32) -> Seq<char> {
    "page header start number mismatch: header starts on "@ + dec_str(header as int)
        + ", first entry is "@ + dec_str(entry as int)
}

/// "no separator between number and date ranges of page header"
pub open spec fn msg_header_no_split() -> Seq<char> {
    "no separator between number and date ranges of page header"@
}

/// "no separator between start and end of entry number range of page header"
pub open spec fn msg_header_no_number_separator() -> Seq<char> {
    "no separator between start and end of entry number range of page header"@
}

/// "no separator between start and end of date range of page header"
pub open spec fn msg_header_no_date_separator() -> Seq<char> {
    "no separator between start and end of date range of page header"@
}

/// "entry has no header"
pub open spec fn msg_entry_no_header() -> Seq<char> {
    "entry has no header"@
}

/// "missing separator between entry number and date in entry header"
pub open spec fn msg_no_number_date_separator() -> Seq<char> {
    "missing separator between entry number and date in entry header"@
}

/// "Unexpected text after entry header: {extra}"
pub open spec fn msg_trailing_text(extra: Seq<char>) -> Seq<char> {
    "Unexpected text after entry header: "@ + extra
}

/// "Missing entry for {date}"
pub open spec fn msg_missing_entry(date: Date) -> Seq<char> {
    "Missing entry for "@ + spec_date_str(date)
}

/// "Expected {date} for effective date, got {date}"
pub open spec fn msg_date_mismatch(expected: Date, got: Date) -> Seq<char> {
    "Expected "@ + spec_date_str(expected) + " for effective date, got "@ + spec_date_str(got)
}

/// "Expected {number} for entry number, got {number}"
pub open spec fn msg_number_mismatch(expected: u32, got: u32) -> Seq<char> {
    "Expected "@ + dec_str(expected as int) + " for entry number, got "@ + dec_str(got as int)
}

/// "continuation of multi-page entry started with a new subject line ..."
pub open spec fn msg_subject_after_split() -> Seq<char> {
    "continuation of multi-page entry started with a new subject line instead of a continuation marker"@
}

/// "no continuation marker after multi-page split"
pub open spec fn msg_no_continuation_marker() -> Seq<char> {
    "no continuation marker after multi-page split"@
}

/// "no subject line"
pub open spec fn msg_no_subject_line() -> Seq<char> {
    "no subject line"@
}

/// "entry position out of calendar range"
pub open spec fn msg_position_out_of_range() -> Seq<char> {
    "entry position out of calendar range"@
}

/// "logbook does not end with specified end date and/or entry number, ..."
pub open spec fn msg_end_mismatch(expected: Mark, got: Mark) -> Seq<char> {
    "logbook does not end with specified end date and/or entry number, expected "@
        + spec_date_str(expected.effective_date) + " "@ + dec_str(expected.entry_number as int)
        + " but got "@ + spec_date_str(got.effective_date) + " "@ + dec_str(got.entry_number as int)
}

/// "an end entry was specified but the logbook contains no entries"
pub open spec fn msg_no_entries_but_end() -> Seq<char> {
    "an end entry was specified but the logbook contains no entries"@
}

/// A diagnostic suffixed with the nearest known entry number.
pub open spec fn with_near(msg: Seq<char>, near: u32) -> Seq<char> {
    msg + "\nnear entry "@ + dec_str(near as int)
}

// ----- the parser state -----

/// Expectations imposed by the most recent page header
#[derive(Debug, Clone, Copy, PartialEq, Eq, Structural)]
pub enum PageHeaderExpectations {
    /// The previous page was just finished, expect a new header
    NewHeader,
    /// The page header was just read, check the first entry next
    StartAndEnd {
        start_recorded_date: Date,
        start_number: u32,
        end_recorded_date: Date,
        end_number: u32,
    },
    /// The first entry on the page has been confirmed, check the last entry on
    /// page end
    End { end_recorded_date: Date, end_number: u32 },
    /// There was an error parsing the previous page header, there are no
    /// constraints to apply but a new page header should not
    /// be immediately expected
    Error,
}

/// The mathematical content of an `EntryParser`.
pub ghost struct ParserView {
    pub next_entry_position: Mark,
    pub current_entry: EntryView,
    pub multi_page_flag: bool,
    pub page_header_expectations: PageHeaderExpectations,
    pub read_entries: Seq<EntryView>,
    pub errors: Seq<Seq<char>>,
    pub fatal: Option<Seq<char>>,
}

/// A state-based parser for entries (and page headers)
#[derive(Debug)]
pub struct EntryParser {
    /// The next expected entry position
    pub next_entry_position: Mark,
    /// The entry currently being read
    pub current_entry: Entry,
    /// State flag for multi-page entries
    pub multi_page_flag: bool,
    /// Expectations imposed by the most recent page header
    pub page_header_expectations: PageHeaderExpectations,
    /// Previously-read entries
    pub read_entries: Vec<Entry>,
    /// Errors encountered during parsing
    pub errors: Vec<String>,
    /// The failure that ended the parse outright, if one was met: the
    /// format cannot represent a content line that belongs to no block
    pub fatal: Option<String>,
}

impl View for EntryParser {
    type V = ParserView;

    open spec fn view(&self) -> ParserView {
        ParserView {
            next_entry_position: self.next_entry_position,
            current_entry: self.current_entry@,
            multi_page_flag: self.multi_page_flag,
            page_header_expectations: self.page_header_expectations,
            read_entries: self.read_entries@.map_values(|e: Entry| e@),
            errors: self.errors@.map_values(|s: String| s@),
            fatal: if self.fatal is Some {
                Some(self.fatal->Some_0@)
            } else {
                None
            },
        }
    }
}

/// The state a parser starts from, expecting the logbook's first entry at
/// `start`.
pub open spec fn spec_init(start: Mark) -> ParserView {
    ParserView {
        next_entry_position: start,
        current_entry: EntryView {
            position: Mark {
                effective_date: Date { year: 0, month: 1, day: 1 },
                entry_number: 0,
            },
            started: DateTime {
                date: Date { year: 0, month: 1, day: 1 },
                time: Time { hour: 0, minute: 0 },
            },
            finished: DateTime {
                date: Date { year: 0, month: 1, day: 1 },
                time: Time { hour: 0, minute: 0 },
            },
            contents: Seq::empty(),
        },
        multi_page_flag: false,
        page_header_expectations: PageHeaderExpectations::NewHeader,
        read_entries: Seq::empty(),
        errors: Seq::empty(),
        fatal: None,
    }
}

/// `s` with one more diagnostic, located at the nearest known entry.
pub open spec fn record_err(s: ParserView, msg: Seq<char>) -> ParserView {
    ParserView { errors: s.errors.push(with_near(msg, s.next_entry_position.entry_number)), ..s }
}

// ----- the transition function, one chunk at a time -----

/// What one page-break chunk does to the parser.
#[verifier::opaque]
pub open spec fn step_break(s: ParserView) -> ParserView {
    let s1 = match s.page_header_expectations {
        PageHeaderExpectations::NewHeader => record_err(s, msg_break_expected_header()),
        PageHeaderExpectations::StartAndEnd { .. } => record_err(s, msg_break_expected_entry()),
        PageHeaderExpectations::End { end_recorded_date, end_number } => {
            let sa = if s.current_entry.started.date != end_recorded_date {
                record_err(s, msg_page_end_date(end_recorded_date, s.current_entry.started.date))
            } else {
                s
            };
            if s.current_entry.position.entry_number != end_number {
                record_err(
                    sa,
                    msg_page_end_number(end_number, s.current_entry.position.entry_number),
                )
            } else {
                sa
            }
        },
        PageHeaderExpectations::Error => s,
    };
    ParserView { page_header_expectations: PageHeaderExpectations::NewHeader, ..s1 }
}

/// What a page-header chunk declares, or the complaint it earns.
#[verifier::opaque]
pub open spec fn spec_parse_page_header(chunk: Seq<char>) -> Result<
    (Date, u32, Date, u32),
    Seq<char>,
> {
    match spec_find(chunk, seq!['\n'], 0) {
        None => Err(msg_header_no_split()),
        Some(i) => {
            let number_range = chunk.take(i);
            let date_range = chunk.skip(i + 1);
            match spec_find(number_range, seq!['-'], 0) {
                None => Err(msg_header_no_number_separator()),
                Some(j) => {
                    let number_start = number_range.take(j);
                    let number_end = number_range.skip(j + 1);
                    match spec_find(date_range, seq!['-'], 0) {
                        None => Err(msg_header_no_date_separator()),
                        Some(k) => {
                            let date_start = date_range.take(k);
                            let date_end = date_range.skip(k + 1);
                            match spec_parse_date(date_start) {
                                None => Err(msg_bad_date("page header start date"@)),
                                Some(sd) => match spec_parse_number_msg(
                                    number_start,
                                    "page header start number"@,
                                ) {
                                    Err(m) => Err(m),
                                    Ok(sn) => match spec_parse_date(date_end) {
                                        None => Err(msg_bad_date("page header end date"@)),
                                        Some(ed) => match spec_parse_number_msg(
                                            number_end,
                                            "page header end number"@,
                                        ) {
                                            Err(m) => Err(m),
                                            Ok(en) => Ok((sd, sn, ed, en)),
                                        },
                                    },
                                },
                            }
                        },
                    }
                },
            }
        },
    }
}

/// The number a token denotes, or the complaint its form earns.
pub open spec fn spec_parse_number_msg(tok: Seq<char>, name: Seq<char>) -> Result<u32, Seq<char>> {
    if tok.len() == 0 || !all_digits(tok) {
        Err(msg_bad_number(name))
    } else if spec_digits_val(tok) > u32::MAX {
        Err(msg_number_too_large(name))
    } else {
        Ok(spec_digits_val(tok) as u32)
    }
}

/// What one page-header chunk does to the parser.
#[verifier::opaque]
pub open spec fn step_header(s: ParserView, chunk: Seq<char>) -> ParserView {
    match spec_parse_page_header(chunk) {
        Ok((sd, sn, ed, en)) => ParserView {
            page_header_expectations: PageHeaderExpectations::StartAndEnd {
                start_recorded_date: sd,
                start_number: sn,
                end_recorded_date: ed,
                end_number: en,
            },
            ..s
        },
        Err(m) => record_err(
            ParserView { page_header_expectations: PageHeaderExpectations::Error, ..s },
            m,
        ),
    }
}

/// Record a complaint when the header-declared first entry of the page
/// disagrees with the entry actually first on it.
pub open spec fn step_page_start_check(s: ParserView, pending: Option<(Date, u32)>) -> ParserView {
    match pending {
        None => s,
        Some((date, number)) => {
            let sa = if date != s.current_entry.started.date {
                record_err(s, msg_page_start_date(date, s.current_entry.started.date))
            } else {
                s
            };
            if number != s.current_entry.position.entry_number {
                record_err(
                    sa,
                    msg_page_start_number(number, s.current_entry.position.entry_number),
                )
            } else {
                sa
            }
        },
    }
}

/// Record a complaint when a header word is missing or not the keyword the
/// format asks for.
pub open spec fn check_literal_word(
    s: ParserView,
    words: Seq<Seq<char>>,
    k: int,
    lit: Seq<char>,
    name: Seq<char>,
) -> ParserView {
    if words.len() <= k {
        record_err(s, msg_literal_missing(name, lit))
    } else if words[k] != lit {
        record_err(s, msg_literal_mismatch(words[k], name, lit))
    } else {
        s
    }
}

/// What one line of an entry's body does to the parser; `false` when the
/// line belongs to no block, which ends the whole parse.
pub open spec fn step_line(s: ParserView, line: Seq<char>) -> (ParserView, bool) {
    if has_prefix(line, subject_prefix()) {
        let subject = line.skip(4);
        let sa = if s.multi_page_flag {
            record_err(s, msg_subject_after_split())
        } else {
            s
        };
        let sb = ParserView {
            multi_page_flag: false,
            current_entry: EntryView {
                contents: sa.current_entry.contents.push(
                    BlockView { subject, text: Seq::empty() },
                ),
                ..sa.current_entry
            },
            ..sa
        };
        (sb, true)
    } else {
        let stripped_front: Seq<char> = if s.multi_page_flag && has_prefix(
            line,
            multi_page_prefix(),
        ) {
            line.skip(5)
        } else {
            line
        };
        let sa = if s.multi_page_flag && !has_prefix(line, multi_page_prefix()) {
            record_err(s, msg_no_continuation_marker())
        } else {
            s
        };
        let continues = has_suffix(stripped_front, multi_page_suffix());
        let content: Seq<char> = if continues {
            stripped_front.take(stripped_front.len() - 5)
        } else {
            stripped_front
        };
        let sb = ParserView { multi_page_flag: continues, ..sa };
        if sb.current_entry.contents.len() == 0 {
            (
                ParserView {
                    fatal: Some(
                        with_near(
                            msg_no_subject_line(),
                            sb.next_entry_position.entry_number,
                        ),
                    ),
                    ..sb
                },
                false,
            )
        } else {
            let n = sb.current_entry.contents.len();
            let last = sb.current_entry.contents[n - 1];
            let sc = ParserView {
                current_entry: EntryView {
                    contents: sb.current_entry.contents.update(
                        n - 1,
                        BlockView { subject: last.subject, text: last.text + content },
                    ),
                    ..sb.current_entry
                },
                ..sb
            };
            (sc, true)
        }
    }
}

/// Fold `step_line` over the lines from `i` on, stopping at a line that
/// cannot be placed.
pub open spec fn fold_lines(s: ParserView, lines: Seq<Seq<char>>, i: int) -> (ParserView, bool)
    decreases lines.len() - i,
{
    if i < 0 || i >= lines.len() {
        (s, true)
    } else {
        let (s1, ok) = step_line(s, lines[i]);
        if !ok {
            (s1, false)
        } else {
            fold_lines(s1, lines, i + 1)
        }
    }
}

/// Process an entry chunk's body lines, and close the entry unless it
/// continues on a later page.
pub open spec fn step_entry_lines(s: ParserView, lines: Seq<Seq<char>>, from: int) -> ParserView {
    let (s1, ok) = fold_lines(s, lines, from);
    if ok && !s1.multi_page_flag {
        ParserView { read_entries: s1.read_entries.push(s1.current_entry), ..s1 }
    } else {
        s1
    }
}

/// What the header line of a fresh entry chunk yields: the parser after
/// recording any keyword complaints, and either the entry's parsed fields
/// or the complaint that ends the chunk.
pub open spec fn spec_parse_entry_header(s: ParserView, header: Seq<char>) -> (
    ParserView,
    Result<(u32, Date, Time, Time), Seq<char>>,
) {
    let words = spec_split(header, seq![' ']);
    let s1 = check_literal_word(s, words, 0, "Entry"@, "entry header start"@);
    if words.len() <= 1 {
        (s1, Err(msg_no_value("entry number"@, "entry header"@)))
    } else {
        let number_tok = words[1];
        if !has_suffix(number_tok, seq![':']) {
            (s1, Err(msg_no_number_date_separator()))
        } else {
            let number_digits = number_tok.take(number_tok.len() - 1);
            if words.len() <= 2 {
                (s1, Err(msg_no_value("entry date"@, "entry header"@)))
            } else {
                let date_tok = words[2];
                let s2 = check_literal_word(s1, words, 3, "started"@, "entry header started"@);
                if words.len() <= 4 {
                    (s2, Err(msg_no_value("entry started time"@, "entry header"@)))
                } else if words.len() <= 5 {
                    (s2, Err(msg_no_value("entry started period"@, "entry header"@)))
                } else {
                    let s3 = check_literal_word(
                        s2,
                        words,
                        6,
                        "finished"@,
                        "entry header finished"@,
                    );
                    if words.len() <= 7 {
                        (s3, Err(msg_no_value("entry finished time"@, "entry header"@)))
                    } else if words.len() <= 8 {
                        (s3, Err(msg_no_value("entry finished period"@, "entry header"@)))
                    } else {
                        let s4 = if words.len() > 9 {
                            record_err(s3, msg_trailing_text(words[9]))
                        } else {
                            s3
                        };
                        match spec_parse_number_msg(number_digits, "entry number"@) {
                            Err(m) => (s4, Err(m)),
                            Ok(number) => match spec_parse_date(words[2]) {
                                None => (s4, Err(msg_bad_date("entry date"@))),
                                Some(start_date) => match spec_parse_time(words[4], words[5]) {
                                    None => (s4, Err(msg_bad_time("entry start time"@))),
                                    Some(start_time) => match spec_parse_time(
                                        words[7],
                                        words[8],
                                    ) {
                                        None => (s4, Err(msg_bad_time("entry finish time"@))),
                                        Some(end_time) => (
                                            s4,
                                            Ok((number, start_date, start_time, end_time)),
                                        ),
                                    },
                                },
                            },
                        }
                    }
                }
            }
        }
    }
}

/// The timestamps and effective date an entry header's fields determine:
/// a finish on the next day when the clock wrapped past midnight, and
/// attribution to the previous day for small-hours starts.
pub open spec fn spec_entry_times(start_date: Date, start_time: Time, end_time: Time) -> Option<
    (DateTime, DateTime, Date),
> {
    let end_date_opt = if time_lt(start_time, end_time) {
        Some(start_date)
    } else {
        spec_next_day(start_date)
    };
    let eff_opt = if start_time.hour > NEXT_DAY {
        Some(start_date)
    } else {
        spec_prev_day(start_date)
    };
    match (end_date_opt, eff_opt) {
        (Some(end_date), Some(eff)) => Some(
            (
                DateTime { date: start_date, time: start_time },
                DateTime { date: end_date, time: end_time },
                eff,
            ),
        ),
        _ => None,
    }
}

/// What a fresh (non-continuation) entry chunk does to the parser.
pub open spec fn step_entry_new(
    s: ParserView,
    pending: Option<(Date, u32)>,
    lines: Seq<Seq<char>>,
) -> ParserView {
    let expected_here = s.next_entry_position;
    if spec_next_day(expected_here.effective_date) is None || expected_here.entry_number
        == u32::MAX {
        record_err(s, msg_position_out_of_range())
    } else {
        let next1 = Mark {
            effective_date: spec_next_day(expected_here.effective_date)->Some_0,
            entry_number: (expected_here.entry_number + 1) as u32,
        };
        let s1 = ParserView {
            next_entry_position: next1,
            current_entry: EntryView {
                position: expected_here,
                started: DateTime {
                    date: expected_here.effective_date,
                    time: Time { hour: 21, minute: 0 },
                },
                ..s.current_entry
            },
            ..s
        };
        if lines.len() == 0 {
            record_err(s1, msg_entry_no_header())
        } else {
            let (s2, header) = spec_parse_entry_header(s1, lines[0]);
            match header {
                Err(m) => record_err(s2, m),
                Ok((number, start_date, start_time, end_time)) => match spec_entry_times(
                    start_date,
                    start_time,
                    end_time,
                ) {
                    None => record_err(s2, msg_position_out_of_range()),
                    Some((started, finished, eff)) => {
                        if spec_next_day(eff) is None || number == u32::MAX {
                            record_err(s2, msg_position_out_of_range())
                        } else {
                            let s3 = if expected_here.effective_date != eff {
                                if spec_next_day(expected_here.effective_date) == Some(eff) {
                                    record_err(
                                        s2,
                                        msg_missing_entry(expected_here.effective_date),
                                    )
                                } else {
                                    record_err(
                                        s2,
                                        msg_date_mismatch(expected_here.effective_date, eff),
                                    )
                                }
                            } else {
                                s2
                            };
                            let s4 = if expected_here.entry_number != number {
                                record_err(
                                    s3,
                                    msg_number_mismatch(expected_here.entry_number, number),
                                )
                            } else {
                                s3
                            };
                            let s5 = ParserView {
                                next_entry_position: Mark {
                                    effective_date: spec_next_day(eff)->Some_0,
                                    entry_number: (number + 1) as u32,
                                },
                                current_entry: EntryView {
                                    position: Mark { effective_date: eff, entry_number: number },
                                    started,
                                    finished,
                                    contents: Seq::empty(),
                                },
                                ..s4
                            };
                            let s6 = step_page_start_check(s5, pending);
                            step_entry_lines(s6, lines, 1)
                        }
                    },
                },
            }
        }
    }
}

/// What an entry chunk does to the parser.
#[verifier::opaque]
pub open spec fn step_entry(s: ParserView, chunk: Seq<char>) -> ParserView {
    let pending: Option<(Date, u32)> = match s.page_header_expectations {
        PageHeaderExpectations::StartAndEnd { start_recorded_date, start_number, .. } => Some(
            (start_recorded_date, start_number),
        ),
        _ => None,
    };
    let s0 = match s.page_header_expectations {
        PageHeaderExpectations::StartAndEnd { end_recorded_date, end_number, .. } => ParserView {
            page_header_expectations: PageHeaderExpectations::End {
                end_recorded_date,
                end_number,
            },
            ..s
        },
        _ => s,
    };
    let lines = spec_lines(chunk);
    if !s0.multi_page_flag {
        step_entry_new(s0, pending, lines)
    } else {
        step_entry_lines(step_page_start_check(s0, pending), lines, 0)
    }
}

/// What one chunk of the document body does to the parser; after a
/// failure that ends the parse, further chunks change nothing.
#[verifier::opaque]
pub open spec fn spec_step(s: ParserView, chunk: Seq<char>) -> ParserView {
    if s.fatal is Some {
        s
    } else if chunk == page_marker() {
        step_break(s)
    } else if s.page_header_expectations is NewHeader {
        step_header(s, chunk)
    } else {
        step_entry(s, chunk)
    }
}

/// The parser state after consuming the chunks from `i` on.
pub open spec fn fold_steps(s: ParserView, chunks: Seq<Seq<char>>, i: int) -> ParserView
    decreases chunks.len() - i,
{
    if i < 0 || i >= chunks.len() {
        s
    } else {
        fold_steps(spec_step(s, chunks[i]), chunks, i + 1)
    }
}

/// The entries and diagnostics the parser hands back, after holding the
/// last entry to a declared end mark.
pub open spec fn spec_finish(s: ParserView, end: Option<Mark>) -> (Seq<EntryView>, Seq<Seq<char>>) {
    match end {
        None => (s.read_entries, s.errors),
        Some(end_mark) => {
            if s.read_entries.len() == 0 {
                (
                    s.read_entries,
                    s.errors.push(
                        with_near(
                            msg_no_entries_but_end(),
                            s.next_entry_position.entry_number,
                        ),
                    ),
                )
            } else if s.read_entries.last().position != end_mark {
                (
                    s.read_entries,
                    s.errors.push(
                        with_near(
                            msg_end_mismatch(end_mark, s.read_entries.last().position),
                            s.next_entry_position.entry_number,
                        ),
                    ),
                )
            } else {
                (s.read_entries, s.errors)
            }
        },
    }
}

// ----- building located diagnostics -----

impl EntryParser {
    /// Record an error into the parser's memory
    fn push_err(&mut self, msg: String)
        ensures
            final(self)@ == record_err(old(self)@, msg@),
    {
        let ghost text = msg@;
        let mut m = msg;
        m.append("\nnear entry ");
        let num = crate::text::u32_string(self.next_entry_position.entry_number);
        m.append(num.as_str());
        proof {
            assert(m@ =~= with_near(text, old(self).next_entry_position.entry_number));
        }
        self.errors.push(m);
        proof {
            let f = |s: String| s@;
            assert(self.errors@.map_values(f) =~= old(self).errors@.map_values(f).push(
                with_near(text, old(self).next_entry_position.entry_number),
            ));
        }
    }
}

impl EntryParser {
    /// End the parse outright: the format cannot represent this input
    fn set_fatal(&mut self, msg: String)
        ensures
            final(self)@ == (ParserView {
                fatal: Some(
                    with_near(msg@, old(self)@.next_entry_position.entry_number),
                ),
                ..old(self)@
            }),
    {
        let ghost text = msg@;
        let mut m = msg;
        m.append("\nnear entry ");
        let num = crate::text::u32_string(self.next_entry_position.entry_number);
        m.append(num.as_str());
        proof {
            assert(m@ =~= with_near(text, old(self).next_entry_position.entry_number));
        }
        self.fatal = Some(m);
    }
}

fn build_trailing_text(extra: &str) -> (r: String)
    ensures
        r@ == msg_trailing_text(extra@),
{
    let mut m = String::from_str("Unexpected text after entry header: ");
    m.append(extra);
    proof {
        assert(m@ =~= msg_trailing_text(extra@));
    }
    m
}

fn build_missing_entry(date: &Date) -> (r: String)
    ensures
        r@ == msg_missing_entry(*date),
{
    let mut m = String::from_str("Missing entry for ");
    let d = crate::text::date_string(date);
    m.append(d.as_str());
    proof {
        assert(m@ =~= msg_missing_entry(*date));
    }
    m
}

fn build_date_mismatch(expected: &Date, got: &Date) -> (r: String)
    ensures
        r@ == msg_date_mismatch(*expected, *got),
{
    let mut m = String::from_str("Expected ");
    let e = crate::text::date_string(expected);
    m.append(e.as_str());
    m.append(" for effective date, got ");
    let g = crate::text::date_string(got);
    m.append(g.as_str());
    proof {
        assert(m@ =~= msg_date_mismatch(*expected, *got));
    }
    m
}

fn build_number_mismatch(expected: u32, got: u32) -> (r: String)
    ensures
        r@ == msg_number_mismatch(expected, got),
{
    let mut m = String::from_str("Expected ");
    let e = crate::text::u32_string(expected);
    m.append(e.as_str());
    m.append(" for entry number, got ");
    let g = crate::text::u32_string(got);
    m.append(g.as_str());
    proof {
        assert(m@ =~= msg_number_mismatch(expected, got));
    }
    m
}

fn build_page_mark_mismatch(
    start: bool,
    date: bool,
    header: &String,
    entry: &String,
) -> (r: String)
    ensures
        start && date ==> r@ == "page header start date mismatch: header starts on "@ + header@
            + ", first entry is "@ + entry@,
        start && !date ==> r@ == "page header start number mismatch: header starts on "@ + header@
            + ", first entry is "@ + entry@,
        !start && date ==> r@ == "page header end date mismatch: header ends on "@ + header@
            + ", last entry is "@ + entry@,
        !start && !date ==> r@ == "page header end number mismatch: header ends on "@ + header@
            + ", last entry is "@ + entry@,
{
    let mut m = if start {
        if date {
            String::from_str("page header start date mismatch: header starts on ")
        } else {
            String::from_str("page header start number mismatch: header starts on ")
        }
    } else {
        if date {
            String::from_str("page header end date mismatch: header ends on ")
        } else {
            String::from_str("page header end number mismatch: header ends on ")
        }
    };
    m.append(header.as_str());
    if start {
        m.append(", first entry is ");
    } else {
        m.append(", last entry is ");
    }
    m.append(entry.as_str());
    proof {
        if start {
            if date {
                assert(m@ =~= "page header start date mismatch: header starts on "@ + header@
                    + ", first entry is "@ + entry@);
            } else {
                assert(m@ =~= "page header start number mismatch: header starts on "@ + header@
                    + ", first entry is "@ + entry@);
            }
        } else {
            if date {
                assert(m@ =~= "page header end date mismatch: header ends on "@ + header@
                    + ", last entry is "@ + entry@);
            } else {
                assert(m@ =~= "page header end number mismatch: header ends on "@ + header@
                    + ", last entry is "@ + entry@);
            }
        }
    }
    m
}

fn build_end_mismatch(expected: &Mark, got: &Mark) -> (r: String)
    ensures
        r@ == msg_end_mismatch(*expected, *got),
{
    let mut m = String::from_str(
        "logbook does not end with specified end date and/or entry number, expected ",
    );
    let ed = crate::text::date_string(&expected.effective_date);
    m.append(ed.as_str());
    m.append(" ");
    let en = crate::text::u32_string(expected.entry_number);
    m.append(en.as_str());
    m.append(" but got ");
    let gd = crate::text::date_string(&got.effective_date);
    m.append(gd.as_str());
    m.append(" ");
    let gn = crate::text::u32_string(got.entry_number);
    m.append(gn.as_str());
    proof {
        assert(m@ =~= msg_end_mismatch(*expected, *got));
    }
    m
}

// ----- entry timestamps -----

/// The timestamps and effective date determined by an entry header's start
/// date, start time and finish time, or `None` when they would leave the
/// calendar's range.
pub fn entry_times(start_date: Date, start_time: Time, end_time: Time) -> (r: Option<
    (DateTime, DateTime, Date),
>)
    ensures
        r == spec_entry_times(start_date, start_time, end_time),
{
    let end_date_opt = if start_time.before(&end_time) {
        Some(start_date)
    } else {
        start_date.next_day()
    };
    let eff_opt = if start_time.hour > NEXT_DAY {
        Some(start_date)
    } else {
        start_date.prev_day()
    };
    match (end_date_opt, eff_opt) {
        (Some(end_date), Some(eff)) => Some(
            (
                DateTime { date: start_date, time: start_time },
                DateTime { date: end_date, time: end_time },
                eff,
            ),
        ),
        _ => None,
    }
}

// ----- words of a header line -----

fn word_at<'a>(words: &Vec<&'a str>, k: usize) -> (r: Option<&'a str>)
    ensures
        match r {
            Some(w) => k < words@.len() && w@ == words@.map_values(|t: &str| t@)[k as int],
            None => k >= words@.len(),
        },
{
    if k < words.len() {
        Some(words[k])
    } else {
        None
    }
}

impl EntryParser {
    fn check_literal_word_ex(&mut self, words: &Vec<&str>, k: usize, lit: &str, name: &str)
        ensures
            final(self)@ == check_literal_word(
                old(self)@,
                words@.map_values(|t: &str| t@),
                k as int,
                lit@,
                name@,
            ),
    {
        match expect_literal(word_at(words, k), lit, name) {
            Ok(_) => {},
            Err(e) => {
                self.push_err(e);
            },
        }
    }

    fn step_break_ex(&mut self)
        ensures
            final(self)@ == step_break(old(self)@),
    {
        proof {
            reveal(step_break);
        }
        match self.page_header_expectations {
            PageHeaderExpectations::NewHeader => {
                self.push_err(String::from_str("expected page header, got page break"));
            },
            PageHeaderExpectations::StartAndEnd { .. } => {
                self.push_err(
                    String::from_str(
                        "expected at least one entry after page header, got page break",
                    ),
                );
            },
            PageHeaderExpectations::End { end_recorded_date, end_number } => {
                if self.current_entry.started.date != end_recorded_date {
                    let h = crate::text::date_string(&end_recorded_date);
                    let e = crate::text::date_string(&self.current_entry.started.date);
                    let m = build_page_mark_mismatch(false, true, &h, &e);
                    proof {
                        assert(m@ == msg_page_end_date(
                            end_recorded_date,
                            self.current_entry.started.date,
                        ));
                    }
                    self.push_err(m);
                }
                if self.current_entry.position.entry_number != end_number {
                    let h = crate::text::u32_string(end_number);
                    let e = crate::text::u32_string(self.current_entry.position.entry_number);
                    let m = build_page_mark_mismatch(false, false, &h, &e);
                    proof {
                        assert(m@ == msg_page_end_number(
                            end_number,
                            self.current_entry.position.entry_number,
                        ));
                    }
                    self.push_err(m);
                }
            },
            PageHeaderExpectations::Error => {},
        }
        self.page_header_expectations = PageHeaderExpectations::NewHeader;
    }

    fn step_header_ex(&mut self, chunk: &str)
        ensures
            final(self)@ == step_header(old(self)@, chunk@),
    {
        proof {
            reveal(step_header);
        }
        match parse_page_header_ex(chunk) {
            Ok((sd, sn, ed, en)) => {
                self.page_header_expectations = PageHeaderExpectations::StartAndEnd {
                    start_recorded_date: sd,
                    start_number: sn,
                    end_recorded_date: ed,
                    end_number: en,
                };
            },
            Err(e) => {
                self.page_header_expectations = PageHeaderExpectations::Error;
                self.push_err(e);
            },
        }
    }

    fn page_start_check_ex(&mut self, pending: Option<(Date, u32)>)
        ensures
            final(self)@ == step_page_start_check(old(self)@, pending),
    {
        match pending {
            None => {},
            Some((date, number)) => {
                if date != self.current_entry.started.date {
                    let h = crate::text::date_string(&date);
                    let e = crate::text::date_string(&self.current_entry.started.date);
                    let m = build_page_mark_mismatch(true, true, &h, &e);
                    proof {
                        assert(m@ == msg_page_start_date(date, self.current_entry.started.date));
                    }
                    self.push_err(m);
                }
                if number != self.current_entry.position.entry_number {
                    let h = crate::text::u32_string(number);
                    let e = crate::text::u32_string(self.current_entry.position.entry_number);
                    let m = build_page_mark_mismatch(true, false, &h, &e);
                    proof {
                        assert(m@ == msg_page_start_number(
                            number,
                            self.current_entry.position.entry_number,
                        ));
                    }
                    self.push_err(m);
                }
            },
        }
    }

    fn step_line_ex(&mut self, line: &str) -> (ok: bool)
        ensures
            final(self)@ == step_line(old(self)@, line@).0,
            ok == step_line(old(self)@, line@).1,
    {
        let sp = "    ";
        proof {
            reveal_strlit("    ");
            assert(sp@ =~= subject_prefix());
        }
        match crate::text::strip_prefix(line, sp) {
            Some(subject) => {
                if self.multi_page_flag {
                    self.push_err(
                        String::from_str(
                            "continuation of multi-page entry started with a new subject line instead of a continuation marker",
                        ),
                    );
                    self.multi_page_flag = false;
                }
                self.current_entry.contents.push(Block::new(subject.to_owned(), String::new()));
                proof {
                    let f = |b: Block| b@;
                    assert(self.current_entry.contents@.map_values(f)
                        =~= step_line(old(self)@, line@).0.current_entry.contents);
                }
                true
            },
            None => {
                let cp = "(->) ";
                let cs = " (->)";
                proof {
                    reveal_strlit("(->) ");
                    reveal_strlit(" (->)");
                    assert(cp@ =~= multi_page_prefix());
                    assert(cs@ =~= multi_page_suffix());
                }
                let mut line1: &str = line;
                if self.multi_page_flag {
                    match crate::text::strip_prefix(line, cp) {
                        Some(rest) => {
                            line1 = rest;
                        },
                        None => {
                            self.push_err(
                                String::from_str("no continuation marker after multi-page split"),
                            );
                        },
                    }
                }
                self.multi_page_flag = false;
                let line2: &str = match crate::text::strip_suffix(line1, cs) {
                    Some(front) => {
                        self.multi_page_flag = true;
                        front
                    },
                    None => line1,
                };
                if self.current_entry.contents.len() == 0 {
                    self.set_fatal(String::from_str("no subject line"));
                    return false;
                }
                let mut last = match self.current_entry.contents.pop() {
                    Some(b) => b,
                    None => {
                        proof {
                            assert(false);
                        }
                        Block::new(String::new(), String::new())
                    },
                };
                last.text.append(line2);
                self.current_entry.contents.push(last);
                proof {
                    let f = |b: Block| b@;
                    assert(self.current_entry.contents@.map_values(f)
                        =~= step_line(old(self)@, line@).0.current_entry.contents);
                }
                true
            },
        }
    }

    fn step_entry_lines_ex(&mut self, lines: &Vec<&str>, from: usize)
        ensures
            final(self)@ == step_entry_lines(
                old(self)@,
                lines@.map_values(|t: &str| t@),
                from as int,
            ),
    {
        let ghost l = lines@.map_values(|t: &str| t@);
        let ghost s0 = self@;
        let mut i = from;
        while i < lines.len()
            invariant
                from <= i,
                i <= lines@.len() || i == from,
                l == lines@.map_values(|t: &str| t@),
                l.len() == lines@.len(),
                s0 == old(self)@,
                fold_lines(s0, l, from as int) == fold_lines(self@, l, i as int),
            decreases lines@.len() - i,
        {
            let ghost prev = self@;
            let ok = self.step_line_ex(lines[i]);
            proof {
                assert(lines@[i as int]@ == l[i as int]);
                assert(step_line(prev, l[i as int]) == (self@, ok));
            }
            if !ok {
                proof {
                    assert(fold_lines(prev, l, i as int) == (self@, false));
                    assert(fold_lines(s0, l, from as int) == (self@, false));
                }
                return;
            }
            proof {
                assert(fold_lines(prev, l, i as int) == fold_lines(self@, l, i + 1));
            }
            i += 1;
        }
        proof {
            assert(fold_lines(self@, l, i as int) == (self@, true));
        }
        if !self.multi_page_flag {
            let ghost s1 = self@;
            let copy = self.current_entry.duplicate();
            self.read_entries.push(copy);
            proof {
                let f = |e: Entry| e@;
                assert(self.read_entries@.map_values(f) =~= s1.read_entries.push(s1.current_entry));
            }
        }
    }
}

fn parse_page_header_ex(chunk: &str) -> (r: Result<(Date, u32, Date, u32), String>)
    ensures
        match r {
            Ok(v) => spec_parse_page_header(chunk@) == Ok::<(Date, u32, Date, u32), Seq<char>>(v),
            Err(e) => spec_parse_page_header(chunk@) is Err && e@ == spec_parse_page_header(
                chunk@,
            )->Err_0,
        },
{
    let nl = "\n";
    let dash = "-";
    proof {
        reveal(spec_parse_page_header);
        reveal_strlit("\n");
        reveal_strlit("-");
        assert(nl@ =~= seq!['\n']);
        assert(dash@ =~= seq!['-']);
    }
    let n = chunk.unicode_len();
    let i = match crate::text::find_sub(chunk, nl, 0) {
        Some(i) => i,
        None => {
            return Err(
                String::from_str("no separator between number and date ranges of page header"),
            );
        },
    };
    proof {
        crate::text::lemma_find_range(chunk@, seq!['\n'], 0);
    }
    let number_range = chunk.substring_char(0, i);
    let date_range = chunk.substring_char(i + 1, n);
    let nn = number_range.unicode_len();
    let j = match crate::text::find_sub(number_range, dash, 0) {
        Some(j) => j,
        None => {
            return Err(
                String::from_str(
                    "no separator between start and end of entry number range of page header",
                ),
            );
        },
    };
    proof {
        crate::text::lemma_find_range(number_range@, seq!['-'], 0);
    }
    let number_start = number_range.substring_char(0, j);
    let number_end = number_range.substring_char(j + 1, nn);
    let dn = date_range.unicode_len();
    let k = match crate::text::find_sub(date_range, dash, 0) {
        Some(k) => k,
        None => {
            return Err(
                String::from_str(
                    "no separator between start and end of date range of page header",
                ),
            );
        },
    };
    proof {
        crate::text::lemma_find_range(date_range@, seq!['-'], 0);
    }
    let date_start = date_range.substring_char(0, k);
    let date_end = date_range.substring_char(k + 1, dn);
    let sd = match parse_date(date_start, "page header start date") {
        Ok(d) => d,
        Err(e) => {
            return Err(e);
        },
    };
    let sn = match parse_number(number_start, "page header start number") {
        Ok(v) => v,
        Err(e) => {
            return Err(e);
        },
    };
    let ed = match parse_date(date_end, "page header end date") {
        Ok(d) => d,
        Err(e) => {
            return Err(e);
        },
    };
    let en = match parse_number(number_end, "page header end number") {
        Ok(v) => v,
        Err(e) => {
            return Err(e);
        },
    };
    Ok((sd, sn, ed, en))
}

impl EntryParser {
    fn parse_entry_header_ex(&mut self, header: &str) -> (r: Result<(u32, Date, Time, Time), String>)
        ensures
            final(self)@ == spec_parse_entry_header(old(self)@, header@).0,
            match r {
                Ok(v) => spec_parse_entry_header(old(self)@, header@).1 == Ok::<
                    (u32, Date, Time, Time),
                    Seq<char>,
                >(v),
                Err(e) => spec_parse_entry_header(old(self)@, header@).1 is Err && e@
                    == spec_parse_entry_header(old(self)@, header@).1->Err_0,
            },
    {
        let space = " ";
        proof {
            reveal_strlit(" ");
            assert(space@ =~= seq![' ']);
        }
        let words = crate::text::split_str(header, space);
        self.check_literal_word_ex(&words, 0, "Entry", "entry header start");
        let number_tok = match expect_value(word_at(&words, 1), "entry number", "entry header") {
            Ok(v) => v,
            Err(e) => {
                return Err(e);
            },
        };
        let colon = ":";
        proof {
            reveal_strlit(":");
            assert(colon@ =~= seq![':']);
        }
        let number_digits = match crate::text::strip_suffix(number_tok, colon) {
            Some(d) => d,
            None => {
                return Err(
                    String::from_str(
                        "missing separator between entry number and date in entry header",
                    ),
                );
            },
        };
        let date_tok = match expect_value(word_at(&words, 2), "entry date", "entry header") {
            Ok(v) => v,
            Err(e) => {
                return Err(e);
            },
        };
        self.check_literal_word_ex(&words, 3, "started", "entry header started");
        let start_time_tok = match expect_value(
            word_at(&words, 4),
            "entry started time",
            "entry header",
        ) {
            Ok(v) => v,
            Err(e) => {
                return Err(e);
            },
        };
        let start_period_tok = match expect_value(
            word_at(&words, 5),
            "entry started period",
            "entry header",
        ) {
            Ok(v) => v,
            Err(e) => {
                return Err(e);
            },
        };
        self.check_literal_word_ex(&words, 6, "finished", "entry header finished");
        let end_time_tok = match expect_value(
            word_at(&words, 7),
            "entry finished time",
            "entry header",
        ) {
            Ok(v) => v,
            Err(e) => {
                return Err(e);
            },
        };
        let end_period_tok = match expect_value(
            word_at(&words, 8),
            "entry finished period",
            "entry header",
        ) {
            Ok(v) => v,
            Err(e) => {
                return Err(e);
            },
        };
        if words.len() > 9 {
            let m = build_trailing_text(words[9]);
            self.push_err(m);
        }
        let number = match parse_number(number_digits, "entry number") {
            Ok(v) => v,
            Err(e) => {
                return Err(e);
            },
        };
        let start_date = match parse_date(date_tok, "entry date") {
            Ok(v) => v,
            Err(e) => {
                return Err(e);
            },
        };
        let start_time = match parse_time(start_time_tok, start_period_tok, "entry start time") {
            Ok(v) => v,
            Err(e) => {
                return Err(e);
            },
        };
        let end_time = match parse_time(end_time_tok, end_period_tok, "entry finish time") {
            Ok(v) => v,
            Err(e) => {
                return Err(e);
            },
        };
        Ok((number, start_date, start_time, end_time))
    }

    fn step_entry_new_ex(&mut self, pending: Option<(Date, u32)>, lines: &Vec<&str>)
        ensures
            final(self)@ == step_entry_new(
                old(self)@,
                pending,
                lines@.map_values(|t: &str| t@),
            ),
    {
        let expected_here = self.next_entry_position;
        let next_date = expected_here.effective_date.next_day();
        if next_date.is_none() || expected_here.entry_number == u32::MAX {
            self.push_err(String::from_str("entry position out of calendar range"));
            return;
        }
        let nd = match next_date {
            Some(d) => d,
            None => {
                proof {
                    assert(false);
                }
                expected_here.effective_date
            },
        };
        self.next_entry_position = Mark {
            effective_date: nd,
            entry_number: expected_here.entry_number + 1,
        };
        self.current_entry.position = expected_here;
        self.current_entry.started = DateTime {
            date: expected_here.effective_date,
            time: Time { hour: 21, minute: 0 },
        };
        if lines.len() == 0 {
            self.push_err(String::from_str("entry has no header"));
            return;
        }
        let header_result = self.parse_entry_header_ex(lines[0]);
        let (number, start_date, start_time, end_time) = match header_result {
            Ok(v) => v,
            Err(m) => {
                self.push_err(m);
                return;
            },
        };
        let (started, finished, eff) = match entry_times(start_date, start_time, end_time) {
            Some(v) => v,
            None => {
                self.push_err(String::from_str("entry position out of calendar range"));
                return;
            },
        };
        let eff_next = eff.next_day();
        if eff_next.is_none() || number == u32::MAX {
            self.push_err(String::from_str("entry position out of calendar range"));
            return;
        }
        let en = match eff_next {
            Some(d) => d,
            None => {
                proof {
                    assert(false);
                }
                eff
            },
        };
        if expected_here.effective_date != eff {
            if nd == eff {
                let m = build_missing_entry(&expected_here.effective_date);
                self.push_err(m);
            } else {
                let m = build_date_mismatch(&expected_here.effective_date, &eff);
                self.push_err(m);
            }
        }
        if expected_here.entry_number != number {
            let m = build_number_mismatch(expected_here.entry_number, number);
            self.push_err(m);
        }
        self.next_entry_position = Mark { effective_date: en, entry_number: number + 1 };
        self.current_entry = Entry::new(
            Mark { effective_date: eff, entry_number: number },
            started,
            finished,
            Vec::new(),
        );
        proof {
            assert(self.current_entry@.contents =~= Seq::<BlockView>::empty());
        }
        self.page_start_check_ex(pending);
        self.step_entry_lines_ex(lines, 1);
    }

    fn step_entry_ex(&mut self, chunk: &str)
        ensures
            final(self)@ == step_entry(old(self)@, chunk@),
    {
        proof {
            reveal(step_entry);
        }
        let pending: Option<(Date, u32)> = match self.page_header_expectations {
            PageHeaderExpectations::StartAndEnd {
                start_recorded_date,
                start_number,
                end_recorded_date,
                end_number,
            } => {
                self.page_header_expectations = PageHeaderExpectations::End {
                    end_recorded_date,
                    end_number,
                };
                Some((start_recorded_date, start_number))
            },
            _ => None,
        };
        let lines = crate::text::split_lines(chunk);
        if !self.multi_page_flag {
            self.step_entry_new_ex(pending, &lines);
        } else {
            self.page_start_check_ex(pending);
            self.step_entry_lines_ex(&lines, 0);
        }
    }

    /// Create a new parser
    pub fn new(expected_start: Mark) -> (r: Self)
        ensures
            r@ == spec_init(expected_start),
    {
        let sentinel_date = Date { year: 0, month: 1, day: 1 };
        let sentinel = DateTime { date: sentinel_date, time: Time { hour: 0, minute: 0 } };
        let r = Self {
            next_entry_position: expected_start,
            current_entry: Entry::new(
                Mark::new(sentinel_date, 0),
                sentinel,
                sentinel,
                Vec::new(),
            ),
            multi_page_flag: false,
            page_header_expectations: PageHeaderExpectations::NewHeader,
            read_entries: Vec::new(),
            errors: Vec::new(),
            fatal: None,
        };
        proof {
            assert(r.current_entry@.contents =~= Seq::<BlockView>::empty());
            assert(r.read_entries@.map_values(|e: Entry| e@) =~= Seq::<EntryView>::empty());
            assert(r.errors@.map_values(|s: String| s@) =~= Seq::<Seq<char>>::empty());
        }
        r
    }

    /// Advance the parser over a chunk of input
    pub fn advance(self, chunk: &str) -> (r: Self)
        ensures
            r@ == spec_step(self@, chunk@),
    {
        let mut s = self;
        proof {
            reveal(spec_step);
        }
        if s.fatal.is_some() {
            return s;
        }
        let marker = "-----";
        proof {
            reveal_strlit("-----");
            assert(marker@ =~= page_marker());
        }
        if crate::text::str_eq(chunk, marker) {
            s.step_break_ex();
        } else if matches!(s.page_header_expectations, PageHeaderExpectations::NewHeader) {
            s.step_header_ex(chunk);
        } else {
            s.step_entry_ex(chunk);
        }
        s
    }

    /// Extract the parsed entries and any encountered errors
    pub fn finish(self, end: Option<Mark>) -> (r: (Vec<Entry>, Vec<String>))
        ensures
            r.0@.map_values(|e: Entry| e@) == spec_finish(self@, end).0,
            r.1@.map_values(|s: String| s@) == spec_finish(self@, end).1,
    {
        let mut s = self;
        match end {
            Some(end_mark) => {
                if s.read_entries.len() == 0 {
                    s.push_err(
                        String::from_str(
                            "an end entry was specified but the logbook contains no entries",
                        ),
                    );
                } else {
                    let last_pos = s.read_entries[s.read_entries.len() - 1].position;
                    proof {
                        let f = |e: Entry| e@;
                        assert(s.read_entries@.map_values(f).last()
                            == s.read_entries@.last()@);
                    }
                    if last_pos != end_mark {
                        let m = build_end_mismatch(&end_mark, &last_pos);
                        s.push_err(m);
                    }
                }
            },
            None => {},
        }
        (s.read_entries, s.errors)
    }
}

// ----- preamble and whole documents -----

/// "no entry range found"
pub open spec fn msg_no_entry_range() -> Seq<char> {
    "no entry range found"@
}

/// The start and optional end mark the preamble declares, or the complaint
/// it earns.
pub open spec fn spec_parse_preamble(s: Seq<char>) -> Result<(Mark, Option<Mark>), Seq<char>> {
    match spec_find(s, entry_range_start(), 0) {
        None => Err(msg_no_entry_range()),
        Some(i) => {
            let toks = spec_tokens(s.skip(i + 12), 0);
            if toks.len() < 1 {
                Err(msg_no_value("start date"@, "entry range"@))
            } else if toks.len() < 2 {
                Err(msg_literal_missing("entry range start separator"@, "-"@))
            } else if toks[1] != "-"@ {
                Err(msg_literal_mismatch(toks[1], "entry range start separator"@, "-"@))
            } else if toks.len() < 3 {
                Err(msg_no_value("start entry number"@, "entry range"@))
            } else if toks.len() < 4 {
                Err(msg_literal_missing("entry range separator"@, "to"@))
            } else if toks[3] != "to"@ {
                Err(msg_literal_mismatch(toks[3], "entry range separator"@, "to"@))
            } else if toks.len() < 5 {
                Err(msg_no_value("end date"@, "entry range"@))
            } else if toks.len() < 6 {
                Err(msg_literal_missing("entry range end separator"@, "-"@))
            } else if toks[5] != "-"@ {
                Err(msg_literal_mismatch(toks[5], "entry range end separator"@, "-"@))
            } else if toks.len() < 7 {
                Err(msg_no_value("end entry number"@, "entry range"@))
            } else {
                match spec_parse_date(toks[0]) {
                    None => Err(msg_bad_date("start date"@)),
                    Some(sd) => match spec_parse_number_msg(toks[2], "start entry number"@) {
                        Err(m) => Err(m),
                        Ok(sn) => {
                            let start = Mark { effective_date: sd, entry_number: sn };
                            if toks[6] == "_"@ {
                                Ok((start, None))
                            } else {
                                match spec_parse_date(toks[4]) {
                                    None => Err(msg_bad_date("end date"@)),
                                    Some(ed) => match spec_parse_number_msg(
                                        toks[6],
                                        "end entry number"@,
                                    ) {
                                        Err(m) => Err(m),
                                        Ok(en) => Ok(
                                            (
                                                start,
                                                Some(
                                                    Mark {
                                                        effective_date: ed,
                                                        entry_number: en,
                                                    },
                                                ),
                                            ),
                                        ),
                                    },
                                }
                            }
                        },
                    },
                }
            }
        },
    }
}

/// Parse the preamble of a logbook, extracting the start and end marks
fn parse_preamble(preamble: &str) -> (r: Result<(Mark, Option<Mark>), String>)
    ensures
        match r {
            Ok(v) => spec_parse_preamble(preamble@) == Ok::<(Mark, Option<Mark>), Seq<char>>(v),
            Err(e) => spec_parse_preamble(preamble@) is Err && e@ == spec_parse_preamble(
                preamble@,
            )->Err_0,
        },
{
    let phrase = "Entries from";
    proof {
        reveal_strlit("Entries from");
        assert(phrase@ =~= entry_range_start());
    }
    let n = preamble.unicode_len();
    let i = match crate::text::find_sub(preamble, phrase, 0) {
        Some(i) => i,
        None => {
            return Err(String::from_str("no entry range found"));
        },
    };
    proof {
        crate::text::lemma_find_range(preamble@, entry_range_start(), 0);
    }
    let rest = preamble.substring_char(i + 12, n);
    let toks = crate::text::split_tokens(rest);
    let start_date_tok = match expect_value(word_at(&toks, 0), "start date", "entry range") {
        Ok(v) => v,
        Err(e) => {
            return Err(e);
        },
    };
    match expect_literal(word_at(&toks, 1), "-", "entry range start separator") {
        Ok(_) => {},
        Err(e) => {
            return Err(e);
        },
    }
    let start_number_tok = match expect_value(
        word_at(&toks, 2),
        "start entry number",
        "entry range",
    ) {
        Ok(v) => v,
        Err(e) => {
            return Err(e);
        },
    };
    match expect_literal(word_at(&toks, 3), "to", "entry range separator") {
        Ok(_) => {},
        Err(e) => {
            return Err(e);
        },
    }
    let end_date_tok = match expect_value(word_at(&toks, 4), "end date", "entry range") {
        Ok(v) => v,
        Err(e) => {
            return Err(e);
        },
    };
    match expect_literal(word_at(&toks, 5), "-", "entry range end separator") {
        Ok(_) => {},
        Err(e) => {
            return Err(e);
        },
    }
    let end_number_tok = match expect_value(word_at(&toks, 6), "end entry number", "entry range") {
        Ok(v) => v,
        Err(e) => {
            return Err(e);
        },
    };
    let sd = match parse_date(start_date_tok, "start date") {
        Ok(v) => v,
        Err(e) => {
            return Err(e);
        },
    };
    let sn = match parse_number(start_number_tok, "start entry number") {
        Ok(v) => v,
        Err(e) => {
            return Err(e);
        },
    };
    let start = Mark { effective_date: sd, entry_number: sn };
    if crate::text::str_eq(end_number_tok, "_") {
        Ok((start, None))
    } else {
        let ed = match parse_date(end_date_tok, "end date") {
            Ok(v) => v,
            Err(e) => {
                return Err(e);
            },
        };
        let en = match parse_number(end_number_tok, "end entry number") {
            Ok(v) => v,
            Err(e) => {
                return Err(e);
            },
        };
        Ok((start, Some(Mark { effective_date: ed, entry_number: en })))
    }
}

/// What a whole document denotes: its declared start and end, the entries
/// reconstructed from its body, and the diagnostics gathered on the way —
/// or the complaint of an unreadable preamble.
pub open spec fn spec_parse(s: Seq<char>) -> Result<
    (Mark, Option<Mark>, Seq<EntryView>, Seq<Seq<char>>),
    Seq<char>,
> {
    match spec_find(s, page_marker() + component_separator(), 0) {
        None => Err("Could not parse preamble - no page boundary markers"@),
        Some(i) => match spec_parse_preamble(s.take(i)) {
            Err(m) => Err("Could not parse preamble - "@ + m),
            Ok((start, end)) => {
                let chunks = spec_split(s.skip(i + 7), component_separator());
                let st = fold_steps(spec_init(start), chunks, 0);
                if st.fatal is Some {
                    Err(st.fatal->Some_0)
                } else {
                    Ok((start, end, spec_finish(st, end).0, spec_finish(st, end).1))
                }
            },
        },
    }
}

/// Parse a logbook, returning it with the diagnostics gathered on the
/// way; the parse fails outright when the preamble cannot be read or a
/// content line belongs to no block
#[verifier::rlimit(50)]
pub fn parse(logbook: &str) -> (r: Result<(Logbook, Vec<String>), String>)
    ensures
        match r {
            Ok(v) => spec_parse(logbook@) is Ok && v.0@.start == spec_parse(logbook@)->Ok_0.0
                && v.0@.end == spec_parse(logbook@)->Ok_0.1 && v.0@.entries == spec_parse(
                logbook@,
            )->Ok_0.2 && v.1@.map_values(|s: String| s@) == spec_parse(logbook@)->Ok_0.3,
            Err(e) => spec_parse(logbook@) is Err && e@ == spec_parse(logbook@)->Err_0,
        },
{
    let sep = "-----\n\n";
    proof {
        reveal_strlit("-----\n\n");
        assert(sep@ =~= page_marker() + component_separator());
    }
    let n = logbook.unicode_len();
    let i = match crate::text::find_sub(logbook, sep, 0) {
        Some(i) => i,
        None => {
            return Err(String::from_str("Could not parse preamble - no page boundary markers"));
        },
    };
    proof {
        crate::text::lemma_find_range(logbook@, sep@, 0);
    }
    let preamble = logbook.substring_char(0, i);
    let body = logbook.substring_char(i + 7, n);
    let (start, end) = match parse_preamble(preamble) {
        Ok(v) => v,
        Err(e) => {
            let mut m = String::from_str("Could not parse preamble - ");
            m.append(e.as_str());
            proof {
                assert(m@ =~= "Could not parse preamble - "@ + e@);
            }
            return Err(m);
        },
    };
    let sep2 = "\n\n";
    proof {
        reveal_strlit("\n\n");
        assert(sep2@ =~= component_separator());
    }
    let chunks = crate::text::split_str(body, sep2);
    let mut parser = EntryParser::new(start);
    let ghost cv = chunks@.map_values(|t: &str| t@);
    let mut idx: usize = 0;
    while idx < chunks.len()
        invariant
            idx <= chunks@.len(),
            cv == chunks@.map_values(|t: &str| t@),
            cv.len() == chunks@.len(),
            fold_steps(spec_init(start), cv, 0) == fold_steps(parser@, cv, idx as int),
        decreases chunks@.len() - idx,
    {
        let ghost prev = parser@;
        let chunk = chunks[idx];
        parser = parser.advance(chunk);
        proof {
            assert(chunks@[idx as int]@ == cv[idx as int]);
            assert(fold_steps(prev, cv, idx as int) == fold_steps(parser@, cv, idx + 1));
        }
        idx += 1;
    }
    if parser.fatal.is_some() {
        return Err(parser.fatal.unwrap());
    }
    let (entries, errors) = parser.finish(end);
    let lb = Logbook::new(start, end, entries);
    Ok((lb, errors))
}

} // verus!
