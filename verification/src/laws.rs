use vstd::prelude::*;
use crate::calendar::Date;
use crate::calendar::Time;
use crate::calendar::spec_next_day;
use crate::calendar::spec_prev_day;
use crate::calendar::time_lt;
use crate::parse::NEXT_DAY;
use crate::parse::PageHeaderExpectations;
use crate::parse::ParserView;
use crate::parse::fold_lines;
use crate::parse::fold_steps;
use crate::parse::msg_page_end_number;
use crate::parse::multi_page_prefix;
use crate::parse::multi_page_suffix;
use crate::parse::page_marker;
use crate::parse::spec_entry_times;
use crate::parse::spec_parse;
use crate::parse::spec_step;
use crate::parse::step_line;
use crate::parse::with_near;
use crate::text::has_prefix;
use crate::text::has_suffix;

use crate::EntryView;
use crate::Mark;

verus! {

// ----- self-consistency of entries (the day-advance rules) -----

/// An entry whose own fields obey the day-advance rules: the finish lands
/// on the start's day exactly when the finish time is later on the clock,
/// and the entry is attributed to the previous day exactly when it started
/// in the small hours.
pub open spec fn entry_consistent(e: EntryView) -> bool {
    &&& if time_lt(e.started.time, e.finished.time) {
        e.finished.date == e.started.date
    } else {
        Some(e.finished.date) == spec_next_day(e.started.date)
    }
    &&& if e.started.time.hour > NEXT_DAY {
        e.position.effective_date == e.started.date
    } else {
        Some(e.position.effective_date) == spec_prev_day(e.started.date)
    }
}

/// An entry built from what `spec_entry_times` hands back is consistent,
/// whatever its number.
pub proof fn lemma_entry_times_consistent(
    start_date: Date,
    start_time: Time,
    end_time: Time,
    number: u32,
)
    requires
        spec_entry_times(start_date, start_time, end_time) is Some,
    ensures
        entry_consistent(
            EntryView {
                position: Mark {
                    effective_date: spec_entry_times(start_date, start_time, end_time)->Some_0.2,
                    entry_number: number,
                },
                started: spec_entry_times(start_date, start_time, end_time)->Some_0.0,
                finished: spec_entry_times(start_date, start_time, end_time)->Some_0.1,
                contents: Seq::empty(),
            },
        ),
{
}

/// An evening start whose finish time is earlier on the clock wraps past
/// midnight: the finish lands on the following calendar day while the
/// entry keeps its start day's attribution.
pub proof fn lemma_times_wrap_midnight(start_date: Date, start_time: Time, end_time: Time)
    requires
        !time_lt(start_time, end_time),
        start_time.hour > NEXT_DAY,
        spec_entry_times(start_date, start_time, end_time) is Some,
    ensures
        Some(spec_entry_times(start_date, start_time, end_time)->Some_0.1.date) == spec_next_day(
            start_date,
        ),
        spec_entry_times(start_date, start_time, end_time)->Some_0.2 == start_date,
        spec_entry_times(start_date, start_time, end_time)->Some_0.0.date == start_date,
{
}

/// A small-hours start is attributed to the previous calendar day.
pub proof fn lemma_times_small_hours(start_date: Date, start_time: Time, end_time: Time)
    requires
        start_time.hour <= NEXT_DAY,
        spec_entry_times(start_date, start_time, end_time) is Some,
    ensures
        Some(spec_entry_times(start_date, start_time, end_time)->Some_0.2) == spec_prev_day(
            start_date,
        ),
{
}

// ----- multi-page reconstruction -----

/// A line that ends with the continuation marker leaves its text, marker
/// shed, appended to the open block with nothing inserted, and flags the
/// entry as continuing.
pub proof fn lemma_split_line_keeps_text(s: ParserView, line: Seq<char>)
    requires
        !s.multi_page_flag,
        !has_prefix(line, crate::parse::subject_prefix()),
        has_suffix(line, multi_page_suffix()),
        s.current_entry.contents.len() > 0,
    ensures
        step_line(s, line).1,
        step_line(s, line).0.errors == s.errors,
        step_line(s, line).0.multi_page_flag,
        step_line(s, line).0.current_entry.contents.last().text
            == s.current_entry.contents.last().text + line.take(line.len() - 5),
{
    let r = step_line(s, line).0;
    let n = s.current_entry.contents.len();
    assert(r.current_entry.contents[n - 1].text == s.current_entry.contents.last().text
        + line.take(line.len() - 5));
}

/// The resumed line of a continued entry, opened by a correct continuation
/// marker, appends its text after the marker to the same block with
/// nothing inserted, and closes the continuation.
pub proof fn lemma_resumed_line_keeps_text(s: ParserView, line: Seq<char>)
    requires
        s.multi_page_flag,
        !has_prefix(line, crate::parse::subject_prefix()),
        has_prefix(line, multi_page_prefix()),
        !has_suffix(line.skip(5), multi_page_suffix()),
        s.current_entry.contents.len() > 0,
    ensures
        step_line(s, line).1,
        step_line(s, line).0.errors == s.errors,
        !step_line(s, line).0.multi_page_flag,
        step_line(s, line).0.current_entry.contents.last().text
            == s.current_entry.contents.last().text + line.skip(5),
{
    let r = step_line(s, line).0;
    let n = s.current_entry.contents.len();
    assert(r.current_entry.contents[n - 1].text == s.current_entry.contents.last().text + line.skip(
        5,
    ));
}

// ----- page-header end mismatches stay on their page -----

/// A page whose header misdeclares its last entry's number earns exactly
/// one diagnostic at the page break, and hands the following page exactly
/// the state a correct header would have: no other page is affected.
pub proof fn lemma_end_number_mismatch_isolated(s: ParserView, good: u32)
    requires
        s.fatal is None,
        s.page_header_expectations matches PageHeaderExpectations::End { end_recorded_date, end_number }
            && end_recorded_date == s.current_entry.started.date && end_number
            != s.current_entry.position.entry_number && good
            == s.current_entry.position.entry_number,
    ensures
        spec_step(s, page_marker()) == (ParserView {
            errors: s.errors.push(
                with_near(
                    msg_page_end_number(
                        s.page_header_expectations->End_end_number,
                        s.current_entry.position.entry_number,
                    ),
                    s.next_entry_position.entry_number,
                ),
            ),
            page_header_expectations: PageHeaderExpectations::NewHeader,
            ..s
        }),
        spec_step(
            ParserView {
                page_header_expectations: PageHeaderExpectations::End {
                    end_recorded_date: s.current_entry.started.date,
                    end_number: good,
                },
                ..s
            },
            page_marker(),
        ) == (ParserView { page_header_expectations: PageHeaderExpectations::NewHeader, ..s }),
{
    reveal(crate::parse::spec_step);
    reveal(crate::parse::step_break);
}

// ----- consistency holds of everything the parser hands back -----

/// Body-line processing never touches the entries already read, the
/// expectations, the expected position, or the current entry's position
/// and timestamps.
pub proof fn lemma_fold_lines_frame(s: ParserView, lines: Seq<Seq<char>>, i: int)
    ensures
        fold_lines(s, lines, i).0.read_entries == s.read_entries,
        fold_lines(s, lines, i).0.next_entry_position == s.next_entry_position,
        fold_lines(s, lines, i).0.page_header_expectations == s.page_header_expectations,
        fold_lines(s, lines, i).0.current_entry.position == s.current_entry.position,
        fold_lines(s, lines, i).0.current_entry.started == s.current_entry.started,
        fold_lines(s, lines, i).0.current_entry.finished == s.current_entry.finished,
    decreases lines.len() - i,
{
    if 0 <= i < lines.len() {
        let (s1, ok) = step_line(s, lines[i]);
        if ok {
            lemma_fold_lines_frame(s1, lines, i + 1);
        }
    }
}

/// Every entry the parser has read obeys the day-advance rules, and so
/// does an entry still under construction across a page split.
pub open spec fn state_consistent(s: ParserView) -> bool {
    &&& forall|k: int|
        0 <= k < s.read_entries.len() ==> entry_consistent(#[trigger] s.read_entries[k])
    &&& s.multi_page_flag ==> entry_consistent(s.current_entry)
}

/// One chunk keeps the parser's entries consistent.
pub proof fn lemma_step_consistent(s: ParserView, chunk: Seq<char>)
    requires
        state_consistent(s),
    ensures
        state_consistent(spec_step(s, chunk)),
{
    reveal(crate::parse::spec_step);
    reveal(crate::parse::step_break);
    reveal(crate::parse::step_header);
    reveal(crate::parse::step_entry);
    if s.fatal is Some {
    } else if chunk == page_marker() {
    } else if s.page_header_expectations is NewHeader {
    } else {
        let pending: Option<(Date, u32)> = match s.page_header_expectations {
            PageHeaderExpectations::StartAndEnd { start_recorded_date, start_number, .. } => Some(
                (start_recorded_date, start_number),
            ),
            _ => None,
        };
        let s0 = match s.page_header_expectations {
            PageHeaderExpectations::StartAndEnd { end_recorded_date, end_number, .. } => (
            ParserView {
                page_header_expectations: PageHeaderExpectations::End {
                    end_recorded_date,
                    end_number,
                },
                ..s
            }),
            _ => s,
        };
        let lines = crate::text::spec_lines(chunk);
        if !s0.multi_page_flag {
            lemma_step_entry_new_consistent(s0, pending, lines);
        } else {
            let sa = crate::parse::step_page_start_check(s0, pending);
            lemma_step_entry_lines_consistent(sa, lines, 0);
        }
    }
}

/// Processing body lines and possibly closing the entry keeps the
/// parser's entries consistent.
proof fn lemma_step_entry_lines_consistent(s: ParserView, lines: Seq<Seq<char>>, from: int)
    requires
        state_consistent(s),
        entry_consistent(s.current_entry),
    ensures
        state_consistent(crate::parse::step_entry_lines(s, lines, from)),
{
    lemma_fold_lines_frame(s, lines, from);
    let (s1, ok) = fold_lines(s, lines, from);
    assert(entry_consistent(s1.current_entry));
    if ok && !s1.multi_page_flag {
        let r = ParserView { read_entries: s1.read_entries.push(s1.current_entry), ..s1 };
        assert forall|k: int| 0 <= k < r.read_entries.len() implies entry_consistent(
            #[trigger] r.read_entries[k],
        ) by {
            if k < s.read_entries.len() {
                assert(r.read_entries[k] == s.read_entries[k]);
            } else {
                assert(r.read_entries[k] == s1.current_entry);
            }
        }
    }
}

/// A fresh entry chunk keeps the parser's entries consistent.
proof fn lemma_step_entry_new_consistent(
    s: ParserView,
    pending: Option<(Date, u32)>,
    lines: Seq<Seq<char>>,
)
    requires
        state_consistent(s),
        !s.multi_page_flag,
    ensures
        state_consistent(crate::parse::step_entry_new(s, pending, lines)),
{
    let expected_here = s.next_entry_position;
    if spec_next_day(expected_here.effective_date) is None || expected_here.entry_number
        == u32::MAX {
    } else if lines.len() == 0 {
    } else {
        let next1 = Mark {
            effective_date: spec_next_day(expected_here.effective_date)->Some_0,
            entry_number: (expected_here.entry_number + 1) as u32,
        };
        let s1 = ParserView {
            next_entry_position: next1,
            current_entry: EntryView {
                position: expected_here,
                started: crate::calendar::DateTime {
                    date: expected_here.effective_date,
                    time: Time { hour: 21, minute: 0 },
                },
                ..s.current_entry
            },
            ..s
        };
        let (s2, header) = crate::parse::spec_parse_entry_header(s1, lines[0]);
        assert(s2.read_entries == s1.read_entries && s2.multi_page_flag == s1.multi_page_flag
            && s2.current_entry == s1.current_entry);
        match header {
            Err(m) => {},
            Ok((number, start_date, start_time, end_time)) => {
                match spec_entry_times(start_date, start_time, end_time) {
                    None => {},
                    Some((started, finished, eff)) => {
                        if spec_next_day(eff) is None || number == u32::MAX {
                        } else {
                            lemma_entry_times_consistent(start_date, start_time, end_time, number);
                            let s3 = if expected_here.effective_date != eff {
                                if spec_next_day(expected_here.effective_date) == Some(eff) {
                                    crate::parse::record_err(
                                        s2,
                                        crate::parse::msg_missing_entry(
                                            expected_here.effective_date,
                                        ),
                                    )
                                } else {
                                    crate::parse::record_err(
                                        s2,
                                        crate::parse::msg_date_mismatch(
                                            expected_here.effective_date,
                                            eff,
                                        ),
                                    )
                                }
                            } else {
                                s2
                            };
                            let s4 = if expected_here.entry_number != number {
                                crate::parse::record_err(
                                    s3,
                                    crate::parse::msg_number_mismatch(
                                        expected_here.entry_number,
                                        number,
                                    ),
                                )
                            } else {
                                s3
                            };
                            let s5 = ParserView {
                                next_entry_position: Mark {
                                    effective_date: spec_next_day(eff)->Some_0,
                                    entry_number: (number + 1) as u32,
                                },
                                current_entry: EntryView {
                                    position: Mark { effective_date: eff, entry_number: number },
                                    started,
                                    finished,
                                    contents: Seq::empty(),
                                },
                                ..s4
                            };
                            let s6 = crate::parse::step_page_start_check(s5, pending);
                            assert(entry_consistent(s6.current_entry));
                            lemma_step_entry_lines_consistent(s6, lines, 1);
                        }
                    },
                }
            },
        }
    }
}

/// Any run of chunks keeps the parser's entries consistent.
pub proof fn lemma_fold_steps_consistent(s: ParserView, chunks: Seq<Seq<char>>, i: int)
    requires
        state_consistent(s),
    ensures
        state_consistent(fold_steps(s, chunks, i)),
    decreases chunks.len() - i,
{
    if 0 <= i < chunks.len() {
        lemma_step_consistent(s, chunks[i]);
        lemma_fold_steps_consistent(spec_step(s, chunks[i]), chunks, i + 1);
    }
}

/// Whatever diagnostics a parse emitted, every entry it hands back is
/// internally consistent: its finish timestamp and its attributed day
/// re-derive from its own header fields by the same day-advance rules.
pub proof fn lemma_parsed_entries_consistent(doc: Seq<char>)
    ensures
        spec_parse(doc) is Ok ==> forall|k: int|
            0 <= k < spec_parse(doc)->Ok_0.2.len() ==> entry_consistent(
                #[trigger] spec_parse(doc)->Ok_0.2[k],
            ),
{
    if spec_parse(doc) is Ok {
        let i = crate::text::spec_find(
            doc,
            page_marker() + crate::parse::component_separator(),
            0,
        )->Some_0;
        let pre = crate::parse::spec_parse_preamble(doc.take(i));
        let start = pre->Ok_0.0;
        let chunks = crate::text::spec_split(
            doc.skip(i + 7),
            crate::parse::component_separator(),
        );
        lemma_fold_steps_consistent(crate::parse::spec_init(start), chunks, 0);
    }
}

// ----- one missing entry earns one gap report, then re-synchronizes -----

/// Removing one entry from an otherwise defect-free run: the chunk that
/// now sits where the removed entry was expected earns exactly one
/// missing-entry diagnostic, naming the skipped date, beside one
/// entry-number diagnostic — and the parser re-synchronizes to the
/// entry's own position, so a following defect-free chunk in sequence
/// adds no diagnostic at all.
#[verifier::rlimit(60)]
pub proof fn lemma_one_missing_entry_resyncs(
    s: ParserView,
    chunk1: Seq<char>,
    c1: CleanEntryChunk,
    chunk2: Seq<char>,
    c2: CleanEntryChunk,
)
    requires
        s.fatal is None,
        !s.multi_page_flag,
        s.page_header_expectations is End || s.page_header_expectations is Error,
        clean_entry_chunk(chunk1, c1),
        clean_entry_chunk(chunk2, c2),
        spec_next_day(s.next_entry_position.effective_date) is Some,
        chunk_effective(c1) == spec_next_day(s.next_entry_position.effective_date)->Some_0,
        c1.number == s.next_entry_position.entry_number + 1,
        s.next_entry_position.entry_number + 1 < u32::MAX,
        chunk_position(c2) == chunk_next(c1),
    ensures
        spec_step(s, chunk1).errors == s.errors + seq![
            with_near(
                crate::parse::msg_missing_entry(s.next_entry_position.effective_date),
                (s.next_entry_position.entry_number + 1) as u32,
            ),
            with_near(
                crate::parse::msg_number_mismatch(s.next_entry_position.entry_number, c1.number),
                (s.next_entry_position.entry_number + 1) as u32,
            ),
        ],
        spec_step(spec_step(s, chunk1), chunk2).errors == spec_step(s, chunk1).errors,
        spec_step(spec_step(s, chunk1), chunk2).read_entries.last().position == chunk_position(c2),
{
    reveal(position_diags);
    lemma_clean_chunk_bounds(chunk1, c1);
    lemma_clean_chunk_bounds(chunk2, c2);
    lemma_clean_entry_step(s, chunk1, c1);
    crate::calendar::lemma_next_day_changes(s.next_entry_position.effective_date);
    let near = (s.next_entry_position.entry_number + 1) as u32;
    let r1 = spec_step(s, chunk1);
    assert(r1.errors =~= s.errors + seq![
        with_near(crate::parse::msg_missing_entry(s.next_entry_position.effective_date), near),
        with_near(
            crate::parse::msg_number_mismatch(s.next_entry_position.entry_number, c1.number),
            near,
        ),
    ]);
    lemma_clean_entry_step(r1, chunk2, c2);
    assert(position_diags(
        r1.next_entry_position,
        chunk_position(c2),
        (r1.next_entry_position.entry_number + 1) as u32,
    ) =~= Seq::<Seq<char>>::empty());
    assert(spec_step(r1, chunk2).errors =~= r1.errors);
}

// ----- defect-free entry chunks -----

/// The fields a defect-free single-page entry chunk carries.
pub ghost struct CleanEntryChunk {
    pub number: u32,
    pub start_date: Date,
    pub start_time: Time,
    pub end_time: Time,
}

/// The day the chunk's entry is attributed to.
#[verifier::opaque]
pub open spec fn chunk_effective(c: CleanEntryChunk) -> Date {
    spec_entry_times(c.start_date, c.start_time, c.end_time)->Some_0.2
}

/// The position the chunk's entry claims.
pub open spec fn chunk_position(c: CleanEntryChunk) -> Mark {
    Mark { effective_date: chunk_effective(c), entry_number: c.number }
}

/// The position expected of the entry after this chunk's.
pub open spec fn chunk_next(c: CleanEntryChunk) -> Mark {
    Mark {
        effective_date: spec_next_day(chunk_effective(c))->Some_0,
        entry_number: (c.number + 1) as u32,
    }
}

/// Whether `chunk` is a defect-free single-page entry chunk carrying `c`:
/// a header of exactly the expected nine words, a subject line first in
/// the body, and no line continuing onto another page.
pub open spec fn clean_entry_chunk(chunk: Seq<char>, c: CleanEntryChunk) -> bool {
    let lines = crate::text::spec_lines(chunk);
    let words = crate::text::spec_split(lines[0], seq![' ']);
    &&& chunk != page_marker()
    &&& lines.len() >= 2
    &&& words.len() == 9
    &&& words[0] == "Entry"@
    &&& has_suffix(words[1], seq![':'])
    &&& crate::parse::spec_parse_number_msg(words[1].take(words[1].len() - 1), "entry number"@)
        == Ok::<u32, Seq<char>>(c.number)
    &&& crate::lex::spec_parse_date(words[2]) == Some(c.start_date)
    &&& words[3] == "started"@
    &&& crate::lex::spec_parse_time(words[4], words[5]) == Some(c.start_time)
    &&& words[6] == "finished"@
    &&& crate::lex::spec_parse_time(words[7], words[8]) == Some(c.end_time)
    &&& spec_entry_times(c.start_date, c.start_time, c.end_time) is Some
    &&& spec_next_day(chunk_effective(c)) is Some
    &&& c.number < u32::MAX
    &&& has_prefix(lines[1], crate::parse::subject_prefix())
    &&& forall|j: int|
        1 <= j < lines.len() ==> (has_prefix(#[trigger] lines[j], crate::parse::subject_prefix())
            || !has_suffix(lines[j], multi_page_suffix()))
}

/// A defect-free chunk's entry leaves room to advance past it, and the
/// chunk is no page break.
pub proof fn lemma_clean_chunk_bounds(chunk: Seq<char>, c: CleanEntryChunk)
    requires
        clean_entry_chunk(chunk, c),
    ensures
        spec_entry_times(c.start_date, c.start_time, c.end_time) is Some,
        spec_next_day(chunk_effective(c)) is Some,
        c.number < u32::MAX,
        chunk != page_marker(),
{
    reveal(clean_entry_chunk);
}

/// Defect-free body lines leave no diagnostic and no open continuation.
proof fn lemma_clean_lines(s: ParserView, lines: Seq<Seq<char>>, i: int)
    requires
        !s.multi_page_flag,
        s.current_entry.contents.len() == 0 ==> (i >= lines.len() || has_prefix(
            lines[i],
            crate::parse::subject_prefix(),
        )),
        forall|j: int|
            i <= j < lines.len() ==> (has_prefix(
                #[trigger] lines[j],
                crate::parse::subject_prefix(),
            ) || !has_suffix(lines[j], multi_page_suffix())),
    ensures
        fold_lines(s, lines, i).1,
        fold_lines(s, lines, i).0.errors == s.errors,
        fold_lines(s, lines, i).0.fatal == s.fatal,
        !fold_lines(s, lines, i).0.multi_page_flag,
    decreases lines.len() - i,
{
    if 0 <= i < lines.len() {
        let (s1, ok) = step_line(s, lines[i]);
        lemma_clean_lines(s1, lines, i + 1);
    }
}

/// The diagnostics an entry's own position earns against the expected one.
#[verifier::opaque]
pub open spec fn position_diags(expected: Mark, got: Mark, near: u32) -> Seq<Seq<char>> {
    let a: Seq<Seq<char>> = if expected.effective_date != got.effective_date {
        if spec_next_day(expected.effective_date) == Some(got.effective_date) {
            seq![with_near(crate::parse::msg_missing_entry(expected.effective_date), near)]
        } else {
            seq![
                with_near(
                    crate::parse::msg_date_mismatch(expected.effective_date, got.effective_date),
                    near,
                ),
            ]
        }
    } else {
        seq![]
    };
    let b: Seq<Seq<char>> = if expected.entry_number != got.entry_number {
        seq![
            with_near(
                crate::parse::msg_number_mismatch(expected.entry_number, got.entry_number),
                near,
            ),
        ]
    } else {
        seq![]
    };
    a + b
}

/// What one defect-free entry chunk does from a ready state: it appends
/// exactly the diagnostics its position earns against the expected one
/// (none when they agree), reads its entry, and re-synchronizes the
/// expectation to the entry's own position.
/// An entry sitting exactly where expected earns nothing.
pub proof fn lemma_position_diags_match(m: Mark, near: u32)
    ensures
        position_diags(m, m, near) == Seq::<Seq<char>>::empty(),
{
    reveal(position_diags);
    assert(position_diags(m, m, near) =~= Seq::<Seq<char>>::empty());
}

/// What the expectations become once a page's first entry has been seen.
pub open spec fn expectations_after_entry(e: PageHeaderExpectations) -> PageHeaderExpectations {
    match e {
        PageHeaderExpectations::StartAndEnd { end_recorded_date, end_number, .. } => (
        PageHeaderExpectations::End { end_recorded_date, end_number }),
        _ => e,
    }
}

pub proof fn lemma_clean_entry_step(s: ParserView, chunk: Seq<char>, c: CleanEntryChunk)
    requires
        s.fatal is None,
        !s.multi_page_flag,
        match s.page_header_expectations {
            PageHeaderExpectations::End { .. } => true,
            PageHeaderExpectations::Error => true,
            PageHeaderExpectations::StartAndEnd { start_recorded_date, start_number, .. } => (
            start_recorded_date == c.start_date && start_number == c.number),
            PageHeaderExpectations::NewHeader => false,
        },
        clean_entry_chunk(chunk, c),
        spec_next_day(s.next_entry_position.effective_date) is Some,
        s.next_entry_position.entry_number < u32::MAX,
    ensures
        spec_step(s, chunk).read_entries.len() == s.read_entries.len() + 1,
        spec_step(s, chunk).read_entries.take(s.read_entries.len() as int) == s.read_entries,
        spec_step(s, chunk).read_entries.last().position == chunk_position(c),
        spec_step(s, chunk).read_entries.last().started == (crate::calendar::DateTime {
            date: c.start_date,
            time: c.start_time,
        }),
        spec_step(s, chunk).next_entry_position == chunk_next(c),
        spec_step(s, chunk).current_entry.position == chunk_position(c),
        spec_step(s, chunk).current_entry.started == (crate::calendar::DateTime {
            date: c.start_date,
            time: c.start_time,
        }),
        !spec_step(s, chunk).multi_page_flag,
        spec_step(s, chunk).fatal is None,
        spec_step(s, chunk).page_header_expectations == expectations_after_entry(
            s.page_header_expectations,
        ),
        spec_step(s, chunk).errors == s.errors + position_diags(
            s.next_entry_position,
            chunk_position(c),
            (s.next_entry_position.entry_number + 1) as u32,
        ),
{
    reveal(crate::parse::spec_step);
    reveal(crate::parse::step_entry);
    reveal(clean_entry_chunk);
    reveal(position_diags);
    reveal(chunk_effective);
    let lines = crate::text::spec_lines(chunk);
    let pending: Option<(Date, u32)> = match s.page_header_expectations {
        PageHeaderExpectations::StartAndEnd { start_recorded_date, start_number, .. } => Some(
            (start_recorded_date, start_number),
        ),
        _ => None,
    };
    let s0 = match s.page_header_expectations {
        PageHeaderExpectations::StartAndEnd { end_recorded_date, end_number, .. } => (ParserView {
            page_header_expectations: PageHeaderExpectations::End {
                end_recorded_date,
                end_number,
            },
            ..s
        }),
        _ => s,
    };
    assert(spec_step(s, chunk) == crate::parse::step_entry_new(s0, pending, lines));
    let expected_here = s.next_entry_position;
    let next1 = Mark {
        effective_date: spec_next_day(expected_here.effective_date)->Some_0,
        entry_number: (expected_here.entry_number + 1) as u32,
    };
    let s1 = ParserView {
        next_entry_position: next1,
        current_entry: EntryView {
            position: expected_here,
            started: crate::calendar::DateTime {
                date: expected_here.effective_date,
                time: Time { hour: 21, minute: 0 },
            },
            ..s.current_entry
        },
        ..s0
    };
    let (s2, header) = crate::parse::spec_parse_entry_header(s1, lines[0]);
    assert(s2 == s1);
    assert(header == Ok::<(u32, Date, Time, Time), Seq<char>>(
        (c.number, c.start_date, c.start_time, c.end_time),
    ));
    let (started, finished, eff) = spec_entry_times(c.start_date, c.start_time, c.end_time)->Some_0;
    let s3 = if expected_here.effective_date != eff {
        if spec_next_day(expected_here.effective_date) == Some(eff) {
            crate::parse::record_err(
                s2,
                crate::parse::msg_missing_entry(expected_here.effective_date),
            )
        } else {
            crate::parse::record_err(
                s2,
                crate::parse::msg_date_mismatch(expected_here.effective_date, eff),
            )
        }
    } else {
        s2
    };
    let s4 = if expected_here.entry_number != c.number {
        crate::parse::record_err(
            s3,
            crate::parse::msg_number_mismatch(expected_here.entry_number, c.number),
        )
    } else {
        s3
    };
    assert(s4.errors =~= s.errors + position_diags(
        expected_here,
        chunk_position(c),
        next1.entry_number,
    ));
    let s5 = ParserView {
        next_entry_position: chunk_next(c),
        current_entry: EntryView {
            position: chunk_position(c),
            started,
            finished,
            contents: Seq::empty(),
        },
        ..s4
    };
    assert(crate::parse::step_page_start_check(s5, pending) == s5);
    assert(crate::parse::step_entry_new(s0, pending, lines) == crate::parse::step_entry_lines(
        s5,
        lines,
        1,
    ));
    lemma_clean_lines(s5, lines, 1);
    lemma_fold_lines_frame(s5, lines, 1);
    let (s7, ok) = fold_lines(s5, lines, 1);
    assert(crate::parse::step_entry_lines(s5, lines, 1).read_entries == s7.read_entries.push(
        s7.current_entry,
    ));
    assert(spec_step(s, chunk).read_entries.take(s.read_entries.len() as int) =~= s.read_entries);
}

// ----- defect-free pages and documents -----

proof fn lemma_fold_steps_skip(s: ParserView, chunks: Seq<Seq<char>>, i: int)
    requires
        0 <= i <= chunks.len(),
    ensures
        fold_steps(s, chunks, i) == fold_steps(s, chunks.skip(i), 0),
    decreases chunks.len() - i,
{
    if i < chunks.len() {
        assert(chunks.skip(i)[0] == chunks[i]);
        lemma_fold_steps_skip(spec_step(s, chunks[i]), chunks, i + 1);
        lemma_fold_steps_skip(spec_step(s, chunks[i]), chunks.skip(i), 1);
        assert(chunks.skip(i).skip(1) =~= chunks.skip(i + 1));
    }
}

proof fn lemma_fold_steps_split(s: ParserView, a: Seq<Seq<char>>, b: Seq<Seq<char>>)
    ensures
        fold_steps(s, a + b, 0) == fold_steps(fold_steps(s, a, 0), b, 0),
    decreases a.len(),
{
    if a.len() == 0 {
        assert(a + b =~= b);
    } else {
        assert((a + b)[0] == a[0]);
        lemma_fold_steps_skip(spec_step(s, a[0]), a + b, 1);
        assert((a + b).skip(1) =~= a.skip(1) + b);
        lemma_fold_steps_split(spec_step(s, a[0]), a.skip(1), b);
        lemma_fold_steps_skip(spec_step(s, a[0]), a, 1);
    }
}

proof fn lemma_take_take(r: Seq<EntryView>, mid: int, base: int)
    requires
        0 <= base <= mid <= r.len(),
    ensures
        r.take(mid).take(base) == r.take(base),
{
    assert(r.take(mid).take(base) =~= r.take(base));
}

/// A run of defect-free, consecutive entry chunks mid-page adds no
/// diagnostic and leaves the page's last entry current for the page-end
/// check.
#[verifier::rlimit(100)]
pub proof fn lemma_clean_entries_run(
    s: ParserView,
    chunks: Seq<Seq<char>>,
    cs: Seq<CleanEntryChunk>,
    i: int,
)
    requires
        s.fatal is None,
        !s.multi_page_flag,
        match s.page_header_expectations {
            PageHeaderExpectations::End { .. } => true,
            PageHeaderExpectations::Error => true,
            PageHeaderExpectations::StartAndEnd { start_recorded_date, start_number, .. } => (i
                < cs.len() && start_recorded_date == cs[i].start_date && start_number
                == cs[i].number),
            PageHeaderExpectations::NewHeader => false,
        },
        chunks.len() == cs.len(),
        0 <= i <= cs.len(),
        forall|j: int| i <= j < cs.len() ==> clean_entry_chunk(#[trigger] chunks[j], cs[j]),
        i < cs.len() ==> chunk_position(cs[i]) == s.next_entry_position,
        forall|j: int|
            i < j < cs.len() ==> chunk_position(#[trigger] cs[j]) == chunk_next(cs[j - 1]),
    ensures
        fold_steps(s, chunks, i).errors == s.errors,
        fold_steps(s, chunks, i).read_entries.len() == s.read_entries.len() + (cs.len() - i),
        fold_steps(s, chunks, i).next_entry_position == (if i < cs.len() {
            chunk_next(cs.last())
        } else {
            s.next_entry_position
        }),
        !fold_steps(s, chunks, i).multi_page_flag,
        fold_steps(s, chunks, i).fatal is None,
        fold_steps(s, chunks, i).page_header_expectations == (if i < cs.len() {
            expectations_after_entry(s.page_header_expectations)
        } else {
            s.page_header_expectations
        }),
        i < cs.len() ==> fold_steps(s, chunks, i).current_entry.started.date
            == cs.last().start_date && fold_steps(s, chunks, i).current_entry.position.entry_number
            == cs.last().number,
    decreases cs.len() - i,
{
    if i < cs.len() {
        lemma_clean_chunk_bounds(chunks[i], cs[i]);
        lemma_clean_entry_step(s, chunks[i], cs[i]);
        let s1 = spec_step(s, chunks[i]);
        lemma_position_diags_match(
            s.next_entry_position,
            (s.next_entry_position.entry_number + 1) as u32,
        );
        assert(s1.errors =~= s.errors);
        lemma_clean_entries_run(s1, chunks, cs, i + 1);
    }
}

/// The part of a defect-free step that the position bookkeeping needs.
proof fn lemma_clean_entry_step_slim(s: ParserView, chunk: Seq<char>, c: CleanEntryChunk)
    requires
        s.fatal is None,
        !s.multi_page_flag,
        match s.page_header_expectations {
            PageHeaderExpectations::End { .. } => true,
            PageHeaderExpectations::Error => true,
            PageHeaderExpectations::StartAndEnd { start_recorded_date, start_number, .. } => (
            start_recorded_date == c.start_date && start_number == c.number),
            PageHeaderExpectations::NewHeader => false,
        },
        clean_entry_chunk(chunk, c),
        spec_next_day(s.next_entry_position.effective_date) is Some,
        s.next_entry_position.entry_number < u32::MAX,
    ensures
        spec_step(s, chunk).read_entries.len() == s.read_entries.len() + 1,
        spec_step(s, chunk).read_entries.take(s.read_entries.len() as int) == s.read_entries,
        spec_step(s, chunk).read_entries.last().position == chunk_position(c),
        spec_step(s, chunk).next_entry_position == chunk_next(c),
        !spec_step(s, chunk).multi_page_flag,
        spec_step(s, chunk).fatal is None,
        spec_step(s, chunk).page_header_expectations == expectations_after_entry(
            s.page_header_expectations,
        ),
{
    lemma_clean_entry_step(s, chunk, c);
}

/// The same run reads each entry at its own position, after the entries
/// already read: a defect-free stretch of entries comes back as a
/// contiguous run of one-day, one-number steps.
#[verifier::rlimit(100)]
#[verifier::spinoff_prover]
pub proof fn lemma_clean_entries_run_positions(
    s: ParserView,
    chunks: Seq<Seq<char>>,
    cs: Seq<CleanEntryChunk>,
    i: int,
)
    requires
        s.fatal is None,
        !s.multi_page_flag,
        match s.page_header_expectations {
            PageHeaderExpectations::End { .. } => true,
            PageHeaderExpectations::Error => true,
            PageHeaderExpectations::StartAndEnd { start_recorded_date, start_number, .. } => (i
                < cs.len() && start_recorded_date == cs[i].start_date && start_number
                == cs[i].number),
            PageHeaderExpectations::NewHeader => false,
        },
        chunks.len() == cs.len(),
        0 <= i <= cs.len(),
        forall|j: int| i <= j < cs.len() ==> clean_entry_chunk(#[trigger] chunks[j], cs[j]),
        i < cs.len() ==> chunk_position(cs[i]) == s.next_entry_position,
        forall|j: int|
            i < j < cs.len() ==> chunk_position(#[trigger] cs[j]) == chunk_next(cs[j - 1]),
    ensures
        fold_steps(s, chunks, i).read_entries.len() == s.read_entries.len() + (cs.len() - i),
        fold_steps(s, chunks, i).read_entries.take(s.read_entries.len() as int) == s.read_entries,
        forall|j: int|
            i <= j < cs.len() ==> fold_steps(s, chunks, i).read_entries[s.read_entries.len() + (j
                - i)].position == chunk_position(#[trigger] cs[j]),
        fold_steps(s, chunks, i).fatal is None,
        !fold_steps(s, chunks, i).multi_page_flag,
        fold_steps(s, chunks, i).page_header_expectations == (if i < cs.len() {
            expectations_after_entry(s.page_header_expectations)
        } else {
            s.page_header_expectations
        }),
        fold_steps(s, chunks, i).next_entry_position == (if i < cs.len() {
            chunk_next(cs.last())
        } else {
            s.next_entry_position
        }),
    decreases cs.len() - i,
{
    if i >= cs.len() {
        assert(s.read_entries.take(s.read_entries.len() as int) =~= s.read_entries);
    } else {
        lemma_clean_chunk_bounds(chunks[i], cs[i]);
        lemma_clean_entry_step_slim(s, chunks[i], cs[i]);
        let s1 = spec_step(s, chunks[i]);
        lemma_clean_entries_run_positions(s1, chunks, cs, i + 1);
        let r = fold_steps(s1, chunks, i + 1);
        assert(fold_steps(s, chunks, i) == r);
        let base = s.read_entries.len() as int;
        let mid = s1.read_entries.len() as int;
        lemma_take_take(r.read_entries, mid, base);
        assert(r.read_entries.take(base) == s.read_entries);
        assert forall|j: int| i <= j < cs.len() implies r.read_entries[base + (j
            - i)].position == chunk_position(#[trigger] cs[j]) by {
            if j == i {
                assert(r.read_entries[base] == r.read_entries.take(mid)[base]);
                assert(s1.read_entries[base] == s1.read_entries.last());
            }
        }
    }
}

/// A defect-free page: a header declaring exactly its first and last
/// entries, those entries defect-free and consecutive from the expected
/// position, and the closing page break.
pub ghost struct CleanPage {
    pub header_chunk: Seq<char>,
    pub entry_chunks: Seq<Seq<char>>,
    pub entries: Seq<CleanEntryChunk>,
}

#[verifier::opaque]
pub open spec fn clean_page(p: CleanPage, expected: Mark) -> bool {
    &&& p.entry_chunks.len() == p.entries.len()
    &&& p.entries.len() >= 1
    &&& forall|i: int|
        0 <= i < p.entries.len() ==> clean_entry_chunk(#[trigger] p.entry_chunks[i], p.entries[i])
    &&& chunk_position(p.entries[0]) == expected
    &&& forall|i: int|
        1 <= i < p.entries.len() ==> chunk_position(#[trigger] p.entries[i]) == chunk_next(
            p.entries[i - 1],
        )
    &&& p.header_chunk != page_marker()
    &&& crate::parse::spec_parse_page_header(p.header_chunk) == Ok::<
        (Date, u32, Date, u32),
        Seq<char>,
    >(
        (
            p.entries[0].start_date,
            p.entries[0].number,
            p.entries.last().start_date,
            p.entries.last().number,
        ),
    )
}

pub open spec fn page_chunks(p: CleanPage) -> Seq<Seq<char>> {
    seq![p.header_chunk] + p.entry_chunks + seq![page_marker()]
}

/// The entry-level facts a defect-free page carries.
proof fn lemma_clean_page_parts(p: CleanPage, expected: Mark)
    requires
        clean_page(p, expected),
    ensures
        p.entry_chunks.len() == p.entries.len(),
        p.entries.len() >= 1,
        forall|i: int|
            0 <= i < p.entries.len() ==> clean_entry_chunk(
                #[trigger] p.entry_chunks[i],
                p.entries[i],
            ),
        chunk_position(p.entries[0]) == expected,
        forall|i: int|
            1 <= i < p.entries.len() ==> chunk_position(#[trigger] p.entries[i]) == chunk_next(
                p.entries[i - 1],
            ),
{
    reveal(clean_page);
}

/// What a defect-free page's header declares.
proof fn lemma_clean_page_header(p: CleanPage, expected: Mark)
    requires
        clean_page(p, expected),
    ensures
        p.header_chunk != page_marker(),
        crate::parse::spec_parse_page_header(p.header_chunk) == Ok::<
            (Date, u32, Date, u32),
            Seq<char>,
        >(
            (
                p.entries[0].start_date,
                p.entries[0].number,
                p.entries.last().start_date,
                p.entries.last().number,
            ),
        ),
{
    reveal(clean_page);
}

/// A page's chunks fold as: the header, then the entries, then the break.
proof fn lemma_page_decompose(s: ParserView, p: CleanPage)
    ensures
        fold_steps(s, page_chunks(p), 0) == spec_step(
            fold_steps(spec_step(s, p.header_chunk), p.entry_chunks, 0),
            page_marker(),
        ),
{
    let sh = spec_step(s, p.header_chunk);
    lemma_fold_steps_split(s, seq![p.header_chunk], p.entry_chunks + seq![page_marker()]);
    assert(seq![p.header_chunk] + (p.entry_chunks + seq![page_marker()]) =~= page_chunks(p));
    assert(fold_steps(s, seq![p.header_chunk], 0) == sh) by {
        reveal_with_fuel(crate::parse::fold_steps, 3);
    }
    lemma_fold_steps_split(sh, p.entry_chunks, seq![page_marker()]);
    assert(fold_steps(fold_steps(sh, p.entry_chunks, 0), seq![page_marker()], 0) == spec_step(
        fold_steps(sh, p.entry_chunks, 0),
        page_marker(),
    )) by {
        reveal_with_fuel(crate::parse::fold_steps, 3);
    }
}

/// A defect-free page adds no diagnostic: its header parses, its first
/// and last entries match the header's declarations, and it hands the
/// next page exactly the ready state it began with.
#[verifier::rlimit(100)]
pub proof fn lemma_clean_page_steps(s: ParserView, p: CleanPage)
    requires
        s.fatal is None,
        !s.multi_page_flag,
        s.page_header_expectations is NewHeader,
        clean_page(p, s.next_entry_position),
    ensures
        fold_steps(s, page_chunks(p), 0).errors == s.errors,
        fold_steps(s, page_chunks(p), 0).read_entries.len() == s.read_entries.len()
            + p.entries.len(),
        fold_steps(s, page_chunks(p), 0).next_entry_position == chunk_next(p.entries.last()),
        !fold_steps(s, page_chunks(p), 0).multi_page_flag,
        fold_steps(s, page_chunks(p), 0).fatal is None,
        fold_steps(s, page_chunks(p), 0).page_header_expectations is NewHeader,
    decreases p.entries.len(),
{
    reveal(clean_page);
    let pc = page_chunks(p);
    let sh = spec_step(s, p.header_chunk);
    assert(sh == (ParserView {
        page_header_expectations: PageHeaderExpectations::StartAndEnd {
            start_recorded_date: p.entries[0].start_date,
            start_number: p.entries[0].number,
            end_recorded_date: p.entries.last().start_date,
            end_number: p.entries.last().number,
        },
        ..s
    })) by {
        reveal(crate::parse::spec_step);
        reveal(crate::parse::step_header);
    }
    lemma_clean_chunk_bounds(p.entry_chunks[0], p.entries[0]);
    lemma_clean_entry_step(sh, p.entry_chunks[0], p.entries[0]);
    let s1 = spec_step(sh, p.entry_chunks[0]);
    lemma_position_diags_match(
        s.next_entry_position,
        (s.next_entry_position.entry_number + 1) as u32,
    );
    assert(s1.errors =~= s.errors);
    lemma_clean_entries_run(s1, p.entry_chunks, p.entries, 1);
    let s2 = fold_steps(s1, p.entry_chunks, 1);
    assert(s2.current_entry.started.date == p.entries.last().start_date
        && s2.current_entry.position.entry_number == p.entries.last().number);
    let s3 = spec_step(s2, page_marker());
    assert(s3 == (ParserView {
        page_header_expectations: PageHeaderExpectations::NewHeader,
        ..s2
    })) by {
        reveal(crate::parse::spec_step);
        reveal(crate::parse::step_break);
    }
    lemma_page_decompose(s, p);
    assert(fold_steps(sh, p.entry_chunks, 0) == s2);
    assert(fold_steps(s, pc, 0) == s3);
}

/// The same page leaves the entries already read untouched at the front.
#[verifier::rlimit(100)]
#[verifier::spinoff_prover]
proof fn lemma_clean_page_prefix(s: ParserView, p: CleanPage)
    requires
        s.fatal is None,
        !s.multi_page_flag,
        s.page_header_expectations is NewHeader,
        clean_page(p, s.next_entry_position),
    ensures
        fold_steps(s, page_chunks(p), 0).read_entries.take(s.read_entries.len() as int)
            == s.read_entries,
{
    lemma_clean_page_parts(p, s.next_entry_position);
    lemma_clean_page_header(p, s.next_entry_position);
    let pc = page_chunks(p);
    let sh = spec_step(s, p.header_chunk);
    assert(sh == (ParserView {
        page_header_expectations: PageHeaderExpectations::StartAndEnd {
            start_recorded_date: p.entries[0].start_date,
            start_number: p.entries[0].number,
            end_recorded_date: p.entries.last().start_date,
            end_number: p.entries.last().number,
        },
        ..s
    })) by {
        reveal(crate::parse::spec_step);
        reveal(crate::parse::step_header);
    }
    lemma_clean_chunk_bounds(p.entry_chunks[0], p.entries[0]);
    lemma_clean_entry_step_slim(sh, p.entry_chunks[0], p.entries[0]);
    let s1 = spec_step(sh, p.entry_chunks[0]);
    lemma_clean_entries_run_positions(s1, p.entry_chunks, p.entries, 1);
    let s2 = fold_steps(s1, p.entry_chunks, 1);
    let s3 = spec_step(s2, page_marker());
    assert(s3.read_entries == s2.read_entries) by {
        reveal(crate::parse::spec_step);
        reveal(crate::parse::step_break);
    }
    lemma_page_decompose(s, p);
    assert(fold_steps(sh, p.entry_chunks, 0) == s2);
    assert(fold_steps(s, pc, 0) == s3);
    let base = s.read_entries.len() as int;
    let mid = s1.read_entries.len() as int;
    lemma_take_take(s2.read_entries, mid, base);
    assert(s3.read_entries.take(base) == s.read_entries);
}

/// The same page reads each of its entries at its own position, after
/// the entries already read.
#[verifier::rlimit(100)]
#[verifier::spinoff_prover]
proof fn lemma_clean_page_positions(s: ParserView, p: CleanPage)
    requires
        s.fatal is None,
        !s.multi_page_flag,
        s.page_header_expectations is NewHeader,
        clean_page(p, s.next_entry_position),
    ensures
        forall|j: int|
            0 <= j < p.entries.len() ==> fold_steps(
                s,
                page_chunks(p),
                0,
            ).read_entries[s.read_entries.len() + j].position == chunk_position(
                #[trigger] p.entries[j],
            ),
{
    lemma_clean_page_parts(p, s.next_entry_position);
    lemma_clean_page_header(p, s.next_entry_position);
    let pc = page_chunks(p);
    let sh = spec_step(s, p.header_chunk);
    assert(sh == (ParserView {
        page_header_expectations: PageHeaderExpectations::StartAndEnd {
            start_recorded_date: p.entries[0].start_date,
            start_number: p.entries[0].number,
            end_recorded_date: p.entries.last().start_date,
            end_number: p.entries.last().number,
        },
        ..s
    })) by {
        reveal(crate::parse::spec_step);
        reveal(crate::parse::step_header);
    }
    lemma_clean_entries_run_positions(sh, p.entry_chunks, p.entries, 0);
    let s2 = fold_steps(sh, p.entry_chunks, 0);
    let s3 = spec_step(s2, page_marker());
    assert(s3.read_entries == s2.read_entries) by {
        reveal(crate::parse::spec_step);
        reveal(crate::parse::step_break);
    }
    lemma_page_decompose(s, p);
    assert(fold_steps(s, pc, 0) == s3);
}

/// `a` is the position right after `b`: the next day, the next number.
pub open spec fn succeeds(a: Mark, b: Mark) -> bool {
    &&& spec_next_day(b.effective_date) is Some
    &&& b.entry_number < u32::MAX
    &&& a == (Mark {
        effective_date: spec_next_day(b.effective_date)->Some_0,
        entry_number: (b.entry_number + 1) as u32,
    })
}

pub open spec fn clean_pages_from(pages: Seq<CleanPage>, expected: Mark) -> bool
    decreases pages.len(),
{
    if pages.len() == 0 {
        true
    } else {
        clean_page(pages[0], expected) && clean_pages_from(
            pages.drop_first(),
            chunk_next(pages[0].entries.last()),
        )
    }
}

pub open spec fn pages_chunks(pages: Seq<CleanPage>) -> Seq<Seq<char>>
    decreases pages.len(),
{
    if pages.len() == 0 {
        seq![]
    } else {
        page_chunks(pages[0]) + pages_chunks(pages.drop_first())
    }
}

pub open spec fn pages_entry_count(pages: Seq<CleanPage>) -> int
    decreases pages.len(),
{
    if pages.len() == 0 {
        0
    } else {
        pages[0].entries.len() + pages_entry_count(pages.drop_first())
    }
}

proof fn lemma_pages_entry_count_nonneg(pages: Seq<CleanPage>)
    ensures
        pages_entry_count(pages) >= 0,
    decreases pages.len(),
{
    if pages.len() > 0 {
        lemma_pages_entry_count_nonneg(pages.drop_first());
    }
}

/// A defect-free run of pages adds no diagnostic; the entries read start
/// at the expected position and step by one day and one number each.
#[verifier::rlimit(100)]
#[verifier::spinoff_prover]
proof fn lemma_clean_pages_steps(s: ParserView, pages: Seq<CleanPage>)
    requires
        s.fatal is None,
        !s.multi_page_flag,
        s.page_header_expectations is NewHeader,
        clean_pages_from(pages, s.next_entry_position),
    ensures
        fold_steps(s, pages_chunks(pages), 0).errors == s.errors,
        fold_steps(s, pages_chunks(pages), 0).read_entries.len() == s.read_entries.len()
            + pages_entry_count(pages),
        fold_steps(s, pages_chunks(pages), 0).read_entries.take(s.read_entries.len() as int)
            == s.read_entries,
        pages.len() > 0 ==> fold_steps(
            s,
            pages_chunks(pages),
            0,
        ).read_entries[s.read_entries.len() as int].position == s.next_entry_position,
        forall|j: int|
            s.read_entries.len() < j < s.read_entries.len() + pages_entry_count(pages)
                ==> succeeds(
                #[trigger] fold_steps(s, pages_chunks(pages), 0).read_entries[j].position,
                fold_steps(s, pages_chunks(pages), 0).read_entries[j - 1].position,
            ),
        fold_steps(s, pages_chunks(pages), 0).fatal is None,
        !fold_steps(s, pages_chunks(pages), 0).multi_page_flag,
        fold_steps(s, pages_chunks(pages), 0).page_header_expectations is NewHeader,
    decreases pages.len(),
{
    if pages.len() == 0 {
        assert(s.read_entries.take(s.read_entries.len() as int) =~= s.read_entries);
    } else {
        lemma_clean_page_parts(pages[0], s.next_entry_position);
        lemma_clean_page_steps(s, pages[0]);
        lemma_clean_page_prefix(s, pages[0]);
        lemma_clean_page_positions(s, pages[0]);
        let sp = fold_steps(s, page_chunks(pages[0]), 0);
        lemma_clean_pages_steps(sp, pages.drop_first());
        let r = fold_steps(sp, pages_chunks(pages.drop_first()), 0);
        lemma_fold_steps_split(s, page_chunks(pages[0]), pages_chunks(pages.drop_first()));
        assert(fold_steps(s, pages_chunks(pages), 0) == r);
        let base = s.read_entries.len() as int;
        let mid = sp.read_entries.len() as int;
        let k = pages[0].entries.len() as int;
        lemma_pages_entry_count_nonneg(pages.drop_first());
        lemma_take_take(r.read_entries, mid, base);
        assert(r.read_entries.take(base) == s.read_entries);
        assert forall|j: int|
            base <= j < mid implies r.read_entries[j].position == sp.read_entries[j].position by {
            assert(r.read_entries.take(mid) == sp.read_entries);
            assert(r.read_entries.take(mid)[j] == r.read_entries[j]);
        }
        assert(r.read_entries[base].position == s.next_entry_position);
        assert forall|j: int|
            base < j < s.read_entries.len() + pages_entry_count(pages) implies succeeds(
            #[trigger] r.read_entries[j].position,
            r.read_entries[j - 1].position,
        ) by {
            if j < mid {
                assert(sp.read_entries[j].position == chunk_position(pages[0].entries[j - base]));
                assert(sp.read_entries[j - 1].position == chunk_position(
                    pages[0].entries[j - 1 - base],
                ));
                assert(chunk_position(pages[0].entries[j - base]) == chunk_next(
                    pages[0].entries[j - 1 - base],
                ));
                lemma_clean_chunk_bounds(
                    pages[0].entry_chunks[j - 1 - base],
                    pages[0].entries[j - 1 - base],
                );
            } else if j == mid {
                assert(r.read_entries[j].position == sp.next_entry_position);
                assert(sp.read_entries[j - 1].position == chunk_position(
                    pages[0].entries[k - 1],
                ));
                assert(sp.next_entry_position == chunk_next(pages[0].entries[k - 1]));
                lemma_clean_chunk_bounds(pages[0].entry_chunks[k - 1], pages[0].entries[k - 1]);
            }
        }
    }
}

/// For a document carrying no injected defects — defect-free pages whose
/// headers declare exactly their first and last entries, and whose
/// entries run consecutively from the declared start — the parser emits
/// zero diagnostics and no failure, and the positions of the entries it
/// reads form a contiguous, strictly increasing run of one-day,
/// one-number steps from the start mark; an end mark equal to the last
/// entry's position then passes the final check silently as well.
pub proof fn lemma_valid_document_zero_diagnostics(start: Mark, pages: Seq<CleanPage>)
    requires
        clean_pages_from(pages, start),
    ensures
        fold_steps(crate::parse::spec_init(start), pages_chunks(pages), 0).errors
            == Seq::<Seq<char>>::empty(),
        fold_steps(crate::parse::spec_init(start), pages_chunks(pages), 0).fatal is None,
        fold_steps(crate::parse::spec_init(start), pages_chunks(pages), 0).read_entries.len()
            == pages_entry_count(pages),
        pages.len() > 0 ==> fold_steps(
            crate::parse::spec_init(start),
            pages_chunks(pages),
            0,
        ).read_entries[0].position == start,
        forall|j: int|
            0 < j < pages_entry_count(pages) ==> succeeds(
                #[trigger] fold_steps(
                    crate::parse::spec_init(start),
                    pages_chunks(pages),
                    0,
                ).read_entries[j].position,
                fold_steps(
                    crate::parse::spec_init(start),
                    pages_chunks(pages),
                    0,
                ).read_entries[j - 1].position,
            ),
        crate::parse::spec_finish(
            fold_steps(crate::parse::spec_init(start), pages_chunks(pages), 0),
            None,
        ).1 == Seq::<Seq<char>>::empty(),
        pages.len() > 0 ==> crate::parse::spec_finish(
            fold_steps(crate::parse::spec_init(start), pages_chunks(pages), 0),
            Some(
                fold_steps(
                    crate::parse::spec_init(start),
                    pages_chunks(pages),
                    0,
                ).read_entries.last().position,
            ),
        ).1 == Seq::<Seq<char>>::empty(),
{
    lemma_clean_pages_steps(crate::parse::spec_init(start), pages);
    if pages.len() > 0 {
        lemma_clean_page_parts(pages[0], start);
        lemma_pages_entry_count_nonneg(pages.drop_first());
    }
}

} // verus!
