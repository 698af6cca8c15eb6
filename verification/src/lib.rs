use vstd::prelude::*;

pub mod calendar;
pub mod laws;
pub mod lex;
pub mod parse;
pub mod text;

verus! {

pub use crate::calendar::Date;
pub use crate::calendar::DateTime;
pub use crate::calendar::Time;

/// A logbook of journal entries
#[derive(Debug)]
pub struct Logbook {
    /// The start position of this logbook
    pub start: Mark,
    /// The end position (position of the last entry) of this logbook. None if
    /// this logbook is still being written
    pub end: Option<Mark>,
    /// The entries in this logbook
    pub entries: Vec<Entry>,
}

/// A position within a sequence of entries
#[derive(Debug, Clone, Copy, PartialEq, Eq, Structural)]
pub struct Mark {
    /// The date for which the entry was written
    pub effective_date: Date,
    /// The entry number of the entry
    pub entry_number: u32,
}

/// An entry in a logbook
#[derive(Debug)]
pub struct Entry {
    /// The position of this entry
    pub position: Mark,
    /// The starting timestamp for this entry
    pub started: DateTime,
    /// The ending timestamp for this entry
    pub finished: DateTime,
    /// The body of this entry
    pub contents: Vec<Block>,
}

/// One block of an entry's body
#[derive(Debug)]
pub struct Block {
    /// The subject of this block
    pub subject: String,
    /// The main text of this block
    pub text: String,
}

/// The mathematical content of a `Block`.
pub ghost struct BlockView {
    pub subject: Seq<char>,
    pub text: Seq<char>,
}

/// The mathematical content of an `Entry`.
pub ghost struct EntryView {
    pub position: Mark,
    pub started: DateTime,
    pub finished: DateTime,
    pub contents: Seq<BlockView>,
}

/// The mathematical content of a `Logbook`.
pub ghost struct LogbookView {
    pub start: Mark,
    pub end: Option<Mark>,
    pub entries: Seq<EntryView>,
}

impl View for Block {
    type V = BlockView;

    open spec fn view(&self) -> BlockView {
        BlockView { subject: self.subject@, text: self.text@ }
    }
}

impl View for Entry {
    type V = EntryView;

    open spec fn view(&self) -> EntryView {
        EntryView {
            position: self.position,
            started: self.started,
            finished: self.finished,
            contents: self.contents@.map_values(|b: Block| b@),
        }
    }
}

impl View for Logbook {
    type V = LogbookView;

    open spec fn view(&self) -> LogbookView {
        LogbookView {
            start: self.start,
            end: self.end,
            entries: self.entries@.map_values(|e: Entry| e@),
        }
    }
}

impl Logbook {
    pub fn new(start: Mark, end: Option<Mark>, entries: Vec<Entry>) -> (r: Self)
        ensures
            r@ == (LogbookView { start, end, entries: entries@.map_values(|e: Entry| e@) }),
    {
        Self { start, end, entries }
    }

    pub fn start(&self) -> (r: &Mark)
        ensures
            *r == self.start,
    {
        &self.start
    }

    pub fn end(&self) -> (r: &Option<Mark>)
        ensures
            *r == self.end,
    {
        &self.end
    }

    pub fn entries(&self) -> (r: &Vec<Entry>)
        ensures
            r@.map_values(|e: Entry| e@) == self@.entries,
    {
        &self.entries
    }
}

impl Mark {
    pub fn new(effective_date: Date, entry_number: u32) -> (r: Self)
        ensures
            r == (Mark { effective_date, entry_number }),
    {
        Self { effective_date, entry_number }
    }

    pub fn effective_date(&self) -> (r: Date)
        ensures
            r == self.effective_date,
    {
        self.effective_date
    }

    pub fn entry_number(&self) -> (r: u32)
        ensures
            r == self.entry_number,
    {
        self.entry_number
    }
}

impl Entry {
    pub fn new(position: Mark, started: DateTime, finished: DateTime, contents: Vec<Block>) -> (r:
        Self)
        ensures
            r@ == (EntryView {
                position,
                started,
                finished,
                contents: contents@.map_values(|b: Block| b@),
            }),
    {
        Self { position, started, finished, contents }
    }

    pub fn position(&self) -> (r: &Mark)
        ensures
            *r == self.position,
    {
        &self.position
    }

    pub fn started(&self) -> (r: DateTime)
        ensures
            r == self.started,
    {
        self.started
    }

    pub fn finished(&self) -> (r: DateTime)
        ensures
            r == self.finished,
    {
        self.finished
    }

    pub fn contents(&self) -> (r: &Vec<Block>)
        ensures
            r@.map_values(|b: Block| b@) == self@.contents,
    {
        &self.contents
    }

    pub fn contents_mut(&mut self) -> (r: &mut Vec<Block>)
        ensures
            *r == old(self).contents,
            final(self).position == old(self).position,
            final(self).started == old(self).started,
            final(self).finished == old(self).finished,
            final(self).contents == *final(r),
    {
        &mut self.contents
    }

    /// Get the recorded date of this entry
    pub fn recorded_date(&self) -> (r: Date)
        ensures
            r == self.started.date,
    {
        self.started.date()
    }

    /// An entry with the same content.
    pub(crate) fn duplicate(&self) -> (r: Entry)
        ensures
            r@ == self@,
    {
        let mut contents: Vec<Block> = Vec::new();
        let mut i: usize = 0;
        while i < self.contents.len()
            invariant
                i <= self.contents@.len(),
                contents@.map_values(|b: Block| b@) =~= self.contents@.map_values(
                    |b: Block| b@,
                ).take(i as int),
            decreases self.contents@.len() - i,
        {
            let b = &self.contents[i];
            let copy = Block { subject: b.subject.clone(), text: b.text.clone() };
            proof {
                let f = |b: Block| b@;
                assert((contents@ + seq![copy]).map_values(f) =~= contents@.map_values(f) + seq![
                    copy@,
                ]);
                assert(contents@.map_values(f) + seq![copy@] =~= self.contents@.map_values(f).take(
                    i + 1,
                ));
            }
            contents.push(copy);
            i += 1;
        }
        proof {
            assert(self.contents@.map_values(|b: Block| b@).take(i as int)
                =~= self.contents@.map_values(|b: Block| b@));
        }
        Entry { position: self.position, started: self.started, finished: self.finished, contents }
    }
}

impl Block {
    pub fn new(subject: String, text: String) -> (r: Self)
        ensures
            r@ == (BlockView { subject: subject@, text: text@ }),
    {
        Self { subject, text }
    }

    pub fn subject(&self) -> (r: &String)
        ensures
            r@ == self@.subject,
    {
        &self.subject
    }

    pub fn text(&self) -> (r: &String)
        ensures
            r@ == self@.text,
    {
        &self.text
    }

    pub fn text_mut(&mut self) -> (r: &mut String)
        ensures
            *r == old(self).text,
            final(self).subject == old(self).subject,
            final(self).text == *final(r),
    {
        &mut self.text
    }
}

} // verus!
