//! Day records and the rows that the backing table holds for them.

use vstd::prelude::*;
use crate::codec::{counts_or_empty, decode_counts, encode_counts};
use crate::patterns::PatternMap;

verus! {

/// What one day holds: its pattern counts and its total message count.
pub type Tally = (Map<Seq<char>, u64>, u32);

/// The tally of a day without writes: no pattern, no message.
pub open spec fn empty_tally() -> Tally {
    (Map::empty(), 0u32)
}

/// One calendar day with its counts.
pub struct DayRecord {
    pub day: String,
    pub patterns: PatternMap,
    pub total_messages: u32,
}

impl DayRecord {
    /// The counts of the record.
    pub open spec fn tally(&self) -> Tally {
        (self.patterns@, self.total_messages)
    }
}

/// The two value columns of a row as the backing table gave them. A column
/// that could not be read is `None`.
pub struct Columns {
    pub patterns: Option<String>,
    pub total_messages: Option<u32>,
}

/// One row of the backing table.
pub struct StoredRow {
    pub day: String,
    pub columns: Columns,
}

/// The pattern map that a patterns column stands for: the counts of its
/// object, without the values that are no counts; the empty map where the
/// column is missing or its text is no object.
pub open spec fn column_counts(patterns: Option<String>) -> Map<Seq<char>, u64> {
    match patterns {
        Some(text) => counts_or_empty(text@),
        None => Map::empty(),
    }
}

/// The total that a total column stands for: zero where it is missing.
pub open spec fn column_total(total_messages: Option<u32>) -> u32 {
    match total_messages {
        Some(n) => n,
        None => 0u32,
    }
}

/// The name under which the total is flattened into a day's counts.
pub open spec fn total_key() -> Seq<char> {
    "total_messages"@
}

impl Columns {
    /// The tally that the columns stand for.
    pub open spec fn tally(&self) -> Tally {
        (column_counts(self.patterns), column_total(self.total_messages))
    }

    /// Columns that hold `patterns` in stored form and `total_messages`.
    pub fn encode(patterns: &PatternMap, total_messages: u32) -> (c: Self)
        ensures
            c.tally() == (patterns@, total_messages),
            c.patterns is Some,
            c.total_messages == Some(total_messages),
    {
        Columns { patterns: Some(encode_counts(patterns)), total_messages: Some(total_messages) }
    }

    /// Reads the columns, with the defaults for what is missing or cannot be
    /// read.
    pub fn decode(&self) -> (r: (PatternMap, u32))
        ensures
            (r.0@, r.1) == self.tally(),
    {
        let patterns = match &self.patterns {
            Some(text) => decode_counts(text.as_str()),
            None => PatternMap::new(),
        };
        let total_messages = match self.total_messages {
            Some(n) => n,
            None => 0,
        };
        (patterns, total_messages)
    }
}

impl StoredRow {
    /// The row that holds `patterns` and `total_messages` for `day`.
    pub fn encode(day: String, patterns: &PatternMap, total_messages: u32) -> (row: Self)
        ensures
            row.day == day,
            row.columns.tally() == (patterns@, total_messages),
            row.columns.patterns is Some,
            row.columns.total_messages == Some(total_messages),
    {
        StoredRow { day, columns: Columns::encode(patterns, total_messages) }
    }

    /// The record that the row stands for.
    pub fn decode(&self) -> (record: DayRecord)
        ensures
            record.day@ == self.day@,
            record.tally() == self.columns.tally(),
    {
        let (patterns, total_messages) = self.columns.decode();
        DayRecord { day: self.day.clone(), patterns, total_messages }
    }
}

/// The counts of a day as one flat map: its patterns, and the total under
/// the name `total_messages`, which takes the place of a pattern of that name.
pub open spec fn flat(tally: Tally) -> Map<Seq<char>, u64> {
    tally.0.insert(total_key(), tally.1 as u64)
}

/// Flattens a day's counts into one map.
pub fn flatten(patterns: PatternMap, total_messages: u32) -> (m: PatternMap)
    ensures
        m@ == flat((patterns@, total_messages)),
{
    let mut m = patterns;
    m.insert("total_messages".to_owned(), total_messages as u64);
    m
}

/// The flat counts for the row found for a day, or for no row at all: a day
/// without a row has no pattern and a total of zero.
pub fn today_counts(row: Option<&Columns>) -> (m: PatternMap)
    ensures
        m@ == flat(
            match row {
                Some(columns) => columns.tally(),
                None => empty_tally(),
            },
        ),
{
    match row {
        Some(columns) => {
            let (patterns, total_messages) = columns.decode();
            flatten(patterns, total_messages)
        },
        None => flatten(PatternMap::new(), 0),
    }
}

} // verus!
