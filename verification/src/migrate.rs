//! The upgrade from the two-counter layout to the pattern-map layout.
//!
//! A table in the earlier layout has rows with two fixed counters. The
//! upgrade turns each pair of counters into a pattern map of two entries and
//! leaves the total alone. On a table that already has pattern maps it does
//! nothing, so it can run at every start.

use vstd::prelude::*;
use crate::codec::encode_counts;
use crate::keyed::as_written;
use crate::patterns::PatternMap;
use crate::record::{column_total, Columns, StoredRow, Tally};
use crate::store::{after_writes, lemma_writes_from_empty, DayStore};

verus! {

/// One row of a table in the earlier layout. A counter that holds nothing
/// is `None`.
pub struct LegacyRow {
    pub day: String,
    pub count: Option<u32>,
    pub right_count: Option<u32>,
    pub total_messages: Option<u32>,
}

/// The value of a counter: zero where it holds nothing.
pub open spec fn counter(value: Option<u32>) -> u32 {
    match value {
        Some(n) => n,
        None => 0u32,
    }
}

/// The pattern map for the two counters: `count` under `absolutely`,
/// `right_count` under `right`.
pub open spec fn two_counters(count: u32, right_count: u32) -> Map<Seq<char>, u64> {
    Map::<Seq<char>, u64>::empty().insert("absolutely"@, count as u64).insert(
        "right"@,
        right_count as u64,
    )
}

impl LegacyRow {
    /// What the row holds once upgraded.
    pub open spec fn tally(&self) -> Tally {
        (
            two_counters(counter(self.count), counter(self.right_count)),
            column_total(self.total_messages),
        )
    }
}

/// The days of a sequence of rows in the earlier layout, with what each
/// holds once upgraded.
pub open spec fn legacy_view(rows: Seq<LegacyRow>) -> Seq<(Seq<char>, Tally)> {
    Seq::new(rows.len(), |i: int| (rows[i].day@, rows[i].tally()))
}

/// Upgrades one row: the two counters become a pattern map, the day and the
/// total column stay as they are.
pub fn upgrade_row(row: &LegacyRow) -> (upgraded: StoredRow)
    ensures
        upgraded.day@ == row.day@,
        upgraded.columns.tally() == row.tally(),
        upgraded.columns.total_messages == row.total_messages,
        upgraded.columns.patterns is Some,
{
    let count = match row.count {
        Some(n) => n,
        None => 0,
    };
    let right_count = match row.right_count {
        Some(n) => n,
        None => 0,
    };
    let mut patterns = PatternMap::new();
    patterns.insert("absolutely".to_owned(), count as u64);
    patterns.insert("right".to_owned(), right_count as u64);
    StoredRow {
        day: row.day.clone(),
        columns: Columns {
            patterns: Some(encode_counts(&patterns)),
            total_messages: row.total_messages,
        },
    }
}

/// One step of the upgrade of a table.
#[derive(Clone, Copy, Debug, PartialEq, Eq, Structural)]
pub enum Step {
    /// Add the patterns column, with the empty map as its default.
    AddPatternsColumn,
    /// Rewrite the two counters of every row into its patterns column. The
    /// counter columns stay in place.
    RewriteCounters,
}

/// The steps that bring a table to the pattern-map layout, given whether it
/// already has the patterns column: none where it has, both where it has not.
pub fn plan(has_patterns_column: bool) -> (steps: Vec<Step>)
    ensures
        has_patterns_column ==> steps@ == Seq::<Step>::empty(),
        !has_patterns_column ==> steps@ == seq![Step::AddPatternsColumn, Step::RewriteCounters],
{
    let mut steps: Vec<Step> = Vec::new();
    if !has_patterns_column {
        steps.push(Step::AddPatternsColumn);
        steps.push(Step::RewriteCounters);
        assert(steps@ =~= seq![Step::AddPatternsColumn, Step::RewriteCounters]);
    }
    steps
}

/// A table as the upgrade finds it.
pub enum Backing {
    /// Rows in the earlier layout, in the order of the table.
    Legacy(Vec<LegacyRow>),
    /// A store that already has pattern maps.
    Current(DayStore),
}

/// What a table holds, in either layout.
pub enum BackingView {
    Legacy(Seq<(Seq<char>, Tally)>),
    Current(Map<Seq<char>, Tally>),
}

impl View for Backing {
    type V = BackingView;

    open spec fn view(&self) -> BackingView {
        match self {
            Backing::Legacy(rows) => BackingView::Legacy(legacy_view(rows@)),
            Backing::Current(store) => BackingView::Current(store@),
        }
    }
}

/// What the upgrade makes of a table: each row of the earlier layout
/// upgraded and written under its day; a table in the current layout as it is.
pub open spec fn migrated(backing: BackingView) -> Map<Seq<char>, Tally> {
    match backing {
        BackingView::Legacy(rows) => as_written(rows),
        BackingView::Current(days) => days,
    }
}

/// Runs the upgrade.
pub fn migrate(backing: Backing) -> (store: DayStore)
    ensures
        store@ == migrated(backing@),
{
    match backing {
        Backing::Current(store) => store,
        Backing::Legacy(rows) => {
            let mut store = DayStore::new();
            let ghost all = legacy_view(rows@);
            let mut i: usize = 0;
            while i < rows.len()
                invariant
                    i <= rows.len(),
                    all == legacy_view(rows@),
                    store@ == after_writes(Map::empty(), all.take(i as int)),
                decreases rows.len() - i,
            {
                proof {
                    let next = all.take(i + 1);
                    assert(next.drop_last() =~= all.take(i as int));
                    assert(next.last() == all[i as int]);
                }
                store.load_row(upgrade_row(&rows[i]));
                i += 1;
            }
            proof {
                assert(all.take(i as int) =~= all);
                lemma_writes_from_empty(all);
            }
            store
        },
    }
}

/// Running the upgrade on its own result changes nothing: the table is the
/// same after two runs as after one.
pub proof fn lemma_migration_idempotent(backing: BackingView)
    ensures
        migrated(BackingView::Current(migrated(backing))) == migrated(backing),
{
}

/// The upgrade leaves a table in the current layout as it is.
pub proof fn lemma_migration_keeps_current(days: Map<Seq<char>, Tally>)
    ensures
        migrated(BackingView::Current(days)) == days,
{
}

/// A row with both counters set reads after the upgrade as those two
/// counts, under `absolutely` and `right`, and nothing else.
pub proof fn lemma_upgraded_counts(row: LegacyRow, count: u32, right_count: u32)
    requires
        row.count == Some(count),
        row.right_count == Some(right_count),
    ensures
        row.tally().0 == two_counters(count, right_count),
        row.tally().0.dom() =~= set!["absolutely"@, "right"@],
        row.tally().0["absolutely"@] == count,
        row.tally().0["right"@] == right_count,
{
    reveal_strlit("absolutely");
    reveal_strlit("right");
    assert("absolutely"@.len() != "right"@.len());
}

} // verus!
