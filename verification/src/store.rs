//! The day-counter store: one record for each day, written whole and read
//! with defaults.

use vstd::prelude::*;
use crate::clock::{day_shaped, today};
use crate::keyed::{
    as_map, as_written, ascending, distinct, holds, lemma_with_values, with_values, KeyedTable,
};
use crate::patterns::PatternMap;
use crate::record::{empty_tally, Columns, DayRecord, StoredRow, Tally};

verus! {

/// What a store holds for `day`: the tally written last, or the empty tally
/// where the day was never written.
pub open spec fn tally_of(days: Map<Seq<char>, Tally>, day: Seq<char>) -> Tally {
    if days.contains_key(day) {
        days[day]
    } else {
        empty_tally()
    }
}

/// What a store holds for the day that the clock gave, where it gave one: a
/// store holds nothing for no day.
pub open spec fn tally_on(days: Map<Seq<char>, Tally>, day: Option<Seq<char>>) -> Tally {
    match day {
        Some(d) => tally_of(days, d),
        None => empty_tally(),
    }
}

/// The days of a sequence of records with their tallies.
pub open spec fn records_view(records: Seq<DayRecord>) -> Seq<(Seq<char>, Tally)> {
    Seq::new(records.len(), |i: int| (records[i].day@, records[i].tally()))
}

/// The rows of the backing table, one for each day that was written.
pub struct DayStore {
    rows: KeyedTable<Columns>,
}

impl View for DayStore {
    type V = Map<Seq<char>, Tally>;

    closed spec fn view(&self) -> Map<Seq<char>, Tally> {
        self.rows@.map_values(|c: Columns| c.tally())
    }
}

impl DayStore {
    /// The store without days.
    pub fn new() -> (s: Self)
        ensures
            s@ == Map::<Seq<char>, Tally>::empty(),
    {
        let s = DayStore { rows: KeyedTable::new() };
        assert(s@ =~= Map::<Seq<char>, Tally>::empty());
        s
    }

    /// The number of days that were written.
    pub fn len(&self) -> (n: usize)
        ensures
            self@.dom().finite(),
            n == self@.dom().len(),
    {
        let n = self.rows.len();
        assert(self@.dom() =~= self.rows@.dom());
        n
    }

    /// The counts of `day`. A day without a record has no pattern and a total
    /// of zero. Stored patterns that are no object read as no pattern; a
    /// stored value that is no count is dropped alone.
    pub fn get(&self, day: &str) -> (r: (PatternMap, u32))
        ensures
            (r.0@, r.1) == tally_of(self@, day@),
    {
        match self.rows.get(day) {
            Some(columns) => columns.decode(),
            None => (PatternMap::new(), 0),
        }
    }

    /// The counts of `day`, or of no day at all: without a day there is no
    /// record, so no pattern and a total of zero.
    pub fn get_on(&self, day: Option<&str>) -> (r: (PatternMap, u32))
        ensures
            (r.0@, r.1) == tally_on(
                self@,
                match day {
                    Some(d) => Some(d@),
                    None => None,
                },
            ),
    {
        match day {
            Some(d) => self.get(d),
            None => (PatternMap::new(), 0),
        }
    }

    /// The counts of the current UTC day, with the day that was looked up.
    /// Where the clock gives no day, none was looked up and the counts are
    /// those of a day without a record.
    pub fn get_today(&self) -> (r: (Option<String>, PatternMap, u32))
        ensures
            r.0 matches Some(day) ==> day_shaped(day@),
            (r.1@, r.2) == tally_on(
                self@,
                match r.0 {
                    Some(day) => Some(day@),
                    None => None,
                },
            ),
    {
        match today() {
            Some(day) => {
                let (patterns, total_messages) = self.get(day.as_str());
                (Some(day), patterns, total_messages)
            },
            None => (None, PatternMap::new(), 0),
        }
    }

    /// Every record, by ascending day.
    pub fn list_history(&self) -> (records: Vec<DayRecord>)
        ensures
            ascending(records_view(records@)),
            as_map(records_view(records@)) == self@,
            records.len() == self@.dom().len(),
    {
        let n = self.rows.len();
        let ghost e = self.rows.entries();
        let ghost f = |c: Columns| c.tally();
        let mut records: Vec<DayRecord> = Vec::new();
        let mut i: usize = 0;
        while i < n
            invariant
                i <= n,
                n == e.len(),
                e == self.rows.entries(),
                f == |c: Columns| c.tally(),
                records.len() == i,
                records_view(records@) == with_values(e, f).take(i as int),
            decreases n - i,
        {
            let slot = self.rows.slot(i);
            let (patterns, total_messages) = slot.value.decode();
            let ghost before = records@;
            records.push(DayRecord { day: slot.key.clone(), patterns, total_messages });
            proof {
                assert forall|j: int| 0 <= j < i + 1 implies records_view(records@)[j]
                    == with_values(e, f).take(i + 1)[j] by {
                    if j < i {
                        assert(records@[j] == before[j]);
                        assert(records_view(before)[j] == with_values(e, f).take(i as int)[j]);
                    }
                }
                assert(records_view(records@) =~= with_values(e, f).take(i + 1));
            }
            i += 1;
        }
        proof {
            assert(with_values(e, f).take(n as int) =~= with_values(e, f));
            lemma_with_values(e, f);
            assert(self@.dom() =~= self.rows@.dom());
        }
        records
    }

    /// Writes the record of `day`, in place of whatever the day held.
    pub fn upsert(&mut self, day: String, patterns: &PatternMap, total_messages: u32)
        ensures
            final(self)@ == old(self)@.insert(day@, (patterns@, total_messages)),
    {
        let columns = Columns::encode(patterns, total_messages);
        let ghost before = self.rows@;
        self.rows.put(day, columns);
        assert(before.insert(day@, columns).map_values(|c: Columns| c.tally()) =~= before.map_values(
            |c: Columns| c.tally(),
        ).insert(day@, columns.tally()));
    }

    /// Puts a row into the store as it is, in place of the row of its day.
    pub fn load_row(&mut self, row: StoredRow)
        ensures
            final(self)@ == old(self)@.insert(row.day@, row.columns.tally()),
    {
        let ghost before = self.rows@;
        let ghost columns = row.columns;
        let ghost day = row.day@;
        self.rows.put(row.day, row.columns);
        assert(before.insert(day, columns).map_values(|c: Columns| c.tally()) =~= before.map_values(
            |c: Columns| c.tally(),
        ).insert(day, columns.tally()));
    }
}

/// The store after a sequence of writes onto `days`, each write replacing
/// what its day held.
pub open spec fn after_writes(days: Map<Seq<char>, Tally>, writes: Seq<(Seq<char>, Tally)>) -> Map<
    Seq<char>,
    Tally,
>
    decreases writes.len(),
{
    if writes.len() == 0 {
        days
    } else {
        after_writes(days, writes.drop_last()).insert(writes.last().0, writes.last().1)
    }
}

/// A day that no write names reads after the writes as it read before them;
/// in a store that started empty it reads as no pattern and a total of zero.
pub proof fn lemma_unwritten_day_unchanged(
    days: Map<Seq<char>, Tally>,
    writes: Seq<(Seq<char>, Tally)>,
    day: Seq<char>,
)
    requires
        forall|i: int| 0 <= i < writes.len() ==> (#[trigger] writes[i]).0 != day,
    ensures
        tally_of(after_writes(days, writes), day) == tally_of(days, day),
        tally_of(after_writes(Map::empty(), writes), day) == empty_tally(),
    decreases writes.len(),
{
    if writes.len() > 0 {
        let rest = writes.drop_last();
        assert forall|i: int| 0 <= i < rest.len() implies (#[trigger] rest[i]).0 != day by {
            assert(rest[i] == writes[i]);
        }
        lemma_unwritten_day_unchanged(days, rest, day);
        assert(writes.last() == writes[writes.len() - 1]);
    }
}

/// A second write to a day replaces the first: the store is the one that
/// the second write alone would have given, and the day reads as the second.
pub proof fn lemma_upsert_replaces(
    days: Map<Seq<char>, Tally>,
    day: Seq<char>,
    first: Tally,
    second: Tally,
)
    ensures
        days.insert(day, first).insert(day, second) == days.insert(day, second),
        tally_of(days.insert(day, first).insert(day, second), day) == second,
{
    assert(days.insert(day, first).insert(day, second) =~= days.insert(day, second));
}

/// Writes to two different days give the same store in either order.
pub proof fn lemma_upserts_commute(
    days: Map<Seq<char>, Tally>,
    day_a: Seq<char>,
    a: Tally,
    day_b: Seq<char>,
    b: Tally,
)
    requires
        day_a != day_b,
    ensures
        days.insert(day_a, a).insert(day_b, b) == days.insert(day_b, b).insert(day_a, a),
{
    assert(days.insert(day_a, a).insert(day_b, b) =~= days.insert(day_b, b).insert(day_a, a));
}

/// After writes to pairwise different days, each of those days reads as
/// what was written to it.
pub proof fn lemma_distinct_days_keep_their_writes(
    days: Map<Seq<char>, Tally>,
    writes: Seq<(Seq<char>, Tally)>,
    i: int,
)
    requires
        0 <= i < writes.len(),
        forall|j: int, k: int|
            0 <= j < k < writes.len() ==> (#[trigger] writes[j]).0 != (#[trigger] writes[k]).0,
    ensures
        tally_of(after_writes(days, writes), writes[i].0) == writes[i].1,
    decreases writes.len(),
{
    let rest = writes.drop_last();
    assert(writes.last() == writes[writes.len() - 1]);
    if i < writes.len() - 1 {
        assert forall|j: int, k: int| 0 <= j < k < rest.len() implies (#[trigger] rest[j]).0 != (
        #[trigger] rest[k]).0 by {
            assert(rest[j] == writes[j]);
            assert(rest[k] == writes[k]);
        }
        lemma_distinct_days_keep_their_writes(days, rest, i);
        assert(rest[i] == writes[i]);
    }
}

/// Writing onto the empty store is writing from nothing.
pub proof fn lemma_writes_from_empty(writes: Seq<(Seq<char>, Tally)>)
    ensures
        after_writes(Map::empty(), writes) == as_written(writes),
    decreases writes.len(),
{
    if writes.len() > 0 {
        lemma_writes_from_empty(writes.drop_last());
    }
}

/// After a sequence of writes the store has a day exactly if it had it
/// before or a write names it, and a day that no write names holds what it
/// held.
pub proof fn lemma_written_days(
    days: Map<Seq<char>, Tally>,
    writes: Seq<(Seq<char>, Tally)>,
    day: Seq<char>,
)
    ensures
        after_writes(days, writes).contains_key(day) <==> days.contains_key(day) || holds(
            writes,
            day,
        ),
        !holds(writes, day) ==> after_writes(days, writes)[day] == days[day],
    decreases writes.len(),
{
    if writes.len() > 0 {
        let rest = writes.drop_last();
        let last = writes.last();
        lemma_written_days(days, rest, day);
        assert(last == writes[writes.len() - 1]);
        if holds(rest, day) {
            let i = choose|i: int| 0 <= i < rest.len() && (#[trigger] rest[i]).0 == day;
            assert(writes[i] == rest[i]);
        }
        if holds(writes, day) && last.0 != day {
            let i = choose|i: int| 0 <= i < writes.len() && (#[trigger] writes[i]).0 == day;
            assert(rest[i] == writes[i]);
        }
    }
}

/// Writes to pairwise different days give the same store in whatever order
/// they take effect. So where each write is one atomic step, writers that
/// run at the same time lose nothing: every one of their days reads as what
/// was written to it, and every other day as before.
pub proof fn lemma_writes_in_any_order(
    days: Map<Seq<char>, Tally>,
    a: Seq<(Seq<char>, Tally)>,
    b: Seq<(Seq<char>, Tally)>,
)
    requires
        distinct(a),
        distinct(b),
        forall|w: (Seq<char>, Tally)| a.contains(w) <==> b.contains(w),
    ensures
        after_writes(days, a) == after_writes(days, b),
        forall|i: int|
            0 <= i < a.len() ==> tally_of(after_writes(days, b), (#[trigger] a[i]).0) == a[i].1,
        forall|day: Seq<char>|
            !holds(a, day) ==> tally_of(#[trigger] after_writes(days, b), day) == tally_of(
                days,
                day,
            ),
{
    let x = after_writes(days, a);
    let y = after_writes(days, b);
    assert forall|day: Seq<char>| holds(a, day) <==> holds(b, day) by {
        if holds(a, day) {
            let i = choose|i: int| 0 <= i < a.len() && (#[trigger] a[i]).0 == day;
            assert(a.contains(a[i]));
            let j = choose|j: int| 0 <= j < b.len() && b[j] == a[i];
            assert(b[j].0 == day);
        }
        if holds(b, day) {
            let j = choose|j: int| 0 <= j < b.len() && (#[trigger] b[j]).0 == day;
            assert(b.contains(b[j]));
            let i = choose|i: int| 0 <= i < a.len() && a[i] == b[j];
            assert(a[i].0 == day);
        }
    }
    assert forall|i: int| 0 <= i < a.len() implies tally_of(y, (#[trigger] a[i]).0) == a[i].1
        && tally_of(x, a[i].0) == a[i].1 by {
        assert(a.contains(a[i]));
        let j = choose|j: int| 0 <= j < b.len() && b[j] == a[i];
        lemma_distinct_days_keep_their_writes(days, a, i);
        lemma_distinct_days_keep_their_writes(days, b, j);
    }
    assert forall|day: Seq<char>| #[trigger] x.dom().contains(day) == y.dom().contains(day) by {
        lemma_written_days(days, a, day);
        lemma_written_days(days, b, day);
    }
    assert forall|day: Seq<char>| x.dom().contains(day) implies #[trigger] x[day] == y[day] by {
        lemma_written_days(days, a, day);
        lemma_written_days(days, b, day);
        if holds(a, day) {
            let i = choose|i: int| 0 <= i < a.len() && (#[trigger] a[i]).0 == day;
            assert(tally_of(y, a[i].0) == a[i].1 && tally_of(x, a[i].0) == a[i].1);
        }
    }
    assert(x =~= y);
    assert forall|day: Seq<char>| !holds(a, day) implies tally_of(
        #[trigger] after_writes(days, b),
        day,
    ) == tally_of(days, day) by {
        lemma_written_days(days, b, day);
    }
}

} // verus!
