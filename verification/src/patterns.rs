//! The pattern map of one day: a count for each caller-defined pattern name.

use vstd::prelude::*;
use crate::keyed::{
    as_map, as_written, ascending, lemma_written_ascending, KeyedTable,
};

verus! {

/// The entries that a sequence of name and count pairs holds, each name by
/// its characters.
pub open spec fn pairs_view(pairs: Seq<(String, u64)>) -> Seq<(Seq<char>, u64)> {
    Seq::new(pairs.len(), |i: int| (pairs[i].0@, pairs[i].1))
}

/// A count for each of an open set of pattern names. No name occurs twice.
pub struct PatternMap {
    counts: KeyedTable<u64>,
}

impl View for PatternMap {
    type V = Map<Seq<char>, u64>;

    closed spec fn view(&self) -> Map<Seq<char>, u64> {
        self.counts@
    }
}

impl PatternMap {
    /// The map without patterns.
    pub fn new() -> (m: Self)
        ensures
            m@ == Map::<Seq<char>, u64>::empty(),
    {
        PatternMap { counts: KeyedTable::new() }
    }

    /// The number of patterns.
    pub fn len(&self) -> (n: usize)
        ensures
            self@.dom().finite(),
            n == self@.dom().len(),
    {
        self.counts.len()
    }

    /// Whether the map has no pattern.
    pub fn is_empty(&self) -> (r: bool)
        ensures
            r == (self@ == Map::<Seq<char>, u64>::empty()),
    {
        let n = self.counts.len();
        proof {
            if n == 0 {
                assert(self@.dom() =~= Set::empty());
                assert(self@ =~= Map::<Seq<char>, u64>::empty());
            } else {
                assert(Map::<Seq<char>, u64>::empty().dom().len() == 0);
            }
        }
        n == 0
    }

    /// The count of the pattern `name`, if the map has it.
    pub fn get(&self, name: &str) -> (r: Option<u64>)
        ensures
            r == (if self@.contains_key(name@) {
                Some(self@[name@])
            } else {
                None
            }),
    {
        match self.counts.get(name) {
            Some(c) => Some(*c),
            None => None,
        }
    }

    /// Whether the map has the pattern `name`.
    pub fn contains(&self, name: &str) -> (r: bool)
        ensures
            r == self@.contains_key(name@),
    {
        self.counts.contains(name)
    }

    /// Sets the count of `name`, whether or not it had one.
    pub fn insert(&mut self, name: String, count: u64)
        ensures
            final(self)@ == old(self)@.insert(name@, count),
    {
        self.counts.put(name, count);
    }

    /// The map that results from setting each pair in turn, a later pair
    /// over an earlier one with the same name.
    pub fn from_pairs(pairs: &Vec<(String, u64)>) -> (m: Self)
        ensures
            m@ == as_written(pairs_view(pairs@)),
    {
        let mut m = PatternMap::new();
        let ghost all = pairs_view(pairs@);
        let mut i: usize = 0;
        while i < pairs.len()
            invariant
                i <= pairs.len(),
                all == pairs_view(pairs@),
                m@ == as_written(all.take(i as int)),
            decreases pairs.len() - i,
        {
            proof {
                let next = all.take(i + 1);
                assert(next.drop_last() =~= all.take(i as int));
                assert(next.last() == all[i as int]);
            }
            m.insert(pairs[i].0.clone(), pairs[i].1);
            i += 1;
        }
        proof {
            assert(all.take(i as int) =~= all);
        }
        m
    }

    /// The patterns with their counts, by ascending name.
    pub fn pairs(&self) -> (v: Vec<(String, u64)>)
        ensures
            ascending(pairs_view(v@)),
            as_map(pairs_view(v@)) == self@,
            as_written(pairs_view(v@)) == self@,
            v.len() == self@.dom().len(),
    {
        let n = self.counts.len();
        let ghost e = self.counts.entries();
        let mut v: Vec<(String, u64)> = Vec::new();
        let mut i: usize = 0;
        while i < n
            invariant
                i <= n,
                n == e.len(),
                e == self.counts.entries(),
                v.len() == i,
                pairs_view(v@) == e.take(i as int),
            decreases n - i,
        {
            let s = self.counts.slot(i);
            let ghost before = v@;
            v.push((s.key.clone(), s.value));
            proof {
                assert(pairs_view(v@) =~= e.take(i + 1)) by {
                    assert forall|j: int| 0 <= j < i + 1 implies pairs_view(v@)[j] == e.take(
                        i + 1,
                    )[j] by {
                        if j < i {
                            assert(v@[j] == before[j]);
                            assert(pairs_view(before)[j] == e.take(i as int)[j]);
                        }
                    }
                }
            }
            i += 1;
        }
        proof {
            assert(e.take(n as int) =~= e);
            lemma_written_ascending(e);
        }
        v
    }
}

} // verus!
