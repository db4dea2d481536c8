//! The stored form of a pattern map: one JSON object, a number under each
//! pattern name, written and read by `serde_json`.
//!
//! Reading is lenient. A text that is no JSON object stands for the empty
//! map; in an object, a value that is no non-negative integer is dropped and
//! the other values stay.

use std::collections::HashMap;
use vstd::prelude::*;
use crate::keyed::{
    as_map, as_written, ascending, distinct, lemma_ascending_distinct, lemma_next_entry,
    KeyedTable,
};
use crate::patterns::{pairs_view, PatternMap};

verus! {

/// What `serde_json::from_str::<HashMap<String, serde_json::Value>>` makes of
/// `text`: for each name of the object what `Value::as_u64` gives for its
/// value, or `None` where the parser reports an error.
pub uninterp spec fn stored_fields(text: Seq<char>) -> Option<Map<Seq<char>, Option<u64>>>;

/// The counts among the fields of an object: the names whose value is a
/// non-negative integer, each with that integer.
pub open spec fn kept_counts(fields: Map<Seq<char>, Option<u64>>) -> Map<Seq<char>, u64> {
    Map::new(
        |name: Seq<char>| fields.contains_key(name) && fields[name] is Some,
        |name: Seq<char>| fields[name]->0,
    )
}

/// The fields of an object that holds exactly the counts of `counts`.
pub open spec fn all_counts(counts: Map<Seq<char>, u64>) -> Map<Seq<char>, Option<u64>> {
    Map::new(|name: Seq<char>| counts.contains_key(name), |name: Seq<char>| Some(counts[name]))
}

/// The pattern map that a stored text stands for.
pub open spec fn counts_or_empty(text: Seq<char>) -> Map<Seq<char>, u64> {
    match stored_fields(text) {
        Some(fields) => kept_counts(fields),
        None => Map::empty(),
    }
}

/// The fields that a sequence of pairs holds, each name by its characters.
pub open spec fn fields_view(pairs: Seq<(String, Option<u64>)>) -> Seq<
    (Seq<char>, Option<u64>),
> {
    Seq::new(pairs.len(), |i: int| (pairs[i].0@, pairs[i].1))
}

/// Calls `serde_json::from_str::<HashMap<String, serde_json::Value>>` and
/// hands the map out as pairs, each value as `Value::as_u64` gives it, in
/// whatever order the map yields them.
///
/// Trusted: the pairs, written one after another, give exactly the map that
/// the parser produced (a hash map holds each name once), and `None` comes
/// back exactly when the parser reports an error.
#[verifier::external_body]
fn parse_fields(text: &str) -> (parsed: Option<Vec<(String, Option<u64>)>>)
    ensures
        match parsed {
            Some(pairs) => stored_fields(text@) == Some(as_written(fields_view(pairs@))),
            None => stored_fields(text@) is None,
        },
{
    match serde_json::from_str::<HashMap<String, serde_json::Value>>(text) {
        Ok(map) => Some(map.into_iter().map(|(name, value)| (name, value.as_u64())).collect()),
        Err(_) => None,
    }
}

/// Collects the pairs into a hash map and calls `serde_json::to_string` on it.
///
/// Trusted: serializing a map with string keys and integer values into memory
/// does not fail, and the text that comes out is read back by
/// `serde_json::from_str` as an object with the same names, each value the
/// same non-negative integer. The order of the names in the text is the hash
/// map's and is not stated.
#[verifier::external_body]
fn write_counts(pairs: &Vec<(String, u64)>) -> (text: String)
    requires
        distinct(pairs_view(pairs@)),
    ensures
        stored_fields(text@) == Some(all_counts(as_written(pairs_view(pairs@)))),
{
    let map: HashMap<&str, u64> = pairs.iter().map(|pair| (pair.0.as_str(), pair.1)).collect();
    serde_json::to_string(&map).unwrap_or_default()
}

/// The counts among the fields of a table: each value that is a non-negative
/// integer is kept under its name, every other value is dropped.
pub fn keep_counts(fields: &KeyedTable<Option<u64>>) -> (m: PatternMap)
    ensures
        m@ == kept_counts(fields@),
{
    let n = fields.len();
    let ghost e = fields.entries();
    let mut m = PatternMap::new();
    let mut i: usize = 0;
    assert(as_map(e.take(0)) =~= Map::<Seq<char>, Option<u64>>::empty());
    assert(kept_counts(Map::<Seq<char>, Option<u64>>::empty()) =~= Map::<Seq<char>, u64>::empty());
    while i < n
        invariant
            i <= n,
            n == e.len(),
            e == fields.entries(),
            ascending(e),
            m@ == kept_counts(as_map(e.take(i as int))),
        decreases n - i,
    {
        let slot = fields.slot(i);
        proof {
            lemma_next_entry(e, i as int);
            let before = as_map(e.take(i as int));
            let after = before.insert(e[i as int].0, e[i as int].1);
            match e[i as int].1 {
                Some(count) => {
                    assert(kept_counts(after) =~= kept_counts(before).insert(e[i as int].0, count));
                },
                None => {
                    assert(kept_counts(after) =~= kept_counts(before));
                },
            }
        }
        match slot.value {
            Some(count) => {
                m.insert(slot.key.clone(), count);
            },
            None => {},
        }
        i += 1;
    }
    proof {
        assert(e.take(n as int) =~= e);
    }
    m
}

/// The pattern map for what the parser made of a stored text: the counts
/// among the parsed fields, a later pair standing over an earlier one with
/// the same name; or the empty map where there was nothing to parse.
pub fn counts_from_parsed(parsed: Option<Vec<(String, Option<u64>)>>) -> (m: PatternMap)
    ensures
        m@ == (match parsed {
            Some(pairs) => kept_counts(as_written(fields_view(pairs@))),
            None => Map::empty(),
        }),
{
    match parsed {
        Some(pairs) => {
            let mut fields: KeyedTable<Option<u64>> = KeyedTable::new();
            let ghost all = fields_view(pairs@);
            let mut i: usize = 0;
            while i < pairs.len()
                invariant
                    i <= pairs.len(),
                    all == fields_view(pairs@),
                    fields@ == as_written(all.take(i as int)),
                decreases pairs.len() - i,
            {
                proof {
                    let next = all.take(i + 1);
                    assert(next.drop_last() =~= all.take(i as int));
                    assert(next.last() == all[i as int]);
                }
                fields.put(pairs[i].0.clone(), pairs[i].1);
                i += 1;
            }
            proof {
                assert(all.take(i as int) =~= all);
            }
            keep_counts(&fields)
        },
        None => PatternMap::new(),
    }
}

/// Reads a stored text. A text that is no object gives the empty map; a
/// value that is no non-negative integer is dropped. Never an error.
pub fn decode_counts(text: &str) -> (m: PatternMap)
    ensures
        m@ == counts_or_empty(text@),
{
    counts_from_parsed(parse_fields(text))
}

/// Writing `counts` and keeping the counts of what was written gives
/// `counts` again.
pub proof fn lemma_all_counts_kept(counts: Map<Seq<char>, u64>)
    ensures
        kept_counts(all_counts(counts)) == counts,
{
    assert(kept_counts(all_counts(counts)) =~= counts);
}

/// Writes a pattern map in its stored form. Reading the text back gives the
/// same map.
pub fn encode_counts(m: &PatternMap) -> (text: String)
    ensures
        stored_fields(text@) == Some(all_counts(m@)),
        counts_or_empty(text@) == m@,
{
    let pairs = m.pairs();
    proof {
        lemma_ascending_distinct(pairs_view(pairs@));
        lemma_all_counts_kept(m@);
    }
    write_counts(&pairs)
}

} // verus!
