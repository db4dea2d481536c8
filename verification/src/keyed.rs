//! A table of values keyed by strings, held in ascending key order.
//!
//! No key occurs twice, so the table is a finite map; the order makes what it
//! hands out deterministic.

use vstd::prelude::*;
use crate::text::{lemma_text_lt_strict, rank, text_lt, Rank};

verus! {

/// One key of a table with its value.
pub struct Slot<V> {
    pub key: String,
    pub value: V,
}

/// The keys of `e` strictly ascend in byte-wise lexicographic order.
pub open spec fn ascending<V>(e: Seq<(Seq<char>, V)>) -> bool {
    forall|i: int, j: int|
        #![trigger e[i], e[j]]
        0 <= i < j < e.len() ==> text_lt(e[i].0, e[j].0)
}

/// Some entry of `e` has the key `key`.
pub open spec fn holds<V>(e: Seq<(Seq<char>, V)>, key: Seq<char>) -> bool {
    exists|i: int| 0 <= i < e.len() && (#[trigger] e[i]).0 == key
}

/// The place of an entry of `e` with the key `key`.
pub open spec fn index_of<V>(e: Seq<(Seq<char>, V)>, key: Seq<char>) -> int {
    choose|i: int| 0 <= i < e.len() && (#[trigger] e[i]).0 == key
}

/// The map that a sequence of entries stands for.
pub open spec fn as_map<V>(e: Seq<(Seq<char>, V)>) -> Map<Seq<char>, V> {
    Map::new(|k: Seq<char>| holds(e, k), |k: Seq<char>| e[index_of(e, k)].1)
}

/// In an ascending sequence each key stands at one place only, so the map
/// gives every entry its own value.
pub proof fn lemma_entry_in_map<V>(e: Seq<(Seq<char>, V)>, i: int)
    requires
        ascending(e),
        0 <= i < e.len(),
    ensures
        as_map(e).contains_key(e[i].0),
        as_map(e)[e[i].0] == e[i].1,
        index_of(e, e[i].0) == i,
{
    let k = e[i].0;
    assert(holds(e, k));
    let j = index_of(e, k);
    if j < i {
        assert(text_lt(e[j].0, e[i].0));
        lemma_text_lt_strict(k, k, k);
    } else if i < j {
        assert(text_lt(e[i].0, e[j].0));
        lemma_text_lt_strict(k, k, k);
    }
}

/// Putting a new key at its place in the order adds it to the map.
pub proof fn lemma_insert_at<V>(e: Seq<(Seq<char>, V)>, p: int, key: Seq<char>, value: V)
    requires
        ascending(e),
        0 <= p <= e.len(),
        forall|i: int| 0 <= i < p ==> text_lt((#[trigger] e[i]).0, key),
        forall|i: int| p <= i < e.len() ==> text_lt(key, (#[trigger] e[i]).0),
    ensures
        ascending(e.insert(p, (key, value))),
        as_map(e.insert(p, (key, value))) == as_map(e).insert(key, value),
        !as_map(e).contains_key(key),
{
    let f = e.insert(p, (key, value));
    assert forall|i: int, j: int| 0 <= i < j < f.len() implies text_lt(
        (#[trigger] f[i]).0,
        (#[trigger] f[j]).0,
    ) by {
        let a = if i < p { i } else { i - 1 };
        let b = if j < p { j } else { j - 1 };
        if i != p && j != p {
            assert(f[i] == e[a]);
            assert(f[j] == e[b]);
        } else if i == p {
            assert(f[j] == e[b]);
        } else {
            assert(f[i] == e[a]);
        }
    }
    if holds(e, key) {
        let i = index_of(e, key);
        assert(e[i].0 == key);
        lemma_text_lt_strict(key, key, key);
    }
    assert forall|k: Seq<char>| holds(f, k) <==> (k == key || holds(e, k)) by {
        if holds(f, k) {
            let i = index_of(f, k);
            if i < p {
                assert(f[i] == e[i]);
            } else if i > p {
                assert(f[i] == e[i - 1]);
            }
        }
        if k == key {
            assert(f[p].0 == k);
        } else if holds(e, k) {
            let i = index_of(e, k);
            if i < p {
                assert(f[i] == e[i]);
            } else {
                assert(f[i + 1] == e[i]);
            }
        }
    }
    assert forall|k: Seq<char>| holds(f, k) implies #[trigger] as_map(f)[k] == as_map(e).insert(
        key,
        value,
    )[k] by {
        let i = index_of(f, k);
        lemma_entry_in_map(f, i);
        if i < p {
            assert(f[i] == e[i]);
            lemma_entry_in_map(e, i);
        } else if i > p {
            assert(f[i] == e[i - 1]);
            lemma_entry_in_map(e, i - 1);
        }
    }
    assert(as_map(f) =~= as_map(e).insert(key, value));
}

/// Writing a new value where the key already stands replaces it in the map.
pub proof fn lemma_replace_at<V>(e: Seq<(Seq<char>, V)>, p: int, value: V)
    requires
        ascending(e),
        0 <= p < e.len(),
    ensures
        ascending(e.update(p, (e[p].0, value))),
        as_map(e.update(p, (e[p].0, value))) == as_map(e).insert(e[p].0, value),
{
    let key = e[p].0;
    let f = e.update(p, (key, value));
    assert forall|i: int, j: int| 0 <= i < j < f.len() implies text_lt(
        (#[trigger] f[i]).0,
        (#[trigger] f[j]).0,
    ) by {
        assert(f[i].0 == e[i].0);
        assert(f[j].0 == e[j].0);
    }
    assert forall|k: Seq<char>| holds(f, k) <==> (k == key || holds(e, k)) by {
        if holds(f, k) {
            let i = index_of(f, k);
            assert(e[i].0 == k);
        }
        if k == key {
            assert(f[p].0 == k);
        }
        if holds(e, k) {
            let i = index_of(e, k);
            assert(f[i].0 == k);
        }
    }
    assert forall|k: Seq<char>| holds(f, k) implies #[trigger] as_map(f)[k] == as_map(e).insert(
        key,
        value,
    )[k] by {
        let i = index_of(f, k);
        lemma_entry_in_map(f, i);
        if i != p {
            assert(f[i] == e[i]);
            lemma_entry_in_map(e, i);
            lemma_entry_in_map(e, p);
        }
    }
    assert(as_map(f) =~= as_map(e).insert(key, value));
}

/// An ascending sequence stands for a finite map with one key for each entry.
pub proof fn lemma_map_len<V>(e: Seq<(Seq<char>, V)>)
    requires
        ascending(e),
    ensures
        as_map(e).dom().finite(),
        as_map(e).dom().len() == e.len(),
    decreases e.len(),
{
    if e.len() == 0 {
        assert(as_map(e).dom() =~= Set::empty());
    } else {
        let d = e.drop_last();
        let last = e.last();
        assert forall|i: int, j: int| 0 <= i < j < d.len() implies text_lt(
            (#[trigger] d[i]).0,
            (#[trigger] d[j]).0,
        ) by {
            assert(d[i] == e[i]);
            assert(d[j] == e[j]);
        }
        lemma_map_len(d);
        assert forall|i: int| 0 <= i < d.len() implies text_lt((#[trigger] d[i]).0, last.0) by {
            assert(d[i] == e[i]);
            assert(last == e[e.len() - 1]);
        }
        lemma_insert_at(d, d.len() as int, last.0, last.1);
        assert(d.insert(d.len() as int, last) =~= e);
        assert(as_map(e).dom() =~= as_map(d).dom().insert(last.0));
    }
}

/// The entries that a sequence of slots holds, each key by its characters.
pub open spec fn entries_of<V>(slots: Seq<Slot<V>>) -> Seq<(Seq<char>, V)> {
    Seq::new(slots.len(), |i: int| (slots[i].key@, slots[i].value))
}

/// A finite map from strings to values, kept in ascending key order.
pub struct KeyedTable<V> {
    slots: Vec<Slot<V>>,
}

impl<V> View for KeyedTable<V> {
    type V = Map<Seq<char>, V>;

    open spec fn view(&self) -> Map<Seq<char>, V> {
        as_map(self.entries())
    }
}

impl<V> KeyedTable<V> {
    #[verifier::type_invariant]
    spec fn keys_ascend(&self) -> bool {
        ascending(entries_of(self.slots@))
    }

    /// The entries in the order in which the table holds them.
    pub closed spec fn entries(&self) -> Seq<(Seq<char>, V)> {
        entries_of(self.slots@)
    }

    /// A table without entries.
    pub fn new() -> (t: Self)
        ensures
            t.entries() == Seq::<(Seq<char>, V)>::empty(),
            t@ == Map::<Seq<char>, V>::empty(),
    {
        let t = KeyedTable { slots: Vec::new() };
        assert(t.entries() =~= Seq::<(Seq<char>, V)>::empty());
        assert(t@ =~= Map::<Seq<char>, V>::empty());
        t
    }

    /// The number of entries. The entries are ascending and stand for as many
    /// keys of the map.
    pub fn len(&self) -> (n: usize)
        ensures
            n == self.entries().len(),
            ascending(self.entries()),
            self@.dom().finite(),
            self@.dom().len() == n,
    {
        proof {
            use_type_invariant(self);
            lemma_map_len(self.entries());
        }
        self.slots.len()
    }

    /// The entry at place `i` of the order.
    pub fn slot(&self, i: usize) -> (s: &Slot<V>)
        requires
            i < self.entries().len(),
        ensures
            (s.key@, s.value) == self.entries()[i as int],
            self@.contains_key(s.key@),
            self@[s.key@] == s.value,
    {
        proof {
            use_type_invariant(self);
            lemma_entry_in_map(self.entries(), i as int);
        }
        &self.slots[i]
    }

    /// Where `key` stands: `Ok` with its place, or `Err` with the place at
    /// which it would have to be put to keep the order.
    pub fn locate(&self, key: &str) -> (r: Result<usize, usize>)
        ensures
            match r {
                Ok(i) => {
                    &&& i < self.entries().len()
                    &&& self.entries()[i as int].0 == key@
                    &&& self@.contains_key(key@)
                },
                Err(p) => {
                    &&& p <= self.entries().len()
                    &&& forall|i: int| 0 <= i < p ==> text_lt((#[trigger] self.entries()[i]).0, key@)
                    &&& forall|i: int|
                        p <= i < self.entries().len() ==> text_lt(
                            key@,
                            (#[trigger] self.entries()[i]).0,
                        )
                    &&& !self@.contains_key(key@)
                },
            },
    {
        proof {
            use_type_invariant(self);
        }
        let ghost e = self.entries();
        let mut i: usize = 0;
        while i < self.slots.len()
            invariant
                e == self.entries(),
                e == entries_of(self.slots@),
                ascending(e),
                i <= e.len(),
                forall|j: int| 0 <= j < i ==> text_lt((#[trigger] e[j]).0, key@),
            decreases e.len() - i,
        {
            match rank(self.slots[i].key.as_str(), key) {
                Rank::Before => {},
                Rank::Same => {
                    proof {
                        lemma_entry_in_map(e, i as int);
                    }
                    return Ok(i);
                },
                Rank::After => {
                    proof {
                        assert forall|j: int| i <= j < e.len() implies text_lt(
                            key@,
                            (#[trigger] e[j]).0,
                        ) by {
                            if i < j {
                                assert(text_lt(e[i as int].0, e[j].0));
                                lemma_text_lt_strict(key@, e[i as int].0, e[j].0);
                            }
                        }
                        lemma_absent(e, i as int, key@);
                    }
                    return Err(i);
                },
            }
            i += 1;
        }
        proof {
            lemma_absent(e, i as int, key@);
        }
        Err(i)
    }

    /// The value under `key`, if the table has one.
    pub fn get(&self, key: &str) -> (r: Option<&V>)
        ensures
            match r {
                Some(v) => self@.contains_key(key@) && *v == self@[key@],
                None => !self@.contains_key(key@),
            },
    {
        proof {
            use_type_invariant(self);
        }
        match self.locate(key) {
            Ok(i) => {
                proof {
                    lemma_entry_in_map(self.entries(), i as int);
                }
                Some(&self.slots[i].value)
            },
            Err(_) => None,
        }
    }

    /// Whether the table has a value under `key`.
    pub fn contains(&self, key: &str) -> (r: bool)
        ensures
            r == self@.contains_key(key@),
    {
        self.locate(key).is_ok()
    }

    /// Puts `value` under `key`; a value that stood there before is replaced.
    pub fn put(&mut self, key: String, value: V)
        ensures
            final(self)@ == old(self)@.insert(key@, value),
    {
        proof {
            use_type_invariant(&*self);
        }
        let ghost e = self.entries();
        let place = self.locate(key.as_str());
        let mut slots: Vec<Slot<V>> = Vec::new();
        assert(entries_of(slots@) =~= Seq::<(Seq<char>, V)>::empty());
        std::mem::swap(&mut self.slots, &mut slots);
        match place {
            Ok(i) => {
                proof {
                    lemma_replace_at(e, i as int, value);
                    assert(entries_of(slots@.update(i as int, Slot { key, value })) =~= e.update(
                        i as int,
                        (e[i as int].0, value),
                    ));
                }
                slots.set(i, Slot { key, value });
            },
            Err(p) => {
                proof {
                    lemma_insert_at(e, p as int, key@, value);
                    assert(entries_of(slots@.insert(p as int, Slot { key, value })) =~= e.insert(
                        p as int,
                        (key@, value),
                    ));
                }
                slots.insert(p, Slot { key, value });
            },
        }
        self.slots = slots;
    }
}

/// A key that falls between two neighbours of an ascending sequence is not in it.
pub proof fn lemma_absent<V>(e: Seq<(Seq<char>, V)>, p: int, key: Seq<char>)
    requires
        0 <= p <= e.len(),
        forall|i: int| 0 <= i < p ==> text_lt((#[trigger] e[i]).0, key),
        forall|i: int| p <= i < e.len() ==> text_lt(key, (#[trigger] e[i]).0),
    ensures
        !as_map(e).contains_key(key),
{
    if holds(e, key) {
        let i = index_of(e, key);
        assert(e[i].0 == key);
        lemma_text_lt_strict(key, key, key);
    }
}

/// The map that results from writing the entries of `e` one after another,
/// a later entry over an earlier one with the same key.
pub open spec fn as_written<V>(e: Seq<(Seq<char>, V)>) -> Map<Seq<char>, V>
    decreases e.len(),
{
    if e.len() == 0 {
        Map::empty()
    } else {
        as_written(e.drop_last()).insert(e.last().0, e.last().1)
    }
}

/// Every prefix of an ascending sequence is ascending.
pub proof fn lemma_ascending_prefix<V>(e: Seq<(Seq<char>, V)>, n: int)
    requires
        ascending(e),
        0 <= n <= e.len(),
    ensures
        ascending(e.take(n)),
{
    let d = e.take(n);
    assert forall|i: int, j: int| 0 <= i < j < d.len() implies text_lt(
        (#[trigger] d[i]).0,
        (#[trigger] d[j]).0,
    ) by {
        assert(d[i] == e[i]);
        assert(d[j] == e[j]);
    }
}

/// Written in ascending order, no entry overwrites another: the result is the
/// map that the sequence stands for.
pub proof fn lemma_written_ascending<V>(e: Seq<(Seq<char>, V)>)
    requires
        ascending(e),
    ensures
        as_written(e) == as_map(e),
    decreases e.len(),
{
    if e.len() == 0 {
        assert(as_map(e) =~= Map::empty());
    } else {
        let d = e.drop_last();
        let last = e.last();
        assert(d == e.take(e.len() - 1));
        lemma_ascending_prefix(e, e.len() - 1);
        lemma_written_ascending(d);
        assert forall|i: int| 0 <= i < d.len() implies text_lt((#[trigger] d[i]).0, last.0) by {
            assert(d[i] == e[i]);
            assert(last == e[e.len() - 1]);
        }
        lemma_insert_at(d, d.len() as int, last.0, last.1);
        assert(d.insert(d.len() as int, last) =~= e);
    }
}

/// The entries of `e` with `f` applied to each value.
pub open spec fn with_values<V, W>(e: Seq<(Seq<char>, V)>, f: spec_fn(V) -> W) -> Seq<
    (Seq<char>, W),
> {
    Seq::new(e.len(), |i: int| (e[i].0, f(e[i].1)))
}

/// Applying a function to the values of an ascending sequence keeps the
/// order and applies the function to the values of the map.
pub proof fn lemma_with_values<V, W>(e: Seq<(Seq<char>, V)>, f: spec_fn(V) -> W)
    requires
        ascending(e),
    ensures
        ascending(with_values(e, f)),
        as_map(with_values(e, f)) == as_map(e).map_values(f),
{
    let g = with_values(e, f);
    assert forall|i: int, j: int| 0 <= i < j < g.len() implies text_lt(
        (#[trigger] g[i]).0,
        (#[trigger] g[j]).0,
    ) by {
        assert(text_lt(e[i].0, e[j].0));
    }
    assert forall|k: Seq<char>| holds(g, k) <==> holds(e, k) by {
        if holds(g, k) {
            let i = index_of(g, k);
            assert(e[i].0 == k);
        }
        if holds(e, k) {
            let i = index_of(e, k);
            assert(g[i].0 == k);
        }
    }
    assert forall|k: Seq<char>| holds(g, k) implies #[trigger] as_map(g)[k] == f(as_map(e)[k]) by {
        let i = index_of(g, k);
        lemma_entry_in_map(g, i);
        lemma_entry_in_map(e, i);
    }
    assert(as_map(g) =~= as_map(e).map_values(f));
}

/// Without its last entry an ascending sequence is ascending and stands for
/// the map without the last key.
pub proof fn lemma_drop_last<V>(e: Seq<(Seq<char>, V)>)
    requires
        ascending(e),
        e.len() > 0,
    ensures
        ascending(e.drop_last()),
        as_map(e.drop_last()) == as_map(e).remove(e.last().0),
{
    let d = e.drop_last();
    let last = e.last();
    assert(d == e.take(e.len() - 1));
    lemma_ascending_prefix(e, e.len() - 1);
    assert forall|i: int| 0 <= i < d.len() implies text_lt((#[trigger] d[i]).0, last.0) by {
        assert(d[i] == e[i]);
        assert(last == e[e.len() - 1]);
    }
    lemma_insert_at(d, d.len() as int, last.0, last.1);
    assert(d.insert(d.len() as int, last) =~= e);
    assert(as_map(d) =~= as_map(e).remove(last.0));
}

/// A map has one ascending sequence of entries only: what a table hands out
/// depends on what it holds, not on the order in which that was put.
pub proof fn lemma_ascending_unique<V>(a: Seq<(Seq<char>, V)>, b: Seq<(Seq<char>, V)>)
    requires
        ascending(a),
        ascending(b),
        as_map(a) == as_map(b),
    ensures
        a == b,
    decreases a.len(),
{
    lemma_map_len(a);
    lemma_map_len(b);
    if a.len() == 0 {
        assert(a =~= b);
    } else {
        let n = a.len() - 1;
        let la = a[n];
        let lb = b[n];
        lemma_entry_in_map(a, n);
        lemma_entry_in_map(b, n);
        assert(as_map(b).contains_key(la.0));
        assert(as_map(a).contains_key(lb.0));
        let j = index_of(b, la.0);
        let i = index_of(a, lb.0);
        assert(b[j].0 == la.0);
        assert(a[i].0 == lb.0);
        if j < n {
            assert(text_lt(b[j].0, b[n].0));
            if i < n {
                assert(text_lt(a[i].0, a[n].0));
            }
            lemma_text_lt_strict(la.0, lb.0, la.0);
        }
        assert(la == lb);
        lemma_drop_last(a);
        lemma_drop_last(b);
        lemma_ascending_unique(a.drop_last(), b.drop_last());
        assert(a =~= a.drop_last().push(la));
        assert(b =~= b.drop_last().push(lb));
    }
}

/// No key occurs at two places of `e`.
pub open spec fn distinct<V>(e: Seq<(Seq<char>, V)>) -> bool {
    forall|i: int, j: int| #![trigger e[i], e[j]] 0 <= i < j < e.len() ==> e[i].0 != e[j].0
}

/// An ascending sequence holds no key twice.
pub proof fn lemma_ascending_distinct<V>(e: Seq<(Seq<char>, V)>)
    requires
        ascending(e),
    ensures
        distinct(e),
{
    assert forall|i: int, j: int| #![trigger e[i], e[j]] 0 <= i < j < e.len() implies e[i].0
        != e[j].0 by {
        assert(text_lt(e[i].0, e[j].0));
        lemma_text_lt_strict(e[i].0, e[i].0, e[i].0);
    }
}

/// The next entry of an ascending sequence adds its key to the map of the
/// entries before it, which does not have that key.
pub proof fn lemma_next_entry<V>(e: Seq<(Seq<char>, V)>, i: int)
    requires
        ascending(e),
        0 <= i < e.len(),
    ensures
        as_map(e.take(i + 1)) == as_map(e.take(i)).insert(e[i].0, e[i].1),
        !as_map(e.take(i)).contains_key(e[i].0),
{
    let d = e.take(i);
    lemma_ascending_prefix(e, i);
    assert forall|j: int| 0 <= j < d.len() implies text_lt((#[trigger] d[j]).0, e[i].0) by {
        assert(d[j] == e[j]);
    }
    lemma_insert_at(d, i, e[i].0, e[i].1);
    assert(d.insert(i, e[i]) =~= e.take(i + 1));
}

} // verus!
