//! The ranges of values that were found per group.

use crate::float_bits;
use crate::float_bits::Real;
use vstd::prelude::*;
use vstd::string::*;

verus! {

/// A smallest and a largest value.
#[derive(Debug, Clone, Copy, PartialEq, Eq, Structural)]
pub struct ValueRange {
    pub min: Real,
    pub max: Real,
}

impl ValueRange {
    /// The range of no values.
    pub open spec fn nothing() -> ValueRange {
        ValueRange {
            min: Real { bits: float_bits::INFINITY_BITS },
            max: Real { bits: float_bits::NEG_INFINITY_BITS },
        }
    }

    /// The range that also covers the values from `min` to `max`.
    pub open spec fn widened(self, min: Real, max: Real) -> ValueRange {
        ValueRange { min: self.min.min_spec(min), max: self.max.max_spec(max) }
    }

    /// The range of no values.
    pub fn empty() -> (r: Self)
        ensures
            r == Self::nothing(),
    {
        ValueRange { min: Real::infinity(), max: Real::neg_infinity() }
    }

    /// The range that also covers the values from `min` to `max`.
    pub fn widen(self, min: Real, max: Real) -> (r: Self)
        ensures
            r == self.widened(min, max),
    {
        ValueRange { min: self.min.min(min), max: self.max.max(max) }
    }
}

/// The map that a list of entries denotes.
pub open spec fn entry_map(entries: Seq<(String, ValueRange)>) -> Map<Seq<char>, ValueRange>
    decreases entries.len(),
{
    if entries.len() == 0 {
        Map::empty()
    } else {
        entry_map(entries.drop_last()).insert(entries.last().0@, entries.last().1)
    }
}

/// The range of values of each group, by the path of the group.
#[derive(Debug)]
pub struct StatsForGroup {
    entries: Vec<(String, ValueRange)>,
}

impl View for StatsForGroup {
    type V = Map<Seq<char>, ValueRange>;

    closed spec fn view(&self) -> Map<Seq<char>, ValueRange> {
        entry_map(self.entries@)
    }
}

/// A map of entries has the keys of the entries.
proof fn lemma_entry_keys(entries: Seq<(String, ValueRange)>, key: Seq<char>)
    ensures
        entry_map(entries).contains_key(key) <==> exists|i: int|
            0 <= i < entries.len() && #[trigger] entries[i].0@ == key,
    decreases entries.len(),
{
    if entries.len() > 0 {
        let rest = entries.drop_last();
        lemma_entry_keys(rest, key);
        if entry_map(rest).contains_key(key) {
            let i = choose|i: int| 0 <= i < rest.len() && #[trigger] rest[i].0@ == key;
            assert(entries[i].0@ == key);
        }
        if exists|i: int| 0 <= i < entries.len() && #[trigger] entries[i].0@ == key {
            let i = choose|i: int| 0 <= i < entries.len() && #[trigger] entries[i].0@ == key;
            if i < rest.len() {
                assert(rest[i].0@ == key);
            }
        }
    }
}

/// With distinct keys, the entry of a key holds its range, and a new range for the entry is a
/// new range for the key.
proof fn lemma_entry_at(entries: Seq<(String, ValueRange)>, i: int, range: ValueRange)
    requires
        0 <= i < entries.len(),
        forall|a: int, b: int|
            0 <= a < b < entries.len() ==> (#[trigger] entries[a]).0@ != (#[trigger] entries[b]).0@,
    ensures
        entry_map(entries)[entries[i].0@] == entries[i].1,
        entry_map(entries.update(i, (entries[i].0, range))) == entry_map(entries).insert(
            entries[i].0@,
            range,
        ),
    decreases entries.len(),
{
    let rest = entries.drop_last();
    let changed = entries.update(i, (entries[i].0, range));
    if i < rest.len() {
        assert forall|a: int, b: int| 0 <= a < b < rest.len() implies (#[trigger] rest[a]).0@ != (
        #[trigger] rest[b]).0@ by {
            assert(entries[a].0@ != entries[b].0@);
        }
        lemma_entry_at(rest, i, range);
        assert(changed.drop_last() =~= rest.update(i, (rest[i].0, range)));
        assert(changed.last() == entries.last());
        assert(entries[i].0@ != entries[entries.len() - 1].0@);
        assert(entry_map(changed) =~= entry_map(entries).insert(entries[i].0@, range));
    } else {
        assert(changed.drop_last() =~= rest);
        assert(entry_map(changed) =~= entry_map(entries).insert(entries[i].0@, range));
    }
}

impl StatsForGroup {
    /// Whether no two entries have the same key.
    pub closed spec fn wf(&self) -> bool {
        forall|a: int, b: int|
            0 <= a < b < self.entries@.len() ==> (#[trigger] self.entries@[a]).0@ != (
            #[trigger] self.entries@[b]).0@
    }

    /// No ranges.
    pub fn new() -> (r: Self)
        ensures
            r.wf(),
            r@ == Map::<Seq<char>, ValueRange>::empty(),
    {
        Self { entries: Vec::new() }
    }

    fn position(&self, key: &String) -> (r: Option<usize>)
        ensures
            match r {
                Some(i) => i < self.entries@.len() && self.entries@[i as int].0@ == key@,
                None => forall|i: int|
                    0 <= i < self.entries@.len() ==> (#[trigger] self.entries@[i]).0@ != key@,
            },
    {
        for i in 0..self.entries.len()
            invariant
                forall|k: int| 0 <= k < i ==> (#[trigger] self.entries@[k]).0@ != key@,
        {
            if self.entries[i].0 == *key {
                return Some(i);
            }
        }
        None
    }

    /// The range of a group.
    pub fn get(&self, key: &str) -> (r: Option<ValueRange>)
        requires
            self.wf(),
        ensures
            r == if self@.contains_key(key@) {
                Some(self@[key@])
            } else {
                None
            },
    {
        proof {
            lemma_entry_keys(self.entries@, key@);
        }
        let name = key.to_string();
        match self.position(&name) {
            Some(i) => {
                proof {
                    lemma_entry_at(self.entries@, i as int, self.entries@[i as int].1);
                }
                Some(self.entries[i].1)
            },
            None => None,
        }
    }

    /// Sets the range of a group.
    pub fn insert(&mut self, key: String, range: ValueRange)
        requires
            old(self).wf(),
        ensures
            final(self).wf(),
            final(self)@ == old(self)@.insert(key@, range),
    {
        match self.position(&key) {
            Some(i) => {
                let ghost before = self.entries@;
                proof {
                    lemma_entry_at(before, i as int, range);
                }
                let name = self.entries[i].0.clone();
                self.entries.set(i, (name, range));
                assert(self.entries@ =~= before.update(i as int, (before[i as int].0, range)));
                assert(self.wf()) by {
                    assert forall|a: int, b: int| 0 <= a < b < self.entries@.len() implies (
                    #[trigger] self.entries@[a]).0@ != (#[trigger] self.entries@[b]).0@ by {
                        assert(before[a].0@ != before[b].0@);
                    }
                }
            },
            None => {
                let ghost before = self.entries@;
                self.entries.push((key, range));
                assert(self.entries@.drop_last() =~= before);
            },
        }
    }
}

} // verus!
