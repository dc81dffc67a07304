//! A small map from texts to numbers.

use crate::text;
use vstd::prelude::*;
use vstd::string::*;

verus! {

/// A map from texts to numbers, kept as a list of entries; a later entry
/// replaces an earlier one with the same key.
#[derive(Debug, Clone)]
pub struct TextMap {
    entries: Vec<(String, usize)>,
}

/// What a list of entries maps.
pub open spec fn entries_map(entries: Seq<(String, usize)>) -> Map<Seq<char>, usize>
    decreases entries.len(),
{
    if entries.len() == 0 {
        Map::empty()
    } else {
        entries_map(entries.drop_last()).insert(entries.last().0@, entries.last().1)
    }
}

impl View for TextMap {
    type V = Map<Seq<char>, usize>;

    closed spec fn view(&self) -> Map<Seq<char>, usize> {
        entries_map(self.entries@)
    }
}

proof fn lemma_entries_finite(entries: Seq<(String, usize)>)
    ensures
        entries_map(entries).dom().finite(),
    decreases entries.len(),
{
    if entries.len() > 0 {
        lemma_entries_finite(entries.drop_last());
    }
}

impl TextMap {
    /// A map holds finitely many keys.
    pub proof fn lemma_finite(self)
        ensures
            self@.dom().finite(),
    {
        lemma_entries_finite(self.entries@);
    }

    /// The empty map.
    pub fn new() -> (r: Self)
        ensures
            r@ == Map::<Seq<char>, usize>::empty(),
    {
        TextMap { entries: Vec::new() }
    }

    /// Maps `key` to `value`.
    pub fn insert(&mut self, key: String, value: usize)
        ensures
            final(self)@ == old(self)@.insert(key@, value),
    {
        let ghost e = self.entries@;
        self.entries.push((key, value));
        assert(self.entries@.drop_last() =~= e);
    }

    /// What `key` is mapped to.
    pub fn get(&self, key: &str) -> (r: Option<usize>)
        ensures
            r == if self@.dom().contains(key@) {
                Some(self@[key@])
            } else {
                None
            },
    {
        let mut n: usize = self.entries.len();
        assert(self.entries@.take(n as int) =~= self.entries@);
        while n > 0
            invariant
                n <= self.entries@.len(),
                ({
                    let m = entries_map(self.entries@.take(n as int));
                    &&& m.dom().contains(key@) == self@.dom().contains(key@)
                    &&& m.dom().contains(key@) ==> m[key@] == self@[key@]
                }),
            decreases n,
        {
            let ghost part = self.entries@.take(n as int);
            assert(part.drop_last() =~= self.entries@.take(n - 1));
            assert(part.last() == self.entries@[n - 1]);
            if text::text_eq(self.entries[n - 1].0.as_str(), key) {
                return Some(self.entries[n - 1].1);
            }
            n -= 1;
        }
        assert(self.entries@.take(0) =~= Seq::empty());
        None
    }
}

impl Default for TextMap {
    fn default() -> (r: Self)
        ensures
            r@ == Map::<Seq<char>, usize>::empty(),
    {
        TextMap::new()
    }
}

} // verus!
