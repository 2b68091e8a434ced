//! Maps from text, in the order in which keys were added.

use vstd::prelude::*;

use crate::json::{key_index, lemma_key_index, lemma_set_entry, lookup, set_entry, unique_keys};
use crate::text::same_text;

verus! {

/// A map from text. Every key occurs once.
#[derive(Debug)]
pub struct TextMap<T> {
    items: Vec<(String, T)>,
}

pub open spec fn pairs_view<T>(items: Seq<(String, T)>) -> Seq<(Seq<char>, T)> {
    Seq::new(items.len(), |i: int| (items[i].0@, items[i].1))
}

/// The entries without the one at `i`.
pub open spec fn without<T>(entries: Seq<(Seq<char>, T)>, key: Seq<char>) -> Seq<(Seq<char>, T)> {
    let i = key_index(entries, key);
    if i >= 0 {
        entries.remove(i)
    } else {
        entries
    }
}

/// Keys and values, as texts.
pub open spec fn map_texts(entries: Seq<(Seq<char>, String)>) -> Seq<(Seq<char>, Seq<char>)> {
    Seq::new(entries.len(), |i: int| (entries[i].0, entries[i].1@))
}

proof fn lemma_map_texts_index(entries: Seq<(Seq<char>, String)>, key: Seq<char>)
    ensures
        key_index(map_texts(entries), key) == key_index(entries, key),
    decreases entries.len(),
{
    if entries.len() > 0 {
        assert(map_texts(entries).drop_last() =~= map_texts(entries.drop_last()));
        lemma_map_texts_index(entries.drop_last(), key);
    }
}

pub proof fn lemma_map_texts_set(entries: Seq<(Seq<char>, String)>, key: Seq<char>, value: String)
    ensures
        map_texts(set_entry(entries, key, value)) == set_entry(map_texts(entries), key, value@),
{
    lemma_map_texts_index(entries, key);
    lemma_key_index(entries, key);
    assert(map_texts(set_entry(entries, key, value)) =~= set_entry(
        map_texts(entries),
        key,
        value@,
    ));
}

impl<T> TextMap<T> {
    /// The keys and values, in order.
    pub closed spec fn entries(&self) -> Seq<(Seq<char>, T)> {
        pairs_view(self.items@)
    }

    /// The value under a key.
    pub open spec fn at(&self, key: Seq<char>) -> Option<T> {
        lookup(self.entries(), key)
    }

    /// Every key occurs once.
    pub open spec fn wf(&self) -> bool {
        unique_keys(self.entries())
    }

    pub fn new() -> (r: TextMap<T>)
        ensures
            r.entries() == Seq::<(Seq<char>, T)>::empty(),
            r.wf(),
    {
        let items: Vec<(String, T)> = Vec::new();
        assert(pairs_view(items@) =~= Seq::<(Seq<char>, T)>::empty());
        TextMap { items }
    }

    /// The map of entries whose keys are distinct.
    pub fn from_unique(items: Vec<(String, T)>) -> (r: TextMap<T>)
        requires
            unique_keys(pairs_view(items@)),
        ensures
            r.entries() == pairs_view(items@),
            r.wf(),
    {
        TextMap { items }
    }

    pub fn len(&self) -> (r: usize)
        ensures
            r == self.entries().len(),
    {
        self.items.len()
    }

    pub fn is_empty(&self) -> (r: bool)
        ensures
            r == (self.entries().len() == 0),
    {
        self.items.len() == 0
    }

    fn find(&self, key: &str) -> (r: Option<usize>)
        ensures
            match r {
                Some(i) => i == key_index(self.entries(), key@) && i < self.items@.len(),
                None => key_index(self.entries(), key@) == -1,
            },
    {
        let ghost view = pairs_view(self.items@);
        let mut n: usize = self.items.len();
        assert(view.take(view.len() as int) =~= view);
        while n > 0
            invariant
                n <= self.items@.len(),
                view == pairs_view(self.items@),
                key_index(view, key@) == key_index(view.take(n as int), key@),
            decreases n,
        {
            n -= 1;
            assert(view.take(n + 1).drop_last() =~= view.take(n as int));
            assert(view.take(n + 1).last() == view[n as int]);
            if same_text(self.items[n].0.as_str(), key) {
                return Some(n);
            }
        }
        assert(view.take(0) =~= Seq::empty());
        None
    }

    /// The value under a key.
    pub fn get(&self, key: &str) -> (r: Option<&T>)
        ensures
            match r {
                Some(v) => self.at(key@) == Some(*v),
                None => self.at(key@) is None,
            },
    {
        match self.find(key) {
            Some(i) => Some(&self.items[i].1),
            None => None,
        }
    }

    /// The key and the value at a position.
    pub fn entry(&self, i: usize) -> (r: (&str, &T))
        requires
            i < self.entries().len(),
        ensures
            r.0@ == self.entries()[i as int].0,
            *r.1 == self.entries()[i as int].1,
    {
        (self.items[i].0.as_str(), &self.items[i].1)
    }

    /// Puts a value under a key, in place of an earlier one.
    pub fn insert(&mut self, key: String, value: T)
        ensures
            final(self).entries() == set_entry(old(self).entries(), key@, value),
            old(self).wf() ==> final(self).wf(),
    {
        proof {
            lemma_set_entry(pairs_view(self.items@), key@, value);
        }
        let ghost before = pairs_view(self.items@);
        match self.find(key.as_str()) {
            Some(i) => {
                let ghost after = self.items@.update(i as int, (key, value));
                assert(pairs_view(after) =~= set_entry(before, key@, value));
                self.items.set(i, (key, value));
            },
            None => {
                let ghost after = self.items@.push((key, value));
                assert(pairs_view(after) =~= set_entry(before, key@, value));
                self.items.push((key, value));
            },
        }
    }

    /// Takes the value under a key out.
    pub fn remove(&mut self, key: &str) -> (r: Option<T>)
        ensures
            r == old(self).at(key@),
            final(self).entries() == without(old(self).entries(), key@),
            old(self).wf() ==> final(self).wf(),
    {
        proof {
            lemma_key_index(pairs_view(self.items@), key@);
        }
        let ghost before = pairs_view(self.items@);
        match self.find(key) {
            Some(i) => {
                proof {
                    let after = self.items@.remove(i as int);
                    assert(pairs_view(after) =~= before.remove(i as int));
                    assert forall|a: int, b: int|
                        unique_keys(before) && 0 <= a < b < after.len() implies (
                    #[trigger] pairs_view(after)[a]).0 != (#[trigger] pairs_view(after)[b]).0 by {
                        let x = if a < i {
                            a
                        } else {
                            a + 1
                        };
                        let y = if b < i {
                            b
                        } else {
                            b + 1
                        };
                        assert(pairs_view(after)[a] == before[x]);
                        assert(pairs_view(after)[b] == before[y]);
                    }
                }
                let (_, value) = self.items.remove(i);
                Some(value)
            },
            None => None,
        }
    }
}

impl TextMap<String> {
    /// A copy.
    pub fn copied(&self) -> (r: TextMap<String>)
        ensures
            r.entries() == self.entries(),
    {
        let ghost view = pairs_view(self.items@);
        let mut items: Vec<(String, String)> = Vec::new();
        let mut i: usize = 0;
        while i < self.items.len()
            invariant
                i <= self.items@.len(),
                view == pairs_view(self.items@),
                items@.len() == i,
                forall|j: int| 0 <= j < i ==> pairs_view(items@)[j] == #[trigger] view[j],
            decreases self.items@.len() - i,
        {
            let key = self.items[i].0.clone();
            let value = self.items[i].1.clone();
            let ghost before = pairs_view(items@);
            items.push((key, value));
            assert(pairs_view(items@) =~= before.push((key@, value)));
            i += 1;
        }
        assert(pairs_view(items@) =~= view);
        TextMap { items }
    }
}

impl Clone for TextMap<String> {
    fn clone(&self) -> (r: TextMap<String>)
        ensures
            r.entries() == self.entries(),
    {
        self.copied()
    }
}

} // verus!
