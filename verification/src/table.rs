//! A small map held as a list of entries with pairwise different keys.
use vstd::prelude::*;
use crate::text::same;

verus! {

/// What a [`Table`] can be keyed by: two keys are one when their views are.
pub trait Key: View + Sized {
    /// Whether the two keys are one.
    fn same_key(&self, other: &Self) -> (r: bool)
        ensures
            r == (self@ == other@),
    ;
}

impl Key for String {
    fn same_key(&self, other: &String) -> (r: bool) {
        same(self.as_str(), other.as_str())
    }
}

/// The name of a stream of channel events: a topic and an event on it.
#[derive(Debug)]
pub struct EventKey {
    /// The topic.
    pub topic: String,
    /// The event.
    pub event: String,
}

impl View for EventKey {
    type V = (Seq<char>, Seq<char>);

    open spec fn view(&self) -> (Seq<char>, Seq<char>) {
        (self.topic@, self.event@)
    }
}

impl Key for EventKey {
    fn same_key(&self, other: &EventKey) -> (r: bool) {
        same(self.topic.as_str(), other.topic.as_str()) && same(
            self.event.as_str(),
            other.event.as_str(),
        )
    }
}

/// No key occurs twice.
pub open spec fn distinct_keys<K: Key, V>(entries: Seq<(K, V)>) -> bool {
    forall|i: int, j: int|
        0 <= i < j < entries.len() ==> (#[trigger] entries[i]).0@ != (#[trigger] entries[j]).0@
}

/// Whether some entry has that key.
pub open spec fn has_key<K: Key, V>(entries: Seq<(K, V)>, key: <K as View>::V) -> bool {
    exists|i: int| 0 <= i < entries.len() && (#[trigger] entries[i]).0@ == key
}

/// The map that the entries spell out.
pub open spec fn entry_map<K: Key, V>(entries: Seq<(K, V)>) -> Map<<K as View>::V, V> {
    Map::new(
        |key: <K as View>::V| has_key(entries, key),
        |key: <K as View>::V|
            {
                let i = choose|i: int| 0 <= i < entries.len() && (#[trigger] entries[i]).0@ == key;
                entries[i].1
            },
    )
}

/// Among entries with different keys, each is what the map holds for its key.
pub proof fn entry_map_at<K: Key, V>(entries: Seq<(K, V)>, i: int)
    requires
        distinct_keys(entries),
        0 <= i < entries.len(),
    ensures
        entry_map(entries).contains_key(entries[i].0@),
        entry_map(entries)[entries[i].0@] == entries[i].1,
{
    let key = entries[i].0@;
    assert(has_key(entries, key));
    let c = choose|c: int| 0 <= c < entries.len() && (#[trigger] entries[c]).0@ == key;
    assert(entries[c].0@ == key);
    assert(c == i);
}

/// A map from keys to values.
pub struct Table<K: Key, V> {
    entries: Vec<(K, V)>,
}

impl<K: Key, V> View for Table<K, V> {
    type V = Map<<K as View>::V, V>;

    closed spec fn view(&self) -> Map<<K as View>::V, V> {
        entry_map(self.entries@)
    }
}

impl<K: Key, V> Table<K, V> {
    /// No key occurs twice.
    pub closed spec fn wf(self) -> bool {
        distinct_keys(self.entries@)
    }

    /// The empty table.
    pub fn new() -> (r: Self)
        ensures
            r.wf(),
            r@ == Map::<<K as View>::V, V>::empty(),
    {
        let r = Table { entries: Vec::new() };
        assert(r@ =~= Map::<<K as View>::V, V>::empty());
        r
    }

    fn find(&self, key: &K) -> (r: Option<usize>)
        requires
            self.wf(),
        ensures
            match r {
                Some(i) => i < self.entries@.len() && self.entries@[i as int].0@ == key@,
                None => !has_key(self.entries@, key@),
            },
    {
        let mut i: usize = 0;
        while i < self.entries.len()
            invariant
                i <= self.entries.len(),
                forall|j: int| 0 <= j < i ==> (#[trigger] self.entries@[j]).0@ != key@,
            decreases self.entries.len() - i,
        {
            if self.entries[i].0.same_key(key) {
                return Some(i);
            }
            i += 1;
        }
        None
    }

    /// What the table holds for a key.
    pub fn get(&self, key: &K) -> (r: Option<&V>)
        requires
            self.wf(),
        ensures
            match r {
                Some(v) => self@.contains_key(key@) && *v == self@[key@],
                None => !self@.contains_key(key@),
            },
    {
        match self.find(key) {
            Some(i) => {
                proof {
                    entry_map_at(self.entries@, i as int);
                }
                Some(&self.entries[i].1)
            },
            None => None,
        }
    }

    /// Whether the table holds something for a key.
    pub fn contains(&self, key: &K) -> (r: bool)
        requires
            self.wf(),
        ensures
            r == self@.contains_key(key@),
    {
        match self.get(key) {
            Some(_) => true,
            None => false,
        }
    }

    /// Takes out what the table holds for a key.
    pub fn remove(&mut self, key: &K) -> (r: Option<V>)
        requires
            old(self).wf(),
        ensures
            final(self).wf(),
            final(self)@ == old(self)@.remove(key@),
            match r {
                Some(v) => old(self)@.contains_key(key@) && v == old(self)@[key@],
                None => !old(self)@.contains_key(key@),
            },
    {
        let ghost before = self.entries@;
        match self.find(key) {
            Some(i) => {
                let entry = self.entries.remove(i);
                proof {
                    let after = self.entries@;
                    entry_map_at(before, i as int);
                    assert(after =~= before.remove(i as int));
                    assert forall|k: <K as View>::V| #[trigger] has_key(after, k) == (has_key(
                        before,
                        k,
                    ) && k != key@) by {
                        if has_key(after, k) {
                            let c = choose|c: int|
                                0 <= c < after.len() && (#[trigger] after[c]).0@ == k;
                            let d = if c < i {
                                c
                            } else {
                                c + 1
                            };
                            assert(before[d] == after[c]);
                            assert(before[d].0@ == k);
                        }
                        if has_key(before, k) && k != key@ {
                            let c = choose|c: int|
                                0 <= c < before.len() && (#[trigger] before[c]).0@ == k;
                            let d = if c < i {
                                c
                            } else {
                                c - 1
                            };
                            assert(after[d] == before[c]);
                        }
                    }
                    assert forall|k: <K as View>::V| #[trigger]
                        entry_map(after).contains_key(k) implies entry_map(after)[k]
                        == entry_map(before)[k] by {
                        assert(has_key(after, k));
                        let c = choose|c: int| 0 <= c < after.len() && (#[trigger] after[c]).0@ == k;
                        entry_map_at(after, c);
                        let d = if c < i {
                            c
                        } else {
                            c + 1
                        };
                        assert(before[d] == after[c]);
                        entry_map_at(before, d);
                    }
                    assert(entry_map(after) =~= entry_map(before).remove(key@));
                }
                Some(entry.1)
            },
            None => {
                assert(self@ =~= self@.remove(key@));
                None
            },
        }
    }

    /// Holds a value for a key, in place of any earlier one.
    pub fn insert(&mut self, key: K, value: V)
        requires
            old(self).wf(),
        ensures
            final(self).wf(),
            final(self)@ == old(self)@.insert(key@, value),
    {
        let ghost start = self@;
        let earlier = self.remove(&key);
        let ghost before = self.entries@;
        proof {
            if has_key(before, key@) {
                assert(entry_map(before).contains_key(key@));
            }
        }
        self.entries.push((key, value));
        proof {
            let after = self.entries@;
            assert(distinct_keys(after)) by {
                assert forall|i: int, j: int| 0 <= i < j < after.len() implies (
                #[trigger] after[i]).0@ != (#[trigger] after[j]).0@ by {
                    assert(after[i] == before[i]);
                    if j < before.len() {
                        assert(after[j] == before[j]);
                    }
                }
            }
            let last = after.len() - 1;
            entry_map_at(after, last);
            assert forall|k: <K as View>::V| #[trigger] has_key(after, k) == (has_key(before, k)
                || k == key@) by {
                if has_key(before, k) {
                    let c = choose|c: int| 0 <= c < before.len() && (#[trigger] before[c]).0@ == k;
                    assert(after[c] == before[c]);
                }
                if k == key@ {
                    assert(after[last].0@ == k);
                }
                if has_key(after, k) && k != key@ {
                    let c = choose|c: int| 0 <= c < after.len() && (#[trigger] after[c]).0@ == k;
                    assert(before[c] == after[c]);
                }
            }
            assert forall|k: <K as View>::V| #[trigger]
                entry_map(before).contains_key(k) implies entry_map(after)[k] == entry_map(
                before,
            )[k] by {
                let c = choose|c: int| 0 <= c < before.len() && (#[trigger] before[c]).0@ == k;
                entry_map_at(before, c);
                assert(after[c] == before[c]);
                entry_map_at(after, c);
            }
            assert(entry_map(before) == start.remove(key@));
            assert forall|k: <K as View>::V| #[trigger]
                entry_map(after).contains_key(k) == start.insert(key@, value).contains_key(k) by {
                assert(entry_map(after).contains_key(k) == has_key(after, k));
                assert(entry_map(before).contains_key(k) == has_key(before, k));
            }
            assert forall|k: <K as View>::V| #[trigger]
                entry_map(after).contains_key(k) implies entry_map(after)[k] == start.insert(
                key@,
                value,
            )[k] by {
                if k != key@ {
                    assert(entry_map(before).contains_key(k) == has_key(before, k));
                    assert(has_key(after, k));
                    assert(entry_map(before).contains_key(k));
                }
            }
            assert(entry_map(after) =~= start.insert(key@, value));
        }
    }

    /// Takes out every entry.
    pub fn drain(&mut self) -> (r: Vec<(K, V)>)
        requires
            old(self).wf(),
        ensures
            final(self).wf(),
            final(self)@ == Map::<<K as View>::V, V>::empty(),
            distinct_keys(r@),
            entry_map(r@) == old(self)@,
    {
        let mut out: Vec<(K, V)> = Vec::new();
        std::mem::swap(&mut self.entries, &mut out);
        assert(self@ =~= Map::<<K as View>::V, V>::empty());
        out
    }
}

} // verus!
