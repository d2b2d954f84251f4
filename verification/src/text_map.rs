//! Maps from texts to values.

use crate::text::{same_str, to_chars};
use vstd::prelude::*;

verus! {

/// What a map holds for a key.
pub open spec fn lookup<V>(m: Map<Seq<char>, V>, key: Seq<char>) -> Option<V> {
    if m.dom().contains(key) {
        Some(m[key])
    } else {
        None
    }
}

/// A map whose keys are texts.
#[derive(Debug)]
pub struct TextMap<V> {
    entries: Vec<(String, V)>,
}

/// The map that a list of keys and values stands for.
spec fn map_of<V>(entries: Seq<(String, V)>) -> Map<Seq<char>, V>
    decreases entries.len(),
{
    if entries.len() == 0 {
        Map::empty()
    } else {
        map_of(entries.drop_last()).insert(entries.last().0@, entries.last().1)
    }
}

/// Whether no key stands in the list twice.
spec fn is_unique<V>(entries: Seq<(String, V)>) -> bool {
    forall|i: int, j: int|
        0 <= i < j < entries.len() ==> (#[trigger] entries[i]).0@ != (#[trigger] entries[j]).0@
}

/// The keys of the map are those of the list.
proof fn lemma_keys<V>(entries: Seq<(String, V)>, key: Seq<char>)
    ensures
        map_of(entries).dom().contains(key) <==> exists|i: int|
            0 <= i < entries.len() && (#[trigger] entries[i]).0@ == key,
    decreases entries.len(),
{
    if entries.len() > 0 {
        let less = entries.drop_last();
        lemma_keys(less, key);
        if exists|i: int| 0 <= i < less.len() && (#[trigger] less[i]).0@ == key {
            let i = choose|i: int| 0 <= i < less.len() && (#[trigger] less[i]).0@ == key;
            assert(entries[i].0@ == key);
        }
        if entries.last().0@ == key {
            assert(entries[entries.len() - 1].0@ == key);
        }
        if exists|i: int| 0 <= i < entries.len() && (#[trigger] entries[i]).0@ == key {
            let i = choose|i: int| 0 <= i < entries.len() && (#[trigger] entries[i]).0@ == key;
            if i < less.len() {
                assert(less[i].0@ == key);
            }
        }
    }
}

/// The value of a key is the one that stands beside it.
proof fn lemma_value<V>(entries: Seq<(String, V)>, i: int)
    requires
        is_unique(entries),
        0 <= i < entries.len(),
    ensures
        map_of(entries).dom().contains(entries[i].0@),
        map_of(entries)[entries[i].0@] == entries[i].1,
    decreases entries.len(),
{
    let less = entries.drop_last();
    if i < less.len() {
        assert(is_unique(less)) by {
            assert forall|a: int, b: int| 0 <= a < b < less.len() implies (#[trigger] less[a]).0@
                != (#[trigger] less[b]).0@ by {
                assert(less[a] == entries[a] && less[b] == entries[b]);
            }
        }
        lemma_value(less, i);
        assert(less[i] == entries[i]);
        assert(entries[i].0@ != entries[entries.len() - 1].0@);
    }
}

impl<V> View for TextMap<V> {
    type V = Map<Seq<char>, V>;

    closed spec fn view(&self) -> Map<Seq<char>, V> {
        map_of(self.entries@)
    }
}

impl<V> TextMap<V> {
    /// Whether each key has one value.
    pub closed spec fn wf(&self) -> bool {
        is_unique(self.entries@)
    }

    /// The empty map.
    pub fn new() -> (m: TextMap<V>)
        ensures
            m.wf(),
            m@ == Map::<Seq<char>, V>::empty(),
    {
        TextMap { entries: Vec::new() }
    }

    /// The number of keys.
    pub fn len(&self) -> (n: usize)
        requires
            self.wf(),
        ensures
            n == self.keys().len(),
    {
        self.entries.len()
    }

    /// The keys, in the order in which they are kept.
    pub closed spec fn keys(&self) -> Seq<Seq<char>> {
        Seq::new(self.entries@.len(), |i: int| self.entries@[i].0@)
    }

    /// The list of keys holds each key of the map once, and no other.
    pub proof fn law_keys(&self)
        requires
            self.wf(),
        ensures
            self.keys().no_duplicates(),
            forall|k: Seq<char>| #[trigger] self@.dom().contains(k) <==> self.keys().contains(k),
    {
        assert forall|k: Seq<char>| #[trigger] self@.dom().contains(k) implies self.keys().contains(
            k,
        ) by {
            lemma_keys(self.entries@, k);
            let i = choose|i: int|
                0 <= i < self.entries@.len() && (#[trigger] self.entries@[i]).0@ == k;
            assert(self.keys()[i] == k);
        }
        assert forall|k: Seq<char>| self.keys().contains(k) implies #[trigger] self@.dom().contains(
            k,
        ) by {
            lemma_keys(self.entries@, k);
            let i = choose|i: int| 0 <= i < self.keys().len() && self.keys()[i] == k;
            assert(self.entries@[i].0@ == k);
        }
    }

    /// The key and the value at place `i`.
    pub fn entry(&self, i: usize) -> (r: (&str, &V))
        requires
            self.wf(),
            i < self.keys().len(),
        ensures
            r.0@ == self.keys()[i as int],
            self@.dom().contains(r.0@),
            self@[r.0@] == *r.1,
    {
        proof {
            lemma_value(self.entries@, i as int);
        }
        (self.entries[i].0.as_str(), &self.entries[i].1)
    }

    /// Where a key stands.
    fn place(&self, key: &str) -> (r: Option<usize>)
        requires
            self.wf(),
        ensures
            r matches Some(i) ==> i < self.entries@.len() && self.entries@[i as int].0@ == key@
                && self@.dom().contains(key@) && self@[key@] == self.entries@[i as int].1,
            r is None ==> !self@.dom().contains(key@),
    {
        let wanted = to_chars(key);
        proof {
            lemma_keys(self.entries@, key@);
        }
        let mut i: usize = 0;
        while i < self.entries.len()
            invariant
                wanted@ == key@,
                self.wf(),
                i <= self.entries@.len(),
                forall|k: int| 0 <= k < i ==> (#[trigger] self.entries@[k]).0@ != key@,
            decreases self.entries@.len() - i,
        {
            if same_str(self.entries[i].0.as_str(), &wanted) {
                proof {
                    lemma_value(self.entries@, i as int);
                }
                return Some(i);
            }
            i = i + 1;
        }
        None
    }

    /// The value of a key.
    pub fn get(&self, key: &str) -> (r: Option<&V>)
        requires
            self.wf(),
        ensures
            r matches Some(v) ==> self@.dom().contains(key@) && *v == self@[key@],
            r is None ==> !self@.dom().contains(key@),
    {
        match self.place(key) {
            Some(i) => Some(&self.entries[i].1),
            None => None,
        }
    }

    /// Takes a key out, and says what its value was.
    pub fn remove(&mut self, key: &str) -> (r: Option<V>)
        requires
            old(self).wf(),
        ensures
            final(self).wf(),
            final(self)@ == old(self)@.remove(key@),
            r matches Some(v) ==> old(self)@.dom().contains(key@) && v == old(self)@[key@],
            r is None ==> !old(self)@.dom().contains(key@),
    {
        match self.place(key) {
            Some(i) => {
                let ghost before = self.entries@;
                let (_, value) = self.entries.remove(i);
                proof {
                    let now = self.entries@;
                    assert(is_unique(now)) by {
                        assert forall|a: int, b: int| 0 <= a < b < now.len() implies (
                        #[trigger] now[a]).0@ != (#[trigger] now[b]).0@ by {
                            let x = if a < i { a } else { a + 1 };
                            let y = if b < i { b } else { b + 1 };
                            assert(now[a] == before[x] && now[b] == before[y]);
                        }
                    }
                    lemma_same_map(before, now, i as int);
                }
                Some(value)
            },
            None => {
                assert(self@ =~= old(self)@.remove(key@));
                None
            },
        }
    }

    /// Gives a key a value.
    pub fn insert(&mut self, key: &str, value: V)
        requires
            old(self).wf(),
        ensures
            final(self).wf(),
            final(self)@ == old(self)@.insert(key@, value),
    {
        let ghost given = self@;
        let _ = self.remove(key);
        let ghost before = self.entries@;
        self.entries.push((key.to_owned(), value));
        proof {
            let now = self.entries@;
            assert(now.drop_last() == before);
            assert(is_unique(now)) by {
                assert forall|a: int, b: int| 0 <= a < b < now.len() implies (#[trigger] now[a]).0@
                    != (#[trigger] now[b]).0@ by {
                    assert(now[a] == before[a]);
                    if b < before.len() {
                        assert(now[b] == before[b]);
                    } else {
                        lemma_keys(before, key@);
                    }
                }
            }
            assert(self@ =~= given.insert(key@, value));
        }
    }
}

/// Taking an element out of the list takes its key out of the map.
proof fn lemma_same_map<V>(before: Seq<(String, V)>, now: Seq<(String, V)>, i: int)
    requires
        is_unique(before),
        is_unique(now),
        0 <= i < before.len(),
        now == before.remove(i),
    ensures
        map_of(now) == map_of(before).remove(before[i].0@),
{
    let key = before[i].0@;
    let a = map_of(now);
    let b = map_of(before).remove(key);
    assert forall|k: Seq<char>| a.dom().contains(k) <==> b.dom().contains(k) by {
        lemma_keys(now, k);
        lemma_keys(before, k);
        if a.dom().contains(k) {
            let j = choose|j: int| 0 <= j < now.len() && (#[trigger] now[j]).0@ == k;
            let x = if j < i { j } else { j + 1 };
            assert(now[j] == before[x]);
            assert(before[x].0@ == k);
            assert(k != key) by {
                if x < i {
                    assert(before[x].0@ != before[i].0@);
                } else {
                    assert(before[i].0@ != before[x].0@);
                }
            }
        }
        if b.dom().contains(k) {
            let x = choose|x: int| 0 <= x < before.len() && (#[trigger] before[x]).0@ == k;
            let j = if x < i { x } else { x - 1 };
            assert(now[j] == before[x]);
        }
    }
    assert forall|k: Seq<char>| a.dom().contains(k) implies a[k] == b[k] by {
        lemma_keys(now, k);
        let j = choose|j: int| 0 <= j < now.len() && (#[trigger] now[j]).0@ == k;
        let x = if j < i { j } else { j + 1 };
        assert(now[j] == before[x]);
        lemma_value(now, j);
        lemma_value(before, x);
    }
    assert(a =~= b);
}

} // verus!
