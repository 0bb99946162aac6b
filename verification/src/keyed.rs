//! A map whose keys are strings.

use crate::text;
use vstd::prelude::*;
use vstd::string::*;

verus! {

/// One entry of a map.
#[derive(Debug)]
pub struct Entry<V> {
    pub key: String,
    pub value: V,
}

/// A map from strings to values. Where a key has several entries the first counts.
#[derive(Debug)]
pub struct Keyed<V> {
    entries: Vec<Entry<V>>,
}

/// The index of the first entry for `key`, or the number of entries.
spec fn find<V>(entries: Seq<Entry<V>>, key: Seq<char>) -> int
    decreases entries.len(),
{
    if entries.len() == 0 {
        0
    } else if find(entries.drop_last(), key) < entries.len() - 1 {
        find(entries.drop_last(), key)
    } else if entries.last().key@ == key {
        entries.len() - 1
    } else {
        entries.len() as int
    }
}

proof fn lemma_find<V>(entries: Seq<Entry<V>>, key: Seq<char>)
    ensures
        0 <= find(entries, key) <= entries.len(),
        find(entries, key) < entries.len() ==> entries[find(entries, key)].key@ == key,
        forall|i: int| 0 <= i < find(entries, key) ==> (#[trigger] entries[i]).key@ != key,
    decreases entries.len(),
{
    if entries.len() > 0 {
        lemma_find(entries.drop_last(), key);
        assert forall|i: int| 0 <= i < find(entries, key) implies (
        #[trigger] entries[i]).key@ != key by {
            if i < entries.len() - 1 {
                assert(entries.drop_last()[i].key@ != key);
            }
        }
    }
}

/// The first entry for a key is where the key stands and has not stood before.
proof fn lemma_find_is<V>(entries: Seq<Entry<V>>, key: Seq<char>, n: int)
    requires
        0 <= n <= entries.len(),
        n < entries.len() ==> entries[n].key@ == key,
        forall|i: int| 0 <= i < n ==> (#[trigger] entries[i]).key@ != key,
    ensures
        find(entries, key) == n,
{
    lemma_find(entries, key);
    let k = find(entries, key);
    if k < n {
        assert(entries[k].key@ != key);
    }
    if n < k {
        assert(entries[n].key@ != key);
    }
}

impl<V> View for Keyed<V> {
    type V = Map<Seq<char>, V>;

    closed spec fn view(&self) -> Map<Seq<char>, V> {
        Map::new(
            |key: Seq<char>| find(self.entries@, key) < self.entries@.len(),
            |key: Seq<char>| self.entries@[find(self.entries@, key)].value,
        )
    }
}

impl<V> Keyed<V> {
    /// The empty map.
    pub fn new() -> (r: Keyed<V>)
        ensures
            r@ == Map::<Seq<char>, V>::empty(),
    {
        let r = Keyed { entries: Vec::new() };
        assert(r@ =~= Map::empty());
        r
    }

    /// The index of the first entry for `key`.
    fn position(&self, key: &str) -> (r: Option<usize>)
        ensures
            match r {
                Some(i) => i < self.entries@.len() && i == find(self.entries@, key@),
                None => find(self.entries@, key@) == self.entries@.len(),
            },
    {
        let mut i: usize = 0;
        while i < self.entries.len()
            invariant
                i <= self.entries@.len(),
                forall|j: int| 0 <= j < i ==> (#[trigger] self.entries@[j]).key@ != key@,
            decreases self.entries@.len() - i,
        {
            if text::str_eq(self.entries[i].key.as_str(), key) {
                proof {
                    lemma_find_is(self.entries@, key@, i as int);
                }
                return Some(i);
            }
            i = i + 1;
        }
        proof {
            lemma_find_is(self.entries@, key@, i as int);
        }
        None
    }

    /// The value under `key`.
    pub fn get(&self, key: &str) -> (r: Option<&V>)
        ensures
            match r {
                Some(value) => self@.contains_key(key@) && *value == self@[key@],
                None => !self@.contains_key(key@),
            },
    {
        match self.position(key) {
            Some(i) => Some(&self.entries[i].value),
            None => None,
        }
    }

    /// Whether there is a value under `key`.
    pub fn contains(&self, key: &str) -> (b: bool)
        ensures
            b == self@.contains_key(key@),
    {
        self.position(key).is_some()
    }

    /// Puts `value` under `key`.
    pub fn insert(&mut self, key: String, value: V)
        ensures
            final(self)@ == old(self)@.insert(key@, value),
    {
        let ghost before = self.entries@;
        let ghost name = key@;
        match self.position(key.as_str()) {
            Some(i) => {
                self.entries.set(i, Entry { key, value });
                proof {
                    let after = self.entries@;
                    lemma_find(before, name);
                    assert forall|k: Seq<char>| find(after, k) == #[trigger] find(before, k) by {
                        lemma_find(before, k);
                        lemma_find_is(after, k, find(before, k));
                    }
                    assert forall|k: Seq<char>| k != name implies #[trigger] find(before, k)
                        != i by {
                        lemma_find(before, k);
                    }
                }
            },
            None => {
                self.entries.push(Entry { key, value });
                proof {
                    let after = self.entries@;
                    assert forall|k: Seq<char>| find(before, k) < before.len() implies find(
                        after,
                        k,
                    ) == #[trigger] find(before, k) by {
                        assert(after.drop_last() =~= before);
                    }
                    assert forall|k: Seq<char>|
                        find(before, k) >= before.len() && k != name implies find(after, k)
                        == after.len() && #[trigger] find(before, k) == before.len() by {
                        lemma_find(before, k);
                        assert(after.drop_last() =~= before);
                    }
                    assert(find(after, name) == before.len()) by {
                        assert(after.drop_last() =~= before);
                    }
                }
            },
        }
        proof {
            assert forall|k: Seq<char>|
                #![trigger self@.contains_key(k)]
                self@.contains_key(k) == old(self)@.insert(name, value).contains_key(k) by {
                lemma_find(before, k);
                lemma_find(self.entries@, k);
            }
            assert(self@ =~= old(self)@.insert(name, value)) by {
                assert forall|k: Seq<char>| self@.contains_key(k) implies self@[k]
                    == old(self)@.insert(name, value)[k] by {
                    lemma_find(before, k);
                    lemma_find(self.entries@, k);
                }
            }
        }
    }

    /// Takes the value under `key` out, if there is one.
    pub fn remove(&mut self, key: &str) -> (r: Option<V>)
        ensures
            final(self)@ == old(self)@.remove(key@),
            match r {
                Some(value) => old(self)@.contains_key(key@) && value == old(self)@[key@],
                None => !old(self)@.contains_key(key@),
            },
    {
        let ghost before = self.entries@;
        let mut found: Option<V> = None;
        let mut i: usize = 0;
        while i < self.entries.len()
            invariant
                i <= self.entries@.len(),
                forall|j: int| 0 <= j < i ==> (#[trigger] self.entries@[j]).key@ != key@,
                self@.remove(key@) == old(self)@.remove(key@),
                before == old(self).entries@,
                match found {
                    Some(value) => old(self)@.contains_key(key@) && value == old(self)@[key@],
                    None => self.entries@ == before,
                },
            decreases self.entries@.len() - i,
        {
            if text::str_eq(self.entries[i].key.as_str(), key) {
                let ghost full = self.entries@;
                let ghost map = self@;
                let entry = self.entries.remove(i);
                if found.is_none() {
                    proof {
                        lemma_find_is(before, key@, i as int);
                    }
                    found = Some(entry.value);
                }
                proof {
                    let less = self.entries@;
                    assert forall|k: Seq<char>| k != key@ implies #[trigger] find(less, k) == (
                    if find(full, k) > i {
                        find(full, k) - 1
                    } else {
                        find(full, k)
                    }) && find(full, k) != i by {
                        lemma_find(full, k);
                        let n = if find(full, k) > i {
                            find(full, k) - 1
                        } else {
                            find(full, k)
                        };
                        assert forall|j: int| 0 <= j < n implies (#[trigger] less[j]).key@ != k by {
                            if j < i {
                                assert(full[j].key@ != k);
                            } else {
                                assert(full[j + 1].key@ != k);
                            }
                        }
                        lemma_find_is(less, k, n);
                    }
                    assert(self@.remove(key@) =~= map.remove(key@)) by {
                        assert forall|k: Seq<char>|
                            #![trigger self@.remove(key@).contains_key(k)]
                            self@.remove(key@).contains_key(k) == map.remove(key@).contains_key(
                                k,
                            ) by {
                            lemma_find(full, k);
                            lemma_find(less, k);
                        }
                        assert forall|k: Seq<char>| self@.remove(key@).contains_key(k) implies self@[k]
                            == map[k] by {
                            lemma_find(full, k);
                            lemma_find(less, k);
                        }
                    }
                }
            } else {
                i = i + 1;
            }
        }
        proof {
            lemma_find_is(self.entries@, key@, i as int);
            assert(!self@.contains_key(key@));
            assert(self@ =~= self@.remove(key@));
        }
        found
    }

    /// The keys of the map, each once.
    pub fn keys(&self) -> (list: Vec<String>)
        ensures
            text::views(list@).no_duplicates(),
            forall|k: Seq<char>|
                self@.contains_key(k) <==> #[trigger] text::views(list@).contains(k),
    {
        let mut list: Vec<String> = Vec::new();
        let mut i: usize = 0;
        assert forall|k: Seq<char>| #[trigger] text::views(list@).contains(k) <==> find(
            self.entries@,
            k,
        ) < 0 by {
            lemma_find(self.entries@, k);
        }
        while i < self.entries.len()
            invariant
                i <= self.entries@.len(),
                text::views(list@).no_duplicates(),
                forall|k: Seq<char>| #[trigger]
                    text::views(list@).contains(k) <==> find(self.entries@, k) < i,
            decreases self.entries@.len() - i,
        {
            let ghost before = text::views(list@);
            let ghost key = self.entries@[i as int].key@;
            proof {
                lemma_find(self.entries@, key);
            }
            let fresh = !text::contains_str(list.as_slice(), self.entries[i].key.as_str());
            if fresh {
                list.push(self.entries[i].key.as_str().to_owned());
                assert(text::views(list@) =~= before.push(key));
            }
            proof {
                let after = text::views(list@);
                assert forall|k: Seq<char>| #[trigger] after.contains(k) <==> find(self.entries@, k)
                    < i + 1 by {
                    lemma_find(self.entries@, k);
                    assert(before.contains(k) <==> find(self.entries@, k) < i);
                    assert(before.contains(key) <==> find(self.entries@, key) < i);
                    if fresh {
                        assert(after[before.len() as int] == key);
                        if before.contains(k) {
                            let n = choose|n: int| 0 <= n < before.len() && before[n] == k;
                            assert(after[n] == k);
                        }
                        if after.contains(k) && k != key {
                            let n = choose|n: int| 0 <= n < after.len() && after[n] == k;
                            assert(before[n] == k);
                        }
                    }
                }
            }
            i = i + 1;
        }
        list
    }

    /// Whether the map is empty.
    pub fn is_empty(&self) -> (b: bool)
        ensures
            b == (self@ == Map::<Seq<char>, V>::empty()),
    {
        proof {
            if self.entries@.len() == 0 {
                assert(self@ =~= Map::empty());
            } else {
                let key = self.entries@[0].key@;
                lemma_find_is(self.entries@, key, 0);
                assert(self@.contains_key(key));
            }
        }
        self.entries.len() == 0
    }
}

impl<V> Default for Keyed<V> {
    fn default() -> (r: Keyed<V>)
        ensures
            r@ == Map::<Seq<char>, V>::empty(),
    {
        Keyed::new()
    }
}

} // verus!
