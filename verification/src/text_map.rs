//! Values under texts.
use vstd::prelude::*;
use vstd::string::*;

use crate::text::same;

verus! {

/// Values of one kind, each under a text of its own.
#[derive(Debug)]
pub struct TextMap<V> {
    pub entries: Vec<(String, V)>,
}

/// The value under a text.
pub open spec fn find<V>(entries: Seq<(String, V)>, key: Seq<char>) -> Option<V>
    decreases entries.len(),
{
    if entries.len() == 0 {
        None
    } else if entries.last().0@ == key {
        Some(entries.last().1)
    } else {
        find(entries.drop_last(), key)
    }
}

/// No text stands twice.
pub open spec fn distinct<V>(entries: Seq<(String, V)>) -> bool {
    forall|i: int, j: int|
        0 <= i < j < entries.len() ==> (#[trigger] entries[i]).0@ != (#[trigger] entries[j]).0@
}

proof fn lemma_find<V>(entries: Seq<(String, V)>, at: int)
    requires
        distinct(entries),
        0 <= at < entries.len(),
    ensures
        find(entries, entries[at].0@) == Some(entries[at].1),
    decreases entries.len(),
{
    if at < entries.len() - 1 {
        let rest = entries.drop_last();
        assert(entries[at].0@ != entries[entries.len() - 1].0@);
        assert(rest[at] == entries[at]);
        assert forall|i: int, j: int| 0 <= i < j < rest.len() implies (#[trigger] rest[i]).0@ != (
        #[trigger] rest[j]).0@ by {
            assert(rest[i] == entries[i] && rest[j] == entries[j]);
        }
        lemma_find(rest, at);
    }
}

proof fn lemma_found<V>(entries: Seq<(String, V)>, key: Seq<char>)
    ensures
        find(entries, key) is Some ==> exists|i: int|
            0 <= i < entries.len() && (#[trigger] entries[i]).0@ == key && find(entries, key)
                == Some(entries[i].1),
        (forall|i: int| 0 <= i < entries.len() ==> (#[trigger] entries[i]).0@ != key) ==> find(
            entries,
            key,
        ) is None,
    decreases entries.len(),
{
    if entries.len() > 0 {
        let rest = entries.drop_last();
        lemma_found(rest, key);
        if entries.last().0@ == key {
            assert(entries[entries.len() - 1].0@ == key);
        } else if find(rest, key) is Some {
            let i = choose|i: int|
                0 <= i < rest.len() && (#[trigger] rest[i]).0@ == key && find(rest, key) == Some(
                    rest[i].1,
                );
            assert(entries[i] == rest[i]);
        }
        if forall|i: int| 0 <= i < entries.len() ==> (#[trigger] entries[i]).0@ != key {
            assert forall|i: int| 0 <= i < rest.len() implies (#[trigger] rest[i]).0@ != key by {
                assert(rest[i] == entries[i]);
            }
        }
    }
}

impl<V> View for TextMap<V> {
    type V = Map<Seq<char>, V>;

    open spec fn view(&self) -> Map<Seq<char>, V> {
        Map::new(
            |key: Seq<char>| find(self.entries@, key) is Some,
            |key: Seq<char>| find(self.entries@, key)->0,
        )
    }
}

proof fn lemma_count<V>(entries: Seq<(String, V)>, map: Map<Seq<char>, V>)
    requires
        distinct(entries),
        map == Map::new(
            |key: Seq<char>| find(entries, key) is Some,
            |key: Seq<char>| find(entries, key)->0,
        ),
    ensures
        map.dom().finite(),
        map.dom().len() == entries.len(),
    decreases entries.len(),
{
    if entries.len() == 0 {
        assert(map.dom() =~= Set::<Seq<char>>::empty());
    } else {
        let rest = entries.drop_last();
        let last = entries.last().0@;
        assert forall|i: int, j: int| 0 <= i < j < rest.len() implies (#[trigger] rest[i]).0@ != (
        #[trigger] rest[j]).0@ by {
            assert(rest[i] == entries[i] && rest[j] == entries[j]);
        }
        let before = Map::new(
            |key: Seq<char>| find(rest, key) is Some,
            |key: Seq<char>| find(rest, key)->0,
        );
        lemma_count(rest, before);
        lemma_found(rest, last);
        assert forall|i: int| 0 <= i < rest.len() implies (#[trigger] rest[i]).0@ != last by {
            assert(rest[i] == entries[i]);
            assert(entries[i].0@ != entries[entries.len() - 1].0@);
        }
        assert(!before.dom().contains(last));
        assert(map.dom() =~= before.dom().insert(last));
    }
}

impl<V> TextMap<V> {
    /// There are as many values as entries.
    pub proof fn lemma_len(&self)
        requires
            self.wf(),
        ensures
            self@.dom().finite(),
            self@.dom().len() == self.entries@.len(),
    {
        lemma_count(self.entries@, self@);
    }

    /// Each entry stands under its text.
    pub proof fn lemma_entry(&self, i: int)
        requires
            self.wf(),
            0 <= i < self.entries@.len(),
        ensures
            self@.dom().contains(self.entries@[i].0@),
            self@[self.entries@[i].0@] == self.entries@[i].1,
    {
        lemma_find(self.entries@, i);
    }

    /// Each value is the one of an entry.
    pub proof fn lemma_value(&self, key: Seq<char>) -> (i: int)
        requires
            self.wf(),
            self@.dom().contains(key),
        ensures
            0 <= i < self.entries@.len(),
            self.entries@[i].0@ == key,
            self.entries@[i].1 == self@[key],
    {
        lemma_found(self.entries@, key);
        choose|i: int|
            0 <= i < self.entries@.len() && (#[trigger] self.entries@[i]).0@ == key && find(
                self.entries@,
                key,
            ) == Some(self.entries@[i].1)
    }

    /// No text stands twice.
    pub open spec fn wf(&self) -> bool {
        distinct(self.entries@)
    }

    /// No values.
    pub fn new() -> (r: Self)
        ensures
            r.wf(),
            r@ == Map::<Seq<char>, V>::empty(),
            r.entries@.len() == 0,
    {
        let r = TextMap { entries: Vec::new() };
        assert(r@ =~= Map::<Seq<char>, V>::empty());
        r
    }

    /// The place of a text.
    pub fn place(&self, key: &str) -> (r: Option<usize>)
        requires
            self.wf(),
        ensures
            match r {
                Some(i) => i < self.entries@.len() && self.entries@[i as int].0@ == key@
                    && self@.dom().contains(key@) && self@[key@] == self.entries@[i as int].1,
                None => !self@.dom().contains(key@) && forall|i: int|
                    0 <= i < self.entries@.len() ==> (#[trigger] self.entries@[i]).0@ != key@,
            },
    {
        let mut i: usize = 0;
        while i < self.entries.len()
            invariant
                self.wf(),
                i <= self.entries@.len(),
                forall|j: int| 0 <= j < i ==> (#[trigger] self.entries@[j]).0@ != key@,
            decreases self.entries@.len() - i,
        {
            if same(self.entries[i].0.as_str(), key) {
                proof {
                    lemma_find(self.entries@, i as int);
                }
                return Some(i);
            }
            i = i + 1;
        }
        proof {
            lemma_found(self.entries@, key@);
        }
        None
    }

    /// The value under a text.
    pub fn get(&self, key: &str) -> (r: Option<&V>)
        requires
            self.wf(),
        ensures
            match r {
                Some(value) => self@.dom().contains(key@) && *value == self@[key@],
                None => !self@.dom().contains(key@),
            },
    {
        match self.place(key) {
            Some(i) => Some(&self.entries[i].1),
            None => None,
        }
    }

    /// Puts a value under a text in place of the one before.
    pub fn insert(&mut self, key: String, value: V)
        requires
            old(self).wf(),
        ensures
            final(self).wf(),
            final(self)@ == old(self)@.insert(key@, value),
            final(self).entries@.len() == (if old(self)@.dom().contains(key@) {
                old(self).entries@.len()
            } else {
                old(self).entries@.len() + 1
            }),
    {
        let ghost k = key@;
        let _ = self.remove(key.as_str());
        let ghost before = self.entries@;
        let ghost kept = self@;
        self.entries.push((key, value));
        proof {
            assert(self.entries@.drop_last() =~= before);
            assert forall|i: int| 0 <= i < before.len() implies (#[trigger] before[i]).0@ != k by {
                lemma_find(before, i);
                if before[i].0@ == k {
                    assert(kept.dom().contains(k));
                }
            }
            assert forall|i: int, j: int| 0 <= i < j < self.entries@.len() implies (
            #[trigger] self.entries@[i]).0@ != (#[trigger] self.entries@[j]).0@ by {
                assert(self.entries@[i] == before[i]);
                if j < before.len() {
                    assert(self.entries@[j] == before[j]);
                }
            }
            assert(self@ =~= kept.insert(k, value));
            assert(self@ =~= old(self)@.insert(k, value));
        }
    }

    /// Takes the value under a text away.
    pub fn remove(&mut self, key: &str) -> (r: Option<V>)
        requires
            old(self).wf(),
        ensures
            final(self).wf(),
            final(self)@ == old(self)@.remove(key@),
            match r {
                Some(value) => old(self)@.dom().contains(key@) && value == old(self)@[key@]
                    && final(self).entries@.len() == old(self).entries@.len() - 1,
                None => !old(self)@.dom().contains(key@) && final(self).entries@ == old(
                    self,
                ).entries@,
            },
    {
        match self.place(key) {
            None => {
                assert(self@ =~= old(self)@.remove(key@));
                None
            },
            Some(i) => {
                let ghost all = self.entries@;
                let (_, value) = self.entries.remove(i);
                proof {
                    let left = self.entries@;
                    assert forall|a: int| 0 <= a < left.len() implies #[trigger] left[a] == (if a
                        < i {
                        all[a]
                    } else {
                        all[a + 1]
                    }) by {}
                    assert forall|a: int, b: int| 0 <= a < b < left.len() implies (
                    #[trigger] left[a]).0@ != (#[trigger] left[b]).0@ by {
                        let x = if a < i {
                            a
                        } else {
                            a + 1
                        };
                        let y = if b < i {
                            b
                        } else {
                            b + 1
                        };
                        assert(all[x].0@ != all[y].0@);
                    }
                    assert forall|k: Seq<char>| #[trigger] find(left, k) == (if k == key@ {
                        None
                    } else {
                        find(all, k)
                    }) by {
                        lemma_found(left, k);
                        lemma_found(all, k);
                        if find(left, k) is Some {
                            let a = choose|a: int|
                                0 <= a < left.len() && (#[trigger] left[a]).0@ == k && find(left, k)
                                    == Some(left[a].1);
                            let x = if a < i {
                                a
                            } else {
                                a + 1
                            };
                            assert(left[a] == all[x]);
                            lemma_find(all, x);
                            if k == key@ {
                                if x < i {
                                    assert(all[x].0@ != all[i as int].0@);
                                } else {
                                    assert(all[i as int].0@ != all[x].0@);
                                }
                            }
                        } else if k != key@ && find(all, k) is Some {
                            let x = choose|x: int|
                                0 <= x < all.len() && (#[trigger] all[x]).0@ == k && find(all, k)
                                    == Some(all[x].1);
                            let a = if x < i {
                                x
                            } else {
                                x - 1
                            };
                            assert(left[a] == all[x]);
                            lemma_find(left, a);
                        }
                    }
                    assert(self@ =~= old(self)@.remove(key@));
                }
                Some(value)
            },
        }
    }
}

} // verus!
