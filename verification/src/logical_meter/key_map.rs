//! Values by the keys of formulas.

use vstd::prelude::*;

use crate::logical_meter::formula::Key;

verus! {

/// The values of `entries`, by their keys.
pub open spec fn values<V>(entries: Seq<(Key, V)>) -> Map<Key, V>
    decreases entries.len(),
{
    if entries.len() == 0 {
        Map::empty()
    } else {
        values(entries.drop_last()).insert(entries.last().0, entries.last().1)
    }
}

/// Whether no two entries have the same key.
pub open spec fn distinct_keys<V>(entries: Seq<(Key, V)>) -> bool {
    forall|i: int, j: int|
        0 <= i < entries.len() && 0 <= j < entries.len() && #[trigger] entries[i].0
            == #[trigger] entries[j].0 ==> i == j
}

/// The entries hold a value for a key where one of them is of that key.
pub proof fn lemma_values<V>(entries: Seq<(Key, V)>)
    requires
        distinct_keys(entries),
    ensures
        forall|i: int|
            0 <= i < entries.len() ==> values(entries).contains_key(#[trigger] entries[i].0)
                && values(entries)[entries[i].0] == entries[i].1,
        forall|k: Key| #[trigger]
            values(entries).contains_key(k) ==> exists|i: int|
                0 <= i < entries.len() && #[trigger] entries[i].0 == k,
    decreases entries.len(),
{
    if entries.len() > 0 {
        let rest = entries.drop_last();
        assert forall|i: int, j: int|
            0 <= i < rest.len() && 0 <= j < rest.len() && #[trigger] rest[i].0
                == #[trigger] rest[j].0 implies i == j by {
            assert(entries[i].0 == entries[j].0);
        }
        lemma_values(rest);
        assert forall|i: int| 0 <= i < entries.len() implies values(entries).contains_key(
            #[trigger] entries[i].0,
        ) && values(entries)[entries[i].0] == entries[i].1 by {
            if i < entries.len() - 1 {
                assert(rest[i] == entries[i]);
                assert(entries[i].0 != entries[entries.len() - 1].0);
            }
        }
        assert forall|k: Key| #[trigger] values(entries).contains_key(k) implies exists|i: int|
            0 <= i < entries.len() && #[trigger] entries[i].0 == k by {
            if k == entries.last().0 {
                assert(entries[entries.len() - 1].0 == k);
            } else {
                assert(values(rest).contains_key(k));
                let i = choose|i: int| 0 <= i < rest.len() && #[trigger] rest[i].0 == k;
                assert(entries[i].0 == k);
            }
        }
    }
}

/// Values by the keys of formulas.
pub struct KeyMap<V> {
    entries: Vec<(Key, V)>,
}

impl<V> View for KeyMap<V> {
    type V = Map<Key, V>;

    closed spec fn view(&self) -> Map<Key, V> {
        values(self.entries@)
    }
}

impl<V: Copy> KeyMap<V> {
    /// Whether no key has two values.
    pub closed spec fn wf(&self) -> bool {
        distinct_keys(self.entries@)
    }

    /// The keys and values, in the order in which the keys came.
    pub closed spec fn spec_entries(&self) -> Seq<(Key, V)> {
        self.entries@
    }

    /// A map without values.
    pub fn new() -> (r: Self)
        ensures
            r.wf(),
            r@ == Map::<Key, V>::empty(),
    {
        KeyMap { entries: Vec::new() }
    }

    /// The keys and values, each key once.
    pub fn entries(&self) -> (r: &Vec<(Key, V)>)
        requires
            self.wf(),
        ensures
            r@ == self.spec_entries(),
            distinct_keys(r@),
            values(r@) == self@,
    {
        &self.entries
    }

    fn position(&self, key: Key) -> (r: Option<usize>)
        requires
            self.wf(),
        ensures
            match r {
                Some(i) => i < self.entries@.len() && self.entries@[i as int].0 == key
                    && self@.contains_key(key) && self@[key] == self.entries@[i as int].1,
                None => !self@.contains_key(key) && forall|i: int|
                    0 <= i < self.entries@.len() ==> #[trigger] self.entries@[i].0 != key,
            },
    {
        proof {
            lemma_values(self.entries@);
        }
        let mut i: usize = 0;
        while i < self.entries.len()
            invariant
                i <= self.entries.len(),
                forall|k: int| 0 <= k < i ==> #[trigger] self.entries@[k].0 != key,
                forall|k: int|
                    0 <= k < self.entries@.len() ==> values(self.entries@).contains_key(
                        #[trigger] self.entries@[k].0,
                    ) && values(self.entries@)[self.entries@[k].0] == self.entries@[k].1,
                forall|k: Key| #[trigger]
                    values(self.entries@).contains_key(k) ==> exists|i: int|
                        0 <= i < self.entries@.len() && #[trigger] self.entries@[i].0 == k,
            decreases self.entries.len() - i,
        {
            if self.entries[i].0 == key {
                return Some(i);
            }
            i = i + 1;
        }
        None
    }

    /// Whether the key has a value.
    pub fn contains_key(&self, key: Key) -> (r: bool)
        requires
            self.wf(),
        ensures
            r == self@.contains_key(key),
    {
        match self.position(key) {
            Some(_) => true,
            None => false,
        }
    }

    /// The value of the key, if it has one.
    pub fn get(&self, key: Key) -> (r: Option<V>)
        requires
            self.wf(),
        ensures
            r == (if self@.contains_key(key) {
                Some(self@[key])
            } else {
                None
            }),
    {
        match self.position(key) {
            Some(i) => Some(self.entries[i].1),
            None => None,
        }
    }

    /// Gives the key a value, in place of the one it had.
    pub fn insert(&mut self, key: Key, value: V)
        requires
            old(self).wf(),
        ensures
            final(self).wf(),
            final(self)@ == old(self)@.insert(key, value),
    {
        let ghost before = self.entries@;
        proof {
            lemma_values(before);
        }
        match self.position(key) {
            Some(i) => {
                self.entries.set(i, (key, value));
                proof {
                    let after = self.entries@;
                    assert forall|a: int, b: int|
                        0 <= a < after.len() && 0 <= b < after.len() && #[trigger] after[a].0
                            == #[trigger] after[b].0 implies a == b by {
                        assert(before[a].0 == after[a].0);
                        assert(before[b].0 == after[b].0);
                    }
                    lemma_values(after);
                    assert forall|k: Key| #[trigger] values(after).contains_key(k) <==> values(
                        before,
                    ).insert(key, value).contains_key(k) by {
                        if values(after).contains_key(k) {
                            let j = choose|j: int|
                                0 <= j < after.len() && #[trigger] after[j].0 == k;
                            assert(before[j].0 == k);
                        }
                        if values(before).contains_key(k) {
                            let j = choose|j: int|
                                0 <= j < before.len() && #[trigger] before[j].0 == k;
                            assert(after[j].0 == k);
                        }
                        assert(after[i as int].0 == key);
                    }
                    assert forall|k: Key| #[trigger] values(after).contains_key(k) implies values(
                        after,
                    )[k] == values(before).insert(key, value)[k] by {
                        let j = choose|j: int| 0 <= j < after.len() && #[trigger] after[j].0 == k;
                        assert(before[j].0 == k);
                    }
                    assert(values(after) =~= values(before).insert(key, value));
                }
            },
            None => {
                self.entries.push((key, value));
                proof {
                    let after = self.entries@;
                    assert(after.drop_last() =~= before);
                    assert forall|a: int, b: int|
                        0 <= a < after.len() && 0 <= b < after.len() && #[trigger] after[a].0
                            == #[trigger] after[b].0 implies a == b by {
                        if a < before.len() {
                            assert(before[a].0 != key);
                        }
                        if b < before.len() {
                            assert(before[b].0 != key);
                        }
                        if a < before.len() && b < before.len() {
                            assert(before[a].0 == before[b].0);
                        }
                    }
                }
            },
        }
    }

    /// Takes the value of the key away, if it has one.
    pub fn remove(&mut self, key: Key)
        requires
            old(self).wf(),
        ensures
            final(self).wf(),
            final(self)@ == old(self)@.remove(key),
    {
        let ghost before = self.entries@;
        proof {
            lemma_values(before);
        }
        match self.position(key) {
            Some(i) => {
                self.entries.remove(i);
                proof {
                    let after = self.entries@;
                    assert forall|a: int| 0 <= a < after.len() implies #[trigger] after[a]
                        == before[if a < i {
                        a
                    } else {
                        a + 1
                    }] by {}
                    assert forall|a: int, b: int|
                        0 <= a < after.len() && 0 <= b < after.len() && #[trigger] after[a].0
                            == #[trigger] after[b].0 implies a == b by {
                        let p = if a < i {
                            a
                        } else {
                            a + 1
                        };
                        let q = if b < i {
                            b
                        } else {
                            b + 1
                        };
                        assert(before[p].0 == before[q].0);
                    }
                    lemma_values(after);
                    assert forall|k: Key| #[trigger] values(after).contains_key(k) <==> values(
                        before,
                    ).remove(key).contains_key(k) by {
                        if values(after).contains_key(k) {
                            let j = choose|j: int|
                                0 <= j < after.len() && #[trigger] after[j].0 == k;
                            let p = if j < i {
                                j
                            } else {
                                j + 1
                            };
                            assert(before[p].0 == k);
                            assert(before[i as int].0 == key);
                        }
                        if values(before).contains_key(k) && k != key {
                            let j = choose|j: int|
                                0 <= j < before.len() && #[trigger] before[j].0 == k;
                            if j < i {
                                assert(after[j].0 == k);
                            } else {
                                assert(after[j - 1].0 == k);
                            }
                        }
                    }
                    assert forall|k: Key| #[trigger] values(after).contains_key(k) implies values(
                        after,
                    )[k] == values(before).remove(key)[k] by {
                        let j = choose|j: int| 0 <= j < after.len() && #[trigger] after[j].0 == k;
                        let p = if j < i {
                            j
                        } else {
                            j + 1
                        };
                        assert(before[p].0 == k);
                    }
                    assert(values(after) =~= values(before).remove(key));
                }
            },
            None => {
                assert(values(before) =~= values(before).remove(key));
            },
        }
    }
}

/// Whether `key` is one of `keys`.
pub fn is_among(keys: &Vec<Key>, key: Key) -> (r: bool)
    ensures
        r == keys@.to_set().contains(key),
{
    let mut i: usize = 0;
    while i < keys.len()
        invariant
            i <= keys.len(),
            forall|k: int| 0 <= k < i ==> keys@[k] != key,
        decreases keys.len() - i,
    {
        if keys[i] == key {
            assert(keys@[i as int] == key);
            return true;
        }
        i = i + 1;
    }
    false
}

}
