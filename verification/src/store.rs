use crate::types::DataKey;
use vstd::prelude::*;

verus! {

/// One stored number and the key it is stored under.
pub struct Slot {
    key: DataKey,
    value: i128,
}

spec fn distinct_keys(s: Seq<Slot>) -> bool {
    forall|i: int, j: int| 0 <= i < j < s.len() ==> s[i].key != s[j].key
}

spec fn slot_map(s: Seq<Slot>) -> Map<DataKey, int>
    decreases s.len(),
{
    if s.len() == 0 {
        Map::empty()
    } else {
        slot_map(s.drop_last()).insert(s.last().key, s.last().value as int)
    }
}

proof fn lemma_slot_map(s: Seq<Slot>)
    ensures
        forall|k: DataKey| #[trigger]
            slot_map(s).dom().contains(k) <==> exists|i: int|
                0 <= i < s.len() && (#[trigger] s[i]).key == k,
        distinct_keys(s) ==> forall|i: int|
            0 <= i < s.len() ==> slot_map(s)[(#[trigger] s[i]).key] == s[i].value as int,
    decreases s.len(),
{
    if s.len() > 0 {
        let t = s.drop_last();
        lemma_slot_map(t);
        assert forall|k: DataKey| slot_map(s).dom().contains(k) implies exists|i: int|
            0 <= i < s.len() && (#[trigger] s[i]).key == k by {
            if k == s.last().key {
                assert(s[s.len() - 1].key == k);
            } else {
                assert(slot_map(t).dom().contains(k));
                let i = choose|i: int| 0 <= i < t.len() && (#[trigger] t[i]).key == k;
                assert(s[i].key == k);
            }
        }
        assert forall|k: DataKey|
            (exists|i: int| 0 <= i < s.len() && (#[trigger] s[i]).key == k) implies slot_map(
            s,
        ).dom().contains(k) by {
            let i = choose|i: int| 0 <= i < s.len() && (#[trigger] s[i]).key == k;
            if i < t.len() {
                assert(t[i].key == k);
                assert(slot_map(t).dom().contains(k));
            }
        }
        if distinct_keys(s) {
            assert(distinct_keys(t)) by {
                assert forall|i: int, j: int| 0 <= i < j < t.len() implies t[i].key != t[j].key by {
                    assert(s[i].key != s[j].key);
                }
            }
            assert forall|i: int| 0 <= i < s.len() implies slot_map(s)[(#[trigger] s[i]).key]
                == s[i].value as int by {
                if i < t.len() {
                    assert(t[i] == s[i]);
                    assert(s[i].key != s[s.len() - 1].key);
                }
            }
        }
    }
}

/// A finite table of numbers under distinct keys.
pub struct Store {
    slots: Vec<Slot>,
}

impl View for Store {
    type V = Map<DataKey, int>;

    closed spec fn view(&self) -> Map<DataKey, int> {
        slot_map(self.slots@)
    }
}

impl Store {
    /// No key is stored twice. Every table that this module hands out is
    /// well formed, and every operation keeps it so.
    pub closed spec fn wf(&self) -> bool {
        distinct_keys(self.slots@)
    }

    /// The empty table.
    pub fn new() -> (s: Store)
        ensures
            s.wf(),
            s@ == Map::<DataKey, int>::empty(),
    {
        Store { slots: Vec::new() }
    }

    fn find(&self, key: &DataKey) -> (r: Option<usize>)
        ensures
            match r {
                Some(i) => i < self.slots@.len() && self.slots@[i as int].key == *key,
                None => !self@.dom().contains(*key),
            },
    {
        let mut i: usize = 0;
        while i < self.slots.len()
            invariant
                i <= self.slots@.len(),
                forall|j: int| 0 <= j < i ==> (#[trigger] self.slots@[j]).key != *key,
            decreases self.slots@.len() - i,
        {
            if self.slots[i].key == *key {
                return Some(i);
            }
            i = i + 1;
        }
        proof {
            lemma_slot_map(self.slots@);
        }
        None
    }

    /// Whether a number is stored under `key`.
    pub fn has(&self, key: &DataKey) -> (r: bool)
        ensures
            r == self@.dom().contains(*key),
    {
        proof {
            lemma_slot_map(self.slots@);
        }
        self.find(key).is_some()
    }

    /// The number stored under `key`, if there is one.
    pub fn get(&self, key: &DataKey) -> (r: Option<i128>)
        requires
            self.wf(),
        ensures
            match r {
                Some(x) => self@.dom().contains(*key) && self@[*key] == x,
                None => !self@.dom().contains(*key),
            },
    {
        proof {
            lemma_slot_map(self.slots@);
        }
        match self.find(key) {
            Some(i) => Some(self.slots[i].value),
            None => None,
        }
    }

    /// Stores `value` under `key`, in place of what was there.
    pub fn set(&mut self, key: DataKey, value: i128)
        requires
            old(self).wf(),
        ensures
            final(self).wf(),
            final(self)@ == old(self)@.insert(key, value as int),
    {
        proof {
            lemma_slot_map(self.slots@);
        }
        match self.find(&key) {
            Some(i) => {
                self.slots[i] = Slot { key, value };
                proof {
                    lemma_slot_map(self.slots@);
                    assert(distinct_keys(self.slots@)) by {
                        assert forall|a: int, b: int|
                            0 <= a < b < self.slots@.len() implies self.slots@[a].key
                            != self.slots@[b].key by {
                            assert(old(self).slots@[a].key != old(self).slots@[b].key);
                        }
                    }
                    assert forall|k: DataKey| #[trigger]
                        self@.dom().contains(k) == old(self)@.insert(
                            key,
                            value as int,
                        ).dom().contains(k) by {
                        if self@.dom().contains(k) {
                            let j = choose|j: int|
                                0 <= j < self.slots@.len() && (#[trigger] self.slots@[j]).key == k;
                            assert(old(self).slots@[j].key == k);
                        } else if old(self)@.dom().contains(k) {
                            let j = choose|j: int|
                                0 <= j < old(self).slots@.len() && (#[trigger] old(
                                    self,
                                ).slots@[j]).key == k;
                            assert(self.slots@[j].key == k);
                        } else if k == key {
                            assert(self.slots@[i as int].key == k);
                        }
                    }
                    assert forall|k: DataKey| #[trigger]
                        self@.dom().contains(k) implies self@[k] == old(self)@.insert(
                        key,
                        value as int,
                    )[k] by {
                        let j = choose|j: int|
                            0 <= j < self.slots@.len() && (#[trigger] self.slots@[j]).key == k;
                        assert(old(self).slots@[j].key == self.slots@[j].key);
                        assert(self@[self.slots@[j].key] == self.slots@[j].value);
                        assert(old(self)@[old(self).slots@[j].key] == old(self).slots@[j].value);
                    }
                    assert(self@ =~= old(self)@.insert(key, value as int));
                }
            },
            None => {
                self.slots.push(Slot { key, value });
                proof {
                    lemma_slot_map(self.slots@);
                    assert(self.slots@.drop_last() =~= old(self).slots@);
                    assert(distinct_keys(self.slots@)) by {
                        assert forall|a: int, b: int|
                            0 <= a < b < self.slots@.len() implies self.slots@[a].key
                            != self.slots@[b].key by {
                            if b < old(self).slots@.len() {
                                assert(old(self).slots@[a].key != old(self).slots@[b].key);
                            } else {
                                assert(old(self).slots@[a].key != key);
                            }
                        }
                    }
                }
            },
        }
    }

    /// Removes what is stored under `key`, if anything is.
    pub fn remove(&mut self, key: &DataKey)
        requires
            old(self).wf(),
        ensures
            final(self).wf(),
            final(self)@ == old(self)@.remove(*key),
    {
        proof {
            lemma_slot_map(self.slots@);
        }
        match self.find(key) {
            Some(i) => {
                self.slots.swap_remove(i);
                proof {
                    let before = old(self).slots@;
                    let after = self.slots@;
                    let last = before.len() - 1;
                    assert forall|a: int| 0 <= a < after.len() implies #[trigger] after[a] == (if a
                        == i {
                        before[last]
                    } else {
                        before[a]
                    }) by {}
                    assert(distinct_keys(after)) by {
                        assert forall|a: int, b: int| 0 <= a < b < after.len() implies after[a].key
                            != after[b].key by {
                            let a0 = if a == i { last } else { a };
                            let b0 = if b == i { last } else { b };
                            if a0 < b0 {
                                assert(before[a0].key != before[b0].key);
                            } else {
                                assert(before[b0].key != before[a0].key);
                            }
                        }
                    }
                    lemma_slot_map(after);
                    assert forall|k: DataKey| #[trigger]
                        self@.dom().contains(k) == old(self)@.remove(*key).dom().contains(k) by {
                        if self@.dom().contains(k) {
                            let j = choose|j: int|
                                0 <= j < after.len() && (#[trigger] after[j]).key == k;
                            let j0 = if j == i { last } else { j };
                            assert(before[j0].key == k);
                            if j0 < i {
                                assert(before[j0].key != before[i as int].key);
                            } else {
                                assert(before[i as int].key != before[j0].key);
                            }
                        } else if old(self)@.remove(*key).dom().contains(k) {
                            let j = choose|j: int|
                                0 <= j < before.len() && (#[trigger] before[j]).key == k;
                            if j == last {
                                assert(after[i as int].key == k);
                            } else {
                                assert(after[j].key == k);
                            }
                        }
                    }
                    assert forall|k: DataKey| #[trigger]
                        self@.dom().contains(k) implies self@[k] == old(self)@.remove(*key)[k] by {
                        let j = choose|j: int|
                            0 <= j < after.len() && (#[trigger] after[j]).key == k;
                        let j0 = if j == i { last } else { j };
                        assert(before[j0] == after[j]);
                        assert(self@[after[j].key] == after[j].value);
                        assert(old(self)@[before[j0].key] == before[j0].value);
                    }
                    assert(self@ =~= old(self)@.remove(*key));
                }
            },
            None => {
                assert(old(self)@.remove(*key) =~= old(self)@);
            },
        }
    }
}

} // verus!
