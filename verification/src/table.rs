//! A small map keyed by text, kept as a list of entries in insertion order.

use vstd::prelude::*;

verus! {

/// `str`'s `PartialEq::eq`: two string slices are equal exactly when they
/// hold the same characters.
#[verifier::external_body]
pub(crate) fn same_text(a: &str, b: &str) -> (r: bool)
    ensures
        r == (a@ == b@),
{
    a == b
}

/// One entry of a [`Table`].
#[derive(Debug)]
pub struct Slot<V> {
    pub key: String,
    pub value: V,
}

/// A map from text to `V`. No key occurs twice; entries stay in the order in
/// which their keys were first inserted.
#[derive(Debug)]
pub struct Table<V> {
    slots: Vec<Slot<V>>,
}

/// Whether `key` is the key of one of `slots`.
pub open spec fn has_key<V>(slots: Seq<Slot<V>>, key: Seq<char>) -> bool {
    exists|i: int| 0 <= i < slots.len() && #[trigger] slots[i].key@ == key
}

/// The position of `key` among `slots`.
pub open spec fn position<V>(slots: Seq<Slot<V>>, key: Seq<char>) -> int {
    choose|i: int| 0 <= i < slots.len() && #[trigger] slots[i].key@ == key
}

/// No two of `slots` share a key.
pub open spec fn distinct_keys<V>(slots: Seq<Slot<V>>) -> bool {
    forall|i: int, j: int|
        0 <= i < slots.len() && 0 <= j < slots.len() && #[trigger] slots[i].key@ == #[trigger] slots[j].key@
            ==> i == j
}

impl<V> Table<V> {
    #[verifier::type_invariant]
    spec fn inv(self) -> bool {
        distinct_keys(self.slots@)
    }

    /// The table as a mathematical map.
    pub closed spec fn view(self) -> Map<Seq<char>, V> {
        Map::new(
            |k: Seq<char>| has_key(self.slots@, k),
            |k: Seq<char>| self.slots@[position(self.slots@, k)].value,
        )
    }

    /// An empty table.
    pub fn new() -> (t: Self)
        ensures
            t@ == Map::<Seq<char>, V>::empty(),
    {
        let t = Table { slots: Vec::new() };
        assert(t@ =~= Map::<Seq<char>, V>::empty());
        t
    }

    /// Looks `key` up.
    pub fn get(&self, key: &str) -> (r: Option<&V>)
        ensures
            match r {
                Some(v) => self@.contains_key(key@) && self@[key@] == *v,
                None => !self@.contains_key(key@),
            },
    {
        proof {
            use_type_invariant(self);
        }
        match find(&self.slots, key) {
            Some(i) => Some(&self.slots[i].value),
            None => None,
        }
    }

    /// Whether `key` has an entry.
    pub fn contains_key(&self, key: &str) -> (r: bool)
        ensures
            r == self@.contains_key(key@),
    {
        proof {
            use_type_invariant(self);
        }
        find(&self.slots, key).is_some()
    }

    /// Sets the value of `key`, adding an entry at the end if it has none.
    pub fn insert(&mut self, key: &str, value: V)
        ensures
            final(self)@ == old(self)@.insert(key@, value),
    {
        proof {
            use_type_invariant(&*self);
        }
        let mut slots = Vec::new();
        core::mem::swap(&mut self.slots, &mut slots);
        let ghost before = slots@;
        let found = find(&slots, key);
        let ghost at: int = match found {
            Some(i) => i as int,
            None => before.len() as int,
        };
        match found {
            Some(i) => {
                slots[i].value = value;
            },
            None => {
                slots.push(Slot { key: key.to_owned(), value });
            },
        }
        proof {
            let after = slots@;
            assert(after[at].key@ == key@ && after[at].value == value);
            assert forall|j: int| 0 <= j < before.len() && j != at implies after[j] == before[j] by {}
            assert forall|j: int| 0 <= j < before.len() implies after[j].key@ == before[j].key@ by {}
            assert forall|k: Seq<char>|
                has_key(after, k) <==> (has_key(before, k) || k == key@) by {
                if has_key(after, k) {
                    let j = position(after, k);
                    if j < before.len() {
                        assert(before[j].key@ == k);
                    }
                }
                if has_key(before, k) {
                    let j = position(before, k);
                    assert(after[j].key@ == k);
                }
            }
            assert forall|k: Seq<char>| has_key(after, k) implies after[position(after, k)].value == (
            if k == key@ {
                value
            } else {
                before[position(before, k)].value
            }) by {
                let j = position(after, k);
                lemma_position(after, j);
                if k == key@ {
                    lemma_position(after, at);
                } else {
                    assert(before[j].key@ == k);
                    lemma_position(before, j);
                }
            }
        }
        self.slots = slots;
        assert(final(self)@ =~= old(self)@.insert(key@, value));
    }
}

impl<V> Table<V> {
    /// Takes the entry of `key` out, if there is one, and hands its value back.
    pub fn remove(&mut self, key: &str) -> (r: Option<V>)
        ensures
            final(self)@ == old(self)@.remove(key@),
            r == if old(self)@.contains_key(key@) {
                Some(old(self)@[key@])
            } else {
                None
            },
    {
        proof {
            use_type_invariant(&*self);
        }
        let mut slots = Vec::new();
        core::mem::swap(&mut self.slots, &mut slots);
        let ghost before = slots@;
        let r = match find(&slots, key) {
            Some(i) => {
                let slot = slots.remove(i);
                proof {
                    let after = slots@;
                    assert forall|j: int| 0 <= j < after.len() implies after[j] == before[if j < i {
                        j
                    } else {
                        j + 1
                    }] by {}
                    assert forall|k: Seq<char>|
                        has_key(after, k) <==> (has_key(before, k) && k != key@) by {
                        if has_key(after, k) {
                            let j = position(after, k);
                            let j0 = if j < i {
                                j
                            } else {
                                j + 1
                            };
                            assert(before[j0].key@ == k);
                        }
                        if has_key(before, k) && k != key@ {
                            let j0 = position(before, k);
                            let j = if j0 < i {
                                j0
                            } else {
                                j0 - 1
                            };
                            assert(after[j].key@ == k);
                        }
                    }
                    assert forall|k: Seq<char>| has_key(after, k) implies after[position(
                        after,
                        k,
                    )].value == before[position(before, k)].value by {
                        let j = position(after, k);
                        let j0 = if j < i {
                            j
                        } else {
                            j + 1
                        };
                        assert(before[j0].key@ == k);
                        lemma_position(before, j0);
                    }
                }
                Some(slot.value)
            },
            None => None,
        };
        self.slots = slots;
        assert(final(self)@ =~= old(self)@.remove(key@));
        r
    }
}

impl<V: Clone> Clone for Table<V> {
    /// A table of the same keys, each with a clone of its value.
    fn clone(&self) -> (r: Self)
        ensures
            r@.dom() == self@.dom(),
            forall|k: Seq<char>| self@.contains_key(k) ==> cloned::<V>(self@[k], #[trigger] r@[k]),
    {
        proof {
            use_type_invariant(self);
        }
        let mut slots: Vec<Slot<V>> = Vec::new();
        let mut i: usize = 0;
        while i < self.slots.len()
            invariant
                i <= self.slots@.len(),
                slots@.len() == i,
                forall|j: int|
                    0 <= j < i ==> (#[trigger] slots@[j]).key@ == self.slots@[j].key@ && cloned::<V>(
                        self.slots@[j].value,
                        slots@[j].value,
                    ),
            decreases self.slots@.len() - i,
        {
            let key = self.slots[i].key.clone();
            let value = self.slots[i].value.clone();
            slots.push(Slot { key, value });
            i += 1;
        }
        proof {
            let old_slots = self.slots@;
            let new_slots = slots@;
            assert forall|a: int, b: int|
                0 <= a < new_slots.len() && 0 <= b < new_slots.len() && #[trigger] new_slots[a].key@
                    == #[trigger] new_slots[b].key@ implies a == b by {
                assert(old_slots[a].key@ == old_slots[b].key@);
            }
            assert forall|k: Seq<char>| has_key(new_slots, k) <==> has_key(old_slots, k) by {
                if has_key(new_slots, k) {
                    let j = position(new_slots, k);
                    assert(old_slots[j].key@ == k);
                }
                if has_key(old_slots, k) {
                    let j = position(old_slots, k);
                    assert(new_slots[j].key@ == k);
                }
            }
            assert forall|k: Seq<char>| has_key(old_slots, k) implies position(new_slots, k)
                == position(old_slots, k) by {
                let j = position(old_slots, k);
                assert(new_slots[j].key@ == k);
                lemma_position(new_slots, j);
            }
        }
        let r = Table { slots };
        assert(r@.dom() =~= self@.dom());
        r
    }
}

/// In a list with distinct keys, the position of an entry's key is the entry's
/// own index.
pub proof fn lemma_position<V>(slots: Seq<Slot<V>>, i: int)
    requires
        distinct_keys(slots),
        0 <= i < slots.len(),
    ensures
        has_key(slots, slots[i].key@),
        position(slots, slots[i].key@) == i,
{
}

/// Where `key` stands among `slots`, if it does.
fn find<V>(slots: &Vec<Slot<V>>, key: &str) -> (r: Option<usize>)
    requires
        distinct_keys(slots@),
    ensures
        match r {
            Some(i) => i < slots@.len() && slots@[i as int].key@ == key@ && position(
                slots@,
                key@,
            ) == i,
            None => !has_key(slots@, key@),
        },
{
    let mut i: usize = 0;
    while i < slots.len()
        invariant
            i <= slots@.len(),
            forall|j: int| 0 <= j < i ==> slots@[j].key@ != key@,
            distinct_keys(slots@),
        decreases slots@.len() - i,
    {
        if same_text(slots[i].key.as_str(), key) {
            return Some(i);
        }
        i += 1;
    }
    None
}

} // verus!
