//! The key-value store with lazy expiry.
//!
//! A store is a finite map from keys to entries. An entry holds a value and,
//! optionally, the instant at which it expires, in milliseconds since a
//! fixed epoch. Nothing sweeps the store: an entry that has expired stays
//! until a `get` for its key finds it, and that `get` removes it.
//!
//! The store never reads a clock. Every operation that depends on the time
//! takes it as an argument.

use vstd::prelude::*;
use vstd::slice::slice_to_vec;
use crate::text::same_bytes;

verus! {

/// What the store holds for one key.
pub struct Entry {
    pub value: Seq<u8>,
    /// The first instant at which the entry is no longer visible, if there
    /// is one.
    pub expiry: Option<u128>,
}

/// The contents of a store.
pub type Entries = Map<Seq<u8>, Entry>;

/// Whether an entry with this expiry is gone at `now`.
pub open spec fn expired(expiry: Option<u128>, now: u128) -> bool {
    expiry matches Some(at) && at <= now
}

/// What a `get` for `key` at `now` returns: the value of the entry, if
/// there is one and it has not expired.
pub open spec fn lookup(entries: Entries, key: Seq<u8>, now: u128) -> Option<Seq<u8>> {
    if entries.contains_key(key) && !expired(entries[key].expiry, now) {
        Some(entries[key].value)
    } else {
        None
    }
}

/// What a `get` for `key` at `now` leaves behind: the same entries, but for
/// the one under `key` if it has expired.
pub open spec fn after_get(entries: Entries, key: Seq<u8>, now: u128) -> Entries {
    if entries.contains_key(key) && expired(entries[key].expiry, now) {
        entries.remove(key)
    } else {
        entries
    }
}

/// What a `set` leaves behind: the entry under `key` is the new one, whether
/// or not there was one before.
pub open spec fn after_set(
    entries: Entries,
    key: Seq<u8>,
    value: Seq<u8>,
    expiry: Option<u128>,
) -> Entries {
    entries.insert(key, Entry { value, expiry })
}

struct Slot {
    key: Vec<u8>,
    value: Vec<u8>,
    expiry: Option<u128>,
}

/// A map from byte-string keys to values with optional expiry.
pub struct Store {
    /// One slot per key; no key occurs twice.
    slots: Vec<Slot>,
}

spec fn entry_of(slot: Slot) -> Entry {
    Entry { value: slot.value@, expiry: slot.expiry }
}

spec fn has_key(slots: Seq<Slot>, key: Seq<u8>) -> bool {
    exists|i: int| 0 <= i < slots.len() && (#[trigger] slots[i]).key@ == key
}

spec fn index_of(slots: Seq<Slot>, key: Seq<u8>) -> int {
    choose|i: int| 0 <= i < slots.len() && (#[trigger] slots[i]).key@ == key
}

spec fn distinct(slots: Seq<Slot>) -> bool {
    forall|i: int, j: int|
        0 <= i < j < slots.len() ==> (#[trigger] slots[i]).key@ != (#[trigger] slots[j]).key@
}

spec fn model(slots: Seq<Slot>) -> Entries {
    Map::new(
        |key: Seq<u8>| has_key(slots, key),
        |key: Seq<u8>| entry_of(slots[index_of(slots, key)]),
    )
}

/// With distinct keys, the slot at `j` is the one found under its key.
proof fn lemma_slot(slots: Seq<Slot>, j: int)
    requires
        distinct(slots),
        0 <= j < slots.len(),
    ensures
        has_key(slots, slots[j].key@),
        index_of(slots, slots[j].key@) == j,
        model(slots).contains_key(slots[j].key@),
        model(slots)[slots[j].key@] == entry_of(slots[j]),
{
    let key = slots[j].key@;
    let found = index_of(slots, key);
    assert(0 <= found < slots.len() && slots[found].key@ == key);
    if found < j {
        assert(slots[found].key@ != slots[j].key@);
    } else if j < found {
        assert(slots[j].key@ != slots[found].key@);
    }
}

/// A key that the model holds sits in some slot.
proof fn lemma_key(slots: Seq<Slot>, key: Seq<u8>)
    requires
        model(slots).contains_key(key),
    ensures
        0 <= index_of(slots, key) < slots.len(),
        slots[index_of(slots, key)].key@ == key,
{
}

/// Replacing the slot at `i` by one with the same key replaces the entry.
proof fn lemma_replace(before: Seq<Slot>, i: int, slot: Slot)
    requires
        distinct(before),
        0 <= i < before.len(),
        before[i].key@ == slot.key@,
    ensures
        distinct(before.update(i, slot)),
        model(before.update(i, slot)) == model(before).insert(slot.key@, entry_of(slot)),
{
    let after = before.update(i, slot);
    assert(distinct(after)) by {
        assert forall|a: int, b: int| 0 <= a < b < after.len() implies (#[trigger] after[a]).key@
            != (#[trigger] after[b]).key@ by {
            assert(after[a].key@ == before[a].key@);
            assert(after[b].key@ == before[b].key@);
        }
    }
    let expected = model(before).insert(slot.key@, entry_of(slot));
    assert forall|key: Seq<u8>| model(after).contains_key(key) implies expected.contains_key(key)
        && expected[key] == model(after)[key] by {
        lemma_key(after, key);
        let j = index_of(after, key);
        lemma_slot(after, j);
        if j != i {
            assert(before[j].key@ == key);
            lemma_slot(before, j);
            assert(before[j].key@ != before[i].key@);
        }
    }
    assert forall|key: Seq<u8>| expected.contains_key(key) implies model(after).contains_key(
        key,
    ) by {
        if key == slot.key@ {
            lemma_slot(after, i);
        } else {
            lemma_key(before, key);
            let j = index_of(before, key);
            assert(after[j].key@ == key);
        }
    }
    assert(model(after) =~= expected);
}

/// Adding a slot whose key is new adds its entry.
proof fn lemma_add(before: Seq<Slot>, slot: Slot)
    requires
        distinct(before),
        !has_key(before, slot.key@),
    ensures
        distinct(before.push(slot)),
        model(before.push(slot)) == model(before).insert(slot.key@, entry_of(slot)),
{
    let after = before.push(slot);
    let last = before.len() as int;
    assert(distinct(after)) by {
        assert forall|a: int, b: int| 0 <= a < b < after.len() implies (#[trigger] after[a]).key@
            != (#[trigger] after[b]).key@ by {
            assert(after[a] == before[a]);
            if b < last {
                assert(after[b] == before[b]);
            }
        }
    }
    let expected = model(before).insert(slot.key@, entry_of(slot));
    assert forall|key: Seq<u8>| model(after).contains_key(key) implies expected.contains_key(key)
        && expected[key] == model(after)[key] by {
        lemma_key(after, key);
        let j = index_of(after, key);
        lemma_slot(after, j);
        if j != last {
            assert(before[j].key@ == key);
            lemma_slot(before, j);
        }
    }
    assert forall|key: Seq<u8>| expected.contains_key(key) implies model(after).contains_key(
        key,
    ) by {
        if key == slot.key@ {
            lemma_slot(after, last);
        } else {
            lemma_key(before, key);
            let j = index_of(before, key);
            assert(after[j].key@ == key);
        }
    }
    assert(model(after) =~= expected);
}

/// Taking out the slot at `i` takes out its entry and no other.
proof fn lemma_take_out(before: Seq<Slot>, i: int)
    requires
        distinct(before),
        0 <= i < before.len(),
    ensures
        distinct(before.remove(i)),
        model(before.remove(i)) == model(before).remove(before[i].key@),
{
    let after = before.remove(i);
    assert(distinct(after)) by {
        assert forall|a: int, b: int| 0 <= a < b < after.len() implies (#[trigger] after[a]).key@
            != (#[trigger] after[b]).key@ by {
            let a0 = if a < i { a } else { a + 1 };
            let b0 = if b < i { b } else { b + 1 };
            assert(after[a] == before[a0]);
            assert(after[b] == before[b0]);
        }
    }
    let gone = before[i].key@;
    let expected = model(before).remove(gone);
    assert forall|key: Seq<u8>| model(after).contains_key(key) implies expected.contains_key(key)
        && expected[key] == model(after)[key] by {
        lemma_key(after, key);
        let j = index_of(after, key);
        lemma_slot(after, j);
        let j0 = if j < i { j } else { j + 1 };
        assert(after[j] == before[j0]);
        lemma_slot(before, j0);
        if j0 < i {
            assert(before[j0].key@ != before[i].key@);
        } else {
            assert(before[i].key@ != before[j0].key@);
        }
    }
    assert forall|key: Seq<u8>| expected.contains_key(key) implies model(after).contains_key(
        key,
    ) by {
        lemma_key(before, key);
        let j0 = index_of(before, key);
        let j = if j0 < i { j0 } else { j0 - 1 };
        assert(after[j] == before[j0]);
    }
    assert(model(after) =~= expected);
}

impl View for Store {
    type V = Entries;

    closed spec fn view(&self) -> Entries {
        model(self.slots@)
    }
}

impl Store {
    #[verifier::type_invariant]
    spec fn keys_distinct(&self) -> bool {
        distinct(self.slots@)
    }

    /// A store that holds nothing.
    pub fn new() -> (store: Store)
        ensures
            store@ == Entries::empty(),
    {
        let store = Store { slots: Vec::new() };
        store
    }

    /// Hands out the slots and leaves the store empty, so that the caller
    /// can change them and put them back.
    fn take_slots(&mut self) -> (slots: Vec<Slot>)
        ensures
            slots@ == old(self).slots@,
            final(self).slots@ == Seq::<Slot>::empty(),
    {
        let mut slots: Vec<Slot> = Vec::new();
        core::mem::swap(&mut self.slots, &mut slots);
        slots
    }

    /// The slot that holds `key`, if there is one.
    fn find(&self, key: &[u8]) -> (r: Option<usize>)
        ensures
            match r {
                Some(i) => i < self.slots.len() && self.slots[i as int].key@ == key@,
                None => !has_key(self.slots@, key@),
            },
    {
        let mut i: usize = 0;
        while i < self.slots.len()
            invariant
                i <= self.slots.len(),
                forall|j: int| 0 <= j < i ==> (#[trigger] self.slots[j]).key@ != key@,
            decreases self.slots.len() - i,
        {
            if same_bytes(self.slots[i].key.as_slice(), key) {
                return Some(i);
            }
            i += 1;
        }
        None
    }

    /// Whether the store holds an entry under `key`, expired or not.
    pub fn contains_key(&self, key: &[u8]) -> (r: bool)
        ensures
            r == self@.contains_key(key@),
    {
        self.find(key).is_some()
    }

    /// Puts `value` under `key`, in place of whatever was there. With
    /// `expiry` absent the entry never expires.
    pub fn set(&mut self, key: Vec<u8>, value: Vec<u8>, expiry: Option<u128>)
        ensures
            final(self)@ == after_set(old(self)@, key@, value@, expiry),
    {
        proof {
            use_type_invariant(&*self);
        }
        let found = self.find(key.as_slice());
        let slot = Slot { key, value, expiry };
        match found {
            Some(i) => {
                proof {
                    lemma_replace(self.slots@, i as int, slot);
                }
                let mut slots = self.take_slots();
                slots[i] = slot;
                self.slots = slots;
            },
            None => {
                proof {
                    lemma_add(self.slots@, slot);
                }
                let mut slots = self.take_slots();
                slots.push(slot);
                self.slots = slots;
            },
        }
    }

    /// Takes out the entry under `key`, if there is one, and says whether
    /// there was.
    pub fn remove(&mut self, key: &[u8]) -> (r: bool)
        ensures
            r == old(self)@.contains_key(key@),
            final(self)@ == old(self)@.remove(key@),
    {
        proof {
            use_type_invariant(&*self);
        }
        match self.find(key) {
            Some(i) => {
                proof {
                    lemma_take_out(self.slots@, i as int);
                    lemma_slot(self.slots@, i as int);
                }
                let mut slots = self.take_slots();
                slots.remove(i);
                self.slots = slots;
                true
            },
            None => {
                false
            },
        }
    }

    /// Looks `key` up at the instant `now`.
    ///
    /// Returns the value if the store holds an entry under `key` that has
    /// not expired. An entry that has expired is taken out; in every other
    /// case the store is left as it was.
    pub fn get(&mut self, key: &[u8], now: u128) -> (r: Option<Vec<u8>>)
        ensures
            match r {
                Some(value) => lookup(old(self)@, key@, now) == Some(value@),
                None => lookup(old(self)@, key@, now) is None,
            },
            final(self)@ == after_get(old(self)@, key@, now),
    {
        proof {
            use_type_invariant(&*self);
        }
        match self.find(key) {
            Some(i) => {
                proof {
                    lemma_slot(self.slots@, i as int);
                    lemma_take_out(self.slots@, i as int);
                }
                let gone = match self.slots[i].expiry {
                    Some(at) => at <= now,
                    None => false,
                };
                if gone {
                    let mut slots = self.take_slots();
                    slots.remove(i);
                    self.slots = slots;
                    None
                } else {
                    Some(slice_to_vec(self.slots[i].value.as_slice()))
                }
            },
            None => None,
        }
    }
}

} // verus!
