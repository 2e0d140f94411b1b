//! A map keyed by a row's identity: its relation and its primary-key body.
use vstd::prelude::*;
use vstd::string::*;

verus! {

/// A row's identity: its relation and the body of its primary-key tuple.
pub type RowKey = (u32, Seq<char>);

struct Slot<V> {
    oid: u32,
    key: String,
    value: V,
}

/// A map from row identities to values.
pub struct KeyMap<V> {
    slots: Vec<Slot<V>>,
}

spec fn slot_key<V>(slot: Slot<V>) -> RowKey {
    (slot.oid, slot.key@)
}

spec fn slots_distinct<V>(slots: Seq<Slot<V>>) -> bool {
    forall|i: int, j: int|
        #![trigger slot_key(slots[i]), slot_key(slots[j])]
        0 <= i < j < slots.len() ==> slot_key(slots[i]) != slot_key(slots[j])
}

spec fn slots_have<V>(slots: Seq<Slot<V>>, k: RowKey) -> bool {
    exists|i: int| 0 <= i < slots.len() && slot_key(#[trigger] slots[i]) == k
}

spec fn slots_value<V>(slots: Seq<Slot<V>>, k: RowKey) -> V {
    slots[choose|i: int| 0 <= i < slots.len() && slot_key(#[trigger] slots[i]) == k].value
}

spec fn slots_map<V>(slots: Seq<Slot<V>>) -> Map<RowKey, V> {
    Map::new(|k: RowKey| slots_have(slots, k), |k: RowKey| slots_value(slots, k))
}

/// In a map without duplicate keys, the slot that carries a key gives its value.
proof fn lemma_slot_value<V>(slots: Seq<Slot<V>>, i: int)
    requires
        slots_distinct(slots),
        0 <= i < slots.len(),
    ensures
        slots_map(slots).contains_key(slot_key(slots[i])),
        slots_map(slots)[slot_key(slots[i])] == slots[i].value,
{
    let k = slot_key(slots[i]);
    assert(slots_have(slots, k));
    let j = choose|j: int| 0 <= j < slots.len() && slot_key(#[trigger] slots[j]) == k;
    assert(slot_key(slots[j]) == slot_key(slots[i]));
    assert(i == j);
}

/// Adding a slot with a new key inserts it.
proof fn lemma_slots_push<V>(slots: Seq<Slot<V>>, slot: Slot<V>)
    requires
        slots_distinct(slots),
        !slots_have(slots, slot_key(slot)),
    ensures
        slots_distinct(slots.push(slot)),
        slots_map(slots.push(slot)) == slots_map(slots).insert(slot_key(slot), slot.value),
{
    let after = slots.push(slot);
    assert(slots_distinct(after)) by {
        assert forall|i: int, j: int|
            #![trigger slot_key(after[i]), slot_key(after[j])]
            0 <= i < j < after.len() implies slot_key(after[i]) != slot_key(after[j]) by {
            assert(after[i] == slots[i]);
            if j < slots.len() {
                assert(after[j] == slots[j]);
            }
        }
    }
    assert forall|k: RowKey| slots_have(after, k) <==> slots_have(slots, k) || k == slot_key(
        slot,
    ) by {
        if slots_have(slots, k) {
            let i = choose|i: int| 0 <= i < slots.len() && slot_key(#[trigger] slots[i]) == k;
            assert(after[i] == slots[i]);
        }
        if slots_have(after, k) {
            let i = choose|i: int| 0 <= i < after.len() && slot_key(#[trigger] after[i]) == k;
            if i < slots.len() {
                assert(after[i] == slots[i]);
            }
        }
        assert(after[slots.len() as int] == slot);
    }
    assert forall|k: RowKey| #[trigger] slots_have(after, k) implies slots_map(after)[k]
        == slots_map(slots).insert(slot_key(slot), slot.value)[k] by {
        let i = choose|i: int| 0 <= i < after.len() && slot_key(#[trigger] after[i]) == k;
        lemma_slot_value(after, i);
        if i < slots.len() {
            assert(after[i] == slots[i]);
            lemma_slot_value(slots, i);
        }
    }
    assert(slots_map(after) =~= slots_map(slots).insert(slot_key(slot), slot.value));
}

/// Taking out one slot by moving the last into its place removes its key.
proof fn lemma_slots_swap_remove<V>(slots: Seq<Slot<V>>, at: int, after: Seq<Slot<V>>)
    requires
        slots_distinct(slots),
        0 <= at < slots.len(),
        after =~= slots.update(at, slots.last()).drop_last(),
    ensures
        slots_distinct(after),
        slots_map(after) == slots_map(slots).remove(slot_key(slots[at])),
{
    let gone = slot_key(slots[at]);
    let n = slots.len() - 1;
    assert forall|i: int| 0 <= i < after.len() implies after[i] == slots[if i == at { n } else { i }] by {}
    assert(slots_distinct(after)) by {
        assert forall|i: int, j: int|
            #![trigger slot_key(after[i]), slot_key(after[j])]
            0 <= i < j < after.len() implies slot_key(after[i]) != slot_key(after[j]) by {
            let x = if i == at { n } else { i };
            let y = if j == at { n } else { j };
            assert(slot_key(after[i]) == slot_key(slots[x]));
            assert(slot_key(after[j]) == slot_key(slots[y]));
            assert(x != y);
        }
    }
    assert forall|k: RowKey| slots_have(after, k) <==> slots_have(slots, k) && k != gone by {
        if slots_have(after, k) {
            let i = choose|i: int| 0 <= i < after.len() && slot_key(#[trigger] after[i]) == k;
            let x = if i == at { n } else { i };
            assert(slot_key(slots[x]) == k);
            assert(x != at);
            assert(slot_key(slots[x]) != slot_key(slots[at]));
        }
        if slots_have(slots, k) && k != gone {
            let x = choose|x: int| 0 <= x < slots.len() && slot_key(#[trigger] slots[x]) == k;
            let i = if x == n { at } else { x };
            assert(x != at);
            assert(i < after.len());
            assert(after[i] == slots[x]);
        }
    }
    assert forall|k: RowKey| #[trigger] slots_have(after, k) implies slots_map(after)[k]
        == slots_map(slots)[k] by {
        let i = choose|i: int| 0 <= i < after.len() && slot_key(#[trigger] after[i]) == k;
        let x = if i == at { n } else { i };
        lemma_slot_value(after, i);
        lemma_slot_value(slots, x);
    }
    assert(slots_map(after) =~= slots_map(slots).remove(gone));
}

/// A map holds finitely many rows.
proof fn lemma_slots_finite<V>(slots: Seq<Slot<V>>)
    requires
        slots_distinct(slots),
    ensures
        slots_map(slots).dom().finite(),
    decreases slots.len(),
{
    if slots.len() == 0 {
        assert(slots_map(slots).dom() =~= Set::<RowKey>::empty());
    } else {
        let at = slots.len() - 1;
        lemma_slots_swap_remove(slots, at, slots.drop_last());
        lemma_slots_finite(slots.drop_last());
        lemma_slot_value(slots, at);
        assert(slots_map(slots).dom() =~= slots_map(slots.drop_last()).dom().insert(
            slot_key(slots[at]),
        ));
    }
}

/// The entries of a map outside one relation.
pub open spec fn outside_relation<V>(m: Map<RowKey, V>, oid: u32) -> Map<RowKey, V> {
    Map::new(|k: RowKey| m.contains_key(k) && k.0 != oid, |k: RowKey| m[k])
}

impl<V> View for KeyMap<V> {
    type V = Map<RowKey, V>;

    closed spec fn view(&self) -> Map<RowKey, V> {
        slots_map(self.slots@)
    }
}

impl<V> KeyMap<V> {
    #[verifier::type_invariant]
    spec fn inv(self) -> bool {
        slots_distinct(self.slots@)
    }

    /// The empty map.
    pub fn new() -> (m: KeyMap<V>)
        ensures
            m@ == Map::<RowKey, V>::empty(),
    {
        let m = KeyMap { slots: Vec::new() };
        proof {
            assert(m@ =~= Map::<RowKey, V>::empty());
        }
        m
    }

    fn slot_find(&self, oid: u32, key: &String) -> (found: Option<usize>)
        ensures
            match found {
                Some(i) => i < self.slots@.len() && slot_key(self.slots@[i as int]) == (oid, key@),
                None => !slots_have(self.slots@, (oid, key@)),
            },
    {
        let mut i: usize = 0;
        while i < self.slots.len()
            invariant
                i <= self.slots.len(),
                forall|j: int| 0 <= j < i ==> slot_key(#[trigger] self.slots@[j]) != (oid, key@),
            decreases self.slots.len() - i,
        {
            if self.slots[i].oid == oid && self.slots[i].key == *key {
                return Some(i);
            }
            i = i + 1;
        }
        None
    }

    /// The value of a row, if it has one.
    pub fn get(&self, oid: u32, key: &String) -> (value: Option<&V>)
        ensures
            match value {
                Some(v) => self@.contains_key((oid, key@)) && self@[(oid, key@)] == *v,
                None => !self@.contains_key((oid, key@)),
            },
    {
        proof {
            use_type_invariant(&*self);
        }
        match self.slot_find(oid, key) {
            Some(i) => {
                proof {
                    lemma_slot_value(self.slots@, i as int);
                }
                Some(&self.slots[i].value)
            },
            None => None,
        }
    }

    /// Whether the row has a value.
    pub fn contains(&self, oid: u32, key: &String) -> (found: bool)
        ensures
            found == self@.contains_key((oid, key@)),
    {
        self.get(oid, key).is_some()
    }

    /// Whether no row has a value.
    pub fn is_empty(&self) -> (empty: bool)
        ensures
            empty == (self@ == Map::<RowKey, V>::empty()),
    {
        proof {
            use_type_invariant(&*self);
            if self.slots@.len() == 0 {
                assert(self@ =~= Map::<RowKey, V>::empty());
            } else {
                lemma_slot_value(self.slots@, 0);
            }
        }
        self.slots.len() == 0
    }

    /// Give the row a value.
    pub fn insert(&mut self, oid: u32, key: String, value: V)
        ensures
            final(self)@ == old(self)@.insert((oid, key@), value),
    {
        self.remove(oid, &key);
        proof {
            use_type_invariant(&*self);
            assert(!self@.contains_key((oid, key@)));
            lemma_slots_push(self.slots@, Slot { oid, key, value });
        }
        let ghost removed = self@;
        let ghost row = (oid, key@);
        let mut slots: Vec<Slot<V>> = Vec::new();
        std::mem::swap(&mut slots, &mut self.slots);
        slots.push(Slot { oid, key, value });
        self.slots = slots;
        proof {
            assert(self@ == removed.insert(row, value));
            assert(self@ =~= old(self)@.insert(row, value));
        }
    }

    /// Take a row's value away.
    pub fn remove(&mut self, oid: u32, key: &String)
        ensures
            final(self)@ == old(self)@.remove((oid, key@)),
    {
        proof {
            use_type_invariant(&*self);
        }
        match self.slot_find(oid, key) {
            Some(i) => {
                let ghost before = self.slots@;
                proof {
                    lemma_slots_swap_remove(
                        before,
                        i as int,
                        before.update(i as int, before.last()).drop_last(),
                    );
                }
                let mut slots: Vec<Slot<V>> = Vec::new();
                std::mem::swap(&mut slots, &mut self.slots);
                slots.swap_remove(i);
                self.slots = slots;
            },
            None => {
                proof {
                    assert(self@ =~= old(self)@.remove((oid, key@)));
                }
            },
        }
    }

    /// Take the values of a relation's rows away.
    pub fn relation_remove(&mut self, oid: u32)
        ensures
            final(self)@ == outside_relation(old(self)@, oid),
    {
        let ghost start = self@;
        proof {
            use_type_invariant(&*self);
        }
        let mut slots: Vec<Slot<V>> = Vec::new();
        std::mem::swap(&mut slots, &mut self.slots);
        let mut i: usize = 0;
        while i < slots.len()
            invariant
                i <= slots.len(),
                slots_distinct(slots@),
                outside_relation(slots_map(slots@), oid) == outside_relation(start, oid),
                forall|j: int| 0 <= j < i ==> (#[trigger] slots@[j]).oid != oid,
            decreases slots.len() - i,
        {
            if slots[i].oid == oid {
                let ghost before = slots@;
                proof {
                    lemma_slots_swap_remove(
                        before,
                        i as int,
                        before.update(i as int, before.last()).drop_last(),
                    );
                }
                slots.swap_remove(i);
                proof {
                    assert(outside_relation(slots_map(slots@), oid) =~= outside_relation(
                        slots_map(before),
                        oid,
                    ));
                }
            } else {
                i = i + 1;
            }
        }
        proof {
            assert forall|k: RowKey| slots_map(slots@).contains_key(k) implies k.0 != oid by {
                let j = choose|j: int|
                    0 <= j < slots@.len() && slot_key(#[trigger] slots@[j]) == k;
                assert(slots@[j].oid != oid);
            }
            assert(slots_map(slots@) =~= outside_relation(slots_map(slots@), oid));
        }
        self.slots = slots;
    }

    /// Take some row and its value out, if there is one.
    pub fn pop(&mut self) -> (entry: Option<(u32, String, V)>)
        ensures
            match entry {
                Some((oid, key, value)) => {
                    &&& old(self)@.contains_key((oid, key@))
                    &&& old(self)@[(oid, key@)] == value
                    &&& final(self)@ == old(self)@.remove((oid, key@))
                    &&& final(self)@.dom().finite()
                    &&& final(self)@.len() < old(self)@.len()
                },
                None => old(self)@ == Map::<RowKey, V>::empty() && final(self)@ == old(self)@,
            },
            old(self)@.dom().finite(),
    {
        proof {
            use_type_invariant(&*self);
            lemma_slots_finite(self.slots@);
        }
        let mut slots: Vec<Slot<V>> = Vec::new();
        std::mem::swap(&mut slots, &mut self.slots);
        let ghost before = slots@;
        match slots.pop() {
            Some(slot) => {
                proof {
                    let at = before.len() - 1;
                    lemma_slots_swap_remove(before, at, before.drop_last());
                    lemma_slot_value(before, at);
                }
                self.slots = slots;
                Some((slot.oid, slot.key, slot.value))
            },
            None => {
                proof {
                    assert(self@ =~= Map::<RowKey, V>::empty());
                    assert(old(self)@ =~= Map::<RowKey, V>::empty());
                }
                None
            },
        }
    }

    /// Take every value away.
    pub fn clear(&mut self)
        ensures
            final(self)@ == Map::<RowKey, V>::empty(),
    {
        self.slots = Vec::new();
        proof {
            assert(self@ =~= Map::<RowKey, V>::empty());
        }
    }
}

} // verus!
