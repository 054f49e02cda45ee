//! The registry of disputable amounts: what each accepted deposit was worth,
//! until a resolve or a chargeback settles it.

use crate::amount::{units_of, Amount};
use crate::types::ClientTx;
use std::collections::HashMap;
use vstd::prelude::*;
use vstd::set_lib::lemma_map_size;

verus! {

/// The integer under which the entry of `key` is stored: the client in the
/// upper bits, the transaction id in the lower 32.
pub open spec fn slot_of(key: ClientTx) -> u64 {
    (key.0 as u64 * 0x1_0000_0000 + key.1 as u64) as u64
}

/// The key whose entry is stored under `slot`.
pub open spec fn key_at(slot: u64) -> ClientTx {
    ((slot / 0x1_0000_0000) as u16, (slot % 0x1_0000_0000) as u32)
}

/// Whether some key is stored under `slot`.
pub open spec fn is_slot(slot: u64) -> bool {
    slot < 0x1_0000_0000_0000
}

/// Distinct keys have distinct slots.
pub proof fn lemma_slots_are_distinct(a: ClientTx, b: ClientTx)
    ensures
        is_slot(slot_of(a)),
        key_at(slot_of(a)) == a,
        slot_of(a) == slot_of(b) <==> a == b,
{
}

/// A map from `(client, transaction id)` to the amount of that deposit.
///
/// The view is the map of these amounts in ten-thousandths.
pub struct Registry {
    entries: HashMap<u64, Amount>,
}

impl View for Registry {
    type V = Map<ClientTx, int>;

    closed spec fn view(&self) -> Map<ClientTx, int> {
        Map::new(
            |key: ClientTx| self.entries@.contains_key(slot_of(key)),
            |key: ClientTx| self.entries@[slot_of(key)]@,
        )
    }
}

/// What a look-up of `key` in `map` gives.
pub open spec fn lookup(map: Map<ClientTx, int>, key: ClientTx) -> Option<int> {
    if map.contains_key(key) {
        Some(map[key])
    } else {
        None
    }
}

impl Registry {
    #[verifier::type_invariant]
    closed spec fn inv(self) -> bool {
        forall|slot: u64| #[trigger] self.entries@.contains_key(slot) ==> is_slot(slot)
    }

    /// An empty registry.
    pub fn new() -> (r: Registry)
        ensures
            r@ == Map::<ClientTx, int>::empty(),
    {
        Registry { entries: HashMap::new() }
    }

    /// The number of entries.
    pub fn len(&self) -> (r: usize)
        ensures
            r == self@.len(),
            self@.dom().finite(),
    {
        broadcast use vstd::std_specs::hash::group_hash_axioms;

        proof {
            use_type_invariant(self);
            let slots = self.entries@.dom();
            let keys = self@.dom();
            let at = |slot: u64| key_at(slot);
            assert forall|key: ClientTx| keys.contains(key) <==> slots.map(at).contains(key) by {
                lemma_slots_are_distinct(key, key);
            }
            assert(slots.map(at) =~= keys);
            lemma_map_size(slots, keys, at);
        }
        self.entries.len()
    }

    /// The amount recorded under `key`, if there is one.
    pub fn get(&self, key: ClientTx) -> (r: Option<Amount>)
        ensures
            units_of(r) == lookup(self@, key),
    {
        broadcast use vstd::std_specs::hash::group_hash_axioms;

        let slot = Self::slot(key);
        match self.entries.get(&slot) {
            Some(amount) => Some(*amount),
            None => None,
        }
    }

    /// Records `amount` under `key`, in place of what was there; returns
    /// what was there.
    pub fn insert(&mut self, key: ClientTx, amount: Amount) -> (r: Option<Amount>)
        ensures
            final(self)@ == old(self)@.insert(key, amount@),
            units_of(r) == lookup(old(self)@, key),
    {
        broadcast use vstd::std_specs::hash::group_hash_axioms;

        proof {
            use_type_invariant(&*self);
        }
        let slot = Self::slot(key);
        let mut entries = HashMap::new();
        std::mem::swap(&mut self.entries, &mut entries);
        let previous = entries.insert(slot, amount);
        self.entries = entries;
        proof {
            assert forall|other: ClientTx| slot_of(other) == slot implies other == key by {
                lemma_slots_are_distinct(other, key);
            }
        }
        previous
    }

    /// Records `amount` under `key` unless the key has an entry already.
    pub fn insert_if_absent(&mut self, key: ClientTx, amount: Amount)
        ensures
            final(self)@ == if old(self)@.contains_key(key) {
                old(self)@
            } else {
                old(self)@.insert(key, amount@)
            },
    {
        if self.get(key).is_none() {
            self.insert(key, amount);
        }
    }

    /// Removes the entry of `key`; returns what was there.
    pub fn remove(&mut self, key: ClientTx) -> (r: Option<Amount>)
        ensures
            final(self)@ == old(self)@.remove(key),
            units_of(r) == lookup(old(self)@, key),
    {
        broadcast use vstd::std_specs::hash::group_hash_axioms;

        proof {
            use_type_invariant(&*self);
        }
        let slot = Self::slot(key);
        let mut entries = HashMap::new();
        std::mem::swap(&mut self.entries, &mut entries);
        let previous = entries.remove(&slot);
        self.entries = entries;
        proof {
            assert forall|other: ClientTx| slot_of(other) == slot implies other == key by {
                lemma_slots_are_distinct(other, key);
            }
        }
        previous
    }

    /// The slot of `key`.
    fn slot(key: ClientTx) -> (r: u64)
        ensures
            r == slot_of(key),
            is_slot(r),
    {
        let client: u64 = key.0 as u64;
        let tx: u64 = key.1 as u64;
        client * 0x1_0000_0000 + tx
    }
}

} // verus!
