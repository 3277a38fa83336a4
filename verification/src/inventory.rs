use std::collections::HashMap;
use vstd::prelude::*;
use crate::items::{ItemKind, item_code, item_index};

verus! {

broadcast use vstd::std_specs::hash::group_hash_axioms;

/// How many of each item a player carries. Items never added count 0.
#[derive(Clone, Debug)]
pub struct Inventory {
    /// Keyed by `item_code`.
    counts: HashMap<u8, u32>,
}

impl Inventory {
    /// The number of `item` held.
    pub closed spec fn count(self, item: ItemKind) -> nat {
        let k = item_index(item) as u8;
        if self.counts@.contains_key(k) {
            self.counts@[k] as nat
        } else {
            0
        }
    }

    /// An inventory holding nothing.
    pub fn new() -> (inv: Inventory)
        ensures
            forall|i: ItemKind| inv.count(i) == 0,
    {
        Inventory { counts: HashMap::new() }
    }

    /// Adds `n` of `item`.
    pub fn add(&mut self, item: ItemKind, n: u32)
        requires
            old(self).count(item) + n <= u32::MAX,
        ensures
            forall|i: ItemKind| #[trigger] final(self).count(i) == if i == item {
                old(self).count(i) + n as nat
            } else {
                old(self).count(i)
            },
    {
        if n == 0 {
            return;
        }
        let c = self.get(item);
        let k = item_code(item);
        self.counts.insert(k, c + n);
        proof {
            assert forall|i: ItemKind| #[trigger] self.count(i) == if i == item {
                old(self).count(i) + n as nat
            } else {
                old(self).count(i)
            } by {
                crate::items::lemma_item_index_bijective(i, item, 0);
            }
        }
    }

    /// Removes up to `n` of `item`; the count never drops below zero.
    pub fn remove(&mut self, item: ItemKind, n: u32)
        ensures
            forall|i: ItemKind| #[trigger] final(self).count(i) == if i == item {
                if old(self).count(i) >= n { (old(self).count(i) - n) as nat } else { 0 }
            } else {
                old(self).count(i)
            },
    {
        let k = item_code(item);
        let cur = match self.counts.get(&k) {
            Some(c) => Some(*c),
            None => None,
        };
        if let Some(c) = cur {
            let left = if c >= n { c - n } else { 0 };
            self.counts.insert(k, left);
        }
        proof {
            assert forall|i: ItemKind| #[trigger] self.count(i) == if i == item {
                if old(self).count(i) >= n { (old(self).count(i) - n) as nat } else { 0 }
            } else {
                old(self).count(i)
            } by {
                crate::items::lemma_item_index_bijective(i, item, 0);
            }
        }
    }

    /// The number of `item` held.
    pub fn get(&self, item: ItemKind) -> (c: u32)
        ensures
            c == self.count(item),
    {
        let k = item_code(item);
        match self.counts.get(&k) {
            Some(c) => *c,
            None => 0,
        }
    }
}

impl Default for Inventory {
    fn default() -> (inv: Inventory)
        ensures
            forall|i: ItemKind| inv.count(i) == 0,
    {
        Inventory::new()
    }
}

} // verus!
