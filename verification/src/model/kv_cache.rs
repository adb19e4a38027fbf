//! The key/value cache of a transformer: one optional entry per layer.

use vstd::prelude::*;

use crate::text::{decimal, decimal_string};

verus! {

/// The cached keys and values of one layer.
#[derive(Debug, Clone)]
pub struct KVCacheEntry<T> {
    pub k: T,
    pub v: T,
}

/// A key/value cache with one slot per transformer layer.
#[derive(Debug, Clone)]
pub struct KVCache<T> {
    /// One entry per layer; `None` until the layer is filled.
    pub layers: Vec<Option<KVCacheEntry<T>>>,
    /// The longest sequence the cache supports.
    pub max_seq_len: usize,
    /// How many tokens the cache holds.
    pub current_pos: usize,
}

impl<T> KVCache<T> {
    /// A cache for `num_layers` layers, all empty, at position 0.
    pub fn new(num_layers: usize, max_seq_len: usize) -> (c: Self)
        ensures
            c.layers@.len() == num_layers,
            forall|i: int| 0 <= i < num_layers ==> c.layers@[i] is None,
            c.max_seq_len == max_seq_len,
            c.current_pos == 0,
    {
        let mut layers: Vec<Option<KVCacheEntry<T>>> = Vec::new();
        let mut i: usize = 0;
        while i < num_layers
            invariant
                i <= num_layers,
                layers@.len() == i,
                forall|j: int| 0 <= j < i ==> layers@[j] is None,
            decreases num_layers - i,
        {
            layers.push(None);
            i = i + 1;
        }
        KVCache { layers, max_seq_len, current_pos: 0 }
    }

    /// Stores the keys and values of layer `layer_idx`, replacing what it
    /// held. An index past the last layer is refused and changes nothing.
    pub fn update(&mut self, layer_idx: usize, new_k: T, new_v: T) -> (r: Result<(), String>)
        ensures
            layer_idx < old(self).layers@.len() ==> {
                &&& r is Ok
                &&& final(self).layers@ == old(self).layers@.update(
                    layer_idx as int,
                    Some(KVCacheEntry { k: new_k, v: new_v }),
                )
            },
            layer_idx >= old(self).layers@.len() ==> {
                &&& r matches Err(m) && m@ == "layer index "@ + decimal(layer_idx as nat)
                    + " out of bounds"@
                &&& final(self).layers@ == old(self).layers@
            },
            final(self).max_seq_len == old(self).max_seq_len,
            final(self).current_pos == old(self).current_pos,
    {
        if layer_idx >= self.layers.len() {
            let mut m = "layer index ".to_owned();
            let digits = decimal_string(layer_idx as u64);
            m.append(digits.as_str());
            m.append(" out of bounds");
            return Err(m);
        }
        self.layers.set(layer_idx, Some(KVCacheEntry { k: new_k, v: new_v }));
        Ok(())
    }

    /// Empties every layer and resets the position to 0.
    pub fn clear(&mut self)
        ensures
            final(self).layers@.len() == old(self).layers@.len(),
            forall|i: int| 0 <= i < final(self).layers@.len() ==> final(self).layers@[i] is None,
            final(self).max_seq_len == old(self).max_seq_len,
            final(self).current_pos == 0,
    {
        let mut i: usize = 0;
        while i < self.layers.len()
            invariant
                i <= self.layers@.len(),
                self.layers@.len() == old(self).layers@.len(),
                self.max_seq_len == old(self).max_seq_len,
                forall|j: int| 0 <= j < i ==> self.layers@[j] is None,
            decreases self.layers@.len() - i,
        {
            self.layers.set(i, None);
            i = i + 1;
        }
        self.current_pos = 0;
    }
}

} // verus!
