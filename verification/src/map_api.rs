//! The capability contracts: `MapKey` pairs a key type with its value type;
//! `MapApiRO` is the uniform read contract (merged point lookup and merged
//! range scan); `MapApi` extends it with point writes. Every combinator in the
//! crate implements these against the same stack model, so all views expose
//! identical read and merge semantics.

use vstd::prelude::*;

use crate::key_range::KeyRange;
use crate::level_model::{
    entries_view, key_sorted, level_set, multiset_sum, stack_get, stack_inv, stack_ranges,
    stored_val,
};
use crate::Val;

verus! {

/// A key type usable by the map, paired with the value type stored under it.
pub trait MapKey {
    /// The value type stored under this key type.
    type V;
}

impl MapKey for String {
    type V = Val;
}

/// Read-only map operations over a stack of layers in recency order (newest
/// first).
pub trait MapApiRO {
    /// The stack of layer models this reader merges, newest first.
    spec fn levels_model(&self) -> Seq<Seq<(Seq<char>, Val)>>;

    /// The merged point lookup: the first layer's non-sentinel value for
    /// `key`, in recency order, or the sentinel if every layer yields the
    /// sentinel.
    fn get(&self, key: &String) -> (r: Val)
        requires
            stack_inv(self.levels_model()),
        ensures
            r == stack_get(self.levels_model(), key@),
    ;

    /// The merged bounded scan: its keys are non-decreasing, and its entries
    /// are exactly the multiset union of every layer's own bounded entries.
    /// No cross-layer deduplication takes place, and no order among entries
    /// with equal keys is promised.
    fn range(&self, bounds: &KeyRange) -> (out: Vec<(String, Val)>)
        requires
            stack_inv(self.levels_model()),
        ensures
            key_sorted(entries_view(out@)),
            entries_view(out@).to_multiset() == multiset_sum(
                stack_ranges(self.levels_model(), *bounds),
            ),
    ;
}

/// Map operations: reads plus a point write into the writable (newest) layer.
pub trait MapApi: MapApiRO {
    /// Write `value` under `key` into the writable layer; `None` stores the
    /// sentinel, a tombstone marker rather than a physical delete. Returns
    /// the previous merged value for `key` across the whole stack, and the
    /// value stored. Only the newest layer changes; frozen layers are never
    /// touched.
    fn set(&mut self, key: String, value: Option<Val>) -> (r: (Val, Val))
        requires
            stack_inv(old(self).levels_model()),
            old(self).levels_model().len() >= 1,
        ensures
            final(self).levels_model() == old(self).levels_model().update(
                0,
                level_set(old(self).levels_model()[0], key@, stored_val(value)),
            ),
            stack_inv(final(self).levels_model()),
            r.0 == stack_get(old(self).levels_model(), key@),
            r.1 == stored_val(value),
    ;
}

} // verus!
